use std::io::Cursor;

use voice_capture::tick::DispatchJob;
use voice_capture::upload::UploadConfig;
use voice_capture::upload::build_upload;
use voice_capture::wav::encode_wav;

fn le16(bytes: &[u8], at: usize) -> u16 {
    u16::from_le_bytes([bytes[at], bytes[at + 1]])
}

fn le32(bytes: &[u8], at: usize) -> u32 {
    u32::from_le_bytes([bytes[at], bytes[at + 1], bytes[at + 2], bytes[at + 3]])
}

#[test]
fn empty_input_yields_a_bare_header() {
    let out = encode_wav(&vec![]);
    assert_eq!(out.len(), 44);
    assert_eq!(&out[0..4], b"RIFF");
    assert_eq!(le32(&out, 4), 36);
    assert_eq!(&out[8..12], b"WAVE");
    assert_eq!(&out[12..16], b"fmt ");
    assert_eq!(le32(&out, 16), 16);
    assert_eq!(le16(&out, 20), 1);
    assert_eq!(le16(&out, 22), 2);
    assert_eq!(le32(&out, 24), 44100);
    assert_eq!(le32(&out, 28), 176400);
    assert_eq!(le16(&out, 32), 4);
    assert_eq!(le16(&out, 34), 16);
    assert_eq!(&out[36..40], b"data");
    assert_eq!(le32(&out, 40), 0);
}

#[test]
fn two_stereo_pairs_declare_eight_data_bytes() {
    // Two stereo sample pairs are four samples; the declared data length must
    // be 2 * 2 * 2 bytes, and the format fields must not depend on the count.
    let out = encode_wav(&vec![100, -100, 50, -50]);
    assert_eq!(out.len(), 52);
    assert_eq!(le32(&out, 4), 44);
    assert_eq!(le16(&out, 22), 2);
    assert_eq!(le32(&out, 24), 44100);
    assert_eq!(le16(&out, 34), 16);
    assert_eq!(le32(&out, 40), 8);
    assert_eq!(&out[44..52], &[100, 0, 156, 255, 50, 0, 206, 255]);
}

#[test]
fn samples_are_two_byte_little_endian_twos_complement() {
    let out = encode_wav(&vec![0, 1, -1, 256, -256, i16::MAX, i16::MIN]);
    assert_eq!(le32(&out, 40), 14);
    assert_eq!(
        &out[44..58],
        &[0, 0, 1, 0, 255, 255, 0, 1, 0, 255, 255, 127, 0, 128]
    );
}

#[test]
fn container_matches_the_reference_wav_writer() {
    let samples: Vec<i16> = vec![100, -100, 50, -50, 0, 32767, -32768, 12345];
    let spec = hound::WavSpec {
        channels: 2,
        sample_rate: 44100,
        bits_per_sample: 16,
        sample_format: hound::SampleFormat::Int,
    };
    let mut reference: Vec<u8> = Vec::new();
    {
        let mut writer = hound::WavWriter::new(Cursor::new(&mut reference), spec).unwrap();
        for s in &samples {
            writer.write_sample(*s).unwrap();
        }
        writer.finalize().unwrap();
    }
    assert_eq!(encode_wav(&samples), reference);
}

#[test]
fn upload_request_carries_identity_credential_and_payload() {
    let config = UploadConfig {
        endpoint: String::from("https://collector.example/ingest"),
        token: String::from("abc123"),
    };
    let req = build_upload(&config, "alice", vec![1, 2, 3]);
    assert_eq!(req.url, "https://collector.example/ingest");
    assert_eq!(req.identity, "alice");
    assert_eq!(req.authorization, "Bearer abc123");
    assert_eq!(req.content_type, "audio/wav");
    assert_eq!(req.body, vec![1, 2, 3]);
}

#[test]
fn dispatch_body_is_the_encoded_buffer() {
    let config = UploadConfig {
        endpoint: String::from("https://collector.example/ingest"),
        token: String::from("abc123"),
    };
    let job = DispatchJob {
        durable_id: String::from("bob"),
        samples: vec![100, -100],
    };
    let req = voice_capture::upload::prepare_dispatch(&config, &job).unwrap();
    assert_eq!(req.identity, "bob");
    assert_eq!(req.body, encode_wav(&vec![100, -100]));
    assert_eq!(le32(&req.body, 40), 4);
}
