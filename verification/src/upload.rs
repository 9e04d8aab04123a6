//! The uploader's verified half: describe the single fire-and-forget HTTP
//! request for one completed speaking turn. Sending the request is the host
//! program's business; everything about its contents is pinned here.

use vstd::prelude::*;
use vstd::string::StringExecFns;

use crate::tick::DispatchJob;
use crate::wav::MAX_WAV_SAMPLES;
use crate::wav::encode_wav;
use crate::wav::wav_bytes;

verus! {

/// Configuration the uploader consumes: the endpoint every request goes to
/// and the static bearer credential applied uniformly, both read once at
/// startup and passed in explicitly.
pub struct UploadConfig {
    pub endpoint: String,
    pub token: String,
}

/// One write-style HTTP request, fully described: the configured target, the
/// identity header carrying the durable id, the authorization header, the
/// content type naming the audio container, and the encoded payload.
pub struct UploadRequest {
    pub url: String,
    pub identity: String,
    pub authorization: String,
    pub content_type: String,
    pub body: Vec<u8>,
}

/// The authorization header value carrying a bearer credential.
pub open spec fn bearer_of(token: Seq<char>) -> Seq<char> {
    "Bearer "@ + token
}

/// Describe the upload of an encoded payload for one durable identity: the
/// request targets the configured endpoint, carries the durable id in the
/// identity header, the configured credential as a bearer authorization,
/// the WAV content type, and the payload unchanged as its body.
pub fn build_upload(config: &UploadConfig, durable_id: &str, payload: Vec<u8>) -> (req:
    UploadRequest)
    ensures
        req.url@ == config.endpoint@,
        req.identity@ == durable_id@,
        req.authorization@ == bearer_of(config.token@),
        req.content_type@ == "audio/wav"@,
        req.body@ == payload@,
{
    UploadRequest {
        url: config.endpoint.clone(),
        identity: durable_id.to_owned(),
        authorization: String::from_str("Bearer ").concat(config.token.as_str()),
        content_type: String::from_str("audio/wav"),
        body: payload,
    }
}

/// Turn one dispatch job into the request that uploads it: the job's buffer
/// encoded as a WAV container for the body, the job's durable identity in
/// the identity header. Yields nothing only when the buffer exceeds what the
/// container's 32-bit size fields admit; the caller logs and drops such a
/// job.
pub fn prepare_dispatch(config: &UploadConfig, job: &DispatchJob) -> (r: Option<UploadRequest>)
    ensures
        job.samples@.len() <= MAX_WAV_SAMPLES ==> (match r {
            Option::Some(req) => req.url@ == config.endpoint@
                && req.identity@ == job.durable_id@
                && req.authorization@ == bearer_of(config.token@)
                && req.content_type@ == "audio/wav"@
                && req.body@ == wav_bytes(job.samples@),
            Option::None => false,
        }),
        job.samples@.len() > MAX_WAV_SAMPLES ==> r is None,
{
    if job.samples.len() <= MAX_WAV_SAMPLES {
        let payload = encode_wav(&job.samples);
        Option::Some(build_upload(config, job.durable_id.as_str(), payload))
    } else {
        Option::None
    }
}

} // verus!
