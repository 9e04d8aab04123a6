use voice_capture::registry::Registry;
use voice_capture::tick::DispatchJob;
use voice_capture::tick::TickBatch;
use voice_capture::tick::process_tick;
use voice_capture::upload::UploadConfig;
use voice_capture::upload::prepare_dispatch;

fn batch(active: Vec<(u32, Vec<i16>)>, silent: Vec<u32>) -> TickBatch {
    TickBatch { active, silent }
}

fn test_config() -> UploadConfig {
    UploadConfig {
        endpoint: String::from("http://collector.example/turns"),
        token: String::from("sekrit"),
    }
}

#[test]
fn single_speaker_accumulates_then_flushes() {
    let mut reg = Registry::new();
    reg.insert(7, String::from("alice"));

    let out = process_tick(&mut reg, &batch(vec![(7, vec![100, -100, 50, -50])], vec![]));
    assert_eq!(out.jobs.len(), 0);
    assert_eq!(out.missed.len(), 0);
    let entry = reg.entry_clone(7).unwrap();
    assert_eq!(entry.samples, vec![100, -100, 50, -50]);
    assert_eq!(entry.durable_id, "alice");

    let out = process_tick(&mut reg, &batch(vec![], vec![7]));
    assert_eq!(out.jobs.len(), 1);
    assert_eq!(out.jobs[0].durable_id, "alice");
    assert_eq!(out.jobs[0].samples, vec![100, -100, 50, -50]);
    assert!(!reg.contains(7));

    let req = prepare_dispatch(&test_config(), &out.jobs[0]).unwrap();
    assert_eq!(req.identity, "alice");
    assert_eq!(req.url, "http://collector.example/turns");
}

#[test]
fn silent_without_audio_is_discarded_without_dispatch() {
    let mut reg = Registry::new();
    reg.insert(3, String::from("bob"));

    let out = process_tick(&mut reg, &batch(vec![], vec![3]));
    assert_eq!(out.jobs.len(), 0);
    assert!(!reg.contains(3));
}

#[test]
fn two_speakers_flush_in_one_tick_independently() {
    let mut reg = Registry::new();
    reg.insert(1, String::from("ann"));
    reg.insert(2, String::from("ben"));

    let out = process_tick(
        &mut reg,
        &batch(vec![(1, vec![10, 20]), (2, vec![-30, -40])], vec![1, 2]),
    );
    assert_eq!(out.jobs.len(), 2);
    assert_eq!(out.jobs[0].durable_id, "ann");
    assert_eq!(out.jobs[0].samples, vec![10, 20]);
    assert_eq!(out.jobs[1].durable_id, "ben");
    assert_eq!(out.jobs[1].samples, vec![-30, -40]);
    assert!(!reg.contains(1));
    assert!(!reg.contains(2));

    let config = test_config();
    let first = prepare_dispatch(&config, &out.jobs[0]).unwrap();
    let second = prepare_dispatch(&config, &out.jobs[1]).unwrap();
    assert_eq!(first.identity, "ann");
    assert_eq!(second.identity, "ben");
    assert_ne!(first.body, second.body);
}

#[test]
fn append_without_entry_is_a_logged_miss_not_an_error() {
    let mut reg = Registry::new();
    let hit = reg.append(9, &[1, 2, 3]);
    assert!(!hit);
    assert!(!reg.contains(9));

    let out = process_tick(&mut reg, &batch(vec![(9, vec![1, 2, 3])], vec![]));
    assert_eq!(out.missed, vec![9]);
    assert_eq!(out.jobs.len(), 0);
    assert!(!reg.contains(9));
}

#[test]
fn buffer_is_concatenation_of_chunks_in_delivery_order() {
    let mut reg = Registry::new();
    reg.insert(4, String::from("dora"));
    process_tick(&mut reg, &batch(vec![(4, vec![1, 2])], vec![]));
    process_tick(&mut reg, &batch(vec![], vec![]));
    process_tick(&mut reg, &batch(vec![(4, vec![3]), (4, vec![4, 5])], vec![]));
    let entry = reg.entry_clone(4).unwrap();
    assert_eq!(entry.samples, vec![1, 2, 3, 4, 5]);
}

#[test]
fn rejoin_after_flush_starts_from_an_empty_buffer() {
    let mut reg = Registry::new();
    reg.insert(5, String::from("carol"));
    process_tick(&mut reg, &batch(vec![(5, vec![7, 8])], vec![]));
    let out = process_tick(&mut reg, &batch(vec![], vec![5]));
    assert_eq!(out.jobs.len(), 1);

    reg.insert(5, String::from("carol"));
    let entry = reg.entry_clone(5).unwrap();
    assert_eq!(entry.samples.len(), 0);
    assert_eq!(entry.durable_id, "carol");
}

#[test]
fn join_overwrites_a_stale_entry() {
    let mut reg = Registry::new();
    reg.insert(6, String::from("old"));
    reg.append(6, &[9, 9]);
    reg.insert(6, String::from("new"));
    let entry = reg.entry_clone(6).unwrap();
    assert_eq!(entry.samples.len(), 0);
    assert_eq!(entry.durable_id, "new");
}

#[test]
fn remove_if_nonempty_leaves_an_empty_entry_in_place() {
    let mut reg = Registry::new();
    reg.insert(8, String::from("ed"));
    assert!(reg.remove_if_nonempty(8).is_none());
    assert!(reg.contains(8));

    reg.append(8, &[11]);
    let (durable, samples) = reg.remove_if_nonempty(8).unwrap();
    assert_eq!(durable, "ed");
    assert_eq!(samples, vec![11]);
    assert!(!reg.contains(8));
    assert!(reg.remove_if_nonempty(8).is_none());
}

#[test]
fn still_speaking_with_no_new_samples_is_not_flushed() {
    let mut reg = Registry::new();
    reg.insert(12, String::from("flo"));
    process_tick(&mut reg, &batch(vec![(12, vec![1])], vec![]));
    let out = process_tick(&mut reg, &batch(vec![], vec![]));
    assert_eq!(out.jobs.len(), 0);
    let entry = reg.entry_clone(12).unwrap();
    assert_eq!(entry.samples, vec![1]);
}

#[test]
fn flush_includes_samples_appended_in_the_same_tick() {
    let mut reg = Registry::new();
    reg.insert(2, String::from("gus"));
    let out = process_tick(&mut reg, &batch(vec![(2, vec![5, 6])], vec![2]));
    assert_eq!(out.jobs.len(), 1);
    assert_eq!(out.jobs[0].samples, vec![5, 6]);
    assert!(!reg.contains(2));
}

#[test]
fn dispatch_jobs_are_detached_from_the_registry() {
    let mut reg = Registry::new();
    reg.insert(1, String::from("ivy"));
    process_tick(&mut reg, &batch(vec![(1, vec![3, 4])], vec![]));
    let out = process_tick(&mut reg, &batch(vec![], vec![1]));
    let job: &DispatchJob = &out.jobs[0];

    reg.insert(1, String::from("ivy"));
    process_tick(&mut reg, &batch(vec![(1, vec![9])], vec![]));
    assert_eq!(job.samples, vec![3, 4]);
}
