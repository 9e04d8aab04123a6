//! The tick processor: consumes one batch of media input per time window,
//! appends newly decoded audio to the active entries, and flushes the
//! speakers reported silent.

use vstd::prelude::*;

use crate::registry::Registry;

verus! {

/// One batch of media input for a single time window: newly decoded samples
/// keyed by source id for currently speaking sources, and the source ids
/// reported silent in this window.
pub struct TickBatch {
    pub active: Vec<(u32, Vec<i16>)>,
    pub silent: Vec<u32>,
}

/// The durable identity and detached buffer of one completed speaking turn,
/// handed off for encoding and upload.
pub struct DispatchJob {
    pub durable_id: String,
    pub samples: Vec<i16>,
}

/// What one tick produced: the dispatch jobs of the speakers flushed in this
/// window, in the order their source ids stood in the silent half, and the
/// source ids whose chunks found no entry (anomalies for the caller to log).
pub struct TickOutcome {
    pub jobs: Vec<DispatchJob>,
    pub missed: Vec<u32>,
}

/// The active half of a batch as a sequence of (source id, chunk) pairs.
pub open spec fn active_view(active: Seq<(u32, Vec<i16>)>) -> Seq<(u32, Seq<i16>)> {
    active.map_values(|p: (u32, Vec<i16>)| (p.0, p.1@))
}

/// The jobs a tick produced, as (durable identity, samples) pairs.
pub open spec fn jobs_view(jobs: Seq<DispatchJob>) -> Seq<(Seq<char>, Seq<i16>)> {
    jobs.map_values(|j: DispatchJob| (j.durable_id@, j.samples@))
}

/// One append: when the source id is tracked its buffer grows by the chunk,
/// in place and at the end; otherwise nothing changes.
pub open spec fn append_chunk(
    m: Map<u32, (Seq<i16>, Seq<char>)>,
    key: u32,
    chunk: Seq<i16>,
) -> Map<u32, (Seq<i16>, Seq<char>)> {
    if m.dom().contains(key) {
        m.insert(key, (m[key].0 + chunk, m[key].1))
    } else {
        m
    }
}

/// The registry contents after the whole active half of a batch is applied,
/// in delivery order.
pub open spec fn apply_appends(
    m: Map<u32, (Seq<i16>, Seq<char>)>,
    active: Seq<(u32, Seq<i16>)>,
) -> Map<u32, (Seq<i16>, Seq<char>)>
    decreases active.len(),
{
    if active.len() == 0 {
        m
    } else {
        append_chunk(
            apply_appends(m, active.drop_last()),
            active.last().0,
            active.last().1,
        )
    }
}

/// The source ids of the chunks that find no tracked entry, in delivery
/// order, one per missed chunk. Appending never creates or removes entries,
/// so a miss is decided by the contents at the start of the tick.
pub open spec fn missed_appends(
    m: Map<u32, (Seq<i16>, Seq<char>)>,
    active: Seq<(u32, Seq<i16>)>,
) -> Seq<u32>
    decreases active.len(),
{
    if active.len() == 0 {
        Seq::empty()
    } else {
        let rest = missed_appends(m, active.drop_last());
        if m.dom().contains(active.last().0) {
            rest
        } else {
            rest.push(active.last().0)
        }
    }
}

/// The registry contents after every source id in the silent half has had
/// its entry removed; a silent source id with no entry changes nothing.
pub open spec fn apply_silence(
    m: Map<u32, (Seq<i16>, Seq<char>)>,
    silent: Seq<u32>,
) -> Map<u32, (Seq<i16>, Seq<char>)>
    decreases silent.len(),
{
    if silent.len() == 0 {
        m
    } else {
        apply_silence(m, silent.drop_last()).remove(silent.last())
    }
}

/// The flushes the silent half causes, as (durable identity, samples) pairs
/// in order: one job per silent source id whose entry exists and holds audio
/// at the moment it is reached; a silent entry with an empty buffer is
/// discarded without a job.
pub open spec fn jobs_of(
    m: Map<u32, (Seq<i16>, Seq<char>)>,
    silent: Seq<u32>,
) -> Seq<(Seq<char>, Seq<i16>)>
    decreases silent.len(),
{
    if silent.len() == 0 {
        Seq::empty()
    } else {
        let before = apply_silence(m, silent.drop_last());
        let rest = jobs_of(m, silent.drop_last());
        let key = silent.last();
        if before.dom().contains(key) && before[key].0.len() > 0 {
            rest.push((before[key].1, before[key].0))
        } else {
            rest
        }
    }
}

/// The registry contents after one whole tick: appends first, then silence.
pub open spec fn apply_tick(
    m: Map<u32, (Seq<i16>, Seq<char>)>,
    active: Seq<(u32, Seq<i16>)>,
    silent: Seq<u32>,
) -> Map<u32, (Seq<i16>, Seq<char>)> {
    apply_silence(apply_appends(m, active), silent)
}

/// The dispatch jobs one whole tick hands off.
pub open spec fn tick_jobs(
    m: Map<u32, (Seq<i16>, Seq<char>)>,
    active: Seq<(u32, Seq<i16>)>,
    silent: Seq<u32>,
) -> Seq<(Seq<char>, Seq<i16>)> {
    jobs_of(apply_appends(m, active), silent)
}

/// Appending changes no entry's existence: the tracked source ids are the
/// same before and after the active half of a tick.
pub proof fn lemma_apply_appends_dom(
    m: Map<u32, (Seq<i16>, Seq<char>)>,
    active: Seq<(u32, Seq<i16>)>,
)
    ensures
        apply_appends(m, active).dom() == m.dom(),
    decreases active.len(),
{
    if active.len() > 0 {
        lemma_apply_appends_dom(m, active.drop_last());
        let prev = apply_appends(m, active.drop_last());
        let key = active.last().0;
        if prev.dom().contains(key) {
            assert(prev.insert(key, (prev[key].0 + active.last().1, prev[key].1)).dom()
                =~= m.dom());
        }
    }
}

/// The chunks the active half of a batch delivers for one source id,
/// concatenated in delivery order.
pub open spec fn chunks_for(active: Seq<(u32, Seq<i16>)>, key: u32) -> Seq<i16>
    decreases active.len(),
{
    if active.len() == 0 {
        Seq::empty()
    } else {
        let rest = chunks_for(active.drop_last(), key);
        if active.last().0 == key {
            rest + active.last().1
        } else {
            rest
        }
    }
}

/// Appending a batch's active half grows the tracked entry under a source id
/// by exactly that source id's chunks, concatenated in delivery order, and
/// leaves its durable identity alone.
pub proof fn lemma_appends_accumulate(
    m: Map<u32, (Seq<i16>, Seq<char>)>,
    active: Seq<(u32, Seq<i16>)>,
    key: u32,
)
    requires
        m.dom().contains(key),
    ensures
        apply_appends(m, active).dom().contains(key),
        apply_appends(m, active)[key].0 == m[key].0 + chunks_for(active, key),
        apply_appends(m, active)[key].1 == m[key].1,
    decreases active.len(),
{
    lemma_apply_appends_dom(m, active);
    if active.len() == 0 {
        assert(m[key].0 + chunks_for(active, key) =~= m[key].0);
    } else {
        lemma_appends_accumulate(m, active.drop_last(), key);
        let last = active.last();
        if last.0 == key {
            assert(m[key].0 + chunks_for(active, key)
                =~= (m[key].0 + chunks_for(active.drop_last(), key)) + last.1);
        }
    }
}

/// A source id that a silence sequence never names keeps its entry, and the
/// entry's contents, through the whole silent half of a tick.
pub proof fn lemma_silence_preserves_others(
    m: Map<u32, (Seq<i16>, Seq<char>)>,
    silent: Seq<u32>,
    key: u32,
)
    requires
        !silent.contains(key),
    ensures
        apply_silence(m, silent).dom().contains(key) == m.dom().contains(key),
        m.dom().contains(key) ==> apply_silence(m, silent)[key] == m[key],
    decreases silent.len(),
{
    if silent.len() > 0 {
        assert(!silent.drop_last().contains(key)) by {
            if silent.drop_last().contains(key) {
                let idx = choose|idx: int|
                    0 <= idx < silent.drop_last().len() && silent.drop_last()[idx] == key;
                assert(silent[idx] == key);
            }
        }
        assert(silent.last() != key) by {
            if silent.last() == key {
                assert(silent[silent.len() - 1] == key);
            }
        }
        lemma_silence_preserves_others(m, silent.drop_last(), key);
    }
}

/// The silent half of a tick only removes entries: whatever remains tracked
/// afterwards was tracked before, with the same contents.
pub proof fn lemma_silence_is_restriction(
    m: Map<u32, (Seq<i16>, Seq<char>)>,
    silent: Seq<u32>,
)
    ensures
        forall|k: u32|
            #[trigger] apply_silence(m, silent).dom().contains(k) ==> m.dom().contains(k)
                && apply_silence(m, silent)[k] == m[k],
    decreases silent.len(),
{
    if silent.len() > 0 {
        lemma_silence_is_restriction(m, silent.drop_last());
        assert forall|k: u32| #[trigger] apply_silence(m, silent).dom().contains(k)
            implies m.dom().contains(k) && apply_silence(m, silent)[k] == m[k] by {
            assert(apply_silence(m, silent)
                == apply_silence(m, silent.drop_last()).remove(silent.last()));
            assert(apply_silence(m, silent.drop_last()).dom().contains(k));
        }
    }
}

/// An entry survives a tick's silent half exactly when its source id is not
/// reported silent.
pub proof fn lemma_apply_silence_dom(
    m: Map<u32, (Seq<i16>, Seq<char>)>,
    silent: Seq<u32>,
    key: u32,
)
    ensures
        apply_silence(m, silent).dom().contains(key) <==> (m.dom().contains(key)
            && !silent.contains(key)),
    decreases silent.len(),
{
    if silent.len() == 0 {
        assert(!silent.contains(key)) by {
            if silent.contains(key) {
                let idx = choose|idx: int| 0 <= idx < silent.len() && silent[idx] == key;
            }
        }
    } else {
        let dl = silent.drop_last();
        lemma_apply_silence_dom(m, dl, key);
        assert(silent.contains(key) <==> (dl.contains(key) || silent.last() == key)) by {
            if silent.contains(key) {
                let idx = choose|idx: int| 0 <= idx < silent.len() && silent[idx] == key;
                if idx < silent.len() - 1 {
                    assert(dl[idx] == key);
                }
            }
            if dl.contains(key) {
                let idx = choose|idx: int| 0 <= idx < dl.len() && dl[idx] == key;
                assert(silent[idx] == key);
            }
            if silent.last() == key {
                assert(silent[silent.len() - 1] == key);
            }
        }
    }
}

/// Process one tick batch against the registry: append every chunk of the
/// active half in order, then flush every source id of the silent half in
/// order. A flushed entry leaves the registry; its buffer becomes a dispatch
/// job exactly when it is nonempty. Processing one speaker never touches
/// another speaker's entry.
pub fn process_tick(reg: &mut Registry, batch: &TickBatch) -> (out: TickOutcome)
    ensures
        final(reg)@ == apply_tick(old(reg)@, active_view(batch.active@), batch.silent@),
        jobs_view(out.jobs@) == tick_jobs(old(reg)@, active_view(batch.active@), batch.silent@),
        out.missed@ == missed_appends(old(reg)@, active_view(batch.active@)),
{
    let ghost m0 = reg@;
    let ghost av = active_view(batch.active@);
    let mut missed: Vec<u32> = Vec::new();
    let mut i: usize = 0;
    while i < batch.active.len()
        invariant
            i <= batch.active.len(),
            av == active_view(batch.active@),
            reg@ == apply_appends(m0, av.subrange(0, i as int)),
            missed@ == missed_appends(m0, av.subrange(0, i as int)),
        decreases batch.active.len() - i,
    {
        let source_id = batch.active[i].0;
        proof {
            lemma_apply_appends_dom(m0, av.subrange(0, i as int));
        }
        let hit = reg.append(source_id, batch.active[i].1.as_slice());
        if !hit {
            missed.push(source_id);
        }
        proof {
            assert(av.subrange(0, i + 1).drop_last() =~= av.subrange(0, i as int));
            assert(av.subrange(0, i + 1).last() == av[i as int]);
        }
        i += 1;
    }
    proof {
        assert(av.subrange(0, batch.active@.len() as int) =~= av);
    }
    let ghost m1 = reg@;
    let mut jobs: Vec<DispatchJob> = Vec::new();
    let mut j: usize = 0;
    while j < batch.silent.len()
        invariant
            j <= batch.silent.len(),
            m1 == apply_appends(m0, av),
            reg@ == apply_silence(m1, batch.silent@.subrange(0, j as int)),
            jobs_view(jobs@) == jobs_of(m1, batch.silent@.subrange(0, j as int)),
        decreases batch.silent.len() - j,
    {
        let source_id = batch.silent[j];
        let ghost jobs_before = jobs@;
        match reg.remove_entry(source_id) {
            Option::Some(p) => {
                let (durable_id, samples) = p;
                if samples.len() > 0 {
                    jobs.push(DispatchJob { durable_id, samples });
                }
            },
            Option::None => {},
        }
        proof {
            assert(batch.silent@.subrange(0, j + 1).drop_last()
                =~= batch.silent@.subrange(0, j as int));
            assert(batch.silent@.subrange(0, j + 1).last() == batch.silent@[j as int]);
            if jobs@ != jobs_before {
                assert(jobs_view(jobs@) =~= jobs_view(jobs_before).push(
                    (jobs@.last().durable_id@, jobs@.last().samples@),
                ));
            }
        }
        j += 1;
    }
    proof {
        assert(batch.silent@.subrange(0, batch.silent@.len() as int) =~= batch.silent@);
    }
    TickOutcome { jobs, missed }
}

/// One tick batch at the spec level: the active half as (source id, chunk)
/// pairs in delivery order, and the silent half as source ids in order.
pub ghost struct TickView {
    pub active: Seq<(u32, Seq<i16>)>,
    pub silent: Seq<u32>,
}

/// The registry contents after a whole sequence of ticks, processed strictly
/// in delivery order.
pub open spec fn apply_ticks(
    m: Map<u32, (Seq<i16>, Seq<char>)>,
    ticks: Seq<TickView>,
) -> Map<u32, (Seq<i16>, Seq<char>)>
    decreases ticks.len(),
{
    if ticks.len() == 0 {
        m
    } else {
        apply_tick(
            apply_ticks(m, ticks.drop_last()),
            ticks.last().active,
            ticks.last().silent,
        )
    }
}

/// Everything a sequence of ticks delivers for one source id, concatenated
/// in delivery order.
pub open spec fn chunks_for_ticks(ticks: Seq<TickView>, key: u32) -> Seq<i16>
    decreases ticks.len(),
{
    if ticks.len() == 0 {
        Seq::empty()
    } else {
        chunks_for_ticks(ticks.drop_last(), key) + chunks_for(ticks.last().active, key)
    }
}

/// For every sequence of ticks delivered while one entry stays active (its
/// source id never reported silent), the entry's final buffer is its starting
/// buffer followed by the concatenation, in delivery order, of every chunk
/// delivered for that source id, and its durable identity never changes.
pub proof fn lemma_buffer_is_concatenation(
    m: Map<u32, (Seq<i16>, Seq<char>)>,
    ticks: Seq<TickView>,
    key: u32,
)
    requires
        m.dom().contains(key),
        forall|i: int| 0 <= i < ticks.len() ==> !(#[trigger] ticks[i]).silent.contains(key),
    ensures
        apply_ticks(m, ticks).dom().contains(key),
        apply_ticks(m, ticks)[key].0 == m[key].0 + chunks_for_ticks(ticks, key),
        apply_ticks(m, ticks)[key].1 == m[key].1,
    decreases ticks.len(),
{
    if ticks.len() == 0 {
        assert(m[key].0 + chunks_for_ticks(ticks, key) =~= m[key].0);
    } else {
        let dl = ticks.drop_last();
        assert forall|i: int| 0 <= i < dl.len() implies !(#[trigger] dl[i]).silent.contains(key) by {
            assert(dl[i] == ticks[i]);
        }
        lemma_buffer_is_concatenation(m, dl, key);
        let prev = apply_ticks(m, dl);
        let t = ticks.last();
        assert(!t.silent.contains(key)) by {
            assert(t == ticks[ticks.len() - 1]);
        }
        lemma_appends_accumulate(prev, t.active, key);
        lemma_silence_preserves_others(apply_appends(prev, t.active), t.silent, key);
        assert(m[key].0 + chunks_for_ticks(ticks, key)
            =~= (m[key].0 + chunks_for_ticks(dl, key)) + chunks_for(t.active, key));
    }
}

/// A job is justified when it is the entry of some source id that was
/// reported silent while holding audio.
pub open spec fn job_justified(
    m: Map<u32, (Seq<i16>, Seq<char>)>,
    silent: Seq<u32>,
    job: (Seq<char>, Seq<i16>),
) -> bool {
    exists|k: u32| silent.contains(k) && #[trigger] m.dom().contains(k) && m[k].0.len() > 0
        && job == (m[k].1, m[k].0)
}

/// Every flush a tick's silent half emits is the entry of some source id
/// that was reported silent while holding audio.
pub proof fn lemma_jobs_sound_at(m: Map<u32, (Seq<i16>, Seq<char>)>, silent: Seq<u32>, j: int)
    requires
        0 <= j < jobs_of(m, silent).len(),
    ensures
        job_justified(m, silent, jobs_of(m, silent)[j]),
    decreases silent.len(),
{
    let dl = silent.drop_last();
    let key = silent.last();
    let before = apply_silence(m, dl);
    let rest = jobs_of(m, dl);
    if j < rest.len() {
        lemma_jobs_sound_at(m, dl, j);
        let k0 = choose|k: u32| dl.contains(k) && #[trigger] m.dom().contains(k)
            && m[k].0.len() > 0 && jobs_of(m, dl)[j] == (m[k].1, m[k].0);
        let idx = choose|idx: int| 0 <= idx < dl.len() && dl[idx] == k0;
        assert(silent[idx] == k0);
        assert(silent.contains(k0));
        assert(jobs_of(m, silent)[j] == jobs_of(m, dl)[j]);
        assert(silent.contains(k0) && m.dom().contains(k0) && m[k0].0.len() > 0
            && jobs_of(m, silent)[j] == (m[k0].1, m[k0].0));
    } else {
        lemma_silence_is_restriction(m, dl);
        assert(before.dom().contains(key) && before[key].0.len() > 0);
        assert(m.dom().contains(key) && before[key] == m[key]);
        assert(silent[silent.len() - 1] == key);
        assert(silent.contains(key));
        assert(jobs_of(m, silent)[j] == (m[key].1, m[key].0));
        assert(silent.contains(key) && m.dom().contains(key) && m[key].0.len() > 0
            && jobs_of(m, silent)[j] == (m[key].1, m[key].0));
    }
}

/// A source id that is reported silent while its entry holds audio is
/// flushed: its (durable identity, buffer) pair stands among the tick's jobs.
pub proof fn lemma_job_for_flushed(
    m: Map<u32, (Seq<i16>, Seq<char>)>,
    silent: Seq<u32>,
    key: u32,
)
    requires
        silent.contains(key),
        m.dom().contains(key),
        m[key].0.len() > 0,
    ensures
        jobs_of(m, silent).contains((m[key].1, m[key].0)),
    decreases silent.len(),
{
    let dl = silent.drop_last();
    if dl.contains(key) {
        lemma_job_for_flushed(m, dl, key);
        let rest = jobs_of(m, dl);
        let idx = choose|idx: int| 0 <= idx < rest.len() && rest[idx] == (m[key].1, m[key].0);
        assert(jobs_of(m, silent)[idx] == (m[key].1, m[key].0));
    } else {
        assert(silent.last() == key) by {
            let idx = choose|idx: int| 0 <= idx < silent.len() && silent[idx] == key;
            if idx < silent.len() - 1 {
                assert(dl[idx] == key);
            }
        }
        lemma_silence_preserves_others(m, dl, key);
        let before = apply_silence(m, dl);
        assert(before.dom().contains(key) && before[key] == m[key]);
        let jobs = jobs_of(m, silent);
        assert(jobs[jobs.len() - 1] == (m[key].1, m[key].0));
    }
}

/// A speaker flush occurs exactly when the source id stands in the tick's
/// silent half while its entry, after this tick's appends, holds audio: then
/// and only then do the tick's jobs carry that entry, and no job ever carries
/// an empty buffer. The entry itself leaves the registry exactly when its
/// source id is reported silent, with or without audio.
pub proof fn lemma_flush_iff(
    m: Map<u32, (Seq<i16>, Seq<char>)>,
    active: Seq<(u32, Seq<i16>)>,
    silent: Seq<u32>,
    key: u32,
)
    ensures
        ({
            let appended = apply_appends(m, active);
            let jobs = tick_jobs(m, active, silent);
            &&& (silent.contains(key) && appended.dom().contains(key)
                && appended[key].0.len() > 0)
                ==> jobs.contains((appended[key].1, appended[key].0))
            &&& forall|j: int| 0 <= j < jobs.len()
                ==> job_justified(appended, silent, #[trigger] jobs[j])
            &&& forall|j: int| 0 <= j < jobs.len() ==> (#[trigger] jobs[j]).1.len() > 0
            &&& apply_tick(m, active, silent).dom().contains(key)
                <==> (appended.dom().contains(key) && !silent.contains(key))
        }),
{
    let appended = apply_appends(m, active);
    let jobs = tick_jobs(m, active, silent);
    if silent.contains(key) && appended.dom().contains(key) && appended[key].0.len() > 0 {
        lemma_job_for_flushed(appended, silent, key);
    }
    assert forall|j: int| 0 <= j < jobs.len()
        implies job_justified(appended, silent, #[trigger] jobs[j]) by {
        lemma_jobs_sound_at(appended, silent, j);
    }
    assert forall|j: int| 0 <= j < jobs.len() implies (#[trigger] jobs[j]).1.len() > 0 by {
        lemma_jobs_sound_at(appended, silent, j);
        let k0 = choose|k: u32| silent.contains(k) && #[trigger] appended.dom().contains(k)
            && appended[k].0.len() > 0 && jobs_of(appended, silent)[j] == (appended[k].1, appended[k].0);
        assert(jobs[j] == (appended[k0].1, appended[k0].0));
    }
    lemma_apply_silence_dom(appended, silent, key);
}

} // verus!
