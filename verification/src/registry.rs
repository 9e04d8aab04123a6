//! The speaker registry: a concurrent mapping from an ephemeral source id to
//! the accumulation state of one speaking turn.
//!
//! The shared structure itself is `dashmap::DashMap`; every access goes
//! through a trusted wrapper whose contract is stated over the abstract
//! contents of the map.

use vstd::prelude::*;

use dashmap::DashMap;

verus! {

/// Number of samples pre-allocated for a fresh entry: about ten seconds of
/// stereo audio at 44.1 kHz, so that a typical speech burst causes no
/// reallocation.
pub const DEFAULT_SAMPLE_COUNT: usize = 44100 * 10 * 2;

/// Accumulation state for one speaking turn: the durable identity of the
/// participant, fixed at creation, and the samples gathered so far.
pub struct SpeakerEntry {
    pub durable_id: String,
    pub samples: Vec<i16>,
}

#[verifier::external_type_specification]
#[verifier::external_body]
#[verifier::reject_recursive_types(K)]
#[verifier::reject_recursive_types(V)]
#[verifier::reject_recursive_types(S)]
pub struct ExDashMap<K, V, S>(DashMap<K, V, S>);

/// What the shared map holds: for each tracked source id, the sample sequence
/// accumulated so far and the durable identity it was created with.
pub uninterp spec fn dash_contents(m: DashMap<u32, SpeakerEntry>) -> Map<u32, (Seq<i16>, Seq<char>)>;

/// The contents of a registry that tracks no sources.
pub open spec fn empty_contents() -> Map<u32, (Seq<i16>, Seq<char>)> {
    Map::empty()
}

/// Relies on `dashmap::DashMap::with_capacity`: a newly created map holds
/// nothing.
#[verifier::external_body]
fn dash_new() -> (m: DashMap<u32, SpeakerEntry>)
    ensures
        dash_contents(m) == empty_contents(),
{
    DashMap::with_capacity(10)
}

/// Relies on `dashmap::DashMap::insert`: the key is mapped to the new value,
/// replacing any entry previously under it.
#[verifier::external_body]
fn dash_insert(m: &mut DashMap<u32, SpeakerEntry>, key: u32, value: SpeakerEntry)
    ensures
        dash_contents(*final(m)) == dash_contents(*old(m)).insert(key, (value.samples@, value.durable_id@)),
{
    m.insert(key, value);
}

/// Relies on `dashmap::DashMap::get_mut` and `Vec::extend_from_slice`: when
/// the key is present, the chunk is appended in place to that entry's
/// samples; when it is absent, nothing changes.
#[verifier::external_body]
fn dash_append(m: &mut DashMap<u32, SpeakerEntry>, key: u32, chunk: &[i16]) -> (hit: bool)
    ensures
        hit == dash_contents(*old(m)).dom().contains(key),
        dash_contents(*final(m)) == (if hit {
            dash_contents(*old(m)).insert(
                key,
                (dash_contents(*old(m))[key].0 + chunk@, dash_contents(*old(m))[key].1),
            )
        } else {
            dash_contents(*old(m))
        }),
{
    if let Some(mut entry) = m.get_mut(&key) {
        entry.samples.extend_from_slice(chunk);
        true
    } else {
        false
    }
}

/// Relies on `dashmap::DashMap::remove`: the entry under the key, if any, is
/// removed from the map and handed back.
#[verifier::external_body]
fn dash_remove(m: &mut DashMap<u32, SpeakerEntry>, key: u32) -> (r: Option<SpeakerEntry>)
    ensures
        dash_contents(*final(m)) == dash_contents(*old(m)).remove(key),
        (match r {
            Option::Some(entry) => dash_contents(*old(m)).dom().contains(key)
                && entry.samples@ == dash_contents(*old(m))[key].0
                && entry.durable_id@ == dash_contents(*old(m))[key].1,
            Option::None => !dash_contents(*old(m)).dom().contains(key),
        }),
{
    m.remove(&key).map(|kv| kv.1)
}

/// Relies on `dashmap::DashMap::remove_if`: the entry under the key is
/// removed and handed back only when the supplied test accepts it; the test
/// passed here is `has_audio`, so exactly a present, nonempty entry leaves.
#[verifier::external_body]
fn dash_remove_if_nonempty(m: &mut DashMap<u32, SpeakerEntry>, key: u32) -> (r: Option<SpeakerEntry>)
    ensures
        (match r {
            Option::Some(entry) => dash_contents(*old(m)).dom().contains(key)
                && dash_contents(*old(m))[key].0.len() > 0
                && entry.samples@ == dash_contents(*old(m))[key].0
                && entry.durable_id@ == dash_contents(*old(m))[key].1
                && dash_contents(*final(m)) == dash_contents(*old(m)).remove(key),
            Option::None => (!(dash_contents(*old(m)).dom().contains(key)
                && dash_contents(*old(m))[key].0.len() > 0))
                && dash_contents(*final(m)) == dash_contents(*old(m)),
        }),
{
    m.remove_if(&key, |_, entry| has_audio(entry)).map(|kv| kv.1)
}

/// Relies on `dashmap::DashMap::get`: a clone of the entry under the key, or
/// nothing when the key is absent.
#[verifier::external_body]
fn dash_get_clone(m: &DashMap<u32, SpeakerEntry>, key: u32) -> (r: Option<SpeakerEntry>)
    ensures
        (match r {
            Option::Some(entry) => dash_contents(*m).dom().contains(key)
                && entry.samples@ == dash_contents(*m)[key].0
                && entry.durable_id@ == dash_contents(*m)[key].1,
            Option::None => !dash_contents(*m).dom().contains(key),
        }),
{
    m.get(&key).map(|entry| SpeakerEntry {
        durable_id: entry.durable_id.clone(),
        samples: entry.samples.clone(),
    })
}

/// Relies on `dashmap::DashMap::contains_key`: whether the key is present.
#[verifier::external_body]
fn dash_contains(m: &DashMap<u32, SpeakerEntry>, key: u32) -> (r: bool)
    ensures
        r == dash_contents(*m).dom().contains(key),
{
    m.contains_key(&key)
}

/// Whether the entry has accumulated any audio.
pub fn has_audio(entry: &SpeakerEntry) -> (nonempty: bool)
    ensures
        nonempty == (entry.samples@.len() > 0),
{
    entry.samples.len() > 0
}

/// The registry of all currently speaking sources. At most one live entry
/// exists per source id; a source id present here is an active,
/// not-yet-flushed speaking turn.
pub struct Registry {
    map: DashMap<u32, SpeakerEntry>,
}

impl View for Registry {
    type V = Map<u32, (Seq<i16>, Seq<char>)>;

    closed spec fn view(&self) -> Map<u32, (Seq<i16>, Seq<char>)> {
        dash_contents(self.map)
    }
}

impl Registry {
    /// A fresh registry tracking no sources.
    pub fn new() -> (r: Registry)
        ensures
            r@ == empty_contents(),
    {
        Registry { map: dash_new() }
    }

    /// On speaker join: create an entry for the source id with an empty,
    /// pre-sized buffer and the given durable identity. Idempotent per source
    /// id, last writer wins: any stale entry is overwritten, so a rejoin
    /// after a flush always starts from an empty buffer.
    pub fn insert(&mut self, source_id: u32, durable_id: String)
        ensures
            final(self)@ == old(self)@.insert(source_id, (Seq::<i16>::empty(), durable_id@)),
    {
        let samples: Vec<i16> = Vec::with_capacity(DEFAULT_SAMPLE_COUNT);
        dash_insert(&mut self.map, source_id, SpeakerEntry { durable_id, samples });
    }

    /// Append newly decoded samples to the entry under the source id, in
    /// place and preserving order. When no entry exists the chunk is dropped,
    /// no entry is created, and `false` is returned so the caller can log the
    /// anomaly; this is not an error.
    pub fn append(&mut self, source_id: u32, chunk: &[i16]) -> (hit: bool)
        ensures
            hit == old(self)@.dom().contains(source_id),
            hit ==> final(self)@ == old(self)@.insert(
                source_id,
                (old(self)@[source_id].0 + chunk@, old(self)@[source_id].1),
            ),
            !hit ==> final(self)@ == old(self)@,
    {
        dash_append(&mut self.map, source_id, chunk)
    }

    /// Remove and return the entry under the source id, whatever its buffer
    /// holds; nothing when the source id is untracked. The returned buffer is
    /// fully detached: no later operation on the registry can observe it.
    pub fn remove_entry(&mut self, source_id: u32) -> (r: Option<(String, Vec<i16>)>)
        ensures
            final(self)@ == old(self)@.remove(source_id),
            (match r {
                Option::Some(p) => old(self)@.dom().contains(source_id)
                    && p.0@ == old(self)@[source_id].1
                    && p.1@ == old(self)@[source_id].0,
                Option::None => !old(self)@.dom().contains(source_id),
            }),
    {
        match dash_remove(&mut self.map, source_id) {
            Option::Some(entry) => Option::Some((entry.durable_id, entry.samples)),
            Option::None => Option::None,
        }
    }

    /// Atomically remove and return the entry's durable identity and buffer,
    /// but only when the source id is tracked and its buffer is nonempty;
    /// otherwise the registry is unchanged and nothing is returned.
    pub fn remove_if_nonempty(&mut self, source_id: u32) -> (r: Option<(String, Vec<i16>)>)
        ensures
            (match r {
                Option::Some(p) => old(self)@.dom().contains(source_id)
                    && old(self)@[source_id].0.len() > 0
                    && p.0@ == old(self)@[source_id].1
                    && p.1@ == old(self)@[source_id].0
                    && final(self)@ == old(self)@.remove(source_id),
                Option::None => (!(old(self)@.dom().contains(source_id)
                    && old(self)@[source_id].0.len() > 0))
                    && final(self)@ == old(self)@,
            }),
    {
        match dash_remove_if_nonempty(&mut self.map, source_id) {
            Option::Some(entry) => Option::Some((entry.durable_id, entry.samples)),
            Option::None => Option::None,
        }
    }

    /// Whether an entry currently exists for the source id.
    pub fn contains(&self, source_id: u32) -> (present: bool)
        ensures
            present == self@.dom().contains(source_id),
    {
        dash_contains(&self.map, source_id)
    }

    /// A detached copy of the entry under the source id, or nothing when the
    /// source id is untracked.
    pub fn entry_clone(&self, source_id: u32) -> (r: Option<SpeakerEntry>)
        ensures
            (match r {
                Option::Some(entry) => self@.dom().contains(source_id)
                    && entry.samples@ == self@[source_id].0
                    && entry.durable_id@ == self@[source_id].1,
                Option::None => !self@.dom().contains(source_id),
            }),
    {
        dash_get_clone(&self.map, source_id)
    }
}

/// After a flush removed a source id's entry, a join for the same source id
/// yields a fresh, empty entry with the new durable identity: no residual
/// data carries over, whatever the registry held before.
pub proof fn lemma_rejoin_fresh(
    m: Map<u32, (Seq<i16>, Seq<char>)>,
    source_id: u32,
    durable: Seq<char>,
)
    ensures
        m.remove(source_id).insert(source_id, (Seq::<i16>::empty(), durable)).dom().contains(
            source_id,
        ),
        m.remove(source_id).insert(source_id, (Seq::<i16>::empty(), durable))[source_id].0.len()
            == 0,
        m.remove(source_id).insert(source_id, (Seq::<i16>::empty(), durable))[source_id].1
            == durable,
{
}

} // verus!
