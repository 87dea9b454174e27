//! The provenance fabric: an append-only store of [`ProvenanceRecord`]s and
//! the operator-facing questions answered from it.
//!
//! A store rejects re-use of an existing `provenance_id` and any
//! `prev_provenance_id` that does not name a stored record, and it never
//! mutates a stored record. Reading a track's records oldest to newest
//! reconstructs exactly how the track came to be.

use vstd::prelude::*;
use vstd::string::*;

use crate::error::FabricError;
use crate::ids::{ObservationId, ProvenanceId, SourceId, TrackId};
use crate::model::{
    clone_source_ids, id_views, FusedTrackView, Magnitude, ProvenanceOp, ProvenanceRecord,
    ProvenanceRecordView,
};

verus! {

/// Whether some record of `log` carries the identifier `id`.
pub open spec fn has_id(log: Seq<ProvenanceRecordView>, id: Seq<char>) -> bool {
    exists|i: int| 0 <= i < log.len() && log[i].provenance_id == id
}

/// Whether `record` may be appended to `log`: its identifier is new, and its
/// link, if any, names a record already in `log`.
pub open spec fn appendable(log: Seq<ProvenanceRecordView>, record: ProvenanceRecordView) -> bool {
    &&& !has_id(log, record.provenance_id)
    &&& match record.prev_provenance_id {
        Some(prev) => has_id(log, prev),
        None => true,
    }
}

/// The integrity of an append-only log: identifiers are unique, and every
/// link names an earlier record.
pub open spec fn chain_intact(log: Seq<ProvenanceRecordView>) -> bool {
    &&& forall|i: int, j: int|
        0 <= i < j < log.len() ==> log[i].provenance_id != log[j].provenance_id
    &&& forall|i: int|
        0 <= i < log.len() ==> #[trigger] appendable(log.take(i), log[i])
}

/// The records of `log` that belong to `track`, in log order.
pub open spec fn records_of(log: Seq<ProvenanceRecordView>, track: Seq<char>) -> Seq<ProvenanceRecordView>
    decreases log.len(),
{
    if log.len() == 0 {
        Seq::empty()
    } else {
        let rest = records_of(log.drop_last(), track);
        if log.last().track_id == track {
            rest.push(log.last())
        } else {
            rest
        }
    }
}

/// `r` placed into `s` after every record whose version is at most its own.
pub open spec fn insert_by_version(s: Seq<ProvenanceRecordView>, r: ProvenanceRecordView) -> Seq<ProvenanceRecordView>
    decreases s.len(),
{
    if s.len() == 0 {
        seq![r]
    } else if s.last().fused_version <= r.fused_version {
        s.push(r)
    } else {
        insert_by_version(s.drop_last(), r).push(s.last())
    }
}

/// The stable sort of `s` by `fused_version`.
pub open spec fn sort_by_version(s: Seq<ProvenanceRecordView>) -> Seq<ProvenanceRecordView>
    decreases s.len(),
{
    if s.len() == 0 {
        Seq::empty()
    } else {
        insert_by_version(sort_by_version(s.drop_last()), s.last())
    }
}

/// A track's chain: its records ordered oldest to newest by `fused_version`,
/// records of equal version in log order.
pub open spec fn chain_of(log: Seq<ProvenanceRecordView>, track: Seq<char>) -> Seq<ProvenanceRecordView> {
    sort_by_version(records_of(log, track))
}

pub open spec fn views(records: Seq<ProvenanceRecord>) -> Seq<ProvenanceRecordView> {
    records.map_values(|r: ProvenanceRecord| r@)
}

proof fn lemma_insert_at(s: Seq<ProvenanceRecordView>, r: ProvenanceRecordView, k: int)
    requires
        0 <= k <= s.len(),
        forall|m: int| k <= m < s.len() ==> s[m].fused_version > r.fused_version,
        k > 0 ==> s[k - 1].fused_version <= r.fused_version,
    ensures
        insert_by_version(s, r) == s.insert(k, r),
    decreases s.len(),
{
    if s.len() == 0 {
        assert(s.insert(k, r) =~= seq![r]);
    } else if k == s.len() {
        assert(s.insert(k, r) =~= s.push(r));
    } else {
        lemma_insert_at(s.drop_last(), r, k);
        assert(s.insert(k, r) =~= s.drop_last().insert(k, r).push(s.last()));
    }
}

/// Whether `s` is ordered by non-decreasing `fused_version`.
pub open spec fn version_ordered(s: Seq<ProvenanceRecordView>) -> bool {
    forall|i: int, j: int| 0 <= i < j < s.len() ==> s[i].fused_version <= s[j].fused_version
}

proof fn lemma_insert_by_version_props(s: Seq<ProvenanceRecordView>, r: ProvenanceRecordView)
    requires
        version_ordered(s),
    ensures
        version_ordered(insert_by_version(s, r)),
        insert_by_version(s, r).to_multiset() == s.to_multiset().insert(r),
    decreases s.len(),
{
    broadcast use vstd::seq_lib::group_to_multiset_ensures;
    if s.len() == 0 {
        assert(seq![r] =~= Seq::<ProvenanceRecordView>::empty().push(r));
    } else if s.last().fused_version <= r.fused_version {
    } else {
        let rest = insert_by_version(s.drop_last(), r);
        lemma_insert_by_version_props(s.drop_last(), r);
        assert(s.drop_last().push(s.last()) =~= s);
        assert(s.to_multiset() == s.drop_last().to_multiset().insert(s.last()));
        // every element of `rest` is `r` or an element of `s.drop_last()`,
        // so none has a version above `s.last()`.
        assert forall|k: int| 0 <= k < rest.len() implies rest[k].fused_version <= s.last().fused_version by {
            assert(rest.to_multiset().count(rest[k]) > 0);
            if rest[k] != r {
                assert(s.drop_last().to_multiset().count(rest[k]) > 0);
                assert(s.drop_last().contains(rest[k]));
                let m = choose|m: int| 0 <= m < s.drop_last().len() && s.drop_last()[m] == rest[k];
                assert(s[m] == rest[k]);
            }
        }
    }
}

proof fn lemma_sort_by_version_props(s: Seq<ProvenanceRecordView>)
    ensures
        version_ordered(sort_by_version(s)),
        sort_by_version(s).to_multiset() == s.to_multiset(),
    decreases s.len(),
{
    broadcast use vstd::seq_lib::group_to_multiset_ensures;
    if s.len() > 0 {
        lemma_sort_by_version_props(s.drop_last());
        lemma_insert_by_version_props(sort_by_version(s.drop_last()), s.last());
        assert(s.drop_last().push(s.last()) =~= s);
    }
}

proof fn lemma_records_of_membership(log: Seq<ProvenanceRecordView>, track: Seq<char>)
    ensures
        forall|x: ProvenanceRecordView|
            records_of(log, track).to_multiset().count(x) == (if x.track_id == track {
                log.to_multiset().count(x)
            } else {
                0
            }),
    decreases log.len(),
{
    broadcast use vstd::seq_lib::group_to_multiset_ensures;
    if log.len() > 0 {
        lemma_records_of_membership(log.drop_last(), track);
        assert(log.drop_last().push(log.last()) =~= log);
        assert(log.to_multiset() == log.drop_last().to_multiset().insert(log.last()));
        let rest = records_of(log.drop_last(), track);
        if log.last().track_id == track {
            assert(records_of(log, track).to_multiset() == rest.to_multiset().insert(log.last()));
        }
    } else {
        assert(records_of(log, track) =~= Seq::<ProvenanceRecordView>::empty());
        assert(log =~= Seq::<ProvenanceRecordView>::empty());
    }
}

/// A track's chain is ordered oldest to newest by version, and holds each of
/// the track's stored records exactly as often as the log does, and no other
/// record.
pub proof fn lemma_chain_is_ordered_and_complete(log: Seq<ProvenanceRecordView>, track: Seq<char>)
    ensures
        version_ordered(chain_of(log, track)),
        forall|x: ProvenanceRecordView|
            chain_of(log, track).to_multiset().count(x) == (if x.track_id == track {
                log.to_multiset().count(x)
            } else {
                0
            }),
{
    lemma_sort_by_version_props(records_of(log, track));
    lemma_records_of_membership(log, track);
}

/// Every record of a track's chain is a record of the log that belongs to
/// the track.
pub proof fn lemma_chain_members(log: Seq<ProvenanceRecordView>, track: Seq<char>)
    ensures
        forall|m: int|
            0 <= m < chain_of(log, track).len() ==> (#[trigger] chain_of(log, track)[m]).track_id == track
                && log.contains(chain_of(log, track)[m]),
{
    broadcast use vstd::seq_lib::group_to_multiset_ensures;
    lemma_chain_is_ordered_and_complete(log, track);
    assert forall|m: int| 0 <= m < chain_of(log, track).len() implies (#[trigger] chain_of(log, track)[m]).track_id
        == track && log.contains(chain_of(log, track)[m]) by {
        let x = chain_of(log, track)[m];
        assert(chain_of(log, track).contains(x));
        assert(chain_of(log, track).to_multiset().count(x) > 0);
    }
}

/// Appending a record extends the chain of its own track by that record
/// and leaves every other chain as it was.
pub proof fn lemma_chain_after_append(log: Seq<ProvenanceRecordView>, r: ProvenanceRecordView, track: Seq<char>)
    ensures
        chain_of(log.push(r), track) == (if r.track_id == track {
            insert_by_version(chain_of(log, track), r)
        } else {
            chain_of(log, track)
        }),
{
    assert(log.push(r).drop_last() =~= log);
    if r.track_id == track {
        let s = records_of(log, track);
        assert(records_of(log.push(r), track) == s.push(r));
        assert(s.push(r).drop_last() =~= s);
    }
}

/// Each record of a chain links to the one before it, and the first to none.
pub open spec fn chain_linked(chain: Seq<ProvenanceRecordView>) -> bool {
    &&& chain.len() > 0 ==> chain[0].prev_provenance_id is None
    &&& forall|k: int|
        0 < k < chain.len() ==> #[trigger] chain[k].prev_provenance_id == Some(chain[k - 1].provenance_id)
}

/// Some record of `chain` lists the observation `obs` among its contributors.
pub open spec fn chain_covers(chain: Seq<ProvenanceRecordView>, obs: Seq<char>) -> bool {
    exists|k: int| 0 <= k < chain.len() && (#[trigger] chain[k]).contributing_observations.contains(obs)
}

/// A track's provenance is complete when its chain starts with the track's
/// creation and covers every observation the track lists as contributing.
pub open spec fn chain_complete(chain: Seq<ProvenanceRecordView>, track: FusedTrackView) -> bool {
    &&& chain.len() > 0
    &&& chain[0].operation == ProvenanceOp::Created
    &&& forall|j: int|
        0 <= j < track.contributing_observations.len() ==> chain_covers(
            chain,
            #[trigger] track.contributing_observations[j],
        )
}

/// The newest record of a chain has the highest version of the chain.
pub proof fn lemma_latest_has_highest_version(log: Seq<ProvenanceRecordView>, track: Seq<char>)
    requires
        chain_of(log, track).len() > 0,
    ensures
        forall|i: int| 0 <= i < chain_of(log, track).len() ==> chain_of(log, track)[i].fused_version
            <= chain_of(log, track).last().fused_version,
{
    lemma_sort_by_version_props(records_of(log, track));
}

proof fn lemma_dedup_props(s: Seq<Seq<char>>)
    ensures
        dedup_first_seen(s).no_duplicates(),
        forall|x: Seq<char>| dedup_first_seen(s).contains(x) <==> s.contains(x),
    decreases s.len(),
{
    if s.len() > 0 {
        lemma_dedup_props(s.drop_last());
        let d = dedup_first_seen(s.drop_last());
        assert forall|x: Seq<char>| dedup_first_seen(s).contains(x) <==> s.contains(x) by {
            if s.contains(x) && x != s.last() {
                let k = choose|k: int| 0 <= k < s.len() && s[k] == x;
                assert(s.drop_last()[k] == x);
            }
            if s.drop_last().contains(x) {
                let k = choose|k: int| 0 <= k < s.drop_last().len() && s.drop_last()[k] == x;
                assert(s[k] == x);
            }
            if !d.contains(s.last()) {
                assert(d.push(s.last())[d.len() as int] == s.last());
                if d.push(s.last()).contains(x) && x != s.last() {
                    let k = choose|k: int| 0 <= k < d.push(s.last()).len() && d.push(s.last())[k] == x;
                    assert(d[k] == x);
                }
                if d.contains(x) {
                    let k = choose|k: int| 0 <= k < d.len() && d[k] == x;
                    assert(d.push(s.last())[k] == x);
                }
            }
        }
    }
}

/// The answer to "which observations contributed?" names every observation
/// named anywhere in the chain, and names each exactly once.
pub proof fn lemma_contributing_observations_exact(chain: Seq<ProvenanceRecordView>)
    ensures
        dedup_first_seen(observations_named(chain)).no_duplicates(),
        forall|x: Seq<char>|
            dedup_first_seen(observations_named(chain)).contains(x) <==> observations_named(chain).contains(x),
{
    lemma_dedup_props(observations_named(chain));
}

/// Every step reported by "which source lowered confidence?" lowered it,
/// and every lowering step of the chain is reported.
pub proof fn lemma_lowering_steps_exact(chain: Seq<ProvenanceRecordView>)
    ensures
        forall|k: int| 0 <= k < lowering_steps(chain).len() ==> (#[trigger] lowering_steps(chain)[k]).confidence_after.0
            < lowering_steps(chain)[k].confidence_before.0,
        lowering_steps(chain).len() == chain.filter(|r: ProvenanceRecordView| lowered_confidence(r)).len(),
    decreases chain.len(),
{
    reveal_with_fuel(Seq::filter, 1);
    if chain.len() > 0 {
        lemma_lowering_steps_exact(chain.drop_last());
        let rest = lowering_steps(chain.drop_last());
        if lowered_confidence(chain.last()) {
            assert forall|k: int| 0 <= k < lowering_steps(chain).len() implies (#[trigger] lowering_steps(chain)[k]).confidence_after.0
                < lowering_steps(chain)[k].confidence_before.0 by {
                if k > 0 {
                    assert(lowering_steps(chain)[k] == rest[k - 1]);
                }
            }
        }
    }
}

/// Looking up the identifier of a just-appended record finds that record:
/// in an intact log an identifier names exactly one record.
pub proof fn lemma_lookup_after_append(log: Seq<ProvenanceRecordView>, r: ProvenanceRecordView, i: int)
    requires
        appendable(log, r),
        0 <= i <= log.len(),
        log.push(r)[i].provenance_id == r.provenance_id,
    ensures
        log.push(r)[i] == r,
{
    if i < log.len() {
        assert(log[i].provenance_id == r.provenance_id);
    }
}

/// Appending exactly the records a store accepts keeps its log intact.
pub proof fn lemma_append_keeps_chain_intact(log: Seq<ProvenanceRecordView>, r: ProvenanceRecordView)
    requires
        chain_intact(log),
        appendable(log, r),
    ensures
        chain_intact(log.push(r)),
        log.push(r).take(log.len() as int) == log,
{
    let after = log.push(r);
    assert(after.take(log.len() as int) =~= log);
    assert forall|i: int| 0 <= i < after.len() implies #[trigger] appendable(after.take(i), after[i]) by {
        if i < log.len() {
            assert(after.take(i) =~= log.take(i));
        }
    }
    assert forall|i: int, j: int| 0 <= i < j < after.len() implies after[i].provenance_id
        != after[j].provenance_id by {
        if j == log.len() {
            assert(log[i].provenance_id != r.provenance_id);
        }
    }
}

/// The in-memory append-only store: records in insertion order.
pub struct InMemoryProvenanceStore {
    log: Vec<ProvenanceRecord>,
}

impl InMemoryProvenanceStore {
    #[verifier::type_invariant]
    spec fn intact(self) -> bool {
        chain_intact(views(self.log@))
    }

    pub fn new() -> (store: Self)
        ensures
            store.records() == Seq::<ProvenanceRecordView>::empty(),
    {
        let store = InMemoryProvenanceStore { log: Vec::new() };
        assert(views(store.log@) =~= Seq::<ProvenanceRecordView>::empty());
        store
    }

    pub fn len(&self) -> (n: usize)
        ensures
            n == self.records().len(),
    {
        self.log.len()
    }

    pub fn is_empty(&self) -> (empty: bool)
        ensures
            empty == (self.records().len() == 0),
    {
        self.len() == 0
    }

    /// The position of the record carrying `id`, if any.
    fn position_of(&self, id: &ProvenanceId) -> (pos: Option<usize>)
        ensures
            match pos {
                Some(i) => i < self.records().len() && self.records()[i as int].provenance_id == id@,
                None => !has_id(self.records(), id@),
            },
    {
        let n = self.log.len();
        let mut i: usize = 0;
        while i < n
            invariant
                n == self.log@.len(),
                i <= n,
                forall|j: int| 0 <= j < i ==> self.records()[j].provenance_id != id@,
            decreases n - i,
        {
            if self.log[i].provenance_id.0 == id.0 {
                return Some(i);
            }
            i = i + 1;
        }
        None
    }

}


/// Append-only storage primitives.
pub trait ProvenanceStore {
    /// The stored records in insertion order.
    spec fn records(&self) -> Seq<ProvenanceRecordView>;

    /// Appends a record. Fails, leaving the store unchanged, when the
    /// identifier is already stored or the link names no stored record.
    fn append(&mut self, record: ProvenanceRecord) -> (res: Result<(), FabricError>)
        ensures
            appendable(old(self).records(), record@) ==> (res is Ok && final(self).records()
                == old(self).records().push(record@)),
            !appendable(old(self).records(), record@) ==> ((res matches Err(FabricError::ProvenanceBroken(_)))
                && final(self).records() == old(self).records()),
    ;

    /// The record carrying `id`, if any.
    fn get(&self, id: &ProvenanceId) -> (res: Result<Option<ProvenanceRecord>, FabricError>)
        ensures
            res matches Ok(found) && match found {
                Some(r) => exists|i: int|
                    0 <= i < self.records().len() && self.records()[i] == r@ && r@.provenance_id == id@,
                None => !has_id(self.records(), id@),
            },
    ;

    /// All records for a track, ordered oldest to newest by `fused_version`.
    fn chain_for_track(&self, track: &TrackId) -> (res: Result<Vec<ProvenanceRecord>, FabricError>)
        ensures
            res matches Ok(v) && views(v@) == chain_of(self.records(), track@),
    ;

    /// The newest record for a track, if any.
    fn latest_for_track(&self, track: &TrackId) -> (res: Result<Option<ProvenanceRecord>, FabricError>)
        ensures
            res matches Ok(found) && match found {
                Some(r) => chain_of(self.records(), track@).len() > 0
                    && r@ == chain_of(self.records(), track@).last(),
                None => chain_of(self.records(), track@).len() == 0,
            },
    {
        let mut chain = self.chain_for_track(track)?;
        let last = chain.pop();
        Ok(last)
    }

    /// Every stored record, in insertion order.
    fn all(&self) -> (res: Result<Vec<ProvenanceRecord>, FabricError>)
        ensures
            res matches Ok(v) && views(v@) == self.records(),
    ;
}

impl ProvenanceStore for InMemoryProvenanceStore {
    closed spec fn records(&self) -> Seq<ProvenanceRecordView> {
        views(self.log@)
    }

    /// Besides the trait's promise, the log of this store stays intact.
    /// Appends a record. Fails, leaving the store unchanged, when the
    /// identifier is already stored or the link names no stored record.
    fn append(&mut self, record: ProvenanceRecord) -> (res: Result<(), FabricError>)
        ensures
            chain_intact(final(self).records()),
    {
        proof {
            use_type_invariant(&*self);
        }
        if self.position_of(&record.provenance_id).is_some() {
            let mut msg = String::from_str("duplicate provenance_id ");
            msg.append(record.provenance_id.as_str());
            msg.append(" (records are append-only)");
            return Err(FabricError::ProvenanceBroken(msg));
        }
        match &record.prev_provenance_id {
            Some(prev) => {
                if self.position_of(prev).is_none() {
                    let mut msg = String::from_str("prev_provenance_id ");
                    msg.append(prev.as_str());
                    msg.append(" not found for ");
                    msg.append(record.provenance_id.as_str());
                    return Err(FabricError::ProvenanceBroken(msg));
                }
            },
            None => {},
        }
        let ghost before = self.records();
        let ghost rv = record@;
        let mut log = Vec::new();
        std::mem::swap(&mut log, &mut self.log);
        log.push(record);
        proof {
            let after = views(log@);
            assert(after =~= before.push(rv));
            assert(after.take(before.len() as int) =~= before);
            assert forall|i: int| 0 <= i < after.len() implies #[trigger] appendable(
                after.take(i),
                after[i],
            ) by {
                if i < before.len() {
                    assert(after.take(i) =~= before.take(i));
                }
            }
        }
        self.log = log;
        Ok(())
    }

    /// The record carrying `id`, if any.
    fn get(&self, id: &ProvenanceId) -> (res: Result<Option<ProvenanceRecord>, FabricError>)
    {
        match self.position_of(id) {
            Some(i) => Ok(Some(self.log[i].clone())),
            None => Ok(None),
        }
    }

    /// Every stored record, in insertion order.
    fn all(&self) -> (res: Result<Vec<ProvenanceRecord>, FabricError>)
    {
        let n = self.log.len();
        let mut out: Vec<ProvenanceRecord> = Vec::new();
        let mut i: usize = 0;
        while i < n
            invariant
                n == self.log@.len(),
                i <= n,
                views(out@) == self.records().take(i as int),
            decreases n - i,
        {
            let c = self.log[i].clone();
            let ghost old_out = out@;
            out.push(c);
            assert(self.records()[i as int] == self.log@[i as int]@);
            assert(out@ == old_out.push(c));
            assert(views(out@) =~= views(old_out).push(c@));
            assert(self.records().take(i + 1) =~= self.records().take(i as int).push(self.records()[i as int]));
            assert(views(out@) =~= self.records().take(i + 1));
            i = i + 1;
        }
        assert(self.records().take(n as int) =~= self.records());
        Ok(out)
    }

    /// All records for a track, ordered oldest to newest by `fused_version`.
    fn chain_for_track(&self, track: &TrackId) -> (res: Result<Vec<ProvenanceRecord>, FabricError>)
    {
        let n = self.log.len();
        let mut out: Vec<ProvenanceRecord> = Vec::new();
        let mut i: usize = 0;
        while i < n
            invariant
                n == self.log@.len(),
                i <= n,
                views(out@) == sort_by_version(records_of(self.records().take(i as int), track@)),
            decreases n - i,
        {
            let ghost prefix = self.records().take(i as int);
            assert(self.records()[i as int] == self.log@[i as int]@);
            assert(self.records().take(i + 1).last() == self.records()[i as int]);
            assert(self.records().take(i + 1).drop_last() =~= prefix);
            if self.log[i].track_id.0 == track.0 {
                let r = self.log[i].clone();
                let len = out.len();
                let mut k: usize = len;
                while k > 0 && out[k - 1].fused_version > r.fused_version
                    invariant
                        k <= len,
                        len == out@.len(),
                        forall|m: int| k <= m < len ==> out@[m].fused_version > r.fused_version,
                    decreases k,
                {
                    k = k - 1;
                }
                let ghost sorted = views(out@);
                proof {
                    lemma_insert_at(sorted, r@, k as int);
                }
                let ghost rv = r@;
                let ghost old_out = out@;
                out.insert(k, r);
                assert(views(out@) =~= views(old_out).insert(k as int, rv));
                assert(rv == self.records()[i as int]);
                assert(records_of(self.records().take(i + 1), track@) == records_of(prefix, track@).push(rv));
                assert(records_of(prefix, track@).push(rv).drop_last() =~= records_of(prefix, track@));
                assert(sort_by_version(records_of(prefix, track@).push(rv)) == insert_by_version(
                    sort_by_version(records_of(prefix, track@)), rv));
            } else {
                assert(records_of(self.records().take(i + 1), track@) == records_of(prefix, track@));
            }
            i = i + 1;
        }
        assert(self.records().take(n as int) =~= self.records());
        Ok(out)
    }
}

/// The observation identifiers named by the records of `chain`, in order,
/// repeats included.
pub open spec fn observations_named(chain: Seq<ProvenanceRecordView>) -> Seq<Seq<char>>
    decreases chain.len(),
{
    if chain.len() == 0 {
        Seq::empty()
    } else {
        observations_named(chain.drop_last()) + chain.last().contributing_observations
    }
}

/// `s` with every repeat of an earlier element removed, first occurrences kept
/// in order.
pub open spec fn dedup_first_seen(s: Seq<Seq<char>>) -> Seq<Seq<char>>
    decreases s.len(),
{
    if s.len() == 0 {
        Seq::empty()
    } else {
        let d = dedup_first_seen(s.drop_last());
        if d.contains(s.last()) {
            d
        } else {
            d.push(s.last())
        }
    }
}

/// The elements of `a` that do not occur in `b`, in order.
pub open spec fn missing_from(a: Seq<Seq<char>>, b: Seq<Seq<char>>) -> Seq<Seq<char>>
    decreases a.len(),
{
    if a.len() == 0 {
        Seq::empty()
    } else {
        let rest = missing_from(a.drop_last(), b);
        if b.contains(a.last()) {
            rest
        } else {
            rest.push(a.last())
        }
    }
}

/// The confidence a record started from: its recorded `confidence_before`,
/// or its own result when none was recorded.
pub open spec fn confidence_start(r: ProvenanceRecordView) -> Magnitude {
    match r.confidence_before {
        Some(b) => b,
        None => r.confidence_after,
    }
}

/// Whether the step recorded by `r` lowered confidence.
pub open spec fn lowered_confidence(r: ProvenanceRecordView) -> bool {
    r.confidence_after.0 < confidence_start(r).0
}

/// One step that lowered a track's confidence, attributed to the sources
/// active at that step. The drop is `confidence_after - confidence_before`.
#[derive(Debug)]
pub struct ConfidenceImpact {
    pub provenance_id: ProvenanceId,
    pub operation: ProvenanceOp,
    pub sources: Vec<SourceId>,
    pub confidence_before: Magnitude,
    pub confidence_after: Magnitude,
}

pub struct ConfidenceImpactView {
    pub provenance_id: Seq<char>,
    pub operation: ProvenanceOp,
    pub sources: Seq<Seq<char>>,
    pub confidence_before: Magnitude,
    pub confidence_after: Magnitude,
}

impl View for ConfidenceImpact {
    type V = ConfidenceImpactView;

    open spec fn view(&self) -> ConfidenceImpactView {
        ConfidenceImpactView {
            provenance_id: self.provenance_id@,
            operation: self.operation,
            sources: id_views(self.sources@),
            confidence_before: self.confidence_before,
            confidence_after: self.confidence_after,
        }
    }
}

/// The impact recorded by `r`.
pub open spec fn impact_of(r: ProvenanceRecordView) -> ConfidenceImpactView {
    ConfidenceImpactView {
        provenance_id: r.provenance_id,
        operation: r.operation,
        sources: r.contributing_sources,
        confidence_before: confidence_start(r),
        confidence_after: r.confidence_after,
    }
}

/// The impacts of the confidence-lowering steps of `chain`, newest first.
pub open spec fn lowering_steps(chain: Seq<ProvenanceRecordView>) -> Seq<ConfidenceImpactView>
    decreases chain.len(),
{
    if chain.len() == 0 {
        Seq::empty()
    } else {
        let rest = lowering_steps(chain.drop_last());
        if lowered_confidence(chain.last()) {
            seq![impact_of(chain.last())] + rest
        } else {
            rest
        }
    }
}

/// What changed between two fused versions of a track. The change in
/// confidence is `to_confidence - from_confidence`.
#[derive(Debug)]
pub struct ProvenanceDiff {
    pub track_id: TrackId,
    pub from_version: u64,
    pub to_version: u64,
    pub operation: ProvenanceOp,
    pub added_observations: Vec<ObservationId>,
    pub added_sources: Vec<SourceId>,
    pub from_confidence: Magnitude,
    pub to_confidence: Magnitude,
    pub notes: String,
}

pub struct ProvenanceDiffView {
    pub track_id: Seq<char>,
    pub from_version: u64,
    pub to_version: u64,
    pub operation: ProvenanceOp,
    pub added_observations: Seq<Seq<char>>,
    pub added_sources: Seq<Seq<char>>,
    pub from_confidence: Magnitude,
    pub to_confidence: Magnitude,
    pub notes: Seq<char>,
}

impl View for ProvenanceDiff {
    type V = ProvenanceDiffView;

    open spec fn view(&self) -> ProvenanceDiffView {
        ProvenanceDiffView {
            track_id: self.track_id@,
            from_version: self.from_version,
            to_version: self.to_version,
            operation: self.operation,
            added_observations: id_views(self.added_observations@),
            added_sources: id_views(self.added_sources@),
            from_confidence: self.from_confidence,
            to_confidence: self.to_confidence,
            notes: self.notes@,
        }
    }
}

/// The difference from record `prev` to record `curr` of track `track`.
pub open spec fn diff_of(track: Seq<char>, prev: ProvenanceRecordView, curr: ProvenanceRecordView) -> ProvenanceDiffView {
    ProvenanceDiffView {
        track_id: track,
        from_version: prev.fused_version,
        to_version: curr.fused_version,
        operation: curr.operation,
        added_observations: missing_from(curr.contributing_observations, prev.contributing_observations),
        added_sources: missing_from(curr.contributing_sources, prev.contributing_sources),
        from_confidence: prev.confidence_after,
        to_confidence: curr.confidence_after,
        notes: curr.notes,
    }
}

pub fn contains_observation(v: &Vec<ObservationId>, id: &ObservationId) -> (found: bool)
    ensures
        found == id_views(v@).contains(id@),
{
    let n = v.len();
    let mut i: usize = 0;
    while i < n
        invariant
            n == v@.len(),
            i <= n,
            forall|j: int| 0 <= j < i ==> v@[j]@ != id@,
        decreases n - i,
    {
        if v[i].0 == id.0 {
            assert(id_views(v@)[i as int] == id@);
            return true;
        }
        i = i + 1;
    }
    false
}

pub fn contains_source(v: &Vec<SourceId>, id: &SourceId) -> (found: bool)
    ensures
        found == id_views(v@).contains(id@),
{
    let n = v.len();
    let mut i: usize = 0;
    while i < n
        invariant
            n == v@.len(),
            i <= n,
            forall|j: int| 0 <= j < i ==> v@[j]@ != id@,
        decreases n - i,
    {
        if v[i].0 == id.0 {
            assert(id_views(v@)[i as int] == id@);
            return true;
        }
        i = i + 1;
    }
    false
}

fn observations_missing_from(a: &Vec<ObservationId>, b: &Vec<ObservationId>) -> (out: Vec<ObservationId>)
    ensures
        id_views(out@) == missing_from(id_views(a@), id_views(b@)),
{
    let n = a.len();
    let mut out: Vec<ObservationId> = Vec::new();
    let mut i: usize = 0;
    while i < n
        invariant
            n == a@.len(),
            i <= n,
            id_views(out@) == missing_from(id_views(a@).take(i as int), id_views(b@)),
        decreases n - i,
    {
        assert(id_views(a@).take(i + 1).drop_last() =~= id_views(a@).take(i as int));
        assert(id_views(a@).take(i + 1).last() == a@[i as int]@);
        if !contains_observation(b, &a[i]) {
            out.push(a[i].clone());
            assert(id_views(out@) =~= missing_from(id_views(a@).take(i as int), id_views(b@)).push(
                a@[i as int]@,
            ));
        }
        i = i + 1;
    }
    assert(id_views(a@).take(n as int) =~= id_views(a@));
    out
}

fn sources_missing_from(a: &Vec<SourceId>, b: &Vec<SourceId>) -> (out: Vec<SourceId>)
    ensures
        id_views(out@) == missing_from(id_views(a@), id_views(b@)),
{
    let n = a.len();
    let mut out: Vec<SourceId> = Vec::new();
    let mut i: usize = 0;
    while i < n
        invariant
            n == a@.len(),
            i <= n,
            id_views(out@) == missing_from(id_views(a@).take(i as int), id_views(b@)),
        decreases n - i,
    {
        assert(id_views(a@).take(i + 1).drop_last() =~= id_views(a@).take(i as int));
        assert(id_views(a@).take(i + 1).last() == a@[i as int]@);
        if !contains_source(b, &a[i]) {
            out.push(a[i].clone());
            assert(id_views(out@) =~= missing_from(id_views(a@).take(i as int), id_views(b@)).push(
                a@[i as int]@,
            ));
        }
        i = i + 1;
    }
    assert(id_views(a@).take(n as int) =~= id_views(a@));
    out
}

/// Operator-facing provenance questions, answered the same way by every
/// store.
pub trait ProvenanceQuery: ProvenanceStore {
    /// "Why does this fused track exist?": the first `Created` record of its
    /// chain.
    fn why_does_track_exist(&self, track: &TrackId) -> (res: Result<ProvenanceRecord, FabricError>)
        ensures
            match res {
                Ok(r) => exists|i: int|
                    0 <= i < chain_of(self.records(), track@).len()
                        && chain_of(self.records(), track@)[i] == r@
                        && r@.operation == ProvenanceOp::Created
                        && forall|j: int| 0 <= j < i ==> chain_of(self.records(), track@)[j].operation
                            != ProvenanceOp::Created,
                Err(e) => (forall|i: int| 0 <= i < chain_of(self.records(), track@).len()
                    ==> chain_of(self.records(), track@)[i].operation != ProvenanceOp::Created)
                    && (e matches FabricError::NotFound(msg) && msg@ == "no creation record for "@ + track@),
            },
    {
        let chain = self.chain_for_track(track)?;
        let ghost c = chain_of(self.records(), track@);
        let n = chain.len();
        let mut i: usize = 0;
        while i < n
            invariant
                n == chain@.len(),
                views(chain@) == c,
                c == chain_of(self.records(), track@),
                i <= n,
                forall|j: int| 0 <= j < i ==> c[j].operation != ProvenanceOp::Created,
            decreases n - i,
        {
            assert(c[i as int] == chain@[i as int]@);
            if chain[i].operation == ProvenanceOp::Created {
                let r = chain[i].clone();
                assert(0 <= i < c.len() && c[i as int] == r@);
                return Ok(r);
            }
            i = i + 1;
        }
        let mut msg = String::from_str("no creation record for ");
        msg.append(track.as_str());
        Err(FabricError::NotFound(msg))
    }

    /// "Which observations contributed to it?": the identifiers named across
    /// the chain, repeats removed, in first-seen order.
    fn contributing_observations(&self, track: &TrackId) -> (res: Result<Vec<ObservationId>, FabricError>)
        ensures
            res matches Ok(v) && id_views(v@) == dedup_first_seen(
                observations_named(chain_of(self.records(), track@)),
            ),
    {
        let chain = self.chain_for_track(track)?;
        let ghost c = chain_of(self.records(), track@);
        let mut seen: Vec<ObservationId> = Vec::new();
        let n = chain.len();
        let mut i: usize = 0;
        while i < n
            invariant
                n == chain@.len(),
                views(chain@) == c,
                i <= n,
                id_views(seen@) == dedup_first_seen(observations_named(c.take(i as int))),
            decreases n - i,
        {
            let record = &chain[i];
            let ghost named = observations_named(c.take(i as int));
            assert(c.take(i + 1).drop_last() =~= c.take(i as int));
            assert(c[i as int] == record@);
            let m = record.contributing_observations.len();
            let mut j: usize = 0;
            while j < m
                invariant
                    m == record.contributing_observations@.len(),
                    j <= m,
                    id_views(seen@) == dedup_first_seen(
                        named + id_views(record.contributing_observations@).take(j as int),
                    ),
                decreases m - j,
            {
                let obs = &record.contributing_observations[j];
                let ghost s = named + id_views(record.contributing_observations@).take(j as int);
                assert((named + id_views(record.contributing_observations@).take(j + 1)).drop_last() =~= s);
                assert((named + id_views(record.contributing_observations@).take(j + 1)).last() == obs@);
                if !contains_observation(&seen, obs) {
                    seen.push(obs.clone());
                    assert(id_views(seen@) =~= dedup_first_seen(s).push(obs@));
                }
                j = j + 1;
            }
            assert(id_views(record.contributing_observations@).take(m as int) =~= record@.contributing_observations);
            assert(observations_named(c.take(i + 1)) == named + record@.contributing_observations);
            i = i + 1;
        }
        assert(c.take(n as int) =~= c);
        Ok(seen)
    }

    /// "Which source lowered confidence?": every step whose confidence fell,
    /// newest first, attributed to the sources active at that step.
    fn sources_that_lowered_confidence(&self, track: &TrackId) -> (res: Result<Vec<ConfidenceImpact>, FabricError>)
        ensures
            res matches Ok(v) && v@.map_values(|i: ConfidenceImpact| i@) == lowering_steps(
                chain_of(self.records(), track@),
            ),
    {
        let chain = self.chain_for_track(track)?;
        let ghost c = chain_of(self.records(), track@);
        let mut out: Vec<ConfidenceImpact> = Vec::new();
        let n = chain.len();
        let mut i: usize = 0;
        while i < n
            invariant
                n == chain@.len(),
                views(chain@) == c,
                i <= n,
                out@.map_values(|i: ConfidenceImpact| i@) == lowering_steps(c.take(i as int)),
            decreases n - i,
        {
            let record = &chain[i];
            assert(c.take(i + 1).drop_last() =~= c.take(i as int));
            assert(c[i as int] == record@);
            let before = match record.confidence_before {
                Some(b) => b,
                None => record.confidence_after,
            };
            if record.confidence_after.less_than(before) {
                let impact = ConfidenceImpact {
                    provenance_id: record.provenance_id.clone(),
                    operation: record.operation,
                    sources: clone_source_ids(&record.contributing_sources),
                    confidence_before: before,
                    confidence_after: record.confidence_after,
                };
                let ghost old_out = out@;
                out.insert(0, impact);
                assert(out@.map_values(|i: ConfidenceImpact| i@) =~= seq![impact_of(record@)]
                    + old_out.map_values(|i: ConfidenceImpact| i@));
            }
            i = i + 1;
        }
        assert(c.take(n as int) =~= c);
        Ok(out)
    }

    /// "What changed since the previous fused version?": the difference
    /// between the two newest records, `None` while the track has fewer than
    /// two.
    fn changed_since_previous(&self, track: &TrackId) -> (res: Result<Option<ProvenanceDiff>, FabricError>)
        ensures
            res matches Ok(found) && match found {
                Some(d) => chain_of(self.records(), track@).len() >= 2 && d@ == diff_of(
                    track@,
                    chain_of(self.records(), track@)[chain_of(self.records(), track@).len() - 2],
                    chain_of(self.records(), track@).last(),
                ),
                None => chain_of(self.records(), track@).len() < 2,
            },
    {
        let chain = self.chain_for_track(track)?;
        let n = chain.len();
        if n < 2 {
            return Ok(None);
        }
        let prev = &chain[n - 2];
        let curr = &chain[n - 1];
        let added_observations = observations_missing_from(
            &curr.contributing_observations,
            &prev.contributing_observations,
        );
        let added_sources = sources_missing_from(&curr.contributing_sources, &prev.contributing_sources);
        Ok(
            Some(
                ProvenanceDiff {
                    track_id: track.clone(),
                    from_version: prev.fused_version,
                    to_version: curr.fused_version,
                    operation: curr.operation,
                    added_observations,
                    added_sources,
                    from_confidence: prev.confidence_after,
                    to_confidence: curr.confidence_after,
                    notes: curr.notes.clone(),
                },
            ),
        )
    }
}

impl<T: ProvenanceStore> ProvenanceQuery for T {

}

} // verus!
