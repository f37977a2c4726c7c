//! The registry store: the shared mapping from model identifier to model
//! record, together with the per-identifier consecutive-failure counter
//! that drives threshold-based eviction.
//!
//! The store is modelled by [`RegistryView`]: a map from identifier to
//! record and a map from identifier to its failure counter, over the same
//! set of identifiers.  Every operation states exactly how it transforms
//! that model.

use vstd::prelude::*;
use crate::record::{ModelRecord, ModelRecordView};

verus! {

/// Abstract registry state: the records keyed by identifier and the
/// consecutive-failure counter kept for each registered identifier.
#[verifier::ext_equal]
pub struct RegistryView {
    pub records: Map<Seq<char>, ModelRecordView>,
    pub fails: Map<Seq<char>, u32>,
}

impl RegistryView {
    /// The empty registry: no records, no counters.
    pub open spec fn empty() -> RegistryView {
        RegistryView { records: Map::empty(), fails: Map::empty() }
    }
}

/// Registration (last-write-wins): the identifier maps to the new record
/// and its failure counter starts over at zero.
pub open spec fn upsert_view(v: RegistryView, id: Seq<char>, r: ModelRecordView) -> RegistryView {
    RegistryView { records: v.records.insert(id, r), fails: v.fails.insert(id, 0u32) }
}

/// A successful probe of `id` resets its failure counter to zero; an
/// identifier that is not registered is untouched.
pub open spec fn step_success(v: RegistryView, id: Seq<char>) -> RegistryView {
    if v.records.contains_key(id) {
        RegistryView { records: v.records, fails: v.fails.insert(id, 0u32) }
    } else {
        v
    }
}

/// Whether one more failed probe of `id` evicts it: it is registered and
/// its counter, incremented, reaches the threshold.
pub open spec fn fail_evicts(v: RegistryView, id: Seq<char>, threshold: u32) -> bool {
    v.records.contains_key(id) && v.fails[id] + 1 >= threshold
}

/// A failed probe of `id`: the counter is incremented, and once it reaches
/// the threshold the identifier is evicted and its counter discarded.  An
/// identifier that is not registered is untouched.
pub open spec fn step_fail(v: RegistryView, id: Seq<char>, threshold: u32) -> RegistryView {
    if v.records.contains_key(id) {
        if v.fails[id] + 1 >= threshold {
            RegistryView { records: v.records.remove(id), fails: v.fails.remove(id) }
        } else {
            RegistryView { records: v.records, fails: v.fails.insert(id, (v.fails[id] + 1) as u32) }
        }
    } else {
        v
    }
}

/// One probe outcome applied to the registry: `(id, alive)`.
pub open spec fn sweep_step(v: RegistryView, o: (Seq<char>, bool), threshold: u32) -> RegistryView {
    if o.1 {
        step_success(v, o.0)
    } else {
        step_fail(v, o.0, threshold)
    }
}

/// A whole sweep round: the probe outcomes applied in order.
pub open spec fn sweep_all(v: RegistryView, os: Seq<(Seq<char>, bool)>, threshold: u32) -> RegistryView
    decreases os.len(),
{
    if os.len() == 0 {
        v
    } else {
        sweep_all(sweep_step(v, os[0], threshold), os.drop_first(), threshold)
    }
}

/// The records one probe outcome evicts: one when a failed probe reaches
/// the threshold, none otherwise.
pub open spec fn step_dropped(v: RegistryView, o: (Seq<char>, bool), threshold: u32) -> Seq<
    ModelRecordView,
> {
    if !o.1 && fail_evicts(v, o.0, threshold) {
        seq![v.records[o.0]]
    } else {
        Seq::empty()
    }
}

/// The records a sweep round evicts, in outcome order.
pub open spec fn sweep_dropped(
    v: RegistryView,
    os: Seq<(Seq<char>, bool)>,
    threshold: u32,
) -> Seq<ModelRecordView>
    decreases os.len(),
{
    if os.len() == 0 {
        Seq::empty()
    } else {
        step_dropped(v, os[0], threshold) + sweep_dropped(
            sweep_step(v, os[0], threshold),
            os.drop_first(),
            threshold,
        )
    }
}

/// A sweep round taken one outcome further applies that outcome to the
/// state the round had reached.
pub proof fn lemma_sweep_snoc(
    v: RegistryView,
    os: Seq<(Seq<char>, bool)>,
    o: (Seq<char>, bool),
    threshold: u32,
)
    ensures
        sweep_all(v, os.push(o), threshold) == sweep_step(sweep_all(v, os, threshold), o, threshold),
        sweep_dropped(v, os.push(o), threshold) == sweep_dropped(v, os, threshold) + step_dropped(
            sweep_all(v, os, threshold),
            o,
            threshold,
        ),
    decreases os.len(),
{
    reveal_with_fuel(sweep_all, 3);
    reveal_with_fuel(sweep_dropped, 3);
    if os.len() == 0 {
        assert(os.push(o)[0] == o);
        assert(os.push(o).drop_first() =~= Seq::<(Seq<char>, bool)>::empty());
        assert(sweep_dropped(v, os.push(o), threshold) =~= step_dropped(v, o, threshold));
        assert(sweep_dropped(v, os, threshold) + step_dropped(v, o, threshold) =~= step_dropped(
            v,
            o,
            threshold,
        ));
    } else {
        assert(os.push(o)[0] == os[0]);
        assert(os.push(o).drop_first() =~= os.drop_first().push(o));
        lemma_sweep_snoc(sweep_step(v, os[0], threshold), os.drop_first(), o, threshold);
        assert(sweep_dropped(v, os.push(o), threshold) =~= sweep_dropped(v, os, threshold)
            + step_dropped(sweep_all(v, os, threshold), o, threshold));
    }
}

/// The view of a list of probe outcomes.
pub open spec fn outcomes_view(os: Seq<(String, bool)>) -> Seq<(Seq<char>, bool)> {
    os.map_values(|p: (String, bool)| (p.0@, p.1))
}

struct Entry {
    id: String,
    record: ModelRecord,
    fails: u32,
}

struct EntryView {
    id: Seq<char>,
    record: ModelRecordView,
    fails: u32,
}

impl View for Entry {
    type V = EntryView;

    closed spec fn view(&self) -> EntryView {
        EntryView { id: self.id@, record: self.record@, fails: self.fails }
    }
}

spec fn fold_entries(s: Seq<EntryView>) -> RegistryView
    decreases s.len(),
{
    if s.len() == 0 {
        RegistryView::empty()
    } else {
        let prev = fold_entries(s.drop_last());
        RegistryView {
            records: prev.records.insert(s.last().id, s.last().record),
            fails: prev.fails.insert(s.last().id, s.last().fails),
        }
    }
}

spec fn ids_of(s: Seq<EntryView>) -> Seq<Seq<char>> {
    s.map_values(|e: EntryView| e.id)
}

spec fn unique_ids(s: Seq<EntryView>) -> bool {
    forall|i: int, j: int| 0 <= i < j < s.len() ==> s[i].id != s[j].id
}

proof fn lemma_fold_dom(s: Seq<EntryView>)
    ensures
        fold_entries(s).records.dom() =~= ids_of(s).to_set(),
        fold_entries(s).fails.dom() =~= ids_of(s).to_set(),
    decreases s.len(),
{
    broadcast use vstd::seq_lib::group_seq_properties;
    if s.len() == 0 {
        assert(ids_of(s).to_set() =~= Set::empty());
    } else {
        lemma_fold_dom(s.drop_last());
        assert(ids_of(s.drop_last()) =~= ids_of(s).drop_last());
        assert(ids_of(s).to_set() =~= ids_of(s).drop_last().to_set().insert(s.last().id)) by {
            assert forall|x: Seq<char>| ids_of(s).to_set().contains(x) implies ids_of(
                s,
            ).drop_last().to_set().insert(s.last().id).contains(x) by {
                let k = choose|k: int| 0 <= k < ids_of(s).len() && ids_of(s)[k] == x;
                if k < s.len() - 1 {
                    assert(ids_of(s).drop_last()[k] == x);
                }
            }
            assert forall|x: Seq<char>|
                ids_of(s).drop_last().to_set().insert(s.last().id).contains(x) implies ids_of(
                s,
            ).to_set().contains(x) by {
                if x == s.last().id {
                    assert(ids_of(s)[s.len() - 1] == x);
                } else {
                    let k = choose|k: int|
                        0 <= k < ids_of(s).drop_last().len() && ids_of(s).drop_last()[k] == x;
                    assert(ids_of(s)[k] == x);
                }
            }
        }
    }
}

proof fn lemma_fold_lookup(s: Seq<EntryView>, i: int)
    requires
        unique_ids(s),
        0 <= i < s.len(),
    ensures
        fold_entries(s).records.contains_key(s[i].id),
        fold_entries(s).records[s[i].id] == s[i].record,
        fold_entries(s).fails.contains_key(s[i].id),
        fold_entries(s).fails[s[i].id] == s[i].fails,
    decreases s.len(),
{
    if i == s.len() - 1 {
    } else {
        assert(s[i].id != s.last().id);
        lemma_fold_lookup(s.drop_last(), i);
    }
}

proof fn lemma_fold_push(s: Seq<EntryView>, e: EntryView)
    ensures
        fold_entries(s.push(e)).records =~= fold_entries(s).records.insert(e.id, e.record),
        fold_entries(s.push(e)).fails =~= fold_entries(s).fails.insert(e.id, e.fails),
{
    assert(s.push(e).drop_last() =~= s);
    assert(s.push(e).last() == e);
}

proof fn lemma_fold_remove(s: Seq<EntryView>, i: int)
    requires
        unique_ids(s),
        0 <= i < s.len(),
    ensures
        fold_entries(s.remove(i)).records =~= fold_entries(s).records.remove(s[i].id),
        fold_entries(s.remove(i)).fails =~= fold_entries(s).fails.remove(s[i].id),
    decreases s.len(),
{
    if i == s.len() - 1 {
        assert(s.remove(i) =~= s.drop_last());
        lemma_fold_dom(s.drop_last());
        assert(!ids_of(s.drop_last()).to_set().contains(s[i].id)) by {
            if ids_of(s.drop_last()).to_set().contains(s[i].id) {
                let k = choose|k: int|
                    0 <= k < ids_of(s.drop_last()).len() && ids_of(s.drop_last())[k] == s[i].id;
                assert(s[k].id == s[i].id);
            }
        }
    } else {
        assert(s.remove(i).drop_last() =~= s.drop_last().remove(i));
        assert(s.remove(i).last() == s.last());
        lemma_fold_remove(s.drop_last(), i);
        assert(s[i].id != s.last().id);
    }
}

proof fn lemma_unique_remove(s: Seq<EntryView>, i: int)
    requires
        unique_ids(s),
        0 <= i < s.len(),
    ensures
        unique_ids(s.remove(i)),
{
    assert forall|a: int, b: int|
        0 <= a < b < s.remove(i).len() implies s.remove(i)[a].id != s.remove(i)[b].id by {
        if b < i {
            assert(s[a].id != s[b].id);
        } else if a < i {
            assert(s[a].id != s[b + 1].id);
        } else {
            assert(s[a + 1].id != s[b + 1].id);
        }
    }
}

proof fn lemma_unique_push(s: Seq<EntryView>, e: EntryView)
    requires
        unique_ids(s),
        forall|j: int| 0 <= j < s.len() ==> s[j].id != e.id,
    ensures
        unique_ids(s.push(e)),
{
    assert forall|a: int, b: int|
        0 <= a < b < s.push(e).len() implies s.push(e)[a].id != s.push(e)[b].id by {
        if b == s.len() {
            assert(s[a].id != e.id);
        } else {
            assert(s[a].id != s[b].id);
        }
    }
}

proof fn lemma_unique_reinsert(s: Seq<EntryView>, i: int, e: EntryView)
    requires
        unique_ids(s),
        0 <= i < s.len(),
        e.id == s[i].id,
    ensures
        unique_ids(s.remove(i).push(e)),
{
    lemma_unique_remove(s, i);
    assert forall|j: int| 0 <= j < s.remove(i).len() implies s.remove(i)[j].id != e.id by {
        if j < i {
            assert(s[j].id != s[i].id);
        } else {
            assert(s[j + 1].id != s[i].id);
        }
    }
    lemma_unique_push(s.remove(i), e);
}

/// The record appears in the registry under some identifier.
pub open spec fn record_listed(v: RegistryView, r: ModelRecordView) -> bool {
    exists|k: Seq<char>| v.records.contains_pair(k, r)
}

proof fn lemma_snapshot_props(s: Seq<EntryView>, outv: Seq<ModelRecordView>)
    requires
        unique_ids(s),
        outv.len() == s.len(),
        forall|j: int| 0 <= j < s.len() ==> outv[j] == s[j].record,
    ensures
        outv.len() == fold_entries(s).records.dom().len(),
        forall|i: int| 0 <= i < outv.len() ==> record_listed(fold_entries(s), #[trigger] outv[i]),
        forall|k: Seq<char>|
            fold_entries(s).records.contains_key(k) ==> exists|j: int|
                0 <= j < outv.len() && outv[j] == fold_entries(s).records[k],
{
    lemma_fold_dom(s);
    ids_of(s).unique_seq_to_set();
    assert forall|i: int| 0 <= i < outv.len() implies record_listed(
        fold_entries(s),
        #[trigger] outv[i],
    ) by {
        lemma_fold_lookup(s, i);
        assert(fold_entries(s).records.contains_pair(s[i].id, outv[i]));
    }
    assert forall|k: Seq<char>| fold_entries(s).records.contains_key(k) implies exists|j: int|
        0 <= j < outv.len() && outv[j] == fold_entries(s).records[k] by {
        let j = choose|j: int| 0 <= j < ids_of(s).len() && ids_of(s)[j] == k;
        lemma_fold_lookup(s, j);
        assert(outv[j] == fold_entries(s).records[k]);
    }
}

/// The registry store: one entry per registered identifier, with its
/// record and its consecutive-failure counter.
pub struct Registry {
    entries: Vec<Entry>,
}

impl View for Registry {
    type V = RegistryView;

    closed spec fn view(&self) -> RegistryView {
        fold_entries(self.evs())
    }
}

impl Registry {
    spec fn evs(&self) -> Seq<EntryView> {
        self.entries@.map_values(|e: Entry| e@)
    }

    /// Well-formed: at most one entry per identifier.
    pub closed spec fn wf(&self) -> bool {
        unique_ids(self.evs())
    }

    /// Create the registry empty.
    pub fn new() -> (r: Registry)
        ensures
            r.wf(),
            r@ == RegistryView::empty(),
    {
        let r = Registry { entries: Vec::new() };
        proof {
            assert(r.evs() =~= Seq::<EntryView>::empty());
        }
        r
    }

    fn find_index(&self, id: &String) -> (r: Option<usize>)
        ensures
            match r {
                Some(i) => i < self.evs().len() && self.evs()[i as int].id == id@,
                None => forall|j: int| 0 <= j < self.evs().len() ==> self.evs()[j].id != id@,
            },
    {
        let mut i: usize = 0;
        while i < self.entries.len()
            invariant
                i <= self.entries.len(),
                forall|j: int| 0 <= j < i ==> self.evs()[j].id != id@,
            decreases self.entries.len() - i,
        {
            if self.entries[i].id == *id {
                return Some(i);
            }
            i = i + 1;
        }
        None
    }

    /// Whether an identifier is currently registered.
    pub fn contains_id(&self, id: &String) -> (r: bool)
        requires
            self.wf(),
        ensures
            r == self@.records.contains_key(id@),
    {
        proof {
            lemma_fold_dom(self.evs());
            if self@.records.contains_key(id@) {
                let k = choose|k: int| 0 <= k < ids_of(self.evs()).len() && ids_of(self.evs())[k] == id@;
                assert(self.evs()[k].id == id@);
            }
        }
        match self.find_index(id) {
            Some(i) => {
                proof {
                    lemma_fold_lookup(self.evs(), i as int);
                }
                true
            },
            None => false,
        }
    }

    /// The failure counter currently kept for an identifier, if it is
    /// registered.
    pub fn failure_count(&self, id: &String) -> (r: Option<u32>)
        requires
            self.wf(),
        ensures
            match r {
                Some(f) => self@.fails.contains_key(id@) && f == self@.fails[id@],
                None => !self@.records.contains_key(id@),
            },
    {
        proof {
            lemma_fold_dom(self.evs());
        }
        match self.find_index(id) {
            Some(i) => {
                proof {
                    lemma_fold_lookup(self.evs(), i as int);
                }
                Some(self.entries[i].fails)
            },
            None => {
                proof {
                    if self@.records.contains_key(id@) {
                        let k = choose|k: int|
                            0 <= k < ids_of(self.evs()).len() && ids_of(self.evs())[k] == id@;
                        assert(self.evs()[k].id == id@);
                    }
                }
                None
            },
        }
    }

    /// Register or update: the identifier maps to `record` afterwards,
    /// replacing any prior record in full, and its failure counter starts
    /// over at zero.
    pub fn upsert(&mut self, id: String, record: ModelRecord)
        requires
            old(self).wf(),
        ensures
            final(self).wf(),
            final(self)@ == upsert_view(old(self)@, id@, record@),
    {
        let ghost s0 = self.evs();
        match self.find_index(&id) {
            Some(i) => {
                let _ = self.entries.remove(i);
                proof {
                    lemma_fold_remove(s0, i as int);
                    assert(self.evs() =~= s0.remove(i as int));
                    lemma_unique_remove(s0, i as int);
                }
                let ghost s1 = self.evs();
                let new_entry = Entry { id, record, fails: 0 };
                let ghost ev = new_entry@;
                self.entries.push(new_entry);
                proof {
                    assert(self.evs() =~= s1.push(ev));
                    lemma_fold_push(s1, ev);
                    lemma_unique_reinsert(s0, i as int, ev);
                    assert(self.evs() =~= s0.remove(i as int).push(ev));
                    assert(self@.records =~= fold_entries(s0).records.remove(ev.id).insert(
                        ev.id,
                        ev.record,
                    ));
                    assert(self@.records =~= fold_entries(s0).records.insert(ev.id, ev.record));
                    assert(self@.fails =~= fold_entries(s0).fails.insert(ev.id, 0u32));
                    assert(self@ =~= upsert_view(fold_entries(s0), ev.id, ev.record));
                }
            },
            None => {
                let new_entry = Entry { id, record, fails: 0 };
                let ghost ev = new_entry@;
                self.entries.push(new_entry);
                proof {
                    assert(self.evs() =~= s0.push(ev));
                    lemma_fold_push(s0, ev);
                    lemma_unique_push(s0, ev);
                    assert(self@.records =~= fold_entries(s0).records.insert(ev.id, ev.record));
                    assert(self@.fails =~= fold_entries(s0).fails.insert(ev.id, 0u32));
                    assert(self@ =~= upsert_view(fold_entries(s0), ev.id, ev.record));
                }
            },
        }
    }

    /// A consistent snapshot of the registered records, one per
    /// identifier, in no particular order: every returned record is held
    /// under some identifier, and every registered identifier's record is
    /// returned.
    pub fn snapshot(&self) -> (out: Vec<ModelRecord>)
        requires
            self.wf(),
        ensures
            out@.len() == self@.records.dom().len(),
            forall|i: int| 0 <= i < out@.len() ==> record_listed(self@, (#[trigger] out@[i])@),
            forall|k: Seq<char>|
                self@.records.contains_key(k) ==> exists|i: int|
                    0 <= i < out@.len() && out@[i]@ == self@.records[k],
    {
        let mut out: Vec<ModelRecord> = Vec::new();
        let mut i: usize = 0;
        while i < self.entries.len()
            invariant
                self.wf(),
                i <= self.entries.len(),
                out@.len() == i,
                forall|j: int| 0 <= j < i ==> out@[j]@ == self.evs()[j].record,
            decreases self.entries.len() - i,
        {
            out.push(self.entries[i].record.clone());
            i = i + 1;
        }
        proof {
            let outv = out@.map_values(|r: ModelRecord| r@);
            assert(forall|j: int| 0 <= j < outv.len() ==> outv[j] == (#[trigger] out@[j])@);
            lemma_snapshot_props(self.evs(), outv);
            assert forall|k: Seq<char>| self@.records.contains_key(k) implies exists|i2: int|
                0 <= i2 < out@.len() && out@[i2]@ == self@.records[k] by {
                let j = choose|j: int| 0 <= j < outv.len() && outv[j] == self@.records[k];
                assert(out@[j]@ == self@.records[k]);
            }
        }
        out
    }

    /// The probe targets for one sweep round: every registered identifier
    /// paired with the address its record holds.
    pub fn probe_targets(&self) -> (out: Vec<(String, String)>)
        requires
            self.wf(),
        ensures
            out@.len() == self@.records.dom().len(),
            forall|i: int|
                0 <= i < out@.len() ==> self@.records.contains_key(#[trigger] out@[i].0@)
                    && out@[i].1@ == self@.records[out@[i].0@].address,
            forall|k: Seq<char>|
                self@.records.contains_key(k) ==> exists|i: int| 0 <= i < out@.len() && out@[i].0@ == k,
    {
        proof {
            lemma_fold_dom(self.evs());
            ids_of(self.evs()).unique_seq_to_set();
        }
        let mut out: Vec<(String, String)> = Vec::new();
        let mut i: usize = 0;
        while i < self.entries.len()
            invariant
                self.wf(),
                i <= self.entries.len(),
                out@.len() == i,
                forall|j: int|
                    0 <= j < i ==> (#[trigger] out@[j]).0@ == self.evs()[j].id && out@[j].1@
                        == self.evs()[j].record.address,
            decreases self.entries.len() - i,
        {
            out.push((self.entries[i].id.clone(), self.entries[i].record.address.clone()));
            i = i + 1;
        }
        proof {
            assert forall|i2: int|
                0 <= i2 < out@.len() implies self@.records.contains_key(#[trigger] out@[i2].0@)
                && out@[i2].1@ == self@.records[out@[i2].0@].address by {
                lemma_fold_lookup(self.evs(), i2);
            }
            assert forall|k: Seq<char>| self@.records.contains_key(k) implies exists|i2: int|
                0 <= i2 < out@.len() && out@[i2].0@ == k by {
                lemma_fold_dom(self.evs());
                let j = choose|j: int| 0 <= j < ids_of(self.evs()).len() && ids_of(self.evs())[j] == k;
                assert(out@[j].0@ == k);
            }
        }
        out
    }

    /// Record a successful probe: the identifier's failure counter is
    /// reset to zero; records are untouched.
    pub fn probe_succeeded(&mut self, id: &String)
        requires
            old(self).wf(),
        ensures
            final(self).wf(),
            final(self)@ == step_success(old(self)@, id@),
    {
        let ghost s0 = self.evs();
        proof {
            lemma_fold_dom(s0);
        }
        match self.find_index(id) {
            Some(i) => {
                proof {
                    lemma_fold_lookup(s0, i as int);
                }
                let e = self.entries.remove(i);
                let ghost ev = EntryView { id: e.id@, record: e.record@, fails: 0u32 };
                let new_entry = Entry { id: e.id, record: e.record, fails: 0 };
                proof {
                    assert(self.evs() =~= s0.remove(i as int));
                    lemma_fold_remove(s0, i as int);
                    lemma_unique_remove(s0, i as int);
                }
                let ghost s1 = self.evs();
                self.entries.push(new_entry);
                proof {
                    assert(self.evs() =~= s1.push(ev));
                    lemma_fold_push(s1, ev);
                    lemma_unique_reinsert(s0, i as int, ev);
                    assert(self.evs() =~= s0.remove(i as int).push(ev));
                    assert(self@.records =~= fold_entries(s0).records.remove(ev.id).insert(
                        ev.id,
                        ev.record,
                    ));
                    assert(self@.records =~= fold_entries(s0).records);
                    assert(self@.fails =~= fold_entries(s0).fails.insert(ev.id, 0u32));
                    assert(self@ =~= step_success(fold_entries(s0), ev.id));
                }
            },
            None => {
                proof {
                    if fold_entries(s0).records.contains_key(id@) {
                        let k = choose|k: int| 0 <= k < ids_of(s0).len() && ids_of(s0)[k] == id@;
                        assert(s0[k].id == id@);
                    }
                }
            },
        }
    }

    /// Record a failed probe: the identifier's failure counter is
    /// incremented, and when it reaches `threshold` the identifier is
    /// evicted; the evicted record is returned.
    pub fn probe_failed(&mut self, id: &String, threshold: u32) -> (dropped: Option<ModelRecord>)
        requires
            old(self).wf(),
        ensures
            final(self).wf(),
            final(self)@ == step_fail(old(self)@, id@, threshold),
            match dropped {
                Some(rec) => fail_evicts(old(self)@, id@, threshold) && rec@ == old(
                    self,
                )@.records[id@],
                None => !fail_evicts(old(self)@, id@, threshold),
            },
    {
        let ghost s0 = self.evs();
        proof {
            lemma_fold_dom(s0);
        }
        match self.find_index(id) {
            Some(i) => {
                proof {
                    lemma_fold_lookup(s0, i as int);
                }
                let e = self.entries.remove(i);
                proof {
                    assert(self.evs() =~= s0.remove(i as int));
                    lemma_fold_remove(s0, i as int);
                    lemma_unique_remove(s0, i as int);
                }
                if threshold == 0 || e.fails >= threshold - 1 {
                    // Eviction: the entry stays removed and its counter is
                    // discarded with it.
                    Some(e.record)
                } else {
                    let ghost s1 = self.evs();
                    let ghost ev = EntryView { id: e.id@, record: e.record@, fails: (e.fails + 1) as u32 };
                    let new_entry = Entry { id: e.id, record: e.record, fails: e.fails + 1 };
                    self.entries.push(new_entry);
                    proof {
                        assert(self.evs() =~= s1.push(ev));
                        lemma_fold_push(s1, ev);
                        lemma_unique_reinsert(s0, i as int, ev);
                        assert(self.evs() =~= s0.remove(i as int).push(ev));
                        assert(self@.records =~= fold_entries(s0).records.remove(ev.id).insert(
                            ev.id,
                            ev.record,
                        ));
                        assert(self@.records =~= fold_entries(s0).records);
                        assert(self@.fails =~= fold_entries(s0).fails.insert(ev.id, ev.fails));
                        assert(self@ =~= step_fail(fold_entries(s0), ev.id, threshold));
                    }
                    None
                }
            },
            None => {
                proof {
                    if fold_entries(s0).records.contains_key(id@) {
                        let k = choose|k: int| 0 <= k < ids_of(s0).len() && ids_of(s0)[k] == id@;
                        assert(s0[k].id == id@);
                    }
                }
                None
            },
        }
    }

    /// Apply one sweep round's probe outcomes in order, as one batch:
    /// the registry afterwards is the sweep of the old one, and the
    /// returned records are exactly those the round evicted.
    pub fn apply_probe_results(
        &mut self,
        outcomes: &Vec<(String, bool)>,
        threshold: u32,
    ) -> (dropped: Vec<ModelRecord>)
        requires
            old(self).wf(),
        ensures
            final(self).wf(),
            final(self)@ == sweep_all(old(self)@, outcomes_view(outcomes@), threshold),
            dropped@.map_values(|r: ModelRecord| r@) == sweep_dropped(
                old(self)@,
                outcomes_view(outcomes@),
                threshold,
            ),
    {
        let ghost v0 = self@;
        let ghost ov = outcomes_view(outcomes@);
        let mut dropped: Vec<ModelRecord> = Vec::new();
        let mut i: usize = 0;
        proof {
            assert(ov.take(0) =~= Seq::<(Seq<char>, bool)>::empty());
            assert(dropped@.map_values(|r: ModelRecord| r@) =~= Seq::<ModelRecordView>::empty());
        }
        while i < outcomes.len()
            invariant
                self.wf(),
                i <= outcomes.len(),
                ov == outcomes_view(outcomes@),
                ov.len() == outcomes.len(),
                self@ == sweep_all(v0, ov.take(i as int), threshold),
                dropped@.map_values(|r: ModelRecord| r@) == sweep_dropped(
                    v0,
                    ov.take(i as int),
                    threshold,
                ),
            decreases outcomes.len() - i,
        {
            let ghost pre = self@;
            let ghost dropped_pre = dropped@;
            let o = &outcomes[i];
            proof {
                assert(ov[i as int] == (o.0@, o.1));
            }
            if o.1 {
                self.probe_succeeded(&o.0);
            } else {
                match self.probe_failed(&o.0, threshold) {
                    Some(rec) => {
                        dropped.push(rec);
                    },
                    None => {},
                }
            }
            proof {
                lemma_sweep_snoc(v0, ov.take(i as int), ov[i as int], threshold);
                assert(ov.take(i + 1) =~= ov.take(i as int).push(ov[i as int]));
                assert(self@ == sweep_all(v0, ov.take(i + 1), threshold));
                assert(dropped@.map_values(|r: ModelRecord| r@) =~= sweep_dropped(
                    v0,
                    ov.take(i + 1),
                    threshold,
                )) by {
                    if dropped@ =~= dropped_pre {
                        assert(dropped@.map_values(|r: ModelRecord| r@) =~= dropped_pre.map_values(
                            |r: ModelRecord| r@,
                        ));
                    } else {
                        assert(dropped@ =~= dropped_pre.push(dropped@.last()));
                        assert(dropped@.map_values(|r: ModelRecord| r@) =~= dropped_pre.map_values(
                            |r: ModelRecord| r@,
                        ).push(dropped@.last()@));
                    }
                }
            }
            i = i + 1;
        }
        proof {
            assert(ov.take(outcomes.len() as int) =~= ov);
        }
        dropped
    }
}

} // verus!
