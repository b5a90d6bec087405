use vstd::prelude::*;
use crate::operation::{
    copy_string, data_views, entry_views, poll_views, same_stamp, string_views, EntryView,
    OperationData, OperationDataView, OperationEntry, PollEntry,
};

verus! {

/// What the cache remembers of one id: the last version stamp seen, and the detail once fetched.
pub struct CollectionCache {
    pub last_updated_at: String,
    pub operation_data: Option<OperationData>,
}

/// A cache record as a value: (last seen stamp, cached detail).
pub type RecordView = (Seq<char>, Option<OperationDataView>);

pub type CacheMap = Map<Seq<char>, RecordView>;

pub type SlotView = (Seq<char>, RecordView);

impl View for CollectionCache {
    type V = RecordView;

    open spec fn view(&self) -> RecordView {
        (
            self.last_updated_at@,
            match self.operation_data {
                Some(d) => Some(d@),
                None => None,
            },
        )
    }
}

/// The ids of a sequence of slots are pairwise distinct.
pub open spec fn ids_unique(s: Seq<SlotView>) -> bool {
    forall|i: int, j: int| 0 <= i < s.len() && 0 <= j < s.len() && i != j ==> s[i].0 != s[j].0
}

/// The map from id to record that a sequence of slots holds.
pub open spec fn slot_map(s: Seq<SlotView>) -> CacheMap {
    Map::new(
        |k: Seq<char>| exists|i: int| 0 <= i < s.len() && s[i].0 == k,
        |k: Seq<char>| s[choose|i: int| 0 <= i < s.len() && s[i].0 == k].1,
    )
}

/// The detail of every slot that has one, in slot order.
pub open spec fn snapshot_of(s: Seq<SlotView>) -> Seq<OperationDataView>
    decreases s.len(),
{
    if s.len() == 0 {
        seq![]
    } else {
        let prev = snapshot_of(s.drop_last());
        match s.last().1.1 {
            Some(d) => prev.push(d),
            None => prev,
        }
    }
}

/// One step of the diff: an id never seen, or seen with another stamp, is changed and its
/// stamp is recorded at once; the cached detail stays until a fetch replaces it.
pub open spec fn diff_entry(m: CacheMap, changed: Seq<Seq<char>>, e: (Seq<char>, Seq<char>)) -> (
    CacheMap,
    Seq<Seq<char>>,
) {
    if !m.contains_key(e.0) {
        (m.insert(e.0, (e.1, None)), changed.push(e.0))
    } else if m[e.0].0 != e.1 {
        (m.insert(e.0, (e.1, m[e.0].1)), changed.push(e.0))
    } else {
        (m, changed)
    }
}

/// The cache after a poll, and the changed ids in poll order.
pub open spec fn diff(m: CacheMap, poll: Seq<(Seq<char>, Seq<char>)>) -> (CacheMap, Seq<Seq<char>>)
    decreases poll.len(),
{
    if poll.len() == 0 {
        (m, seq![])
    } else {
        let prev = diff(m, poll.drop_last());
        diff_entry(prev.0, prev.1, poll.last())
    }
}

/// The cache after fetched entries are stored, each with its stamp and detail.
pub open spec fn merge(m: CacheMap, entries: Seq<EntryView>) -> CacheMap
    decreases entries.len(),
{
    if entries.len() == 0 {
        m
    } else {
        let e = entries.last();
        merge(m, entries.drop_last()).insert(e.id, (e.stamp, Some(e.data)))
    }
}

pub proof fn lemma_slot_at(s: Seq<SlotView>, i: int)
    requires
        ids_unique(s),
        0 <= i < s.len(),
    ensures
        slot_map(s).contains_key(s[i].0),
        slot_map(s)[s[i].0] == s[i].1,
{
    let k = s[i].0;
    assert(exists|j: int| 0 <= j < s.len() && s[j].0 == k);
    let j = choose|j: int| 0 <= j < s.len() && s[j].0 == k;
    assert(j == i);
}

pub proof fn lemma_slot_update(s: Seq<SlotView>, i: int, r: RecordView)
    requires
        ids_unique(s),
        0 <= i < s.len(),
    ensures
        ids_unique(s.update(i, (s[i].0, r))),
        slot_map(s.update(i, (s[i].0, r))) == slot_map(s).insert(s[i].0, r),
{
    let t = s.update(i, (s[i].0, r));
    assert forall|k: Seq<char>| #[trigger] slot_map(t).contains_key(k) == slot_map(s).insert(s[i].0, r).contains_key(k) by {
        if exists|j: int| 0 <= j < s.len() && s[j].0 == k {
            let j = choose|j: int| 0 <= j < s.len() && s[j].0 == k;
            assert(t[j].0 == k);
        }
        if exists|j: int| 0 <= j < t.len() && t[j].0 == k {
            let j = choose|j: int| 0 <= j < t.len() && t[j].0 == k;
            assert(s[j].0 == k);
        }
    }
    assert forall|k: Seq<char>| #[trigger] slot_map(t).contains_key(k) implies slot_map(t)[k] == slot_map(s).insert(s[i].0, r)[k] by {
        let j = choose|j: int| 0 <= j < t.len() && t[j].0 == k;
        if k == s[i].0 {
            assert(j == i);
        } else {
            lemma_slot_at(s, j);
        }
    }
    assert(slot_map(t) =~= slot_map(s).insert(s[i].0, r));
}

pub proof fn lemma_slot_push(s: Seq<SlotView>, id: Seq<char>, r: RecordView)
    requires
        ids_unique(s),
        !slot_map(s).contains_key(id),
    ensures
        ids_unique(s.push((id, r))),
        slot_map(s.push((id, r))) == slot_map(s).insert(id, r),
{
    let t = s.push((id, r));
    assert forall|j: int| 0 <= j < s.len() implies s[j].0 != id by {
        if s[j].0 == id {
            assert(slot_map(s).contains_key(id));
        }
    }
    assert forall|k: Seq<char>| #[trigger] slot_map(t).contains_key(k) == slot_map(s).insert(id, r).contains_key(k) by {
        if exists|j: int| 0 <= j < s.len() && s[j].0 == k {
            let j = choose|j: int| 0 <= j < s.len() && s[j].0 == k;
            assert(t[j].0 == k);
        }
        if exists|j: int| 0 <= j < t.len() && t[j].0 == k {
            let j = choose|j: int| 0 <= j < t.len() && t[j].0 == k;
            if j < s.len() {
                assert(s[j].0 == k);
            }
        }
        if k == id {
            assert(t[s.len() as int].0 == k);
        }
    }
    assert forall|k: Seq<char>| #[trigger] slot_map(t).contains_key(k) implies slot_map(t)[k] == slot_map(s).insert(id, r)[k] by {
        let j = choose|j: int| 0 <= j < t.len() && t[j].0 == k;
        if k == id {
            assert(j == s.len());
        } else {
            assert(s[j].0 == k);
            lemma_slot_at(s, j);
        }
    }
    assert(slot_map(t) =~= slot_map(s).insert(id, r));
}

/// Every detail in the cache is in its snapshot, and the snapshot holds nothing else.
pub proof fn lemma_snapshot_of(s: Seq<SlotView>)
    ensures
        forall|i: int| 0 <= i < s.len() && (#[trigger] s[i].1.1) is Some ==> snapshot_of(s).contains(s[i].1.1->0),
        forall|j: int| 0 <= j < snapshot_of(s).len() ==> exists|i: int| 0 <= i < s.len() && s[i].1.1 == Some(#[trigger] snapshot_of(s)[j]),
    decreases s.len(),
{
    if s.len() > 0 {
        let p = s.drop_last();
        lemma_snapshot_of(p);
        let prev = snapshot_of(p);
        assert forall|i: int| 0 <= i < s.len() && (#[trigger] s[i].1.1) is Some implies snapshot_of(s).contains(s[i].1.1->0) by {
            if i < p.len() {
                assert(p[i] == s[i]);
                let k = choose|k: int| 0 <= k < prev.len() && prev[k] == s[i].1.1->0;
                assert(snapshot_of(s)[k] == prev[k]);
            } else {
                assert(snapshot_of(s).last() == s[i].1.1->0);
            }
        }
        assert forall|j: int| 0 <= j < snapshot_of(s).len() implies exists|i: int| 0 <= i < s.len() && s[i].1.1 == Some(#[trigger] snapshot_of(s)[j]) by {
            if j < prev.len() {
                assert(snapshot_of(s)[j] == prev[j]);
                let i = choose|i: int| 0 <= i < p.len() && p[i].1.1 == Some(prev[j]);
                assert(s[i] == p[i]);
            } else {
                assert(s[s.len() - 1].1.1 == Some(snapshot_of(s)[j]));
            }
        }
    }
}

/// The cache of one watch: a record for each id seen, ids kept distinct.
pub struct ChangeCache {
    slots: Vec<(String, CollectionCache)>,
}

impl ChangeCache {
    pub closed spec fn slots_view(&self) -> Seq<SlotView> {
        self.slots@.map_values(|s: (String, CollectionCache)| (s.0@, s.1@))
    }

    pub open spec fn well_formed(&self) -> bool {
        ids_unique(self.slots_view())
    }

    pub open spec fn view_map(&self) -> CacheMap {
        slot_map(self.slots_view())
    }

    /// The detail of every record that has one, as the next snapshot carries it.
    pub open spec fn snapshot_view(&self) -> Seq<OperationDataView> {
        snapshot_of(self.slots_view())
    }

    pub fn new() -> (c: ChangeCache)
        ensures
            c.well_formed(),
            c.view_map() == Map::<Seq<char>, RecordView>::empty(),
    {
        let c = ChangeCache { slots: Vec::new() };
        assert(c.view_map() =~= Map::<Seq<char>, RecordView>::empty());
        c
    }

    pub fn len(&self) -> (n: usize)
        requires
            self.well_formed(),
        ensures
            n == self.view_map().len(),
    {
        proof {
            self.lemma_len();
        }
        self.slots.len()
    }

    proof fn lemma_len(&self)
        requires
            self.well_formed(),
        ensures
            self.view_map().len() == self.slots@.len(),
    {
        let s = self.slots_view();
        let f = |i: int| s[i].0;
        let idx = Set::new(|i: int| 0 <= i < s.len());
        vstd::set_lib::lemma_int_range(0, s.len() as int);
        assert(idx =~= vstd::set_lib::set_int_range(0, s.len() as int));
        assert forall|i: int, j: int| idx.contains(i) && idx.contains(j) && #[trigger] f(i) == #[trigger] f(j) implies i == j by {}
        assert(vstd::relations::injective_on(f, idx));
        assert(idx.map(f) =~= self.view_map().dom()) by {
            assert forall|k: Seq<char>| self.view_map().dom().contains(k) implies #[trigger] idx.map(f).contains(k) by {
                let i = choose|i: int| 0 <= i < s.len() && s[i].0 == k;
                assert(idx.contains(i) && f(i) == k);
            }
            assert forall|k: Seq<char>| #[trigger] idx.map(f).contains(k) implies self.view_map().dom().contains(k) by {
                let i = choose|i: int| idx.contains(i) && f(i) == k;
                assert(0 <= i < s.len() && s[i].0 == k);
            }
        }
        vstd::set_lib::lemma_map_size(idx, self.view_map().dom(), f);
    }

    /// The position of `id`, if the cache has a record for it.
    fn find(&self, id: &String) -> (r: Option<usize>)
        requires
            self.well_formed(),
        ensures
            match r {
                Some(i) => i < self.slots@.len() && self.slots_view()[i as int].0 == id@,
                None => !self.view_map().contains_key(id@),
            },
    {
        let mut i: usize = 0;
        while i < self.slots.len()
            invariant
                i <= self.slots@.len(),
                forall|j: int| 0 <= j < i ==> self.slots_view()[j].0 != id@,
            decreases self.slots@.len() - i,
        {
            if self.slots[i].0.eq(id) {
                return Some(i);
            }
            i = i + 1;
        }
        None
    }

    /// Stores `record` under `id`, replacing any record it had.
    pub fn insert(&mut self, id: String, record: CollectionCache)
        requires
            old(self).well_formed(),
        ensures
            final(self).well_formed(),
            final(self).view_map() == old(self).view_map().insert(id@, record@),
    {
        let ghost s0 = self.slots_view();
        match self.find(&id) {
            Some(i) => {
                proof {
                    lemma_slot_update(s0, i as int, record@);
                }
                self.slots.set(i, (id, record));
                assert(self.slots_view() =~= s0.update(i as int, (s0[i as int].0, record@)));
            },
            None => {
                proof {
                    lemma_slot_push(s0, id@, record@);
                }
                self.slots.push((id, record));
                assert(self.slots_view() =~= s0.push((id@, record@)));
            },
        }
    }
}


/// Compares a poll result with the cache, records each new stamp at once, and returns the ids
/// never seen before or seen with another stamp, in poll order.
pub fn changed_ids(cache: &mut ChangeCache, poll: &Vec<PollEntry>) -> (ids: Vec<String>)
    requires
        old(cache).well_formed(),
    ensures
        final(cache).well_formed(),
        final(cache).view_map() == diff(old(cache).view_map(), poll_views(poll@)).0,
        string_views(ids@) == diff(old(cache).view_map(), poll_views(poll@)).1,
{
    let ghost m0 = cache.view_map();
    let ghost pv = poll_views(poll@);
    let mut ids: Vec<String> = Vec::new();
    let mut i: usize = 0;
    assert(pv.take(0) =~= Seq::<(Seq<char>, Seq<char>)>::empty());
    assert(string_views(ids@) =~= Seq::<Seq<char>>::empty());
    while i < poll.len()
        invariant
            i <= poll@.len(),
            pv == poll_views(poll@),
            cache.well_formed(),
            cache.view_map() == diff(m0, pv.take(i as int)).0,
            string_views(ids@) == diff(m0, pv.take(i as int)).1,
        decreases poll@.len() - i,
    {
        let e = &poll[i];
        assert(pv.take(i + 1).drop_last() =~= pv.take(i as int));
        assert(pv.take(i + 1).last() == e@);
        let ghost before = ids@;
        match cache.find(&e.id) {
            None => {
                cache.insert(copy_string(&e.id), CollectionCache { last_updated_at: copy_string(&e.last_updated_at), operation_data: None });
                ids.push(copy_string(&e.id));
                assert(string_views(ids@) =~= string_views(before).push(e.id@));
            },
            Some(j) => {
                proof {
                    lemma_slot_at(cache.slots_view(), j as int);
                }
                let rec = &cache.slots[j].1;
                if !same_stamp(&rec.last_updated_at, &e.last_updated_at) {
                    let data = match &rec.operation_data {
                        Some(d) => Some(d.duplicate()),
                        None => None,
                    };
                    cache.insert(copy_string(&e.id), CollectionCache { last_updated_at: copy_string(&e.last_updated_at), operation_data: data });
                    ids.push(copy_string(&e.id));
                    assert(string_views(ids@) =~= string_views(before).push(e.id@));
                }
            },
        }
        i = i + 1;
    }
    assert(pv.take(poll@.len() as int) =~= pv);
    ids
}

/// Stores each fetched entry with its stamp and detail, in order.
pub fn merge_entries(cache: &mut ChangeCache, entries: &Vec<OperationEntry>)
    requires
        old(cache).well_formed(),
    ensures
        final(cache).well_formed(),
        final(cache).view_map() == merge(old(cache).view_map(), entry_views(entries@)),
{
    let ghost m0 = cache.view_map();
    let ghost ev = entry_views(entries@);
    let mut i: usize = 0;
    assert(ev.take(0) =~= Seq::<EntryView>::empty());
    while i < entries.len()
        invariant
            i <= entries@.len(),
            ev == entry_views(entries@),
            cache.well_formed(),
            cache.view_map() == merge(m0, ev.take(i as int)),
        decreases entries@.len() - i,
    {
        let e = &entries[i];
        assert(ev.take(i + 1).drop_last() =~= ev.take(i as int));
        assert(ev.take(i + 1).last() == e@);
        cache.insert(copy_string(&e.id), CollectionCache { last_updated_at: copy_string(&e.last_updated_at), operation_data: Some(e.data.duplicate()) });
        i = i + 1;
    }
    assert(ev.take(entries@.len() as int) =~= ev);
}

/// The details of fetched entries, in the order they came.
pub fn entry_details(entries: &Vec<OperationEntry>) -> (r: Vec<OperationData>)
    ensures
        data_views(r@) == entry_views(entries@).map_values(|e: EntryView| e.data),
{
    let mut r: Vec<OperationData> = Vec::new();
    let mut i: usize = 0;
    while i < entries.len()
        invariant
            i <= entries@.len(),
            r@.len() == i,
            forall|j: int| 0 <= j < i ==> #[trigger] r@[j]@ == entries@[j].data@,
        decreases entries@.len() - i,
    {
        r.push(entries[i].data.duplicate());
        i = i + 1;
    }
    assert(data_views(r@) =~= entry_views(entries@).map_values(|e: EntryView| e.data));
    r
}

impl ChangeCache {
    /// Every detail the cache holds, as one complete snapshot.
    pub fn snapshot(&self) -> (r: Vec<OperationData>)
        ensures
            data_views(r@) == self.snapshot_view(),
    {
        let ghost sv = self.slots_view();
        let mut r: Vec<OperationData> = Vec::new();
        let mut i: usize = 0;
        assert(sv.take(0) =~= Seq::<SlotView>::empty());
        assert(data_views(r@) =~= Seq::<OperationDataView>::empty());
        while i < self.slots.len()
            invariant
                i <= self.slots@.len(),
                sv == self.slots_view(),
                data_views(r@) == snapshot_of(sv.take(i as int)),
            decreases self.slots@.len() - i,
        {
            assert(sv.take(i + 1).drop_last() =~= sv.take(i as int));
            assert(sv.take(i + 1).last() == sv[i as int]);
            let ghost before = r@;
            match &self.slots[i].1.operation_data {
                Some(d) => {
                    r.push(d.duplicate());
                    assert(data_views(r@) =~= data_views(before).push(d@));
                },
                None => {},
            }
            i = i + 1;
        }
        assert(sv.take(self.slots@.len() as int) =~= sv);
        r
    }
}

} // verus!
