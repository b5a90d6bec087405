use vstd::prelude::*;
use crate::cache::{diff, ids_unique, lemma_slot_at, lemma_snapshot_of, merge, slot_map, snapshot_of, CacheMap, SlotView};
use crate::operation::EntryView;

verus! {

/// Every entry of the poll shows the stamp the cache holds for its id.
pub open spec fn poll_matches(m: CacheMap, poll: Seq<(Seq<char>, Seq<char>)>) -> bool {
    forall|i: int| 0 <= i < poll.len() ==> m.contains_key(#[trigger] poll[i].0) && m[poll[i].0].0 == poll[i].1
}

/// No id stands in the poll twice with two different stamps.
pub open spec fn stamps_consistent(poll: Seq<(Seq<char>, Seq<char>)>) -> bool {
    forall|i: int, j: int| 0 <= i < poll.len() && 0 <= j < poll.len() && #[trigger] poll[i].0 == #[trigger] poll[j].0 ==> poll[i].1 == poll[j].1
}

/// A poll that shows every id with the stamp the cache holds reports nothing and changes
/// nothing.
pub proof fn lemma_matching_poll_is_silent(m: CacheMap, poll: Seq<(Seq<char>, Seq<char>)>)
    requires
        poll_matches(m, poll),
    ensures
        diff(m, poll) == (m, Seq::<Seq<char>>::empty()),
    decreases poll.len(),
{
    if poll.len() > 0 {
        let p = poll.drop_last();
        assert(poll_matches(m, p)) by {
            assert forall|i: int| 0 <= i < p.len() implies m.contains_key(#[trigger] p[i].0) && m[p[i].0].0 == p[i].1 by {
                assert(p[i] == poll[i]);
            }
        }
        lemma_matching_poll_is_silent(m, p);
        assert(poll.last() == poll[poll.len() - 1]);
    }
}

/// Any run of polls in which every stamp is unchanged reports no id and leaves the cache as it
/// was, so no snapshot follows the initial one.
pub proof fn lemma_unchanged_polls_emit_nothing(m: CacheMap, polls: Seq<Seq<(Seq<char>, Seq<char>)>>)
    requires
        forall|n: int| 0 <= n < polls.len() ==> poll_matches(m, #[trigger] polls[n]),
    ensures
        forall|n: int| 0 <= n < polls.len() ==> #[trigger] diff(m, polls[n]) == (m, Seq::<Seq<char>>::empty()),
{
    assert forall|n: int| 0 <= n < polls.len() implies #[trigger] diff(m, polls[n]) == (m, Seq::<Seq<char>>::empty()) by {
        lemma_matching_poll_is_silent(m, polls[n]);
    }
}

/// After a poll, the cache holds each polled id with the stamp the poll showed.
pub proof fn lemma_diff_records_stamps(m: CacheMap, poll: Seq<(Seq<char>, Seq<char>)>)
    requires
        stamps_consistent(poll),
    ensures
        poll_matches(diff(m, poll).0, poll),
    decreases poll.len(),
{
    if poll.len() > 0 {
        let p = poll.drop_last();
        assert(stamps_consistent(p)) by {
            assert forall|i: int, j: int| 0 <= i < p.len() && 0 <= j < p.len() && #[trigger] p[i].0 == #[trigger] p[j].0 implies p[i].1 == p[j].1 by {
                assert(p[i] == poll[i] && p[j] == poll[j]);
            }
        }
        lemma_diff_records_stamps(m, p);
        let last = poll[poll.len() - 1];
        assert(poll.last() == last);
        let m2 = diff(m, poll).0;
        assert forall|i: int| 0 <= i < poll.len() implies m2.contains_key(#[trigger] poll[i].0) && m2[poll[i].0].0 == poll[i].1 by {
            if i < p.len() {
                assert(p[i] == poll[i]);
            }
        }
    }
}

/// A stamp transition is reported once: the same poll seen again reports nothing, because the
/// first sight already recorded each stamp.
pub proof fn lemma_no_double_report(m: CacheMap, poll: Seq<(Seq<char>, Seq<char>)>)
    requires
        stamps_consistent(poll),
    ensures
        diff(diff(m, poll).0, poll).1 == Seq::<Seq<char>>::empty(),
        diff(diff(m, poll).0, poll).0 == diff(m, poll).0,
{
    lemma_diff_records_stamps(m, poll);
    lemma_matching_poll_is_silent(diff(m, poll).0, poll);
}

/// A poll keeps the detail cached for every id the cache held.
pub proof fn lemma_diff_keeps_details(m: CacheMap, poll: Seq<(Seq<char>, Seq<char>)>)
    ensures
        forall|k: Seq<char>| #[trigger] m.contains_key(k) ==> diff(m, poll).0.contains_key(k) && diff(m, poll).0[k].1 == m[k].1,
    decreases poll.len(),
{
    if poll.len() > 0 {
        lemma_diff_keeps_details(m, poll.drop_last());
    }
}

/// An id is fetched with its detail from the given position on.
pub open spec fn fetched_last_at(fetched: Seq<EntryView>, j: int) -> bool {
    &&& 0 <= j < fetched.len()
    &&& forall|l: int| j < l < fetched.len() ==> (#[trigger] fetched[l]).id != fetched[j].id
}

/// Storing fetched entries sets each id to its last fetched stamp and detail, and leaves every
/// other id as it was.
pub proof fn lemma_merge_sets(m: CacheMap, fetched: Seq<EntryView>)
    ensures
        forall|k: Seq<char>| (forall|l: int| 0 <= l < fetched.len() ==> (#[trigger] fetched[l]).id != k) ==> (#[trigger] merge(m, fetched).contains_key(k) == m.contains_key(k)) && (m.contains_key(k) ==> merge(m, fetched)[k] == m[k]),
        forall|j: int| #[trigger] fetched_last_at(fetched, j) ==> merge(m, fetched).contains_key(fetched[j].id) && merge(m, fetched)[fetched[j].id] == (fetched[j].stamp, Some(fetched[j].data)),
    decreases fetched.len(),
{
    if fetched.len() > 0 {
        let f = fetched.drop_last();
        lemma_merge_sets(m, f);
        let last = fetched[fetched.len() - 1];
        assert(fetched.last() == last);
        assert forall|k: Seq<char>| (forall|l: int| 0 <= l < fetched.len() ==> (#[trigger] fetched[l]).id != k) implies (#[trigger] merge(m, fetched).contains_key(k) == m.contains_key(k)) && (m.contains_key(k) ==> merge(m, fetched)[k] == m[k]) by {
            assert forall|l: int| 0 <= l < f.len() implies (#[trigger] f[l]).id != k by {
                assert(f[l] == fetched[l]);
            }
            assert(fetched[fetched.len() - 1].id != k);
            assert(merge(m, f).contains_key(k) == m.contains_key(k));
            assert(merge(m, fetched) == merge(m, f).insert(last.id, (last.stamp, Some(last.data))));
        }
        assert forall|j: int| #[trigger] fetched_last_at(fetched, j) implies merge(m, fetched).contains_key(fetched[j].id) && merge(m, fetched)[fetched[j].id] == (fetched[j].stamp, Some(fetched[j].data)) by {
            if j < f.len() {
                assert(f[j] == fetched[j]);
                assert forall|l: int| j < l < f.len() implies (#[trigger] f[l]).id != f[j].id by {
                    assert(f[l] == fetched[l]);
                }
                assert(fetched_last_at(f, j));
            }
        }
    }
}

/// After a poll and the fetch of its changed ids, the snapshot of the new cache holds the last
/// fetched detail of every fetched id, and still holds the cached detail of every id that was
/// not fetched.
pub proof fn lemma_snapshot_complete(
    before: Seq<SlotView>,
    poll: Seq<(Seq<char>, Seq<char>)>,
    fetched: Seq<EntryView>,
    after: Seq<SlotView>,
)
    requires
        ids_unique(before),
        ids_unique(after),
        slot_map(after) == merge(diff(slot_map(before), poll).0, fetched),
    ensures
        forall|j: int| #[trigger] fetched_last_at(fetched, j) ==> snapshot_of(after).contains(fetched[j].data),
        forall|i: int|
            0 <= i < before.len() && (#[trigger] before[i].1.1) is Some && (forall|l: int| 0 <= l < fetched.len() ==> (#[trigger] fetched[l]).id != before[i].0)
                ==> snapshot_of(after).contains(before[i].1.1->0),
{
    let m0 = slot_map(before);
    let m1 = diff(m0, poll).0;
    lemma_diff_keeps_details(m0, poll);
    lemma_merge_sets(m1, fetched);
    lemma_snapshot_of(after);
    assert forall|j: int| #[trigger] fetched_last_at(fetched, j) implies snapshot_of(after).contains(fetched[j].data) by {
        let k = fetched[j].id;
        assert(slot_map(after).contains_key(k));
        let a = choose|a: int| 0 <= a < after.len() && after[a].0 == k;
        lemma_slot_at(after, a);
        assert(after[a].1.1 == Some(fetched[j].data));
    }
    assert forall|i: int|
        0 <= i < before.len() && (#[trigger] before[i].1.1) is Some && (forall|l: int| 0 <= l < fetched.len() ==> (#[trigger] fetched[l]).id != before[i].0)
        implies snapshot_of(after).contains(before[i].1.1->0) by {
        let k = before[i].0;
        lemma_slot_at(before, i);
        assert(m0.contains_key(k));
        assert(slot_map(after).contains_key(k));
        let a = choose|a: int| 0 <= a < after.len() && after[a].0 == k;
        lemma_slot_at(after, a);
        assert(after[a].1.1 == before[i].1.1);
    }
}

/// A poll leaves every id it does not show as it was.
pub proof fn lemma_diff_keeps_unpolled(m: CacheMap, poll: Seq<(Seq<char>, Seq<char>)>)
    ensures
        forall|k: Seq<char>| (forall|i: int| 0 <= i < poll.len() ==> (#[trigger] poll[i]).0 != k) ==> (#[trigger] diff(m, poll).0.contains_key(k) == m.contains_key(k)) && (m.contains_key(k) ==> diff(m, poll).0[k] == m[k]),
    decreases poll.len(),
{
    if poll.len() > 0 {
        let p = poll.drop_last();
        lemma_diff_keeps_unpolled(m, p);
        assert(poll.last() == poll[poll.len() - 1]);
        assert forall|k: Seq<char>| (forall|i: int| 0 <= i < poll.len() ==> (#[trigger] poll[i]).0 != k) implies (#[trigger] diff(m, poll).0.contains_key(k) == m.contains_key(k)) && (m.contains_key(k) ==> diff(m, poll).0[k] == m[k]) by {
            assert forall|i: int| 0 <= i < p.len() implies (#[trigger] p[i]).0 != k by {
                assert(p[i] == poll[i]);
            }
            assert(poll[poll.len() - 1].0 != k);
            assert(diff(m, p).0.contains_key(k) == m.contains_key(k));
        }
    }
}

/// Every polled id that is new to the cache, or shows another stamp than the cache holds, is
/// reported as changed, so its detail is fetched and stands in the next snapshot.
pub proof fn lemma_moved_stamp_is_reported(m: CacheMap, poll: Seq<(Seq<char>, Seq<char>)>)
    requires
        stamps_consistent(poll),
    ensures
        forall|i: int| 0 <= i < poll.len() && (!m.contains_key(#[trigger] poll[i].0) || m[poll[i].0].0 != poll[i].1) ==> diff(m, poll).1.contains(poll[i].0),
    decreases poll.len(),
{
    if poll.len() > 0 {
        let n = poll.len() - 1;
        let p = poll.drop_last();
        assert(stamps_consistent(p)) by {
            assert forall|i: int, j: int| 0 <= i < p.len() && 0 <= j < p.len() && #[trigger] p[i].0 == #[trigger] p[j].0 implies p[i].1 == p[j].1 by {
                assert(p[i] == poll[i] && p[j] == poll[j]);
            }
        }
        lemma_moved_stamp_is_reported(m, p);
        lemma_diff_keeps_unpolled(m, p);
        assert(poll.last() == poll[n]);
        let c1 = diff(m, p).1;
        let c = diff(m, poll).1;
        assert(c == c1 || c == c1.push(poll[n].0));
        assert forall|y: Seq<char>| c1.contains(y) implies c.contains(y) by {
            let k = choose|k: int| 0 <= k < c1.len() && c1[k] == y;
            assert(c[k] == c1[k]);
        }
        assert forall|i: int| 0 <= i < poll.len() && (!m.contains_key(#[trigger] poll[i].0) || m[poll[i].0].0 != poll[i].1) implies c.contains(poll[i].0) by {
            if i < n {
                assert(p[i] == poll[i]);
                assert(c1.contains(p[i].0));
            } else {
                let id = poll[n].0;
                if exists|j: int| 0 <= j < p.len() && p[j].0 == id {
                    let j = choose|j: int| 0 <= j < p.len() && p[j].0 == id;
                    assert(p[j] == poll[j]);
                    assert(poll[j].1 == poll[n].1);
                    assert(c1.contains(p[j].0));
                } else {
                    assert forall|j: int| 0 <= j < p.len() implies (#[trigger] p[j]).0 != id by {}
                    assert(diff(m, p).0.contains_key(id) == m.contains_key(id));
                    assert(c[c.len() - 1] == id);
                }
            }
        }
    }
}

} // verus!
