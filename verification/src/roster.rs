use vstd::prelude::*;
use vstd::std_specs::iter::IteratorSpec;
use std::collections::HashMap;
use crate::game::PlayerId;

verus! {

/// Strictly increasing from front to back.
pub open spec fn is_ascending(ids: Seq<PlayerId>) -> bool {
    forall|i: int, j: int| 0 <= i < j < ids.len() ==> ids[i] < ids[j]
}

/// The members of `dom` smaller than `bound`, smallest first.
pub open spec fn ids_below(dom: Set<PlayerId>, bound: nat) -> Seq<PlayerId>
    decreases bound,
{
    if bound == 0 {
        Seq::empty()
    } else {
        let rest = ids_below(dom, (bound - 1) as nat);
        if bound - 1 <= u32::MAX && dom.contains((bound - 1) as PlayerId) {
            rest.push((bound - 1) as PlayerId)
        } else {
            rest
        }
    }
}

/// Every member of `dom`, smallest first. This is the order in which the
/// engine visits players whenever the order can be observed.
pub open spec fn ascending_ids(dom: Set<PlayerId>) -> Seq<PlayerId> {
    ids_below(dom, 0x1_0000_0000)
}

/// `ids_below` lists exactly the members under the bound, in increasing
/// order.
pub proof fn lemma_ids_below(dom: Set<PlayerId>, bound: nat)
    ensures
        is_ascending(ids_below(dom, bound)),
        forall|id: PlayerId|
            #![trigger ids_below(dom, bound).contains(id)]
            #![trigger dom.contains(id)]
            ids_below(dom, bound).contains(id) <==> (dom.contains(id) && id < bound),
    decreases bound,
{
    let all = ids_below(dom, bound);
    if bound == 0 {
        assert forall|id: PlayerId| !all.contains(id) by {
            if all.contains(id) {
                let k = choose|k: int| 0 <= k < all.len() && all[k] == id;
            }
        }
    } else {
        let rest = ids_below(dom, (bound - 1) as nat);
        lemma_ids_below(dom, (bound - 1) as nat);
        if bound - 1 <= u32::MAX && dom.contains((bound - 1) as PlayerId) {
            let top = (bound - 1) as PlayerId;
            assert(all == rest.push(top));
            assert forall|i: int, j: int| 0 <= i < j < all.len() implies all[i] < all[j] by {
                if j == rest.len() {
                    assert(rest.contains(rest[i]));
                    assert(rest[i] < bound - 1);
                } else {
                    assert(rest[i] < rest[j]);
                }
            }
            assert forall|id: PlayerId|
                #![trigger all.contains(id)]
                #![trigger dom.contains(id)]
                all.contains(id) <==> (dom.contains(id) && id < bound) by {
                if all.contains(id) {
                    let k = choose|k: int| 0 <= k < all.len() && all[k] == id;
                    if k < rest.len() {
                        assert(rest[k] == id);
                        assert(rest.contains(id));
                    }
                }
                if dom.contains(id) && id < bound {
                    if id == top {
                        assert(all[rest.len() as int] == id);
                    } else {
                        assert(rest.contains(id));
                        let k = choose|k: int| 0 <= k < rest.len() && rest[k] == id;
                        assert(all[k] == id);
                    }
                }
            }
        } else {
            assert(all == rest);
            assert forall|id: PlayerId|
                #![trigger all.contains(id)]
                #![trigger dom.contains(id)]
                all.contains(id) <==> (dom.contains(id) && id < bound) by {
                if dom.contains(id) && id < bound {
                    assert(id != bound - 1);
                }
            }
        }
    }
}

/// An increasing sequence that lists the members of `dom` under `bound` is
/// `ids_below(dom, bound)`: there is only one such listing.
pub proof fn lemma_ascending_listing_unique(ids: Seq<PlayerId>, dom: Set<PlayerId>, bound: nat)
    requires
        is_ascending(ids),
        forall|id: PlayerId| ids.contains(id) <==> (dom.contains(id) && id < bound),
    ensures
        ids == ids_below(dom, bound),
    decreases bound,
{
    if bound == 0 {
        if ids.len() > 0 {
            assert(ids.contains(ids[0]));
        }
        assert(ids =~= Seq::empty());
    } else if bound - 1 <= u32::MAX && dom.contains((bound - 1) as PlayerId) {
        let top = (bound - 1) as PlayerId;
        assert(ids.contains(top));
        let k = choose|k: int| 0 <= k < ids.len() && ids[k] == top;
        if k < ids.len() - 1 {
            assert(ids.contains(ids[ids.len() - 1]));
        }
        let front = ids.drop_last();
        assert forall|id: PlayerId| front.contains(id) <==> (dom.contains(id) && id < bound
            - 1) by {
            if front.contains(id) {
                let j = choose|j: int| 0 <= j < front.len() && front[j] == id;
                assert(ids[j] == id);
                assert(ids.contains(id));
            }
            if dom.contains(id) && id < bound - 1 {
                assert(ids.contains(id));
                let j = choose|j: int| 0 <= j < ids.len() && ids[j] == id;
                assert(front[j] == id);
            }
        }
        lemma_ascending_listing_unique(front, dom, (bound - 1) as nat);
        assert(ids =~= front.push(top));
    } else {
        assert forall|id: PlayerId| ids.contains(id) <==> (dom.contains(id) && id < bound
            - 1) by {}
        lemma_ascending_listing_unique(ids, dom, (bound - 1) as nat);
    }
}

/// An increasing sequence with exactly the members of `dom` is
/// `ascending_ids(dom)`.
pub proof fn lemma_ascending_ids_unique(ids: Seq<PlayerId>, dom: Set<PlayerId>)
    requires
        is_ascending(ids),
        forall|id: PlayerId| ids.contains(id) <==> dom.contains(id),
    ensures
        ids == ascending_ids(dom),
{
    lemma_ascending_listing_unique(ids, dom, 0x1_0000_0000);
}

/// `ascending_ids` is increasing, free of repeats, and holds exactly the
/// members of `dom`.
pub proof fn lemma_ascending_ids(dom: Set<PlayerId>)
    ensures
        is_ascending(ascending_ids(dom)),
        ascending_ids(dom).no_duplicates(),
        forall|id: PlayerId| ascending_ids(dom).contains(id) <==> dom.contains(id),
{
    lemma_ids_below(dom, 0x1_0000_0000);
}

/// Dropping members from an increasing sequence leaves it increasing.
pub proof fn lemma_filter_keeps_order(ids: Seq<PlayerId>, pred: spec_fn(PlayerId) -> bool)
    requires
        is_ascending(ids),
    ensures
        is_ascending(ids.filter(pred)),
        forall|k: int|
            0 <= k < ids.filter(pred).len() ==> ids.len() > 0 && #[trigger] ids.filter(pred)[k]
                <= ids.last(),
    decreases ids.len(),
{
    if ids.len() > 0 {
        let front = ids.drop_last();
        lemma_filter_keeps_order(front, pred);
        assert(ids =~= front.push(ids.last()));
        front.lemma_filter_push(ids.last(), pred);
        let kept = front.filter(pred);
        assert forall|k: int| 0 <= k < kept.len() implies #[trigger] kept[k] < ids.last() by {
            assert(front.len() > 0);
            assert(front.last() == ids[ids.len() - 2]);
        }
    } else {
        assert(ids.filter(pred) =~= Seq::<PlayerId>::empty()) by {
            reveal(Seq::filter);
        }
    }
}

/// A filter keeps exactly the members that pass it.
pub proof fn lemma_filter_members(ids: Seq<PlayerId>, pred: spec_fn(PlayerId) -> bool)
    ensures
        forall|id: PlayerId|
            #![trigger ids.filter(pred).contains(id)]
            ids.filter(pred).contains(id) <==> (ids.contains(id) && pred(id)),
{
    let kept = ids.filter(pred);
    assert forall|id: PlayerId| #![trigger kept.contains(id)] kept.contains(id) <==> (ids.contains(
        id,
    ) && pred(id)) by {
        if kept.contains(id) {
            let k = choose|k: int| 0 <= k < kept.len() && kept[k] == id;
            ids.lemma_filter_pred(pred, k);
            ids.lemma_filter_contains_rev(pred, id);
        }
        if ids.contains(id) && pred(id) {
            let k = choose|k: int| 0 <= k < ids.len() && ids[k] == id;
            ids.lemma_filter_contains(pred, k);
        }
    }
}

/// Puts `id` into an increasing vector at its place; an id already present
/// is left alone.
pub fn insert_ascending(ids: &mut Vec<PlayerId>, id: PlayerId)
    requires
        is_ascending(old(ids)@),
    ensures
        is_ascending(final(ids)@),
        forall|other: PlayerId|
            final(ids)@.contains(other) <==> (old(ids)@.contains(other) || other == id),
{
    let mut at: usize = 0;
    while at < ids.len() && ids[at] < id
        invariant
            at <= ids@.len(),
            ids@ == old(ids)@,
            forall|k: int| 0 <= k < at ==> ids@[k] < id,
        decreases ids@.len() - at,
    {
        at += 1;
    }
    if at < ids.len() && ids[at] == id {
        assert(ids@.contains(id));
        return ;
    }
    let ghost before = ids@;
    ids.insert(at, id);
    proof {
        let after = ids@;
        assert forall|i: int, j: int| 0 <= i < j < after.len() implies after[i] < after[j] by {
            if j < at {
            } else if j == at {
            } else if i < at {
                assert(before[at as int] <= before[j - 1]);
            } else if i == at {
                assert(before[at as int] <= before[j - 1]);
            } else {
            }
        }
        assert forall|other: PlayerId|
            after.contains(other) <==> (before.contains(other) || other == id) by {
            if after.contains(other) {
                let k = choose|k: int| 0 <= k < after.len() && after[k] == other;
                if k < at {
                    assert(before[k] == other);
                } else if k > at {
                    assert(before[k - 1] == other);
                }
            }
            if before.contains(other) {
                let k = choose|k: int| 0 <= k < before.len() && before[k] == other;
                if k < at {
                    assert(after[k] == other);
                } else {
                    assert(after[k + 1] == other);
                }
            }
            if other == id {
                assert(after[at as int] == id);
            }
        }
    }
}

/// `HashMap::get_mut`: a mutable borrow of the value stored under `id`, if
/// there is one; whatever is written through it is what the map holds under
/// `id` afterwards, and nothing else in the map changes.
#[verifier::external_body]
pub(crate) fn entry_mut<'a, V>(map: &'a mut HashMap<PlayerId, V>, id: PlayerId) -> (entry: Option<
    &'a mut V,
>)
    ensures
        match entry {
            Some(value) => {
                &&& old(map)@.contains_key(id)
                &&& *value == old(map)@[id]
                &&& final(map)@ == old(map)@.insert(id, *final(value))
            },
            None => !old(map)@.contains_key(id) && final(map)@ == old(map)@,
        },
{
    map.get_mut(&id)
}

/// The keys of a map, smallest first.
pub fn sorted_keys<V>(map: &HashMap<PlayerId, V>) -> (ids: Vec<PlayerId>)
    ensures
        ids@ == ascending_ids(map@.dom()),
{
    broadcast use vstd::std_specs::hash::group_hash_axioms;

    let mut ids: Vec<PlayerId> = Vec::new();
    let ghost mut seen: Seq<PlayerId> = Seq::empty();
    for key in it: map.keys()
        invariant
            is_ascending(ids@),
            seen.len() == it.index(),
            forall|k: int| 0 <= k < seen.len() ==> seen[k] == *it.seq()[k],
            forall|id: PlayerId| ids@.contains(id) <==> seen.contains(id),
    {
        let ghost before = seen;
        insert_ascending(&mut ids, *key);
        proof {
            seen = seen.push(*key);
            assert forall|id: PlayerId| ids@.contains(id) <==> seen.contains(id) by {
                if seen.contains(id) {
                    let k = choose|k: int| 0 <= k < seen.len() && seen[k] == id;
                    if k < before.len() {
                        assert(before[k] == id);
                    }
                }
                if before.contains(id) {
                    let k = choose|k: int| 0 <= k < before.len() && before[k] == id;
                    assert(seen[k] == id);
                }
                if id == *key {
                    assert(seen[before.len() as int] == id);
                }
            }
        }
    }
    proof {
        let keys = map.keys().remaining().unref();
        assert(seen =~= keys);
        assert forall|id: PlayerId| ids@.contains(id) <==> map@.dom().contains(id) by {
            assert(keys.to_set().contains(id) <==> keys.contains(id));
        }
        lemma_ascending_ids_unique(ids@, map@.dom());
    }
    ids
}

} // verus!
