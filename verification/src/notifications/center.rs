//! The order of the application groups in the notification center: stable
//! while it is open, so groups do not jump as notifications arrive.
use vstd::prelude::*;

use crate::text::str_eq;

verus! {

broadcast use vstd::string::group_string_axioms;

/// The keys of `order` that are still among `keys`, in their order.
pub open spec fn still_present(order: Seq<Seq<char>>, keys: Seq<Seq<char>>) -> Seq<Seq<char>>
    decreases order.len(),
{
    if order.len() == 0 {
        seq![]
    } else {
        let rest = still_present(order.drop_last(), keys);
        if keys.contains(order.last()) {
            rest.push(order.last())
        } else {
            rest
        }
    }
}

/// `order` followed by each key of `keys` it does not hold yet, in key order.
pub open spec fn with_new_keys(order: Seq<Seq<char>>, keys: Seq<Seq<char>>) -> Seq<Seq<char>>
    decreases keys.len(),
{
    if keys.len() == 0 {
        order
    } else {
        let before = with_new_keys(order, keys.drop_last());
        if before.contains(keys.last()) {
            before
        } else {
            before.push(keys.last())
        }
    }
}

pub open spec fn texts(v: Seq<String>) -> Seq<Seq<char>> {
    v.map_values(|s: String| s@)
}

fn contains_text(v: &Vec<String>, key: &String) -> (r: bool)
    ensures
        r == texts(v@).contains(key@),
{
    let mut i: usize = 0;
    while i < v.len()
        invariant
            i <= v.len(),
            forall|j: int| 0 <= j < i ==> (#[trigger] v@[j])@ != key@,
        decreases v.len() - i,
    {
        if str_eq(v[i].as_str(), key.as_str()) {
            assert(texts(v@)[i as int] == key@);
            return true;
        }
        i += 1;
    }
    assert forall|j: int| 0 <= j < v@.len() implies #[trigger] texts(v@)[j] != key@ by {
        assert(texts(v@)[j] == v@[j]@);
    }
    false
}

fn contains_key_text(keys: &[String], key: &String) -> (r: bool)
    ensures
        r == texts(keys@).contains(key@),
{
    let mut i: usize = 0;
    while i < keys.len()
        invariant
            i <= keys@.len(),
            forall|j: int| 0 <= j < i ==> (#[trigger] keys@[j])@ != key@,
        decreases keys.len() - i,
    {
        if str_eq(keys[i].as_str(), key.as_str()) {
            assert(texts(keys@)[i as int] == key@);
            return true;
        }
        i += 1;
    }
    assert forall|j: int| 0 <= j < keys@.len() implies #[trigger] texts(keys@)[j] != key@ by {
        assert(texts(keys@)[j] == keys@[j]@);
    }
    false
}

/// Brings the group order up to date with the groups of a new snapshot.
/// A reset takes the snapshot's order; otherwise groups that are gone drop
/// out, the rest keep their places, and new groups join at the end.
pub fn update_group_order(order: &mut Vec<String>, keys: &[String], reset: bool)
    ensures
        reset ==> texts(final(order)@) == texts(keys@),
        !reset ==> texts(final(order)@) == with_new_keys(
            still_present(texts(old(order)@), texts(keys@)),
            texts(keys@),
        ),
{
    let ghost o = texts(order@);
    let ghost k = texts(keys@);
    let mut next: Vec<String> = Vec::new();
    if reset {
        let mut i: usize = 0;
        while i < keys.len()
            invariant
                i <= keys@.len(),
                texts(next@) == texts(keys@).take(i as int),
            decreases keys.len() - i,
        {
            let ghost before = next@;
            next.push(keys[i].clone());
            assert(texts(next@) =~= texts(before).push(keys@[i as int]@));
            i += 1;
        }
        assert(texts(keys@).take(keys@.len() as int) == texts(keys@));
        *order = next;
        return;
    }
    let mut i: usize = 0;
    while i < order.len()
        invariant
            i <= order@.len(),
            o == texts(order@),
            k == texts(keys@),
            texts(next@) == still_present(o.take(i as int), k),
        decreases order.len() - i,
    {
        proof {
            assert(o.take(i + 1).drop_last() == o.take(i as int));
            assert(o.take(i + 1).last() == order@[i as int]@);
        }
        if contains_key_text(keys, &order[i]) {
            let ghost before = next@;
            next.push(order[i].clone());
            assert(texts(next@) =~= texts(before).push(order@[i as int]@));
        }
        i += 1;
    }
    assert(o.take(o.len() as int) == o);
    let ghost kept = texts(next@);
    let mut j: usize = 0;
    while j < keys.len()
        invariant
            j <= keys@.len(),
            k == texts(keys@),
            texts(next@) == with_new_keys(kept, k.take(j as int)),
        decreases keys.len() - j,
    {
        proof {
            assert(k.take(j + 1).drop_last() == k.take(j as int));
            assert(k.take(j + 1).last() == keys@[j as int]@);
        }
        if !contains_text(&next, &keys[j]) {
            let ghost before = next@;
            next.push(keys[j].clone());
            assert(texts(next@) =~= texts(before).push(keys@[j as int]@));
        }
        j += 1;
    }
    assert(k.take(k.len() as int) == k);
    *order = next;
}

} // verus!
