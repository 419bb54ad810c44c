//! Removing duplicates from a list of roots found by overlapping searches.
use vstd::prelude::*;

verus! {

/// The first-come list of `items`: walking left to right, an item is kept
/// unless it duplicates an item already kept (`dup(item, kept)`).
pub open spec fn first_come<T>(items: Seq<T>, dup: spec_fn(T, T) -> bool) -> Seq<T>
    decreases items.len(),
{
    if items.len() == 0 {
        Seq::empty()
    } else {
        let kept = first_come(items.drop_last(), dup);
        let r = items.last();
        if exists|i: int| 0 <= i < kept.len() && dup(r, #[trigger] kept[i]) {
            kept
        } else {
            kept.push(r)
        }
    }
}


/// What first-come de-duplication gives, whatever the duplicate relation: no
/// kept item duplicates an item kept before it; every kept item is an input
/// item, and the kept items keep their input order; and every input item is
/// kept or duplicates some kept item.
pub proof fn lemma_first_come_characterised<T>(items: Seq<T>, dup: spec_fn(T, T) -> bool)
    ensures
        forall|i: int, j: int|
            0 <= i < j < first_come(items, dup).len() ==> !dup(
                #[trigger] first_come(items, dup)[j],
                #[trigger] first_come(items, dup)[i],
            ),
        forall|i: int|
            0 <= i < first_come(items, dup).len() ==> exists|t: int|
                0 <= t < items.len() && items[t] == #[trigger] first_come(items, dup)[i],
        forall|t: int|
            0 <= t < items.len() ==> exists|i: int|
                0 <= i < first_come(items, dup).len() && (first_come(items, dup)[i] == #[trigger] items[t]
                    || dup(items[t], first_come(items, dup)[i])),
        first_come(items, dup).len() <= items.len(),
    decreases items.len(),
{
    let kept = first_come(items, dup);
    if items.len() > 0 {
        let rest = items.drop_last();
        let prev = first_come(rest, dup);
        lemma_first_come_characterised(rest, dup);
        let r = items.last();
        assert forall|i: int|
            0 <= i < kept.len() implies exists|t: int|
                0 <= t < items.len() && items[t] == #[trigger] kept[i] by {
            if i < prev.len() {
                assert(kept[i] == prev[i]);
                let t = choose|t: int| 0 <= t < rest.len() && rest[t] == prev[i];
                assert(items[t] == rest[t]);
            } else {
                assert(kept[i] == r);
                assert(items[items.len() - 1] == r);
            }
        }
        assert forall|t: int|
            0 <= t < items.len() implies exists|i: int|
                0 <= i < kept.len() && (kept[i] == #[trigger] items[t] || dup(items[t], kept[i])) by {
            if t < rest.len() {
                assert(items[t] == rest[t]);
                let i = choose|i: int|
                    0 <= i < prev.len() && (prev[i] == #[trigger] rest[t] || dup(rest[t], prev[i]));
                assert(kept[i] == prev[i]);
            } else {
                assert(items[t] == r);
                if exists|i: int| 0 <= i < prev.len() && dup(r, #[trigger] prev[i]) {
                    let i = choose|i: int| 0 <= i < prev.len() && dup(r, #[trigger] prev[i]);
                    assert(kept[i] == prev[i]);
                } else {
                    assert(kept[prev.len() as int] == r);
                }
            }
        }
        assert forall|i: int, j: int|
            0 <= i < j < kept.len() implies !dup(#[trigger] kept[j], #[trigger] kept[i]) by {
            if j < prev.len() {
                assert(kept[j] == prev[j] && kept[i] == prev[i]);
            } else {
                assert(kept[j] == r && kept[i] == prev[i]);
            }
        }
    }
}

/// The relation that a duplicate test reports as true.
pub open spec fn reported_dup<T, F: Fn(T, T) -> bool>(same: F) -> spec_fn(T, T) -> bool {
    |a: T, b: T| same.ensures((a, b), true)
}

/// Keeps, in order, each item that is not a duplicate of an item kept before
/// it, as judged by `same(candidate, kept)`.
pub fn dedup_by<T: Copy, F: Fn(T, T) -> bool>(items: Vec<T>, same: F) -> (kept: Vec<T>)
    requires
        forall|a: T, b: T| #[trigger] same.requires((a, b)),
        forall|a: T, b: T|
            !(#[trigger] same.ensures((a, b), true) && same.ensures((a, b), false)),
    ensures
        kept@ == first_come(items@, reported_dup(same)),
        forall|i: int, j: int|
            0 <= i < j < kept@.len() ==> !same.ensures((#[trigger] kept@[j], #[trigger] kept@[i]), true),
        forall|i: int|
            0 <= i < kept@.len() ==> exists|t: int| 0 <= t < items@.len() && items@[t] == #[trigger] kept@[i],
        forall|t: int|
            0 <= t < items@.len() ==> exists|i: int|
                0 <= i < kept@.len() && (kept@[i] == #[trigger] items@[t]
                    || same.ensures((items@[t], kept@[i]), true)),
{
    let ghost dup = reported_dup(same);
    let mut kept: Vec<T> = Vec::new();
    let n = items.len();
    let mut i: usize = 0;
    while i < n
        invariant
            n == items@.len(),
            i <= n,
            dup == reported_dup(same),
            forall|a: T, b: T| #[trigger] same.requires((a, b)),
            forall|a: T, b: T|
                !(#[trigger] same.ensures((a, b), true) && same.ensures((a, b), false)),
            kept@ == first_come(items@.subrange(0, i as int), dup),
        decreases n - i,
    {
        let r = items[i];
        let mut found = false;
        let mut k: usize = 0;
        while k < kept.len()
            invariant
                k <= kept@.len(),
                dup == reported_dup(same),
                forall|a: T, b: T| #[trigger] same.requires((a, b)),
                forall|a: T, b: T|
                    !(#[trigger] same.ensures((a, b), true) && same.ensures((a, b), false)),
                found <==> exists|m: int| 0 <= m < k && dup(r, #[trigger] kept@[m]),
            decreases kept@.len() - k,
        {
            let d = same(r, kept[k]);
            proof {
                if !d {
                    assert(!dup(r, kept@[k as int]));
                }
            }
            found = found || d;
            k = k + 1;
        }
        proof {
            let prefix = items@.subrange(0, i + 1);
            assert(prefix.drop_last() =~= items@.subrange(0, i as int));
            assert(prefix.last() == r);
        }
        if !found {
            kept.push(r);
        }
        i = i + 1;
    }
    proof {
        assert(items@.subrange(0, n as int) =~= items@);
        lemma_first_come_characterised(items@, dup);
    }
    kept
}

} // verus!
