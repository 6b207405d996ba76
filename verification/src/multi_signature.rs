//! Matching signatures to keys: the rule, and what follows from it.
//!
//! Which signature verifies under which key is given as a relation `valid(i, j)` between the
//! position `i` of a signature and the position `j` of a key. The rule takes the signatures
//! in order and gives each the first key, not yet taken, that it verifies under.
use vstd::prelude::*;
use crate::sync_error::SyncError;

verus! {

/// The first key at or after position `from` that is not taken and that signature `sig`
/// verifies under. `taken[j]` says whether key `j` has been given to an earlier signature.
pub open spec fn first_match(
    valid: spec_fn(int, int) -> bool,
    taken: Seq<bool>,
    sig: int,
    from: int,
) -> Option<int>
    decreases taken.len() - from,
{
    if from < 0 || from >= taken.len() {
        None
    } else if !taken[from] && valid(sig, from) {
        Some(from)
    } else {
        first_match(valid, taken, sig, from + 1)
    }
}

/// Whether the signatures from position `sig` up to `sigs` each find a key, given the keys
/// already taken.
pub open spec fn all_matched(
    valid: spec_fn(int, int) -> bool,
    taken: Seq<bool>,
    sig: int,
    sigs: int,
) -> bool
    decreases sigs - sig,
{
    if sig >= sigs {
        true
    } else {
        match first_match(valid, taken, sig, 0) {
            None => false,
            Some(key) => all_matched(valid, taken.update(key, true), sig + 1, sigs),
        }
    }
}

/// No key taken yet.
pub open spec fn none_taken(keys: nat) -> Seq<bool> {
    Seq::new(keys, |j: int| false)
}

/// The outcome of multi-signature verification of `sigs` signatures against `keys` keys, of
/// which at least `min_sigs` are asked for.
pub open spec fn multi_signature_verdict(
    valid: spec_fn(int, int) -> bool,
    keys: nat,
    min_sigs: nat,
    sigs: nat,
) -> Result<(), SyncError> {
    if sigs < min_sigs {
        Err(SyncError::InsufficientSignatures)
    } else if all_matched(valid, none_taken(keys), 0, sigs as int) {
        Ok(())
    } else {
        Err(SyncError::SignatureMismatch)
    }
}

/// Whether `assigned` gives each of the signatures from position `from` on a key of its own
/// that is not taken and that the signature verifies under. The entries before `from` do not
/// count.
pub open spec fn is_matching_from(
    valid: spec_fn(int, int) -> bool,
    taken: Seq<bool>,
    assigned: Seq<int>,
    from: int,
) -> bool {
    &&& forall|i: int|
        from <= i < assigned.len() ==> 0 <= #[trigger] assigned[i] < taken.len()
            && !taken[assigned[i]] && valid(i, assigned[i])
    &&& forall|i: int, k: int|
        from <= i < assigned.len() && from <= k < assigned.len() && i != k ==> #[trigger] assigned[i]
            != #[trigger] assigned[k]
}

/// Whether `assigned` is a one-to-one assignment of all the signatures to keys under which
/// they verify.
pub open spec fn is_matching(valid: spec_fn(int, int) -> bool, keys: nat, assigned: Seq<int>) -> bool {
    is_matching_from(valid, none_taken(keys), assigned, 0)
}

/// Whether two keys that verify one common signature verify the same signatures. It holds
/// where no signature verifies under two different keys, and also where a key stands in the
/// list more than once.
pub open spec fn interchangeable(valid: spec_fn(int, int) -> bool, sigs: int, keys: int) -> bool {
    forall|i: int, k: int, j: int, l: int|
        0 <= i < sigs && 0 <= k < sigs && 0 <= j < keys && 0 <= l < keys && #[trigger] valid(i, j)
            && #[trigger] valid(i, l) && #[trigger] valid(k, j) ==> valid(k, l)
}

/// Where no signature verifies under two keys, the keys are interchangeable.
pub proof fn lemma_one_key_each_is_interchangeable(
    valid: spec_fn(int, int) -> bool,
    sigs: int,
    keys: int,
)
    requires
        forall|i: int, j: int, l: int|
            0 <= i < sigs && 0 <= j < keys && 0 <= l < keys && #[trigger] valid(i, j)
                && #[trigger] valid(i, l) ==> j == l,
    ensures
        interchangeable(valid, sigs, keys),
{
}

/// What the first match is: a key in range, not taken, that the signature verifies under,
/// with no such key before it.
pub proof fn lemma_first_match(valid: spec_fn(int, int) -> bool, taken: Seq<bool>, sig: int, from: int)
    requires
        0 <= from,
    ensures
        match first_match(valid, taken, sig, from) {
            Some(key) => {
                &&& from <= key < taken.len()
                &&& !taken[key]
                &&& valid(sig, key)
                &&& forall|j: int| from <= j < key ==> taken[j] || !valid(sig, j)
            },
            None => forall|j: int| from <= j < taken.len() ==> taken[j] || !valid(sig, j),
        },
    decreases taken.len() - from,
{
    if from < taken.len() && !(!taken[from] && valid(sig, from)) {
        lemma_first_match(valid, taken, sig, from + 1);
    }
}

/// The keys that the rule gives to the signatures from `sig` on, in entries `sig` and up;
/// the entries before are zero.
pub open spec fn assignment(
    valid: spec_fn(int, int) -> bool,
    taken: Seq<bool>,
    sig: int,
    sigs: int,
) -> Seq<int>
    decreases sigs - sig,
{
    if sig >= sigs {
        Seq::new(sigs as nat, |i: int| 0)
    } else {
        match first_match(valid, taken, sig, 0) {
            None => Seq::new(sigs as nat, |i: int| 0),
            Some(key) => assignment(valid, taken.update(key, true), sig + 1, sigs).update(sig, key),
        }
    }
}

/// Where every signature finds a key, the keys found make a one-to-one assignment.
pub proof fn lemma_assignment_is_matching(
    valid: spec_fn(int, int) -> bool,
    taken: Seq<bool>,
    sig: int,
    sigs: int,
)
    requires
        0 <= sig <= sigs,
        all_matched(valid, taken, sig, sigs),
    ensures
        assignment(valid, taken, sig, sigs).len() == sigs,
        is_matching_from(valid, taken, assignment(valid, taken, sig, sigs), sig),
    decreases sigs - sig,
{
    if sig < sigs {
        lemma_first_match(valid, taken, sig, 0);
        let key = first_match(valid, taken, sig, 0)->Some_0;
        let later = taken.update(key, true);
        lemma_assignment_is_matching(valid, later, sig + 1, sigs);
        let rest = assignment(valid, later, sig + 1, sigs);
        let all = rest.update(sig, key);
        assert forall|i: int| sig <= i < all.len() implies 0 <= #[trigger] all[i] < taken.len()
            && !taken[all[i]] && valid(i, all[i]) by {
            if i > sig {
                assert(all[i] == rest[i]);
                assert(!later[rest[i]]);
            }
        }
        assert forall|i: int, k: int|
            sig <= i < all.len() && sig <= k < all.len() && i != k implies #[trigger] all[i]
            != #[trigger] all[k] by {
            if i > sig {
                assert(all[i] == rest[i]);
                assert(!later[rest[i]]);
            }
            if k > sig {
                assert(all[k] == rest[k]);
                assert(!later[rest[k]]);
            }
        }
    }
}

/// Where the keys are interchangeable, the rule finds a key for every signature as soon as
/// some one-to-one assignment exists.
pub proof fn lemma_matching_implies_all_matched(
    valid: spec_fn(int, int) -> bool,
    taken: Seq<bool>,
    assigned: Seq<int>,
    sig: int,
)
    requires
        0 <= sig <= assigned.len(),
        interchangeable(valid, assigned.len() as int, taken.len() as int),
        is_matching_from(valid, taken, assigned, sig),
    ensures
        all_matched(valid, taken, sig, assigned.len() as int),
    decreases assigned.len() - sig,
{
    let sigs = assigned.len() as int;
    if sig < sigs {
        let own = assigned[sig];
        lemma_first_match(valid, taken, sig, 0);
        assert(!taken[own] && valid(sig, own));
        let key = first_match(valid, taken, sig, 0)->Some_0;
        let later = taken.update(key, true);
        let moved = Seq::new(
            sigs as nat,
            |i: int|
                if assigned[i] == key {
                    own
                } else {
                    assigned[i]
                },
        );
        assert forall|i: int| sig + 1 <= i < moved.len() implies 0 <= #[trigger] moved[i]
            < later.len() && !later[moved[i]] && valid(i, moved[i]) by {
            assert(0 <= assigned[i] < taken.len() && !taken[assigned[i]] && valid(i, assigned[i]));
            if assigned[i] == key {
                assert(assigned[sig] != assigned[i]);
                assert(valid(sig, key) && valid(sig, own) && valid(i, key));
            }
        }
        assert forall|i: int, k: int|
            sig + 1 <= i < moved.len() && sig + 1 <= k < moved.len() && i != k implies #[trigger] moved[i]
            != #[trigger] moved[k] by {
            assert(assigned[i] != assigned[k]);
            assert(assigned[sig] != assigned[i]);
            assert(assigned[sig] != assigned[k]);
        }
        lemma_matching_implies_all_matched(valid, later, moved, sig + 1);
    }
}

/// Multi-signature verification succeeds only where there are enough signatures and each
/// can be given a key of its own under which it verifies.
pub proof fn lemma_success_gives_matching(
    valid: spec_fn(int, int) -> bool,
    keys: nat,
    min_sigs: nat,
    sigs: nat,
)
    requires
        multi_signature_verdict(valid, keys, min_sigs, sigs) is Ok,
    ensures
        sigs >= min_sigs,
        exists|assigned: Seq<int>| assigned.len() == sigs && is_matching(valid, keys, assigned),
{
    lemma_assignment_is_matching(valid, none_taken(keys), 0, sigs as int);
    let assigned = assignment(valid, none_taken(keys), 0, sigs as int);
    assert(assigned.len() == sigs && is_matching(valid, keys, assigned));
}

/// Where the keys are interchangeable, multi-signature verification succeeds if and only if
/// there are enough signatures and each can be given a key of its own under which it
/// verifies.
pub proof fn lemma_success_iff_matching(
    valid: spec_fn(int, int) -> bool,
    keys: nat,
    min_sigs: nat,
    sigs: nat,
)
    requires
        interchangeable(valid, sigs as int, keys as int),
    ensures
        multi_signature_verdict(valid, keys, min_sigs, sigs) is Ok <==> sigs >= min_sigs && exists|
            assigned: Seq<int>,
        | assigned.len() == sigs && is_matching(valid, keys, assigned),
{
    if multi_signature_verdict(valid, keys, min_sigs, sigs) is Ok {
        lemma_success_gives_matching(valid, keys, min_sigs, sigs);
    }
    if sigs >= min_sigs && exists|assigned: Seq<int>|
        assigned.len() == sigs && is_matching(valid, keys, assigned) {
        let assigned = choose|assigned: Seq<int>|
            assigned.len() == sigs && is_matching(valid, keys, assigned);
        lemma_matching_implies_all_matched(valid, none_taken(keys), assigned, 0);
    }
}

/// Whether `order` lists the positions below its length each once, with `back` saying where
/// each position stands in it.
pub open spec fn is_reordering(order: Seq<int>, back: Seq<int>) -> bool {
    &&& order.len() == back.len()
    &&& forall|i: int|
        0 <= i < order.len() ==> 0 <= #[trigger] order[i] < order.len() && back[order[i]] == i
    &&& forall|k: int|
        0 <= k < back.len() ==> 0 <= #[trigger] back[k] < back.len() && order[back[k]] == k
}

/// The relation between signatures and keys when the signatures are taken in another order:
/// the signature at position `i` is the one that stood at `order[i]`.
pub open spec fn reordered(valid: spec_fn(int, int) -> bool, order: Seq<int>) -> spec_fn(
    int,
    int,
) -> bool {
    |i: int, j: int| valid(order[i], j)
}

/// A one-to-one assignment stays one when the signatures are taken in another order.
proof fn lemma_matching_reordered(
    valid: spec_fn(int, int) -> bool,
    keys: nat,
    assigned: Seq<int>,
    order: Seq<int>,
    back: Seq<int>,
)
    requires
        is_reordering(order, back),
        assigned.len() == order.len(),
        is_matching(valid, keys, assigned),
    ensures
        is_matching(
            reordered(valid, order),
            keys,
            Seq::new(assigned.len(), |i: int| assigned[order[i]]),
        ),
{
    let moved = Seq::new(assigned.len(), |i: int| assigned[order[i]]);
    let taken = none_taken(keys);
    assert forall|i: int| 0 <= i < moved.len() implies 0 <= #[trigger] moved[i] < taken.len()
        && !taken[moved[i]] && reordered(valid, order)(i, moved[i]) by {
        assert(0 <= order[i] < order.len());
        assert(valid(order[i], assigned[order[i]]));
    }
    assert forall|i: int, k: int|
        0 <= i < moved.len() && 0 <= k < moved.len() && i != k implies #[trigger] moved[i]
        != #[trigger] moved[k] by {
        assert(back[order[i]] == i && back[order[k]] == k);
        assert(assigned[order[i]] != assigned[order[k]]);
    }
}

/// Where the keys are interchangeable, the order of the signatures does not change the
/// outcome of multi-signature verification.
pub proof fn lemma_order_does_not_matter(
    valid: spec_fn(int, int) -> bool,
    keys: nat,
    min_sigs: nat,
    order: Seq<int>,
    back: Seq<int>,
)
    requires
        is_reordering(order, back),
        interchangeable(valid, order.len() as int, keys as int),
    ensures
        multi_signature_verdict(reordered(valid, order), keys, min_sigs, order.len())
            == multi_signature_verdict(valid, keys, min_sigs, order.len()),
{
    let sigs = order.len();
    let moved = reordered(valid, order);
    assert(interchangeable(moved, sigs as int, keys as int)) by {
        assert forall|i: int, k: int, j: int, l: int|
            0 <= i < sigs && 0 <= k < sigs && 0 <= j < keys && 0 <= l < keys && #[trigger] moved(
                i,
                j,
            ) && #[trigger] moved(i, l) && #[trigger] moved(k, j) implies moved(k, l) by {
            assert(0 <= order[i] < sigs && 0 <= order[k] < sigs);
            assert(valid(order[i], j) && valid(order[i], l) && valid(order[k], j));
        }
    }
    lemma_success_iff_matching(valid, keys, min_sigs, sigs);
    lemma_success_iff_matching(moved, keys, min_sigs, sigs);
    if sigs >= min_sigs {
        if exists|assigned: Seq<int>| assigned.len() == sigs && is_matching(valid, keys, assigned) {
            let assigned = choose|assigned: Seq<int>|
                assigned.len() == sigs && is_matching(valid, keys, assigned);
            lemma_matching_reordered(valid, keys, assigned, order, back);
            let there = Seq::new(sigs, |i: int| assigned[order[i]]);
            assert(there.len() == sigs && is_matching(moved, keys, there));
        }
        if exists|assigned: Seq<int>| assigned.len() == sigs && is_matching(moved, keys, assigned) {
            let assigned = choose|assigned: Seq<int>|
                assigned.len() == sigs && is_matching(moved, keys, assigned);
            lemma_matching_reordered(moved, keys, assigned, back, order);
            let here = Seq::new(sigs, |k: int| assigned[back[k]]);
            assert(is_matching(reordered(moved, back), keys, here));
            assert forall|k: int| 0 <= k < here.len() implies 0 <= #[trigger] here[k] < keys
                && valid(k, here[k]) by {
                assert(reordered(moved, back)(k, here[k]));
                assert(order[back[k]] == k);
            }
            assert(here.len() == sigs && is_matching(valid, keys, here));
        }
    }
}

} // verus!
