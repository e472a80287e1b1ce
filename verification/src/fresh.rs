//! Choosing an identifier that is not yet taken.
//!
//! Starting from a candidate, the 64-bit values are probed in cyclic
//! order: the candidate, the value after it, and so on, wrapping round.
//! The first value that is not taken is the fresh one. Because fewer than
//! 2^64 values are ever taken, there is one.

use crate::id::IdValue;
use vstd::prelude::*;
use vstd::relations::injective_on;
use vstd::set_lib::*;

verus! {

/// The `k`-th value probed from candidate `c`.
pub open spec fn probe(c: IdValue, k: nat) -> IdValue {
    ((c + k) % 0x1_0000_0000_0000_0000) as IdValue
}

/// The `k`-th probe from `c` is the first that is not among `taken`.
pub open spec fn is_first_free(taken: Seq<IdValue>, c: IdValue, k: nat) -> bool {
    &&& !taken.contains(probe(c, k))
    &&& forall|j: nat| j < k ==> taken.contains(#[trigger] probe(c, j))
}

/// The first value in cyclic order from `c` that is not among `taken`.
pub open spec fn first_free(taken: Seq<IdValue>, c: IdValue) -> IdValue {
    probe(c, choose|k: nat| is_first_free(taken, c, k))
}

/// Fewer than 2^64 probes from one candidate are pairwise distinct.
pub proof fn lemma_probe_injective(c: IdValue, j: nat, k: nat)
    requires
        j < 0x1_0000_0000_0000_0000,
        k < 0x1_0000_0000_0000_0000,
        probe(c, j) == probe(c, k),
    ensures
        j == k,
{
}

/// The probe after the `k`-th is its successor, wrapping round.
pub proof fn lemma_probe_next(c: IdValue, k: nat)
    ensures
        probe(c, k + 1) == if probe(c, k) == u64::MAX {
            0
        } else {
            (probe(c, k) + 1) as IdValue
        },
        probe(c, 0) == c,
{
}

/// If the first `n` probes are all taken, at least `n` values are taken.
pub proof fn lemma_probes_bounded(taken: Seq<IdValue>, c: IdValue, n: nat)
    requires
        n <= 0x1_0000_0000_0000_0000,
        forall|j: nat| j < n ==> taken.contains(#[trigger] probe(c, j)),
    ensures
        n <= taken.len(),
{
    let x = set_int_range(0, n as int);
    let f = |j: int| probe(c, j as nat);
    let y = x.map(f);
    lemma_int_range(0, n as int);
    assert(injective_on(f, x)) by {
        assert forall|a: int, b: int| x.contains(a) && x.contains(b) && #[trigger] f(a)
            == #[trigger] f(b) implies a == b by {
            lemma_probe_injective(c, a as nat, b as nat);
        }
    }
    lemma_map_size(x, y, f);
    assert(y.subset_of(taken.to_set())) by {
        assert forall|v: IdValue| y.contains(v) implies taken.to_set().contains(v) by {
            let j = choose|j: int| x.contains(j) && f(j) == v;
            assert(taken.contains(probe(c, j as nat)));
        }
    }
    vstd::seq_lib::seq_to_set_is_finite(taken);
    lemma_len_subset(y, taken.to_set());
    taken.lemma_cardinality_of_set();
}

/// At most one probe is the first free one.
pub proof fn lemma_first_free_unique(taken: Seq<IdValue>, c: IdValue, j: nat, k: nat)
    requires
        is_first_free(taken, c, j),
        is_first_free(taken, c, k),
    ensures
        j == k,
{
    if j < k {
        assert(taken.contains(probe(c, j)));
    } else if k < j {
        assert(taken.contains(probe(c, k)));
    }
}

/// Where the `k`-th probe is the first free one, it is the fresh value.
pub proof fn lemma_first_free_is(taken: Seq<IdValue>, c: IdValue, k: nat)
    requires
        is_first_free(taken, c, k),
    ensures
        first_free(taken, c) == probe(c, k),
        !taken.contains(first_free(taken, c)),
{
    let w = choose|w: nat| is_first_free(taken, c, w);
    lemma_first_free_unique(taken, c, w, k);
}

/// Where fewer than 2^64 values are taken, some value is free: the fresh
/// value is not taken, and it is the candidate itself if that is free.
pub proof fn law_first_free_is_free(taken: Seq<IdValue>, c: IdValue)
    requires
        taken.len() < 0x1_0000_0000_0000_0000,
    ensures
        !taken.contains(first_free(taken, c)),
        !taken.contains(c) ==> first_free(taken, c) == c,
{
    lemma_first_free_search(taken, c, 0);
    if !taken.contains(c) {
        assert(is_first_free(taken, c, 0));
        lemma_first_free_is(taken, c, 0);
    }
}

/// Where the first `k` probes are taken, one of the later probes is the
/// first free one.
proof fn lemma_first_free_search(taken: Seq<IdValue>, c: IdValue, k: nat)
    requires
        taken.len() < 0x1_0000_0000_0000_0000,
        forall|j: nat| j < k ==> taken.contains(#[trigger] probe(c, j)),
    ensures
        !taken.contains(first_free(taken, c)),
    decreases taken.len() + 1 - k,
{
    if k < 0x1_0000_0000_0000_0000 {
        lemma_probes_bounded(taken, c, k);
    } else {
        lemma_probes_bounded(taken, c, 0x1_0000_0000_0000_0000);
    }
    if taken.contains(probe(c, k)) {
        assert forall|j: nat| j < k + 1 implies taken.contains(#[trigger] probe(c, j)) by {
            if j < k {
            }
        }
        lemma_probes_bounded(taken, c, k + 1);
        lemma_first_free_search(taken, c, k + 1);
    } else {
        assert(is_first_free(taken, c, k));
        lemma_first_free_is(taken, c, k);
    }
}

} // verus!
