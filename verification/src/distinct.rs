//! Counting the distinct cells that a Poincaré section occupies.
//!
//! A section point is reduced, outside this module, to a pair of integer
//! cell coordinates (its two coordinates rounded at some resolution). How
//! many different cells the section touches is what separates a finite
//! repeating set from a densifying curve.
use std::collections::HashSet;
use vstd::prelude::*;
use vstd::std_specs::hash::group_hash_axioms;

verus! {

/// The cell coordinates of one section point.
pub type Cell = (i64, i64);

/// Number of distinct cells among `cells`.
pub open spec fn distinct_count(cells: Seq<Cell>) -> nat {
    cells.to_set().len()
}

/// `2^64`, the stride between consecutive first coordinates in a packed key.
pub open spec fn key_radix() -> int {
    0x1_0000_0000_0000_0000
}

/// Packs a cell into one `i128`: the first coordinate in the high 64 bits,
/// the second (offset to be non-negative) in the low 64 bits.
pub open spec fn packed_key(c: Cell) -> int {
    c.0 * key_radix() + (c.1 - i64::MIN)
}

/// `packed_key` as a spec closure over `i128`.
pub open spec fn packed_key_fn() -> spec_fn(Cell) -> i128 {
    |c: Cell| packed_key(c) as i128
}

proof fn lemma_packed_key_range(c: Cell)
    ensures
        i128::MIN <= packed_key(c) <= i128::MAX,
{
    let a = c.0 as int;
    let r = c.1 - i64::MIN;
    assert(0 <= r < key_radix());
    assert(-0x8000_0000_0000_0000 * key_radix() <= a * key_radix() <= 0x7fff_ffff_ffff_ffff
        * key_radix()) by (nonlinear_arith)
        requires
            -0x8000_0000_0000_0000 <= a <= 0x7fff_ffff_ffff_ffff,
            key_radix() == 0x1_0000_0000_0000_0000,
    ;
}

proof fn lemma_packed_key_injective(c1: Cell, c2: Cell)
    requires
        packed_key(c1) == packed_key(c2),
    ensures
        c1 == c2,
{
    let a1 = c1.0 as int;
    let a2 = c2.0 as int;
    let r1 = c1.1 - i64::MIN;
    let r2 = c2.1 - i64::MIN;
    let m = key_radix();
    assert(a1 == a2) by (nonlinear_arith)
        requires
            a1 * m + r1 == a2 * m + r2,
            0 <= r1 < m,
            0 <= r2 < m,
            m > 0,
    {
        if a1 < a2 {
            assert(a1 * m + m <= a2 * m);
        } else if a1 > a2 {
            assert(a2 * m + m <= a1 * m);
        }
    }
}

proof fn lemma_packed_key_fn_injective(s: Set<Cell>)
    ensures
        vstd::relations::injective_on(packed_key_fn(), s),
{
    assert forall|x1: Cell, x2: Cell|
        s.contains(x1) && s.contains(x2) && #[trigger] packed_key_fn()(x1)
            == #[trigger] packed_key_fn()(x2) implies x1 == x2 by {
        lemma_packed_key_range(x1);
        lemma_packed_key_range(x2);
        lemma_packed_key_injective(x1, x2);
    }
}

fn pack(c: Cell) -> (k: i128)
    ensures
        k == packed_key(c),
{
    proof {
        lemma_packed_key_range(c);
    }
    let a = c.0 as i128;
    let r = c.1 as i128 - i64::MIN as i128;
    assert(a * 0x1_0000_0000_0000_0000i128 + r == packed_key(c));
    a * 0x1_0000_0000_0000_0000i128 + r
}

/// Number of distinct cells in `cells`.
pub fn count_distinct(cells: &Vec<Cell>) -> (n: usize)
    ensures
        n == distinct_count(cells@),
        n == cells@.to_set().len(),
        n <= cells.len(),
        n == 0 <==> cells.len() == 0,
{
    broadcast use group_hash_axioms;
    broadcast use vstd::seq_lib::group_seq_properties;

    let mut seen: HashSet<i128> = HashSet::new();
    let ghost f = packed_key_fn();
    let mut i: usize = 0;
    while i < cells.len()
        invariant
            i <= cells.len(),
            f == packed_key_fn(),
            seen@ == cells@.take(i as int).to_set().map(f),
        decreases cells.len() - i,
    {
        let k = pack(cells[i]);
        proof {
            lemma_packed_key_range(cells@[i as int]);
            assert(cells@.take(i + 1) == cells@.take(i as int).push(cells@[i as int]));
            let prefix = cells@.take(i as int);
            let c = cells@[i as int];
            prefix.lemma_push_to_set_commute(c);
            let s0 = prefix.to_set();
            assert forall|y: i128| s0.insert(c).map(f).contains(y) implies s0.map(f).insert(
                f(c),
            ).contains(y) by {
                let x = choose|x: Cell| s0.insert(c).contains(x) && f(x) == y;
                if x != c {
                    assert(s0.contains(x));
                }
            }
            assert forall|y: i128| s0.map(f).insert(f(c)).contains(y) implies s0.insert(c).map(
                f,
            ).contains(y) by {
                if y == f(c) {
                    assert(s0.insert(c).contains(c));
                } else {
                    let x = choose|x: Cell| s0.contains(x) && f(x) == y;
                    assert(s0.insert(c).contains(x));
                }
            }
            assert(s0.insert(c).map(f) =~= s0.map(f).insert(f(c)));
            assert(cells@.take(i + 1).to_set().map(f) == seen@.insert(k));
        }
        seen.insert(k);
        i = i + 1;
    }
    proof {
        assert(cells@.take(cells@.len() as int) == cells@);
        lemma_packed_key_fn_injective(cells@.to_set());
        vstd::set_lib::lemma_map_size(cells@.to_set(), seen@, f);
        lemma_distinct_count_bounds(cells@);
    }
    seen.len()
}

/// A section never occupies more cells than it has points, and occupies
/// none exactly when it has no points.
pub proof fn lemma_distinct_count_bounds(cells: Seq<Cell>)
    ensures
        distinct_count(cells) <= cells.len(),
        distinct_count(cells) == 0 <==> cells.len() == 0,
{
    cells.lemma_cardinality_of_set();
    cells.lemma_cardinality_of_empty_set_is_0();
}

/// A point that falls into a cell already seen does not change the count;
/// a point in a new cell raises it by one.
pub proof fn lemma_distinct_count_push(cells: Seq<Cell>, c: Cell)
    ensures
        cells.contains(c) ==> distinct_count(cells.push(c)) == distinct_count(cells),
        !cells.contains(c) ==> distinct_count(cells.push(c)) == distinct_count(cells) + 1,
{
    broadcast use vstd::seq_lib::group_seq_properties;
    broadcast use vstd::set::group_set_axioms;

    cells.lemma_push_to_set_commute(c);
    if cells.contains(c) {
        assert(cells.to_set().insert(c) =~= cells.to_set());
    }
}

/// The count depends only on which points the section holds, not on the
/// order in which they were collected.
pub proof fn lemma_distinct_count_order_free(cells: Seq<Cell>, other: Seq<Cell>)
    requires
        cells.to_multiset() == other.to_multiset(),
    ensures
        distinct_count(cells) == distinct_count(other),
{
    cells.to_multiset_ensures();
    other.to_multiset_ensures();
    assert forall|c: Cell| cells.to_set().contains(c) <==> other.to_set().contains(c) by {
        assert(cells.contains(c) <==> cells.to_multiset().count(c) > 0);
        assert(other.contains(c) <==> other.to_multiset().count(c) > 0);
    }
    assert(cells.to_set() =~= other.to_set());
}

} // verus!
