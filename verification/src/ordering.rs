//! The order in which the store lists rows: a lexicographic key of a rank,
//! a leading text, a number and two further texts.

use vstd::prelude::*;
use vstd::multiset::Multiset;
use crate::text::{lemma_text_order, text_less, text_lt};

verus! {

broadcast use vstd::seq_lib::group_to_multiset_ensures;

/// A sort key: rank, leading text, number, then two texts.
pub type SortKey = (int, Seq<char>, int, Seq<char>, Seq<char>);

/// Whether key `a` comes strictly before key `b`.
pub open spec fn key_lt(a: SortKey, b: SortKey) -> bool {
    if a.0 != b.0 {
        a.0 < b.0
    } else if a.1 != b.1 {
        text_lt(a.1, b.1)
    } else if a.2 != b.2 {
        a.2 < b.2
    } else if a.3 != b.3 {
        text_lt(a.3, b.3)
    } else {
        text_lt(a.4, b.4)
    }
}

/// The key order is a strict total order on keys.
pub proof fn lemma_key_order(a: SortKey, b: SortKey, c: SortKey)
    ensures
        !key_lt(a, a),
        key_lt(a, b) ==> !key_lt(b, a),
        a != b ==> key_lt(a, b) || key_lt(b, a),
        key_lt(a, b) && key_lt(b, c) ==> key_lt(a, c),
{
    lemma_text_order(a.1, b.1, c.1);
    lemma_text_order(a.3, b.3, c.3);
    lemma_text_order(a.4, b.4, c.4);
    lemma_text_order(a.1, a.1, a.1);
    lemma_text_order(a.3, a.3, a.3);
    lemma_text_order(a.4, a.4, a.4);
}

/// Whether the key made of the given parts comes strictly before the other.
pub fn key_before(
    rank_a: i64,
    lead_a: &str,
    num_a: i64,
    first_a: &str,
    second_a: &str,
    rank_b: i64,
    lead_b: &str,
    num_b: i64,
    first_b: &str,
    second_b: &str,
) -> (r: bool)
    ensures
        r == key_lt(
            (rank_a as int, lead_a@, num_a as int, first_a@, second_a@),
            (rank_b as int, lead_b@, num_b as int, first_b@, second_b@),
        ),
{
    proof {
        lemma_text_order(lead_a@, lead_b@, lead_b@);
        lemma_text_order(first_a@, first_b@, first_b@);
    }
    if rank_a != rank_b {
        rank_a < rank_b
    } else if text_less(lead_a, lead_b) {
        true
    } else if text_less(lead_b, lead_a) {
        false
    } else if num_a != num_b {
        num_a < num_b
    } else if text_less(first_a, first_b) {
        true
    } else if text_less(first_b, first_a) {
        false
    } else {
        text_less(second_a, second_b)
    }
}

/// Rows that the store lists in key order.
pub trait Keyed: Sized {
    spec fn key(&self) -> SortKey;

    fn before(&self, other: &Self) -> (r: bool)
        ensures
            r == key_lt(self.key(), other.key()),
    ;
}

/// Rows in non-decreasing key order.
pub open spec fn sorted_by_key<T: Keyed>(rows: Seq<T>) -> bool {
    forall|i: int, j: int| 0 <= i < j < rows.len() ==> !key_lt(rows[j].key(), rows[i].key())
}

/// The rows rearranged into key order.
pub fn sort_rows<T: Keyed>(rows: Vec<T>) -> (out: Vec<T>)
    ensures
        out@.to_multiset() == rows@.to_multiset(),
        sorted_by_key(out@),
{
    let ghost given = rows@;
    let mut rest = rows;
    let mut out: Vec<T> = Vec::new();
    proof {
        assert(out@.to_multiset() =~= Multiset::empty());
        assert(out@.to_multiset().add(rest@.to_multiset()) =~= given.to_multiset());
    }
    while rest.len() > 0
        invariant
            out@.to_multiset().add(rest@.to_multiset()) == given.to_multiset(),
            sorted_by_key(out@),
        decreases rest@.len(),
    {
        let ghost before_pop = rest@;
        let item = rest.pop().unwrap();
        proof {
            assert(before_pop =~= rest@.push(item));
        }
        let mut pos: usize = out.len();
        while pos > 0 && item.before(&out[pos - 1])
            invariant
                pos <= out@.len(),
                sorted_by_key(out@),
                forall|j: int| pos <= j < out@.len() ==> key_lt(item.key(), #[trigger] out@[j].key()),
            decreases pos,
        {
            pos = pos - 1;
        }
        let ghost prev = out@;
        out.insert(pos, item);
        proof {
            assert(out@ == prev.insert(pos as int, item));
            assert forall|i: int, j: int| 0 <= i < j < out@.len() implies !key_lt(
                out@[j].key(),
                out@[i].key(),
            ) by {
                if j < pos {
                    assert(out@[i] == prev[i] && out@[j] == prev[j]);
                } else if j == pos {
                    assert(out@[i] == prev[i]);
                    assert(!key_lt(item.key(), prev[pos - 1].key()));
                    lemma_key_order(prev[i].key(), prev[pos - 1].key(), item.key());
                    lemma_key_order(item.key(), prev[pos - 1].key(), prev[i].key());
                    if i < pos - 1 {
                        assert(!key_lt(prev[pos - 1].key(), prev[i].key()));
                    }
                    lemma_key_order(prev[i].key(), item.key(), prev[pos - 1].key());
                } else if i < pos {
                    assert(out@[i] == prev[i] && out@[j] == prev[j - 1]);
                } else if i == pos {
                    assert(out@[j] == prev[j - 1]);
                    assert(key_lt(item.key(), prev[j - 1].key()));
                    lemma_key_order(item.key(), prev[j - 1].key(), item.key());
                } else {
                    assert(out@[i] == prev[i - 1] && out@[j] == prev[j - 1]);
                }
            }
            assert(out@.to_multiset() == prev.to_multiset().insert(item));
            assert(before_pop.to_multiset() == rest@.to_multiset().insert(item));
            assert(out@.to_multiset().add(rest@.to_multiset()) =~= given.to_multiset());
        }
    }
    proof {
        assert(rest@ =~= Seq::<T>::empty());
        assert(rest@.to_multiset() =~= Multiset::empty());
        assert(out@.to_multiset().add(rest@.to_multiset()) =~= out@.to_multiset());
    }
    out
}

} // verus!
