//! Deterministic ordering of candidate paths: an insertion sort over the
//! collected path strings, pinned to the (unique) lexicographically sorted
//! arrangement of the input.

use vstd::prelude::*;
use vstd::multiset::Multiset;
use vstd::relations::sorted_by;
use vstd::seq_lib::group_to_multiset_ensures;
use vstd::seq_lib::lemma_multiset_commutative;
use vstd::seq_lib::lemma_sorted_unique;

use crate::text::{lex_le, lex_le_fn, lemma_lex_le_total, lemma_lex_le_total_ordering,
    lemma_lex_le_trans, str_le};

verus! {

/// The character sequences of a sequence of strings.
pub open spec fn path_views(s: Seq<String>) -> Seq<Seq<char>> {
    s.map_values(|p: String| p@)
}

proof fn lemma_views_remove(s: Seq<String>, i: int)
    requires
        0 <= i < s.len(),
    ensures
        path_views(s.remove(i)) =~= path_views(s).remove(i),
{
}

proof fn lemma_views_insert(s: Seq<String>, i: int, x: String)
    requires
        0 <= i <= s.len(),
    ensures
        path_views(s.insert(i, x)) =~= path_views(s).insert(i, x@),
{
}

proof fn lemma_to_multiset_remove(s: Seq<Seq<char>>, i: int)
    requires
        0 <= i < s.len(),
    ensures
        s.remove(i).to_multiset() =~= s.to_multiset().remove(s[i]),
        s.to_multiset().count(s[i]) >= 1,
{
    s.to_multiset_ensures();
    assert(s.contains(s[i]));
}

proof fn lemma_to_multiset_insert(s: Seq<Seq<char>>, j: int, x: Seq<char>)
    requires
        0 <= j <= s.len(),
    ensures
        s.insert(j, x).to_multiset() =~= s.to_multiset().insert(x),
{
    broadcast use group_to_multiset_ensures;
    broadcast use vstd::multiset::group_multiset_axioms;

    let pre = s.take(j);
    let post = s.skip(j);
    assert(s =~= pre + post);
    assert(s.insert(j, x) =~= pre + (seq![x] + post));
    lemma_multiset_commutative(pre, post);
    lemma_multiset_commutative(pre, seq![x] + post);
    lemma_multiset_commutative(seq![x], post);
    assert(seq![x] =~= Seq::<Seq<char>>::empty().push(x));
    assert(Seq::<Seq<char>>::empty().push(x).to_multiset() =~= Multiset::<Seq<
        char,
    >>::empty().insert(x));
    assert(s.insert(j, x).to_multiset() =~= s.to_multiset().insert(x));
}

/// Sorts the paths in place. The result is pinned exactly: it is the unique
/// lexicographically nondecreasing arrangement of the input, so two runs over
/// inputs holding the same paths end in identical vectors.
pub fn sort_paths(v: &mut Vec<String>)
    ensures
        path_views(final(v)@) == path_views(old(v)@).sort_by(lex_le_fn()),
        sorted_by(path_views(final(v)@), lex_le_fn()),
        path_views(final(v)@).to_multiset() == path_views(old(v)@).to_multiset(),
{
    broadcast use group_to_multiset_ensures;
    broadcast use vstd::multiset::group_multiset_axioms;

    let ghost lex = lex_le_fn();
    let mut i: usize = 0;
    while i < v.len()
        invariant
            i <= v@.len(),
            v@.len() == old(v)@.len(),
            sorted_by(path_views(v@).take(i as int), lex),
            path_views(v@).to_multiset() == path_views(old(v)@).to_multiset(),
            lex == lex_le_fn(),
        decreases v@.len() - i,
    {
        let ghost before = v@;
        let x = v.remove(i);
        proof {
            lemma_views_remove(before, i as int);
            lemma_to_multiset_remove(path_views(before), i as int);
        }
        let ghost t = path_views(v@);
        proof {
            assert(t.take(i as int) =~= path_views(before).take(i as int));
        }
        let mut j: usize = 0;
        while j < i && !str_le(x.as_str(), v[j].as_str())
            invariant
                j <= i,
                i < before.len(),
                v@.len() == before.len() - 1,
                t == path_views(v@),
                forall|k: int| 0 <= k < j ==> !lex_le(x@, t[k]),
            decreases i - j,
        {
            j += 1;
        }
        let ghost mid = v@;
        v.insert(j, x);
        proof {
            lemma_views_insert(mid, j as int, x);
            lemma_to_multiset_insert(t, j as int, x@);
            assert(path_views(before)[i as int] == x@);
            assert(path_views(v@).to_multiset() =~= path_views(before).to_multiset());
            let nv = path_views(v@);
            assert(nv =~= t.insert(j as int, x@));
            assert forall|p: int, q: int| 0 <= p < q < i + 1 implies lex(
                #[trigger] nv.take(i + 1)[p],
                #[trigger] nv.take(i + 1)[q],
            ) by {
                assert(nv.take(i + 1)[p] == nv[p]);
                assert(nv.take(i + 1)[q] == nv[q]);
                if q < j {
                    assert(lex(t[p], t[q]));
                } else if p < j && q == j {
                    lemma_lex_le_total(x@, t[p]);
                } else if p < j && q > j {
                    assert(lex(t[p], t[q - 1]));
                } else if p == j && q > j {
                    if j < i {
                        assert(lex_le(x@, t[j as int]));
                        if q - 1 > j {
                            assert(lex(t[j as int], t[q - 1]));
                            lemma_lex_le_trans(x@, t[j as int], t[q - 1]);
                        }
                    }
                } else {
                    assert(lex(t[p - 1], t[q - 1]));
                }
            }
            assert(sorted_by(path_views(v@).take(i + 1), lex));
        }
        i += 1;
    }
    proof {
        lemma_lex_le_total_ordering();
        assert(path_views(v@).take(v@.len() as int) =~= path_views(v@));
        path_views(old(v)@).lemma_sort_by_ensures(lex);
        lemma_sorted_unique(path_views(v@), path_views(old(v)@).sort_by(lex), lex);
        assert(path_views(v@) =~= path_views(old(v)@).sort_by(lex));
    }
}

} // verus!
