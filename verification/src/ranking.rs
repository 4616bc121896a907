//! The ranker: orders the frequency table's entries by count, descending.
//! Entries with equal counts keep their order in the table, which is the
//! order of their keys' first occurrence in the gram sequence; this is the
//! deterministic tie-break this crate commits to.

use vstd::prelude::*;
use vstd::seq_lib::lemma_multiset_commutative;

verus! {

broadcast use vstd::seq_lib::group_to_multiset_ensures;

/// The counts never increase along the list.
pub open spec fn sorted_desc(t: Seq<(Seq<char>, usize)>) -> bool {
    forall|i: int, j: int| 0 <= i <= j < t.len() ==> (#[trigger] t[i]).1 >= (#[trigger] t[j]).1
}

/// Sort the table's entries by count, descending: the result holds exactly
/// the table's entries, every one of them, with equal counts kept in table
/// order.
pub fn rank(table: &Vec<(String, usize)>) -> (ranked: Vec<(String, usize)>)
    ensures
        ranked.deep_view().to_multiset() == table.deep_view().to_multiset(),
        ranked.len() == table.len(),
        sorted_desc(ranked.deep_view()),
        forall|i: int|
            0 <= i < ranked.deep_view().len() ==> table.deep_view().contains(
                #[trigger] ranked.deep_view()[i],
            ),
{
    let ghost tv = table.deep_view();
    let mut rem: Vec<(String, usize)> = Vec::new();
    let mut k: usize = 0;
    proof {
        assert(rem.deep_view() =~= Seq::<(Seq<char>, usize)>::empty());
        assert(tv.take(0) =~= Seq::<(Seq<char>, usize)>::empty());
    }
    while k < table.len()
        invariant
            k <= table.len(),
            tv == table.deep_view(),
            rem.deep_view() == tv.take(k as int),
        decreases table.len() - k,
    {
        let ghost old_rem = rem.deep_view();
        rem.push((table[k].0.clone(), table[k].1));
        proof {
            assert(rem.deep_view() =~= old_rem.push(tv[k as int]));
            assert(rem.deep_view() =~= tv.take(k as int + 1));
        }
        k = k + 1;
    }
    proof {
        assert(tv.take(table@.len() as int) =~= tv);
    }
    let mut ranked: Vec<(String, usize)> = Vec::new();
    proof {
        assert(ranked.deep_view() =~= Seq::<(Seq<char>, usize)>::empty());
        assert(ranked.deep_view().to_multiset().add(rem.deep_view().to_multiset())
            =~= rem.deep_view().to_multiset());
    }
    while rem.len() > 0
        invariant
            tv == table.deep_view(),
            ranked.deep_view().to_multiset().add(rem.deep_view().to_multiset())
                == tv.to_multiset(),
            ranked.len() + rem.len() == table.len(),
            sorted_desc(ranked.deep_view()),
            forall|a: int, b: int|
                0 <= a < ranked.deep_view().len() && 0 <= b < rem.deep_view().len() ==> (
                #[trigger] ranked.deep_view()[a]).1 >= (#[trigger] rem.deep_view()[b]).1,
        decreases rem.len(),
    {
        let mut best: usize = 0;
        let mut j: usize = 1;
        while j < rem.len()
            invariant
                best < j <= rem.len() || (best == 0 && j <= rem.len()),
                best < rem.len(),
                rem.len() > 0,
                forall|t: int|
                    0 <= t < j ==> (#[trigger] rem.deep_view()[t]).1 <= rem.deep_view()[
                        best as int].1,
            decreases rem.len() - j,
        {
            if rem[j].1 > rem[best].1 {
                best = j;
            }
            j = j + 1;
        }
        let ghost old_rem = rem.deep_view();
        let ghost old_ranked = ranked.deep_view();
        let e = rem.remove(best);
        ranked.push(e);
        proof {
            let ed = (e.0@, e.1);
            assert(old_rem[best as int] == ed);
            assert(rem.deep_view() =~= old_rem.remove(best as int));
            assert(ranked.deep_view() =~= old_ranked.push(ed));
            assert(rem.deep_view().to_multiset() =~= old_rem.to_multiset().remove(ed));
            assert(ranked.deep_view().to_multiset() =~= old_ranked.to_multiset().insert(ed));
            assert(ranked.deep_view().to_multiset().add(rem.deep_view().to_multiset())
                =~= old_ranked.to_multiset().add(old_rem.to_multiset()));
            assert forall|b: int| 0 <= b < rem.deep_view().len() implies (
            #[trigger] rem.deep_view()[b]).1 <= ed.1 by {
                if b < best {
                    assert(rem.deep_view()[b] == old_rem[b]);
                } else {
                    assert(rem.deep_view()[b] == old_rem[b + 1]);
                }
            }
        }
    }
    proof {
        assert(rem.deep_view() =~= Seq::<(Seq<char>, usize)>::empty());
        assert(rem.deep_view().to_multiset().len() == 0);
        assert(ranked.deep_view().to_multiset() =~= ranked.deep_view().to_multiset().add(
            rem.deep_view().to_multiset(),
        ));
        assert forall|i: int| 0 <= i < ranked.deep_view().len() implies tv.contains(
            #[trigger] ranked.deep_view()[i],
        ) by {
            assert(ranked.deep_view().to_multiset().count(ranked.deep_view()[i]) > 0);
            assert(tv.to_multiset().count(ranked.deep_view()[i]) > 0);
        }
    }
    ranked
}

/// Distinct keys in the table remain distinct in any reordering that keeps
/// exactly the same entries; counts bound to a key never change.
pub proof fn lemma_rank_preserves_table(
    table: Seq<(Seq<char>, usize)>,
    ranked: Seq<(Seq<char>, usize)>,
    grams: Seq<Seq<char>>,
)
    requires
        ranked.to_multiset() == table.to_multiset(),
        forall|i: int| 0 <= i < ranked.len() ==> table.contains(#[trigger] ranked[i]),
        ranked.len() == table.len(),
        crate::counts::counts_grams(table, grams),
    ensures
        crate::counts::counts_grams(ranked, grams),
{
    assert forall|i: int| 0 <= i < ranked.len() implies (#[trigger] ranked[i]).1 == crate::counts::occurrences(
        grams,
        ranked[i].0,
    ) && ranked[i].1 >= 1 by {
        let w = choose|w: int| 0 <= w < table.len() && #[trigger] table[w] == ranked[i];
    }
    assert forall|g: Seq<char>| grams.contains(g) implies exists|i: int|
        0 <= i < ranked.len() && (#[trigger] ranked[i]).0 == g by {
        let w = choose|w: int| 0 <= w < table.len() && (#[trigger] table[w]).0 == g;
        assert(table.to_multiset().count(table[w]) > 0);
        assert(ranked.to_multiset().count(table[w]) > 0);
        assert(ranked.contains(table[w]));
        let i = choose|i: int| 0 <= i < ranked.len() && #[trigger] ranked[i] == table[w];
        assert(ranked[i].0 == g);
    }
    assert forall|i: int, j: int| 0 <= i < j < ranked.len() implies ranked[i].0 != ranked[j].0 by {
        if ranked[i].0 == ranked[j].0 {
            assert(ranked[i].1 == crate::counts::occurrences(grams, ranked[i].0));
            assert(ranked[j].1 == crate::counts::occurrences(grams, ranked[j].0));
            assert(ranked[i] == ranked[j]);
            let s0 = ranked.subrange(0, j);
            let s1 = ranked.subrange(j, ranked.len() as int);
            assert(ranked =~= s0 + s1);
            lemma_multiset_commutative(s0, s1);
            assert(s0.to_multiset().count(ranked[i]) > 0) by {
                assert(s0[i] == ranked[i]);
                assert(s0.contains(ranked[i]));
            }
            assert(s1.to_multiset().count(ranked[j]) > 0) by {
                assert(s1[0] == ranked[j]);
                assert(s1.contains(ranked[j]));
            }
            assert(ranked.to_multiset().count(ranked[i]) >= 2);
            assert(table.no_duplicates()) by {
                assert forall|a: int, b: int|
                    0 <= a < table.len() && 0 <= b < table.len() && a != b implies table[a]
                    != table[b] by {
                    if table[a] == table[b] {
                        if a < b {
                            assert(table[a].0 == table[b].0);
                        } else {
                            assert(table[b].0 == table[a].0);
                        }
                    }
                }
            }
            table.lemma_multiset_has_no_duplicates();
            assert(table.to_multiset().contains(ranked[i]));
            assert(table.to_multiset().count(ranked[i]) <= 1);
        }
    }
}

} // verus!
