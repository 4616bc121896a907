//! The frequency counter: one full traversal of the gram sequence, counting
//! how often each distinct gram occurs. The resulting table holds one entry
//! per distinct gram, with a positive count, and the counts sum to the length
//! of the gram sequence.

use vstd::prelude::*;

verus! {

/// How many times `x` occurs in `s`.
pub open spec fn occurrences(s: Seq<Seq<char>>, x: Seq<char>) -> int
    decreases s.len(),
{
    if s.len() == 0 {
        0
    } else {
        occurrences(s.drop_last(), x) + if s.last() == x {
            1int
        } else {
            0int
        }
    }
}

/// The sum of all counts in the table.
pub open spec fn total_count(table: Seq<(Seq<char>, usize)>) -> int
    decreases table.len(),
{
    if table.len() == 0 {
        0
    } else {
        total_count(table.drop_last()) + table.last().1
    }
}

/// The table is a frequency table of `grams`: its keys are distinct, every
/// entry counts exactly the occurrences of its key in `grams` (and so is
/// positive), and every gram has an entry.
pub open spec fn counts_grams(table: Seq<(Seq<char>, usize)>, grams: Seq<Seq<char>>) -> bool {
    &&& forall|i: int, j: int| 0 <= i < j < table.len() ==> table[i].0 != table[j].0
    &&& forall|i: int|
        0 <= i < table.len() ==> (#[trigger] table[i]).1 == occurrences(grams, table[i].0)
    &&& forall|i: int| 0 <= i < table.len() ==> (#[trigger] table[i]).1 >= 1
    &&& forall|g: Seq<char>|
        grams.contains(g) ==> exists|i: int| 0 <= i < table.len() && (#[trigger] table[i]).0 == g
}

/// A sequence that does not contain `x` holds no occurrence of it.
proof fn lemma_occurrences_absent(s: Seq<Seq<char>>, x: Seq<char>)
    requires
        !s.contains(x),
    ensures
        occurrences(s, x) == 0,
    decreases s.len(),
{
    if s.len() > 0 {
        assert(s.last() != x);
        assert(forall|i: int| 0 <= i < s.len() - 1 ==> s.drop_last()[i] == s[i]);
        lemma_occurrences_absent(s.drop_last(), x);
    }
}

/// Raising one entry's count raises the total by the same amount.
proof fn lemma_total_count_update(t: Seq<(Seq<char>, usize)>, i: int, e: (Seq<char>, usize))
    requires
        0 <= i < t.len(),
    ensures
        total_count(t.update(i, e)) == total_count(t) - t[i].1 + e.1,
    decreases t.len(),
{
    if i == t.len() - 1 {
        assert(t.update(i, e).drop_last() =~= t.drop_last());
        assert(t.update(i, e).last() == e);
    } else {
        assert(t.update(i, e).drop_last() =~= t.drop_last().update(i, e));
        assert(t.update(i, e).last() == t.last());
        lemma_total_count_update(t.drop_last(), i, e);
    }
}

/// Membership in a sequence extended by one element.
proof fn lemma_take_succ_contains(s: Seq<Seq<char>>, k: int)
    requires
        0 <= k < s.len(),
    ensures
        forall|x: Seq<char>|
            #[trigger] s.take(k + 1).contains(x) <==> (s.take(k).contains(x) || s[k] == x),
{
    assert forall|x: Seq<char>| #[trigger]
        s.take(k + 1).contains(x) implies (s.take(k).contains(x) || s[k] == x) by {
        let i = choose|i: int| 0 <= i < s.take(k + 1).len() && #[trigger] s.take(k + 1)[i] == x;
        if i < k {
            assert(s.take(k)[i] == x);
        }
    }
    assert forall|x: Seq<char>| (s.take(k).contains(x) || s[k] == x) implies #[trigger] s.take(
        k + 1,
    ).contains(x) by {
        if s.take(k).contains(x) {
            let i = choose|i: int| 0 <= i < s.take(k).len() && #[trigger] s.take(k)[i] == x;
            assert(s.take(k + 1)[i] == x);
        } else {
            assert(s.take(k + 1)[k] == x);
        }
    }
}

/// The index of the entry for `key`, if the table has one.
fn find_key(table: &Vec<(String, usize)>, key: &String) -> (r: Option<usize>)
    ensures
        r matches Some(i) ==> i < table.len() && table.deep_view()[i as int].0 == key@,
        r is None ==> forall|i: int| 0 <= i < table@.len() ==> table.deep_view()[i].0 != key@,
{
    let mut k: usize = 0;
    while k < table.len()
        invariant
            k <= table.len(),
            forall|j: int| 0 <= j < k ==> table.deep_view()[j].0 != key@,
        decreases table.len() - k,
    {
        if (&table[k].0).eq(key) {
            proof {
                assert(table.deep_view()[k as int].0 == key@);
            }
            return Some(k);
        }
        k = k + 1;
    }
    None
}

/// Count how often each distinct gram occurs in `grams`: one entry per
/// distinct gram, its count exactly the number of occurrences, first
/// occurrences first; the counts sum to the number of grams.
pub fn count_frequencies(grams: &Vec<String>) -> (table: Vec<(String, usize)>)
    ensures
        counts_grams(table.deep_view(), grams.deep_view()),
        total_count(table.deep_view()) == grams.len(),
{
    let ghost gv = grams.deep_view();
    let mut table: Vec<(String, usize)> = Vec::new();
    proof {
        assert(table.deep_view() =~= Seq::<(Seq<char>, usize)>::empty());
        assert(gv.take(0) =~= Seq::<Seq<char>>::empty());
    }
    let mut k: usize = 0;
    while k < grams.len()
        invariant
            k <= grams.len(),
            gv == grams.deep_view(),
            counts_grams(table.deep_view(), gv.take(k as int)),
            total_count(table.deep_view()) == k,
        decreases grams.len() - k,
    {
        let ghost prefix = gv.take(k as int);
        let ghost next = gv.take(k as int + 1);
        let ghost old_table = table.deep_view();
        proof {
            assert(next.drop_last() =~= prefix);
            assert(next.last() == gv[k as int]);
            lemma_take_succ_contains(gv, k as int);
            assert(forall|x: Seq<char>|
                occurrences(next, x) == occurrences(prefix, x) + if gv[k as int] == x {
                    1int
                } else {
                    0int
                });
        }
        let g = &grams[k];
        match find_key(&table, g) {
            Some(i) => {
                let c = table[i].1;
                proof {
                    assert(old_table[i as int].1 == occurrences(prefix, old_table[i as int].0));
                    assert(occurrences(prefix, g@) <= prefix.len()) by {
                        lemma_occurrences_bound(prefix, g@);
                    }
                }
                table[i].1 = c + 1;
                proof {
                    let nt = table.deep_view();
                    assert(nt =~= old_table.update(i as int, (g@, (c + 1) as usize)));
                    lemma_total_count_update(old_table, i as int, (g@, (c + 1) as usize));
                    assert(forall|j: int|
                        0 <= j < nt.len() ==> (#[trigger] nt[j]).0 == old_table[j].0);
                    assert forall|j: int| 0 <= j < nt.len() implies (#[trigger] nt[j]).1
                        == occurrences(next, nt[j].0) && nt[j].1 >= 1 by {
                        if j == i {
                            assert(occurrences(next, g@) == occurrences(prefix, g@) + 1);
                        } else {
                            assert(nt[j] == old_table[j]);
                            assert(old_table[j].0 != g@);
                            assert(occurrences(next, nt[j].0) == occurrences(prefix, nt[j].0));
                        }
                    }
                    assert forall|x: Seq<char>| next.contains(x) implies exists|j: int|
                        0 <= j < nt.len() && (#[trigger] nt[j]).0 == x by {
                        if prefix.contains(x) {
                            let j = choose|j: int|
                                0 <= j < old_table.len() && (#[trigger] old_table[j]).0 == x;
                            assert(nt[j].0 == x);
                        } else {
                            assert(x == gv[k as int]);
                            assert(nt[i as int].0 == x);
                        }
                    }
                    assert(counts_grams(nt, next));
                }
            },
            None => {
                table.push((g.clone(), 1));
                proof {
                    let nt = table.deep_view();
                    assert(nt =~= old_table.push((g@, 1usize)));
                    assert(!prefix.contains(g@)) by {
                        if prefix.contains(g@) {
                            let w = choose|w: int|
                                0 <= w < old_table.len() && (#[trigger] old_table[w]).0 == g@;
                        }
                    }
                    lemma_occurrences_absent(prefix, g@);
                    assert(nt.drop_last() =~= old_table);
                    assert(forall|j: int| 0 <= j < old_table.len() ==> #[trigger] nt[j]
                        == old_table[j]);
                    assert forall|j: int| 0 <= j < nt.len() implies (#[trigger] nt[j]).1
                        == occurrences(next, nt[j].0) && nt[j].1 >= 1 by {
                        if j == nt.len() - 1 {
                            assert(nt[j] == (g@, 1usize));
                            assert(occurrences(next, g@) == occurrences(prefix, g@) + 1);
                        } else {
                            assert(nt[j] == old_table[j]);
                            assert(old_table[j].0 != g@);
                            assert(occurrences(next, nt[j].0) == occurrences(prefix, nt[j].0));
                        }
                    }
                    assert forall|x: Seq<char>| next.contains(x) implies exists|j: int|
                        0 <= j < nt.len() && (#[trigger] nt[j]).0 == x by {
                        if prefix.contains(x) {
                            let j = choose|j: int|
                                0 <= j < old_table.len() && (#[trigger] old_table[j]).0 == x;
                            assert(nt[j].0 == x);
                        } else {
                            assert(x == gv[k as int]);
                            assert(nt[nt.len() - 1].0 == x);
                        }
                    }
                    assert(counts_grams(nt, next));
                }
            },
        }
        k = k + 1;
    }
    proof {
        assert(gv.take(grams@.len() as int) =~= gv);
    }
    table
}

/// No value occurs more often than the sequence is long.
proof fn lemma_occurrences_bound(s: Seq<Seq<char>>, x: Seq<char>)
    ensures
        0 <= occurrences(s, x) <= s.len(),
    decreases s.len(),
{
    if s.len() > 0 {
        lemma_occurrences_bound(s.drop_last(), x);
    }
}

} // verus!
