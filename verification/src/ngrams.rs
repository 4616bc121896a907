//! The n-gram generator: every window of `n` consecutive tokens, joined with
//! a single space, in left-to-right order. With `n = 1` the token sequence
//! passes through unchanged; with fewer than `n` tokens the output is empty.

use vstd::prelude::*;

verus! {

/// The tokens of `ts` joined with a single space between consecutive tokens.
pub open spec fn join_tokens(ts: Seq<Seq<char>>) -> Seq<char>
    decreases ts.len(),
{
    if ts.len() == 0 {
        Seq::empty()
    } else if ts.len() == 1 {
        ts[0]
    } else {
        join_tokens(ts.drop_last()) + seq![' '] + ts.last()
    }
}

/// The grams a window of width `n` yields over `toks`: the input itself when
/// `n` is one; otherwise each run of `n` consecutive tokens joined with a
/// space, in left-to-right order, and nothing when fewer than `n` tokens
/// exist.
pub open spec fn ngrams_spec(toks: Seq<Seq<char>>, n: int) -> Seq<Seq<char>>
    recommends
        n >= 1,
{
    if n == 1 {
        toks
    } else if toks.len() < n {
        Seq::empty()
    } else {
        Seq::new((toks.len() - n + 1) as nat, |i: int| join_tokens(toks.subrange(i, i + n)))
    }
}

/// Generate the n-grams of `tokens`: with `n = 1` the tokens themselves;
/// otherwise exactly `len - n + 1` grams when `n` tokens or more exist (each
/// the space-joined window starting at its index) and none otherwise.
pub fn generate_ngrams(tokens: &Vec<String>, n: usize) -> (grams: Vec<String>)
    requires
        n >= 1,
    ensures
        grams.deep_view() == ngrams_spec(tokens.deep_view(), n as int),
        n == 1 ==> grams.deep_view() == tokens.deep_view(),
        n > 1 && tokens.len() >= n ==> grams.deep_view().len() == tokens.len() - n + 1,
        n > 1 && tokens.len() < n ==> grams.deep_view().len() == 0,
        forall|i: int|
            0 <= i < grams.deep_view().len() && n > 1 ==> grams.deep_view()[i] == join_tokens(
                tokens.deep_view().subrange(i, i + n as int),
            ),
{
    let ghost dv = tokens.deep_view();
    if n == 1 {
        let mut out: Vec<String> = Vec::new();
        let mut k: usize = 0;
        while k < tokens.len()
            invariant
                k <= tokens.len(),
                out.deep_view() =~= dv.take(k as int),
                dv == tokens.deep_view(),
            decreases tokens.len() - k,
        {
            let ghost old_out = out.deep_view();
            out.push(tokens[k].clone());
            proof {
                assert(out.deep_view() =~= old_out.push(dv[k as int]));
                assert(out.deep_view() =~= dv.take(k as int + 1));
            }
            k = k + 1;
        }
        proof {
            assert(dv.take(tokens@.len() as int) =~= dv);
        }
        return out;
    }
    if tokens.len() < n {
        let out: Vec<String> = Vec::new();
        proof {
            assert(out.deep_view() =~= Seq::<Seq<char>>::empty());
        }
        return out;
    }
    let count = tokens.len() - n + 1;
    let mut out: Vec<String> = Vec::new();
    let mut i: usize = 0;
    while i < count
        invariant
            i <= count,
            count == tokens.len() - n + 1,
            n >= 2,
            n <= tokens.len(),
            dv == tokens.deep_view(),
            out.deep_view().len() == i,
            forall|t: int|
                0 <= t < i ==> out.deep_view()[t] == join_tokens(dv.subrange(t, t + n as int)),
        decreases count - i,
    {
        let ghost old_out = out.deep_view();
        let mut g = tokens[i].clone();
        proof {
            assert(dv.subrange(i as int, i as int + 1) =~= seq![dv[i as int]]);
            assert(join_tokens(dv.subrange(i as int, i as int + 1)) == dv[i as int]);
        }
        let mut j: usize = 1;
        while j < n
            invariant
                1 <= j <= n,
                i + n <= tokens.len(),
                dv == tokens.deep_view(),
                g@ == join_tokens(dv.subrange(i as int, i as int + j as int)),
            decreases n - j,
        {
            let ghost before = dv.subrange(i as int, i as int + j as int);
            let ghost after = dv.subrange(i as int, i as int + j as int + 1);
            g.append(" ");
            g.append(tokens[i + j].as_str());
            proof {
                reveal_strlit(" ");
                assert(" "@ =~= seq![' ']);
                assert(after.drop_last() =~= before);
                assert(after.last() == dv[i as int + j as int]);
                assert(after.len() >= 2);
                assert(g@ == join_tokens(after));
            }
            j = j + 1;
        }
        out.push(g);
        proof {
            assert(out.deep_view() =~= old_out.push(g@));
        }
        i = i + 1;
    }
    proof {
        assert(out.deep_view() =~= ngrams_spec(dv, n as int));
    }
    out
}

} // verus!
