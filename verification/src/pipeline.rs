//! The whole pipeline run end to end: tokenize, filter, group into n-grams,
//! count, rank. The result carries what a reporter needs: the total number of
//! grams, and the ranked list (whose length is the number of distinct grams
//! and whose first entry, if any, is the most frequent one).

use vstd::prelude::*;
use crate::counts::count_frequencies;
use crate::counts::counts_grams;
use crate::counts::occurrences;
use crate::filters::FilterSpec;
use crate::filters::apply_filters;
use crate::filters::filter_tokens;
use crate::ngrams::generate_ngrams;
use crate::ngrams::ngrams_spec;
use crate::ranking::lemma_rank_preserves_table;
use crate::ranking::rank;
use crate::ranking::sorted_desc;
use crate::tokenizer::tokenize;
use crate::tokenizer::tokenize_spec;

verus! {

/// The gram sequence one run produces: the tokens of `text`, filtered by
/// `fs`, grouped into `n`-grams.
pub open spec fn grams_of(text: Seq<char>, fs: FilterSpec, n: int) -> Seq<Seq<char>> {
    ngrams_spec(filter_tokens(tokenize_spec(text), fs), n)
}

/// The terminal artifact of one run.
pub struct Analysis {
    /// The length of the gram sequence.
    pub total: usize,
    /// The (gram, count) pairs, sorted by count descending; its length is the
    /// number of distinct grams, and its first entry, if any, is the most
    /// frequent one.
    pub ranked: Vec<(String, usize)>,
}

/// Run the pipeline over `text` with the filters of `fs` and gram width `n`:
/// the ranked list holds one entry per distinct gram of the run, with exactly
/// its number of occurrences, counts never increasing along the list, and it
/// is empty exactly when no gram survives.
pub fn analyze(text: &str, fs: &FilterSpec, n: usize) -> (r: Analysis)
    requires
        n >= 1,
    ensures
        ({
            let grams = grams_of(text@, *fs, n as int);
            &&& r.total == grams.len()
            &&& counts_grams(r.ranked.deep_view(), grams)
            &&& sorted_desc(r.ranked.deep_view())
            &&& (r.ranked.len() == 0 <==> grams.len() == 0)
        }),
{
    let ghost grams_spec_seq = grams_of(text@, *fs, n as int);
    let tokens = tokenize(text);
    let kept = apply_filters(&tokens, fs);
    let grams = generate_ngrams(&kept, n);
    let table = count_frequencies(&grams);
    let ranked = rank(&table);
    proof {
        assert(grams.deep_view() == grams_spec_seq);
        lemma_rank_preserves_table(table.deep_view(), ranked.deep_view(), grams_spec_seq);
        if grams_spec_seq.len() == 0 {
            if ranked.deep_view().len() > 0 {
                assert(ranked.deep_view()[0].1 == occurrences(grams_spec_seq, ranked.deep_view()[0].0));
            }
        } else {
            assert(grams_spec_seq.contains(grams_spec_seq[0]));
            assert(ranked.deep_view().len() > 0);
        }
    }
    let total = grams.len();
    Analysis { total, ranked }
}

/// The first `n` entries of the ranked list (all of it when it is shorter).
pub fn top_slice(ranked: &Vec<(String, usize)>, n: usize) -> (out: Vec<(String, usize)>)
    ensures
        out.deep_view() == if n <= ranked.len() {
            ranked.deep_view().take(n as int)
        } else {
            ranked.deep_view()
        },
{
    let limit = if n <= ranked.len() {
        n
    } else {
        ranked.len()
    };
    let mut out: Vec<(String, usize)> = Vec::new();
    proof {
        assert(out.deep_view() =~= ranked.deep_view().take(0));
    }
    let mut k: usize = 0;
    while k < limit
        invariant
            k <= limit <= ranked.len(),
            out.deep_view() == ranked.deep_view().take(k as int),
        decreases limit - k,
    {
        let ghost old_out = out.deep_view();
        out.push((ranked[k].0.clone(), ranked[k].1));
        proof {
            assert(out.deep_view() =~= old_out.push(ranked.deep_view()[k as int]));
            assert(out.deep_view() =~= ranked.deep_view().take(k as int + 1));
        }
        k = k + 1;
    }
    proof {
        if n > ranked@.len() {
            assert(ranked.deep_view().take(ranked@.len() as int) =~= ranked.deep_view());
        }
    }
    out
}

} // verus!
