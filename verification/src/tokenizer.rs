//! Splitting raw text into normalized word tokens.
//!
//! A token is a maximal whitespace-free run of the input, stripped of leading
//! and trailing non-alphanumeric characters and lowercased. Runs that become
//! empty after stripping are discarded; the surviving tokens keep their order.

use vstd::prelude::*;
use vstd::std_specs::iter::IteratorSpec;

verus! {

/// Whether `char::is_whitespace` holds of `c`; the Unicode table behind it is
/// not restated here.
pub uninterp spec fn whitespace_char(c: char) -> bool;

/// Whether `char::is_alphanumeric` holds of `c`; the Unicode table behind it
/// is not restated here.
pub uninterp spec fn alphanumeric_char(c: char) -> bool;

/// Relies on char::is_whitespace: whether `c` has the Unicode `White_Space`
/// property, a function of `c` alone.
pub assume_specification[ char::is_whitespace ](c: char) -> (r: bool)
    ensures
        r == whitespace_char(c),
;

/// Relies on char::is_alphanumeric: whether `c` is a Unicode letter or digit,
/// a function of `c` alone.
pub assume_specification[ char::is_alphanumeric ](c: char) -> (r: bool)
    ensures
        r == alphanumeric_char(c),
;

/// Relies on String::push: appends one character at the end of the string.
pub assume_specification[ String::push ](s: &mut String, c: char)
    ensures
        final(s)@ == old(s)@.push(c),
;

/// The character sequence that `str::to_lowercase` produces for `s`; the
/// Unicode case-mapping tables behind it are not restated here.
pub uninterp spec fn lowercase_of(s: Seq<char>) -> Seq<char>;

/// Relies on str::to_lowercase: the result is determined by the input
/// characters alone, each character mapping to at least one lowercase
/// character, so the result is empty exactly when the input is.
#[verifier::external_body]
fn to_lowercase(s: &str) -> (r: String)
    ensures
        r@ == lowercase_of(s@),
        (r@.len() == 0) <==> (s@.len() == 0),
{
    s.to_lowercase()
}

/// `w` with its leading non-alphanumeric characters removed.
pub open spec fn trim_start_spec(w: Seq<char>) -> Seq<char>
    decreases w.len(),
{
    if w.len() == 0 {
        w
    } else if alphanumeric_char(w[0]) {
        w
    } else {
        trim_start_spec(w.drop_first())
    }
}

/// `w` with its trailing non-alphanumeric characters removed.
pub open spec fn trim_end_spec(w: Seq<char>) -> Seq<char>
    decreases w.len(),
{
    if w.len() == 0 {
        w
    } else if alphanumeric_char(w.last()) {
        w
    } else {
        trim_end_spec(w.drop_last())
    }
}

/// `w` with non-alphanumeric characters removed from both ends; interior
/// characters are kept as they are.
pub open spec fn trim_spec(w: Seq<char>) -> Seq<char> {
    trim_end_spec(trim_start_spec(w))
}

/// The maximal whitespace-free runs of `text`, given the run `cur` already
/// read. `split_words(text, Seq::empty())` is the word split of `text`.
pub open spec fn split_words(text: Seq<char>, cur: Seq<char>) -> Seq<Seq<char>>
    decreases text.len(),
{
    if text.len() == 0 {
        if cur.len() > 0 {
            seq![cur]
        } else {
            Seq::empty()
        }
    } else if whitespace_char(text[0]) {
        if cur.len() > 0 {
            seq![cur] + split_words(text.drop_first(), Seq::empty())
        } else {
            split_words(text.drop_first(), Seq::empty())
        }
    } else {
        split_words(text.drop_first(), cur.push(text[0]))
    }
}

/// Each word trimmed and lowercased, words that trim to nothing dropped.
pub open spec fn tokens_of_words(ws: Seq<Seq<char>>) -> Seq<Seq<char>>
    decreases ws.len(),
{
    if ws.len() == 0 {
        Seq::empty()
    } else {
        let t = trim_spec(ws[0]);
        let rest = tokens_of_words(ws.drop_first());
        if t.len() > 0 {
            seq![lowercase_of(t)] + rest
        } else {
            rest
        }
    }
}

/// The token sequence of `text`: its whitespace-separated words, trimmed of
/// non-alphanumeric edges, lowercased, empty results dropped.
pub open spec fn tokenize_spec(text: Seq<char>) -> Seq<Seq<char>> {
    tokens_of_words(split_words(text, Seq::empty()))
}

proof fn lemma_tokens_of_words_cons(w: Seq<char>, ws: Seq<Seq<char>>)
    ensures
        tokens_of_words(seq![w] + ws) == if trim_spec(w).len() > 0 {
            seq![lowercase_of(trim_spec(w))] + tokens_of_words(ws)
        } else {
            tokens_of_words(ws)
        },
{
    assert((seq![w] + ws)[0] == w);
    assert((seq![w] + ws).drop_first() =~= ws);
}

/// The characters of `s`, in order.
pub fn chars_of(s: &str) -> (cs: Vec<char>)
    ensures
        cs@ == s@,
{
    let mut it = s.chars();
    let mut cs: Vec<char> = Vec::new();
    loop
        invariant
            cs@ + it.remaining() == s@,
        ensures
            cs@ == s@,
        decreases s@.len() - cs@.len(),
    {
        match it.next() {
            Some(c) => {
                cs.push(c);
                proof {
                    assert(cs@ + it.remaining() =~= s@);
                }
            },
            None => {
                proof {
                    assert(cs@ + it.remaining() =~= cs@);
                }
                break ;
            },
        }
    }
    cs
}

/// The normalized token of one word: trim both ends, lowercase, and report
/// `None` when nothing alphanumeric is left.
fn normalized_token(w: &Vec<char>) -> (r: Option<String>)
    ensures
        trim_spec(w@).len() > 0 ==> (r matches Some(t) && t@ == lowercase_of(trim_spec(w@))
            && t@.len() > 0),
        trim_spec(w@).len() == 0 ==> r is None,
{
    proof {
        assert(w@.skip(0) =~= w@);
    }
    let mut start: usize = 0;
    while start < w.len() && !w[start].is_alphanumeric()
        invariant
            start <= w.len(),
            trim_start_spec(w@) == trim_start_spec(w@.skip(start as int)),
        decreases w.len() - start,
    {
        proof {
            assert(w@.skip(start as int).drop_first() =~= w@.skip(start as int + 1));
        }
        start = start + 1;
    }
    proof {
        if start == w@.len() {
            assert(w@.skip(start as int) =~= Seq::<char>::empty());
        }
        assert(trim_start_spec(w@) == w@.skip(start as int));
        assert(w@.skip(start as int) =~= w@.subrange(start as int, w@.len() as int));
    }
    let mut end: usize = w.len();
    while end > start && !w[end - 1].is_alphanumeric()
        invariant
            start <= end <= w.len(),
            trim_start_spec(w@) == w@.skip(start as int),
            trim_end_spec(w@.subrange(start as int, end as int)) == trim_spec(w@),
        decreases end,
    {
        proof {
            let sub = w@.subrange(start as int, end as int);
            assert(sub.last() == w@[end - 1]);
            assert(sub.drop_last() =~= w@.subrange(start as int, end as int - 1));
        }
        end = end - 1;
    }
    proof {
        assert(w@.skip(start as int) =~= w@.subrange(start as int, w@.len() as int));
        assert(trim_spec(w@) == w@.subrange(start as int, end as int));
    }
    if end == start {
        return None;
    }
    let mut piece = String::new();
    let mut j: usize = start;
    while j < end
        invariant
            start <= j <= end <= w.len(),
            piece@ == w@.subrange(start as int, j as int),
        decreases end - j,
    {
        piece.push(w[j]);
        proof {
            assert(w@.subrange(start as int, j as int).push(w@[j as int]) =~= w@.subrange(
                start as int,
                j as int + 1,
            ));
        }
        j = j + 1;
    }
    let tok = to_lowercase(piece.as_str());
    Some(tok)
}

/// Split `text` into normalized tokens: whitespace-separated words, trimmed
/// of non-alphanumeric edges, lowercased; words that trim to nothing are
/// dropped, and the order of the input is kept. Every token is non-empty.
pub fn tokenize(text: &str) -> (tokens: Vec<String>)
    ensures
        tokens.deep_view() == tokenize_spec(text@),
        forall|i: int|
            0 <= i < tokens.deep_view().len() ==> (#[trigger] tokens.deep_view()[i]).len() > 0,
{
    let cs = chars_of(text);
    let mut tokens: Vec<String> = Vec::new();
    let mut cur: Vec<char> = Vec::new();
    proof {
        assert(cs@.skip(0) =~= cs@);
        assert(cur@ =~= Seq::<char>::empty());
        assert(tokens.deep_view() =~= Seq::<Seq<char>>::empty());
        assert(tokens.deep_view() + tokens_of_words(split_words(cs@, Seq::empty()))
            =~= tokens_of_words(split_words(cs@, Seq::empty())));
    }
    let mut i: usize = 0;
    while i < cs.len()
        invariant
            i <= cs.len(),
            cs@ == text@,
            tokenize_spec(text@) == tokens.deep_view() + tokens_of_words(
                split_words(cs@.skip(i as int), cur@),
            ),
            forall|t: int|
                0 <= t < tokens.deep_view().len() ==> (#[trigger] tokens.deep_view()[t]).len()
                    > 0,
        decreases cs.len() - i,
    {
        let ghost rem = cs@.skip(i as int);
        proof {
            assert(rem[0] == cs@[i as int]);
            assert(rem.drop_first() =~= cs@.skip(i as int + 1));
        }
        let c = cs[i];
        if c.is_whitespace() {
            if cur.len() > 0 {
                let ghost old_tokens = tokens.deep_view();
                proof {
                    lemma_tokens_of_words_cons(cur@, split_words(rem.drop_first(), Seq::empty()));
                }
                match normalized_token(&cur) {
                    Some(tok) => {
                        tokens.push(tok);
                        proof {
                            assert(tokens.deep_view() =~= old_tokens.push(
                                lowercase_of(trim_spec(cur@)),
                            ));
                            assert(old_tokens.push(lowercase_of(trim_spec(cur@)))
                                + tokens_of_words(split_words(rem.drop_first(), Seq::empty()))
                                =~= old_tokens + (seq![lowercase_of(trim_spec(cur@))]
                                + tokens_of_words(split_words(rem.drop_first(), Seq::empty()))));
                        }
                    },
                    None => {},
                }
                cur = Vec::new();
            } else {
                proof {
                    assert(cur@ =~= Seq::<char>::empty());
                }
            }
        } else {
            cur.push(c);
        }
        i = i + 1;
    }
    proof {
        assert(cs@.skip(i as int) =~= Seq::<char>::empty());
    }
    if cur.len() > 0 {
        let ghost old_tokens = tokens.deep_view();
        proof {
            assert(split_words(Seq::<char>::empty(), cur@) == seq![cur@]);
            assert(seq![cur@] =~= seq![cur@] + Seq::<Seq<char>>::empty());
            lemma_tokens_of_words_cons(cur@, Seq::empty());
        }
        match normalized_token(&cur) {
            Some(tok) => {
                tokens.push(tok);
                proof {
                    assert(tokens.deep_view() =~= old_tokens.push(lowercase_of(trim_spec(cur@))));
                    assert(old_tokens.push(lowercase_of(trim_spec(cur@))) =~= old_tokens + (seq![
                        lowercase_of(trim_spec(cur@)),
                    ] + tokens_of_words(Seq::empty())));
                }
            },
            None => {
                proof {
                    assert(tokens.deep_view() =~= tokens.deep_view() + tokens_of_words(
                        Seq::empty(),
                    ));
                }
            },
        }
    } else {
        proof {
            assert(tokens.deep_view() =~= tokens.deep_view() + tokens_of_words(
                split_words(Seq::<char>::empty(), Seq::<char>::empty()),
            ));
        }
    }
    tokens
}

} // verus!
