//! The filter chain: stopword exclusion, regex match, minimum length and
//! starts-with filters, applied to a token sequence in that fixed order.
//!
//! Only the filters enabled in a [`FilterSpec`] act; each keeps or drops a
//! token on its own, so the chain keeps exactly the tokens that every enabled
//! filter accepts, in their original order.

use vstd::prelude::*;
use crate::tokenizer::chars_of;

verus! {

/// The hard-coded lowercase English function words excluded by the stopword
/// filter.
pub open spec fn stopword_seq() -> Seq<Seq<char>> {
    seq![
        "a"@, "an"@, "and"@, "are"@, "as"@, "at"@, "be"@, "but"@, "by"@,
        "for"@, "if"@, "in"@, "into"@, "is"@, "it"@, "no"@, "not"@,
        "of"@, "on"@, "or"@, "such"@, "that"@, "the"@, "their"@, "then"@,
        "there"@, "these"@, "they"@, "this"@, "to"@, "was"@, "will"@, "with"@,
    ]
}

/// Whether `t` is one of the hard-coded stopwords.
pub open spec fn is_stopword(t: Seq<char>) -> bool {
    stopword_seq().contains(t)
}

/// Hard-coded English stopword list.
pub fn stopwords() -> (words: Vec<String>)
    ensures
        words.deep_view() == stopword_seq(),
{
    let mut words: Vec<String> = Vec::new();
    words.push("a".to_owned());
    words.push("an".to_owned());
    words.push("and".to_owned());
    words.push("are".to_owned());
    words.push("as".to_owned());
    words.push("at".to_owned());
    words.push("be".to_owned());
    words.push("but".to_owned());
    words.push("by".to_owned());
    words.push("for".to_owned());
    words.push("if".to_owned());
    words.push("in".to_owned());
    words.push("into".to_owned());
    words.push("is".to_owned());
    words.push("it".to_owned());
    words.push("no".to_owned());
    words.push("not".to_owned());
    words.push("of".to_owned());
    words.push("on".to_owned());
    words.push("or".to_owned());
    words.push("such".to_owned());
    words.push("that".to_owned());
    words.push("the".to_owned());
    words.push("their".to_owned());
    words.push("then".to_owned());
    words.push("there".to_owned());
    words.push("these".to_owned());
    words.push("they".to_owned());
    words.push("this".to_owned());
    words.push("to".to_owned());
    words.push("was".to_owned());
    words.push("will".to_owned());
    words.push("with".to_owned());
    proof {
        assert(words.deep_view() =~= stopword_seq());
    }
    words
}

/// Whether `t` occurs in `words`.
fn member_of(words: &Vec<String>, t: &String) -> (r: bool)
    ensures
        r == words.deep_view().contains(t@),
{
    let mut k: usize = 0;
    while k < words.len()
        invariant
            k <= words.len(),
            forall|j: int| 0 <= j < k ==> words.deep_view()[j] != t@,
        decreases words.len() - k,
    {
        if (&words[k]).eq(t) {
            proof {
                assert(words.deep_view()[k as int] == t@);
            }
            return true;
        }
        k = k + 1;
    }
    false
}

/// Whether the regular expression written as `pattern` matches anywhere in
/// `text`; the regex crate's matching semantics are not restated here.
pub uninterp spec fn regex_match(pattern: Seq<char>, text: Seq<char>) -> bool;

#[verifier::external_type_specification]
#[verifier::external_body]
pub struct ExRegex(regex::Regex);

/// A compiled regular expression together with the pattern text it was
/// compiled from. Its view is that pattern text.
pub struct Pattern {
    re: regex::Regex,
    src: String,
}

impl View for Pattern {
    type V = Seq<char>;

    closed spec fn view(&self) -> Seq<char> {
        self.src@
    }
}

impl Pattern {
    /// Relies on regex::Regex::new: it compiles the pattern or reports an
    /// error, and the compiled value's matching behaviour is a function of
    /// the pattern text alone. A pattern that fails to compile yields `None`.
    #[verifier::external_body]
    pub fn compile(pattern: &str) -> (r: Option<Pattern>)
        ensures
            r matches Some(p) ==> p@ == pattern@,
    {
        match regex::Regex::new(pattern) {
            Ok(re) => Some(Pattern { re, src: pattern.to_owned() }),
            Err(_) => None,
        }
    }

    /// Relies on regex::Regex::is_match: whether the compiled pattern matches
    /// anywhere in `text`, a function of the pattern and the text alone.
    #[verifier::external_body]
    pub fn is_match(&self, text: &str) -> (r: bool)
        ensures
            r == regex_match(self@, text@),
    {
        self.re.is_match(text)
    }
}

/// The filter options enabled for one run. Absent options disable their
/// filters.
pub struct FilterSpec {
    /// Drop tokens that are hard-coded stopwords.
    pub filter_stopwords: bool,
    /// Keep only tokens the pattern matches (anywhere in the token).
    pub pattern: Option<Pattern>,
    /// Keep only tokens strictly longer than this many characters.
    pub min_length: Option<usize>,
    /// Keep only tokens whose first character is this one.
    pub starts_with: Option<char>,
}

impl FilterSpec {
    /// A specification with every filter disabled: all tokens pass.
    pub fn none() -> (fs: FilterSpec)
        ensures
            !fs.filter_stopwords,
            fs.pattern is None,
            fs.min_length is None,
            fs.starts_with is None,
    {
        FilterSpec { filter_stopwords: false, pattern: None, min_length: None, starts_with: None }
    }
}

/// Whether every filter enabled in `fs` accepts the token `t`.
pub open spec fn keep_token(fs: FilterSpec, t: Seq<char>) -> bool {
    &&& (fs.filter_stopwords ==> !is_stopword(t))
    &&& (fs.pattern matches Some(p) ==> regex_match(p@, t))
    &&& (fs.min_length matches Some(n) ==> t.len() > n)
    &&& (fs.starts_with matches Some(c) ==> t.len() > 0 && t[0] == c)
}

/// The tokens of `toks` that every filter enabled in `fs` accepts, in their
/// original order.
pub open spec fn filter_tokens(toks: Seq<Seq<char>>, fs: FilterSpec) -> Seq<Seq<char>>
    decreases toks.len(),
{
    if toks.len() == 0 {
        Seq::empty()
    } else {
        let rest = filter_tokens(toks.drop_last(), fs);
        if keep_token(fs, toks.last()) {
            rest.push(toks.last())
        } else {
            rest
        }
    }
}

/// Apply the enabled filters to `tokens`: the result holds exactly the tokens
/// that every enabled filter accepts, in their original order.
pub fn apply_filters(tokens: &Vec<String>, fs: &FilterSpec) -> (out: Vec<String>)
    ensures
        out.deep_view() == filter_tokens(tokens.deep_view(), *fs),
{
    let sw = stopwords();
    let mut out: Vec<String> = Vec::new();
    proof {
        assert(tokens.deep_view().take(0) =~= Seq::<Seq<char>>::empty());
        assert(out.deep_view() =~= Seq::<Seq<char>>::empty());
    }
    let mut k: usize = 0;
    while k < tokens.len()
        invariant
            k <= tokens.len(),
            sw.deep_view() == stopword_seq(),
            out.deep_view() == filter_tokens(tokens.deep_view().take(k as int), *fs),
        decreases tokens.len() - k,
    {
        let t = &tokens[k];
        let keep = passes(t, &sw, fs);
        let ghost old_out = out.deep_view();
        if keep {
            out.push(t.clone());
            proof {
                assert(out.deep_view() =~= old_out.push(t@));
            }
        }
        proof {
            let dv = tokens.deep_view();
            assert(dv.take(k as int + 1).drop_last() =~= dv.take(k as int));
            assert(dv.take(k as int + 1).last() == dv[k as int]);
        }
        k = k + 1;
    }
    proof {
        assert(tokens.deep_view().take(tokens@.len() as int) =~= tokens.deep_view());
    }
    out
}

/// Whether every filter enabled in `fs` accepts `t`, given the stopword list.
fn passes(t: &String, sw: &Vec<String>, fs: &FilterSpec) -> (r: bool)
    requires
        sw.deep_view() == stopword_seq(),
    ensures
        r == keep_token(*fs, t@),
{
    if fs.filter_stopwords && member_of(sw, t) {
        return false;
    }
    match &fs.pattern {
        Some(p) => {
            if !p.is_match(t.as_str()) {
                return false;
            }
        },
        None => {},
    }
    let cs = chars_of(t.as_str());
    match fs.min_length {
        Some(n) => {
            if !(cs.len() > n) {
                return false;
            }
        },
        None => {},
    }
    match fs.starts_with {
        Some(c) => {
            if cs.len() == 0 {
                return false;
            }
            if cs[0] != c {
                return false;
            }
        },
        None => {},
    }
    true
}

} // verus!
