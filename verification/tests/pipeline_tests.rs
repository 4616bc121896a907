use wordfreq::counts::count_frequencies;
use wordfreq::filters::apply_filters;
use wordfreq::filters::stopwords;
use wordfreq::filters::FilterSpec;
use wordfreq::filters::Pattern;
use wordfreq::ngrams::generate_ngrams;
use wordfreq::pipeline::analyze;
use wordfreq::pipeline::top_slice;
use wordfreq::ranking::rank;
use wordfreq::tokenizer::tokenize;

fn strings(words: &[&str]) -> Vec<String> {
    words.iter().map(|w| w.to_string()).collect()
}

fn count_of(ranked: &[(String, usize)], key: &str) -> Option<usize> {
    ranked.iter().find(|(k, _)| k == key).map(|(_, c)| *c)
}

#[test]
fn ngrams_width_two() {
    let toks = strings(&["a", "b", "c"]);
    let grams = generate_ngrams(&toks, 2);
    assert_eq!(grams, vec!["a b", "b c"]);
}

#[test]
fn ngrams_window_count_and_order() {
    let toks = strings(&["one", "two", "three", "four"]);
    let grams = generate_ngrams(&toks, 3);
    assert_eq!(grams.len(), toks.len() - 3 + 1);
    assert_eq!(grams, vec!["one two three", "two three four"]);
}

#[test]
fn ngrams_width_one_is_identity() {
    let toks = strings(&["x", "y"]);
    let grams = generate_ngrams(&toks, 1);
    assert_eq!(grams, toks);
}

#[test]
fn ngrams_wider_than_input_is_empty() {
    let toks = strings(&["x", "y"]);
    let grams = generate_ngrams(&toks, 3);
    assert!(grams.is_empty());
}

#[test]
fn counts_exact_values() {
    let grams = strings(&["the", "cat", "the", "dog", "the"]);
    let table = count_frequencies(&grams);
    assert_eq!(table.len(), 3);
    assert_eq!(count_of(&table, "the"), Some(3));
    assert_eq!(count_of(&table, "cat"), Some(1));
    assert_eq!(count_of(&table, "dog"), Some(1));
}

#[test]
fn counts_sum_to_input_length() {
    let grams = strings(&["a b", "b c", "a b", "c d"]);
    let table = count_frequencies(&grams);
    let total: usize = table.iter().map(|(_, c)| *c).sum();
    assert_eq!(total, grams.len());
}

#[test]
fn ranked_first_is_most_frequent() {
    let grams = strings(&["the", "cat", "the", "dog", "the"]);
    let table = count_frequencies(&grams);
    let ranked = rank(&table);
    assert_eq!(ranked[0], ("the".to_string(), 3));
}

#[test]
fn ranked_counts_never_increase() {
    let grams = strings(&["a", "b", "a", "c", "b", "a", "d"]);
    let ranked = rank(&count_frequencies(&grams));
    for pair in ranked.windows(2) {
        assert!(pair[0].1 >= pair[1].1);
    }
    for (_, c) in &ranked {
        assert!(*c >= 1);
    }
}

#[test]
fn ranked_ties_keep_first_occurrence_order() {
    let grams = strings(&["b", "a", "b", "a", "c"]);
    let ranked = rank(&count_frequencies(&grams));
    assert_eq!(
        ranked,
        vec![("b".to_string(), 2), ("a".to_string(), 2), ("c".to_string(), 1)]
    );
}

#[test]
fn stopword_list_holds_the_function_words() {
    let sw = stopwords();
    assert_eq!(sw.len(), 33);
    assert!(sw.iter().any(|w| w == "the"));
    assert!(sw.iter().any(|w| w == "with"));
    assert!(!sw.iter().any(|w| w == "cat"));
}

#[test]
fn stopword_filter_excludes_function_words() {
    let toks = tokenize("the cat and the dog");
    let mut fs = FilterSpec::none();
    fs.filter_stopwords = true;
    let kept = apply_filters(&toks, &fs);
    assert_eq!(kept, vec!["cat", "dog"]);
    let table = count_frequencies(&generate_ngrams(&kept, 1));
    assert_eq!(count_of(&table, "cat"), Some(1));
    assert_eq!(count_of(&table, "dog"), Some(1));
    assert_eq!(count_of(&table, "the"), None);
    assert_eq!(count_of(&table, "and"), None);
}

#[test]
fn min_length_is_strict() {
    let toks = strings(&["abc", "abcd"]);
    let mut fs = FilterSpec::none();
    fs.min_length = Some(3);
    let kept = apply_filters(&toks, &fs);
    assert_eq!(kept, vec!["abcd"]);
}

#[test]
fn min_length_counts_characters() {
    let toks = strings(&["caf\u{e9}"]);
    let mut fs = FilterSpec::none();
    fs.min_length = Some(4);
    assert!(apply_filters(&toks, &fs).is_empty());
    fs.min_length = Some(3);
    assert_eq!(apply_filters(&toks, &fs), vec!["caf\u{e9}"]);
}

#[test]
fn starts_with_keeps_matching_initial() {
    let toks = strings(&["cat", "dog", "deer"]);
    let mut fs = FilterSpec::none();
    fs.starts_with = Some('d');
    let kept = apply_filters(&toks, &fs);
    assert_eq!(kept, vec!["dog", "deer"]);
}

#[test]
fn invalid_pattern_fails_to_compile() {
    assert!(Pattern::compile("foo(bar").is_none());
}

#[test]
fn pattern_matches_as_substring() {
    let p = Pattern::compile("^d").unwrap();
    assert!(p.is_match("dog"));
    assert!(!p.is_match("cat"));
    let q = Pattern::compile("at").unwrap();
    assert!(q.is_match("cat"));
}

#[test]
fn regex_filter_keeps_matching_tokens() {
    let toks = strings(&["cat", "dog", "cart"]);
    let mut fs = FilterSpec::none();
    fs.pattern = Pattern::compile("ca");
    let kept = apply_filters(&toks, &fs);
    assert_eq!(kept, vec!["cat", "cart"]);
}

#[test]
fn analyze_full_run() {
    let fs = FilterSpec::none();
    let r = analyze("the cat the dog the", &fs, 1);
    assert_eq!(r.total, 5);
    assert_eq!(r.ranked.len(), 3);
    assert_eq!(r.ranked[0], ("the".to_string(), 3));
}

#[test]
fn analyze_bigrams() {
    let fs = FilterSpec::none();
    let r = analyze("a b a b a", &fs, 2);
    assert_eq!(r.total, 4);
    assert_eq!(count_of(&r.ranked, "a b"), Some(2));
    assert_eq!(count_of(&r.ranked, "b a"), Some(2));
}

#[test]
fn analyze_everything_filtered_out() {
    let mut fs = FilterSpec::none();
    fs.filter_stopwords = true;
    let r = analyze("the and of to", &fs, 1);
    assert_eq!(r.total, 0);
    assert_eq!(r.ranked.len(), 0);
}

#[test]
fn top_slice_takes_a_prefix() {
    let grams = strings(&["a", "b", "a", "c", "a", "b"]);
    let ranked = rank(&count_frequencies(&grams));
    let top = top_slice(&ranked, 2);
    assert_eq!(top.len(), 2);
    assert_eq!(top[0], ("a".to_string(), 3));
    assert_eq!(top[1], ("b".to_string(), 2));
    let all = top_slice(&ranked, 10);
    assert_eq!(all, ranked);
}
