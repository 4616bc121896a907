use wordfreq::tokenizer::tokenize;

#[test]
fn tokenize_mixed_punctuation() {
    let toks = tokenize("Hello, world! Don't stop.");
    assert_eq!(toks, vec!["hello", "world", "don't", "stop"]);
}

#[test]
fn tokenize_empty_input() {
    let toks = tokenize("");
    assert!(toks.is_empty());
}

#[test]
fn tokenize_only_punctuation() {
    let toks = tokenize("... --- !!!");
    assert!(toks.is_empty());
}

#[test]
fn tokenize_lowercases() {
    let toks = tokenize("HELLO World");
    assert_eq!(toks, vec!["hello", "world"]);
}

#[test]
fn tokenize_trims_edges_keeps_interior() {
    let toks = tokenize("--x-- (don't)");
    assert_eq!(toks, vec!["x", "don't"]);
}

#[test]
fn tokenize_lowercases_non_ascii() {
    let toks = tokenize("CAF\u{c9} caf\u{e9}");
    assert_eq!(toks, vec!["caf\u{e9}", "caf\u{e9}"]);
}

#[test]
fn tokenize_collapses_whitespace_runs() {
    let toks = tokenize("  a \t b \n  c  ");
    assert_eq!(toks, vec!["a", "b", "c"]);
}
