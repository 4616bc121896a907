//! A text-analysis pipeline: tokenize a document, filter the tokens, group
//! them into n-grams, count how often each gram occurs, and rank the counts.
//!
//! The stages are [`tokenizer`], [`filters`], [`ngrams`], [`counts`] and
//! [`ranking`], run end to end by [`pipeline::analyze`]. The [`arith`],
//! [`builder`] and [`hof`] modules hold small standalone helpers.

pub mod arith;
pub mod builder;
pub mod counts;
pub mod filters;
pub mod hof;
pub mod ngrams;
pub mod pipeline;
pub mod ranking;
pub mod tokenizer;
