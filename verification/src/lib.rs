//! A compiler from Lark-style grammars to a grammar-and-lexer node graph,
//! and a byte-level view of subword vocabularies.
//!
//! A grammar arrives as a list of items ([`ast`]). The first phase gathers
//! them into tables ([`census`]); tokens are compiled to fragments of a
//! regex table ([`lexical`], [`regex_builder`]) and rules to nodes of a graph
//! ([`syntactic`], [`grammar_builder`]) by the [`compiler`]; [`grammar`] puts
//! the phases together. What a grammar means is stated apart from how it is
//! compiled; [`machine`] states what the compiler does step by step, on
//! success and on failure; the compiler is proved to do just that and to
//! produce what the grammar means. [`laws`] lists what follows.
//!
//! [`byte_tokenizer`] works out the bytes behind each token of a pretrained
//! vocabulary.

pub mod ast;
pub mod byte_tokenizer;
pub mod census;
pub mod common;
pub mod compiler;
pub mod error;
pub mod grammar;
pub mod grammar_builder;
pub mod laws;
pub mod lexical;
pub mod machine;
pub mod pattern;
pub mod regex_builder;
pub mod syntactic;
pub mod text;
