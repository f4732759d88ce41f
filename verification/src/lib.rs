//! A small Lisp interpreter: a tokenizer, a recursive-descent parser, a
//! chain of lexical environment frames held in an arena, and an evaluator
//! that dispatches native procedures and user lambdas through one calling
//! convention. Every function is verified against a spec-level model of the
//! whole pipeline, up to the round-trip law between rendering and parsing.
pub mod display;
pub mod env;
pub mod evaluator;
pub mod laws;
pub mod native;
pub mod parser;
pub mod roundtrip;
pub mod tokenizer;
pub mod utils;
