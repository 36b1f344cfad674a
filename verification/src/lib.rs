//! Invariant analysis for smart-contract programs: a typed expression
//! language, its checker and evaluator, and the defences that keep
//! generated instrumentation honest.

pub mod account_abstraction;
pub mod analyzer;
pub mod arithmetic;
pub mod ast;
pub mod attack_patterns;
pub mod cli;
pub mod error;
pub mod evaluator;
pub mod generator;
pub mod grammar;
pub mod lexer;
pub mod library;
pub mod model;
pub mod ordmap;
pub mod parser;
pub mod release;
pub mod report;
pub mod scopes;
pub mod security_validator;
pub mod simulator;
pub mod soundness;
pub mod text;
pub mod threat_model;
pub mod type_checker;
pub mod types;
pub mod version;
