//! The SQL front end and the query engine.

pub mod analyzer;
pub mod ast;
pub mod evaluator;
pub mod executor;
pub mod keyword;
pub mod lexer;
pub mod logical_planner;
pub mod operator;
pub mod parser;
pub mod planner_context;
