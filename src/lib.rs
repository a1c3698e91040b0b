//! Incremental syntax highlighting: scope interning, line tokenization and the
//! frontier-driven scan that re-tokenizes only what an edit could have changed.

pub mod driver;
pub mod grammar;
pub mod laws;
pub mod parser;
pub mod session;
pub mod tracker;

pub use driver::{frontier_action, tick_step, FrontierAction, TickStep, LINES_PER_RPC};
pub use grammar::{Rule, RuleParser};
pub use parser::{LexerState, Parser, PlaintextParser};
pub use session::{grammar_for, Flush, Grammar, ScopeSpan, SpanBatch, ViewState};
pub use tracker::{identifier_for_scope, scope_eq, LookupResult, Scope, ScopeTracker};
