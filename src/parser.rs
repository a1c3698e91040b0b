//! The pluggable tokenizer capability and the plain-text fallback.

use vstd::prelude::*;

use crate::tracker::{scope_view, Scope};

verus! {

/// Tokenizer context carried from the end of one line to the start of the next.
#[derive(Clone, Copy, Debug, Default, PartialEq, Eq, Hash, Structural)]
pub struct LexerState(pub usize);

impl LexerState {
    /// The context at the start of a buffer.
    pub fn initial() -> (r: LexerState)
        ensures
            r == LexerState(0),
    {
        LexerState(0)
    }
}

/// A grammar: turns the suffix of a line and a lexer state into the next token.
pub trait Parser {
    /// What `parse` returns for `line` scanned from `start` in `state`.
    spec fn parse_spec(&self, line: Seq<u8>, start: int, state: LexerState) -> (usize, LexerState, usize, LexerState);

    /// The value of the scope stack that `state` stands for.
    spec fn scope_spec(&self, state: LexerState) -> Seq<Seq<char>>;

    /// Scans `line` from byte `start` in lexer state `state`. Returns
    /// `(prevlen, s0, len, s1)`: an unstyled gap of `prevlen` bytes, the state
    /// `s0` that describes the token, the token's length `len` (never zero)
    /// and the state `s1` after the token. Gap and token stay inside the line.
    fn parse(&self, line: &[u8], start: usize, state: LexerState) -> (r: (usize, LexerState, usize, LexerState))
        requires
            start < line@.len(),
        ensures
            r == self.parse_spec(line@, start as int, state),
            r.2 > 0,
            start + r.0 + r.2 <= line@.len(),
    ;

    /// The scope stack that a lexer state stands for; empty for plain text.
    fn get_scope_for_state(&self, state: LexerState) -> (r: Scope)
        ensures
            scope_view(r) == self.scope_spec(state),
    ;
}

/// The fallback grammar: the rest of each line is one unstyled token.
pub struct PlaintextParser {
    pub state: LexerState,
}

impl PlaintextParser {
    pub fn new(state: LexerState) -> (r: PlaintextParser)
        ensures
            r.state == state,
    {
        PlaintextParser { state }
    }
}

impl Parser for PlaintextParser {
    open spec fn parse_spec(&self, line: Seq<u8>, start: int, state: LexerState) -> (usize, LexerState, usize, LexerState) {
        (0usize, state, (line.len() - start) as usize, state)
    }

    open spec fn scope_spec(&self, state: LexerState) -> Seq<Seq<char>> {
        Seq::empty()
    }

    fn parse(&self, line: &[u8], start: usize, state: LexerState) -> (r: (usize, LexerState, usize, LexerState))
        ensures
            r == (0usize, state, (line@.len() - start) as usize, state),
    {
        (0, state, line.len() - start, state)
    }

    fn get_scope_for_state(&self, state: LexerState) -> (r: Scope)
        ensures
            r@.len() == 0,
    {
        let r: Scope = Vec::new();
        assert(scope_view(r) =~= Seq::<Seq<char>>::empty());
        r
    }
}

} // verus!
