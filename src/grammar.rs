//! A grammar given by data: literal patterns recognised per lexer state.

use vstd::prelude::*;

use crate::parser::{LexerState, Parser};
use crate::tracker::{scope_view, Scope};

verus! {

/// In lexer state `in_state`, the bytes `pattern` form a token described by
/// `token_state`, after which the lexer is in `next_state`.
pub struct Rule {
    pub in_state: LexerState,
    pub pattern: Vec<u8>,
    pub token_state: LexerState,
    pub next_state: LexerState,
}

/// Rule `r` applies at byte `p` of `line` in state `state`.
pub open spec fn matches_at(r: Rule, line: Seq<u8>, state: LexerState, p: int) -> bool {
    &&& r.in_state == state
    &&& r.pattern@.len() > 0
    &&& 0 <= p
    &&& p + r.pattern@.len() <= line.len()
    &&& line.subrange(p, p + r.pattern@.len()) == r.pattern@
}

/// The first rule from index `k` on that applies at byte `p`.
pub open spec fn first_rule(rules: Seq<Rule>, line: Seq<u8>, state: LexerState, p: int, k: int) -> Option<int>
    decreases rules.len() - k,
{
    if k < 0 || k >= rules.len() {
        None
    } else if matches_at(rules[k], line, state, p) {
        Some(k)
    } else {
        first_rule(rules, line, state, p, k + 1)
    }
}

/// The first byte from `p` on where a rule applies, with that rule.
pub open spec fn first_match(rules: Seq<Rule>, line: Seq<u8>, state: LexerState, p: int) -> Option<(int, int)>
    decreases line.len() - p,
{
    if p < 0 || p >= line.len() {
        None
    } else {
        match first_rule(rules, line, state, p, 0) {
            Some(k) => Some((p, k)),
            None => first_match(rules, line, state, p + 1),
        }
    }
}

/// A grammar of literal tokens: at each position the first rule that applies
/// gives the next token, the bytes before it are a gap, and a line with no
/// further token ends in one unstyled token. `scopes[i]` is the scope of
/// lexer state `i`; other states have the empty scope.
pub struct RuleParser {
    pub rules: Vec<Rule>,
    pub scopes: Vec<Scope>,
}

impl RuleParser {
    pub fn new(rules: Vec<Rule>, scopes: Vec<Scope>) -> (r: RuleParser)
        ensures
            r.rules@ == rules@,
            r.scopes@ == scopes@,
    {
        RuleParser { rules, scopes }
    }

    fn rule_matches(rule: &Rule, line: &[u8], state: LexerState, p: usize) -> (r: bool)
        ensures
            r == matches_at(*rule, line@, state, p as int),
    {
        let n = rule.pattern.len();
        if rule.in_state != state || n == 0 || p > line.len() || n > line.len() - p {
            return false;
        }
        let len = line.len();
        let mut j: usize = 0;
        while j < n
            invariant
                n == rule.pattern@.len(),
                len == line@.len(),
                p + n <= line@.len(),
                0 <= j <= n,
                forall|q: int| 0 <= q < j ==> line@[p + q] == rule.pattern@[q],
            decreases n - j,
        {
            if line[p + j] != rule.pattern[j] {
                assert(line@.subrange(p as int, p + n)[j as int] != rule.pattern@[j as int]);
                return false;
            }
            j += 1;
        }
        assert(line@.subrange(p as int, p + n) =~= rule.pattern@);
        true
    }

    fn find_rule(&self, line: &[u8], state: LexerState, p: usize) -> (r: Option<usize>)
        ensures
            match r {
                Some(k) => first_rule(self.rules@, line@, state, p as int, 0) == Some(k as int) && k
                    < self.rules@.len() && matches_at(self.rules@[k as int], line@, state, p as int),
                None => first_rule(self.rules@, line@, state, p as int, 0) is None,
            },
    {
        let mut k: usize = 0;
        while k < self.rules.len()
            invariant
                0 <= k <= self.rules@.len(),
                first_rule(self.rules@, line@, state, p as int, 0) == first_rule(
                    self.rules@,
                    line@,
                    state,
                    p as int,
                    k as int,
                ),
            decreases self.rules@.len() - k,
        {
            if RuleParser::rule_matches(&self.rules[k], line, state, p) {
                return Some(k);
            }
            k += 1;
        }
        None
    }
}

impl Parser for RuleParser {
    open spec fn parse_spec(&self, line: Seq<u8>, start: int, state: LexerState) -> (usize, LexerState, usize, LexerState) {
        match first_match(self.rules@, line, state, start) {
            Some(m) => (
                (m.0 - start) as usize,
                self.rules@[m.1].token_state,
                self.rules@[m.1].pattern@.len() as usize,
                self.rules@[m.1].next_state,
            ),
            None => (0usize, state, (line.len() - start) as usize, state),
        }
    }

    open spec fn scope_spec(&self, state: LexerState) -> Seq<Seq<char>> {
        if state.0 < self.scopes@.len() {
            scope_view(self.scopes@[state.0 as int])
        } else {
            Seq::empty()
        }
    }

    fn parse(&self, line: &[u8], start: usize, state: LexerState) -> (r: (usize, LexerState, usize, LexerState)) {
        let mut p = start;
        while p < line.len()
            invariant
                start <= p <= line@.len(),
                first_match(self.rules@, line@, state, start as int) == first_match(
                    self.rules@,
                    line@,
                    state,
                    p as int,
                ),
            decreases line@.len() - p,
        {
            match self.find_rule(line, state, p) {
                Some(k) => {
                    let rule = &self.rules[k];
                    return (p - start, rule.token_state, rule.pattern.len(), rule.next_state);
                },
                None => {
                    p += 1;
                },
            }
        }
        (0, state, line.len() - start, state)
    }

    fn get_scope_for_state(&self, state: LexerState) -> (r: Scope) {
        if state.0 < self.scopes.len() {
            self.scopes[state.0].clone()
        } else {
            let r: Scope = Vec::new();
            assert(scope_view(r) =~= Seq::<Seq<char>>::empty());
            r
        }
    }
}

} // verus!
