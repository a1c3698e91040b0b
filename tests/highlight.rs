use xi_lang::{
    frontier_action, grammar_for, tick_step, Flush, FrontierAction, Grammar, LexerState, Parser,
    PlaintextParser, Rule, RuleParser, Scope, ScopeSpan, TickStep, ViewState, LINES_PER_RPC,
};

const PLAIN: LexerState = LexerState(0);
const KEYWORD: LexerState = LexerState(1);
const COMMENT: LexerState = LexerState(2);

fn rule(in_state: LexerState, pattern: &[u8], token_state: LexerState, next_state: LexerState) -> Rule {
    Rule { in_state, pattern: pattern.to_vec(), token_state, next_state }
}

/// Scopes the words `let` and `=` as keywords and leaves the rest unstyled.
fn keyword_parser() -> RuleParser {
    RuleParser::new(
        vec![rule(PLAIN, b"let", KEYWORD, PLAIN), rule(PLAIN, b"=", KEYWORD, PLAIN)],
        vec![Vec::new(), vec!["keyword".to_string()]],
    )
}

/// Block comment delimiters `/*` and `*/`; the lexer stays in the comment
/// state across lines until the closing delimiter.
fn comment_parser() -> RuleParser {
    RuleParser::new(
        vec![rule(PLAIN, b"/*", COMMENT, COMMENT), rule(COMMENT, b"*/", COMMENT, PLAIN)],
        vec![Vec::new(), Vec::new(), vec!["comment".to_string()]],
    )
}

/// An in-memory host: the lines of a buffer, the lexer state cached at the
/// start of each line, the frontier, and what was delivered to the renderer.
struct Host {
    lines: Vec<String>,
    cache: Vec<Option<LexerState>>,
    frontier: Option<usize>,
    scopes: Vec<Scope>,
    batches: Vec<(usize, usize, Vec<ScopeSpan>)>,
    lines_scanned: usize,
}

impl Host {
    fn new(lines: Vec<String>) -> Host {
        let n = lines.len();
        let mut cache = vec![None; n + 1];
        cache[0] = Some(LexerState::initial());
        Host { lines, cache, frontier: Some(0), scopes: Vec::new(), batches: Vec::new(), lines_scanned: 0 }
    }

    fn offset_of(&self, line_num: usize) -> usize {
        self.lines[..line_num.min(self.lines.len())].iter().map(|l| l.len()).sum()
    }

    fn deliver(&mut self, f: Flush) {
        self.scopes.extend(f.scopes);
        if let Some(b) = f.spans {
            self.batches.push((b.start, b.len, b.spans));
        }
    }

    fn highlight_one_line<P: Parser>(&mut self, vs: &mut ViewState, parser: &P) -> bool {
        let line_num = match self.frontier {
            Some(n) => n,
            None => return false,
        };
        if let Some(f) = vs.resync(self.offset_of(line_num)) {
            self.deliver(f);
        }
        let text = self.lines.get(line_num).cloned().unwrap_or_default();
        self.lines_scanned += 1;
        let state = self.cache.get(line_num).copied().flatten().unwrap_or_default();
        let candidate = vs.scan_line(parser, line_num, Some(text.as_bytes()), state);
        let cached = candidate.and_then(|(_, n)| self.cache.get(n).copied().flatten());
        match frontier_action(candidate, cached) {
            FrontierAction::Advance { line_num, state } => {
                self.cache[line_num] = Some(state);
                self.frontier = Some(line_num);
                true
            }
            FrontierAction::Close => {
                self.frontier = None;
                false
            }
        }
    }

    /// One idle tick; returns whether it asked to be scheduled again.
    fn idle<P: Parser>(&mut self, vs: &mut ViewState, parser: &P) -> bool {
        let mut done = 0;
        loop {
            let more = self.highlight_one_line(vs, parser);
            done += 1;
            match tick_step(done, more, false) {
                TickStep::Continue => {}
                TickStep::Yield => {
                    let f = vs.flush_spans();
                    self.deliver(f);
                    return true;
                }
                TickStep::Finish => {
                    let f = vs.flush_spans();
                    self.deliver(f);
                    return false;
                }
            }
        }
    }

    fn run<P: Parser>(&mut self, vs: &mut ViewState, parser: &P) {
        while self.idle(vs, parser) {}
    }
}

fn numbered_lines(n: usize) -> Vec<String> {
    (0..n).map(|i| format!("let v{} = {};\n", i, i)).collect()
}

fn span(start: usize, end: usize, scope_id: u32) -> ScopeSpan {
    ScopeSpan { start, end, scope_id }
}

#[test]
fn one_line_buffer_gets_two_keyword_spans() {
    let mut host = Host::new(vec!["let x = 1;".to_string()]);
    let mut vs = ViewState::new();
    let parser = keyword_parser();
    assert!(!host.highlight_one_line(&mut vs, &parser));
    assert_eq!(host.frontier, None);
    let f = vs.flush_spans();
    host.deliver(f);
    assert_eq!(host.scopes, vec![vec!["keyword".to_string()]]);
    assert_eq!(host.batches, vec![(0, 10, vec![span(0, 3, 0), span(6, 7, 0)])]);
}

#[test]
fn compute_syntax_offsets_are_relative_to_the_batch() {
    let mut vs = ViewState::new();
    let parser = keyword_parser();
    let end = vs.compute_syntax(&parser, b"a = b\n", LexerState::initial());
    assert_eq!(end, LexerState::initial());
    assert_eq!(vs.spans, vec![span(2, 3, 0)]);
    vs.offset = 6;
    vs.compute_syntax(&parser, b"let\n", LexerState::initial());
    assert_eq!(vs.spans, vec![span(2, 3, 0), span(6, 9, 0)]);
    let f = vs.flush_spans();
    assert!(f.scopes.len() == 1);
    let b = f.spans.unwrap();
    assert_eq!((b.start, b.len), (0, 6));
}

#[test]
fn plain_text_produces_no_spans() {
    let mut vs = ViewState::new();
    let parser = PlaintextParser::new(LexerState::initial());
    assert_eq!(parser.parse(b"hello\n", 2, LexerState(4)), (0, LexerState(4), 4, LexerState(4)));
    assert!(parser.get_scope_for_state(LexerState(4)).is_empty());
    let c = vs.scan_line(&parser, 0, Some(b"hello\n"), LexerState::initial());
    assert_eq!(c, Some((LexerState::initial(), 1)));
    assert!(vs.spans.is_empty());
    assert_eq!(vs.offset, 6);
}

#[test]
fn scan_line_candidates() {
    let mut vs = ViewState::new();
    let parser = keyword_parser();
    assert_eq!(vs.scan_line(&parser, 3, None, LexerState::initial()), None);
    assert_eq!(vs.offset, 0);
    assert_eq!(vs.scan_line(&parser, 3, Some(b""), LexerState::initial()), None);
    assert_eq!(vs.offset, 0);
    assert_eq!(vs.scan_line(&parser, 3, Some(b"x\n"), LexerState::initial()), Some((LexerState(0), 4)));
    assert_eq!(vs.offset, 2);
    assert_eq!(vs.scan_line(&parser, 4, Some(b"y"), LexerState::initial()), None);
    assert_eq!(vs.offset, 3);
}

#[test]
fn record_token_emits_gap_and_token_spans() {
    let mut vs = ViewState::new();
    vs.offset = 10;
    vs.spans_start = 4;
    vs.record_token(2, 3, vec!["comment".to_string()], 5, vec!["keyword".to_string()]);
    assert_eq!(vs.spans, vec![span(8, 11, 0), span(11, 16, 1)]);
    vs.record_token(10, 0, vec!["comment".to_string()], 2, Vec::new());
    assert_eq!(vs.spans.len(), 2);
    vs.record_token(12, 2, Vec::new(), 1, vec!["comment".to_string()]);
    assert_eq!(vs.spans[2], span(20, 21, 0));
    assert_eq!(vs.new_scopes.len(), 2);
    assert_eq!(vs.tracker.len(), 2);
}

#[test]
fn flush_reports_each_batch_once() {
    let mut vs = ViewState::new();
    let parser = keyword_parser();
    vs.scan_line(&parser, 0, Some(b"let\n"), LexerState::initial());
    let f = vs.flush_spans();
    assert_eq!(f.scopes.len(), 1);
    let b = f.spans.unwrap();
    assert_eq!((b.start, b.len, b.spans), (0, 4, vec![span(0, 3, 0)]));
    assert_eq!(vs.spans_start, 4);
    let f = vs.flush_spans();
    assert!(f.scopes.is_empty());
    assert!(f.spans.is_none());
}

#[test]
fn consecutive_flushes_are_contiguous() {
    let mut host = Host::new(numbered_lines(120));
    let mut vs = ViewState::new();
    host.run(&mut vs, &keyword_parser());
    assert!(host.batches.len() >= 3);
    let mut next = 0;
    for (start, len, spans) in &host.batches {
        assert_eq!(*start, next);
        next = start + len;
        for w in spans.windows(2) {
            assert!(w[0].end <= w[1].start);
        }
        for s in spans {
            assert!(s.start < s.end && s.end <= *len);
        }
    }
    assert_eq!(next, host.offset_of(120));
}

#[test]
fn resync_flushes_before_moving() {
    let mut vs = ViewState::new();
    let parser = keyword_parser();
    vs.scan_line(&parser, 0, Some(b"let a\n"), LexerState::initial());
    assert!(vs.resync(6).is_none());
    let f = vs.resync(40).unwrap();
    assert_eq!(f.spans.unwrap().spans, vec![span(0, 3, 0)]);
    assert_eq!((vs.offset, vs.spans_start), (40, 40));
    assert!(vs.spans.is_empty());
}

#[test]
fn frontier_advances_unless_converged() {
    let s = LexerState(3);
    assert_eq!(frontier_action(Some((s, 7)), None), FrontierAction::Advance { line_num: 7, state: s });
    assert_eq!(frontier_action(Some((s, 7)), Some(LexerState(2))), FrontierAction::Advance { line_num: 7, state: s });
    assert_eq!(frontier_action(Some((s, 7)), Some(s)), FrontierAction::Close);
    assert_eq!(frontier_action(None, Some(s)), FrontierAction::Close);
}

#[test]
fn idle_tick_steps() {
    assert_eq!(tick_step(1, true, false), TickStep::Continue);
    assert_eq!(tick_step(1, true, true), TickStep::Yield);
    assert_eq!(tick_step(LINES_PER_RPC, true, false), TickStep::Yield);
    assert_eq!(tick_step(LINES_PER_RPC - 1, true, false), TickStep::Continue);
    assert_eq!(tick_step(3, false, true), TickStep::Finish);
}

#[test]
fn full_scan_yields_every_fifty_lines() {
    let mut host = Host::new(numbered_lines(120));
    let mut vs = ViewState::new();
    let parser = keyword_parser();
    assert!(host.idle(&mut vs, &parser));
    assert_eq!(host.lines_scanned, 50);
    assert!(host.idle(&mut vs, &parser));
    assert!(!host.idle(&mut vs, &parser));
    assert_eq!(host.lines_scanned, 121);
}

#[test]
fn edit_that_keeps_the_end_state_converges_at_once() {
    let mut host = Host::new(numbered_lines(100));
    let mut vs = ViewState::new();
    let parser = keyword_parser();
    host.run(&mut vs, &parser);
    let batches_before = host.batches.len();
    host.lines[5] = "let w5 = 5;\n".to_string();
    host.frontier = Some(5);
    host.lines_scanned = 0;
    host.run(&mut vs, &parser);
    assert_eq!(host.lines_scanned, 1);
    assert_eq!(host.frontier, None);
    let new_batches = &host.batches[batches_before..];
    assert_eq!(new_batches.len(), 1);
    let (start, len, spans) = &new_batches[0];
    assert_eq!((*start, *len), (host.offset_of(5), host.lines[5].len()));
    assert_eq!(spans, &vec![span(0, 3, 0), span(7, 8, 0)]);
}

#[test]
fn rescanning_an_unedited_buffer_reports_nothing_new() {
    let mut host = Host::new(numbered_lines(10));
    let mut vs = ViewState::new();
    let parser = keyword_parser();
    host.run(&mut vs, &parser);
    let (scopes, batches) = (host.scopes.len(), host.batches.len());
    host.lines_scanned = 0;
    host.run(&mut vs, &parser);
    assert_eq!(host.lines_scanned, 0);
    assert_eq!((host.scopes.len(), host.batches.len()), (scopes, batches));
    host.frontier = Some(0);
    host.run(&mut vs, &parser);
    assert_eq!(host.lines_scanned, 1);
    assert_eq!(host.scopes.len(), scopes);
}

#[test]
fn repeated_full_scans_are_identical() {
    let mut a = Host::new(numbered_lines(75));
    let mut b = Host::new(numbered_lines(75));
    let (mut va, mut vb) = (ViewState::new(), ViewState::new());
    a.run(&mut va, &keyword_parser());
    b.run(&mut vb, &keyword_parser());
    assert_eq!(a.batches, b.batches);
    assert_eq!(a.scopes, b.scopes);
}

#[test]
fn language_switch_resets_the_session() {
    let mut host = Host::new(numbered_lines(3));
    let mut vs = ViewState::new();
    host.run(&mut vs, &keyword_parser());
    assert_eq!(vs.tracker.len(), 1);
    assert_eq!(vs.do_highlighting("Rust"), Some(Grammar::Rust));
    assert_eq!((vs.offset, vs.spans_start), (0, 0));
    assert_eq!(vs.tracker.len(), 0);
    assert!(vs.spans.is_empty() && vs.new_scopes.is_empty());
    assert_eq!(vs.current_language, "Rust");
    assert_eq!(vs.do_highlighting("Rust"), None);
    assert_eq!(vs.do_highlighting("Plain Text"), Some(Grammar::PlainText));
    assert_eq!(vs.do_highlighting("Haskell"), Some(Grammar::Unsupported));
    let mut again = Host::new(numbered_lines(3));
    again.run(&mut vs, &keyword_parser());
    assert_eq!(again.batches[0].2[0].scope_id, 0);
}

#[test]
fn grammar_selection() {
    assert_eq!(grammar_for("Rust"), Grammar::Rust);
    assert_eq!(grammar_for("Plain Text"), Grammar::PlainText);
    assert_eq!(grammar_for("rust"), Grammar::Unsupported);
    assert_eq!(grammar_for(""), Grammar::Unsupported);
}

#[test]
fn new_session_is_plain_text_at_the_start() {
    let vs = ViewState::new();
    assert_eq!(vs.current_language, "Plain Text");
    assert_eq!((vs.offset, vs.spans_start), (0, 0));
    assert_eq!(vs.initial_state, LexerState::initial());
}

#[test]
fn lexer_state_carries_across_lines() {
    let mut host = Host::new(vec!["a /* b\n".to_string(), "c */ d\n".to_string()]);
    let mut vs = ViewState::new();
    host.run(&mut vs, &comment_parser());
    assert_eq!(host.cache[1], Some(COMMENT));
    assert_eq!(host.cache[2], Some(PLAIN));
    assert_eq!(host.scopes, vec![vec!["comment".to_string()]]);
    assert_eq!(host.batches, vec![(0, 14, vec![span(2, 4, 0), span(4, 7, 0), span(9, 11, 0)])]);
}
