//! Per-view highlighting session: the batch of pending spans and scopes, the
//! line tokenizer, and the flush that hands a batch to the renderer.

use vstd::prelude::*;

use crate::parser::{LexerState, Parser};
use crate::tracker::{
    identifier_for_scope, intern_id, interned, lemma_intern_id_bound, scope_view, scopes_view, Scope, ScopeTracker,
};

verus! {

/// A byte range of the current batch annotated with one interned scope id.
#[derive(Clone, Copy, Debug, PartialEq, Eq, Structural)]
pub struct ScopeSpan {
    pub start: usize,
    pub end: usize,
    pub scope_id: u32,
}

pub open spec fn span_of(start: int, end: int, id: int) -> ScopeSpan {
    ScopeSpan { start: start as usize, end: end as usize, scope_id: id as u32 }
}

/// Every span is non-empty and lies in `[lo, hi)`; spans are sorted and do
/// not overlap.
pub open spec fn spans_valid(spans: Seq<ScopeSpan>, lo: int, hi: int) -> bool {
    &&& forall|k: int|
        0 <= k < spans.len() ==> lo <= #[trigger] spans[k].start < spans[k].end <= hi
    &&& forall|k: int| 0 <= k < spans.len() - 1 ==> #[trigger] spans[k].end <= spans[k + 1].start
}

/// Whether the gap before a token gets a span.
pub open spec fn gap_emits(prevlen: int, gap: Seq<Seq<char>>) -> bool {
    prevlen > 0 && gap.len() > 0
}

/// Whether a token gets a span.
pub open spec fn token_emits(token: Seq<Seq<char>>) -> bool {
    token.len() > 0
}

/// The interner table after the gap of a token.
pub open spec fn table_after_gap(
    t: Seq<Seq<Seq<char>>>,
    prevlen: int,
    gap: Seq<Seq<char>>,
) -> Seq<Seq<Seq<char>>> {
    if gap_emits(prevlen, gap) {
        interned(t, gap)
    } else {
        t
    }
}

/// The interner table after a gap and a token.
pub open spec fn table_after_token(
    t: Seq<Seq<Seq<char>>>,
    prevlen: int,
    gap: Seq<Seq<char>>,
    token: Seq<Seq<char>>,
) -> Seq<Seq<Seq<char>>> {
    let t1 = table_after_gap(t, prevlen, gap);
    if token_emits(token) {
        interned(t1, token)
    } else {
        t1
    }
}

/// The spans that a gap of `prevlen` bytes at `at`, scoped `gap`, followed by
/// a token of `len` bytes scoped `token`, add to the batch.
pub open spec fn token_spans(
    t: Seq<Seq<Seq<char>>>,
    at: int,
    prevlen: int,
    gap: Seq<Seq<char>>,
    len: int,
    token: Seq<Seq<char>>,
) -> Seq<ScopeSpan> {
    let t1 = table_after_gap(t, prevlen, gap);
    let g = if gap_emits(prevlen, gap) {
        seq![span_of(at, at + prevlen, intern_id(t, gap))]
    } else {
        Seq::<ScopeSpan>::empty()
    };
    let k = if token_emits(token) {
        seq![span_of(at + prevlen, at + prevlen + len, intern_id(t1, token))]
    } else {
        Seq::<ScopeSpan>::empty()
    };
    g + k
}

/// Tokenizing `line` from byte `i` in lexer state `state`: the spans added,
/// the interner table after it, and the lexer state at the end of the line.
/// The line starts `base` bytes into the batch, `t` is the table before, and
/// every gap is scoped by `init`, the lexer state at the start of the batch.
pub open spec fn line_scan<P: Parser>(
    p: P,
    t: Seq<Seq<Seq<char>>>,
    base: int,
    line: Seq<u8>,
    i: int,
    state: LexerState,
    init: LexerState,
) -> (Seq<ScopeSpan>, Seq<Seq<Seq<char>>>, LexerState)
    decreases line.len() - i,
{
    if i < 0 || i >= line.len() {
        (Seq::empty(), t, state)
    } else {
        let r = p.parse_spec(line, i, state);
        if r.2 == 0 || i + r.0 + r.2 > line.len() {
            (Seq::empty(), t, state)
        } else {
            let g = p.scope_spec(init);
            let tk = p.scope_spec(r.1);
            let rest = line_scan(
                p,
                table_after_token(t, r.0 as int, g, tk),
                base,
                line,
                i + r.0 + r.2,
                r.3,
                init,
            );
            (token_spans(t, base + i, r.0 as int, g, r.2 as int, tk) + rest.0, rest.1, rest.2)
        }
    }
}

/// Highlighting state of one open view.
pub struct ViewState {
    /// Language the current grammar was chosen for.
    pub current_language: String,
    /// Scope ids of this session.
    pub tracker: ScopeTracker,
    /// Byte offset of the scan in the buffer.
    pub offset: usize,
    /// Lexer state at `spans_start`.
    pub initial_state: LexerState,
    /// Byte offset where the unflushed batch begins.
    pub spans_start: usize,
    /// Spans of the batch, relative to `spans_start`.
    pub spans: Vec<ScopeSpan>,
    /// Scopes first seen since the last flush.
    pub new_scopes: Vec<Scope>,
}

/// Spans of one batch: the byte range `[start, start + len)` and its spans,
/// relative to `start`.
pub struct SpanBatch {
    pub start: usize,
    pub len: usize,
    pub spans: Vec<ScopeSpan>,
}

/// What one flush reports to the renderer.
pub struct Flush {
    /// Newly seen scopes to register, in id order; empty if none.
    pub scopes: Vec<Scope>,
    /// The span batch, if it covers a non-empty byte range.
    pub spans: Option<SpanBatch>,
}

/// Which grammar serves a language.
#[derive(Clone, Copy, Debug, PartialEq, Eq, Structural)]
pub enum Grammar {
    Rust,
    PlainText,
    /// No grammar for the language: plain text is used and the choice is
    /// worth a diagnostic.
    Unsupported,
}

pub open spec fn grammar_spec(language_id: Seq<char>) -> Grammar {
    if language_id == "Rust"@ {
        Grammar::Rust
    } else if language_id == "Plain Text"@ {
        Grammar::PlainText
    } else {
        Grammar::Unsupported
    }
}

/// The grammar for a language id.
pub fn grammar_for(language_id: &str) -> (r: Grammar)
    ensures
        r == grammar_spec(language_id@),
{
    let l = language_id.to_owned();
    if l == "Rust".to_owned() {
        Grammar::Rust
    } else if l == "Plain Text".to_owned() {
        Grammar::PlainText
    } else {
        Grammar::Unsupported
    }
}

/// `f` reports the pending scopes of `v`, and its spans when the batch covers
/// a non-empty byte range `[spans_start, offset)`.
pub open spec fn reports(v: &ViewState, f: &Flush) -> bool {
    &&& scopes_view(f.scopes@) == scopes_view(v.new_scopes@)
    &&& (f.spans is Some <==> v.spans_start != v.offset)
    &&& (f.spans matches Some(b) ==> {
        &&& b.start == v.spans_start
        &&& b.len == v.offset - v.spans_start
        &&& b.spans@ == v.spans@
    })
}

/// `w` is `v` with an empty batch that begins at `at`.
pub open spec fn cleared(v: &ViewState, w: &ViewState, at: usize) -> bool {
    &&& w.current_language@ == v.current_language@
    &&& w.initial_state == v.initial_state
    &&& w.tracker@ == v.tracker@
    &&& w.offset == at
    &&& w.spans_start == at
    &&& w.spans@.len() == 0
    &&& w.new_scopes@.len() == 0
}

impl ViewState {
    /// A fresh session: plain text, nothing scanned, no scopes.
    pub fn new() -> (r: ViewState)
        ensures
            r.wf(),
            r.current_language@ == "Plain Text"@,
            r.offset == 0,
            r.spans_start == 0,
            r.initial_state == LexerState(0),
            r.spans@.len() == 0,
            r.new_scopes@.len() == 0,
            r.tracker@.len() == 0,
    {
        let r = ViewState {
            current_language: "Plain Text".to_owned(),
            tracker: ScopeTracker::new(),
            offset: 0,
            initial_state: LexerState::initial(),
            spans_start: 0,
            spans: Vec::new(),
            new_scopes: Vec::new(),
        };
        assert(scopes_view(r.new_scopes@) =~= r.tracker@.subrange(0, 0));
        r
    }

    /// Starts highlighting over from the beginning of the buffer for
    /// `language_id`: the scan position, the batch and the interner are reset.
    /// Returns the grammar to switch to when the language changed.
    pub fn do_highlighting(&mut self, language_id: &str) -> (r: Option<Grammar>)
        ensures
            final(self).wf(),
            final(self).current_language@ == language_id@,
            final(self).offset == 0,
            final(self).spans_start == 0,
            final(self).initial_state == LexerState(0),
            final(self).spans@.len() == 0,
            final(self).new_scopes@.len() == 0,
            final(self).tracker@.len() == 0,
            r == if old(self).current_language@ == language_id@ {
                None
            } else {
                Some(grammar_spec(language_id@))
            },
    {
        self.offset = 0;
        self.spans_start = 0;
        self.initial_state = LexerState::initial();
        self.spans = Vec::new();
        self.new_scopes = Vec::new();
        self.tracker = ScopeTracker::new();
        assert(scopes_view(self.new_scopes@) =~= self.tracker@.subrange(0, 0));
        let lang = language_id.to_owned();
        if lang == self.current_language {
            None
        } else {
            self.current_language = lang;
            Some(grammar_for(language_id))
        }
    }

    /// Hands the batch to the renderer: the scopes first seen since the last
    /// flush, and the spans if the batch covers any bytes. The next batch
    /// begins at the current offset.
    pub fn flush_spans(&mut self) -> (r: Flush)
        requires
            old(self).wf(),
        ensures
            final(self).wf(),
            reports(old(self), &r),
            cleared(old(self), final(self), old(self).offset),
            r.spans matches Some(b) ==> spans_valid(b.spans@, 0, b.len as int),
    {
        let mut scopes: Vec<Scope> = Vec::new();
        std::mem::swap(&mut scopes, &mut self.new_scopes);
        let spans = if self.spans_start != self.offset {
            let mut taken: Vec<ScopeSpan> = Vec::new();
            std::mem::swap(&mut taken, &mut self.spans);
            Some(SpanBatch { start: self.spans_start, len: self.offset - self.spans_start, spans: taken })
        } else {
            assert(self.spans@.len() == 0) by {
                if self.spans@.len() > 0 {
                    assert(0 <= self.spans@[0].start < self.spans@[0].end <= 0);
                }
            }
            self.spans = Vec::new();
            None
        };
        self.spans_start = self.offset;
        assert(scopes_view(self.new_scopes@) =~= self.tracker@.subrange(
            self.tracker@.len() as int,
            self.tracker@.len() as int,
        ));
        Flush { scopes, spans }
    }

    /// Follows an edit that moved the line the scan resumes at to byte
    /// `offset`: the batch so far is flushed and a new one begins there, so
    /// that no span is reported at stale coordinates.
    pub fn resync(&mut self, offset: usize) -> (r: Option<Flush>)
        requires
            old(self).wf(),
        ensures
            final(self).wf(),
            r is Some <==> offset != old(self).offset,
            r matches Some(f) ==> reports(old(self), &f) && cleared(old(self), final(self), offset),
            r is None ==> *final(self) == *old(self),
    {
        if offset != self.offset {
            let f = self.flush_spans();
            self.offset = offset;
            self.spans_start = offset;
            Some(f)
        } else {
            None
        }
    }

    /// Tokenizes the frontier line `line_num`, whose text is `line` (`None`
    /// when it could not be read) and which starts in lexer state `state`,
    /// and moves the scan past it. Returns the next frontier candidate: the
    /// end-of-line state and the next line number, when the line ends with a
    /// newline.
    pub fn scan_line<P: Parser>(
        &mut self,
        parser: &P,
        line_num: usize,
        line: Option<&[u8]>,
        state: LexerState,
    ) -> (r: Option<(LexerState, usize)>)
        requires
            old(self).wf(),
            line_num < usize::MAX,
            line matches Some(l) ==> l@.len() > 0 ==> old(self).offset + l@.len() <= usize::MAX
                && old(self).tracker@.len() + 2 * l@.len() < u32::MAX,
        ensures
            final(self).wf(),
            line is None || line->0@.len() == 0 ==> r is None && *final(self) == *old(self),
            line is Some && line->0@.len() > 0 ==> {
                let scan = line_scan(
                    *parser,
                    old(self).tracker@,
                    old(self).base(),
                    line->0@,
                    0,
                    state,
                    old(self).initial_state,
                );
                &&& final(self).offset == old(self).offset + line->0@.len()
                &&& final(self).spans_start == old(self).spans_start
                &&& final(self).initial_state == old(self).initial_state
                &&& final(self).current_language@ == old(self).current_language@
                &&& final(self).spans@ == old(self).spans@ + scan.0
                &&& final(self).tracker@ == scan.1
                &&& forall|k: int|
                    old(self).spans@.len() <= k < final(self).spans@.len() ==> old(self).base()
                        <= #[trigger] final(self).spans@[k].start
                &&& (r is Some <==> line->0@.last() == 10u8)
                &&& (r matches Some(c) ==> c.0 == scan.2 && c.1 == line_num + 1)
            },
    {
        match line {
            None => None,
            Some(text) => {
                if text.len() == 0 {
                    None
                } else {
                    let new_state = self.compute_syntax(parser, text, state);
                    self.offset = self.offset + text.len();
                    if text[text.len() - 1] == 10u8 {
                        Some((new_state, line_num + 1))
                    } else {
                        None
                    }
                }
            },
        }
    }

    /// Well-formed, with spans ending at most `hi` bytes into the batch.
    pub open spec fn wf_upto(&self, hi: int) -> bool {
        &&& self.tracker.wf()
        &&& self.spans_start <= self.offset
        &&& spans_valid(self.spans@, 0, hi)
        &&& forall|k: int|
            0 <= k < self.spans@.len() ==> #[trigger] self.spans@[k].scope_id < self.tracker@.len()
        &&& self.new_scopes@.len() <= self.tracker@.len()
        &&& scopes_view(self.new_scopes@) == self.tracker@.subrange(
            self.tracker@.len() - self.new_scopes@.len(),
            self.tracker@.len() as int,
        )
    }

    /// The session invariant: the batch lies in `[spans_start, offset)`, and
    /// the pending scopes are the newest entries of the interner.
    pub open spec fn wf(&self) -> bool {
        self.wf_upto(self.offset - self.spans_start)
    }

    /// Byte position, relative to the batch, where the current line begins.
    pub open spec fn base(&self) -> int {
        self.offset - self.spans_start
    }

    /// Same language, offsets and initial state.
    pub open spec fn same_position(&self, other: &ViewState) -> bool {
        &&& self.current_language@ == other.current_language@
        &&& self.offset == other.offset
        &&& self.spans_start == other.spans_start
        &&& self.initial_state == other.initial_state
    }

    /// Records one token found at byte `pos` of the current line: a gap of
    /// `prevlen` bytes scoped `gap_scope`, then `len` bytes scoped
    /// `token_scope`. Empty scopes produce no span.
    pub fn record_token(&mut self, pos: usize, prevlen: usize, gap_scope: Scope, len: usize, token_scope: Scope)
        requires
            old(self).wf_upto(old(self).base() + pos),
            old(self).base() + pos + prevlen + len <= usize::MAX,
            old(self).tracker@.len() + 2 <= u32::MAX,
            len > 0,
        ensures
            final(self).wf_upto(old(self).base() + pos + prevlen + len),
            final(self).same_position(old(self)),
            final(self).spans@ == old(self).spans@ + token_spans(
                old(self).tracker@,
                old(self).base() + pos,
                prevlen as int,
                scope_view(gap_scope),
                len as int,
                scope_view(token_scope),
            ),
            final(self).tracker@ == table_after_token(
                old(self).tracker@,
                prevlen as int,
                scope_view(gap_scope),
                scope_view(token_scope),
            ),
            final(self).new_scopes@.len() - old(self).new_scopes@.len() == final(self).tracker@.len()
                - old(self).tracker@.len(),
    {
        let ghost t0 = self.tracker@;
        let ghost sp0 = self.spans@;
        let ghost g = scope_view(gap_scope);
        let ghost tk = scope_view(token_scope);
        let at = self.offset - self.spans_start + pos;
        if prevlen > 0 && gap_scope.len() > 0 {
            self.push_span(at, at + prevlen, gap_scope);
        } else {
            proof {
                lemma_spans_widen(self.spans@, 0, at as int, at + prevlen);
            }
        }
        let ghost sp1 = self.spans@;
        if token_scope.len() > 0 {
            self.push_span(at + prevlen, at + prevlen + len, token_scope);
        } else {
            proof {
                lemma_spans_widen(self.spans@, 0, at + prevlen, at + prevlen + len);
            }
        }
        assert(self.spans@ =~= sp0 + token_spans(t0, at as int, prevlen as int, g, len as int, tk));
    }

    /// Tokenizes one line that starts at `offset` in lexer state `state`,
    /// appending its spans to the batch, and returns the lexer state at its
    /// end. Each gap is scoped by the batch's initial state, each token by the
    /// state the grammar gave for it; empty scopes give no span.
    pub fn compute_syntax<P: Parser>(&mut self, parser: &P, line: &[u8], state: LexerState) -> (r: LexerState)
        requires
            old(self).wf(),
            old(self).offset + line@.len() <= usize::MAX,
            old(self).tracker@.len() + 2 * line@.len() < u32::MAX,
        ensures
            final(self).wf_upto(old(self).base() + line@.len()),
            final(self).same_position(old(self)),
            ({
                let scan = line_scan(
                    *parser,
                    old(self).tracker@,
                    old(self).base(),
                    line@,
                    0,
                    state,
                    old(self).initial_state,
                );
                &&& final(self).spans@ == old(self).spans@ + scan.0
                &&& final(self).tracker@ == scan.1
                &&& r == scan.2
            }),
            forall|k: int|
                old(self).spans@.len() <= k < final(self).spans@.len() ==> old(self).base()
                    <= #[trigger] final(self).spans@[k].start,
            old(self).tracker@.len() <= final(self).tracker@.len() <= old(self).tracker@.len() + 2
                * line@.len(),
            final(self).tracker@.subrange(0, old(self).tracker@.len() as int) == old(self).tracker@,
            final(self).new_scopes@.len() - old(self).new_scopes@.len() == final(self).tracker@.len()
                - old(self).tracker@.len(),
    {
        let ghost sp0 = self.spans@;
        let ghost t0 = self.tracker@;
        let ghost base = self.base();
        let ghost init = self.initial_state;
        let ghost full = line_scan(*parser, t0, base, line@, 0, state, init);
        assert(t0 == old(self).tracker@);
        let mut i: usize = 0;
        let mut state = state;
        while i < line.len()
            invariant
                self.wf_upto(base + i),
                self.same_position(old(self)),
                base == old(self).base(),
                init == self.initial_state,
                old(self).offset + line@.len() <= usize::MAX,
                t0.len() + 2 * line@.len() < u32::MAX,
                0 <= i <= line@.len(),
                self.spans@.len() >= sp0.len(),
                self.spans@.subrange(0, sp0.len() as int) == sp0,
                forall|k: int| sp0.len() <= k < self.spans@.len() ==> base <= #[trigger] self.spans@[k].start,
                t0.len() <= self.tracker@.len() <= t0.len() + 2 * i,
                self.tracker@.subrange(0, t0.len() as int) == t0,
                self.new_scopes@.len() - old(self).new_scopes@.len() == self.tracker@.len() - t0.len(),
                ({
                    let rest = line_scan(*parser, self.tracker@, base, line@, i as int, state, init);
                    &&& sp0 + full.0 == self.spans@ + rest.0
                    &&& full.1 == rest.1
                    &&& full.2 == rest.2
                }),
            decreases line@.len() - i,
        {
            let ghost rest = line_scan(*parser, self.tracker@, base, line@, i as int, state, init);
            let (prevlen, s0, len, s1) = parser.parse(line, i, state);
            let gap_scope = if prevlen > 0 {
                parser.get_scope_for_state(self.initial_state)
            } else {
                Vec::new()
            };
            let token_scope = parser.get_scope_for_state(s0);
            let ghost sp1 = self.spans@;
            let ghost t1 = self.tracker@;
            self.record_token(i, prevlen, gap_scope, len, token_scope);
            proof {
                let g = parser.scope_spec(init);
                let tk = scope_view(token_scope);
                let ts = token_spans(t1, base + i, prevlen as int, g, len as int, tk);
                assert(ts == token_spans(
                    t1,
                    base + i,
                    prevlen as int,
                    scope_view(gap_scope),
                    len as int,
                    tk,
                ));
                assert(table_after_token(t1, prevlen as int, g, tk) == table_after_token(
                    t1,
                    prevlen as int,
                    scope_view(gap_scope),
                    tk,
                ));
                let next = line_scan(
                    *parser,
                    self.tracker@,
                    base,
                    line@,
                    i + prevlen + len,
                    s1,
                    init,
                );
                assert(rest.0 == ts + next.0);
                assert(self.spans@ + next.0 =~= sp1 + (ts + next.0));
                lemma_token_spans_from(t1, base + i, prevlen as int, g, len as int, tk);
                lemma_table_after_token_grows(t1, prevlen as int, g, tk);
                assert(self.spans@.subrange(0, sp0.len() as int) =~= sp1.subrange(0, sp0.len() as int));
                assert forall|k: int| sp0.len() <= k < self.spans@.len() implies base
                    <= #[trigger] self.spans@[k].start by {
                    if k < sp1.len() {
                        assert(self.spans@[k] == sp1[k]);
                    } else {
                        assert(self.spans@[k] == ts[k - sp1.len()]);
                    }
                }
                assert(self.tracker@.subrange(0, t0.len() as int) =~= self.tracker@.subrange(0, t1.len() as int).subrange(0, t0.len() as int));
            }
            i = i + prevlen + len;
            state = s1;
        }
        assert(sp0 + full.0 =~= self.spans@ + Seq::<ScopeSpan>::empty());
        state
    }

    /// Appends a span `[start, end)` for `scope`, interning the scope.
    fn push_span(&mut self, start: usize, end: usize, scope: Scope)
        requires
            old(self).wf_upto(start as int),
            start < end,
            old(self).tracker@.len() < u32::MAX,
        ensures
            final(self).wf_upto(end as int),
            final(self).same_position(old(self)),
            final(self).spans@ == old(self).spans@.push(
                span_of(start as int, end as int, intern_id(old(self).tracker@, scope_view(scope))),
            ),
            final(self).tracker@ == interned(old(self).tracker@, scope_view(scope)),
            final(self).new_scopes@.len() - old(self).new_scopes@.len() == final(self).tracker@.len()
                - old(self).tracker@.len(),
    {
        let ghost t0 = self.tracker@;
        let ghost sp0 = self.spans@;
        let ghost sv = scope_view(scope);
        let ghost nsv = scopes_view(self.new_scopes@);
        let scope_id = identifier_for_scope(&mut self.tracker, &mut self.new_scopes, scope);
        let span = ScopeSpan { start, end, scope_id };
        self.spans.push(span);
        proof {
            lemma_pending_suffix(t0, nsv, sv);
            lemma_intern_id_bound(t0, sv);
            assert forall|k: int| 0 <= k < self.spans@.len() implies #[trigger] self.spans@[k].scope_id
                < self.tracker@.len() by {
                if k < sp0.len() {
                    assert(sp0[k].scope_id < t0.len());
                }
            }
            lemma_spans_push(sp0, 0, start as int, span, end as int);
        }
    }
}

/// The spans of one token start no earlier than the token's gap.
pub proof fn lemma_token_spans_from(
    t: Seq<Seq<Seq<char>>>,
    at: int,
    prevlen: int,
    gap: Seq<Seq<char>>,
    len: int,
    token: Seq<Seq<char>>,
)
    requires
        0 <= at,
        0 <= prevlen,
        0 <= len,
        at + prevlen + len <= usize::MAX,
    ensures
        forall|k: int|
            0 <= k < token_spans(t, at, prevlen, gap, len, token).len() ==> at <= #[trigger] token_spans(
                t,
                at,
                prevlen,
                gap,
                len,
                token,
            )[k].start,
{
}

/// A gap and a token add at most two entries to the interner, at its end.
pub proof fn lemma_table_after_token_grows(
    t: Seq<Seq<Seq<char>>>,
    prevlen: int,
    gap: Seq<Seq<char>>,
    token: Seq<Seq<char>>,
)
    ensures
        ({
            let t2 = table_after_token(t, prevlen, gap, token);
            t.len() <= t2.len() <= t.len() + 2 && t2.subrange(0, t.len() as int) == t
        }),
{
    let t1 = table_after_gap(t, prevlen, gap);
    lemma_intern_id_bound(t, gap);
    lemma_intern_id_bound(t1, token);
    let t2 = table_after_token(t, prevlen, gap, token);
    assert(t1.subrange(0, t.len() as int) =~= t);
    assert(t2.subrange(0, t1.len() as int) =~= t1);
    assert(t2.subrange(0, t.len() as int) =~= t1.subrange(0, t.len() as int));
}

/// A valid batch stays valid under a larger bound.
pub proof fn lemma_spans_widen(spans: Seq<ScopeSpan>, lo: int, hi: int, hi2: int)
    requires
        spans_valid(spans, lo, hi),
        hi <= hi2,
    ensures
        spans_valid(spans, lo, hi2),
{
    assert forall|k: int| 0 <= k < spans.len() implies lo <= #[trigger] spans[k].start < spans[k].end <= hi2 by {
        assert(lo <= spans[k].start < spans[k].end <= hi);
    }
}

/// A span that begins where the valid batch ends can be appended to it.
pub proof fn lemma_spans_push(spans: Seq<ScopeSpan>, lo: int, hi: int, sp: ScopeSpan, hi2: int)
    requires
        spans_valid(spans, lo, hi),
        lo <= hi <= sp.start < sp.end <= hi2,
    ensures
        spans_valid(spans.push(sp), lo, hi2),
{
    let s2 = spans.push(sp);
    assert forall|k: int| 0 <= k < s2.len() - 1 implies #[trigger] s2[k].end <= s2[k + 1].start by {
        if k < spans.len() - 1 {
            assert(spans[k].end <= spans[k + 1].start);
        } else {
            assert(lo <= spans[k].start < spans[k].end <= hi);
        }
    }
    assert forall|k: int| 0 <= k < s2.len() implies lo <= #[trigger] s2[k].start < s2[k].end <= hi2 by {
        if k < spans.len() {
            assert(lo <= spans[k].start < spans[k].end <= hi);
        }
    }
}

/// Interning keeps the pending scopes the newest entries of the table.
proof fn lemma_pending_suffix(t: Seq<Seq<Seq<char>>>, pending: Seq<Seq<Seq<char>>>, s: Seq<Seq<char>>)
    requires
        pending.len() <= t.len(),
        pending == t.subrange(t.len() - pending.len(), t.len() as int),
    ensures
        ({
            let t2 = interned(t, s);
            let p2 = if t.contains(s) { pending } else { pending.push(s) };
            p2.len() <= t2.len() && p2 == t2.subrange(t2.len() - p2.len(), t2.len() as int)
        }),
{
    if !t.contains(s) {
        assert(pending.push(s) =~= t.push(s).subrange(t.len() - pending.len(), t.len() + 1 as int));
    }
}

} // verus!
