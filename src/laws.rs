//! Properties that hold across calls of the session and the interner.

use vstd::prelude::*;

use crate::driver::{frontier_spec, FrontierAction};
use crate::parser::{LexerState, Parser};
use crate::session::{
    cleared, line_scan, reports, table_after_token, token_spans, Flush, ViewState,
};
use crate::tracker::{lookup_post, scopes_view, LookupResult};

verus! {

/// Once the state computed for the next line equals the one cached for it,
/// the frontier closes and no further line is scanned; a flush of a session
/// with nothing pending then reports no spans and no scopes.
pub proof fn converged_scan_stops(state: LexerState, next_line: usize, v: ViewState, f: Flush)
    requires
        v.wf(),
        v.spans_start == v.offset,
        v.new_scopes@.len() == 0,
        reports(&v, &f),
    ensures
        frontier_spec(Some((state, next_line)), Some(state)) == FrontierAction::Close,
        f.spans is None,
        f.scopes@.len() == 0,
{
    assert(scopes_view(f.scopes@).len() == 0);
}

/// The interner's and the batch's view of a session: what a flush reports
/// and what the next token depends on.
pub open spec fn same_model(a: &ViewState, b: &ViewState) -> bool {
    &&& a.same_position(b)
    &&& a.tracker@ == b.tracker@
    &&& a.spans@ == b.spans@
    &&& scopes_view(a.new_scopes@) == scopes_view(b.new_scopes@)
}

/// What recording a token does to a session, as `record_token` states it.
pub open spec fn records(
    v: &ViewState,
    w: &ViewState,
    pos: int,
    prevlen: int,
    gap: Seq<Seq<char>>,
    len: int,
    token: Seq<Seq<char>>,
) -> bool {
    &&& w.wf_upto(v.base() + pos + prevlen + len)
    &&& w.same_position(v)
    &&& w.spans@ == v.spans@ + token_spans(v.tracker@, v.base() + pos, prevlen, gap, len, token)
    &&& w.tracker@ == table_after_token(v.tracker@, prevlen, gap, token)
    &&& w.new_scopes@.len() - v.new_scopes@.len() == w.tracker@.len() - v.tracker@.len()
}

/// Two sessions in the same state that record the same token end in the same
/// state: the same spans with the same ids, and the same new scopes in the
/// same order.
pub proof fn recording_is_deterministic(
    a: ViewState,
    b: ViewState,
    a2: ViewState,
    b2: ViewState,
    pos: int,
    prevlen: int,
    gap: Seq<Seq<char>>,
    len: int,
    token: Seq<Seq<char>>,
)
    requires
        a.wf(),
        b.wf(),
        same_model(&a, &b),
        records(&a, &a2, pos, prevlen, gap, len, token),
        records(&b, &b2, pos, prevlen, gap, len, token),
    ensures
        same_model(&a2, &b2),
{
    assert(scopes_view(a.new_scopes@).len() == a.new_scopes@.len());
    assert(scopes_view(b.new_scopes@).len() == b.new_scopes@.len());
    assert(a2.new_scopes@.len() == b2.new_scopes@.len());
    let n = a2.tracker@.len();
    assert(scopes_view(a2.new_scopes@) == a2.tracker@.subrange(n - a2.new_scopes@.len(), n as int));
    assert(scopes_view(b2.new_scopes@) == b2.tracker@.subrange(n - b2.new_scopes@.len(), n as int));
}

/// What tokenizing a line does to a session, as `compute_syntax` states it.
pub open spec fn tokenizes<P: Parser>(
    p: P,
    v: &ViewState,
    w: &ViewState,
    line: Seq<u8>,
    state: LexerState,
    r: LexerState,
) -> bool {
    let scan = line_scan(p, v.tracker@, v.base(), line, 0, state, v.initial_state);
    &&& w.wf_upto(v.base() + line.len())
    &&& w.same_position(v)
    &&& w.spans@ == v.spans@ + scan.0
    &&& w.tracker@ == scan.1
    &&& r == scan.2
    &&& w.new_scopes@.len() - v.new_scopes@.len() == w.tracker@.len() - v.tracker@.len()
}

/// Two sessions in the same state that tokenize the same line with the same
/// grammar from the same lexer state end in the same state: the same end
/// state, the same spans with the same ids, and the same new scopes in the
/// same order.
pub proof fn tokenizing_is_deterministic<P: Parser>(
    p: P,
    a: ViewState,
    b: ViewState,
    a2: ViewState,
    b2: ViewState,
    line: Seq<u8>,
    state: LexerState,
    ra: LexerState,
    rb: LexerState,
)
    requires
        a.wf(),
        b.wf(),
        same_model(&a, &b),
        tokenizes(p, &a, &a2, line, state, ra),
        tokenizes(p, &b, &b2, line, state, rb),
    ensures
        same_model(&a2, &b2),
        ra == rb,
{
    assert(scopes_view(a.new_scopes@).len() == a.new_scopes@.len());
    assert(scopes_view(b.new_scopes@).len() == b.new_scopes@.len());
    assert(a2.new_scopes@.len() == b2.new_scopes@.len());
    let n = a2.tracker@.len();
    assert(scopes_view(a2.new_scopes@) == a2.tracker@.subrange(n - a2.new_scopes@.len(), n as int));
    assert(scopes_view(b2.new_scopes@) == b2.tracker@.subrange(n - b2.new_scopes@.len(), n as int));
}

/// Two sessions in the same state flush the same scopes and the same spans.
pub proof fn flushing_is_deterministic(a: ViewState, b: ViewState, fa: Flush, fb: Flush)
    requires
        same_model(&a, &b),
        reports(&a, &fa),
        reports(&b, &fb),
    ensures
        scopes_view(fa.scopes@) == scopes_view(fb.scopes@),
        fa.spans is Some <==> fb.spans is Some,
        fa.spans is Some ==> fa.spans->0.start == fb.spans->0.start && fa.spans->0.len
            == fb.spans->0.len && fa.spans->0.spans@ == fb.spans->0.spans@,
{
}

/// Two different scopes get different ids; a scope looked up twice gets the
/// same id both times, and only the first lookup reports it as new.
pub proof fn interned_ids_are_unique(
    t0: Seq<Seq<Seq<char>>>,
    a: Seq<Seq<char>>,
    ra: LookupResult,
    t1: Seq<Seq<Seq<char>>>,
    b: Seq<Seq<char>>,
    rb: LookupResult,
    t2: Seq<Seq<Seq<char>>>,
)
    requires
        t0.no_duplicates(),
        lookup_post(t0, a, ra, t1),
        lookup_post(t1, b, rb, t2),
    ensures
        ra.id() == rb.id() <==> a == b,
        a == b ==> rb is Existing,
{
    assert(t1[ra.id() as int] == a);
    assert(t1.contains(a));
    if a != b {
        if rb is Existing {
            if ra is New {
                assert(t1.no_duplicates()) by {
                    assert forall|i: int, j: int| 0 <= i < t1.len() && 0 <= j < t1.len() && i != j implies t1[i] != t1[j] by {
                        if i < t0.len() && j < t0.len() {
                        } else if i < t0.len() {
                            assert(t0.contains(t0[i]));
                        } else {
                            assert(t0.contains(t0[j]));
                        }
                    }
                }
            }
        }
    }
}

/// After a reset the interner starts over: the first scope gets id 0.
pub proof fn ids_restart_after_reset(
    t: Seq<Seq<Seq<char>>>,
    s: Seq<Seq<char>>,
    r: LookupResult,
    t2: Seq<Seq<Seq<char>>>,
)
    requires
        t.len() == 0,
        lookup_post(t, s, r, t2),
    ensures
        r == LookupResult::New(0),
{
}

/// Flushes of one session cover adjacent byte ranges: after a flush, lines
/// scanned without a resync make a batch that begins where the flushed one
/// ended.
pub proof fn flushes_are_contiguous(v0: ViewState, f1: Flush, v1: ViewState, v2: ViewState, f2: Flush)
    requires
        v0.wf(),
        reports(&v0, &f1),
        cleared(&v0, &v1, v0.offset),
        v2.spans_start == v1.spans_start,
        v2.offset >= v1.offset,
        reports(&v2, &f2),
    ensures
        f1.spans is Some ==> f1.spans->0.start + f1.spans->0.len == v1.offset,
        f2.spans is Some ==> f2.spans->0.start == v1.offset,
        f1.spans is Some && f2.spans is Some ==> f2.spans->0.start == f1.spans->0.start
            + f1.spans->0.len,
{
}

} // verus!
