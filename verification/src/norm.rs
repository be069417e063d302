//! The stream normalizer.
//!
//! It presents the parser with a token view where layout whitespace is
//! invisible except where it is semantically load-bearing, and where line
//! breaks that are ambiguous between "soft continuation" and "hard statement
//! terminator" are resolved by one token of lookahead:
//!
//! - structural tokens (the two relation operators, comma, semicolon) pass
//!   through unchanged and reset the state;
//! - a whitespace token is dropped unless it directly follows a port marker,
//!   in which case it is preserved verbatim so the parser can reject it;
//! - a line break directly after an identifier is held back; it is re-emitted
//!   before the next identifier (the break separates two statements) and
//!   dropped when the statement visibly continues (an operator or comma
//!   follows); a line break anywhere else is insignificant layout and is
//!   dropped.
//!
//! The functional model is `normalize`; the executable `Inverter` produces
//! exactly that sequence, lazily, with an output buffer of depth at most two.

use vstd::prelude::*;

use crate::lex::Token;
use crate::lex::TokenKind;
use crate::lex::TokenV;

verus! {

/// The normalizer's lookahead state.
pub enum NormState {
    Normal,
    WasPort,
    WasIdent,
    WasEndl(TokenV),
}

/// Whether a token terminates a statement.
pub open spec fn sep_kind(k: TokenKind) -> bool {
    k == TokenKind::Semicolon || k == TokenKind::EndLine
}

/// The state after the normalizer reads one token in state `st`.
pub open spec fn norm_step_state(st: NormState, t: TokenV) -> NormState {
    match t.kind {
        TokenKind::Charge => NormState::Normal,
        TokenKind::Block => NormState::Normal,
        TokenKind::Comma => NormState::Normal,
        TokenKind::Semicolon => NormState::Normal,
        TokenKind::Space => if st is WasPort {
            NormState::Normal
        } else {
            st
        },
        TokenKind::Port => NormState::WasPort,
        TokenKind::Identifier => NormState::WasIdent,
        TokenKind::EndLine => if st is WasIdent {
            NormState::WasEndl(t)
        } else {
            st
        },
    }
}

/// What the normalizer emits when it reads one token in state `st`.
pub open spec fn norm_step_emit(st: NormState, t: TokenV) -> Seq<TokenV> {
    match t.kind {
        TokenKind::Charge => seq![t],
        TokenKind::Block => seq![t],
        TokenKind::Comma => seq![t],
        TokenKind::Semicolon => seq![t],
        TokenKind::Space => if st is WasPort {
            seq![t]
        } else {
            seq![]
        },
        TokenKind::Port => seq![t],
        TokenKind::Identifier => match st {
            NormState::WasEndl(e) => seq![e, t],
            _ => seq![t],
        },
        TokenKind::EndLine => seq![],
    }
}

/// Everything the normalizer emits reading `raw` from state `st`.
pub open spec fn norm_emit(st: NormState, raw: Seq<TokenV>) -> Seq<TokenV>
    decreases raw.len(),
{
    if raw.len() == 0 {
        seq![]
    } else {
        norm_step_emit(st, raw[0]) + norm_emit(norm_step_state(st, raw[0]), raw.drop_first())
    }
}

/// The state after the normalizer reads all of `raw` from state `st`.
pub open spec fn norm_state_seq(st: NormState, raw: Seq<TokenV>) -> NormState
    decreases raw.len(),
{
    if raw.len() == 0 {
        st
    } else {
        norm_state_seq(norm_step_state(st, raw[0]), raw.drop_first())
    }
}

/// The normalized form of a raw token sequence.
pub open spec fn normalize(raw: Seq<TokenV>) -> Seq<TokenV> {
    norm_emit(NormState::Normal, raw)
}

/// Emission is compositional: the output of a concatenation is the output of
/// the first part followed by the output of the second part read from the
/// state the first part left behind.
pub proof fn lemma_norm_emit_concat(st: NormState, a: Seq<TokenV>, b: Seq<TokenV>)
    ensures
        norm_emit(st, a + b) == norm_emit(st, a) + norm_emit(norm_state_seq(st, a), b),
        norm_state_seq(st, a + b) == norm_state_seq(norm_state_seq(st, a), b),
    decreases a.len(),
{
    if a.len() == 0 {
        assert(a + b =~= b);
        assert(norm_emit(st, a) + norm_emit(st, b) =~= norm_emit(st, b));
    } else {
        assert((a + b)[0] == a[0]);
        assert((a + b).drop_first() =~= a.drop_first() + b);
        lemma_norm_emit_concat(norm_step_state(st, a[0]), a.drop_first(), b);
        assert(norm_emit(st, a + b) =~= norm_emit(st, a) + norm_emit(
            norm_state_seq(st, a),
            b,
        ));
    }
}

/// A prefix of the input yields a prefix of the output.
pub proof fn lemma_norm_prefix(raw: Seq<TokenV>, i: int)
    requires
        0 <= i <= raw.len(),
    ensures
        normalize(raw) == normalize(raw.take(i)) + norm_emit(
            norm_state_seq(NormState::Normal, raw.take(i)),
            raw.skip(i),
        ),
{
    assert(raw.take(i) + raw.skip(i) =~= raw);
    lemma_norm_emit_concat(NormState::Normal, raw.take(i), raw.skip(i));
}

/// Reading a whitespace token in any state but `WasPort` emits nothing and
/// leaves the state unchanged.
proof fn lemma_space_step(st: NormState, sp: TokenV)
    requires
        sp.kind == TokenKind::Space,
        !(st is WasPort),
    ensures
        norm_step_state(st, sp) == st,
        norm_step_emit(st, sp) == Seq::<TokenV>::empty(),
{
    assert(norm_step_emit(st, sp) =~= Seq::<TokenV>::empty());
}

/// Idempotence of whitespace, insertion direction: inserting a `Space` token
/// at a point where the normalizer is not directly behind a port marker does
/// not change the normalizer's output.
pub proof fn lemma_space_insertion(raw: Seq<TokenV>, i: int, sp: TokenV)
    requires
        0 <= i <= raw.len(),
        sp.kind == TokenKind::Space,
        !(norm_state_seq(NormState::Normal, raw.take(i)) is WasPort),
    ensures
        normalize(raw.take(i) + seq![sp] + raw.skip(i)) == normalize(raw),
{
    let a = raw.take(i);
    let b = raw.skip(i);
    let st = norm_state_seq(NormState::Normal, a);
    lemma_norm_emit_concat(NormState::Normal, a, b);
    assert(a + b =~= raw);
    lemma_norm_emit_concat(NormState::Normal, a, seq![sp] + b);
    assert(a + seq![sp] + b =~= a + (seq![sp] + b));
    lemma_space_step(st, sp);
    assert((seq![sp] + b)[0] == sp);
    assert((seq![sp] + b).drop_first() =~= b);
    assert(norm_emit(st, seq![sp] + b) =~= norm_emit(st, b));
}

/// Idempotence of whitespace, removal direction: removing a `Space` token
/// that the normalizer does not meet directly behind a port marker does not
/// change the normalizer's output.
pub proof fn lemma_space_removal(raw: Seq<TokenV>, i: int)
    requires
        0 <= i < raw.len(),
        raw[i].kind == TokenKind::Space,
        !(norm_state_seq(NormState::Normal, raw.take(i)) is WasPort),
    ensures
        normalize(raw.remove(i)) == normalize(raw),
{
    let s = raw.remove(i);
    assert(s.take(i) =~= raw.take(i));
    assert(s.skip(i) =~= raw.skip(i + 1));
    lemma_space_insertion(s, i, raw[i]);
    assert(s.take(i) + seq![raw[i]] + s.skip(i) =~= raw);
}

/// The normalizer is directly behind a port marker only when the previous
/// token is a port marker or a line break: after any other token, and at the
/// start of the input, inserting or removing whitespace is invisible.
pub proof fn lemma_state_not_port(raw: Seq<TokenV>, i: int)
    requires
        0 <= i <= raw.len(),
        i == 0 || (raw[i - 1].kind != TokenKind::Port && raw[i - 1].kind != TokenKind::EndLine),
    ensures
        !(norm_state_seq(NormState::Normal, raw.take(i)) is WasPort),
{
    if i == 0 {
        assert(raw.take(0) =~= Seq::<TokenV>::empty());
    } else {
        let a = raw.take(i - 1);
        let t = raw[i - 1];
        assert(raw.take(i) =~= a + seq![t]);
        lemma_norm_emit_concat(NormState::Normal, a, seq![t]);
        let st = norm_state_seq(NormState::Normal, a);
        let s1 = seq![t];
        assert(s1.len() == 1 && s1[0] == t);
        assert(s1.drop_first().len() == 0);
        assert(norm_state_seq(st, s1) == norm_state_seq(norm_step_state(st, t), s1.drop_first()));
        assert(norm_state_seq(norm_step_state(st, t), s1.drop_first()) == norm_step_state(st, t));
    }
}

/// Port-space preservation: a `Space` token directly after a `Port` token
/// survives into the normalizer's output, directly after that `Port`, and
/// the rest of the input is read from the `Normal` state.
pub proof fn lemma_port_space_preserved(raw: Seq<TokenV>, i: int)
    requires
        0 <= i,
        i + 1 < raw.len(),
        raw[i].kind == TokenKind::Port,
        raw[i + 1].kind == TokenKind::Space,
    ensures
        normalize(raw) == normalize(raw.take(i)) + seq![raw[i], raw[i + 1]] + norm_emit(
            NormState::Normal,
            raw.skip(i + 2),
        ),
{
    lemma_norm_prefix(raw, i);
    let st = norm_state_seq(NormState::Normal, raw.take(i));
    let b = raw.skip(i);
    assert(b[0] == raw[i]);
    assert(b.drop_first() =~= raw.skip(i + 1));
    assert(b.drop_first()[0] == raw[i + 1]);
    assert(b.drop_first().drop_first() =~= raw.skip(i + 2));
    assert(b.len() >= 2);
    let st1 = norm_step_state(st, b[0]);
    assert(st1 is WasPort);
    assert(norm_step_emit(st, b[0]) =~= seq![raw[i]]);
    assert(norm_step_emit(st1, b.drop_first()[0]) =~= seq![raw[i + 1]]);
    assert(norm_step_state(st1, b.drop_first()[0]) is Normal);
    assert(norm_emit(st1, b.drop_first()) =~= seq![raw[i + 1]] + norm_emit(
        NormState::Normal,
        raw.skip(i + 2),
    ));
    assert(norm_emit(st, b) =~= seq![raw[i], raw[i + 1]] + norm_emit(
        NormState::Normal,
        raw.skip(i + 2),
    ));
    assert(normalize(raw.take(i)) + norm_emit(st, b) =~= normalize(raw.take(i)) + seq![
        raw[i],
        raw[i + 1],
    ] + norm_emit(NormState::Normal, raw.skip(i + 2)));
}

/// A `Space` token directly before a `Port` token is dropped, provided the
/// space itself does not directly follow a port marker.
pub proof fn lemma_space_before_port_dropped(raw: Seq<TokenV>, i: int)
    requires
        0 <= i,
        i + 1 < raw.len(),
        raw[i].kind == TokenKind::Space,
        raw[i + 1].kind == TokenKind::Port,
        !(norm_state_seq(NormState::Normal, raw.take(i)) is WasPort),
    ensures
        normalize(raw.remove(i)) == normalize(raw),
{
    lemma_space_removal(raw, i);
}

/// The state of the model stream that the `Inverter` maintains: the tokens
/// already normalized but not yet handed out, the lookahead state, and the
/// raw tokens not yet read.
pub struct StreamV {
    pub pending: Seq<TokenV>,
    pub state: NormState,
    pub raw: Seq<TokenV>,
}

/// A measure that strictly shrinks whenever the stream hands a token out:
/// reading one raw token costs three and buffers at most two.
pub open spec fn stream_phi(s: StreamV) -> int {
    3 * (s.raw.len() as int) + (s.pending.len() as int)
}

/// Pull raw tokens until the buffer is non-empty or the input is exhausted.
pub open spec fn s_fill(s: StreamV) -> StreamV
    decreases s.raw.len(),
{
    if s.pending.len() > 0 || s.raw.len() == 0 {
        s
    } else {
        s_fill(
            StreamV {
                pending: norm_step_emit(s.state, s.raw[0]),
                state: norm_step_state(s.state, s.raw[0]),
                raw: s.raw.drop_first(),
            },
        )
    }
}

/// The next normalized token, if any.
pub open spec fn s_peek(s: StreamV) -> Option<TokenV> {
    let f = s_fill(s);
    if f.pending.len() > 0 {
        Some(f.pending[0])
    } else {
        None
    }
}

/// The stream after handing one normalized token out (no change at the end
/// of the input).
pub open spec fn s_advance(s: StreamV) -> StreamV {
    let f = s_fill(s);
    if f.pending.len() > 0 {
        StreamV { pending: f.pending.drop_first(), ..f }
    } else {
        f
    }
}

/// The stream after error recovery: drop buffered tokens up to and including
/// the first statement separator among them; if there is none, drop the rest
/// of the buffer and skip raw tokens up to (but not including) the next raw
/// separator, resetting the lookahead state.
pub open spec fn s_consume_end(s: StreamV) -> StreamV
    decreases s.pending.len(),
{
    if s.pending.len() == 0 {
        StreamV { pending: seq![], state: NormState::Normal, raw: skip_to_sep(s.raw) }
    } else if sep_kind(s.pending[0].kind) {
        StreamV { pending: s.pending.drop_first(), ..s }
    } else {
        s_consume_end(StreamV { pending: s.pending.drop_first(), ..s })
    }
}

/// Drop raw tokens up to (but not including) the first statement separator.
pub open spec fn skip_to_sep(raw: Seq<TokenV>) -> Seq<TokenV>
    decreases raw.len(),
{
    if raw.len() == 0 {
        raw
    } else if sep_kind(raw[0].kind) {
        raw
    } else {
        skip_to_sep(raw.drop_first())
    }
}

/// Filling never grows the measure.
pub proof fn lemma_phi_fill(s: StreamV)
    ensures
        stream_phi(s_fill(s)) <= stream_phi(s),
    decreases s.raw.len(),
{
    if s.pending.len() > 0 || s.raw.len() == 0 {
    } else {
        let n = StreamV {
            pending: norm_step_emit(s.state, s.raw[0]),
            state: norm_step_state(s.state, s.raw[0]),
            raw: s.raw.drop_first(),
        };
        assert(norm_step_emit(s.state, s.raw[0]).len() <= 2);
        lemma_phi_fill(n);
    }
}

/// Advancing never grows the measure and strictly shrinks it when a token
/// was handed out.
pub proof fn lemma_phi_advance(s: StreamV)
    ensures
        stream_phi(s_advance(s)) <= stream_phi(s),
        s_peek(s) is Some ==> stream_phi(s_advance(s)) < stream_phi(s),
{
    lemma_phi_fill(s);
}

/// Recovery never grows the measure.
pub proof fn lemma_phi_consume_end(s: StreamV)
    ensures
        stream_phi(s_consume_end(s)) <= stream_phi(s),
    decreases s.pending.len(),
{
    if s.pending.len() == 0 {
        lemma_phi_skip_to_sep(s.raw);
    } else if sep_kind(s.pending[0].kind) {
    } else {
        lemma_phi_consume_end(StreamV { pending: s.pending.drop_first(), ..s });
    }
}

proof fn lemma_phi_skip_to_sep(raw: Seq<TokenV>)
    ensures
        skip_to_sep(raw).len() <= raw.len(),
    decreases raw.len(),
{
    if raw.len() == 0 || sep_kind(raw[0].kind) {
    } else {
        lemma_phi_skip_to_sep(raw.drop_first());
    }
}

/// The executable normalizer state.
pub enum InverterState {
    Normal,
    WasPort,
    WasIdent,
    WasEndl(Token),
}

impl View for InverterState {
    type V = NormState;

    open spec fn view(&self) -> NormState {
        match self {
            InverterState::Normal => NormState::Normal,
            InverterState::WasPort => NormState::WasPort,
            InverterState::WasIdent => NormState::WasIdent,
            InverterState::WasEndl(t) => NormState::WasEndl(t@),
        }
    }
}

/// The executable normalizer: a pull-based state machine over the lexer
/// output with an output buffer of depth at most two. The buffer is kept as
/// a stack whose top is the next token out.
pub struct Inverter {
    tokens: Vec<Token>,
    index: usize,
    state: InverterState,
    stack: Vec<Token>,
}

impl View for Inverter {
    type V = StreamV;

    closed spec fn view(&self) -> StreamV {
        StreamV {
            pending: self.stack.deep_view().reverse(),
            state: self.state@,
            raw: self.tokens.deep_view().skip(self.index as int),
        }
    }
}

impl Inverter {
    /// The reading position never passes the end of the input.
    pub closed spec fn wf(&self) -> bool {
        self.index <= self.tokens.len()
    }

    pub fn new(tokens: Vec<Token>) -> (r: Inverter)
        ensures
            r.wf(),
            r@ == (StreamV {
                pending: Seq::<TokenV>::empty(),
                state: NormState::Normal,
                raw: tokens.deep_view(),
            }),
    {
        let r = Inverter { tokens, index: 0, state: InverterState::Normal, stack: Vec::new() };
        proof {
            assert(r.stack.deep_view().reverse() =~= Seq::<TokenV>::empty());
            assert(r.tokens.deep_view().skip(0) =~= r.tokens.deep_view());
        }
        r
    }

    /// Read one raw token and push what it emits onto the buffer.
    fn get(&mut self)
        requires
            old(self).wf(),
            old(self).index < old(self).tokens.len(),
        ensures
            final(self).wf(),
            final(self)@ == (StreamV {
                pending: norm_step_emit(old(self)@.state, old(self)@.raw[0]) + old(self)@.pending,
                state: norm_step_state(old(self)@.state, old(self)@.raw[0]),
                raw: old(self)@.raw.drop_first(),
            }),
    {
        let ghost pre = self@;
        let token = self.tokens[self.index].clone();
        assert(token@ == pre.raw[0]);
        self.index = self.index + 1;
        assert(self.tokens.deep_view().skip(self.index as int) =~= pre.raw.drop_first());
        match token.kind {
            TokenKind::Charge | TokenKind::Block | TokenKind::Comma | TokenKind::Semicolon => {
                self.state = InverterState::Normal;
                self.stack.push(token);
            },
            TokenKind::Space => {
                match &self.state {
                    InverterState::WasPort => {
                        self.stack.push(token);
                        self.state = InverterState::Normal;
                    },
                    _ => {},
                }
            },
            TokenKind::Port => {
                self.state = InverterState::WasPort;
                self.stack.push(token);
            },
            TokenKind::Identifier => {
                self.stack.push(token);
                let endl = match &self.state {
                    InverterState::WasEndl(e) => Some(e.clone()),
                    _ => None,
                };
                match endl {
                    Some(e) => {
                        self.stack.push(e);
                    },
                    None => {},
                }
                self.state = InverterState::WasIdent;
            },
            TokenKind::EndLine => {
                match &self.state {
                    InverterState::WasIdent => {
                        self.state = InverterState::WasEndl(token);
                    },
                    _ => {},
                }
            },
        }
        proof {
            assert(self@.pending =~= norm_step_emit(pre.state, pre.raw[0]) + pre.pending);
        }
    }

    /// Look at the next normalized token without consuming it.
    pub fn peek(&mut self) -> (r: Option<Token>)
        requires
            old(self).wf(),
        ensures
            final(self).wf(),
            final(self)@ == s_fill(old(self)@),
            r.deep_view() == s_peek(old(self)@),
    {
        while self.index < self.tokens.len() && self.stack.len() == 0
            invariant
                self.wf(),
                s_fill(self@) == s_fill(old(self)@),
            decreases self.tokens.len() - self.index,
        {
            self.get();
        }
        assert(s_fill(self@) == self@);
        match self.stack.last() {
            Some(t) => {
                let r = t.clone();
                assert(self@.pending[0] == r@);
                Some(r)
            },
            None => None,
        }
    }

    /// Consume and return the next normalized token.
    pub fn expect(&mut self) -> (r: Option<Token>)
        requires
            old(self).wf(),
        ensures
            final(self).wf(),
            final(self)@ == s_advance(old(self)@),
            r.deep_view() == s_peek(old(self)@),
    {
        let t = self.peek();
        let ghost filled = self@;
        let popped = self.stack.pop();
        proof {
            if filled.pending.len() > 0 {
                assert(self@.pending =~= filled.pending.drop_first());
            }
        }
        t
    }

    /// Error recovery: discard buffered tokens up to and including the first
    /// statement separator among them; when the buffer has none, skip raw
    /// tokens up to the next raw separator and reset the lookahead state.
    pub fn consume_end(&mut self)
        requires
            old(self).wf(),
        ensures
            final(self).wf(),
            final(self)@ == s_consume_end(old(self)@),
    {
        loop
            invariant
                self.wf(),
                s_consume_end(self@) == s_consume_end(old(self)@),
            ensures
                self.wf(),
                s_consume_end(self@) == s_consume_end(old(self)@),
                self@.pending.len() == 0,
            decreases self.stack.len(),
        {
            let ghost pre = self@;
            match self.stack.last() {
                Some(t) => {
                    let k = t.kind;
                    proof {
                        assert(pre.pending[0] == self.stack.deep_view()[self.stack@.len() - 1]);
                        assert(pre.pending[0].kind == k);
                    }
                    let _ = self.stack.pop();
                    proof {
                        assert(self@.pending =~= pre.pending.drop_first());
                        assert(self@.state == pre.state && self@.raw == pre.raw);
                    }
                    if k == TokenKind::Semicolon || k == TokenKind::EndLine {
                        proof {
                            assert(s_consume_end(pre) == self@);
                        }
                        return ;
                    }
                },
                None => {
                    proof {
                        assert(self@.pending.len() == 0);
                    }
                    break ;
                },
            }
        }
        let ghost scan_start = self@;
        loop
            invariant
                self.wf(),
                self@.pending.len() == 0,
                self@.state == scan_start.state,
                skip_to_sep(self@.raw) == skip_to_sep(scan_start.raw),
            ensures
                self.wf(),
                self@.pending.len() == 0,
                skip_to_sep(self@.raw) == skip_to_sep(scan_start.raw),
                self@.raw.len() == 0 || sep_kind(self@.raw[0].kind),
            decreases self.tokens.len() - self.index,
        {
            if self.tokens.len() <= self.index {
                proof {
                    assert(self@.raw.len() == 0);
                }
                break ;
            }
            let ghost pre = self@;
            let k = self.tokens[self.index].kind;
            assert(k == pre.raw[0].kind);
            if k == TokenKind::Semicolon || k == TokenKind::EndLine {
                break ;
            } else {
                self.index = self.index + 1;
                proof {
                    assert(self@.raw =~= pre.raw.drop_first());
                }
            }
        }
        self.state = InverterState::Normal;
        proof {
            assert(skip_to_sep(self@.raw) == self@.raw);
            assert(self@.raw =~= skip_to_sep(scan_start.raw));
            assert(self@.pending =~= Seq::<TokenV>::empty());
            assert(s_consume_end(scan_start) == self@);
        }
    }
}

} // verus!
