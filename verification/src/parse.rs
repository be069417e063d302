//! The statement parser.
//!
//! A source is a sequence of statements separated by semicolons or
//! significant line breaks. A statement is `batch (operator batch)+`, where a
//! batch is a comma-separated list of id-refs and an id-ref is a bare
//! identifier or a port marker directly followed by an identifier. Each
//! adjacent pair of batches yields one connection per `(from, to)` pair, in
//! from-major order, with the operator kind that stood between them.
//!
//! The parser recovers from a malformed statement by reporting one error and
//! discarding tokens up to the next statement boundary, so one bad statement
//! never hides diagnostics from the rest of the source. Identifier kinds are
//! derived from use (port-marked sources are `InPort`, port-marked targets
//! `OutPort`, everything else `Node`) and checked against the first-recorded
//! kind of the same name.
//!
//! The functional model is `parse_spec`; the executable `parse` returns
//! exactly its value.

use vstd::prelude::*;

use crate::lex::SourcePosition;
use crate::lex::Token;
use crate::lex::TokenKind;
use crate::lex::TokenV;
use crate::norm::Inverter;
use crate::norm::NormState;
use crate::norm::StreamV;
use crate::norm::s_advance;
use crate::norm::s_consume_end;
use crate::norm::s_fill;
use crate::norm::s_peek;
use crate::norm::sep_kind;
use crate::norm::stream_phi;
use crate::norm::lemma_phi_advance;
use crate::norm::lemma_phi_consume_end;
use crate::norm::lemma_phi_fill;
use crate::translate::Connection;
use crate::translate::ConnectionV;
use crate::translate::IdentKind;
use crate::translate::Identifier;
use crate::translate::IdentifierV;

verus! {

/// A parse-time diagnostic.
#[derive(Debug, PartialEq, Eq)]
pub enum ParserError {
    /// A token appeared where the grammar forbids it.
    UnexpectedToken(SourcePosition),
    /// The input ended in the middle of a statement.
    UnexpectedEnd,
    /// The source declares no input boundary or no output boundary while the
    /// IO-minimum rule is enabled.
    IOMin,
    /// A name was used with a kind other than its first-recorded kind:
    /// name, the kind observed here, the kind recorded first.
    InconstIdKind(String, IdentKind, IdentKind),
}

/// The mathematical value of a parse-time diagnostic.
pub enum ParserErrorV {
    UnexpectedToken(SourcePosition),
    UnexpectedEnd,
    IOMin,
    InconstIdKind(Seq<char>, IdentKind, IdentKind),
}

impl View for ParserError {
    type V = ParserErrorV;

    open spec fn view(&self) -> ParserErrorV {
        match self {
            ParserError::UnexpectedToken(p) => ParserErrorV::UnexpectedToken(*p),
            ParserError::UnexpectedEnd => ParserErrorV::UnexpectedEnd,
            ParserError::IOMin => ParserErrorV::IOMin,
            ParserError::InconstIdKind(n, k, a) => ParserErrorV::InconstIdKind(n@, *k, *a),
        }
    }
}

impl DeepView for ParserError {
    type V = ParserErrorV;

    open spec fn deep_view(&self) -> ParserErrorV {
        self@
    }
}

/// The kind of operator that introduced an id-ref into the statement:
/// one of the two relations, or the comma inside a batch.
#[derive(Clone, Copy, PartialEq, Eq, Structural, Debug)]
pub enum OperatorKind {
    Charge,
    Block,
    Comma,
}

/// An id-ref as the batches hold it: a name and whether it was port-marked.
struct IdPair(String, bool);

impl View for IdPair {
    type V = (Seq<char>, bool);

    closed spec fn view(&self) -> (Seq<char>, bool) {
        (self.0@, self.1)
    }
}

impl Clone for IdPair {
    fn clone(&self) -> (r: IdPair)
        ensures
            r@ == self@,
    {
        IdPair(self.0.clone(), self.1)
    }
}

/// The parser's whole state, as the model sees it: the token stream, the
/// connections and errors accumulated so far, the sliding pair of batches
/// with the operator kind between them, and the name registry.
pub struct ParseCfg {
    pub strm: StreamV,
    pub conns: Seq<ConnectionV>,
    pub errs: Seq<ParserErrorV>,
    pub bfrom: Seq<(Seq<char>, bool)>,
    pub bto: Seq<(Seq<char>, bool)>,
    pub charge: bool,
    pub reg: Seq<(Seq<char>, IdentKind)>,
}

/// The first-recorded kind of a name, if any.
pub open spec fn reg_lookup(reg: Seq<(Seq<char>, IdentKind)>, name: Seq<char>) -> Option<
    IdentKind,
>
    decreases reg.len(),
{
    if reg.len() == 0 {
        None
    } else if reg[0].0 == name {
        Some(reg[0].1)
    } else {
        reg_lookup(reg.drop_first(), name)
    }
}

/// Whether the registry records some name with the given kind.
pub open spec fn has_kind(reg: Seq<(Seq<char>, IdentKind)>, kind: IdentKind) -> bool {
    exists|i: int| 0 <= i < reg.len() && reg[i].1 == kind
}

/// The IO-minimum rule: at least one input and one output boundary.
pub open spec fn io_min_ok(reg: Seq<(Seq<char>, IdentKind)>) -> bool {
    has_kind(reg, IdentKind::InPort) && has_kind(reg, IdentKind::OutPort)
}

pub open spec fn cfg_fill(c: ParseCfg) -> ParseCfg {
    ParseCfg { strm: s_fill(c.strm), ..c }
}

pub open spec fn cfg_advance(c: ParseCfg) -> ParseCfg {
    ParseCfg { strm: s_advance(c.strm), ..c }
}

pub open spec fn cfg_err(c: ParseCfg, e: ParserErrorV) -> ParseCfg {
    ParseCfg { errs: c.errs.push(e), ..c }
}

/// Consume the next normalized token; report `UnexpectedEnd` if there is
/// none.
pub open spec fn take_token(c: ParseCfg) -> (ParseCfg, Option<TokenV>) {
    let t = s_peek(c.strm);
    let c1 = cfg_advance(c);
    match t {
        None => (cfg_err(c1, ParserErrorV::UnexpectedEnd), None),
        Some(tv) => (c1, Some(tv)),
    }
}

/// Consume the next token and require one of two kinds; report the token's
/// position otherwise.
pub open spec fn expect_kinds_spec(c: ParseCfg, a: TokenKind, b: TokenKind) -> (
    ParseCfg,
    Option<TokenV>,
) {
    let (c1, t) = take_token(c);
    match t {
        None => (c1, None),
        Some(tv) => if tv.kind == a || tv.kind == b {
            (c1, Some(tv))
        } else {
            (cfg_err(c1, ParserErrorV::UnexpectedToken(tv.position)), None)
        },
    }
}

/// What peeking for one of two kinds yields.
pub open spec fn peek_kinds_spec(c: ParseCfg, a: TokenKind, b: TokenKind) -> Option<TokenV> {
    match s_peek(c.strm) {
        Some(t) => if t.kind == a || t.kind == b {
            Some(t)
        } else {
            None
        },
        None => None,
    }
}

/// Parse one id-ref: a bare identifier, or a port marker directly followed
/// by an identifier.
pub open spec fn id_spec(c: ParseCfg) -> (ParseCfg, Option<(Seq<char>, bool)>) {
    let (c1, t1) = take_token(c);
    match t1 {
        None => (c1, None),
        Some(t) => if t.kind == TokenKind::Identifier {
            (c1, Some((t.text, false)))
        } else if t.kind == TokenKind::Port {
            let (c2, t2) = expect_kinds_spec(c1, TokenKind::Identifier, TokenKind::Identifier);
            match t2 {
                None => (c2, None),
                Some(u) => (c2, Some((u.text, true))),
            }
        } else {
            (cfg_err(c1, ParserErrorV::UnexpectedToken(t.position)), None)
        },
    }
}

/// Record a derived `(name, kind)` against the registry: the first use of a
/// name fixes its kind; a later use with another kind is a non-fatal
/// inconsistency diagnostic.
pub open spec fn check_kind_spec(c: ParseCfg, name: Seq<char>, kind: IdentKind) -> ParseCfg {
    match reg_lookup(c.reg, name) {
        Some(act) => if kind != act {
            cfg_err(c, ParserErrorV::InconstIdKind(name, kind, act))
        } else {
            c
        },
        None => ParseCfg { reg: c.reg.push((name, kind)), ..c },
    }
}

/// The kind an id-ref derives from its role: port-marked sources are
/// `InPort`, port-marked targets `OutPort`, bare names `Node`.
pub open spec fn ident_kind_of(is_port: bool, is_from: bool) -> IdentKind {
    if is_port {
        if is_from {
            IdentKind::InPort
        } else {
            IdentKind::OutPort
        }
    } else {
        IdentKind::Node
    }
}

/// Emit one connection for a `(from, to)` pair, checking both endpoints
/// against the registry. The connection is emitted even when an endpoint is
/// inconsistent; the translator, not the parser, excludes it from the graph.
pub open spec fn connect_pair_spec(
    c: ParseCfg,
    f: (Seq<char>, bool),
    t: (Seq<char>, bool),
    chg: bool,
) -> ParseCfg {
    let fk = ident_kind_of(f.1, true);
    let tk = ident_kind_of(t.1, false);
    let c1 = check_kind_spec(c, f.0, fk);
    let c2 = check_kind_spec(c1, t.0, tk);
    ParseCfg {
        conns: c2.conns.push(
            ConnectionV {
                from: IdentifierV { name: f.0, kind: fk },
                to: IdentifierV { name: t.0, kind: tk },
                is_charge: chg,
            },
        ),
        ..c2
    }
}

/// Emit the connections of one `from` id-ref against a whole `to` batch.
pub open spec fn connect_row_spec(
    c: ParseCfg,
    f: (Seq<char>, bool),
    to: Seq<(Seq<char>, bool)>,
    chg: bool,
) -> ParseCfg
    decreases to.len(),
{
    if to.len() == 0 {
        c
    } else {
        connect_row_spec(connect_pair_spec(c, f, to[0], chg), f, to.drop_first(), chg)
    }
}

/// Emit the cartesian product of two batches, from-major.
pub open spec fn connect_all_spec(
    c: ParseCfg,
    from: Seq<(Seq<char>, bool)>,
    to: Seq<(Seq<char>, bool)>,
    chg: bool,
) -> ParseCfg
    decreases from.len(),
{
    if from.len() == 0 {
        c
    } else {
        connect_all_spec(connect_row_spec(c, from[0], to, chg), from.drop_first(), to, chg)
    }
}

/// Flush the sliding window: emit the pending pair of batches.
pub open spec fn connect_spec(c: ParseCfg) -> ParseCfg {
    connect_all_spec(c, c.bfrom, c.bto, c.charge)
}

/// Add one id-ref to the statement's batches: a comma extends the current
/// batch; an operator flushes the pending pair, slides the current batch
/// into `from`, and starts a new batch under the operator's kind.
pub open spec fn new_ident_spec(c: ParseCfg, id: (Seq<char>, bool), opk: OperatorKind) -> ParseCfg {
    if opk == OperatorKind::Comma {
        ParseCfg { bto: c.bto.push(id), ..c }
    } else {
        let c1 = if c.bfrom.len() > 0 {
            connect_spec(c)
        } else {
            c
        };
        ParseCfg {
            bfrom: c1.bto,
            bto: seq![id],
            charge: opk == OperatorKind::Charge,
            ..c1
        }
    }
}

pub open spec fn clear_buf(c: ParseCfg) -> ParseCfg {
    ParseCfg { bfrom: seq![], bto: seq![], ..c }
}

/// The comma loop of a batch.
pub open spec fn batch_rest_spec(c: ParseCfg) -> (ParseCfg, bool)
    decreases stream_phi(c.strm),
    via batch_rest_spec_dec
{
    let cf = cfg_fill(c);
    match s_peek(cf.strm) {
        Some(t) => if t.kind == TokenKind::Comma {
            let c1 = cfg_advance(cf);
            let (c2, ido) = id_spec(c1);
            match ido {
                None => (c2, false),
                Some(id) => batch_rest_spec(new_ident_spec(c2, id, OperatorKind::Comma)),
            }
        } else {
            (cf, true)
        },
        None => (cf, true),
    }
}

#[via_fn]
proof fn batch_rest_spec_dec(c: ParseCfg) {
    let cf = cfg_fill(c);
    lemma_phi_fill(c.strm);
    match s_peek(cf.strm) {
        Some(t) => if t.kind == TokenKind::Comma {
            lemma_fill_peek(c.strm);
            lemma_phi_advance(cf.strm);
            let c1 = cfg_advance(cf);
            let (c2, ido) = id_spec(c1);
            lemma_phi_id(c1);
            match ido {
                None => {},
                Some(id) => {
                    lemma_new_ident_strm(c2, id, OperatorKind::Comma);
                },
            }
        },
        None => {},
    }
}

/// Parse a whole batch: the first id-ref enters under the operator kind that
/// introduced the batch, the rest under commas.
pub open spec fn batch_spec(c: ParseCfg, opk: OperatorKind) -> (ParseCfg, bool) {
    let (c1, ido) = id_spec(c);
    match ido {
        None => (c1, false),
        Some(id) => batch_rest_spec(new_ident_spec(c1, id, opk)),
    }
}

/// Parse one operator and the batch after it.
pub open spec fn operation_spec(c: ParseCfg) -> (ParseCfg, bool) {
    let (c1, t) = expect_kinds_spec(c, TokenKind::Charge, TokenKind::Block);
    match t {
        None => (c1, false),
        Some(tv) => batch_spec(
            c1,
            if tv.kind == TokenKind::Charge {
                OperatorKind::Charge
            } else {
                OperatorKind::Block
            },
        ),
    }
}

/// The operator loop of a statement: further operations as long as an
/// operator token follows.
pub open spec fn ops_loop_spec(c: ParseCfg) -> (ParseCfg, bool)
    decreases stream_phi(c.strm),
    via ops_loop_spec_dec
{
    let cf = cfg_fill(c);
    match s_peek(cf.strm) {
        Some(t) => if t.kind == TokenKind::Charge || t.kind == TokenKind::Block {
            let (c1, ok) = operation_spec(cf);
            if ok {
                ops_loop_spec(c1)
            } else {
                (c1, false)
            }
        } else {
            (cf, true)
        },
        None => (cf, true),
    }
}

#[via_fn]
proof fn ops_loop_spec_dec(c: ParseCfg) {
    let cf = cfg_fill(c);
    lemma_phi_fill(c.strm);
    match s_peek(cf.strm) {
        Some(t) => if t.kind == TokenKind::Charge || t.kind == TokenKind::Block {
            lemma_fill_peek(c.strm);
            lemma_phi_operation(cf);
        },
        None => {},
    }
}

/// Skip statement separators.
pub open spec fn skip_seps_spec(c: ParseCfg) -> ParseCfg
    decreases stream_phi(c.strm),
    via skip_seps_spec_dec
{
    let cf = cfg_fill(c);
    match s_peek(cf.strm) {
        Some(t) => if sep_kind(t.kind) {
            skip_seps_spec(cfg_advance(cf))
        } else {
            cf
        },
        None => cf,
    }
}

#[via_fn]
proof fn skip_seps_spec_dec(c: ParseCfg) {
    lemma_phi_fill(c.strm);
    lemma_fill_peek(c.strm);
    lemma_phi_advance(cfg_fill(c).strm);
}

/// Parse one statement: after leading separators, a batch, one mandatory
/// operation, further operations while operators follow, then flush the
/// final pending pair. An empty rest-of-input is a valid (empty) statement;
/// any other token at statement start is reported without being consumed.
pub open spec fn statement_spec(c: ParseCfg) -> (ParseCfg, bool) {
    let c0 = skip_seps_spec(c);
    match s_peek(c0.strm) {
        None => (c0, true),
        Some(t) => if t.kind == TokenKind::Identifier || t.kind == TokenKind::Port {
            let (c1, ok1) = batch_spec(c0, OperatorKind::Charge);
            if !ok1 {
                (c1, false)
            } else {
                let (c2, ok2) = operation_spec(c1);
                if !ok2 {
                    (c2, false)
                } else {
                    let (c3, ok3) = ops_loop_spec(c2);
                    if !ok3 {
                        (c3, false)
                    } else {
                        (clear_buf(connect_spec(c3)), true)
                    }
                }
            }
        } else {
            (cfg_err(c0, ParserErrorV::UnexpectedToken(t.position)), false)
        },
    }
}

/// The separator loop after a statement: consume one separator and parse the
/// next statement, as long as separators follow.
pub open spec fn source_rest_spec(c: ParseCfg) -> (ParseCfg, bool)
    decreases stream_phi(c.strm),
    via source_rest_spec_dec
{
    let cf = cfg_fill(c);
    match s_peek(cf.strm) {
        Some(t) => if sep_kind(t.kind) {
            let c1 = cfg_advance(cf);
            let (c2, ok) = statement_spec(c1);
            if !ok {
                (c2, false)
            } else {
                source_rest_spec(c2)
            }
        } else {
            (cf, true)
        },
        None => (cf, true),
    }
}

#[via_fn]
proof fn source_rest_spec_dec(c: ParseCfg) {
    let cf = cfg_fill(c);
    lemma_phi_fill(c.strm);
    match s_peek(cf.strm) {
        Some(t) => if sep_kind(t.kind) {
            lemma_fill_peek(c.strm);
            lemma_phi_advance(cf.strm);
            lemma_phi_statement(cfg_advance(cf));
        },
        None => {},
    }
}

/// Parse a run of statements up to the next point where no separator
/// follows.
pub open spec fn source_spec(c: ParseCfg) -> (ParseCfg, bool) {
    let (c1, ok) = statement_spec(c);
    if !ok {
        (c1, false)
    } else {
        source_rest_spec(c1)
    }
}

/// Recovery at the stream level, with the batches cleared.
pub open spec fn recover_spec(c: ParseCfg) -> ParseCfg {
    clear_buf(ParseCfg { strm: s_consume_end(c.strm), ..c })
}

/// The top-level loop: parse statement runs, recovering at the next
/// statement boundary after each failed one, until the stream is exhausted.
pub open spec fn parse_loop_spec(c: ParseCfg) -> ParseCfg
    decreases stream_phi(c.strm),
{
    let cf = cfg_fill(c);
    match s_peek(cf.strm) {
        None => cf,
        Some(_) => {
            let (c1, ok) = source_spec(cf);
            let c2 = if ok {
                c1
            } else {
                recover_spec(c1)
            };
            if stream_phi(c2.strm) < stream_phi(c.strm) {
                parse_loop_spec(c2)
            } else {
                cfg_fill(c2)
            }
        },
    }
}

/// The initial parser state over a raw token sequence.
pub open spec fn init_cfg(raw: Seq<TokenV>) -> ParseCfg {
    ParseCfg {
        strm: StreamV { pending: seq![], state: NormState::Normal, raw },
        conns: seq![],
        errs: seq![],
        bfrom: seq![],
        bto: seq![],
        charge: false,
        reg: seq![],
    }
}

/// What parsing a raw token sequence yields: the connections in order, and
/// the diagnostics in order. The IO-minimum rule, when enabled, is checked
/// only when no other diagnostic exists.
pub open spec fn parse_spec(raw: Seq<TokenV>, io_min: bool) -> (
    Seq<ConnectionV>,
    Seq<ParserErrorV>,
) {
    let c = parse_loop_spec(init_cfg(raw));
    let errs = if io_min && c.errs.len() == 0 && !io_min_ok(c.reg) {
        c.errs.push(ParserErrorV::IOMin)
    } else {
        c.errs
    };
    (c.conns, errs)
}

// Measure lemmas: no parsing step grows the stream measure, and every
// consumed token strictly shrinks it.

/// Filling twice is filling once.
pub proof fn lemma_fill_idem(s: StreamV)
    ensures
        s_fill(s_fill(s)) == s_fill(s),
    decreases s.raw.len(),
{
    if s.pending.len() > 0 || s.raw.len() == 0 {
    } else {
        lemma_fill_idem(
            StreamV {
                pending: crate::norm::norm_step_emit(s.state, s.raw[0]),
                state: crate::norm::norm_step_state(s.state, s.raw[0]),
                raw: s.raw.drop_first(),
            },
        );
    }
}

/// Peeking is unaffected by filling.
pub proof fn lemma_fill_peek(s: StreamV)
    ensures
        s_peek(s_fill(s)) == s_peek(s),
        s_advance(s_fill(s)) == s_advance(s),
    decreases s.raw.len(),
{
    lemma_fill_idem(s);
}

pub proof fn lemma_phi_take(c: ParseCfg)
    ensures
        stream_phi(take_token(c).0.strm) <= stream_phi(c.strm),
        s_peek(c.strm) is Some ==> stream_phi(take_token(c).0.strm) < stream_phi(c.strm),
{
    lemma_phi_advance(c.strm);
}

pub proof fn lemma_phi_expect_kinds(c: ParseCfg, a: TokenKind, b: TokenKind)
    ensures
        stream_phi(expect_kinds_spec(c, a, b).0.strm) <= stream_phi(c.strm),
        s_peek(c.strm) is Some ==> stream_phi(expect_kinds_spec(c, a, b).0.strm) < stream_phi(
            c.strm,
        ),
{
    lemma_phi_take(c);
}

pub proof fn lemma_phi_id(c: ParseCfg)
    ensures
        stream_phi(id_spec(c).0.strm) <= stream_phi(c.strm),
        s_peek(c.strm) is Some ==> stream_phi(id_spec(c).0.strm) < stream_phi(c.strm),
{
    lemma_phi_take(c);
    let (c1, t1) = take_token(c);
    lemma_phi_expect_kinds(c1, TokenKind::Identifier, TokenKind::Identifier);
}

/// Registering an id-ref and flushing batches never touch the stream.
pub proof fn lemma_connect_row_strm(
    c: ParseCfg,
    f: (Seq<char>, bool),
    to: Seq<(Seq<char>, bool)>,
    chg: bool,
)
    ensures
        connect_row_spec(c, f, to, chg).strm == c.strm,
    decreases to.len(),
{
    if to.len() == 0 {
    } else {
        lemma_connect_row_strm(connect_pair_spec(c, f, to[0], chg), f, to.drop_first(), chg);
    }
}

pub proof fn lemma_connect_all_strm(
    c: ParseCfg,
    from: Seq<(Seq<char>, bool)>,
    to: Seq<(Seq<char>, bool)>,
    chg: bool,
)
    ensures
        connect_all_spec(c, from, to, chg).strm == c.strm,
    decreases from.len(),
{
    if from.len() == 0 {
    } else {
        lemma_connect_row_strm(c, from[0], to, chg);
        lemma_connect_all_strm(connect_row_spec(c, from[0], to, chg), from.drop_first(), to, chg);
    }
}

pub proof fn lemma_new_ident_strm(c: ParseCfg, id: (Seq<char>, bool), opk: OperatorKind)
    ensures
        new_ident_spec(c, id, opk).strm == c.strm,
{
    if opk != OperatorKind::Comma && c.bfrom.len() > 0 {
        lemma_connect_all_strm(c, c.bfrom, c.bto, c.charge);
    }
}

pub proof fn lemma_phi_batch_rest(c: ParseCfg)
    ensures
        stream_phi(batch_rest_spec(c).0.strm) <= stream_phi(c.strm),
    decreases stream_phi(c.strm),
{
    let cf = cfg_fill(c);
    lemma_phi_fill(c.strm);
    match s_peek(cf.strm) {
        Some(t) => if t.kind == TokenKind::Comma {
            lemma_fill_peek(c.strm);
            lemma_phi_advance(cf.strm);
            let c1 = cfg_advance(cf);
            let (c2, ido) = id_spec(c1);
            lemma_phi_id(c1);
            match ido {
                None => {},
                Some(id) => {
                    lemma_new_ident_strm(c2, id, OperatorKind::Comma);
                    lemma_phi_batch_rest(new_ident_spec(c2, id, OperatorKind::Comma));
                },
            }
        } else {
        },
        None => {},
    }
}

pub proof fn lemma_phi_batch(c: ParseCfg, opk: OperatorKind)
    ensures
        stream_phi(batch_spec(c, opk).0.strm) <= stream_phi(c.strm),
        s_peek(c.strm) is Some ==> stream_phi(batch_spec(c, opk).0.strm) < stream_phi(c.strm),
{
    lemma_phi_id(c);
    let (c1, ido) = id_spec(c);
    match ido {
        None => {},
        Some(id) => {
            lemma_new_ident_strm(c1, id, opk);
            lemma_phi_batch_rest(new_ident_spec(c1, id, opk));
        },
    }
}

pub proof fn lemma_phi_operation(c: ParseCfg)
    ensures
        stream_phi(operation_spec(c).0.strm) <= stream_phi(c.strm),
        s_peek(c.strm) is Some ==> stream_phi(operation_spec(c).0.strm) < stream_phi(c.strm),
{
    lemma_phi_expect_kinds(c, TokenKind::Charge, TokenKind::Block);
    let (c1, t) = expect_kinds_spec(c, TokenKind::Charge, TokenKind::Block);
    match t {
        None => {},
        Some(tv) => {
            let opk = if tv.kind == TokenKind::Charge {
                OperatorKind::Charge
            } else {
                OperatorKind::Block
            };
            lemma_phi_batch(c1, opk);
        },
    }
}

pub proof fn lemma_phi_ops_loop(c: ParseCfg)
    ensures
        stream_phi(ops_loop_spec(c).0.strm) <= stream_phi(c.strm),
    decreases stream_phi(c.strm),
{
    let cf = cfg_fill(c);
    lemma_phi_fill(c.strm);
    match s_peek(cf.strm) {
        Some(t) => if t.kind == TokenKind::Charge || t.kind == TokenKind::Block {
            lemma_fill_peek(c.strm);
            lemma_phi_operation(cf);
            let (c1, ok) = operation_spec(cf);
            if ok {
                lemma_phi_ops_loop(c1);
            }
        } else {
        },
        None => {},
    }
}

/// Skipping separators either leaves the filled stream as it is or strictly
/// shrinks the measure.
pub proof fn lemma_phi_skip_seps(c: ParseCfg)
    ensures
        stream_phi(skip_seps_spec(c).strm) <= stream_phi(c.strm),
        skip_seps_spec(c) == cfg_fill(c) || stream_phi(skip_seps_spec(c).strm) < stream_phi(
            c.strm,
        ),
        s_peek(skip_seps_spec(c).strm) == s_peek(c.strm) || stream_phi(skip_seps_spec(c).strm)
            < stream_phi(c.strm),
    decreases stream_phi(c.strm),
{
    let cf = cfg_fill(c);
    lemma_phi_fill(c.strm);
    lemma_fill_peek(c.strm);
    match s_peek(cf.strm) {
        Some(t) => if sep_kind(t.kind) {
            lemma_phi_advance(cf.strm);
            lemma_phi_skip_seps(cfg_advance(cf));
        } else {
        },
        None => {},
    }
}

/// Skipping separators leaves a filled stream behind.
pub proof fn lemma_skip_seps_filled(c: ParseCfg)
    ensures
        cfg_fill(skip_seps_spec(c)) == skip_seps_spec(c),
    decreases stream_phi(c.strm),
{
    let cf = cfg_fill(c);
    lemma_phi_fill(c.strm);
    lemma_fill_idem(c.strm);
    match s_peek(cf.strm) {
        Some(t) => if sep_kind(t.kind) {
            lemma_fill_peek(c.strm);
            lemma_phi_advance(cf.strm);
            lemma_phi_skip_seps(cfg_advance(cf));
            lemma_skip_seps_filled(cfg_advance(cf));
        } else {
        },
        None => {},
    }
}

pub proof fn lemma_phi_statement(c: ParseCfg)
    ensures
        stream_phi(statement_spec(c).0.strm) <= stream_phi(c.strm),
        s_peek(c.strm) is Some && statement_spec(c).1 ==> stream_phi(statement_spec(c).0.strm)
            < stream_phi(c.strm),
        !statement_spec(c).1 ==> stream_phi(statement_spec(c).0.strm) < stream_phi(c.strm) || (
        statement_spec(c).0.strm == s_fill(c.strm) && s_fill(c.strm).pending.len() > 0),
{
    lemma_phi_skip_seps(c);
    let c0 = skip_seps_spec(c);
    lemma_fill_peek(c.strm);
    match s_peek(c0.strm) {
        None => {},
        Some(t) => if t.kind == TokenKind::Identifier || t.kind == TokenKind::Port {
            lemma_phi_batch(c0, OperatorKind::Charge);
            let (c1, ok1) = batch_spec(c0, OperatorKind::Charge);
            if ok1 {
                lemma_phi_operation(c1);
                let (c2, ok2) = operation_spec(c1);
                if ok2 {
                    lemma_phi_ops_loop(c2);
                    let (c3, ok3) = ops_loop_spec(c2);
                    if ok3 {
                        lemma_connect_all_strm(c3, c3.bfrom, c3.bto, c3.charge);
                    }
                }
            }
        } else {
            lemma_fill_idem(c.strm);
        },
    }
}

pub proof fn lemma_phi_source_rest(c: ParseCfg)
    ensures
        stream_phi(source_rest_spec(c).0.strm) <= stream_phi(c.strm),
        !source_rest_spec(c).1 ==> stream_phi(source_rest_spec(c).0.strm) < stream_phi(c.strm),
    decreases stream_phi(c.strm),
{
    let cf = cfg_fill(c);
    lemma_phi_fill(c.strm);
    lemma_fill_peek(c.strm);
    match s_peek(cf.strm) {
        Some(t) => if sep_kind(t.kind) {
            lemma_phi_advance(cf.strm);
            let c1 = cfg_advance(cf);
            lemma_phi_statement(c1);
            let (c2, ok) = statement_spec(c1);
            if ok {
                lemma_phi_source_rest(c2);
            }
        } else {
        },
        None => {},
    }
}

/// After a whole statement run from a non-empty stream the measure has
/// strictly shrunk, and after a failed one recovery strictly shrinks it.
pub proof fn lemma_phi_source(c: ParseCfg)
    requires
        s_peek(c.strm) is Some,
    ensures
        source_spec(c).1 ==> stream_phi(source_spec(c).0.strm) < stream_phi(c.strm),
        !source_spec(c).1 ==> stream_phi(recover_spec(source_spec(c).0).strm) < stream_phi(c.strm),
{
    lemma_phi_statement(c);
    let (c1, ok1) = statement_spec(c);
    if ok1 {
        lemma_phi_source_rest(c1);
        let (c2, ok2) = source_rest_spec(c1);
        if !ok2 {
            lemma_phi_consume_end(c2.strm);
        }
    } else {
        lemma_phi_consume_end(c1.strm);
        if !(stream_phi(c1.strm) < stream_phi(c.strm)) {
            lemma_consume_end_strict(c1.strm);
        }
    }
}

/// Recovery from a stream with a buffered token strictly shrinks the
/// measure: the offending token is discarded.
pub proof fn lemma_consume_end_strict(s: StreamV)
    requires
        s.pending.len() > 0,
    ensures
        stream_phi(s_consume_end(s)) < stream_phi(s),
{
    lemma_phi_consume_end(StreamV { pending: s.pending.drop_first(), ..s });
}

/// Each loop head of the parser re-fills the stream; re-filling does not
/// change what any of the loop models yields.
pub proof fn lemma_skip_seps_fill(c: ParseCfg)
    ensures
        skip_seps_spec(cfg_fill(c)) == skip_seps_spec(c),
{
    lemma_fill_idem(c.strm);
}

pub proof fn lemma_batch_rest_fill(c: ParseCfg)
    ensures
        batch_rest_spec(cfg_fill(c)) == batch_rest_spec(c),
{
    lemma_fill_idem(c.strm);
}

pub proof fn lemma_ops_loop_fill(c: ParseCfg)
    ensures
        ops_loop_spec(cfg_fill(c)) == ops_loop_spec(c),
{
    lemma_fill_idem(c.strm);
}

pub proof fn lemma_source_rest_fill(c: ParseCfg)
    ensures
        source_rest_spec(cfg_fill(c)) == source_rest_spec(c),
{
    lemma_fill_idem(c.strm);
}

pub proof fn lemma_parse_loop_fill(c: ParseCfg)
    ensures
        parse_loop_spec(cfg_fill(c)) == parse_loop_spec(c),
{
    lemma_fill_idem(c.strm);
    let cf = cfg_fill(c);
    lemma_phi_fill(c.strm);
    match s_peek(cf.strm) {
        None => {},
        Some(_) => {
            lemma_phi_source(cf);
        },
    }
}

impl View for IdentKind {
    type V = IdentKind;

    open spec fn view(&self) -> IdentKind {
        *self
    }
}

impl DeepView for IdentKind {
    type V = IdentKind;

    open spec fn deep_view(&self) -> IdentKind {
        *self
    }
}

impl DeepView for IdPair {
    type V = (Seq<char>, bool);

    closed spec fn deep_view(&self) -> (Seq<char>, bool) {
        self@
    }
}

/// The sliding pair of batches of the statement in progress, and the kind of
/// the operator between them.
struct ConBuf {
    from: Vec<IdPair>,
    to: Vec<IdPair>,
    is_charge: bool,
}

/// The executable statement parser.
struct Parser {
    inverter: Inverter,
    connections: Vec<Connection>,
    buffer: ConBuf,
    errors: Vec<ParserError>,
    id_map: Vec<(String, IdentKind)>,
}

impl Parser {
    closed spec fn cfg(&self) -> ParseCfg {
        ParseCfg {
            strm: self.inverter@,
            conns: self.connections.deep_view(),
            errs: self.errors.deep_view(),
            bfrom: self.buffer.from.deep_view(),
            bto: self.buffer.to.deep_view(),
            charge: self.buffer.is_charge,
            reg: self.id_map.deep_view(),
        }
    }

    closed spec fn wf(&self) -> bool {
        self.inverter.wf()
    }

    fn new(tokens: Vec<Token>) -> (r: Parser)
        ensures
            r.wf(),
            r.cfg() == init_cfg(tokens.deep_view()),
    {
        let r = Parser {
            inverter: Inverter::new(tokens),
            connections: Vec::new(),
            buffer: ConBuf { from: Vec::new(), to: Vec::new(), is_charge: false },
            errors: Vec::new(),
            id_map: Vec::new(),
        };
        proof {
            assert(r.connections.deep_view() =~= Seq::<ConnectionV>::empty());
            assert(r.errors.deep_view() =~= Seq::<ParserErrorV>::empty());
            assert(r.buffer.from.deep_view() =~= Seq::<(Seq<char>, bool)>::empty());
            assert(r.buffer.to.deep_view() =~= Seq::<(Seq<char>, bool)>::empty());
            assert(r.id_map.deep_view() =~= Seq::<(Seq<char>, IdentKind)>::empty());
        }
        r
    }

    fn err_unexpected_token(&mut self, token: &Token)
        requires
            old(self).wf(),
        ensures
            final(self).wf(),
            final(self).cfg() == cfg_err(
                old(self).cfg(),
                ParserErrorV::UnexpectedToken(token@.position),
            ),
    {
        self.errors.push(ParserError::UnexpectedToken(token.position()));
        proof {
            assert(self.errors.deep_view() =~= old(self).errors.deep_view().push(
                ParserErrorV::UnexpectedToken(token@.position),
            ));
        }
    }

    fn err_unexpected_end(&mut self)
        requires
            old(self).wf(),
        ensures
            final(self).wf(),
            final(self).cfg() == cfg_err(old(self).cfg(), ParserErrorV::UnexpectedEnd),
    {
        self.errors.push(ParserError::UnexpectedEnd);
        proof {
            assert(self.errors.deep_view() =~= old(self).errors.deep_view().push(
                ParserErrorV::UnexpectedEnd,
            ));
        }
    }

    fn err_inconst_ident_kind(&mut self, name: String, kind: IdentKind, act_kind: IdentKind)
        requires
            old(self).wf(),
        ensures
            final(self).wf(),
            final(self).cfg() == cfg_err(
                old(self).cfg(),
                ParserErrorV::InconstIdKind(name@, kind, act_kind),
            ),
    {
        let ghost n = name@;
        self.errors.push(ParserError::InconstIdKind(name, kind, act_kind));
        proof {
            assert(self.errors.deep_view() =~= old(self).errors.deep_view().push(
                ParserErrorV::InconstIdKind(n, kind, act_kind),
            ));
        }
    }

    fn peek_token(&mut self) -> (r: Option<Token>)
        requires
            old(self).wf(),
        ensures
            final(self).wf(),
            final(self).cfg() == cfg_fill(old(self).cfg()),
            r.deep_view() == s_peek(old(self).cfg().strm),
    {
        self.inverter.peek()
    }

    fn consume_token(&mut self)
        requires
            old(self).wf(),
        ensures
            final(self).wf(),
            final(self).cfg() == cfg_advance(old(self).cfg()),
    {
        let _ = self.inverter.expect();
    }

    fn expect_token(&mut self) -> (r: Option<Token>)
        requires
            old(self).wf(),
        ensures
            final(self).wf(),
            final(self).cfg() == take_token(old(self).cfg()).0,
            r.deep_view() == take_token(old(self).cfg()).1,
    {
        match self.inverter.expect() {
            None => {
                self.err_unexpected_end();
                None
            },
            Some(token) => Some(token),
        }
    }

    fn expect_kinds(&mut self, a: TokenKind, b: TokenKind) -> (r: Option<Token>)
        requires
            old(self).wf(),
        ensures
            final(self).wf(),
            final(self).cfg() == expect_kinds_spec(old(self).cfg(), a, b).0,
            r.deep_view() == expect_kinds_spec(old(self).cfg(), a, b).1,
    {
        match self.expect_token() {
            None => None,
            Some(token) => {
                if token.kind == a || token.kind == b {
                    Some(token)
                } else {
                    self.err_unexpected_token(&token);
                    None
                }
            },
        }
    }

    fn peek_kinds(&mut self, a: TokenKind, b: TokenKind) -> (r: Option<Token>)
        requires
            old(self).wf(),
        ensures
            final(self).wf(),
            final(self).cfg() == cfg_fill(old(self).cfg()),
            r.deep_view() == peek_kinds_spec(old(self).cfg(), a, b),
    {
        match self.peek_token() {
            None => None,
            Some(token) => {
                if token.kind == a || token.kind == b {
                    Some(token)
                } else {
                    None
                }
            },
        }
    }

    fn expect_id(&mut self) -> (r: Option<IdPair>)
        requires
            old(self).wf(),
        ensures
            final(self).wf(),
            final(self).cfg() == id_spec(old(self).cfg()).0,
            r.deep_view() == id_spec(old(self).cfg()).1,
    {
        match self.expect_token() {
            None => None,
            Some(token) => {
                match token.kind {
                    TokenKind::Identifier => Some(IdPair(token.text, false)),
                    TokenKind::Port => {
                        match self.expect_kinds(TokenKind::Identifier, TokenKind::Identifier) {
                            None => None,
                            Some(t2) => Some(IdPair(t2.text, true)),
                        }
                    },
                    _ => {
                        self.err_unexpected_token(&token);
                        None
                    },
                }
            },
        }
    }

    /// The first-recorded kind of a name, if any.
    fn lookup(&self, name: &String) -> (r: Option<IdentKind>)
        ensures
            r == reg_lookup(self.cfg().reg, name@),
    {
        let ghost reg = self.id_map.deep_view();
        proof {
            assert(reg.skip(0) =~= reg);
        }
        let mut i: usize = 0;
        while i < self.id_map.len()
            invariant
                i <= self.id_map.len(),
                reg == self.id_map.deep_view(),
                reg_lookup(reg, name@) == reg_lookup(reg.skip(i as int), name@),
            decreases self.id_map.len() - i,
        {
            let e = &self.id_map[i];
            if e.0 == *name {
                proof {
                    assert(reg.skip(i as int)[0] == reg[i as int]);
                }
                return Some(e.1);
            }
            proof {
                assert(reg.skip(i as int)[0] == reg[i as int]);
                assert(reg.skip(i as int).drop_first() =~= reg.skip(i as int + 1));
            }
            i = i + 1;
        }
        proof {
            assert(reg.skip(self.id_map.len() as int) =~= Seq::<(Seq<char>, IdentKind)>::empty());
        }
        None
    }

    fn check_ident_kind(&mut self, name: &String, kind: IdentKind)
        requires
            old(self).wf(),
        ensures
            final(self).wf(),
            final(self).cfg() == check_kind_spec(old(self).cfg(), name@, kind),
    {
        match self.lookup(name) {
            Some(act_kind) => {
                if kind != act_kind {
                    self.err_inconst_ident_kind(name.clone(), kind, act_kind);
                }
            },
            None => {
                self.id_map.push((name.clone(), kind));
                proof {
                    assert(self.id_map.deep_view() =~= old(self).id_map.deep_view().push(
                        (name@, kind),
                    ));
                }
            },
        }
    }

    fn get_ident_kind(&self, is_port: bool, is_from: bool) -> (r: IdentKind)
        ensures
            r == ident_kind_of(is_port, is_from),
    {
        if is_port {
            if is_from {
                IdentKind::InPort
            } else {
                IdentKind::OutPort
            }
        } else {
            IdentKind::Node
        }
    }

    fn connect_pair(&mut self, from: IdPair, to: IdPair)
        requires
            old(self).wf(),
        ensures
            final(self).wf(),
            final(self).cfg() == connect_pair_spec(
                old(self).cfg(),
                from@,
                to@,
                old(self).cfg().charge,
            ),
    {
        let ghost fv = from@;
        let ghost tv = to@;
        let from_kind = self.get_ident_kind(from.1, true);
        let to_kind = self.get_ident_kind(to.1, false);
        self.check_ident_kind(&from.0, from_kind);
        self.check_ident_kind(&to.0, to_kind);
        let f = Identifier::new(from.0, from_kind);
        let t = Identifier::new(to.0, to_kind);
        let conn = Connection::new(f, t, self.buffer.is_charge);
        let ghost cv = conn@;
        self.connections.push(conn);
        proof {
            assert(self.connections.deep_view() =~= old(self).connections.deep_view().push(cv));
        }
    }

    /// Emit one connection for every pair of the sliding window, from-major.
    fn connect(&mut self)
        requires
            old(self).wf(),
        ensures
            final(self).wf(),
            final(self).cfg() == connect_spec(old(self).cfg()),
    {
        let ghost c0 = self.cfg();
        proof {
            assert(c0.bfrom.skip(0) =~= c0.bfrom);
        }
        let mut fi: usize = 0;
        while fi < self.buffer.from.len()
            invariant
                self.wf(),
                fi <= self.buffer.from.len(),
                self.cfg().bfrom == c0.bfrom,
                self.cfg().bto == c0.bto,
                self.cfg().charge == c0.charge,
                connect_all_spec(
                    self.cfg(),
                    c0.bfrom.skip(fi as int),
                    c0.bto,
                    c0.charge,
                ) == connect_all_spec(c0, c0.bfrom, c0.bto, c0.charge),
            decreases self.buffer.from.len() - fi,
        {
            let f = self.buffer.from[fi].clone();
            let ghost c_row = self.cfg();
            proof {
                assert(c0.bto.skip(0) =~= c0.bto);
                assert(f@ == c0.bfrom[fi as int]);
            }
            let mut ti: usize = 0;
            while ti < self.buffer.to.len()
                invariant
                    self.wf(),
                    ti <= self.buffer.to.len(),
                    f@ == c0.bfrom[fi as int],
                    fi < self.buffer.from.len(),
                    self.cfg().bfrom == c0.bfrom,
                    self.cfg().bto == c0.bto,
                    self.cfg().charge == c0.charge,
                    connect_row_spec(
                        self.cfg(),
                        f@,
                        c0.bto.skip(ti as int),
                        c0.charge,
                    ) == connect_row_spec(c_row, f@, c0.bto, c0.charge),
                decreases self.buffer.to.len() - ti,
            {
                let t = self.buffer.to[ti].clone();
                let ghost pre = self.cfg();
                self.connect_pair(f.clone(), t);
                proof {
                    assert(t@ == c0.bto[ti as int]);
                    assert(c0.bto.skip(ti as int)[0] == c0.bto[ti as int]);
                    assert(c0.bto.skip(ti as int).drop_first() =~= c0.bto.skip(ti as int + 1));
                    assert(self.buffer.from.deep_view() == c0.bfrom);
                    assert(self.buffer.from@.len() == self.buffer.from.deep_view().len());
                    assert(self.buffer.to@.len() == self.buffer.to.deep_view().len());
                }
                ti = ti + 1;
            }
            proof {
                assert(c0.bto.skip(self.buffer.to.len() as int) =~= Seq::<(Seq<char>, bool)>::empty());
                assert(connect_row_spec(c_row, f@, c0.bto, c0.charge) == self.cfg());
                assert(c0.bfrom.skip(fi as int)[0] == c0.bfrom[fi as int]);
                assert(c0.bfrom.skip(fi as int).drop_first() =~= c0.bfrom.skip(fi as int + 1));
            }
            fi = fi + 1;
        }
        proof {
            assert(c0.bfrom.skip(self.buffer.from.len() as int) =~= Seq::<(Seq<char>, bool)>::empty());
        }
    }

    fn clear_buffer(&mut self)
        requires
            old(self).wf(),
        ensures
            final(self).wf(),
            final(self).cfg() == clear_buf(old(self).cfg()),
    {
        self.buffer.from = Vec::new();
        self.buffer.to = Vec::new();
        proof {
            assert(self.buffer.from.deep_view() =~= Seq::<(Seq<char>, bool)>::empty());
            assert(self.buffer.to.deep_view() =~= Seq::<(Seq<char>, bool)>::empty());
        }
    }

    /// Slide the window: a comma extends the current batch; an operator
    /// flushes the pending pair and opens a new batch under its kind.
    fn new_ident(&mut self, id: IdPair, operator_kind: OperatorKind)
        requires
            old(self).wf(),
        ensures
            final(self).wf(),
            final(self).cfg() == new_ident_spec(old(self).cfg(), id@, operator_kind),
    {
        let ghost idv = id@;
        if operator_kind == OperatorKind::Comma {
            self.buffer.to.push(id);
            proof {
                assert(self.buffer.to.deep_view() =~= old(self).buffer.to.deep_view().push(idv));
            }
        } else {
            if self.buffer.from.len() > 0 {
                self.connect();
            }
            let ghost c1 = self.cfg();
            proof {
                lemma_connect_all_strm(
                    old(self).cfg(),
                    old(self).cfg().bfrom,
                    old(self).cfg().bto,
                    old(self).cfg().charge,
                );
            }
            let mut moved: Vec<IdPair> = Vec::new();
            core::mem::swap(&mut moved, &mut self.buffer.to);
            self.buffer.from = moved;
            self.buffer.is_charge = operator_kind == OperatorKind::Charge;
            self.buffer.to.push(id);
            proof {
                assert(self.buffer.from.deep_view() == c1.bto);
                assert(self.buffer.to.deep_view() =~= seq![idv]);
            }
        }
    }

    fn expect_batch(&mut self, operator_kind: OperatorKind) -> (r: Option<()>)
        requires
            old(self).wf(),
        ensures
            final(self).wf(),
            final(self).cfg() == batch_spec(old(self).cfg(), operator_kind).0,
            r is Some <==> batch_spec(old(self).cfg(), operator_kind).1,
    {
        let id = match self.expect_id() {
            None => {
                return None;
            },
            Some(id) => id,
        };
        self.new_ident(id, operator_kind);
        let ghost c_rest = self.cfg();
        loop
            invariant
                self.wf(),
                batch_rest_spec(self.cfg()) == batch_rest_spec(c_rest),
                batch_spec(old(self).cfg(), operator_kind) == batch_rest_spec(c_rest),
            ensures
                self.wf(),
                self.cfg() == batch_rest_spec(c_rest).0,
                batch_rest_spec(c_rest).1,
            decreases stream_phi(self.cfg().strm),
        {
            let ghost pre = self.cfg();
            let p = self.peek_kinds(TokenKind::Comma, TokenKind::Comma);
            proof {
                lemma_batch_rest_fill(pre);
                lemma_phi_fill(pre.strm);
                lemma_fill_peek(pre.strm);
            }
            match p {
                None => {
                    proof {
                        lemma_fill_idem(pre.strm);
                        assert(batch_rest_spec(self.cfg()) == (self.cfg(), true));
                    }
                    break ;
                },
                Some(_) => {
                    let ghost cf = self.cfg();
                    self.consume_token();
                    proof {
                        lemma_fill_idem(pre.strm);
                        lemma_phi_advance(cf.strm);
                    }
                    let ghost c1 = self.cfg();
                    let id2 = match self.expect_id() {
                        None => {
                            proof {
                                assert(batch_rest_spec(cf) == (id_spec(c1).0, false));
                            }
                            return None;
                        },
                        Some(id2) => id2,
                    };
                    proof {
                        lemma_phi_id(c1);
                    }
                    self.new_ident(id2, OperatorKind::Comma);
                    proof {
                        lemma_new_ident_strm(id_spec(c1).0, id_spec(c1).1.unwrap(), OperatorKind::Comma);
                    }
                },
            }
        }
        Some(())
    }

    fn expect_operation(&mut self) -> (r: Option<()>)
        requires
            old(self).wf(),
        ensures
            final(self).wf(),
            final(self).cfg() == operation_spec(old(self).cfg()).0,
            r is Some <==> operation_spec(old(self).cfg()).1,
    {
        let opr = match self.expect_kinds(TokenKind::Charge, TokenKind::Block) {
            None => {
                return None;
            },
            Some(t) => t,
        };
        let opk = if opr.kind == TokenKind::Charge {
            OperatorKind::Charge
        } else {
            OperatorKind::Block
        };
        self.expect_batch(opk)
    }

    fn expect_statement(&mut self) -> (r: Option<()>)
        requires
            old(self).wf(),
        ensures
            final(self).wf(),
            final(self).cfg() == statement_spec(old(self).cfg()).0,
            r is Some <==> statement_spec(old(self).cfg()).1,
    {
        loop
            invariant
                self.wf(),
                skip_seps_spec(self.cfg()) == skip_seps_spec(old(self).cfg()),
            ensures
                self.wf(),
                self.cfg() == skip_seps_spec(old(self).cfg()),
            decreases stream_phi(self.cfg().strm),
        {
            let ghost pre = self.cfg();
            let p = self.peek_kinds(TokenKind::Semicolon, TokenKind::EndLine);
            proof {
                lemma_skip_seps_fill(pre);
                lemma_phi_fill(pre.strm);
                lemma_fill_peek(pre.strm);
            }
            match p {
                None => {
                    proof {
                        lemma_fill_idem(pre.strm);
                    }
                    break ;
                },
                Some(_) => {
                    let ghost cf = self.cfg();
                    self.consume_token();
                    proof {
                        lemma_fill_idem(pre.strm);
                        lemma_phi_advance(cf.strm);
                    }
                },
            }
        }
        let ghost c0 = self.cfg();
        proof {
            lemma_skip_seps_filled(old(self).cfg());
            assert(cfg_fill(c0) == c0);
        }
        let p = self.peek_kinds(TokenKind::Identifier, TokenKind::Port);
        match p {
            Some(_) => {
                match self.expect_batch(OperatorKind::Charge) {
                    None => {
                        return None;
                    },
                    Some(_) => {},
                }
                match self.expect_operation() {
                    None => {
                        return None;
                    },
                    Some(_) => {},
                }
                let ghost c2 = self.cfg();
                loop
                    invariant
                        self.wf(),
                        ops_loop_spec(self.cfg()) == ops_loop_spec(c2),
                        statement_spec(old(self).cfg()) == (if ops_loop_spec(c2).1 {
                            (clear_buf(connect_spec(ops_loop_spec(c2).0)), true)
                        } else {
                            (ops_loop_spec(c2).0, false)
                        }),
                    ensures
                        self.wf(),
                        self.cfg() == ops_loop_spec(c2).0,
                        ops_loop_spec(c2).1,
                    decreases stream_phi(self.cfg().strm),
                {
                    let ghost pre = self.cfg();
                    let q = self.peek_kinds(TokenKind::Charge, TokenKind::Block);
                    proof {
                        lemma_ops_loop_fill(pre);
                        lemma_phi_fill(pre.strm);
                        lemma_fill_peek(pre.strm);
                    }
                    match q {
                        None => {
                            proof {
                                lemma_fill_idem(pre.strm);
                            }
                            break ;
                        },
                        Some(_) => {
                            let ghost cf = self.cfg();
                            proof {
                                lemma_fill_idem(cf.strm);
                                lemma_phi_operation(cf);
                            }
                            match self.expect_operation() {
                                None => {
                                    proof {
                                        assert(ops_loop_spec(cf) == (operation_spec(cf).0, false));
                                    }
                                    return None;
                                },
                                Some(_) => {},
                            }
                        },
                    }
                }
                self.connect();
                self.clear_buffer();
                Some(())
            },
            None => {
                match self.peek_token() {
                    None => {
                        Some(())
                    },
                    Some(token) => {
                        self.err_unexpected_token(&token);
                        None
                    },
                }
            },
        }
    }

    fn expect_source(&mut self) -> (r: Option<()>)
        requires
            old(self).wf(),
        ensures
            final(self).wf(),
            final(self).cfg() == source_spec(old(self).cfg()).0,
            r is Some <==> source_spec(old(self).cfg()).1,
    {
        match self.expect_statement() {
            None => {
                return None;
            },
            Some(_) => {},
        }
        let ghost c1 = self.cfg();
        loop
            invariant
                self.wf(),
                source_rest_spec(self.cfg()) == source_rest_spec(c1),
                source_spec(old(self).cfg()) == source_rest_spec(c1),
            ensures
                self.wf(),
                self.cfg() == source_rest_spec(c1).0,
                source_rest_spec(c1).1,
            decreases stream_phi(self.cfg().strm),
        {
            let ghost pre = self.cfg();
            let p = self.peek_kinds(TokenKind::Semicolon, TokenKind::EndLine);
            proof {
                lemma_source_rest_fill(pre);
                lemma_phi_fill(pre.strm);
                lemma_fill_peek(pre.strm);
            }
            match p {
                None => {
                    proof {
                        lemma_fill_idem(pre.strm);
                    }
                    break ;
                },
                Some(_) => {
                    let ghost cf = self.cfg();
                    self.consume_token();
                    proof {
                        lemma_fill_idem(pre.strm);
                        lemma_phi_advance(cf.strm);
                    }
                    let ghost ca = self.cfg();
                    match self.expect_statement() {
                        None => {
                            proof {
                                assert(source_rest_spec(cf) == (statement_spec(ca).0, false));
                            }
                            return None;
                        },
                        Some(_) => {},
                    }
                    proof {
                        lemma_phi_statement(ca);
                    }
                },
            }
        }
        Some(())
    }

    /// Resynchronize after a malformed statement: discard tokens up to the
    /// next statement boundary and drop the batches in progress.
    fn recover(&mut self)
        requires
            old(self).wf(),
        ensures
            final(self).wf(),
            final(self).cfg() == recover_spec(old(self).cfg()),
    {
        self.inverter.consume_end();
        self.clear_buffer();
    }

    /// Whether the registry holds at least one input and one output boundary.
    fn check_io_min(&self) -> (r: bool)
        ensures
            r == io_min_ok(self.cfg().reg),
    {
        let ghost reg = self.id_map.deep_view();
        let mut iflag = false;
        let mut oflag = false;
        let mut i: usize = 0;
        while i < self.id_map.len()
            invariant
                i <= self.id_map.len(),
                reg == self.id_map.deep_view(),
                iflag == exists|j: int| 0 <= j < i && reg[j].1 == IdentKind::InPort,
                oflag == exists|j: int| 0 <= j < i && reg[j].1 == IdentKind::OutPort,
                !(iflag && oflag),
            decreases self.id_map.len() - i,
        {
            let k = self.id_map[i].1;
            proof {
                assert(reg[i as int].1 == k);
            }
            if k == IdentKind::InPort {
                iflag = true;
                if oflag {
                    return true;
                }
            } else if k == IdentKind::OutPort {
                oflag = true;
                if iflag {
                    return true;
                }
            }
            i = i + 1;
        }
        proof {
            assert(reg.len() == self.id_map.len());
        }
        false
    }

    /// Close the parse: run the IO-minimum check when it is enabled and no
    /// other diagnostic exists, and hand the results out.
    fn finalize(self, io_min: bool) -> (r: (Vec<Connection>, Vec<ParserError>))
        ensures
            r.0.deep_view() == self.cfg().conns,
            r.1.deep_view() == (if io_min && self.cfg().errs.len() == 0 && !io_min_ok(
                self.cfg().reg,
            ) {
                self.cfg().errs.push(ParserErrorV::IOMin)
            } else {
                self.cfg().errs
            }),
    {
        let mut p = self;
        if io_min && p.errors.len() == 0 && !p.check_io_min() {
            p.errors.push(ParserError::IOMin);
            proof {
                assert(p.errors.deep_view() =~= self.cfg().errs.push(ParserErrorV::IOMin));
            }
        }
        let Parser { connections, errors, .. } = p;
        (connections, errors)
    }
}

/// Parse a token sequence into the connections and diagnostics that
/// `parse_spec` assigns to it. When `io_min` is set, the IO-minimum rule is
/// checked after parsing, and only when no other diagnostic exists.
pub fn parse(tokens: Vec<Token>, io_min: bool) -> (r: (Vec<Connection>, Vec<ParserError>))
    ensures
        r.0.deep_view() == parse_spec(tokens.deep_view(), io_min).0,
        r.1.deep_view() == parse_spec(tokens.deep_view(), io_min).1,
{
    let ghost c_init = init_cfg(tokens.deep_view());
    let mut p = Parser::new(tokens);
    loop
        invariant
            p.wf(),
            parse_loop_spec(p.cfg()) == parse_loop_spec(c_init),
        ensures
            p.wf(),
            p.cfg() == parse_loop_spec(c_init),
        decreases stream_phi(p.cfg().strm),
    {
        let ghost pre = p.cfg();
        let t = p.peek_token();
        proof {
            lemma_parse_loop_fill(pre);
            lemma_phi_fill(pre.strm);
            lemma_fill_peek(pre.strm);
        }
        match t {
            None => {
                proof {
                    lemma_fill_idem(pre.strm);
                    assert(parse_loop_spec(p.cfg()) == p.cfg());
                }
                break ;
            },
            Some(_) => {
                let ghost cf = p.cfg();
                proof {
                    lemma_fill_idem(pre.strm);
                    lemma_phi_source(cf);
                }
                match p.expect_source() {
                    Some(_) => {},
                    None => {
                        p.recover();
                    },
                }
            },
        }
    }
    p.finalize(io_min)
}

} // verus!
