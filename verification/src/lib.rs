//! Front end of a compiler for a small textual graph-description language.
//!
//! Statements name identifiers (plain nodes or port-marked boundary
//! identifiers) and connect them with one of two directed relations
//! ("charge" and "block"), optionally in comma-separated batches and in
//! multi-hop chains. The front end normalizes the token stream, parses
//! statements into connections, and translates the connections into an
//! indexed module graph.

use vstd::prelude::*;

pub mod lex;
pub mod norm;
pub mod parse;
pub mod translate;

use crate::lex::LexerError;
use crate::lex::Token;
use crate::parse::ParserError;
use crate::parse::parse;
use crate::parse::parse_spec;
use crate::translate::Module;
use crate::translate::in_names;
use crate::translate::out_names;
use crate::translate::translate;
use crate::translate::translate_spec;

verus! {

/// What one compilation hands back: the module when the source is clean,
/// the diagnostics when it is not, and, when requested, the ordered input
/// and output boundary names.
pub struct CompilationResult {
    pub module: Option<Module>,
    pub success: bool,
    pub perrors: Vec<ParserError>,
    pub lerrors: Vec<LexerError>,
    pub input_ids: Option<Vec<String>>,
    pub output_ids: Option<Vec<String>>,
}

/// Sequence the pipeline over the lexer's output: parse, and translate only
/// when neither the lexer nor the parser reported anything. A module is
/// never returned alongside a non-empty diagnostic list, whether or not
/// identifier lists were requested.
pub fn compile(
    tokens: Vec<Token>,
    lexer_errors: Vec<LexerError>,
    gen_ids: bool,
    io_min: bool,
) -> (r: CompilationResult)
    ensures
        r.success == (lexer_errors@.len() == 0 && parse_spec(tokens.deep_view(), io_min).1.len()
            == 0),
        r.module is Some <==> r.success,
        r.lerrors@ == lexer_errors@,
        r.perrors.deep_view() == parse_spec(tokens.deep_view(), io_min).1,
        r.module matches Some(m) ==> m@ == translate_spec(
            parse_spec(tokens.deep_view(), io_min).0,
        ).module,
        r.input_ids is Some <==> gen_ids && r.success,
        r.output_ids is Some <==> gen_ids && r.success,
        r.input_ids matches Some(v) ==> v.deep_view() == in_names(
            translate_spec(parse_spec(tokens.deep_view(), io_min).0).reg,
        ),
        r.output_ids matches Some(v) ==> v.deep_view() == out_names(
            translate_spec(parse_spec(tokens.deep_view(), io_min).0).reg,
        ),
        lexer_errors@.len() > 0 || parse_spec(tokens.deep_view(), io_min).1.len() > 0
            ==> r.module is None,
{
    let ghost raw = tokens.deep_view();
    let (connections, parser_errors) = parse(tokens, io_min);
    proof {
        assert(parser_errors.deep_view().len() == parser_errors@.len());
        assert(connections.deep_view() == parse_spec(raw, io_min).0);
    }
    if lexer_errors.len() > 0 || parser_errors.len() > 0 {
        CompilationResult {
            module: None,
            success: false,
            perrors: parser_errors,
            lerrors: lexer_errors,
            input_ids: None,
            output_ids: None,
        }
    } else {
        let tr = translate(connections, gen_ids);
        let (input_ids, output_ids) = match tr.identifiers {
            Some(ids) => (Some(ids.0), Some(ids.1)),
            None => (None, None),
        };
        CompilationResult {
            module: Some(tr.module),
            success: true,
            perrors: parser_errors,
            lerrors: lexer_errors,
            input_ids,
            output_ids,
        }
    }
}

} // verus!
