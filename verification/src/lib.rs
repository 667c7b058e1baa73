pub mod pos;
pub mod diag;
pub mod lexer;
pub mod ast;
pub mod num;
pub mod parser;
pub mod isa;
pub mod emit;
pub mod resolve;
pub mod encode;

use vstd::prelude::*;
use crate::diag::{Error, ErrorV};
use crate::lexer::{spec_tokens, spec_lex_diags, TokenType, lemma_lex_clean_from,
    lemma_char_covered, is_blank};
use crate::parser::lemma_parse_clean_from;
use crate::parser::{Parser, sp_lines};
use crate::resolve::{resolve, spec_resolve};
use crate::encode::{encode, spec_encode};
use crate::emit::Emitter;
use crate::isa::spec_instrs_bytes;

verus! {

/// Every diagnostic of one whole assembly of `text`, in stage order:
/// the lexer's, then the parser's, then the resolver's, then the
/// encoder's.
pub open spec fn spec_assemble_diags(text: Seq<char>) -> Seq<ErrorV> {
    let pp = sp_lines(text, spec_tokens(text), 0);
    let rs = spec_resolve(pp.lines);
    let es = spec_encode(pp.lines, rs.defs);
    spec_lex_diags(text) + pp.diags + rs.diags + es.diags
}

/// The bytes one whole assembly of `text` produces: whatever encoded,
/// in source order, rejected lines omitted.
pub open spec fn spec_assemble_bytes(text: Seq<char>) -> Seq<u8> {
    let pp = sp_lines(text, spec_tokens(text), 0);
    let rs = spec_resolve(pp.lines);
    let es = spec_encode(pp.lines, rs.defs);
    spec_instrs_bytes(es.instrs)
}

/// Runs the whole pipeline on `text`: lex, parse with per-line
/// recovery, resolve labels in one forward pass, then encode against
/// the finished table. Returns whatever bytes encoded successfully and
/// every diagnostic of every stage; no input aborts the run.
pub fn assemble(text: &str) -> (r: (Vec<u8>, Vec<Error>))
    requires
        text@.len() < usize::MAX,
    ensures
        r.0@ =~= spec_assemble_bytes(text@),
        r.1.deep_view() =~= spec_assemble_diags(text@),
{
    let mut parser = Parser::new(text);
    let lines = parser.parse();
    let mut all = parser.errors();
    let (table, mut rdiags) = resolve(&lines);
    let (instrs, mut ediags) = encode(&lines, &table);
    let mut emitter = Emitter::new();
    let ghost pre_r = all.deep_view();
    all.append(&mut rdiags);
    proof {
        assert(all.deep_view() =~= pre_r + spec_resolve(lines.deep_view()).diags);
    }
    let ghost pre_e = all.deep_view();
    all.append(&mut ediags);
    proof {
        assert(all.deep_view() =~= pre_e + spec_encode(
            lines.deep_view(),
            spec_resolve(lines.deep_view()).defs,
        ).diags);
    }
    match emitter.emit(instrs.as_slice()) {
        Ok(()) => (),
        Err(_) => (),
    }
    let bytes = emitter.into_bytes();
    (bytes, all)
}


/// Law: a clean assembly consumed every character of its input into
/// some line. When `assemble` returns no diagnostics at all, every
/// character of the text lies inside some token or is skipped trivia
/// (a blank, or a comment behind a semicolon on its line), no token is
/// an error token, and the parser's error recovery threw no token
/// away: every token went into some parsed line or ended one as its
/// newline. (The converse does not hold: a fully consumed program can
/// still carry diagnostics, as a duplicate label shows.)
pub proof fn lemma_clean_run_consumed_everything(text: Seq<char>)
    requires
        spec_assemble_diags(text).len() == 0,
        text.len() < usize::MAX,
    ensures
        sp_lines(text, spec_tokens(text), 0).dropped == 0,
        forall|k: int|
            0 <= k < spec_tokens(text).len() ==> (#[trigger] spec_tokens(text)[k]).token_type
                != TokenType::Error,
        forall|p: int|
            0 <= p < text.len() ==> (exists|k: int|
                0 <= k < spec_tokens(text).len() && (#[trigger] spec_tokens(text)[k]).pos.index
                    <= p < spec_tokens(text)[k].pos.index + spec_tokens(text)[k].length)
                || is_blank(text[p]) || text[p] == ';' || (exists|q: int|
                0 <= q < p && text[q] == ';' && (forall|r: int| q < r <= p ==> text[r] != '\n')),
{
    assert(spec_lex_diags(text).len() == 0);
    assert(sp_lines(text, spec_tokens(text), 0).diags.len() == 0);
    lemma_lex_clean_from(text, 0);
    lemma_parse_clean_from(text, spec_tokens(text), 0);
    assert forall|p: int| 0 <= p < text.len() implies (exists|k: int|
        0 <= k < spec_tokens(text).len() && (#[trigger] spec_tokens(text)[k]).pos.index <= p
            < spec_tokens(text)[k].pos.index + spec_tokens(text)[k].length) || is_blank(text[p])
        || text[p] == ';' || (exists|q: int|
        0 <= q < p && text[q] == ';' && (forall|r: int| q < r <= p ==> text[r] != '\n')) by {
        lemma_char_covered(text, 0, p);
    }
}

} // verus!
