use vstd::prelude::*;
use crate::pos::Pos;
use crate::diag::{Error, ErrorV};
use crate::lexer::{
    Lexer, Token, TokenType, spec_tokens, spec_tokens_from, spec_lex_diags, spec_lex_diags_from,
    lemma_next_progress, lemma_tokens_shape, lemma_token_literal_chars, is_digit, is_hex_digit,
};
use crate::ast::{Value, ValueV, Operand, OperandV, Label, LabelV, LabelType, Instruction,
    InstructionV, Line, LineV};
use crate::num::{base_val, base_value_of, lemma_digit_classes};

verus! {

/// The position a diagnostic gets when the parser stands at token `ti`:
/// that token's own position, or the last token's when the stream is
/// exhausted, or the very start of empty input.
pub open spec fn err_pos(toks: Seq<Token>, ti: int) -> Pos {
    if ti < toks.len() {
        toks[ti].pos
    } else if toks.len() > 0 {
        toks[toks.len() - 1].pos
    } else {
        Pos { index: 0, line: 1, col: 1 }
    }
}

/// Any position `err_pos` picks points into the text.
pub proof fn lemma_err_pos_wf(text: Seq<char>, toks: Seq<Token>, ti: int)
    requires
        toks == spec_tokens(text),
        text.len() < usize::MAX,
        0 <= ti,
    ensures
        err_pos(toks, ti).wf(text),
{
    lemma_tokens_shape(text, 0);
    if ti < toks.len() {
        assert(spec_tokens_from(text, 0)[ti].wf(text));
    } else if toks.len() > 0 {
        assert(spec_tokens_from(text, 0)[toks.len() - 1].wf(text));
    }
}

/// The stream has a token of kind `k` at index `ti`.
pub open spec fn at_kind(toks: Seq<Token>, ti: int, k: TokenType) -> bool {
    0 <= ti < toks.len() && toks[ti].token_type == k
}

/// Index `ti` stands at the end of a line: at a newline token or past
/// the last token.
pub open spec fn at_line_end(toks: Seq<Token>, ti: int) -> bool {
    ti >= toks.len() || toks[ti].token_type == TokenType::Newline
}

/// Token kinds that may begin an operand.
pub open spec fn is_operand_start(k: TokenType) -> bool {
    ||| k == TokenType::Id
    ||| k == TokenType::Int
    ||| k == TokenType::Hex
    ||| k == TokenType::Binary
    ||| k == TokenType::LBracket
    ||| k == TokenType::Dot
}

/// The characters of token `ti` in the source text.
pub open spec fn tok_text(text: Seq<char>, toks: Seq<Token>, ti: int) -> Seq<char> {
    toks[ti].text_of(text)
}

/// What parsing one `value` from token `ti` gives: the value if the
/// grammar matched, the diagnostics recorded, and the index the cursor
/// stands at afterwards.
pub struct PValue {
    pub value: Option<ValueV>,
    pub diags: Seq<ErrorV>,
    pub next: int,
}

/// Parse one `value`: an identifier, a `.`-prefixed local label
/// reference, or an integer literal that fits its range.
pub open spec fn sp_value(text: Seq<char>, toks: Seq<Token>, ti: int) -> PValue {
    if at_kind(toks, ti, TokenType::Id) {
        PValue {
            value: Some(ValueV::Id(tok_text(text, toks, ti))),
            diags: Seq::empty(),
            next: ti + 1,
        }
    } else if at_kind(toks, ti, TokenType::Dot) {
        if at_kind(toks, ti + 1, TokenType::Id) {
            PValue {
                value: Some(ValueV::Id("."@ + tok_text(text, toks, ti + 1))),
                diags: Seq::empty(),
                next: ti + 2,
            }
        } else {
            PValue {
                value: None,
                diags: seq![ErrorV { message: "expected id"@, pos: err_pos(toks, ti + 1) }],
                next: ti + 1,
            }
        }
    } else if at_kind(toks, ti, TokenType::Int) {
        let v = base_val(tok_text(text, toks, ti), 10);
        if v <= i32::MAX {
            PValue { value: Some(ValueV::Int(v as i32)), diags: Seq::empty(), next: ti + 1 }
        } else {
            PValue {
                value: None,
                diags: seq![
                    ErrorV { message: "integer literal out of range"@, pos: toks[ti].pos },
                ],
                next: ti,
            }
        }
    } else if at_kind(toks, ti, TokenType::Hex) {
        let v = base_val(tok_text(text, toks, ti).skip(2), 16);
        if v <= u32::MAX {
            PValue {
                value: Some(ValueV::Int(v as u32 as i32)),
                diags: Seq::empty(),
                next: ti + 1,
            }
        } else {
            PValue {
                value: None,
                diags: seq![
                    ErrorV { message: "integer literal out of range"@, pos: toks[ti].pos },
                ],
                next: ti,
            }
        }
    } else if at_kind(toks, ti, TokenType::Binary) {
        let v = base_val(tok_text(text, toks, ti).skip(2), 2);
        if v <= u32::MAX {
            PValue {
                value: Some(ValueV::Int(v as u32 as i32)),
                diags: Seq::empty(),
                next: ti + 1,
            }
        } else {
            PValue {
                value: None,
                diags: seq![
                    ErrorV { message: "integer literal out of range"@, pos: toks[ti].pos },
                ],
                next: ti,
            }
        }
    } else {
        PValue {
            value: None,
            diags: seq![ErrorV { message: "expected operand"@, pos: err_pos(toks, ti) }],
            next: ti,
        }
    }
}

/// What parsing one operand gives.
pub struct POperand {
    pub op: Option<OperandV>,
    pub diags: Seq<ErrorV>,
    pub next: int,
}

/// Parse one operand: a bare value, or `[` value `]`.
pub open spec fn sp_operand(text: Seq<char>, toks: Seq<Token>, ti: int) -> POperand {
    if at_kind(toks, ti, TokenType::LBracket) {
        let pv = sp_value(text, toks, ti + 1);
        match pv.value {
            Option::None => POperand { op: None, diags: pv.diags, next: pv.next },
            Option::Some(v) => {
                if at_kind(toks, pv.next, TokenType::RBracket) {
                    POperand {
                        op: Some(OperandV::Address(v)),
                        diags: pv.diags,
                        next: pv.next + 1,
                    }
                } else {
                    POperand {
                        op: None,
                        diags: seq![
                            ErrorV { message: "expected ']'"@, pos: err_pos(toks, pv.next) },
                        ],
                        next: pv.next,
                    }
                }
            },
        }
    } else {
        let pv = sp_value(text, toks, ti);
        match pv.value {
            Option::None => POperand { op: None, diags: pv.diags, next: pv.next },
            Option::Some(v) => POperand {
                op: Some(OperandV::Value(v)),
                diags: pv.diags,
                next: pv.next,
            },
        }
    }
}

/// What parsing a comma-separated operand list gives.
pub struct POperands {
    pub ops: Option<Seq<OperandV>>,
    pub diags: Seq<ErrorV>,
    pub next: int,
}

/// Cursor movement of one `value` parse: never backwards, strictly
/// forward and in bounds on success.
pub proof fn lemma_sp_value_progress(text: Seq<char>, toks: Seq<Token>, ti: int)
    requires
        0 <= ti <= toks.len(),
    ensures
        ti <= sp_value(text, toks, ti).next <= toks.len(),
        sp_value(text, toks, ti).value is Some ==> ti < sp_value(text, toks, ti).next,
{
}

/// Cursor movement of one operand parse.
pub proof fn lemma_sp_operand_progress(text: Seq<char>, toks: Seq<Token>, ti: int)
    requires
        0 <= ti <= toks.len(),
    ensures
        ti <= sp_operand(text, toks, ti).next <= toks.len(),
        sp_operand(text, toks, ti).op is Some ==> ti < sp_operand(text, toks, ti).next,
{
    if at_kind(toks, ti, TokenType::LBracket) {
        lemma_sp_value_progress(text, toks, ti + 1);
    } else {
        lemma_sp_value_progress(text, toks, ti);
    }
}

/// Parse `operand (',' operand)*`.
pub open spec fn sp_operand_list(text: Seq<char>, toks: Seq<Token>, ti: int) -> POperands
    decreases toks.len() - ti,
    when 0 <= ti <= toks.len()
    via sp_operand_list_decreases
{
    let po = sp_operand(text, toks, ti);
    match po.op {
        Option::None => POperands { ops: None, diags: po.diags, next: po.next },
        Option::Some(op) => {
            if at_kind(toks, po.next, TokenType::Comma) {
                let rest = sp_operand_list(text, toks, po.next + 1);
                POperands {
                    ops: match rest.ops {
                        Option::None => None,
                        Option::Some(ops) => Some(seq![op] + ops),
                    },
                    diags: po.diags + rest.diags,
                    next: rest.next,
                }
            } else {
                POperands { ops: Some(seq![op]), diags: po.diags, next: po.next }
            }
        },
    }
}

#[via_fn]
proof fn sp_operand_list_decreases(text: Seq<char>, toks: Seq<Token>, ti: int) {
    lemma_sp_operand_progress(text, toks, ti);
}

/// Cursor movement of an operand-list parse.
pub proof fn lemma_sp_operand_list_progress(text: Seq<char>, toks: Seq<Token>, ti: int)
    requires
        0 <= ti <= toks.len(),
    ensures
        ti <= sp_operand_list(text, toks, ti).next <= toks.len(),
        sp_operand_list(text, toks, ti).ops is Some ==> ti < sp_operand_list(text, toks, ti).next,
    decreases toks.len() - ti,
{
    lemma_sp_operand_progress(text, toks, ti);
    let po = sp_operand(text, toks, ti);
    if po.op is Some && at_kind(toks, po.next, TokenType::Comma) {
        lemma_sp_operand_list_progress(text, toks, po.next + 1);
    }
}

/// What parsing one line gives.
pub struct PLine {
    pub line: Option<LineV>,
    pub diags: Seq<ErrorV>,
    pub next: int,
}

/// Parse the tail of an instruction, after its mnemonic: an optional
/// attribute identifier (one that another operand token follows without
/// a comma), then the operands up to the end of the line.
pub open spec fn sp_instruction(
    text: Seq<char>,
    toks: Seq<Token>,
    ti: int,
    operator: Seq<char>,
    ipos: Pos,
) -> PLine {
    let has_attr = at_kind(toks, ti, TokenType::Id) && ti + 1 < toks.len() && is_operand_start(
        toks[ti + 1].token_type,
    );
    let attr = if has_attr {
        Some(tok_text(text, toks, ti))
    } else {
        None
    };
    let t1 = if has_attr {
        ti + 1
    } else {
        ti
    };
    if at_line_end(toks, t1) {
        PLine {
            line: Some(
                LineV::Instruction(
                    InstructionV { operator, attribute: attr, operands: Seq::empty(), pos: ipos },
                ),
            ),
            diags: Seq::empty(),
            next: t1,
        }
    } else {
        let pl = sp_operand_list(text, toks, t1);
        match pl.ops {
            Option::None => PLine { line: None, diags: pl.diags, next: pl.next },
            Option::Some(ops) => PLine {
                line: Some(
                    LineV::Instruction(
                        InstructionV { operator, attribute: attr, operands: ops, pos: ipos },
                    ),
                ),
                diags: pl.diags,
                next: pl.next,
            },
        }
    }
}

/// Parse a local label line: `.` identifier `:`.
pub open spec fn sp_local_label(text: Seq<char>, toks: Seq<Token>, ti: int) -> PLine {
    if at_kind(toks, ti + 1, TokenType::Id) {
        if at_kind(toks, ti + 2, TokenType::Colon) {
            PLine {
                line: Some(
                    LineV::Label(
                        LabelV {
                            value: tok_text(text, toks, ti + 1),
                            label_type: LabelType::Local,
                            pos: toks[ti].pos,
                        },
                    ),
                ),
                diags: Seq::empty(),
                next: ti + 3,
            }
        } else {
            PLine {
                line: None,
                diags: seq![ErrorV { message: "expected ':'"@, pos: err_pos(toks, ti + 2) }],
                next: ti + 2,
            }
        }
    } else {
        PLine {
            line: None,
            diags: seq![ErrorV { message: "expected id"@, pos: err_pos(toks, ti + 1) }],
            next: ti + 1,
        }
    }
}

/// Parse a line that begins with an identifier: a global label when a
/// colon follows, otherwise an instruction.
pub open spec fn sp_global_or_instr(text: Seq<char>, toks: Seq<Token>, ti: int) -> PLine {
    if at_kind(toks, ti + 1, TokenType::Colon) {
        PLine {
            line: Some(
                LineV::Label(
                    LabelV {
                        value: tok_text(text, toks, ti),
                        label_type: LabelType::Global,
                        pos: toks[ti].pos,
                    },
                ),
            ),
            diags: Seq::empty(),
            next: ti + 2,
        }
    } else {
        sp_instruction(text, toks, ti + 1, tok_text(text, toks, ti), toks[ti].pos)
    }
}

/// Parse one line, which must then end at a newline or at the end of
/// the stream (the newline itself is not consumed here).
pub open spec fn sp_line(text: Seq<char>, toks: Seq<Token>, ti: int) -> PLine {
    let pl = if at_kind(toks, ti, TokenType::Dot) {
        sp_local_label(text, toks, ti)
    } else if at_kind(toks, ti, TokenType::Id) {
        sp_global_or_instr(text, toks, ti)
    } else {
        PLine {
            line: None,
            diags: seq![
                ErrorV {
                    message: "expected label, instruction or directive"@,
                    pos: err_pos(toks, ti),
                },
            ],
            next: ti,
        }
    };
    match pl.line {
        Option::None => pl,
        Option::Some(l) => {
            if at_line_end(toks, pl.next) {
                pl
            } else {
                PLine {
                    line: None,
                    diags: pl.diags + seq![
                        ErrorV { message: "expected newline"@, pos: err_pos(toks, pl.next) },
                    ],
                    next: pl.next,
                }
            }
        },
    }
}

/// Cursor movement of a line parse.
pub proof fn lemma_sp_line_progress(text: Seq<char>, toks: Seq<Token>, ti: int)
    requires
        0 <= ti <= toks.len(),
    ensures
        ti <= sp_line(text, toks, ti).next <= toks.len(),
        sp_line(text, toks, ti).line is Some ==> ti < sp_line(text, toks, ti).next,
{
    if at_kind(toks, ti, TokenType::Id) && !at_kind(toks, ti + 1, TokenType::Colon) {
        let has_attr = at_kind(toks, ti + 1, TokenType::Id) && ti + 2 < toks.len()
            && is_operand_start(toks[ti + 2].token_type);
        let t1 = if has_attr {
            ti + 2
        } else {
            ti + 1
        };
        if !at_line_end(toks, t1) {
            lemma_sp_operand_list_progress(text, toks, t1);
        }
    }
}

/// Index just past the next newline token at or after `ti` (or the end
/// of the stream): where parsing resumes after a bad line.
pub open spec fn sync_to(toks: Seq<Token>, ti: int) -> int
    decreases toks.len() - ti,
{
    if ti < toks.len() && toks[ti].token_type != TokenType::Newline {
        sync_to(toks, ti + 1)
    } else if ti < toks.len() {
        ti + 1
    } else {
        ti
    }
}

pub proof fn lemma_sync_to_bounds(toks: Seq<Token>, ti: int)
    requires
        0 <= ti <= toks.len(),
    ensures
        ti <= sync_to(toks, ti) <= toks.len(),
    decreases toks.len() - ti,
{
    if ti < toks.len() && toks[ti].token_type != TokenType::Newline {
        lemma_sync_to_bounds(toks, ti + 1);
    }
}

/// What parsing a whole token stream gives: the lines, the diagnostics,
/// and how many tokens error recovery threw away.
pub struct PProgram {
    pub lines: Seq<LineV>,
    pub diags: Seq<ErrorV>,
    pub dropped: int,
}

/// Parse the whole stream from token `ti` on. Blank lines vanish
/// silently; a bad line contributes its diagnostics and parsing resumes
/// just past the next newline.
pub open spec fn sp_lines(text: Seq<char>, toks: Seq<Token>, ti: int) -> PProgram
    decreases toks.len() - ti,
    when 0 <= ti <= toks.len()
    via sp_lines_decreases
{
    if ti >= toks.len() {
        PProgram { lines: Seq::empty(), diags: Seq::empty(), dropped: 0 }
    } else if toks[ti].token_type == TokenType::Newline {
        sp_lines(text, toks, ti + 1)
    } else {
        let pl = sp_line(text, toks, ti);
        match pl.line {
            Option::Some(l) => {
                let rest = sp_lines(text, toks, pl.next);
                PProgram {
                    lines: seq![l] + rest.lines,
                    diags: pl.diags + rest.diags,
                    dropped: rest.dropped,
                }
            },
            Option::None => {
                let sync = sync_to(toks, pl.next);
                let rest = sp_lines(text, toks, sync);
                PProgram {
                    lines: rest.lines,
                    diags: pl.diags + rest.diags,
                    dropped: rest.dropped + (sync - ti),
                }
            },
        }
    }
}

#[via_fn]
proof fn sp_lines_decreases(text: Seq<char>, toks: Seq<Token>, ti: int) {
    if 0 <= ti < toks.len() && toks[ti].token_type != TokenType::Newline {
        lemma_sp_line_progress(text, toks, ti);
        lemma_sync_to_bounds(toks, sp_line(text, toks, ti).next);
        if sp_line(text, toks, ti).next == ti {
            assert(sync_to(toks, ti) == sync_to(toks, ti + 1));
            lemma_sync_to_bounds(toks, ti + 1);
        }
    }
}

/// The parse of a whole source text: its lines and the parser's own
/// diagnostics (the lexer's are separate).
pub open spec fn spec_parse(text: Seq<char>) -> PProgram {
    sp_lines(text, spec_tokens(text), 0)
}


/// A failed value parse leaves a diagnostic.
pub proof fn lemma_sp_value_fail_diags(text: Seq<char>, toks: Seq<Token>, ti: int)
    ensures
        sp_value(text, toks, ti).value is None ==> sp_value(text, toks, ti).diags.len() >= 1,
{
}

/// A failed operand parse leaves a diagnostic.
pub proof fn lemma_sp_operand_fail_diags(text: Seq<char>, toks: Seq<Token>, ti: int)
    ensures
        sp_operand(text, toks, ti).op is None ==> sp_operand(text, toks, ti).diags.len() >= 1,
{
    lemma_sp_value_fail_diags(text, toks, ti);
    lemma_sp_value_fail_diags(text, toks, ti + 1);
}

/// A failed operand-list parse leaves a diagnostic.
pub proof fn lemma_sp_operand_list_fail_diags(text: Seq<char>, toks: Seq<Token>, ti: int)
    requires
        0 <= ti <= toks.len(),
    ensures
        sp_operand_list(text, toks, ti).ops is None ==> sp_operand_list(
            text,
            toks,
            ti,
        ).diags.len() >= 1,
    decreases toks.len() - ti,
{
    lemma_sp_operand_progress(text, toks, ti);
    lemma_sp_operand_fail_diags(text, toks, ti);
    let po = sp_operand(text, toks, ti);
    if po.op is Some && at_kind(toks, po.next, TokenType::Comma) {
        lemma_sp_operand_list_fail_diags(text, toks, po.next + 1);
    }
}

/// A line that parses to nothing leaves at least one diagnostic.
pub proof fn lemma_sp_line_fail_diags(text: Seq<char>, toks: Seq<Token>, ti: int)
    requires
        0 <= ti <= toks.len(),
    ensures
        sp_line(text, toks, ti).line is None ==> sp_line(text, toks, ti).diags.len() >= 1,
{
    if at_kind(toks, ti, TokenType::Id) && !at_kind(toks, ti + 1, TokenType::Colon) {
        let has_attr = at_kind(toks, ti + 1, TokenType::Id) && ti + 2 < toks.len()
            && is_operand_start(toks[ti + 2].token_type);
        let t1 = if has_attr {
            ti + 2
        } else {
            ti + 1
        };
        if !at_line_end(toks, t1) {
            lemma_sp_operand_list_fail_diags(text, toks, t1);
        }
    }
}

/// When parsing leaves no diagnostics, error recovery threw no token
/// away: every token was consumed into some line or was a newline.
pub proof fn lemma_parse_clean_from(text: Seq<char>, toks: Seq<Token>, ti: int)
    requires
        0 <= ti <= toks.len(),
        sp_lines(text, toks, ti).diags.len() == 0,
    ensures
        sp_lines(text, toks, ti).dropped == 0,
    decreases toks.len() - ti,
{
    if ti < toks.len() {
        if toks[ti].token_type == TokenType::Newline {
            lemma_parse_clean_from(text, toks, ti + 1);
        } else {
            lemma_sp_line_progress(text, toks, ti);
            lemma_sp_line_fail_diags(text, toks, ti);
            let pl = sp_line(text, toks, ti);
            match pl.line {
                Option::Some(l) => {
                    lemma_parse_clean_from(text, toks, pl.next);
                },
                Option::None => {
                    assert(sp_lines(text, toks, ti).diags.len() >= 1);
                },
            }
        }
    }
}

/// The parser: recursive descent over the pre-lexed token stream, with
/// per-line error recovery. `toks` is the full token stream of `text`;
/// `ti` is the cursor; `last_pos` remembers the last consumed token's
/// position for diagnostics at the end of the stream.
pub struct Parser<'a> {
    pub text: &'a str,
    pub toks: Vec<Token>,
    pub ti: usize,
    pub last_pos: Pos,
    pub errors: Vec<Error>,
    pub lex_errors: Vec<Error>,
}

impl<'a> Parser<'a> {
    /// The token stream is the lexer's token stream of `text`, the
    /// cursor is in bounds, `last_pos` tracks the last consumed token,
    /// and every diagnostic points into the text.
    pub open spec fn wf(self) -> bool {
        &&& self.text@.len() < usize::MAX
        &&& self.toks@ == spec_tokens(self.text@)
        &&& self.ti <= self.toks.len()
        &&& (self.ti == 0 ==> self.last_pos == (Pos { index: 0, line: 1, col: 1 }))
        &&& (self.ti > 0 ==> self.last_pos == self.toks@[self.ti - 1].pos)
        &&& self.lex_errors.deep_view() == spec_lex_diags(self.text@)
        &&& forall|k: int|
            0 <= k < self.errors.len() ==> (#[trigger] self.errors[k]).pos.wf(self.text@)
        &&& forall|k: int|
            0 <= k < self.lex_errors.len() ==> (#[trigger] self.lex_errors[k]).pos.wf(self.text@)
    }

    /// The parser's cursor and diagnostics after a call, next to what
    /// they were before it: the stream itself never changes.
    pub open spec fn stream_eq(self, other: Parser<'a>) -> bool {
        &&& self.text == other.text
        &&& self.toks@ == other.toks@
        &&& self.lex_errors@ == other.lex_errors@
    }

    /// A fresh parser over `text`: runs the lexer to the end and stores
    /// its tokens and its diagnostics.
    pub fn new(text: &'a str) -> (r: Parser<'a>)
        requires
            text@.len() < usize::MAX,
        ensures
            r.wf(),
            r.text == text,
            r.ti == 0,
            r.errors.deep_view() =~= Seq::<ErrorV>::empty(),
    {
        let mut lexer = Lexer::new(text);
        let mut toks: Vec<Token> = Vec::new();
        let mut t_opt = lexer.next_token();
        while t_opt.is_some()
            invariant
                lexer.wf(),
                lexer.text == text,
                text@.len() < usize::MAX,
                spec_tokens(text@) =~= toks@ + (match t_opt {
                    Option::Some(t) => seq![t] + spec_tokens_from(text@, lexer.index as int),
                    Option::None => Seq::empty(),
                }),
                spec_lex_diags(text@) =~= lexer.errors.deep_view() + spec_lex_diags_from(
                    text@,
                    lexer.index as int,
                ),
                t_opt is None ==> lexer.index == text@.len(),
            decreases text@.len() - lexer.index + (if t_opt is Some {
                1int
            } else {
                0int
            }),
        {
            let t = t_opt.unwrap();
            toks.push(t);
            let ghost i1 = lexer.index as int;
            proof {
                lemma_next_progress(text@, i1);
            }
            t_opt = lexer.next_token();
            proof {
                assert(spec_tokens(text@) =~= toks@ + (match t_opt {
                    Option::Some(t2) => seq![t2] + spec_tokens_from(text@, lexer.index as int),
                    Option::None => Seq::<Token>::empty(),
                }));
                assert(spec_lex_diags(text@) =~= lexer.errors.deep_view() + spec_lex_diags_from(
                    text@,
                    lexer.index as int,
                ));
            }
        }
        proof {
            assert(spec_tokens(text@) =~= toks@);
            assert(spec_lex_diags(text@) =~= lexer.errors.deep_view());
        }
        let lex_errors = lexer.errors();
        Parser {
            text,
            toks,
            ti: 0,
            last_pos: Pos { index: 0, line: 1, col: 1 },
            errors: Vec::new(),
            lex_errors,
        }
    }

    fn done(&self) -> (r: bool)
        requires
            self.ti <= self.toks.len(),
        ensures
            r == (self.ti == self.toks@.len()),
    {
        self.ti >= self.toks.len()
    }

    fn current(&self) -> (r: Option<TokenType>)
        requires
            self.ti <= self.toks.len(),
        ensures
            r == (if self.ti < self.toks@.len() {
                Some(self.toks@[self.ti as int].token_type)
            } else {
                None::<TokenType>
            }),
    {
        if self.ti < self.toks.len() {
            Some(self.toks[self.ti].token_type)
        } else {
            None
        }
    }

    fn current_is(&self, token_type: TokenType) -> (r: bool)
        requires
            self.ti <= self.toks.len(),
        ensures
            r == at_kind(self.toks@, self.ti as int, token_type),
    {
        if self.ti < self.toks.len() {
            self.toks[self.ti].token_type == token_type
        } else {
            false
        }
    }

    fn pos(&self) -> (p: Pos)
        requires
            self.wf(),
        ensures
            p == err_pos(self.toks@, self.ti as int),
    {
        if self.ti < self.toks.len() {
            self.toks[self.ti].pos
        } else {
            self.last_pos
        }
    }

    fn step(&mut self)
        requires
            old(self).wf(),
            old(self).ti < old(self).toks@.len(),
        ensures
            final(self).wf(),
            final(self).stream_eq(*old(self)),
            final(self).errors == old(self).errors,
            final(self).ti == old(self).ti + 1,
    {
        self.last_pos = self.toks[self.ti].pos;
        self.ti = self.ti + 1;
    }

    fn add_error(&mut self, message: &str, pos: Pos)
        requires
            old(self).wf(),
            pos.wf(old(self).text@),
        ensures
            final(self).wf(),
            final(self).stream_eq(*old(self)),
            final(self).ti == old(self).ti,
            final(self).last_pos == old(self).last_pos,
            final(self).errors.deep_view() =~= old(self).errors.deep_view().push(
                ErrorV { message: message@, pos },
            ),
    {
        let m = String::from_str(message);
        self.errors.push(Error { message: m, pos });
    }

    /// The text of the current token, as an owned string.
    fn current_text(&self) -> (r: String)
        requires
            self.wf(),
            self.ti < self.toks@.len(),
        ensures
            r@ == tok_text(self.text@, self.toks@, self.ti as int),
    {
        proof {
            lemma_tokens_shape(self.text@, 0);
        }
        let t = self.toks[self.ti];
        let s = t.value(self.text);
        String::from_str(s)
    }

    fn parse_value(&mut self) -> (r: Result<Value, ()>)
        requires
            old(self).wf(),
        ensures
            final(self).wf(),
            final(self).stream_eq(*old(self)),
            ({
                let pv = sp_value(old(self).text@, old(self).toks@, old(self).ti as int);
                &&& final(self).ti == pv.next
                &&& final(self).errors.deep_view() =~= old(self).errors.deep_view() + pv.diags
                &&& (match r {
                    Result::Ok(v) => pv.value == Some(v.deep_view()),
                    Result::Err(_) => pv.value is None,
                })
            }),
    {
        let ghost text = self.text@;
        let ghost toks = self.toks@;
        let ghost ti = self.ti as int;
        proof {
            lemma_tokens_shape(text, 0);
        }
        match self.current() {
            Some(TokenType::Id) => {
                let name = self.current_text();
                self.step();
                Ok(Value::Id(name))
            },
            Some(TokenType::Dot) => {
                self.step();
                if self.current_is(TokenType::Id) {
                    let name = self.current_text();
                    self.step();
                    let mut full = String::from_str(".");
                    full.append(name.as_str());
                    Ok(Value::Id(full))
                } else {
                    let p = self.pos();
                    proof {
                        lemma_err_pos_wf(text, toks, self.ti as int);
                    }
                    self.add_error("expected id", p);
                    Err(())
                }
            },
            Some(TokenType::Int) => {
                let t = self.toks[self.ti];
                let s = t.value(self.text);
                let ghost jj = t.pos.index as int;
                proof {
                    lemma_token_literal_chars(text, jj);
                    assert(s@ =~= text.subrange(jj, jj + t.length));
                    assert forall|k: int| 0 <= k < s@.len() implies is_hex_digit(
                        #[trigger] s@[k],
                    ) && 0 <= crate::num::digit_val(s@[k]) < 10 by {
                        assert(s@[k] == text[jj + k]);
                        assert(is_digit(text[jj + k]));
                        lemma_digit_classes(s@[k]);
                    }
                    assert(s@.skip(0) =~= s@);
                    crate::num::lemma_base_val_nonneg(s@, 10);
                    assert(spec_tokens_from(text, 0)[ti].wf(text));
                }
                match base_value_of(s, 0, 10, 2147483647u32) {
                    Some(v) => {
                        self.step();
                        Ok(Value::Int(v as i32))
                    },
                    None => {
                        let p = t.pos;
                        self.add_error("integer literal out of range", p);
                        Err(())
                    },
                }
            },
            Some(TokenType::Hex) => {
                let t = self.toks[self.ti];
                let s = t.value(self.text);
                let ghost jj = t.pos.index as int;
                proof {
                    lemma_token_literal_chars(text, jj);
                    assert(s@ =~= text.subrange(jj, jj + t.length));
                    assert forall|k: int| 0 <= k < s@.skip(2).len() implies is_hex_digit(
                        #[trigger] s@.skip(2)[k],
                    ) && 0 <= crate::num::digit_val(s@.skip(2)[k]) < 16 by {
                        assert(s@.skip(2)[k] == text[jj + 2 + k]);
                        assert(is_hex_digit(text[jj + 2 + k]));
                        lemma_digit_classes(s@.skip(2)[k]);
                    }
                    crate::num::lemma_base_val_nonneg(s@.skip(2), 16);
                    assert(spec_tokens_from(text, 0)[ti].wf(text));
                }
                match base_value_of(s, 2, 16, 4294967295u32) {
                    Some(v) => {
                        self.step();
                        Ok(Value::Int(#[verifier::truncate] (v as i32)))
                    },
                    None => {
                        let p = t.pos;
                        self.add_error("integer literal out of range", p);
                        Err(())
                    },
                }
            },
            Some(TokenType::Binary) => {
                let t = self.toks[self.ti];
                let s = t.value(self.text);
                let ghost jj = t.pos.index as int;
                proof {
                    lemma_token_literal_chars(text, jj);
                    assert(s@ =~= text.subrange(jj, jj + t.length));
                    assert forall|k: int| 0 <= k < s@.skip(2).len() implies is_hex_digit(
                        #[trigger] s@.skip(2)[k],
                    ) && 0 <= crate::num::digit_val(s@.skip(2)[k]) < 2 by {
                        assert(s@.skip(2)[k] == text[jj + 2 + k]);
                        assert(crate::lexer::is_bin_digit(text[jj + 2 + k]));
                        lemma_digit_classes(s@.skip(2)[k]);
                    }
                    crate::num::lemma_base_val_nonneg(s@.skip(2), 2);
                    assert(spec_tokens_from(text, 0)[ti].wf(text));
                }
                match base_value_of(s, 2, 2, 4294967295u32) {
                    Some(v) => {
                        self.step();
                        Ok(Value::Int(#[verifier::truncate] (v as i32)))
                    },
                    None => {
                        let p = t.pos;
                        self.add_error("integer literal out of range", p);
                        Err(())
                    },
                }
            },
            _ => {
                let p = self.pos();
                proof {
                    lemma_err_pos_wf(text, toks, self.ti as int);
                }
                self.add_error("expected operand", p);
                Err(())
            },
        }
    }

    fn parse_operand(&mut self) -> (r: Result<Operand, ()>)
        requires
            old(self).wf(),
        ensures
            final(self).wf(),
            final(self).stream_eq(*old(self)),
            ({
                let po = sp_operand(old(self).text@, old(self).toks@, old(self).ti as int);
                &&& final(self).ti == po.next
                &&& final(self).errors.deep_view() =~= old(self).errors.deep_view() + po.diags
                &&& (match r {
                    Result::Ok(op) => po.op == Some(op.deep_view()),
                    Result::Err(_) => po.op is None,
                })
            }),
    {
        if self.current_is(TokenType::LBracket) {
            self.step();
            match self.parse_value() {
                Err(()) => Err(()),
                Ok(v) => {
                    if self.current_is(TokenType::RBracket) {
                        self.step();
                        Ok(Operand::Address(v))
                    } else {
                        let p = self.pos();
                        proof {
                            lemma_err_pos_wf(self.text@, self.toks@, self.ti as int);
                        }
                        self.add_error("expected ']'", p);
                        Err(())
                    }
                },
            }
        } else {
            match self.parse_value() {
                Err(()) => Err(()),
                Ok(v) => Ok(Operand::Value(v)),
            }
        }
    }

    fn parse_operands(&mut self, acc: &mut Vec<Operand>) -> (r: Result<(), ()>)
        requires
            old(self).wf(),
        ensures
            final(self).wf(),
            final(self).stream_eq(*old(self)),
            ({
                let pl = sp_operand_list(old(self).text@, old(self).toks@, old(self).ti as int);
                &&& final(self).ti == pl.next
                &&& final(self).errors.deep_view() =~= old(self).errors.deep_view() + pl.diags
                &&& (match r {
                    Result::Ok(_) => pl.ops is Some && final(acc).deep_view()
                        =~= old(acc).deep_view() + pl.ops->Some_0,
                    Result::Err(_) => pl.ops is None,
                })
            }),
        decreases old(self).toks@.len() - old(self).ti,
    {
        proof {
            lemma_sp_operand_progress(old(self).text@, old(self).toks@, old(self).ti as int);
        }
        match self.parse_operand() {
            Err(()) => Err(()),
            Ok(op) => {
                acc.push(op);
                if self.current_is(TokenType::Comma) {
                    self.step();
                    self.parse_operands(acc)
                } else {
                    Ok(())
                }
            },
        }
    }

    fn parse_instruction(&mut self, operator: String, ipos: Pos) -> (r: Result<Line, ()>)
        requires
            old(self).wf(),
        ensures
            final(self).wf(),
            final(self).stream_eq(*old(self)),
            ({
                let pl = sp_instruction(
                    old(self).text@,
                    old(self).toks@,
                    old(self).ti as int,
                    operator@,
                    ipos,
                );
                &&& final(self).ti == pl.next
                &&& final(self).errors.deep_view() =~= old(self).errors.deep_view() + pl.diags
                &&& (match r {
                    Result::Ok(line) => pl.line == Some(line.deep_view()),
                    Result::Err(_) => pl.line is None,
                })
            }),
    {
        let ghost pl0 = sp_instruction(
            old(self).text@,
            old(self).toks@,
            old(self).ti as int,
            operator@,
            ipos,
        );
        let has_attr = if self.current_is(TokenType::Id) && self.ti + 1 < self.toks.len() {
            operand_start(self.toks[self.ti + 1].token_type)
        } else {
            false
        };
        let attribute: Option<String> = if has_attr {
            let a = self.current_text();
            self.step();
            Some(a)
        } else {
            None
        };
        let mut operands: Vec<Operand> = Vec::new();
        proof {
            assert(operands.deep_view() =~= Seq::<OperandV>::empty());
        }
        if self.done() || self.current_is(TokenType::Newline) {
            let line = Line::Instruction(Instruction { operator, attribute, operands, pos: ipos });
            proof {
                assert(line.deep_view() matches LineV::Instruction(iv) && iv.operands
                    =~= Seq::<OperandV>::empty());
                assert(pl0.diags =~= Seq::<ErrorV>::empty());
            }
            Ok(line)
        } else {
            let ghost pl2 = sp_operand_list(self.text@, self.toks@, self.ti as int);
            match self.parse_operands(&mut operands) {
                Err(()) => {
                    proof {
                        assert(pl0.diags =~= pl2.diags);
                    }
                    Err(())
                },
                Ok(()) => {
                    let line = Line::Instruction(
                        Instruction { operator, attribute, operands, pos: ipos },
                    );
                    proof {
                        assert(operands.deep_view() =~= pl2.ops->Some_0);
                        assert(pl0.diags =~= pl2.diags);
                    }
                    Ok(line)
                },
            }
        }
    }

    fn parse_local_label(&mut self) -> (r: Result<Line, ()>)
        requires
            old(self).wf(),
            at_kind(old(self).toks@, old(self).ti as int, TokenType::Dot),
        ensures
            final(self).wf(),
            final(self).stream_eq(*old(self)),
            ({
                let pl = sp_local_label(old(self).text@, old(self).toks@, old(self).ti as int);
                &&& final(self).ti == pl.next
                &&& final(self).errors.deep_view() =~= old(self).errors.deep_view() + pl.diags
                &&& (match r {
                    Result::Ok(line) => pl.line == Some(line.deep_view()),
                    Result::Err(_) => pl.line is None,
                })
            }),
    {
        let lpos = self.toks[self.ti].pos;
        self.step();
        if !self.current_is(TokenType::Id) {
            let p = self.pos();
            proof {
                lemma_err_pos_wf(self.text@, self.toks@, self.ti as int);
            }
            self.add_error("expected id", p);
            return Err(());
        }
        let value = self.current_text();
        self.step();
        if !self.current_is(TokenType::Colon) {
            let p = self.pos();
            proof {
                lemma_err_pos_wf(self.text@, self.toks@, self.ti as int);
            }
            self.add_error("expected ':'", p);
            return Err(());
        }
        self.step();
        Ok(Line::Label(Label { value, label_type: LabelType::Local, pos: lpos }))
    }

    fn parse_global_label_or_instruction(&mut self) -> (r: Result<Line, ()>)
        requires
            old(self).wf(),
            at_kind(old(self).toks@, old(self).ti as int, TokenType::Id),
        ensures
            final(self).wf(),
            final(self).stream_eq(*old(self)),
            ({
                let pl = sp_global_or_instr(old(self).text@, old(self).toks@, old(self).ti as int);
                &&& final(self).ti == pl.next
                &&& final(self).errors.deep_view() =~= old(self).errors.deep_view() + pl.diags
                &&& (match r {
                    Result::Ok(line) => pl.line == Some(line.deep_view()),
                    Result::Err(_) => pl.line is None,
                })
            }),
    {
        let lpos = self.toks[self.ti].pos;
        let value = self.current_text();
        self.step();
        if self.current_is(TokenType::Colon) {
            self.step();
            Ok(Line::Label(Label { value, label_type: LabelType::Global, pos: lpos }))
        } else {
            self.parse_instruction(value, lpos)
        }
    }

    fn parse_line(&mut self) -> (r: Result<Line, ()>)
        requires
            old(self).wf(),
        ensures
            final(self).wf(),
            final(self).stream_eq(*old(self)),
            ({
                let pl = sp_line(old(self).text@, old(self).toks@, old(self).ti as int);
                &&& final(self).ti == pl.next
                &&& final(self).errors.deep_view() =~= old(self).errors.deep_view() + pl.diags
                &&& (match r {
                    Result::Ok(line) => pl.line == Some(line.deep_view()),
                    Result::Err(_) => pl.line is None,
                })
            }),
    {
        let line = if self.current_is(TokenType::Dot) {
            self.parse_local_label()
        } else if self.current_is(TokenType::Id) {
            self.parse_global_label_or_instruction()
        } else {
            let p = self.pos();
            proof {
                lemma_err_pos_wf(self.text@, self.toks@, self.ti as int);
            }
            self.add_error("expected label, instruction or directive", p);
            return Err(());
        };
        match line {
            Err(()) => Err(()),
            Ok(l) => {
                if self.done() || self.current_is(TokenType::Newline) {
                    Ok(l)
                } else {
                    let p = self.pos();
                    proof {
                        lemma_err_pos_wf(self.text@, self.toks@, self.ti as int);
                    }
                    self.add_error("expected newline", p);
                    Err(())
                }
            },
        }
    }

    /// Parse the whole stream into lines. A malformed line contributes
    /// no line and at least one diagnostic; parsing resumes past the
    /// next newline, so one bad line never hides the lines after it.
    pub fn parse(&mut self) -> (lines: Vec<Line>)
        requires
            old(self).wf(),
        ensures
            final(self).wf(),
            final(self).stream_eq(*old(self)),
            lines.deep_view() =~= sp_lines(
                old(self).text@,
                old(self).toks@,
                old(self).ti as int,
            ).lines,
            final(self).errors.deep_view() =~= old(self).errors.deep_view() + sp_lines(
                old(self).text@,
                old(self).toks@,
                old(self).ti as int,
            ).diags,
            final(self).ti == old(self).toks@.len(),
    {
        let ghost text = self.text@;
        let ghost toks = self.toks@;
        let ghost ti0 = self.ti as int;
        let mut lines: Vec<Line> = Vec::new();
        while self.ti < self.toks.len()
            invariant
                self.wf(),
                self.stream_eq(*old(self)),
                self.text@ == text,
                self.toks@ == toks,
                sp_lines(text, toks, ti0).lines =~= lines.deep_view() + sp_lines(
                    text,
                    toks,
                    self.ti as int,
                ).lines,
                old(self).errors.deep_view() + sp_lines(text, toks, ti0).diags =~= self
                    .errors.deep_view() + sp_lines(text, toks, self.ti as int).diags,
                0 <= ti0 <= toks.len(),
            decreases self.toks@.len() - self.ti,
        {
            let ghost ti_here = self.ti as int;
            if self.current_is(TokenType::Newline) {
                self.step();
            } else {
                proof {
                    lemma_sp_line_progress(text, toks, ti_here);
                    lemma_sync_to_bounds(toks, sp_line(text, toks, ti_here).next);
                    if sp_line(text, toks, ti_here).next == ti_here {
                        assert(sync_to(toks, ti_here) == sync_to(toks, ti_here + 1));
                        lemma_sync_to_bounds(toks, ti_here + 1);
                    }
                }
                match self.parse_line() {
                    Ok(line) => {
                        let ghost ldv = lines.deep_view();
                        lines.push(line);
                        proof {
                            assert(lines.deep_view() =~= ldv.push(line.deep_view()));
                            assert(sp_lines(text, toks, ti_here).lines =~= seq![line.deep_view()]
                                + sp_lines(text, toks, self.ti as int).lines);
                            assert(sp_lines(text, toks, ti_here).diags =~= sp_line(
                                text,
                                toks,
                                ti_here,
                            ).diags + sp_lines(text, toks, self.ti as int).diags);
                        }
                    },
                    Err(()) => {
                        let ghost sync_from = self.ti as int;
                        let ghost errs_now = self.errors.deep_view();
                        while self.ti < self.toks.len() && !self.current_is(TokenType::Newline)
                            invariant
                                self.wf(),
                                self.stream_eq(*old(self)),
                                self.text@ == text,
                                self.toks@ == toks,
                                self.errors.deep_view() =~= errs_now,
                                sync_from <= self.ti as int,
                                sync_to(toks, sync_from) == sync_to(toks, self.ti as int),
                            decreases self.toks@.len() - self.ti,
                        {
                            self.step();
                        }
                        if self.ti < self.toks.len() {
                            self.step();
                        }
                        proof {
                            assert(self.ti as int == sync_to(toks, sync_from));
                            assert(sp_lines(text, toks, ti_here).lines =~= sp_lines(
                                text,
                                toks,
                                self.ti as int,
                            ).lines);
                            assert(sp_lines(text, toks, ti_here).diags =~= sp_line(
                                text,
                                toks,
                                ti_here,
                            ).diags + sp_lines(text, toks, self.ti as int).diags);
                        }
                    },
                }
            }
        }
        lines
    }

    /// All diagnostics, the lexer's before the parser's own.
    pub fn errors(self) -> (r: Vec<Error>)
        requires
            self.wf(),
        ensures
            r.deep_view() =~= spec_lex_diags(self.text@) + self.errors.deep_view(),
            forall|k: int| 0 <= k < r.len() ==> (#[trigger] r[k]).pos.wf(self.text@),
    {
        let mut r = self.lex_errors;
        let mut es = self.errors;
        r.append(&mut es);
        r
    }
}

fn operand_start(k: TokenType) -> (r: bool)
    ensures
        r == is_operand_start(k),
{
    k == TokenType::Id || k == TokenType::Int || k == TokenType::Hex || k == TokenType::Binary
        || k == TokenType::LBracket || k == TokenType::Dot
}

} // verus!
