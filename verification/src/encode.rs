use vstd::prelude::*;
use crate::diag::{Error, ErrorV};
use crate::ast::{Line, LineV, LabelType, Value, ValueV, Operand, OperandV, Instruction,
    InstructionV};
use crate::isa;
use crate::isa::{spec_mnemonic_of, spec_register_of, spec_arity, is_jump, mnemonic_of,
    register_of, arity, jump};
use crate::resolve::{LabelTable, LabelDefV, spec_lookup, scope_view, spec_ops_size_from,
    spec_line_size, sp_resolve_line, sp_resolve_from, spec_resolve, RState, sp_resolve_init,
    lemma_line_size_bounds};
use crate::isa::{spec_operand_bytes, spec_operands_bytes_from, spec_instr_bytes,
    spec_instrs_bytes, lemma_operand_bytes_len, lemma_operands_bytes_shift,
    lemma_instrs_bytes_snoc};

verus! {

/// Where a label reference points: a name with a leading dot is looked
/// up as a local label of the current global scope (and resolves to
/// nothing outside any scope), any other name as a global label.
pub open spec fn sp_resolve_ref(
    name: Seq<char>,
    scope: Option<Seq<char>>,
    defs: Seq<LabelDefV>,
) -> Option<u32> {
    if name.len() >= 1 && name[0] == '.' {
        match scope {
            Option::None => None,
            Option::Some(sc) => spec_lookup(defs, sc, name.skip(1)),
        }
    } else {
        spec_lookup(defs, Seq::empty(), name)
    }
}

/// A non-jump operand as the machine takes it: a register name becomes
/// the register, an integer an immediate, and their bracketed forms the
/// address modes; a name that is no register maps to nothing.
pub open spec fn sp_map_op(op: OperandV) -> Option<isa::Operand> {
    match op {
        OperandV::Value(ValueV::Id(name)) => match spec_register_of(name) {
            Option::Some(r) => Some(isa::Operand::Register(r)),
            Option::None => None,
        },
        OperandV::Value(ValueV::Int(i)) => Some(isa::Operand::Immidiate(i)),
        OperandV::Address(ValueV::Id(name)) => match spec_register_of(name) {
            Option::Some(r) => Some(isa::Operand::AddressRegister(r)),
            Option::None => None,
        },
        OperandV::Address(ValueV::Int(i)) => Some(isa::Operand::AddressImmidate(i as u32)),
    }
}

/// The machine operands from index `k` on, or nothing if one of them
/// does not map.
pub open spec fn sp_map_ops_from(ops: Seq<OperandV>, k: int) -> Option<Seq<isa::Operand>>
    decreases ops.len() - k,
{
    if 0 <= k < ops.len() {
        match sp_map_op(ops[k]) {
            Option::None => None,
            Option::Some(o) => match sp_map_ops_from(ops, k + 1) {
                Option::None => None,
                Option::Some(rest) => Some(seq![o] + rest),
            },
        }
    } else {
        Some(Seq::empty())
    }
}

/// Prepends mapped operands to an optional remainder.
pub open spec fn cons_ops(pre: Seq<isa::Operand>, o: Option<Seq<isa::Operand>>) -> Option<
    Seq<isa::Operand>,
> {
    match o {
        Option::None => None,
        Option::Some(rest) => Some(pre + rest),
    }
}

/// What one instruction line encodes to: the machine instruction, or
/// the one diagnostic that names what the encoder rejects — an unknown
/// mnemonic, a wrong operand count, a jump without a label operand, a
/// label that resolves to nothing, or a name that is no register.
pub open spec fn sp_classify(
    instr: InstructionV,
    scope: Option<Seq<char>>,
    defs: Seq<LabelDefV>,
) -> Result<isa::InstructionV, ErrorV> {
    match spec_mnemonic_of(instr.operator) {
        Option::None => Err(ErrorV { message: "unknown mnemonic"@, pos: instr.pos }),
        Option::Some(m) => {
            if instr.operands.len() != spec_arity(m) {
                Err(ErrorV { message: "wrong operand count"@, pos: instr.pos })
            } else if is_jump(m) {
                match instr.operands[0] {
                    OperandV::Value(ValueV::Id(name)) => {
                        match sp_resolve_ref(name, scope, defs) {
                            Option::Some(off) => Ok(
                                isa::InstructionV {
                                    mnemonic: m,
                                    operands: seq![isa::Operand::AddressImmidate(off)],
                                },
                            ),
                            Option::None => Err(
                                ErrorV { message: "unresolved label"@, pos: instr.pos },
                            ),
                        }
                    },
                    _ => Err(ErrorV { message: "expected label operand"@, pos: instr.pos }),
                }
            } else {
                match sp_map_ops_from(instr.operands, 0) {
                    Option::None => Err(ErrorV { message: "unknown register"@, pos: instr.pos }),
                    Option::Some(ops) => Ok(isa::InstructionV { mnemonic: m, operands: ops }),
                }
            }
        },
    }
}

/// The encoder's running state: the machine instructions so far, the
/// diagnostics so far, and the current global scope for local labels.
#[verifier::ext_equal]
pub struct ESt {
    pub instrs: Seq<isa::InstructionV>,
    pub diags: Seq<ErrorV>,
    pub scope: Option<Seq<char>>,
}

/// One encoder step: labels only move the scope; an instruction either
/// appends its machine form or leaves one diagnostic and is omitted.
pub open spec fn sp_encode_line(line: LineV, st: ESt, defs: Seq<LabelDefV>) -> ESt {
    match line {
        LineV::Label(l) => {
            if l.label_type == LabelType::Global {
                ESt { instrs: st.instrs, diags: st.diags, scope: Some(l.value) }
            } else {
                st
            }
        },
        LineV::Instruction(instr) => {
            match sp_classify(instr, st.scope, defs) {
                Result::Ok(mi) => ESt {
                    instrs: st.instrs.push(mi),
                    diags: st.diags,
                    scope: st.scope,
                },
                Result::Err(e) => ESt {
                    instrs: st.instrs,
                    diags: st.diags.push(e),
                    scope: st.scope,
                },
            }
        },
    }
}

/// The encoder's state after walking the lines from index `k` on.
pub open spec fn sp_encode_from(lines: Seq<LineV>, k: int, st: ESt, defs: Seq<LabelDefV>) -> ESt
    decreases lines.len() - k,
{
    if 0 <= k < lines.len() {
        sp_encode_from(lines, k + 1, sp_encode_line(lines[k], st, defs), defs)
    } else {
        st
    }
}

/// What encoding a line sequence against a label table gives.
pub open spec fn spec_encode(lines: Seq<LineV>, defs: Seq<LabelDefV>) -> ESt {
    sp_encode_from(
        lines,
        0,
        ESt { instrs: Seq::empty(), diags: Seq::empty(), scope: None },
        defs,
    )
}

/// Looks a label reference up, local names under the given scope.
fn resolve_ref(name: &String, scope: &Option<String>, table: &LabelTable) -> (r: Option<u32>)
    ensures
        r == sp_resolve_ref(name@, scope_view(*scope), table.defs.deep_view()),
{
    let n: usize = name.as_str().unicode_len();
    if n >= 1 && name.as_str().get_char(0) == '.' {
        match scope {
            None => None,
            Some(sc) => {
                let local = name.as_str().substring_char(1, n);
                let local_owned = String::from_str(local);
                table.lookup(sc, &local_owned)
            },
        }
    } else {
        let empty_scope = String::new();
        table.lookup(&empty_scope, name)
    }
}

/// Maps the operands of a non-jump instruction to machine operands.
fn map_operands(operands: &Vec<Operand>) -> (r: Option<Vec<isa::Operand>>)
    ensures
        (match sp_map_ops_from(operands.deep_view(), 0) {
            Option::Some(ops) => r matches Some(v) && v@ == ops,
            Option::None => r is None,
        }),
{
    let ghost dv = operands.deep_view();
    let mut out: Vec<isa::Operand> = Vec::new();
    let n: usize = operands.len();
    let mut k: usize = 0;
    while k < n
        invariant
            k <= n,
            n == dv.len(),
            dv == operands.deep_view(),
            sp_map_ops_from(dv, 0) == cons_ops(out@, sp_map_ops_from(dv, k as int)),
        decreases n - k,
    {
        proof {
            assert(dv[k as int] == operands[k as int].deep_view());
        }
        let ghost out_pre = out@;
        match &operands[k] {
            Operand::Value(Value::Id(name)) => {
                match register_of(name) {
                    Some(rg) => out.push(isa::Operand::Register(rg)),
                    None => {
                        proof {
                            assert(sp_map_ops_from(dv, k as int) is None);
                            assert(sp_map_ops_from(dv, 0) is None);
                        }
                        return None;
                    },
                }
            },
            Operand::Value(Value::Int(i)) => out.push(isa::Operand::Immidiate(*i)),
            Operand::Address(Value::Id(name)) => {
                match register_of(name) {
                    Some(rg) => out.push(isa::Operand::AddressRegister(rg)),
                    None => {
                        proof {
                            assert(sp_map_ops_from(dv, k as int) is None);
                            assert(sp_map_ops_from(dv, 0) is None);
                        }
                        return None;
                    },
                }
            },
            Operand::Address(Value::Int(i)) => out.push(
                isa::Operand::AddressImmidate(#[verifier::truncate] (*i as u32)),
            ),
        }
        proof {
            assert(out@ =~= out_pre + seq![out@[out@.len() - 1]]);
        }
        k = k + 1;
    }
    Some(out)
}

/// Encodes one instruction line, or says why it cannot be.
fn classify(instr: &Instruction, scope: &Option<String>, table: &LabelTable) -> (r: Result<
    isa::Instruction,
    Error,
>)
    ensures
        (match r {
            Result::Ok(mi) => sp_classify(
                instr.deep_view(),
                scope_view(*scope),
                table.defs.deep_view(),
            ) == Ok::<isa::InstructionV, ErrorV>(mi.deep_view()),
            Result::Err(e) => sp_classify(
                instr.deep_view(),
                scope_view(*scope),
                table.defs.deep_view(),
            ) == Err::<isa::InstructionV, ErrorV>(e@),
        }),
{
    let m = match mnemonic_of(&instr.operator) {
        None => {
            let msg = String::from_str("unknown mnemonic");
            return Err(Error { message: msg, pos: instr.pos });
        },
        Some(m) => m,
    };
    let a = arity(m);
    if instr.operands.len() != a {
        let msg = String::from_str("wrong operand count");
        return Err(Error { message: msg, pos: instr.pos });
    }
    if jump(m) {
        proof {
            assert(instr.deep_view().operands[0] == instr.operands[0].deep_view());
        }
        match &instr.operands[0] {
            Operand::Value(Value::Id(name)) => {
                match resolve_ref(name, scope, table) {
                    Some(off) => {
                        let mut ops: Vec<isa::Operand> = Vec::new();
                        ops.push(isa::Operand::AddressImmidate(off));
                        proof {
                            assert(ops@ =~= seq![isa::Operand::AddressImmidate(off)]);
                        }
                        Ok(isa::Instruction { mnemonic: m, operands: ops })
                    },
                    None => {
                        let msg = String::from_str("unresolved label");
                        Err(Error { message: msg, pos: instr.pos })
                    },
                }
            },
            _ => {
                let msg = String::from_str("expected label operand");
                Err(Error { message: msg, pos: instr.pos })
            },
        }
    } else {
        match map_operands(&instr.operands) {
            Some(ops) => Ok(isa::Instruction { mnemonic: m, operands: ops }),
            None => {
                let msg = String::from_str("unknown register");
                Err(Error { message: msg, pos: instr.pos })
            },
        }
    }
}

/// The second pass: walks the parsed lines with the finished label
/// table and produces the machine instructions, omitting each rejected
/// line with one diagnostic and going on with the next.
pub fn encode(lines: &Vec<Line>, table: &LabelTable) -> (r: (Vec<isa::Instruction>, Vec<Error>))
    ensures
        r.0.deep_view() =~= spec_encode(lines.deep_view(), table.defs.deep_view()).instrs,
        r.1.deep_view() =~= spec_encode(lines.deep_view(), table.defs.deep_view()).diags,
{
    let ghost dv = lines.deep_view();
    let ghost defs = table.defs.deep_view();
    let mut instrs: Vec<isa::Instruction> = Vec::new();
    let mut diags: Vec<Error> = Vec::new();
    let mut scope: Option<String> = None;
    let n: usize = lines.len();
    let mut k: usize = 0;
    proof {
        assert((ESt { instrs: instrs.deep_view(), diags: diags.deep_view(), scope: scope_view(
            scope,
        ) }) =~= (ESt { instrs: Seq::empty(), diags: Seq::empty(), scope: None }));
    }
    while k < n
        invariant
            k <= n,
            n == dv.len(),
            dv == lines.deep_view(),
            defs == table.defs.deep_view(),
            spec_encode(dv, defs) =~= sp_encode_from(
                dv,
                k as int,
                (ESt {
                    instrs: instrs.deep_view(),
                    diags: diags.deep_view(),
                    scope: scope_view(scope),
                }),
                defs,
            ),
        decreases n - k,
    {
        let ghost st_here = ESt {
            instrs: instrs.deep_view(),
            diags: diags.deep_view(),
            scope: scope_view(scope),
        };
        proof {
            assert(dv[k as int] == lines[k as int].deep_view());
        }
        match &lines[k] {
            Line::Label(l) => {
                match l.label_type {
                    LabelType::Global => {
                        scope = Some(l.value.clone());
                    },
                    LabelType::Local => (),
                }
            },
            Line::Instruction(instr) => {
                match classify(instr, &scope, table) {
                    Ok(mi) => {
                        let ghost pre = instrs.deep_view();
                        instrs.push(mi);
                        proof {
                            assert(instrs.deep_view() =~= pre.push(mi.deep_view()));
                        }
                    },
                    Err(e) => {
                        let ghost pre = diags.deep_view();
                        diags.push(e);
                        proof {
                            assert(diags.deep_view() =~= pre.push(e@));
                        }
                    },
                }
            },
        }
        proof {
            assert((ESt {
                instrs: instrs.deep_view(),
                diags: diags.deep_view(),
                scope: scope_view(scope),
            }) =~= sp_encode_line(dv[k as int], st_here, defs));
        }
        k = k + 1;
    }
    (instrs, diags)
}


/// Operands that map to machine form take exactly the bytes the sizing
/// rule counts for their shapes.
proof fn lemma_map_ops_bytes_len(ops: Seq<OperandV>, k: int)
    requires
        0 <= k <= ops.len(),
    ensures
        sp_map_ops_from(ops, k) matches Some(mops) ==> spec_ops_size_from(ops, k) == Some(
            spec_operands_bytes_from(mops, 0).len() as int,
        ),
    decreases ops.len() - k,
{
    if k < ops.len() {
        lemma_map_ops_bytes_len(ops, k + 1);
        match sp_map_op(ops[k]) {
            Option::Some(o) => {
                lemma_operand_bytes_len(o);
                match sp_map_ops_from(ops, k + 1) {
                    Option::Some(rest_m) => {
                        lemma_operands_bytes_shift(o, rest_m, 0);
                        let s = seq![o] + rest_m;
                        assert(s[0] == o);
                        assert(spec_operands_bytes_from(s, 0) == spec_operand_bytes(o)
                            + spec_operands_bytes_from(rest_m, 0));
                    },
                    Option::None => (),
                }
            },
            Option::None => (),
        }
    }
}

/// A line the encoder accepts lays down exactly the bytes the
/// resolver's sizing rule counted for it.
pub proof fn lemma_classified_size(
    instr: InstructionV,
    scope: Option<Seq<char>>,
    defs: Seq<LabelDefV>,
)
    ensures
        sp_classify(instr, scope, defs) matches Ok(mi) ==> spec_instr_bytes(mi).len()
            == spec_line_size(instr),
{
    match sp_classify(instr, scope, defs) {
        Result::Ok(mi) => {
            let m = spec_mnemonic_of(instr.operator)->Some_0;
            if is_jump(m) {
                let o = mi.operands[0];
                lemma_operand_bytes_len(o);
                assert(mi.operands =~= seq![o]);
                lemma_operands_bytes_shift(o, Seq::empty(), 0);
                assert(seq![o] + Seq::<isa::Operand>::empty() =~= seq![o]);
                assert(spec_operands_bytes_from(mi.operands, 0) == spec_operand_bytes(o)
                    + spec_operands_bytes_from(Seq::empty(), 0));
            } else {
                lemma_map_ops_bytes_len(instr.operands, 0);
            }
        },
        Result::Err(_) => (),
    }
}

/// Neither pass ever takes a diagnostic back.
proof fn lemma_encode_diags_monotone(lines: Seq<LineV>, k: int, st: ESt, defs: Seq<LabelDefV>)
    requires
        0 <= k <= lines.len(),
    ensures
        sp_encode_from(lines, k, st, defs).diags.len() >= st.diags.len(),
    decreases lines.len() - k,
{
    if k < lines.len() {
        lemma_encode_diags_monotone(lines, k + 1, sp_encode_line(lines[k], st, defs), defs);
    }
}

proof fn lemma_resolve_diags_monotone(lines: Seq<LineV>, k: int, st: RState)
    requires
        0 <= k <= lines.len(),
    ensures
        sp_resolve_from(lines, k, st).diags.len() >= st.diags.len(),
    decreases lines.len() - k,
{
    if k < lines.len() {
        lemma_resolve_diags_monotone(lines, k + 1, sp_resolve_line(lines[k], st));
    }
}

/// The walking step of the two-pass agreement: when neither pass
/// records another diagnostic from line `k` on, the bytes the encoder
/// adds from there amount exactly to the offsets the resolver counts.
proof fn lemma_two_pass_from(
    lines: Seq<LineV>,
    k: int,
    rst: RState,
    est: ESt,
    defs: Seq<LabelDefV>,
)
    requires
        0 <= k <= lines.len(),
        sp_resolve_from(lines, k, rst).diags.len() == rst.diags.len(),
        sp_encode_from(lines, k, est, defs).diags.len() == est.diags.len(),
        spec_instrs_bytes(est.instrs).len() == rst.off,
    ensures
        spec_instrs_bytes(sp_encode_from(lines, k, est, defs).instrs).len() == sp_resolve_from(
            lines,
            k,
            rst,
        ).off,
    decreases lines.len() - k,
{
    if k < lines.len() {
        let rst2 = sp_resolve_line(lines[k], rst);
        let est2 = sp_encode_line(lines[k], est, defs);
        lemma_resolve_diags_monotone(lines, k + 1, rst2);
        lemma_encode_diags_monotone(lines, k + 1, est2, defs);
        match lines[k] {
            LineV::Label(_) => {
                assert(est2.instrs == est.instrs);
                assert(rst2.off == rst.off);
            },
            LineV::Instruction(instr) => {
                lemma_line_size_bounds(instr);
                assert(rst2.diags.len() == rst.diags.len());
                assert(est2.diags.len() == est.diags.len());
                match sp_classify(instr, est.scope, defs) {
                    Result::Ok(mi) => {
                        lemma_classified_size(instr, est.scope, defs);
                        lemma_instrs_bytes_snoc(est.instrs, mi, 0);
                    },
                    Result::Err(_) => (),
                }
            },
        }
        lemma_two_pass_from(lines, k + 1, rst2, est2, defs);
    }
}

/// Law: the two passes agree — on a program where neither the resolver
/// nor the encoder records a diagnostic, the resolver's final offset is
/// exactly the number of bytes the encoder lays down: every label
/// offset the first pass computed points at the place in the byte
/// stream where its line's encoding begins.
pub proof fn lemma_two_pass_agreement(lines: Seq<LineV>)
    requires
        spec_resolve(lines).diags.len() == 0,
        spec_encode(lines, spec_resolve(lines).defs).diags.len() == 0,
    ensures
        spec_instrs_bytes(spec_encode(lines, spec_resolve(lines).defs).instrs).len()
            == spec_resolve(lines).off,
{
    lemma_two_pass_from(
        lines,
        0,
        sp_resolve_init(),
        ESt { instrs: Seq::empty(), diags: Seq::empty(), scope: None },
        spec_resolve(lines).defs,
    );
    assert(spec_instrs_bytes(Seq::<isa::InstructionV>::empty()) =~= Seq::<u8>::empty());
}

} // verus!
