use vstd::prelude::*;
use vstd::bytes::{spec_u32_to_le_bytes, spec_u32_from_le_bytes, lemma_auto_spec_u32_to_from_le_bytes};

verus! {

/// The fixed instruction set: each mnemonic has a one-byte opcode,
/// `0x00` for `Nop` up through `0x19` for `Jge`, in this order.
#[derive(Debug, Clone, Copy, PartialEq, Eq, Structural)]
pub enum Mnemonic {
    Nop,
    Hlt,
    Mov,
    Or,
    And,
    Xor,
    Not,
    Shl,
    Shr,
    Add,
    Sub,
    Mul,
    Imul,
    Div,
    Idiv,
    Rem,
    Cmp,
    Jmp,
    Jz,
    Jnz,
    Jeq,
    Jne,
    Jlt,
    Jle,
    Jgt,
    Jge,
}

/// The machine's registers and their one-byte codes: `R0`, `R1`, the
/// flags register and the program counter.
#[derive(Debug, Clone, Copy, PartialEq, Eq, Structural)]
pub enum Register {
    R0,
    R1,
    Fl,
    Pc,
}

/// A fully resolved operand, ready to encode: a register, an immediate,
/// or a memory address given by register or by resolved absolute offset.
#[derive(Debug, Clone, Copy, PartialEq, Eq, Structural)]
pub enum Operand {
    Register(Register),
    Immidiate(i32),
    AddressRegister(Register),
    AddressImmidate(u32),
}

/// A fully resolved machine instruction.
#[derive(Debug, Clone)]
pub struct Instruction {
    pub mnemonic: Mnemonic,
    pub operands: Vec<Operand>,
}

/// Mathematical image of a machine instruction.
#[verifier::ext_equal]
pub struct InstructionV {
    pub mnemonic: Mnemonic,
    pub operands: Seq<Operand>,
}

impl DeepView for Instruction {
    type V = InstructionV;

    open spec fn deep_view(&self) -> InstructionV {
        InstructionV { mnemonic: self.mnemonic, operands: self.operands@ }
    }
}

/// The opcode byte of each mnemonic.
pub open spec fn spec_opcode(m: Mnemonic) -> u8 {
    match m {
        Mnemonic::Nop => 0x00,
        Mnemonic::Hlt => 0x01,
        Mnemonic::Mov => 0x02,
        Mnemonic::Or => 0x03,
        Mnemonic::And => 0x04,
        Mnemonic::Xor => 0x05,
        Mnemonic::Not => 0x06,
        Mnemonic::Shl => 0x07,
        Mnemonic::Shr => 0x08,
        Mnemonic::Add => 0x09,
        Mnemonic::Sub => 0x0a,
        Mnemonic::Mul => 0x0b,
        Mnemonic::Imul => 0x0c,
        Mnemonic::Div => 0x0d,
        Mnemonic::Idiv => 0x0e,
        Mnemonic::Rem => 0x0f,
        Mnemonic::Cmp => 0x10,
        Mnemonic::Jmp => 0x11,
        Mnemonic::Jz => 0x12,
        Mnemonic::Jnz => 0x13,
        Mnemonic::Jeq => 0x14,
        Mnemonic::Jne => 0x15,
        Mnemonic::Jlt => 0x16,
        Mnemonic::Jle => 0x17,
        Mnemonic::Jgt => 0x18,
        Mnemonic::Jge => 0x19,
    }
}

/// The mnemonic a given opcode byte names, if any.
pub open spec fn spec_mnemonic_of_opcode(b: u8) -> Option<Mnemonic> {
    if b == 0x00 {
        Some(Mnemonic::Nop)
    } else if b == 0x01 {
        Some(Mnemonic::Hlt)
    } else if b == 0x02 {
        Some(Mnemonic::Mov)
    } else if b == 0x03 {
        Some(Mnemonic::Or)
    } else if b == 0x04 {
        Some(Mnemonic::And)
    } else if b == 0x05 {
        Some(Mnemonic::Xor)
    } else if b == 0x06 {
        Some(Mnemonic::Not)
    } else if b == 0x07 {
        Some(Mnemonic::Shl)
    } else if b == 0x08 {
        Some(Mnemonic::Shr)
    } else if b == 0x09 {
        Some(Mnemonic::Add)
    } else if b == 0x0a {
        Some(Mnemonic::Sub)
    } else if b == 0x0b {
        Some(Mnemonic::Mul)
    } else if b == 0x0c {
        Some(Mnemonic::Imul)
    } else if b == 0x0d {
        Some(Mnemonic::Div)
    } else if b == 0x0e {
        Some(Mnemonic::Idiv)
    } else if b == 0x0f {
        Some(Mnemonic::Rem)
    } else if b == 0x10 {
        Some(Mnemonic::Cmp)
    } else if b == 0x11 {
        Some(Mnemonic::Jmp)
    } else if b == 0x12 {
        Some(Mnemonic::Jz)
    } else if b == 0x13 {
        Some(Mnemonic::Jnz)
    } else if b == 0x14 {
        Some(Mnemonic::Jeq)
    } else if b == 0x15 {
        Some(Mnemonic::Jne)
    } else if b == 0x16 {
        Some(Mnemonic::Jlt)
    } else if b == 0x17 {
        Some(Mnemonic::Jle)
    } else if b == 0x18 {
        Some(Mnemonic::Jgt)
    } else if b == 0x19 {
        Some(Mnemonic::Jge)
    } else {
        None
    }
}

/// The code byte of each register.
pub open spec fn spec_reg_code(r: Register) -> u8 {
    match r {
        Register::R0 => 0,
        Register::R1 => 1,
        Register::Fl => 2,
        Register::Pc => 3,
    }
}

/// The register a given code byte names, if any.
pub open spec fn spec_reg_of_code(b: u8) -> Option<Register> {
    if b == 0 {
        Some(Register::R0)
    } else if b == 1 {
        Some(Register::R1)
    } else if b == 2 {
        Some(Register::Fl)
    } else if b == 3 {
        Some(Register::Pc)
    } else {
        None
    }
}

/// The jump-class mnemonics: they take one label operand, which the
/// encoder replaces by the label's resolved absolute offset.
pub open spec fn is_jump(m: Mnemonic) -> bool {
    ||| m == Mnemonic::Jmp
    ||| m == Mnemonic::Jz
    ||| m == Mnemonic::Jnz
    ||| m == Mnemonic::Jeq
    ||| m == Mnemonic::Jne
    ||| m == Mnemonic::Jlt
    ||| m == Mnemonic::Jle
    ||| m == Mnemonic::Jgt
    ||| m == Mnemonic::Jge
}

/// How many operands each mnemonic takes: none for `Nop`/`Hlt`, one for
/// `Not` and the jumps, two for the rest.
pub open spec fn spec_arity(m: Mnemonic) -> int {
    if m == Mnemonic::Nop || m == Mnemonic::Hlt {
        0
    } else if m == Mnemonic::Not || is_jump(m) {
        1
    } else {
        2
    }
}

/// A machine instruction whose operand count fits its mnemonic.
pub open spec fn instr_wf(i: InstructionV) -> bool {
    i.operands.len() == spec_arity(i.mnemonic)
}

/// The encoding of one operand: a descriptor byte that names its kind,
/// then the payload — one byte for a register code, four little-endian
/// bytes for an immediate or an address.
pub open spec fn spec_operand_bytes(o: Operand) -> Seq<u8> {
    match o {
        Operand::Register(r) => seq![0u8, spec_reg_code(r)],
        Operand::Immidiate(i) => seq![1u8] + spec_u32_to_le_bytes(i as u32),
        Operand::AddressRegister(r) => seq![2u8, spec_reg_code(r)],
        Operand::AddressImmidate(a) => seq![3u8] + spec_u32_to_le_bytes(a),
    }
}

/// The bytes of the operands from index `k` on, in order.
pub open spec fn spec_operands_bytes_from(ops: Seq<Operand>, k: int) -> Seq<u8>
    decreases ops.len() - k,
{
    if 0 <= k < ops.len() {
        spec_operand_bytes(ops[k]) + spec_operands_bytes_from(ops, k + 1)
    } else {
        Seq::empty()
    }
}

/// The encoding of one instruction: its opcode byte, then its operands.
pub open spec fn spec_instr_bytes(i: InstructionV) -> Seq<u8> {
    seq![spec_opcode(i.mnemonic)] + spec_operands_bytes_from(i.operands, 0)
}

/// The bytes of the instructions from index `k` on, in order.
pub open spec fn spec_instrs_bytes_from(instrs: Seq<InstructionV>, k: int) -> Seq<u8>
    decreases instrs.len() - k,
{
    if 0 <= k < instrs.len() {
        spec_instr_bytes(instrs[k]) + spec_instrs_bytes_from(instrs, k + 1)
    } else {
        Seq::empty()
    }
}

/// The byte stream of a whole instruction sequence.
pub open spec fn spec_instrs_bytes(instrs: Seq<InstructionV>) -> Seq<u8> {
    spec_instrs_bytes_from(instrs, 0)
}

/// Encoded size of one operand: descriptor plus payload.
pub open spec fn spec_operand_size(o: Operand) -> int {
    match o {
        Operand::Register(_) => 2,
        Operand::Immidiate(_) => 5,
        Operand::AddressRegister(_) => 2,
        Operand::AddressImmidate(_) => 5,
    }
}

/// The opcode byte of `m`.
pub fn opcode(m: Mnemonic) -> (r: u8)
    ensures
        r == spec_opcode(m),
{
    match m {
        Mnemonic::Nop => 0x00,
        Mnemonic::Hlt => 0x01,
        Mnemonic::Mov => 0x02,
        Mnemonic::Or => 0x03,
        Mnemonic::And => 0x04,
        Mnemonic::Xor => 0x05,
        Mnemonic::Not => 0x06,
        Mnemonic::Shl => 0x07,
        Mnemonic::Shr => 0x08,
        Mnemonic::Add => 0x09,
        Mnemonic::Sub => 0x0a,
        Mnemonic::Mul => 0x0b,
        Mnemonic::Imul => 0x0c,
        Mnemonic::Div => 0x0d,
        Mnemonic::Idiv => 0x0e,
        Mnemonic::Rem => 0x0f,
        Mnemonic::Cmp => 0x10,
        Mnemonic::Jmp => 0x11,
        Mnemonic::Jz => 0x12,
        Mnemonic::Jnz => 0x13,
        Mnemonic::Jeq => 0x14,
        Mnemonic::Jne => 0x15,
        Mnemonic::Jlt => 0x16,
        Mnemonic::Jle => 0x17,
        Mnemonic::Jgt => 0x18,
        Mnemonic::Jge => 0x19,
    }
}

/// The code byte of register `r`.
pub fn reg_code(r: Register) -> (c: u8)
    ensures
        c == spec_reg_code(r),
{
    match r {
        Register::R0 => 0,
        Register::R1 => 1,
        Register::Fl => 2,
        Register::Pc => 3,
    }
}


/// The mnemonic a piece of source text names, if any (lower case only).
pub open spec fn spec_mnemonic_of(name: Seq<char>) -> Option<Mnemonic> {
    if name == "nop"@ {
        Some(Mnemonic::Nop)
    } else if name == "hlt"@ {
        Some(Mnemonic::Hlt)
    } else if name == "mov"@ {
        Some(Mnemonic::Mov)
    } else if name == "or"@ {
        Some(Mnemonic::Or)
    } else if name == "and"@ {
        Some(Mnemonic::And)
    } else if name == "xor"@ {
        Some(Mnemonic::Xor)
    } else if name == "not"@ {
        Some(Mnemonic::Not)
    } else if name == "shl"@ {
        Some(Mnemonic::Shl)
    } else if name == "shr"@ {
        Some(Mnemonic::Shr)
    } else if name == "add"@ {
        Some(Mnemonic::Add)
    } else if name == "sub"@ {
        Some(Mnemonic::Sub)
    } else if name == "mul"@ {
        Some(Mnemonic::Mul)
    } else if name == "imul"@ {
        Some(Mnemonic::Imul)
    } else if name == "div"@ {
        Some(Mnemonic::Div)
    } else if name == "idiv"@ {
        Some(Mnemonic::Idiv)
    } else if name == "rem"@ {
        Some(Mnemonic::Rem)
    } else if name == "cmp"@ {
        Some(Mnemonic::Cmp)
    } else if name == "jmp"@ {
        Some(Mnemonic::Jmp)
    } else if name == "jz"@ {
        Some(Mnemonic::Jz)
    } else if name == "jnz"@ {
        Some(Mnemonic::Jnz)
    } else if name == "jeq"@ {
        Some(Mnemonic::Jeq)
    } else if name == "jne"@ {
        Some(Mnemonic::Jne)
    } else if name == "jlt"@ {
        Some(Mnemonic::Jlt)
    } else if name == "jle"@ {
        Some(Mnemonic::Jle)
    } else if name == "jgt"@ {
        Some(Mnemonic::Jgt)
    } else if name == "jge"@ {
        Some(Mnemonic::Jge)
    } else {
        None
    }
}

/// The register a piece of source text names, if any (lower case only).
pub open spec fn spec_register_of(name: Seq<char>) -> Option<Register> {
    if name == "r0"@ {
        Some(Register::R0)
    } else if name == "r1"@ {
        Some(Register::R1)
    } else if name == "fl"@ {
        Some(Register::Fl)
    } else if name == "pc"@ {
        Some(Register::Pc)
    } else {
        None
    }
}

/// Whether `name` reads as the literal `lit`.
fn name_is(name: &String, lit: &str) -> (r: bool)
    ensures
        r == (name@ == lit@),
{
    let l = String::from_str(lit);
    name.eq(&l)
}

/// The mnemonic `name` names, if any.
pub fn mnemonic_of(name: &String) -> (r: Option<Mnemonic>)
    ensures
        r == spec_mnemonic_of(name@),
{
    if name_is(name, "nop") {
        Some(Mnemonic::Nop)
    } else if name_is(name, "hlt") {
        Some(Mnemonic::Hlt)
    } else if name_is(name, "mov") {
        Some(Mnemonic::Mov)
    } else if name_is(name, "or") {
        Some(Mnemonic::Or)
    } else if name_is(name, "and") {
        Some(Mnemonic::And)
    } else if name_is(name, "xor") {
        Some(Mnemonic::Xor)
    } else if name_is(name, "not") {
        Some(Mnemonic::Not)
    } else if name_is(name, "shl") {
        Some(Mnemonic::Shl)
    } else if name_is(name, "shr") {
        Some(Mnemonic::Shr)
    } else if name_is(name, "add") {
        Some(Mnemonic::Add)
    } else if name_is(name, "sub") {
        Some(Mnemonic::Sub)
    } else if name_is(name, "mul") {
        Some(Mnemonic::Mul)
    } else if name_is(name, "imul") {
        Some(Mnemonic::Imul)
    } else if name_is(name, "div") {
        Some(Mnemonic::Div)
    } else if name_is(name, "idiv") {
        Some(Mnemonic::Idiv)
    } else if name_is(name, "rem") {
        Some(Mnemonic::Rem)
    } else if name_is(name, "cmp") {
        Some(Mnemonic::Cmp)
    } else if name_is(name, "jmp") {
        Some(Mnemonic::Jmp)
    } else if name_is(name, "jz") {
        Some(Mnemonic::Jz)
    } else if name_is(name, "jnz") {
        Some(Mnemonic::Jnz)
    } else if name_is(name, "jeq") {
        Some(Mnemonic::Jeq)
    } else if name_is(name, "jne") {
        Some(Mnemonic::Jne)
    } else if name_is(name, "jlt") {
        Some(Mnemonic::Jlt)
    } else if name_is(name, "jle") {
        Some(Mnemonic::Jle)
    } else if name_is(name, "jgt") {
        Some(Mnemonic::Jgt)
    } else if name_is(name, "jge") {
        Some(Mnemonic::Jge)
    } else {
        None
    }
}

/// The register `name` names, if any.
pub fn register_of(name: &String) -> (r: Option<Register>)
    ensures
        r == spec_register_of(name@),
{
    if name_is(name, "r0") {
        Some(Register::R0)
    } else if name_is(name, "r1") {
        Some(Register::R1)
    } else if name_is(name, "fl") {
        Some(Register::Fl)
    } else if name_is(name, "pc") {
        Some(Register::Pc)
    } else {
        None
    }
}

/// Whether `m` is a jump mnemonic.
pub fn jump(m: Mnemonic) -> (r: bool)
    ensures
        r == is_jump(m),
{
    match m {
        Mnemonic::Jmp | Mnemonic::Jz | Mnemonic::Jnz | Mnemonic::Jeq | Mnemonic::Jne
            | Mnemonic::Jlt | Mnemonic::Jle | Mnemonic::Jgt | Mnemonic::Jge => true,
        _ => false,
    }
}

/// How many operands `m` takes.
pub fn arity(m: Mnemonic) -> (r: usize)
    ensures
        r == spec_arity(m),
{
    match m {
        Mnemonic::Nop | Mnemonic::Hlt => 0,
        Mnemonic::Not | Mnemonic::Jmp | Mnemonic::Jz | Mnemonic::Jnz | Mnemonic::Jeq
            | Mnemonic::Jne | Mnemonic::Jlt | Mnemonic::Jle | Mnemonic::Jgt | Mnemonic::Jge => 1,
        _ => 2,
    }
}


/// Operands read back from the head of `bytes`: `n` of them, each a
/// descriptor byte then its payload. Gives the operands and how many
/// bytes they took, or nothing if the bytes do not parse.
pub open spec fn spec_decode_operands(bytes: Seq<u8>, n: int) -> Option<(Seq<Operand>, int)>
    decreases n,
{
    if n <= 0 {
        Some((Seq::empty(), 0))
    } else if bytes.len() < 1 {
        None
    } else {
        let d = bytes[0];
        if d == 0 || d == 2 {
            if bytes.len() < 2 {
                None
            } else {
                match spec_reg_of_code(bytes[1]) {
                    Option::None => None,
                    Option::Some(r) => match spec_decode_operands(bytes.skip(2), n - 1) {
                        Option::None => None,
                        Option::Some(rest) => Some(
                            (
                                seq![
                                    if d == 0 {
                                        Operand::Register(r)
                                    } else {
                                        Operand::AddressRegister(r)
                                    },
                                ] + rest.0,
                                2 + rest.1,
                            ),
                        ),
                    },
                }
            }
        } else if d == 1 || d == 3 {
            if bytes.len() < 5 {
                None
            } else {
                let v = spec_u32_from_le_bytes(bytes.subrange(1, 5));
                match spec_decode_operands(bytes.skip(5), n - 1) {
                    Option::None => None,
                    Option::Some(rest) => Some(
                        (
                            seq![
                                if d == 1 {
                                    Operand::Immidiate(v as i32)
                                } else {
                                    Operand::AddressImmidate(v)
                                },
                            ] + rest.0,
                            5 + rest.1,
                        ),
                    ),
                }
            }
        } else {
            None
        }
    }
}

/// Decoded operands take between zero bytes and the whole input.
pub proof fn lemma_decode_operands_used(bytes: Seq<u8>, n: int)
    ensures
        spec_decode_operands(bytes, n) matches Some(r) ==> 0 <= r.1 <= bytes.len(),
    decreases n,
{
    if n > 0 && bytes.len() >= 2 {
        lemma_decode_operands_used(bytes.skip(2), n - 1);
    }
    if n > 0 && bytes.len() >= 5 {
        lemma_decode_operands_used(bytes.skip(5), n - 1);
    }
}

/// The instruction stream read back from `bytes` under the fixed
/// layout: opcode byte, then the mnemonic's operand count of encoded
/// operands, again and again to the end.
pub open spec fn spec_decode(bytes: Seq<u8>) -> Option<Seq<InstructionV>>
    decreases bytes.len(),
    when true
    via spec_decode_decreases
{
    if bytes.len() == 0 {
        Some(Seq::empty())
    } else {
        match spec_mnemonic_of_opcode(bytes[0]) {
            Option::None => None,
            Option::Some(m) => match spec_decode_operands(bytes.skip(1), spec_arity(m)) {
                Option::None => None,
                Option::Some(opr) => match spec_decode(bytes.skip(1 + opr.1)) {
                    Option::None => None,
                    Option::Some(rest) => Some(
                        seq![InstructionV { mnemonic: m, operands: opr.0 }] + rest,
                    ),
                },
            },
        }
    }
}

#[via_fn]
proof fn spec_decode_decreases(bytes: Seq<u8>) {
    if bytes.len() > 0 {
        match spec_mnemonic_of_opcode(bytes[0]) {
            Option::Some(m) => {
                lemma_decode_operands_used(bytes.skip(1), spec_arity(m));
            },
            Option::None => (),
        }
    }
}

/// Reading the encoded operands back gives exactly the operands that
/// were encoded, whatever bytes follow them.
pub proof fn lemma_decode_operands_roundtrip(ops: Seq<Operand>, k: int, tail: Seq<u8>)
    requires
        0 <= k <= ops.len(),
    ensures
        spec_decode_operands(spec_operands_bytes_from(ops, k) + tail, ops.len() - k) == Some(
            (ops.skip(k), spec_operands_bytes_from(ops, k).len() as int),
        ),
    decreases ops.len() - k,
{
    lemma_auto_spec_u32_to_from_le_bytes();
    if k == ops.len() {
        assert(spec_operands_bytes_from(ops, k) + tail =~= tail);
        assert(ops.skip(k) =~= Seq::<Operand>::empty());
    } else {
        lemma_decode_operands_roundtrip(ops, k + 1, tail);
        let o = ops[k];
        let ob = spec_operand_bytes(o);
        let rest_b = spec_operands_bytes_from(ops, k + 1);
        let bytes = spec_operands_bytes_from(ops, k) + tail;
        assert(bytes =~= ob + (rest_b + tail));
        match o {
            Operand::Register(r) => {
                assert(bytes.skip(2) =~= rest_b + tail);
                assert(seq![o] + ops.skip(k + 1) =~= ops.skip(k));
            },
            Operand::AddressRegister(r) => {
                assert(bytes.skip(2) =~= rest_b + tail);
                assert(seq![o] + ops.skip(k + 1) =~= ops.skip(k));
            },
            Operand::Immidiate(i) => {
                assert(bytes.subrange(1, 5) =~= spec_u32_to_le_bytes(i as u32));
                assert(bytes.skip(5) =~= rest_b + tail);
                assert((i as u32) as i32 == i) by (bit_vector);
                assert(seq![o] + ops.skip(k + 1) =~= ops.skip(k));
            },
            Operand::AddressImmidate(a) => {
                assert(bytes.subrange(1, 5) =~= spec_u32_to_le_bytes(a));
                assert(bytes.skip(5) =~= rest_b + tail);
                assert(seq![o] + ops.skip(k + 1) =~= ops.skip(k));
            },
        }
    }
}

/// The opcode byte names its own mnemonic back.
pub proof fn lemma_opcode_roundtrip(m: Mnemonic)
    ensures
        spec_mnemonic_of_opcode(spec_opcode(m)) == Some(m),
{
}

/// Decoding the encoded tail of an instruction sequence gives back the
/// tail itself.
proof fn lemma_decode_from(instrs: Seq<InstructionV>, k: int)
    requires
        0 <= k <= instrs.len(),
        forall|j: int| 0 <= j < instrs.len() ==> instr_wf(#[trigger] instrs[j]),
    ensures
        spec_decode(spec_instrs_bytes_from(instrs, k)) == Some(instrs.skip(k)),
    decreases instrs.len() - k,
{
    if k == instrs.len() {
        assert(spec_instrs_bytes_from(instrs, k) =~= Seq::<u8>::empty());
        assert(instrs.skip(k) =~= Seq::<InstructionV>::empty());
    } else {
        lemma_decode_from(instrs, k + 1);
        let i = instrs[k];
        let m = i.mnemonic;
        let ob = spec_operands_bytes_from(i.operands, 0);
        let rest_b = spec_instrs_bytes_from(instrs, k + 1);
        let bytes = spec_instrs_bytes_from(instrs, k);
        assert(bytes =~= seq![spec_opcode(m)] + (ob + rest_b));
        lemma_opcode_roundtrip(m);
        assert(bytes[0] == spec_opcode(m));
        assert(bytes.skip(1) =~= ob + rest_b);
        lemma_decode_operands_roundtrip(i.operands, 0, rest_b);
        assert(i.operands.skip(0) =~= i.operands);
        assert(spec_decode_operands(bytes.skip(1), spec_arity(m)) == Some(
            (i.operands, ob.len() as int),
        ));
        assert(bytes.skip(1 + ob.len() as int) =~= rest_b);
        assert((InstructionV { mnemonic: m, operands: i.operands }) =~= i);
        assert(seq![i] + instrs.skip(k + 1) =~= instrs.skip(k));
    }
}

/// Law: the encoding loses nothing — decoding the encoder's byte
/// stream under the fixed opcode and operand-descriptor layout gives
/// back exactly the machine instructions that were encoded, for every
/// sequence of well-formed instructions.
pub proof fn lemma_encode_decode_roundtrip(instrs: Seq<InstructionV>)
    requires
        forall|j: int| 0 <= j < instrs.len() ==> instr_wf(#[trigger] instrs[j]),
    ensures
        spec_decode(spec_instrs_bytes(instrs)) == Some(instrs),
{
    lemma_decode_from(instrs, 0);
    assert(instrs.skip(0) =~= instrs);
}

/// Law: encoding is deterministic — two byte streams laid down for the
/// same machine instructions are identical, so encoding the same
/// resolved program twice gives byte-identical output.
pub proof fn lemma_encode_deterministic(instrs: Seq<InstructionV>, b1: Seq<u8>, b2: Seq<u8>)
    requires
        b1 == spec_instrs_bytes(instrs),
        b2 == spec_instrs_bytes(instrs),
    ensures
        b1 == b2,
{
}


/// Each encoded operand takes exactly its declared size in bytes.
pub proof fn lemma_operand_bytes_len(o: Operand)
    ensures
        spec_operand_bytes(o).len() == spec_operand_size(o),
{
    lemma_auto_spec_u32_to_from_le_bytes();
}

/// Dropping a leading operand shifts the byte tail by one index.
pub proof fn lemma_operands_bytes_shift(o: Operand, rest: Seq<Operand>, k: int)
    requires
        0 <= k,
    ensures
        spec_operands_bytes_from(seq![o] + rest, k + 1) == spec_operands_bytes_from(rest, k),
    decreases rest.len() - k,
{
    let s = seq![o] + rest;
    if k < rest.len() {
        lemma_operands_bytes_shift(o, rest, k + 1);
        assert(s[k + 1] == rest[k]);
    }
}

/// An appended instruction appends exactly its own bytes.
pub proof fn lemma_instrs_bytes_snoc(instrs: Seq<InstructionV>, i: InstructionV, k: int)
    requires
        0 <= k <= instrs.len(),
    ensures
        spec_instrs_bytes_from(instrs.push(i), k) == spec_instrs_bytes_from(instrs, k)
            + spec_instr_bytes(i),
    decreases instrs.len() - k,
{
    let s = instrs.push(i);
    if k < instrs.len() {
        lemma_instrs_bytes_snoc(instrs, i, k + 1);
        assert(s[k] == instrs[k]);
        assert(spec_instrs_bytes_from(s, k) =~= spec_instrs_bytes_from(instrs, k)
            + spec_instr_bytes(i));
    } else {
        assert(s[k] == i);
        assert(spec_operands_bytes_from(i.operands, 0) + Seq::<u8>::empty()
            =~= spec_operands_bytes_from(i.operands, 0));
        assert(spec_instrs_bytes_from(s, k + 1) =~= Seq::<u8>::empty());
        assert(spec_instrs_bytes_from(instrs, k) =~= Seq::<u8>::empty());
        assert(spec_instrs_bytes_from(s, k) =~= Seq::<u8>::empty() + spec_instr_bytes(i));
    }
}

} // verus!
