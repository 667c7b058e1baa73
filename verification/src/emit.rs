use vstd::prelude::*;
use vstd::bytes::u32_to_le_bytes;
use crate::isa::{
    Instruction, Operand, opcode, reg_code, spec_instr_bytes, spec_instrs_bytes,
    spec_instrs_bytes_from, spec_operand_bytes, spec_operands_bytes_from,
};

verus! {

/// An error of the byte emitter. Fully resolved instructions always
/// encode, so no value of this type is ever made.
#[derive(Debug)]
pub struct EmitError;

/// Lays machine instructions down as bytes: one opcode byte per
/// instruction, then one descriptor byte and the payload per operand.
pub struct Emitter {
    pub result: Vec<u8>,
}

impl Emitter {
    /// A fresh emitter with no bytes laid down.
    pub fn new() -> (r: Emitter)
        ensures
            r.result@ =~= Seq::<u8>::empty(),
    {
        Emitter { result: vec![] }
    }

    /// The bytes laid down so far.
    pub fn into_bytes(self) -> (r: Vec<u8>)
        ensures
            r == self.result,
    {
        self.result
    }

    /// Appends the encoding of every instruction, in order. Encoding a
    /// resolved instruction cannot fail: the result is always `Ok`, and
    /// the same instructions always lay down the same bytes.
    pub fn emit(&mut self, instructions: &[Instruction]) -> (r: Result<(), EmitError>)
        ensures
            final(self).result@ =~= old(self).result@ + spec_instrs_bytes(
                instructions.deep_view(),
            ),
            r is Ok,
    {
        let ghost dv = instructions.deep_view();
        let n: usize = instructions.len();
        let mut k: usize = 0;
        while k < n
            invariant
                k <= n,
                n == dv.len(),
                dv == instructions.deep_view(),
                self.result@ + spec_instrs_bytes_from(dv, k as int) =~= old(
                    self,
                ).result@ + spec_instrs_bytes_from(dv, 0),
            decreases n - k,
        {
            let ghost before = self.result@;
            match self.emit_instruction(&instructions[k]) {
                Ok(()) => (),
                Err(e) => {
                    return Err(e);
                },
            }
            proof {
                assert(dv[k as int] == instructions[k as int].deep_view());
                assert(self.result@ =~= before + spec_instr_bytes(dv[k as int]));
            }
            k = k + 1;
        }
        Ok(())
    }

    /// Appends the encoding of one instruction: opcode byte, then each
    /// operand as descriptor byte plus payload.
    fn emit_instruction(&mut self, instruction: &Instruction) -> (r: Result<(), EmitError>)
        ensures
            final(self).result@ =~= old(self).result@ + spec_instr_bytes(
                instruction.deep_view(),
            ),
            r is Ok,
    {
        let ghost ops = instruction.operands@;
        self.result.push(opcode(instruction.mnemonic));
        let n: usize = instruction.operands.len();
        let mut k: usize = 0;
        while k < n
            invariant
                k <= n,
                n == ops.len(),
                ops == instruction.operands@,
                self.result@ + spec_operands_bytes_from(ops, k as int) =~= old(
                    self,
                ).result@ + seq![crate::isa::spec_opcode(instruction.mnemonic)]
                    + spec_operands_bytes_from(ops, 0),
            decreases n - k,
        {
            let ghost before = self.result@;
            let op = instruction.operands[k];
            match op {
                Operand::Register(r) => {
                    self.result.push(0);
                    self.result.push(reg_code(r));
                },
                Operand::Immidiate(i) => {
                    self.result.push(1);
                    let mut le = u32_to_le_bytes(#[verifier::truncate] (i as u32));
                    self.result.append(&mut le);
                },
                Operand::AddressRegister(r) => {
                    self.result.push(2);
                    self.result.push(reg_code(r));
                },
                Operand::AddressImmidate(a) => {
                    self.result.push(3);
                    let mut le = u32_to_le_bytes(a);
                    self.result.append(&mut le);
                },
            }
            proof {
                assert(self.result@ =~= before + spec_operand_bytes(ops[k as int]));
            }
            k = k + 1;
        }
        Ok(())
    }
}

} // verus!
