//! Public keys and instructions.

use vstd::prelude::*;

verus! {

/// The address of an account: an ed25519 public key, or a program-derived
/// address of the same size.
#[derive(Debug, Clone, Copy)]
pub struct Pubkey(pub [u8; 32]);

impl PartialEq for Pubkey {
    fn eq(&self, other: &Self) -> (same: bool) {
        let mut i: usize = 0;
        while i < 32
            invariant
                i <= 32,
                forall|k: int| 0 <= k < i ==> self.0[k] == other.0[k],
            decreases 32 - i,
        {
            if self.0[i] != other.0[i] {
                return false;
            }
            i += 1;
        }
        assert(self.0 =~= other.0);
        true
    }
}

impl vstd::std_specs::cmp::PartialEqSpecImpl for Pubkey {
    open spec fn obeys_eq_spec() -> bool {
        true
    }

    open spec fn eq_spec(&self, other: &Self) -> bool {
        *self == *other
    }
}

impl Eq for Pubkey {

}

/// An account that an instruction reads or writes.
#[derive(Debug, Clone, Copy, PartialEq, Eq)]
pub struct AccountMeta {
    pub pubkey: Pubkey,
    pub is_signer: bool,
    pub is_writable: bool,
}

/// A call of a program.
#[derive(Debug, PartialEq, Eq)]
pub struct Instruction {
    pub program_id: Pubkey,
    pub accounts: Vec<AccountMeta>,
    pub data: Vec<u8>,
}

/// What an `Instruction` holds.
#[verifier::ext_equal]
pub struct InstructionView {
    pub program_id: Pubkey,
    pub accounts: Seq<AccountMeta>,
    pub data: Seq<u8>,
}

impl View for Instruction {
    type V = InstructionView;

    open spec fn view(&self) -> InstructionView {
        InstructionView {
            program_id: self.program_id,
            accounts: self.accounts@,
            data: self.data@,
        }
    }
}

/// What each of `instructions` holds.
pub open spec fn instruction_views(instructions: Seq<Instruction>) -> Seq<InstructionView> {
    Seq::new(instructions.len(), |i: int| instructions[i]@)
}

impl Clone for Instruction {
    fn clone(&self) -> (copy: Self)
        ensures
            copy@ == self@,
    {
        let copy = Instruction {
            program_id: self.program_id,
            accounts: self.accounts.clone(),
            data: self.data.clone(),
        };
        assert(copy@ =~= self@);
        copy
    }
}

/// A call of a program inside a message: its accounts are given by their place
/// among the message's account keys.
#[derive(Debug, PartialEq, Eq)]
pub struct CompiledInstruction {
    pub program_id_index: u8,
    pub accounts: Vec<u8>,
    pub data: Vec<u8>,
}

/// What a `CompiledInstruction` holds.
#[verifier::ext_equal]
pub struct CompiledInstructionView {
    pub program_id_index: u8,
    pub accounts: Seq<u8>,
    pub data: Seq<u8>,
}

impl View for CompiledInstruction {
    type V = CompiledInstructionView;

    open spec fn view(&self) -> CompiledInstructionView {
        CompiledInstructionView {
            program_id_index: self.program_id_index,
            accounts: self.accounts@,
            data: self.data@,
        }
    }
}

/// What each of `instructions` holds.
pub open spec fn compiled_views(instructions: Seq<CompiledInstruction>) -> Seq<
    CompiledInstructionView,
> {
    Seq::new(instructions.len(), |i: int| instructions[i]@)
}

impl Clone for CompiledInstruction {
    fn clone(&self) -> (copy: Self)
        ensures
            copy@ == self@,
    {
        let copy = CompiledInstruction {
            program_id_index: self.program_id_index,
            accounts: self.accounts.clone(),
            data: self.data.clone(),
        };
        assert(copy@ =~= self@);
        copy
    }
}

/// Nothing of an instruction is left out where it is told of: its program, its
/// accounts in their order, and its data byte for byte.
pub proof fn law_instruction_is_told_in_full(instruction: Instruction)
    ensures
        instruction@.program_id == instruction.program_id,
        instruction@.accounts == instruction.accounts@,
        instruction@.data == instruction.data@,
{
}

/// Nothing of a compiled instruction is left out where it is told of.
pub proof fn law_compiled_instruction_is_told_in_full(instruction: CompiledInstruction)
    ensures
        instruction@.program_id_index == instruction.program_id_index,
        instruction@.accounts == instruction.accounts@,
        instruction@.data == instruction.data@,
{
}

/// Lists of instructions are told one by one, in their order.
pub proof fn law_instructions_are_told_in_order(
    instructions: Seq<Instruction>,
    compiled: Seq<CompiledInstruction>,
)
    ensures
        instruction_views(instructions).len() == instructions.len(),
        forall|i: int|
            0 <= i < instructions.len() ==> #[trigger] instruction_views(instructions)[i]
                == instructions[i]@,
        compiled_views(compiled).len() == compiled.len(),
        forall|i: int|
            0 <= i < compiled.len() ==> #[trigger] compiled_views(compiled)[i] == compiled[i]@,
{
}

} // verus!
