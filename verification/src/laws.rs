use vstd::prelude::*;
use crate::Chip8Error;
use crate::state::{
    addr_field, execute_spec, is_defined_opcode, low_byte, nib0, nib1, nib2, nib3, state_wf,
    MachineState, STACK_CAPACITY,
};
use vstd::arithmetic::div_mod::{
    lemma_fundamental_div_mod, lemma_fundamental_div_mod_converse, lemma_mod_multiples_vanish,
    lemma_small_mod,
};

verus! {

// The laws of the instruction set that relate several transitions, stated
// over the spec-level semantics that `Processor::execute` is proved to
// implement.

/// Law: for every register index `r` and byte `b`, executing the
/// "load immediate" opcode built from them writes `b` into register `r`
/// and leaves every other part of the state — the other registers
/// included — unchanged.
pub proof fn lemma_load_immediate(s: MachineState, rand: u8, r: int, b: u8)
    requires
        state_wf(s),
        0 <= r < 16,
        s.instruction == 0x6000 + r * 0x100 + b,
    ensures
        execute_spec(s, rand) == Ok::<MachineState, Chip8Error>(
            (MachineState { registers: s.registers.update(r, b), ..s }),
        ),
{
    let i = s.instruction;
    lemma_fundamental_div_mod_converse(i as int, 0x1000, 6, r * 0x100 + b);
    assert(nib0(i) == 6);
    lemma_fundamental_div_mod_converse(i as int, 0x100, 0x60 + r, b as int);
    assert(i as int / 0x100 == 0x60 + r);
    lemma_mod_multiples_vanish(6, r, 0x10);
    lemma_small_mod(r as nat, 0x10);
    assert(nib1(i) == r);
    assert(low_byte(i) == b);
    assert(execute_spec(s, rand) == Ok::<MachineState, Chip8Error>(
        (MachineState { registers: s.registers.update(r, b), ..s }),
    ));
}

/// Law: a subroutine call followed by its return comes back. Executing a
/// call opcode from state `s` jumps to the call's address and pushes the
/// program counter; executing a return with that stack restores the
/// program counter to the instruction after the call and the stack to what
/// it was — at every nesting depth the capacity admits.
pub proof fn lemma_call_ret_round_trip(s: MachineState, t: MachineState, rand1: u8, rand2: u8)
    requires
        nib0(s.instruction) == 0x2,
        s.stack.len() < STACK_CAPACITY,
        t.instruction == 0x00EE,
        t.stack == execute_spec(s, rand1)->Ok_0.stack,
    ensures
        execute_spec(s, rand1) is Ok,
        execute_spec(s, rand1)->Ok_0.program_counter == addr_field(s.instruction),
        execute_spec(s, rand1)->Ok_0.stack == s.stack.push(s.program_counter),
        execute_spec(t, rand2) is Ok,
        execute_spec(t, rand2)->Ok_0.program_counter == s.program_counter,
        execute_spec(t, rand2)->Ok_0.stack == s.stack,
{
    let i = s.instruction;
    assert(2 * 0x1000 <= i < 3 * 0x1000) by {
        lemma_fundamental_div_mod(i as int, 0x1000);
    }
    let s1 = execute_spec(s, rand1)->Ok_0;
    assert(s1.stack == s.stack.push(s.program_counter));
    assert(nib0(t.instruction) == 0 && nib1(t.instruction) == 0 && nib2(t.instruction) == 0xE
        && nib3(t.instruction) == 0xE);
    let t2 = execute_spec(t, rand2)->Ok_0;
    assert(t2.program_counter == t.stack.last());
    assert(t.stack.last() == s.program_counter);
    assert(t2.stack =~= s.stack);
}

/// Law: a call at capacity is a fatal stack overflow that changes nothing,
/// and below capacity — the capacity-th call included — it succeeds.
pub proof fn lemma_call_at_capacity(s: MachineState, rand: u8)
    requires
        nib0(s.instruction) == 0x2,
    ensures
        s.stack.len() >= STACK_CAPACITY ==> execute_spec(s, rand) == Err::<
            MachineState,
            Chip8Error,
        >(Chip8Error::StackOverflow),
        s.stack.len() < STACK_CAPACITY ==> execute_spec(s, rand) is Ok,
{
    let i = s.instruction;
    assert(2 * 0x1000 <= i < 3 * 0x1000) by {
        lemma_fundamental_div_mod(i as int, 0x1000);
    }
}

/// Law: a nibble pattern outside the opcode table is a fatal
/// invalid-instruction error carrying the raw value, never a silent no-op;
/// and a pattern inside the table is never reported invalid.
pub proof fn lemma_invalid_opcode(s: MachineState, rand: u8)
    ensures
        !is_defined_opcode(s.instruction) ==> execute_spec(s, rand) == Err::<
            MachineState,
            Chip8Error,
        >(Chip8Error::InvalidInstruction(s.instruction)),
        is_defined_opcode(s.instruction) ==> execute_spec(s, rand) != Err::<
            MachineState,
            Chip8Error,
        >(Chip8Error::InvalidInstruction(s.instruction)),
{
}

} // verus!

