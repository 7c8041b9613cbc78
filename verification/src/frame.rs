use vstd::prelude::*;

verus! {

/// Program status word of a fresh task: Thumb state, nothing else set.
pub const INITIAL_XPSR: u32 = 0x0100_0000;

/// Words of a task's initial saved context, lowest address first: the
/// software-saved R4..R11 (zero), then the exception frame R0 (the task's
/// argument), R1..R3 and R12 (zero), LR (the exit trap), PC (the entry) and
/// xPSR.  Code addresses carry the Thumb bit.
pub open spec fn spec_initial_frame(entry: usize, arg: usize, exit_trap: usize) -> Seq<u32> {
    seq![
        0u32,
        0u32,
        0u32,
        0u32,
        0u32,
        0u32,
        0u32,
        0u32,
        arg as u32,
        0u32,
        0u32,
        0u32,
        0u32,
        (exit_trap as u32) | 1u32,
        (entry as u32) | 1u32,
        INITIAL_XPSR,
    ]
}

/// Lay out the initial context of a task whose stack spans
/// `stack_start..stack_end`: the context goes just below the 8-byte aligned
/// top of the stack, and the result is the stack pointer to resume from
/// with the sixteen words to store there.  `None` when the stack cannot
/// hold the context.
pub fn init_stack_frame(stack_start: usize, stack_end: usize, entry: usize, arg: usize, exit_trap: usize) -> (r:
    Option<(usize, [u32; 16])>)
    ensures
        ({
            let top = stack_end - stack_end % 8;
            &&& (top < 64 || top - 64 < stack_start) ==> r is None
            &&& !(top < 64 || top - 64 < stack_start) ==> (r matches Some((sp, words)) && sp == top - 64
                && words@ == spec_initial_frame(entry, arg, exit_trap))
        }),
{
    let top = stack_end & !7usize;
    assert(stack_end & !7usize == stack_end - stack_end % 8) by (bit_vector);
    if top < 64 || top - 64 < stack_start {
        return None;
    }
    let pc: u32 = (entry as u32) | 1u32;
    let lr: u32 = (exit_trap as u32) | 1u32;
    let words: [u32; 16] = [0, 0, 0, 0, 0, 0, 0, 0, arg as u32, 0, 0, 0, 0, lr, pc, INITIAL_XPSR];
    proof {
        assert(words@ =~= spec_initial_frame(entry, arg, exit_trap));
    }
    Some((top - 64, words))
}

} // verus!

verus! {

/// A saved context may be entered: its stack pointer is non-null and 8-byte
/// aligned, the saved PC has the Thumb bit, and the saved xPSR has the T bit.
pub open spec fn spec_start_frame_ok(sp: usize, pc: u32, xpsr: u32) -> bool {
    &&& sp != 0
    &&& sp % 8 == 0
    &&& pc % 2 == 1
    &&& xpsr & INITIAL_XPSR != 0
}

/// Check the first task's saved context before entering it; `pc` and
/// `xpsr` are the words saved at `sp` plus 14 and 15 words.
pub fn start_frame_ok(sp: usize, pc: u32, xpsr: u32) -> (ok: bool)
    ensures
        ok == spec_start_frame_ok(sp, pc, xpsr),
{
    assert(sp & 7usize == sp % 8) by (bit_vector);
    assert(pc & 1u32 == pc % 2) by (bit_vector);
    sp != 0 && (sp & 7) == 0 && (pc & 1) == 1 && (xpsr & INITIAL_XPSR) != 0
}

} // verus!
