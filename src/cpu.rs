//! The part of the processor that a context switch moves: the process stack
//! pointer and the callee-saved register bank. The stack pointer is a word
//! offset into the stack region of the task that runs on it.

use vstd::prelude::*;
use crate::frame::{
    put_words, read_software_frame, sw_frame_at, write_software_frame, SoftwareFrame,
    SW_FRAME_WORDS,
};

verus! {

/// Register state of the processor as a context switch sees it.
#[derive(Clone, Copy, Debug, PartialEq, Eq, Structural)]
pub struct Processor {
    /// Process stack pointer, as a word offset into the running task's region.
    pub psp: usize,
    /// The callee-saved registers r4 to r11.
    pub callee: SoftwareFrame,
}

/// The stack and processor after the callee-saved bank was pushed below `psp`.
pub open spec fn pushed_bank(cpu: Processor, stack: Seq<u32>) -> (Processor, Seq<u32>) {
    let at = cpu.psp - SW_FRAME_WORDS;
    (Processor { psp: at as usize, ..cpu }, put_words(stack, at, cpu.callee.words()))
}

/// The processor after the callee-saved bank was popped from `psp`.
pub open spec fn popped_bank(cpu: Processor, stack: Seq<u32>) -> Processor {
    Processor {
        psp: (cpu.psp + SW_FRAME_WORDS) as usize,
        callee: sw_frame_at(stack, cpu.psp as int),
    }
}

impl Processor {
    /// Copies the callee-saved registers onto `stack` just below the stack
    /// pointer and moves the stack pointer down over them.
    pub fn save_software_frame(&mut self, stack: &mut Vec<u32>)
        requires
            SW_FRAME_WORDS <= old(self).psp <= old(stack).len(),
        ensures
            (*final(self), final(stack)@) == pushed_bank(*old(self), old(stack)@),
    {
        let at = self.psp - SW_FRAME_WORDS;
        write_software_frame(stack, at, &self.callee);
        self.psp = at;
    }

    /// Loads the callee-saved registers from `stack` at the stack pointer and
    /// moves the stack pointer up over them.
    pub fn load_software_frame(&mut self, stack: &Vec<u32>)
        requires
            old(self).psp + SW_FRAME_WORDS <= stack.len(),
        ensures
            *final(self) == popped_bank(*old(self), stack@),
    {
        self.callee = read_software_frame(stack, self.psp);
        self.psp = self.psp + SW_FRAME_WORDS;
    }
}

} // verus!
