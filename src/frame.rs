//! Register frames of a suspended task and their binary layout inside the task's
//! stack region. Every read or write of a frame at a word offset goes through
//! this module.

use vstd::prelude::*;

verus! {

/// Size of the usable part of a stack region, in bytes.
pub const STACK_SIZE: usize = 1024;

/// Size of the usable part of a stack region, in 32-bit words.
pub const STACK_WORDS: usize = STACK_SIZE / 4;

/// Registers in the software-saved frame (r4 to r11).
pub const SW_FRAME_WORDS: usize = 8;

/// Registers in the hardware-saved frame (r0 to r3, r12, lr, pc, xpsr).
pub const HW_FRAME_WORDS: usize = 8;

/// Word offset of the guard word: the lowest word of the region.
pub const GUARD_OFFSET: usize = 0;

/// Word offset of the storage reserved for the first software frame.
pub const SW_FRAME_OFFSET: usize = 1 + STACK_WORDS;

/// Word offset of the initial hardware frame, just above the software frame storage.
pub const HW_FRAME_OFFSET: usize = SW_FRAME_OFFSET + SW_FRAME_WORDS;

/// Total length of a stack region in words: guard, usable space, both frames.
pub const REGION_WORDS: usize = HW_FRAME_OFFSET + HW_FRAME_WORDS;

/// Status register of a fresh task: the Thumb state bit (bit 24) set, every
/// other flag clear.
pub const PSR_DEFAULT: u32 = 0x0100_0000;

/// The callee-saved register bank, which the processor does not save on
/// exception entry. In memory r4 lies at the lowest address.
#[derive(Clone, Copy, Debug, PartialEq, Eq, Structural)]
pub struct SoftwareFrame {
    pub r4: u32,
    pub r5: u32,
    pub r6: u32,
    pub r7: u32,
    pub r8: u32,
    pub r9: u32,
    pub r10: u32,
    pub r11: u32,
}

/// The registers that the processor pushes on exception entry and pops on
/// exception return, in the order in which they lie in memory.
#[derive(Clone, Copy, Debug, PartialEq, Eq, Structural)]
pub struct HardwareFrame {
    pub r0: u32,
    pub r1: u32,
    pub r2: u32,
    pub r3: u32,
    pub r12: u32,
    pub lr: u32,
    pub pc: u32,
    pub xpsr: u32,
}

impl SoftwareFrame {
    /// The frame as it lies in memory, lowest address first.
    pub open spec fn words(self) -> Seq<u32> {
        seq![self.r4, self.r5, self.r6, self.r7, self.r8, self.r9, self.r10, self.r11]
    }

    /// A bank with every register zero.
    pub fn zeroed() -> (f: SoftwareFrame)
        ensures
            f.words() == Seq::new(8, |i: int| 0u32),
    {
        let f = SoftwareFrame { r4: 0, r5: 0, r6: 0, r7: 0, r8: 0, r9: 0, r10: 0, r11: 0 };
        assert(f.words() =~= Seq::new(8, |i: int| 0u32));
        f
    }
}

impl HardwareFrame {
    /// The frame as it lies in memory, lowest address first.
    pub open spec fn words(self) -> Seq<u32> {
        seq![self.r0, self.r1, self.r2, self.r3, self.r12, self.lr, self.pc, self.xpsr]
    }

    /// The frame from which a task first runs: it starts at `entry` with zero
    /// scratch and link registers and the default status register.
    pub open spec fn initial_spec(entry: u32) -> HardwareFrame {
        HardwareFrame { r0: 0, r1: 0, r2: 0, r3: 0, r12: 0, lr: 0, pc: entry, xpsr: PSR_DEFAULT }
    }

    /// Builds the frame from which a task whose entry function lies at `entry`
    /// first runs.
    pub fn initial(entry: u32) -> (f: HardwareFrame)
        ensures
            f == HardwareFrame::initial_spec(entry),
    {
        HardwareFrame { r0: 0, r1: 0, r2: 0, r3: 0, r12: 0, lr: 0, pc: entry, xpsr: PSR_DEFAULT }
    }
}

/// The software frame that lies in `mem` from word `at` on.
pub open spec fn sw_frame_at(mem: Seq<u32>, at: int) -> SoftwareFrame {
    SoftwareFrame {
        r4: mem[at],
        r5: mem[at + 1],
        r6: mem[at + 2],
        r7: mem[at + 3],
        r8: mem[at + 4],
        r9: mem[at + 5],
        r10: mem[at + 6],
        r11: mem[at + 7],
    }
}

/// The hardware frame that lies in `mem` from word `at` on.
pub open spec fn hw_frame_at(mem: Seq<u32>, at: int) -> HardwareFrame {
    HardwareFrame {
        r0: mem[at],
        r1: mem[at + 1],
        r2: mem[at + 2],
        r3: mem[at + 3],
        r12: mem[at + 4],
        lr: mem[at + 5],
        pc: mem[at + 6],
        xpsr: mem[at + 7],
    }
}

/// `mem` with the eight words from `at` on replaced by `w`.
pub open spec fn put_words(mem: Seq<u32>, at: int, w: Seq<u32>) -> Seq<u32> {
    mem.subrange(0, at) + w + mem.subrange(at + w.len(), mem.len() as int)
}

/// Reading a software frame back from where it was written gives it again.
pub proof fn lemma_sw_frame_round_trip(mem: Seq<u32>, at: int, f: SoftwareFrame)
    requires
        0 <= at,
        at + SW_FRAME_WORDS <= mem.len(),
    ensures
        sw_frame_at(put_words(mem, at, f.words()), at) == f,
        put_words(mem, at, f.words()).len() == mem.len(),
{
    let m = put_words(mem, at, f.words());
    assert(m[at] == f.r4);
    assert(m[at + 1] == f.r5);
    assert(m[at + 2] == f.r6);
    assert(m[at + 3] == f.r7);
    assert(m[at + 4] == f.r8);
    assert(m[at + 5] == f.r9);
    assert(m[at + 6] == f.r10);
    assert(m[at + 7] == f.r11);
}

/// Writes `f` into `mem` from word `at` on.
pub fn write_software_frame(mem: &mut Vec<u32>, at: usize, f: &SoftwareFrame)
    requires
        at + SW_FRAME_WORDS <= old(mem).len(),
    ensures
        final(mem)@ == put_words(old(mem)@, at as int, f.words()),
{
    mem[at] = f.r4;
    mem[at + 1] = f.r5;
    mem[at + 2] = f.r6;
    mem[at + 3] = f.r7;
    mem[at + 4] = f.r8;
    mem[at + 5] = f.r9;
    mem[at + 6] = f.r10;
    mem[at + 7] = f.r11;
    assert(mem@ =~= put_words(old(mem)@, at as int, f.words()));
}

/// Reads the software frame that lies in `mem` from word `at` on.
pub fn read_software_frame(mem: &Vec<u32>, at: usize) -> (f: SoftwareFrame)
    requires
        at + SW_FRAME_WORDS <= mem.len(),
    ensures
        f == sw_frame_at(mem@, at as int),
{
    SoftwareFrame {
        r4: mem[at],
        r5: mem[at + 1],
        r6: mem[at + 2],
        r7: mem[at + 3],
        r8: mem[at + 4],
        r9: mem[at + 5],
        r10: mem[at + 6],
        r11: mem[at + 7],
    }
}

/// Writes `f` into `mem` from word `at` on.
pub fn write_hardware_frame(mem: &mut Vec<u32>, at: usize, f: &HardwareFrame)
    requires
        at + HW_FRAME_WORDS <= old(mem).len(),
    ensures
        final(mem)@ == put_words(old(mem)@, at as int, f.words()),
{
    mem[at] = f.r0;
    mem[at + 1] = f.r1;
    mem[at + 2] = f.r2;
    mem[at + 3] = f.r3;
    mem[at + 4] = f.r12;
    mem[at + 5] = f.lr;
    mem[at + 6] = f.pc;
    mem[at + 7] = f.xpsr;
    assert(mem@ =~= put_words(old(mem)@, at as int, f.words()));
}

/// Reads the hardware frame that lies in `mem` from word `at` on.
pub fn read_hardware_frame(mem: &Vec<u32>, at: usize) -> (f: HardwareFrame)
    requires
        at + HW_FRAME_WORDS <= mem.len(),
    ensures
        f == hw_frame_at(mem@, at as int),
{
    HardwareFrame {
        r0: mem[at],
        r1: mem[at + 1],
        r2: mem[at + 2],
        r3: mem[at + 3],
        r12: mem[at + 4],
        lr: mem[at + 5],
        pc: mem[at + 6],
        xpsr: mem[at + 7],
    }
}

} // verus!
