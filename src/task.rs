//! A task: one private stack region, guarded by a sentinel word at its base,
//! and a tag saying where in its lifecycle the task is.

use vstd::prelude::*;
use crate::cpu::{popped_bank, pushed_bank, Processor};
use crate::frame::{
    hw_frame_at, lemma_sw_frame_round_trip, write_hardware_frame, HardwareFrame, GUARD_OFFSET, HW_FRAME_OFFSET, HW_FRAME_WORDS,
    REGION_WORDS, STACK_WORDS, SW_FRAME_WORDS,
};

verus! {

/// The sentinel kept in the guard word of every stack region.
pub const STACK_CANARY_VALUE: u32 = 0xDEAD_BEEF;

/// Where a task is in its lifecycle.
#[derive(Clone, Copy, Debug, PartialEq, Eq, Structural)]
pub enum TaskState {
    /// Never dispatched: the initial hardware frame waits at its place, and no
    /// software frame exists.
    Created,
    /// Executing: its registers live in the processor.
    Running,
    /// Not executing: its software frame starts at this word offset of its
    /// region, and its hardware frame follows.
    Suspended(usize),
}

/// A fatal scheduling fault; the system halts on any of them.
#[derive(Clone, Copy, Debug, PartialEq, Eq, Structural)]
pub enum Fault {
    /// A task was dispatched while the scheduler held it as running.
    AlreadyRunning,
    /// A task was suspended while the scheduler did not hold it as running.
    NotRunning,
    /// The guard word no longer holds the sentinel.
    StackCorrupt,
    /// The stack pointer left the task's region: its frames would not lie
    /// between the guard word and the top of the region.
    StackOutOfRegion,
}

/// A task with its stack region, `REGION_WORDS` words long.
pub struct Task {
    pub state: TaskState,
    pub stack: Vec<u32>,
}

/// What a task holds, as mathematical values.
pub struct TaskView {
    pub state: TaskState,
    pub stack: Seq<u32>,
}

impl View for Task {
    type V = TaskView;

    open spec fn view(&self) -> TaskView {
        TaskView { state: self.state, stack: self.stack@ }
    }
}

/// The guard word of `stack` holds the sentinel.
pub open spec fn guard_intact(stack: Seq<u32>) -> bool {
    stack[GUARD_OFFSET as int] == STACK_CANARY_VALUE
}

/// A software frame at word `at`, with the hardware frame after it, lies
/// inside a stack region, above its guard word.
pub open spec fn frames_fit(at: int) -> bool {
    GUARD_OFFSET < at && at + SW_FRAME_WORDS + HW_FRAME_WORDS <= REGION_WORDS
}

impl TaskView {
    pub open spec fn wf(self) -> bool {
        &&& self.stack.len() == REGION_WORDS
        &&& (self.state matches TaskState::Suspended(at) ==> frames_fit(at as int))
    }
}

/// The region of a fresh task: the sentinel, zeroed usable space, zeroed
/// software frame storage, and the initial hardware frame on top.
pub open spec fn initial_region(entry: u32) -> Seq<u32> {
    seq![STACK_CANARY_VALUE] + Seq::new((STACK_WORDS + SW_FRAME_WORDS) as nat, |i: int| 0u32)
        + HardwareFrame::initial_spec(entry).words()
}

/// A fresh task whose entry function lies at `entry`.
pub open spec fn new_task(entry: u32) -> TaskView {
    TaskView { state: TaskState::Created, stack: initial_region(entry) }
}

/// Recording `psp` as the resume point of a running task, then checking its guard.
pub open spec fn save_context_spec(t: TaskView, psp: usize) -> (Result<(), Fault>, TaskView) {
    if !(t.state is Running) {
        (Err(Fault::NotRunning), t)
    } else if !frames_fit(psp as int) {
        (Err(Fault::StackOutOfRegion), t)
    } else {
        let r = if guard_intact(t.stack) {
            Ok(())
        } else {
            Err(Fault::StackCorrupt)
        };
        (r, TaskView { state: TaskState::Suspended(psp), ..t })
    }
}

/// Pointing the stack pointer at the task's saved frames and marking it running.
pub open spec fn schedule_now_spec(t: TaskView, cpu: Processor) -> (
    Result<(), Fault>,
    TaskView,
    Processor,
) {
    let running = TaskView { state: TaskState::Running, ..t };
    match t.state {
        TaskState::Running => (Err(Fault::AlreadyRunning), t, cpu),
        TaskState::Created => (Ok(()), running, Processor { psp: HW_FRAME_OFFSET, ..cpu }),
        TaskState::Suspended(at) => (Ok(()), running, Processor { psp: at, ..cpu }),
    }
}

/// The outgoing half of a switch: the callee-saved bank is pushed onto the
/// running task's stack, below the hardware frame at `cpu.psp`, and the task
/// is suspended there.
pub open spec fn suspend_spec(t: TaskView, cpu: Processor) -> (
    Result<(), Fault>,
    TaskView,
    Processor,
) {
    if !(t.state is Running) {
        (Err(Fault::NotRunning), t, cpu)
    } else if !(SW_FRAME_WORDS <= cpu.psp && frames_fit(cpu.psp - SW_FRAME_WORDS)) {
        (Err(Fault::StackOutOfRegion), t, cpu)
    } else {
        let (c, s) = pushed_bank(cpu, t.stack);
        let (r, t2) = save_context_spec(TaskView { stack: s, ..t }, c.psp);
        (r, t2, c)
    }
}

/// The incoming half of a switch: the task is dispatched and, if it was
/// suspended, its callee-saved bank is loaded back.
pub open spec fn resume_spec(t: TaskView, cpu: Processor) -> (
    Result<(), Fault>,
    TaskView,
    Processor,
) {
    let (r, t2, c) = schedule_now_spec(t, cpu);
    if t.state is Suspended {
        (r, t2, popped_bank(c, t2.stack))
    } else {
        (r, t2, c)
    }
}

impl Task {
    /// A task that will start at the entry function whose address is `entry`.
    pub fn new(entry: u32) -> (t: Task)
        ensures
            t@ == new_task(entry),
            t@.wf(),
    {
        let mut stack: Vec<u32> = vec![0u32; REGION_WORDS];
        stack[GUARD_OFFSET] = STACK_CANARY_VALUE;
        let frame = HardwareFrame::initial(entry);
        write_hardware_frame(&mut stack, HW_FRAME_OFFSET, &frame);
        assert(stack@ =~= initial_region(entry));
        Task { state: TaskState::Created, stack }
    }

    /// Dispatches the task: points the stack pointer at its saved frames and
    /// marks it running. Fails, changing nothing, if it is already running.
    pub fn schedule_now(&mut self, cpu: &mut Processor) -> (r: Result<(), Fault>)
        requires
            old(self)@.wf(),
        ensures
            (r, final(self)@, *final(cpu)) == schedule_now_spec(old(self)@, *old(cpu)),
            final(self)@.wf(),
    {
        match self.state {
            TaskState::Running => Err(Fault::AlreadyRunning),
            TaskState::Created => {
                cpu.psp = HW_FRAME_OFFSET;
                self.state = TaskState::Running;
                Ok(())
            },
            TaskState::Suspended(at) => {
                cpu.psp = at;
                self.state = TaskState::Running;
                Ok(())
            },
        }
    }

    /// Whether the guard word still holds the sentinel.
    pub fn stack_okay(&self) -> (r: bool)
        requires
            self@.wf(),
        ensures
            r == guard_intact(self.stack@),
    {
        self.stack[GUARD_OFFSET] == STACK_CANARY_VALUE
    }

    /// Records the stack pointer as the point where the running task resumes,
    /// then checks its guard word.
    pub fn save_context(&mut self, cpu: &Processor) -> (r: Result<(), Fault>)
        requires
            old(self)@.wf(),
        ensures
            (r, final(self)@) == save_context_spec(old(self)@, cpu.psp),
            final(self)@.wf(),
    {
        match self.state {
            TaskState::Running => {},
            _ => {
                return Err(Fault::NotRunning);
            },
        }
        if cpu.psp <= GUARD_OFFSET || cpu.psp > REGION_WORDS - SW_FRAME_WORDS - HW_FRAME_WORDS {
            return Err(Fault::StackOutOfRegion);
        }
        self.state = TaskState::Suspended(cpu.psp);
        if self.stack_okay() {
            Ok(())
        } else {
            Err(Fault::StackCorrupt)
        }
    }

    /// Suspends the running task: its callee-saved bank goes onto its stack
    /// below the hardware frame, and its context is saved.
    pub fn suspend(&mut self, cpu: &mut Processor) -> (r: Result<(), Fault>)
        requires
            old(self)@.wf(),
        ensures
            (r, final(self)@, *final(cpu)) == suspend_spec(old(self)@, *old(cpu)),
            final(self)@.wf(),
    {
        match self.state {
            TaskState::Running => {},
            _ => {
                return Err(Fault::NotRunning);
            },
        }
        if cpu.psp <= GUARD_OFFSET + SW_FRAME_WORDS || cpu.psp > REGION_WORDS - HW_FRAME_WORDS {
            return Err(Fault::StackOutOfRegion);
        }
        cpu.save_software_frame(&mut self.stack);
        self.save_context(cpu)
    }

    /// Dispatches the task and, if it was suspended, loads its callee-saved
    /// bank back into the processor.
    pub fn resume(&mut self, cpu: &mut Processor) -> (r: Result<(), Fault>)
        requires
            old(self)@.wf(),
        ensures
            (r, final(self)@, *final(cpu)) == resume_spec(old(self)@, *old(cpu)),
            final(self)@.wf(),
    {
        let was_suspended = matches!(self.state, TaskState::Suspended(_));
        let r = self.schedule_now(cpu);
        if was_suspended {
            cpu.load_software_frame(&self.stack);
        }
        r
    }
}

/// Suspending and dispatching keep a task well formed.
pub proof fn lemma_switch_keeps_wf(t: TaskView, cpu: Processor)
    requires
        t.wf(),
    ensures
        suspend_spec(t, cpu).1.wf(),
        resume_spec(t, cpu).1.wf(),
{
    if t.state is Running && SW_FRAME_WORDS <= cpu.psp && frames_fit(cpu.psp - SW_FRAME_WORDS) {
        lemma_sw_frame_round_trip(t.stack, cpu.psp - SW_FRAME_WORDS, cpu.callee);
    }
}

/// On its first dispatch a fresh task finds the stack pointer at a hardware
/// frame whose scratch and link registers are zero, whose program counter is
/// its entry address and whose status register is the default; so the
/// processor's exception return starts it exactly at its entry function.
pub proof fn lemma_first_dispatch(entry: u32, cpu: Processor)
    ensures
        ({
            let (r, t, c) = resume_spec(new_task(entry), cpu);
            &&& r is Ok
            &&& t.state is Running
            &&& t.stack == initial_region(entry)
            &&& c.psp + HW_FRAME_WORDS <= t.stack.len()
            &&& hw_frame_at(t.stack, c.psp as int) == HardwareFrame::initial_spec(entry)
        }),
{
    let s = initial_region(entry);
    let f = HardwareFrame::initial_spec(entry);
    let at = HW_FRAME_OFFSET as int;
    assert(s[at] == f.r0);
    assert(s[at + 1] == f.r1);
    assert(s[at + 2] == f.r2);
    assert(s[at + 3] == f.r3);
    assert(s[at + 4] == f.r12);
    assert(s[at + 5] == f.lr);
    assert(s[at + 6] == f.pc);
    assert(s[at + 7] == f.xpsr);
}

/// A running task that is suspended with callee-saved bank `cpu.callee`, and
/// later dispatched again with its region left as the suspension left it,
/// gets back exactly that bank and the stack pointer it was suspended with,
/// whatever the processor held in between.
pub proof fn lemma_register_round_trip(t: TaskView, cpu: Processor, later: Processor)
    requires
        t.wf(),
        suspend_spec(t, cpu).0 is Ok,
    ensures
        ({
            let (_, t1, _) = suspend_spec(t, cpu);
            let (r, t2, c) = resume_spec(t1, later);
            &&& r is Ok
            &&& t2.state is Running
            &&& c == cpu
        }),
{
    let at = cpu.psp - SW_FRAME_WORDS;
    lemma_sw_frame_round_trip(t.stack, at, cpu.callee);
}

/// If anything but the sentinel is written into the guard word of a suspended
/// task, its guard check fails; after its next dispatch, saving its context
/// anywhere inside its region reports the corruption, and so does the
/// suspension that ends its next run, whatever stack pointer it then has
/// (one outside the region is reported as such).
pub proof fn lemma_guard_detects_corruption(
    t: TaskView,
    v: u32,
    dispatch: Processor,
    next: Processor,
)
    requires
        t.wf(),
        t.state is Suspended,
        v != STACK_CANARY_VALUE,
    ensures
        ({
            let bad = TaskView { stack: t.stack.update(GUARD_OFFSET as int, v), ..t };
            let (r1, t1, _) = resume_spec(bad, dispatch);
            let inside = SW_FRAME_WORDS <= next.psp && frames_fit(next.psp - SW_FRAME_WORDS);
            &&& !guard_intact(bad.stack)
            &&& r1 is Ok
            &&& (frames_fit(next.psp as int) ==> save_context_spec(t1, next.psp).0
                == Err::<(), Fault>(Fault::StackCorrupt))
            &&& suspend_spec(t1, next).0 == Err::<(), Fault>(
                if inside {
                    Fault::StackCorrupt
                } else {
                    Fault::StackOutOfRegion
                },
            )
        }),
{
    let bad = TaskView { stack: t.stack.update(GUARD_OFFSET as int, v), ..t };
    let (r1, t1, _) = resume_spec(bad, dispatch);
    if SW_FRAME_WORDS <= next.psp && frames_fit(next.psp - SW_FRAME_WORDS) {
        let (c, s) = pushed_bank(next, t1.stack);
        assert(s[GUARD_OFFSET as int] == v);
    }
}

} // verus!
