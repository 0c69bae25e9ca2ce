//! The task pool, its scheduling cursor, and the context-switch routine that
//! the periodic tick runs.

use vstd::prelude::*;
use vstd::arithmetic::div_mod::{
    lemma_add_mod_noop, lemma_mod_add_multiples_vanish, lemma_mod_bound, lemma_small_mod,
};
use crate::cpu::Processor;
use crate::frame::{put_words, HW_FRAME_WORDS, REGION_WORDS, SW_FRAME_WORDS};
use crate::task::{
    frames_fit, guard_intact, lemma_register_round_trip, lemma_switch_keeps_wf, new_task,
    resume_spec, suspend_spec, Fault, Task, TaskState, TaskView,
};

verus! {

/// What one tick did.
#[derive(Clone, Copy, Debug, PartialEq, Eq, Structural)]
pub struct Switch {
    /// The slot that was suspended; `None` on the tick that filled the pool.
    pub suspended: Option<usize>,
    /// The slot that was dispatched.
    pub dispatched: usize,
    /// Whether the dispatched task had run before (it resumes rather than starts).
    pub resumed: bool,
}

/// A fixed number of task slots, filled from the roster of entry functions on
/// the first tick, and the cursor naming the slot that runs.
pub struct TaskPool {
    pub slots: Vec<Option<Task>>,
    pub cursor: usize,
    /// Addresses of the entry functions; their order is the scheduling order.
    pub roster: Vec<u32>,
    /// Successful ticks so far.
    pub ticks: Ghost<nat>,
}

/// What a pool holds, as mathematical values.
pub struct PoolView {
    pub slots: Seq<Option<TaskView>>,
    pub cursor: nat,
    pub roster: Seq<u32>,
    pub ticks: nat,
}

pub open spec fn slot_view(s: Option<Task>) -> Option<TaskView> {
    match s {
        Some(t) => Some(t@),
        None => None,
    }
}

impl View for TaskPool {
    type V = PoolView;

    open spec fn view(&self) -> PoolView {
        PoolView {
            slots: self.slots@.map_values(|s: Option<Task>| slot_view(s)),
            cursor: self.cursor as nat,
            roster: self.roster@,
            ticks: self.ticks@,
        }
    }
}

impl PoolView {
    pub open spec fn capacity(self) -> nat {
        self.roster.len()
    }

    /// The task in slot `i` (meaningful once the pool is filled).
    pub open spec fn task(self, i: int) -> TaskView {
        self.slots[i]->Some_0
    }

    /// Before the first tick no slot holds a task and the cursor is 0; after it
    /// every slot holds a well-formed task, the cursor has moved one slot per
    /// further tick, and the task under the cursor is the only running one.
    pub open spec fn wf(self) -> bool {
        &&& 1 <= self.capacity() <= usize::MAX
        &&& self.slots.len() == self.capacity()
        &&& if self.ticks == 0 {
            &&& self.cursor == 0
            &&& forall|i: int| 0 <= i < self.slots.len() ==> self.slots[i] is None
        } else {
            &&& self.cursor == (self.ticks - 1) as nat % self.capacity()
            &&& forall|i: int|
                0 <= i < self.slots.len() ==> (#[trigger] self.slots[i]) is Some
                    && self.task(i).wf()
            &&& forall|i: int|
                0 <= i < self.slots.len() ==> ((#[trigger] self.slots[i])->Some_0.state
                    is Running <==> i == self.cursor)
        }
    }
}

/// One tick. On the first, every slot is filled from the roster and slot 0 is
/// dispatched. On the others, the task under the cursor is suspended, the
/// cursor moves one slot on, and the task it then names is dispatched.
pub open spec fn tick_spec(p: PoolView, cpu: Processor) -> (
    Result<Switch, Fault>,
    PoolView,
    Processor,
) {
    let n = p.capacity();
    if p.ticks == 0 {
        let filled = Seq::new(n, |i: int| Some(new_task(p.roster[i])));
        let (r, t0, c) = resume_spec(new_task(p.roster[0]), cpu);
        let p2 = PoolView { slots: filled.update(0, Some(t0)), ..p };
        match r {
            Err(e) => (Err(e), p2, c),
            Ok(_) => (
                Ok(Switch { suspended: None, dispatched: 0, resumed: false }),
                PoolView { ticks: 1, ..p2 },
                c,
            ),
        }
    } else {
        let (r, t1, c1) = suspend_spec(p.task(p.cursor as int), cpu);
        let slots1 = p.slots.update(p.cursor as int, Some(t1));
        match r {
            Err(e) => (Err(e), PoolView { slots: slots1, ..p }, c1),
            Ok(_) => {
                let next = (p.cursor + 1) % n;
                let incoming = slots1[next as int]->Some_0;
                let (r2, t2, c2) = resume_spec(incoming, c1);
                let p2 = PoolView { slots: slots1.update(next as int, Some(t2)), cursor: next, ..p };
                match r2 {
                    Err(e) => (Err(e), p2, c2),
                    Ok(_) => (
                        Ok(
                            Switch {
                                suspended: Some(p.cursor as usize),
                                dispatched: next as usize,
                                resumed: incoming.state is Suspended,
                            },
                        ),
                        PoolView { ticks: p.ticks + 1, ..p2 },
                        c2,
                    ),
                }
            },
        }
    }
}

impl TaskPool {
    /// An empty pool that will run the entry functions of `roster` in order.
    pub fn new(roster: Vec<u32>) -> (p: TaskPool)
        requires
            roster@.len() >= 1,
        ensures
            p@.slots == Seq::new(roster@.len(), |i: int| None::<TaskView>),
            p@.cursor == 0,
            p@.roster == roster@,
            p@.ticks == 0,
            p@.wf(),
    {
        let n = roster.len();
        let mut slots: Vec<Option<Task>> = Vec::new();
        let mut i: usize = 0;
        while i < n
            invariant
                i <= n,
                slots@.len() == i,
                forall|j: int| 0 <= j < i ==> slots@[j] is None,
            decreases n - i,
        {
            slots.push(None);
            i = i + 1;
        }
        let p = TaskPool { slots, cursor: 0, roster, ticks: Ghost(0) };
        assert(p@.slots =~= Seq::new(n as nat, |i: int| None::<TaskView>));
        p
    }
}

impl TaskPool {
    /// Fills every slot with a fresh task for the matching roster entry.
    fn fill(&mut self)
        requires
            old(self)@.wf(),
            old(self)@.ticks == 0,
        ensures
            final(self)@ == (PoolView {
                slots: Seq::new(old(self)@.capacity(), |i: int| Some(new_task(old(self)@.roster[i]))),
                ..old(self)@
            }),
    {
        let n = self.slots.len();
        let mut i: usize = 0;
        while i < n
            invariant
                i <= n,
                n == self.slots@.len(),
                self@.roster == old(self)@.roster,
                self@.cursor == old(self)@.cursor,
                self@.ticks == old(self)@.ticks,
                self@.slots.len() == n,
                n == old(self)@.capacity(),
                forall|j: int| 0 <= j < i ==> self@.slots[j] == Some(new_task(self@.roster[j])),
                forall|j: int| i <= j < n ==> self@.slots[j] == old(self)@.slots[j],
            decreases n - i,
        {
            let ghost before = self@.slots;
            let t = Task::new(self.roster[i]);
            self.slots[i] = Some(t);
            assert(self@.slots =~= before.update(i as int, Some(new_task(self@.roster[i as int]))));
            i = i + 1;
        }
        assert(self@.slots =~= Seq::new(n as nat, |i: int| Some(new_task(old(self)@.roster[i]))));
    }

    /// Suspends the task in slot `i`.
    fn suspend_slot(&mut self, i: usize, cpu: &mut Processor) -> (r: Result<(), Fault>)
        requires
            i < old(self)@.slots.len(),
            old(self)@.slots[i as int] is Some,
            old(self)@.task(i as int).wf(),
        ensures
            ({
                let (r2, t2, c2) = suspend_spec(old(self)@.task(i as int), *old(cpu));
                &&& r == r2
                &&& t2.wf()
                &&& *final(cpu) == c2
                &&& final(self)@ == (PoolView {
                    slots: old(self)@.slots.update(i as int, Some(t2)),
                    ..old(self)@
                })
            }),
    {
        let r = match &mut self.slots[i] {
            Some(t) => t.suspend(cpu),
            None => Err(Fault::NotRunning),
        };
        assert(self@.slots =~= old(self)@.slots.update(i as int, self@.slots[i as int]));
        r
    }

    /// Dispatches the task in slot `i`.
    fn resume_slot(&mut self, i: usize, cpu: &mut Processor) -> (r: Result<(), Fault>)
        requires
            i < old(self)@.slots.len(),
            old(self)@.slots[i as int] is Some,
            old(self)@.task(i as int).wf(),
        ensures
            ({
                let (r2, t2, c2) = resume_spec(old(self)@.task(i as int), *old(cpu));
                &&& r == r2
                &&& t2.wf()
                &&& *final(cpu) == c2
                &&& final(self)@ == (PoolView {
                    slots: old(self)@.slots.update(i as int, Some(t2)),
                    ..old(self)@
                })
            }),
    {
        let r = match &mut self.slots[i] {
            Some(t) => t.resume(cpu),
            None => Err(Fault::AlreadyRunning),
        };
        assert(self@.slots =~= old(self)@.slots.update(i as int, self@.slots[i as int]));
        r
    }
}

/// Moving a cursor one slot on commutes with reducing it modulo the capacity.
proof fn lemma_cursor_step(a: nat, n: nat)
    requires
        n >= 1,
    ensures
        ((a % n) + 1) % n == (a + 1) % n,
{
    if n == 1 {
        lemma_mod_bound(((a % n) + 1) as int, n as int);
        lemma_mod_bound((a + 1) as int, n as int);
    } else {
        lemma_small_mod(1, n);
        lemma_add_mod_noop(a as int, 1, n as int);
    }
}

/// From a well-formed pool, the first tick always succeeds, and a later tick
/// fails exactly where suspending the outgoing task fails; a successful tick
/// keeps the pool well formed.
pub proof fn lemma_tick_keeps_wf(p: PoolView, cpu: Processor)
    requires
        p.wf(),
    ensures
        p.ticks == 0 ==> tick_spec(p, cpu).0 is Ok,
        p.ticks > 0 ==> (tick_spec(p, cpu).0 is Ok <==> suspend_spec(
            p.task(p.cursor as int),
            cpu,
        ).0 is Ok),
        tick_spec(p, cpu).0 is Ok ==> tick_spec(p, cpu).1.wf(),
{
    let n = p.capacity();
    let (r, q, _) = tick_spec(p, cpu);
    if p.ticks == 0 {
        lemma_small_mod(0, n);
        lemma_switch_keeps_wf(new_task(p.roster[0]), cpu);
        assert forall|i: int| 0 <= i < q.slots.len() implies (#[trigger] q.slots[i]) is Some
            && q.task(i).wf() && (q.task(i).state is Running <==> i == q.cursor) by {
            if i != 0 {
                assert(q.slots[i] == Some(new_task(p.roster[i])));
            }
        }
    } else {
        let out = p.cursor as int;
        assert(p.slots[out] is Some);
        let (r1, t1, c1) = suspend_spec(p.task(out), cpu);
        lemma_switch_keeps_wf(p.task(out), cpu);
        let next = (p.cursor + 1) % n;
        lemma_mod_bound((p.cursor + 1) as int, n as int);
        let slots1 = p.slots.update(out, Some(t1));
        assert(slots1[next as int] is Some);
        lemma_switch_keeps_wf(slots1[next as int]->Some_0, c1);
        lemma_cursor_step((p.ticks - 1) as nat, n);
        if r1 is Ok {
            assert(!(slots1[next as int]->Some_0.state is Running));
            assert forall|i: int| 0 <= i < q.slots.len() implies (#[trigger] q.slots[i]) is Some
                && q.task(i).wf() && (q.task(i).state is Running <==> i == q.cursor) by {
                if i != next && i != out {
                    assert(q.slots[i] == p.slots[i]);
                }
            }
        }
    }
}

/// For a slot `i` and an offset `e` with `0 <= e < n`, the slot `e` places on
/// from `i` in cyclic order.
proof fn lemma_offset_mod(i: int, e: int, n: int)
    requires
        0 <= i < n,
        0 <= e < n,
    ensures
        (i + e) % n == if i + e < n {
            i + e
        } else {
            i + e - n
        },
{
    if i + e < n {
        lemma_small_mod((i + e) as nat, n as nat);
    } else {
        lemma_mod_add_multiples_vanish(i + e - n, n);
        lemma_small_mod((i + e - n) as nat, n as nat);
    }
}

impl TaskPool {
    /// The context-switch routine that each tick runs. `cpu` holds the
    /// processor's registers at the tick, after the processor pushed the
    /// running task's hardware frame; on return it holds those with which the
    /// dispatched task goes on, with the stack pointer at its hardware frame.
    ///
    /// The outgoing task's guard is checked before any other task's memory is
    /// touched. Any `Err` is fatal: the system is meant to halt rather than
    /// tick again.
    pub fn sys_tick(&mut self, cpu: &mut Processor) -> (r: Result<Switch, Fault>)
        requires
            old(self)@.wf(),
        ensures
            (r, final(self)@, *final(cpu)) == tick_spec(old(self)@, *old(cpu)),
            r is Ok ==> final(self)@.wf(),
    {
        let n = self.slots.len();
        let ghost p = self@;
        proof {
            lemma_tick_keeps_wf(p, *cpu);
        }
        if self.slots[self.cursor].is_none() {
            assert(p.ticks == 0) by {
                if p.ticks != 0 {
                    assert(p.slots[p.cursor as int] is Some);
                }
            }
            self.fill();
            let r = self.resume_slot(0, cpu);
            match r {
                Err(e) => Err(e),
                Ok(()) => {
                    self.ticks = Ghost(1);
                    Ok(Switch { suspended: None, dispatched: 0, resumed: false })
                },
            }
        } else {
            let out = self.cursor;
            let r = self.suspend_slot(out, cpu);
            if let Err(e) = r {
                return Err(e);
            }
            let next = (out + 1) % n;
            proof {
                lemma_mod_bound((out + 1) as int, n as int);
                assert(self.slots@.len() == self@.slots.len());
            }
            let resumed = match &self.slots[next] {
                Some(t) => matches!(t.state, TaskState::Suspended(_)),
                None => false,
            };
            self.cursor = next;
            let r2 = self.resume_slot(next, cpu);
            match r2 {
                Err(e) => Err(e),
                Ok(()) => {
                    self.ticks = Ghost(self.ticks@ + 1);
                    Ok(Switch { suspended: Some(out), dispatched: next, resumed })
                },
            }
        }
    }
}

/// Round-robin order. Counting successful ticks from 0, tick `k` dispatches
/// slot `k mod N` and, from the second on, suspends slot `(k - 1) mod N`; so
/// for any capacity `N >= 1` the slots run in the order 0, 1, ..., N - 1, 0, ...,
/// none skipped and none repeated within a cycle.
pub proof fn lemma_round_robin(p: PoolView, cpu: Processor)
    requires
        p.wf(),
    ensures
        ({
            let (r, q, _) = tick_spec(p, cpu);
            let n = p.capacity();
            r is Ok ==> {
                &&& q.ticks == p.ticks + 1
                &&& q.cursor == p.ticks % n
                &&& r->Ok_0.dispatched == p.ticks % n
                &&& r->Ok_0.suspended == if p.ticks == 0 {
                    None
                } else {
                    Some(((p.ticks - 1) as nat % n) as usize)
                }
            }
        }),
{
    let n = p.capacity();
    if p.ticks == 0 {
        lemma_small_mod(0, n);
    } else {
        lemma_cursor_step((p.ticks - 1) as nat, n);
    }
}

/// Every guard word of the pool holds the sentinel.
pub open spec fn guards_intact(p: PoolView) -> bool {
    forall|i: int| 0 <= i < p.slots.len() && p.slots[i] is Some ==> guard_intact(
        #[trigger] p.task(i).stack,
    )
}

/// No false alarm from the guard at one tick: if every guard word holds the
/// sentinel, the tick never reports `StackCorrupt`, whatever the processor
/// holds; it keeps every guard word holding the sentinel and the pool well
/// formed; and it succeeds whenever the running task's stack pointer leaves
/// room for its frames above the guard word.
pub proof fn lemma_guard_no_false_alarm(p: PoolView, cpu: Processor)
    requires
        p.wf(),
        guards_intact(p),
    ensures
        tick_spec(p, cpu).0 != Err::<Switch, Fault>(Fault::StackCorrupt),
        guards_intact(tick_spec(p, cpu).1),
        tick_spec(p, cpu).1.wf(),
        (p.ticks > 0 ==> SW_FRAME_WORDS < cpu.psp <= REGION_WORDS - HW_FRAME_WORDS) ==> tick_spec(
            p,
            cpu,
        ).0 is Ok,
{
    let n = p.capacity();
    let (r, q, _) = tick_spec(p, cpu);
    lemma_tick_keeps_wf(p, cpu);
    if p.ticks == 0 {
        lemma_switch_keeps_wf(new_task(p.roster[0]), cpu);
        assert forall|i: int| 0 <= i < q.slots.len() && q.slots[i] is Some implies guard_intact(
            #[trigger] q.task(i).stack,
        ) by {
            assert(q.task(i).stack == new_task(p.roster[i]).stack);
        }
    } else {
        let out = p.cursor as int;
        let t = p.task(out);
        assert(p.slots[out] is Some);
        if SW_FRAME_WORDS <= cpu.psp && frames_fit(cpu.psp - SW_FRAME_WORDS) {
            let at = cpu.psp - SW_FRAME_WORDS;
            let pushed = put_words(t.stack, at, cpu.callee.words());
            assert(pushed[0] == t.stack[0]);
            lemma_mod_bound((p.cursor + 1) as int, n as int);
            assert forall|i: int| 0 <= i < q.slots.len() && q.slots[i] is Some implies guard_intact(
                #[trigger] q.task(i).stack,
            ) by {
                assert(p.slots[i] is Some);
            }
        } else {
            assert(p.slots.update(out, Some(t)) =~= p.slots);
            assert(q == p);
        }
    }
}

/// Ticks on each processor state of `cpus` in turn, stopping at the first
/// fault: the fault, if any, and the pool at the end.
pub open spec fn run_ticks(p: PoolView, cpus: Seq<Processor>) -> (Option<Fault>, PoolView)
    decreases cpus.len(),
{
    if cpus.len() == 0 {
        (None, p)
    } else {
        let (r, q, _) = tick_spec(p, cpus[0]);
        match r {
            Ok(_) => run_ticks(q, cpus.drop_first()),
            Err(e) => (Some(e), q),
        }
    }
}

/// The processor state that the last tick of `run_ticks(p, cpus)` returned.
pub open spec fn run_last_cpu(p: PoolView, cpus: Seq<Processor>) -> Processor
    recommends
        cpus.len() >= 1,
    decreases cpus.len(),
{
    let (r, q, c) = tick_spec(p, cpus[0]);
    if cpus.len() <= 1 || r is Err {
        c
    } else {
        run_last_cpu(q, cpus.drop_first())
    }
}

/// Over any number of ticks, as long as no guard word is written from outside,
/// the guard never reports corruption, whatever the processor holds at each
/// tick, and every guard word still holds the sentinel at the end. If at each
/// tick the running task's stack pointer leaves room for its frames above the
/// guard word, every tick succeeds.
pub proof fn lemma_guard_never_false_alarm(p: PoolView, cpus: Seq<Processor>)
    requires
        p.wf(),
        guards_intact(p),
    ensures
        run_ticks(p, cpus).0 != Some(Fault::StackCorrupt),
        guards_intact(run_ticks(p, cpus).1),
        (forall|k: int|
            0 <= k < cpus.len() ==> SW_FRAME_WORDS < (#[trigger] cpus[k]).psp <= REGION_WORDS
                - HW_FRAME_WORDS) ==> run_ticks(p, cpus).0 is None,
    decreases cpus.len(),
{
    if cpus.len() > 0 {
        lemma_guard_no_false_alarm(p, cpus[0]);
        let (r, q, _) = tick_spec(p, cpus[0]);
        if r is Ok {
            let rest = cpus.drop_first();
            lemma_guard_never_false_alarm(q, rest);
            if forall|k: int|
                0 <= k < cpus.len() ==> SW_FRAME_WORDS < (#[trigger] cpus[k]).psp <= REGION_WORDS
                    - HW_FRAME_WORDS {
                assert forall|k: int| 0 <= k < rest.len() implies SW_FRAME_WORDS < (
                #[trigger] rest[k]).psp <= REGION_WORDS - HW_FRAME_WORDS by {
                    assert(rest[k] == cpus[k + 1]);
                }
            }
        }
    }
}

/// The ticks after slot `i` was suspended: while the cursor is `d` slots past
/// `i`, no tick touches slot `i`, and the tick that comes back to it restores
/// what its suspension saved.
proof fn lemma_round_rest(
    p: PoolView,
    cpus: Seq<Processor>,
    i: int,
    d: int,
    t0: TaskView,
    cpu0: Processor,
)
    requires
        p.wf(),
        p.ticks > 0,
        0 <= i < p.capacity(),
        1 <= d < p.capacity(),
        cpus.len() == p.capacity() - d,
        p.cursor == (i + d) % (p.capacity() as int),
        t0.wf(),
        suspend_spec(t0, cpu0).0 is Ok,
        p.slots[i] == Some(suspend_spec(t0, cpu0).1),
        run_ticks(p, cpus).0 is None,
    ensures
        run_ticks(p, cpus).1.cursor == i,
        run_last_cpu(p, cpus) == cpu0,
    decreases cpus.len(),
{
    let n = p.capacity() as int;
    let (r, q, c) = tick_spec(p, cpus[0]);
    let out = p.cursor as int;
    lemma_offset_mod(i, d, n);
    assert(out != i);
    lemma_tick_keeps_wf(p, cpus[0]);
    lemma_cursor_step((i + d) as nat, n as nat);
    let (r1, t1, c1) = suspend_spec(p.task(out), cpus[0]);
    assert(r is Ok);
    if d + 1 == n {
        lemma_mod_add_multiples_vanish(i, n);
        lemma_small_mod(i as nat, n as nat);
        assert((out + 1) % n == i);
        lemma_register_round_trip(t0, cpu0, c1);
    } else {
        lemma_offset_mod(i, d + 1, n);
        assert(q.slots[i] == p.slots[i]);
        lemma_round_rest(q, cpus.drop_first(), i, d + 1, t0, cpu0);
    }
}

/// The callee-saved bank survives a round of the other tasks. Suspend the
/// task under the cursor with bank `X` at stack pointer `P` (the processor
/// `cpus[0]`), then let each other task run once, with whatever processor
/// state: the tick that comes back to the task, the `N`-th, dispatches it with
/// bank `X` and stack pointer `P` exactly, since no tick in between touches
/// its region.
pub proof fn lemma_bank_survives_round(p: PoolView, cpus: Seq<Processor>)
    requires
        p.wf(),
        p.ticks > 0,
        cpus.len() == p.capacity(),
        run_ticks(p, cpus).0 is None,
    ensures
        run_ticks(p, cpus).1.cursor == p.cursor,
        run_last_cpu(p, cpus) == cpus[0],
{
    let n = p.capacity() as int;
    let i = p.cursor as int;
    assert(p.slots[i] is Some);
    let t0 = p.task(i);
    let cpu0 = cpus[0];
    let (r, q, c) = tick_spec(p, cpu0);
    lemma_tick_keeps_wf(p, cpu0);
    assert(r is Ok);
    let (r1, t1, c1) = suspend_spec(t0, cpu0);
    if n == 1 {
        lemma_mod_bound(i + 1, n);
        lemma_register_round_trip(t0, cpu0, c1);
    } else {
        lemma_offset_mod(i, 1, n);
        lemma_round_rest(q, cpus.drop_first(), i, 1, t0, cpu0);
    }
}

} // verus!
