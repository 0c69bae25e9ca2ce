use rr_sched::cpu::Processor;
use rr_sched::frame::{
    read_hardware_frame, read_software_frame, write_software_frame, HardwareFrame, SoftwareFrame,
    HW_FRAME_OFFSET, PSR_DEFAULT, REGION_WORDS, SW_FRAME_OFFSET, SW_FRAME_WORDS,
};
use rr_sched::pool::{Switch, TaskPool};
use rr_sched::task::{Fault, Task, TaskState, STACK_CANARY_VALUE};

const ENTRY_A: u32 = 0x0800_0101;
const ENTRY_B: u32 = 0x0800_0201;
const ENTRY_C: u32 = 0x0800_0301;

fn bank(base: u32) -> SoftwareFrame {
    SoftwareFrame {
        r4: base,
        r5: base + 1,
        r6: base + 2,
        r7: base + 3,
        r8: base + 4,
        r9: base + 5,
        r10: base + 6,
        r11: base + 7,
    }
}

fn idle_cpu() -> Processor {
    Processor { psp: 0, callee: SoftwareFrame::zeroed() }
}

fn task(pool: &TaskPool, i: usize) -> &Task {
    pool.slots[i].as_ref().unwrap()
}

#[test]
fn layout_constants() {
    assert_eq!(SW_FRAME_OFFSET, 257);
    assert_eq!(HW_FRAME_OFFSET, 265);
    assert_eq!(REGION_WORDS, 273);
    assert_eq!(PSR_DEFAULT, 0x0100_0000);
    assert_eq!(STACK_CANARY_VALUE, 0xDEAD_BEEF);
}

#[test]
fn new_task_builds_initial_frame() {
    let t = Task::new(0x0800_1235);
    assert_eq!(t.state, TaskState::Created);
    assert_eq!(t.stack.len(), REGION_WORDS);
    assert_eq!(t.stack[0], STACK_CANARY_VALUE);
    assert!(t.stack_okay());
    let f = read_hardware_frame(&t.stack, HW_FRAME_OFFSET);
    assert_eq!(
        f,
        HardwareFrame { r0: 0, r1: 0, r2: 0, r3: 0, r12: 0, lr: 0, pc: 0x0800_1235, xpsr: 0x0100_0000 }
    );
    assert_eq!(read_software_frame(&t.stack, SW_FRAME_OFFSET), SoftwareFrame::zeroed());
    assert!(t.stack[1..SW_FRAME_OFFSET].iter().all(|w| *w == 0));
}

#[test]
fn first_dispatch_points_at_hardware_frame() {
    let mut t = Task::new(ENTRY_B);
    let mut cpu = Processor { psp: 7, callee: bank(40) };
    assert_eq!(t.schedule_now(&mut cpu), Ok(()));
    assert_eq!(t.state, TaskState::Running);
    assert_eq!(cpu.psp, HW_FRAME_OFFSET);
    assert_eq!(cpu.callee, bank(40));
    let f = read_hardware_frame(&t.stack, cpu.psp);
    assert_eq!((f.r0, f.r1, f.r2, f.r3, f.r12, f.lr), (0, 0, 0, 0, 0, 0));
    assert_eq!(f.pc, ENTRY_B);
    assert_eq!(f.xpsr, PSR_DEFAULT);
}

#[test]
fn schedule_now_on_running_task_faults() {
    let mut t = Task::new(ENTRY_A);
    let mut cpu = idle_cpu();
    t.schedule_now(&mut cpu).unwrap();
    let before = cpu;
    assert_eq!(t.schedule_now(&mut cpu), Err(Fault::AlreadyRunning));
    assert_eq!(t.state, TaskState::Running);
    assert_eq!(cpu, before);
}

#[test]
fn schedule_now_on_suspended_task_uses_saved_pointer() {
    let mut t = Task::new(ENTRY_A);
    t.state = TaskState::Suspended(200);
    let mut cpu = idle_cpu();
    assert_eq!(t.schedule_now(&mut cpu), Ok(()));
    assert_eq!(cpu.psp, 200);
    assert_eq!(t.state, TaskState::Running);
}

#[test]
fn save_context_records_stack_pointer() {
    let mut t = Task::new(ENTRY_A);
    t.state = TaskState::Running;
    let cpu = Processor { psp: 240, callee: bank(1) };
    assert_eq!(t.save_context(&cpu), Ok(()));
    assert_eq!(t.state, TaskState::Suspended(240));
}

#[test]
fn save_context_on_task_not_running_faults() {
    let mut t = Task::new(ENTRY_A);
    let cpu = Processor { psp: 240, callee: bank(1) };
    assert_eq!(t.save_context(&cpu), Err(Fault::NotRunning));
    assert_eq!(t.state, TaskState::Created);
}

#[test]
fn save_context_reports_corrupt_guard() {
    let mut t = Task::new(ENTRY_A);
    t.state = TaskState::Running;
    t.stack[0] = 0;
    assert!(!t.stack_okay());
    let cpu = Processor { psp: 240, callee: bank(1) };
    assert_eq!(t.save_context(&cpu), Err(Fault::StackCorrupt));
    assert_eq!(t.state, TaskState::Suspended(240));
}

#[test]
fn save_context_rejects_pointer_outside_region() {
    let mut t = Task::new(ENTRY_A);
    t.state = TaskState::Running;
    let cpu = Processor { psp: REGION_WORDS - 15, callee: bank(1) };
    assert_eq!(t.save_context(&cpu), Err(Fault::StackOutOfRegion));
    let cpu = Processor { psp: 0, callee: bank(1) };
    assert_eq!(t.save_context(&cpu), Err(Fault::StackOutOfRegion));
    assert_eq!(t.state, TaskState::Running);
}

#[test]
fn software_frame_round_trip_through_memory() {
    let mut mem = vec![0u32; 20];
    write_software_frame(&mut mem, 5, &bank(100));
    assert_eq!(mem[5], 100);
    assert_eq!(mem[12], 107);
    assert_eq!(mem[4], 0);
    assert_eq!(mem[13], 0);
    assert_eq!(read_software_frame(&mem, 5), bank(100));
}

#[test]
fn processor_pushes_and_pops_callee_bank() {
    let mut stack = vec![0u32; REGION_WORDS];
    let mut cpu = Processor { psp: HW_FRAME_OFFSET, callee: bank(10) };
    cpu.save_software_frame(&mut stack);
    assert_eq!(cpu.psp, HW_FRAME_OFFSET - SW_FRAME_WORDS);
    assert_eq!(stack[SW_FRAME_OFFSET], 10);
    assert_eq!(stack[SW_FRAME_OFFSET + 7], 17);
    cpu.callee = bank(90);
    cpu.load_software_frame(&stack);
    assert_eq!(cpu.psp, HW_FRAME_OFFSET);
    assert_eq!(cpu.callee, bank(10));
}

#[test]
fn suspend_then_resume_restores_registers() {
    let mut t = Task::new(ENTRY_A);
    let mut cpu = idle_cpu();
    t.resume(&mut cpu).unwrap();
    cpu.psp = 200;
    cpu.callee = bank(0xA0);
    assert_eq!(t.suspend(&mut cpu), Ok(()));
    assert_eq!(t.state, TaskState::Suspended(192));
    cpu = Processor { psp: 3, callee: bank(0xF0) };
    assert_eq!(t.resume(&mut cpu), Ok(()));
    assert_eq!(cpu, Processor { psp: 200, callee: bank(0xA0) });
}

#[test]
fn suspend_rejects_pointer_below_frame() {
    let mut t = Task::new(ENTRY_A);
    let mut cpu = idle_cpu();
    t.resume(&mut cpu).unwrap();
    cpu.psp = 3;
    assert_eq!(t.suspend(&mut cpu), Err(Fault::StackOutOfRegion));
    assert_eq!(t.state, TaskState::Running);
    assert_eq!(cpu.psp, 3);
}

#[test]
fn suspend_never_writes_over_guard_word() {
    let mut t = Task::new(ENTRY_A);
    let mut cpu = idle_cpu();
    t.resume(&mut cpu).unwrap();
    cpu.psp = SW_FRAME_WORDS;
    cpu.callee = bank(STACK_CANARY_VALUE);
    assert_eq!(t.suspend(&mut cpu), Err(Fault::StackOutOfRegion));
    assert_eq!(t.stack[0], STACK_CANARY_VALUE);
    assert_eq!(t.stack[1], 0);
    assert_eq!(t.state, TaskState::Running);
    cpu.psp = SW_FRAME_WORDS + 1;
    assert_eq!(t.suspend(&mut cpu), Ok(()));
    assert_eq!(t.state, TaskState::Suspended(1));
    assert_eq!(t.stack[1], STACK_CANARY_VALUE);
    assert!(t.stack_okay());
}

#[test]
fn new_pool_is_empty() {
    let pool = TaskPool::new(vec![ENTRY_A, ENTRY_B]);
    assert_eq!(pool.slots.len(), 2);
    assert!(pool.slots.iter().all(|s| s.is_none()));
    assert_eq!(pool.cursor, 0);
}

#[test]
fn first_tick_fills_pool_and_starts_slot_zero() {
    let mut pool = TaskPool::new(vec![ENTRY_A, ENTRY_B, ENTRY_C]);
    let mut cpu = idle_cpu();
    let s = pool.sys_tick(&mut cpu).unwrap();
    assert_eq!(s, Switch { suspended: None, dispatched: 0, resumed: false });
    assert_eq!(task(&pool, 0).state, TaskState::Running);
    assert_eq!(task(&pool, 1).state, TaskState::Created);
    assert_eq!(task(&pool, 2).state, TaskState::Created);
    assert_eq!(cpu.psp, HW_FRAME_OFFSET);
    assert_eq!(read_hardware_frame(&task(&pool, 0).stack, cpu.psp).pc, ENTRY_A);
    assert_eq!(read_hardware_frame(&task(&pool, 2).stack, HW_FRAME_OFFSET).pc, ENTRY_C);
}

#[test]
fn cursor_visits_slots_in_cyclic_order() {
    let mut pool = TaskPool::new(vec![ENTRY_A, ENTRY_B, ENTRY_C]);
    let mut cpu = idle_cpu();
    let mut order = Vec::new();
    for _ in 0..10 {
        let s = pool.sys_tick(&mut cpu).unwrap();
        assert_eq!(s.dispatched, pool.cursor);
        order.push(s.dispatched);
    }
    assert_eq!(order, vec![0, 1, 2, 0, 1, 2, 0, 1, 2, 0]);
}

#[test]
fn exactly_one_task_runs_after_each_tick() {
    let mut pool = TaskPool::new(vec![ENTRY_A, ENTRY_B, ENTRY_C]);
    let mut cpu = idle_cpu();
    for _ in 0..7 {
        pool.sys_tick(&mut cpu).unwrap();
        let running: Vec<usize> = (0..3)
            .filter(|i| task(&pool, *i).state == TaskState::Running)
            .collect();
        assert_eq!(running, vec![pool.cursor]);
    }
}

#[test]
fn single_task_pool_resumes_itself() {
    let mut pool = TaskPool::new(vec![ENTRY_A]);
    let mut cpu = idle_cpu();
    assert_eq!(
        pool.sys_tick(&mut cpu),
        Ok(Switch { suspended: None, dispatched: 0, resumed: false })
    );
    for _ in 0..3 {
        cpu.callee = bank(77);
        assert_eq!(
            pool.sys_tick(&mut cpu),
            Ok(Switch { suspended: Some(0), dispatched: 0, resumed: true })
        );
        assert_eq!(cpu.callee, bank(77));
        assert_eq!(cpu.psp, HW_FRAME_OFFSET);
    }
}

#[test]
fn registers_survive_a_round_of_other_tasks() {
    let mut pool = TaskPool::new(vec![ENTRY_A, ENTRY_B]);
    let mut cpu = idle_cpu();
    pool.sys_tick(&mut cpu).unwrap();
    cpu.callee = bank(0x1000);
    pool.sys_tick(&mut cpu).unwrap();
    assert_eq!(task(&pool, 0).state, TaskState::Suspended(SW_FRAME_OFFSET));
    cpu.callee = bank(0x2000);
    pool.sys_tick(&mut cpu).unwrap();
    assert_eq!(cpu.callee, bank(0x1000));
    assert_eq!(cpu.psp, HW_FRAME_OFFSET);
    cpu.callee = bank(0x3000);
    pool.sys_tick(&mut cpu).unwrap();
    assert_eq!(cpu.callee, bank(0x2000));
}

#[test]
fn registers_survive_a_round_of_three_tasks() {
    let mut pool = TaskPool::new(vec![ENTRY_A, ENTRY_B, ENTRY_C]);
    let mut cpu = idle_cpu();
    pool.sys_tick(&mut cpu).unwrap();
    pool.sys_tick(&mut cpu).unwrap();
    assert_eq!(pool.cursor, 1);
    cpu.psp = 200;
    cpu.callee = bank(0x5000);
    pool.sys_tick(&mut cpu).unwrap();
    cpu = Processor { psp: 250, callee: bank(0x6000) };
    pool.sys_tick(&mut cpu).unwrap();
    cpu = Processor { psp: 230, callee: bank(0x7000) };
    let s = pool.sys_tick(&mut cpu).unwrap();
    assert_eq!(s, Switch { suspended: Some(0), dispatched: 1, resumed: true });
    assert_eq!(cpu, Processor { psp: 200, callee: bank(0x5000) });
}

#[test]
fn corrupt_guard_is_reported_at_next_suspension() {
    let mut pool = TaskPool::new(vec![ENTRY_A, ENTRY_B]);
    let mut cpu = idle_cpu();
    pool.sys_tick(&mut cpu).unwrap();
    pool.sys_tick(&mut cpu).unwrap();
    pool.slots[0].as_mut().unwrap().stack[0] = 0x1234_5678;
    assert!(!task(&pool, 0).stack_okay());
    pool.sys_tick(&mut cpu).unwrap();
    assert_eq!(pool.sys_tick(&mut cpu), Err(Fault::StackCorrupt));
    assert_eq!(pool.cursor, 0);
}

#[test]
fn intact_guards_never_raise_alarm() {
    let mut pool = TaskPool::new(vec![ENTRY_A, ENTRY_B, ENTRY_C]);
    let mut cpu = idle_cpu();
    for k in 0..200u32 {
        cpu.callee = bank(k);
        assert!(pool.sys_tick(&mut cpu).is_ok());
    }
    assert!((0..3).all(|i| task(&pool, i).stack_okay()));
}

#[test]
fn stack_pointer_outside_region_is_fatal() {
    let mut pool = TaskPool::new(vec![ENTRY_A, ENTRY_B]);
    let mut cpu = idle_cpu();
    pool.sys_tick(&mut cpu).unwrap();
    cpu.psp = 4;
    assert_eq!(pool.sys_tick(&mut cpu), Err(Fault::StackOutOfRegion));
    assert_eq!(task(&pool, 0).state, TaskState::Running);
    assert_eq!(task(&pool, 1).state, TaskState::Created);
}

#[test]
fn two_tasks_over_four_ticks() {
    let mut pool = TaskPool::new(vec![ENTRY_A, ENTRY_B]);
    let mut cpu = idle_cpu();
    let mut outcomes = Vec::new();
    for _ in 0..4 {
        outcomes.push(pool.sys_tick(&mut cpu).unwrap());
    }
    assert_eq!(
        outcomes,
        vec![
            Switch { suspended: None, dispatched: 0, resumed: false },
            Switch { suspended: Some(0), dispatched: 1, resumed: false },
            Switch { suspended: Some(1), dispatched: 0, resumed: true },
            Switch { suspended: Some(0), dispatched: 1, resumed: true },
        ]
    );
    let a_resumed = outcomes.iter().filter(|s| s.dispatched == 0 && s.resumed).count();
    let a_suspended = outcomes.iter().filter(|s| s.suspended == Some(0)).count();
    assert_eq!(a_resumed, 1);
    assert_eq!(a_suspended, 2);
}
