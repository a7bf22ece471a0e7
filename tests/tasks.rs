use kernel_core::context::{CapturedContext, Context, GPR, RFLAGS_USER, USER_STACK_TOP};
use kernel_core::error::Error;
use kernel_core::mmu::{PhysicalAddress, INITIAL_MAPPED, MAX_MAPPED, MMU};
use kernel_core::task::{current_tid, set_current_tid, switch, TaskList, TaskStatus, MAX_TASKS};
use kernel_core::timer::Timer;

const KERNEL_PDPT: u64 = 0x10_3000;

fn fresh() -> MMU {
    MMU::new(PhysicalAddress::new(KERNEL_PDPT))
}

fn frames_in_use(m: &MMU) -> usize {
    m.bitmap.iter().map(|w| w.count_ones() as usize).sum()
}

fn pool_in_use(m: &MMU) -> usize {
    m.inuse.iter().filter(|b| **b).count()
}

fn status_of(list: &TaskList, tid: u64) -> TaskStatus {
    list.get(tid).unwrap().status
}

#[test]
fn context_initial_state() {
    let mut m = fresh();
    let c = Context::new(&mut m).unwrap();
    assert_eq!(c.rflags, RFLAGS_USER);
    assert_eq!(c.rsp, USER_STACK_TOP);
    assert_eq!(c.rip, 0);
    assert_eq!(c.sr.cs, 0x28 | 3);
    assert_eq!(c.sr.ss, 0x30 | 3);
    assert_eq!(c.sr.ds, 0x30 | 3);
    assert_eq!(c.gpr.rax, 0);
    assert_eq!(c.cr3, 0x60_0000);
    // four nodes plus a four-page kernel stack, four user stack frames
    assert_eq!(pool_in_use(&m), 8);
    assert_eq!(frames_in_use(&m), INITIAL_MAPPED as usize + 4);
    // the user stack ends at 2 MiB
    assert_eq!(c.write(&mut m, 0x1F_FFFF, 0xAB), Ok(()));
    assert_eq!(c.read(&m, 0x1F_FFFF), Ok(0xAB));
    assert_eq!(c.read(&m, 0x1F_C000), Ok(0));
    assert_eq!(c.read(&m, 0x1F_B000), Err(Error::EFAULT));
    assert_eq!(c.iret_frame(), [0x33, USER_STACK_TOP, RFLAGS_USER, 0x2B, 0]);
    assert!(c.needs_cr3_switch(0x1000));
    assert!(!c.needs_cr3_switch(c.cr3));
}

#[test]
fn map_allocates_lowest_free_index() {
    let mut m = fresh();
    let mut list = TaskList::new();
    let tid = list.new_task(&mut m).unwrap();
    let t = list.get(tid).unwrap();
    assert_eq!(t.context.map(&mut m, 0), Ok(0x1000));
    assert_eq!(t.context.map(&mut m, 0), Ok(0x2000));
    assert_eq!(t.context.map(&mut m, 0x5000), Ok(0x5000));
    assert_eq!(t.context.map(&mut m, 0x5000), Err(Error::ENOMEM));
    assert_eq!(t.context.map(&mut m, 0), Ok(0x3000));
}

#[test]
fn table_map_by_identifier() {
    let mut m = fresh();
    let mut list = TaskList::new();
    let tid = list.new_task(&mut m).unwrap();
    assert_eq!(list.map(&mut m, tid, 0), Ok(0x1000));
    assert_eq!(list.map(&mut m, tid, 0x7000), Ok(0x7000));
    assert_eq!(list.map(&mut m, tid, 0x7fff), Err(Error::ENOMEM));
    assert_eq!(list.map(&mut m, tid + 1, 0), Err(Error::ENOENT));
    assert_eq!(frames_in_use(&m), INITIAL_MAPPED as usize + 6);
}

#[test]
fn map_fails_when_frames_run_out() {
    let mut m = fresh();
    let c = Context::new(&mut m).unwrap();
    while m.alloc_phys().is_ok() {}
    assert_eq!(c.map(&mut m, 0), Err(Error::ENOMEM));
}

#[test]
fn frame_exhaustion_is_reported() {
    let mut m = fresh();
    while m.alloc_phys().is_ok() {}
    let pool_before = m.inuse.clone();
    let frames_before = m.bitmap.clone();
    assert!(matches!(Context::new(&mut m), Err(Error::ENOMEM)));
    assert_eq!(m.inuse, pool_before);
    assert_eq!(m.bitmap, frames_before);
    // with three frames left the user stack cannot be completed either
    for p in 0..3u64 {
        assert_eq!(m.free_phys(PhysicalAddress::from_pfn(MAX_MAPPED - 1 - p)), Ok(()));
    }
    let frames_before = m.bitmap.clone();
    assert!(matches!(Context::new(&mut m), Err(Error::ENOMEM)));
    assert_eq!(m.inuse, pool_before);
    assert_eq!(m.bitmap, frames_before);
    let mut list = TaskList::new();
    assert_eq!(list.new_task(&mut m), Err(Error::ENOMEM));
    assert!(list.iter().is_empty());
}

#[test]
fn context_destructor_completeness() {
    let mut m = fresh();
    let pool_before = m.inuse.clone();
    let frames_before = m.bitmap.clone();
    let mut list = TaskList::new();
    let mut tids = Vec::new();
    for _ in 0..5 {
        let tid = list.new_task(&mut m).unwrap();
        list.get(tid).unwrap().context.map(&mut m, 0).unwrap();
        tids.push(tid);
    }
    for tid in [3u64, 1, 5, 2, 4] {
        let t = list.remove(tid).unwrap();
        t.context.release(&mut m);
    }
    assert_eq!(m.inuse, pool_before);
    assert_eq!(m.bitmap, frames_before);
}

#[test]
fn address_space_isolation() {
    let mut m = fresh();
    let mut list = TaskList::new();
    let a = list.new_task(&mut m).unwrap();
    let b = list.new_task(&mut m).unwrap();
    let ca = &list.get(a).unwrap().context;
    let cb = &list.get(b).unwrap().context;
    assert_eq!(ca.map(&mut m, 0), Ok(0x1000));
    assert_eq!(cb.map(&mut m, 0), Ok(0x1000));
    assert_eq!(ca.write(&mut m, 0x1000, 0x6a), Ok(()));
    assert_eq!(ca.read(&m, 0x1000), Ok(0x6a));
    assert_eq!(cb.read(&m, 0x1000), Ok(0));
    assert_eq!(cb.write(&mut m, 0x1000, 0xeb), Ok(()));
    assert_eq!(ca.read(&m, 0x1000), Ok(0x6a));
    // unmapped user address
    assert_eq!(ca.read(&m, 0x9000), Err(Error::EFAULT));
    assert_eq!(ca.write(&mut m, 0x9000, 1), Err(Error::EFAULT));
}

#[test]
fn kernel_half_is_shared() {
    let mut m = fresh();
    let mut list = TaskList::new();
    let mut entries = Vec::new();
    for _ in 0..3 {
        let tid = list.new_task(&mut m).unwrap();
        let c = &list.get(tid).unwrap().context;
        let i = MMU::pool_index(c.page_table).unwrap();
        entries.push(m.table_at(i).get(511));
    }
    assert!(entries.iter().all(|e| *e == KERNEL_PDPT | 0x3));
}

#[test]
fn identifiers_unique_and_wrapping() {
    let mut m = fresh();
    let mut list = TaskList::new();
    assert_eq!(list.new_task(&mut m), Ok(1));
    assert_eq!(list.new_task(&mut m), Ok(2));
    assert_eq!(list.new_task(&mut m), Ok(3));
    list.remove(2).unwrap().context.release(&mut m);
    assert_eq!(list.new_task(&mut m), Ok(4));
    list.next_id = MAX_TASKS - 1;
    assert_eq!(list.new_task(&mut m), Ok(MAX_TASKS - 1));
    // wraps to 1, which is taken, then 2, which is free again
    assert_eq!(list.new_task(&mut m), Ok(2));
    let tids: Vec<u64> = list.iter().iter().map(|t| t.tid()).collect();
    assert_eq!(tids, vec![1, 2, 3, 4, MAX_TASKS - 1]);
    assert!(list.contains(4));
    assert!(!list.contains(5));
    assert!(list.remove(5).is_none());
}

#[test]
fn task_accessors() {
    let mut m = fresh();
    let mut list = TaskList::new();
    let tid = list.new_task(&mut m).unwrap();
    let t = list.get(tid).unwrap();
    assert_eq!(t.tid(), tid);
    assert_eq!(t.exit_code(), 0);
    assert_eq!(t.status, TaskStatus::Initializing);
    assert!(!t.died());
    assert!(!t.standby());
    assert!(list.set_status(&m, tid, TaskStatus::Ready));
    assert!(list.get(tid).unwrap().standby());
    assert!(list.set_status(&m, tid, TaskStatus::Terminated));
    assert!(list.get(tid).unwrap().died());
    assert!(!list.set_status(&m, 77, TaskStatus::Ready));
    assert!(list.set_rip(&m, tid, 0x1000));
    assert_eq!(list.get(tid).unwrap().context.rip, 0x1000);
    assert!(list.current().is_none());
    set_current_tid(&mut list, tid);
    assert_eq!(current_tid(&list), tid);
    assert_eq!(list.current().unwrap().tid(), tid);
}

#[test]
fn store_context_copies_registers() {
    let mut m = fresh();
    let mut list = TaskList::new();
    let tid = list.new_task(&mut m).unwrap();
    set_current_tid(&mut list, tid);
    let gpr = GPR {
        rax: 1, rcx: 2, rdx: 3, rbx: 4, rsi: 5, rdi: 6, r8: 7, r9: 8, r10: 9, r11: 10,
        r12: 11, r13: 12, r14: 13, r15: 14,
    };
    let cap = CapturedContext {
        cr3: 0x60_0000, rbp: 0x1F_F800, gs: 0x33, fs: 0x33, es: 0x33, ds: 0x33, gpr,
        reserved_0: 0, reserved_1: 32, reserved_2: 0,
        rip: 0x1002, cs: 0x2B, rflags: 0x202, rsp: 0x1F_F000, ss: 0x33,
    };
    list.store_context(&m, &cap);
    let c = &list.get(tid).unwrap().context;
    assert_eq!(c.rip, 0x1002);
    assert_eq!(c.rflags, 0x202);
    assert_eq!(c.rbp, 0x1F_F800);
    assert_eq!(c.gpr, gpr);
    assert_eq!(c.sr.cs, 0x2B);
}

/// Writes `code` at a freshly mapped page of task `tid` and points its
/// instruction pointer there.
fn load(list: &mut TaskList, m: &mut MMU, tid: u64, code: &[u8]) {
    let c = &list.get(tid).unwrap().context;
    let address = c.map(m, 0).unwrap();
    for (i, b) in code.iter().enumerate() {
        c.write(m, address + i as u64, *b).unwrap();
    }
    assert!(list.set_rip(m, tid, address));
}

#[test]
fn single_task_runs() {
    let mut m = fresh();
    let mut list = TaskList::new();
    let mut timer: Timer<u64> = Timer::new();
    let t1 = list.new_task(&mut m).unwrap();
    // int 0x3 style break then `jmp .`
    load(&mut list, &mut m, t1, &[0x6a, 0x02, 0xeb, 0xfe]);
    assert_eq!(list.get(t1).unwrap().context.rip, 0x1000);
    assert!(list.set_status(&m, t1, TaskStatus::Running));
    set_current_tid(&mut list, t1);
    let mut switched = Vec::new();
    for _ in 0..5 {
        let tick = timer.advance();
        switched.push(switch(&mut list, &mut m, tick));
    }
    assert_eq!(timer.tick, 5);
    assert!(switched.iter().all(|r| r.is_none()));
    assert_eq!(current_tid(&list), t1);
    assert_eq!(status_of(&list, t1), TaskStatus::Running);
    assert_eq!(list.get(t1).unwrap().context.read(&m, 0x1003), Ok(0xfe));
}

#[test]
fn two_tasks_alternate() {
    let mut m = fresh();
    let mut list = TaskList::new();
    let mut timer: Timer<u64> = Timer::new();
    let t1 = list.new_task(&mut m).unwrap();
    let t2 = list.new_task(&mut m).unwrap();
    load(&mut list, &mut m, t1, &[0x6a, 0x02, 0xeb, 0xfe]);
    load(&mut list, &mut m, t2, &[0xeb, 0xfe]);
    assert!(list.set_status(&m, t1, TaskStatus::Running));
    assert!(list.set_status(&m, t2, TaskStatus::Ready));
    set_current_tid(&mut list, t1);
    let mut picks = Vec::new();
    for _ in 0..10 {
        let tick = timer.advance();
        if let Some(next) = switch(&mut list, &mut m, tick) {
            picks.push((tick, next));
        }
        if tick == 5 {
            assert_eq!(status_of(&list, t2), TaskStatus::Running);
            assert_eq!(status_of(&list, t1), TaskStatus::Ready);
            assert_eq!(current_tid(&list), t2);
        }
    }
    assert_eq!(picks, vec![(5, t2), (10, t1)]);
    assert_eq!(status_of(&list, t1), TaskStatus::Running);
    assert_eq!(status_of(&list, t2), TaskStatus::Ready);
}

#[test]
fn round_robin_fairness() {
    let mut m = fresh();
    let mut list = TaskList::new();
    let tids: Vec<u64> = (0..4).map(|_| list.new_task(&mut m).unwrap()).collect();
    for t in &tids {
        assert!(list.set_status(&m, *t, TaskStatus::Ready));
    }
    assert!(list.set_status(&m, tids[1], TaskStatus::Running));
    set_current_tid(&mut list, tids[1]);
    let mut picks = Vec::new();
    for k in 1..=8u64 {
        picks.push(switch(&mut list, &mut m, 5 * k).unwrap());
    }
    assert_eq!(picks, vec![tids[2], tids[3], tids[0], tids[1], tids[2], tids[3], tids[0], tids[1]]);
    // Initializing tasks are skipped
    assert!(list.set_status(&m, tids[2], TaskStatus::Initializing));
    assert_eq!(switch(&mut list, &mut m, 45), Some(tids[3]));
}

#[test]
fn reap_on_exit() {
    let mut m = fresh();
    let mut list = TaskList::new();
    let t1 = list.new_task(&mut m).unwrap();
    let t2 = list.new_task(&mut m).unwrap();
    load(&mut list, &mut m, t1, &[0x6a, 0x02, 0xeb, 0xfe]);
    load(&mut list, &mut m, t2, &[0xeb, 0xfe]);
    assert!(list.set_status(&m, t1, TaskStatus::Terminated));
    assert!(list.set_status(&m, t2, TaskStatus::Running));
    set_current_tid(&mut list, t2);
    let pool_before = pool_in_use(&m);
    let frames_before = frames_in_use(&m);
    // not a scheduling tick: nothing happens
    assert_eq!(switch(&mut list, &mut m, 4), None);
    assert!(list.contains(t1));
    assert_eq!(switch(&mut list, &mut m, 5), None);
    assert!(!list.contains(t1));
    assert!(list.contains(t2));
    // four nodes and four kernel stack pages; four stack frames and the code page
    assert_eq!(pool_before - pool_in_use(&m), 8);
    assert_eq!(frames_before - frames_in_use(&m), 5);
    assert_eq!(current_tid(&list), t2);
}

#[test]
fn page_walk_translates_user_addresses() {
    let mut m = fresh();
    let c = Context::new(&mut m).unwrap();
    let pa = m.vtop(c.page_table, kernel_core::mmu::VirtualAddress::new(0x1F_F123)).unwrap();
    // entry 511 holds the first user stack frame
    assert_eq!(pa.0, INITIAL_MAPPED * 0x1000 + 0x123);
    assert_eq!(
        m.vtop(c.page_table, kernel_core::mmu::VirtualAddress::new(0x1000)),
        Err(Error::EFAULT)
    );
}
