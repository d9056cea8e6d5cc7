use noobkio::fibers::{
    initial_stack_pointer, Rustime, State, Switch, Thread, DEFAULT_STACK_SIZE, MAX_THREADS,
};

fn stack_address(rt: &mut Rustime, i: usize) -> u64 {
    rt.stack_mut(i).as_mut_ptr() as u64
}

#[test]
fn new_runtime_runs_the_first_thread() {
    let mut rt = Rustime::new();
    assert_eq!(rt.first_available(), Some(1));
    for i in 0..MAX_THREADS {
        assert_eq!(rt.stack_mut(i).len(), DEFAULT_STACK_SIZE);
        assert!(rt.stack_mut(i).iter().all(|b| *b == 0));
        assert_eq!(rt.context_mut(i).sp, 0);
    }
}

#[test]
fn new_thread_is_free_and_zeroed() {
    let t = Thread::new();
    assert_eq!(t.state, State::Available);
    assert_eq!(t.stack.len(), DEFAULT_STACK_SIZE);
    assert!(t.stack.iter().all(|b| *b == 0));
    assert_eq!(t.ctx.lr, 0);
}

#[test]
fn yield_without_waiting_threads_changes_nothing() {
    let mut rt = Rustime::new();
    assert_eq!(rt.t_yield(), None);
    assert_eq!(rt.t_return(), None);
    assert_eq!(rt.first_available(), Some(1));
}

#[test]
fn spawn_prepares_the_first_free_thread() {
    let mut rt = Rustime::new();
    let base = stack_address(&mut rt, 1);
    assert_eq!(rt.spawn(0x1111, 0x2222, base), 1);
    let ctx = *rt.context_mut(1);
    assert_eq!(ctx.x19, 0x1111);
    assert_eq!(ctx.lr, 0x2222);
    assert_eq!(ctx.sp % 16, 0);
    assert!(ctx.sp <= base + DEFAULT_STACK_SIZE as u64);
    assert!(base + DEFAULT_STACK_SIZE as u64 - ctx.sp < 16);
    assert_eq!(rt.first_available(), Some(2));
}

#[test]
fn yields_go_round_the_ring() {
    let mut rt = Rustime::new();
    let b1 = stack_address(&mut rt, 1);
    rt.spawn(1, 2, b1);
    let b2 = stack_address(&mut rt, 2);
    rt.spawn(1, 2, b2);
    assert_eq!(rt.t_yield(), Some(Switch { from: 0, to: 1 }));
    assert_eq!(rt.t_yield(), Some(Switch { from: 1, to: 2 }));
    assert_eq!(rt.t_yield(), Some(Switch { from: 2, to: 0 }));
    assert_eq!(rt.t_yield(), Some(Switch { from: 0, to: 1 }));
}

#[test]
fn returning_thread_frees_its_slot() {
    let mut rt = Rustime::new();
    let b1 = stack_address(&mut rt, 1);
    rt.spawn(1, 2, b1);
    assert_eq!(rt.t_yield(), Some(Switch { from: 0, to: 1 }));
    assert_eq!(rt.t_return(), Some(Switch { from: 1, to: 0 }));
    assert_eq!(rt.first_available(), Some(1));
    assert_eq!(rt.t_yield(), None);
}

#[test]
fn all_threads_taken() {
    let mut rt = Rustime::new();
    for i in 1..MAX_THREADS {
        let b = stack_address(&mut rt, i);
        assert_eq!(rt.spawn(7, 8, b), i);
    }
    assert_eq!(rt.first_available(), None);
}

#[test]
fn stack_pointer_alignment() {
    assert_eq!(initial_stack_pointer(0x1000, 0x200000), 0x201000);
    assert_eq!(initial_stack_pointer(0x1001, 0x200000), 0x201000);
    assert_eq!(initial_stack_pointer(0x100f, 0x10), 0x1010);
    assert_eq!(initial_stack_pointer(0, 15), 0);
}

#[test]
fn waiting_thread_runs_within_its_ring_distance() {
    let mut rt = Rustime::new();
    for i in 1..4 {
        let b = stack_address(&mut rt, i);
        rt.spawn(1, 2, b);
    }
    assert_eq!(rt.t_yield(), Some(Switch { from: 0, to: 1 }));
    assert_eq!(rt.t_return(), Some(Switch { from: 1, to: 2 }));
    assert_eq!(rt.t_yield(), Some(Switch { from: 2, to: 3 }));
    assert_eq!(rt.t_yield(), Some(Switch { from: 3, to: 0 }));
    assert_eq!(rt.t_yield(), Some(Switch { from: 0, to: 2 }));
}
