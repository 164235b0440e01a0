use wasmfxtime::continuation::{ContinuationError, StackChain, VMContObj};
use wasmfxtime::continuations::{StackLimits, State};
use wasmfxtime::switching::ContinuationStore;

fn handlers_of(store: &ContinuationStore, link: StackChain) -> (Vec<usize>, u32) {
    let common = match link {
        StackChain::Continuation(c) => &store.record(c).common,
        _ => store.main_stack(),
    };
    let mut out = Vec::new();
    for i in 0..common.handlers.get_length() as usize {
        out.push(*common.handlers.get(i));
    }
    (out, common.first_switch_handler_index)
}

#[test]
fn resume_then_suspend_returns_to_resumer() {
    let mut s = ContinuationStore::new(7);
    let h0 = s.cont_new(1000);
    assert_eq!(h0, VMContObj { revision: 0, contref: 0 });
    assert_eq!(s.record(0).common.state, State::Fresh);
    assert_eq!(s.resume(h0, &[1, 2], &[10], &[30]), Ok(()));
    assert_eq!(s.active(), StackChain::Continuation(0));
    assert_eq!(s.record(0).common.state, State::Running);
    assert_eq!(s.record(0).args, vec![1, 2]);
    assert_eq!(s.record(0).parent_chain, StackChain::MainStack(7));
    assert_eq!(s.main_stack().state, State::Parent);
    assert_eq!(handlers_of(&s, StackChain::MainStack(7)), (vec![10, 30], 1));
    assert_eq!(s.runtime_limits().stack_limit, 1000);

    let (index, k) = s.suspend(10).unwrap();
    assert_eq!(index, 0);
    assert_eq!(k, VMContObj { revision: 1, contref: 0 });
    assert_eq!(s.active(), StackChain::MainStack(7));
    assert_eq!(s.main_stack().state, State::Running);
    assert_eq!(handlers_of(&s, StackChain::MainStack(7)), (vec![], 0));
    assert_eq!(s.runtime_limits().stack_limit, 0);
    assert_eq!(s.record(0).common.state, State::Suspended);
    assert_eq!(s.record(0).parent_chain, StackChain::Absent);
    assert_eq!(s.record(0).last_ancestor, Some(0));

    // The first handle was consumed by the resume.
    assert_eq!(s.resume(h0, &[], &[], &[]), Err(ContinuationError::AlreadyConsumed));
    assert_eq!(s.resume(k, &[], &[], &[]), Ok(()));
    assert_eq!(s.record(0).revision, 2);
}

#[test]
fn nested_resume_and_suspend_split_the_chain() {
    let mut s = ContinuationStore::new(7);
    let h0 = s.cont_new(1000);
    let h1 = s.cont_new(2000);
    s.resume(h0, &[1, 2], &[10], &[30]).unwrap();
    s.resume(h1, &[], &[20], &[10]).unwrap();
    assert_eq!(s.active(), StackChain::Continuation(1));
    assert_eq!(s.record(1).parent_chain, StackChain::Continuation(0));
    assert_eq!(s.record(0).common.state, State::Parent);
    assert_eq!(s.record(0).common.limits.stack_limit, 1000);

    // Continuation 0 handles 10 only as a switch, so the main stack's
    // suspend handler is found: both continuations are suspended together.
    let (index, k) = s.suspend(10).unwrap();
    assert_eq!(index, 0);
    assert_eq!(k, VMContObj { revision: 1, contref: 1 });
    assert_eq!(s.active(), StackChain::MainStack(7));
    assert_eq!(s.record(1).common.state, State::Suspended);
    assert_eq!(s.record(1).last_ancestor, Some(0));
    assert_eq!(s.record(0).common.state, State::Parent);
    assert_eq!(s.record(0).parent_chain, StackChain::Absent);
    assert_eq!(handlers_of(&s, StackChain::Continuation(0)), (vec![20, 10], 1));

    // Resuming the chain runs continuation 1 again, under continuation 0.
    s.resume(k, &[], &[], &[]).unwrap();
    assert_eq!(s.record(0).parent_chain, StackChain::MainStack(7));
    assert_eq!(s.record(1).parent_chain, StackChain::Continuation(0));
    let (index, k2) = s.suspend(20).unwrap();
    assert_eq!(index, 0);
    assert_eq!(k2, VMContObj { revision: 2, contref: 1 });
    assert_eq!(s.active(), StackChain::Continuation(0));
    assert_eq!(s.record(0).common.state, State::Running);
    assert_eq!(handlers_of(&s, StackChain::Continuation(0)), (vec![], 0));
    assert_eq!(s.runtime_limits().stack_limit, 1000);

    // Continuation 0 returns its results to the main stack.
    let (c, results) = s.continuation_return().unwrap();
    assert_eq!(c, 0);
    assert_eq!(results, vec![1, 2]);
    assert_eq!(s.record(0).common.state, State::Returned);
    assert_eq!(s.active(), StackChain::MainStack(7));
    assert_eq!(s.main_stack().state, State::Running);
}

#[test]
fn switch_hands_over_the_switcher() {
    let mut s = ContinuationStore::new(7);
    let h0 = s.cont_new(1000);
    let h2 = s.cont_new(3000);
    s.resume(h0, &[], &[], &[30]).unwrap();
    assert_eq!(s.switch(30, h2, &[5]), Ok(()));
    assert_eq!(s.active(), StackChain::Continuation(1));
    assert_eq!(s.record(1).common.state, State::Running);
    assert_eq!(s.record(1).parent_chain, StackChain::MainStack(7));
    assert_eq!(s.record(0).common.state, State::Suspended);
    let switcher = VMContObj { revision: 1, contref: 0 };
    assert_eq!(s.record(1).args, vec![5, switcher.to_bits()]);
    assert_eq!(VMContObj::from_bits(switcher.to_bits()), Some(switcher));
    assert_eq!(s.runtime_limits().stack_limit, 3000);
    // The main stack keeps its switch handler while the target runs.
    assert_eq!(handlers_of(&s, StackChain::MainStack(7)), (vec![30], 0));
    // The switcher can be switched back to with the handle it was given.
    assert_eq!(s.switch(30, switcher, &[]), Ok(()));
    assert_eq!(s.active(), StackChain::Continuation(0));
    assert_eq!(s.record(1).common.state, State::Suspended);
}

#[test]
fn payloads_go_to_values_once_run() {
    let mut s = ContinuationStore::new(7);
    let h0 = s.cont_new(1000);
    let h0 = s.cont_bind(h0, &[4]).unwrap();
    assert_eq!(h0, VMContObj { revision: 1, contref: 0 });
    assert_eq!(s.record(0).args, vec![4]);
    s.resume(h0, &[], &[10], &[]).unwrap();
    let (_, k) = s.suspend(10).unwrap();
    let k = s.cont_bind(k, &[9]).unwrap();
    assert_eq!(s.record(0).values, vec![9]);
    assert_eq!(s.record(0).args, vec![4]);
    s.resume(k, &[8], &[], &[]).unwrap();
    assert_eq!(s.receive_values(), Ok(vec![9, 8]));
    assert_eq!(s.receive_values(), Ok(vec![]));
}

#[test]
fn switching_errors() {
    let mut s = ContinuationStore::new(7);
    assert_eq!(s.suspend(10), Err(ContinuationError::UnhandledTag));
    assert_eq!(s.continuation_return(), Err(ContinuationError::NotInContinuation));
    assert_eq!(s.receive_values(), Err(ContinuationError::NotInContinuation));
    let bogus = VMContObj { revision: 0, contref: 5 };
    assert_eq!(s.resume(bogus, &[], &[], &[]), Err(ContinuationError::AlreadyConsumed));
    assert_eq!(s.cont_bind(bogus, &[]), Err(ContinuationError::AlreadyConsumed));
    let h0 = s.cont_new(1000);
    let h1 = s.cont_new(1000);
    s.resume(h0, &[], &[10], &[]).unwrap();
    // A handle at the current revision of a running continuation.
    let running = VMContObj { revision: s.record(0).revision, contref: 0 };
    assert_eq!(s.resume(running, &[], &[], &[]), Err(ContinuationError::InvalidState));
    assert_eq!(s.switch(10, h1, &[]), Err(ContinuationError::UnhandledTag));
    assert_eq!(s.switch(10, h0, &[]), Err(ContinuationError::AlreadyConsumed));
    assert_eq!(s.active(), StackChain::Continuation(0));
    assert_eq!(s.len(), 2);
}

#[test]
fn active_chain_entries_list_parents_entry_points() {
    let mut s = ContinuationStore::new(7);
    assert_eq!(s.active_chain_entries(), vec![]);
    let h0 = s.cont_new(1000);
    let h1 = s.cont_new(2000);
    s.set_runtime_limits(StackLimits { stack_limit: 10, last_wasm_entry_fp: 0x9400 });
    s.resume(h0, &[], &[], &[]).unwrap();
    assert_eq!(s.runtime_limits(), StackLimits { stack_limit: 1000, last_wasm_entry_fp: 0 });
    s.set_runtime_limits(StackLimits { stack_limit: 1000, last_wasm_entry_fp: 0x5400 });
    s.resume(h1, &[], &[], &[]).unwrap();
    // Each parent saved the runtime limits it ran with when it resumed its
    // child.
    assert_eq!(s.active_chain_entries(), vec![(1, 0x5400), (0, 0x9400)]);
    assert_eq!(s.record(0).common.limits, StackLimits { stack_limit: 1000, last_wasm_entry_fp: 0x5400 });
    assert_eq!(s.main_stack().limits, StackLimits { stack_limit: 10, last_wasm_entry_fp: 0x9400 });
}

#[test]
fn resume_then_return_hands_back_results() {
    let mut s = ContinuationStore::new(7);
    s.set_runtime_limits(StackLimits { stack_limit: 10, last_wasm_entry_fp: 0x9400 });
    let h = s.cont_new(1000);
    s.resume(h, &[3, 4], &[10], &[20]).unwrap();
    let (c, results) = s.continuation_return().unwrap();
    assert_eq!(c, 0);
    assert_eq!(results, vec![3, 4]);
    assert_eq!(s.record(0).common.state, State::Returned);
    assert_eq!(s.active(), StackChain::MainStack(7));
    assert_eq!(s.runtime_limits(), StackLimits { stack_limit: 10, last_wasm_entry_fp: 0x9400 });
    assert_eq!(handlers_of(&s, StackChain::MainStack(7)), (vec![], 0));
    // A returned continuation cannot run again.
    let stale = VMContObj { revision: s.record(0).revision, contref: 0 };
    assert_eq!(s.resume(stale, &[], &[], &[]), Err(ContinuationError::InvalidState));
}
