use wasmfxtime::backtrace::{
    activations_to_walk, live_activations, trace_plan, walk_step, Activation, Backtrace, Frame, WalkStep,
    WasmSegment,
};
use wasmfxtime::continuation::{
    chain_iter, decode_resume_result, encode_resume_result, forward_tag_return_values,
    move_continuation_arguments, payload_capacity, prepare_first_resume, reserve_argument_slots,
    dispatch_resume_result, suspend_target, ChainRecord, ContinuationError, ResumeAction, Revision, StackChain,
};
use wasmfxtime::continuations::{Payloads, StackLimits};
use wasmfxtime::fibre::{round_up_to_page, stack_mapping_for, Fiber, FiberStack, Suspend, SwitchReason};
use wasmfxtime::libcalls::{memory_size_in_bytes, x86_pshufb, MemcheckSwitch};
use wasmfxtime::module_types::{ModuleTypesBuilder, WasmContType, WasmFuncType, WasmType};
use wasmfxtime::poll::{group_by_resource, pollable_indices, ready_list, watched_present, PollError, Pollable};
use wasmfxtime::stack_pool::{pool_layout, PoolError, StackPool, WasmFXAllocator};
use wasmfxtime::table::{Resource, Table, TableError};
use wasmfxtime::tcp::{
    address_family_from_domain, address_family_from_probes, buffer_size, clamp_backlog, ConnectOutcome,
    ConnectProbe, ErrorCode, IpAddressFamily, TcpSocketState, TcpState, AF_INET, AF_INET6,
};
use wasmfxtime::traphandlers::{cvt, AsyncWasmCallState, ThreadActivations, TlsSlot};

#[test]
fn page_rounding() {
    assert_eq!(round_up_to_page(0, 4096), 4096);
    assert_eq!(round_up_to_page(1, 4096), 4096);
    assert_eq!(round_up_to_page(4096, 4096), 4096);
    assert_eq!(round_up_to_page(4097, 4096), 8192);
    let m = stack_mapping_for(5000, 4096).unwrap();
    assert_eq!(m.stack_size, 8192);
    assert_eq!(m.mmap_len, 8192 + 4096);
    assert!(stack_mapping_for(1, 0).is_none());
    assert!(stack_mapping_for(usize::MAX, 4096).is_none());
}

#[test]
fn fiber_stack_layout() {
    let s = FiberStack::from_raw_parts(0x1000, 0, 0x1000);
    assert_eq!(s.top(), Some(0x2000));
    assert_eq!(s.range(), Some((0x1000, 0x2000)));
    assert!(s.is_from_raw_parts());
    assert!(!s.is_unallocated());
    assert!(FiberStack::unallocated().is_unallocated());
    let pad = s.initialize(11, 22, 33, 44, 55);
    assert_eq!(pad[0], (0x2000 - 8, 11));
    assert_eq!(pad[1], (0x2000 - 0x10, 0x2000 - 0x10));
    assert_eq!(pad[2], (0x2000 - 0x18, 0x2000 - 0x40));
    assert_eq!(pad[3], (0x2000 - 0x20, 0));
    assert_eq!(pad[7], (0x2000 - 0x40, 55));
    assert_eq!(s.control_context_instruction_pointer_slot(), 0x2000 - 8);
    assert_eq!(s.control_context_frame_pointer_slot(), 0x2000 - 16);
}

#[test]
fn fiber_resume_protocol() {
    let mut f = Fiber::new(FiberStack::from_malloc(0x1000, 0x1000));
    assert!(!f.done());
    let (top, payload) = f.begin_resume();
    assert_eq!(top, 0x2000);
    assert_eq!(payload, SwitchReason::resume().into_u64());
    assert!(f.done());
    f.finish_resume(SwitchReason::suspend(4));
    assert!(!f.done());
    f.begin_resume();
    f.finish_resume(SwitchReason::return_());
    assert!(f.done());
    let s = Suspend::from_top_ptr(0x3000);
    assert_eq!(s.suspend(6), (0x3000, (6u64 << 32) | 1));
    assert_eq!(s.execute_finished(), (0x3000, 0));
}

#[test]
fn tcp_listen_path() {
    let mut s = TcpSocketState::new();
    assert_eq!(s.start_listen_check(), Err(ErrorCode::NotInProgress));
    s.start_bind_check().unwrap();
    s.start_bind_complete(Ok(())).unwrap();
    assert_eq!(s.tcp_state, TcpState::BindStarted);
    s.finish_bind().unwrap();
    assert_eq!(s.accept_check(), Err(ErrorCode::NotInProgress));
    s.start_listen_check().unwrap();
    s.start_listen_complete(Ok(())).unwrap();
    assert_eq!(s.start_listen_check(), Err(ErrorCode::AlreadyListening));
    s.finish_listen().unwrap();
    assert_eq!(s.tcp_state, TcpState::Listening);
    s.accept_check().unwrap();
    assert_eq!(s.finish_listen(), Err(ErrorCode::NotInProgress));
}

#[test]
fn tcp_connect_path() {
    let mut s = TcpSocketState::new();
    s.start_connect_check().unwrap();
    s.start_connect_complete(ConnectOutcome::InProgress).unwrap();
    assert_eq!(s.finish_connect_check(), Ok(true));
    assert_eq!(s.finish_connect(ConnectProbe::Pending), Err(ErrorCode::WouldBlock));
    assert_eq!(s.tcp_state, TcpState::Connecting);
    s.finish_connect(ConnectProbe::Established).unwrap();
    assert_eq!(s.tcp_state, TcpState::Connected);
    assert_eq!(s.start_connect_check(), Err(ErrorCode::AlreadyConnected));
    let mut t = TcpSocketState::new();
    assert_eq!(t.start_connect_complete(ConnectOutcome::Failed(ErrorCode::Os(111))), Err(ErrorCode::Os(111)));
    assert_eq!(t.tcp_state, TcpState::Default);
    t.start_connect_complete(ConnectOutcome::Connected).unwrap();
    assert_eq!(t.finish_connect_check(), Ok(false));
    assert!(TcpSocketState::accepted().needs_shutdown_on_drop());
}

#[test]
fn tcp_backlog() {
    assert_eq!(clamp_backlog(0), 1);
    assert_eq!(clamp_backlog(128), 128);
    assert_eq!(clamp_backlog(u64::MAX), i32::MAX);
    let mut s = TcpSocketState::new();
    s.set_listen_backlog_size(0, Ok(())).unwrap();
    assert_eq!(s.listen_backlog_size, Some(1));
    let mut c = TcpSocketState::accepted();
    assert_eq!(c.set_listen_backlog_size(5, Ok(())), Err(ErrorCode::AlreadyConnected));
    let mut l = TcpSocketState { tcp_state: TcpState::Listening, listen_backlog_size: None };
    assert_eq!(l.set_listen_backlog_size(5, Err(ErrorCode::Os(1))), Err(ErrorCode::AlreadyListening));
    assert_eq!(l.set_listen_backlog_size_check(5), Ok(Some(5)));
    l.set_listen_backlog_size(5, Ok(())).unwrap();
    assert_eq!(l.listen_backlog_size, Some(5));
    let ls = TcpSocketState { tcp_state: TcpState::ListenStarted, listen_backlog_size: None };
    assert_eq!(ls.set_listen_backlog_size_check(5), Err(ErrorCode::ConcurrencyConflict));
}

#[test]
fn module_types_interning() {
    let mut b = ModuleTypesBuilder::new();
    let sig = || WasmFuncType { params: vec![WasmType::I32], returns: vec![WasmType::I64] };
    let a = b.wasm_func_type(10, sig());
    let c = b.wasm_func_type(11, WasmFuncType { params: vec![], returns: vec![] });
    let a2 = b.wasm_func_type(12, sig());
    assert_eq!(a, 0);
    assert_eq!(c, 1);
    assert_eq!(a2, 0);
    assert_eq!(b.lookup_type_id(12), 0);
    assert_eq!(b.wasm_cont_type(13, WasmContType(1)), 1);
    assert_eq!(b.lookup_type_id(13), 1);
    assert_eq!(b.wasm_signatures().len(), 2);
    assert_eq!(b.index(0).params, vec![WasmType::I32]);
    let types = b.finish();
    assert_eq!(types.wasm_signatures().len(), 2);
    assert_eq!(types.index(1).returns, vec![]);
}

#[test]
fn backtrace_walk() {
    assert_eq!(walk_step(0x100, 0x200, 0x55, 0x200), WalkStep::Done);
    assert_eq!(walk_step(0x100, 0x200, 0x55, 0x180), WalkStep::Next(Frame::new(0x55, 0x180)));
    let mut bt = Backtrace::empty();
    assert_eq!(bt.frames().len(), 0);
    bt.push(Frame::new(1, 2));
    assert_eq!(bt.frames()[0].pc(), 1);
    assert_eq!(bt.frames()[0].fp(), 2);
    let cur = Activation { exit_pc: 1, exit_fp: 2, entry_sp: 3 };
    let older = [
        Activation { exit_pc: 4, exit_fp: 5, entry_sp: 6 },
        Activation { exit_pc: 0, exit_fp: 0, entry_sp: 0 },
        Activation { exit_pc: 7, exit_fp: 8, entry_sp: 9 },
    ];
    let acts = activations_to_walk(cur, &older);
    assert_eq!(acts, vec![cur, older[0]]);
    assert!(activations_to_walk(Activation { exit_pc: 0, exit_fp: 0, entry_sp: 0 }, &older).is_empty());
}

#[test]
fn async_call_state_roundtrip() {
    let mut thread = ThreadActivations::new();
    thread.push(0x10);
    let mut saved = AsyncWasmCallState::new();
    saved.assert_null();
    let prev = saved.push(&mut thread);
    thread.push(0x20);
    thread.push(0x30);
    let saved = prev.restore(&mut thread);
    assert_eq!(thread.head(), 0x10);
    assert!(!saved.is_null());
    let prev = saved.push(&mut thread);
    assert_eq!(thread.head(), 0x30);
    let saved = prev.restore(&mut thread);
    assert_eq!(thread.head(), 0x10);
    let _ = saved;
    let mut slot = TlsSlot::new();
    assert_eq!(slot.replace(5), 0);
    assert!(slot.is_initialized());
    slot.initialize();
    assert!(slot.is_initialized());
    assert_eq!(slot.get(), 5);
    let mut fresh = TlsSlot::new();
    assert!(!fresh.is_initialized());
    fresh.initialize();
    assert!(fresh.is_initialized());
    assert_eq!(fresh.get(), 0);
    assert_eq!(slot.get(), 5);
    assert_eq!(cvt(0), Ok(()));
    assert_eq!(cvt(12), Err(12));
}

#[test]
fn continuation_linearity() {
    let mut rev = Revision::new();
    let h = rev.handle(0x1000);
    assert_eq!(rev.consume(h), Ok(1));
    assert_eq!(rev.consume(h), Err(ContinuationError::AlreadyConsumed));
    let h2 = rev.handle(0x1000);
    assert_eq!(h2.revision, 1);
    assert_eq!(rev.consume(h2), Ok(2));
}

#[test]
fn resume_result_encoding() {
    assert_eq!(encode_resume_result(None), 0);
    assert_eq!(encode_resume_result(Some(3)), 0xf000_0003);
    assert_eq!(decode_resume_result(0xf000_0003), Some(3));
    assert_eq!(decode_resume_result(0), None);
    assert_eq!(payload_capacity(2, 5), 5);
    assert_eq!(payload_capacity(7, 5), 7);
}

#[test]
fn stack_chain_walk() {
    let l = StackLimits::with_stack_limit(0);
    let records = [
        ChainRecord { limits: l, parent_chain: StackChain::MainStack(0xabc) },
        ChainRecord { limits: l, parent_chain: StackChain::Continuation(0) },
    ];
    let stacks = chain_iter(&records, StackChain::Continuation(1));
    assert_eq!(stacks.len(), 3);
    assert_eq!(stacks[0].continuation, Some(1));
    assert_eq!(stacks[1].continuation, Some(0));
    assert_eq!(stacks[2].continuation, None);
    assert_eq!(stacks[2].main_stack_limits, 0xabc);
    assert!(chain_iter(&records, StackChain::Absent).is_empty());
    assert!(StackChain::MainStack(1).is_main_stack());
    assert!(StackChain::Absent.is_absent());
}

#[test]
fn payload_buffers() {
    let mut args = vec![1u128];
    assert_eq!(reserve_argument_slots(&mut args, 2), 1);
    assert_eq!(args, vec![1, 0, 0]);
    assert_eq!(reserve_argument_slots(&mut args, 0), 0);
    let mut dst = Vec::new();
    move_continuation_arguments(&mut args, &mut dst);
    assert_eq!(dst, vec![1, 0, 0]);
    assert!(args.is_empty());
    let mut values = Vec::new();
    let mut a2 = vec![4u128, 5];
    prepare_first_resume(&mut a2, &mut values);
    assert_eq!(values, vec![4, 5]);
    let mut parent: Payloads = Payloads::new(3);
    parent.push(9);
    let mut child: Payloads = Payloads::new(1);
    forward_tag_return_values(&mut parent, &mut child);
    assert_eq!(child.get_length(), 1);
    assert_eq!(child.get_capacity(), 3);
    assert_eq!(parent.get_length(), 0);
    assert_eq!(parent.get_capacity(), 1);
}

#[test]
fn stack_pool_allocation() {
    assert_eq!(pool_layout(0, 4096, 4), Ok((0, 0)));
    assert_eq!(pool_layout(5000, 4096, 4), Ok((12288, 4 * 12288)));
    assert_eq!(pool_layout(usize::MAX, 4096, 4), Err(PoolError::StackSizeTooLarge));
    let mut pool = StackPool::new(0x10_0000, 12288, 4096, 2);
    assert_eq!(pool.guard_pages(), vec![0x10_0000, 0x10_0000 + 12288]);
    let (i, s) = pool.allocate().unwrap();
    assert_eq!(s.top(), Some(0x10_0000 + 12288 * (i + 1)));
    let (j, _) = pool.allocate().unwrap();
    assert_ne!(i, j);
    assert_eq!(pool.allocate().err(), Some(PoolError::Exhausted));
    assert_eq!(pool.deallocate(s.top().unwrap()), i);
    let mut a = WasmFXAllocator::new(pool);
    let (k, _) = a.allocate().unwrap();
    assert_eq!(k, i);
    let mut empty = StackPool::new(0x1000, 0, 4096, 0);
    assert_eq!(empty.allocate().err(), Some(PoolError::NotConfigured));
}

#[test]
fn pshufb_lanes() {
    let a: [u8; 16] = core::array::from_fn(|i| i as u8 + 100);
    let mut b = [0u8; 16];
    b[0] = 15;
    b[1] = 0x80;
    b[2] = 0x13;
    let r = x86_pshufb(a, b);
    assert_eq!(r[0], 115);
    assert_eq!(r[1], 0);
    assert_eq!(r[2], 103);
    assert_eq!(r[3], 100);
    assert_eq!(memory_size_in_bytes(2), 131072);
    let mut m = MemcheckSwitch { enabled: true };
    m.malloc_start();
    assert!(!m.enabled);
    m.allocator_done();
    m.free_start();
    assert!(!m.enabled);
}

#[test]
fn poll_groups() {
    let groups = group_by_resource(&[5, 7, 5, 9]).unwrap();
    assert_eq!(groups.len(), 3);
    assert_eq!(groups[0].index, 5);
    assert_eq!(groups[0].positions, vec![0, 2]);
    assert_eq!(groups[1].positions, vec![1]);
    assert_eq!(ready_list(&groups, &[false, false, false]), None);
    assert_eq!(ready_list(&groups, &[true, false, true]), Some(vec![0, 2, 3]));
    let p = Pollable::subscribe(&Resource::new_own(8, 1));
    assert_eq!(p.index, 8);
    assert!(p.remove_index_on_delete);
    assert!(group_by_resource(&[]).unwrap().is_empty());
}

#[test]
fn poll_request_lookups() {
    let mut pollables: Table<Pollable> = Table::new();
    let a = pollables.push_resource(1, Pollable { index: 40, remove_index_on_delete: false }).unwrap();
    let b = pollables.push_resource(1, Pollable { index: 41, remove_index_on_delete: true }).unwrap();
    assert_eq!(pollable_indices(&pollables, &[a, b, a]), Ok(vec![40, 41, 40]));
    let missing = Resource::new_own(99, 1);
    assert_eq!(pollable_indices(&pollables, &[a, missing]), Err(PollError::Table(TableError::NotPresent)));
    let wrong = Resource::new_own(a.rep(), 2);
    assert_eq!(pollable_indices(&pollables, &[wrong, missing]), Err(PollError::Table(TableError::WrongType)));

    let mut watched: Table<u32> = Table::new();
    let k = watched.push(3, 0).unwrap();
    let groups = group_by_resource(&[k, k]).unwrap();
    assert_eq!(watched_present(&watched, &groups), Ok(()));
    let groups = group_by_resource(&[k, k + 100]).unwrap();
    assert_eq!(watched_present(&watched, &groups), Err(TableError::NotPresent));
}


#[test]
fn trace_plan_crosses_continuations() {
    let current = Activation { exit_pc: 0x100, exit_fp: 0x2000, entry_sp: 0x2400 };
    let older = [
        Activation { exit_pc: 0x200, exit_fp: 0x9000, entry_sp: 0x9800 },
        Activation { exit_pc: 0, exit_fp: 0, entry_sp: 0 },
        Activation { exit_pc: 0x300, exit_fp: 0xa000, entry_sp: 0xa800 },
    ];
    assert_eq!(live_activations(&older), 1);
    let plan = trace_plan(current, &older, &[(0x110, 0x5000), (0x120, 0x7000)], &[0x5400, 0x7400]);
    assert_eq!(
        plan,
        vec![
            WasmSegment { pc: 0x100, fp: 0x2000, trampoline_fp: 0x2400 },
            WasmSegment { pc: 0x110, fp: 0x5000, trampoline_fp: 0x5400 },
            WasmSegment { pc: 0x120, fp: 0x7000, trampoline_fp: 0x7400 },
            WasmSegment { pc: 0x200, fp: 0x9000, trampoline_fp: 0x9800 },
        ]
    );
    let idle = Activation { exit_pc: 0, exit_fp: 0, entry_sp: 0 };
    assert!(trace_plan(idle, &older, &[], &[]).is_empty());
}

#[test]
fn suspend_needs_a_running_continuation() {
    assert_eq!(suspend_target(StackChain::Absent), Err(ContinuationError::ChainNotInitialised));
    assert_eq!(suspend_target(StackChain::MainStack(0x40)), Err(ContinuationError::NotInContinuation));
    assert_eq!(suspend_target(StackChain::Continuation(3)), Ok(3));
}

#[test]
fn tcp_address_family_and_sizes() {
    assert_eq!(address_family_from_domain(AF_INET), Ok(IpAddressFamily::Ipv4));
    assert_eq!(address_family_from_domain(AF_INET6), Ok(IpAddressFamily::Ipv6));
    assert_eq!(address_family_from_domain(1), Err(ErrorCode::NotSupported));
    assert_eq!(address_family_from_probes(true, true), Ok(IpAddressFamily::Ipv6));
    assert_eq!(address_family_from_probes(false, true), Ok(IpAddressFamily::Ipv4));
    assert_eq!(address_family_from_probes(false, false), Err(ErrorCode::NotSupported));
    assert_eq!(buffer_size(4096), Ok(4096));
    if usize::BITS < 64 {
        assert_eq!(buffer_size(u64::MAX), Err(ErrorCode::OutOfMemory));
    }
}

#[test]
fn stack_pool_too_large() {
    assert_eq!(pool_layout(usize::MAX / 4, 4096, 1024), Err(PoolError::PoolTooLarge));
}

#[test]
fn baseline_resume_dispatch() {
    let table = [5u32, 7, 5];
    assert_eq!(dispatch_resume_result(0, &table), ResumeAction::Return);
    assert_eq!(dispatch_resume_result(encode_resume_result(Some(5)), &table), ResumeAction::Handle(0));
    assert_eq!(dispatch_resume_result(encode_resume_result(Some(7)), &table), ResumeAction::Handle(1));
    assert_eq!(dispatch_resume_result(encode_resume_result(Some(9)), &table), ResumeAction::Forward(9));
    assert_eq!(dispatch_resume_result(encode_resume_result(Some(9)), &[]), ResumeAction::Forward(9));
}

#[test]
fn current_state_range_check_follows_half_open_range() {
    let mut thread = ThreadActivations::new();
    // No head: any range is fine, even one starting at 0.
    AsyncWasmCallState::assert_current_state_not_in_range(&thread, 0, 0x1000);
    thread.push(0x2000);
    // The head at the range's end lies outside `start..end`.
    AsyncWasmCallState::assert_current_state_not_in_range(&thread, 0x1000, 0x2000);
    AsyncWasmCallState::assert_current_state_not_in_range(&thread, 0x2001, 0x3000);
    assert_eq!(thread.head(), 0x2000);
}

#[test]
fn runtime_resume_disables_stack_limit() {
    let mut fiber = Fiber::new(FiberStack::from_malloc(0x10000, 0x4000));
    let mut limits = StackLimits { stack_limit: 0x8000, last_wasm_entry_fp: 0x9000 };
    let (top, reason) = fiber.begin_runtime_resume(&mut limits);
    assert_eq!(top, 0x14000);
    assert_eq!(reason, SwitchReason::resume().into_u64());
    assert_eq!(limits, StackLimits { stack_limit: 0, last_wasm_entry_fp: 0x9000 });
    assert_eq!(fiber.finish_runtime_resume(SwitchReason::suspend(7)), 0xf000_0007);
    assert!(!fiber.done());
    fiber.begin_runtime_resume(&mut limits);
    assert_eq!(fiber.finish_runtime_resume(SwitchReason::return_()), 0);
    assert!(fiber.done());
}
