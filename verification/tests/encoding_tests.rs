use wasmfxtime::continuations::{
    CommonStackInformation, ControlEffect, StackLimits, State, TaggedPointer, Vector, WasmFXConfig,
    CONTROL_EFFECT_RESUME_DISCRIMINANT, CONTROL_EFFECT_RETURN_DISCRIMINANT,
    CONTROL_EFFECT_SUSPEND_DISCRIMINANT, CONTROL_EFFECT_SWITCH_DISCRIMINANT, DEFAULT_FIBER_SIZE,
    DEFAULT_RED_ZONE_SIZE,
};
use wasmfxtime::debug_print::{plan_debug_print, PrintAction};
use wasmfxtime::fibre::{SwitchReason, SwitchReasonEnum};

#[test]
fn test_return_payload() {
    assert_eq!(CONTROL_EFFECT_RETURN_DISCRIMINANT, 0);
}

#[test]
fn control_effect_encoding() {
    assert_eq!(ControlEffect::Return.to_u64(), 0);
    assert_eq!(ControlEffect::Resume.to_u64(), 1);
    assert_eq!(ControlEffect::Switch.to_u64(), 3);
    assert_eq!(ControlEffect::Suspend { handler_index: 5 }.to_u64(), (5u64 << 32) | 2);
    assert_eq!(ControlEffect::from_u64((7u64 << 32) | 2), ControlEffect::Suspend { handler_index: 7 });
    assert_eq!(ControlEffect::from_u64(1), ControlEffect::Resume);
    assert!(ControlEffect::Suspend { handler_index: 0 }.is_suspend());
    assert!(!ControlEffect::Return.is_suspend());
    assert_eq!(CONTROL_EFFECT_RESUME_DISCRIMINANT, 1);
    assert_eq!(CONTROL_EFFECT_SUSPEND_DISCRIMINANT, 2);
    assert_eq!(CONTROL_EFFECT_SWITCH_DISCRIMINANT, 3);
}

#[test]
fn control_effect_roundtrip() {
    for e in [
        ControlEffect::Return,
        ControlEffect::Resume,
        ControlEffect::Switch,
        ControlEffect::Suspend { handler_index: u32::MAX },
    ] {
        assert_eq!(ControlEffect::from_u64(e.to_u64()), e);
    }
}

#[test]
fn switch_reason_encoding() {
    assert_eq!(SwitchReason::return_().into_u64(), 0);
    assert_eq!(SwitchReason::resume().into_u64(), 2);
    assert_eq!(SwitchReason::suspend(9).into_u64(), (9u64 << 32) | 1);
    let r = SwitchReason::from_u64((9u64 << 32) | 1);
    assert_eq!(r.discriminant, SwitchReasonEnum::Suspend);
    assert_eq!(r.data, 9);
    assert!(r.is_suspend());
    assert_eq!(SwitchReason::from_u64(2), SwitchReason::resume());
    assert_eq!(SwitchReasonEnum::Resume.discriminant_val(), 2);
}

#[test]
fn tagged_pointer_roundtrip() {
    let p = TaggedPointer::untagged(0x1000).low_tag(3);
    assert_eq!(p.get_low_tag(), 3);
    assert_eq!(p.low_untag(), TaggedPointer::untagged(0x1000));
    assert_eq!(usize::from(p), 0x1003);
    assert_eq!(TaggedPointer::from(0x2002usize).get_low_tag(), 2);
}

#[test]
fn state_discriminants() {
    assert_eq!(State::Fresh.discriminant(), 0);
    assert_eq!(i32::from(State::Running), 1);
    assert_eq!(i32::from(State::Parent), 2);
    assert_eq!(i32::from(State::Suspended), 3);
    assert_eq!(i32::from(State::Returned), 4);
}

#[test]
fn stack_limits_and_config() {
    let l = StackLimits::with_stack_limit(77);
    assert_eq!(l.stack_limit, 77);
    assert_eq!(l.last_wasm_entry_fp, 0);
    let c = WasmFXConfig::new();
    assert_eq!(c.stack_size, DEFAULT_FIBER_SIZE);
    assert_eq!(c.red_zone_size, DEFAULT_RED_ZONE_SIZE);
}

#[test]
fn common_stack_information() {
    let mut csi = CommonStackInformation::running_default();
    assert!(csi.has_state(State::Running));
    assert_eq!(csi.handlers.get_capacity(), 4);
    assert_eq!(csi.handlers.get_length(), 0);
    assert!(csi.has_state_any_of(&[State::Parent, State::Running]));
    assert!(!csi.has_state_any_of(&[State::Fresh]));
    csi.set_state(State::Parent);
    assert!(csi.has_state(State::Parent));
}

#[test]
fn vector_capacity() {
    let mut v: Vector<u128> = Vector::new(2);
    v.push(1);
    assert_eq!(v.get_length(), 1);
    v.clear();
    assert_eq!(v.get_capacity(), 2);
    v.ensure_capacity(8);
    assert_eq!(v.get_capacity(), 8);
    v.ensure_capacity(4);
    assert_eq!(v.get_capacity(), 8);
    v.deallocate();
    assert_eq!(v.get_capacity(), 0);
}

#[test]
fn switch_reason_from_and_into() {
    let v: u64 = SwitchReason::suspend(7).into();
    assert_eq!(v, (7u64 << 32) | 1);
    assert_eq!(SwitchReason::from(v), SwitchReason::suspend(7));
    assert_eq!(u64::from(SwitchReason::from(2u64)), 2);
    assert_eq!(SwitchReason::from(0u64), SwitchReason::return_());
    assert_eq!(SwitchReason::from(2u64), SwitchReason::resume());
}

#[test]
fn debug_print_plans() {
    let msg = b"[resume] contref = {:p} revision = {}";
    assert_eq!(
        plan_debug_print(msg, 2),
        Some(vec![
            PrintAction::Str { start: 0, end: 19 },
            PrintAction::Pointer(0),
            PrintAction::Str { start: 23, end: 35 },
            PrintAction::Int(1),
        ])
    );
    assert_eq!(plan_debug_print(msg, 1), None);
    assert_eq!(plan_debug_print(b"{}{}", 2), Some(vec![PrintAction::Int(0), PrintAction::Int(1)]));
    assert_eq!(plan_debug_print(b"done", 0), Some(vec![PrintAction::Str { start: 0, end: 4 }]));
    assert_eq!(plan_debug_print(b"", 0), Some(vec![]));
    assert_eq!(plan_debug_print(b"{:x}", 0), Some(vec![PrintAction::Str { start: 0, end: 4 }]));
}
