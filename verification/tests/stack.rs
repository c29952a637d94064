use tagvm::stack::Stack;
use tagvm::value::{Slot, Suspend, Value};

#[test]
fn scenario_push_pop_real() {
    let mut s = Stack::init();
    s.push_data(Value::Real(3.0f64.to_bits()));
    let d = s.pop_data();
    assert_eq!(d, Value::Real(3.0f64.to_bits()));
    // back to just the frame marker
    assert_eq!(s.len(), 1);
}

#[test]
fn scenario_frame_round_trip() {
    let mut s = Stack::init();
    let before_len = s.len();
    let before_frames = s.frame_count();
    let k = Suspend { ip: 17, env: 2 };
    s.push_frame(k);
    assert_eq!(s.frame_count(), 2);
    let k2 = s.pop_frame();
    assert_eq!(k2, k);
    assert_eq!(s.len(), before_len);
    assert_eq!(s.frame_count(), before_frames);
}

#[test]
fn scenario_promote_and_mutate() {
    let mut s = Stack::init();
    s.push_data(Value::Boolean(true));
    s.set_local(0); // declaration: the value already sits where the local lives
    s.heapify(0); // promote local 0 to a shared cell
    s.push_data(Value::Boolean(false));
    s.set_local(0); // mutates the shared referent, not the slot
    let first = s.local_data(0);
    let second = s.local_data(0); // two independent reads
    assert_eq!(first, Value::Boolean(false));
    assert_eq!(second, Value::Boolean(false));
}

#[test]
fn nested_frames_balanced() {
    let mut s = Stack::init();
    let outer = Suspend { ip: 1, env: 10 };
    let inner = Suspend { ip: 2, env: 20 };
    let after = Suspend { ip: 3, env: 30 };
    let base_len = s.len();
    s.push_frame(outer);
    s.push_frame(inner);
    assert_eq!(s.pop_frame(), inner);
    assert_eq!(s.pop_frame(), outer);
    s.push_frame(after);
    assert_eq!(s.pop_frame(), after);
    assert_eq!(s.len(), base_len);
    assert_eq!(s.frame_count(), 1);
}

#[test]
fn frames_with_locals_between() {
    let mut s = Stack::init();
    s.push_data(Value::Real(1.0f64.to_bits()));
    s.set_local(0);
    let k = Suspend { ip: 5, env: 0 };
    s.push_frame(k);
    s.push_data(Value::Unit);
    s.set_local(0); // a local of the inner frame
    assert_eq!(s.local_data(0), Value::Unit);
    let _ = s.pop_data(); // clear the inner frame's local (it sits on top)
    assert_eq!(s.pop_frame(), k);
    // the outer frame's local is visible again
    assert_eq!(s.local_data(0), Value::Real(1.0f64.to_bits()));
}

#[test]
fn push_tagged_round_trip() {
    let mut s = Stack::init();
    let t = s.tag(Slot::Occupied(Value::String("boxed".to_string())));
    s.push_tagged(t);
    let d = s.pop_data();
    assert_eq!(d, Value::String("boxed".to_string()));
}

#[test]
fn local_reads() {
    let mut s = Stack::init();
    s.push_data(Value::Real(1.5f64.to_bits()));
    s.set_local(0);
    s.push_data(Value::Unit);
    s.set_local(1);
    assert_eq!(s.local_data(0), Value::Real(1.5f64.to_bits()));
    assert_eq!(s.local_data(1), Value::Unit);
    assert_eq!(s.local_slot(0), Slot::Occupied(Value::Real(1.5f64.to_bits())));
    assert!(!s.local_slot(0).is_frame());
}

#[test]
fn set_local_plain_overwrite() {
    let mut s = Stack::init();
    s.push_data(Value::Real(1.0f64.to_bits()));
    s.set_local(0);
    s.push_data(Value::Real(2.0f64.to_bits()));
    s.set_local(0); // plain swap-and-drop: the old value is discarded
    assert_eq!(s.local_data(0), Value::Real(2.0f64.to_bits()));
    assert_eq!(s.len(), 2);
}

#[test]
fn pop_reads_through_shared() {
    let mut s = Stack::init();
    s.push_data(Value::Real(9.0f64.to_bits()));
    s.set_local(0);
    s.heapify(0);
    // popping the promoted local hands back its referent, never the bare
    // indirection
    let d = s.pop_data();
    assert_eq!(d, Value::Real(9.0f64.to_bits()));
}

#[test]
fn aliased_captures_observe_mutation() {
    let mut s = Stack::init();
    s.push_data(Value::Real(1.0f64.to_bits()));
    s.set_local(0); // declare local 0
    s.heapify(0); // promote it: the slot now holds an indirection
    let captured = s.local_slot(0);
    assert_eq!(captured, Slot::Occupied(Value::Shared(0)));
    // a second holder of the same indirection, as a capturing closure would keep
    s.push_data(Value::Shared(0));
    s.set_local(1);
    // mutate through local 0: the referent is replaced, not the slot
    s.push_data(Value::Real(2.0f64.to_bits()));
    s.set_local(0);
    // both holders observe the new value: one referent, not a copy
    assert_eq!(s.local_data(0), Value::Real(2.0f64.to_bits()));
    assert_eq!(s.local_data(1), Value::Real(2.0f64.to_bits()));
}
