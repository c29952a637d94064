use tagvm::tag::{Heap, Tagged, F_FLAG, QNAN, T_FLAG, U_FLAG};
use tagvm::value::{Slot, Suspend, Value};

#[test]
fn real_bits_survive_exactly() {
    let patterns = [
        0u64,
        1u64,
        2.0f64.to_bits(),
        f64::NEG_INFINITY.to_bits(),
        f64::NAN.to_bits(),
    ];
    for bits in patterns {
        let mut heap = Heap::new();
        let t = Tagged::new(Slot::Occupied(Value::Real(bits)), &mut heap);
        assert_eq!(t.data(&heap), Value::Real(bits));
    }
}

#[test]
fn colliding_nan_reads_back_as_nan() {
    // a NaN whose payload collides with the reserved encoding space cannot
    // keep its bits; it must still read back as a NaN real
    let bits = QNAN | 0x1234;
    assert!(f64::from_bits(bits).is_nan());
    let mut heap = Heap::new();
    let t = Tagged::new(Slot::Occupied(Value::Real(bits)), &mut heap);
    match t.data(&heap) {
        Value::Real(out) => assert!(f64::from_bits(out).is_nan()),
        _ => panic!("expected a real"),
    }
}

#[test]
fn immediate_bit_patterns() {
    let mut heap = Heap::new();
    assert_eq!(
        Tagged::new(Slot::Occupied(Value::Unit), &mut heap).bits(),
        QNAN | U_FLAG
    );
    assert_eq!(
        Tagged::new(Slot::Occupied(Value::Boolean(false)), &mut heap).bits(),
        QNAN | F_FLAG
    );
    assert_eq!(
        Tagged::new(Slot::Occupied(Value::Boolean(true)), &mut heap).bits(),
        QNAN | T_FLAG
    );
    assert_eq!(
        Tagged::new(Slot::Occupied(Value::Real(2.0f64.to_bits())), &mut heap).bits(),
        2.0f64.to_bits()
    );
}

#[test]
fn copy_is_non_consuming() {
    let mut heap = Heap::new();
    let t = Tagged::new(Slot::Occupied(Value::String("twice".to_string())), &mut heap);
    let a = t.copy(&heap);
    let b = t.copy(&heap);
    assert_eq!(a, Slot::Occupied(Value::String("twice".to_string())));
    assert_eq!(a, b);
    // the cell is untouched and can still be consumed once
    assert_eq!(t.data(&heap), Value::String("twice".to_string()));
}

#[test]
fn frame_sentinel_encodes_as_frame() {
    let mut heap = Heap::new();
    let t = Tagged::frame(&mut heap);
    assert!(t.copy(&heap).is_frame());
    assert_eq!(t.slot(&heap), Slot::Frame);
}

#[test]
fn suspension_round_trip() {
    let mut heap = Heap::new();
    let k = Suspend { ip: 7, env: 9 };
    let t = Tagged::new(Slot::Suspended(k), &mut heap);
    assert_eq!(t.slot(&heap), Slot::Suspended(k));
}

#[test]
fn shared_indirection_round_trip() {
    let mut heap = Heap::new();
    let t = Tagged::new(Slot::Occupied(Value::Shared(3)), &mut heap);
    assert_eq!(t.data(&heap), Value::Shared(3));
}

#[test]
fn slot_accessors() {
    let occupied = Slot::Occupied(Value::Boolean(true));
    assert!(!occupied.is_frame());
    assert_eq!(occupied.data(), Value::Boolean(true));
    assert!(Slot::Frame.is_frame());
}
