use tagvm::tag::{Heap, Tagged};
use tagvm::value::{Slot, Value};

#[test]
fn reals_eq() {
    let positive = 478_329.0;
    let negative = -231.0;
    let nan = f64::NAN;
    let neg_inf = f64::NEG_INFINITY;

    for n in &[positive, negative, nan, neg_inf] {
        let mut heap = Heap::new();
        let data = Value::Real(n.to_bits());
        let wrapped = Tagged::new(Slot::Occupied(data), &mut heap);
        match wrapped.data(&heap) {
            Value::Real(bits) if f64::from_bits(bits).is_nan() => assert!(n.is_nan()),
            Value::Real(bits) => assert_eq!(*n, f64::from_bits(bits)),
            _ => panic!("Didn't unwrap to a real"),
        }
    }
}

#[test]
fn bool_and_back() {
    let mut heap = Heap::new();
    assert_eq!(
        Value::Boolean(true),
        Tagged::new(Slot::Occupied(Value::Boolean(true)), &mut heap).data(&heap)
    );
    assert_eq!(
        Value::Boolean(false),
        Tagged::new(Slot::Occupied(Value::Boolean(false)), &mut heap).data(&heap)
    );
}

#[test]
fn unit() {
    let mut heap = Heap::new();
    assert_eq!(
        Value::Unit,
        Tagged::new(Slot::Occupied(Value::Unit), &mut heap).data(&heap)
    );
}

#[test]
fn size() {
    let data_size = std::mem::size_of::<Value>();
    let tag_size = std::mem::size_of::<Tagged>();

    // the tagged cell is one machine word, exactly a float's size;
    // if the tag were larger than the value union, the encoding would be pointless
    assert_eq!(tag_size, std::mem::size_of::<f64>());
    assert!(tag_size < data_size);
}

#[test]
fn string_pointer() {
    let s = "I just lost the game".to_string();
    let three = "Elongated Muskrat".to_string();
    let x = "It's kind of a dead giveaway, isn't it?".to_string();

    for item in &[s, three, x] {
        let mut heap = Heap::new();
        let data = Value::String(item.clone());
        let wrapped = Tagged::new(Slot::Occupied(data), &mut heap);
        match wrapped.data(&heap) {
            Value::String(result) => assert_eq!(item, &result),
            _ => panic!("Didn't unwrap to a string"),
        }
    }
}

#[test]
fn other_tests_eq() {
    let tests = vec![
        Value::Real(std::f64::consts::PI.to_bits()),
        Value::Real((-2.12f64).to_bits()),
        Value::Real((2.5E10f64).to_bits()),
        Value::Real((2.5e10f64).to_bits()),
        Value::Real((2.5E-10f64).to_bits()),
        Value::Real(0.5f64.to_bits()),
        Value::Real(f64::MAX.to_bits()),
        Value::Real(f64::MIN.to_bits()),
        Value::Real(f64::INFINITY.to_bits()),
        Value::Real(f64::NEG_INFINITY.to_bits()),
        Value::Real(f64::NAN.to_bits()),
        Value::String("Hello, World!".to_string()),
        Value::String("".to_string()),
        Value::String("Whoop 😋".to_string()),
        Value::Boolean(true),
        Value::Boolean(false),
        Value::Unit,
    ];

    for test in tests {
        println!("{:?}", test);
        let mut heap = Heap::new();
        let tagged = Tagged::new(Slot::Occupied(test.clone()), &mut heap);
        println!("{:?}", tagged);
        println!("{:#b}", tagged.bits());
        let untagged = tagged.data(&heap);
        println!("{:?}", untagged);
        println!("---");

        if let Value::Real(bits) = untagged {
            if let Value::Real(expected) = test {
                if f64::from_bits(expected).is_nan() {
                    assert!(f64::from_bits(bits).is_nan())
                } else {
                    assert_eq!(Value::Real(expected), Value::Real(bits));
                }
            }
        } else {
            assert_eq!(test, untagged);
        }
    }
}
