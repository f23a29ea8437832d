use int_pairing::column::{Column, ElementType};
use int_pairing::error::PairingError;
use int_pairing::expressions::{pair, pair_struct, unpair, PairColumns};
use int_pairing::method::Method;

fn integers(values: Vec<Option<u64>>) -> Column {
    Column::from_values(values)
}

fn typed(dtype: ElementType, len: usize) -> Column {
    Column { dtype, values: vec![None; len] }
}

#[test]
fn method_names_in_any_case() {
    assert_eq!(Method::from_name("hagen"), Ok(Method::Hagen));
    assert_eq!(Method::from_name("szudzik"), Ok(Method::Szudzik));
    assert_eq!(Method::from_name("cantor"), Ok(Method::Cantor));
    assert_eq!(Method::from_name("Cantor"), Ok(Method::Cantor));
    assert_eq!(Method::from_name("CANTOR"), Ok(Method::Cantor));
    assert_eq!(Method::from_name("cAnToR"), Ok(Method::Cantor));
    assert_eq!(Method::from_name("HAGEN"), Ok(Method::Hagen));
    assert_eq!(Method::from_name("SzudziK"), Ok(Method::Szudzik));
}

#[test]
fn unknown_method_names() {
    for name in ["bogus", "Bogus", "BOGUS", "", "cantor ", " cantor", "cantors", "canto", "hägen", "ſzudzik"] {
        assert_eq!(Method::from_name(name), Err(PairingError::UnsupportedMethod));
    }
}

#[test]
fn bogus_method_fails_pair_and_unpair() {
    let left = integers(vec![Some(1)]);
    let right = integers(vec![Some(2)]);
    for name in ["bogus", "Bogus", "BOGUS"] {
        assert_eq!(pair(name, &left, &right), Err(PairingError::UnsupportedMethod));
        assert_eq!(unpair(name, &left), Err(PairingError::UnsupportedMethod));
    }
}

#[test]
fn method_is_judged_before_the_types() {
    let floats = typed(ElementType::Float64, 1);
    assert_eq!(pair("bogus", &floats, &floats), Err(PairingError::UnsupportedMethod));
    assert_eq!(unpair("bogus", &floats), Err(PairingError::UnsupportedMethod));
}

#[test]
fn non_integer_columns_fail_pair() {
    let ints = integers(vec![Some(1), Some(2)]);
    for dtype in [
        ElementType::Float32,
        ElementType::Float64,
        ElementType::Text,
        ElementType::Boolean,
        ElementType::Other,
    ] {
        let other = typed(dtype, 2);
        assert_eq!(pair("cantor", &other, &ints), Err(PairingError::TypeMismatch));
        assert_eq!(pair("cantor", &ints, &other), Err(PairingError::TypeMismatch));
        assert_eq!(pair("hagen", &other, &other), Err(PairingError::TypeMismatch));
    }
}

#[test]
fn errors_come_whatever_the_lengths() {
    let short = integers(vec![Some(1)]);
    let long = integers(vec![Some(1), Some(2), Some(3)]);
    assert_eq!(pair("bogus", &short, &long), Err(PairingError::UnsupportedMethod));
    for dtype in [ElementType::Float64, ElementType::Text] {
        assert_eq!(pair("cantor", &typed(dtype, 2), &long), Err(PairingError::TypeMismatch));
        assert_eq!(pair("cantor", &short, &typed(dtype, 0)), Err(PairingError::TypeMismatch));
    }
}

#[test]
fn non_integer_columns_fail_unpair() {
    for dtype in [
        ElementType::Float32,
        ElementType::Float64,
        ElementType::Text,
        ElementType::Boolean,
        ElementType::Other,
    ] {
        assert_eq!(unpair("szudzik", &typed(dtype, 3)), Err(PairingError::TypeMismatch));
    }
}

#[test]
fn every_integer_type_is_accepted() {
    let types = [
        ElementType::UInt8,
        ElementType::UInt16,
        ElementType::UInt32,
        ElementType::UInt64,
        ElementType::Int8,
        ElementType::Int16,
        ElementType::Int32,
        ElementType::Int64,
    ];
    for left_type in types {
        assert!(left_type.is_integer());
        for right_type in types {
            let left = Column { dtype: left_type, values: vec![Some(3)] };
            let right = Column { dtype: right_type, values: vec![Some(4)] };
            assert_eq!(pair("cantor", &left, &right), Ok(integers(vec![Some(32)])));
        }
        let codes = Column { dtype: left_type, values: vec![Some(32)] };
        let pairs = unpair("cantor", &codes).unwrap();
        assert_eq!(pairs.left, integers(vec![Some(3)]));
        assert_eq!(pairs.right, integers(vec![Some(4)]));
    }
    assert!(!ElementType::Float64.is_integer());
    assert!(!ElementType::Text.is_integer());
    assert!(!ElementType::Boolean.is_integer());
    assert!(!ElementType::Other.is_integer());
}

#[test]
fn pair_by_each_method() {
    let left = integers(vec![Some(3), Some(2), Some(5), Some(0)]);
    let right = integers(vec![Some(4), Some(5), Some(2), Some(0)]);
    assert_eq!(
        pair("cantor", &left, &right),
        Ok(integers(vec![Some(32), Some(33), Some(30), Some(0)]))
    );
    assert_eq!(
        pair("Szudzik", &left, &right),
        Ok(integers(vec![Some(19), Some(27), Some(32), Some(0)]))
    );
    assert_eq!(
        pair("HAGEN", &left, &right),
        Ok(integers(vec![Some(22), Some(30), Some(29), Some(0)]))
    );
}

#[test]
fn unpair_by_each_method() {
    let codes = integers(vec![Some(32), Some(27), Some(0)]);
    assert_eq!(
        unpair("cantor", &codes),
        Ok(PairColumns {
            left: integers(vec![Some(3), Some(0), Some(0)]),
            right: integers(vec![Some(4), Some(6), Some(0)]),
        })
    );
    assert_eq!(
        unpair("szudzik", &codes),
        Ok(PairColumns {
            left: integers(vec![Some(5), Some(2), Some(0)]),
            right: integers(vec![Some(2), Some(5), Some(0)]),
        })
    );
    assert_eq!(
        unpair("hagen", &codes),
        Ok(PairColumns {
            left: integers(vec![Some(3), Some(5), Some(0)]),
            right: integers(vec![Some(5), Some(1), Some(0)]),
        })
    );
}

#[test]
fn absent_inputs_give_absent_codes() {
    let left = integers(vec![Some(3), None, Some(5), None, Some(1)]);
    let right = integers(vec![Some(4), Some(5), None, None, Some(1)]);
    for (name, first, last) in [("cantor", 32, 4), ("szudzik", 19, 3), ("hagen", 22, 3)] {
        assert_eq!(
            pair(name, &left, &right),
            Ok(integers(vec![Some(first), None, None, None, Some(last)]))
        );
    }
}

#[test]
fn absent_codes_give_absent_pairs() {
    let codes = integers(vec![None, Some(32), None]);
    for name in ["cantor", "szudzik", "hagen"] {
        let pairs = unpair(name, &codes).unwrap();
        assert_eq!(pairs.left.values[0], None);
        assert_eq!(pairs.right.values[0], None);
        assert!(pairs.left.values[1].is_some());
        assert!(pairs.right.values[1].is_some());
        assert_eq!(pairs.left.values[2], None);
        assert_eq!(pairs.right.values[2], None);
    }
}

#[test]
fn all_absent_columns() {
    let nulls = integers(vec![None, None]);
    assert_eq!(pair("hagen", &nulls, &nulls), Ok(integers(vec![None, None])));
    let pairs = unpair("hagen", &nulls).unwrap();
    assert_eq!(pairs.left, nulls);
    assert_eq!(pairs.right, nulls);
}

#[test]
fn output_is_as_long_as_input() {
    for name in ["cantor", "szudzik", "hagen"] {
        for n in [0usize, 1, 2, 17, 1000] {
            let left = integers((0..n as u64).map(Some).collect());
            let right = integers((0..n as u64).map(|i| if i % 3 == 0 { None } else { Some(2 * i) }).collect());
            let codes = pair(name, &left, &right).unwrap();
            assert_eq!(codes.len(), n);
            assert_eq!(codes.values.len(), n);
            let pairs = unpair(name, &codes).unwrap();
            assert_eq!(pairs.left.len(), n);
            assert_eq!(pairs.right.len(), n);
        }
    }
}

#[test]
fn empty_columns() {
    let empty = integers(Vec::new());
    assert_eq!(pair("cantor", &empty, &empty), Ok(integers(Vec::new())));
    assert_eq!(
        unpair("cantor", &empty),
        Ok(PairColumns { left: integers(Vec::new()), right: integers(Vec::new()) })
    );
}

#[test]
fn large_cantor_codes_round_trip_in_columns() {
    let left = integers(vec![Some(1073741823), Some(4294967295), None]);
    let right = integers(vec![Some(1073741824), Some(0), Some(5)]);
    let codes = pair("cantor", &left, &right).unwrap();
    assert_eq!(codes, integers(vec![Some(1 << 61), Some(9223372034707292160), None]));
    let pairs = unpair("cantor", &codes).unwrap();
    assert_eq!(pairs.left, integers(vec![Some(1073741823), Some(4294967295), None]));
    assert_eq!(pairs.right, integers(vec![Some(1073741824), Some(0), None]));
}

#[test]
fn columns_round_trip() {
    let left = integers(vec![Some(0), Some(65535), None, Some(7), Some(12)]);
    let right = integers(vec![Some(65535), Some(65535), Some(1), None, Some(12)]);
    for name in ["cantor", "szudzik", "hagen"] {
        let codes = pair(name, &left, &right).unwrap();
        let pairs = unpair(name, &codes).unwrap();
        assert_eq!(pairs.left, integers(vec![Some(0), Some(65535), None, None, Some(12)]));
        assert_eq!(pairs.right, integers(vec![Some(65535), Some(65535), None, None, Some(12)]));
    }
}

#[test]
fn output_types_are_unsigned_sixty_four_bits() {
    let schema = pair_struct();
    assert_eq!(schema.name, "Pair");
    assert_eq!(schema.left_name, "Left");
    assert_eq!(schema.left_type, ElementType::UInt64);
    assert_eq!(schema.right_name, "Right");
    assert_eq!(schema.right_type, ElementType::UInt64);
    let small = Column { dtype: ElementType::Int8, values: vec![Some(1)] };
    assert_eq!(pair("hagen", &small, &small).unwrap().dtype, ElementType::UInt64);
    let pairs = unpair("hagen", &small).unwrap();
    assert_eq!(pairs.left.dtype, ElementType::UInt64);
    assert_eq!(pairs.right.dtype, ElementType::UInt64);
}
