use hekla::ir::Type;
use hekla::json::Json;
use hekla::propgen::{
    defs, field_type, int_value, json, kind_of, micros_value, text_value, typed_value,
    units_value, uuid_value, value_for, Draws, Value, MAX_MICROS, MIN_MICROS,
};

fn draws(numbers: &[u64]) -> Draws {
    Draws { numbers: numbers.to_vec(), at: 0 }
}

/// A stream that a property test could hand in.
fn stream(seed: u64) -> Draws {
    let mut state = seed.wrapping_mul(0x9e37_79b9_7f4a_7c15) | 1;
    let numbers = (0..256)
        .map(|_| {
            state ^= state << 13;
            state ^= state >> 7;
            state ^= state << 17;
            state
        })
        .collect();
    Draws { numbers, at: 0 }
}

#[test]
fn an_integer_leans_on_its_edges() {
    assert_eq!(int_value(&mut draws(&[0, 0])), i64::MIN);
    assert_eq!(int_value(&mut draws(&[3, 1])), i64::MAX);
    assert_eq!(int_value(&mut draws(&[0, 5])), i64::from(i32::MAX) + 1);
    assert_eq!(int_value(&mut draws(&[4, u64::MAX])), -1);
    assert_eq!(int_value(&mut draws(&[])), i64::MIN, "a stream that is used up yields zero");
}

#[test]
fn an_amount_survives_its_scale() {
    assert_eq!(units_value(3, &mut draws(&[0, 3])), 999_999_999_999_999);
    assert_eq!(units_value(18, &mut draws(&[0, 3])), 0);
    assert_eq!(units_value(0, &mut draws(&[4, 0])), -1_000_000_000_000_000_000);
}

#[test]
fn an_instant_has_a_written_form() {
    assert_eq!(micros_value(&mut draws(&[0, 3])), MIN_MICROS);
    assert_eq!(micros_value(&mut draws(&[0, 4])), MAX_MICROS);
    assert_eq!(micros_value(&mut draws(&[4, 0])), MIN_MICROS);
}

#[test]
fn texts_are_edges_or_one_line() {
    assert_eq!(text_value(&mut draws(&[0, 0])), "");
    assert_eq!(text_value(&mut draws(&[0, 6])), "日本語");
    assert_eq!(text_value(&mut draws(&[4, 3, 97, 10, 0xd800])), "a  ");
    assert_eq!(uuid_value(&mut draws(&[4])), "0190d1a1-0000-7000-8000-000000000001");
}

/// A value of each type is one of that type.
#[test]
fn a_value_is_of_the_type_it_was_drawn_for() {
    for seed in 1..200 {
        let (ty, value) = typed_value(&mut stream(seed));
        assert!(fits(&ty, &value));
    }
}

fn fits(ty: &Type, value: &Value) -> bool {
    match (ty, value) {
        (Type::Bool, Value::Bool(_)) => true,
        (Type::Int, Value::Int(_)) => true,
        (Type::Text, Value::Text(_)) => true,
        (Type::Uuid, Value::Uuid(_)) => true,
        (Type::Timestamp, Value::Timestamp(_)) => true,
        (Type::Money(a), Value::Money { scale: b, .. }) => a == b,
        (Type::Decimal(a), Value::Decimal { scale: b, .. }) => a == b,
        (Type::Enum(_), Value::Enum { .. }) => true,
        (Type::Record(_), Value::Record { .. }) => true,
        (Type::Json, Value::Json(_)) => true,
        (Type::Opt(_), Value::Nothing) => true,
        (Type::Opt(inner), Value::Just(held)) => fits(inner, held),
        (Type::List(inner), Value::List(items)) => items.iter().all(|item| fits(inner, item)),
        (Type::Table(_, held), Value::Table(entries)) => {
            entries.iter().all(|(_, value)| fits(held, value))
        }
        _ => false,
    }
}

#[test]
fn an_optional_never_holds_an_optional_or_a_null() {
    for seed in 1..200 {
        if let Type::Opt(inner) = field_type(2, &mut stream(seed)) {
            assert!(!matches!(*inner, Type::Opt(_)));
        }
    }
    let maybe = Type::Opt(Box::new(Type::Json));
    // Present, a leaf, and the null among them.
    assert!(matches!(value_for(&maybe, &mut draws(&[1, 0, 0])), Value::Nothing));
    // Present, a leaf, and a flag.
    assert!(matches!(value_for(&maybe, &mut draws(&[1, 0, 1, 1])), Value::Just(_)));
}

#[test]
fn a_kind_follows_its_type() {
    assert_eq!(kind_of(&Type::Enum("Tier".to_owned())).describe(), "Free | Paid");
    assert_eq!(kind_of(&Type::Opt(Box::new(Type::Money(3)))).describe(), "Money(3)?");
    let known = defs();
    assert_eq!(known.enums[0].name, "Tier");
    assert_eq!(known.records[0].fields[0].max_len, Some(20));
}

fn depth(value: &Json) -> usize {
    match value {
        Json::Array(items) => 1 + items.iter().map(depth).max().unwrap_or(0),
        Json::Object(members) => {
            1 + members.iter().map(|(_, member)| depth(member)).max().unwrap_or(0)
        }
        _ => 0,
    }
}

#[test]
fn documents_nest_no_deeper_than_asked() {
    for seed in 1..200 {
        assert!(depth(&json(2, &mut stream(seed))) <= 2);
    }
}
