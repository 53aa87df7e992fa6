use beacons::label::{camel_to_snake, field_label, field_label_name, fnv64_hash, struct_label};
use beacons::register::{EdgeValue, Register};

fn reg(clock: u128, value: Option<u64>) -> Register<u64> {
    Register::from(clock, value)
}

#[test]
fn join_takes_greater_clock() {
    let a = reg(1, Some(7));
    let b = reg(2, Some(3));
    assert_eq!(a.join(&b), b);
    assert_eq!(b.join(&a), b);
}

#[test]
fn join_breaks_ties_by_value() {
    let a = reg(5, Some(7));
    let b = reg(5, Some(3));
    assert_eq!(a.join(&b), a);
    assert_eq!(b.join(&a), a);
    let none = reg(5, None);
    assert_eq!(none.join(&b), b);
    assert_eq!(b.join(&none), b);
}

#[test]
fn join_is_associative_on_samples() {
    let rs = [reg(0, None), reg(1, Some(2)), reg(1, Some(9)), reg(1, None), reg(4, Some(0))];
    for a in rs.iter() {
        for b in rs.iter() {
            for c in rs.iter() {
                assert_eq!(a.join(&b.join(c)), a.join(b).join(c));
            }
        }
    }
}

#[test]
fn join_is_commutative_and_idempotent_on_samples() {
    let rs = [reg(0, None), reg(1, Some(2)), reg(1, Some(9)), reg(1, None), reg(4, Some(0))];
    for a in rs.iter() {
        assert_eq!(a.join(a), *a);
        for b in rs.iter() {
            assert_eq!(a.join(b), b.join(a));
        }
    }
}

#[test]
fn preorder_matches_join() {
    let rs = [reg(0, None), reg(1, Some(2)), reg(1, Some(9)), reg(1, None), reg(4, Some(0))];
    for a in rs.iter() {
        for b in rs.iter() {
            assert_eq!(a.preorder(b), a.join(b) == *b);
        }
    }
    assert!(reg(1, Some(2)).preorder(&reg(1, Some(9))));
    assert!(!reg(1, Some(9)).preorder(&reg(1, Some(2))));
    assert!(reg(3, Some(9)).preorder(&reg(3, Some(9))));
}

#[test]
fn edge_values_tie_break_lexicographically() {
    let a = Register::from(3, Some(EdgeValue::new(1, 9, 9)));
    let b = Register::from(3, Some(EdgeValue::new(2, 0, 0)));
    assert_eq!(a.join(&b), b);
    let c = Register::from(3, Some(EdgeValue::new(1, 9, 10)));
    assert_eq!(a.join(&c), c);
}

#[test]
fn default_register_is_zero_and_none() {
    let d: Register<u64> = Register::new();
    assert_eq!(d.clock(), 0);
    assert_eq!(d.value(), None);
}

#[test]
fn hash_golden_value() {
    assert_eq!(fnv64_hash("Struct"), 0xd974d877980e8eea);
    assert_eq!(fnv64_hash(""), 0xcbf29ce484222325);
}

#[test]
fn hash_is_case_sensitive() {
    assert_ne!(fnv64_hash("Struct.field"), fnv64_hash("struct.field"));
}

#[test]
fn labels_follow_naming_conventions() {
    assert_eq!(field_label_name("Person", "name"), "Person.name");
    assert_eq!(field_label("Person", "name"), fnv64_hash("Person.name"));
    assert_eq!(struct_label("Person"), fnv64_hash("Person"));
}

#[test]
fn camel_to_snake_lowers_letters() {
    assert_eq!(camel_to_snake("Person"), "person");
    assert_eq!(camel_to_snake("MyStruct"), "mystruct");
    assert_eq!(camel_to_snake("HTTP"), "h_t_t_p");
    assert_eq!(camel_to_snake(""), "");
    assert_eq!(camel_to_snake("a_b"), "a_b");
}
