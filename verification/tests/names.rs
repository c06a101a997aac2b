use retarget_ir::compat::ast::Locals;
use retarget_ir::compat::rust::var_hash as value_hash;
use retarget_ir::utils::{
    hash_label, hash_pair, my_hash, ok_or_default, param_hash, push_decimal, var_hash, R,
};
use std::collections::BTreeSet;

#[test]
fn push_decimal_appends_the_digits_without_leading_zeros() {
    let cases: Vec<(u64, &str)> = vec![
        (0, "0"),
        (7, "7"),
        (10, "10"),
        (909, "909"),
        (1_000_000, "1000000"),
        (u64::MAX, "18446744073709551615"),
    ];
    for (n, digits) in cases {
        let mut s = String::from("x");
        push_decimal(&mut s, n);
        assert_eq!(s, format!("x{}", digits));
    }
}

#[test]
fn a_name_is_its_prefix_and_the_hash_of_the_pair_in_decimal() {
    let h = my_hash((3usize, 4usize));
    assert_eq!(var_hash(3, 4), format!("v${}", h));
    assert_eq!(param_hash(3, 4), format!("p${}", h));
    assert_eq!(value_hash(3, 4), format!("${}", h));
}

#[test]
fn the_hash_of_ids_is_the_hash_of_the_ids_as_values() {
    for (f, v) in [(0usize, 0usize), (3, 4), (4, 3), (usize::MAX, 1)] {
        assert_eq!(hash_pair(f, v), my_hash((f, v)));
        assert_eq!(hash_label(f), my_hash(f));
        assert_eq!(hash_label(v), my_hash(&v));
    }
}

#[test]
fn my_hash_of_equal_values_is_equal() {
    assert_eq!(my_hash((1usize, 2usize)), my_hash((1usize, 2usize)));
    assert_eq!(my_hash("label"), my_hash("label"));
    assert_ne!(my_hash((1usize, 2usize)), my_hash((2usize, 1usize)));
}

#[test]
fn names_of_different_pairs_differ() {
    let mut names = BTreeSet::new();
    for f in 0..40usize {
        for v in 0..40usize {
            assert!(names.insert(var_hash(f, v)));
            assert!(names.insert(param_hash(f, v)));
        }
    }
    assert_eq!(names.len(), 3200);
}

#[test]
fn an_option_turns_into_a_result_with_the_default_error() {
    let held: Result<u8, String> = Some(3u8).r();
    assert_eq!(held, Ok(3));
    let none: Result<u8, String> = None.r();
    assert_eq!(none, Err(String::new()));
    assert_eq!(ok_or_default::<u8, u32>(Some(9)), Ok(9));
    assert_eq!(ok_or_default::<u8, u32>(None), Err(0));
}

#[test]
fn locals_hold_each_name_once() {
    let mut l = Locals::new();
    assert!(!l.contains(&"a".to_string()));
    assert_eq!(l.add("a".to_string()), "a");
    assert_eq!(l.add("b".to_string()), "b");
    assert_eq!(l.add("a".to_string()), "a");
    assert!(l.contains(&"a".to_string()));
    assert!(l.contains(&"b".to_string()));
    assert!(!l.contains(&"c".to_string()));
    assert_eq!(l.locals, vec!["a".to_string(), "b".to_string()]);
}
