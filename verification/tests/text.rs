use gopal::text::{
    clone_opt_text, join, push_decimal, push_signed_decimal, same_opt_text, same_texts,
};

fn words(list: &[&str]) -> Vec<String> {
    list.iter().map(|w| w.to_string()).collect()
}

#[test]
fn lists_are_joined_with_a_separator() {
    assert_eq!(join(&words(&[]), ", "), "");
    assert_eq!(join(&words(&["Ann"]), ", "), "Ann");
    assert_eq!(join(&words(&["Ann", "Bob"]), ", "), "Ann, Bob");
    assert_eq!(join(&words(&["Ann", "", "Cy"]), "::"), "Ann::::Cy");
    assert_eq!(join(&words(&["a", "b", "c"]), ""), "abc");
}

#[test]
fn numbers_are_written_in_decimal() {
    let mut out = String::from("n=");
    push_decimal(&mut out, 0);
    assert_eq!(out, "n=0");
    push_decimal(&mut out, 7);
    push_decimal(&mut out, 10);
    push_decimal(&mut out, 9_876_543_210);
    assert_eq!(out, "n=07109876543210");
    let mut largest = String::new();
    push_decimal(&mut largest, u64::MAX);
    assert_eq!(largest, "18446744073709551615");
    let mut signed = String::new();
    push_signed_decimal(&mut signed, -42);
    push_signed_decimal(&mut signed, 42);
    push_signed_decimal(&mut signed, 0);
    assert_eq!(signed, "-42420");
    let mut smallest = String::new();
    push_signed_decimal(&mut smallest, i64::MIN);
    assert_eq!(smallest, "-9223372036854775808");
}

#[test]
fn texts_are_compared_by_what_they_hold() {
    assert!(same_texts(&words(&["a", "b"]), &words(&["a", "b"])));
    assert!(!same_texts(&words(&["a", "b"]), &words(&["b", "a"])));
    assert!(!same_texts(&words(&["a"]), &words(&["a", "a"])));
    assert!(same_texts(&words(&[]), &words(&[])));
    assert!(same_opt_text(&None, &None));
    assert!(same_opt_text(&Some("x".to_string()), &Some("x".to_string())));
    assert!(!same_opt_text(&Some("x".to_string()), &Some("y".to_string())));
    assert!(!same_opt_text(&Some("".to_string()), &None));
    assert_eq!(clone_opt_text(&Some("x".to_string())), Some("x".to_string()));
    assert_eq!(clone_opt_text(&None), None);
}
