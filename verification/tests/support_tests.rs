use miniforth::function_table::FunctionTable;
use miniforth::stack::{Stack, VecStack};
use miniforth::text::{signed_to_string, str_eq, unsigned_to_string};

#[test]
fn a_new_table_is_empty() {
    let table = FunctionTable::new();
    assert!(table.is_empty());
    assert_eq!(table.len(), 0);
    assert_eq!(table.get("main"), None);
    assert_eq!(table.get(""), None);
}

#[test]
fn insert_then_get() {
    let mut table = FunctionTable::new();
    assert_eq!(table.insert("main".to_string(), 4), None);
    assert_eq!(table.insert("helper".to_string(), 0), None);
    assert!(!table.is_empty());
    assert_eq!(table.len(), 2);
    assert_eq!(table.get("main"), Some(&4));
    assert_eq!(table.get("helper"), Some(&0));
    assert_eq!(table.get("other"), None);
    assert_eq!(table.get("mai"), None);
    assert_eq!(table.get("main "), None);
}

#[test]
fn insert_replaces_and_returns_the_old_entry() {
    let mut table = FunctionTable::new();
    assert_eq!(table.insert("f".to_string(), 1), None);
    assert_eq!(table.insert("g".to_string(), 2), None);
    assert_eq!(table.insert("f".to_string(), 3), Some(1));
    assert_eq!(table.len(), 2);
    assert_eq!(table.get("f"), Some(&3));
    assert_eq!(table.get("g"), Some(&2));
    assert_eq!(table.insert("f".to_string(), 3), Some(3));
}

#[test]
fn names_outside_ascii() {
    let mut table = FunctionTable::new();
    table.insert("é".to_string(), 1);
    table.insert("e".to_string(), 2);
    assert_eq!(table.get("é"), Some(&1));
    assert_eq!(table.get("e"), Some(&2));
    assert_eq!(table.len(), 2);
}

#[test]
fn unsigned_numbers_in_decimal() {
    assert_eq!(unsigned_to_string(0), "0");
    assert_eq!(unsigned_to_string(7), "7");
    assert_eq!(unsigned_to_string(10), "10");
    assert_eq!(unsigned_to_string(1234567890), "1234567890");
    assert_eq!(unsigned_to_string(1000000), "1000000");
    assert_eq!(unsigned_to_string(u64::MAX), "18446744073709551615");
}

#[test]
fn signed_numbers_in_decimal() {
    assert_eq!(signed_to_string(0), "0");
    assert_eq!(signed_to_string(-1), "-1");
    assert_eq!(signed_to_string(305), "305");
    assert_eq!(signed_to_string(-2147483648), "-2147483648");
    assert_eq!(signed_to_string(i64::MAX), "9223372036854775807");
    assert_eq!(signed_to_string(i64::MIN), "-9223372036854775808");
}

#[test]
fn equal_strings() {
    assert!(str_eq("", ""));
    assert!(str_eq("while", "while"));
    assert!(str_eq("é☕", "é☕"));
    assert!(!str_eq("while", "whilf"));
    assert!(!str_eq("while", "whil"));
    assert!(!str_eq("", "a"));
    assert!(!str_eq("é", "e"));
}

#[test]
fn a_stack_of_strings() {
    let mut stack = VecStack::new();
    assert!(stack.is_empty());
    assert_eq!(stack.peek(), None);
    stack.push("a".to_string());
    stack.push("b".to_string());
    assert!(!stack.is_empty());
    assert_eq!(stack.size(), 2);
    assert_eq!(stack.peek(), Some(&"b".to_string()));
    assert_eq!(stack.size(), 2);
    assert_eq!(stack.pop(), Some("b".to_string()));
    assert_eq!(stack.pop(), Some("a".to_string()));
    assert_eq!(stack.pop(), None);
    assert!(stack.is_empty());
}
