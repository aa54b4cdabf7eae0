use ecmd::operands::Operands;

#[test]
fn empty_operands_has_zero_length() {
    let ops = Operands::default();
    assert!(ops.is_empty());
    assert_eq!(ops.len(), 0);
}

#[test]
fn default_equals_empty_args() {
    let default = Operands::default();
    let empty: Operands = Operands::from_args(&Vec::<&str>::new());
    assert_eq!(default, empty);
}

#[test]
fn collects_from_str_slices() {
    let ops = Operands::from_args(&["hello", "world"]);
    assert_eq!(ops.len(), 2);
    assert_eq!(ops.first(), Some("hello"));
    assert_eq!(ops.get(0), Some("hello"));
    assert_eq!(ops.get(1), Some("world"));
    assert_eq!(ops.get(2), None);
}

#[test]
fn from_vec_string_avoids_clone() {
    let v = vec!["a".to_owned(), "b".to_owned()];
    let ops = Operands::from(v);
    assert_eq!(ops.get(0), Some("a"));
    assert_eq!(ops.get(1), Some("b"));
}

#[test]
fn derefs_to_string_slice() {
    let ops = Operands::from_args(&["a", "b", "c"]);
    let slice: &[String] = &ops;
    assert_eq!(slice, &["a", "b", "c"]);
}

#[test]
fn join_concatenates_with_separator() {
    let ops = Operands::from_args(&["echo", "hello", "world"]);
    assert_eq!(ops.join(" "), "echo hello world");
}

#[test]
fn join_empty_produces_empty_string() {
    let ops = Operands::default();
    assert_eq!(ops.join(" "), "");
}

#[test]
fn iterates_borrowed() {
    let ops = Operands::from_args(&["x", "y"]);
    let collected: Vec<&String> = ops.iter().collect();
    assert_eq!(collected.len(), 2);
    assert_eq!(collected[0], "x");
}

#[test]
fn iterates_owned() {
    let ops = Operands::from_args(&["a", "b"]);
    let collected: Vec<String> = ops.into_vec().into_iter().collect();
    assert_eq!(collected, vec!["a", "b"]);
}

#[test]
fn clone_produces_equal_value() {
    let ops = Operands::from_args(&["a", "b"]);
    let cloned = ops.clone();
    assert_eq!(ops, cloned);
}

#[test]
fn join_single_has_no_separator() {
    let ops = Operands::from_args(&["only"]);
    assert_eq!(ops.join(", "), "only");
}

#[test]
fn from_vec_keeps_order() {
    let ops = Operands::from_vec(vec!["1".to_owned(), "2".to_owned(), "3".to_owned()]);
    assert_eq!(ops.as_slice(), &["1", "2", "3"]);
    assert_eq!(ops.first(), Some("1"));
}
