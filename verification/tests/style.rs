use ecmd::style::Style;

#[test]
fn default_is_posix() {
    assert_eq!(Style::default(), Style::Posix);
}

#[test]
fn copy_semantics() {
    let s = Style::Gnu;
    let s2 = s;
    assert_eq!(s, s2);
}
