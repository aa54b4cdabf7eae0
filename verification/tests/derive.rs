//! Reading struct definitions: attributes, doc comments, roles, and the
//! checks that refuse a definition.

use ecmd::derive::attrs::{
    parse_sections, trim_trailing_empty, AttrArg, AttrEntry, AttrLit, CommandAttrs, FlagAttrs,
    ListItem,
};
use ecmd::derive::classify::{classify_field, FieldRole};
use ecmd::derive::codegen::{field_id, FieldInfo};
use ecmd::derive::error::DeriveError;
use ecmd::derive::plan::{expand, kebab, CommandInput, ItemShape};

fn string(key: &str, v: &str) -> AttrEntry {
    AttrEntry { key: key.into(), arg: AttrArg::Value(AttrLit::Str(v.into())) }
}

fn character(key: &str, c: char) -> AttrEntry {
    AttrEntry { key: key.into(), arg: AttrArg::Value(AttrLit::Char(c)) }
}

fn bare(key: &str) -> AttrEntry {
    AttrEntry { key: key.into(), arg: AttrArg::Bare }
}

fn idents(key: &str, names: &[&str]) -> AttrEntry {
    AttrEntry {
        key: key.into(),
        arg: AttrArg::List(names.iter().map(|n| ListItem::Ident((*n).into())).collect()),
    }
}

fn named() -> Vec<AttrEntry> {
    vec![string("name", "t")]
}

fn field(ident: &str, ty: &str, inner: Option<&str>, flag: Option<Vec<AttrEntry>>) -> FieldInfo {
    FieldInfo { ident: ident.into(), ty: ty.into(), inner: inner.map(Into::into), flag, doc: vec![] }
}

fn flag(ident: &str, c: char) -> FieldInfo {
    field(ident, "bool", None, Some(vec![character("short", c)]))
}

fn expand_fields(fields: Vec<FieldInfo>) -> Result<(), DeriveError> {
    expand(&CommandInput { attrs: named(), doc: vec![], shape: ItemShape::NamedStruct, fields })
        .map(|_| ())
}

fn lines(v: &[&str]) -> Vec<String> {
    v.iter().map(|s| s.to_string()).collect()
}

#[test]
fn kebab_turns_underscores_into_dashes() {
    assert_eq!(kebab(&"nchars_exact".to_string()), "nchars-exact");
    assert_eq!(kebab(&"_private_name_".to_string()), "private-name");
    assert_eq!(kebab(&"plain".to_string()), "plain");
    assert_eq!(kebab(&"___".to_string()), "");
}

#[test]
fn field_id_is_short_or_private_use() {
    let with_short = FlagAttrs::from_entries(&[character("short", 'v')]).unwrap();
    assert_eq!(field_id(&FieldRole::BoolFlag(with_short), 3), 'v');
    let long_only = FlagAttrs::from_entries(&[string("long", "verbose")]).unwrap();
    assert_eq!(field_id(&FieldRole::BoolFlag(long_only), 3), '\u{E003}');
    assert_eq!(field_id(&FieldRole::RequiredPositional, 3), '\0');
}

#[test]
fn classify_by_type_and_flag() {
    let a = || Some(FlagAttrs::from_entries(&[character("short", 'x')]).unwrap());
    assert!(matches!(classify_field(a(), "bool", None), FieldRole::BoolFlag(_)));
    assert!(matches!(classify_field(a(), "Polarity", None), FieldRole::PolarityFlag(_)));
    assert!(matches!(classify_field(a(), "Vec", Some("PolarVal")), FieldRole::PolarValueFlag(_)));
    assert!(matches!(classify_field(a(), "Vec", Some("String")), FieldRole::RepeatableValueFlag(_)));
    assert!(matches!(classify_field(a(), "Option", Some("String")), FieldRole::ValuedFlag(_)));
    assert_eq!(classify_field(None, "Operands", None), FieldRole::Rest);
    assert_eq!(classify_field(None, "Option", Some("String")), FieldRole::OptionalPositional);
    assert_eq!(classify_field(None, "String", None), FieldRole::RequiredPositional);
}

#[test]
fn trailing_empty_lines_are_dropped() {
    let mut v = lines(&["a", "", "b", "", ""]);
    trim_trailing_empty(&mut v);
    assert_eq!(v, lines(&["a", "", "b"]));
    let mut e = lines(&["", ""]);
    trim_trailing_empty(&mut e);
    assert!(e.is_empty());
}

#[test]
fn sections_split_at_headings() {
    let s = parse_sections(&lines(&[
        "Change the",
        "directory.",
        "",
        "More text.",
        "",
        "# Options",
        "  extra line",
        "",
        "# Exit Status",
        "Zero on success.",
        "",
    ]));
    assert_eq!(s.about, "Change the directory.");
    assert_eq!(s.description, lines(&["More text."]));
    assert_eq!(s.extra, lines(&["extra line"]));
    assert_eq!(s.exit_status, lines(&["Zero on success."]));
}

#[test]
fn command_attrs_read_in_order() {
    let a = CommandAttrs::from_entries(&[
        string("name", "first"),
        string("name", "second"),
        bare("lenient"),
        string("style", "gnu"),
    ])
    .unwrap();
    assert_eq!(a.name, "second");
    assert!(a.lenient);
    assert_eq!(a.style, "gnu");
    assert!(!a.no_permute);
}

#[test]
fn command_attr_errors() {
    assert_eq!(CommandAttrs::from_entries(&[]), Err(DeriveError::MissingName));
    assert_eq!(
        CommandAttrs::from_entries(&[bare("bogus")]),
        Err(DeriveError::UnknownCommandAttribute("bogus".into()))
    );
    assert_eq!(CommandAttrs::from_entries(&[bare("name")]), Err(DeriveError::ExpectedValue("name".into())));
    assert_eq!(
        CommandAttrs::from_entries(&[character("name", 'n')]),
        Err(DeriveError::ExpectedString("name".into()))
    );
    assert_eq!(
        CommandAttrs::from_entries(&[string("lenient", "yes")]),
        Err(DeriveError::UnexpectedArgument("lenient".into()))
    );
    assert_eq!(
        CommandAttrs::from_entries(&[string("extra_help", "x")]),
        Err(DeriveError::ExpectedList("extra_help".into()))
    );
}

#[test]
fn flag_attr_errors() {
    assert_eq!(FlagAttrs::from_entries(&[]), Err(DeriveError::FlagNeedsShortOrLong));
    assert_eq!(
        FlagAttrs::from_entries(&[string("short", "v")]),
        Err(DeriveError::ExpectedChar("short".into()))
    );
    assert_eq!(
        FlagAttrs::from_entries(&[bare("bogus")]),
        Err(DeriveError::UnknownFlagAttribute("bogus".into()))
    );
    let strs = AttrEntry { key: "clears".into(), arg: AttrArg::List(vec![ListItem::Str("a".into())]) };
    assert_eq!(FlagAttrs::from_entries(&[strs]), Err(DeriveError::ExpectedIdent("clears".into())));
}

#[test]
fn shape_errors() {
    let input = |shape| CommandInput { attrs: named(), doc: vec![], shape, fields: vec![] };
    assert_eq!(expand(&input(ItemShape::NotStruct)).err(), Some(DeriveError::NotStruct));
    assert_eq!(expand(&input(ItemShape::UnnamedStruct)).err(), Some(DeriveError::NotNamedStruct));
    assert!(expand(&input(ItemShape::NamedStruct)).is_ok());
}

#[test]
fn duplicate_flag_is_refused() {
    let r = expand_fields(vec![flag("a", 'x'), flag("b", 'y'), flag("c", 'x')]);
    assert_eq!(r, Err(DeriveError::DuplicateFlag { field: 2, id: 'x' }));
}

#[test]
fn field_after_operands_is_refused() {
    let r = expand_fields(vec![field("rest", "Operands", None, None), field("p", "String", None, None)]);
    assert_eq!(r, Err(DeriveError::FieldAfterOperands { field: 1 }));
}

#[test]
fn required_after_optional_is_refused() {
    let r = expand_fields(vec![
        field("o", "Option", Some("String"), None),
        flag("f", 'f'),
        field("r", "String", None, None),
    ]);
    assert_eq!(r, Err(DeriveError::RequiredAfterOptional { field: 2 }));
}

#[test]
fn clears_itself_is_refused() {
    let f = field("a", "bool", None, Some(vec![character("short", 'a'), idents("clears", &["a"])]));
    assert_eq!(expand_fields(vec![f]), Err(DeriveError::ClearsItself { field: 0, target: "a".into() }));
}

#[test]
fn clears_non_flag_is_refused() {
    let f = field("a", "bool", None, Some(vec![character("short", 'a'), idents("clears", &["p"])]));
    let r = expand_fields(vec![f, field("p", "String", None, None)]);
    assert_eq!(r, Err(DeriveError::ClearsNonFlag { field: 0, target: "p".into() }));
}

#[test]
fn validated_definition_is_accepted() {
    let a = field("a", "bool", None, Some(vec![character("short", 'a'), idents("clears", &["b"])]));
    let r = expand_fields(vec![
        a,
        flag("b", 'b'),
        field("req", "String", None, None),
        field("opt", "Option", Some("String"), None),
        field("rest", "Operands", None, None),
    ]);
    assert_eq!(r, Ok(()));
}
