//! Whole-input parses, exact AST values, the error variants, and the
//! dependency extraction on concrete schemas.
use plt::dependencies::Dependencies;
use plt::CaseBody;
use plt::Definition;
use plt::EnumItem;
use plt::ParseError;
use plt::Range;

fn char_len(s: &str) -> usize {
    s.chars().count()
}

#[test]
fn alias_field_is_parsed_exactly() {
    let defs = plt::parse("opaque variable<V>;\n").unwrap();
    assert_eq!(defs.len(), 1);
    match &defs[0] {
        Definition::Alias(f) => {
            assert_eq!(f.ty, "opaque");
            assert_eq!(f.name, "variable");
            assert!(matches!(f.range, Some(Range::Variable)));
            assert!(!f.optional);
            assert!(f.default.is_none());
        }
        other => panic!("expected an alias, got {:?}", other),
    }
    assert_eq!(defs[0].name(), "variable");
    assert_eq!(defs[0].dependencies(), ["opaque"]);
}

#[test]
fn struct_keeps_raw_postfix_name_and_collects_dependencies() {
    let text = "struct { uint8 present; select (present) { case 0: struct{}; case 1: T value; }; } optional<T>;";
    let (st, pos) = plt::struct_def(text, 0).unwrap();
    assert_eq!(pos, char_len(text));
    assert_eq!(st.name, "optional<T>");
    let def = Definition::Struct(st);
    assert_eq!(def.name(), "optional<T>");
    assert_eq!(def.dependencies(), ["T", "uint8"]);
}

#[test]
fn enum_items_are_parsed_and_contribute_no_dependencies() {
    let text = "enum { reserved(0), mls10(1), (255) } ProtocolVersion;";
    let (d, pos) = plt::definition(text, 0).unwrap();
    assert_eq!(pos, char_len(text));
    match &d {
        Definition::Enum(en) => {
            assert_eq!(en.name, "ProtocolVersion");
            assert_eq!(en.items.len(), 3);
            match &en.items[0] {
                EnumItem::Value(n, v) => {
                    assert_eq!(n, "reserved");
                    assert_eq!(v, "0");
                }
                other => panic!("expected a named value, got {:?}", other),
            }
            match &en.items[1] {
                EnumItem::Value(n, v) => {
                    assert_eq!(n, "mls10");
                    assert_eq!(v, "1");
                }
                other => panic!("expected a named value, got {:?}", other),
            }
            match &en.items[2] {
                EnumItem::Max(v) => assert_eq!(v, "255"),
                other => panic!("expected a sentinel, got {:?}", other),
            }
        }
        other => panic!("expected an enum, got {:?}", other),
    }
    assert_eq!(d.name(), "ProtocolVersion");
    assert!(d.dependencies().is_empty());
}

#[test]
fn case_forms_contribute_the_same_dependency() {
    let (fields_case, _) = plt::case("case x509:\n            Certificate chain<V>;", 0).unwrap();
    assert_eq!(fields_case.dependencies(), ["Certificate"]);

    let (reference_case, _) = plt::case("case add: All;", 0).unwrap();
    assert!(matches!(reference_case.right, CaseBody::ReferenceToType(_)));
    assert_eq!(reference_case.dependencies(), ["All"]);
}

#[test]
fn dependencies_are_sorted_deduplicated_and_repeatable() {
    let defs = plt::parse("struct { Zeta a; Alpha b; Zeta c; } S;\n").unwrap();
    assert_eq!(defs.len(), 1);
    let first = defs[0].dependencies();
    let second = defs[0].dependencies();
    assert_eq!(first, second);
    assert_eq!(first, ["Alpha", "Zeta"]);
}

#[test]
fn optional_wrapper_is_not_a_dependency() {
    let defs = plt::parse("optional<LeafNode> leaf_node;\n").unwrap();
    match &defs[0] {
        Definition::Alias(f) => {
            assert_eq!(f.ty, "LeafNode");
            assert!(f.optional);
        }
        other => panic!("expected an alias, got {:?}", other),
    }
    assert_eq!(defs[0].dependencies(), ["LeafNode"]);
}

#[test]
fn empty_and_blank_inputs_parse_to_nothing() {
    assert!(plt::parse("").unwrap().is_empty());
    assert!(plt::parse("  \n\t ").unwrap().is_empty());
}

#[test]
fn definitions_must_be_followed_by_whitespace() {
    // The separator after a definition must consume at least one character;
    // an input that ends directly at the final semicolon is a syntax error.
    assert!(matches!(plt::parse("uint8 x;"), Err(ParseError::Syntax)));
    assert!(plt::parse("uint8 x;\n").is_ok());
}

#[test]
fn unparsed_text_is_reported_as_trailing_data() {
    match plt::parse("???") {
        Err(ParseError::Trailing(t)) => assert_eq!(t, "???"),
        other => panic!("expected trailing data, got {:?}", other),
    }
    match plt::parse("uint8 x; garbage") {
        Err(ParseError::Trailing(t)) => assert_eq!(t, "garbage"),
        other => panic!("expected trailing data, got {:?}", other),
    }
}

#[test]
fn length_annotations_take_their_exact_forms() {
    let (f, _) = plt::field("uint32 fixed<0..255>;", 0).unwrap();
    assert!(matches!(f.range, Some(Range::MinMax(0, 255))));

    let (f, _) = plt::field("opaque padding[16];", 0).unwrap();
    assert!(matches!(f.range, Some(Range::Exact(16))));

    let (f, _) = plt::field("opaque padding[length_of_padding];", 0).unwrap();
    match f.range {
        Some(Range::Prose(p)) => assert_eq!(p, "length_of_padding"),
        other => panic!("expected a prose length, got {:?}", other),
    }
}

#[test]
fn oversized_bracket_numeral_falls_back_to_prose() {
    // A numeral too large for a fixed length is kept as prose text.
    let (f, _) = plt::field("opaque padding[99999999999999999999999999];", 0).unwrap();
    match f.range {
        Some(Range::Prose(p)) => assert_eq!(p, "99999999999999999999999999"),
        other => panic!("expected a prose length, got {:?}", other),
    }
}

#[test]
fn oversized_vector_bound_fails_the_field() {
    assert!(plt::field("opaque v<99999999999999999999999999..1>;", 0).is_none());
}

#[test]
fn bound_forms_parse_on_their_own() {
    let (rg, pos) = plt::fixed("0..255>", 0).unwrap();
    assert!(matches!(rg, Range::MinMax(0, 255)));
    assert_eq!(pos, 6);

    let (rg, pos) = plt::variable("V>", 0).unwrap();
    assert!(matches!(rg, Range::Variable));
    assert_eq!(pos, 1);

    assert!(plt::fixed("V>", 0).is_none());
    assert!(plt::variable("0..255>", 0).is_none());
}

#[test]
fn defaults_capture_the_text_before_the_semicolon() {
    let (f, _) = plt::field("ProtocolVersion version = mls10;", 0).unwrap();
    assert_eq!(f.ty, "ProtocolVersion");
    assert_eq!(f.name, "version");
    assert_eq!(f.default.as_deref(), Some("mls10"));
}

#[test]
fn type_names_follow_unicode_alphanumerics() {
    let text = "Grüße g;";
    let (f, pos) = plt::field(text, 0).unwrap();
    assert_eq!(pos, char_len(text));
    assert_eq!(f.ty, "Grüße");

    assert!(plt::field("op?que x;", 0).is_none());
}

#[test]
fn select_discriminant_is_excluded_from_dependencies() {
    let text = "select (Outer.kind) { case a: First one;\n case b: Second; };";
    let (sel, pos) = plt::select(text, 0).unwrap();
    assert_eq!(pos, char_len(text));
    assert_eq!(sel.over, "Outer.kind");
    assert_eq!(sel.cases.len(), 2);
    let item = plt::FieldOrSelect::Select(sel);
    assert_eq!(item.dependencies(), ["First", "Second"]);
}
