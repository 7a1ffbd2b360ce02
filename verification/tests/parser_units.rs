//! The sub-parser unit tests: each feeds a production's parser a set of
//! texts and checks that the whole text is consumed.

fn remainder(text: &str, pos: usize) -> String {
    text.chars().skip(pos).collect()
}

#[test]
fn that_enum_can_be_parsed() {
    let tests = [
        "enum {
    reserved(0),
    mls10(1),
    (255)
} ProtocolVersion;",
        "enum {
    reserved(0),
    application(1),
    proposal(2),
    commit(3),
    (255)
} ContentType;",
        "enum {
    reserved(0),
    member(1),
    external(2),
    new_member_proposal(3),
    new_member_commit(4),
    (255)
} SenderType;",
    ];

    for test in tests {
        let (object, pos) = plt::enum_def(test, 0).unwrap();
        assert!(remainder(test, pos).is_empty());

        println!("{}\n{:#?}\n\n", test, object);
    }
}

#[test]
fn that_enum_item_can_be_parsed() {
    let tests = [
        "reserved(0)",
        "mls10(1)",
        "application(1)",
        "proposal(2)",
        "commit(3)",
        "(255)",
        "member(1)",
        "external(2)",
        "new_member_proposal(3)",
        "new_member_commit(4)",
        "(255)",
    ];

    for test in tests {
        let (object, pos) = plt::enum_item(test, 0).unwrap();
        assert!(remainder(test, pos).is_empty());

        println!("{}\n{:?}\n\n", test, object);
    }
}

#[test]
fn that_struct_can_be_parsed() {
    let tests = [
        "struct {
    uint8 present;
    select (present) {
        case 0: struct{};
        case 1: T value;
    };
} optional<T>;",
        "struct {
    uint32 fixed<0..255>;
    opaque variable<V>;
} StructWithVectors;",
        "struct {
    opaque cert_data<V>;
} Certificate;",
        "struct {
    CredentialType credential_type;
    select (Credential.credential_type) {
        case basic:
            opaque identity<V>;

        case x509:
            Certificate chain<V>;
    };
} Credential;",
    ];

    for test in tests {
        let (object, pos) = plt::struct_def(test, 0).unwrap();
        assert!(remainder(test, pos).is_empty());

        println!("{}\n{:#?}\n\n", test, object);
    }
}

#[test]
fn that_field_or_select_be_parsed() {
    let tests = [
        "select (present) { case 0: struct{}; case 1: T value; };",
        "uint8 present;",
    ];

    for test in tests {
        let (object, pos) = plt::field_or_select(test, 0).unwrap();
        assert!(remainder(test, pos).is_empty());

        println!("{}\n{:?}\n\n", test, object);
    }
}

#[test]
fn that_select_can_be_parsed() {
    let tests = ["select (present) { case 0: struct{}; case 1: T value; };"];

    for test in tests {
        let (object, pos) = plt::select(test, 0).unwrap();
        assert!(remainder(test, pos).is_empty());

        println!("{}\n{:?}\n\n", test, object);
    }
}

#[test]
fn that_case_can_be_parsed() {
    let tests = [
        "case 0: struct{};",
        "case 1: T value;",
        "case basic:
            opaque identity<V>;

",
        "case x509:
            Certificate chain<V>;",
        "case foo:",
        "case bar: opaque group_id<V>;
            uint32 leaf_index;",
        "case add:                      Add;",
    ];

    for test in tests {
        let (object, pos) = plt::case(test, 0).unwrap();
        println!("<{}>", remainder(test, pos));
        assert!(remainder(test, pos).is_empty());

        println!("{}\n{:?}\n\n", test, object);
    }
}

#[test]
fn that_field_can_be_parsed() {
    let tests = [
        "uint8 present;",
        "uint32 fixed<0..255>;",
        "opaque variable<V>;",
        "opaque cert_data<V>;",
        "CredentialType credential_type;",
        "optional<LeafNode> leaf_node;",
        "ProtocolVersion version = mls10;",
        "opaque padding[length_of_padding];",
    ];

    for test in tests {
        let (object, pos) = plt::field(test, 0).unwrap();
        assert!(remainder(test, pos).is_empty());

        println!("{}\n{:?}\n\n", test, object);
    }
}
