//! Tests of the failure taxonomy, diagnostics, and the decode behaviours the
//! codec contract pins down: exact encodings, choice resolution order,
//! duplicate keys, missing fields, and non-canonical input.

use cddl_codec::choices::GroupChoice;
use cddl_codec::choices::TypeChoice;
use cddl_codec::error::DeserializeFailure;
use cddl_codec::nested::CborInCbor;
use cddl_codec::table::Bar;
use cddl_codec::table::StrMap;
use cddl_codec::types::Foo;
use cddl_codec::types::Foo2;
use cddl_codec::types::Plain;

#[test]
fn foo_exact_encoding() {
    // array(3), 436 as a two-byte argument, "ab", bytes [1].
    let foo = Foo::new(436, String::from("ab"), vec![1]);
    assert_eq!(
        foo.to_bytes(),
        vec![0x83, 0x19, 0x01, 0xB4, 0x62, 0x61, 0x62, 0x41, 0x01]
    );
}

#[test]
fn foo_structural_round_trip() {
    let orig = Foo::new(436, String::from("jfkdsjfd"), vec![1, 1, 1]);
    let bytes = orig.to_bytes();
    let deser = Foo::from_bytes(&bytes).unwrap();
    assert_eq!(orig, deser);
    assert_eq!(bytes, deser.to_bytes());
}

#[test]
fn foo_non_ascii_text() {
    let orig = Foo::new(1, String::from("héllo"), vec![]);
    let bytes = orig.to_bytes();
    let deser = Foo::from_bytes(&bytes).unwrap();
    assert_eq!(deser.name, "héllo");
    assert_eq!(orig, deser);
}

#[test]
fn foo_accepts_indefinite_array() {
    // 9F (indefinite array), 10, "a", bytes [1], FF (break).
    let bytes = vec![0x9F, 0x0A, 0x61, 0x61, 0x41, 0x01, 0xFF];
    let foo = Foo::from_bytes(&bytes).unwrap();
    assert_eq!(foo, Foo::new(10, String::from("a"), vec![1]));
}

#[test]
fn foo_missing_ending_break() {
    // Indefinite array with all three fields but no break.
    let bytes = vec![0x9F, 0x0A, 0x61, 0x61, 0x41, 0x01, 0x00];
    let err = Foo::from_bytes(&bytes).unwrap_err();
    assert!(matches!(err.failure, DeserializeFailure::EndingBreakMissing));
    assert!(err.render().contains("Missing ending CBOR Break"));
}

#[test]
fn foo_definite_len_mismatch() {
    // array(2) where foo needs three fields.
    let bytes = vec![0x82, 0x00, 0x60];
    let err = Foo::from_bytes(&bytes).unwrap_err();
    assert!(matches!(err.failure, DeserializeFailure::DefiniteLenMismatch(2, Some(3))));
    assert!(err.render().contains("Definite length mismatch: found 2, expected: 3"));
}

#[test]
fn foo_error_path_names_field() {
    // array(3) whose second slot is an integer, not text.
    let bytes = vec![0x83, 0x00, 0x05, 0x40];
    let err = Foo::from_bytes(&bytes).unwrap_err();
    let msg = err.render();
    assert!(msg.contains("Deserialization failed in Foo.name because: "));
    assert!(msg.contains("expected CBOR type text, found unsigned integer"));
}

#[test]
fn hash_len_bounds() {
    assert!(cddl_codec::types::Hash::new(vec![0; 7]).is_err());
    assert!(cddl_codec::types::Hash::new(vec![0; 9]).is_err());
    let ok = cddl_codec::types::Hash::new(vec![0; 8]).unwrap();
    assert_eq!(ok.as_slice(), &[0u8; 8]);
    let err = cddl_codec::types::Hash::new(vec![0; 9]).unwrap_err();
    assert!(matches!(
        err.failure,
        DeserializeFailure::RangeCheck { found: 9, min: Some(8), max: Some(8) }
    ));
    assert!(err.render().contains("9 not in range 8 - 8"));
}

#[test]
fn hash_decode_rejects_wrong_length() {
    // bytes(9)
    let mut bytes = vec![0x49];
    bytes.extend_from_slice(&[0; 9]);
    let err = cddl_codec::types::Hash::from_bytes(&bytes).unwrap_err();
    assert!(matches!(err.failure, DeserializeFailure::RangeCheck { found: 9, .. }));
}

#[test]
fn strmap_duplicate_key_rejected() {
    // map(2) with key "a" twice, values differing.
    let bytes = vec![0xA2, 0x61, 0x61, 0x61, 0x78, 0x61, 0x61, 0x61, 0x79];
    let err = StrMap::from_bytes(&bytes).unwrap_err();
    match &err.failure {
        DeserializeFailure::DuplicateKey(k) => assert_eq!(k.render(), "\"a\""),
        other => panic!("wrong failure: {:?}", other),
    }
    assert!(err.render().contains("Duplicate key: \"a\""));
}

#[test]
fn strmap_unexpected_key_type() {
    // map(1) with an integer key.
    let bytes = vec![0xA1, 0x01, 0x61, 0x78];
    let err = StrMap::from_bytes(&bytes).unwrap_err();
    assert!(matches!(err.failure, DeserializeFailure::UnexpectedKeyType(_)));
}

#[test]
fn strmap_break_in_definite_map() {
    let bytes = vec![0xA1, 0xFF];
    let err = StrMap::from_bytes(&bytes).unwrap_err();
    assert!(matches!(err.failure, DeserializeFailure::BreakInDefiniteLen));
}

#[test]
fn strmap_insert_replaces_in_place() {
    let mut tab = StrMap::new();
    tab.insert(String::from("k"), String::from("v1"));
    tab.insert(String::from("j"), String::from("w"));
    tab.insert(String::from("k"), String::from("v2"));
    assert_eq!(tab.len(), 2);
    assert_eq!(tab.get("k"), Some(String::from("v2")));
    assert_eq!(tab.get("j"), Some(String::from("w")));
    assert_eq!(tab.get("missing"), None);
}

#[test]
fn bar_with_optional_present() {
    let orig = Bar::new(Foo::new(1, String::from("x"), vec![]), Some(7));
    let bytes = orig.to_bytes();
    let deser = Bar::from_bytes(&bytes).unwrap();
    assert_eq!(orig, deser);
    assert_eq!(bytes, deser.to_bytes());
}

#[test]
fn bar_optional_absent_and_present_differ_only_in_entry() {
    let without = Bar::new(Foo::new(1, String::from("x"), vec![]), None);
    let with = Bar::new(Foo::new(1, String::from("x"), vec![]), Some(7));
    let b1 = without.to_bytes();
    let b2 = with.to_bytes();
    assert_eq!(Bar::from_bytes(&b1).unwrap(), without);
    assert_eq!(Bar::from_bytes(&b2).unwrap(), with);
    assert_ne!(b1, b2);
}

#[test]
fn bar_missing_mandatory_field() {
    // map(1) holding only "derp" => 1.
    let bytes = vec![0xA1, 0x64, 0x64, 0x65, 0x72, 0x70, 0x01];
    let err = Bar::from_bytes(&bytes).unwrap_err();
    match &err.failure {
        DeserializeFailure::MandatoryFieldMissing(k) => assert_eq!(k.render(), "\"foo\""),
        other => panic!("wrong failure: {:?}", other),
    }
    let msg = err.render();
    assert!(msg.contains("Deserialization failed in Bar because: "));
    assert!(msg.contains("Mandatory field \"foo\" not found"));
}

#[test]
fn bar_unknown_key() {
    // map(1) holding "zzz" => 0.
    let bytes = vec![0xA1, 0x63, 0x7A, 0x7A, 0x7A, 0x00];
    let err = Bar::from_bytes(&bytes).unwrap_err();
    match &err.failure {
        DeserializeFailure::UnknownKey(k) => assert_eq!(k.render(), "\"zzz\""),
        other => panic!("wrong failure: {:?}", other),
    }
}

#[test]
fn bar_duplicate_field() {
    // map(2) with "derp" twice; foo never seen, but the duplicate hits first.
    let bytes = vec![
        0xA2, 0x64, 0x64, 0x65, 0x72, 0x70, 0x01, 0x64, 0x64, 0x65, 0x72, 0x70, 0x02,
    ];
    let err = Bar::from_bytes(&bytes).unwrap_err();
    assert!(matches!(err.failure, DeserializeFailure::DuplicateKey(_)));
}

#[test]
fn plain_tag_mismatch() {
    let mut bytes = Plain::new(1, String::from("x")).to_bytes();
    bytes[0] = 0xCE;  // tag(14) instead of tag(13)
    let err = Plain::from_bytes(&bytes).unwrap_err();
    assert!(matches!(err.failure, DeserializeFailure::TagMismatch { found: 14, expected: 13 }));
    assert!(err.render().contains("Expected tag 13, found 14"));
}

#[test]
fn foo2_null_marks_absence() {
    let none = Foo2::new(5, None);
    let bytes = none.to_bytes();
    // array(2), 5, null
    assert_eq!(bytes, vec![0x82, 0x05, 0xF6]);
    let deser = Foo2::from_bytes(&bytes).unwrap();
    assert_eq!(deser.text, None);
}

#[test]
fn type_choice_first_match_wins() {
    // The byte 0x00 is structurally valid for both the literal-0 alternative
    // and the general integer alternative; the earlier-declared one wins.
    let bytes = vec![0x00];
    assert_eq!(TypeChoice::from_bytes(&bytes).unwrap(), TypeChoice::I0);
    // Likewise "hello world" matches both the literal and the general text.
    let hello = TypeChoice::Helloworld.to_bytes();
    assert_eq!(TypeChoice::from_bytes(&hello).unwrap(), TypeChoice::Helloworld);
}

#[test]
fn type_choice_no_variant_matched_lists_causes() {
    // Null matches no alternative of the type choice.
    let bytes = vec![0xF6];
    let err = TypeChoice::from_bytes(&bytes).unwrap_err();
    match &err.failure {
        DeserializeFailure::NoVariantMatchedWithCauses(causes) => {
            assert_eq!(causes.len(), 6);
        },
        other => panic!("wrong failure: {:?}", other),
    }
    let msg = err.render();
    assert!(msg.contains("Deserialization failed in TypeChoice because: "));
    assert!(msg.contains("No variant matched. Failures:\n"));
    for name in ["I0", "Helloworld", "U64", "Text", "Bytes", "ArrU64"] {
        assert!(msg.contains(&format!("\tDeserialization failed in {}", name)), "{}", name);
    }
}

#[test]
fn type_choice_fixed_value_mismatch_is_a_cause() {
    // The integer 7 fails the literal-0 alternative with a value mismatch,
    // then matches the general integer alternative.
    let bytes = vec![0x07];
    assert_eq!(TypeChoice::from_bytes(&bytes).unwrap(), TypeChoice::U64(7));
    // A lone tag head matches nothing; the first cause is the fixed-value
    // mismatch path only when the shape matched, otherwise a type error.
    let err = TypeChoice::from_bytes(&[0xF6]).unwrap_err();
    let msg = err.render();
    assert!(msg.contains("expected CBOR type"));
}

#[test]
fn group_choice_prefers_declared_order() {
    // A one-element array of an integer is the second alternative.
    let bytes = vec![0x81, 0x18, 0x25];
    match GroupChoice::from_bytes(&bytes).unwrap() {
        GroupChoice::GroupChoice1(g) => assert_eq!(g.index_0, 37),
        other => panic!("wrong alternative: {:?}", other),
    }
}

#[test]
fn cbor_in_cbor_recovers_nested_values() {
    let orig = CborInCbor::new(Foo::new(4, String::from("in"), vec![9]), 9);
    let bytes = orig.to_bytes();
    // tag(24) then a byte string wrapping the nested document.
    assert_eq!(bytes[0], 0xD8);
    assert_eq!(bytes[1], 24);
    let deser = CborInCbor::from_bytes(&bytes).unwrap();
    assert_eq!(deser.foo, Foo::new(4, String::from("in"), vec![9]));
    assert_eq!(deser.num, 9);
}

#[test]
fn cbor_in_cbor_error_path_marks_nesting() {
    let orig = CborInCbor::new(Foo::new(4, String::from("in"), vec![9]), 9);
    let mut bytes = orig.to_bytes();
    // Corrupt the first byte of the embedded document (the inner array head).
    bytes[3] = 0x00;
    let err = CborInCbor::from_bytes(&bytes).unwrap_err();
    assert!(err.render().contains("CborInCbor.cbor"));
}

#[test]
fn uint_widths_are_minimal() {
    assert_eq!(TypeChoice::U64(23).to_bytes(), vec![0x17]);
    assert_eq!(TypeChoice::U64(24).to_bytes(), vec![0x18, 24]);
    assert_eq!(TypeChoice::U64(255).to_bytes(), vec![0x18, 0xFF]);
    assert_eq!(TypeChoice::U64(256).to_bytes(), vec![0x19, 0x01, 0x00]);
    assert_eq!(TypeChoice::U64(65536).to_bytes(), vec![0x1A, 0x00, 0x01, 0x00, 0x00]);
    assert_eq!(
        TypeChoice::U64(0x1_0000_0000).to_bytes(),
        vec![0x1B, 0, 0, 0, 1, 0, 0, 0, 0]
    );
    assert_eq!(
        TypeChoice::from_bytes(&[0x1B, 0, 0, 0, 1, 0, 0, 0, 0]).unwrap(),
        TypeChoice::U64(0x1_0000_0000)
    );
}

#[test]
fn non_minimal_widths_still_decode() {
    // 5 written in a two-byte argument: valid CBOR, accepted on decode, and
    // re-encoded minimally.
    let bytes = vec![0x19, 0x00, 0x05];
    let v = TypeChoice::from_bytes(&bytes).unwrap();
    assert_eq!(v, TypeChoice::U64(5));
    assert_eq!(v.to_bytes(), vec![0x05]);
}

#[test]
fn text_invalid_utf8_rejected() {
    // array(3), 0, text(1) holding 0xFF, bytes(0)
    let bytes = vec![0x83, 0x00, 0x61, 0xFF, 0x40];
    let err = Foo::from_bytes(&bytes).unwrap_err();
    assert!(err.render().contains("not valid UTF-8"));
}

#[test]
fn truncated_input_reports_not_enough() {
    let err = Foo::from_bytes(&[0x83, 0x00]).unwrap_err();
    assert!(err.render().contains("not enough bytes"));
}
