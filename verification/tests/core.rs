//! Round-trip tests over every sample schema type: encode a constructed
//! value, decode the bytes, and require byte-for-byte identity of the
//! re-encoding.

use cddl_codec::choices::GroupChoice;
use cddl_codec::choices::GroupChoice1;
use cddl_codec::choices::TypeChoice;
use cddl_codec::nested::CborInCbor;
use cddl_codec::table::Bar;
use cddl_codec::table::StrMap;
use cddl_codec::table::TableArrMembers;
use cddl_codec::types::Foo;
use cddl_codec::types::Foo2;
use cddl_codec::types::Outer;
use cddl_codec::types::Plain;

fn deser_test_hash(orig: &cddl_codec::types::Hash) {
    let bytes = orig.to_bytes();
    let deser = cddl_codec::types::Hash::from_bytes(&bytes).unwrap();
    assert_eq!(bytes, deser.to_bytes());
}

fn deser_test_foo(orig: &Foo) {
    let bytes = orig.to_bytes();
    let deser = Foo::from_bytes(&bytes).unwrap();
    assert_eq!(bytes, deser.to_bytes());
}

fn deser_test_foo2(orig: &Foo2) {
    let bytes = orig.to_bytes();
    let deser = Foo2::from_bytes(&bytes).unwrap();
    assert_eq!(bytes, deser.to_bytes());
}

fn deser_test_bar(orig: &Bar) {
    let bytes = orig.to_bytes();
    let deser = Bar::from_bytes(&bytes).unwrap();
    assert_eq!(bytes, deser.to_bytes());
}

fn deser_test_plain(orig: &Plain) {
    let bytes = orig.to_bytes();
    let deser = Plain::from_bytes(&bytes).unwrap();
    assert_eq!(bytes, deser.to_bytes());
}

fn deser_test_outer(orig: &Outer) {
    let bytes = orig.to_bytes();
    let deser = Outer::from_bytes(&bytes).unwrap();
    assert_eq!(bytes, deser.to_bytes());
}

fn deser_test_tam(orig: &TableArrMembers) {
    let bytes = orig.to_bytes();
    let deser = TableArrMembers::from_bytes(&bytes).unwrap();
    assert_eq!(bytes, deser.to_bytes());
}

fn deser_test_type_choice(orig: &TypeChoice) {
    let bytes = orig.to_bytes();
    let deser = TypeChoice::from_bytes(&bytes).unwrap();
    assert_eq!(bytes, deser.to_bytes());
}

fn deser_test_group_choice(orig: &GroupChoice) {
    let bytes = orig.to_bytes();
    let deser = GroupChoice::from_bytes(&bytes).unwrap();
    assert_eq!(bytes, deser.to_bytes());
}

fn deser_test_cbor_in_cbor(orig: &CborInCbor) {
    let bytes = orig.to_bytes();
    let deser = CborInCbor::from_bytes(&bytes).unwrap();
    assert_eq!(bytes, deser.to_bytes());
}

#[test]
fn hash() {
    let hash = cddl_codec::types::Hash::new(vec![0xBA, 0xAD, 0xF0, 0x0D, 0xDE, 0xAD, 0xBE, 0xEF]).unwrap();
    deser_test_hash(&hash);
    assert!(cddl_codec::types::Hash::new(vec![0x00, 0xBA, 0xAD, 0xF0, 0x0D, 0xDE, 0xAD, 0xBE, 0xEF]).is_err());
}

#[test]
fn foo() {
    deser_test_foo(&Foo::new(436, String::from("jfkdsjfd"), vec![1, 1, 1]));
}

#[test]
fn foo2_some() {
    deser_test_foo2(&Foo2::new(143546, Some(String::from("afdjfkjsiefefe").into())));
}

#[test]
fn foo2_none() {
    deser_test_foo2(&Foo2::new(143546, None));
}

#[test]
fn bar() {
    deser_test_bar(&Bar::new(Foo::new(436, String::from("jfkdf"), vec![6, 4]), None));
}

#[test]
fn plain() {
    deser_test_plain(&Plain::new(7576, String::from("wiorurri34h").into()));
}

#[test]
fn outer() {
    deser_test_outer(&Outer::new(2143254, Plain::new(7576, String::from("wiorurri34h").into())));
}

#[test]
fn table_arr_members() {
    let mut tab = StrMap::new();
    tab.insert(String::from("43266556"), String::from("2k2j343"));
    tab.insert(String::from("213543254546565"), String::from("!!fjdj"));
    let foos = vec![
        Foo::new(0, String::from("Zero"), vec![]),
        Foo::new(2, String::from("Two"), vec![2, 2]),
    ];
    let u64s = vec![0, 1, 2, 3, 4, 6];
    deser_test_tam(&TableArrMembers::new(tab, u64s, foos));
}

#[test]
fn type_choice_0() {
    deser_test_type_choice(&TypeChoice::I0);
}

#[test]
fn type_choice_hello_world() {
    deser_test_type_choice(&TypeChoice::Helloworld);
}

#[test]
fn type_choice_uint() {
    deser_test_type_choice(&TypeChoice::U64(53435364));
}

#[test]
fn type_choice_text() {
    deser_test_type_choice(&TypeChoice::Text(String::from("jdfidsf83j3  jkrjefdfk !!")));
}

#[test]
fn type_choice_bytes() {
    deser_test_type_choice(&TypeChoice::Bytes(vec![0x00, 0x01, 0xF7, 0xFF]));
}

#[test]
fn type_choice_tagged_arr() {
    deser_test_type_choice(&TypeChoice::ArrU64(vec![1, 2, 3, 4]));
}

#[test]
fn group_choice_foo() {
    deser_test_group_choice(&GroupChoice::new_foo(0, String::new(), vec![]));
}

#[test]
fn group_choice_0() {
    deser_test_group_choice(&GroupChoice::GroupChoice1(GroupChoice1::new(37)));
}

#[test]
fn group_choice_plain() {
    deser_test_group_choice(&GroupChoice::Plain(Plain::new(354545, String::from("fdsfdsfdg").into())));
}

#[test]
fn cbor_in_cbor() {
    deser_test_cbor_in_cbor(&CborInCbor::new(Foo::new(0, String::new(), vec![]), 9))
}
