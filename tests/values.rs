use squid_vm::immediates::{
    bool_to_bytes, ImmediateType, Immediates, ImmediatesType, Serialize, NULL_WIDTH,
};

#[test]
fn serialize_widths_match_kinds() {
    assert_eq!(Immediates::Integer(-2).serialize_heap(), (-2i64).to_le_bytes().to_vec());
    assert_eq!(Immediates::UInteger(258).serialize_heap(), 258u64.to_le_bytes().to_vec());
    assert_eq!(
        Immediates::Float(3.5f64.to_bits()).serialize_heap(),
        3.5f64.to_le_bytes().to_vec()
    );
    assert_eq!(Immediates::Boolean(true).serialize_heap(), vec![1u8]);
    assert_eq!(Immediates::Boolean(false).serialize(), vec![0u8]);
    assert_eq!(Immediates::Null.serialize_heap(), vec![0u8; NULL_WIDTH]);
    assert_eq!(Immediates::MutStr("hé".to_string()).serialize_heap(), "hé".as_bytes().to_vec());
    assert_eq!(Immediates::StaticStr("ab".to_string()).serialize(), b"ab".to_vec());
    assert_eq!(Immediates::Binary(vec![9, 8]).serialize_heap(), vec![9u8, 8]);
    assert_eq!(bool_to_bytes(true), vec![1u8]);
}

#[test]
fn kinds_of_values() {
    assert_eq!(Immediates::Null.to_immediate_type(), ImmediatesType::Null);
    assert_eq!(Immediates::Integer(1).to_immediate_type(), ImmediatesType::Integer);
    assert_eq!(Immediates::Float(0).to_immediate_type(), ImmediatesType::Float);
    assert_eq!(Immediates::Array(vec![]).to_immediate_type(), ImmediatesType::Array);
    assert_eq!(Immediates::MutStr(String::new()).to_immediate_type(), ImmediatesType::MutStr);
}

#[test]
fn textual_forms() {
    assert_eq!(Immediates::Integer(22).to_text(), "22");
    assert_eq!(Immediates::Integer(-9223372036854775808).to_text(), "-9223372036854775808");
    assert_eq!(Immediates::UInteger(18446744073709551615).to_text(), "18446744073709551615");
    assert_eq!(Immediates::Boolean(false).to_text(), "false");
    assert_eq!(Immediates::Null.to_text(), "Null");
    assert_eq!(Immediates::MutStr("hi".to_string()).to_text(), "hi");
    assert_eq!(Immediates::Binary(vec![1, 2, 255]).to_text(), "[1, 2, 255]");
    assert_eq!(Immediates::Binary(vec![]).to_text(), "[]");
    assert_eq!(
        Immediates::Array(vec![Immediates::Integer(1), Immediates::Boolean(true)]).to_text(),
        "[1, true]"
    );
}

#[test]
fn duplicate_keeps_value() {
    let v = Immediates::Array(vec![Immediates::MutStr("x".to_string()), Immediates::Binary(vec![3])]);
    let c = v.duplicate();
    assert_eq!(c.to_text(), v.to_text());
}
