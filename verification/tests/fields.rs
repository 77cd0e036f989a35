use yclass::command::ToolBarResponse;
use yclass::field::{int_high_low_from_le, FieldKind, StringPointerField, WideStringPointerField};
use yclass::ident::is_valid_ident;

#[test]
fn test_is_valid_ident() {
    assert!(is_valid_ident("health"));
    assert!(is_valid_ident("field1"));
    assert!(is_valid_ident("_ptr"));
    assert!(!is_valid_ident(""));
    assert!(!is_valid_ident("9lives"));
    assert!(!is_valid_ident("two words"));
    assert!(!is_valid_ident("tab\tname"));
}

#[test]
fn test_int_high_low_halves() {
    // 8-byte cell: each half is a signed 32-bit little-endian value
    let (first, second) = int_high_low_from_le::<8>(&[0xFF, 0xFF, 0xFF, 0xFF], &[1, 0, 0, 0]);
    assert_eq!(first, -1);
    assert_eq!(second, 1);

    // 4-byte cell: signed 16-bit halves
    let (first, second) = int_high_low_from_le::<4>(&[0xFF, 0x7F], &[0x00, 0x80]);
    assert_eq!(first, 32767);
    assert_eq!(second, -32768);

    // 2-byte cell: signed 8-bit halves
    let (first, second) = int_high_low_from_le::<2>(&[0x80], &[0x7F]);
    assert_eq!(first, -128);
    assert_eq!(second, 127);
}

#[test]
fn test_field_kind_sizes() {
    assert_eq!(FieldKind::Unk8.size(), 1);
    assert_eq!(FieldKind::Unk16.size(), 2);
    assert_eq!(FieldKind::Unk32.size(), 4);
    assert_eq!(FieldKind::Unk64.size(), 8);
    assert_eq!(FieldKind::StrPtr.size(), 8);
}

#[test]
fn test_string_pointer_fields() {
    let field = StringPointerField::new("target".to_owned());
    assert_eq!(field.name(), Some("target".to_owned()));
    assert_eq!(field.size(), 8);
    assert_eq!(field.kind(), FieldKind::StrPtr);

    let field = WideStringPointerField::new("wide".to_owned());
    assert_eq!(field.name(), Some("wide".to_owned()));
    assert_eq!(field.size(), 8);
    assert_eq!(field.kind(), FieldKind::StrPtr);
}

#[test]
fn test_tool_bar_responses() {
    let grow = ToolBarResponse::Add(8);
    match grow {
        ToolBarResponse::Add(n) => assert_eq!(n, 8),
        _ => panic!("wrong response"),
    }
    assert_eq!(
        ToolBarResponse::ChangeKind(FieldKind::Unk32),
        ToolBarResponse::ChangeKind(FieldKind::Unk32)
    );
    assert_ne!(ToolBarResponse::ProcessAttach(1), ToolBarResponse::ProcessAttach(2));
    assert_eq!(ToolBarResponse::ProcessDetach, ToolBarResponse::ProcessDetach);
    assert_ne!(ToolBarResponse::Remove(1), ToolBarResponse::Insert(1));
}
