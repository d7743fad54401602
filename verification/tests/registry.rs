use skeg_cli::error::ErrorKind;
use skeg_cli::registry::{encode_registry, parse_entries, read_registry, RegistryError};

#[test]
fn registry_with_one_entry_roundtrips() {
    // count=1, name="docs", dim=8 -- mirrors what a build writes.
    let mut buf = Vec::new();
    buf.extend_from_slice(&1u32.to_le_bytes());
    buf.extend_from_slice(&4u16.to_le_bytes());
    buf.extend_from_slice(b"docs");
    buf.extend_from_slice(&8u32.to_le_bytes());
    let entries = read_registry(Some(&buf));
    assert_eq!(entries, vec![("docs".to_string(), 8)]);
    assert_eq!(encode_registry("docs", 8).unwrap(), buf);
}

#[test]
fn written_registry_is_read_back() {
    let file = encode_registry("d\u{e9}j\u{e0}", 1024).unwrap();
    assert_eq!(read_registry(Some(&file)), vec![("d\u{e9}j\u{e0}".to_string(), 1024)]);
}

#[test]
fn missing_and_truncated_registries_are_empty() {
    assert!(read_registry(None).is_empty());
    let mut file = Vec::new();
    file.extend_from_slice(&2u32.to_le_bytes());
    for (name, dim) in [("a", 3u32), ("bc", 4)] {
        file.extend_from_slice(&u16::try_from(name.len()).unwrap().to_le_bytes());
        file.extend_from_slice(name.as_bytes());
        file.extend_from_slice(&dim.to_le_bytes());
    }
    assert_eq!(
        read_registry(Some(&file)),
        vec![("a".to_string(), 3), ("bc".to_string(), 4)]
    );
    for k in 0..file.len() {
        assert!(read_registry(Some(&file[..k])).is_empty());
        assert!(parse_entries(&file[..k]).is_none());
    }
}

#[test]
fn names_that_are_not_utf8_are_repaired() {
    let mut file = Vec::new();
    file.extend_from_slice(&1u32.to_le_bytes());
    file.extend_from_slice(&2u16.to_le_bytes());
    file.extend_from_slice(&[b'x', 0xff]);
    file.extend_from_slice(&1u32.to_le_bytes());
    assert_eq!(read_registry(Some(&file)), vec![("x\u{fffd}".to_string(), 1)]);
    assert_eq!(parse_entries(&file), Some(vec![(vec![b'x', 0xff], 1)]));
}

#[test]
fn what_cannot_be_registered() {
    let long = "n".repeat(65_536);
    let e = encode_registry(&long, 1).unwrap_err();
    assert_eq!(e, RegistryError::NameTooLong);
    assert_eq!(e.message(), "index name too long");
    assert_eq!(e.kind(), ErrorKind::InvalidInput);
    assert!(encode_registry(&long[1..], 1).is_ok());
    let e = encode_registry("n", 4_294_967_296).unwrap_err();
    assert_eq!(e, RegistryError::DimTooLarge);
    assert_eq!(e.message(), "dim too large");
}
