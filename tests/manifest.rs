use artifetch::provider::github::client::{
    Error, Manifest, ManifestEntry, MISSING_DELIMITER, TOO_MANY_FIELDS,
};

#[test]
fn two_fields_parse() {
    let e = ManifestEntry::from_str("t  a").ok().expect("entry");
    assert_eq!(e.target, "t");
    assert_eq!(e.asset, "a");
}

#[test]
fn entry_round_trips_through_its_line() {
    let e = ManifestEntry::from_str("darwin-x86_64\tnames.zip").ok().expect("entry");
    let line = e.to_line();
    assert_eq!(line, "darwin-x86_64  names.zip");
    let back = ManifestEntry::from_str(&line).ok().expect("entry");
    assert_eq!(back.target, e.target);
    assert_eq!(back.asset, e.asset);
}

#[test]
fn one_field_is_rejected() {
    let err = ManifestEntry::from_str("t").err().expect("error");
    assert_eq!(err.0, MISSING_DELIMITER);
}

#[test]
fn three_fields_are_rejected() {
    let err = ManifestEntry::from_str("t a b").err().expect("error");
    assert_eq!(err.0, TOO_MANY_FIELDS);
}

#[test]
fn empty_input_has_no_entries() {
    let m = Manifest::from_bytes("names".to_string(), b"").ok().expect("manifest");
    assert_eq!(m.name, "names");
    assert!(m.entries.is_empty());
}

#[test]
fn manifest_lines_become_entries() {
    let input = b"darwin-x86_64  names_0.11.0_darwin_x86_64.zip\r\n\n  \nlinux-x86_64 names_linux.tar.gz";
    let m = Manifest::from_bytes("names".to_string(), input).ok().expect("manifest");
    assert_eq!(m.entries.len(), 2);
    assert_eq!(m.entries[0].target, "darwin-x86_64");
    assert_eq!(m.entries[0].asset, "names_0.11.0_darwin_x86_64.zip");
    assert_eq!(m.entries[1].target, "linux-x86_64");
    assert_eq!(m.entries[1].asset, "names_linux.tar.gz");
}

#[test]
fn first_bad_line_decides_the_error() {
    match Manifest::from_bytes("n".to_string(), b"a b\nc d e\nf\n") {
        Err(Error::Manifest(e)) => assert_eq!(e.0, TOO_MANY_FIELDS),
        _ => panic!("expected a manifest error"),
    }
}

#[test]
fn invalid_utf8_is_rejected() {
    assert!(matches!(
        Manifest::from_bytes("n".to_string(), &[0x61, 0x20, 0xff, 0x62]),
        Err(Error::Utf8(_))
    ));
}

#[test]
fn non_ascii_text_is_decoded() {
    let m = Manifest::from_bytes("n".to_string(), "zi\u{e9}l  caf\u{e9}.zip\n".as_bytes())
        .ok()
        .expect("manifest");
    assert_eq!(m.entries[0].target, "zi\u{e9}l");
    assert_eq!(m.entries[0].asset, "caf\u{e9}.zip");
}
