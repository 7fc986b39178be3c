use listeners::error::BackendError;
use listeners::process_list::{decode_name, pname, ProcessEntry};

fn field(name: &[u8]) -> Vec<u8> {
    let mut bytes = name.to_vec();
    bytes.resize(260, 0);
    bytes
}

fn entry(pid: u32, name: &str) -> ProcessEntry {
    ProcessEntry { pid, exe_file: field(name.as_bytes()) }
}

#[test]
fn name_ends_at_the_first_nul() {
    assert_eq!(decode_name(b"svchost.exe\0garbage\0"), Some("svchost.exe".to_string()));
    assert_eq!(decode_name(&field(b"nginx")), Some("nginx".to_string()));
}

#[test]
fn name_field_that_starts_with_nul_is_the_empty_name() {
    assert_eq!(decode_name(&[0, b'a', b'b']), Some(String::new()));
}

#[test]
fn name_field_without_nul_cannot_be_read() {
    assert_eq!(decode_name(b"abc"), None);
    assert_eq!(decode_name(&[]), None);
}

#[test]
fn name_is_read_as_utf8() {
    assert_eq!(decode_name(&[0xc3, 0xa9, b't', 0xc3, 0xa9, 0]), Some("\u{e9}t\u{e9}".to_string()));
    assert_eq!(decode_name(&[0xe2, 0x82, 0xac, 0]), Some("\u{20ac}".to_string()));
}

#[test]
fn name_with_invalid_utf8_cannot_be_read() {
    assert_eq!(decode_name(&[b'a', 0xff, 0]), None);
    assert_eq!(decode_name(&[0xc3, 0]), None);
}

#[test]
fn invalid_bytes_after_the_nul_do_not_matter() {
    assert_eq!(decode_name(&[b'o', b'k', 0, 0xff, 0xfe]), Some("ok".to_string()));
}

#[test]
fn pname_finds_the_process_by_its_id() {
    let entries = vec![entry(0, "[System Process]"), entry(4, "System"), entry(812, "mysqld.exe")];
    assert_eq!(pname(812, &entries), Ok(Some("mysqld.exe".to_string())));
    assert_eq!(pname(4, &entries), Ok(Some("System".to_string())));
}

#[test]
fn pname_looks_at_the_first_record_too() {
    let entries = vec![entry(7, "first"), entry(8, "second")];
    assert_eq!(pname(7, &entries), Ok(Some("first".to_string())));
}

#[test]
fn pname_takes_the_first_of_two_records_with_one_id() {
    let entries = vec![entry(1, "a"), entry(2, "early"), entry(2, "late")];
    assert_eq!(pname(2, &entries), Ok(Some("early".to_string())));
}

#[test]
fn pname_of_a_process_that_is_not_there_is_none() {
    let entries = vec![entry(1, "a"), entry(2, "b")];
    assert_eq!(pname(3, &entries), Ok(None));
    assert_eq!(pname(3, &vec![]), Ok(None));
}

#[test]
fn pname_fails_on_a_name_that_cannot_be_read() {
    let entries = vec![
        entry(1, "a"),
        ProcessEntry { pid: 2, exe_file: vec![0xff, 0xff, 0] },
        ProcessEntry { pid: 3, exe_file: vec![b'x'; 260] },
    ];
    assert_eq!(pname(2, &entries), Err(BackendError::DecodeFailed));
    assert_eq!(pname(3, &entries), Err(BackendError::DecodeFailed));
    assert_eq!(pname(1, &entries), Ok(Some("a".to_string())));
    assert_eq!(pname(4, &entries), Ok(None));
}
