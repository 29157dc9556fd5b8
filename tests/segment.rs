use smtp_proxy::segment::{credential_note, inspect, Note};
use smtp_proxy::traffic::info;

fn traffic_of(n: &Note) -> Vec<u8> {
    match n {
        Note::Traffic(v) => v.clone(),
        _ => panic!("not a traffic note"),
    }
}

#[test]
fn info_escapes_line_breaks() {
    assert_eq!(info("Client->Remote:", b"EHLO test\r\n"), b"Client->Remote: EHLO test<CR><LF>".to_vec());
}

#[test]
fn info_lists_binary_bytes() {
    assert_eq!(info("Remote->Client:", &[255, 1, 200, 10, 0]), b"Remote->Client: [255, 1, 200, 10, 0]".to_vec());
}

#[test]
fn info_of_empty_segment() {
    assert_eq!(info("x", b""), b"x ".to_vec());
}

#[test]
fn plain_segment_passes_unchanged() {
    let seg = inspect(b"C:", b"EHLO test\r\n".to_vec());
    assert_eq!(seg.data, b"EHLO test\r\n".to_vec());
    assert_eq!(seg.notes.len(), 1);
    assert_eq!(traffic_of(&seg.notes[0]), b"C: EHLO test<CR><LF>".to_vec());
}

#[test]
fn starttls_is_replaced() {
    let seg = inspect(b"S:", b"250 STARTTLS\r\n".to_vec());
    assert_eq!(seg.data, b"250 AUTH PLAIN\r\n".to_vec());
    assert_eq!(seg.notes.len(), 3);
    assert_eq!(traffic_of(&seg.notes[0]), b"S: 250 STARTTLS<CR><LF>".to_vec());
    assert!(matches!(seg.notes[1], Note::StartTlsStripped));
    assert_eq!(traffic_of(&seg.notes[2]), b"S: 250 AUTH PLAIN<CR><LF>".to_vec());
}

#[test]
fn starttls_keeps_surrounding_bytes() {
    let seg = inspect(b"S:", b"250-mx.example\r\n250 STARTTLS\r\n250 SIZE\r\n".to_vec());
    assert_eq!(seg.data, b"250-mx.example\r\n250 AUTH PLAIN\r\n250 SIZE\r\n".to_vec());
}

#[test]
fn only_first_starttls_is_replaced() {
    let seg = inspect(b"S:", b"250 STARTTLS\r\n250 STARTTLS\r\n".to_vec());
    assert_eq!(seg.data, b"250 AUTH PLAIN\r\n250 STARTTLS\r\n".to_vec());
}

#[test]
fn starttls_without_line_end_is_kept() {
    let seg = inspect(b"S:", b"250 STARTTLS".to_vec());
    assert_eq!(seg.data, b"250 STARTTLS".to_vec());
    assert_eq!(seg.notes.len(), 1);
}

#[test]
fn binary_segment_is_not_inspected() {
    let mut input = b"250 STARTTLS\r\n".to_vec();
    input.push(0xc3);
    let seg = inspect(b"S:", input.clone());
    assert_eq!(seg.data, input);
    assert_eq!(seg.notes.len(), 1);
    assert_eq!(
        traffic_of(&seg.notes[0]),
        b"S: [50, 53, 48, 32, 83, 84, 65, 82, 84, 84, 76, 83, 13, 10, 195]".to_vec()
    );
}

#[test]
fn auth_plain_credentials_are_decoded() {
    let input = b"AUTH PLAIN AHVzZXIAcGFzcw==\r\n".to_vec();
    let seg = inspect(b"C:", input.clone());
    assert_eq!(seg.data, input);
    assert_eq!(seg.notes.len(), 3);
    match &seg.notes[0] {
        Note::EncodedCredentials(b) => assert_eq!(b, &b"AHVzZXIAcGFzcw==".to_vec()),
        _ => panic!("expected the encoded credentials"),
    }
    match &seg.notes[1] {
        Note::Credentials(t) => assert_eq!(t.as_str(), "\0user\0pass"),
        _ => panic!("expected decoded credentials"),
    }
    assert_eq!(traffic_of(&seg.notes[2]), b"C: AUTH PLAIN AHVzZXIAcGFzcw==<CR><LF>".to_vec());
}

#[test]
fn auth_plain_invalid_base64_is_forwarded() {
    let input = b"AUTH PLAIN !!not-base64!!\r\n".to_vec();
    let seg = inspect(b"C:", input.clone());
    assert_eq!(seg.data, input);
    assert_eq!(seg.notes.len(), 3);
    assert!(matches!(seg.notes[1], Note::NotBase64));
}

#[test]
fn auth_plain_not_utf8_is_forwarded() {
    let input = b"AUTH PLAIN //4=\r\n".to_vec();
    let seg = inspect(b"C:", input.clone());
    assert_eq!(seg.data, input);
    assert!(matches!(seg.notes[1], Note::NotUtf8));
}

#[test]
fn auth_plain_without_payload_is_not_captured() {
    let seg = inspect(b"C:", b"AUTH PLAIN\r\n".to_vec());
    assert_eq!(seg.data, b"AUTH PLAIN\r\n".to_vec());
    assert_eq!(seg.notes.len(), 1);
}

#[test]
fn credential_note_cases() {
    assert!(matches!(credential_note(None), Note::NotBase64));
    assert!(matches!(credential_note(Some(vec![0xff, 0xfe])), Note::NotUtf8));
    match credential_note(Some(b"a\0b".to_vec())) {
        Note::Credentials(t) => assert_eq!(t.as_str(), "a\0b"),
        _ => panic!("expected text"),
    }
}
