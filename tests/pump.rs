use smtp_proxy::pump::{Pump, CHUNK_SIZE};
use smtp_proxy::segment::Note;

#[test]
fn short_read_closes_a_segment() {
    let mut p = Pump::new("Client->Remote:");
    let step = p.on_read(b"EHLO test\r\n");
    assert!(!step.done);
    let seg = step.segment.expect("a segment");
    assert_eq!(seg.data, b"EHLO test\r\n".to_vec());
    match &seg.notes[0] {
        Note::Traffic(v) => assert_eq!(v, &b"Client->Remote: EHLO test<CR><LF>".to_vec()),
        _ => panic!("expected a traffic note"),
    }
}

#[test]
fn full_chunk_is_kept_until_a_short_read() {
    let mut p = Pump::new("S:");
    let mut big = vec![b'a'; CHUNK_SIZE - 14];
    big.extend_from_slice(b"250 STARTTLS\r\n");
    assert_eq!(big.len(), CHUNK_SIZE);
    let step = p.on_read(&big);
    assert!(step.segment.is_none());
    assert!(!step.done);
    let step = p.on_read(b"x");
    let seg = step.segment.expect("a segment");
    let mut expected = vec![b'a'; CHUNK_SIZE - 14];
    expected.extend_from_slice(b"250 AUTH PLAIN\r\nx");
    assert_eq!(seg.data, expected);
}

#[test]
fn empty_read_flushes_and_ends() {
    let mut p = Pump::new("S:");
    let big = vec![b'z'; CHUNK_SIZE];
    assert!(p.on_read(&big).segment.is_none());
    let step = p.on_read(b"");
    assert!(step.done);
    assert_eq!(step.segment.expect("the pending bytes").data, big);
    let step = p.on_read(b"");
    assert!(step.done);
    assert!(step.segment.is_none());
}

#[test]
fn empty_read_on_fresh_pump_ends_without_segment() {
    let mut p = Pump::new("C:");
    let step = p.on_read(b"");
    assert!(step.done);
    assert!(step.segment.is_none());
}

#[test]
fn bytes_pass_in_order_without_pattern() {
    let mut p = Pump::new("C:");
    let mut out = Vec::new();
    let input: Vec<u8> = (0..3000u32).map(|i| (i % 251) as u8).collect();
    for chunk in [&input[0..1024], &input[1024..2048], &input[2048..2500], &input[2500..3000]] {
        if let Some(seg) = p.on_read(chunk).segment {
            out.extend_from_slice(&seg.data);
        }
    }
    let step = p.on_read(b"");
    assert!(step.segment.is_none());
    assert_eq!(out, input);
}

#[test]
fn relay_scenario() {
    let mut client = Pump::new("Client->Remote:");
    let mut server = Pump::new("Remote->Client:");
    let seg = client.on_read(b"EHLO test\r\n").segment.expect("client segment");
    assert_eq!(seg.data, b"EHLO test\r\n".to_vec());
    let seg = server.on_read(b"250 STARTTLS\r\n").segment.expect("server segment");
    assert_eq!(seg.data, b"250 AUTH PLAIN\r\n".to_vec());
    let seg = client.on_read(b"AUTH PLAIN AHVzZXIAcGFzcw==\r\n").segment.expect("auth segment");
    assert_eq!(seg.data, b"AUTH PLAIN AHVzZXIAcGFzcw==\r\n".to_vec());
    assert!(seg.notes.iter().any(|n| matches!(n, Note::Credentials(t) if t == "\0user\0pass")));
    let step = client.on_read(b"");
    assert!(step.done);
    let step = server.on_read(b"221 bye\r\n");
    assert!(!step.done);
}
