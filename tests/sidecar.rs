use sidecar_port::lines::LineBuffer;
use sidecar_port::marker::{parse_port_bytes, parse_port_line};
use sidecar_port::port::port_from_digits;
use sidecar_port::port_file::{port_from_file_content, port_from_file_read, port_from_text, PortFileError};
use sidecar_port::registry::{PortRegistry, SlotWrite};
use sidecar_port::supervisor::{Step, Supervisor};
use std::sync::Arc;

#[test]
fn every_valid_port_line_parses() {
    for p in 1u32..=65535 {
        let line = format!("SIDECAR_PORT:{}", p);
        assert_eq!(parse_port_line(&line), Some(p as u16));
    }
}

#[test]
fn port_zero_and_out_of_range_lines_give_nothing() {
    assert_eq!(parse_port_line("SIDECAR_PORT:0"), None);
    assert_eq!(parse_port_line("SIDECAR_PORT:65536"), None);
    assert_eq!(parse_port_line("SIDECAR_PORT:99999"), None);
    assert_eq!(parse_port_line("SIDECAR_PORT:123456789012345678901234567890"), None);
}

#[test]
fn marker_inside_surrounding_text() {
    assert_eq!(parse_port_line("[INFO] SIDECAR_PORT:4321 listening"), Some(4321));
    assert_eq!(parse_port_line("SIDECAR_PORT:8080\n"), Some(8080));
    assert_eq!(parse_port_line("SIDECAR_PORT:00080"), Some(80));
}

#[test]
fn only_first_marker_with_digits_counts() {
    assert_eq!(parse_port_line("SIDECAR_PORT:99999 SIDECAR_PORT:80"), None);
    assert_eq!(parse_port_line("SIDECAR_PORT:x then SIDECAR_PORT:81"), Some(81));
    assert_eq!(parse_port_line("SIDECAR_PORT:1 SIDECAR_PORT:2"), Some(1));
}

#[test]
fn lines_without_marker_give_nothing() {
    assert_eq!(parse_port_line(""), None);
    assert_eq!(parse_port_line("server starting"), None);
    assert_eq!(parse_port_line("SIDECAR_PORT:"), None);
    assert_eq!(parse_port_line("SIDECAR_PORT 4321"), None);
    assert_eq!(parse_port_line("sidecar_port:4321"), None);
    assert_eq!(parse_port_bytes(&[0xff, 0xfe, b'x']), None);
}

#[test]
fn non_utf8_bytes_around_marker() {
    let mut line = vec![0xffu8, 0xc3];
    line.extend_from_slice(b"SIDECAR_PORT:3000");
    line.push(0x80);
    assert_eq!(parse_port_bytes(&line), Some(3000));
}

#[test]
fn digits_to_port() {
    assert_eq!(port_from_digits(b"1"), Some(1));
    assert_eq!(port_from_digits(b"65535"), Some(65535));
    assert_eq!(port_from_digits(b"65536"), None);
    assert_eq!(port_from_digits(b"0"), None);
    assert_eq!(port_from_digits(b""), None);
    assert_eq!(port_from_digits(b"12a"), None);
}

#[test]
fn unmarked_line_changes_no_state() {
    let registry = PortRegistry::new();
    let mut sup = Supervisor::new();
    let step = sup.on_line(b"SIDECAR_PORT:4000");
    registry.apply(step.write);
    let step = sup.on_line(b"just a log line");
    assert_eq!(step, Step { write: SlotWrite::Keep, publish: None });
    registry.apply(step.write);
    assert_eq!(sup.current_port(), Some(4000));
    assert_eq!(registry.get(), Some(4000));
}

#[test]
fn registry_set_get_clear() {
    let registry = PortRegistry::new();
    assert_eq!(registry.get(), None);
    registry.set(4321);
    assert_eq!(registry.get(), Some(4321));
    registry.clear();
    assert_eq!(registry.get(), None);
    registry.apply(SlotWrite::Store(7));
    registry.apply(SlotWrite::Keep);
    assert_eq!(registry.get(), Some(7));
    registry.apply(SlotWrite::Clear);
    assert_eq!(registry.get(), None);
}

#[test]
fn registry_readers_see_whole_values() {
    let registry = Arc::new(PortRegistry::new());
    let readers: Vec<Arc<PortRegistry>> = (0..8).map(|_| Arc::clone(&registry)).collect();
    for round in 0..5000u32 {
        if round % 2 == 0 {
            registry.set(4321);
        } else {
            registry.clear();
        }
        for r in &readers {
            let v = r.get();
            assert!(v == None || v == Some(4321));
            assert_eq!(v, if round % 2 == 0 { Some(4321) } else { None });
        }
    }
}

#[test]
fn generation_lifecycle() {
    let registry = PortRegistry::new();
    let mut sup = Supervisor::new();
    let mut buf = LineBuffer::new();
    registry.apply(sup.on_spawn().write);
    assert_eq!(registry.get(), None);
    for line in buf.push(b"booting\n") {
        registry.apply(sup.on_line(&line).write);
    }
    assert_eq!(registry.get(), None);
    let mut published = Vec::new();
    for line in buf.push(b"SIDECAR_PORT:5555\n") {
        let step = sup.on_line(&line);
        registry.apply(step.write);
        if let Some(p) = step.publish {
            published.push(p);
        }
    }
    assert_eq!(registry.get(), Some(5555));
    assert_eq!(published, vec![5555]);
    assert_eq!(buf.finish(), None);
    let step = sup.on_exit();
    assert_eq!(step, Step { write: SlotWrite::Clear, publish: None });
    registry.apply(step.write);
    assert_eq!(registry.get(), None);
    assert_eq!(sup.current_port(), None);
}

#[test]
fn file_content_with_newline() {
    assert_eq!(port_from_file_content("6000\n"), Ok(6000));
    assert_eq!(port_from_file_read(Ok("6000\n")), Ok(6000));
}

#[test]
fn file_content_not_a_number() {
    assert_eq!(port_from_file_content("abc"), Err(PortFileError::InvalidFormat));
    assert_eq!(port_from_file_content(""), Err(PortFileError::InvalidFormat));
    assert_eq!(port_from_file_content("0"), Err(PortFileError::InvalidFormat));
    assert_eq!(port_from_file_content("65536"), Err(PortFileError::InvalidFormat));
    assert_eq!(port_from_file_content("-80"), Err(PortFileError::InvalidFormat));
    assert_eq!(port_from_file_content("+"), Err(PortFileError::InvalidFormat));
    assert_eq!(port_from_file_content("60 00"), Err(PortFileError::InvalidFormat));
}

#[test]
fn file_absent_or_unreadable() {
    assert_eq!(port_from_file_read(Err(PortFileError::NotFound)), Err(PortFileError::NotFound));
    assert_eq!(port_from_file_read(Err(PortFileError::Unreadable)), Err(PortFileError::Unreadable));
}

#[test]
fn file_content_trimmed_and_signed() {
    assert_eq!(port_from_file_content("  42 \r\n"), Ok(42));
    assert_eq!(port_from_file_content("\u{3000}77\u{a0}"), Ok(77));
    assert_eq!(port_from_file_content("+80"), Ok(80));
    assert_eq!(port_from_text(b"+443"), Some(443));
    assert_eq!(port_from_text(b" 443"), None);
}

#[test]
fn repeated_marker_announces_once() {
    let mut sup = Supervisor::new();
    sup.on_spawn();
    let first = sup.on_line(b"SIDECAR_PORT:5000");
    assert_eq!(first, Step { write: SlotWrite::Store(5000), publish: Some(5000) });
    let again = sup.on_line(b"[log] SIDECAR_PORT:5000");
    assert_eq!(again, Step { write: SlotWrite::Keep, publish: None });
    let changed = sup.on_line(b"SIDECAR_PORT:5001");
    assert_eq!(changed, Step { write: SlotWrite::Store(5001), publish: Some(5001) });
    assert_eq!(sup.current_port(), Some(5001));
}

#[test]
fn new_generation_announces_again() {
    let mut sup = Supervisor::new();
    sup.on_spawn();
    assert_eq!(sup.on_line(b"SIDECAR_PORT:5000").publish, Some(5000));
    sup.on_exit();
    assert_eq!(sup.on_spawn(), Step { write: SlotWrite::Clear, publish: None });
    assert_eq!(sup.on_line(b"SIDECAR_PORT:5000").publish, Some(5000));
}

#[test]
fn line_buffer_joins_pieces() {
    let mut buf = LineBuffer::new();
    assert!(buf.push(b"SIDE").is_empty());
    assert!(buf.push(b"CAR_PORT:12").is_empty());
    let lines = buf.push(b"34\nnext\n\ntail");
    assert_eq!(lines, vec![b"SIDECAR_PORT:1234".to_vec(), b"next".to_vec(), Vec::new()]);
    assert_eq!(parse_port_bytes(&lines[0]), Some(1234));
    assert_eq!(buf.finish(), Some(b"tail".to_vec()));
    assert_eq!(buf.finish(), None);
}
