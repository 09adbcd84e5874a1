use flashlight::fields::ExecutionEvent;
use flashlight::record::{next_record, CursorStep};
use flashlight::scan::{scan_chunk, ChunkOutcome, EventCollector, EVENT_CAP, PROVIDER_NAME};

const NOW: u32 = 1_000_000;

fn wide_nul(s: &str) -> Vec<u8> {
    let mut v = Vec::new();
    for u in s.encode_utf16() {
        v.extend_from_slice(&u.to_le_bytes());
    }
    v.extend_from_slice(&0u16.to_le_bytes());
    v
}

fn record(timestamp: u32, provider: &str, strings: &[&str]) -> Vec<u8> {
    let prov = wide_nul(provider);
    let mut table = Vec::new();
    for s in strings {
        table.extend_from_slice(&wide_nul(s));
    }
    let string_offset = (56 + prov.len()) as u32;
    let length = (56 + prov.len() + table.len()) as u32;
    let mut rec = vec![0u8; 56];
    rec[0..4].copy_from_slice(&length.to_le_bytes());
    rec[12..16].copy_from_slice(&timestamp.to_le_bytes());
    rec[26..28].copy_from_slice(&(strings.len() as u16).to_le_bytes());
    rec[36..40].copy_from_slice(&string_offset.to_le_bytes());
    rec.extend_from_slice(&prov);
    rec.extend_from_slice(&table);
    rec
}

fn qualifying(timestamp: u32, image: &str, cmdline: &str, ppid: &str) -> Vec<u8> {
    record(
        timestamp,
        PROVIDER_NAME,
        &["sub", "DOM", "acct", "x", "y", image, "z", cmdline, ppid],
    )
}

fn scan(chunk: &Vec<u8>) -> (Vec<ExecutionEvent>, ChunkOutcome) {
    let mut col = EventCollector::new();
    let out = scan_chunk(chunk, NOW, &mut col);
    (col.events, out)
}

#[test]
fn offsets_strictly_increase() {
    let mut chunk = qualifying(NOW, "C:\\a\\b.exe", "abc", "42");
    chunk.extend_from_slice(&qualifying(NOW, "C:\\c\\d.exe", "def", "43"));
    let mut offset = 0usize;
    let mut seen = 0;
    loop {
        match next_record(&chunk, offset) {
            CursorStep::Record(h, next) => {
                assert!(next > offset);
                assert_eq!(next - offset, h.length as usize);
                assert_eq!(h.provider, PROVIDER_NAME);
                offset = next;
                seen += 1;
            }
            CursorStep::EndOfChunk => break,
            CursorStep::Malformed => panic!("unexpected malformed record"),
        }
    }
    assert_eq!(seen, 2);
}

#[test]
fn zero_length_record_is_malformed_and_halts() {
    let mut chunk = qualifying(NOW, "C:\\a\\b.exe", "abc", "42");
    chunk[0..4].copy_from_slice(&0u32.to_le_bytes());
    assert!(matches!(next_record(&chunk, 0), CursorStep::Malformed));
    let (events, out) = scan(&chunk);
    assert_eq!(events.len(), 0);
    assert_eq!(out, ChunkOutcome::Halt);
}

#[test]
fn truncated_header_is_malformed() {
    let chunk: Vec<u8> = vec![7u8; 10];
    assert!(matches!(next_record(&chunk, 0), CursorStep::Malformed));
    let (events, out) = scan(&chunk);
    assert_eq!(events.len(), 0);
    assert_eq!(out, ChunkOutcome::Halt);
}

#[test]
fn stop_not_skip_window_policy() {
    let mut chunk = qualifying(NOW, "C:\\a\\t0.exe", "abc", "1");
    chunk.extend_from_slice(&qualifying(NOW - 30, "C:\\a\\t1.exe", "abc", "2"));
    chunk.extend_from_slice(&qualifying(NOW - 90, "C:\\a\\t2.exe", "abc", "3"));
    let (events, out) = scan(&chunk);
    assert_eq!(events.len(), 2);
    assert_eq!(events[0].image_path, "C:\\a\\t0.exe");
    assert_eq!(events[1].image_path, "C:\\a\\t1.exe");
    assert_eq!(out, ChunkOutcome::Halt);
}

#[test]
fn stop_even_when_later_record_is_in_window() {
    let mut chunk = qualifying(NOW, "C:\\a\\t0.exe", "abc", "1");
    chunk.extend_from_slice(&qualifying(NOW - 90, "C:\\a\\t1.exe", "abc", "2"));
    chunk.extend_from_slice(&qualifying(NOW - 30, "C:\\a\\t2.exe", "abc", "3"));
    let (events, out) = scan(&chunk);
    assert_eq!(events.len(), 1);
    assert_eq!(events[0].image_path, "C:\\a\\t0.exe");
    assert_eq!(out, ChunkOutcome::Halt);
}

#[test]
fn window_boundary_is_inclusive_at_sixty_seconds() {
    let chunk = qualifying(NOW - 60, "C:\\a\\edge.exe", "abc", "1");
    let (events, out) = scan(&chunk);
    assert_eq!(events.len(), 1);
    assert_eq!(out, ChunkOutcome::Continue);
    let chunk = qualifying(NOW - 61, "C:\\a\\old.exe", "abc", "1");
    let (events, out) = scan(&chunk);
    assert_eq!(events.len(), 0);
    assert_eq!(out, ChunkOutcome::Halt);
}

#[test]
fn future_dated_record_halts() {
    let chunk = qualifying(NOW + 10, "C:\\a\\b.exe", "abc", "1");
    let (events, out) = scan(&chunk);
    assert_eq!(events.len(), 0);
    assert_eq!(out, ChunkOutcome::Halt);
}

#[test]
fn accepted_image_path_is_collected() {
    let chunk = qualifying(NOW, "C:\\Windows\\System32\\cmd.exe", "cmd /c dir", "512");
    let (events, out) = scan(&chunk);
    assert_eq!(events.len(), 1);
    let e = &events[0];
    assert_eq!(e.image_path, "C:\\Windows\\System32\\cmd.exe");
    assert_eq!(e.command_line.as_deref(), Some("cmd /c dir"));
    assert_eq!(e.parent_pid, Some(512));
    assert_eq!(e.user.as_deref(), Some("DOM\\acct"));
    assert_eq!(e.timestamp_secs, NOW);
    assert_eq!(out, ChunkOutcome::Continue);
}

#[test]
fn rejected_image_path_drops_whole_event() {
    let chunk = qualifying(NOW, "rundll32", "abc", "1");
    let (events, out) = scan(&chunk);
    assert_eq!(events.len(), 0);
    assert_eq!(out, ChunkOutcome::Continue);
}

#[test]
fn foreign_provider_is_skipped_not_halted() {
    let mut chunk = record(
        NOW,
        "Some-Other-Provider",
        &["sub", "DOM", "acct", "x", "y", "C:\\a\\skip.exe", "z", "abc", "1"],
    );
    chunk.extend_from_slice(&qualifying(NOW - 5, "C:\\a\\keep.exe", "abc", "2"));
    let (events, out) = scan(&chunk);
    assert_eq!(events.len(), 1);
    assert_eq!(events[0].image_path, "C:\\a\\keep.exe");
    assert_eq!(out, ChunkOutcome::Continue);
}

#[test]
fn unterminated_string_table_halts() {
    let mut rec = qualifying(NOW, "C:\\a\\b.exe", "abc", "1");
    let length = rec.len() as u32;
    // Point the string table at the last byte of the record: no terminator
    // can lie inside the record's extent.
    rec[36..40].copy_from_slice(&(length - 1).to_le_bytes());
    let (events, out) = scan(&rec);
    assert_eq!(events.len(), 0);
    assert_eq!(out, ChunkOutcome::Halt);
}

#[test]
fn cap_enforcement_collects_ten_most_recent_of_fifteen() {
    let mut chunk = Vec::new();
    for i in 0..15u32 {
        chunk.extend_from_slice(&qualifying(NOW - i, "C:\\a\\b.exe", "abc", "1"));
    }
    let (events, out) = scan(&chunk);
    assert_eq!(events.len(), EVENT_CAP);
    assert_eq!(events.len(), 10);
    for (i, e) in events.iter().enumerate() {
        assert_eq!(e.timestamp_secs, NOW - i as u32);
    }
    assert_eq!(out, ChunkOutcome::Halt);
}

#[test]
fn collector_carries_across_chunks() {
    let first = qualifying(NOW, "C:\\a\\b.exe", "abc", "1");
    let second = qualifying(NOW - 1, "C:\\c\\d.exe", "def", "2");
    let mut col = EventCollector::new();
    assert_eq!(scan_chunk(&first, NOW, &mut col), ChunkOutcome::Continue);
    assert_eq!(scan_chunk(&second, NOW, &mut col), ChunkOutcome::Continue);
    assert_eq!(col.events.len(), 2);
    assert_eq!(col.events[1].image_path, "C:\\c\\d.exe");
}

#[test]
fn decoding_same_bytes_twice_is_byte_identical() {
    let mut chunk = qualifying(NOW, "C:\\Windows\\System32\\cmd.exe", "cmd /c dir", "512");
    chunk.extend_from_slice(&qualifying(NOW - 3, "C:\\x\\y.exe", "%%123", "nope"));
    let (events_a, out_a) = scan(&chunk);
    let (events_b, out_b) = scan(&chunk);
    assert_eq!(events_a, events_b);
    assert_eq!(out_a, out_b);
}

#[test]
fn non_ascii_command_line_survives_decoding() {
    let chunk = qualifying(NOW, "C:\\a\\b.exe", "caf\u{e9} latte", "1");
    let (events, _) = scan(&chunk);
    assert_eq!(events.len(), 1);
    assert_eq!(events[0].command_line.as_deref(), Some("caf\u{e9} latte"));
}

#[test]
fn header_fields_decode_exactly() {
    let chunk = qualifying(123_456, "C:\\a\\b.exe", "abc", "7");
    match next_record(&chunk, 0) {
        CursorStep::Record(h, next) => {
            assert_eq!(h.length as usize, chunk.len());
            assert_eq!(h.timestamp, 123_456);
            assert_eq!(h.num_strings, 9);
            assert_eq!(h.provider, PROVIDER_NAME);
            assert_eq!(next, chunk.len());
        }
        _ => panic!("expected a record"),
    }
    assert!(matches!(next_record(&chunk, chunk.len()), CursorStep::EndOfChunk));
}
