use file_range::ByteWindow;
use file_range::stream::{collect_chunks, StreamCursor, MAX_CHUNK};

fn sample(len: usize) -> Vec<u8> {
    let mut v = Vec::with_capacity(len);
    let mut i: usize = 0;
    while i < len {
        v.push((i % 251) as u8);
        i += 1;
    }
    v
}

fn concat(chunks: &Vec<Vec<u8>>) -> Vec<u8> {
    let mut out = Vec::new();
    for c in chunks {
        out.extend_from_slice(c);
    }
    out
}

#[test]
fn windowed_stream_yields_exactly_the_slice() {
    let content = sample(100);
    let w = ByteWindow { start: 10, end: 60 };
    let chunks = collect_chunks(&content, Some(w), 7);
    let body = concat(&chunks);
    assert_eq!(body.len(), 50);
    assert_eq!(body, content[10..60].to_vec());
}

#[test]
fn full_window_yields_whole_resource() {
    let content = sample(100);
    let w = ByteWindow { start: 0, end: 100 };
    let chunks = collect_chunks(&content, Some(w), MAX_CHUNK);
    assert_eq!(concat(&chunks), content);
}

#[test]
fn unbounded_stream_yields_whole_resource() {
    let content = sample(1000);
    let chunks = collect_chunks(&content, None, 64);
    assert_eq!(concat(&chunks), content);
}

#[test]
fn two_full_chunks_then_empty_terminal() {
    let content = sample(MAX_CHUNK * 2);
    let chunks = collect_chunks(&content, None, MAX_CHUNK);
    assert_eq!(chunks.len(), 3);
    assert_eq!(chunks[0].len(), MAX_CHUNK);
    assert_eq!(chunks[1].len(), MAX_CHUNK);
    assert!(chunks[2].is_empty());
    assert_eq!(chunks[0], content[..MAX_CHUNK].to_vec());
    assert_eq!(chunks[1], content[MAX_CHUNK..].to_vec());
    for c in &chunks {
        assert!(c.len() <= MAX_CHUNK);
    }
}

#[test]
fn uneven_resource_ends_with_short_nonempty_chunk() {
    let content = sample(10);
    let chunks = collect_chunks(&content, None, 4);
    assert_eq!(chunks.len(), 3);
    assert_eq!(chunks[0].len(), 4);
    assert_eq!(chunks[1].len(), 4);
    assert_eq!(chunks[2].len(), 2);
}

#[test]
fn empty_resource_yields_single_empty_chunk() {
    let content = Vec::new();
    let chunks = collect_chunks(&content, None, 8);
    assert_eq!(chunks.len(), 1);
    assert!(chunks[0].is_empty());
}

#[test]
fn two_streams_over_same_resource_agree() {
    let content = sample(777);
    let w = ByteWindow { start: 5, end: 600 };
    let first = collect_chunks(&content, Some(w), 32);
    let second = collect_chunks(&content, Some(w), 32);
    assert_eq!(first, second);
    let third = collect_chunks(&content, None, 32);
    let fourth = collect_chunks(&content, None, 32);
    assert_eq!(third, fourth);
}

#[test]
fn window_past_resource_end_is_cut_short() {
    let content = sample(50);
    let w = ByteWindow { start: 40, end: 90 };
    let chunks = collect_chunks(&content, Some(w), MAX_CHUNK);
    assert_eq!(concat(&chunks), content[40..50].to_vec());
}

#[test]
fn cursor_protocol_drives_by_hand() {
    let mut cursor = StreamCursor::new(4);
    assert!(!cursor.is_exhausted());
    assert!(cursor.needs_read());
    assert_eq!(cursor.read_limit(), 4);
    cursor.accept_read(&vec![1, 2, 3]);
    assert!(cursor.needs_read());
    assert_eq!(cursor.read_limit(), 1);
    cursor.accept_read(&vec![4]);
    assert!(!cursor.needs_read());
    let chunk = cursor.take_chunk();
    assert_eq!(chunk, vec![1, 2, 3, 4]);
    assert!(!cursor.is_exhausted());
    assert!(cursor.needs_read());
    cursor.accept_read(&Vec::new());
    assert!(!cursor.needs_read());
    let last = cursor.take_chunk();
    assert!(last.is_empty());
    assert!(cursor.is_exhausted());
}

#[test]
fn aborted_cursor_yields_nothing_further() {
    let mut cursor = StreamCursor::new(4);
    cursor.accept_read(&vec![1, 2]);
    cursor.abort();
    assert!(cursor.is_exhausted());
}

#[test]
fn bounded_cursor_discards_excess_and_exhausts() {
    let w = ByteWindow { start: 0, end: 5 };
    let mut cursor = StreamCursor::with_window(8, w);
    assert!(cursor.needs_read());
    assert_eq!(cursor.read_limit(), 5);
    cursor.accept_read(&vec![9, 9, 9, 9, 9, 9, 9]);
    assert!(!cursor.needs_read());
    let chunk = cursor.take_chunk();
    assert_eq!(chunk, vec![9, 9, 9, 9, 9]);
    assert!(cursor.is_exhausted());
}
