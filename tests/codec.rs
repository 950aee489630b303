use fst::MapBuilder;
use s3_backend::body::{BodyCursor, BodyFrame, StreamState};
use s3_backend::error::{Error, IndexError};
use s3_backend::index::{decode_index, encode_index, LIBSQL_MAGIC};
use s3_backend::key::{
    s3_segment_data_key, s3_segment_index_key, s3_segment_index_lookup_key, FolderKey, SegmentKey,
};
use s3_backend::restore::{Restore, RestoreAction};
use s3_backend::segment::{frame_page_no, CompactedSegmentDataHeader, FRAME_SIZE};

fn payload() -> Vec<u8> {
    let mut builder = MapBuilder::memory();
    builder.insert(42u32.to_be_bytes(), 42).unwrap();
    builder.into_inner().unwrap()
}

#[test]
fn segment_key_text_is_exact() {
    let k = SegmentKey { start_frame_no: 0, end_frame_no: 64, segment_id: 0xab };
    assert_eq!(
        k.to_text(),
        "18446744073709551615-18446744073709551551-000000000000000000000000000000ab"
    );
}

#[test]
fn object_keys_are_exact() {
    let f = FolderKey { cluster_id: "c1", namespace: "db" };
    let k = SegmentKey { start_frame_no: 5, end_frame_no: 9, segment_id: 1 };
    let t = k.to_text();
    assert_eq!(f.to_text(), "v2/clusters/c1/namespaces/db");
    assert_eq!(s3_segment_data_key(&f, &k), format!("v2/clusters/c1/namespaces/db/segments/{t}"));
    assert_eq!(s3_segment_index_key(&f, &k), format!("v2/clusters/c1/namespaces/db/indexes/{t}"));
    assert_eq!(
        s3_segment_index_lookup_key(&f, 3),
        "v2/clusters/c1/namespaces/db/indexes/18446744073709551612"
    );
    assert_eq!(
        s3_segment_index_lookup_key(&f, u64::MAX),
        "v2/clusters/c1/namespaces/db/indexes/00000000000000000000"
    );
}

#[test]
fn index_keys_parse_back() {
    let f = FolderKey { cluster_id: "c1", namespace: "db" };
    let k = SegmentKey { start_frame_no: 5, end_frame_no: 9, segment_id: u128::MAX };
    let key = s3_segment_index_key(&f, &k);
    assert_eq!(SegmentKey::validate_from_path(&key, &f), Some(k));
    let other = FolderKey { cluster_id: "c1", namespace: "dc" };
    assert_eq!(SegmentKey::validate_from_path(&key, &other), None);
    assert_eq!(SegmentKey::validate_from_path(&s3_segment_data_key(&f, &k), &f), None);
    assert_eq!(SegmentKey::validate_from_path(&key[..key.len() - 1], &f), None);
    let bad_digit = key.replacen("-1844", "-x844", 1);
    assert_eq!(SegmentKey::validate_from_path(&bad_digit, &f), None);
    // start after end
    let swapped = format!(
        "v2/clusters/c1/namespaces/db/indexes/{}-{}-{}",
        u64::MAX - 9,
        u64::MAX - 5,
        "0".repeat(32)
    );
    assert_eq!(SegmentKey::validate_from_path(&swapped, &f), None);
    // a reversed frame number above u64::MAX
    let too_big = format!(
        "v2/clusters/c1/namespaces/db/indexes/99999999999999999999-{}-{}",
        u64::MAX - 5,
        "0".repeat(32)
    );
    assert_eq!(SegmentKey::validate_from_path(&too_big, &f), None);
}

#[test]
fn includes_is_inclusive() {
    let k = SegmentKey { start_frame_no: 64, end_frame_no: 128, segment_id: 0 };
    assert!(!k.includes(63));
    assert!(k.includes(64));
    assert!(k.includes(128));
    assert!(!k.includes(129));
}

#[test]
fn index_header_layout() {
    let p = payload();
    let obj = encode_index(&p);
    assert_eq!(obj.len(), 22 + p.len());
    assert_eq!(&obj[0..8], &LIBSQL_MAGIC.to_le_bytes());
    assert_eq!(&obj[8..10], &1u16.to_le_bytes());
    assert_eq!(&obj[10..18], &(p.len() as u64).to_le_bytes());
    assert_eq!(&obj[18..22], &crc32fast::hash(&p).to_le_bytes());
    assert_eq!(&obj[22..], &p[..]);
    let known = encode_index(b"123456789");
    assert_eq!(&known[18..22], &0xCBF4_3926u32.to_le_bytes());
}

#[test]
fn index_round_trip() {
    let p = payload();
    let m = decode_index(encode_index(&p)).unwrap();
    assert_eq!(m.as_fst().as_bytes(), &p[..]);
    assert_eq!(m.get(42u32.to_be_bytes()), Some(42));
}

#[test]
fn index_with_wrong_magic_is_refused() {
    let p = payload();
    let mut obj = encode_index(&p);
    obj[0..8].copy_from_slice(&(LIBSQL_MAGIC + 1).to_le_bytes());
    assert_eq!(decode_index(obj).unwrap_err(), Error::InvalidIndex(IndexError::BadHeader));
    let mut obj = encode_index(&p);
    obj[8] = 2;
    assert_eq!(decode_index(obj).unwrap_err(), Error::InvalidIndex(IndexError::BadHeader));
}

#[test]
fn index_with_flipped_payload_byte_is_refused() {
    let p = payload();
    let mut obj = encode_index(&p);
    obj[25] ^= 0x40;
    let e = decode_index(obj).unwrap_err();
    assert_eq!(e, Error::InvalidIndex(IndexError::BadChecksum));
    assert_eq!(IndexError::BadChecksum.message(), "invalid index data checksum");
}

#[test]
fn every_corrupted_header_byte_is_refused() {
    let p = payload();
    let obj = encode_index(&p);
    for i in 0..22 {
        let mut bad = obj.clone();
        bad[i] ^= 1;
        assert!(matches!(decode_index(bad), Err(Error::InvalidIndex(_))), "byte {i}");
    }
}

#[test]
fn index_length_and_bytes_are_checked() {
    assert_eq!(
        decode_index(vec![0; 10]).unwrap_err(),
        Error::InvalidIndex(IndexError::Truncated)
    );
    let p = payload();
    let mut obj = encode_index(&p);
    obj.push(0);
    assert_eq!(decode_index(obj).unwrap_err(), Error::InvalidIndex(IndexError::BadLength));
    let junk = encode_index(b"not a map");
    assert_eq!(decode_index(junk).unwrap_err(), Error::InvalidIndex(IndexError::BadBytes));
}

fn header(frame_count: u64, start: u64, end: u64, size_after: u32) -> Vec<u8> {
    let mut b = Vec::new();
    b.extend_from_slice(&frame_count.to_le_bytes());
    b.extend_from_slice(&7u128.to_le_bytes());
    b.extend_from_slice(&start.to_le_bytes());
    b.extend_from_slice(&end.to_le_bytes());
    b.extend_from_slice(&size_after.to_le_bytes());
    b
}

fn frame(page_no: u32, fill: u8) -> Vec<u8> {
    let mut f = vec![fill; FRAME_SIZE];
    f[0..4].copy_from_slice(&page_no.to_le_bytes());
    f
}

#[test]
fn segment_header_is_read() {
    let b = header(3, 10, 12, 2);
    let h = CompactedSegmentDataHeader::read_from_prefix(&b).unwrap();
    assert_eq!(h.frame_count, 3);
    assert_eq!(h.segment_id, 7);
    assert_eq!(h.start_frame_no, 10);
    assert_eq!(h.end_frame_no, 12);
    assert_eq!(h.size_after, 2);
    assert_eq!(CompactedSegmentDataHeader::read_from_prefix(&b[..43]), None);
    assert_eq!(frame_page_no(&frame(0x0102_0304, 0)), 0x0102_0304);
}

/// Pages in a file held in memory, written where a restore says.
fn run_restore(segments: &[(u64, u64, u32, Vec<(u32, u8)>)]) -> (Vec<u8>, RestoreAction) {
    let mut file = vec![0u8; 3 * 4096];
    let (mut r, mut action) = Restore::new();
    let mut current: Option<(usize, usize)> = None;
    loop {
        action = match action {
            RestoreAction::FindSegment(f) => {
                let found = segments
                    .iter()
                    .find(|s| s.0 <= f && f <= s.1 || f == u64::MAX)
                    .map(|s| SegmentKey { start_frame_no: s.0, end_frame_no: s.1, segment_id: 0 });
                r.on_segment(found)
            }
            RestoreAction::FetchSegment(k) => {
                let i = segments.iter().position(|s| s.0 == k.start_frame_no).unwrap();
                let s = &segments[i];
                current = Some((i, 0));
                let h = header(s.3.len() as u64, s.0, s.1, s.2);
                r.on_header(CompactedSegmentDataHeader::read_from_prefix(&h).unwrap())
            }
            RestoreAction::ReadFrame => {
                let (i, j) = current.unwrap();
                current = Some((i, j + 1));
                let (page, fill) = segments[i].3[j];
                let f = frame(page, fill);
                let (write, next) = r.on_frame(&f);
                if let Some(off) = write {
                    let off = off as usize;
                    file[off..off + 4096].copy_from_slice(&f[16..]);
                }
                next
            }
            other => return (file, other),
        };
    }
}

#[test]
fn restore_writes_newest_pages() {
    // newest first: pages 1 and 3 in the newest segment, 1 and 2 in the older one
    let segments = vec![
        (11, 20, 3, vec![(1, 0xbb), (3, 0xcc)]),
        (1, 10, 2, vec![(1, 0xaa), (2, 0xdd)]),
    ];
    let (file, end) = run_restore(&segments);
    assert_eq!(end, RestoreAction::Done);
    assert!(file[0..4096].iter().all(|b| *b == 0xbb));
    assert!(file[4096..8192].iter().all(|b| *b == 0xdd));
    assert!(file[8192..].iter().all(|b| *b == 0xcc));
}

#[test]
fn restore_of_empty_namespace_is_done() {
    let (mut r, action) = Restore::new();
    assert_eq!(action, RestoreAction::FindSegment(u64::MAX));
    assert_eq!(r.on_segment(None), RestoreAction::Done);
}

#[test]
fn restore_with_missing_segment_fails() {
    let segments = vec![(11, 20, 3, vec![(1, 0xbb)])];
    let (_, end) = run_restore(&segments);
    assert_eq!(end, RestoreAction::Fail(Error::MissingSegment(10)));
}

#[test]
fn restore_refuses_page_zero() {
    let segments = vec![(0, 20, 1, vec![(0, 0xbb)])];
    let (_, end) = run_restore(&segments);
    assert_eq!(end, RestoreAction::Fail(Error::InvalidPageNo(0)));
}

#[test]
fn body_reads_chunks_until_empty() {
    let mut c = BodyCursor::new();
    assert_eq!(c.start_read(), Some((0, 4096)));
    assert_eq!(c.start_read(), None);
    assert_eq!(c.on_read(Some(4096)), BodyFrame::Data);
    assert_eq!(c.start_read(), Some((4096, 4096)));
    assert_eq!(c.on_read(Some(100)), BodyFrame::Data);
    assert_eq!(c.start_read(), Some((4196, 4096)));
    assert_eq!(c.on_read(Some(0)), BodyFrame::End);
    assert_eq!(c.state, StreamState::Done);
    assert_eq!(c.start_read(), None);
}

#[test]
fn body_stops_on_error() {
    let mut c = BodyCursor::new();
    c.start_read();
    assert_eq!(c.on_read(None), BodyFrame::Error);
    assert_eq!(c.state, StreamState::Done);
    assert_eq!(c.start_read(), None);
}
