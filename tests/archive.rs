use std::collections::BTreeMap;
use std::ops::Bound;

use fst::MapBuilder;
use s3_backend::backend::{
    bucket_creation_outcome, fetch_segment, find_segment, find_segment_request,
    find_segment_result, list_segments_page, list_segments_request, meta, store,
    CreateBucketFailure, ListPage, ListedObject, NamespaceName, S3Config, SegmentMeta, UtcTime,
};
use s3_backend::error::Error;
use s3_backend::index::decode_index;
use s3_backend::key::SegmentKey;

/// An object store held in memory, ordered as a listing orders keys.
struct MemStore {
    objects: BTreeMap<String, Vec<u8>>,
}

impl MemStore {
    fn first_after(&self, prefix: &str, start_after: &str) -> Option<String> {
        self.objects
            .range::<String, _>((Bound::Excluded(start_after.to_string()), Bound::Unbounded))
            .map(|(k, _)| k.clone())
            .find(|k| k.starts_with(prefix))
    }
}

fn config() -> S3Config {
    S3Config { bucket: "testbucket".into(), cluster_id: "123456789".into() }
}

fn ns() -> NamespaceName {
    NamespaceName::from_string("foobarbaz".into())
}

fn index_with(key: u32, value: u64) -> Vec<u8> {
    let mut builder = MapBuilder::memory();
    builder.insert(key.to_be_bytes(), value).unwrap();
    builder.into_inner().unwrap()
}

fn do_store(s: &mut MemStore, start: u64, end: u64, id: u128, index: &[u8]) {
    let meta = SegmentMeta {
        namespace: ns(),
        segment_id: id,
        start_frame_no: start,
        end_frame_no: end,
        created_at: UtcTime { secs: 0, nanos: 0 },
    };
    let req = store(&config(), &meta, index);
    s.objects.insert(req.data_key, vec![123; 8092]);
    s.objects.insert(req.index_key, req.index_body);
}

fn do_find(s: &MemStore, frame_no: u64) -> Option<SegmentKey> {
    let req = find_segment_request(&config(), &ns(), frame_no);
    let first = s.first_after(&req.prefix, &req.start_after);
    find_segment_result(&config(), &ns(), first.as_deref())
}

fn do_meta(s: &MemStore) -> u64 {
    meta(do_find(s, u64::MAX)).max_frame_no
}

fn do_fetch(s: &MemStore, frame_no: u64) -> Result<fst::Map<Vec<u8>>, Error> {
    let key = fetch_segment(do_find(s, frame_no), frame_no)?;
    let folder = format!("v2/clusters/123456789/namespaces/foobarbaz");
    let obj = s.objects[&format!("{folder}/indexes/{}", key.to_text())].clone();
    decode_index(obj)
}

#[test]
fn s3_basic() {
    let mut s = MemStore { objects: BTreeMap::new() };
    do_store(&mut s, 0, 64, 1, &index_with(42, 42));
    assert_eq!(do_meta(&s), 64);
    do_store(&mut s, 64, 128, 2, &index_with(44, 44));
    assert_eq!(do_meta(&s), 128);

    let index = do_fetch(&s, 1).unwrap();
    assert_eq!(index.get(42u32.to_be_bytes()).unwrap(), 42);
    let index = do_fetch(&s, 63).unwrap();
    assert_eq!(index.get(42u32.to_be_bytes()).unwrap(), 42);
    let index = do_fetch(&s, 64).unwrap();
    assert_eq!(index.get(44u32.to_be_bytes()).unwrap(), 44);
    let index = do_fetch(&s, 65).unwrap();
    assert_eq!(index.get(44u32.to_be_bytes()).unwrap(), 44);
}

#[test]
fn store_then_fetch_gives_index_bytes() {
    let mut s = MemStore { objects: BTreeMap::new() };
    let index = index_with(7, 9);
    do_store(&mut s, 10, 20, 5, &index);
    for f in [10u64, 15, 20] {
        let m = do_fetch(&s, f).unwrap();
        assert_eq!(m.as_fst().as_bytes(), &index[..]);
    }
    assert_eq!(do_fetch(&s, 21).unwrap_err(), Error::FrameNotFound(21));
    assert_eq!(do_fetch(&s, 9).unwrap_err(), Error::FrameNotFound(9));
}

#[test]
fn store_then_meta_reaches_end() {
    let mut s = MemStore { objects: BTreeMap::new() };
    do_store(&mut s, 0, 30, 1, &index_with(1, 1));
    assert!(do_meta(&s) >= 30);
    do_store(&mut s, 31, 90, 2, &index_with(1, 1));
    assert!(do_meta(&s) >= 90);
}

#[test]
fn newest_segment_is_found_first() {
    let mut s = MemStore { objects: BTreeMap::new() };
    do_store(&mut s, 0, 10, 1, &index_with(1, 1));
    do_store(&mut s, 11, 50, 2, &index_with(1, 1));
    assert_eq!(do_find(&s, u64::MAX).unwrap().end_frame_no, 50);
}

#[test]
fn overlapping_segments_resolve_by_key_order() {
    let mut s = MemStore { objects: BTreeMap::new() };
    do_store(&mut s, 0, 64, 1, &index_with(1, 1));
    do_store(&mut s, 64, 128, 2, &index_with(1, 1));
    let k63 = do_find(&s, 63).unwrap();
    assert_eq!((k63.start_frame_no, k63.end_frame_no), (0, 64));
    let k64 = do_find(&s, 64).unwrap();
    assert_eq!((k64.start_frame_no, k64.end_frame_no), (64, 128));
}

#[test]
fn empty_namespace() {
    let s = MemStore { objects: BTreeMap::new() };
    assert_eq!(do_meta(&s), 0);
    assert_eq!(do_fetch(&s, 1).unwrap_err(), Error::FrameNotFound(1));
    assert_eq!(find_segment(do_find(&s, 5), 5).unwrap_err(), Error::FrameNotFound(5));
}

#[test]
fn list_segments_skips_foreign_keys_and_follows_tokens() {
    let mut s = MemStore { objects: BTreeMap::new() };
    do_store(&mut s, 0, 10, 1, &index_with(1, 1));
    do_store(&mut s, 11, 20, 2, &index_with(1, 1));
    let prefix = list_segments_request(&config(), &ns(), 0);
    assert_eq!(prefix, "v2/clusters/123456789/namespaces/foobarbaz/indexes/");
    let mut keys: Vec<String> =
        s.objects.keys().filter(|k| k.starts_with(&prefix)).cloned().collect();
    keys.insert(1, format!("{prefix}not-a-segment"));
    let obj = |k: &String| ListedObject {
        key: k.clone(),
        size: Some(-3),
        last_modified: Some(UtcTime { secs: 5, nanos: 6 }),
    };
    let page1 = ListPage {
        contents: keys[..2].iter().map(obj).collect(),
        is_truncated: Some(true),
        next_continuation_token: Some("tok".into()),
    };
    let (infos1, next) = list_segments_page(&config(), &ns(), page1).unwrap();
    assert_eq!(next.as_deref(), Some("tok"));
    let page2 = ListPage {
        contents: keys[2..].iter().map(obj).collect(),
        is_truncated: Some(false),
        next_continuation_token: None,
    };
    let (infos2, next) = list_segments_page(&config(), &ns(), page2).unwrap();
    assert_eq!(next, None);
    let all: Vec<_> = infos1.iter().chain(infos2.iter()).collect();
    assert_eq!(all.len(), 2);
    assert_eq!(all[0].key.end_frame_no, 20);
    assert_eq!(all[1].key.end_frame_no, 10);
    assert_eq!(all[0].size, 0);
    assert_eq!(all[0].created_at, Some(UtcTime { secs: 5, nanos: 6 }));

    let bad = ListPage { contents: vec![], is_truncated: Some(true), next_continuation_token: None };
    assert!(list_segments_page(&config(), &ns(), bad).is_err());
}

#[test]
fn bucket_that_exists_is_fine() {
    assert_eq!(bucket_creation_outcome(Ok(())), Ok(()));
    assert_eq!(bucket_creation_outcome(Err(CreateBucketFailure::AlreadyExists)), Ok(()));
    assert_eq!(bucket_creation_outcome(Err(CreateBucketFailure::AlreadyOwnedByYou)), Ok(()));
    assert_eq!(
        bucket_creation_outcome(Err(CreateBucketFailure::Other("denied".into()))),
        Err(Error::Unhandled { source: "denied".into(), context: "failed to create bucket".into() })
    );
}
