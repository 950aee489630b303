//! The archive operations: what each request to the object store asks for,
//! and what the library makes of the answers. The requests themselves are
//! sent by the caller.
use vstd::prelude::*;

use crate::error::Error;
use crate::error::IndexError;
use crate::index::{encode_index, fst_accepts, index_object, index_outcome, lemma_index_round_trip};
use crate::key::{
    data_key_text, folder_text, includes_spec, index_key_text, index_prefix_text,
    key_lt, key_text, key_wf, lemma_key_text_injective, lemma_lookup_before_key, lookup_key_text,
    parse_index_key, s3_segment_data_key, s3_segment_index_key,
    s3_segment_index_lookup_key, s3_segment_index_lookup_key_prefix, FolderKey, SegmentKey,
};

verus! {

/// Where a backend stores segments: the bucket, and the cluster whose
/// namespaces it holds.
pub struct S3Config {
    pub bucket: String,
    pub cluster_id: String,
}

/// The name of a namespace: one logical database.
pub struct NamespaceName {
    pub name: String,
}

impl NamespaceName {
    pub fn from_string(name: String) -> (r: NamespaceName)
        ensures
            r.name@ == name@,
    {
        NamespaceName { name }
    }

    pub fn as_str(&self) -> (r: &str)
        ensures
            r@ == self.name@,
    {
        self.name.as_str()
    }
}

/// A point in time: seconds since the Unix epoch and nanoseconds within the
/// second, in UTC.
#[derive(Clone, Copy, Debug, PartialEq, Eq, Structural)]
pub struct UtcTime {
    pub secs: i64,
    pub nanos: u32,
}

/// What the producer of a segment tells about it.
pub struct SegmentMeta {
    pub namespace: NamespaceName,
    pub segment_id: u128,
    pub start_frame_no: u64,
    pub end_frame_no: u64,
    pub created_at: UtcTime,
}

/// The segment key of a segment's metadata.
pub open spec fn key_of(meta: &SegmentMeta) -> SegmentKey {
    SegmentKey {
        start_frame_no: meta.start_frame_no,
        end_frame_no: meta.end_frame_no,
        segment_id: meta.segment_id,
    }
}

impl SegmentKey {
    pub fn from_meta(meta: &SegmentMeta) -> (r: SegmentKey)
        ensures
            r == key_of(meta),
    {
        SegmentKey {
            start_frame_no: meta.start_frame_no,
            end_frame_no: meta.end_frame_no,
            segment_id: meta.segment_id,
        }
    }
}

/// What is known of a namespace's database.
#[derive(Clone, Copy, Debug, PartialEq, Eq, Structural)]
pub struct DbMeta {
    pub max_frame_no: u64,
}

/// A stored segment, as a listing shows it.
#[derive(Clone, Copy, Debug, PartialEq, Eq, Structural)]
pub struct SegmentInfo {
    pub key: SegmentKey,
    /// The size of the index object, 0 when the listing does not give it.
    pub size: u64,
    pub created_at: Option<UtcTime>,
}

/// The folder of `namespace` under `config`.
pub open spec fn folder_of(config: &S3Config, namespace: &NamespaceName) -> Seq<char> {
    folder_text(config.cluster_id@, namespace.name@)
}

/// The two objects that store a segment.
pub struct StoreRequests {
    /// The key of the data object; its body is the segment file, sent first.
    pub data_key: String,
    /// The key of the index object, sent once the data is stored.
    pub index_key: String,
    /// The body of the index object.
    pub index_body: Vec<u8>,
}

/// The requests that store a segment: its data under the data key, then its
/// framed index under the index key.
pub fn store(config: &S3Config, meta: &SegmentMeta, segment_index: &[u8]) -> (r: StoreRequests)
    ensures
        r.data_key@ == data_key_text(folder_of(config, &meta.namespace), key_of(meta)),
        r.index_key@ == index_key_text(folder_of(config, &meta.namespace), key_of(meta)),
        r.index_body@ == index_object(segment_index@),
{
    let folder_key = FolderKey { cluster_id: config.cluster_id.as_str(), namespace: meta.namespace.as_str() };
    let segment_key = SegmentKey::from_meta(meta);
    let data_key = s3_segment_data_key(&folder_key, &segment_key);
    let index_key = s3_segment_index_key(&folder_key, &segment_key);
    let index_body = encode_index(segment_index);
    StoreRequests { data_key, index_key, index_body }
}

/// A listing request: the keys under `prefix`, in order, from the first that
/// sorts after `start_after`.
pub struct ListRequest {
    pub prefix: String,
    pub start_after: String,
}

/// The listing whose first key names the newest and biggest segment that may
/// hold `frame_no` (`u64::MAX`: the newest segment of the namespace).
pub fn find_segment_request(config: &S3Config, namespace: &NamespaceName, frame_no: u64) -> (r: ListRequest)
    ensures
        r.prefix@ == index_prefix_text(folder_of(config, namespace)),
        r.start_after@ == lookup_key_text(folder_of(config, namespace), frame_no),
{
    let folder_key = FolderKey { cluster_id: config.cluster_id.as_str(), namespace: namespace.as_str() };
    ListRequest {
        prefix: s3_segment_index_lookup_key_prefix(&folder_key),
        start_after: s3_segment_index_lookup_key(&folder_key, frame_no),
    }
}

/// The segment that the first listed key names; `None` when the listing is
/// empty or its first key names no segment of the namespace.
pub fn find_segment_result(config: &S3Config, namespace: &NamespaceName, first_key: Option<&str>) -> (r: Option<SegmentKey>)
    ensures
        r == (match first_key {
            Some(k) => parse_index_key(folder_of(config, namespace), k@),
            None => None,
        }),
{
    let folder_key = FolderKey { cluster_id: config.cluster_id.as_str(), namespace: namespace.as_str() };
    match first_key {
        Some(k) => SegmentKey::validate_from_path(k, &folder_key),
        None => None,
    }
}

/// The segment to fetch for `frame_no`, given what the lookup found: it must
/// include the frame.
pub fn fetch_segment(found: Option<SegmentKey>, frame_no: u64) -> (r: Result<SegmentKey, Error>)
    ensures
        r == (match found {
            Some(k) => if includes_spec(k, frame_no) {
                Ok::<SegmentKey, Error>(k)
            } else {
                Err(Error::FrameNotFound(frame_no))
            },
            None => Err(Error::FrameNotFound(frame_no)),
        }),
{
    match found {
        Some(k) => {
            if k.includes(frame_no) {
                Ok(k)
            } else {
                Err(Error::FrameNotFound(frame_no))
            }
        },
        None => Err(Error::FrameNotFound(frame_no)),
    }
}

/// The lookup of `frame_no` as an operation of its own: the segment, or
/// `FrameNotFound` when the lookup found none. The segment is not checked to
/// include the frame.
pub fn find_segment(found: Option<SegmentKey>, frame_no: u64) -> (r: Result<SegmentKey, Error>)
    ensures
        r == (match found {
            Some(k) => Ok::<SegmentKey, Error>(k),
            None => Err(Error::FrameNotFound(frame_no)),
        }),
{
    match found {
        Some(k) => Ok(k),
        None => Err(Error::FrameNotFound(frame_no)),
    }
}

/// The database metadata, given the newest segment of the namespace.
pub fn meta(newest: Option<SegmentKey>) -> (r: DbMeta)
    ensures
        r.max_frame_no == (match newest {
            Some(k) => k.end_frame_no,
            None => 0,
        }),
{
    match newest {
        Some(k) => DbMeta { max_frame_no: k.end_frame_no },
        None => DbMeta { max_frame_no: 0 },
    }
}

/// The prefix that a listing of the namespace's segments asks for. `until` is
/// reserved: no segment is left out on its account.
pub fn list_segments_request(config: &S3Config, namespace: &NamespaceName, until: u64) -> (r: String)
    ensures
        r@ == index_prefix_text(folder_of(config, namespace)),
{
    let folder_key = FolderKey { cluster_id: config.cluster_id.as_str(), namespace: namespace.as_str() };
    s3_segment_index_lookup_key_prefix(&folder_key)
}

/// An object as a listing shows it.
pub struct ListedObject {
    pub key: String,
    pub size: Option<i64>,
    pub last_modified: Option<UtcTime>,
}

/// One page of a listing.
pub struct ListPage {
    pub contents: Vec<ListedObject>,
    pub is_truncated: Option<bool>,
    pub next_continuation_token: Option<String>,
}

/// The size that a listing gives, 0 when absent or negative.
pub open spec fn size_of(size: Option<i64>) -> u64 {
    match size {
        Some(n) => if n >= 0 { n as u64 } else { 0 },
        None => 0,
    }
}

/// The segment that a listed object shows, if its key names one.
pub open spec fn info_of(folder: Seq<char>, o: ListedObject) -> Option<SegmentInfo> {
    match parse_index_key(folder, o.key@) {
        Some(k) => Some(SegmentInfo { key: k, size: size_of(o.size), created_at: o.last_modified }),
        None => None,
    }
}

/// The segments that listed objects show, in listing order; objects whose
/// key names no segment are left out.
pub open spec fn page_infos(folder: Seq<char>, objs: Seq<ListedObject>) -> Seq<SegmentInfo>
    decreases objs.len(),
{
    if objs.len() == 0 {
        Seq::empty()
    } else {
        let rest = page_infos(folder, objs.drop_last());
        match info_of(folder, objs.last()) {
            Some(i) => rest.push(i),
            None => rest,
        }
    }
}

/// Reads one page of a listing of the namespace's segments: the segments it
/// shows, and the continuation token of the next page (`None`: the listing is
/// over). A page that says it is truncated but gives no token is an error.
pub fn list_segments_page(config: &S3Config, namespace: &NamespaceName, page: ListPage) -> (r: Result<(Vec<SegmentInfo>, Option<String>), Error>)
    ensures
        r is Err <==> (page.is_truncated == Some(true) && page.next_continuation_token is None),
        r matches Ok((infos, next)) ==> infos@ == page_infos(folder_of(config, namespace), page.contents@)
            && (match next {
                Some(t) => page.is_truncated == Some(true) && page.next_continuation_token == Some(t),
                None => page.is_truncated != Some(true),
            }),
{
    let folder_key = FolderKey { cluster_id: config.cluster_id.as_str(), namespace: namespace.as_str() };
    let ghost folder = folder_of(config, namespace);
    let mut infos: Vec<SegmentInfo> = Vec::new();
    let mut i: usize = 0;
    while i < page.contents.len()
        invariant
            folder == folder_key.text(),
            i <= page.contents@.len(),
            infos@ == page_infos(folder, page.contents@.subrange(0, i as int)),
        decreases page.contents@.len() - i,
    {
        let o = &page.contents[i];
        let parsed = SegmentKey::validate_from_path(o.key.as_str(), &folder_key);
        proof {
            assert(page.contents@.subrange(0, i + 1).drop_last() =~= page.contents@.subrange(0, i as int));
        }
        if let Some(k) = parsed {
            let size = match o.size {
                Some(n) => if n >= 0 { n as u64 } else { 0 },
                None => 0,
            };
            infos.push(SegmentInfo { key: k, size, created_at: o.last_modified });
        }
        i = i + 1;
    }
    assert(page.contents@.subrange(0, page.contents@.len() as int) =~= page.contents@);
    let truncated = match page.is_truncated {
        Some(t) => t,
        None => false,
    };
    if truncated {
        match page.next_continuation_token {
            Some(t) => Ok((infos, Some(t))),
            None => Err(
                Error::Unhandled {
                    source: String::from_str("truncated listing without continuation token"),
                    context: String::from_str("failed to list bucket"),
                },
            ),
        }
    } else {
        Ok((infos, None))
    }
}

/// How creating the bucket failed.
pub enum CreateBucketFailure {
    AlreadyExists,
    AlreadyOwnedByYou,
    /// Any other failure, described.
    Other(String),
}

/// Whether a backend can go on after trying to create its bucket: a bucket
/// that exists already is fine.
pub fn bucket_creation_outcome(created: Result<(), CreateBucketFailure>) -> (r: Result<(), Error>)
    ensures
        r is Ok <==> (match created {
            Ok(()) => true,
            Err(CreateBucketFailure::AlreadyExists) => true,
            Err(CreateBucketFailure::AlreadyOwnedByYou) => true,
            Err(CreateBucketFailure::Other(_)) => false,
        }),
        match (created, r) {
            (Err(CreateBucketFailure::Other(s)), Err(Error::Unhandled { source, context })) =>
                source@ == s@ && context@ == "failed to create bucket"@,
            (_, Err(_)) => false,
            _ => true,
        },
{
    match created {
        Ok(()) => Ok(()),
        Err(CreateBucketFailure::AlreadyExists) => Ok(()),
        Err(CreateBucketFailure::AlreadyOwnedByYou) => Ok(()),
        Err(CreateBucketFailure::Other(s)) => Err(
            Error::Unhandled { source: s, context: String::from_str("failed to create bucket") },
        ),
    }
}


/// `key` lies under `prefix`.
pub open spec fn has_prefix(key: Seq<char>, prefix: Seq<char>) -> bool {
    prefix.len() <= key.len() && key.subrange(0, prefix.len() as int) == prefix
}

/// `first` is the first key that a listing of the keys `keys` under `prefix`,
/// after `start_after`, returns.
pub open spec fn is_first_listed(
    keys: Set<Seq<char>>,
    prefix: Seq<char>,
    start_after: Seq<char>,
    first: Seq<char>,
) -> bool {
    &&& keys.contains(first)
    &&& has_prefix(first, prefix)
    &&& key_lt(start_after, first)
    &&& forall|x: Seq<char>|
        keys.contains(x) && has_prefix(x, prefix) && key_lt(start_after, x) ==> x == first
            || #[trigger] key_lt(first, x)
}

proof fn lemma_parse_own_key(folder: Seq<char>, k: SegmentKey)
    requires
        key_wf(k),
    ensures
        parse_index_key(folder, index_key_text(folder, k)) == Some(k),
{
    let t = index_key_text(folder, k);
    assert(key_wf(k) && t == index_key_text(folder, k));
    let c = choose|c: SegmentKey| key_wf(c) && t == #[trigger] index_key_text(folder, c);
    let pre = index_prefix_text(folder);
    assert((pre + key_text(c)).subrange(pre.len() as int, t.len() as int) =~= key_text(c));
    assert((pre + key_text(k)).subrange(pre.len() as int, t.len() as int) =~= key_text(k));
    lemma_key_text_injective(c, k);
}

/// Once a segment is stored, fetching any frame that it covers lists its index
/// key first, takes it as the segment to fetch, and decodes its index object
/// back to the index bytes that were stored (when the map library accepts
/// them). This holds when no other index key of the namespace sorts between
/// the lookup key of the frame and the stored segment's key.
pub proof fn lemma_fetch_after_store(
    objects: Map<Seq<char>, Seq<u8>>,
    folder: Seq<char>,
    k: SegmentKey,
    index: Seq<u8>,
    frame_no: u64,
    first: Seq<char>,
)
    requires
        key_wf(k),
        index.len() <= u64::MAX,
        includes_spec(k, frame_no),
        objects.contains_key(index_key_text(folder, k)),
        objects[index_key_text(folder, k)] == index_object(index),
        is_first_listed(objects.dom(), index_prefix_text(folder), lookup_key_text(folder, frame_no), first),
        forall|x: Seq<char>|
            objects.contains_key(x) && has_prefix(x, index_prefix_text(folder)) ==> !(key_lt(
                lookup_key_text(folder, frame_no),
                x,
            ) && #[trigger] key_lt(x, index_key_text(folder, k))),
    ensures
        first == index_key_text(folder, k),
        parse_index_key(folder, first) == Some(k),
        index_outcome(objects[first]) == (if fst_accepts(index) {
            Ok::<Seq<u8>, IndexError>(index)
        } else {
            Err(IndexError::BadBytes)
        }),
{
    let key = index_key_text(folder, k);
    lemma_lookup_before_key(folder, k, frame_no);
    assert(has_prefix(key, index_prefix_text(folder))) by {
        assert(key.subrange(0, index_prefix_text(folder).len() as int) =~= index_prefix_text(folder));
    }
    assert(key == first || key_lt(first, key));
    lemma_parse_own_key(folder, k);
    lemma_index_round_trip(index);
}

/// Once a segment is stored, the database metadata reaches at least its last
/// frame. This holds when every index key of the namespace that sorts before
/// the stored segment's key names a segment that ends no earlier.
pub proof fn lemma_meta_after_store(keys: Set<Seq<char>>, folder: Seq<char>, k: SegmentKey, first: Seq<char>)
    requires
        key_wf(k),
        keys.contains(index_key_text(folder, k)),
        is_first_listed(keys, index_prefix_text(folder), lookup_key_text(folder, u64::MAX), first),
        forall|x: Seq<char>|
            keys.contains(x) && has_prefix(x, index_prefix_text(folder)) && #[trigger] key_lt(
                x,
                index_key_text(folder, k),
            ) ==> (parse_index_key(folder, x) matches Some(n) && n.end_frame_no >= k.end_frame_no),
    ensures
        parse_index_key(folder, first) matches Some(n) && n.end_frame_no >= k.end_frame_no,
{
    let key = index_key_text(folder, k);
    lemma_lookup_before_key(folder, k, u64::MAX);
    assert(has_prefix(key, index_prefix_text(folder))) by {
        assert(key.subrange(0, index_prefix_text(folder).len() as int) =~= index_prefix_text(folder));
    }
    assert(key == first || key_lt(first, key));
    lemma_parse_own_key(folder, k);
}

} // verus!
