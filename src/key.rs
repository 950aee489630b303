//! Object keys of the archive.
//!
//! Every key of a namespace lives under
//! `v2/clusters/{cluster_id}/namespaces/{namespace}`. A segment key is shown as
//! `{rev_start:020}-{rev_end:020}-{segment_id:032x}`, where `rev_x` is
//! `u64::MAX - x`. Listing index keys in order thus starts with the segment
//! that starts last, and among segments that start together, with the one that
//! ends last. A listing that starts after the lookup key
//! `{u64::MAX - f:020}` of frame `f` returns first the segment with the
//! latest start not after `f`: the newest and biggest that may hold `f`
//! (`f = u64::MAX`: the newest segment).
use vstd::arithmetic::div_mod::*;
use vstd::arithmetic::power::*;
use vstd::prelude::*;

verus! {

/// Identity of a stored segment: the frames it covers and a unique id.
#[derive(Clone, Copy, Debug, PartialEq, Eq, Structural)]
pub struct SegmentKey {
    pub start_frame_no: u64,
    pub end_frame_no: u64,
    pub segment_id: u128,
}

/// The character that shows digit `d` (lower-case for digits above nine).
pub open spec fn digit_char(d: int) -> char {
    if d == 0 { '0' } else if d == 1 { '1' } else if d == 2 { '2' } else if d == 3 { '3' }
    else if d == 4 { '4' } else if d == 5 { '5' } else if d == 6 { '6' } else if d == 7 { '7' }
    else if d == 8 { '8' } else if d == 9 { '9' } else if d == 10 { 'a' } else if d == 11 { 'b' }
    else if d == 12 { 'c' } else if d == 13 { 'd' } else if d == 14 { 'e' } else { 'f' }
}

/// The value of digit character `c` in `base`, or -1 when `c` is no such digit.
pub open spec fn char_value(c: char, base: int) -> int {
    let v = if c == '0' { 0int } else if c == '1' { 1 } else if c == '2' { 2 } else if c == '3' { 3 }
    else if c == '4' { 4 } else if c == '5' { 5 } else if c == '6' { 6 } else if c == '7' { 7 }
    else if c == '8' { 8 } else if c == '9' { 9 } else if c == 'a' { 10 } else if c == 'b' { 11 }
    else if c == 'c' { 12 } else if c == 'd' { 13 } else if c == 'e' { 14 } else if c == 'f' { 15 }
    else { -1 };
    if v < base { v } else { -1 }
}

/// The `n` lowest digits of `v` in `base`, most significant first, zero-padded.
pub open spec fn digits(v: nat, base: nat, n: nat) -> Seq<char>
    decreases n,
{
    if n == 0 || base == 0 {
        Seq::empty()
    } else {
        digits(v / base, base, (n - 1) as nat).push(digit_char((v % base) as int))
    }
}

/// The number that a string of digits in `base` shows.
pub open spec fn digits_value(s: Seq<char>, base: nat) -> nat
    decreases s.len(),
{
    if s.len() == 0 {
        0
    } else {
        (digits_value(s.drop_last(), base) * base + char_value(s.last(), base as int)) as nat
    }
}

/// Every character of `s` is a digit in `base`.
pub open spec fn all_digits(s: Seq<char>, base: nat) -> bool {
    forall|i: int| 0 <= i < s.len() ==> char_value(#[trigger] s[i], base as int) >= 0
}

/// `u64::MAX - x`: the reversed frame number that keys show.
pub open spec fn rev(x: u64) -> nat {
    (u64::MAX - x) as nat
}

/// How a segment key is shown inside object keys.
pub open spec fn key_text(k: SegmentKey) -> Seq<char> {
    digits(rev(k.start_frame_no), 10, 20) + seq!['-'] + digits(rev(k.end_frame_no), 10, 20)
        + seq!['-'] + digits(k.segment_id as nat, 16, 32)
}

/// A segment key whose range is well formed.
pub open spec fn key_wf(k: SegmentKey) -> bool {
    k.start_frame_no <= k.end_frame_no
}

/// The segment includes frame `f`.
pub open spec fn includes_spec(k: SegmentKey, f: u64) -> bool {
    k.start_frame_no <= f <= k.end_frame_no
}

impl SegmentKey {
    /// Whether frame `frame_no` lies in the segment's range.
    pub fn includes(&self, frame_no: u64) -> (r: bool)
        ensures
            r == includes_spec(*self, frame_no),
    {
        self.start_frame_no <= frame_no && frame_no <= self.end_frame_no
    }
}


/// `v2/clusters/{cluster_id}/namespaces/{namespace}`
pub open spec fn folder_text(cluster_id: Seq<char>, namespace: Seq<char>) -> Seq<char> {
    "v2/clusters/"@ + cluster_id + "/namespaces/"@ + namespace
}

/// `{folder}/segments/{segment_key}`: where a segment's data is stored.
pub open spec fn data_key_text(folder: Seq<char>, k: SegmentKey) -> Seq<char> {
    folder + "/segments/"@ + key_text(k)
}

/// `{folder}/indexes/`: the prefix that every index key of a namespace starts with.
pub open spec fn index_prefix_text(folder: Seq<char>) -> Seq<char> {
    folder + "/indexes/"@
}

/// `{folder}/indexes/{segment_key}`: where a segment's index is stored.
pub open spec fn index_key_text(folder: Seq<char>, k: SegmentKey) -> Seq<char> {
    index_prefix_text(folder) + key_text(k)
}

/// `{folder}/indexes/{u64::MAX - frame_no:020}`: the key after which a listing
/// starts when looking for the segment of `frame_no`.
pub open spec fn lookup_key_text(folder: Seq<char>, frame_no: u64) -> Seq<char> {
    index_prefix_text(folder) + digits(rev(frame_no), 10, 20)
}

/// Relies on String::push: the character is added at the end.
#[verifier::external_body]
fn push_char(s: &mut String, c: char)
    ensures
        final(s)@ == old(s)@.push(c),
{
    s.push(c)
}

fn digit_char_exec(d: u128) -> (c: char)
    requires
        d < 16,
    ensures
        c == digit_char(d as int),
{
    if d == 0 { '0' } else if d == 1 { '1' } else if d == 2 { '2' } else if d == 3 { '3' }
    else if d == 4 { '4' } else if d == 5 { '5' } else if d == 6 { '6' } else if d == 7 { '7' }
    else if d == 8 { '8' } else if d == 9 { '9' } else if d == 10 { 'a' } else if d == 11 { 'b' }
    else if d == 12 { 'c' } else if d == 13 { 'd' } else if d == 14 { 'e' } else { 'f' }
}

/// Appends the `n` lowest digits of `v` in `base`, zero-padded.
fn push_digits(s: &mut String, v: u128, base: u128, n: u32)
    requires
        2 <= base <= 16,
    ensures
        final(s)@ == old(s)@ + digits(v as nat, base as nat, n as nat),
    decreases n,
{
    if n == 0 {
        assert(old(s)@ + Seq::<char>::empty() =~= old(s)@);
    } else {
        push_digits(s, v / base, base, n - 1);
        push_char(s, digit_char_exec(v % base));
        assert(final(s)@ =~= old(s)@ + digits(v as nat, base as nat, n as nat));
    }
}

impl SegmentKey {
    /// Appends the text of this key (see [`key_text`]).
    pub fn push_text(&self, s: &mut String)
        ensures
            final(s)@ == old(s)@ + key_text(*self),
    {
        push_digits(s, (u64::MAX - self.start_frame_no) as u128, 10, 20);
        push_char(s, '-');
        push_digits(s, (u64::MAX - self.end_frame_no) as u128, 10, 20);
        push_char(s, '-');
        push_digits(s, self.segment_id, 16, 32);
        assert(final(s)@ =~= old(s)@ + key_text(*self));
    }

    /// The text of this key, as it stands at the end of object keys.
    pub fn to_text(&self) -> (r: String)
        ensures
            r@ == key_text(*self),
    {
        let mut s = String::new();
        self.push_text(&mut s);
        assert(s@ =~= key_text(*self));
        s
    }
}

/// The folder of a namespace within a cluster.
pub struct FolderKey<'a> {
    pub cluster_id: &'a str,
    pub namespace: &'a str,
}

impl<'a> FolderKey<'a> {
    pub open spec fn text(&self) -> Seq<char> {
        folder_text(self.cluster_id@, self.namespace@)
    }

    /// `v2/clusters/{cluster_id}/namespaces/{namespace}`
    pub fn to_text(&self) -> (r: String)
        ensures
            r@ == self.text(),
    {
        let mut s = String::new();
        s.append("v2/clusters/");
        s.append(self.cluster_id);
        s.append("/namespaces/");
        s.append(self.namespace);
        assert(s@ =~= self.text());
        s
    }
}

/// The key under which the data of segment `k` is stored.
pub fn s3_segment_data_key(folder_key: &FolderKey, k: &SegmentKey) -> (r: String)
    ensures
        r@ == data_key_text(folder_key.text(), *k),
{
    let mut s = folder_key.to_text();
    s.append("/segments/");
    k.push_text(&mut s);
    s
}

/// The key under which the index of segment `k` is stored.
pub fn s3_segment_index_key(folder_key: &FolderKey, k: &SegmentKey) -> (r: String)
    ensures
        r@ == index_key_text(folder_key.text(), *k),
{
    let mut s = s3_segment_index_lookup_key_prefix(folder_key);
    k.push_text(&mut s);
    s
}

/// The prefix shared by every index key of the folder.
pub fn s3_segment_index_lookup_key_prefix(folder_key: &FolderKey) -> (r: String)
    ensures
        r@ == index_prefix_text(folder_key.text()),
{
    let mut s = folder_key.to_text();
    s.append("/indexes/");
    s
}

/// The key after which a listing of index keys starts when looking for the
/// segment of `frame_no`.
pub fn s3_segment_index_lookup_key(folder_key: &FolderKey, frame_no: u64) -> (r: String)
    ensures
        r@ == lookup_key_text(folder_key.text(), frame_no),
{
    let mut s = s3_segment_index_lookup_key_prefix(folder_key);
    push_digits(&mut s, (u64::MAX - frame_no) as u128, 10, 20);
    s
}


proof fn lemma_digit_char_value(d: int, base: int)
    requires
        0 <= d < base <= 16,
    ensures
        char_value(digit_char(d), base) == d,
{
}

proof fn lemma_char_value_digit(c: char, base: int)
    requires
        char_value(c, base) >= 0,
    ensures
        digit_char(char_value(c, base)) == c,
        char_value(c, base) < base,
{
}

proof fn lemma_digits_shape(v: nat, base: nat, n: nat)
    requires
        2 <= base <= 16,
    ensures
        digits(v, base, n).len() == n,
        all_digits(digits(v, base, n), base),
    decreases n,
{
    if n > 0 {
        lemma_digits_shape(v / base, base, (n - 1) as nat);
        lemma_digit_char_value((v % base) as int, base as int);
        let d = digits(v, base, n);
        assert forall|i: int| 0 <= i < d.len() implies char_value(#[trigger] d[i], base as int) >= 0 by {
            if i < n - 1 {
                assert(d[i] == digits(v / base, base, (n - 1) as nat)[i]);
            }
        }
    }
}

/// Reading back the `n` digits of `v` gives `v` modulo `base^n`.
proof fn lemma_digits_value(v: nat, base: nat, n: nat)
    requires
        2 <= base <= 16,
    ensures
        digits_value(digits(v, base, n), base) == v % (pow(base as int, n) as nat),
        pow(base as int, n) > 0,
    decreases n,
{
    lemma_pow_positive(base as int, n);
    if n == 0 {
        assert(pow(base as int, 0) == 1) by { reveal(pow); }
    } else {
        let p = pow(base as int, (n - 1) as nat);
        lemma_digits_value(v / base, base, (n - 1) as nat);
        lemma_digit_char_value((v % base) as int, base as int);
        let d = digits(v, base, n);
        assert(d.drop_last() =~= digits(v / base, base, (n - 1) as nat));
        assert(pow(base as int, n) == base * p) by { reveal(pow); }
        lemma_mod_breakdown(v as int, base as int, p);
        assert(digits_value(d, base) == ((v / base) as int % p) * base + v % base);
        assert(v as int % (base * p) == base * (((v / base) as int) % p) + v as int % base as int);
        assert(((v / base) as int % p) * base == base * (((v / base) as int) % p)) by (nonlinear_arith);
    }
}

/// A string of digits is the zero-padded text of the number it shows.
proof fn lemma_value_digits(s: Seq<char>, base: nat)
    requires
        2 <= base <= 16,
        all_digits(s, base),
    ensures
        digits(digits_value(s, base), base, s.len()) == s,
        digits_value(s, base) < pow(base as int, s.len()),
    decreases s.len(),
{
    if s.len() == 0 {
        assert(digits(0, base, 0) =~= s);
        assert(pow(base as int, 0) == 1) by { reveal(pow); }
    } else {
        let t = s.drop_last();
        assert forall|i: int| 0 <= i < t.len() implies char_value(#[trigger] t[i], base as int) >= 0 by {
            assert(t[i] == s[i]);
        }
        lemma_value_digits(t, base);
        let vt = digits_value(t, base);
        let d = char_value(s.last(), base as int);
        assert(char_value(s[s.len() - 1], base as int) >= 0);
        lemma_char_value_digit(s.last(), base as int);
        let v = digits_value(s, base);
        assert(v == vt * base + d);
        lemma_fundamental_div_mod_converse(v as int, base as int, vt as int, d);
        assert(digits(v, base, s.len()) =~= t.push(s.last()));
        assert(s =~= t.push(s.last()));
        let p = pow(base as int, t.len());
        assert(pow(base as int, s.len()) == base * p) by { reveal(pow); }
        assert(vt * base + d < base * p) by (nonlinear_arith)
            requires vt < p, 0 <= d < base;
    }
}

/// Reads the `n` digits in `base` that start at character `from` of `s`.
fn parse_digits(s: &str, from: usize, n: usize, base: u128) -> (r: Option<u128>)
    requires
        2 <= base <= 16,
        from + n <= s@.len(),
        from + n <= usize::MAX,
        pow(base as int, n as nat) <= u128::MAX + 1,
    ensures
        r.is_some() == all_digits(s@.subrange(from as int, from + n), base as nat),
        r.is_some() ==> r.unwrap() == digits_value(s@.subrange(from as int, from + n), base as nat),
{
    let mut acc: u128 = 0;
    let mut i: usize = from;
    while i - from < n
        invariant
            2 <= base <= 16,
            from <= i <= from + n <= s@.len(),
            from + n <= usize::MAX,
            pow(base as int, n as nat) <= u128::MAX + 1,
            all_digits(s@.subrange(from as int, i as int), base as nat),
            acc == digits_value(s@.subrange(from as int, i as int), base as nat),
        decreases from + n - i,
    {
        let c = s.get_char(i);
        let d = char_value_exec(c, base);
        let ghost sub = s@.subrange(from as int, i as int);
        let ghost sub2 = s@.subrange(from as int, i + 1);
        if d < 0 {
            assert(sub2[i - from] == c);
            return None;
        }
        proof {
            lemma_value_digits(sub, base as nat);
            lemma_pow_increases(base as nat, (i - from + 1) as nat, n as nat);
            assert(pow(base as int, (i - from + 1) as nat) == base * pow(base as int, (i - from) as nat)) by {
                reveal(pow);
            }
            assert(acc * base + d < base * pow(base as int, (i - from) as nat)) by (nonlinear_arith)
                requires acc < pow(base as int, (i - from) as nat), 0 <= d < base;
            assert(sub2.drop_last() =~= sub);
            assert forall|j: int| 0 <= j < sub2.len() implies char_value(#[trigger] sub2[j], base as int) >= 0 by {
                if j < sub.len() {
                    assert(sub2[j] == sub[j]);
                }
            }
        }
        acc = acc * base + d as u128;
        i = i + 1;
    }
    Some(acc)
}

fn char_value_exec(c: char, base: u128) -> (r: i32)
    requires
        base <= 16,
    ensures
        r == char_value(c, base as int),
{
    let v: i32 = if c == '0' { 0 } else if c == '1' { 1 } else if c == '2' { 2 } else if c == '3' { 3 }
    else if c == '4' { 4 } else if c == '5' { 5 } else if c == '6' { 6 } else if c == '7' { 7 }
    else if c == '8' { 8 } else if c == '9' { 9 } else if c == 'a' { 10 } else if c == 'b' { 11 }
    else if c == 'c' { 12 } else if c == 'd' { 13 } else if c == 'e' { 14 } else if c == 'f' { 15 }
    else { -1 };
    if (v as u128) < base || v < 0 {
        if v < 0 { -1 } else { v }
    } else {
        -1
    }
}


proof fn lemma_pow_facts()
    ensures
        pow(10, 20) == 100_000_000_000_000_000_000int,
        pow(16, 32) == u128::MAX + 1,
{
    reveal_with_fuel(pow, 33);
}

/// Facts about the text of a segment key, position by position.
proof fn lemma_key_text_parts(k: SegmentKey)
    ensures
        key_text(k).len() == 74,
        key_text(k).subrange(0, 20) == digits(rev(k.start_frame_no), 10, 20),
        key_text(k)[20] == '-',
        key_text(k).subrange(21, 41) == digits(rev(k.end_frame_no), 10, 20),
        key_text(k)[41] == '-',
        key_text(k).subrange(42, 74) == digits(k.segment_id as nat, 16, 32),
        digits_value(digits(rev(k.start_frame_no), 10, 20), 10) == rev(k.start_frame_no),
        digits_value(digits(rev(k.end_frame_no), 10, 20), 10) == rev(k.end_frame_no),
        digits_value(digits(k.segment_id as nat, 16, 32), 16) == k.segment_id,
{
    lemma_pow_facts();
    lemma_digits_shape(rev(k.start_frame_no), 10, 20);
    lemma_digits_shape(rev(k.end_frame_no), 10, 20);
    lemma_digits_shape(k.segment_id as nat, 16, 32);
    lemma_digits_value(rev(k.start_frame_no), 10, 20);
    lemma_digits_value(rev(k.end_frame_no), 10, 20);
    lemma_digits_value(k.segment_id as nat, 16, 32);
    let t = key_text(k);
    assert(t.subrange(0, 20) =~= digits(rev(k.start_frame_no), 10, 20));
    assert(t.subrange(21, 41) =~= digits(rev(k.end_frame_no), 10, 20));
    assert(t.subrange(42, 74) =~= digits(k.segment_id as nat, 16, 32));
}

/// Reads a segment key from the 74 characters of `s` that start at `at`.
fn parse_key_text(s: &str, at: usize) -> (r: Option<SegmentKey>)
    requires
        at + 74 == s@.len(),
        at + 74 <= usize::MAX,
    ensures
        match r {
            Some(k) => s@.subrange(at as int, at + 74) == key_text(k) && key_wf(k),
            None => forall|k: SegmentKey|
                key_wf(k) ==> s@.subrange(at as int, at + 74) != #[trigger] key_text(k),
        },
{
    let ghost t = s@.subrange(at as int, at + 74);
    proof {
        lemma_pow_facts();
    }
    let rev_start = parse_digits(s, at, 20, 10);
    let rev_end = parse_digits(s, at + 21, 20, 10);
    let id = parse_digits(s, at + 42, 32, 16);
    let dash1 = s.get_char(at + 20);
    let dash2 = s.get_char(at + 41);
    proof {
        assert(t.subrange(0, 20) =~= s@.subrange(at as int, at + 20));
        assert(t.subrange(21, 41) =~= s@.subrange(at + 21, at + 41));
        assert(t.subrange(42, 74) =~= s@.subrange(at + 42, at + 74));
        assert(t[20] == dash1 && t[41] == dash2);
    }
    match (rev_start, rev_end, id) {
        (Some(rs), Some(re), Some(id)) => {
            if dash1 == '-' && dash2 == '-' && rs <= u64::MAX as u128 && re <= u64::MAX as u128 && re <= rs {
                let k = SegmentKey {
                    start_frame_no: u64::MAX - rs as u64,
                    end_frame_no: u64::MAX - re as u64,
                    segment_id: id,
                };
                proof {
                    lemma_value_digits(t.subrange(0, 20), 10);
                    lemma_value_digits(t.subrange(21, 41), 10);
                    lemma_value_digits(t.subrange(42, 74), 16);
                    lemma_key_text_parts(k);
                    assert(t =~= key_text(k));
                }
                Some(k)
            } else {
                proof {
                    assert forall|k: SegmentKey| key_wf(k) implies t != #[trigger] key_text(k) by {
                        lemma_key_text_parts(k);
                    }
                }
                None
            }
        },
        _ => {
            proof {
                assert forall|k: SegmentKey| key_wf(k) implies t != #[trigger] key_text(k) by {
                    lemma_key_text_parts(k);
                    lemma_digits_shape(rev(k.start_frame_no), 10, 20);
                    lemma_digits_shape(rev(k.end_frame_no), 10, 20);
                    lemma_digits_shape(k.segment_id as nat, 16, 32);
                }
            }
            None
        },
    }
}

/// Different segment keys have different texts.
pub proof fn lemma_key_text_injective(a: SegmentKey, b: SegmentKey)
    requires
        key_text(a) == key_text(b),
    ensures
        a == b,
{
    lemma_key_text_parts(a);
    lemma_key_text_parts(b);
}

/// The segment key that the index object key `s` of `folder` shows, if any.
pub open spec fn parse_index_key(folder: Seq<char>, s: Seq<char>) -> Option<SegmentKey> {
    if exists|k: SegmentKey| key_wf(k) && s == #[trigger] index_key_text(folder, k) {
        Some(choose|k: SegmentKey| key_wf(k) && s == #[trigger] index_key_text(folder, k))
    } else {
        None
    }
}

impl SegmentKey {
    /// Reads the segment key of an index object key of `folder_key`, as a
    /// listing returns it. Any other key gives `None`.
    pub fn validate_from_path(key: &str, folder_key: &FolderKey) -> (r: Option<SegmentKey>)
        ensures
            match r {
                Some(k) => key@ == index_key_text(folder_key.text(), k) && key_wf(k),
                None => forall|k: SegmentKey|
                    key_wf(k) ==> key@ != #[trigger] index_key_text(folder_key.text(), k),
            },
            r == parse_index_key(folder_key.text(), key@),
    {
        let r = Self::read_index_key(key, folder_key);
        proof {
            if let Some(k) = r {
                let c = choose|c: SegmentKey| key_wf(c) && key@ == #[trigger] index_key_text(folder_key.text(), c);
                let pre = index_prefix_text(folder_key.text());
                assert((pre + key_text(c)).subrange(pre.len() as int, key@.len() as int) =~= key_text(c));
                assert((pre + key_text(k)).subrange(pre.len() as int, key@.len() as int) =~= key_text(k));
                lemma_key_text_injective(c, k);
            }
        }
        r
    }

    fn read_index_key(key: &str, folder_key: &FolderKey) -> (r: Option<SegmentKey>)
        ensures
            match r {
                Some(k) => key@ == index_key_text(folder_key.text(), k) && key_wf(k),
                None => forall|k: SegmentKey|
                    key_wf(k) ==> key@ != #[trigger] index_key_text(folder_key.text(), k),
            },
    {
        let prefix = s3_segment_index_lookup_key_prefix(folder_key);
        let p = prefix.as_str();
        let plen = p.unicode_len();
        let klen = key.unicode_len();
        if klen < 74 || klen - 74 != plen {
            proof {
                assert forall|k: SegmentKey| key_wf(k) implies key@ != #[trigger] index_key_text(folder_key.text(), k) by {
                    lemma_key_text_parts(k);
                }
            }
            return None;
        }
        let mut i: usize = 0;
        while i < plen
            invariant
                plen == p@.len(),
                p@ == index_prefix_text(folder_key.text()),
                klen == key@.len(),
                plen + 74 == klen,
                i <= plen,
                key@.subrange(0, i as int) == p@.subrange(0, i as int),
            decreases plen - i,
        {
            if key.get_char(i) != p.get_char(i) {
                proof {
                    assert forall|k: SegmentKey| key_wf(k) implies key@ != #[trigger] index_key_text(folder_key.text(), k) by {
                        if key@ == index_key_text(folder_key.text(), k) {
                            assert(key@ == p@ + key_text(k));
                            assert((p@ + key_text(k))[i as int] == p@[i as int]);
                        }
                    }
                }
                return None;
            }
            assert(key@.subrange(0, i + 1) =~= key@.subrange(0, i as int).push(key@[i as int]));
            assert(p@.subrange(0, i + 1) =~= p@.subrange(0, i as int).push(p@[i as int]));
            i = i + 1;
        }
        let r = parse_key_text(key, plen);
        proof {
            assert(key@ =~= key@.subrange(0, plen as int) + key@.subrange(plen as int, klen as int));
            assert(key@.subrange(0, plen as int) =~= p@);
            assert forall|k: SegmentKey| #[trigger] index_key_text(folder_key.text(), k) == key@ implies
                key@.subrange(plen as int, plen + 74) == key_text(k) by {
                assert(key@.subrange(plen as int, plen + 74) =~= index_key_text(folder_key.text(), k).subrange(plen as int, plen + 74));
                assert(index_key_text(folder_key.text(), k).subrange(plen as int, plen + 74) =~= key_text(k));
            }
        }
        r
    }
}


/// `a` sorts strictly before `b`, character by character, as an object
/// listing orders keys.
pub open spec fn key_lt(a: Seq<char>, b: Seq<char>) -> bool {
    ||| (a.len() < b.len() && b.subrange(0, a.len() as int) == a)
    ||| exists|i: int|
        0 <= i < a.len() && i < b.len() && a.subrange(0, i) == b.subrange(0, i) && (#[trigger] a[i] as u32)
            < (b[i] as u32)
}

proof fn lemma_digit_char_order(a: int, b: int)
    requires
        0 <= a < b < 16,
    ensures
        (digit_char(a) as u32) < (digit_char(b) as u32),
{
}

/// Of two numbers below `base^n`, the smaller has the smaller text: the
/// result is the first place where the texts differ.
proof fn lemma_digits_lt(x: nat, y: nat, base: nat, n: nat) -> (i: int)
    requires
        2 <= base <= 16,
        x < y < pow(base as int, n),
    ensures
        0 <= i < n,
        digits(x, base, n).subrange(0, i) == digits(y, base, n).subrange(0, i),
        (digits(x, base, n)[i] as u32) < (digits(y, base, n)[i] as u32),
    decreases n,
{
    reveal(pow);
    if n == 0 {
        assert(false);
        0
    } else {
        let p = pow(base as int, (n - 1) as nat);
        let qx = x / base;
        let qy = y / base;
        lemma_fundamental_div_mod(x as int, base as int);
        lemma_fundamental_div_mod(y as int, base as int);
        lemma_digits_shape(qx, base, (n - 1) as nat);
        lemma_digits_shape(qy, base, (n - 1) as nat);
        let dx = digits(x, base, n);
        let dy = digits(y, base, n);
        assert(qx <= qy && qy < p) by (nonlinear_arith)
            requires
                x == base * qx + x % base, y == base * qy + y % base, 0 <= x % base < base,
                0 <= y % base < base, x < y, y < base * p, base > 0;
        if qx < qy {
            let i = lemma_digits_lt(qx, qy, base, (n - 1) as nat);
            assert(dx.subrange(0, i) =~= digits(qx, base, (n - 1) as nat).subrange(0, i));
            assert(dy.subrange(0, i) =~= digits(qy, base, (n - 1) as nat).subrange(0, i));
            assert(dx[i] == digits(qx, base, (n - 1) as nat)[i]);
            assert(dy[i] == digits(qy, base, (n - 1) as nat)[i]);
            i
        } else {
            lemma_digit_char_order((x % base) as int, (y % base) as int);
            assert(dx.subrange(0, n - 1) =~= digits(qx, base, (n - 1) as nat));
            assert(dy.subrange(0, n - 1) =~= digits(qy, base, (n - 1) as nat));
            n - 1
        }
    }
}

/// The lookup key of a frame at or after a segment's start sorts before the
/// segment's index key.
pub proof fn lemma_lookup_before_key(folder: Seq<char>, k: SegmentKey, frame_no: u64)
    requires
        k.start_frame_no <= frame_no,
    ensures
        key_lt(lookup_key_text(folder, frame_no), index_key_text(folder, k)),
{
    lemma_pow_facts();
    lemma_key_text_parts(k);
    lemma_digits_shape(rev(frame_no), 10, 20);
    let pre = index_prefix_text(folder);
    let a = lookup_key_text(folder, frame_no);
    let b = index_key_text(folder, k);
    let da = digits(rev(frame_no), 10, 20);
    let db = digits(rev(k.start_frame_no), 10, 20);
    assert(b.subrange(pre.len() as int, pre.len() + 20int) =~= key_text(k).subrange(0, 20));
    if rev(frame_no) == rev(k.start_frame_no) {
        assert(b.subrange(0, a.len() as int) =~= a);
    } else {
        let i = lemma_digits_lt(rev(frame_no), rev(k.start_frame_no), 10, 20);
        let j = pre.len() as int + i;
        assert(a.subrange(0, j) =~= pre + da.subrange(0, i));
        assert(b.subrange(0, j) =~= pre + db.subrange(0, i));
        assert(a[j] == da[i]);
        assert(b[j] == db[i]);
    }
}


/// Of two segments, the one that starts later has the index key that a
/// listing returns first.
pub proof fn lemma_later_start_sorts_first(folder: Seq<char>, a: SegmentKey, b: SegmentKey)
    requires
        b.start_frame_no < a.start_frame_no,
    ensures
        key_lt(index_key_text(folder, a), index_key_text(folder, b)),
{
    lemma_pow_facts();
    lemma_key_text_parts(a);
    lemma_key_text_parts(b);
    let pre = index_prefix_text(folder);
    let ka = index_key_text(folder, a);
    let kb = index_key_text(folder, b);
    let da = digits(rev(a.start_frame_no), 10, 20);
    let db = digits(rev(b.start_frame_no), 10, 20);
    let i = lemma_digits_lt(rev(a.start_frame_no), rev(b.start_frame_no), 10, 20);
    let j = pre.len() as int + i;
    assert(key_text(a).subrange(0, i) =~= da.subrange(0, i));
    assert(key_text(b).subrange(0, i) =~= db.subrange(0, i));
    assert(ka.subrange(0, j) =~= pre + key_text(a).subrange(0, i));
    assert(kb.subrange(0, j) =~= pre + key_text(b).subrange(0, i));
    assert(ka[j] == key_text(a)[i] && key_text(a)[i] == da[i]);
    assert(kb[j] == key_text(b)[i] && key_text(b)[i] == db[i]);
}

} // verus!
