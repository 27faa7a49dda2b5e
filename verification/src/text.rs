//! Text operations on `str` that the query language needs, stated over the
//! character sequences (`s@`) and the UTF-8 encodings (`s.spec_bytes()`) of strings.
use vstd::prelude::*;
use vstd::utf8::*;
use vstd::string::*;

verus! {

broadcast use vstd::utf8::group_utf8_lib;

/// `needle` occurs in `hay` as a contiguous block.
pub open spec fn seq_contains(hay: Seq<char>, needle: Seq<char>) -> bool {
    exists|i: int|
        0 <= i && i + needle.len() <= hay.len() && #[trigger] hay.subrange(i, i + needle.len())
            == needle
}

/// The text that the bytes `start..end` of `source` encode, where they are
/// valid UTF-8: an empty range inside `source` gives the empty text, and a
/// longer one must start and end on character boundaries.
pub open spec fn byte_range_text(source: Seq<char>, start: int, end: int) -> Option<Seq<char>> {
    let bytes = encode_utf8(source);
    if 0 <= start == end <= bytes.len() {
        Some(Seq::empty())
    } else if 0 <= start <= end <= bytes.len() && is_char_boundary(bytes, start) && is_char_boundary(
        bytes,
        end,
    ) {
        Some(decode_utf8(bytes.subrange(start, end)))
    } else {
        None
    }
}

/// Two strings are equal exactly when their characters are.
pub fn str_eq(a: &str, b: &str) -> (r: bool)
    ensures
        r == (a@ == b@),
{
    let x = a.as_bytes();
    let y = b.as_bytes();
    proof {
        encode_utf8_decode_utf8(a@);
        encode_utf8_decode_utf8(b@);
    }
    if x.len() != y.len() {
        return false;
    }
    let mut i: usize = 0;
    while i < x.len()
        invariant
            x@ == a.spec_bytes(),
            y@ == b.spec_bytes(),
            x@.len() == y@.len(),
            0 <= i <= x@.len(),
            forall|j: int| 0 <= j < i ==> x@[j] == y@[j],
        decreases x@.len() - i,
    {
        if x[i] != y[i] {
            return false;
        }
        i = i + 1;
    }
    assert(x@ =~= y@);
    true
}

/// The characters of `s`, in order.
pub fn chars_of(s: &str) -> (r: Vec<char>)
    ensures
        r@ == s@,
{
    let mut r: Vec<char> = Vec::new();
    let n = s.unicode_len();
    let mut i: usize = 0;
    while i < n
        invariant
            n == s@.len(),
            0 <= i <= n,
            r@ == s@.subrange(0, i as int),
        decreases n - i,
    {
        let c = s.get_char(i);
        r.push(c);
        i = i + 1;
        assert(r@ =~= s@.subrange(0, i as int));
    }
    assert(r@ =~= s@);
    r
}

/// Whether `needle` occurs in `hay`.
pub fn chars_contain(hay: &Vec<char>, needle: &Vec<char>) -> (r: bool)
    ensures
        r == seq_contains(hay@, needle@),
{
    let h = hay.len();
    let n = needle.len();
    if n > h {
        assert forall|i: int| 0 <= i && i + n <= h implies #[trigger] hay@.subrange(i, i + n)
            != needle@ by {}
        return false;
    }
    let mut i: usize = 0;
    while i <= h - n
        invariant
            h == hay@.len(),
            n == needle@.len(),
            n <= h,
            0 <= i <= h - n + 1,
            forall|k: int| 0 <= k < i ==> #[trigger] hay@.subrange(k, k + n) != needle@,
        decreases h - i,
    {
        let mut j: usize = 0;
        let mut same = true;
        while j < n
            invariant
                h == hay@.len(),
                n == needle@.len(),
                i + n <= h,
                0 <= j <= n,
                same == (forall|k: int| 0 <= k < j ==> hay@[i + k] == needle@[k]),
            decreases n - j,
        {
            if hay[i + j] != needle[j] {
                same = false;
            }
            j = j + 1;
        }
        if same {
            assert(hay@.subrange(i as int, i + n) =~= needle@);
            return true;
        }
        assert(hay@.subrange(i as int, i + n) != needle@) by {
            let k = choose|k: int| 0 <= k < n && hay@[i + k] != needle@[k];
            assert(hay@.subrange(i as int, i + n)[k] == hay@[i + k]);
        }
        i = i + 1;
    }
    false
}

/// Whether the text of `needle` occurs in the text of `hay`.
pub fn str_contains(hay: &str, needle: &str) -> (r: bool)
    ensures
        r == seq_contains(hay@, needle@),
{
    let h = chars_of(hay);
    let n = chars_of(needle);
    chars_contain(&h, &n)
}

/// The text of the bytes `start..end` of `source`; `None` where the range
/// leaves `source` or cuts a character.
pub fn text_of_byte_range(source: &str, start: usize, end: usize) -> (r: Option<String>)
    ensures
        r matches Some(t) ==> byte_range_text(source@, start as int, end as int) == Some(t@),
        r is None ==> byte_range_text(source@, start as int, end as int) is None,
{
    let ghost bytes = source.spec_bytes();
    let len = source.as_bytes().len();
    if !(start <= end && end <= len) {
        return None;
    }
    if start == end {
        return Some(String::new());
    }
    if !source.is_char_boundary(start) || !source.is_char_boundary(end) {
        return None;
    }
    proof {
        encode_utf8_valid_utf8(source@);
    }
    let (head, _tail) = source.split_at(end);
    proof {
        assert(head.spec_bytes() =~= bytes.subrange(0, end as int));
        // `start` is a boundary of `head` as it is of `source`
        valid_utf8_split(bytes, end as int);
        lemma_boundary_of_prefix(bytes, end as int, start as int);
    }
    let (_pre, mid) = head.split_at(start);
    proof {
        let hb = bytes.subrange(0, end as int);
        assert(mid.spec_bytes() =~= hb.subrange(start as int, hb.len() as int));
        assert(hb.subrange(start as int, hb.len() as int) =~= bytes.subrange(
            start as int,
            end as int,
        ));
        encode_utf8_decode_utf8(mid@);
    }
    let t = mid.to_owned();
    Some(t)
}

/// A boundary of a valid UTF-8 sequence that lies inside a prefix ending at a
/// boundary is a boundary of that prefix too.
proof fn lemma_boundary_of_prefix(bytes: Seq<u8>, end: int, i: int)
    requires
        valid_utf8(bytes),
        is_char_boundary(bytes, end),
        is_char_boundary(bytes, i),
        0 <= i <= end <= bytes.len(),
    ensures
        is_char_boundary(bytes.subrange(0, end), i),
{
    let pre = bytes.subrange(0, end);
    valid_utf8_split(bytes, end);
    if i == end {
        is_char_boundary_start_end_of_seq(pre);
        assert(pre.len() == end);
    } else {
        is_char_boundary_iff_not_is_continuation_byte(bytes, i);
        is_char_boundary_iff_not_is_continuation_byte(pre, i);
        assert(pre[i] == bytes[i]);
    }
}


/// Encoding a concatenation concatenates the encodings.
proof fn lemma_encode_concat(a: Seq<char>, b: Seq<char>)
    ensures
        encode_utf8(a + b) == encode_utf8(a) + encode_utf8(b),
    decreases a.len(),
{
    if a.len() > 0 {
        assert((a + b)[0] == a[0]);
        assert((a + b).drop_first() =~= a.drop_first() + b);
        lemma_encode_concat(a.drop_first(), b);
        assert(encode_utf8(a + b) =~= encode_utf8(a) + encode_utf8(b));
    } else {
        assert(a + b =~= b);
        assert(encode_utf8(a) + encode_utf8(b) =~= encode_utf8(b));
    }
}

/// A valid one-byte encoding decodes to one character.
proof fn lemma_decode_single_byte(b: Seq<u8>)
    requires
        valid_utf8(b),
        b.len() == 1,
    ensures
        decode_utf8(b).len() == 1,
{
    assert(valid_first_scalar(b));
    let n = length_of_first_scalar(b);
    assert(1 <= n <= b.len());
    assert(pop_first_scalar(b) =~= Seq::<u8>::empty());
    assert(decode_utf8(pop_first_scalar(b)) =~= Seq::<char>::empty());
}

/// A text whose first and last characters are ASCII has character boundaries
/// at the second and the last byte of its encoding.
pub proof fn lemma_ascii_ends_are_boundaries(s: Seq<char>)
    requires
        s.len() >= 2,
        (s[0] as u32) < 128,
        (s.last() as u32) < 128,
    ensures
        encode_utf8(s).len() >= 2,
        is_char_boundary(encode_utf8(s), 1),
        is_char_boundary(encode_utf8(s), encode_utf8(s).len() - 1),
{
    let n = s.len() as int;
    let first = s.subrange(0, 1);
    let mid = s.subrange(1, n - 1);
    let last = s.subrange(n - 1, n);
    assert(s =~= first + (mid + last));
    lemma_encode_concat(first, mid + last);
    lemma_encode_concat(mid, last);
    let c0 = s[0] as u32;
    let cl = s.last() as u32;
    assert(first[0] == s[0] && last[0] == s.last());
    assert(first.drop_first() =~= Seq::<char>::empty());
    assert(last.drop_first() =~= Seq::<char>::empty());
    assert(encode_utf8(Seq::<char>::empty()) =~= Seq::<u8>::empty());
    assert(has_width_1_encoding(c0) && has_width_1_encoding(cl));
    assert(encode_scalar(c0) =~= seq![leading_byte_width_1(c0)]);
    assert(encode_scalar(cl) =~= seq![leading_byte_width_1(cl)]);
    assert(encode_utf8(first) == encode_scalar(c0) + encode_utf8(first.drop_first()));
    assert(encode_utf8(first) =~= seq![leading_byte_width_1(c0)]);
    assert(encode_utf8(last) == encode_scalar(cl) + encode_utf8(last.drop_first()));
    assert(encode_utf8(last) =~= seq![leading_byte_width_1(cl)]);
    let b = encode_utf8(s);
    encode_utf8_first_scalar(s);
    assert(has_width_1_encoding(c0));
    assert(length_of_first_scalar(b) == 1);
    reveal_with_fuel(is_char_boundary, 2);
    assert(is_char_boundary(b, 1));
    let k = b.len() - 1;
    assert(b[k] == leading_byte_width_1(cl));
    assert((cl & 0x7F) as u8 <= 0x7f) by (bit_vector);
    is_char_boundary_iff_not_is_continuation_byte(b, k);
}

/// Where the encoding of `s` has character boundaries at its second and last
/// byte, the bytes between encode the characters between the first and the
/// last.
pub proof fn lemma_inner_bytes(s: Seq<char>)
    requires
        encode_utf8(s).len() >= 2,
        is_char_boundary(encode_utf8(s), 1),
        is_char_boundary(encode_utf8(s), encode_utf8(s).len() - 1),
    ensures
        s.len() >= 2,
        byte_range_text(s, 1, encode_utf8(s).len() - 1) == Some(s.subrange(1, s.len() - 1)),
        encode_utf8(s.subrange(1, s.len() - 1)) == encode_utf8(s).subrange(1, encode_utf8(s).len() - 1),
{
    let b = encode_utf8(s);
    let k = b.len() - 1;
    encode_utf8_valid_utf8(s);
    encode_utf8_decode_utf8(s);
    let pre = b.subrange(0, k);
    valid_utf8_split(b, k);
    decode_utf8_split(b, k);
    lemma_boundary_of_prefix(b, k, 1);
    valid_utf8_split(pre, 1);
    decode_utf8_split(pre, 1);
    let head = pre.subrange(0, 1);
    let sub = pre.subrange(1, k);
    let tail = b.subrange(k, b.len() as int);
    assert(sub =~= b.subrange(1, k));
    assert(head =~= b.subrange(0, 1));
    lemma_decode_single_byte(head);
    lemma_decode_single_byte(tail);
    assert(s =~= decode_utf8(head) + decode_utf8(sub) + decode_utf8(tail));
    assert(s.len() >= 2);
    assert(decode_utf8(sub) =~= s.subrange(1, s.len() - 1));
    decode_utf8_encode_utf8(sub);
    if k == 1 {
        assert(sub =~= Seq::<u8>::empty());
        assert(s.subrange(1, s.len() - 1) =~= Seq::<char>::empty());
    }
}

/// The text of a byte range is what those bytes encode: its UTF-8 encoding
/// is exactly the bytes `start..end` of the source's encoding. And a range
/// inside the source whose ends are character boundaries always has a text.
pub proof fn lemma_byte_range_text_is_those_bytes(source: Seq<char>, start: int, end: int)
    ensures
        byte_range_text(source, start, end) matches Some(t) ==> encode_utf8(t) == encode_utf8(source).subrange(
            start,
            end,
        ),
        0 <= start <= end <= encode_utf8(source).len() && is_char_boundary(encode_utf8(source), start)
            && is_char_boundary(encode_utf8(source), end) ==> byte_range_text(source, start, end) is Some,
{
    let b = encode_utf8(source);
    encode_utf8_valid_utf8(source);
    if 0 <= start == end <= b.len() {
        assert(b.subrange(start, end) =~= Seq::<u8>::empty());
        assert(encode_utf8(Seq::<char>::empty()) =~= Seq::<u8>::empty());
    } else if 0 <= start <= end <= b.len() && is_char_boundary(b, start) && is_char_boundary(b, end) {
        let pre = b.subrange(0, end);
        valid_utf8_split(b, end);
        lemma_boundary_of_prefix(b, end, start);
        valid_utf8_split(pre, start);
        assert(pre.subrange(start, end) =~= b.subrange(start, end));
        decode_utf8_encode_utf8(b.subrange(start, end));
    }
}

/// Whether the `regex` crate accepts `pattern` as a regular expression.
pub uninterp spec fn regex_compiles(pattern: Seq<char>) -> bool;

/// Whether the regular expression `pattern` matches somewhere in `text`,
/// as the `regex` crate decides it.
pub uninterp spec fn regex_finds(pattern: Seq<char>, text: Seq<char>) -> bool;

/// Calls `regex::Regex::new`; the result tells whether it returned `Ok`,
/// which depends on `pattern` alone.
#[verifier::external_body]
pub(crate) fn regex_is_valid(pattern: &str) -> (r: bool)
    ensures
        r == regex_compiles(pattern@),
{
    regex::Regex::new(pattern).is_ok()
}

/// Compiles `pattern` with `regex::Regex::new` and, where that succeeds, asks
/// `regex::Regex::is_match` whether it matches somewhere in `text`.
#[verifier::external_body]
pub(crate) fn regex_is_match(pattern: &str, text: &str) -> (r: Option<bool>)
    ensures
        r is Some <==> regex_compiles(pattern@),
        r matches Some(b) ==> b == regex_finds(pattern@, text@),
{
    match regex::Regex::new(pattern) {
        Ok(re) => Some(re.is_match(text)),
        Err(_) => None,
    }
}

} // verus!
