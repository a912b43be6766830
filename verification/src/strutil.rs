//! Verified string utilities over UTF-8 byte sequences.
//!
//! The executable code works on `&str` values; the contracts speak of the
//! UTF-8 bytes of those strings (`spec_bytes`) or of their character
//! sequences (`@`), as each caller needs.

use vstd::prelude::*;
use vstd::string::StrSliceExecFns;
use vstd::string::StringExecFns;
use vstd::string::StringSliceAdditionalSpecFns;
use vstd::utf8::encode_utf8_valid_utf8;
use vstd::utf8::is_char_boundary;
use vstd::utf8::is_char_boundary_iff_not_is_continuation_byte;
use vstd::utf8::is_char_boundary_start_end_of_seq;
use vstd::utf8::is_continuation_byte;
use vstd::utf8::length_of_first_scalar;
use vstd::utf8::pop_first_scalar;
use vstd::utf8::valid_utf8;

verus! {

/// The needle occurs in the haystack at byte offset `i`.
pub open spec fn spec_contains_at(hay: Seq<u8>, needle: Seq<u8>, i: int) -> bool {
    0 <= i && i + needle.len() <= hay.len() && hay.subrange(i, i + needle.len() as int) == needle
}

/// The needle occurs somewhere in the haystack.
pub open spec fn spec_contains(hay: Seq<u8>, needle: Seq<u8>) -> bool {
    exists|i: int| spec_contains_at(hay, needle, i)
}

/// ASCII upper-case letters mapped to lower case; all other bytes unchanged.
pub open spec fn spec_lower_byte(b: u8) -> u8 {
    if 0x41 <= b <= 0x5a {
        (b + 0x20) as u8
    } else {
        b
    }
}

/// Byte-wise ASCII lower-casing of a byte sequence.
pub open spec fn spec_lower(bytes: Seq<u8>) -> Seq<u8> {
    bytes.map_values(|b: u8| spec_lower_byte(b))
}

/// ASCII whitespace: space, tab, line feed, carriage return.
pub open spec fn spec_ws_byte(b: u8) -> bool {
    b == 0x20 || b == 0x09 || b == 0x0a || b == 0x0d
}

/// The byte sequence with its leading ASCII whitespace removed.
pub open spec fn spec_trim_start(bytes: Seq<u8>) -> Seq<u8>
    decreases bytes.len(),
{
    if bytes.len() > 0 && spec_ws_byte(bytes[0]) {
        spec_trim_start(bytes.drop_first())
    } else {
        bytes
    }
}

/// The byte sequence with its trailing ASCII whitespace removed.
pub open spec fn spec_trim_end(bytes: Seq<u8>) -> Seq<u8>
    decreases bytes.len(),
{
    if bytes.len() > 0 && spec_ws_byte(bytes[bytes.len() - 1]) {
        spec_trim_end(bytes.drop_last())
    } else {
        bytes
    }
}

/// The byte sequence with ASCII whitespace removed from both ends.
pub open spec fn spec_trim(bytes: Seq<u8>) -> Seq<u8> {
    spec_trim_end(spec_trim_start(bytes))
}

/// The decimal digit character for a value below ten.
pub open spec fn spec_digit_char(d: int) -> char {
    if d == 0 {
        '0'
    } else if d == 1 {
        '1'
    } else if d == 2 {
        '2'
    } else if d == 3 {
        '3'
    } else if d == 4 {
        '4'
    } else if d == 5 {
        '5'
    } else if d == 6 {
        '6'
    } else if d == 7 {
        '7'
    } else if d == 8 {
        '8'
    } else {
        '9'
    }
}

/// The decimal digit characters of a non-negative number, most significant
/// first, without leading zeroes (a lone zero for zero itself).
pub open spec fn spec_dec(n: int) -> Seq<char>
    recommends
        n >= 0,
    decreases n,
{
    if n < 10 {
        seq![spec_digit_char(n)]
    } else {
        spec_dec(n / 10).push(spec_digit_char(n % 10))
    }
}

/// UTF-8 encoding distributes over concatenation.
pub proof fn lemma_encode_concat(a: Seq<char>, b: Seq<char>)
    ensures
        vstd::utf8::encode_utf8(a + b) == vstd::utf8::encode_utf8(a) + vstd::utf8::encode_utf8(b),
    decreases a.len(),
{
    if a.len() == 0 {
        assert(a + b =~= b);
        assert(vstd::utf8::encode_utf8(a) =~= Seq::<u8>::empty());
        assert(vstd::utf8::encode_utf8(a) + vstd::utf8::encode_utf8(b) =~= vstd::utf8::encode_utf8(
            b,
        ));
    } else {
        assert((a + b)[0] == a[0]);
        assert((a + b).drop_first() =~= a.drop_first() + b);
        lemma_encode_concat(a.drop_first(), b);
        assert(vstd::utf8::encode_utf8(a + b) =~= vstd::utf8::encode_utf8(a)
            + vstd::utf8::encode_utf8(b));
    }
}

/// In valid UTF-8, the position after an ASCII byte is a character boundary:
/// an ASCII byte is a complete one-byte scalar, so the next scalar (or the
/// end of the sequence) starts right after it.
pub proof fn lemma_boundary_after_ascii(bytes: Seq<u8>, i: int)
    requires
        valid_utf8(bytes),
        0 <= i < bytes.len(),
        bytes[i] < 0x80,
    ensures
        is_char_boundary(bytes, i + 1),
    decreases bytes.len(),
{
    reveal_with_fuel(valid_utf8, 2);
    reveal_with_fuel(is_char_boundary, 2);
    let l = length_of_first_scalar(bytes);
    if i < l {
        // Continuation bytes are 0x80..0xbf, so an ASCII byte inside the
        // first scalar can only be its leading byte, which makes it a
        // one-byte scalar.
        assert(i == 0);
        assert(l == 1);
        assert(is_char_boundary(pop_first_scalar(bytes), 0));
    } else {
        lemma_boundary_after_ascii(pop_first_scalar(bytes), i - l);
    }
}

/// Leading whitespace removal keeps a suffix: dropping `k` leading
/// whitespace bytes, where byte `k` is not whitespace (or `k` is the end),
/// leaves exactly the suffix from `k`.
pub proof fn lemma_trim_start_subrange(bytes: Seq<u8>, k: int)
    requires
        0 <= k <= bytes.len(),
        forall|j: int| 0 <= j < k ==> spec_ws_byte(#[trigger] bytes[j]),
        k == bytes.len() || !spec_ws_byte(bytes[k]),
    ensures
        spec_trim_start(bytes) == bytes.subrange(k, bytes.len() as int),
    decreases k,
{
    if k == 0 {
        assert(bytes.subrange(0, bytes.len() as int) =~= bytes);
    } else {
        lemma_trim_start_subrange(bytes.drop_first(), k - 1);
        assert(bytes.drop_first().subrange(k - 1, bytes.drop_first().len() as int) =~= bytes
            .subrange(k, bytes.len() as int));
    }
}

/// Trailing whitespace removal keeps a prefix, stated like
/// `lemma_trim_start_subrange` but from the right end.
pub proof fn lemma_trim_end_subrange(bytes: Seq<u8>, k: int)
    requires
        0 <= k <= bytes.len(),
        forall|j: int| k <= j < bytes.len() ==> spec_ws_byte(#[trigger] bytes[j]),
        k == 0 || !spec_ws_byte(bytes[k - 1]),
    ensures
        spec_trim_end(bytes) == bytes.subrange(0, k),
    decreases bytes.len() - k,
{
    if k == bytes.len() {
        assert(bytes.subrange(0, k) =~= bytes);
    } else {
        lemma_trim_end_subrange(bytes.drop_last(), k);
        assert(bytes.drop_last().subrange(0, k) =~= bytes.subrange(0, k));
    }
}

/// Byte index right after the last `/` of a path, or 0 when there is none:
/// where the file name starts.
pub open spec fn spec_file_start(b: Seq<u8>) -> int
    decreases b.len(),
{
    if b.len() == 0 {
        0
    } else if b[b.len() - 1] == 0x2f {
        b.len() as int
    } else {
        spec_file_start(b.drop_last())
    }
}

/// Byte index of the last `.`, or -1 when there is none.
pub open spec fn spec_dot_pos(b: Seq<u8>) -> int
    decreases b.len(),
{
    if b.len() == 0 {
        -1
    } else if b[b.len() - 1] == 0x2e {
        b.len() - 1
    } else {
        spec_dot_pos(b.drop_last())
    }
}

/// The extension of a path: the bytes after the last `.` of the file name,
/// provided that dot is not the file name's first byte.
pub open spec fn spec_extension(b: Seq<u8>) -> Option<Seq<u8>> {
    let fs = spec_file_start(b);
    let comp = b.subrange(fs, b.len() as int);
    let dp = spec_dot_pos(comp);
    if dp > 0 {
        Some(comp.subrange(dp + 1, comp.len() as int))
    } else {
        None
    }
}

pub proof fn lemma_file_start_at(b: Seq<u8>, k: int)
    requires
        0 <= k <= b.len(),
        k == 0 || b[k - 1] == 0x2f,
        forall|j: int| k <= j < b.len() ==> #[trigger] b[j] != 0x2f,
    ensures
        spec_file_start(b) == k,
    decreases b.len() - k,
{
    if b.len() > k {
        lemma_file_start_at(b.drop_last(), k);
    }
}

pub proof fn lemma_file_start_props(b: Seq<u8>)
    ensures
        0 <= spec_file_start(b) <= b.len(),
        spec_file_start(b) == 0 || b[spec_file_start(b) - 1] == 0x2f,
        forall|j: int| spec_file_start(b) <= j < b.len() ==> #[trigger] b[j] != 0x2f,
    decreases b.len(),
{
    if b.len() > 0 && b[b.len() - 1] != 0x2f {
        lemma_file_start_props(b.drop_last());
        assert(forall|j: int|
            spec_file_start(b) <= j < b.len() - 1 ==> #[trigger] b[j] == b.drop_last()[j]);
    }
}

pub proof fn lemma_dot_pos_at(b: Seq<u8>, p: int)
    requires
        -1 <= p < b.len(),
        p == -1 || b[p] == 0x2e,
        forall|j: int| p < j < b.len() ==> #[trigger] b[j] != 0x2e,
    ensures
        spec_dot_pos(b) == p,
    decreases b.len() - p,
{
    if b.len() > p + 1 {
        lemma_dot_pos_at(b.drop_last(), p);
    }
}

/// The extension of a path, as `spec_extension` describes it.
pub fn extension_of(path: &str) -> (r: Option<&str>)
    ensures
        match r {
            Some(e) => spec_extension(path.spec_bytes()) == Some(e.spec_bytes()),
            None => spec_extension(path.spec_bytes()) is None,
        },
{
    proof {
        encode_utf8_valid_utf8(path@);
        is_char_boundary_start_end_of_seq(path.spec_bytes());
    }
    let b = path.as_bytes();
    let len = b.len();
    // Scan backwards for the last `.`, stopping at a `/`.
    let mut i: usize = len;
    while i > 0 && b[i - 1] != 0x2e && b[i - 1] != 0x2f
        invariant
            b@ == path.spec_bytes(),
            len == b@.len(),
            0 <= i <= len,
            forall|j: int| i <= j < len ==> #[trigger] b@[j] != 0x2e && b@[j] != 0x2f,
        decreases i,
    {
        i = i - 1;
    }
    if i == 0 || b[i - 1] == 0x2f {
        // No dot in the file name at all.
        proof {
            let fs = spec_file_start(b@);
            lemma_file_start_at(b@, i as int);
            let comp = b@.subrange(i as int, len as int);
            assert(forall|j: int| 0 <= j < comp.len() ==> #[trigger] comp[j] != 0x2e);
            lemma_dot_pos_at(comp, -1);
        }
        return None;
    }
    let p = i - 1;
    // `p` is the last dot; find whether any `/` stands after the dot (none
    // can) and where the file name starts.
    if p == 0 || b[p - 1] == 0x2f {
        // The dot is the first byte of the file name.
        proof {
            lemma_file_start_at(b@, p as int);
            let comp = b@.subrange(p as int, len as int);
            assert(comp[0] == 0x2e);
            assert(forall|j: int| 0 < j < comp.len() ==> #[trigger] comp[j] != 0x2e);
            lemma_dot_pos_at(comp, 0);
        }
        return None;
    }
    proof {
        lemma_boundary_after_ascii(b@, p as int);
    }
    let (_, tail) = path.split_at(p + 1);
    proof {
        let fs = spec_file_start(b@);
        lemma_file_start_props(b@);
        assert(forall|j: int| p <= j < len ==> #[trigger] b@[j] != 0x2f);
        assert(fs < p) by {
            if fs >= p {
                // `fs > 0` here, so the byte before it is a slash; yet no
                // slash stands at or after `p`, and the byte before `p` is
                // not a slash either.
                assert(b@[fs - 1] == 0x2f);
                assert(fs - 1 >= p || fs - 1 == p - 1);
            }
        }
        let comp = b@.subrange(fs, len as int);
        assert(comp[p - fs] == 0x2e);
        assert(forall|j: int| p - fs < j < comp.len() ==> #[trigger] comp[j] != 0x2e);
        lemma_dot_pos_at(comp, p - fs);
        assert(comp.subrange(p - fs + 1, comp.len() as int) =~= b@.subrange(p + 1, len as int));
        assert(tail.spec_bytes() =~= b@.subrange(p + 1, len as int));
    }
    Some(tail)
}

/// Whether `needle` occurs in `hay` as a byte substring.
pub fn str_contains(hay: &str, needle: &str) -> (r: bool)
    ensures
        r == spec_contains(hay.spec_bytes(), needle.spec_bytes()),
{
    let h = hay.as_bytes();
    let n = needle.as_bytes();
    let hlen = h.len();
    let nlen = n.len();
    if nlen > hlen {
        return false;
    }
    let mut i: usize = 0;
    while i <= hlen - nlen
        invariant
            h@ == hay.spec_bytes(),
            n@ == needle.spec_bytes(),
            hlen == h@.len(),
            nlen == n@.len(),
            nlen <= hlen,
            0 <= i <= hlen - nlen + 1,
            forall|p: int| 0 <= p < i ==> !spec_contains_at(h@, n@, p),
        decreases hlen - nlen - i + 1,
    {
        let mut j: usize = 0;
        let mut matched = true;
        while j < nlen
            invariant
                h@ == hay.spec_bytes(),
                n@ == needle.spec_bytes(),
                hlen == h@.len(),
                nlen == n@.len(),
                i + nlen <= hlen,
                0 <= j <= nlen,
                matched <==> (forall|q: int| 0 <= q < j ==> h@[i + q] == n@[q]),
            decreases nlen - j,
        {
            if h[i + j] != n[j] {
                matched = false;
                j = nlen;
            } else {
                j = j + 1;
            }
        }
        if matched {
            assert(h@.subrange(i as int, i + nlen) =~= n@);
            assert(spec_contains_at(h@, n@, i as int));
            return true;
        }
        assert(!spec_contains_at(h@, n@, i as int)) by {
            if spec_contains_at(h@, n@, i as int) {
                assert(forall|q: int|
                    0 <= q < nlen ==> h@[i + q] == #[trigger] h@.subrange(i as int, i + nlen)[q]);
            }
        }
        i = i + 1;
    }
    assert(forall|p: int| spec_contains_at(h@, n@, p) ==> 0 <= p < i);
    false
}

/// Whether two strings hold the same text.
pub fn str_eq(a: &str, b: &str) -> (r: bool)
    ensures
        r == (a.spec_bytes() == b.spec_bytes()),
        r == (a@ == b@),
{
    proof {
        vstd::utf8::encode_utf8_decode_utf8(a@);
        vstd::utf8::encode_utf8_decode_utf8(b@);
    }
    let ab = a.as_bytes();
    let bb = b.as_bytes();
    let alen = ab.len();
    if alen != bb.len() {
        return false;
    }
    let mut i: usize = 0;
    while i < alen
        invariant
            ab@ == a.spec_bytes(),
            bb@ == b.spec_bytes(),
            alen == ab@.len(),
            alen == bb@.len(),
            0 <= i <= alen,
            forall|q: int| 0 <= q < i ==> ab@[q] == bb@[q],
        decreases alen - i,
    {
        if ab[i] != bb[i] {
            assert(a.spec_bytes() != b.spec_bytes());
            return false;
        }
        i = i + 1;
    }
    assert(a.spec_bytes() =~= b.spec_bytes());
    true
}

/// Whether two strings are equal up to ASCII case.
pub fn eq_ignore_ascii(a: &str, b: &str) -> (r: bool)
    ensures
        r == (spec_lower(a.spec_bytes()) == spec_lower(b.spec_bytes())),
{
    let ab = a.as_bytes();
    let bb = b.as_bytes();
    let alen = ab.len();
    if alen != bb.len() {
        assert(spec_lower(ab@).len() != spec_lower(bb@).len());
        return false;
    }
    let mut i: usize = 0;
    while i < alen
        invariant
            ab@ == a.spec_bytes(),
            bb@ == b.spec_bytes(),
            alen == ab@.len(),
            alen == bb@.len(),
            0 <= i <= alen,
            forall|q: int|
                0 <= q < i ==> spec_lower_byte(#[trigger] ab@[q]) == spec_lower_byte(bb@[q]),
        decreases alen - i,
    {
        let x = ab[i];
        let y = bb[i];
        let lx = if 0x41 <= x && x <= 0x5a {
            x + 0x20
        } else {
            x
        };
        let ly = if 0x41 <= y && y <= 0x5a {
            y + 0x20
        } else {
            y
        };
        if lx != ly {
            assert(spec_lower(ab@)[i as int] != spec_lower(bb@)[i as int]);
            return false;
        }
        i = i + 1;
    }
    assert(spec_lower(ab@) =~= spec_lower(bb@));
    true
}

/// A one-character string for a decimal digit.
fn digit_str(d: usize) -> (r: &'static str)
    requires
        d < 10,
    ensures
        r@ == seq![spec_digit_char(d as int)],
        r.is_ascii(),
{
    proof {
        reveal_strlit("0");
        reveal_strlit("1");
        reveal_strlit("2");
        reveal_strlit("3");
        reveal_strlit("4");
        reveal_strlit("5");
        reveal_strlit("6");
        reveal_strlit("7");
        reveal_strlit("8");
        reveal_strlit("9");
    }
    let r: &'static str = if d == 0 {
        "0"
    } else if d == 1 {
        "1"
    } else if d == 2 {
        "2"
    } else if d == 3 {
        "3"
    } else if d == 4 {
        "4"
    } else if d == 5 {
        "5"
    } else if d == 6 {
        "6"
    } else if d == 7 {
        "7"
    } else if d == 8 {
        "8"
    } else {
        "9"
    };
    assert(r@ =~= seq![spec_digit_char(d as int)]);
    r
}

/// The decimal rendering of a number.
pub fn usize_to_string(n: usize) -> (r: String)
    ensures
        r@ == spec_dec(n as int),
    decreases n,
{
    if n < 10 {
        let mut s = String::new();
        s.append(digit_str(n));
        assert(s@ =~= spec_dec(n as int));
        s
    } else {
        let mut s = usize_to_string(n / 10);
        s.append(digit_str(n % 10));
        assert(s@ =~= spec_dec(n as int));
        s
    }
}

/// The string with ASCII whitespace removed from both ends.
pub fn trim_ascii(s: &str) -> (r: &str)
    ensures
        r.spec_bytes() == spec_trim(s.spec_bytes()),
{
    proof {
        encode_utf8_valid_utf8(s@);
        is_char_boundary_start_end_of_seq(s.spec_bytes());
    }
    let b = s.as_bytes();
    let len = b.len();
    let mut start: usize = 0;
    while start < len && (b[start] == 0x20 || b[start] == 0x09 || b[start] == 0x0a || b[start]
        == 0x0d)
        invariant
            b@ == s.spec_bytes(),
            len == b@.len(),
            0 <= start <= len,
            forall|j: int| 0 <= j < start ==> spec_ws_byte(#[trigger] b@[j]),
        decreases len - start,
    {
        start = start + 1;
    }
    proof {
        lemma_trim_start_subrange(b@, start as int);
        if start > 0 {
            lemma_boundary_after_ascii(b@, start - 1);
        }
    }
    let mut end: usize = len;
    while end > start && (b[end - 1] == 0x20 || b[end - 1] == 0x09 || b[end - 1] == 0x0a || b[end
        - 1] == 0x0d)
        invariant
            b@ == s.spec_bytes(),
            len == b@.len(),
            0 <= start <= end <= len,
            forall|j: int| end <= j < len ==> spec_ws_byte(#[trigger] b@[j]),
        decreases end,
    {
        end = end - 1;
    }
    let (_, tail) = s.split_at(start);
    proof {
        encode_utf8_valid_utf8(tail@);
        is_char_boundary_start_end_of_seq(tail.spec_bytes());
        if end < len {
            // The first trimmed trailing byte is ASCII whitespace, so the
            // cut falls on a character boundary.
            assert(tail.spec_bytes()[end - start] == b@[end as int]);
            assert(spec_ws_byte(b@[end as int]));
            is_char_boundary_iff_not_is_continuation_byte(tail.spec_bytes(), end - start);
            assert(!is_continuation_byte(tail.spec_bytes()[end - start]));
        }
    }
    let (mid, _) = tail.split_at(end - start);
    proof {
        let trimmed_start = b@.subrange(start as int, len as int);
        assert(mid.spec_bytes() =~= trimmed_start.subrange(0, end - start));
        // The suffix kept by the start trim ends with the same whitespace run.
        assert(forall|j: int|
            end - start <= j < trimmed_start.len() ==> spec_ws_byte(#[trigger] trimmed_start[j]));
        if end > start {
            assert(!spec_ws_byte(trimmed_start[end - start - 1]));
        }
        lemma_trim_end_subrange(trimmed_start, end - start);
    }
    mid
}

} // verus!
