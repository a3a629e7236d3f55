//! Byte-level helpers shared by the source-map and excerpt code: newline
//! scanning, copying byte ranges, and the facts about UTF-8 that let a
//! byte range cut at line boundaries be turned back into a `String`.
use vstd::prelude::*;
use vstd::utf8::*;

verus! {

broadcast use vstd::seq::group_seq_axioms;

/// Line feed.
pub const NEWLINE: u8 = 10;

/// Carriage return.
pub const CARRIAGE_RETURN: u8 = 13;

/// A byte that is a one-byte (ASCII) UTF-8 scalar.
pub open spec fn is_ascii_byte(b: u8) -> bool {
    b <= 0x7f
}

/// Every byte of `s` is ASCII.
pub open spec fn all_ascii(s: Seq<u8>) -> bool {
    forall|i: int| 0 <= i < s.len() ==> is_ascii_byte(#[trigger] s[i])
}

/// The first index at or after `from` that holds a line feed; when there is
/// none, the larger of `from` and the length of `bytes`.
pub open spec fn scan_newline(bytes: Seq<u8>, from: int) -> int
    decreases bytes.len() - from,
{
    if from >= bytes.len() {
        from
    } else if from >= 0 && bytes[from] == NEWLINE {
        from
    } else if from < 0 {
        scan_newline(bytes, 0)
    } else {
        scan_newline(bytes, from + 1)
    }
}

/// `scan_newline` never moves backwards, and stops either on a line feed or at
/// the end of the bytes, having passed over no line feed.
pub proof fn lemma_scan_newline(bytes: Seq<u8>, from: int)
    requires
        from >= 0,
    ensures
        scan_newline(bytes, from) >= from,
        scan_newline(bytes, from) < bytes.len() ==> bytes[scan_newline(bytes, from)] == NEWLINE,
        scan_newline(bytes, from) >= bytes.len() ==> scan_newline(bytes, from) == if from
            > bytes.len() {
            from
        } else {
            bytes.len() as int
        },
        forall|k: int| from <= k < scan_newline(bytes, from) ==> k < bytes.len() && #[trigger] bytes[k]
            != NEWLINE,
    decreases bytes.len() - from,
{
    if from >= bytes.len() {
    } else if bytes[from] == NEWLINE {
    } else {
        lemma_scan_newline(bytes, from + 1);
    }
}

/// Scanning from an index that holds no line feed gives the same answer as
/// scanning from the next index.
pub proof fn lemma_scan_newline_step(bytes: Seq<u8>, from: int)
    requires
        0 <= from < bytes.len(),
        bytes[from] != NEWLINE,
    ensures
        scan_newline(bytes, from) == scan_newline(bytes, from + 1),
{
}

/// Copies `bytes[from..to]` into a fresh vector.
pub fn copy_range(bytes: &[u8], from: usize, to: usize) -> (r: Vec<u8>)
    requires
        from <= to <= bytes@.len(),
    ensures
        r@ == bytes@.subrange(from as int, to as int),
{
    let mut r: Vec<u8> = Vec::new();
    let mut i = from;
    while i < to
        invariant
            from <= i <= to <= bytes@.len(),
            r@ == bytes@.subrange(from as int, i as int),
        decreases to - i,
    {
        r.push(bytes[i]);
        i += 1;
        assert(r@ =~= bytes@.subrange(from as int, i as int));
    }
    r
}

/// Appends every byte of `tail` to `out`.
pub fn append_bytes(out: &mut Vec<u8>, tail: &[u8])
    ensures
        final(out)@ == old(out)@ + tail@,
{
    let mut i: usize = 0;
    let ghost start = out@;
    while i < tail.len()
        invariant
            i <= tail@.len(),
            out@ == start + tail@.subrange(0, i as int),
        decreases tail@.len() - i,
    {
        out.push(tail[i]);
        i += 1;
        assert(out@ =~= start + tail@.subrange(0, i as int));
    }
    assert(tail@.subrange(0, tail@.len() as int) =~= tail@);
}

/// std's `String::from_utf8`: the documentation says that it returns the
/// bytes as a `String` when they are valid UTF-8 and an error otherwise. The
/// contract claims exactly that, with the string's characters being the
/// UTF-8 decoding of the bytes; the error value itself is dropped.
#[verifier::external_body]
pub(crate) fn string_from_utf8(bytes: Vec<u8>) -> (r: Option<String>)
    ensures
        r is Some <==> valid_utf8(bytes@),
        r matches Some(s) ==> s@ == decode_utf8(bytes@),
{
    String::from_utf8(bytes).ok()
}

/// Converts bytes known to be valid UTF-8 into a `String`.
pub fn bytes_to_string(bytes: Vec<u8>) -> (r: String)
    requires
        valid_utf8(bytes@),
    ensures
        r@ == decode_utf8(bytes@),
{
    let converted = string_from_utf8(bytes);
    match converted {
        Some(s) => s,
        None => {
            assert(false);
            String::new()
        },
    }
}

/// A single ASCII byte is valid UTF-8.
pub proof fn lemma_ascii_byte_valid(b: u8)
    requires
        is_ascii_byte(b),
    ensures
        valid_utf8(seq![b]),
{
    let s = seq![b];
    assert((b & 0x7Fu8) == b) by (bit_vector)
        requires
            b <= 0x7f,
    ;
    assert(s.subrange(1, 1) =~= Seq::<u8>::empty());
    assert(pop_first_scalar(s) =~= Seq::<u8>::empty());
    assert(valid_utf8(Seq::<u8>::empty()));
    reveal_with_fuel(valid_utf8, 2);
}

/// A sequence of ASCII bytes is valid UTF-8.
pub proof fn lemma_ascii_valid(s: Seq<u8>)
    requires
        all_ascii(s),
    ensures
        valid_utf8(s),
    decreases s.len(),
{
    if s.len() == 0 {
    } else {
        let head = seq![s[0]];
        let rest = s.subrange(1, s.len() as int);
        assert(is_ascii_byte(s[0]));
        lemma_ascii_byte_valid(s[0]);
        assert(all_ascii(rest)) by {
            assert forall|i: int| 0 <= i < rest.len() implies is_ascii_byte(#[trigger] rest[i]) by {
                assert(rest[i] == s[i + 1]);
            }
        }
        lemma_ascii_valid(rest);
        valid_utf8_concat(head, rest);
        assert(head + rest =~= s);
    }
}

/// An index at which valid UTF-8 may be cut: either end, or next to an ASCII
/// byte on either side.
pub open spec fn is_cut_point(bytes: Seq<u8>, k: int) -> bool {
    ||| k == 0
    ||| k == bytes.len()
    ||| (0 < k <= bytes.len() && is_ascii_byte(bytes[k - 1]))
    ||| (0 <= k < bytes.len() && is_ascii_byte(bytes[k]))
}

/// Cutting valid UTF-8 at a cut point leaves two valid halves.
pub proof fn lemma_cut(bytes: Seq<u8>, k: int)
    requires
        valid_utf8(bytes),
        0 <= k <= bytes.len(),
        is_cut_point(bytes, k),
    ensures
        valid_utf8(bytes.subrange(0, k)),
        valid_utf8(bytes.subrange(k, bytes.len() as int)),
{
    if k == 0 {
        assert(bytes.subrange(0, 0) =~= Seq::<u8>::empty());
        assert(bytes.subrange(0, bytes.len() as int) =~= bytes);
    } else if k == bytes.len() {
        assert(bytes.subrange(k, k) =~= Seq::<u8>::empty());
        assert(bytes.subrange(0, bytes.len() as int) =~= bytes);
    } else if is_ascii_byte(bytes[k]) {
        is_char_boundary_iff_not_is_continuation_byte(bytes, k);
        valid_utf8_split(bytes, k);
    } else {
        let j = k - 1;
        assert(is_ascii_byte(bytes[j]));
        is_char_boundary_iff_not_is_continuation_byte(bytes, j);
        valid_utf8_split(bytes, j);
        let pre = bytes.subrange(0, j);
        let suf = bytes.subrange(j, bytes.len() as int);
        assert(suf[0] == bytes[j]);
        assert(valid_utf8(pop_first_scalar(suf)));
        assert(length_of_first_scalar(suf) == 1);
        assert(pop_first_scalar(suf) =~= bytes.subrange(k, bytes.len() as int));
        lemma_ascii_byte_valid(bytes[j]);
        valid_utf8_concat(pre, seq![bytes[j]]);
        assert(pre + seq![bytes[j]] =~= bytes.subrange(0, k));
    }
}

/// The bytes between two cut points of valid UTF-8 are valid UTF-8.
pub proof fn lemma_segment(bytes: Seq<u8>, a: int, b: int)
    requires
        valid_utf8(bytes),
        0 <= a <= b <= bytes.len(),
        is_cut_point(bytes, a),
        is_cut_point(bytes, b),
    ensures
        valid_utf8(bytes.subrange(a, b)),
{
    lemma_cut(bytes, a);
    let s = bytes.subrange(a, bytes.len() as int);
    let m = b - a;
    if m == 0 {
    } else if b == bytes.len() {
        assert(m == s.len());
    } else if 0 < b && is_ascii_byte(bytes[b - 1]) {
        assert(s[m - 1] == bytes[b - 1]);
    } else {
        assert(s[m] == bytes[b]);
    }
    assert(is_cut_point(s, m));
    lemma_cut(s, m);
    assert(s.subrange(0, m) =~= bytes.subrange(a, b));
}


/// `prefix` is a prefix of `bytes`.
pub open spec fn bytes_start_with(bytes: Seq<u8>, prefix: Seq<u8>) -> bool {
    prefix.len() <= bytes.len() && bytes.subrange(0, prefix.len() as int) == prefix
}

/// `suffix` is a suffix of `bytes`.
pub open spec fn bytes_end_with(bytes: Seq<u8>, suffix: Seq<u8>) -> bool {
    suffix.len() <= bytes.len() && bytes.subrange(
        bytes.len() - suffix.len(),
        bytes.len() as int,
    ) == suffix
}

/// `needle` occurs somewhere in `bytes`.
pub open spec fn bytes_contain(bytes: Seq<u8>, needle: Seq<u8>) -> bool {
    exists|i: int|
        0 <= i && i + needle.len() <= bytes.len() && #[trigger] bytes.subrange(
            i,
            i + needle.len(),
        ) == needle
}

/// Whether `b[0..n]` equals `a[at..at + n]`.
fn bytes_match_at(a: &[u8], at: usize, b: &[u8]) -> (r: bool)
    requires
        at + b@.len() <= a@.len(),
    ensures
        r == (a@.subrange(at as int, at + b@.len()) == b@),
{
    let alen = a.len();
    let mut i: usize = 0;
    while i < b.len()
        invariant
            alen == a@.len(),
            at + b@.len() <= a@.len(),
            i <= b@.len(),
            forall|k: int| 0 <= k < i ==> a@[at + k] == b@[k],
        decreases b@.len() - i,
    {
        if a[at + i] != b[i] {
            proof {
                assert(a@.subrange(at as int, at + b@.len())[i as int] != b@[i as int]);
            }
            return false;
        }
        i += 1;
    }
    proof {
        assert(a@.subrange(at as int, at + b@.len()) =~= b@);
    }
    true
}

/// Two strings hold the same characters.
pub fn str_eq(a: &str, b: &str) -> (r: bool)
    ensures
        r == (a@ == b@),
{
    let x = a.as_bytes();
    let y = b.as_bytes();
    proof {
        encode_utf8_decode_utf8(a@);
        encode_utf8_decode_utf8(b@);
    }
    if x.len() != y.len() {
        return false;
    }
    let same = bytes_match_at(x, 0, y);
    proof {
        assert(x@.subrange(0, y@.len() as int) =~= x@);
    }
    same
}

/// An optional string holding exactly `text`.
pub open spec fn opt_is(o: Option<String>, text: Seq<char>) -> bool {
    match o {
        Some(s) => s@ == text,
        None => false,
    }
}

/// Whether an optional string holds exactly `text`.
pub fn opt_str_eq(o: &Option<String>, text: &str) -> (r: bool)
    ensures
        r == opt_is(*o, text@),
{
    match o {
        Some(s) => str_eq(s.as_str(), text),
        None => false,
    }
}

/// The encoding of `s` starts with the encoding of `prefix`.
pub fn str_starts_with(s: &str, prefix: &str) -> (r: bool)
    ensures
        r == bytes_start_with(encode_utf8(s@), encode_utf8(prefix@)),
{
    let x = s.as_bytes();
    let y = prefix.as_bytes();
    if y.len() > x.len() {
        return false;
    }
    bytes_match_at(x, 0, y)
}

/// The encoding of `s` ends with the encoding of `suffix`.
pub fn str_ends_with(s: &str, suffix: &str) -> (r: bool)
    ensures
        r == bytes_end_with(encode_utf8(s@), encode_utf8(suffix@)),
{
    let x = s.as_bytes();
    let y = suffix.as_bytes();
    if y.len() > x.len() {
        return false;
    }
    bytes_match_at(x, x.len() - y.len(), y)
}

/// The encoding of `needle` occurs in the encoding of `s`.
pub fn str_contains(s: &str, needle: &str) -> (r: bool)
    ensures
        r == bytes_contain(encode_utf8(s@), encode_utf8(needle@)),
{
    let x = s.as_bytes();
    let y = needle.as_bytes();
    if y.len() > x.len() {
        proof {
            assert forall|i: int|
                0 <= i && i + y@.len() <= x@.len() implies #[trigger] x@.subrange(
                i,
                i + y@.len(),
            ) != y@ by {}
        }
        return false;
    }
    let last = x.len() - y.len();
    let mut i: usize = 0;
    loop
        invariant
            i <= last,
            x@ == encode_utf8(s@),
            y@ == encode_utf8(needle@),
            last + y@.len() == x@.len(),
            forall|k: int| 0 <= k < i ==> #[trigger] x@.subrange(k, k + y@.len()) != y@,
        ensures
            i == last,
            forall|k: int| 0 <= k <= last ==> #[trigger] x@.subrange(k, k + y@.len()) != y@,
        decreases last - i,
    {
        if bytes_match_at(x, i, y) {
            proof {
                let w = i as int;
                assert(x@.subrange(w, w + y@.len()) == y@);
                assert(bytes_contain(x@, y@));
            }
            return true;
        }
        if i == last {
            break;
        }
        i += 1;
    }
    proof {
        assert forall|k: int|
            0 <= k && k + y@.len() <= x@.len() implies #[trigger] x@.subrange(k, k + y@.len())
            != y@ by {
            assert(k <= last);
        }
    }
    false
}

/// The decimal digits of `n`, most significant first (`"0"` for zero).
pub open spec fn decimal(n: nat) -> Seq<char>
    decreases n,
{
    if n < 10 {
        seq![digit_char(n)]
    } else {
        decimal(n / 10).push(digit_char(n % 10))
    }
}

/// The character of a decimal digit.
pub open spec fn digit_char(d: nat) -> char {
    if d == 0 {
        '0'
    } else if d == 1 {
        '1'
    } else if d == 2 {
        '2'
    } else if d == 3 {
        '3'
    } else if d == 4 {
        '4'
    } else if d == 5 {
        '5'
    } else if d == 6 {
        '6'
    } else if d == 7 {
        '7'
    } else if d == 8 {
        '8'
    } else {
        '9'
    }
}

fn digit_string(d: usize) -> (r: String)
    requires
        d < 10,
    ensures
        r@ == seq![digit_char(d as nat)],
{
    let s = if d == 0 {
        "0"
    } else if d == 1 {
        "1"
    } else if d == 2 {
        "2"
    } else if d == 3 {
        "3"
    } else if d == 4 {
        "4"
    } else if d == 5 {
        "5"
    } else if d == 6 {
        "6"
    } else if d == 7 {
        "7"
    } else if d == 8 {
        "8"
    } else {
        "9"
    };
    proof {
        reveal_strlit("0");
        reveal_strlit("1");
        reveal_strlit("2");
        reveal_strlit("3");
        reveal_strlit("4");
        reveal_strlit("5");
        reveal_strlit("6");
        reveal_strlit("7");
        reveal_strlit("8");
        reveal_strlit("9");
    }
    s.to_owned()
}

/// Writes `n` in decimal.
pub fn usize_to_decimal(n: usize) -> (r: String)
    ensures
        r@ == decimal(n as nat),
    decreases n,
{
    if n < 10 {
        digit_string(n)
    } else {
        let mut head = usize_to_decimal(n / 10);
        let tail = digit_string(n % 10);
        head.append(tail.as_str());
        head
    }
}

} // verus!
