//! Source maps and excerpts: where a byte offset falls in a file, and the
//! lines of text shown around a finding.
use vstd::prelude::*;
use vstd::utf8::*;
use crate::text::{
    NEWLINE, CARRIAGE_RETURN, is_cut_point, lemma_segment, lemma_ascii_valid, scan_newline, lemma_scan_newline, lemma_scan_newline_step, copy_range,
    append_bytes, bytes_to_string,
};

verus! {

broadcast use vstd::seq::group_seq_axioms;

/* ---------------------------------------------------------------------- */
/* Source map                                                             */
/* ---------------------------------------------------------------------- */

/// Byte `i` closes a line: it is the last byte of the file, a line feed
/// that does not end a CRLF pair, or the carriage return of a CRLF pair (the
/// line feed of the pair is skipped, so each line has one entry).
pub open spec fn is_line_mark(bytes: Seq<u8>, i: int) -> bool {
    ||| i + 1 == bytes.len()
    ||| (bytes[i] == NEWLINE && !(i > 0 && bytes[i - 1] == CARRIAGE_RETURN))
    ||| (bytes[i] == CARRIAGE_RETURN && i + 1 < bytes.len() && bytes[i + 1] == NEWLINE)
}

/// The source map of the first `n` bytes: for each byte `i < n` that closes a
/// line, in order, the offset `i + 1` just past it.
pub open spec fn source_map_upto(bytes: Seq<u8>, n: int) -> Seq<usize>
    decreases n,
{
    if n <= 0 {
        seq![]
    } else if is_line_mark(bytes, n - 1) {
        source_map_upto(bytes, n - 1).push(n as usize)
    } else {
        source_map_upto(bytes, n - 1)
    }
}

/// The source map of a whole byte sequence.
pub open spec fn source_map_of(bytes: Seq<u8>) -> Seq<usize> {
    source_map_upto(bytes, bytes.len() as int)
}

/// Build source map from the string content of a file by scanning for line
/// ends: one entry per line, the byte offset just past its end (for a CRLF
/// pair, just past the carriage return).
pub fn get_source_map(content: &String) -> (acc: Vec<usize>)
    ensures
        acc@ == source_map_of(encode_utf8(content@)),
{
    let bytes = content.as_str().as_bytes();
    let mut acc: Vec<usize> = Vec::new();
    let last_i = bytes.len();
    let mut i: usize = 0;
    while i < last_i
        invariant
            last_i == bytes@.len(),
            bytes@ == encode_utf8(content@),
            i <= last_i,
            acc@ == source_map_upto(bytes@, i as int),
        decreases last_i - i,
    {
        let b = bytes[i];
        if i + 1 == last_i {
            acc.push(last_i);
        } else if b == NEWLINE && !(i > 0 && bytes[i - 1] == CARRIAGE_RETURN) {
            acc.push(i + 1);
        } else if b == CARRIAGE_RETURN && bytes[i + 1] == NEWLINE {
            acc.push(i + 1);
        }
        i += 1;
    }
    acc
}

proof fn lemma_source_map_upto(bytes: Seq<u8>, n: int)
    requires
        0 <= n <= bytes.len(),
        bytes.len() <= usize::MAX,
    ensures
        forall|i: int, j: int|
            0 <= i < j < source_map_upto(bytes, n).len() ==> #[trigger] source_map_upto(bytes, n)[i]
                < #[trigger] source_map_upto(bytes, n)[j],
        forall|k: int|
            0 <= k < source_map_upto(bytes, n).len() ==> 1 <= #[trigger] source_map_upto(bytes, n)[k]
                <= n,
        n > 0 && is_line_mark(bytes, n - 1) ==> source_map_upto(bytes, n).len() > 0
            && source_map_upto(bytes, n).last() == n,
        n == 0 ==> source_map_upto(bytes, n).len() == 0,
        source_map_upto(bytes, n).len() <= n,
    decreases n,
{
    if n > 0 {
        lemma_source_map_upto(bytes, n - 1);
        let prev = source_map_upto(bytes, n - 1);
        if is_line_mark(bytes, n - 1) {
            let cur = prev.push(n as usize);
            assert(source_map_upto(bytes, n) == cur);
            assert forall|i: int, j: int| 0 <= i < j < cur.len() implies #[trigger] cur[i]
                < #[trigger] cur[j] by {
                assert(cur[i] == prev[i]);
                if j < prev.len() {
                    assert(cur[j] == prev[j]);
                }
            }
            assert forall|k: int| 0 <= k < cur.len() implies 1 <= #[trigger] cur[k] <= n by {
                if k < prev.len() {
                    assert(cur[k] == prev[k]);
                }
            }
        } else {
            assert(source_map_upto(bytes, n) == prev);
        }
    }
}

/// The source map lists line ends in increasing order, each within the file
/// and past its first byte, and the last one is the end of the file; an empty
/// file has none.
pub proof fn lemma_source_map_shape(bytes: Seq<u8>)
    requires
        bytes.len() <= usize::MAX,
    ensures
        forall|i: int, j: int|
            0 <= i < j < source_map_of(bytes).len() ==> #[trigger] source_map_of(bytes)[i]
                < #[trigger] source_map_of(bytes)[j],
        forall|k: int|
            0 <= k < source_map_of(bytes).len() ==> 1 <= #[trigger] source_map_of(bytes)[k]
                <= bytes.len(),
        bytes.len() > 0 ==> source_map_of(bytes).len() > 0 && source_map_of(bytes).last()
            == bytes.len(),
        bytes.len() == 0 ==> source_map_of(bytes).len() == 0,
{
    lemma_source_map_upto(bytes, bytes.len() as int);
}

/// Index of the first entry of `lines` at or after `from` that is not below
/// `start`, or the length of `lines` when there is none.
pub open spec fn first_reaching(lines: Seq<usize>, start: int, from: int) -> int
    decreases lines.len() - from,
{
    if from < 0 || from >= lines.len() {
        lines.len() as int
    } else if start <= lines[from] {
        from
    } else {
        first_reaching(lines, start, from + 1)
    }
}

/// The (line, column) of byte offset `start` given the line ends `lines`:
/// the line is the first whose end is not before `start` (counting from 1),
/// the column counts from 1 at the byte after the previous line's end. When
/// `start` lies past every line end the position is (0, 0).
pub open spec fn position_of(start: int, lines: Seq<usize>) -> (usize, usize) {
    let i = first_reaching(lines, start, 0);
    if i < lines.len() {
        let line_start = if i == 0 {
            0
        } else {
            lines[i - 1] + 1
        };
        ((i + 1) as usize, (start - line_start + 1) as usize)
    } else {
        (0, 0)
    }
}

proof fn lemma_first_reaching(lines: Seq<usize>, start: int, from: int)
    requires
        0 <= from <= lines.len(),
    ensures
        from <= first_reaching(lines, start, from) <= lines.len(),
        first_reaching(lines, start, from) < lines.len() ==> start <= lines[first_reaching(
            lines,
            start,
            from,
        )],
        forall|k: int| from <= k < first_reaching(lines, start, from) ==> #[trigger] lines[k] < start,
    decreases lines.len() - from,
{
    if from < lines.len() && start > lines[from] {
        lemma_first_reaching(lines, start, from + 1);
    }
}

/// Every offset of a non-empty file, up to and including its length, lies on
/// a line of its source map: its position names a line, counted from 1, whose
/// end it does not pass, after every earlier line's end, and a column counted
/// from 1 (short of an offset of the largest machine word, whose column
/// wraps). It is never (0, 0).
pub proof fn lemma_every_byte_has_a_line(bytes: Seq<u8>, start: int)
    requires
        bytes.len() <= usize::MAX,
        bytes.len() > 0,
        0 <= start <= bytes.len(),
    ensures
        1 <= position_of(start, source_map_of(bytes)).0 <= source_map_of(bytes).len(),
        start <= source_map_of(bytes)[position_of(start, source_map_of(bytes)).0 - 1],
        forall|k: int|
            0 <= k < position_of(start, source_map_of(bytes)).0 - 1 ==> #[trigger] source_map_of(
                bytes,
            )[k] < start,
        start < usize::MAX ==> position_of(start, source_map_of(bytes)).1 >= 1,
{
    let lines = source_map_of(bytes);
    lemma_source_map_shape(bytes);
    lemma_first_reaching(lines, start, 0);
    let i = first_reaching(lines, start, 0);
    if i == lines.len() {
        assert(lines[lines.len() - 1] < start);
    }
    assert(i < lines.len());
    if i > 0 {
        assert(lines[i - 1] < start);
    }
    assert(start <= lines[i]);
    assert(lines.len() <= bytes.len()) by {
        lemma_source_map_upto(bytes, bytes.len() as int);
    }
    let line_start = if i == 0 {
        0
    } else {
        lines[i - 1] + 1
    };
    assert(line_start <= start);
    assert(position_of(start, lines) == ((i + 1) as usize, (start - line_start + 1) as usize));
}

/// Convert a byte offset into a (line, width) position, both counted from 1.
pub fn get_position(start: usize, lines_to_bytes: &[usize]) -> (r: (usize, usize))
    requires
        !(start == usize::MAX && lines_to_bytes@.len() > 0 && lines_to_bytes@[0] == usize::MAX),
    ensures
        r == position_of(start as int, lines_to_bytes@),
{
    let mut line: usize = 0;
    let mut line_start: usize = 0;
    let mut width: usize = 0;
    let mut i: usize = 0;
    proof {
        lemma_first_reaching(lines_to_bytes@, start as int, 0);
    }
    while i < lines_to_bytes.len()
        invariant_except_break
            i <= lines_to_bytes@.len(),
            first_reaching(lines_to_bytes@, start as int, i as int) == first_reaching(
                lines_to_bytes@,
                start as int,
                0,
            ),
            line_start == if i == 0 {
                0
            } else {
                lines_to_bytes@[i - 1] + 1
            },
            line == 0,
            width == 0,
            i > 0 ==> lines_to_bytes@[i - 1] < start,
        invariant
            !(start == usize::MAX && lines_to_bytes@.len() > 0 && lines_to_bytes@[0]
                == usize::MAX),
        ensures
            (line, width) == position_of(start as int, lines_to_bytes@),
        decreases lines_to_bytes@.len() - i,
    {
        let b = lines_to_bytes[i];
        if start <= b {
            line = i + 1;
            width = start - line_start + 1;
            break;
        }
        line_start = b + 1;
        i += 1;
    }
    (line, width)
}

/* ---------------------------------------------------------------------- */
/* Line boundaries                                                        */
/* ---------------------------------------------------------------------- */

/// The byte index at which the line holding offset `start` begins: walking
/// back from `start`, the first index that is 0, that lies past the end of the
/// bytes, or that follows a line feed.
pub open spec fn line_start_of(bytes: Seq<u8>, start: int) -> int
    decreases start,
{
    if start <= 0 || start - 1 >= bytes.len() || bytes[start - 1] == NEWLINE {
        start
    } else {
        line_start_of(bytes, start - 1)
    }
}

/// The index of the line feed that ends the line at `start`: `start` itself
/// when it holds a line feed, else the first line feed after it, else the
/// end of the bytes (or `start + 1` when `start` is already past the end).
pub open spec fn line_end_of(bytes: Seq<u8>, start: int) -> int {
    if 0 <= start < bytes.len() && bytes[start] == NEWLINE {
        start
    } else {
        scan_newline(bytes, start + 1)
    }
}

/// The bytes from `index` up to and including the next line feed (or to the
/// end of the bytes); empty when `index` is at or past the end.
pub open spec fn until_end_bytes(bytes: Seq<u8>, index: int) -> Seq<u8> {
    if index < 0 || index >= bytes.len() {
        seq![]
    } else {
        let k = scan_newline(bytes, index);
        bytes.subrange(
            index,
            if k < bytes.len() {
                k + 1
            } else {
                bytes.len() as int
            },
        )
    }
}

/// `line_start_of` characterized: the greatest index not above `start` that
/// begins a line.
pub proof fn lemma_line_start(bytes: Seq<u8>, start: int)
    requires
        start >= 0,
    ensures
        0 <= line_start_of(bytes, start) <= start,
        line_start_of(bytes, start) == 0 || line_start_of(bytes, start) > bytes.len()
            || bytes[line_start_of(bytes, start) - 1] == NEWLINE,
        forall|k: int|
            line_start_of(bytes, start) < k <= start ==> k <= bytes.len() && #[trigger] bytes[k
                - 1] != NEWLINE,
    decreases start,
{
    if start <= 0 || start - 1 >= bytes.len() || bytes[start - 1] == NEWLINE {
    } else {
        lemma_line_start(bytes, start - 1);
    }
}

/// Get the byte index of the start of the line that holds `start`.
pub fn get_last_start_index(file_bytes: &[u8], start: usize) -> (r: usize)
    ensures
        r == line_start_of(file_bytes@, start as int),
{
    let mut i = start;
    while i > 0
        invariant
            i <= start,
            line_start_of(file_bytes@, i as int) == line_start_of(file_bytes@, start as int),
        ensures
            i as int == line_start_of(file_bytes@, i as int),
            line_start_of(file_bytes@, i as int) == line_start_of(file_bytes@, start as int),
        decreases i,
    {
        let prev_is_break = if i - 1 < file_bytes.len() {
            file_bytes[i - 1] == NEWLINE
        } else {
            true
        };
        if prev_is_break {
            break;
        }
        i -= 1;
    }
    i
}

/// Get the index of the line feed that ends the line at `start` (see
/// `line_end_of`).
pub fn offset_until_end(file_bytes: &[u8], start: usize) -> (r: usize)
    requires
        start < usize::MAX,
    ensures
        r == line_end_of(file_bytes@, start as int),
{
    let len = file_bytes.len();
    let mut i = start;
    let mut last_byte: u8 = if start < len {
        file_bytes[start]
    } else {
        0
    };
    while last_byte != NEWLINE
        invariant_except_break
            start <= i,
            i == start ==> last_byte == if start < len {
                file_bytes@[start as int]
            } else {
                0u8
            },
            i > start ==> i < len && last_byte == file_bytes@[i as int] && scan_newline(
                file_bytes@,
                start as int + 1,
            ) == scan_newline(file_bytes@, i as int),
            i > start ==> !(start < len && file_bytes@[start as int] == NEWLINE),
        invariant
            len == file_bytes@.len(),
            start < usize::MAX,
        ensures
            i as int == line_end_of(file_bytes@, start as int),
        decreases len - i,
    {
        proof {
            if i > start {
                lemma_scan_newline_step(file_bytes@, i as int);
            }
        }
        i += 1;
        if i < len {
            last_byte = file_bytes[i];
        } else {
            break;
        }
    }
    i
}

/// The bytes of `until_end_bytes`, copied into a vector.
fn until_end_vec(file_bytes: &[u8], index: usize) -> (v: Vec<u8>)
    ensures
        v@ == until_end_bytes(file_bytes@, index as int),
{
    let len = file_bytes.len();
    if index >= len {
        return Vec::new();
    }
    let mut i = index;
    let mut last_byte: u8 = 0;
    proof {
        lemma_scan_newline(file_bytes@, index as int);
    }
    while last_byte != NEWLINE
        invariant_except_break
            index <= i <= len,
            i == index ==> last_byte == 0u8,
            i > index ==> last_byte == file_bytes@[i - 1],
            forall|k: int| index <= k < i - 1 ==> #[trigger] file_bytes@[k] != NEWLINE,
            i > index ==> scan_newline(file_bytes@, index as int) >= i - 1,
        invariant
            len == file_bytes@.len(),
            index < len,
            scan_newline(file_bytes@, index as int) >= index,
            forall|k: int|
                index <= k < scan_newline(file_bytes@, index as int) ==> k < len
                    && #[trigger] file_bytes@[k] != NEWLINE,
            scan_newline(file_bytes@, index as int) < len ==> file_bytes@[scan_newline(
                file_bytes@,
                index as int,
            )] == NEWLINE,
            scan_newline(file_bytes@, index as int) >= len ==> scan_newline(
                file_bytes@,
                index as int,
            ) == len,
        ensures
            i == if scan_newline(file_bytes@, index as int) < len {
                scan_newline(file_bytes@, index as int) + 1
            } else {
                len as int
            },
        decreases len - i,
    {
        if i < len {
            last_byte = file_bytes[i];
            i += 1;
        } else {
            proof {
                lemma_scan_newline(file_bytes@, index as int);
                if scan_newline(file_bytes@, index as int) < len {
                    let k = scan_newline(file_bytes@, index as int);
                    if k < i - 1 {
                        assert(file_bytes@[k] != NEWLINE);
                    }
                }
            }
            break;
        }
        proof {
            lemma_scan_newline(file_bytes@, index as int);
            let k = scan_newline(file_bytes@, index as int);
            if last_byte == NEWLINE {
                if k < i - 1 {
                    assert(file_bytes@[k] != NEWLINE);
                }
            } else {
                assert(file_bytes@[i - 1] != NEWLINE);
            }
        }
    }
    copy_range(file_bytes, index, i)
}

/// The text from `index` up to and including the next line feed.
pub fn content_until_end(file_bytes: &[u8], index: usize) -> (r: String)
    requires
        valid_utf8(until_end_bytes(file_bytes@, index as int)),
    ensures
        r@ == decode_utf8(until_end_bytes(file_bytes@, index as int)),
{
    let v = until_end_vec(file_bytes, index);
    bytes_to_string(v)
}


/* ---------------------------------------------------------------------- */
/* Excerpts around a finding                                              */
/* ---------------------------------------------------------------------- */

/// The line before the one holding `start` (empty when `start` is on the
/// first line).
pub open spec fn before_bytes(bytes: Seq<u8>, start: int) -> Seq<u8> {
    let l = line_start_of(bytes, start);
    if l > 0 {
        until_end_bytes(bytes, line_start_of(bytes, l - 1))
    } else {
        seq![]
    }
}

/// The lines from the one holding `start` through the one holding
/// `start + length`, where the finding ends, measured from the start of the
/// first of them, each with its line feed; when that runs to or past the end
/// of the bytes, everything from the first line on. Empty only when `start`
/// lies past the end.
pub open spec fn middle_bytes(bytes: Seq<u8>, start: int, length: int) -> Seq<u8> {
    let slb = line_start_of(bytes, start);
    let max = if bytes.len() < start + length {
        bytes.len() as int
    } else if line_end_of(bytes, start + length) < bytes.len() {
        line_end_of(bytes, start + length) + 1
    } else {
        bytes.len() as int
    };
    if slb <= max <= bytes.len() {
        bytes.subrange(slb, max)
    } else {
        seq![]
    }
}

/// The line after the one holding `start + length`.
pub open spec fn after_bytes(bytes: Seq<u8>, start: int, length: int) -> Seq<u8> {
    until_end_bytes(bytes, line_end_of(bytes, start + length) + 1)
}

/// The lines before, at and after a finding.
pub open spec fn finding_content_bytes(bytes: Seq<u8>, start: int, length: int) -> Seq<u8> {
    before_bytes(bytes, start) + middle_bytes(bytes, start, length) + after_bytes(
        bytes,
        start,
        length,
    )
}

/// One line of an arrow excerpt: `"> "`, the line, and a line feed.
pub open spec fn arrow_line(line: Seq<u8>) -> Seq<u8> {
    seq![62u8, 32u8] + line + seq![NEWLINE]
}

/// A line without its trailing carriage return, if it has one.
pub open spec fn strip_cr(line: Seq<u8>) -> Seq<u8> {
    if line.len() > 0 && line.last() == CARRIAGE_RETURN {
        line.drop_last()
    } else {
        line
    }
}

/// The lines of `bytes` from index `from` on (split at line feeds, a
/// carriage return before a line feed dropped, no empty line after a final
/// line feed), each turned into an `arrow_line`.
pub open spec fn arrow_from(bytes: Seq<u8>, from: int) -> Seq<u8>
    decreases bytes.len() - from,
{
    if from < 0 || from >= bytes.len() {
        seq![]
    } else {
        let k = scan_newline(bytes, from);
        proof {
            lemma_scan_newline(bytes, from);
        }
        if k >= bytes.len() {
            arrow_line(bytes.subrange(from, bytes.len() as int))
        } else {
            arrow_line(strip_cr(bytes.subrange(from, k))) + arrow_from(bytes, k + 1)
        }
    }
}

/// Two spaces.
pub open spec fn indent() -> Seq<u8> {
    seq![32u8, 32u8]
}

/// The excerpt with arrows: the line before indented by two spaces, the
/// lines of the finding each prefixed by `"> "`, and the line after indented
/// by two spaces.
pub open spec fn arrow_content_bytes(bytes: Seq<u8>, start: int, length: int) -> Seq<u8> {
    indent() + before_bytes(bytes, start) + arrow_from(middle_bytes(bytes, start, length), 0)
        + indent() + after_bytes(bytes, start, length)
}

fn before_vec(file_bytes: &[u8], start: usize) -> (v: Vec<u8>)
    ensures
        v@ == before_bytes(file_bytes@, start as int),
{
    let last_i = get_last_start_index(file_bytes, start);
    if last_i > 0 {
        let start_line = last_i - 1;
        let start_bef_line = get_last_start_index(file_bytes, start_line);
        until_end_vec(file_bytes, start_bef_line)
    } else {
        Vec::new()
    }
}

fn middle_vec(file_bytes: &[u8], start: usize, length: usize) -> (v: Vec<u8>)
    requires
        start + length <= usize::MAX,
    ensures
        v@ == middle_bytes(file_bytes@, start as int, length as int),
{
    let len = file_bytes.len();
    let slb = get_last_start_index(file_bytes, start);
    proof {
        lemma_line_start(file_bytes@, start as int);
    }
    if len < start + length {
        if slb <= len {
            copy_range(file_bytes, slb, len)
        } else {
            Vec::new()
        }
    } else {
        let x = start + length;
        proof {
            lemma_scan_newline(file_bytes@, x + 1);
        }
        if x >= len {
            copy_range(file_bytes, slb, len)
        } else {
            let e = offset_until_end(file_bytes, x);
            if e < len {
                copy_range(file_bytes, slb, e + 1)
            } else {
                copy_range(file_bytes, slb, len)
            }
        }
    }
}

fn after_vec(file_bytes: &[u8], start: usize, length: usize) -> (v: Vec<u8>)
    requires
        start + length < usize::MAX - 1,
    ensures
        v@ == after_bytes(file_bytes@, start as int, length as int),
{
    let content_i = offset_until_end(file_bytes, start + length);
    if content_i >= file_bytes.len() {
        Vec::new()
    } else {
        until_end_vec(file_bytes, content_i + 1)
    }
}

/// The first line feed at or after `from`, or the end of the bytes.
fn find_newline(bytes: &Vec<u8>, from: usize) -> (k: usize)
    requires
        from <= bytes@.len(),
    ensures
        k == scan_newline(bytes@, from as int),
{
    let mut i = from;
    while i < bytes.len() && bytes[i] != NEWLINE
        invariant
            from <= i <= bytes@.len(),
            scan_newline(bytes@, from as int) == scan_newline(bytes@, i as int),
        decreases bytes@.len() - i,
    {
        i += 1;
    }
    i
}

/// Appends `"> "`, the bytes `line[from..to]` and a line feed.
fn push_arrow_line(out: &mut Vec<u8>, line: &Vec<u8>, from: usize, to: usize)
    requires
        from <= to <= line@.len(),
    ensures
        final(out)@ == old(out)@ + arrow_line(line@.subrange(from as int, to as int)),
{
    out.push(62u8);
    out.push(32u8);
    let seg = copy_range(line.as_slice(), from, to);
    append_bytes(out, seg.as_slice());
    out.push(NEWLINE);
    assert(final(out)@ =~= old(out)@ + arrow_line(line@.subrange(from as int, to as int)));
}

fn arrow_vec(mid: &Vec<u8>) -> (out: Vec<u8>)
    ensures
        out@ == arrow_from(mid@, 0),
{
    let mut out: Vec<u8> = Vec::new();
    let len = mid.len();
    let mut from: usize = 0;
    while from < len
        invariant
            len == mid@.len(),
            from <= len,
            out@ + arrow_from(mid@, from as int) == arrow_from(mid@, 0),
        decreases len - from,
    {
        let k = find_newline(mid, from);
        proof {
            lemma_scan_newline(mid@, from as int);
        }
        if k >= len {
            push_arrow_line(&mut out, mid, from, len);
            from = len;
        } else {
            let end = if k > from && mid[k - 1] == CARRIAGE_RETURN {
                k - 1
            } else {
                k
            };
            proof {
                let seg = mid@.subrange(from as int, k as int);
                if k > from && mid@[k - 1] == CARRIAGE_RETURN {
                    assert(strip_cr(seg) =~= mid@.subrange(from as int, end as int));
                } else {
                    assert(strip_cr(seg) =~= mid@.subrange(from as int, end as int));
                }
            }
            push_arrow_line(&mut out, mid, from, end);
            from = k + 1;
        }
    }
    out
}

/// Returns the line before the one holding `start`.
pub fn get_finding_content_before(file_bytes: &[u8], start: usize) -> (r: String)
    requires
        valid_utf8(before_bytes(file_bytes@, start as int)),
    ensures
        r@ == decode_utf8(before_bytes(file_bytes@, start as int)),
{
    bytes_to_string(before_vec(file_bytes, start))
}

/// Returns the lines where the finding is located.
pub fn get_finding_content_middle(file_bytes: &[u8], start: usize, length: usize) -> (r: String)
    requires
        start + length <= usize::MAX,
        valid_utf8(middle_bytes(file_bytes@, start as int, length as int)),
    ensures
        r@ == decode_utf8(middle_bytes(file_bytes@, start as int, length as int)),
{
    bytes_to_string(middle_vec(file_bytes, start, length))
}

/// Returns the line after the one where the finding ends.
pub fn get_finding_content_after(file_bytes: &[u8], start: usize, length: usize) -> (r: String)
    requires
        start + length < usize::MAX - 1,
        valid_utf8(after_bytes(file_bytes@, start as int, length as int)),
    ensures
        r@ == decode_utf8(after_bytes(file_bytes@, start as int, length as int)),
{
    bytes_to_string(after_vec(file_bytes, start, length))
}


/* ---------------------------------------------------------------------- */
/* Excerpts of valid UTF-8 are valid UTF-8                                */
/* ---------------------------------------------------------------------- */

/// Where an excerpt may begin: the start of the bytes, just after a line
/// feed, or at or past the end.
pub open spec fn starts_a_line(bytes: Seq<u8>, index: int) -> bool {
    index <= 0 || index >= bytes.len() || bytes[index - 1] == NEWLINE
}

proof fn lemma_line_start_starts_a_line(bytes: Seq<u8>, start: int)
    requires
        start >= 0,
    ensures
        starts_a_line(bytes, line_start_of(bytes, start)),
        0 <= line_start_of(bytes, start) <= start,
{
    lemma_line_start(bytes, start);
}

proof fn lemma_line_end(bytes: Seq<u8>, x: int)
    requires
        x >= 0,
    ensures
        line_end_of(bytes, x) >= x,
        line_end_of(bytes, x) < bytes.len() ==> bytes[line_end_of(bytes, x)] == NEWLINE,
        line_end_of(bytes, x) >= bytes.len() ==> line_end_of(bytes, x) == if x >= bytes.len() {
            x + 1
        } else {
            bytes.len() as int
        },
{
    lemma_scan_newline(bytes, x + 1);
}

proof fn lemma_until_end_valid(bytes: Seq<u8>, index: int)
    requires
        valid_utf8(bytes),
        starts_a_line(bytes, index),
    ensures
        valid_utf8(until_end_bytes(bytes, index)),
{
    if index < 0 || index >= bytes.len() {
        lemma_ascii_valid(seq![]);
    } else {
        lemma_scan_newline(bytes, index);
        let k = scan_newline(bytes, index);
        let end = if k < bytes.len() {
            k + 1
        } else {
            bytes.len() as int
        };
        assert(is_cut_point(bytes, index));
        assert(is_cut_point(bytes, end));
        lemma_segment(bytes, index, end);
    }
}

/// The line before a finding, cut from valid UTF-8, is valid UTF-8.
pub proof fn lemma_before_valid(bytes: Seq<u8>, start: int)
    requires
        valid_utf8(bytes),
        start >= 0,
    ensures
        valid_utf8(before_bytes(bytes, start)),
{
    let l = line_start_of(bytes, start);
    lemma_line_start_starts_a_line(bytes, start);
    if l > 0 {
        lemma_line_start_starts_a_line(bytes, l - 1);
        lemma_until_end_valid(bytes, line_start_of(bytes, l - 1));
    } else {
        lemma_ascii_valid(seq![]);
    }
}

/// The lines of a finding, cut from valid UTF-8, are valid UTF-8.
pub proof fn lemma_middle_valid(bytes: Seq<u8>, start: int, length: int)
    requires
        valid_utf8(bytes),
        start >= 0,
        length >= 0,
    ensures
        valid_utf8(middle_bytes(bytes, start, length)),
{
    let slb = line_start_of(bytes, start);
    lemma_line_start_starts_a_line(bytes, start);
    let max = if bytes.len() < start + length {
        bytes.len() as int
    } else if line_end_of(bytes, start + length) < bytes.len() {
        line_end_of(bytes, start + length) + 1
    } else {
        bytes.len() as int
    };
    lemma_line_end(bytes, start + length);
    if slb <= max <= bytes.len() {
        assert(is_cut_point(bytes, slb));
        assert(is_cut_point(bytes, max));
        lemma_segment(bytes, slb, max);
    } else {
        lemma_ascii_valid(seq![]);
    }
}

/// The lines of a finding hold the whole line where `start` is: they run
/// from the start of that line to just after a line feed, or to the end of
/// the file, and they reach past the line feed that ends that line.
pub proof fn lemma_middle_holds_start_line(bytes: Seq<u8>, start: int, length: int)
    requires
        0 <= start < bytes.len(),
        length >= 0,
    ensures
        ({
            let slb = line_start_of(bytes, start);
            let m = slb + middle_bytes(bytes, start, length).len();
            &&& slb <= start < m <= bytes.len()
            &&& middle_bytes(bytes, start, length) == bytes.subrange(slb, m)
            &&& m == bytes.len() || bytes[m - 1] == NEWLINE
            &&& scan_newline(bytes, start) < m || m == bytes.len()
        }),
{
    let slb = line_start_of(bytes, start);
    lemma_line_start(bytes, start);
    lemma_scan_newline(bytes, start);
    let x = start + length;
    lemma_line_end(bytes, x);
    let le = line_end_of(bytes, x);
    if bytes.len() >= x && le < bytes.len() {
        if le < start {
            assert(bytes[(le + 1) - 1] != NEWLINE);
        }
        assert(le >= start);
        assert(le >= scan_newline(bytes, start));
    }
    assert(middle_bytes(bytes, start, length).len() + slb > start);
}

/// The plain excerpt of a finding inside the file is one run of whole lines
/// of the file: it starts at a line start (that of the line before the one
/// holding `start`, if there is one), holds the line of `start` and every
/// line up to the one holding `start + length`, and ends with the line after
/// that one, if there is one.
pub proof fn lemma_finding_content_contiguous(bytes: Seq<u8>, start: int, length: int)
    requires
        0 <= start,
        0 <= length,
        start + length < bytes.len(),
    ensures
        ({
            let l = line_start_of(bytes, start);
            let a = if l > 0 {
                line_start_of(bytes, l - 1)
            } else {
                0
            };
            let e = line_end_of(bytes, start + length);
            let b = a + finding_content_bytes(bytes, start, length).len();
            &&& finding_content_bytes(bytes, start, length) == bytes.subrange(a, b)
            &&& a == 0 || bytes[a - 1] == NEWLINE
            &&& l > 0 ==> a < l && bytes[l - 1] == NEWLINE
            &&& a <= l <= start < b <= bytes.len()
            &&& e < bytes.len() ==> b > e
            &&& e + 1 < bytes.len() ==> b == (if scan_newline(bytes, e + 1) < bytes.len() {
                scan_newline(bytes, e + 1) + 1
            } else {
                bytes.len() as int
            })
            &&& b == bytes.len() || bytes[b - 1] == NEWLINE
        }),
{
    let l = line_start_of(bytes, start);
    lemma_line_start(bytes, start);
    let a = if l > 0 {
        line_start_of(bytes, l - 1)
    } else {
        0
    };
    if l > 0 {
        lemma_line_start(bytes, l - 1);
        assert forall|j: int| a <= j < l - 1 implies #[trigger] bytes[j] != NEWLINE by {
            assert(bytes[(j + 1) - 1] != NEWLINE);
        }
        lemma_scan_first(bytes, a, l - 1);
        assert(before_bytes(bytes, start) =~= bytes.subrange(a, l));
    } else {
        assert(before_bytes(bytes, start) =~= bytes.subrange(a, l));
    }
    let x = start + length;
    lemma_line_end(bytes, x);
    let e = line_end_of(bytes, x);
    let m = if e < bytes.len() {
        e + 1
    } else {
        bytes.len() as int
    };
    assert(middle_bytes(bytes, start, length) =~= bytes.subrange(l, m));
    let f = after_bytes(bytes, start, length);
    let b = m + f.len();
    if e + 1 < bytes.len() {
        lemma_scan_newline(bytes, e + 1);
        assert(f =~= bytes.subrange(m, b));
    } else {
        assert(f =~= bytes.subrange(m, b));
    }
    lemma_middle_holds_start_line(bytes, start, length);
    assert(finding_content_bytes(bytes, start, length) =~= bytes.subrange(a, b));
}

/// The line after a finding, cut from valid UTF-8, is valid UTF-8.
pub proof fn lemma_after_valid(bytes: Seq<u8>, start: int, length: int)
    requires
        valid_utf8(bytes),
        start >= 0,
        length >= 0,
    ensures
        valid_utf8(after_bytes(bytes, start, length)),
{
    lemma_line_end(bytes, start + length);
    lemma_until_end_valid(bytes, line_end_of(bytes, start + length) + 1);
}

proof fn lemma_arrow_line_valid(line: Seq<u8>)
    requires
        valid_utf8(line),
    ensures
        valid_utf8(arrow_line(line)),
{
    let head = seq![62u8, 32u8];
    let tail = seq![NEWLINE];
    lemma_ascii_valid(head);
    lemma_ascii_valid(tail);
    valid_utf8_concat(head, line);
    valid_utf8_concat(head + line, tail);
}

/// Arrow excerpts of valid UTF-8 are valid UTF-8.
pub proof fn lemma_arrow_valid(bytes: Seq<u8>, from: int)
    requires
        valid_utf8(bytes),
        starts_a_line(bytes, from),
    ensures
        valid_utf8(arrow_from(bytes, from)),
    decreases bytes.len() - from,
{
    if from < 0 || from >= bytes.len() {
        lemma_ascii_valid(seq![]);
    } else {
        lemma_scan_newline(bytes, from);
        let k = scan_newline(bytes, from);
        assert(is_cut_point(bytes, from));
        if k >= bytes.len() {
            lemma_segment(bytes, from, bytes.len() as int);
            lemma_arrow_line_valid(bytes.subrange(from, bytes.len() as int));
        } else {
            let seg = bytes.subrange(from, k);
            if seg.len() > 0 && seg.last() == CARRIAGE_RETURN {
                assert(is_cut_point(bytes, k - 1));
                lemma_segment(bytes, from, k - 1);
                assert(strip_cr(seg) =~= bytes.subrange(from, k - 1));
            } else {
                assert(is_cut_point(bytes, k));
                lemma_segment(bytes, from, k);
            }
            lemma_arrow_line_valid(strip_cr(seg));
            lemma_arrow_valid(bytes, k + 1);
            valid_utf8_concat(arrow_line(strip_cr(seg)), arrow_from(bytes, k + 1));
        }
    }
}

/// The whole excerpt around a finding, cut from valid UTF-8, is valid UTF-8.
pub proof fn lemma_finding_content_valid(bytes: Seq<u8>, start: int, length: int)
    requires
        valid_utf8(bytes),
        start >= 0,
        length >= 0,
    ensures
        valid_utf8(finding_content_bytes(bytes, start, length)),
{
    lemma_before_valid(bytes, start);
    lemma_middle_valid(bytes, start, length);
    lemma_after_valid(bytes, start, length);
    valid_utf8_concat(before_bytes(bytes, start), middle_bytes(bytes, start, length));
    valid_utf8_concat(
        before_bytes(bytes, start) + middle_bytes(bytes, start, length),
        after_bytes(bytes, start, length),
    );
}

/// The arrow excerpt around a finding, cut from valid UTF-8, is valid UTF-8.
pub proof fn lemma_arrow_content_valid(bytes: Seq<u8>, start: int, length: int)
    requires
        valid_utf8(bytes),
        start >= 0,
        length >= 0,
    ensures
        valid_utf8(arrow_content_bytes(bytes, start, length)),
{
    lemma_before_valid(bytes, start);
    lemma_middle_valid(bytes, start, length);
    lemma_after_valid(bytes, start, length);
    let mid = middle_bytes(bytes, start, length);
    lemma_arrow_valid(mid, 0);
    lemma_ascii_valid(indent());
    let a = indent() + before_bytes(bytes, start);
    valid_utf8_concat(indent(), before_bytes(bytes, start));
    valid_utf8_concat(a, arrow_from(mid, 0));
    valid_utf8_concat(a + arrow_from(mid, 0), indent());
    valid_utf8_concat(a + arrow_from(mid, 0) + indent(), after_bytes(bytes, start, length));
}

/// Returns a view in the code where the finding is located: the line before,
/// the lines of the finding, and the line after.
pub fn get_finding_content(content: String, start: usize, length: usize) -> (r: String)
    requires
        start + length < usize::MAX - 1,
    ensures
        r@ == decode_utf8(finding_content_bytes(encode_utf8(content@), start as int, length as int)),
{
    let file_bytes = content.as_str().as_bytes();
    proof {
        encode_utf8_valid_utf8(content@);
        lemma_finding_content_valid(file_bytes@, start as int, length as int);
        lemma_line_start_starts_a_line(file_bytes@, start as int);
    }
    let mut out = before_vec(file_bytes, start);
    let mid = middle_vec(file_bytes, start, length);
    append_bytes(&mut out, mid.as_slice());
    let after = after_vec(file_bytes, start, length);
    append_bytes(&mut out, after.as_slice());
    bytes_to_string(out)
}

/// Returns a view in the code where the finding is located, with an arrow
/// in front of each line of the finding.
pub fn get_finding_content_arrow(content: String, start: usize, length: usize) -> (r: String)
    requires
        start + length < usize::MAX - 1,
    ensures
        r@ == decode_utf8(arrow_content_bytes(encode_utf8(content@), start as int, length as int)),
{
    let file_bytes = content.as_str().as_bytes();
    proof {
        encode_utf8_valid_utf8(content@);
        lemma_arrow_content_valid(file_bytes@, start as int, length as int);
        lemma_line_start_starts_a_line(file_bytes@, start as int);
    }
    let mut out: Vec<u8> = Vec::new();
    out.push(32u8);
    out.push(32u8);
    let before = before_vec(file_bytes, start);
    append_bytes(&mut out, before.as_slice());
    let mid = middle_vec(file_bytes, start, length);
    let arrows = arrow_vec(&mid);
    append_bytes(&mut out, arrows.as_slice());
    out.push(32u8);
    out.push(32u8);
    let after = after_vec(file_bytes, start, length);
    append_bytes(&mut out, after.as_slice());
    proof {
        assert(out@ =~= arrow_content_bytes(file_bytes@, start as int, length as int));
    }
    bytes_to_string(out)
}

/* ---------------------------------------------------------------------- */
/* The arrow excerpt against the plain one                                */
/* ---------------------------------------------------------------------- */

/// The text with the first two bytes of every line dropped (lines split
/// after each line feed; a line shorter than two bytes dropped whole).
pub open spec fn unprefix_lines(s: Seq<u8>) -> Seq<u8>
    decreases s.len(),
{
    if s.len() == 0 {
        seq![]
    } else {
        let k = scan_newline(s, 0);
        proof {
            lemma_scan_newline(s, 0);
        }
        let end = if k < s.len() {
            k + 1
        } else {
            s.len() as int
        };
        let cut = if end < 2 {
            end
        } else {
            2
        };
        s.subrange(cut, end) + unprefix_lines(s.subrange(end, s.len() as int))
    }
}

/// Empty, or ending with a line feed.
pub open spec fn ends_a_line(s: Seq<u8>) -> bool {
    s.len() == 0 || s.last() == NEWLINE
}

/// No line feed but possibly the last byte.
pub open spec fn single_line(s: Seq<u8>) -> bool {
    forall|k: int| 0 <= k < s.len() - 1 ==> #[trigger] s[k] != NEWLINE
}

/// No carriage return anywhere.
pub open spec fn no_carriage_return(s: Seq<u8>) -> bool {
    forall|k: int| 0 <= k < s.len() ==> #[trigger] s[k] != CARRIAGE_RETURN
}

proof fn lemma_scan_first(s: Seq<u8>, from: int, k: int)
    requires
        0 <= from <= k < s.len(),
        s[k] == NEWLINE,
        forall|j: int| from <= j < k ==> #[trigger] s[j] != NEWLINE,
    ensures
        scan_newline(s, from) == k,
{
    lemma_scan_newline(s, from);
    let r = scan_newline(s, from);
    if r > k {
        assert(s[k] != NEWLINE);
    }
}

/// Two bytes that are no line feed, then one line: dropping the first two
/// bytes of each line gives the line back.
proof fn lemma_unprefix_line(pre: Seq<u8>, line: Seq<u8>)
    requires
        pre.len() == 2,
        pre[0] != NEWLINE,
        pre[1] != NEWLINE,
        single_line(line),
    ensures
        unprefix_lines(pre + line) == line,
{
    let c = pre + line;
    lemma_scan_newline(c, 0);
    let k = scan_newline(c, 0);
    if k < c.len() {
        assert(c[k] == NEWLINE);
        if k < c.len() - 1 {
            assert(c[k] == line[k - 2]);
        }
    }
    if k < c.len() {
        if k < 2 {
            assert(c[k] == pre[k]);
        }
        assert(k == c.len() - 1);
    }
    let end = if k < c.len() {
        k + 1
    } else {
        c.len() as int
    };
    assert(end == c.len());
    assert(c.subrange(2, c.len() as int) =~= line);
    let e = c.subrange(c.len() as int, c.len() as int);
    assert(e =~= Seq::<u8>::empty());
    assert(unprefix_lines(e) == Seq::<u8>::empty());
    assert(unprefix_lines(c) == c.subrange(2, end) + unprefix_lines(e));
    assert(unprefix_lines(c) =~= line);
}

/// Dropping two bytes a line splits at line ends.
proof fn lemma_unprefix_concat(a: Seq<u8>, b: Seq<u8>)
    requires
        ends_a_line(a),
    ensures
        unprefix_lines(a + b) == unprefix_lines(a) + unprefix_lines(b),
    decreases a.len(),
{
    if a.len() == 0 {
        assert(a + b =~= b);
    } else {
        let c = a + b;
        lemma_scan_newline(a, 0);
        let ka = scan_newline(a, 0);
        if ka >= a.len() {
            assert(a[a.len() - 1] != NEWLINE);
        }
        assert forall|j: int| 0 <= j < ka implies #[trigger] c[j] != NEWLINE by {
            assert(c[j] == a[j]);
        }
        lemma_scan_first(c, 0, ka);
        let end = ka + 1;
        let rest = a.subrange(end, a.len() as int);
        assert(c.subrange(end, c.len() as int) =~= rest + b);
        let cut = if end < 2 {
            end
        } else {
            2
        };
        assert(c.subrange(cut, end) =~= a.subrange(cut, end));
        if rest.len() > 0 {
            assert(rest.last() == a.last());
        }
        lemma_unprefix_concat(rest, b);
        assert(unprefix_lines(c) == c.subrange(cut, end) + unprefix_lines(rest + b));
        assert(unprefix_lines(a) == a.subrange(cut, end) + unprefix_lines(rest));
        assert(unprefix_lines(c) =~= unprefix_lines(a) + unprefix_lines(b));
    }
}

/// The lines of a finding, arrows dropped again, are those lines.
proof fn lemma_unprefix_arrows(m: Seq<u8>, from: int)
    requires
        0 <= from <= m.len(),
        no_carriage_return(m),
        ends_a_line(m),
    ensures
        unprefix_lines(arrow_from(m, from)) == m.subrange(from, m.len() as int),
        ends_a_line(arrow_from(m, from)),
    decreases m.len() - from,
{
    if from >= m.len() {
        assert(m.subrange(from, m.len() as int) =~= Seq::<u8>::empty());
    } else {
        lemma_scan_newline(m, from);
        let k = scan_newline(m, from);
        if k >= m.len() {
            assert(m[m.len() - 1] != NEWLINE);
        }
        let line = m.subrange(from, k);
        if line.len() > 0 {
            assert(line.last() == m[k - 1]);
            assert(strip_cr(line) == line);
        } else {
            assert(strip_cr(line) == line);
        }
        let al = arrow_line(line);
        lemma_unprefix_arrows(m, k + 1);
        let tail = line + seq![NEWLINE];
        assert(al =~= seq![62u8, 32u8] + tail);
        assert forall|j: int| 0 <= j < tail.len() - 1 implies #[trigger] tail[j] != NEWLINE by {
            assert(tail[j] == m[from + j]);
        }
        lemma_unprefix_line(seq![62u8, 32u8], tail);
        lemma_unprefix_concat(al, arrow_from(m, k + 1));
        assert(tail =~= m.subrange(from, k + 1));
        assert(m.subrange(from, m.len() as int) =~= m.subrange(from, k + 1) + m.subrange(
            k + 1,
            m.len() as int,
        ));
        let rest = arrow_from(m, k + 1);
        if rest.len() > 0 {
            assert((al + rest).last() == rest.last());
        }
    }
}

/// The bytes from a line start to the end of that line hold one line.
proof fn lemma_until_end_single(bytes: Seq<u8>, index: int)
    ensures
        single_line(until_end_bytes(bytes, index)),
        index > 0 && index < bytes.len() && scan_newline(bytes, index) < bytes.len() ==> ends_a_line(
            until_end_bytes(bytes, index),
        ),
{
    if 0 <= index < bytes.len() {
        lemma_scan_newline(bytes, index);
        let u = until_end_bytes(bytes, index);
        assert forall|k: int| 0 <= k < u.len() - 1 implies #[trigger] u[k] != NEWLINE by {
            assert(u[k] == bytes[index + k]);
        }
    }
}

/// The arrow excerpt, with the first two bytes of each of its lines dropped,
/// is the plain excerpt, wherever there is a line before the finding and
/// the lines of the finding end with a line feed and hold no carriage
/// return.
pub proof fn lemma_arrow_is_marked_plain(bytes: Seq<u8>, start: int, length: int)
    requires
        start >= 0,
        length >= 0,
        before_bytes(bytes, start).len() > 0,
        middle_bytes(bytes, start, length).len() > 0,
        middle_bytes(bytes, start, length).last() == NEWLINE,
        no_carriage_return(middle_bytes(bytes, start, length)),
    ensures
        unprefix_lines(arrow_content_bytes(bytes, start, length)) == finding_content_bytes(
            bytes,
            start,
            length,
        ),
{
    let b = before_bytes(bytes, start);
    let m = middle_bytes(bytes, start, length);
    let f = after_bytes(bytes, start, length);
    let a = arrow_from(m, 0);
    let l = line_start_of(bytes, start);
    lemma_line_start(bytes, start);
    assert(l > 0);
    let bi = line_start_of(bytes, l - 1);
    lemma_line_start(bytes, l - 1);
    lemma_scan_newline(bytes, bi);
    if scan_newline(bytes, bi) > l - 1 {
        assert(bytes[l - 1] != NEWLINE);
    }
    lemma_until_end_single(bytes, bi);
    lemma_until_end_single(bytes, line_end_of(bytes, start + length) + 1);
    assert(b.last() == NEWLINE);
    lemma_unprefix_line(indent(), b);
    lemma_unprefix_line(indent(), f);
    lemma_unprefix_arrows(m, 0);
    assert(m.subrange(0, m.len() as int) =~= m);
    let ib = indent() + b;
    let iff = indent() + f;
    assert(ib.last() == NEWLINE);
    assert(arrow_content_bytes(bytes, start, length) =~= ib + (a + iff));
    lemma_unprefix_concat(ib, a + iff);
    lemma_unprefix_concat(a, iff);
    assert(finding_content_bytes(bytes, start, length) =~= b + m + f);
}

} // verus!
