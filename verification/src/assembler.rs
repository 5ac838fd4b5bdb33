//! Chunk-to-line assembly for streamed process output.
//!
//! Raw bytes arrive from a child process in arbitrarily split chunks.  Each
//! chunk is appended verbatim to a transcript accumulator, and scanned byte
//! by byte: a line terminator (`\n` or `\r`) flushes the pending buffer as
//! one completed line (decoded as UTF-8 with lossy replacement), while every
//! other byte is appended to the pending buffer.  Treating `\r` as a
//! terminator keeps carriage-return progress output from growing the pending
//! buffer without bound.
use vstd::prelude::*;

verus! {

/// A byte that terminates a line: `\n` (10) or `\r` (13).
pub open spec fn is_delimiter_byte(b: u8) -> bool {
    b == 10 || b == 13
}

/// Runtime check mirroring [`is_delimiter_byte`].
pub fn byte_is_delimiter(b: u8) -> (r: bool)
    ensures
        r == is_delimiter_byte(b),
{
    b == 10 || b == 13
}

/// What `String::from_utf8_lossy` returns for a given byte sequence: the
/// bytes decoded as UTF-8, invalid sequences replaced by U+FFFD.
pub uninterp spec fn lossy_decode(bytes: Seq<u8>) -> Seq<char>;

/// Relies on `String::from_utf8_lossy`: the result is a function of the
/// bytes alone, named by `lossy_decode`.
#[verifier::external_body]
fn decode_lossy(bytes: &Vec<u8>) -> (r: String)
    ensures
        r@ == lossy_decode(bytes@),
{
    String::from_utf8_lossy(bytes).into_owned()
}

/// `bytes` with every trailing delimiter byte removed.
pub open spec fn trim_trailing_delimiters(bytes: Seq<u8>) -> Seq<u8>
    decreases bytes.len(),
{
    if bytes.len() > 0 && is_delimiter_byte(bytes.last()) {
        trim_trailing_delimiters(bytes.drop_last())
    } else {
        bytes
    }
}

/// The text a flushed pending buffer turns into.
pub open spec fn flushed_text(pending: Seq<u8>) -> Seq<char> {
    lossy_decode(trim_trailing_delimiters(pending))
}

/// Whether flushing `pending` emits a line: the buffer must be non-empty and
/// must still hold text after trimming trailing delimiters.
pub open spec fn flush_emits(pending: Seq<u8>) -> bool {
    pending.len() > 0 && flushed_text(pending).len() > 0
}

/// Flush the not-yet-terminated tail of a stream as one final line.
///
/// Clears `pending` in every case.  Returns the decoded, delimiter-trimmed
/// text when it is non-empty, and `None` for an empty or delimiter-only
/// buffer.
pub fn flush_pending_line(pending: &mut Vec<u8>) -> (r: Option<String>)
    ensures
        final(pending)@ == Seq::<u8>::empty(),
        flush_emits(old(pending)@) ==> (r matches Some(line) && line@ == flushed_text(
            old(pending)@,
        )),
        !flush_emits(old(pending)@) ==> r is None,
{
    if pending.is_empty() {
        return None;
    }
    loop
        invariant
            trim_trailing_delimiters(pending@) == trim_trailing_delimiters(old(pending)@),
        ensures
            pending@.len() == 0 || !is_delimiter_byte(pending@.last()),
            trim_trailing_delimiters(pending@) == trim_trailing_delimiters(old(pending)@),
        decreases pending@.len(),
    {
        let n = pending.len();
        if n == 0 {
            break;
        }
        let b = pending[n - 1];
        proof {
            assert(pending@.last() == pending@[n - 1 as int]);
        }
        if !byte_is_delimiter(b) {
            break;
        }
        pending.pop();
    }
    proof {
        assert(trim_trailing_delimiters(pending@) == pending@);
    }
    let line = decode_lossy(pending);
    pending.clear();
    if line.as_str().is_empty() {
        None
    } else {
        Some(line)
    }
}

/// The pending buffer left after scanning `data` with initial pending `p`.
pub open spec fn chunk_pending(p: Seq<u8>, data: Seq<u8>) -> Seq<u8>
    decreases data.len(),
{
    if data.len() == 0 {
        p
    } else if is_delimiter_byte(data[0]) {
        chunk_pending(Seq::empty(), data.skip(1))
    } else {
        chunk_pending(p.push(data[0]), data.skip(1))
    }
}

/// The completed lines emitted while scanning `data` with initial pending `p`.
pub open spec fn chunk_lines(p: Seq<u8>, data: Seq<u8>) -> Seq<Seq<char>>
    decreases data.len(),
{
    if data.len() == 0 {
        Seq::empty()
    } else if is_delimiter_byte(data[0]) {
        if flush_emits(p) {
            seq![flushed_text(p)] + chunk_lines(Seq::empty(), data.skip(1))
        } else {
            chunk_lines(Seq::empty(), data.skip(1))
        }
    } else {
        chunk_lines(p.push(data[0]), data.skip(1))
    }
}

/// Consume one raw chunk of stream output.
///
/// Appends the chunk to the transcript accumulator `raw` unconditionally,
/// scans it byte by byte, and returns the completed lines in order.  The
/// not-yet-terminated tail is carried across calls in `pending`.
pub fn consume_stream_chunk(raw: &mut Vec<u8>, pending: &mut Vec<u8>, data: &[u8]) -> (lines: Vec<
    String,
>)
    ensures
        final(raw)@ == old(raw)@ + data@,
        final(pending)@ == chunk_pending(old(pending)@, data@),
        lines.deep_view() == chunk_lines(old(pending)@, data@),
{
    raw.extend_from_slice(data);
    proof {
        assert(raw@ =~= old(raw)@ + data@);
    }
    let ghost p0: Seq<u8> = pending@;
    let mut lines: Vec<String> = Vec::new();
    proof {
        assert(lines.deep_view() =~= Seq::<Seq<char>>::empty());
        assert(data@.skip(0) =~= data@);
    }
    let mut i: usize = 0;
    while i < data.len()
        invariant
            i <= data@.len(),
            chunk_pending(p0, data@) == chunk_pending(pending@, data@.skip(i as int)),
            chunk_lines(p0, data@) == lines.deep_view() + chunk_lines(
                pending@,
                data@.skip(i as int),
            ),
        decreases data@.len() - i,
    {
        let b = data[i];
        proof {
            assert(data@.skip(i as int)[0] == data@[i as int]);
            assert(data@.skip(i as int).skip(1) =~= data@.skip(i + 1));
        }
        if byte_is_delimiter(b) {
            let ghost p_before: Seq<u8> = pending@;
            let flushed = flush_pending_line(pending);
            match flushed {
                Some(line) => {
                    proof {
                        assert(chunk_lines(p_before, data@.skip(i as int)) =~= seq![
                            flushed_text(p_before),
                        ] + chunk_lines(Seq::empty(), data@.skip(i + 1)));
                    }
                    let ghost lines_before = lines.deep_view();
                    lines.push(line);
                    proof {
                        assert(lines.deep_view() =~= lines_before.push(flushed_text(p_before)));
                        assert(lines_before + (seq![flushed_text(p_before)] + chunk_lines(
                            Seq::empty(),
                            data@.skip(i + 1),
                        )) =~= lines.deep_view() + chunk_lines(Seq::empty(), data@.skip(i + 1)));
                    }
                },
                None => {
                },
            }
        } else {
            pending.push(b);
        }
        i = i + 1;
    }
    proof {
        assert(data@.skip(data@.len() as int) =~= Seq::<u8>::empty());
        assert(lines.deep_view() + Seq::<Seq<char>>::empty() =~= lines.deep_view());
    }
    lines
}

/// All lines produced by scanning `data` and then flushing whatever tail is
/// left in the pending buffer, as done when a job finishes.
pub open spec fn assembled_lines(p: Seq<u8>, data: Seq<u8>) -> Seq<Seq<char>> {
    chunk_lines(p, data) + if flush_emits(chunk_pending(p, data)) {
        seq![flushed_text(chunk_pending(p, data))]
    } else {
        Seq::empty()
    }
}

/// Splitting a byte stream into two chunks leaves the carried pending buffer
/// exactly as scanning the concatenation would.
pub proof fn lemma_chunk_pending_split(p: Seq<u8>, d1: Seq<u8>, d2: Seq<u8>)
    ensures
        chunk_pending(p, d1 + d2) == chunk_pending(chunk_pending(p, d1), d2),
    decreases d1.len(),
{
    if d1.len() == 0 {
        assert(d1 + d2 =~= d2);
    } else {
        assert((d1 + d2)[0] == d1[0]);
        assert((d1 + d2).skip(1) =~= d1.skip(1) + d2);
        if is_delimiter_byte(d1[0]) {
            lemma_chunk_pending_split(Seq::empty(), d1.skip(1), d2);
        } else {
            lemma_chunk_pending_split(p.push(d1[0]), d1.skip(1), d2);
        }
    }
}

/// Splitting a byte stream into two chunks emits exactly the lines that
/// scanning the concatenation in one piece would emit.
pub proof fn lemma_chunk_lines_split(p: Seq<u8>, d1: Seq<u8>, d2: Seq<u8>)
    ensures
        chunk_lines(p, d1 + d2) == chunk_lines(p, d1) + chunk_lines(chunk_pending(p, d1), d2),
    decreases d1.len(),
{
    if d1.len() == 0 {
        assert(d1 + d2 =~= d2);
        assert(chunk_lines(p, d1) + chunk_lines(chunk_pending(p, d1), d2) =~= chunk_lines(
            chunk_pending(p, d1),
            d2,
        ));
    } else {
        assert((d1 + d2)[0] == d1[0]);
        assert((d1 + d2).skip(1) =~= d1.skip(1) + d2);
        if is_delimiter_byte(d1[0]) {
            lemma_chunk_lines_split(Seq::empty(), d1.skip(1), d2);
            if flush_emits(p) {
                assert(chunk_lines(p, d1 + d2) =~= chunk_lines(p, d1) + chunk_lines(
                    chunk_pending(p, d1),
                    d2,
                ));
            }
        } else {
            lemma_chunk_lines_split(p.push(d1[0]), d1.skip(1), d2);
            assert(chunk_lines(p, d1 + d2) =~= chunk_lines(p, d1) + chunk_lines(
                chunk_pending(p, d1),
                d2,
            ));
        }
    }
}

/// Feeding a byte stream split at an arbitrary boundary, then flushing the
/// final tail, yields the same lines as feeding the whole stream at once:
/// the lines of the first chunk followed by the assembly of the second chunk
/// under the carried pending buffer.
pub proof fn lemma_assembly_split(p: Seq<u8>, d1: Seq<u8>, d2: Seq<u8>)
    ensures
        assembled_lines(p, d1 + d2) == chunk_lines(p, d1) + assembled_lines(
            chunk_pending(p, d1),
            d2,
        ),
{
    lemma_chunk_pending_split(p, d1, d2);
    lemma_chunk_lines_split(p, d1, d2);
    assert(assembled_lines(p, d1 + d2) =~= chunk_lines(p, d1) + assembled_lines(
        chunk_pending(p, d1),
        d2,
    ));
}

/// Scanning delimiter-free bytes only ever appends to the pending buffer.
pub proof fn lemma_pending_no_delimiters(p: Seq<u8>, data: Seq<u8>)
    requires
        forall|i: int| 0 <= i < data.len() ==> !is_delimiter_byte(#[trigger] data[i]),
    ensures
        chunk_pending(p, data) == p + data,
    decreases data.len(),
{
    if data.len() == 0 {
        assert(p + data =~= p);
    } else {
        assert(!is_delimiter_byte(data[0]));
        assert(forall|i: int|
            0 <= i < data.skip(1).len() ==> !is_delimiter_byte(#[trigger] data.skip(1)[i]));
        lemma_pending_no_delimiters(p.push(data[0]), data.skip(1));
        assert(p.push(data[0]) + data.skip(1) =~= p + data);
    }
}

/// A scan that ends on a delimiter leaves the pending buffer empty.
pub proof fn lemma_pending_cleared_by_delimiter(p: Seq<u8>, data: Seq<u8>)
    requires
        data.len() > 0,
        is_delimiter_byte(data.last()),
    ensures
        chunk_pending(p, data) == Seq::<u8>::empty(),
    decreases data.len(),
{
    if data.len() == 1 {
        assert(data.skip(1) =~= Seq::<u8>::empty());
        assert(data[0] == data.last());
        assert(chunk_pending(p, data) == chunk_pending(Seq::<u8>::empty(), data.skip(1)));
        assert(chunk_pending(Seq::<u8>::empty(), data.skip(1)) == Seq::<u8>::empty());
    } else {
        assert(data.skip(1).len() == data.len() - 1);
        assert(data.skip(1).last() == data[1 + (data.len() - 2)]);
        assert(data.skip(1).last() == data.last());
        assert(data.skip(1).len() > 0);
        if is_delimiter_byte(data[0]) {
            lemma_pending_cleared_by_delimiter(Seq::empty(), data.skip(1));
            assert(chunk_pending(p, data) == chunk_pending(Seq::<u8>::empty(), data.skip(1)));
        } else {
            lemma_pending_cleared_by_delimiter(p.push(data[0]), data.skip(1));
            assert(chunk_pending(p, data) == chunk_pending(p.push(data[0]), data.skip(1)));
        }
    }
}

/// The pending buffer after a scan holds exactly the bytes that follow the
/// last delimiter of the chunk, however long the stream before it was: its
/// size is bounded by the longest single line of the output, not by the
/// total output size.
pub proof fn lemma_pending_bounded_by_last_line(p: Seq<u8>, data: Seq<u8>, k: int)
    requires
        0 <= k < data.len(),
        is_delimiter_byte(data[k]),
        forall|j: int| k < j < data.len() ==> !is_delimiter_byte(#[trigger] data[j]),
    ensures
        chunk_pending(p, data) == data.skip(k + 1),
        chunk_pending(p, data).len() == data.len() - k - 1,
{
    let head = data.take(k + 1);
    let tail = data.skip(k + 1);
    assert(head + tail =~= data);
    lemma_chunk_pending_split(p, head, tail);
    assert(head.last() == data[k]);
    lemma_pending_cleared_by_delimiter(p, head);
    assert(forall|i: int| 0 <= i < tail.len() ==> !is_delimiter_byte(#[trigger] tail[i])) by {
        assert(forall|i: int|
            0 <= i < tail.len() ==> #[trigger] tail[i] == data[k + 1 + i] && !is_delimiter_byte(
                data[k + 1 + i],
            ));
    }
    lemma_pending_no_delimiters(Seq::empty(), tail);
    assert(Seq::<u8>::empty() + tail =~= tail);
}

} // verus!
