//! Decoding the output of external commands: UTF-8 when it is valid, GBK
//! (the Chinese Windows console code page) otherwise, and UTF-8 read in
//! chunks without splitting a character.

use vstd::prelude::*;
use vstd::utf8::{
    decode_utf8, decode_utf8_encode_utf8, encode_utf8, length_of_first_scalar,
    partial_valid_partial_invalid_utf8, pop_first_scalar, valid_first_scalar, valid_utf8,
    valid_utf8_concat,
};
use crate::text::{trim, trim_str};

verus! {

broadcast use vstd::string::group_string_axioms;

/// What `std::str::Utf8Error` reports.
struct Utf8Failure {
    valid_up_to: usize,
    error_len: Option<usize>,
}

/// The bytes are the start of the UTF-8 encoding of a character, cut short:
/// a non-empty proper prefix of a well-formed encoding of one scalar.
pub open spec fn is_cut_char(bytes: Seq<u8>) -> bool {
    exists|full: Seq<u8>|
        valid_first_scalar(full) && 0 < bytes.len() < length_of_first_scalar(full) && bytes
            == full.take(bytes.len() as int)
}

/// The text `encoding_rs::GBK.decode` gives for the bytes (with its BOM
/// sniffing and replacement of malformed sequences).
pub uninterp spec fn gbk_decoded(bytes: Seq<u8>) -> Seq<char>;

/// The longest prefix length of `bytes` that is valid UTF-8.
pub open spec fn is_longest_valid_prefix(bytes: Seq<u8>, k: int) -> bool {
    &&& 0 <= k <= bytes.len()
    &&& valid_utf8(bytes.take(k))
    &&& forall|j: int| k < j <= bytes.len() ==> !valid_utf8(#[trigger] bytes.take(j))
}

/// The `k` with [`is_longest_valid_prefix`].
pub open spec fn longest_valid_prefix(bytes: Seq<u8>) -> int {
    choose|k: int| is_longest_valid_prefix(bytes, k)
}

/// There is only one longest valid prefix.
pub proof fn lemma_longest_valid_prefix_unique(bytes: Seq<u8>, k: int)
    requires
        is_longest_valid_prefix(bytes, k),
    ensures
        longest_valid_prefix(bytes) == k,
{
    let m = longest_valid_prefix(bytes);
    assert(is_longest_valid_prefix(bytes, m));
    if m < k {
        assert(!valid_utf8(bytes.take(k)));
    } else if k < m {
        assert(!valid_utf8(bytes.take(m)));
    }
}

/// The length of the longest valid UTF-8 prefix among the first `n` bytes.
spec fn valid_prefix_up_to(bytes: Seq<u8>, n: int) -> int
    decreases n,
{
    if n <= 0 {
        0
    } else if valid_utf8(bytes.take(n)) {
        n
    } else {
        valid_prefix_up_to(bytes, n - 1)
    }
}

proof fn lemma_valid_prefix_up_to(bytes: Seq<u8>, n: int)
    requires
        0 <= n <= bytes.len(),
    ensures
        0 <= valid_prefix_up_to(bytes, n) <= n,
        valid_utf8(bytes.take(valid_prefix_up_to(bytes, n))),
        forall|j: int| valid_prefix_up_to(bytes, n) < j <= n ==> !valid_utf8(#[trigger] bytes.take(j)),
    decreases n,
{
    if n == 0 {
        assert(bytes.take(0) =~= Seq::<u8>::empty());
    } else if !valid_utf8(bytes.take(n)) {
        lemma_valid_prefix_up_to(bytes, n - 1);
    }
}

/// Every byte sequence has a longest valid UTF-8 prefix.
pub proof fn lemma_longest_valid_prefix_exists(bytes: Seq<u8>)
    ensures
        is_longest_valid_prefix(bytes, longest_valid_prefix(bytes)),
{
    lemma_valid_prefix_up_to(bytes, bytes.len() as int);
    assert(is_longest_valid_prefix(bytes, valid_prefix_up_to(bytes, bytes.len() as int)));
}

/// Law: decoding a stream loses and reorders no byte. Whenever
/// [`decode_stream_pending`] takes UTF-8 text (all bytes are valid, or the
/// complete characters before an unfinished one are taken), the text it
/// takes, encoded again, followed by the bytes it keeps, are the bytes it was
/// given.
pub proof fn lemma_stream_decoding_keeps_every_byte(bytes: Seq<u8>)
    ensures
        valid_utf8(bytes) ==> encode_utf8(decode_utf8(bytes)) == bytes,
        0 <= longest_valid_prefix(bytes) <= bytes.len(),
        encode_utf8(decode_utf8(bytes.take(longest_valid_prefix(bytes)))) + bytes.skip(
            longest_valid_prefix(bytes),
        ) == bytes,
{
    lemma_longest_valid_prefix_exists(bytes);
    let k = longest_valid_prefix(bytes);
    if valid_utf8(bytes) {
        decode_utf8_encode_utf8(bytes);
    }
    decode_utf8_encode_utf8(bytes.take(k));
    assert(bytes.take(k) + bytes.skip(k) =~= bytes);
}

/// `std::str::from_utf8`, then `to_string` of the text or the two fields of
/// the error. Its documentation: the bytes are accepted exactly when they are
/// valid UTF-8; `valid_up_to` is the largest length of a prefix that is; and
/// `error_len` is `None` exactly when the input ends unexpectedly, that is,
/// when the bytes after that prefix start a character that is cut short.
#[verifier::external_body]
fn utf8_text(bytes: &[u8]) -> (r: Result<String, Utf8Failure>)
    ensures
        r is Ok <==> valid_utf8(bytes@),
        r matches Ok(s) ==> s@ == decode_utf8(bytes@),
        r matches Err(e) ==> is_longest_valid_prefix(bytes@, e.valid_up_to as int) && (e.error_len is None
            <==> is_cut_char(bytes@.skip(e.valid_up_to as int))),
{
    match std::str::from_utf8(bytes) {
        Ok(text) => Ok(text.to_string()),
        Err(err) => Err(Utf8Failure { valid_up_to: err.valid_up_to(), error_len: err.error_len() }),
    }
}

/// `encoding_rs::GBK.decode(bytes).0`. The length bound keeps the size
/// computation of its output buffer from overflowing, on which it panics.
#[verifier::external_body]
fn gbk_text(bytes: &[u8]) -> (r: String)
    requires
        bytes@.len() <= usize::MAX / 4,
    ensures
        r@ == gbk_decoded(bytes@),
{
    let (text, _, _) = encoding_rs::GBK.decode(bytes);
    text.into_owned()
}

/// Command output as text: empty for no bytes, the UTF-8 text when the bytes
/// are valid UTF-8, the GBK decoding otherwise.
pub open spec fn output_text(bytes: Seq<u8>) -> Seq<char> {
    if bytes.len() == 0 {
        seq![]
    } else if valid_utf8(bytes) {
        decode_utf8(bytes)
    } else {
        gbk_decoded(bytes)
    }
}

/// See [`output_text`].
pub fn decode_command_output_raw(bytes: &[u8]) -> (r: String)
    requires
        bytes@.len() <= usize::MAX / 4,
    ensures
        r@ == output_text(bytes@),
{
    if bytes.len() == 0 {
        return String::new();
    }
    match utf8_text(bytes) {
        Ok(text) => text,
        Err(_) => gbk_text(bytes),
    }
}

/// Command output as text with surrounding white space removed.
pub fn decode_command_output(bytes: &[u8]) -> (r: String)
    requires
        bytes@.len() <= usize::MAX / 4,
    ensures
        r@ == trim(output_text(bytes@)),
{
    let raw = decode_command_output_raw(bytes);
    trim_str(raw.as_str()).to_string()
}

/// What [`decode_stream_pending`] takes from the bytes read so far, and what
/// it keeps for the next read.
///
/// With no bytes nothing is taken. Valid UTF-8 is taken whole. When the
/// bytes end inside a character and more may come (`!final_chunk`), the
/// complete characters before it are taken and the rest is kept for the next
/// read (nothing is taken if there are none). Otherwise all bytes are taken
/// and decoded as command output ([`output_text`]).
pub open spec fn stream_step(bytes: Seq<u8>, final_chunk: bool) -> (Option<Seq<char>>, Seq<u8>) {
    let k = longest_valid_prefix(bytes);
    if bytes.len() == 0 {
        (None, bytes)
    } else if valid_utf8(bytes) {
        (Some(decode_utf8(bytes)), seq![])
    } else if is_cut_char(bytes.skip(k)) && !final_chunk {
        if k == 0 {
            (None, bytes)
        } else {
            (Some(decode_utf8(bytes.take(k))), bytes.skip(k))
        }
    } else {
        (Some(output_text(bytes)), seq![])
    }
}

/// Takes the text that is ready from bytes read so far from a stream, see
/// [`stream_step`].
pub fn decode_stream_pending(pending: &mut Vec<u8>, final_chunk: bool) -> (r: Option<String>)
    requires
        old(pending)@.len() <= usize::MAX / 4,
    ensures
        (crate::shell::opt_string_view(r), final(pending)@) == stream_step(old(pending)@, final_chunk),
{
    if pending.len() == 0 {
        return None;
    }
    let ghost bytes = pending@;
    match utf8_text(pending.as_slice()) {
        Ok(text) => {
            pending.clear();
            Some(text)
        },
        Err(err) => {
            proof {
                lemma_longest_valid_prefix_unique(bytes, err.valid_up_to as int);
            }
            if err.error_len.is_none() && !final_chunk {
                let valid_up_to = err.valid_up_to;
                if valid_up_to == 0 {
                    return None;
                }
                let head = slice_prefix(pending.as_slice(), valid_up_to);
                let rest = slice_suffix(pending.as_slice(), valid_up_to);
                match utf8_text(head.as_slice()) {
                    Ok(text) => {
                        *pending = rest;
                        Some(text)
                    },
                    Err(_) => {
                        proof {
                            assert(head@ =~= bytes.take(valid_up_to as int));
                        }
                        vstd::pervasive::unreached()
                    },
                }
            } else {
                let text = decode_command_output_raw(pending.as_slice());
                pending.clear();
                Some(text)
            }
        },
    }
}

/// The first `n` bytes.
fn slice_prefix(bytes: &[u8], n: usize) -> (r: Vec<u8>)
    requires
        n <= bytes@.len(),
    ensures
        r@ == bytes@.take(n as int),
{
    let mut r: Vec<u8> = Vec::new();
    let mut i: usize = 0;
    while i < n
        invariant
            i <= n <= bytes@.len(),
            r@ == bytes@.take(i as int),
        decreases n - i,
    {
        r.push(bytes[i]);
        i = i + 1;
        assert(r@ =~= bytes@.take(i as int));
    }
    r
}

/// The bytes from position `n` on.
fn slice_suffix(bytes: &[u8], n: usize) -> (r: Vec<u8>)
    requires
        n <= bytes@.len(),
    ensures
        r@ == bytes@.skip(n as int),
{
    let mut r: Vec<u8> = Vec::new();
    let mut i: usize = n;
    while i < bytes.len()
        invariant
            n <= i <= bytes@.len(),
            r@ == bytes@.subrange(n as int, i as int),
        decreases bytes@.len() - i,
    {
        r.push(bytes[i]);
        i = i + 1;
        assert(r@ =~= bytes@.subrange(n as int, i as int));
    }
    assert(r@ =~= bytes@.skip(n as int));
    r
}

/// The position of the last character start at or before `j` in valid
/// UTF-8 `s`.
spec fn last_boundary(s: Seq<u8>, j: int) -> int
    decreases s.len(),
{
    if j <= 0 || s.len() == 0 || !valid_first_scalar(s) || j < length_of_first_scalar(s)
        || length_of_first_scalar(s) <= 0 || length_of_first_scalar(s) > s.len() {
        0
    } else {
        length_of_first_scalar(s) + last_boundary(pop_first_scalar(s), j - length_of_first_scalar(s))
    }
}

/// Valid UTF-8 cut after `j` bytes splits at a character start into valid
/// UTF-8 and either nothing or one character cut short.
proof fn lemma_last_boundary(s: Seq<u8>, j: int)
    requires
        valid_utf8(s),
        0 <= j <= s.len(),
    ensures
        0 <= last_boundary(s, j) <= j,
        valid_utf8(s.take(last_boundary(s, j))),
        valid_utf8(s.skip(last_boundary(s, j))),
        last_boundary(s, j) == j || is_cut_char(s.subrange(last_boundary(s, j), j)),
    decreases s.len(),
{
    if j == 0 || s.len() == 0 {
        assert(s.take(0) =~= Seq::<u8>::empty());
        assert(s.skip(0) =~= s);
    } else {
        let n = length_of_first_scalar(s);
        if j < n {
            assert(s.take(0) =~= Seq::<u8>::empty());
            assert(s.skip(0) =~= s);
            assert(s.subrange(0, j) == s.take(j));
        } else {
            let tail = pop_first_scalar(s);
            lemma_last_boundary(tail, j - n);
            let k = last_boundary(tail, j - n);
            let head = s.take(n);
            assert(pop_first_scalar(head) =~= Seq::<u8>::empty());
            assert(valid_first_scalar(head));
            assert(valid_utf8(head)) by {
                reveal_with_fuel(valid_utf8, 2);
            }
            valid_utf8_concat(head, tail.take(k));
            assert(s.take(n + k) =~= head + tail.take(k));
            assert(s.skip(n + k) =~= tail.skip(k));
            assert(s.subrange(n + k, j) =~= tail.subrange(k, j - n));
        }
    }
}

/// A character cut short is not valid UTF-8, nor is any non-empty start of
/// it.
proof fn lemma_cut_char_invalid(r: Seq<u8>, i: int)
    requires
        is_cut_char(r),
        0 < i <= r.len(),
    ensures
        is_cut_char(r.take(i)),
        !valid_utf8(r.take(i)),
{
    let full = choose|full: Seq<u8>|
        valid_first_scalar(full) && 0 < r.len() < length_of_first_scalar(full) && r == full.take(
            r.len() as int,
        );
    assert(r.take(i) =~= full.take(i));
    let t = r.take(i);
    assert(t[0] == full[0]);
}

/// The bytes cut at `j` from valid UTF-8 `s` have [`last_boundary`] as their
/// longest valid prefix.
proof fn lemma_last_boundary_is_longest(s: Seq<u8>, j: int)
    requires
        valid_utf8(s),
        0 <= j <= s.len(),
    ensures
        longest_valid_prefix(s.take(j)) == last_boundary(s, j),
{
    lemma_last_boundary(s, j);
    let k = last_boundary(s, j);
    let q = s.take(j);
    assert(q.take(k) =~= s.take(k));
    assert forall|j2: int| k < j2 <= q.len() implies !valid_utf8(#[trigger] q.take(j2)) by {
        let cut = s.subrange(k, j);
        lemma_cut_char_invalid(cut, j2 - k);
        let w = q.take(j2);
        assert(w.subrange(0, k) =~= s.take(k));
        assert(w.subrange(k, w.len() as int) =~= cut.take(j2 - k));
        partial_valid_partial_invalid_utf8(w, k);
    }
    lemma_longest_valid_prefix_unique(q, k);
}

/// Decoding two valid UTF-8 sequences one after the other decodes their
/// concatenation.
proof fn lemma_decode_concat(x: Seq<u8>, y: Seq<u8>)
    requires
        valid_utf8(x),
        valid_utf8(y),
    ensures
        valid_utf8(x + y),
        decode_utf8(x + y) == decode_utf8(x) + decode_utf8(y),
    decreases x.len(),
{
    valid_utf8_concat(x, y);
    if x.len() == 0 {
        assert(x + y =~= y);
    } else {
        let rest = pop_first_scalar(x);
        lemma_decode_concat(rest, y);
        let xy = x + y;
        assert(xy[0] == x[0]);
        assert(xy[1] == x[1] && xy[2] == x[2] && xy[3] == x[3] || length_of_first_scalar(x) < 4);
        assert(pop_first_scalar(xy) =~= rest + y);
        assert(decode_utf8(xy) =~= decode_utf8(x) + decode_utf8(y));
    }
}

/// The text a step takes, empty when it takes nothing.
pub open spec fn text_of(taken: Option<Seq<char>>) -> Seq<char> {
    match taken {
        Some(t) => t,
        None => seq![],
    }
}

/// The chunks one after the other.
pub open spec fn flatten(chunks: Seq<Seq<u8>>) -> Seq<u8>
    decreases chunks.len(),
{
    if chunks.len() == 0 {
        seq![]
    } else {
        flatten(chunks.drop_last()) + chunks.last()
    }
}

/// Reading a stream in chunks: each chunk is added to the bytes kept so far
/// and [`stream_step`] is applied with more input to come. The text taken,
/// in order, and the bytes kept at the end.
pub open spec fn stream_run(chunks: Seq<Seq<u8>>) -> (Seq<char>, Seq<u8>)
    decreases chunks.len(),
{
    if chunks.len() == 0 {
        (seq![], seq![])
    } else {
        let (taken, kept) = stream_run(chunks.drop_last());
        let (more, rest) = stream_step(kept + chunks.last(), false);
        (taken + text_of(more), rest)
    }
}

/// The text taken from a whole stream: [`stream_run`] on its chunks, then a
/// final step on the bytes kept.
pub open spec fn stream_text(chunks: Seq<Seq<u8>>) -> Seq<char> {
    stream_run(chunks).0 + text_of(stream_step(stream_run(chunks).1, true).0)
}

proof fn lemma_flatten_prefix(chunks: Seq<Seq<u8>>)
    ensures
        chunks.len() > 0 ==> flatten(chunks.drop_last()) == flatten(chunks).take(
            flatten(chunks.drop_last()).len() as int,
        ),
{
    if chunks.len() > 0 {
        assert(flatten(chunks).take(flatten(chunks.drop_last()).len() as int) =~= flatten(
            chunks.drop_last(),
        ));
    }
}

/// While a valid stream is read, the text taken is the decoding of a valid
/// prefix of it, and the bytes kept are the rest of what was read.
proof fn lemma_stream_run(b: Seq<u8>, chunks: Seq<Seq<u8>>)
    requires
        valid_utf8(b),
        flatten(chunks).len() <= b.len(),
        flatten(chunks) == b.take(flatten(chunks).len() as int),
    ensures
        ({
            let (taken, kept) = stream_run(chunks);
            let f = flatten(chunks).len() as int;
            let m = f - kept.len();
            &&& 0 <= m <= f
            &&& valid_utf8(b.take(m))
            &&& valid_utf8(b.skip(m))
            &&& taken == decode_utf8(b.take(m))
            &&& kept == b.subrange(m, f)
        }),
    decreases chunks.len(),
{
    if chunks.len() == 0 {
        assert(b.take(0) =~= Seq::<u8>::empty());
        assert(b.skip(0) =~= b);
        assert(b.subrange(0, 0) =~= Seq::<u8>::empty());
    } else {
        let init = chunks.drop_last();
        lemma_flatten_prefix(chunks);
        let f0 = flatten(init).len() as int;
        let f = flatten(chunks).len() as int;
        assert(flatten(init) =~= b.take(f0)) by {
            assert(b.take(f).take(f0) =~= b.take(f0));
        }
        lemma_stream_run(b, init);
        let (taken, kept) = stream_run(init);
        let m = f0 - kept.len();
        let s = b.skip(m);
        let bytes = kept + chunks.last();
        assert(bytes =~= s.take(f - m)) by {
            assert(flatten(chunks) =~= flatten(init) + chunks.last());
            assert(chunks.last() =~= flatten(chunks).subrange(f0, f));
            assert(b.take(f) == flatten(chunks));
            assert(flatten(chunks).subrange(f0, f) =~= b.subrange(f0, f));
            assert(kept =~= b.subrange(m, f0));
        }
        lemma_last_boundary(s, f - m);
        lemma_last_boundary_is_longest(s, f - m);
        let k = last_boundary(s, f - m);
        assert(bytes.take(k) =~= s.take(k));
        assert(bytes.skip(k) =~= s.subrange(k, f - m));
        lemma_decode_concat(b.take(m), s.take(k));
        assert(b.take(m + k) =~= b.take(m) + s.take(k));
        assert(b.skip(m + k) =~= s.skip(k));
        if bytes.len() == 0 {
        } else if valid_utf8(bytes) {
            assert(bytes.take(bytes.len() as int) =~= bytes);
            lemma_longest_valid_prefix_unique(bytes, bytes.len() as int);
            assert(k == bytes.len());
            assert(bytes.take(k) =~= bytes);
            assert(b.subrange(f, f) =~= Seq::<u8>::empty());
        } else {
            assert(k != bytes.len()) by {
                if k == bytes.len() {
                    assert(bytes.take(k) =~= bytes);
                }
            }
            assert(b.subrange(m + k, f) =~= s.subrange(k, f - m));
            if k == 0 {
                assert(b.take(m + 0) =~= b.take(m));
                assert(decode_utf8(s.take(0)) =~= Seq::<char>::empty()) by {
                    assert(s.take(0) =~= Seq::<u8>::empty());
                }
            }
        }
    }
}

/// Law: reading valid UTF-8 in chunks, cut anywhere (even inside a
/// character), with [`decode_stream_pending`] after each chunk and once more
/// at the end, takes exactly the decoded text: no character is lost,
/// repeated or garbled at a chunk border, and nothing is left over.
pub proof fn lemma_chunked_stream_decodes_exactly(chunks: Seq<Seq<u8>>)
    requires
        valid_utf8(flatten(chunks)),
    ensures
        stream_text(chunks) == decode_utf8(flatten(chunks)),
        stream_step(stream_run(chunks).1, true).1.len() == 0,
{
    let b = flatten(chunks);
    assert(b.take(b.len() as int) =~= b);
    lemma_stream_run(b, chunks);
    let (taken, kept) = stream_run(chunks);
    let m = b.len() - kept.len();
    assert(kept =~= b.skip(m));
    lemma_decode_concat(b.take(m), b.skip(m));
    assert(b.take(m) + b.skip(m) =~= b);
    if kept.len() == 0 {
        assert(b.take(m) =~= b);
        assert(decode_utf8(b.skip(m)) =~= Seq::<char>::empty()) by {
            assert(b.skip(m) =~= Seq::<u8>::empty());
        }
    }
}

} // verus!
