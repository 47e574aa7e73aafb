//! Framing of a job's output streams into lines tagged with the job's name.
//!
//! Each stream of a job has a buffer of bytes read but not yet shown. Every
//! complete line in it is shown as soon as it arrives; the unterminated tail
//! stays in the buffer until more data comes, or until the job ends.
use vstd::prelude::*;
use vstd::utf8::{decode_utf8, valid_utf8};

use bytes::BytesMut;

verus! {

#[verifier::external_type_specification]
#[verifier::external_body]
pub struct ExBytesMut(BytesMut);

/// The bytes held by a buffer.
pub uninterp spec fn buf_contents(b: BytesMut) -> Seq<u8>;

/// Text decoded from bytes, with each invalid sequence replaced by U+FFFD.
pub uninterp spec fn utf8_lossy(b: Seq<u8>) -> Seq<char>;

/// Relies on `BytesMut`'s `Deref<Target = [u8]>`: a copy of the buffered bytes.
#[verifier::external_body]
fn buf_bytes(b: &BytesMut) -> (r: Vec<u8>)
    ensures
        r@ == buf_contents(*b),
{
    b.to_vec()
}

/// Relies on `<BytesMut as bytes::Buf>::advance`: drops the first `n` bytes
/// (it panics past the end).
#[verifier::external_body]
fn buf_advance(b: &mut BytesMut, n: usize)
    requires
        n <= buf_contents(*old(b)).len(),
    ensures
        buf_contents(*final(b)) == buf_contents(*old(b)).subrange(
            n as int,
            buf_contents(*old(b)).len() as int,
        ),
{
    bytes::Buf::advance(b, n)
}

/// Relies on `BytesMut::clear`: the buffer is left empty.
#[verifier::external_body]
fn buf_clear(b: &mut BytesMut)
    ensures
        buf_contents(*final(b)) == Seq::<u8>::empty(),
{
    b.clear()
}

/// Relies on `String::from_utf8_lossy`: valid UTF-8 is decoded as it is, and
/// each invalid sequence becomes U+FFFD.
#[verifier::external_body]
fn lossy_text(b: &[u8]) -> (r: String)
    ensures
        r@ == utf8_lossy(b@),
        valid_utf8(b@) ==> r@ == decode_utf8(b@),
{
    String::from_utf8_lossy(b).into_owned()
}

pub const NEWLINE: u8 = 10;

/// The length of the part of `s` that ends with its last newline (0 when
/// `s` holds none).
pub open spec fn complete_len(s: Seq<u8>) -> nat
    decreases s.len(),
{
    if s.len() == 0 {
        0
    } else if s.last() == NEWLINE {
        s.len()
    } else {
        complete_len(s.drop_last())
    }
}

/// `s` without the newlines at its end.
pub open spec fn trim_newlines(s: Seq<u8>) -> Seq<u8>
    decreases s.len(),
{
    if s.len() > 0 && s.last() == NEWLINE {
        trim_newlines(s.drop_last())
    } else {
        s
    }
}

/// The newline-separated pieces of `s`, in order: one more than the
/// newlines in `s`, each without newline.
pub open spec fn split_lines(s: Seq<u8>) -> Seq<Seq<u8>>
    decreases s.len(),
{
    if s.len() == 0 {
        seq![Seq::<u8>::empty()]
    } else {
        let p = split_lines(s.drop_last());
        if s.last() == NEWLINE {
            p.push(Seq::<u8>::empty())
        } else {
            p.update(p.len() - 1, p.last().push(s.last()))
        }
    }
}

/// The lines that buffered bytes `s` make complete: the text up to the last
/// newline, without the run of newlines at its end, split at each newline.
/// Nothing when that text is empty.
pub open spec fn shown_lines(s: Seq<u8>) -> Seq<Seq<u8>> {
    let body = trim_newlines(s.subrange(0, complete_len(s) as int));
    if body.len() == 0 {
        Seq::empty()
    } else {
        split_lines(body)
    }
}

/// What stays buffered: the bytes after the last newline.
pub open spec fn pending(s: Seq<u8>) -> Seq<u8> {
    s.subrange(complete_len(s) as int, s.len() as int)
}

/// A line of a job's output as it is printed: the job's name, dimmed, then
/// the text.
pub open spec fn tagged(name: Seq<char>, text: Seq<char>) -> Seq<char> {
    "\x1b[2m"@ + name + ">\x1b[0m "@ + text
}

/// The printed form of output line `line` of job `name`.
pub fn tag_line(name: &str, line: &[u8]) -> (r: String)
    ensures
        r@ == tagged(name@, utf8_lossy(line@)),
        valid_utf8(line@) ==> r@ == tagged(name@, decode_utf8(line@)),
{
    let text = lossy_text(line);
    let mut r = String::from_str("\x1b[2m");
    r.append(name);
    r.append(">\x1b[0m ");
    r.append(text.as_str());
    r
}

proof fn lemma_split_step(s: Seq<u8>, j: int)
    requires
        0 <= j < s.len(),
    ensures
        split_lines(s.subrange(0, j + 1)) == if s[j] == NEWLINE {
            split_lines(s.subrange(0, j)).push(Seq::<u8>::empty())
        } else {
            let p = split_lines(s.subrange(0, j));
            p.update(p.len() - 1, p.last().push(s[j]))
        },
{
    assert(s.subrange(0, j + 1).drop_last() =~= s.subrange(0, j));
}

/// Takes the complete lines out of a job's stream buffer and returns them in
/// order, in their printed form; the bytes after the last newline stay
/// buffered for the next read.
pub fn show_lines(name: &str, data: &mut BytesMut) -> (r: Vec<String>)
    ensures
        r@.len() == shown_lines(buf_contents(*old(data))).len(),
        forall|i: int|
            0 <= i < r@.len() ==> #[trigger] r@[i]@ == tagged(
                name@,
                utf8_lossy(shown_lines(buf_contents(*old(data)))[i]),
            ),
        forall|i: int|
            0 <= i < r@.len() && valid_utf8(shown_lines(buf_contents(*old(data)))[i]) ==> #[trigger] r@[i]@
                == tagged(name@, decode_utf8(shown_lines(buf_contents(*old(data)))[i])),
        buf_contents(*final(data)) == pending(buf_contents(*old(data))),
{
    let bytes = buf_bytes(data);
    let ghost s = bytes@;
    let n = bytes.len();
    assert(s.subrange(0, n as int) =~= s);

    let mut k: usize = n;
    while k > 0 && bytes[k - 1] != NEWLINE
        invariant
            k <= n == s.len(),
            bytes@ == s,
            complete_len(s.subrange(0, k as int)) == complete_len(s),
        decreases k,
    {
        assert(s.subrange(0, k as int).drop_last() =~= s.subrange(0, k - 1));
        k = k - 1;
    }

    let mut t: usize = k;
    assert(s.subrange(0, complete_len(s) as int) =~= s.subrange(0, k as int));
    while t > 0 && bytes[t - 1] == NEWLINE
        invariant
            t <= k <= n == s.len(),
            bytes@ == s,
            trim_newlines(s.subrange(0, k as int)) == trim_newlines(s.subrange(0, t as int)),
        decreases t,
    {
        assert(s.subrange(0, t as int).drop_last() =~= s.subrange(0, t - 1));
        t = t - 1;
    }
    assert(trim_newlines(s.subrange(0, t as int)) == s.subrange(0, t as int));

    let mut out: Vec<String> = Vec::new();
    if t > 0 {
        let ghost mut g: Seq<Seq<u8>> = Seq::empty();
        let mut start: usize = 0;
        let mut j: usize = 0;
        assert(split_lines(s.subrange(0, 0)) == seq![Seq::<u8>::empty()]);
        assert(s.subrange(0, 0) =~= Seq::<u8>::empty());
        while j < t
            invariant
                start <= j <= t <= n == s.len(),
                bytes@ == s,
                split_lines(s.subrange(0, j as int)) == g.push(s.subrange(start as int, j as int)),
                out@.len() == g.len(),
                forall|i: int|
                    0 <= i < out@.len() ==> #[trigger] out@[i]@ == tagged(name@, utf8_lossy(g[i])),
                forall|i: int|
                    0 <= i < out@.len() && valid_utf8(g[i]) ==> #[trigger] out@[i]@ == tagged(
                        name@,
                        decode_utf8(g[i]),
                    ),
            decreases t - j,
        {
            proof {
                lemma_split_step(s, j as int);
            }
            if bytes[j] == NEWLINE {
                let line = tag_line(name, vstd::slice::slice_subrange(bytes.as_slice(), start, j));
                proof {
                    g = g.push(s.subrange(start as int, j as int));
                }
                out.push(line);
                start = j + 1;
                assert(s.subrange(start as int, j + 1) =~= Seq::<u8>::empty());
            } else {
                assert(s.subrange(start as int, j + 1) =~= s.subrange(start as int, j as int).push(
                    s[j as int],
                ));
            }
            j = j + 1;
        }
        let line = tag_line(name, vstd::slice::slice_subrange(bytes.as_slice(), start, t));
        proof {
            g = g.push(s.subrange(start as int, t as int));
        }
        out.push(line);
    }
    buf_advance(data, k);
    out
}

/// Takes what is left in a job's stream buffer when the job has ended: the
/// printed form of the unterminated tail, if there is one. The buffer is
/// left empty.
pub fn flush_rest(name: &str, data: &mut BytesMut) -> (r: Option<String>)
    ensures
        buf_contents(*old(data)).len() == 0 ==> r is None,
        buf_contents(*old(data)).len() > 0 ==> r is Some && r->0@ == tagged(
            name@,
            utf8_lossy(buf_contents(*old(data))),
        ),
        buf_contents(*old(data)).len() > 0 && valid_utf8(buf_contents(*old(data))) ==> r is Some
            && r->0@ == tagged(name@, decode_utf8(buf_contents(*old(data)))),
        buf_contents(*final(data)) == Seq::<u8>::empty(),
{
    let bytes = buf_bytes(data);
    buf_clear(data);
    if bytes.len() == 0 {
        None
    } else {
        Some(tag_line(name, bytes.as_slice()))
    }
}

} // verus!
