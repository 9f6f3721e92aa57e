//! Incremental UTF-8 decoding of a byte stream that arrives in arbitrary pieces.
//!
//! A scalar whose bytes are split across two pieces is carried over and decoded
//! once its remaining bytes arrive; a byte that can never start a well-formed
//! scalar is dropped.
use crate::text::chars_of;
use vstd::prelude::*;
use vstd::slice::slice_subrange;
use vstd::utf8::*;

verus! {

/// Number of bytes that a leading byte announces (zero for a byte that cannot lead).
pub open spec fn lead_width(b: u8) -> int {
    if is_leading_byte_width_1(b) {
        1
    } else if is_leading_byte_width_2(b) {
        2
    } else if is_leading_byte_width_3(b) {
        3
    } else if is_leading_byte_width_4(b) {
        4
    } else {
        0
    }
}

/// The bytes are the start of a multi-byte scalar whose remaining bytes have not arrived.
pub open spec fn is_incomplete_scalar(bytes: Seq<u8>) -> bool {
    &&& bytes.len() > 0
    &&& lead_width(bytes[0]) >= 2
    &&& bytes.len() < lead_width(bytes[0])
    &&& (bytes.len() > 1 ==> is_continuation_byte(bytes[1]))
    &&& (bytes.len() > 2 ==> is_continuation_byte(bytes[2]))
}

/// The characters of a byte stream so far: well-formed scalars are decoded, a
/// byte that cannot start one is dropped, an incomplete scalar at the end waits.
pub open spec fn decoded(bytes: Seq<u8>) -> Seq<char>
    decreases bytes.len(),
{
    if bytes.len() == 0 {
        seq![]
    } else if valid_first_scalar(bytes) {
        seq![decode_first_scalar(bytes) as char] + decoded(
            bytes.subrange(lead_width(bytes[0]), bytes.len() as int),
        )
    } else if is_incomplete_scalar(bytes) {
        seq![]
    } else {
        decoded(bytes.drop_first())
    }
}

/// The bytes at the end of a stream that wait for the rest of their scalar.
pub open spec fn carried(bytes: Seq<u8>) -> Seq<u8>
    decreases bytes.len(),
{
    if bytes.len() == 0 {
        seq![]
    } else if valid_first_scalar(bytes) {
        carried(bytes.subrange(lead_width(bytes[0]), bytes.len() as int))
    } else if is_incomplete_scalar(bytes) {
        bytes
    } else {
        carried(bytes.drop_first())
    }
}

/// Relies on `encoding_rs::Encoding::utf8_valid_up_to`: the index of the start
/// of the first malformed sequence, or the length when all bytes are well formed.
pub assume_specification[ encoding_rs::Encoding::utf8_valid_up_to ](bytes: &[u8]) -> (r: usize)
    ensures
        r <= bytes@.len(),
        valid_utf8(bytes@.subrange(0, r as int)),
        r < bytes@.len() ==> !valid_first_scalar(bytes@.subrange(r as int, bytes@.len() as int)),
;

/// Relies on `encoding_rs::UTF_8.decode_without_bom_handling`: well-formed
/// input comes back as the text it encodes.
#[verifier::external_body]
fn utf8_text(bytes: &[u8]) -> (r: String)
    requires
        valid_utf8(bytes@),
    ensures
        r@ == decode_utf8(bytes@),
{
    encoding_rs::UTF_8.decode_without_bom_handling(bytes).0.into_owned()
}

/// The first scalar of a stream does not change when more bytes follow it.
proof fn lemma_first_scalar_extend(a: Seq<u8>, m: Seq<u8>)
    requires
        valid_first_scalar(a),
    ensures
        valid_first_scalar(a + m),
        decode_first_scalar(a + m) == decode_first_scalar(a),
        lead_width((a + m)[0]) == lead_width(a[0]),
        (a + m).subrange(lead_width(a[0]), (a + m).len() as int) == a.subrange(
            lead_width(a[0]),
            a.len() as int,
        ) + m,
{
    let am = a + m;
    assert(a.len() >= lead_width(a[0]) >= 1);
    assert(am[0] == a[0]);
    if a.len() > 1 {
        assert(am[1] == a[1]);
    }
    if a.len() > 2 {
        assert(am[2] == a[2]);
    }
    if a.len() > 3 {
        assert(am[3] == a[3]);
    }
    assert(am.subrange(lead_width(a[0]), am.len() as int) =~= a.subrange(
        lead_width(a[0]),
        a.len() as int,
    ) + m);
}

/// A byte that cannot start a scalar still cannot when more bytes follow.
proof fn lemma_malformed_extend(a: Seq<u8>, m: Seq<u8>)
    requires
        a.len() > 0,
        !valid_first_scalar(a),
        !is_incomplete_scalar(a),
    ensures
        !valid_first_scalar(a + m),
        !is_incomplete_scalar(a + m),
        (a + m).drop_first() == a.drop_first() + m,
{
    let am = a + m;
    assert(am[0] == a[0]);
    if a.len() > 1 {
        assert(am[1] == a[1]);
    }
    if a.len() > 2 {
        assert(am[2] == a[2]);
    }
    if a.len() > 3 {
        assert(am[3] == a[3]);
    }
    assert(am.drop_first() =~= a.drop_first() + m);
}

/// Decoding a stream piece by piece: what a longer stream decodes to is what the
/// shorter one decoded, followed by what its carried bytes and the new bytes give.
pub proof fn lemma_decoded_append(a: Seq<u8>, m: Seq<u8>)
    ensures
        decoded(a + m) == decoded(a) + decoded(carried(a) + m),
        carried(a + m) == carried(carried(a) + m),
    decreases a.len(),
{
    if a.len() == 0 {
        assert(a + m =~= m);
        assert(carried(a) + m =~= m);
        assert(decoded(a) + decoded(m) =~= decoded(m));
    } else if valid_first_scalar(a) {
        let w = lead_width(a[0]);
        let rest = a.subrange(w, a.len() as int);
        lemma_first_scalar_extend(a, m);
        lemma_decoded_append(rest, m);
        assert(decoded(a + m) == seq![decode_first_scalar(a) as char] + decoded(rest + m));
        assert(decoded(a) + decoded(carried(a) + m) =~= seq![decode_first_scalar(a) as char] + (
        decoded(rest) + decoded(carried(rest) + m)));
    } else if is_incomplete_scalar(a) {
        assert(decoded(a) + decoded(carried(a) + m) =~= decoded(a + m));
    } else {
        lemma_malformed_extend(a, m);
        lemma_decoded_append(a.drop_first(), m);
    }
}

/// A well-formed prefix decodes exactly as UTF-8 and carries nothing over.
pub proof fn lemma_decoded_valid_prefix(x: Seq<u8>, y: Seq<u8>)
    requires
        valid_utf8(x),
    ensures
        decoded(x + y) == decode_utf8(x) + decoded(y),
        carried(x + y) == carried(y),
    decreases x.len(),
{
    if x.len() == 0 {
        assert(x + y =~= y);
        assert(decode_utf8(x) + decoded(y) =~= decoded(y));
    } else {
        let w = lead_width(x[0]);
        let rest = x.subrange(w, x.len() as int);
        assert(pop_first_scalar(x) == rest);
        lemma_first_scalar_extend(x, y);
        lemma_decoded_valid_prefix(rest, y);
        assert(decode_utf8(x) + decoded(y) =~= seq![decode_first_scalar(x) as char] + (decode_utf8(
            rest,
        ) + decoded(y)));
    }
}

/// A whole well-formed stream decodes exactly as UTF-8.
pub proof fn lemma_decoded_valid(x: Seq<u8>)
    requires
        valid_utf8(x),
    ensures
        decoded(x) == decode_utf8(x),
        carried(x) == Seq::<u8>::empty(),
{
    lemma_decoded_valid_prefix(x, seq![]);
    assert(x + Seq::<u8>::empty() =~= x);
    assert(decode_utf8(x) + Seq::<char>::empty() =~= decode_utf8(x));
}

/// Whether the bytes are the start of a multi-byte scalar that has not fully arrived.
fn incomplete_scalar(bytes: &[u8]) -> (r: bool)
    ensures
        r == is_incomplete_scalar(bytes@),
{
    let n = bytes.len();
    if n == 0 {
        return false;
    }
    let b = bytes[0];
    let w: usize = if b <= 0x7f {
        1
    } else if 0xc0 <= b && b <= 0xdf {
        2
    } else if 0xe0 <= b && b <= 0xef {
        3
    } else if 0xf0 <= b && b <= 0xf7 {
        4
    } else {
        0
    };
    if w < 2 || n >= w {
        return false;
    }
    if n > 1 && !(0x80 <= bytes[1] && bytes[1] <= 0xbf) {
        return false;
    }
    if n > 2 && !(0x80 <= bytes[2] && bytes[2] <= 0xbf) {
        return false;
    }
    true
}

/// Decodes a piece of a stream: the text of its decodable part and the bytes
/// that wait for the rest of their scalar.
pub fn decode_piece(buf: &[u8]) -> (r: (String, Vec<u8>))
    ensures
        r.0@ == decoded(buf@),
        r.1@ == carried(buf@),
{
    let n = buf.len();
    let mut out = String::new();
    let mut pos: usize = 0;
    proof {
        assert(buf@.subrange(0, n as int) =~= buf@);
        assert(out@ + decoded(buf@) =~= decoded(buf@));
    }
    while pos < n
        invariant
            n == buf@.len(),
            pos <= n,
            decoded(buf@) == out@ + decoded(buf@.subrange(pos as int, n as int)),
            carried(buf@) == carried(buf@.subrange(pos as int, n as int)),
        decreases n - pos,
    {
        let rest = slice_subrange(buf, pos, n);
        let k = encoding_rs::Encoding::utf8_valid_up_to(rest);
        let good = slice_subrange(rest, 0, k);
        let piece = utf8_text(good);
        let ghost tail = rest@.subrange(k as int, rest@.len() as int);
        proof {
            assert(rest@ =~= good@ + tail);
            lemma_decoded_valid_prefix(good@, tail);
        }
        let ghost before = out@;
        out.append(piece.as_str());
        proof {
            assert(out@ + decoded(tail) =~= before + (decode_utf8(good@) + decoded(tail)));
            assert(tail =~= buf@.subrange(pos + k, n as int));
        }
        pos = pos + k;
        if pos < n {
            let tail_slice = slice_subrange(buf, pos, n);
            if incomplete_scalar(tail_slice) {
                let mut kept: Vec<u8> = Vec::new();
                kept.extend_from_slice(tail_slice);
                proof {
                    assert(kept@ =~= tail_slice@);
                    assert(out@ + decoded(tail_slice@) =~= out@);
                }
                return (out, kept);
            }
            proof {
                assert(tail_slice@.drop_first() =~= buf@.subrange(pos + 1, n as int));
            }
            pos = pos + 1;
        }
    }
    proof {
        assert(buf@.subrange(pos as int, n as int) =~= Seq::<u8>::empty());
        assert(out@ + Seq::<char>::empty() =~= out@);
    }
    (out, Vec::new())
}

/// A UTF-8 decoder for a stream that arrives in pieces.
pub struct StreamDecoder {
    pending: Vec<u8>,
    received: Ghost<Seq<u8>>,
}

impl StreamDecoder {
    /// Every byte handed to the decoder so far.
    pub closed spec fn received(&self) -> Seq<u8> {
        self.received@
    }

    /// The decoder's internal state agrees with what it has received.
    pub closed spec fn wf(&self) -> bool {
        self.pending@ == carried(self.received@)
    }

    /// A decoder that has received nothing.
    pub fn new() -> (r: Self)
        ensures
            r.wf(),
            r.received() == Seq::<u8>::empty(),
    {
        StreamDecoder { pending: Vec::new(), received: Ghost(Seq::empty()) }
    }

    /// Takes the next piece of the stream; returns the text that it completes.
    pub fn feed(&mut self, bytes: &[u8]) -> (r: String)
        requires
            old(self).wf(),
        ensures
            final(self).wf(),
            final(self).received() == old(self).received() + bytes@,
            decoded(final(self).received()) == decoded(old(self).received()) + r@,
    {
        let ghost prev = self.received@;
        let mut buf: Vec<u8> = Vec::new();
        buf.append(&mut self.pending);
        buf.extend_from_slice(bytes);
        assert(buf@ =~= carried(prev) + bytes@);
        let (text, rest) = decode_piece(buf.as_slice());
        proof {
            lemma_decoded_append(prev, bytes@);
        }
        self.pending = rest;
        self.received = Ghost(prev + bytes@);
        text
    }
}

/// The characters of a piece of text, for callers that search it.
pub fn text_chars(s: &String) -> (r: Vec<char>)
    ensures
        r@ == s@,
{
    chars_of(s.as_str())
}

} // verus!
