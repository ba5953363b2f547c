//! The XDR (RFC 1014) primitives every other structure is built from: the
//! big-endian `u32`, and the length-prefixed, zero-padded opaque byte array.
//!
//! Each wire structure has a specification-level encoder (a function from
//! the value to its byte sequence) and a specification-level parser (a
//! function from a byte sequence and position to the value read and the
//! position after it, or the exact error). The executable code is verified
//! against those functions, and the lemmas here prove the two are mutual
//! inverses.

use vstd::prelude::*;

use crate::errors::Error;

verus! {

/// Number of zero bytes needed to pad `l` bytes out to a four byte boundary.
pub open spec fn spec_pad_length(l: int) -> int {
    if l % 4 == 0 {
        0
    } else {
        4 - l % 4
    }
}

/// Number of zero bytes needed to pad `l` bytes out to a four byte boundary.
///
/// Forcing the padded bytes to be zero ensures the same data encodes into
/// the same bytes on all machines (RFC 1014 section 4).
pub fn pad_length(l: u32) -> (r: u32)
    ensures
        r == spec_pad_length(l as int),
{
    if l % 4 == 0 {
        0
    } else {
        4 - (l % 4)
    }
}

/// The four big-endian bytes of `v`.
pub open spec fn be_bytes(v: u32) -> Seq<u8> {
    seq![
        ((v >> 24) & 0xff) as u8,
        ((v >> 16) & 0xff) as u8,
        ((v >> 8) & 0xff) as u8,
        (v & 0xff) as u8,
    ]
}

/// The `u32` held in four big-endian bytes.
pub open spec fn be_val(b0: u8, b1: u8, b2: u8, b3: u8) -> u32 {
    ((b0 as u32) << 24) | ((b1 as u32) << 16) | ((b2 as u32) << 8) | (b3 as u32)
}

/// Reading back the four big-endian bytes of `v` yields `v`.
pub proof fn lemma_be_val_of_be_bytes(v: u32)
    ensures
        be_val(be_bytes(v)[0], be_bytes(v)[1], be_bytes(v)[2], be_bytes(v)[3]) == v,
{
    assert((((((v >> 24) & 0xff) as u8) as u32) << 24 | ((((v >> 16) & 0xff) as u8) as u32) << 16
        | ((((v >> 8) & 0xff) as u8) as u32) << 8 | (((v & 0xff) as u8) as u32)) == v)
        by (bit_vector);
}

/// Encoding the `u32` held in four bytes yields those bytes.
pub proof fn lemma_be_bytes_of_be_val(b0: u8, b1: u8, b2: u8, b3: u8)
    ensures
        be_bytes(be_val(b0, b1, b2, b3)) == seq![b0, b1, b2, b3],
{
    let v = be_val(b0, b1, b2, b3);
    assert(((((b0 as u32) << 24 | (b1 as u32) << 16 | (b2 as u32) << 8 | (b3 as u32)) >> 24)
        & 0xff) as u8 == b0) by (bit_vector);
    assert(((((b0 as u32) << 24 | (b1 as u32) << 16 | (b2 as u32) << 8 | (b3 as u32)) >> 16)
        & 0xff) as u8 == b1) by (bit_vector);
    assert(((((b0 as u32) << 24 | (b1 as u32) << 16 | (b2 as u32) << 8 | (b3 as u32)) >> 8)
        & 0xff) as u8 == b2) by (bit_vector);
    assert((((b0 as u32) << 24 | (b1 as u32) << 16 | (b2 as u32) << 8 | (b3 as u32)) & 0xff) as u8
        == b3) by (bit_vector);
    assert(be_bytes(v) =~= seq![b0, b1, b2, b3]);
}

/// Splitting a subrange of `b` at an interior point `p1` splits its bytes.
pub proof fn lemma_subrange_concat(b: Seq<u8>, p0: int, p1: int, p2: int)
    requires
        0 <= p0 <= p1 <= p2 <= b.len(),
    ensures
        b.subrange(p0, p2) == b.subrange(p0, p1) + b.subrange(p1, p2),
{
    assert(b.subrange(p0, p2) =~= b.subrange(p0, p1) + b.subrange(p1, p2));
}

/// A subrange of `b` known to equal `x + y` splits into `x` and `y`.
pub proof fn lemma_concat_split(b: Seq<u8>, pos: int, x: Seq<u8>, y: Seq<u8>)
    requires
        0 <= pos,
        pos + x.len() + y.len() <= b.len(),
        b.subrange(pos, pos + x.len() + y.len()) == x + y,
    ensures
        b.subrange(pos, pos + x.len()) == x,
        b.subrange(pos + x.len(), pos + x.len() + y.len()) == y,
{
    let whole = b.subrange(pos, pos + x.len() + y.len());
    assert forall|i: int| 0 <= i < x.len() implies b.subrange(pos, pos + x.len())[i] == x[i] by {
        assert(whole[i] == (x + y)[i]);
    }
    assert(b.subrange(pos, pos + x.len()) =~= x);
    assert forall|i: int| 0 <= i < y.len() implies b.subrange(
        pos + x.len(),
        pos + x.len() + y.len(),
    )[i] == y[i] by {
        assert(whole[x.len() + i] == (x + y)[x.len() + i]);
    }
    assert(b.subrange(pos + x.len(), pos + x.len() + y.len()) =~= y);
}

/// Reads a big-endian `u32` at `pos`, the first step of every XDR field.
///
/// A buffer too short to hold the four bytes is an [`Error::InvalidLength`].
pub open spec fn parse_u32(b: Seq<u8>, pos: int) -> Result<(u32, int), Error> {
    if 0 <= pos && pos + 4 <= b.len() {
        Ok((be_val(b[pos], b[pos + 1], b[pos + 2], b[pos + 3]), pos + 4))
    } else {
        Err(Error::InvalidLength)
    }
}

/// A successful `u32` read returns the value whose encoding it read.
pub proof fn lemma_parse_u32_sound(b: Seq<u8>, pos: int)
    requires
        parse_u32(b, pos) is Ok,
    ensures
        parse_u32(b, pos) matches Ok((v, p)) ==> {
            &&& p == pos + 4
            &&& 0 <= pos && p <= b.len()
            &&& be_bytes(v) == b.subrange(pos, p)
        },
{
    let (v, p) = parse_u32(b, pos)->Ok_0;
    lemma_be_bytes_of_be_val(b[pos], b[pos + 1], b[pos + 2], b[pos + 3]);
    assert(seq![b[pos], b[pos + 1], b[pos + 2], b[pos + 3]] =~= b.subrange(pos, pos + 4));
}

/// A `u32` read at the position of an encoded `u32` returns that `u32`.
pub proof fn lemma_parse_u32_complete(b: Seq<u8>, pos: int, v: u32)
    requires
        0 <= pos,
        pos + 4 <= b.len(),
        b.subrange(pos, pos + 4) == be_bytes(v),
    ensures
        parse_u32(b, pos) == Ok::<(u32, int), Error>((v, pos + 4)),
{
    lemma_be_val_of_be_bytes(v);
    assert(b[pos] == be_bytes(v)[0]) by {
        assert(b[pos] == b.subrange(pos, pos + 4)[0]);
    }
    assert(b[pos + 1] == be_bytes(v)[1]) by {
        assert(b[pos + 1] == b.subrange(pos, pos + 4)[1]);
    }
    assert(b[pos + 2] == be_bytes(v)[2]) by {
        assert(b[pos + 2] == b.subrange(pos, pos + 4)[2]);
    }
    assert(b[pos + 3] == be_bytes(v)[3]) by {
        assert(b[pos + 3] == b.subrange(pos, pos + 4)[3]);
    }
}

/// Reads the big-endian `u32` at `pos`, or fails with
/// [`Error::InvalidLength`] if fewer than four bytes remain.
pub fn read_u32_at(buf: &[u8], pos: usize) -> (r: Result<(u32, usize), Error>)
    requires
        pos <= buf@.len(),
    ensures
        r is Ok <==> parse_u32(buf@, pos as int) is Ok,
        r matches Ok((v, p)) ==> parse_u32(buf@, pos as int) == Ok::<(u32, int), Error>((
            v,
            p as int,
        )) && p == pos + 4,
        r matches Err(e) ==> parse_u32(buf@, pos as int) == Err::<(u32, int), Error>(e),
{
    if buf.len() - pos >= 4 {
        let b0 = buf[pos];
        let b1 = buf[pos + 1];
        let b2 = buf[pos + 2];
        let b3 = buf[pos + 3];
        Ok((((b0 as u32) << 24) | ((b1 as u32) << 16) | ((b2 as u32) << 8) | (b3 as u32), pos + 4))
    } else {
        Err(Error::InvalidLength)
    }
}

/// Appends the four big-endian bytes of `v` to `buf`.
pub fn push_u32_be(buf: &mut Vec<u8>, v: u32)
    ensures
        final(buf)@ == old(buf)@ + be_bytes(v),
{
    buf.push((((v >> 24) & 0xff)) as u8);
    buf.push((((v >> 16) & 0xff)) as u8);
    buf.push((((v >> 8) & 0xff)) as u8);
    buf.push((v & 0xff) as u8);
    assert(buf@ =~= old(buf)@ + be_bytes(v));
}

/// Appends `data` to `buf` unchanged.
#[verifier::loop_isolation(false)]
pub fn push_bytes(buf: &mut Vec<u8>, data: &[u8])
    ensures
        final(buf)@ == old(buf)@ + data@,
{
    let ghost start = buf@;
    let mut i: usize = 0;
    while i < data.len()
        invariant
            i <= data@.len(),
            buf@ == start + data@.subrange(0, i as int),
        decreases data@.len() - i,
    {
        buf.push(data[i]);
        assert(start + data@.subrange(0, i as int) + seq![data@[i as int]] =~= start
            + data@.subrange(0, i + 1));
        i += 1;
    }
    assert(data@.subrange(0, data@.len() as int) =~= data@);
}

/// A sequence of `n` zero bytes.
pub open spec fn zero_bytes(n: int) -> Seq<u8> {
    Seq::new(n as nat, |i: int| 0u8)
}

/// Whether every byte of `s` is zero.
pub open spec fn all_zero(s: Seq<u8>) -> bool {
    forall|i: int| 0 <= i < s.len() ==> s[i] == 0
}

/// The wire form of an opaque byte array: a big-endian `u32` length prefix,
/// the bytes themselves, and zero padding out to a four byte boundary.
pub open spec fn enc_opaque(d: Seq<u8>) -> Seq<u8> {
    be_bytes(d.len() as u32) + d + zero_bytes(spec_pad_length(d.len() as int))
}

/// The on-wire length of an opaque byte array, length prefix and padding
/// included.
pub open spec fn opaque_wire_len(d: Seq<u8>) -> int {
    4 + d.len() + spec_pad_length(d.len() as int)
}

/// Reads an opaque byte array at `pos`.
///
/// Fails with [`Error::InvalidLength`] if the length prefix exceeds
/// `max_len`, or if the prefix plus its padding would read past the end of
/// the buffer; fails with [`Error::InvalidPaddingData`] if any padding byte
/// is non-zero.
pub open spec fn parse_opaque(b: Seq<u8>, pos: int, max_len: u32) -> Result<(Seq<u8>, int), Error> {
    match parse_u32(b, pos) {
        Err(e) => Err(e),
        Ok((len, p)) => {
            let pad = spec_pad_length(len as int);
            if len > max_len {
                Err(Error::InvalidLength)
            } else if p + len + pad > b.len() {
                Err(Error::InvalidLength)
            } else if !all_zero(b.subrange(p + len, p + len + pad)) {
                Err(Error::InvalidPaddingData)
            } else {
                Ok((b.subrange(p, p + len), p + len + pad))
            }
        },
    }
}

/// A successfully parsed opaque array is within its bound, and its encoding
/// is exactly the bytes consumed.
pub proof fn lemma_parse_opaque_sound(b: Seq<u8>, pos: int, max_len: u32)
    requires
        parse_opaque(b, pos, max_len) is Ok,
    ensures
        parse_opaque(b, pos, max_len) matches Ok((d, p)) ==> {
            &&& d.len() <= max_len
            &&& 0 <= pos && pos < p <= b.len()
            &&& p - pos == opaque_wire_len(d)
            &&& enc_opaque(d) == b.subrange(pos, p)
        },
{
    let (len, p1) = parse_u32(b, pos)->Ok_0;
    lemma_parse_u32_sound(b, pos);
    let pad = spec_pad_length(len as int);
    let d = b.subrange(p1, p1 + len);
    let p = p1 + len + pad;
    assert(d.len() == len);
    assert(be_bytes(d.len() as u32) == b.subrange(pos, p1));
    lemma_subrange_concat(b, pos, p1, p1 + len);
    lemma_subrange_concat(b, pos, p1 + len, p);
    assert(b.subrange(p1 + len, p) =~= zero_bytes(pad));
    assert(enc_opaque(d) == b.subrange(pos, p));
}

/// An opaque read at the position of an encoded opaque array within its
/// bound returns exactly that array.
pub proof fn lemma_parse_opaque_complete(b: Seq<u8>, pos: int, max_len: u32, d: Seq<u8>)
    requires
        0 <= pos,
        d.len() <= max_len,
        pos + opaque_wire_len(d) <= b.len(),
        b.subrange(pos, pos + opaque_wire_len(d)) == enc_opaque(d),
    ensures
        parse_opaque(b, pos, max_len) == Ok::<(Seq<u8>, int), Error>((
            d,
            pos + opaque_wire_len(d),
        )),
{
    let len = d.len() as u32;
    let pad = spec_pad_length(d.len() as int);
    let p1 = pos + 4;
    let end = pos + opaque_wire_len(d);
    assert(enc_opaque(d) =~= be_bytes(len) + (d + zero_bytes(pad)));
    lemma_concat_split(b, pos, be_bytes(len), d + zero_bytes(pad));
    lemma_parse_u32_complete(b, pos, len);
    lemma_concat_split(b, p1, d, zero_bytes(pad));
    assert(b.subrange(p1, p1 + len) == d);
    assert(b.subrange(p1 + len, end) == zero_bytes(pad));
    assert(all_zero(b.subrange(p1 + len, p1 + len + pad)));
}

/// Padding rejection: when the length prefix is within its bound and the
/// data and padding lie within the buffer, but any padding byte is
/// non-zero, the read fails with exactly [`Error::InvalidPaddingData`].
pub proof fn lemma_padding_rejected(b: Seq<u8>, pos: int, max_len: u32)
    requires
        parse_u32(b, pos) matches Ok((len, p)) && {
            &&& len <= max_len
            &&& p + len + spec_pad_length(len as int) <= b.len()
            &&& !all_zero(b.subrange(p + len, p + len + spec_pad_length(len as int)))
        },
    ensures
        parse_opaque(b, pos, max_len) == Err::<(Seq<u8>, int), Error>(Error::InvalidPaddingData),
{
}

/// Overrun rejection: a length prefix implying a read past the end of
/// the buffer, padding included, fails with exactly
/// [`Error::InvalidLength`]; no verified function of this crate reads
/// out of bounds or panics on any input.
pub proof fn lemma_overrun_rejected(b: Seq<u8>, pos: int, max_len: u32)
    requires
        parse_u32(b, pos) matches Ok((len, p)) && {
            &&& len <= max_len
            &&& p + len + spec_pad_length(len as int) > b.len()
        },
    ensures
        parse_opaque(b, pos, max_len) == Err::<(Seq<u8>, int), Error>(Error::InvalidLength),
{
}

/// `Opaque` is a wrapper over an opaque / uninterpreted byte array.
///
/// See RFC 1014 section 3.12.
#[derive(Debug, Clone, PartialEq)]
pub struct Opaque {
    body: Vec<u8>,
}

impl View for Opaque {
    type V = Seq<u8>;

    closed spec fn view(&self) -> Seq<u8> {
        self.body@
    }
}

impl Opaque {
    /// Construct an [`Opaque`] from the provided user payload (NOT a wire
    /// payload that includes a length prefix).
    pub fn from_user_payload(body: Vec<u8>) -> (r: Opaque)
        ensures
            r@ == body@,
    {
        Opaque { body }
    }

    /// Construct an [`Opaque`] from the provided serialised / wire payload
    /// (that includes a length prefix), read at `pos`.
    ///
    /// Returns [`Error::InvalidLength`] if the length prefix in the buffer
    /// exceeds `max_len` or reads past the end of the buffer, and
    /// [`Error::InvalidPaddingData`] if a padding byte is non-zero.
    #[verifier::loop_isolation(false)]
    pub fn from_wire(buf: &[u8], pos: usize, max_len: u32) -> (r: Result<(Opaque, usize), Error>)
        requires
            pos <= buf@.len(),
        ensures
            r is Ok <==> parse_opaque(buf@, pos as int, max_len) is Ok,
            r matches Ok((o, p)) ==> parse_opaque(buf@, pos as int, max_len) == Ok::<
                (Seq<u8>, int),
                Error,
            >((o@, p as int)) && pos < p <= buf@.len(),
            r matches Err(e) ==> parse_opaque(buf@, pos as int, max_len) == Err::<
                (Seq<u8>, int),
                Error,
            >(e),
    {
        let (len, p) = match read_u32_at(buf, pos) {
            Ok(t) => t,
            Err(e) => {
                return Err(e);
            },
        };
        if len > max_len {
            return Err(Error::InvalidLength);
        }
        let pad = pad_length(len);
        if ((buf.len() - p) as u64) < len as u64 + pad as u64 {
            return Err(Error::InvalidLength);
        }
        assert(p + len + pad <= buf@.len());
        let end = p + len as usize;
        let mut i: usize = 0;
        while i < pad as usize
            invariant
                end == p + len,
                end + pad <= buf@.len(),
                i <= pad,
                spec_pad_length(len as int) == pad,
                forall|j: int| 0 <= j < i ==> #[trigger] buf@[end + j] == 0,
            decreases pad - i,
        {
            if buf[end + i] != 0 {
                assert(buf@.subrange(end as int, end + pad)[i as int] != 0);
                assert(!all_zero(buf@.subrange(p + len as int, p + len as int + pad as int)));
                return Err(Error::InvalidPaddingData);
            }
            i += 1;
        }
        assert forall|j: int| 0 <= j < pad implies #[trigger] buf@.subrange(
            p + len as int,
            p + len as int + pad as int,
        )[j] == 0 by {
            assert(buf@[end + j] == 0);
        }
        assert(all_zero(buf@.subrange(p + len as int, p + len as int + pad as int)));
        let body = vstd::slice::slice_to_vec(vstd::slice::slice_subrange(buf, p, end));
        Ok((Opaque { body }, end + pad as usize))
    }

    /// Return the inner payload.
    pub fn into_payload(self) -> (r: Vec<u8>)
        ensures
            r@ == self@,
    {
        self.body
    }

    /// Return the payload length without serialisation overhead.
    pub fn len(&self) -> (r: usize)
        ensures
            r == self@.len(),
    {
        self.body.len()
    }

    /// Serialise the [`Opaque`] into `buf`, including the length prefix
    /// bytes and the zero padding.
    pub fn serialise_into(&self, buf: &mut Vec<u8>)
        requires
            opaque_wire_len(self@) <= u32::MAX,
        ensures
            final(buf)@ == old(buf)@ + enc_opaque(self@),
    {
        write_opaque_into(buf, self.body.as_slice());
    }

    /// Return the serialised length of `self`, inclusive of length prefix
    /// bytes and padding.
    pub fn serialised_len(&self) -> (r: u32)
        requires
            opaque_wire_len(self@) <= u32::MAX,
        ensures
            r == opaque_wire_len(self@),
    {
        let len = self.body.len() as u32;
        4 + len + pad_length(len)
    }
}

/// Appends the wire form of the opaque byte array `data` to `buf`: length
/// prefix, bytes, zero padding.
#[verifier::loop_isolation(false)]
pub fn write_opaque_into(buf: &mut Vec<u8>, data: &[u8])
    requires
        opaque_wire_len(data@) <= u32::MAX,
    ensures
        final(buf)@ == old(buf)@ + enc_opaque(data@),
{
    let len = data.len() as u32;
    push_u32_be(buf, len);
    push_bytes(buf, data);
    let pad = pad_length(len);
    let mut i: u32 = 0;
    let ghost before_pad = buf@;
    while i < pad
        invariant
            i <= pad,
            buf@ == before_pad + zero_bytes(i as int),
        decreases pad - i,
    {
        buf.push(0);
        assert(before_pad + zero_bytes(i as int) + seq![0u8] =~= before_pad + zero_bytes(
            i as int + 1,
        ));
        i += 1;
    }
    assert(buf@ =~= old(buf)@ + enc_opaque(data@));
}

} // verus!
