//! The RFC 5531 authentication flavors: `AUTH_NONE`, `AUTH_UNIX`,
//! `AUTH_SHORT`, and the forward-compatible unknown flavor, together with
//! the `AUTH_UNIX` parameter block of RFC 1831 appendix A.
//!
//! The deprecated `AUTH_DH` is not supported, nor is GSS.

use vstd::prelude::*;

use crate::errors::Error;
use crate::xdr::{
    be_bytes, enc_opaque, lemma_concat_split, lemma_parse_opaque_complete,
    lemma_parse_opaque_sound, lemma_parse_u32_complete, lemma_parse_u32_sound,
    lemma_subrange_concat, opaque_wire_len, pad_length, parse_opaque, parse_u32, push_u32_be,
    read_u32_at, write_opaque_into, Opaque,
};

verus! {

/// The wire discriminator of `AUTH_NONE`.
pub const AUTH_NONE: u32 = 0;

/// The wire discriminator of `AUTH_UNIX`.
pub const AUTH_UNIX: u32 = 1;

/// The wire discriminator of `AUTH_SHORT`.
pub const AUTH_SHORT: u32 = 2;

/// The most bytes of associated data any auth flavor may carry.
pub const MAX_AUTH_DATA: u32 = 200;

/// The most supplementary group IDs an `AUTH_UNIX` block may carry.
pub const MAX_GIDS: u32 = 16;

/// The mathematical value of an [`AuthUnixParams`]: the same fields over
/// byte and integer sequences.
#[verifier::ext_equal]
pub ghost struct SpecAuthUnixParams {
    pub stamp: u32,
    pub machine_name: Seq<u8>,
    pub uid: u32,
    pub gid: u32,
    pub gids: Seq<u32>,
}

impl SpecAuthUnixParams {
    /// Validity: the machine name is within the generic auth-data cap, and
    /// the supplementary group list within its fixed capacity.
    pub open spec fn wf(self) -> bool {
        &&& self.machine_name.len() <= MAX_AUTH_DATA
        &&& self.gids.len() <= MAX_GIDS
    }

    /// The on-wire length: stamp, machine-name opaque, uid, gid, group
    /// count, and the groups themselves.
    pub open spec fn wire_len(self) -> int {
        12 + opaque_wire_len(self.machine_name) + 4 + 4 * self.gids.len()
    }
}

/// The wire form of a supplementary group list, one big-endian `u32` each.
pub open spec fn enc_gids(g: Seq<u32>) -> Seq<u8>
    decreases g.len(),
{
    if g.len() == 0 {
        Seq::empty()
    } else {
        be_bytes(g[0]) + enc_gids(g.subrange(1, g.len() as int))
    }
}

/// The wire form of an `AUTH_UNIX` parameter block.
pub open spec fn enc_params(p: SpecAuthUnixParams) -> Seq<u8> {
    be_bytes(p.stamp) + enc_opaque(p.machine_name) + be_bytes(p.uid) + be_bytes(p.gid) + be_bytes(
        p.gids.len() as u32,
    ) + enc_gids(p.gids)
}

/// Reads `n` big-endian `u32` group IDs at `pos`.
pub open spec fn parse_gids(b: Seq<u8>, pos: int, n: nat) -> Result<(Seq<u32>, int), Error>
    decreases n,
{
    if n == 0 {
        Ok((Seq::empty(), pos))
    } else {
        match parse_u32(b, pos) {
            Err(e) => Err(e),
            Ok((v, p)) => match parse_gids(b, p, (n - 1) as nat) {
                Err(e) => Err(e),
                Ok((rest, p2)) => Ok((seq![v] + rest, p2)),
            },
        }
    }
}

/// Reads an `AUTH_UNIX` parameter block at `pos`: stamp, machine name,
/// uid, gid, group count (at most 16, else [`Error::InvalidAuthData`]) and
/// the groups. The bytes consumed must equal `expected_len`, the length
/// the enclosing flavor declared, else [`Error::InvalidAuthData`]: this
/// blocks hidden trailing data.
pub open spec fn parse_params(b: Seq<u8>, pos: int, expected_len: u32) -> Result<
    (SpecAuthUnixParams, int),
    Error,
> {
    match parse_u32(b, pos) {
        Err(e) => Err(e),
        Ok((stamp, p1)) => match parse_opaque(b, p1, MAX_AUTH_DATA) {
            Err(e) => Err(e),
            Ok((machine_name, p2)) => match parse_u32(b, p2) {
                Err(e) => Err(e),
                Ok((uid, p3)) => match parse_u32(b, p3) {
                    Err(e) => Err(e),
                    Ok((gid, p4)) => match parse_u32(b, p4) {
                        Err(e) => Err(e),
                        Ok((cnt, p5)) => if cnt > MAX_GIDS {
                            Err(Error::InvalidAuthData)
                        } else {
                            match parse_gids(b, p5, cnt as nat) {
                                Err(e) => Err(e),
                                Ok((gids, p6)) => if p6 - pos == expected_len {
                                    Ok(
                                        (
                                            SpecAuthUnixParams {
                                                stamp,
                                                machine_name,
                                                uid,
                                                gid,
                                                gids,
                                            },
                                            p6,
                                        ),
                                    )
                                } else {
                                    Err(Error::InvalidAuthData)
                                },
                            }
                        },
                    },
                },
            },
        },
    }
}

/// A group list encodes to four bytes per entry.
pub proof fn lemma_enc_gids_len(g: Seq<u32>)
    ensures
        enc_gids(g).len() == 4 * g.len(),
    decreases g.len(),
{
    if g.len() > 0 {
        lemma_enc_gids_len(g.subrange(1, g.len() as int));
    }
}

/// A parameter block encodes to exactly its wire length.
pub proof fn lemma_enc_params_len(p: SpecAuthUnixParams)
    ensures
        enc_params(p).len() == p.wire_len(),
{
    lemma_enc_gids_len(p.gids);
}

/// A successful group-list read returns the values whose encoding it read.
pub proof fn lemma_parse_gids_sound(b: Seq<u8>, pos: int, n: nat)
    requires
        0 <= pos <= b.len(),
        parse_gids(b, pos, n) is Ok,
    ensures
        parse_gids(b, pos, n) matches Ok((g, p)) ==> {
            &&& g.len() == n
            &&& p == pos + 4 * n
            &&& p <= b.len()
            &&& enc_gids(g) == b.subrange(pos, p)
        },
    decreases n,
{
    if n == 0 {
        assert(b.subrange(pos, pos) =~= enc_gids(Seq::empty()));
    } else {
        let (v, p1) = parse_u32(b, pos)->Ok_0;
        lemma_parse_u32_sound(b, pos);
        lemma_parse_gids_sound(b, p1, (n - 1) as nat);
        let (rest, p) = parse_gids(b, p1, (n - 1) as nat)->Ok_0;
        let g = seq![v] + rest;
        lemma_subrange_concat(b, pos, p1, p);
        assert(g[0] == v);
        assert(g.subrange(1, g.len() as int) =~= rest);
        assert(enc_gids(g) == b.subrange(pos, p));
    }
}

/// A group-list read at the position of an encoded group list returns that
/// list.
pub proof fn lemma_parse_gids_complete(b: Seq<u8>, pos: int, g: Seq<u32>)
    requires
        0 <= pos,
        pos + 4 * g.len() <= b.len(),
        b.subrange(pos, pos + 4 * g.len()) == enc_gids(g),
    ensures
        parse_gids(b, pos, g.len()) == Ok::<(Seq<u32>, int), Error>((g, pos + 4 * g.len())),
    decreases g.len(),
{
    if g.len() == 0 {
        assert(g =~= Seq::<u32>::empty());
    } else {
        let rest = g.subrange(1, g.len() as int);
        lemma_enc_gids_len(rest);
        assert(enc_gids(g) == be_bytes(g[0]) + enc_gids(rest));
        lemma_concat_split(b, pos, be_bytes(g[0]), enc_gids(rest));
        lemma_parse_u32_complete(b, pos, g[0]);
        lemma_parse_gids_complete(b, pos + 4, rest);
        assert(seq![g[0]] + rest =~= g);
        assert(pos + 4 + 4 * rest.len() == pos + 4 * g.len());
    }
}

/// A successfully parsed parameter block is valid, consumed exactly the
/// declared length, and its encoding is exactly the bytes consumed.
pub proof fn lemma_parse_params_sound(b: Seq<u8>, pos: int, expected_len: u32)
    requires
        0 <= pos <= b.len(),
        parse_params(b, pos, expected_len) is Ok,
    ensures
        parse_params(b, pos, expected_len) matches Ok((v, p)) ==> {
            &&& v.wf()
            &&& p - pos == expected_len
            &&& pos < p <= b.len()
            &&& v.wire_len() == p - pos
            &&& enc_params(v) == b.subrange(pos, p)
        },
{
    let (stamp, p1) = parse_u32(b, pos)->Ok_0;
    lemma_parse_u32_sound(b, pos);
    let (machine_name, p2) = parse_opaque(b, p1, MAX_AUTH_DATA)->Ok_0;
    lemma_parse_opaque_sound(b, p1, MAX_AUTH_DATA);
    let (uid, p3) = parse_u32(b, p2)->Ok_0;
    lemma_parse_u32_sound(b, p2);
    let (gid, p4) = parse_u32(b, p3)->Ok_0;
    lemma_parse_u32_sound(b, p3);
    let (cnt, p5) = parse_u32(b, p4)->Ok_0;
    lemma_parse_u32_sound(b, p4);
    let (gids, p6) = parse_gids(b, p5, cnt as nat)->Ok_0;
    lemma_parse_gids_sound(b, p5, cnt as nat);
    lemma_subrange_concat(b, pos, p1, p2);
    lemma_subrange_concat(b, pos, p2, p3);
    lemma_subrange_concat(b, pos, p3, p4);
    lemma_subrange_concat(b, pos, p4, p5);
    lemma_subrange_concat(b, pos, p5, p6);
    let v = SpecAuthUnixParams { stamp, machine_name, uid, gid, gids };
    assert(gids.len() as u32 == cnt);
    assert(enc_params(v) == b.subrange(pos, p6));
}

/// A parameter-block read at the position of an encoded valid block, with
/// the block's own wire length declared, returns that block.
pub proof fn lemma_parse_params_complete(b: Seq<u8>, pos: int, v: SpecAuthUnixParams)
    requires
        0 <= pos,
        v.wf(),
        v.wire_len() <= u32::MAX,
        pos + v.wire_len() <= b.len(),
        b.subrange(pos, pos + v.wire_len()) == enc_params(v),
    ensures
        parse_params(b, pos, v.wire_len() as u32) == Ok::<(SpecAuthUnixParams, int), Error>(
            (v, pos + v.wire_len()),
        ),
{
    let name_len = opaque_wire_len(v.machine_name);
    lemma_enc_gids_len(v.gids);
    let a = be_bytes(v.stamp);
    let bb = enc_opaque(v.machine_name);
    let c = be_bytes(v.uid);
    let d = be_bytes(v.gid);
    let e = be_bytes(v.gids.len() as u32);
    let f = enc_gids(v.gids);
    let end = pos + v.wire_len();
    assert(enc_params(v) =~= a + (bb + (c + (d + (e + f)))));
    lemma_concat_split(b, pos, a, bb + (c + (d + (e + f))));
    let q1 = pos + 4;
    lemma_concat_split(b, q1, bb, c + (d + (e + f)));
    let q2 = q1 + name_len;
    lemma_concat_split(b, q2, c, d + (e + f));
    let q3 = q2 + 4;
    lemma_concat_split(b, q3, d, e + f);
    let q4 = q3 + 4;
    lemma_concat_split(b, q4, e, f);
    let q5 = q4 + 4;
    lemma_parse_u32_complete(b, pos, v.stamp);
    lemma_parse_opaque_complete(b, q1, MAX_AUTH_DATA, v.machine_name);
    lemma_parse_u32_complete(b, q2, v.uid);
    lemma_parse_u32_complete(b, q3, v.gid);
    lemma_parse_u32_complete(b, q4, v.gids.len() as u32);
    lemma_parse_gids_complete(b, q5, v.gids);
    assert(q5 + 4 * v.gids.len() == end);
    let (got, p6) = parse_params(b, pos, v.wire_len() as u32)->Ok_0;
    assert(got =~= v);
}

/// The mathematical value of an [`AuthFlavor`].
#[verifier::ext_equal]
pub ghost enum SpecAuthFlavor {
    /// `AUTH_NONE`, with its optional opaque payload.
    AuthNone(Option<Seq<u8>>),
    /// `AUTH_UNIX` and the parameter block it carries.
    AuthUnix(SpecAuthUnixParams),
    /// `AUTH_SHORT` and its opaque identifier.
    AuthShort(Seq<u8>),
    /// A flavor unknown to this library.
    Unknown { id: u32, data: Seq<u8> },
}

impl SpecAuthFlavor {
    /// Validity: associated data within the 200 byte cap; for `AUTH_UNIX`,
    /// a valid parameter block whose wire form also fits the cap.
    pub open spec fn wf(self) -> bool {
        match self {
            SpecAuthFlavor::AuthNone(None) => true,
            SpecAuthFlavor::AuthNone(Some(d)) => d.len() <= MAX_AUTH_DATA,
            SpecAuthFlavor::AuthUnix(p) => p.wf() && p.wire_len() <= MAX_AUTH_DATA,
            SpecAuthFlavor::AuthShort(d) => d.len() <= MAX_AUTH_DATA,
            SpecAuthFlavor::Unknown { id, data } => data.len() <= MAX_AUTH_DATA,
        }
    }

    /// Whether the value is one the decoder can produce: an empty
    /// `AUTH_NONE` payload is represented as absent, and an unknown flavor
    /// never carries a known discriminator.
    pub open spec fn canonical(self) -> bool {
        match self {
            SpecAuthFlavor::AuthNone(Some(d)) => d.len() > 0,
            SpecAuthFlavor::Unknown { id, data } => id != AUTH_NONE && id != AUTH_UNIX && id
                != AUTH_SHORT,
            _ => true,
        }
    }

    /// The discriminator identifying the variant in the wire protocol.
    pub open spec fn id(self) -> u32 {
        match self {
            SpecAuthFlavor::AuthNone(_) => AUTH_NONE,
            SpecAuthFlavor::AuthUnix(_) => AUTH_UNIX,
            SpecAuthFlavor::AuthShort(_) => AUTH_SHORT,
            SpecAuthFlavor::Unknown { id, data } => id,
        }
    }

    /// The byte length of the associated auth data, if any: payload bytes
    /// only, without length prefixes or padding.
    pub open spec fn assoc_len(self) -> int {
        match self {
            SpecAuthFlavor::AuthNone(None) => 0,
            SpecAuthFlavor::AuthNone(Some(d)) => d.len() as int,
            SpecAuthFlavor::AuthUnix(p) => 12 + p.machine_name.len() as int + 4 * p.gids.len(),
            SpecAuthFlavor::AuthShort(d) => d.len() as int,
            SpecAuthFlavor::Unknown { id, data } => data.len() as int,
        }
    }

    /// The on-wire length of the flavor, discriminator and length prefixes
    /// included.
    pub open spec fn wire_len(self) -> int {
        4 + match self {
            SpecAuthFlavor::AuthNone(None) => 4,
            SpecAuthFlavor::AuthNone(Some(d)) => opaque_wire_len(d),
            SpecAuthFlavor::AuthUnix(p) => 4 + p.wire_len(),
            SpecAuthFlavor::AuthShort(d) => opaque_wire_len(d),
            SpecAuthFlavor::Unknown { id, data } => opaque_wire_len(data),
        }
    }
}

/// The wire form of an auth flavor: its discriminator, then the variant
/// body. An `AUTH_UNIX` body carries its own length prefix; an absent
/// `AUTH_NONE` payload is a zero length.
pub open spec fn enc_flavor(f: SpecAuthFlavor) -> Seq<u8> {
    match f {
        SpecAuthFlavor::AuthNone(None) => be_bytes(AUTH_NONE) + be_bytes(0u32),
        SpecAuthFlavor::AuthNone(Some(d)) => be_bytes(AUTH_NONE) + enc_opaque(d),
        SpecAuthFlavor::AuthUnix(p) => be_bytes(AUTH_UNIX) + be_bytes(p.wire_len() as u32)
            + enc_params(p),
        SpecAuthFlavor::AuthShort(d) => be_bytes(AUTH_SHORT) + enc_opaque(d),
        SpecAuthFlavor::Unknown { id, data } => be_bytes(id) + enc_opaque(data),
    }
}

/// An auth flavor encodes to exactly its wire length.
pub proof fn lemma_enc_flavor_len(f: SpecAuthFlavor)
    ensures
        enc_flavor(f).len() == f.wire_len(),
{
    match f {
        SpecAuthFlavor::AuthUnix(p) => lemma_enc_params_len(p),
        _ => {},
    }
}

/// Reads an auth flavor at `pos`: a discriminator, then the variant body.
///
/// An `AUTH_UNIX` length prefix over 200 is an [`Error::InvalidLength`];
/// an empty `AUTH_NONE` payload normalises to "no payload".
pub open spec fn parse_flavor(b: Seq<u8>, pos: int) -> Result<(SpecAuthFlavor, int), Error> {
    match parse_u32(b, pos) {
        Err(e) => Err(e),
        Ok((disc, p)) => {
            if disc == AUTH_NONE {
                match parse_opaque(b, p, MAX_AUTH_DATA) {
                    Err(e) => Err(e),
                    Ok((d, p2)) => if d.len() == 0 {
                        Ok((SpecAuthFlavor::AuthNone(None), p2))
                    } else {
                        Ok((SpecAuthFlavor::AuthNone(Some(d)), p2))
                    },
                }
            } else if disc == AUTH_UNIX {
                match parse_u32(b, p) {
                    Err(e) => Err(e),
                    Ok((len, p2)) => if len > MAX_AUTH_DATA {
                        Err(Error::InvalidLength)
                    } else {
                        match parse_params(b, p2, len) {
                            Err(e) => Err(e),
                            Ok((params, p3)) => Ok((SpecAuthFlavor::AuthUnix(params), p3)),
                        }
                    },
                }
            } else if disc == AUTH_SHORT {
                match parse_opaque(b, p, MAX_AUTH_DATA) {
                    Err(e) => Err(e),
                    Ok((d, p2)) => Ok((SpecAuthFlavor::AuthShort(d), p2)),
                }
            } else {
                match parse_opaque(b, p, MAX_AUTH_DATA) {
                    Err(e) => Err(e),
                    Ok((d, p2)) => Ok((SpecAuthFlavor::Unknown { id: disc, data: d }, p2)),
                }
            }
        },
    }
}

/// A successfully parsed auth flavor is valid and canonical, and its
/// encoding is exactly the bytes consumed.
pub proof fn lemma_parse_flavor_sound(b: Seq<u8>, pos: int)
    requires
        0 <= pos <= b.len(),
        parse_flavor(b, pos) is Ok,
    ensures
        parse_flavor(b, pos) matches Ok((f, p)) ==> {
            &&& f.wf()
            &&& f.canonical()
            &&& pos < p <= b.len()
            &&& f.wire_len() == p - pos
            &&& enc_flavor(f) == b.subrange(pos, p)
        },
{
    let (disc, p1) = parse_u32(b, pos)->Ok_0;
    lemma_parse_u32_sound(b, pos);
    if disc == AUTH_NONE {
        let (d, p2) = parse_opaque(b, p1, MAX_AUTH_DATA)->Ok_0;
        lemma_parse_opaque_sound(b, p1, MAX_AUTH_DATA);
        lemma_subrange_concat(b, pos, p1, p2);
        if d.len() == 0 {
            assert(enc_opaque(d) =~= be_bytes(0u32));
        }
    } else if disc == AUTH_UNIX {
        let (len, p2) = parse_u32(b, p1)->Ok_0;
        lemma_parse_u32_sound(b, p1);
        let (params, p3) = parse_params(b, p2, len)->Ok_0;
        lemma_parse_params_sound(b, p2, len);
        lemma_subrange_concat(b, pos, p1, p2);
        lemma_subrange_concat(b, pos, p2, p3);
        assert(params.wire_len() as u32 == len);
    } else if disc == AUTH_SHORT {
        let (d, p2) = parse_opaque(b, p1, MAX_AUTH_DATA)->Ok_0;
        lemma_parse_opaque_sound(b, p1, MAX_AUTH_DATA);
        lemma_subrange_concat(b, pos, p1, p2);
    } else {
        let (d, p2) = parse_opaque(b, p1, MAX_AUTH_DATA)->Ok_0;
        lemma_parse_opaque_sound(b, p1, MAX_AUTH_DATA);
        lemma_subrange_concat(b, pos, p1, p2);
    }
}

/// An auth-flavor read at the position of an encoded valid, canonical
/// flavor returns that flavor.
pub proof fn lemma_parse_flavor_complete(b: Seq<u8>, pos: int, f: SpecAuthFlavor)
    requires
        0 <= pos,
        f.wf(),
        f.canonical(),
        pos + f.wire_len() <= b.len(),
        b.subrange(pos, pos + f.wire_len()) == enc_flavor(f),
    ensures
        parse_flavor(b, pos) == Ok::<(SpecAuthFlavor, int), Error>((f, pos + f.wire_len())),
{
    let end = pos + f.wire_len();
    match f {
        SpecAuthFlavor::AuthNone(opt) => {
            match opt {
                None => {
                    assert(enc_flavor(f) =~= be_bytes(AUTH_NONE) + enc_opaque(Seq::empty()));
                    lemma_concat_split(b, pos, be_bytes(AUTH_NONE), enc_opaque(Seq::empty()));
                    lemma_parse_u32_complete(b, pos, AUTH_NONE);
                    lemma_parse_opaque_complete(b, pos + 4, MAX_AUTH_DATA, Seq::empty());
                },
                Some(d) => {
                    lemma_concat_split(b, pos, be_bytes(AUTH_NONE), enc_opaque(d));
                    lemma_parse_u32_complete(b, pos, AUTH_NONE);
                    lemma_parse_opaque_complete(b, pos + 4, MAX_AUTH_DATA, d);
                },
            }
        },
        SpecAuthFlavor::AuthUnix(p) => {
            lemma_enc_params_len(p);
            assert(enc_flavor(f) =~= be_bytes(AUTH_UNIX) + (be_bytes(p.wire_len() as u32)
                + enc_params(p)));
            lemma_concat_split(
                b,
                pos,
                be_bytes(AUTH_UNIX),
                be_bytes(p.wire_len() as u32) + enc_params(p),
            );
            lemma_concat_split(b, pos + 4, be_bytes(p.wire_len() as u32), enc_params(p));
            lemma_parse_u32_complete(b, pos, AUTH_UNIX);
            lemma_parse_u32_complete(b, pos + 4, p.wire_len() as u32);
            lemma_parse_params_complete(b, pos + 8, p);
        },
        SpecAuthFlavor::AuthShort(d) => {
            lemma_concat_split(b, pos, be_bytes(AUTH_SHORT), enc_opaque(d));
            lemma_parse_u32_complete(b, pos, AUTH_SHORT);
            lemma_parse_opaque_complete(b, pos + 4, MAX_AUTH_DATA, d);
        },
        SpecAuthFlavor::Unknown { id, data } => {
            lemma_concat_split(b, pos, be_bytes(id), enc_opaque(data));
            lemma_parse_u32_complete(b, pos, id);
            lemma_parse_opaque_complete(b, pos + 4, MAX_AUTH_DATA, data);
        },
    }
}

/// `AuthUnixParams` represents the structures referred to as both
/// `AUTH_UNIX` and `AUTH_SYS` in the various RFCs, used to identify the
/// client as a Unix user.
///
/// The structure is implemented as specified in appendix A of RFC 1831.
/// The machine name is limited to the generic 200 byte auth-data cap, and
/// at most 16 supplementary group IDs may be provided.
///
/// These values are trivial to forge and provide no actual security.
#[derive(Debug, Clone, PartialEq)]
pub struct AuthUnixParams {
    stamp: u32,
    machine_name: Vec<u8>,
    uid: u32,
    gid: u32,
    gids: Vec<u32>,
}

impl View for AuthUnixParams {
    type V = SpecAuthUnixParams;

    closed spec fn view(&self) -> SpecAuthUnixParams {
        SpecAuthUnixParams {
            stamp: self.stamp,
            machine_name: self.machine_name@,
            uid: self.uid,
            gid: self.gid,
            gids: self.gids@,
        }
    }
}

/// Relies on `core::str::from_utf8`: it returns `Ok` exactly when the
/// bytes are valid UTF-8, and then the string's characters are their
/// decoding, as `vstd`'s UTF-8 specification states both.
#[verifier::external_body]
fn bytes_as_utf8(b: &[u8]) -> (r: Option<&str>)
    ensures
        r is Some <==> vstd::utf8::valid_utf8(b@),
        r matches Some(s) ==> s@ == vstd::utf8::decode_utf8(b@),
{
    core::str::from_utf8(b).ok()
}

impl AuthUnixParams {
    /// Initialise a new `AuthUnixParams` instance containing the specified
    /// unix account identifiers.
    pub fn new(stamp: u32, machine_name: Vec<u8>, uid: u32, gid: u32, gids: Vec<u32>) -> (r:
        AuthUnixParams)
        requires
            machine_name@.len() <= MAX_AUTH_DATA,
            gids@.len() <= MAX_GIDS,
        ensures
            r@ == (SpecAuthUnixParams {
                stamp,
                machine_name: machine_name@,
                uid,
                gid,
                gids: gids@,
            }),
            r@.wf(),
    {
        AuthUnixParams { stamp, machine_name, uid, gid, gids }
    }

    /// Constructs a new `AuthUnixParams` by parsing the wire format read
    /// from `buf` at `pos`, validating it reads exactly `expected_len`
    /// bytes.
    ///
    /// On success the returned position lies at the end of the `AUTH_UNIX`
    /// structure.
    pub fn from_wire(buf: &[u8], pos: usize, expected_len: u32) -> (r: Result<
        (AuthUnixParams, usize),
        Error,
    >)
        requires
            pos <= buf@.len(),
        ensures
            r is Ok <==> parse_params(buf@, pos as int, expected_len) is Ok,
            r matches Ok((v, p)) ==> parse_params(buf@, pos as int, expected_len) == Ok::<
                (SpecAuthUnixParams, int),
                Error,
            >((v@, p as int)) && pos <= p <= buf@.len(),
            r matches Err(e) ==> parse_params(buf@, pos as int, expected_len) == Err::<
                (SpecAuthUnixParams, int),
                Error,
            >(e),
    {
        let (stamp, p1) = match read_u32_at(buf, pos) {
            Ok(t) => t,
            Err(e) => {
                return Err(e);
            },
        };
        let (name, p2) = match Opaque::from_wire(buf, p1, MAX_AUTH_DATA) {
            Ok(t) => t,
            Err(e) => {
                return Err(e);
            },
        };
        let (uid, p3) = match read_u32_at(buf, p2) {
            Ok(t) => t,
            Err(e) => {
                return Err(e);
            },
        };
        let (gid, p4) = match read_u32_at(buf, p3) {
            Ok(t) => t,
            Err(e) => {
                return Err(e);
            },
        };
        let (cnt, p5) = match read_u32_at(buf, p4) {
            Ok(t) => t,
            Err(e) => {
                return Err(e);
            },
        };
        if cnt > MAX_GIDS {
            return Err(Error::InvalidAuthData);
        }
        let (gids, p6) = match read_gids(buf, p5, cnt) {
            Ok(t) => t,
            Err(e) => {
                return Err(e);
            },
        };
        if p6 - pos != expected_len as usize {
            return Err(Error::InvalidAuthData);
        }
        let params = AuthUnixParams {
            stamp,
            machine_name: name.into_payload(),
            uid,
            gid,
            gids,
        };
        assert(params@ =~= parse_params(buf@, pos as int, expected_len)->Ok_0.0);
        Ok((params, p6))
    }

    /// Serialises this `AuthUnixParams` into `buf`, appending
    /// [`AuthUnixParams::serialised_len()`] bytes.
    pub fn serialise_into(&self, buf: &mut Vec<u8>)
        requires
            self@.wf(),
        ensures
            final(buf)@ == old(buf)@ + enc_params(self@),
    {
        push_u32_be(buf, self.stamp);
        write_opaque_into(buf, self.machine_name.as_slice());
        push_u32_be(buf, self.uid);
        push_u32_be(buf, self.gid);
        push_u32_be(buf, self.gids.len() as u32);
        write_gids_from(buf, &self.gids, 0);
        assert(self.gids@.subrange(0, self.gids@.len() as int) =~= self.gids@);
    }

    /// An arbitrary ID generated by the caller.
    pub fn stamp(&self) -> (r: u32)
        ensures
            r == self@.stamp,
    {
        self.stamp
    }

    /// The hostname of the caller's machine.
    pub fn machine_name(&self) -> (r: &[u8])
        ensures
            r@ == self@.machine_name,
    {
        self.machine_name.as_slice()
    }

    /// The hostname of the caller's machine as a UTF-8 string, or
    /// [`Error::InvalidMachineName`] if the bytes are not valid UTF-8.
    ///
    /// The raw bytes remain retrievable through
    /// [`AuthUnixParams::machine_name`] regardless.
    pub fn machine_name_str(&self) -> (r: Result<&str, Error>)
        ensures
            r is Ok <==> vstd::utf8::valid_utf8(self@.machine_name),
            r matches Ok(s) ==> s@ == vstd::utf8::decode_utf8(self@.machine_name),
            r matches Err(e) ==> e == Error::InvalidMachineName,
    {
        match bytes_as_utf8(self.machine_name.as_slice()) {
            Some(s) => Ok(s),
            None => Err(Error::InvalidMachineName),
        }
    }

    /// The caller's Unix user ID.
    pub fn uid(&self) -> (r: u32)
        ensures
            r == self@.uid,
    {
        self.uid
    }

    /// The caller's primary Unix group ID.
    pub fn gid(&self) -> (r: u32)
        ensures
            r == self@.gid,
    {
        self.gid
    }

    /// The supplementary Unix group IDs the caller is a member of, or
    /// `None` if it provided none.
    pub fn gids(&self) -> (r: Option<&Vec<u32>>)
        ensures
            match r {
                Some(g) => self@.gids.len() > 0 && g@ == self@.gids,
                None => self@.gids.len() == 0,
            },
    {
        if self.gids.len() == 0 {
            None
        } else {
            Some(&self.gids)
        }
    }

    /// Returns the on-wire length of this parameter block once serialised.
    pub fn serialised_len(&self) -> (r: u32)
        requires
            self@.wf(),
        ensures
            r == self@.wire_len(),
    {
        let name_len = self.machine_name.len() as u32;
        12 + (4 + name_len + pad_length(name_len)) + 4 + 4 * (self.gids.len() as u32)
    }
}

/// Appends the group IDs of `g` from index `i` on, one big-endian `u32`
/// each.
fn write_gids_from(buf: &mut Vec<u8>, g: &Vec<u32>, i: usize)
    requires
        i <= g@.len(),
    ensures
        final(buf)@ == old(buf)@ + enc_gids(g@.subrange(i as int, g@.len() as int)),
    decreases g@.len() - i,
{
    if i < g.len() {
        push_u32_be(buf, g[i]);
        write_gids_from(buf, g, i + 1);
        proof {
            let s = g@.subrange(i as int, g@.len() as int);
            assert(s[0] == g@[i as int]);
            assert(s.subrange(1, s.len() as int) =~= g@.subrange(i as int + 1, g@.len() as int));
            assert(old(buf)@ + be_bytes(g@[i as int]) + enc_gids(
                g@.subrange(i as int + 1, g@.len() as int),
            ) =~= old(buf)@ + enc_gids(s));
        }
    } else {
        assert(g@.subrange(i as int, g@.len() as int) =~= Seq::<u32>::empty());
    }
}

/// Reads `n` big-endian `u32` group IDs at `pos`.
fn read_gids(buf: &[u8], pos: usize, n: u32) -> (r: Result<(Vec<u32>, usize), Error>)
    requires
        pos <= buf@.len(),
    ensures
        r is Ok <==> parse_gids(buf@, pos as int, n as nat) is Ok,
        r matches Ok((g, p)) ==> parse_gids(buf@, pos as int, n as nat) == Ok::<
            (Seq<u32>, int),
            Error,
        >((g@, p as int)) && pos <= p <= buf@.len(),
        r matches Err(e) ==> parse_gids(buf@, pos as int, n as nat) == Err::<
            (Seq<u32>, int),
            Error,
        >(e),
    decreases n,
{
    if n == 0 {
        Ok((Vec::new(), pos))
    } else {
        let (v, p) = match read_u32_at(buf, pos) {
            Ok(t) => t,
            Err(e) => {
                return Err(e);
            },
        };
        let (mut rest, p2) = match read_gids(buf, p, n - 1) {
            Ok(t) => t,
            Err(e) => {
                return Err(e);
            },
        };
        let mut out: Vec<u32> = Vec::new();
        out.push(v);
        out.append(&mut rest);
        assert(out@ =~= parse_gids(buf@, pos as int, n as nat)->Ok_0.0);
        Ok((out, p2))
    }
}

/// A set of basic auth flavor types described in RFC 5531 section 8.2.
///
/// The deprecated `AUTH_DH` is not supported, nor is GSS.
#[non_exhaustive]
#[derive(Debug, Clone, PartialEq)]
pub enum AuthFlavor {
    /// `AUTH_NONE` with the opaque data the spec allows to be included
    /// (typically `None`).
    ///
    /// The provided opaque auth payload must not exceed 200 bytes in
    /// length.
    AuthNone(Option<Vec<u8>>),
    /// `AUTH_UNIX` and the fields it contains.
    AuthUnix(AuthUnixParams),
    /// `AUTH_SHORT` and its opaque identifier.
    ///
    /// The provided opaque auth payload must not exceed 200 bytes in
    /// length.
    AuthShort(Vec<u8>),
    /// An authentication credential unknown to this library, but possibly
    /// valid and acceptable by the server.
    Unknown {
        /// The discriminator for this undefined auth type.
        id: u32,
        /// The opaque data contained within this flavor.
        ///
        /// This payload must not exceed 200 bytes in length.
        data: Vec<u8>,
    },
}

impl View for AuthFlavor {
    type V = SpecAuthFlavor;

    open spec fn view(&self) -> SpecAuthFlavor {
        match self {
            AuthFlavor::AuthNone(None) => SpecAuthFlavor::AuthNone(None),
            AuthFlavor::AuthNone(Some(d)) => SpecAuthFlavor::AuthNone(Some(d@)),
            AuthFlavor::AuthUnix(p) => SpecAuthFlavor::AuthUnix(p@),
            AuthFlavor::AuthShort(d) => SpecAuthFlavor::AuthShort(d@),
            AuthFlavor::Unknown { id, data } => SpecAuthFlavor::Unknown {
                id: *id,
                data: data@,
            },
        }
    }
}

impl AuthFlavor {
    /// Constructs a new `AuthFlavor` by parsing the wire format read from
    /// `buf` at `pos`.
    ///
    /// On success the returned position lies at the end of the flavor.
    pub fn from_wire(buf: &[u8], pos: usize) -> (r: Result<(AuthFlavor, usize), Error>)
        requires
            pos <= buf@.len(),
        ensures
            r is Ok <==> parse_flavor(buf@, pos as int) is Ok,
            r matches Ok((f, p)) ==> parse_flavor(buf@, pos as int) == Ok::<
                (SpecAuthFlavor, int),
                Error,
            >((f@, p as int)) && pos <= p <= buf@.len(),
            r matches Err(e) ==> parse_flavor(buf@, pos as int) == Err::<
                (SpecAuthFlavor, int),
                Error,
            >(e),
    {
        let (disc, p) = match read_u32_at(buf, pos) {
            Ok(t) => t,
            Err(e) => {
                return Err(e);
            },
        };
        if disc == AUTH_NONE {
            let (payload, p2) = match Opaque::from_wire(buf, p, MAX_AUTH_DATA) {
                Ok(t) => t,
                Err(e) => {
                    return Err(e);
                },
            };
            let data = payload.into_payload();
            if data.len() == 0 {
                Ok((AuthFlavor::AuthNone(None), p2))
            } else {
                Ok((AuthFlavor::AuthNone(Some(data)), p2))
            }
        } else if disc == AUTH_UNIX {
            let (len, p2) = match read_u32_at(buf, p) {
                Ok(t) => t,
                Err(e) => {
                    return Err(e);
                },
            };
            if len > MAX_AUTH_DATA {
                return Err(Error::InvalidLength);
            }
            let (params, p3) = match AuthUnixParams::from_wire(buf, p2, len) {
                Ok(t) => t,
                Err(e) => {
                    return Err(e);
                },
            };
            Ok((AuthFlavor::AuthUnix(params), p3))
        } else if disc == AUTH_SHORT {
            let (payload, p2) = match Opaque::from_wire(buf, p, MAX_AUTH_DATA) {
                Ok(t) => t,
                Err(e) => {
                    return Err(e);
                },
            };
            Ok((AuthFlavor::AuthShort(payload.into_payload()), p2))
        } else {
            let (payload, p2) = match Opaque::from_wire(buf, p, MAX_AUTH_DATA) {
                Ok(t) => t,
                Err(e) => {
                    return Err(e);
                },
            };
            Ok((AuthFlavor::Unknown { id: disc, data: payload.into_payload() }, p2))
        }
    }

    /// Serialises this auth flavor and appends it to `buf`.
    pub fn serialise_into(&self, buf: &mut Vec<u8>)
        requires
            self@.wf(),
        ensures
            final(buf)@ == old(buf)@ + enc_flavor(self@),
    {
        match self {
            AuthFlavor::AuthNone(None) => {
                push_u32_be(buf, AUTH_NONE);
                push_u32_be(buf, 0);
            },
            AuthFlavor::AuthNone(Some(data)) => {
                push_u32_be(buf, AUTH_NONE);
                write_opaque_into(buf, data.as_slice());
            },
            AuthFlavor::AuthUnix(p) => {
                push_u32_be(buf, AUTH_UNIX);
                push_u32_be(buf, p.serialised_len());
                p.serialise_into(buf);
            },
            AuthFlavor::AuthShort(data) => {
                push_u32_be(buf, AUTH_SHORT);
                write_opaque_into(buf, data.as_slice());
            },
            AuthFlavor::Unknown { id, data } => {
                push_u32_be(buf, *id);
                write_opaque_into(buf, data.as_slice());
            },
        }
    }

    /// Returns the ID value used to identify the variant in the wire
    /// protocol.
    pub fn id(&self) -> (r: u32)
        ensures
            r == self@.id(),
    {
        match self {
            AuthFlavor::AuthNone(_) => AUTH_NONE,
            AuthFlavor::AuthUnix(_) => AUTH_UNIX,
            AuthFlavor::AuthShort(_) => AUTH_SHORT,
            AuthFlavor::Unknown { id, data } => *id,
        }
    }

    /// Returns the byte length of the associated auth data, if any.
    pub fn associated_data_len(&self) -> (r: u32)
        requires
            self@.wf(),
        ensures
            r == self@.assoc_len(),
    {
        match self {
            AuthFlavor::AuthNone(Some(d)) => d.len() as u32,
            AuthFlavor::AuthNone(None) => 0,
            AuthFlavor::AuthUnix(p) => 12 + p.machine_name.len() as u32 + 4 * (
            p.gids.len() as u32),
            AuthFlavor::AuthShort(d) => d.len() as u32,
            AuthFlavor::Unknown { id, data } => data.len() as u32,
        }
    }

    /// Returns the on-wire length of this auth flavor once serialised,
    /// including discriminator and length values.
    pub fn serialised_len(&self) -> (r: u32)
        requires
            self@.wf(),
        ensures
            r == self@.wire_len(),
    {
        match self {
            AuthFlavor::AuthNone(None) => 8,
            AuthFlavor::AuthUnix(p) => 8 + p.serialised_len(),
            AuthFlavor::AuthNone(Some(d)) => {
                let len = d.len() as u32;
                4 + 4 + len + pad_length(len)
            },
            AuthFlavor::AuthShort(d) => {
                let len = d.len() as u32;
                4 + 4 + len + pad_length(len)
            },
            AuthFlavor::Unknown { id, data } => {
                let len = data.len() as u32;
                4 + 4 + len + pad_length(len)
            },
        }
    }
}

} // verus!
