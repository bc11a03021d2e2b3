//! Records and their frames.
use vstd::prelude::*;
use vstd::utf8::{
    decode_utf8, decode_utf8_encode_utf8, encode_utf8, encode_utf8_decode_utf8,
    encode_utf8_valid_utf8, valid_utf8,
};

use crate::bytes::{
    le4_bytes, le8_bytes, le8_roundtrip, le8_value, lemma_le8_of_value, push_le4, push_le8, read_le8,
};
use crate::text::{concat, dec_text, string_from_utf8, u64_text};

verus! {

/// One durable transaction fact, borrowed.
pub enum Rec<'a> {
    Commit { id: &'a str, base_version: u64, source: &'a str, steps: u64, version: u64 },
}

/// One durable transaction fact, as recovery reads it back.
#[derive(Debug, PartialEq)]
pub enum OwnedRec {
    Commit { id: String, base_version: u64, source: String, steps: u64, version: u64 },
}

/// The mathematical value of a record.
pub ghost struct RecView {
    pub id: Seq<char>,
    pub base_version: u64,
    pub source: Seq<char>,
    pub steps: u64,
    pub version: u64,
}

impl<'a> Rec<'a> {
    pub open spec fn view(&self) -> RecView {
        match self {
            Rec::Commit { id, base_version, source, steps, version } => RecView {
                id: id@,
                base_version: *base_version,
                source: source@,
                steps: *steps,
                version: *version,
            },
        }
    }
}

impl OwnedRec {
    pub open spec fn view(&self) -> RecView {
        match self {
            OwnedRec::Commit { id, base_version, source, steps, version } => RecView {
                id: id@,
                base_version: *base_version,
                source: source@,
                steps: *steps,
                version: *version,
            },
        }
    }
}

impl Clone for OwnedRec {
    fn clone(&self) -> (r: Self)
        ensures
            r@ == self@,
    {
        match self {
            OwnedRec::Commit { id, base_version, source, steps, version } => OwnedRec::Commit {
                id: id.clone(),
                base_version: *base_version,
                source: source.clone(),
                steps: *steps,
                version: *version,
            },
        }
    }
}

pub open spec fn recs_view(rs: Seq<OwnedRec>) -> Seq<RecView> {
    rs.map_values(|r: OwnedRec| r@)
}

/// The payload of a record: `1 | id_len:u8 | id | base_version | steps | version | source`.
pub open spec fn payload(r: RecView) -> Seq<u8> {
    seq![1u8, encode_utf8(r.id).len() as u8] + encode_utf8(r.id) + le8_bytes(r.base_version as int)
        + le8_bytes(r.steps as int) + le8_bytes(r.version as int) + encode_utf8(r.source)
}

/// Whether the identifier's length fits its one byte.
pub open spec fn id_fits(r: RecView) -> bool {
    encode_utf8(r.id).len() <= 255
}

/// The checksum that `crc32fast::hash` computes.
pub uninterp spec fn crc32(bytes: Seq<u8>) -> u32;

/// `crc32fast::hash`: the checksum of the bytes, which depends on nothing else.
#[verifier::external_body]
fn checksum(bytes: &[u8]) -> (r: u32)
    ensures
        r == crc32(bytes@),
{
    crc32fast::hash(bytes)
}

/// A record as it stands in a segment.
pub open spec fn frame_bytes(r: RecView) -> Seq<u8> {
    le4_bytes(payload(r).len() as int) + le4_bytes(crc32(payload(r)) as int) + payload(r)
}

pub open spec fn malformed() -> Seq<char> {
    "malformed record payload"@
}

/// The record that a payload writes, or why it writes none.
pub open spec fn decoded(p: Seq<u8>) -> Result<RecView, Seq<char>> {
    if p.len() < 2 || p.len() < 2 + p[1] || !valid_utf8(p.subrange(2, 2 + p[1])) {
        Err(malformed())
    } else if p[0] != 1 {
        Err(
            "unknown record tag "@ + dec_text(p[0] as nat) + " (written by a newer server?)"@,
        )
    } else {
        let rest = p.skip(2 + p[1]);
        if rest.len() < 24 || !valid_utf8(rest.skip(24)) {
            Err(malformed())
        } else {
            Ok(
                RecView {
                    id: decode_utf8(p.subrange(2, 2 + p[1])),
                    base_version: le8_value(rest.subrange(0, 8)) as u64,
                    source: decode_utf8(rest.skip(24)),
                    steps: le8_value(rest.subrange(8, 16)) as u64,
                    version: le8_value(rest.subrange(16, 24)) as u64,
                },
            )
        }
    }
}

/// Decoding a payload gives back the record that it was made from.
pub proof fn payload_roundtrip(r: RecView)
    requires
        id_fits(r),
    ensures
        decoded(payload(r)) == Ok::<RecView, Seq<char>>(r),
{
    let p = payload(r);
    let id = encode_utf8(r.id);
    le8_roundtrip(r.base_version as int);
    le8_roundtrip(r.steps as int);
    le8_roundtrip(r.version as int);
    encode_utf8_valid_utf8(r.id);
    encode_utf8_decode_utf8(r.id);
    encode_utf8_valid_utf8(r.source);
    encode_utf8_decode_utf8(r.source);
    lemma_payload_parts(
        id,
        le8_bytes(r.base_version as int),
        le8_bytes(r.steps as int),
        le8_bytes(r.version as int),
        encode_utf8(r.source),
    );
}

/// A payload that decodes is exactly the payload of the record that it decodes to.
pub proof fn decoded_is_payload(p: Seq<u8>)
    ensures
        decoded(p) matches Ok(r) ==> id_fits(r) && payload(r) == p,
{
    if let Ok(r) = decoded(p) {
        let n = p[1] as int;
        let rest = p.skip(2 + n);
        decode_utf8_encode_utf8(p.subrange(2, 2 + n));
        decode_utf8_encode_utf8(rest.skip(24));
        lemma_le8_of_value(rest.subrange(0, 8));
        lemma_le8_of_value(rest.subrange(8, 16));
        lemma_le8_of_value(rest.subrange(16, 24));
        assert(payload(r) =~= p);
    }
}

/// The fields of a payload stand where they are looked for.
proof fn lemma_payload_parts(id: Seq<u8>, b: Seq<u8>, s: Seq<u8>, v: Seq<u8>, src: Seq<u8>)
    requires
        id.len() <= 255,
        b.len() == 8,
        s.len() == 8,
        v.len() == 8,
    ensures
        ({
            let p = seq![1u8, id.len() as u8] + id + b + s + v + src;
            let rest = p.skip(2 + p[1]);
            &&& p.len() == 26 + id.len() + src.len()
            &&& p[0] == 1
            &&& p[1] == id.len()
            &&& p.subrange(2, 2 + p[1]) == id
            &&& rest.subrange(0, 8) == b
            &&& rest.subrange(8, 16) == s
            &&& rest.subrange(16, 24) == v
            &&& rest.skip(24) == src
            &&& rest.len() == 24 + src.len()
        }),
{
    let p = seq![1u8, id.len() as u8] + id + b + s + v + src;
    assert(p.subrange(2, 2 + p[1]) =~= id);
    let rest = p.skip(2 + p[1]);
    assert(rest =~= b + s + v + src);
    assert(rest.subrange(0, 8) =~= b);
    assert(rest.subrange(8, 16) =~= s);
    assert(rest.subrange(16, 24) =~= v);
    assert(rest.skip(24) =~= src);
}

/// The payload of a record.
pub fn encode_payload(rec: &Rec) -> (r: Vec<u8>)
    requires
        id_fits(rec@),
    ensures
        r@ == payload(rec@),
{
    match rec {
        Rec::Commit { id, base_version, source, steps, version } => {
            let mut p: Vec<u8> = Vec::new();
            let id_bytes = id.as_bytes();
            p.push(1);
            p.push(id_bytes.len() as u8);
            p.extend_from_slice(id_bytes);
            push_le8(&mut p, *base_version);
            push_le8(&mut p, *steps);
            push_le8(&mut p, *version);
            p.extend_from_slice(source.as_bytes());
            assert(p@ =~= payload(rec@));
            p
        },
    }
}

/// The record as it stands in a segment.
pub fn frame(rec: &Rec) -> (r: Vec<u8>)
    requires
        id_fits(rec@),
        payload(rec@).len() <= u32::MAX,
    ensures
        r@ == frame_bytes(rec@),
{
    let p = encode_payload(rec);
    let mut out: Vec<u8> = Vec::new();
    push_le4(&mut out, p.len() as u32);
    push_le4(&mut out, checksum(p.as_slice()));
    out.extend_from_slice(p.as_slice());
    assert(out@ =~= frame_bytes(rec@));
    out
}

/// Whether the bytes have the checksum.
pub fn has_checksum(bytes: &[u8], crc: u32) -> (r: bool)
    ensures
        r == (crc32(bytes@) == crc),
{
    checksum(bytes) == crc
}

/// Reads a payload back.
pub fn decode_payload(p: &[u8]) -> (r: Result<OwnedRec, String>)
    ensures
        match r {
            Ok(rec) => decoded(p@) == Ok::<RecView, Seq<char>>(rec@),
            Err(e) => decoded(p@) == Err::<RecView, Seq<char>>(e@),
        },
{
    if p.len() < 2 {
        return Err("malformed record payload".to_owned());
    }
    let id_len: usize = p[1] as usize;
    if p.len() - 2 < id_len {
        return Err("malformed record payload".to_owned());
    }
    let rest_at: usize = 2 + id_len;
    let id = match string_from_utf8(vstd::slice::slice_subrange(p, 2, rest_at)) {
        Ok(id) => id,
        Err(_) => return Err("malformed record payload".to_owned()),
    };
    if p[0] != 1 {
        let mut out = concat("unknown record tag ", u64_text(p[0] as u64).as_str());
        out.append(" (written by a newer server?)");
        return Err(out);
    }
    let rest = vstd::slice::slice_subrange(p, rest_at, p.len());
    assert(rest@ =~= p@.skip(rest_at as int));
    if rest.len() < 24 {
        return Err("malformed record payload".to_owned());
    }
    let base_version = read_le8(rest, 0);
    let steps = read_le8(rest, 8);
    let version = read_le8(rest, 16);
    let source_bytes = vstd::slice::slice_subrange(rest, 24, rest.len());
    assert(source_bytes@ =~= rest@.skip(24));
    match string_from_utf8(source_bytes) {
        Ok(source) => Ok(OwnedRec::Commit { id, base_version, source, steps, version }),
        Err(_) => Err("malformed record payload".to_owned()),
    }
}

} // verus!
