//! Segment files: their names, and the recovery scan.
use vstd::prelude::*;
use vstd::utf8::encode_utf8;

use crate::bytes::{le4_bytes, le4_roundtrip, le4_value, lemma_le_range, read_le4};
use crate::text::{
    ascii_bytes, concat, dec_text, digits_value, lemma_ascii_bytes, lemma_dec_text_ascii,
    lemma_dec_text_value, parse_u64, u64_text, unsigned_value,
};
use crate::wal::record::{
    crc32, decode_payload, decoded, frame_bytes, has_checksum, id_fits, payload, payload_roundtrip,
    recs_view, OwnedRec, RecView,
};

verus! {

/// A length above this is treated as corruption.
pub const MAX_RECORD: u32 = 268435456;

/// The first eight bytes of every segment.
pub open spec fn magic() -> Seq<u8> {
    seq![77u8, 79u8, 82u8, 75u8, 87u8, 65u8, 76u8, 49u8]
}

/// The first eight bytes of every segment.
pub fn magic_bytes() -> (r: Vec<u8>)
    ensures
        r@ == magic(),
{
    let r: Vec<u8> = vec![77, 79, 82, 75, 87, 65, 76, 49];
    assert(r@ =~= magic());
    r
}

/// The log cannot be served as it is.
#[derive(Debug, PartialEq)]
pub struct Corrupt {
    pub message: String,
}

/// The error for a log that cannot be served.
pub fn corrupt(msg: String) -> (r: Corrupt)
    ensures
        r.message == msg,
{
    Corrupt { message: msg }
}

/// The record framed at an offset and the offset behind it; `None` where the frame is bad: too
/// few bytes, a length above the limit, a wrong checksum, or a payload that cannot be decoded.
pub open spec fn frame_at(s: Seq<u8>, off: int) -> Option<(RecView, int)> {
    if off + 8 > s.len() {
        None
    } else {
        let len = le4_value(s.subrange(off, off + 4));
        let crc = le4_value(s.subrange(off + 4, off + 8));
        let end = off + 8 + len;
        if len > MAX_RECORD || end > s.len() || crc32(s.subrange(off + 8, end)) != crc {
            None
        } else {
            match decoded(s.subrange(off + 8, end)) {
                Ok(r) => Some((r, end)),
                Err(_) => None,
            }
        }
    }
}

/// The records from an offset on, up to the first bad frame, and the offset of that frame.
pub open spec fn scan(s: Seq<u8>, off: int) -> (Seq<RecView>, Option<int>)
    decreases s.len() - off,
{
    if off < 0 || off >= s.len() {
        (seq![], None)
    } else {
        match frame_at(s, off) {
            None => (seq![], Some(off)),
            Some((r, end)) => if end <= off {
                (seq![], Some(off))
            } else {
                (seq![r] + scan(s, end).0, scan(s, end).1)
            },
        }
    }
}

pub open spec fn has_magic(s: Seq<u8>) -> bool {
    s.len() >= 8 && s.take(8) == magic()
}

/// The records of a segment and the offset of its first bad byte; without the magic bytes that
/// offset is zero.
pub open spec fn segment_scan(s: Seq<u8>) -> (Seq<RecView>, Option<int>) {
    if has_magic(s) {
        scan(s, 8)
    } else {
        (seq![], Some(0))
    }
}

/// Frames one behind the other.
pub open spec fn frames(rs: Seq<RecView>) -> Seq<u8>
    decreases rs.len(),
{
    if rs.len() == 0 {
        seq![]
    } else {
        frames(rs.drop_last()) + frame_bytes(rs.last())
    }
}

/// Whether a record can be framed and read back.
pub open spec fn loggable(r: RecView) -> bool {
    id_fits(r) && payload(r).len() <= MAX_RECORD
}

pub open spec fn all_loggable(rs: Seq<RecView>) -> bool {
    forall|i: int| 0 <= i < rs.len() ==> loggable(#[trigger] rs[i])
}

/// A segment that holds some records and nothing else.
pub open spec fn segment_of(rs: Seq<RecView>) -> Seq<u8> {
    magic() + frames(rs)
}

/// The frame at an offset does not depend on what stands behind it.
proof fn lemma_frame_at_extend(s: Seq<u8>, t: Seq<u8>, off: int)
    requires
        0 <= off,
        frame_at(s, off) is Some,
    ensures
        frame_at(s + t, off) == frame_at(s, off),
{
    lemma_le_range(s.subrange(off, off + 4));
    let u = s + t;
    let end = (frame_at(s, off)->0).1;
    assert(u.subrange(off, off + 4) =~= s.subrange(off, off + 4));
    assert(u.subrange(off + 4, off + 8) =~= s.subrange(off + 4, off + 8));
    assert(u.subrange(off + 8, end) =~= s.subrange(off + 8, end));
}

proof fn lemma_frame_end(s: Seq<u8>, off: int)
    requires
        0 <= off,
    ensures
        frame_at(s, off) matches Some((r, end)) ==> off + 8 <= end <= s.len(),
{
    lemma_le_range(s.subrange(off, off + 4));
}

/// A clean scan stays what it is when more is appended: the appended bytes are scanned next.
proof fn lemma_scan_append(s: Seq<u8>, t: Seq<u8>, off: int)
    requires
        0 <= off <= s.len(),
        scan(s, off).1 is None,
    ensures
        scan(s + t, off) == (scan(s, off).0 + scan(s + t, s.len() as int).0, scan(
            s + t,
            s.len() as int,
        ).1),
    decreases s.len() - off,
{
    let u = s + t;
    if off == s.len() {
        assert(seq![] + scan(u, off).0 =~= scan(u, off).0);
    } else {
        lemma_frame_end(s, off);
        if let Some((r, end)) = frame_at(s, off) {
            lemma_frame_at_extend(s, t, off);
            lemma_scan_append(s, t, end);
            assert(seq![r] + (scan(s, end).0 + scan(u, s.len() as int).0) =~= (seq![r] + scan(
                s,
                end,
            ).0) + scan(u, s.len() as int).0);
        }
    }
}

proof fn lemma_frame_here(s: Seq<u8>, t: Seq<u8>, r: RecView)
    requires
        loggable(r),
    ensures
        frame_at(s + frame_bytes(r) + t, s.len() as int) == Some(
            (r, s.len() + frame_bytes(r).len() as int),
        ),
{
    let off = s.len() as int;
    let p = payload(r);
    le4_roundtrip(p.len() as int);
    le4_roundtrip(crc32(p) as int);
    payload_roundtrip(r);
    lemma_frame_parts(s, le4_bytes(p.len() as int), le4_bytes(crc32(p) as int), p, t);
}

/// The parts of a frame stand where they are looked for.
proof fn lemma_frame_parts(s: Seq<u8>, len: Seq<u8>, crc: Seq<u8>, p: Seq<u8>, t: Seq<u8>)
    requires
        len.len() == 4,
        crc.len() == 4,
    ensures
        ({
            let u = s + (len + crc + p) + t;
            let off = s.len() as int;
            &&& u.len() == s.len() + 8 + p.len() + t.len()
            &&& u.subrange(off, off + 4) == len
            &&& u.subrange(off + 4, off + 8) == crc
            &&& u.subrange(off + 8, off + 8 + p.len()) == p
        }),
{
    let u = s + (len + crc + p) + t;
    let off = s.len() as int;
    assert(u.subrange(off, off + 4) =~= len);
    assert(u.subrange(off + 4, off + 8) =~= crc);
    assert(u.subrange(off + 8, off + 8 + p.len()) =~= p);
}

/// Appending a record to a cleanly scanned segment adds that record at the end.
pub proof fn append_adds_record(s: Seq<u8>, r: RecView)
    requires
        has_magic(s),
        segment_scan(s).1 is None,
        loggable(r),
    ensures
        segment_scan(s + frame_bytes(r)) == (segment_scan(s).0.push(r), None::<int>),
{
    let f = frame_bytes(r);
    assert((s + f).take(8) =~= s.take(8));
    lemma_scan_append(s, f, 8);
    lemma_frame_here(s, seq![], r);
    assert(s + f + seq![] =~= s + f);
    let u = s + f;
    let off = s.len() as int;
    assert(scan(u, u.len() as int) == (Seq::<RecView>::empty(), None::<int>));
    assert(scan(u, off) == (seq![r] + scan(u, u.len() as int).0, None::<int>));
    assert(scan(s, 8).0 + (seq![r] + Seq::<RecView>::empty()) =~= scan(s, 8).0.push(r));
}

/// A segment of records is read back as exactly those records, in order.
pub proof fn segment_roundtrip(rs: Seq<RecView>)
    requires
        all_loggable(rs),
    ensures
        segment_scan(segment_of(rs)) == (rs, None::<int>),
        has_magic(segment_of(rs)),
    decreases rs.len(),
{
    assert(segment_of(rs).take(8) =~= magic());
    if rs.len() == 0 {
        assert(rs =~= seq![]);
    } else {
        let front = rs.drop_last();
        assert forall|i: int| 0 <= i < front.len() implies loggable(#[trigger] front[i]) by {
            assert(front[i] == rs[i]);
        }
        segment_roundtrip(front);
        assert(loggable(rs[rs.len() - 1]));
        append_adds_record(segment_of(front), rs.last());
        assert(segment_of(front) + frame_bytes(rs.last()) =~= segment_of(rs));
        assert(front.push(rs.last()) =~= rs);
    }
}

/// A torn write loses the torn record and nothing before it: whatever prefix of a segment
/// survives, the scan returns a prefix of the records, and where it stops, it stops at the end of
/// the last of them.
pub proof fn torn_tail_keeps_prior_records(rs: Seq<RecView>, n: int)
    requires
        all_loggable(rs),
        8 <= n <= segment_of(rs).len(),
    ensures
        ({
            let (found, bad) = segment_scan(segment_of(rs).take(n));
            &&& found.len() <= rs.len()
            &&& found == rs.take(found.len() as int)
            &&& segment_of(found).len() <= n
            &&& match bad {
                None => n == segment_of(found).len(),
                Some(off) => off == segment_of(found).len() && found.len() < rs.len() && n
                    < segment_of(rs.take(found.len() as int + 1)).len(),
            }
        }),
    decreases rs.len(),
{
    let full = segment_of(rs);
    let s = full.take(n);
    assert(s.take(8) =~= magic());
    if rs.len() == 0 {
        assert(rs.take(0) =~= seq![]);
        assert(segment_of(rs) =~= magic());
        assert(scan(s, 8).0 =~= seq![]);
        assert(scan(s, 8).0 =~= rs.take(0));
    } else {
        let front = rs.drop_last();
        let r = rs.last();
        assert forall|i: int| 0 <= i < front.len() implies loggable(#[trigger] front[i]) by {
            assert(front[i] == rs[i]);
        }
        assert(segment_of(front) + frame_bytes(r) =~= full);
        if n <= segment_of(front).len() {
            assert(s =~= segment_of(front).take(n));
            torn_tail_keeps_prior_records(front, n);
            let found = segment_scan(s).0;
            assert(front.take(found.len() as int) =~= rs.take(found.len() as int));
            if found.len() < front.len() {
                assert(front.take(found.len() as int + 1) =~= rs.take(found.len() as int + 1));
            }
        } else if n == full.len() {
            assert(s =~= full);
            segment_roundtrip(rs);
            assert(rs.take(rs.len() as int) =~= rs);
        } else {
            segment_roundtrip(front);
            let base = segment_of(front);
            let tail = s.skip(base.len() as int);
            assert(s =~= base + tail);
            assert(tail =~= frame_bytes(r).take(tail.len() as int));
            lemma_scan_append(base, tail, 8);
            lemma_torn_frame(base, r, tail.len() as int);
            assert(front + Seq::<RecView>::empty() =~= front);
            assert(rs.take(front.len() as int) =~= front);
            assert(rs.take(front.len() as int + 1) =~= rs);
        }
    }
}

/// A frame that is not whole is bad.
proof fn lemma_torn_frame(base: Seq<u8>, r: RecView, n: int)
    requires
        loggable(r),
        0 < n < frame_bytes(r).len(),
    ensures
        scan(base + frame_bytes(r).take(n), base.len() as int) == (
            Seq::<RecView>::empty(),
            Some(base.len() as int),
        ),
{
    let s = base + frame_bytes(r).take(n);
    let off = base.len() as int;
    let p = payload(r);
    le4_roundtrip(p.len() as int);
    le4_roundtrip(crc32(p) as int);
    if n >= 8 {
        assert(s.subrange(off, off + 4) =~= le4_bytes(p.len() as int));
    }
    assert(frame_at(s, off) is None);
}

/// Cutting a segment at its first bad byte leaves the same records, and nothing bad.
pub proof fn repair_is_stable(s: Seq<u8>)
    requires
        has_magic(s),
        segment_scan(s).1 is Some,
    ensures
        ({
            let off = segment_scan(s).1->0;
            &&& 8 <= off < s.len()
            &&& has_magic(s.take(off))
            &&& segment_scan(s.take(off)) == (segment_scan(s).0, None::<int>)
        }),
{
    lemma_cut(s, 8);
    let off = scan(s, 8).1->0;
    assert(s.take(off).take(8) =~= s.take(8));
}

proof fn lemma_cut(s: Seq<u8>, off: int)
    requires
        0 <= off <= s.len(),
        scan(s, off).1 is Some,
    ensures
        off <= scan(s, off).1->0 < s.len(),
        scan(s.take(scan(s, off).1->0), off) == (scan(s, off).0, None::<int>),
    decreases s.len() - off,
{
    let bad = scan(s, off).1->0;
    lemma_frame_end(s, off);
    if let Some((r, end)) = frame_at(s, off) {
        lemma_cut(s, end);
        let cut = s.take(bad);
        assert(cut.subrange(off, off + 4) =~= s.subrange(off, off + 4));
        assert(cut.subrange(off + 4, off + 8) =~= s.subrange(off + 4, off + 8));
        assert(cut.subrange(off + 8, end) =~= s.subrange(off + 8, end));
        assert(frame_at(cut, off) == frame_at(s, off));
    }
}

/// A segment without its magic bytes, reset to them alone, is clean and empty.
pub proof fn reset_is_clean()
    ensures
        segment_scan(magic()) == (Seq::<RecView>::empty(), None::<int>),
{
    assert(magic().take(8) =~= magic());
}

/// Reads the records of a segment up to the first bad frame, and the offset of that frame.
fn scan_frames(buf: &[u8]) -> (r: (Vec<OwnedRec>, Option<usize>))
    requires
        has_magic(buf@),
    ensures
        recs_view(r.0@) == segment_scan(buf@).0,
        match r.1 {
            Some(off) => segment_scan(buf@).1 == Some(off as int),
            None => segment_scan(buf@).1 is None,
        },
{
    let mut out: Vec<OwnedRec> = Vec::new();
    let mut off: usize = 8;
    assert(recs_view(out@) + scan(buf@, 8).0 =~= scan(buf@, 8).0);
    while off < buf.len()
        invariant
            8 <= off <= buf@.len(),
            has_magic(buf@),
            scan(buf@, 8) == (recs_view(out@) + scan(buf@, off as int).0, scan(
                buf@,
                off as int,
            ).1),
        decreases buf@.len() - off,
    {
        let ghost before = out@;
        if buf.len() - off < 8 {
            assert(recs_view(out@) + Seq::<RecView>::empty() =~= recs_view(out@));
            return (out, Some(off));
        }
        let len = read_le4(buf, off);
        let crc = read_le4(buf, off + 4);
        let start: usize = off + 8;
        if len > MAX_RECORD || buf.len() - start < len as usize {
            assert(recs_view(out@) + Seq::<RecView>::empty() =~= recs_view(out@));
            return (out, Some(off));
        }
        let end: usize = start + len as usize;
        let body = vstd::slice::slice_subrange(buf, start, end);
        if !has_checksum(body, crc) {
            assert(recs_view(out@) + Seq::<RecView>::empty() =~= recs_view(out@));
            return (out, Some(off));
        }
        match decode_payload(body) {
            Ok(rec) => {
                out.push(rec);
                assert(recs_view(out@) =~= recs_view(before).push(rec@));
                assert(recs_view(before) + (seq![rec@] + scan(buf@, end as int).0) =~= recs_view(
                    out@,
                ) + scan(buf@, end as int).0);
            },
            Err(_) => {
                assert(recs_view(out@) + Seq::<RecView>::empty() =~= recs_view(out@));
                return (out, Some(off));
            },
        }
        off = end;
    }
    assert(recs_view(out@) + Seq::<RecView>::empty() =~= recs_view(out@));
    (out, None)
}

/// Whether a segment starts with the magic bytes.
fn check_magic(buf: &[u8]) -> (r: bool)
    ensures
        r == has_magic(buf@),
{
    if buf.len() < 8 {
        return false;
    }
    let m = magic_bytes();
    let head = vstd::slice::slice_subrange(buf, 0, 8);
    assert(head@ =~= buf@.take(8));
    crate::text::bytes_eq(head, m.as_slice())
}

/// What the last segment needs before it can be appended to.
#[derive(Debug, PartialEq, Clone, Copy)]
pub enum Repair {
    /// Its creation was interrupted: make it the magic bytes alone.
    Reset { seq: u64 },
    /// Its tail is torn: cut it to this length.
    Truncate { seq: u64, len: usize },
}

/// A segment's number and contents.
pub open spec fn segs_view(segs: Seq<(u64, Vec<u8>)>) -> Seq<(u64, Seq<u8>)> {
    segs.map_values(|s: (u64, Vec<u8>)| (s.0, s.1@))
}

/// The repair that a segment needs.
pub open spec fn repair_of(seq: u64, bytes: Seq<u8>) -> Option<Repair> {
    match segment_scan(bytes).1 {
        None => None,
        Some(off) => Some(
            if has_magic(bytes) {
                Repair::Truncate { seq, len: off as usize }
            } else {
                Repair::Reset { seq }
            },
        ),
    }
}

pub open spec fn damage_text(seq: u64, bytes: Seq<u8>) -> Seq<char> {
    if has_magic(bytes) {
        "segment "@ + dec_text(seq as nat) + ": corrupt record at byte "@ + dec_text(
            segment_scan(bytes).1->0 as nat,
        )
    } else {
        "segment "@ + dec_text(seq as nat) + ": bad magic"@
    }
}

/// What recovery finds in the segments from the `i`-th on: their records in order and the repair
/// of the last one. Damage in an earlier segment is an error.
pub open spec fn recovered(segs: Seq<(u64, Seq<u8>)>, i: int) -> Result<
    (Seq<RecView>, Option<Repair>),
    Seq<char>,
>
    decreases segs.len() - i,
{
    if i < 0 || i >= segs.len() {
        Ok((seq![], None))
    } else {
        let (seq, bytes) = segs[i];
        let (found, bad) = segment_scan(bytes);
        if i == segs.len() - 1 {
            Ok((found, repair_of(seq, bytes)))
        } else if bad is Some {
            Err(damage_text(seq, bytes))
        } else {
            match recovered(segs, i + 1) {
                Ok((more, repair)) => Ok((found + more, repair)),
                Err(e) => Err(e),
            }
        }
    }
}

/// The segments that recovery reads.
pub open spec fn from_segment(segs: Seq<(u64, Seq<u8>)>, first: u64) -> Seq<(u64, Seq<u8>)> {
    segs.filter(|s: (u64, Seq<u8>)| s.0 >= first)
}

/// Reads every record of the segments from the first one on, in order, out of segments that are
/// listed in order. The first bad frame of the last segment is the end of the log; the same
/// damage in an earlier one is an error.
pub fn read_segments(segments: &Vec<(u64, Vec<u8>)>, first_segment: u64) -> (r: Result<
    (Vec<OwnedRec>, Option<Repair>),
    Corrupt,
>)
    ensures
        match r {
            Ok((recs, repair)) => recovered(from_segment(segs_view(segments@), first_segment), 0)
                == Ok::<(Seq<RecView>, Option<Repair>), Seq<char>>((recs_view(recs@), repair)),
            Err(e) => recovered(from_segment(segs_view(segments@), first_segment), 0) == Err::<
                (Seq<RecView>, Option<Repair>),
                Seq<char>,
            >(e.message@),
        },
{
    let kept = kept_indices(segments, first_segment);
    let ghost all = segs_view(segments@);
    let ghost segs = from_segment(all, first_segment);
    let mut out: Vec<OwnedRec> = Vec::new();
    let mut i: usize = 0;
    proof {
        if let Ok((more, _)) = recovered(segs, 0) {
            assert(recs_view(out@) + more =~= more);
        }
    }
    while i < kept.len()
        invariant
            0 <= i <= kept@.len(),
            all == segs_view(segments@),
            segs == from_segment(all, first_segment),
            kept@.len() == segs.len(),
            forall|k: int|
                0 <= k < kept@.len() ==> #[trigger] kept@[k] < segments@.len() && all[kept@[k] as int]
                    == segs[k],
            recovered(segs, 0) == (match recovered(segs, i as int) {
                Ok((more, repair)) => Ok((recs_view(out@) + more, repair)),
                Err(e) => Err(e),
            }),
        decreases kept@.len() - i,
    {
        let k: usize = kept[i];
        let seq: u64 = segments[k].0;
        let buf = segments[k].1.as_slice();
        assert(segs[i as int] == (seq, buf@));
        let is_last = i == kept.len() - 1;
        if !check_magic(buf) {
            if is_last {
                assert(recs_view(out@) + Seq::<RecView>::empty() =~= recs_view(out@));
                return Ok((out, Some(Repair::Reset { seq })));
            }
            let mut text = concat("segment ", u64_text(seq).as_str());
            text.append(": bad magic");
            return Err(corrupt(text));
        }
        let ghost before = out@;
        let (found, bad) = scan_frames(buf);
        let mut found = found;
        out.append(&mut found);
        assert(recs_view(out@) =~= recs_view(before) + segment_scan(buf@).0);
        if let Some(off) = bad {
            if is_last {
                return Ok((out, Some(Repair::Truncate { seq, len: off })));
            }
            let mut text = concat("segment ", u64_text(seq).as_str());
            text.append(": corrupt record at byte ");
            text.append(u64_text(off as u64).as_str());
            return Err(corrupt(text));
        }
        if is_last {
            return Ok((out, None));
        }
        proof {
            if let Ok((more, _)) = recovered(segs, i + 1) {
                assert(recs_view(before) + (segment_scan(buf@).0 + more) =~= recs_view(out@) + more);
            }
        }
        i = i + 1;
    }
    assert(recs_view(out@) + Seq::<RecView>::empty() =~= recs_view(out@));
    Ok((out, None))
}

/// The positions of the segments that recovery reads.
fn kept_indices(segments: &Vec<(u64, Vec<u8>)>, first_segment: u64) -> (r: Vec<usize>)
    ensures
        r@.len() == from_segment(segs_view(segments@), first_segment).len(),
        forall|k: int|
            0 <= k < r@.len() ==> #[trigger] r@[k] < segments@.len() && segs_view(
                segments@,
            )[r@[k] as int] == from_segment(segs_view(segments@), first_segment)[k],
{
    let ghost all = segs_view(segments@);
    let mut r: Vec<usize> = Vec::new();
    let mut i: usize = 0;
    assert(from_segment(all.take(0), first_segment) =~= seq![]) by {
        reveal(Seq::filter);
    }
    while i < segments.len()
        invariant
            0 <= i <= segments@.len(),
            all == segs_view(segments@),
            r@.len() == from_segment(all.take(i as int), first_segment).len(),
            forall|k: int|
                0 <= k < r@.len() ==> #[trigger] r@[k] < segments@.len() && all[r@[k] as int]
                    == from_segment(all.take(i as int), first_segment)[k],
        decreases segments@.len() - i,
    {
        proof {
            reveal(Seq::filter);
            let next = all.take(i + 1);
            assert(next.drop_last() =~= all.take(i as int));
            assert(next.last() == all[i as int]);
        }
        if segments[i].0 >= first_segment {
            r.push(i);
        }
        i = i + 1;
    }
    assert(all.take(i as int) =~= all);
    r
}

/// Zeros in front of a numeral of fewer than six digits.
pub open spec fn six_digits(n: nat) -> Seq<char> {
    zeros(6 - dec_text(n).len()) + dec_text(n)
}

pub open spec fn zeros(k: int) -> Seq<char> {
    if k <= 0 {
        seq![]
    } else {
        Seq::new(k as nat, |i: int| '0')
    }
}

/// The file name of a segment.
pub open spec fn segment_name(seq: u64) -> Seq<char> {
    "wal-"@ + six_digits(seq as nat) + ".log"@
}

/// A numeral of at least six digits.
pub fn padded(n: u64) -> (r: String)
    ensures
        r@ == six_digits(n as nat),
{
    let digits = u64_text(n);
    let mut out = String::new();
    proof {
        lemma_dec_text_ascii(n as nat);
        crate::text::lemma_dec_text_len(n as nat);
    }
    let len: usize = digits.as_str().unicode_len();
    let mut k: usize = len;
    assert(out@ =~= zeros(k - len));
    while k < 6
        invariant
            len == dec_text(n as nat).len(),
            len <= k,
            k <= 6 || k == len,
            out@ == zeros(k - len),
        decreases 6 - k,
    {
        out.push('0');
        k = k + 1;
        assert(out@ =~= zeros(k - len));
    }
    out.append(digits.as_str());
    assert(out@ =~= six_digits(n as nat));
    out
}

/// The file name of a segment.
pub fn seg_path(seq: u64) -> (r: String)
    ensures
        r@ == segment_name(seq),
{
    let mut out = concat("wal-", padded(seq).as_str());
    out.append(".log");
    out
}

/// The number that a segment's file name holds; `None` for another name.
pub open spec fn segment_number(name: Seq<char>) -> Option<u64> {
    let b = encode_utf8(name);
    if b.len() < 8 || b.take(4) != seq![119u8, 97u8, 108u8, 45u8] || b.skip(b.len() - 4) != seq![
        46u8,
        108u8,
        111u8,
        103u8,
    ] {
        None
    } else {
        match unsigned_value(b.subrange(4, b.len() - 4)) {
            Some(v) => if v <= u64::MAX {
                Some(v as u64)
            } else {
                None
            },
            None => None,
        }
    }
}

/// The number that a segment's file name holds; `None` for another name.
pub fn parse_seg_name(name: &str) -> (r: Option<u64>)
    ensures
        r == segment_number(name@),
{
    let b = name.as_bytes();
    let n: usize = b.len();
    if n < 8 {
        return None;
    }
    let prefix: Vec<u8> = vec![119, 97, 108, 45];
    let suffix: Vec<u8> = vec![46, 108, 111, 103];
    let head = vstd::slice::slice_subrange(b, 0, 4);
    let tail = vstd::slice::slice_subrange(b, n - 4, n);
    proof {
        assert(head@ =~= b@.take(4));
        assert(tail@ =~= b@.skip(n - 4));
        assert(prefix@ =~= seq![119u8, 97u8, 108u8, 45u8]);
        assert(suffix@ =~= seq![46u8, 108u8, 111u8, 103u8]);
    }
    if !crate::text::bytes_eq(head, prefix.as_slice()) || !crate::text::bytes_eq(
        tail,
        suffix.as_slice(),
    ) {
        return None;
    }
    parse_u64(vstd::slice::slice_subrange(b, 4, n - 4))
}

/// A segment's name gives its number back.
pub proof fn segment_name_roundtrip(seq: u64)
    ensures
        segment_number(segment_name(seq)) == Some(seq),
{
    let n = seq as nat;
    let d = dec_text(n);
    let name = segment_name(seq);
    lemma_dec_text_ascii(n);
    reveal_strlit("wal-");
    reveal_strlit(".log");
    let z = zeros(6 - d.len());
    assert(vstd::utf8::is_ascii_chars(name)) by {
        assert forall|i: int| 0 <= i < name.len() implies '\0' <= #[trigger] name[i] <= '\u{7f}' by {
            if i < 4 {
                assert(name[i] == "wal-"@[i]);
            } else if i < 4 + z.len() {
                assert(name[i] == z[i - 4]);
            } else if i < 4 + z.len() + d.len() {
                assert(name[i] == d[i - 4 - z.len()]);
            } else {
                assert(name[i] == ".log"@[i - 4 - z.len() - d.len()]);
            }
        }
    }
    lemma_ascii_bytes(name);
    let b = ascii_bytes(name);
    assert(b.take(4) =~= seq![119u8, 97u8, 108u8, 45u8]);
    assert(b.skip(b.len() - 4) =~= seq![46u8, 108u8, 111u8, 103u8]);
    let mid = b.subrange(4, b.len() - 4);
    assert(mid =~= ascii_bytes(z + d));
    lemma_dec_text_value(n);
    lemma_leading_zeros(z.len() as int, d, n);
    assert(z =~= Seq::new(z.len(), |i: int| '0'));
    assert(mid.len() > 0 && mid[0] != 43) by {
        assert(mid[0] == (z + d)[0] as u8);
        if z.len() == 0 {
            assert((z + d)[0] == d[0]);
        }
    }
}

/// Zeros in front of a numeral do not change its value.
proof fn lemma_leading_zeros(k: int, d: Seq<char>, n: nat)
    requires
        0 <= k,
        d.len() > 0,
        forall|i: int| 0 <= i < d.len() ==> '0' <= #[trigger] d[i] <= '9',
        digits_value(ascii_bytes(d)) == Some(n),
    ensures
        digits_value(ascii_bytes(Seq::new(k as nat, |i: int| '0') + d)) == Some(n),
    decreases d.len(),
{
    let z = Seq::new(k as nat, |i: int| '0');
    let b = ascii_bytes(z + d);
    let bd = ascii_bytes(d);
    assert(b.last() == bd.last());
    if d.len() == 1 {
        assert(b.drop_last() =~= ascii_bytes(z));
        lemma_zeros_value(k);
    } else {
        assert(bd.drop_last() =~= ascii_bytes(d.drop_last()));
        let m = digits_value(ascii_bytes(d.drop_last()))->0;
        assert forall|i: int| 0 <= i < d.drop_last().len() implies '0'
            <= #[trigger] d.drop_last()[i] <= '9' by {
            assert(d.drop_last()[i] == d[i]);
        }
        lemma_leading_zeros(k, d.drop_last(), m);
        assert(b.drop_last() =~= ascii_bytes(z + d.drop_last()));
    }
}

proof fn lemma_zeros_value(k: int)
    requires
        0 <= k,
    ensures
        k > 0 ==> digits_value(ascii_bytes(Seq::new(k as nat, |i: int| '0'))) == Some(0nat),
    decreases k,
{
    if k > 0 {
        let z = Seq::new(k as nat, |i: int| '0');
        let b = ascii_bytes(z);
        assert(b.last() == 48);
        if k > 1 {
            lemma_zeros_value(k - 1);
            assert(b.drop_last() =~= ascii_bytes(Seq::new((k - 1) as nat, |i: int| '0')));
        }
    }
}

/// The records of several segments, one segment behind the other, from the `i`-th on.
pub open spec fn all_records(parts: Seq<(u64, Seq<RecView>)>, i: int) -> Seq<RecView>
    decreases parts.len() - i,
{
    if i < 0 || i >= parts.len() {
        seq![]
    } else {
        parts[i].1 + all_records(parts, i + 1)
    }
}

/// Recovery returns the records of all segments in log order, and finds nothing to repair.
pub proof fn log_roundtrip(parts: Seq<(u64, Seq<RecView>)>, segs: Seq<(u64, Seq<u8>)>, i: int)
    requires
        0 <= i <= parts.len(),
        segs.len() == parts.len(),
        forall|k: int| 0 <= k < parts.len() ==> all_loggable((#[trigger] parts[k]).1),
        forall|k: int|
            0 <= k < parts.len() ==> #[trigger] segs[k] == (parts[k].0, segment_of(parts[k].1)),
    ensures
        recovered(segs, i) == Ok::<(Seq<RecView>, Option<Repair>), Seq<char>>(
            (all_records(parts, i), None),
        ),
    decreases parts.len() - i,
{
    if i < parts.len() {
        assert(all_loggable(parts[i].1));
        segment_roundtrip(parts[i].1);
        assert(segs[i] == (parts[i].0, segment_of(parts[i].1)));
        log_roundtrip(parts, segs, i + 1);
        if i == parts.len() - 1 {
            assert(parts[i].1 + all_records(parts, i + 1) =~= parts[i].1);
        }
    }
}

} // verus!
