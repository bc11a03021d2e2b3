//! The files of a log directory: which are segments, which are left over, which may be deleted.
use vstd::prelude::*;
use vstd::utf8::{decode_utf8, encode_utf8, valid_utf8};

use crate::bytes::{ends_with, has_prefix, has_suffix, starts_with};
use crate::json::{
    is_record, json_from_bytes, json_read, json_text, json_to_text, member, object, put, text_member,
    Json, JsonView,
};
use crate::paths::path_lt;
use crate::text::{concat, lemma_ascii_bytes, lemma_encode_concat, str_eq, string_from_utf8};
use crate::wal::segments::{
    corrupt, padded, parse_seg_name, segment_name, segment_name_roundtrip, segment_number, six_digits,
    Corrupt,
};

verus! {

/// The name of the checkpoint description.
pub const META_NAME: &'static str = "checkpoint.meta";

/// A segment file: its number and its name.
pub open spec fn files_view(files: Seq<(u64, String)>) -> Seq<(u64, Seq<char>)> {
    files.map_values(|f: (u64, String)| (f.0, f.1@))
}

pub open spec fn names_view(names: Seq<String>) -> Seq<Seq<char>> {
    names.map_values(|n: String| n@)
}

/// Puts a file behind all those whose number is not larger.
pub open spec fn insert_file(files: Seq<(u64, Seq<char>)>, f: (u64, Seq<char>)) -> Seq<
    (u64, Seq<char>),
>
    decreases files.len(),
{
    if files.len() == 0 || files.last().0 <= f.0 {
        files.push(f)
    } else {
        insert_file(files.drop_last(), f).push(files.last())
    }
}

/// The segment files among some names, in the order of their numbers.
pub open spec fn segment_files(names: Seq<Seq<char>>) -> Seq<(u64, Seq<char>)>
    decreases names.len(),
{
    if names.len() == 0 {
        seq![]
    } else {
        let front = segment_files(names.drop_last());
        match segment_number(names.last()) {
            Some(seq) => insert_file(front, (seq, names.last())),
            None => front,
        }
    }
}

pub open spec fn ascending(files: Seq<(u64, Seq<char>)>) -> bool {
    forall|i: int, j: int| 0 <= i < j < files.len() ==> (#[trigger] files[i]).0 <= (#[trigger] files[j]).0
}

proof fn lemma_insert_file(files: Seq<(u64, Seq<char>)>, f: (u64, Seq<char>))
    requires
        ascending(files),
    ensures
        ascending(insert_file(files, f)),
        insert_file(files, f).len() == files.len() + 1,
        forall|x: (u64, Seq<char>)| #[trigger]
            insert_file(files, f).contains(x) <==> files.contains(x) || x == f,
        files.len() > 0 ==> insert_file(files, f).last().0 >= files.last().0,
        insert_file(files, f).last().0 >= f.0,
        files.len() > 0 && files.last().0 > f.0 ==> insert_file(files, f).last() == files.last(),
    decreases files.len(),
{
    let r = insert_file(files, f);
    if files.len() == 0 || files.last().0 <= f.0 {
        assert forall|i: int, j: int| 0 <= i < j < r.len() implies (#[trigger] r[i]).0 <= (
        #[trigger] r[j]).0 by {
            if j == files.len() {
                assert(r[i] == files[i]);
                if i < files.len() - 1 {
                    assert(files[i].0 <= files[files.len() - 1].0);
                }
            }
        }
        assert forall|x: (u64, Seq<char>)| #[trigger] r.contains(x) <==> files.contains(x) || x
            == f by {
            if files.contains(x) {
                let k = choose|k: int| 0 <= k < files.len() && files[k] == x;
                assert(r[k] == x);
            }
            if x == f {
                assert(r[files.len() as int] == x);
            }
        }
    } else {
        let front = files.drop_last();
        assert forall|i: int, j: int| 0 <= i < j < front.len() implies (#[trigger] front[i]).0 <= (
        #[trigger] front[j]).0 by {
            assert(front[i] == files[i] && front[j] == files[j]);
        }
        lemma_insert_file(front, f);
        let q = insert_file(front, f);
        assert(q.last().0 <= files.last().0) by {
            assert(q.contains(q[q.len() - 1]));
            if q.last() != f {
                let k = choose|k: int| 0 <= k < front.len() && front[k] == q.last();
                assert(front[k] == files[k]);
                assert(files[k].0 <= files[files.len() - 1].0);
            }
        }
        assert forall|i: int, j: int| 0 <= i < j < r.len() implies (#[trigger] r[i]).0 <= (
        #[trigger] r[j]).0 by {
            if j == q.len() {
                assert(r[i] == q[i]);
                if i < q.len() - 1 {
                    assert(q[i].0 <= q[q.len() - 1].0);
                }
            } else {
                assert(r[i] == q[i] && r[j] == q[j]);
            }
        }
        assert forall|x: (u64, Seq<char>)| #[trigger] r.contains(x) <==> files.contains(x) || x
            == f by {
            if r.contains(x) {
                let k = choose|k: int| 0 <= k < r.len() && r[k] == x;
                if k < q.len() {
                    assert(q[k] == x);
                    assert(q.contains(x));
                    if x != f {
                        let m = choose|m: int| 0 <= m < front.len() && front[m] == x;
                        assert(files[m] == x);
                    }
                } else {
                    assert(files[files.len() - 1] == x);
                }
            }
            if files.contains(x) {
                let k = choose|k: int| 0 <= k < files.len() && files[k] == x;
                if k < front.len() {
                    assert(front[k] == x);
                    assert(q.contains(x));
                    let m = choose|m: int| 0 <= m < q.len() && q[m] == x;
                    assert(r[m] == x);
                } else {
                    assert(r[q.len() as int] == x);
                }
            }
            if x == f {
                assert(q.contains(f));
                let m = choose|m: int| 0 <= m < q.len() && q[m] == f;
                assert(r[m] == x);
            }
        }
    }
}

/// The segment files are listed in ascending order, and every segment name is among them and
/// nothing else.
pub proof fn listing_is_ordered_and_complete(names: Seq<Seq<char>>)
    ensures
        ascending(segment_files(names)),
        forall|f: (u64, Seq<char>)| #[trigger]
            segment_files(names).contains(f) <==> names.contains(f.1) && segment_number(f.1)
                == Some(f.0),
    decreases names.len(),
{
    if names.len() > 0 {
        let front = names.drop_last();
        listing_is_ordered_and_complete(front);
        let last = names.last();
        assert(names[names.len() - 1] == last);
        assert forall|n: Seq<char>| names.contains(n) <==> front.contains(n) || n == last by {
            if names.contains(n) {
                let k = choose|k: int| 0 <= k < names.len() && names[k] == n;
                if k < front.len() {
                    assert(front[k] == n);
                }
            }
            if front.contains(n) {
                let k = choose|k: int| 0 <= k < front.len() && front[k] == n;
                assert(names[k] == n);
            }
        }
        if let Some(seq) = segment_number(last) {
            lemma_insert_file(segment_files(front), (seq, last));
        }
    }
}

/// The segment files among some names, in the order of their numbers; names with the same number
/// keep their order.
pub fn list_segments(names: &Vec<String>) -> (r: Vec<(u64, String)>)
    ensures
        files_view(r@) == segment_files(names_view(names@)),
{
    let ghost all = names_view(names@);
    let mut out: Vec<(u64, String)> = Vec::new();
    let mut i: usize = 0;
    assert(files_view(out@) =~= segment_files(all.take(0)));
    while i < names.len()
        invariant
            0 <= i <= names@.len(),
            all == names_view(names@),
            files_view(out@) == segment_files(all.take(i as int)),
        decreases names@.len() - i,
    {
        proof {
            assert(all.take(i + 1).drop_last() =~= all.take(i as int));
            assert(all.take(i + 1).last() == names@[i as int]@);
        }
        if let Some(seq) = parse_seg_name(names[i].as_str()) {
            insert_segment(&mut out, seq, names[i].clone());
        }
        i = i + 1;
    }
    assert(all.take(i as int) =~= all);
    out
}

fn insert_segment(out: &mut Vec<(u64, String)>, seq: u64, name: String)
    ensures
        files_view(final(out)@) == insert_file(files_view(old(out)@), (seq, name@)),
{
    let mut pos: usize = out.len();
    let ghost v = files_view(out@);
    let ghost f = (seq, name@);
    assert(v.skip(pos as int) =~= seq![]);
    assert(v.take(pos as int) =~= v);
    assert(insert_file(v, f) =~= insert_file(v.take(pos as int), f) + v.skip(pos as int));
    while pos > 0 && out[pos - 1].0 > seq
        invariant
            0 <= pos <= out@.len(),
            v == files_view(out@),
            f == (seq, name@),
            insert_file(v, f) == insert_file(v.take(pos as int), f) + v.skip(pos as int),
        decreases pos,
    {
        proof {
            let t = v.take(pos as int);
            assert(t.last() == v[pos - 1]);
            assert(t.drop_last() =~= v.take(pos - 1));
            assert(insert_file(v.take(pos - 1), f).push(v[pos - 1]) + v.skip(pos as int)
                =~= insert_file(v.take(pos - 1), f) + v.skip(pos - 1));
        }
        pos = pos - 1;
    }
    proof {
        if pos > 0 {
            assert(v.take(pos as int).last() == v[pos - 1]);
        }
        assert(insert_file(v.take(pos as int), f) == v.take(pos as int).push(f));
    }
    out.insert(pos, (seq, name));
    assert(files_view(out@) =~= v.take(pos as int).push(f) + v.skip(pos as int));
}

/// The segment to append to: the newest, and segment zero where there is none yet.
pub open spec fn newest(files: Seq<(u64, Seq<char>)>) -> Option<(u64, Seq<char>)> {
    if files.len() == 0 {
        None
    } else {
        Some(files.last())
    }
}

/// The segment to append to, out of the listed ones; `None` where segment zero has to be created.
pub fn newest_segment(files: &Vec<(u64, String)>) -> (r: Option<(u64, String)>)
    ensures
        match r {
            Some((seq, name)) => newest(files_view(files@)) == Some((seq, name@)),
            None => newest(files_view(files@)) is None,
        },
{
    if files.len() == 0 {
        return None;
    }
    let last: usize = files.len() - 1;
    assert(files_view(files@).last() == (files@[last as int].0, files@[last as int].1@));
    Some((files[last].0, files[last].1.clone()))
}

/// `checkpoint-`
pub open spec fn snapshot_prefix() -> Seq<u8> {
    seq![99u8, 104u8, 101u8, 99u8, 107u8, 112u8, 111u8, 105u8, 110u8, 116u8, 45u8]
}

/// `.tmp`
pub open spec fn tmp_suffix() -> Seq<u8> {
    seq![46u8, 116u8, 109u8, 112u8]
}

fn snapshot_prefix_bytes() -> (r: Vec<u8>)
    ensures
        r@ == snapshot_prefix(),
{
    let r: Vec<u8> = vec![99, 104, 101, 99, 107, 112, 111, 105, 110, 116, 45];
    assert(r@ =~= snapshot_prefix());
    r
}

fn tmp_suffix_bytes() -> (r: Vec<u8>)
    ensures
        r@ == tmp_suffix(),
{
    let r: Vec<u8> = vec![46, 116, 109, 112];
    assert(r@ =~= tmp_suffix());
    r
}

/// Whether a file is left over from an interrupted checkpoint: its extension is `tmp`, or it is a
/// snapshot that the checkpoint description does not name.
pub open spec fn leftover(name: Seq<u8>, kept: Option<Seq<char>>) -> bool {
    ||| name.len() > 4 && ends_with(name, tmp_suffix())
    ||| valid_utf8(name) && starts_with(name, snapshot_prefix()) && kept != Some(decode_utf8(name))
}

/// Whether a file is swept when the log is opened. The name is given as bytes, since it need not
/// be UTF-8.
pub fn is_leftover(name: &[u8], kept: &Option<String>) -> (r: bool)
    ensures
        r == leftover(
            name@,
            match kept {
                Some(k) => Some(k@),
                None => None,
            },
        ),
{
    if name.len() > 4 && has_suffix(name, tmp_suffix_bytes().as_slice()) {
        return true;
    }
    if !has_prefix(name, snapshot_prefix_bytes().as_slice()) {
        return false;
    }
    match string_from_utf8(name) {
        Ok(s) => match kept {
            Some(k) => !str_eq(s.as_str(), k.as_str()),
            None => true,
        },
        Err(_) => false,
    }
}

/// The name of a snapshot.
pub open spec fn snapshot_file(version: u64, format: Seq<char>) -> Seq<char> {
    "checkpoint-"@ + six_digits(version as nat) + "."@ + format
}

/// The name of a snapshot.
pub fn snapshot_name(version: u64, format: &str) -> (r: String)
    ensures
        r@ == snapshot_file(version, format@),
{
    let mut out = concat("checkpoint-", padded(version).as_str());
    out.append(".");
    out.append(format);
    out
}

/// Whether a file may be deleted once a checkpoint is installed: a segment before the first one
/// that replay needs, or a snapshot other than the installed one that is not being written.
pub open spec fn superseded(name: Seq<char>, installed: Seq<char>, first_segment: u64) -> bool {
    ||| segment_number(name) matches Some(seq) && seq < first_segment
    ||| starts_with(encode_utf8(name), snapshot_prefix()) && name != installed && !ends_with(
        encode_utf8(name),
        tmp_suffix(),
    )
}

/// Whether a file may be deleted once a checkpoint is installed.
pub fn is_superseded(name: &str, installed: &str, first_segment: u64) -> (r: bool)
    ensures
        r == superseded(name@, installed@, first_segment),
{
    if let Some(seq) = parse_seg_name(name) {
        if seq < first_segment {
            return true;
        }
    }
    has_prefix(name.as_bytes(), snapshot_prefix_bytes().as_slice()) && !str_eq(name, installed)
        && !has_suffix(name.as_bytes(), tmp_suffix_bytes().as_slice())
}

/// The installed snapshot and the segments that replay needs are never deleted, neither after a
/// checkpoint nor when the log is opened.
pub proof fn installed_checkpoint_survives(
    version: u64,
    format: Seq<char>,
    seq: u64,
    first_segment: u64,
)
    requires
        !ends_with(encode_utf8(snapshot_file(version, format)), tmp_suffix()),
        seq >= first_segment,
    ensures
        ({
            let installed = snapshot_file(version, format);
            let segment = segment_name(seq);
            &&& !superseded(installed, installed, first_segment)
            &&& !leftover(encode_utf8(installed), Some(installed))
            &&& !superseded(segment, installed, first_segment)
            &&& !leftover(encode_utf8(segment), Some(installed))
        }),
{
    let installed = snapshot_file(version, format);
    let rest = six_digits(version as nat) + "."@ + format;
    assert(installed =~= "checkpoint-"@ + rest);
    reveal_strlit("checkpoint-");
    lemma_ascii_bytes("checkpoint-"@);
    lemma_encode_concat("checkpoint-"@, rest);
    let c = encode_utf8(installed);
    assert(c[0] == 99);
    if segment_number(installed) is Some {
        assert(c.take(4)[0] == 119);
    }
    vstd::utf8::encode_utf8_decode_utf8(installed);
    segment_name_roundtrip(seq);
    let b = encode_utf8(segment_name(seq));
    assert(b.take(4)[0] == 119);
    assert(b[0] == b.take(4)[0]);
    if starts_with(b, snapshot_prefix()) {
        assert(b.take(snapshot_prefix().len() as int)[0] == 99);
    }
    if ends_with(b, tmp_suffix()) {
        assert(b.skip(b.len() - 4)[1] == 116);
    }
}

/// The checkpoint description: it is installed only after the snapshot it names is durable.
#[derive(Debug, PartialEq)]
pub struct CkptMeta {
    pub snapshot: String,
    pub format: String,
    pub version: u64,
    pub tx_counter: u64,
    pub first_segment: u64,
}

pub ghost struct CkptMetaView {
    pub snapshot: Seq<char>,
    pub format: Seq<char>,
    pub version: u64,
    pub tx_counter: u64,
    pub first_segment: u64,
}

pub open spec fn missing(key: Seq<char>) -> Seq<char> {
    "checkpoint.meta: missing '"@ + key + "'"@
}

/// A member that is an unsigned 64-bit number.
pub open spec fn number_member(j: JsonView, key: Seq<char>) -> Option<u64> {
    match member(j, key) {
        Some(JsonView::Int(i)) => if 0 <= i <= u64::MAX {
            Some(i as u64)
        } else {
            None
        },
        _ => None,
    }
}

/// The description that a JSON value writes; the first member that is missing decides the error.
pub open spec fn meta_of(j: JsonView) -> Result<CkptMetaView, Seq<char>> {
    match text_member(j, "snapshot"@) {
        None => Err(missing("snapshot"@)),
        Some(snapshot) => match text_member(j, "format"@) {
            None => Err(missing("format"@)),
            Some(format) => match number_member(j, "version"@) {
                None => Err(missing("version"@)),
                Some(version) => match number_member(j, "tx_counter"@) {
                    None => Err(missing("tx_counter"@)),
                    Some(tx_counter) => match number_member(j, "first_segment"@) {
                        None => Err(missing("first_segment"@)),
                        Some(first_segment) => Ok(
                            CkptMetaView { snapshot, format, version, tx_counter, first_segment },
                        ),
                    },
                },
            },
        },
    }
}

pub open spec fn meta_json(m: CkptMetaView) -> JsonView {
    JsonView::Object(
        seq![
            ("first_segment"@, JsonView::Int(m.first_segment as int)),
            ("format"@, JsonView::Str(m.format)),
            ("snapshot"@, JsonView::Str(m.snapshot)),
            ("tx_counter"@, JsonView::Int(m.tx_counter as int)),
            ("version"@, JsonView::Int(m.version as int)),
        ],
    )
}

/// The description that the bytes of a file write, or what is wrong with them.
pub open spec fn meta_file(bytes: Seq<u8>) -> Result<CkptMetaView, Seq<char>> {
    match json_read(bytes) {
        Ok(j) => meta_of(j),
        Err(e) => Err("checkpoint.meta: "@ + e),
    }
}

fn missing_member(key: &str) -> (r: Corrupt)
    ensures
        r.message@ == missing(key@),
{
    let mut out = concat("checkpoint.meta: missing '", key);
    out.append("'");
    corrupt(out)
}

fn text_of(v: &Json, key: &str) -> (r: Result<String, Corrupt>)
    ensures
        match r {
            Ok(s) => text_member(v@, key@) == Some(s@),
            Err(e) => text_member(v@, key@) is None && e.message@ == missing(key@),
        },
{
    match v.get_str(key) {
        Some(s) => Ok(s.clone()),
        None => Err(missing_member(key)),
    }
}

fn number_of(v: &Json, key: &str) -> (r: Result<u64, Corrupt>)
    ensures
        match r {
            Ok(n) => number_member(v@, key@) == Some(n),
            Err(e) => number_member(v@, key@) is None && e.message@ == missing(key@),
        },
{
    match v.get(key) {
        Some(Json::Int(i)) => if 0 <= *i && *i <= 0xffff_ffff_ffff_ffff {
            Ok(*i as u64)
        } else {
            Err(missing_member(key))
        },
        _ => Err(missing_member(key)),
    }
}

impl CkptMeta {
    pub open spec fn view(&self) -> CkptMetaView {
        CkptMetaView {
            snapshot: self.snapshot@,
            format: self.format@,
            version: self.version,
            tx_counter: self.tx_counter,
            first_segment: self.first_segment,
        }
    }

    /// Reads the parsed description file.
    pub fn load(v: &Json) -> (r: Result<CkptMeta, Corrupt>)
        ensures
            match r {
                Ok(m) => meta_of(v@) == Ok::<CkptMetaView, Seq<char>>(m@),
                Err(e) => meta_of(v@) == Err::<CkptMetaView, Seq<char>>(e.message@),
            },
    {
        let snapshot = match text_of(v, "snapshot") {
            Ok(x) => x,
            Err(e) => return Err(e),
        };
        let format = match text_of(v, "format") {
            Ok(x) => x,
            Err(e) => return Err(e),
        };
        let version = match number_of(v, "version") {
            Ok(x) => x,
            Err(e) => return Err(e),
        };
        let tx_counter = match number_of(v, "tx_counter") {
            Ok(x) => x,
            Err(e) => return Err(e),
        };
        match number_of(v, "first_segment") {
            Ok(first_segment) => Ok(
                CkptMeta { snapshot, format, version, tx_counter, first_segment },
            ),
            Err(e) => Err(e),
        }
    }

    /// Reads the bytes of the description file. Bytes that are no JSON are corrupt.
    pub fn load_bytes(bytes: &[u8]) -> (r: Result<CkptMeta, Corrupt>)
        ensures
            match r {
                Ok(m) => meta_file(bytes@) == Ok::<CkptMetaView, Seq<char>>(m@),
                Err(e) => meta_file(bytes@) == Err::<CkptMetaView, Seq<char>>(e.message@),
            },
    {
        match json_from_bytes(bytes) {
            Ok(j) => CkptMeta::load(&j),
            Err(e) => Err(corrupt(concat("checkpoint.meta: ", e.as_str()))),
        }
    }

    /// Reads the description file, which is missing as long as no checkpoint was installed.
    pub fn load_file(file: Option<&[u8]>) -> (r: Result<Option<CkptMeta>, Corrupt>)
        ensures
            match file {
                None => r matches Ok(m) && m is None,
                Some(bytes) => match r {
                    Ok(m) => m is Some && meta_file(bytes@) == Ok::<CkptMetaView, Seq<char>>(m->0@),
                    Err(e) => meta_file(bytes@) == Err::<CkptMetaView, Seq<char>>(e.message@),
                },
            },
    {
        match file {
            None => Ok(None),
            Some(bytes) => match CkptMeta::load_bytes(bytes) {
                Ok(m) => Ok(Some(m)),
                Err(e) => Err(e),
            },
        }
    }

    /// The text of the description file. What is stored loads as what it was.
    pub fn store_text(&self) -> (r: String)
        ensures
            r@ == json_text(meta_json(self@)),
            meta_file(encode_utf8(r@)) == Ok::<CkptMetaView, Seq<char>>(self@),
    {
        proof {
            lemma_meta_record(self@);
            meta_roundtrip(self@);
        }
        json_to_text(&self.store())
    }

    /// The description as the JSON value that is stored.
    pub fn store(&self) -> (r: Json)
        ensures
            r@ == meta_json(self@),
    {
        let mut m = object();
        put(&mut m, "first_segment", Json::Int(self.first_segment as i128));
        put(&mut m, "format", Json::Str(self.format.clone()));
        put(&mut m, "snapshot", Json::Str(self.snapshot.clone()));
        put(&mut m, "tx_counter", Json::Int(self.tx_counter as i128));
        put(&mut m, "version", Json::Int(self.version as i128));
        assert(meta_json(self@) matches JsonView::Object(w) && crate::json::members_view(m@) =~= w);
        Json::Object(m)
    }
}

/// A stored description loads as what was stored.
pub proof fn meta_roundtrip(m: CkptMetaView)
    ensures
        meta_of(meta_json(m)) == Ok::<CkptMetaView, Seq<char>>(m),
{
    reveal_strlit("snapshot");
    reveal_strlit("format");
    reveal_strlit("version");
    reveal_strlit("tx_counter");
    reveal_strlit("first_segment");
    reveal_with_fuel(crate::json::member_from, 6);
    assert("snapshot"@.len() == 8 && "format"@.len() == 6 && "version"@.len() == 7
        && "tx_counter"@.len() == 10 && "first_segment"@.len() == 13);
    if let JsonView::Object(w) = meta_json(m) {
        assert(w[0].0.len() == 13 && w[1].0.len() == 6 && w[2].0.len() == 8 && w[3].0.len() == 10
            && w[4].0.len() == 7);
    }
}

/// A description is stored as a record.
proof fn lemma_meta_record(m: CkptMetaView)
    ensures
        is_record(meta_json(m)),
{
    reveal_strlit("snapshot");
    reveal_strlit("format");
    reveal_strlit("version");
    reveal_strlit("tx_counter");
    reveal_strlit("first_segment");
    lemma_ascii_bytes("snapshot"@);
    lemma_ascii_bytes("format"@);
    lemma_ascii_bytes("version"@);
    lemma_ascii_bytes("tx_counter"@);
    lemma_ascii_bytes("first_segment"@);
    let w = meta_json(m)->Object_0;
    let names = seq!["first_segment"@, "format"@, "snapshot"@, "tx_counter"@, "version"@];
    assert(w[0].0 == names[0] && w[1].0 == names[1] && w[2].0 == names[2] && w[3].0 == names[3]
        && w[4].0 == names[4]);
    let a = encode_utf8("first_segment"@);
    let b = encode_utf8("format"@);
    assert(a[0] == 102 && b[0] == 102 && a[1] == 105 && b[1] == 111);
    assert(a.drop_first()[0] == 105 && b.drop_first()[0] == 111);
    assert(path_lt(a.drop_first(), b.drop_first()));
    assert(path_lt(a, b));
    assert(encode_utf8("snapshot"@)[0] == 115);
    assert(encode_utf8("tx_counter"@)[0] == 116);
    assert(encode_utf8("version"@)[0] == 118);
    assert forall|i: int, k: int| 0 <= i < k < w.len() implies path_lt(
        encode_utf8((#[trigger] w[i]).0),
        encode_utf8((#[trigger] w[k]).0),
    ) by {
        assert(i == 0 || i == 1 || i == 2 || i == 3);
        assert(k == 1 || k == 2 || k == 3 || k == 4);
    }
}

} // verus!
