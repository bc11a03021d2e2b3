//! The event stream: its frames, its filters, and when deltas are computed.
use vstd::prelude::*;

use crate::json::{json_text, json_to_text, object, put, Json, JsonView};
use crate::paths::PathMap;
use crate::text::{concat, str_eq};
use crate::transaction::{text_array, texts_view, Event};

verus! {

/// A frame of the stream.
pub open spec fn frame_text(event: Seq<char>, data: Seq<char>) -> Seq<char> {
    "event: "@ + event + "\ndata: "@ + data + "\n\n"@
}

/// A frame of the stream, given the rendered data.
pub fn frame(event: &str, data: &str) -> (r: String)
    ensures
        r@ == frame_text(event@, data@),
{
    let mut out = concat("event: ", event);
    out.append("\ndata: ");
    out.append(data);
    out.append("\n\n");
    out
}

/// Whether a client gets an event: deltas only where they are wanted, events of a transaction only
/// where no other one was asked for. Events of no transaction pass every filter.
pub open spec fn passes_spec(ev: Event, tx_filter: Option<Seq<char>>, want_deltas: bool) -> bool {
    &&& ev is Delta ==> want_deltas
    &&& match (tx_filter, ev.id()) {
        (Some(want), Some(is)) => want == is,
        _ => true,
    }
}

/// Whether a client gets an event.
pub fn passes(ev: &Event, tx_filter: &Option<String>, want_deltas: bool) -> (r: bool)
    ensures
        r == passes_spec(
            *ev,
            match tx_filter {
                Some(t) => Some(t@),
                None => None,
            },
            want_deltas,
        ),
{
    match ev {
        Event::Delta { .. } => if !want_deltas {
            return false;
        },
        _ => {},
    }
    match (tx_filter, ev.tx_id()) {
        (Some(want), Some(is)) => str_eq(want.as_str(), is),
        _ => true,
    }
}

/// An event of the stream as it is sent.
pub fn json_frame(event: &str, data: &Json) -> (r: String)
    ensures
        r@ == frame_text(event@, json_text(data@)),
{
    frame(event, json_to_text(data).as_str())
}

pub open spec fn hello_json(version: u64, count: usize, active: Seq<Seq<char>>) -> JsonView {
    JsonView::Object(
        seq![
            ("version"@, JsonView::Int(version as int)),
            ("count"@, JsonView::Int(count as int)),
            ("active_txs"@, text_array(active)),
        ],
    )
}

/// What a client is told on connecting.
pub fn hello(version: u64, count: usize, active: &Vec<String>) -> (r: Json)
    ensures
        r@ == hello_json(version, count, texts_view(active@)),
{
    let mut m = object();
    put(&mut m, "version", Json::Int(version as i128));
    put(&mut m, "count", Json::Int(count as i128));
    put(&mut m, "active_txs", crate::transaction::text_array_json(active));
    assert(hello_json(version, count, texts_view(active@)) matches JsonView::Object(w)
        && crate::json::members_view(m@) =~= w);
    Json::Object(m)
}

/// What a client is told that fell behind.
pub fn lagged(skipped: u64) -> (r: Json)
    ensures
        r@ == JsonView::Object(seq![("skipped"@, JsonView::Int(skipped as int))]),
{
    let mut m = object();
    put(&mut m, "skipped", Json::Int(skipped as i128));
    assert(crate::json::members_view(m@) =~= seq![("skipped"@, JsonView::Int(skipped as int))]);
    Json::Object(m)
}

/// The snapshot that was observed last.
pub struct DeltaTask {
    version: u64,
    btm: PathMap<u64>,
}

/// What a newer snapshot has that an older one lacks, and the other way round.
pub struct Delta {
    pub added: PathMap<u64>,
    pub removed: PathMap<u64>,
}

/// What is shown of the step from one snapshot to another.
pub open spec fn delta_shown(
    older_version: u64,
    older: Map<Seq<u8>, u64>,
    delta_subs: usize,
    version: u64,
    newer: Map<Seq<u8>, u64>,
    r: Option<Delta>,
) -> bool {
    match r {
        Some(d) => delta_subs != 0 && version != older_version && d.added@ == newer.remove_keys(
            older.dom(),
        ) && d.removed@ == older.remove_keys(newer.dom()),
        None => delta_subs == 0 || version == older_version,
    }
}

impl DeltaTask {
    pub closed spec fn last_version(&self) -> u64 {
        self.version
    }

    pub closed spec fn last_map(&self) -> Map<Seq<u8>, u64> {
        self.btm@
    }

    /// Starts with the snapshot at hand.
    pub fn new(version: u64, btm: PathMap<u64>) -> (r: Self)
        ensures
            r.last_version() == version,
            r.last_map() == btm@,
    {
        DeltaTask { version, btm }
    }

    /// A snapshot was published. It is compared with the one observed before it only if a client
    /// wants deltas and the version has changed; in any case it is the one to compare with next.
    pub fn observe(&mut self, delta_subs: usize, version: u64, btm: PathMap<u64>) -> (r: Option<
        Delta,
    >)
        ensures
            final(self).last_version() == version,
            final(self).last_map() == btm@,
            delta_shown(
                old(self).last_version(),
                old(self).last_map(),
                delta_subs,
                version,
                btm@,
                r,
            ),
    {
        let r: Option<Delta> = if delta_subs == 0 || version == self.version {
            None
        } else {
            Some(Delta { added: btm.subtract(&self.btm), removed: self.btm.subtract(&btm) })
        };
        self.version = version;
        self.btm = btm;
        r
    }
}

/// Taking out what was removed and putting in what was added leads from the older snapshot's
/// expressions to the newer one's; nothing is both added and removed.
pub proof fn delta_leads_to_the_newer(older: Map<Seq<u8>, u64>, newer: Map<Seq<u8>, u64>)
    ensures
        ({
            let added = newer.remove_keys(older.dom());
            let removed = older.remove_keys(newer.dom());
            &&& older.dom().difference(removed.dom()).union(added.dom()) == newer.dom()
            &&& added.dom().disjoint(removed.dom())
        }),
{
    let added = newer.remove_keys(older.dom());
    let removed = older.remove_keys(newer.dom());
    assert(older.dom().difference(removed.dom()).union(added.dom()) =~= newer.dom());
}

/// A client without a filter gets every event but unwanted deltas; a client with one gets no
/// event of another transaction.
pub proof fn filter_is_exact(ev: Event, want: Seq<char>, want_deltas: bool)
    ensures
        passes_spec(ev, None, true),
        passes_spec(ev, None, false) == !(ev is Delta),
        ev.id() is None && !(ev is Delta) ==> passes_spec(ev, Some(want), want_deltas),
        ev.id() matches Some(id) && id != want ==> !passes_spec(ev, Some(want), want_deltas),
{
}

} // verus!
