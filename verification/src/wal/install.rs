//! Installing a checkpoint: the order of steps that keeps a valid checkpoint at every moment.
use vstd::prelude::*;
use vstd::utf8::encode_utf8;

use crate::bytes::ends_with;
use crate::json::json_text;
use crate::text::{concat, lemma_ascii_bytes, lemma_encode_concat};
use crate::transaction::texts_view;
use crate::wal::files::{
    installed_checkpoint_survives, is_superseded, meta_file, meta_json, snapshot_file, snapshot_name, superseded,
    tmp_suffix, CkptMeta, CkptMetaView,
};
use crate::wal::segments::{segment_name, segment_name_roundtrip};
use crate::wal::writer::CkptJob;

verus! {

/// What to do next with the files of the log.
pub enum InstallAction {
    /// Write the snapshot to a file of this name, and sync it.
    WriteSnapshot(String),
    /// Give a file another name.
    Rename { from: String, to: String },
    /// Sync the directory.
    SyncDir,
    /// Write the text of the description to a temporary file, and sync it.
    WriteMeta(String),
    /// Put the temporary description in the place of the description.
    SwapMeta,
    /// List the names in the directory.
    List,
    /// Delete a file; whether that succeeds does not matter.
    Remove(String),
    /// The checkpoint of this name is installed.
    Finished(String),
    /// The attempt has failed; the checkpoint that was there stands.
    GaveUp(String),
}

/// What came of it.
pub enum InstallEvent {
    Done,
    Failed(String),
    Listed(Vec<String>),
}

/// How far an installation is.
#[derive(Clone, Copy, Debug, PartialEq, Eq, Structural)]
pub enum InstallStage {
    Writing,
    Renaming,
    SyncingDir,
    StoringMeta,
    SwappingMeta,
    SyncingMeta,
    Listing,
    Removing,
    Ended,
}

/// An installation that is under way.
pub struct Install {
    job: CkptJob,
    name: String,
    stage: InstallStage,
    doomed: Vec<String>,
    at: usize,
}

/// The mathematical value of an `Install`.
pub ghost struct InstallView {
    pub version: u64,
    pub tx_counter: u64,
    pub format: Seq<char>,
    pub first_segment: u64,
    pub stage: InstallStage,
    /// The files to delete, and how many of them are dealt with.
    pub doomed: Seq<Seq<char>>,
    pub at: int,
}

impl InstallView {
    /// The name of the snapshot.
    pub open spec fn name(self) -> Seq<char> {
        snapshot_file(self.version, self.format)
    }

    pub open spec fn tmp_name(self) -> Seq<char> {
        self.name() + ".tmp"@
    }

    /// The description to install.
    pub open spec fn meta(self) -> CkptMetaView {
        CkptMetaView {
            snapshot: self.name(),
            format: self.format,
            version: self.version,
            tx_counter: self.tx_counter,
            first_segment: self.first_segment,
        }
    }
}

pub ghost enum InstallActionView {
    WriteSnapshot(Seq<char>),
    Rename(Seq<char>, Seq<char>),
    SyncDir,
    WriteMeta(CkptMetaView),
    SwapMeta,
    List,
    Remove(Seq<char>),
    Finished(Seq<char>),
    GaveUp(Seq<char>),
}

/// Whether an action is the one that a view describes.
pub open spec fn acts_as(a: InstallAction, v: InstallActionView) -> bool {
    match a {
        InstallAction::WriteSnapshot(n) => v == InstallActionView::WriteSnapshot(n@),
        InstallAction::Rename { from, to } => v == InstallActionView::Rename(from@, to@),
        InstallAction::SyncDir => v == InstallActionView::SyncDir,
        InstallAction::WriteMeta(t) => v matches InstallActionView::WriteMeta(m) && t@ == json_text(
            meta_json(m),
        ) && meta_file(encode_utf8(t@)) == Ok::<CkptMetaView, Seq<char>>(m),
        InstallAction::SwapMeta => v == InstallActionView::SwapMeta,
        InstallAction::List => v == InstallActionView::List,
        InstallAction::Remove(n) => v == InstallActionView::Remove(n@),
        InstallAction::Finished(n) => v == InstallActionView::Finished(n@),
        InstallAction::GaveUp(e) => v == InstallActionView::GaveUp(e@),
    }
}

/// The listed files that the checkpoint makes obsolete.
pub open spec fn obsolete_files(
    names: Seq<Seq<char>>,
    installed: Seq<char>,
    first_segment: u64,
) -> Seq<Seq<char>>
    decreases names.len(),
{
    if names.len() == 0 {
        seq![]
    } else {
        let front = obsolete_files(names.drop_last(), installed, first_segment);
        if superseded(names.last(), installed, first_segment) {
            front.push(names.last())
        } else {
            front
        }
    }
}

pub ghost enum InstallEventView {
    Done,
    Failed(Seq<char>),
    Listed(Seq<Seq<char>>),
}

impl InstallEvent {
    pub open spec fn view(&self) -> InstallEventView {
        match self {
            InstallEvent::Done => InstallEventView::Done,
            InstallEvent::Failed(e) => InstallEventView::Failed(e@),
            InstallEvent::Listed(names) => InstallEventView::Listed(texts_view(names@)),
        }
    }
}

/// What an installation wants at its stage.
pub open spec fn wanted(i: InstallView) -> InstallActionView {
    match i.stage {
        InstallStage::Writing => InstallActionView::WriteSnapshot(i.tmp_name()),
        InstallStage::Renaming => InstallActionView::Rename(i.tmp_name(), i.name()),
        InstallStage::SyncingDir => InstallActionView::SyncDir,
        InstallStage::StoringMeta => InstallActionView::WriteMeta(i.meta()),
        InstallStage::SwappingMeta => InstallActionView::SwapMeta,
        InstallStage::SyncingMeta => InstallActionView::SyncDir,
        InstallStage::Listing => InstallActionView::List,
        InstallStage::Removing => if 0 <= i.at < i.doomed.len() {
            InstallActionView::Remove(i.doomed[i.at])
        } else {
            InstallActionView::Finished(i.name())
        },
        InstallStage::Ended => InstallActionView::Finished(i.name()),
    }
}

/// The installation after an event. A failure ends it, but for the deletion of a file.
pub open spec fn after_event(i: InstallView, e: InstallEventView) -> (
    InstallView,
    InstallActionView,
) {
    match (i.stage, e) {
        (InstallStage::Removing, _) => {
            let next = InstallView { at: i.at + 1, ..i };
            (next, wanted(next))
        },
        (_, InstallEventView::Failed(text)) => (
            InstallView { stage: InstallStage::Ended, ..i },
            InstallActionView::GaveUp(text),
        ),
        (InstallStage::Listing, InstallEventView::Listed(names)) => {
            let next = InstallView {
                stage: InstallStage::Removing,
                doomed: obsolete_files(names, i.name(), i.first_segment),
                at: 0,
                ..i
            };
            (next, wanted(next))
        },
        (stage, _) => {
            let next = InstallView { stage: next_stage(stage), ..i };
            (next, wanted(next))
        },
    }
}

pub open spec fn next_stage(s: InstallStage) -> InstallStage {
    match s {
        InstallStage::Writing => InstallStage::Renaming,
        InstallStage::Renaming => InstallStage::SyncingDir,
        InstallStage::SyncingDir => InstallStage::StoringMeta,
        InstallStage::StoringMeta => InstallStage::SwappingMeta,
        InstallStage::SwappingMeta => InstallStage::SyncingMeta,
        InstallStage::SyncingMeta => InstallStage::Listing,
        other => other,
    }
}

impl Install {
    pub closed spec fn view(&self) -> InstallView {
        InstallView {
            version: self.job.version,
            tx_counter: self.job.tx_counter,
            format: self.job.format@,
            first_segment: self.job.first_segment,
            stage: self.stage,
            doomed: texts_view(self.doomed@),
            at: self.at as int,
        }
    }

    #[verifier::type_invariant]
    closed spec fn well_formed(self) -> bool {
        self.name@ == snapshot_file(self.job.version, self.job.format@) && self.at
            <= self.doomed@.len()
    }

    /// Starts to install a checkpoint.
    pub fn start(job: CkptJob) -> (r: (Install, InstallAction))
        ensures
            r.0@ == (InstallView {
                version: job.version,
                tx_counter: job.tx_counter,
                format: job.format@,
                first_segment: job.first_segment,
                stage: InstallStage::Writing,
                doomed: seq![],
                at: 0,
            }),
            acts_as(r.1, wanted(r.0@)),
    {
        let name = snapshot_name(job.version, job.format.as_str());
        let tmp = concat(name.as_str(), ".tmp");
        let i = Install { job, name, stage: InstallStage::Writing, doomed: Vec::new(), at: 0 };
        assert(i@.doomed =~= seq![]);
        (i, InstallAction::WriteSnapshot(tmp))
    }

    /// What is wanted at the current stage.
    fn want(&self) -> (r: InstallAction)
        ensures
            acts_as(r, wanted(self@)),
    {
        proof {
            use_type_invariant(self);
        }
        match self.stage {
            InstallStage::Writing => InstallAction::WriteSnapshot(
                concat(self.name.as_str(), ".tmp"),
            ),
            InstallStage::Renaming => InstallAction::Rename {
                from: concat(self.name.as_str(), ".tmp"),
                to: self.name.as_str().to_owned(),
            },
            InstallStage::SyncingDir => InstallAction::SyncDir,
            InstallStage::StoringMeta => {
                let meta = CkptMeta {
                    snapshot: self.name.as_str().to_owned(),
                    format: self.job.format.as_str().to_owned(),
                    version: self.job.version,
                    tx_counter: self.job.tx_counter,
                    first_segment: self.job.first_segment,
                };
                InstallAction::WriteMeta(meta.store_text())
            },
            InstallStage::SwappingMeta => InstallAction::SwapMeta,
            InstallStage::SyncingMeta => InstallAction::SyncDir,
            InstallStage::Listing => InstallAction::List,
            InstallStage::Removing => if self.at < self.doomed.len() {
                InstallAction::Remove(self.doomed[self.at].as_str().to_owned())
            } else {
                InstallAction::Finished(self.name.as_str().to_owned())
            },
            InstallStage::Ended => InstallAction::Finished(self.name.as_str().to_owned()),
        }
    }

    /// Takes what came of the last action, and says what is next.
    pub fn step(&mut self, event: InstallEvent) -> (r: InstallAction)
        requires
            old(self)@.stage == InstallStage::Removing ==> old(self)@.at < old(self)@.doomed.len(),
            old(self)@.stage != InstallStage::Ended,
        ensures
            final(self)@ == after_event(old(self)@, event@).0,
            acts_as(r, after_event(old(self)@, event@).1),
    {
        proof {
            use_type_invariant(&*self);
        }
        if let InstallStage::Removing = self.stage {
            let n = self.doomed.len();
            assert(self.at < n);
            self.at = self.at + 1;
            return self.want();
        }
        match event {
            InstallEvent::Failed(text) => {
                self.stage = InstallStage::Ended;
                return InstallAction::GaveUp(text);
            },
            InstallEvent::Listed(names) => {
                if let InstallStage::Listing = self.stage {
                    let doomed = obsolete(&names, self.name.as_str(), self.job.first_segment);
                    self.at = 0;
                    self.doomed = doomed;
                    self.stage = InstallStage::Removing;
                    return self.want();
                }
            },
            InstallEvent::Done => {},
        }
        let next: InstallStage = match self.stage {
            InstallStage::Writing => InstallStage::Renaming,
            InstallStage::Renaming => InstallStage::SyncingDir,
            InstallStage::SyncingDir => InstallStage::StoringMeta,
            InstallStage::StoringMeta => InstallStage::SwappingMeta,
            InstallStage::SwappingMeta => InstallStage::SyncingMeta,
            InstallStage::SyncingMeta => InstallStage::Listing,
            other => other,
        };
        self.stage = next;
        self.want()
    }
}

fn obsolete(names: &Vec<String>, installed: &str, first_segment: u64) -> (r: Vec<String>)
    ensures
        texts_view(r@) == obsolete_files(texts_view(names@), installed@, first_segment),
{
    let ghost all = texts_view(names@);
    let mut r: Vec<String> = Vec::new();
    let mut i: usize = 0;
    assert(texts_view(r@) =~= obsolete_files(all.take(0), installed@, first_segment));
    while i < names.len()
        invariant
            i <= names@.len(),
            all == texts_view(names@),
            texts_view(r@) == obsolete_files(all.take(i as int), installed@, first_segment),
        decreases names@.len() - i,
    {
        let ghost before = texts_view(r@);
        proof {
            assert(all.take(i + 1).drop_last() =~= all.take(i as int));
            assert(all.take(i + 1).last() == names@[i as int]@);
        }
        if is_superseded(names[i].as_str(), installed, first_segment) {
            r.push(names[i].as_str().to_owned());
            assert(texts_view(r@) =~= before.push(names@[i as int]@));
        }
        i = i + 1;
    }
    assert(all.take(i as int) =~= all);
    r
}

/// The files of the log as a crash leaves them: the names, and the description if there is one.
pub ghost struct Disk {
    pub names: Set<Seq<char>>,
    pub meta: Option<CkptMetaView>,
}

/// What an action does to the files.
pub open spec fn applied(a: InstallActionView, i: InstallView, d: Disk) -> Disk {
    match a {
        InstallActionView::WriteSnapshot(n) => Disk { names: d.names.insert(n), ..d },
        InstallActionView::Rename(from, to) => Disk {
            names: d.names.remove(from).insert(to),
            ..d
        },
        InstallActionView::SwapMeta => Disk { meta: Some(i.meta()), ..d },
        InstallActionView::Remove(n) => Disk { names: d.names.remove(n), ..d },
        _ => d,
    }
}

/// Whether recovery can start: the snapshot that the description names is there, and so are all
/// segments from the first one on that it needs, of those that were there at the start.
pub open spec fn recoverable(d: Disk, start: Disk) -> bool {
    match d.meta {
        Some(m) => d.names.contains(m.snapshot) && forall|seq: u64|
            seq >= m.first_segment && start.names.contains(#[trigger] segment_name(seq))
                ==> d.names.contains(segment_name(seq)),
        None => forall|seq: u64|
            start.names.contains(#[trigger] segment_name(seq)) ==> d.names.contains(
                segment_name(seq),
            ),
    }
}

/// What holds of the files at each stage.
pub open spec fn install_inv(i: InstallView, d: Disk, start: Disk) -> bool {
    &&& recoverable(d, start)
    &&& !ends_with(encode_utf8(i.name()), tmp_suffix())
    &&& i.stage != InstallStage::Removing ==> forall|n: Seq<char>|
        start.names.contains(n) && n != i.tmp_name() ==> #[trigger] d.names.contains(n)
    &&& match i.stage {
        InstallStage::Writing => d == start,
        InstallStage::Renaming => d.meta == start.meta && d.names.contains(i.tmp_name()),
        InstallStage::SyncingDir | InstallStage::StoringMeta | InstallStage::SwappingMeta => d.meta
            == start.meta && d.names.contains(i.name()),
        InstallStage::SyncingMeta | InstallStage::Listing => d.meta == Some(i.meta()),
        InstallStage::Removing => d.meta == Some(i.meta()) && 0 <= i.at <= i.doomed.len()
            && forall|k: int|
            0 <= k < i.doomed.len() ==> superseded(
                #[trigger] i.doomed[k],
                i.name(),
                i.first_segment,
            ),
        InstallStage::Ended => d.meta == start.meta || d.meta == Some(i.meta()),
    }
}

/// A crash at any point of an installation leaves the old checkpoint or the new one, whole: what
/// holds at a stage holds after the action that the stage wants and the event that follows, and
/// the swap of the description is the one moment at which the new checkpoint takes over.
pub proof fn crash_leaves_a_whole_checkpoint(
    i: InstallView,
    d: Disk,
    start: Disk,
    e: InstallEventView,
)
    requires
        install_inv(i, d, start),
        i.stage != InstallStage::Ended,
        i.stage == InstallStage::Removing ==> i.at < i.doomed.len(),
        start.meta matches Some(m) ==> m.snapshot != i.tmp_name(),
    ensures
        recoverable(d, start),
        ({
            let after = applied(wanted(i), i, d);
            &&& recoverable(after, start)
            &&& !(e is Failed) ==> install_inv(after_event(i, e).0, after, start)
            &&& e is Failed ==> install_inv(after_event(i, e).0, d, start)
            &&& after.meta != d.meta ==> i.stage == InstallStage::SwappingMeta && after.meta
                == Some(i.meta())
        }),
{
    let a = wanted(i);
    let after = applied(a, i, d);
    assert forall|seq: u64| #[trigger] segment_name(seq) != i.tmp_name() by {
        lemma_segments_are_not_temporary(i, seq);
    }
    if i.stage == InstallStage::SwappingMeta {
        assert(recoverable(after, start)) by {
            assert(after.names.contains(i.name()));
            assert forall|seq: u64|
                seq >= i.first_segment && start.names.contains(#[trigger] segment_name(seq))
                    implies after.names.contains(segment_name(seq)) by {}
        }
    }
    if i.stage == InstallStage::Removing {
        let gone = i.doomed[i.at];
        assert(superseded(gone, i.name(), i.first_segment));
        installed_checkpoint_survives(i.version, i.format, i.first_segment, i.first_segment);
        assert(gone != i.name());
        assert forall|seq: u64|
            seq >= i.first_segment && start.names.contains(#[trigger] segment_name(seq))
                implies after.names.contains(segment_name(seq)) by {
            installed_checkpoint_survives(i.version, i.format, seq, i.first_segment);
            assert(gone != segment_name(seq));
        }
    }
    if i.stage == InstallStage::Listing {
        if let InstallEventView::Listed(names) = e {
            lemma_obsolete_are_superseded(names, i.name(), i.first_segment);
        }
    }
}

proof fn lemma_segments_are_not_temporary(i: InstallView, seq: u64)
    ensures
        segment_name(seq) != i.tmp_name(),
{
    segment_name_roundtrip(seq);
    reveal_strlit(".tmp");
    lemma_ascii_bytes(".tmp"@);
    lemma_encode_concat(i.name(), ".tmp"@);
    let b = encode_utf8(segment_name(seq));
    let c = encode_utf8(i.tmp_name());
    assert(b.skip(b.len() - 4)[1] == 108);
    assert(c[c.len() - 3] == encode_utf8(".tmp"@)[1]);
    assert(b[b.len() - 3] == 108);
}

proof fn lemma_obsolete_are_superseded(
    names: Seq<Seq<char>>,
    installed: Seq<char>,
    first_segment: u64,
)
    ensures
        forall|k: int|
            0 <= k < obsolete_files(names, installed, first_segment).len() ==> superseded(
                #[trigger] obsolete_files(names, installed, first_segment)[k],
                installed,
                first_segment,
            ),
    decreases names.len(),
{
    if names.len() > 0 {
        lemma_obsolete_are_superseded(names.drop_last(), installed, first_segment);
        let front = obsolete_files(names.drop_last(), installed, first_segment);
        let all = obsolete_files(names, installed, first_segment);
        assert forall|k: int| 0 <= k < all.len() implies superseded(
            #[trigger] all[k],
            installed,
            first_segment,
        ) by {
            if k < front.len() {
                assert(all[k] == front[k]);
            }
        }
    }
}

} // verus!
