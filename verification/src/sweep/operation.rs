//! Operations on sampled atoms.
use vstd::prelude::*;

use crate::bytes::starts_with;
use crate::paths::{path_lt_irreflexive, PathMap};
use crate::sweep::weights::{agg_w, weight_change_moves_up};
use crate::text::{concat, dec_text, str_eq, u64_text};

verus! {

/// What an operation does to an atom.
#[derive(Clone, Copy, Debug, PartialEq, Eq, Structural)]
pub enum Transform {
    /// Lowers the atom's weight.
    Decay,
    /// Leaves the atom as it is and reports it.
    LogAtom,
}

/// An operation on the atoms of a map. The built-in ones are `Operation`s; users add their own.
pub trait TransformOp {
    /// The name of the operation.
    spec fn called(&self) -> Seq<char>;

    /// Whether the operation, applied to an atom, may lead from some weights to others.
    spec fn leads(
        &self,
        before: Map<Seq<u8>, u64>,
        atom: Seq<u8>,
        after: Map<Seq<u8>, u64>,
    ) -> bool;

    /// The name of the operation.
    fn name(&self) -> (r: &str)
        ensures
            r@ == self.called(),
    ;

    /// Applies the operation to an atom.
    fn apply(&self, map: &mut PathMap<u64>, atom_path: &[u8])
        ensures
            self.leads(old(map)@, atom_path@, final(map)@),
    ;
}

/// A named operation.
#[derive(Clone, Copy, Debug)]
pub struct Operation {
    pub name: &'static str,
    pub transform: Transform,
}

/// The weight after one decay: a tenth less, and at least one less until it is zero.
pub open spec fn decayed(w: u64) -> u64 {
    if w == 0 {
        0
    } else if w < 10 {
        (w - 1) as u64
    } else {
        (w - w / 10) as u64
    }
}

/// Lowers the weight of an atom, if it is in the map.
pub fn decay(map: &mut PathMap<u64>, atom_path: &[u8])
    ensures
        final(map)@ == if old(map)@.contains_key(atom_path@) {
            old(map)@.insert(atom_path@, decayed(old(map)@[atom_path@]))
        } else {
            old(map)@
        },
        final(map).paths() == old(map).paths(),
{
    match map.get(atom_path) {
        Some(w) => {
            if w > 0 {
                let dec: u64 = if w / 10 > 1 { w / 10 } else { 1 };
                let _ = map.insert(atom_path, w - dec);
            } else {
                assert(map@.insert(atom_path@, 0) =~= map@);
            }
        },
        None => {},
    }
}

/// The report on an atom.
pub open spec fn atom_report(shown: Seq<char>, weight: nat) -> Seq<char> {
    "sweep atom: "@ + shown + " weight="@ + dec_text(weight)
}

/// The report on an atom, given how the atom is shown.
pub fn log_atom(map: &PathMap<u64>, atom_path: &[u8], shown: &str) -> (r: String)
    ensures
        r@ == atom_report(
            shown@,
            if map@.contains_key(atom_path@) {
                map@[atom_path@] as nat
            } else {
                0
            },
        ),
{
    let w: u64 = match map.get(atom_path) {
        Some(w) => w,
        None => 0,
    };
    let mut out = concat("sweep atom: ", shown);
    out.append(" weight=");
    out.append(u64_text(w).as_str());
    out
}

impl Operation {
    /// An operation with a name.
    pub fn new(name: &'static str, transform: Transform) -> (r: Self)
        ensures
            r.name@ == name@,
            r.transform == transform,
    {
        Operation { name, transform }
    }

    /// The built-in importance decay.
    pub fn decay() -> (r: Self)
        ensures
            r.name@ == "decay"@,
            r.transform == Transform::Decay,
    {
        Operation::new("decay", Transform::Decay)
    }

    /// The built-in report of an atom and its weight.
    pub fn log_atom() -> (r: Self)
        ensures
            r.name@ == "log-atom"@,
            r.transform == Transform::LogAtom,
    {
        Operation::new("log-atom", Transform::LogAtom)
    }

    /// The report that the operation makes of an atom, where it makes one, given how the atom is
    /// shown.
    pub fn report(&self, map: &PathMap<u64>, atom_path: &[u8], shown: &str) -> (r: Option<String>)
        ensures
            match self.transform {
                Transform::Decay => r is None,
                Transform::LogAtom => r matches Some(t) && t@ == atom_report(
                    shown@,
                    if map@.contains_key(atom_path@) {
                        map@[atom_path@] as nat
                    } else {
                        0
                    },
                ),
            },
    {
        match self.transform {
            Transform::Decay => None,
            Transform::LogAtom => Some(log_atom(map, atom_path, shown)),
        }
    }
}

/// The weights after an operation on an atom.
pub open spec fn transformed(
    transform: Transform,
    before: Map<Seq<u8>, u64>,
    atom: Seq<u8>,
) -> Map<Seq<u8>, u64> {
    match transform {
        Transform::Decay => if before.contains_key(atom) {
            before.insert(atom, decayed(before[atom]))
        } else {
            before
        },
        Transform::LogAtom => before,
    }
}

impl TransformOp for Operation {
    open spec fn called(&self) -> Seq<char> {
        self.name@
    }

    open spec fn leads(
        &self,
        before: Map<Seq<u8>, u64>,
        atom: Seq<u8>,
        after: Map<Seq<u8>, u64>,
    ) -> bool {
        after == transformed(self.transform, before, atom)
    }

    fn name(&self) -> (r: &str) {
        self.name
    }

    fn apply(&self, map: &mut PathMap<u64>, atom_path: &[u8]) {
        match self.transform {
            Transform::Decay => decay(map, atom_path),
            Transform::LogAtom => {},
        }
    }
}

/// Finds an operation by the name that a configuration gives; decay takes no parameters.
pub fn build_operation(kind: &str, _params: &[String]) -> (r: Option<Operation>)
    ensures
        match r {
            Some(op) => kind@ == "decay"@ && op.name@ == "decay"@ && op.transform
                == Transform::Decay,
            None => kind@ != "decay"@,
        },
{
    if str_eq(kind, "decay") {
        Some(Operation::decay())
    } else {
        None
    }
}

/// The weight after `n` decays.
pub open spec fn decayed_times(w: u64, n: nat) -> u64
    decreases n,
{
    if n == 0 {
        w
    } else {
        decayed_times(decayed(w), (n - 1) as nat)
    }
}

/// Decay lowers a weight until it is zero, and gets there.
pub proof fn decay_converges(w: u64)
    ensures
        w > 0 ==> decayed(w) < w,
        decayed(0) == 0,
        decayed_times(w, w as nat) == 0,
{
    lemma_decays(w, w as nat);
}

proof fn lemma_decays(w: u64, n: nat)
    requires
        w <= n,
    ensures
        decayed_times(w, n) == 0,
    decreases n,
{
    if n > 0 {
        lemma_decays(decayed(w), (n - 1) as nat);
    }
}

/// One decay lowers the aggregate weight of the whole map by what the atom loses.
pub proof fn decay_lowers_the_total(before: &PathMap<u64>, after: &PathMap<u64>, at: Seq<u8>)
    requires
        before.well_formed(),
        before@.contains_key(at),
        before@[at] > 0,
        after@ == before@.insert(at, decayed(before@[at])),
        after.paths() == before.paths(),
    ensures
        agg_w(after, seq![]) == agg_w(before, seq![]) - (before@[at] - decayed(before@[at])),
        agg_w(after, seq![]) < agg_w(before, seq![]),
{
    before.lemma_paths();
    let ps = before.paths();
    assert(ps.no_duplicates()) by {
        assert forall|i: int, j: int| 0 <= i < j < ps.len() implies ps[i] != ps[j] by {
            path_lt_irreflexive(ps[i]);
        }
    }
    weight_change_moves_up(before@, ps, at, decayed(before@[at]), seq![]);
    assert(at.take(0) =~= seq![]);
    assert(starts_with(at, seq![]));
}

} // verus!
