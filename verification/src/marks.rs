//! Selection and ghost marks on graph elements, driven by events.
//!
//! Both marks are idempotent set-membership operations: an event carries
//! the full list of targets it speaks about, and an empty list means
//! "all". The rendering collaborator consumes these events; the state
//! holders here let it (and the tests) track the resulting mark sets.

use vstd::prelude::*;

use crate::graph::EdgeId;
use crate::graph::NodeId;

verus! {

broadcast use vstd::seq_lib::lemma_seq_contains_after_push;

/// A markable world element: a junction node or a track segment.
#[derive(Clone, Copy, PartialEq, Eq, Structural, Debug)]
pub enum Element {
    Node(NodeId),
    Edge(EdgeId),
}

/// What a ghost event does to its targets.
#[derive(Clone, Copy, PartialEq, Eq, Structural, Debug)]
pub enum GhostAction {
    Add,
    Remove,
    Deghost,
    Update,
}

/// One ghost event: an action and the elements it targets.
pub struct GhostEvent {
    pub action: GhostAction,
    pub entities: Vec<Element>,
}

impl GhostEvent {
    /// Marks the given elements as ghost, leaving all others untouched.
    pub fn add(entities: Vec<Element>) -> (ev: GhostEvent)
        ensures
            ev.action == GhostAction::Add,
            ev.entities@ == entities@,
    {
        GhostEvent { action: GhostAction::Add, entities }
    }

    /// Makes exactly the given elements ghost and un-ghosts every other.
    pub fn update(entities: Vec<Element>) -> (ev: GhostEvent)
        ensures
            ev.action == GhostAction::Update,
            ev.entities@ == entities@,
    {
        GhostEvent { action: GhostAction::Update, entities }
    }

    /// Despawns the matching ghosts, or every ghost when the list is empty.
    pub fn remove(entities: Vec<Element>) -> (ev: GhostEvent)
        ensures
            ev.action == GhostAction::Remove,
            ev.entities@ == entities@,
    {
        GhostEvent { action: GhostAction::Remove, entities }
    }

    /// Un-ghosts the matching elements without despawning them.
    pub fn deghost(entities: Vec<Element>) -> (ev: GhostEvent)
        ensures
            ev.action == GhostAction::Deghost,
            ev.entities@ == entities@,
    {
        GhostEvent { action: GhostAction::Deghost, entities }
    }
}

/// Replaces the whole selection with the listed elements.
pub struct UpdateSelection {
    pub entities: Vec<Element>,
}

/// Drops the listed elements from the selection.
pub struct RemoveSelection {
    pub entities: Vec<Element>,
}

/// No element occurs twice.
pub open spec fn distinct_elems(s: Seq<Element>) -> bool {
    forall|i: int, j: int| 0 <= i < j < s.len() ==> s[i] != s[j]
}

/// In a duplicate-free sequence, the element at `i` does not occur earlier.
proof fn lemma_distinct_take_excludes(s: Seq<Element>, i: int)
    requires
        distinct_elems(s),
        0 <= i < s.len(),
    ensures
        !s.take(i).contains(s[i]),
{
    if s.take(i).contains(s[i]) {
        let j = choose|j: int| 0 <= j < i && s.take(i)[j] == s[i];
        assert(s[j] == s[i]);
    }
}

/// Whether `v` holds `e`.
fn contains_elem(v: &Vec<Element>, e: Element) -> (r: bool)
    ensures
        r == v@.contains(e),
{
    let mut i: usize = 0;
    while i < v.len()
        invariant
            i <= v@.len(),
            forall|j: int| 0 <= j < i ==> v@[j] != e,
        decreases v@.len() - i,
    {
        if v[i] == e {
            return true;
        }
        i = i + 1;
    }
    false
}

/// A duplicate-free copy of `src`.
fn dedup_elems(src: &Vec<Element>) -> (r: Vec<Element>)
    ensures
        distinct_elems(r@),
        forall|e: Element| r@.contains(e) <==> src@.contains(e),
{
    let mut out: Vec<Element> = Vec::new();
    let mut i: usize = 0;
    while i < src.len()
        invariant
            i <= src@.len(),
            distinct_elems(out@),
            forall|e: Element| out@.contains(e) <==> src@.take(i as int).contains(e),
        decreases src@.len() - i,
    {
        proof {
            assert(src@.take(i + 1) =~= src@.take(i as int).push(src@[i as int]));
        }
        let item = src[i];
        if !contains_elem(&out, item) {
            out.push(item);
        }
        i = i + 1;
    }
    proof {
        assert(src@.take(src@.len() as int) =~= src@);
    }
    out
}

/// The set of elements the renderer currently marks as selected.
pub struct SelectionState {
    pub selected: Vec<Element>,
}

impl SelectionState {
    /// An empty selection.
    pub fn new() -> (s: SelectionState)
        ensures
            s.selected@ == Seq::<Element>::empty(),
    {
        SelectionState { selected: Vec::new() }
    }

    /// The new selection replaces the old one entirely; an empty list
    /// clears the selection.
    pub fn apply_update(&mut self, ev: &UpdateSelection)
        ensures
            final(self).selected@ == ev.entities@,
    {
        let mut fresh: Vec<Element> = Vec::new();
        let mut i: usize = 0;
        while i < ev.entities.len()
            invariant
                i <= ev.entities@.len(),
                fresh@ == ev.entities@.take(i as int),
            decreases ev.entities@.len() - i,
        {
            proof {
                assert(ev.entities@.take(i + 1) =~= ev.entities@.take(i as int).push(
                    ev.entities@[i as int],
                ));
            }
            fresh.push(ev.entities[i]);
            i = i + 1;
        }
        proof {
            assert(ev.entities@.take(ev.entities@.len() as int) =~= ev.entities@);
        }
        self.selected = fresh;
    }

    /// Deselects the listed elements and keeps the rest selected.
    pub fn apply_remove(&mut self, ev: &RemoveSelection)
        ensures
            forall|e: Element|
                final(self).selected@.contains(e) <==> (old(self).selected@.contains(e)
                    && !ev.entities@.contains(e)),
            distinct_elems(old(self).selected@) ==> distinct_elems(final(self).selected@),
    {
        let mut kept: Vec<Element> = Vec::new();
        let mut i: usize = 0;
        while i < self.selected.len()
            invariant
                *self == *old(self),
                i <= self.selected@.len(),
                forall|e: Element|
                    kept@.contains(e) <==> (self.selected@.take(i as int).contains(e)
                        && !ev.entities@.contains(e)),
                distinct_elems(self.selected@) ==> distinct_elems(kept@),
            decreases self.selected@.len() - i,
        {
            proof {
                assert(self.selected@.take(i + 1) =~= self.selected@.take(i as int).push(
                    self.selected@[i as int],
                ));
                if distinct_elems(self.selected@) {
                    lemma_distinct_take_excludes(self.selected@, i as int);
                }
            }
            let item = self.selected[i];
            if !contains_elem(&ev.entities, item) {
                proof {
                    if distinct_elems(self.selected@) {
                        assert(!kept@.contains(self.selected@[i as int]));
                    }
                }
                kept.push(item);
            }
            i = i + 1;
        }
        proof {
            assert(self.selected@.take(self.selected@.len() as int) =~= self.selected@);
        }
        self.selected = kept;
    }
}

/// The set of elements currently shown as ghosts, with no duplicates.
pub struct GhostRegistry {
    pub ghosts: Vec<Element>,
}

impl GhostRegistry {
    /// `e` is currently ghosted.
    pub open spec fn ghosted(self, e: Element) -> bool {
        self.ghosts@.contains(e)
    }

    /// The ghost list never holds an element twice.
    pub open spec fn wf(self) -> bool {
        distinct_elems(self.ghosts@)
    }

    /// An empty registry.
    pub fn new() -> (r: GhostRegistry)
        ensures
            r.wf(),
            r.ghosts@ == Seq::<Element>::empty(),
    {
        GhostRegistry { ghosts: Vec::new() }
    }

    /// Applies one ghost event and returns the elements despawned by it.
    ///
    /// `Add` ghosts the targets and touches nothing else; `Update` makes
    /// exactly the targets ghost; `Deghost` un-ghosts the targets, or all
    /// ghosts when the list is empty; `Remove` despawns the targeted
    /// ghosts, or all ghosts when the list is empty.
    pub fn apply(&mut self, ev: &GhostEvent) -> (despawned: Vec<Element>)
        requires
            old(self).wf(),
        ensures
            final(self).wf(),
            distinct_elems(despawned@),
            match ev.action {
                GhostAction::Add => despawned@.len() == 0 && forall|e: Element|
                    final(self).ghosted(e) <==> (old(self).ghosted(e) || ev.entities@.contains(e)),
                GhostAction::Update => despawned@.len() == 0 && forall|e: Element|
                    final(self).ghosted(e) <==> ev.entities@.contains(e),
                GhostAction::Deghost => despawned@.len() == 0 && if ev.entities@.len() == 0 {
                    forall|e: Element| !final(self).ghosted(e)
                } else {
                    forall|e: Element|
                        final(self).ghosted(e) <==> (old(self).ghosted(e) && !ev.entities@.contains(
                            e,
                        ))
                },
                GhostAction::Remove => if ev.entities@.len() == 0 {
                    (forall|e: Element| !final(self).ghosted(e)) && forall|e: Element|
                        despawned@.contains(e) <==> old(self).ghosted(e)
                } else {
                    (forall|e: Element|
                        final(self).ghosted(e) <==> (old(self).ghosted(e) && !ev.entities@.contains(
                            e,
                        ))) && forall|e: Element|
                        despawned@.contains(e) <==> (old(self).ghosted(e) && ev.entities@.contains(
                            e,
                        ))
                },
            },
    {
        match ev.action {
            GhostAction::Add => {
                let mut i: usize = 0;
                while i < ev.entities.len()
                    invariant
                        i <= ev.entities@.len(),
                        distinct_elems(self.ghosts@),
                        forall|e: Element|
                            self.ghosts@.contains(e) <==> (old(self).ghosts@.contains(e)
                                || ev.entities@.take(i as int).contains(e)),
                    decreases ev.entities@.len() - i,
                {
                    proof {
                        assert(ev.entities@.take(i + 1) =~= ev.entities@.take(i as int).push(
                            ev.entities@[i as int],
                        ));
                    }
                    let item = ev.entities[i];
                    if !contains_elem(&self.ghosts, item) {
                        self.ghosts.push(item);
                    }
                    i = i + 1;
                }
                proof {
                    assert(ev.entities@.take(ev.entities@.len() as int) =~= ev.entities@);
                }
                Vec::new()
            },
            GhostAction::Update => {
                self.ghosts = dedup_elems(&ev.entities);
                Vec::new()
            },
            GhostAction::Deghost => {
                if ev.entities.len() == 0 {
                    self.ghosts = Vec::new();
                } else {
                    let (kept, _) = split_ghosts(&self.ghosts, &ev.entities);
                    self.ghosts = kept;
                }
                Vec::new()
            },
            GhostAction::Remove => {
                if ev.entities.len() == 0 {
                    let dropped = dedup_elems(&self.ghosts);
                    self.ghosts = Vec::new();
                    dropped
                } else {
                    let (kept, dropped) = split_ghosts(&self.ghosts, &ev.entities);
                    self.ghosts = kept;
                    dropped
                }
            },
        }
    }
}

/// Splits `ghosts` into those missing from `targets` and those present.
fn split_ghosts(ghosts: &Vec<Element>, targets: &Vec<Element>) -> (r: (Vec<Element>, Vec<Element>))
    requires
        distinct_elems(ghosts@),
    ensures
        distinct_elems(r.0@),
        distinct_elems(r.1@),
        forall|e: Element| r.0@.contains(e) <==> (ghosts@.contains(e) && !targets@.contains(e)),
        forall|e: Element| r.1@.contains(e) <==> (ghosts@.contains(e) && targets@.contains(e)),
{
    let mut kept: Vec<Element> = Vec::new();
    let mut dropped: Vec<Element> = Vec::new();
    let mut i: usize = 0;
    while i < ghosts.len()
        invariant
            distinct_elems(ghosts@),
            i <= ghosts@.len(),
            distinct_elems(kept@),
            distinct_elems(dropped@),
            forall|e: Element|
                kept@.contains(e) <==> (ghosts@.take(i as int).contains(e) && !targets@.contains(
                    e,
                )),
            forall|e: Element|
                dropped@.contains(e) <==> (ghosts@.take(i as int).contains(e) && targets@.contains(
                    e,
                )),
        decreases ghosts@.len() - i,
    {
        proof {
            assert(ghosts@.take(i + 1) =~= ghosts@.take(i as int).push(ghosts@[i as int]));
            lemma_distinct_take_excludes(ghosts@, i as int);
        }
        let item = ghosts[i];
        if contains_elem(targets, item) {
            dropped.push(item);
        } else {
            kept.push(item);
        }
        i = i + 1;
    }
    proof {
        assert(ghosts@.take(ghosts@.len() as int) =~= ghosts@);
    }
    (kept, dropped)
}

} // verus!
