//! The per-figure mode: every distinct figure seen is a slot of its own, whose
//! cue plays while a figure of that identifier is present. It runs on the same
//! engine as the rule scheduler.
use vstd::prelude::*;
use vstd::string::StringExecFns;

use crate::scheduler::{converge, diff, lemma_diff_members, Action};

verus! {

/// A figure of the per-figure mode: its sound is found from category and kind.
#[derive(Debug)]
pub struct TaggedFigure {
    pub category: String,
    pub kind: String,
    pub id: u32,
}

impl Clone for TaggedFigure {
    fn clone(&self) -> (r: Self)
        ensures
            r == *self,
    {
        TaggedFigure { category: self.category.clone(), kind: self.kind.clone(), id: self.id }
    }
}

/// Where the loop of a figure of `category` and `kind` lives under `base`.
pub open spec fn sound_path_of(base: Seq<char>, category: Seq<char>, kind: Seq<char>) -> Seq<
    char,
> {
    base + "/sounds/"@ + category + "/"@ + kind + ".wav"@
}

/// The path of the sound of a figure of `category` and `kind` under `base`:
/// `<base>/sounds/<category>/<kind>.wav`.
pub fn sound_path(base: &str, category: &str, kind: &str) -> (r: String)
    ensures
        r@ == sound_path_of(base@, category@, kind@),
{
    let mut r = base.to_string();
    r.append("/sounds/");
    r.append(category);
    r.append("/");
    r.append(kind);
    r.append(".wav");
    r
}

/// Whether a figure with identifier `id` is among `figs`.
pub open spec fn has_id(figs: Seq<TaggedFigure>, id: u32) -> bool {
    exists|j: int| 0 <= j < figs.len() && #[trigger] figs[j].id == id
}

/// Whether `figs` holds each identifier at most once.
pub open spec fn distinct_ids(figs: Seq<TaggedFigure>) -> bool {
    forall|a: int, b: int|
        0 <= a < b < figs.len() ==> #[trigger] figs[a].id != #[trigger] figs[b].id
}

/// Keeps one looping cue per figure identifier present.
pub struct FigureScheduler {
    known: Vec<TaggedFigure>,
    active: Vec<bool>,
}

impl FigureScheduler {
    /// The figures seen so far, one per identifier, in the order first seen;
    /// slot `i` belongs to the `i`-th.
    pub closed spec fn known_figures(&self) -> Seq<TaggedFigure> {
        self.known@
    }

    /// For each slot, whether its cue is taken to be playing.
    pub closed spec fn active_states(&self) -> Seq<bool> {
        self.active@
    }

    /// One playing state per known figure, and no identifier known twice.
    pub open spec fn wf(&self) -> bool {
        &&& self.active_states().len() == self.known_figures().len()
        &&& distinct_ids(self.known_figures())
    }

    /// A scheduler that has seen no figure.
    pub fn new() -> (r: Self)
        ensures
            r.wf(),
            r.known_figures() == Seq::<TaggedFigure>::empty(),
    {
        FigureScheduler { known: Vec::new(), active: Vec::new() }
    }

    /// The figure that owns slot `index`.
    pub fn figure(&self, index: usize) -> (r: Option<&TaggedFigure>)
        ensures
            index < self.known_figures().len() ==> r == Some(&self.known_figures()[index as int]),
            index >= self.known_figures().len() ==> r is None,
    {
        if index < self.known.len() {
            Some(&self.known[index])
        } else {
            None
        }
    }

    /// Whether the cue of slot `index` is taken to be playing.
    pub fn is_active(&self, index: usize) -> (r: bool)
        ensures
            r == (0 <= index < self.active_states().len() && self.active_states()[index as int]),
    {
        index < self.active.len() && self.active[index]
    }

    /// Records that the cue of slot `index` could not be started, so that it
    /// is tried again on a later snapshot that still holds the figure.
    pub fn start_failed(&mut self, index: usize)
        requires
            old(self).wf(),
        ensures
            final(self).wf(),
            final(self).known_figures() == old(self).known_figures(),
            index < old(self).active_states().len() ==> final(self).active_states()
                == old(self).active_states().update(index as int, false),
            index >= old(self).active_states().len() ==> final(self).active_states()
                == old(self).active_states(),
    {
        if index < self.active.len() {
            self.active.set(index, false);
        }
    }

    /// How many figures are known, which is how many slots there are.
    pub fn known_count(&self) -> (r: usize)
        ensures
            r == self.known_figures().len(),
    {
        self.known.len()
    }

    /// The slot of the known figure with identifier `id`, if there is one.
    fn slot_of_id(&self, id: u32) -> (r: Option<usize>)
        ensures
            r is None ==> !has_id(self.known@, id),
            r matches Some(k) ==> k < self.known@.len() && self.known@[k as int].id == id,
    {
        let mut i: usize = 0;
        while i < self.known.len()
            invariant
                i <= self.known@.len(),
                forall|j: int| 0 <= j < i ==> self.known@[j].id != id,
            decreases self.known@.len() - i,
        {
            if self.known[i].id == id {
                return Some(i);
            }
            i += 1;
        }
        None
    }

    /// Takes in the snapshot `figures`. A figure of an identifier not seen
    /// before gets a new slot at the end, holding the first such figure; a
    /// figure of a known identifier whose cue is not playing replaces the
    /// figure kept in that slot, so that the cue started for it is that of a
    /// figure now present. Then every slot
    /// plays exactly while its identifier is present. Returns the starts and
    /// stops that takes.
    pub fn process(&mut self, figures: &[TaggedFigure]) -> (actions: Vec<Action>)
        requires
            old(self).wf(),
            old(self).known_figures().len() + figures@.len() <= usize::MAX,
        ensures
            final(self).wf(),
            final(self).known_figures().len() >= old(self).known_figures().len(),
            forall|i: int|
                0 <= i < old(self).known_figures().len() ==> #[trigger] final(self).known_figures()[i].id == old(self).known_figures()[i].id,
            forall|i: int|
                0 <= i < old(self).known_figures().len() && #[trigger] final(self).known_figures()[i] != old(self).known_figures()[i] ==> !old(self).active_states()[i] && figures@.contains(final(self).known_figures()[i]),
            forall|i: int|
                0 <= i < old(self).known_figures().len() && !old(self).active_states()[i]
                    && has_id(figures@, old(self).known_figures()[i].id) ==> figures@.contains(
                    #[trigger] final(self).known_figures()[i],
                ),
            forall|i: int|
                old(self).known_figures().len() <= i < final(self).known_figures().len()
                    ==> figures@.contains(#[trigger] final(self).known_figures()[i]),
            forall|j: int|
                0 <= j < figures@.len() ==> has_id(
                    final(self).known_figures(),
                    #[trigger] figures@[j].id,
                ),
            forall|i: int|
                0 <= i < final(self).known_figures().len() ==> #[trigger] final(self).active_states()[i]
                    == has_id(figures@, final(self).known_figures()[i].id),
            actions@ == diff(
                old(self).active_states() + Seq::new(
                    (final(self).known_figures().len() - old(self).known_figures().len()) as nat,
                    |i: int| false,
                ),
                final(self).active_states(),
            ),
            forall|i: int|
                0 <= i < final(self).known_figures().len() && actions@.contains(
                    Action::Start(i as usize),
                ) ==> figures@.contains(#[trigger] final(self).known_figures()[i]),
    {
        let ghost old_known = self.known@;
        let ghost old_active = self.active@;
        let ghost n0 = old_known.len();
        let first_new = self.known.len();
        let mut j: usize = 0;
        while j < figures.len()
            invariant
                j <= figures@.len(),
                n0 == old_known.len(),
                first_new == n0,
                n0 <= self.known@.len() <= n0 + j,
                self.active@ == old_active + Seq::new(
                    (self.known@.len() - n0) as nat,
                    |i: int| false,
                ),
                old_active.len() == n0,
                n0 + figures@.len() <= usize::MAX,
                distinct_ids(self.known@),
                forall|i: int| 0 <= i < n0 ==> #[trigger] self.known@[i].id == old_known[i].id,
                forall|i: int|
                    0 <= i < n0 && #[trigger] self.known@[i] != old_known[i] ==> !old_active[i]
                        && figures@.contains(self.known@[i]),
                forall|i: int|
                    n0 <= i < self.known@.len() ==> figures@.contains(#[trigger] self.known@[i]),
                forall|i: int, k: int|
                    #![trigger self.known@[i], figures@[k]]
                    0 <= i < n0 && 0 <= k < j && figures@[k].id == self.known@[i].id
                        && !old_active[i] ==> figures@.contains(self.known@[i]),
                forall|k: int| 0 <= k < j ==> has_id(self.known@, #[trigger] figures@[k].id),
            decreases figures@.len() - j,
        {
            let ghost before = self.known@;
            match self.slot_of_id(figures[j].id) {
                None => {
                    let f = figures[j].clone();
                    self.known.push(f);
                    self.active.push(false);
                    proof {
                        assert(self.known@[before.len() as int] == figures@[j as int]);
                        assert(self.active@ =~= old_active + Seq::new(
                            (self.known@.len() - n0) as nat,
                            |i: int| false,
                        ));
                        assert forall|i: int| 0 <= i < n0 implies #[trigger] self.known@[i]
                            == before[i] by {}
                        assert forall|k: int| 0 <= k < j implies has_id(
                            self.known@,
                            #[trigger] figures@[k].id,
                        ) by {
                            let w = choose|w: int|
                                0 <= w < before.len() && #[trigger] before[w].id
                                    == figures@[k].id;
                            assert(self.known@[w] == before[w]);
                        }
                        assert(has_id(self.known@, figures@[j as int].id)) by {
                            assert(self.known@[before.len() as int].id == figures@[j as int].id);
                        }
                        assert forall|i: int|
                            n0 <= i < self.known@.len() implies figures@.contains(
                                #[trigger] self.known@[i],
                            ) by {
                            if i < before.len() {
                                assert(self.known@[i] == before[i]);
                            }
                        }
                        assert forall|i: int, k: int|
                            #![trigger self.known@[i], figures@[k]]
                            0 <= i < n0 && 0 <= k < j + 1 && figures@[k].id == self.known@[i].id
                                && !old_active[i] implies figures@.contains(self.known@[i]) by {
                            assert(self.known@[i] == before[i]);
                            if k == j {
                                assert(before[i].id == figures@[j as int].id);
                            }
                        }
                    }
                },
                Some(p) => {
                    if p < first_new && !self.active[p] {
                        let f = figures[j].clone();
                        self.known.set(p, f);
                        proof {
                            assert(self.known@[p as int] == figures@[j as int]);
                            assert(figures@.contains(self.known@[p as int]));
                            assert forall|i: int|
                                0 <= i < before.len() && i != p implies self.known@[i] == before[i] by {}
                            assert forall|k: int| 0 <= k < j implies has_id(
                                self.known@,
                                #[trigger] figures@[k].id,
                            ) by {
                                let w = choose|w: int|
                                    0 <= w < before.len() && #[trigger] before[w].id
                                        == figures@[k].id;
                                assert(self.known@[w].id == before[w].id);
                            }
                            assert(has_id(self.known@, figures@[j as int].id)) by {
                                assert(self.known@[p as int].id == figures@[j as int].id);
                            }
                            assert forall|i: int| 0 <= i < n0 implies #[trigger] self.known@[i].id
                                == old_known[i].id by {
                                if i != p {
                                    assert(self.known@[i] == before[i]);
                                }
                            }
                            assert forall|i: int|
                                0 <= i < n0 && #[trigger] self.known@[i] != old_known[i] implies !old_active[i]
                                    && figures@.contains(self.known@[i]) by {
                                if i != p {
                                    assert(self.known@[i] == before[i]);
                                }
                            }
                            assert forall|i: int|
                                n0 <= i < self.known@.len() implies figures@.contains(
                                    #[trigger] self.known@[i],
                                ) by {
                                if i != p {
                                    assert(self.known@[i] == before[i]);
                                }
                            }
                            assert forall|i: int, k: int|
                                #![trigger self.known@[i], figures@[k]]
                                0 <= i < n0 && 0 <= k < j + 1 && figures@[k].id == self.known@[i].id
                                    && !old_active[i] implies figures@.contains(self.known@[i]) by {
                                if i != p {
                                    assert(self.known@[i] == before[i]);
                                    if k == j {
                                        assert(before[p as int].id == figures@[j as int].id);
                                        assert(before[i].id != before[p as int].id);
                                    }
                                }
                            }
                            assert(distinct_ids(self.known@)) by {
                                assert forall|a: int, b: int|
                                    0 <= a < b < self.known@.len() implies #[trigger] self.known@[a].id
                                        != #[trigger] self.known@[b].id by {
                                    assert(self.known@[a].id == before[a].id);
                                    assert(self.known@[b].id == before[b].id);
                                }
                            }
                        }
                    } else {
                        proof {
                            assert(has_id(self.known@, figures@[j as int].id)) by {
                                assert(self.known@[p as int].id == figures@[j as int].id);
                            }
                            assert forall|i: int, k: int|
                                #![trigger self.known@[i], figures@[k]]
                                0 <= i < n0 && 0 <= k < j + 1 && figures@[k].id == self.known@[i].id
                                    && !old_active[i] implies figures@.contains(self.known@[i]) by {
                                if k == j {
                                    assert(self.known@[p as int].id == figures@[j as int].id);
                                    if i != p {
                                        assert(self.known@[i].id != self.known@[p as int].id);
                                    }
                                    assert(self.active@[p as int]);
                                }
                            }
                        }
                    }
                },
            }
            j += 1;
        }
        let ghost start = self.active@;
        let mut now: Vec<bool> = Vec::new();
        let mut i: usize = 0;
        while i < self.known.len()
            invariant
                i <= self.known@.len(),
                now@.len() == i,
                forall|k: int| 0 <= k < i ==> #[trigger] now@[k] == has_id(figures@, self.known@[k].id),
            decreases self.known@.len() - i,
        {
            let id = self.known[i].id;
            let mut present = false;
            let mut k: usize = 0;
            while k < figures.len()
                invariant
                    k <= figures@.len(),
                    present == exists|m: int| 0 <= m < k && #[trigger] figures@[m].id == id,
                decreases figures@.len() - k,
            {
                if figures[k].id == id {
                    present = true;
                }
                k += 1;
            }
            now.push(present);
            i += 1;
        }
        let actions = converge(&mut self.active, &now);
        proof {
            assert(start.len() == now@.len());
            lemma_diff_members(start, now@);
            assert forall|i: int|
                0 <= i < n0 && !old_active[i] && has_id(figures@, old_known[i].id) implies figures@.contains(
                #[trigger] self.known@[i],
            ) by {
                let k = choose|k: int|
                    0 <= k < figures@.len() && #[trigger] figures@[k].id == old_known[i].id;
                assert(self.known@[i].id == old_known[i].id);
                assert(figures@[k].id == self.known@[i].id);
            }
            assert forall|i: int|
                0 <= i < self.known@.len() && actions@.contains(
                    Action::Start(i as usize),
                ) implies figures@.contains(#[trigger] self.known@[i]) by {
                if i < n0 {
                    assert(start[i] == old_active[i]);
                    assert(now@[i]);
                    let k = choose|k: int|
                        0 <= k < figures@.len() && #[trigger] figures@[k].id == self.known@[i].id;
                    assert(self.known@[i].id == old_known[i].id);
                }
            }
        }
        actions
    }
}

} // verus!
