//! Rule-driven ambient soundscape: sensed figures, the conditions that gate
//! each looping sound cue, and the scheduler that keeps the playing cues equal
//! to the set of rules that currently match.
use std::time::Duration;
use vstd::prelude::*;

pub mod rule;
pub mod scheduler;
pub mod framing;
pub mod legacy;

verus! {

/// What a figure is, as plain text: the value that every contract speaks of.
pub struct FigureView {
    pub category: Seq<char>,
    pub subcategory: Seq<char>,
    pub kind: Seq<char>,
    pub id: Seq<char>,
}

/// Identity record of one sensed physical object. Two figures are the same
/// figure only when all four fields agree.
#[derive(Debug, Hash)]
pub struct FigureInfo {
    pub category: String,
    pub subcategory: String,
    pub kind: String,
    pub id: String,
}

impl View for FigureInfo {
    type V = FigureView;

    open spec fn view(&self) -> FigureView {
        FigureView {
            category: self.category@,
            subcategory: self.subcategory@,
            kind: self.kind@,
            id: self.id@,
        }
    }
}

/// The views of a run of figures, in order.
pub open spec fn figures_view(figures: Seq<FigureInfo>) -> Seq<FigureView> {
    figures.map_values(|f: FigureInfo| f@)
}

impl Clone for FigureInfo {
    fn clone(&self) -> (r: Self)
        ensures
            r == *self,
    {
        FigureInfo {
            category: self.category.clone(),
            subcategory: self.subcategory.clone(),
            kind: self.kind.clone(),
            id: self.id.clone(),
        }
    }
}

impl PartialEq for FigureInfo {
    fn eq(&self, other: &FigureInfo) -> (r: bool) {
        self.category == other.category && self.subcategory == other.subcategory
            && self.kind == other.kind && self.id == other.id
    }
}

impl vstd::std_specs::cmp::PartialEqSpecImpl for FigureInfo {
    open spec fn obeys_eq_spec() -> bool {
        true
    }

    open spec fn eq_spec(&self, other: &FigureInfo) -> bool {
        self@ == other@
    }
}

impl Eq for FigureInfo {

}

impl FigureInfo {
    /// A figure from its identifier, category, subcategory and kind.
    pub fn new(id: &str, category: &str, subcategory: &str, kind: &str) -> (r: Self)
        ensures
            r@ == (FigureView {
                category: category@,
                subcategory: subcategory@,
                kind: kind@,
                id: id@,
            }),
    {
        FigureInfo {
            id: id.to_string(),
            category: category.to_string(),
            subcategory: subcategory.to_string(),
            kind: kind.to_string(),
        }
    }
}

/// Adds `figure` to `snapshot` unless an equal figure is already there, so
/// that a snapshot holds each figure once.
pub fn insert_unique(snapshot: &mut Vec<FigureInfo>, figure: FigureInfo)
    ensures
        figures_view(old(snapshot)@).contains(figure@) ==> final(snapshot)@ == old(snapshot)@,
        !figures_view(old(snapshot)@).contains(figure@) ==> final(snapshot)@ == old(
            snapshot,
        )@.push(figure),
{
    let mut i: usize = 0;
    while i < snapshot.len()
        invariant
            i <= snapshot@.len(),
            snapshot@ == old(snapshot)@,
            forall|j: int| 0 <= j < i ==> snapshot@[j]@ != figure@,
        decreases snapshot@.len() - i,
    {
        if snapshot[i] == figure {
            assert(figures_view(snapshot@)[i as int] == figure@);
            return;
        }
        i += 1;
    }
    proof {
        assert forall|j: int| 0 <= j < snapshot@.len() implies figures_view(snapshot@)[j]
            != figure@ by {
            assert(snapshot@[j]@ != figure@);
        }
    }
    snapshot.push(figure);
}

/// A source of presence snapshots.
pub trait FigureInfoProvider {
    type Error;

    /// The figures present now.
    fn get_figures(&mut self) -> Result<Vec<FigureInfo>, Self::Error>;
}

/// A scripted source of snapshots: each frame is a snapshot with the pause
/// that should follow it, and frames are handed out in order, over and over.
pub struct MockFigureProvider {
    pattern: Vec<(Vec<FigureInfo>, Duration)>,
    index: usize,
}

impl Default for MockFigureProvider {
    /// A source with no frames.
    fn default() -> (r: Self)
        ensures
            r.wf(),
            r.frames() == Seq::<(Seq<FigureView>, Duration)>::empty(),
            r.position() == 0,
    {
        let r = MockFigureProvider { pattern: Vec::new(), index: 0 };
        proof {
            assert(r.frames() =~= Seq::<(Seq<FigureView>, Duration)>::empty());
        }
        r
    }
}

impl MockFigureProvider {
    /// The frames, as figures and pause.
    pub closed spec fn frames(&self) -> Seq<(Seq<FigureView>, Duration)> {
        self.pattern@.map_values(|p: (Vec<FigureInfo>, Duration)| (figures_view(p.0@), p.1))
    }

    /// The frame handed out next.
    pub closed spec fn position(&self) -> nat {
        self.index as nat
    }

    /// The position names a frame, or is zero while there are none.
    pub open spec fn wf(&self) -> bool {
        self.position() == 0 || self.position() < self.frames().len()
    }

    /// A source with no frames.
    pub fn new() -> (r: Self)
        ensures
            r.wf(),
            r.frames() == Seq::<(Seq<FigureView>, Duration)>::empty(),
            r.position() == 0,
    {
        Self::default()
    }

    /// This source with one more frame at the end.
    pub fn add(self, figures: Vec<FigureInfo>, delay: Duration) -> (r: Self)
        requires
            self.wf(),
        ensures
            r.wf(),
            r.frames() == self.frames().push((figures_view(figures@), delay)),
            r.position() == self.position(),
    {
        let ghost old_frames = self.frames();
        let mut s = self;
        s.pattern.push((figures, delay));
        proof {
            assert(s.frames() =~= old_frames.push((figures_view(figures@), delay)));
        }
        s
    }

    /// How many frames there are.
    pub fn frame_count(&self) -> (r: usize)
        ensures
            r == self.frames().len(),
    {
        self.pattern.len()
    }

    /// The current frame's figures and pause; the position moves to the next
    /// frame, wrapping round after the last.
    pub fn next_frame(&mut self) -> (r: (Vec<FigureInfo>, Duration))
        requires
            old(self).wf(),
            old(self).frames().len() > 0,
        ensures
            final(self).wf(),
            final(self).frames() == old(self).frames(),
            final(self).position() == (old(self).position() + 1) % old(self).frames().len(),
            figures_view(r.0@) == old(self).frames()[old(self).position() as int].0,
            r.1 == old(self).frames()[old(self).position() as int].1,
    {
        let ghost frames = self.frames();
        let figures = self.pattern[self.index].0.clone();
        let delay = self.pattern[self.index].1;
        proof {
            let src = self.pattern@[self.index as int].0;
            assert forall|j: int| 0 <= j < figures@.len() implies figures@[j] == src@[j] by {
                assert(cloned(src@[j], figures@[j]));
            }
            assert(figures_view(figures@) =~= figures_view(src@));
        }
        assert(self.pattern@.len() == frames.len());
        let next = if self.index < self.pattern.len() - 1 {
            self.index + 1
        } else {
            0
        };
        proof {
            if self.index + 1 < frames.len() {
                vstd::arithmetic::div_mod::lemma_small_mod(
                    (self.index + 1) as nat,
                    frames.len(),
                );
            } else {
                vstd::arithmetic::div_mod::lemma_mod_self_0(frames.len() as int);
            }
        }
        self.index = next;
        proof {
            assert(self.frames() =~= frames);
        }
        (figures, delay)
    }
}

} // verus!
