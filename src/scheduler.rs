//! Turning the match state of every rule into the fewest start and stop
//! requests for the looping cues.
use vstd::prelude::*;

use crate::rule::{cond_matches, Rule};
use crate::{figures_view, FigureInfo, FigureView};

verus! {

/// A request to the audio side, naming the slot (rule index) it is about.
#[derive(Debug, Clone, Copy, PartialEq, Eq, Structural)]
pub enum Action {
    /// Begin looping the slot's sound and keep its handle.
    Start(usize),
    /// Stop the slot's loop and release its handle.
    Stop(usize),
}

/// The requests that take slots playing as in `was` to slots playing as in
/// `now`, in increasing slot order; unchanged slots ask for nothing.
pub open spec fn diff(was: Seq<bool>, now: Seq<bool>) -> Seq<Action>
    decreases now.len(),
{
    if now.len() == 0 {
        seq![]
    } else {
        let k = now.len() - 1;
        let rest = diff(was.drop_last(), now.drop_last());
        if now[k] && !was[k] {
            rest.push(Action::Start(k as usize))
        } else if !now[k] && was[k] {
            rest.push(Action::Stop(k as usize))
        } else {
            rest
        }
    }
}

/// Which of `rules` match the figures `figs`, slot by slot.
pub open spec fn match_states(rules: Seq<Rule>, figs: Seq<FigureView>) -> Seq<bool> {
    Seq::new(rules.len(), |i: int| cond_matches(rules[i].condition, figs))
}

/// The indices of the rules that match `figs`.
pub open spec fn matching_indices(rules: Seq<Rule>, figs: Seq<FigureView>) -> Set<int> {
    Set::new(|i: int| 0 <= i < rules.len() && cond_matches(rules[i].condition, figs))
}

/// The slots that are playing in `active`.
pub open spec fn playing(active: Seq<bool>) -> Set<int> {
    Set::new(|i: int| 0 <= i < active.len() && active[i])
}

/// Brings `active` to `now`, returning the requests that the change takes.
pub fn converge(active: &mut Vec<bool>, now: &Vec<bool>) -> (actions: Vec<Action>)
    requires
        old(active)@.len() == now@.len(),
    ensures
        final(active)@ == now@,
        actions@ == diff(old(active)@, now@),
{
    let ghost was = active@;
    let mut actions: Vec<Action> = Vec::new();
    let mut i: usize = 0;
    while i < now.len()
        invariant
            i <= now@.len(),
            was.len() == now@.len(),
            active@.len() == now@.len(),
            forall|j: int| 0 <= j < i ==> active@[j] == now@[j],
            forall|j: int| i <= j < now@.len() ==> active@[j] == was[j],
            actions@ == diff(was.take(i as int), now@.take(i as int)),
        decreases now@.len() - i,
    {
        proof {
            assert(was.take(i + 1).drop_last() =~= was.take(i as int));
            assert(now@.take(i + 1).drop_last() =~= now@.take(i as int));
        }
        if now[i] && !active[i] {
            actions.push(Action::Start(i));
            active.set(i, true);
        } else if !now[i] && active[i] {
            actions.push(Action::Stop(i));
            active.set(i, false);
        }
        i += 1;
    }
    proof {
        assert(was.take(i as int) =~= was);
        assert(now@.take(i as int) =~= now@);
        assert(active@ =~= now@);
    }
    actions
}

/// Keeps one looping cue per matching rule, and no other.
pub struct Scheduler {
    rules: Vec<Rule>,
    active: Vec<bool>,
}

impl Scheduler {
    /// The rules, in slot order.
    pub closed spec fn rule_list(&self) -> Seq<Rule> {
        self.rules@
    }

    /// For each rule, whether its cue is taken to be playing.
    pub closed spec fn active_states(&self) -> Seq<bool> {
        self.active@
    }

    /// One playing state per rule.
    pub open spec fn wf(&self) -> bool {
        self.active_states().len() == self.rule_list().len()
    }

    /// A scheduler for `rules` with nothing playing.
    pub fn new(rules: Vec<Rule>) -> (r: Self)
        ensures
            r.wf(),
            r.rule_list() == rules@,
            playing(r.active_states()) == Set::<int>::empty(),
    {
        let mut active: Vec<bool> = Vec::new();
        let mut i: usize = 0;
        while i < rules.len()
            invariant
                i <= rules@.len(),
                active@ == Seq::new(i as nat, |j: int| false),
            decreases rules@.len() - i,
        {
            active.push(false);
            i += 1;
            proof {
                assert(active@ =~= Seq::new(i as nat, |j: int| false));
            }
        }
        let r = Scheduler { rules, active };
        proof {
            assert(playing(r.active_states()) =~= Set::<int>::empty());
        }
        r
    }

    /// Evaluates every rule on `figures` and returns the starts and stops that
    /// make the playing cues exactly those of the matching rules.
    pub fn process(&mut self, figures: &[FigureInfo]) -> (actions: Vec<Action>)
        requires
            old(self).wf(),
        ensures
            final(self).wf(),
            final(self).rule_list() == old(self).rule_list(),
            final(self).active_states() == match_states(
                old(self).rule_list(),
                figures_view(figures@),
            ),
            playing(final(self).active_states()) == matching_indices(
                old(self).rule_list(),
                figures_view(figures@),
            ),
            actions@ == diff(old(self).active_states(), final(self).active_states()),
    {
        let ghost figs = figures_view(figures@);
        let mut now: Vec<bool> = Vec::new();
        let mut i: usize = 0;
        while i < self.rules.len()
            invariant
                i <= self.rules@.len(),
                now@ =~= match_states(self.rules@, figs).take(i as int),
                figs == figures_view(figures@),
            decreases self.rules@.len() - i,
        {
            let m = self.rules[i].matches(figures);
            now.push(m);
            i += 1;
        }
        proof {
            assert(now@ =~= match_states(self.rules@, figs));
        }
        let actions = converge(&mut self.active, &now);
        proof {
            assert(playing(self.active@) =~= matching_indices(self.rules@, figs));
        }
        actions
    }

    /// Records that the cue of slot `index` could not be started: the slot is
    /// left empty, so a later snapshot on which its rule still matches tries
    /// again.
    pub fn start_failed(&mut self, index: usize)
        requires
            old(self).wf(),
        ensures
            final(self).wf(),
            final(self).rule_list() == old(self).rule_list(),
            index < old(self).active_states().len() ==> final(self).active_states()
                == old(self).active_states().update(index as int, false),
            index >= old(self).active_states().len() ==> final(self).active_states()
                == old(self).active_states(),
    {
        if index < self.active.len() {
            self.active.set(index, false);
        }
    }

    /// Whether the cue of slot `index` is taken to be playing.
    pub fn is_active(&self, index: usize) -> (r: bool)
        ensures
            r == (0 <= index < self.active_states().len() && self.active_states()[index as int]),
    {
        index < self.active.len() && self.active[index]
    }

    /// The rules, in slot order.
    pub fn rules(&self) -> (r: &Vec<Rule>)
        ensures
            r@ == self.rule_list(),
    {
        &self.rules
    }
}

/// Between two equal states there is nothing to request.
pub proof fn lemma_diff_same(s: Seq<bool>)
    ensures
        diff(s, s) == Seq::<Action>::empty(),
    decreases s.len(),
{
    if s.len() > 0 {
        lemma_diff_same(s.drop_last());
    }
}

/// The requests of `diff` are exactly a start for each slot that turns on and
/// a stop for each slot that turns off, each slot named at most once, in
/// increasing slot order.
pub proof fn lemma_diff_members(was: Seq<bool>, now: Seq<bool>)
    requires
        was.len() == now.len(),
        now.len() <= usize::MAX + 1,
    ensures
        forall|i: int|
            0 <= i < now.len() ==> (diff(was, now).contains(Action::Start(i as usize)) <==> (
            now[i] && !was[i])),
        forall|i: int|
            0 <= i < now.len() ==> (diff(was, now).contains(Action::Stop(i as usize)) <==> (
            !now[i] && was[i])),
        forall|k: int|
            0 <= k < diff(was, now).len() ==> match #[trigger] diff(was, now)[k] {
                Action::Start(i) => i < now.len(),
                Action::Stop(i) => i < now.len(),
            },
        forall|k: int, l: int|
            0 <= k < l < diff(was, now).len() ==> slot_of(#[trigger] diff(was, now)[k]) < slot_of(
                #[trigger] diff(was, now)[l],
            ),
    decreases now.len(),
{
    if now.len() > 0 {
        let k = now.len() - 1;
        let w = was.drop_last();
        let n = now.drop_last();
        lemma_diff_members(w, n);
        let rest = diff(w, n);
        let d = diff(was, now);
        assert forall|i: int|
            0 <= i < now.len() implies (d.contains(Action::Start(i as usize)) <==> (now[i]
                && !was[i])) by {
            if i < k {
                assert(w[i] == was[i] && n[i] == now[i]);
                if d.contains(Action::Start(i as usize)) {
                    let j = choose|j: int| 0 <= j < d.len() && d[j] == Action::Start(i as usize);
                    if j < rest.len() {
                        assert(rest[j] == d[j]);
                    }
                }
                if rest.contains(Action::Start(i as usize)) {
                    let j = choose|j: int|
                        0 <= j < rest.len() && rest[j] == Action::Start(i as usize);
                    assert(d[j] == rest[j]);
                }
            } else {
                if d.contains(Action::Start(i as usize)) {
                    let j = choose|j: int| 0 <= j < d.len() && d[j] == Action::Start(i as usize);
                    if j < rest.len() {
                        assert(rest[j] == d[j]);
                    }
                }
                if now[i] && !was[i] {
                    assert(d[d.len() - 1] == Action::Start(i as usize));
                }
            }
        }
        assert forall|i: int|
            0 <= i < now.len() implies (d.contains(Action::Stop(i as usize)) <==> (!now[i]
                && was[i])) by {
            if i < k {
                assert(w[i] == was[i] && n[i] == now[i]);
                if d.contains(Action::Stop(i as usize)) {
                    let j = choose|j: int| 0 <= j < d.len() && d[j] == Action::Stop(i as usize);
                    if j < rest.len() {
                        assert(rest[j] == d[j]);
                    }
                }
                if rest.contains(Action::Stop(i as usize)) {
                    let j = choose|j: int|
                        0 <= j < rest.len() && rest[j] == Action::Stop(i as usize);
                    assert(d[j] == rest[j]);
                }
            } else {
                if d.contains(Action::Stop(i as usize)) {
                    let j = choose|j: int| 0 <= j < d.len() && d[j] == Action::Stop(i as usize);
                    if j < rest.len() {
                        assert(rest[j] == d[j]);
                    }
                }
                if !now[i] && was[i] {
                    assert(d[d.len() - 1] == Action::Stop(i as usize));
                }
            }
        }
        assert forall|j: int| 0 <= j < d.len() implies match #[trigger] d[j] {
            Action::Start(i) => i < now.len(),
            Action::Stop(i) => i < now.len(),
        } by {
            if j < rest.len() {
                assert(d[j] == rest[j]);
            }
        }
        assert forall|a: int, b: int|
            0 <= a < b < d.len() implies slot_of(#[trigger] d[a]) < slot_of(#[trigger] d[b]) by {
            assert(d[a] == rest[a]);
            if b < rest.len() {
                assert(d[b] == rest[b]);
            }
        }
    }
}

/// The slot that a request is about.
pub open spec fn slot_of(a: Action) -> int {
    match a {
        Action::Start(i) => i as int,
        Action::Stop(i) => i as int,
    }
}

/// Processing the snapshot that was processed last asks for nothing: a cue
/// that still matches is never restarted.
pub proof fn lemma_process_idempotent(sched: Scheduler, figs: Seq<FigureView>)
    requires
        sched.wf(),
        sched.active_states() == match_states(sched.rule_list(), figs),
    ensures
        diff(sched.active_states(), match_states(sched.rule_list(), figs)).len() == 0,
{
    lemma_diff_same(sched.active_states());
}

/// After a snapshot is processed, the playing slots are exactly the indices of
/// the rules that match it, whatever was playing before.
pub proof fn lemma_process_converges(before: Scheduler, after: Scheduler, figs: Seq<FigureView>)
    requires
        before.wf(),
        after.rule_list() == before.rule_list(),
        after.active_states() == match_states(before.rule_list(), figs),
    ensures
        playing(after.active_states()) == matching_indices(before.rule_list(), figs),
        after.wf(),
{
    assert(playing(after.active_states()) =~= matching_indices(before.rule_list(), figs));
}

} // verus!
