//! Conditions over the figures present, and the rules that bind a condition to
//! a sound.
use vstd::prelude::*;

use crate::{figures_view, FigureInfo, FigureView};

verus! {

broadcast use vstd::std_specs::vec::group_vec_axioms;

/// A sound cue gated by a condition on the figures present.
#[derive(Clone)]
pub struct Rule {
    pub condition: Condition,
    pub sound: String,
}

/// A boolean predicate over a collection of figures.
pub enum Condition {
    /// Some figure has exactly this category.
    MatchesCategory(String),
    /// Some figure has exactly this subcategory.
    MatchesSubcategory(String),
    /// Some figure has exactly this kind.
    MatchesKind(String),
    /// Every member holds; true when there are none.
    All(Vec<Condition>),
    /// Some member holds; false when there are none.
    Any(Vec<Condition>),
    /// At least this many figures satisfy the inner condition, each one judged
    /// on its own, as the only figure present.
    AtLeast(u32, Box<Condition>),
}

/// Whether `cond` holds of the figures `figs`.
pub open spec fn cond_matches(cond: Condition, figs: Seq<FigureView>) -> bool
    decreases cond, 0nat,
{
    match cond {
        Condition::MatchesCategory(s) => exists|i: int|
            0 <= i < figs.len() && #[trigger] figs[i].category == s@,
        Condition::MatchesSubcategory(s) => exists|i: int|
            0 <= i < figs.len() && #[trigger] figs[i].subcategory == s@,
        Condition::MatchesKind(s) => exists|i: int|
            0 <= i < figs.len() && #[trigger] figs[i].kind == s@,
        Condition::All(cs) => all_match(cs@, figs),
        Condition::Any(cs) => any_match(cs@, figs),
        Condition::AtLeast(n, sub) => count_alone(*sub, figs) >= n,
    }
}

/// Whether every condition of `cs` holds of `figs`.
pub open spec fn all_match(cs: Seq<Condition>, figs: Seq<FigureView>) -> bool
    decreases cs, 0nat,
{
    cs.len() == 0 || (all_match(cs.drop_last(), figs) && cond_matches(cs.last(), figs))
}

/// Whether some condition of `cs` holds of `figs`.
pub open spec fn any_match(cs: Seq<Condition>, figs: Seq<FigureView>) -> bool
    decreases cs, 0nat,
{
    cs.len() != 0 && (any_match(cs.drop_last(), figs) || cond_matches(cs.last(), figs))
}

/// How many of the figures `figs` satisfy `sub` when each stands alone.
pub open spec fn count_alone(sub: Condition, figs: Seq<FigureView>) -> nat
    decreases sub, figs.len(),
{
    if figs.len() == 0 {
        0
    } else {
        count_alone(sub, figs.drop_last()) + if cond_matches(sub, seq![figs.last()]) {
            1nat
        } else {
            0nat
        }
    }
}

/// `all_match` is the conjunction of its members.
pub proof fn lemma_all_match(cs: Seq<Condition>, figs: Seq<FigureView>)
    ensures
        all_match(cs, figs) <==> forall|j: int|
            0 <= j < cs.len() ==> #[trigger] cond_matches(cs[j], figs),
    decreases cs.len(),
{
    if cs.len() > 0 {
        let d = cs.drop_last();
        lemma_all_match(d, figs);
        assert(cs.last() == cs[cs.len() - 1]);
        assert(all_match(cs, figs) == (all_match(d, figs) && cond_matches(cs[cs.len() - 1], figs)));
        if all_match(cs, figs) {
            assert forall|j: int| 0 <= j < cs.len() implies #[trigger] cond_matches(cs[j], figs) by {
                if j < cs.len() - 1 {
                    assert(d[j] == cs[j]);
                }
            }
        }
        if forall|j: int| 0 <= j < cs.len() ==> #[trigger] cond_matches(cs[j], figs) {
            assert forall|j: int| 0 <= j < d.len() implies #[trigger] cond_matches(d[j], figs) by {
                assert(d[j] == cs[j]);
            }
        }
    }
}

/// `any_match` is the disjunction of its members.
pub proof fn lemma_any_match(cs: Seq<Condition>, figs: Seq<FigureView>)
    ensures
        any_match(cs, figs) <==> exists|j: int|
            0 <= j < cs.len() && #[trigger] cond_matches(cs[j], figs),
    decreases cs.len(),
{
    if cs.len() > 0 {
        let d = cs.drop_last();
        lemma_any_match(d, figs);
        assert(cs.last() == cs[cs.len() - 1]);
        assert(any_match(cs, figs) == (any_match(d, figs) || cond_matches(cs[cs.len() - 1], figs)));
        if any_match(d, figs) {
            let j = choose|j: int| 0 <= j < d.len() && #[trigger] cond_matches(d[j], figs);
            assert(d[j] == cs[j]);
        }
        if exists|j: int| 0 <= j < cs.len() && #[trigger] cond_matches(cs[j], figs) {
            let j = choose|j: int| 0 <= j < cs.len() && #[trigger] cond_matches(cs[j], figs);
            if j < cs.len() - 1 {
                assert(d[j] == cs[j]);
                assert(any_match(d, figs));
            }
        }
    }
}

impl Rule {
    /// Whether this rule's condition holds of `figures`.
    pub fn matches(&self, figures: &[FigureInfo]) -> (r: bool)
        ensures
            r == cond_matches(self.condition, figures_view(figures@)),
    {
        self.condition.matches(figures)
    }
}

/// Whether `a` and `b` hold of exactly the same collections of figures.
pub open spec fn same_matches(a: Condition, b: Condition) -> bool {
    forall|figs: Seq<FigureView>| #[trigger] cond_matches(a, figs) == cond_matches(b, figs)
}

/// Two conditions that hold of the same figures count the same figures alone.
pub proof fn lemma_count_alone_same(a: Condition, b: Condition, figs: Seq<FigureView>)
    requires
        same_matches(a, b),
    ensures
        count_alone(a, figs) == count_alone(b, figs),
    decreases figs.len(),
{
    if figs.len() > 0 {
        lemma_count_alone_same(a, b, figs.drop_last());
        assert(cond_matches(a, seq![figs.last()]) == cond_matches(b, seq![figs.last()]));
    }
}

impl Clone for Condition {
    fn clone(&self) -> (r: Self)
        ensures
            same_matches(r, *self),
        decreases self,
    {
        match *self {
            Condition::MatchesCategory(ref s) => Condition::MatchesCategory(s.clone()),
            Condition::MatchesSubcategory(ref s) => Condition::MatchesSubcategory(s.clone()),
            Condition::MatchesKind(ref s) => Condition::MatchesKind(s.clone()),
            Condition::All(ref cs) => {
                let members = clone_members(self, cs);
                proof {
                    assert forall|figs: Seq<FigureView>|
                        all_match(members@, figs) == all_match(cs@, figs) by {
                        lemma_all_match(members@, figs);
                        lemma_all_match(cs@, figs);
                        assert forall|j: int| 0 <= j < cs@.len() implies cond_matches(
                            #[trigger] members@[j],
                            figs,
                        ) == cond_matches(cs@[j], figs) by {
                            assert(same_matches(members@[j], cs@[j]));
                        }
                        if all_match(cs@, figs) {
                            assert forall|j: int| 0 <= j < members@.len() implies #[trigger] cond_matches(
                                members@[j],
                                figs,
                            ) by {
                                assert(cond_matches(cs@[j], figs));
                            }
                        }
                        if all_match(members@, figs) {
                            assert forall|j: int| 0 <= j < cs@.len() implies #[trigger] cond_matches(
                                cs@[j],
                                figs,
                            ) by {
                                assert(cond_matches(members@[j], figs));
                            }
                        }
                    }
                }
                let r = Condition::All(members);
                proof {
                    assert forall|figs: Seq<FigureView>|
                        #[trigger] cond_matches(r, figs) == cond_matches(*self, figs) by {
                        assert(all_match(members@, figs) == all_match(cs@, figs));
                    }
                }
                r
            },
            Condition::Any(ref cs) => {
                let members = clone_members(self, cs);
                proof {
                    assert forall|figs: Seq<FigureView>|
                        any_match(members@, figs) == any_match(cs@, figs) by {
                        lemma_any_match(members@, figs);
                        lemma_any_match(cs@, figs);
                        if any_match(members@, figs) {
                            let j = choose|j: int|
                                0 <= j < members@.len() && #[trigger] cond_matches(members@[j], figs);
                            assert(cond_matches(cs@[j], figs));
                        }
                        if any_match(cs@, figs) {
                            let j = choose|j: int|
                                0 <= j < cs@.len() && #[trigger] cond_matches(cs@[j], figs);
                            assert(cond_matches(members@[j], figs));
                        }
                    }
                }
                let r = Condition::Any(members);
                proof {
                    assert forall|figs: Seq<FigureView>|
                        #[trigger] cond_matches(r, figs) == cond_matches(*self, figs) by {
                        assert(any_match(members@, figs) == any_match(cs@, figs));
                    }
                }
                r
            },
            Condition::AtLeast(n, ref sub) => {
                proof {
                    assert(decreases_to!(*self => (*self)->AtLeast_1));
                }
                let copy = (**sub).clone();
                proof {
                    assert forall|figs: Seq<FigureView>|
                        count_alone(copy, figs) == count_alone(**sub, figs) by {
                        lemma_count_alone_same(copy, **sub, figs);
                    }
                }
                let r = Condition::AtLeast(n, Box::new(copy));
                proof {
                    assert forall|figs: Seq<FigureView>|
                        #[trigger] cond_matches(r, figs) == cond_matches(*self, figs) by {
                        assert(count_alone(copy, figs) == count_alone(**sub, figs));
                    }
                }
                r
            },
        }
    }
}

/// A copy of the members `cs` of the combinator `parent`.
fn clone_members(parent: &Condition, cs: &Vec<Condition>) -> (r: Vec<Condition>)
    requires
        (*parent is All && (*parent)->All_0 == *cs) || (*parent is Any && (*parent)->Any_0 == *cs),
    ensures
        r@.len() == cs@.len(),
        forall|j: int| 0 <= j < cs@.len() ==> same_matches(#[trigger] r@[j], cs@[j]),
    decreases parent, 0nat,
{
    let mut r: Vec<Condition> = Vec::new();
    let mut i: usize = 0;
    while i < cs.len()
        invariant
            i <= cs@.len(),
            r@.len() == i,
            forall|j: int| 0 <= j < i ==> same_matches(#[trigger] r@[j], cs@[j]),
            (*parent is All && (*parent)->All_0 == *cs) || (*parent is Any && (*parent)->Any_0
                == *cs),
        decreases cs@.len() - i,
    {
        proof {
            if *parent is All {
                assert(decreases_to!(*parent => (*parent)->All_0));
            } else {
                assert(decreases_to!(*parent => (*parent)->Any_0));
            }
            assert(decreases_to!(*cs => cs[i as int]));
        }
        r.push(cs[i].clone());
        i += 1;
    }
    r
}

impl Condition {
    /// Whether this condition holds of `figures`.
    pub fn matches(&self, figures: &[FigureInfo]) -> (r: bool)
        ensures
            r == cond_matches(*self, figures_view(figures@)),
        decreases self,
    {
        let ghost figs = figures_view(figures@);
        match *self {
            Condition::MatchesCategory(ref s) => {
                let mut i: usize = 0;
                while i < figures.len()
                    invariant
                        i <= figures@.len(),
                        figs == figures_view(figures@),
                        forall|j: int| 0 <= j < i ==> figs[j].category != s@,
                        *self == Condition::MatchesCategory(*s),
                    decreases figures@.len() - i,
                {
                    if figures[i].category == *s {
                        assert(figs[i as int].category == s@);
                        return true;
                    }
                    i += 1;
                }
                false
            },
            Condition::MatchesSubcategory(ref s) => {
                let mut i: usize = 0;
                while i < figures.len()
                    invariant
                        i <= figures@.len(),
                        figs == figures_view(figures@),
                        forall|j: int| 0 <= j < i ==> figs[j].subcategory != s@,
                        *self == Condition::MatchesSubcategory(*s),
                    decreases figures@.len() - i,
                {
                    if figures[i].subcategory == *s {
                        assert(figs[i as int].subcategory == s@);
                        return true;
                    }
                    i += 1;
                }
                false
            },
            Condition::MatchesKind(ref s) => {
                let mut i: usize = 0;
                while i < figures.len()
                    invariant
                        i <= figures@.len(),
                        figs == figures_view(figures@),
                        forall|j: int| 0 <= j < i ==> figs[j].kind != s@,
                        *self == Condition::MatchesKind(*s),
                    decreases figures@.len() - i,
                {
                    if figures[i].kind == *s {
                        assert(figs[i as int].kind == s@);
                        return true;
                    }
                    i += 1;
                }
                false
            },
            Condition::All(ref cs) => {
                let mut i: usize = 0;
                while i < cs.len()
                    invariant
                        i <= cs@.len(),
                        figs == figures_view(figures@),
                        forall|j: int| 0 <= j < i ==> cond_matches(#[trigger] cs@[j], figs),
                        *self == Condition::All(*cs),
                    decreases cs@.len() - i,
                {
                    proof {
                        assert(decreases_to!(*self => (*self)->All_0));
                        assert(decreases_to!(*cs => cs[i as int]));
                    }
                    let m = cs[i].matches(figures);
                    if !m {
                        proof {
                            lemma_all_match(cs@, figs);
                        }
                        return false;
                    }
                    i += 1;
                }
                proof {
                    lemma_all_match(cs@, figs);
                }
                true
            },
            Condition::Any(ref cs) => {
                let mut i: usize = 0;
                while i < cs.len()
                    invariant
                        i <= cs@.len(),
                        figs == figures_view(figures@),
                        forall|j: int| 0 <= j < i ==> !cond_matches(#[trigger] cs@[j], figs),
                        *self == Condition::Any(*cs),
                    decreases cs@.len() - i,
                {
                    proof {
                        assert(decreases_to!(*self => (*self)->Any_0));
                        assert(decreases_to!(*cs => cs[i as int]));
                    }
                    let m = cs[i].matches(figures);
                    if m {
                        proof {
                            lemma_any_match(cs@, figs);
                        }
                        return true;
                    }
                    i += 1;
                }
                proof {
                    lemma_any_match(cs@, figs);
                }
                false
            },
            Condition::AtLeast(n, ref sub) => {
                let mut count: usize = 0;
                let mut i: usize = 0;
                while i < figures.len()
                    invariant
                        i <= figures@.len(),
                        figs == figures_view(figures@),
                        count == count_alone(**sub, figs.take(i as int)),
                        *self == Condition::AtLeast(n, *sub),
                        count <= i,
                    decreases figures@.len() - i,
                {
                    let alone = [figures[i].clone()];
                    proof {
                        assert(decreases_to!(*self => (*self)->AtLeast_1));
                        assert(figures_view(alone@) =~= seq![figs[i as int]]);
                        assert(figs.take(i + 1).drop_last() =~= figs.take(i as int));
                    }
                    if sub.matches(&alone) {
                        count += 1;
                    }
                    i += 1;
                }
                proof {
                    assert(figs.take(i as int) =~= figs);
                }
                count >= n as usize
            },
        }
    }

    /// The condition that one figure of exactly this category, subcategory and
    /// kind is present.
    pub fn figure(category: &str, subcategory: &str, kind: &str) -> (r: Condition)
        ensures
            r is All,
            r->All_0@.len() == 3,
            r->All_0@[0] is MatchesCategory && r->All_0@[0]->MatchesCategory_0@ == category@,
            r->All_0@[1] is MatchesSubcategory && r->All_0@[1]->MatchesSubcategory_0@
                == subcategory@,
            r->All_0@[2] is MatchesKind && r->All_0@[2]->MatchesKind_0@ == kind@,
    {
        Condition::All(
            vec![
                Condition::MatchesCategory(category.to_string()),
                Condition::MatchesSubcategory(subcategory.to_string()),
                Condition::MatchesKind(kind.to_string()),
            ],
        )
    }
}

/// An empty conjunction holds of every collection of figures; an empty
/// disjunction holds of none.
pub proof fn lemma_empty_combinators(all: Condition, any: Condition, figs: Seq<FigureView>)
    requires
        all is All && all->All_0@.len() == 0,
        any is Any && any->Any_0@.len() == 0,
    ensures
        cond_matches(all, figs),
        !cond_matches(any, figs),
{
}

/// A conjunction of two conditions holds exactly when both hold, and a
/// disjunction of the same two exactly when either holds.
pub proof fn lemma_pair_combinators(
    all: Condition,
    any: Condition,
    c1: Condition,
    c2: Condition,
    figs: Seq<FigureView>,
)
    requires
        all is All && all->All_0@ == seq![c1, c2],
        any is Any && any->Any_0@ == seq![c1, c2],
    ensures
        cond_matches(all, figs) == (cond_matches(c1, figs) && cond_matches(c2, figs)),
        cond_matches(any, figs) == (cond_matches(c1, figs) || cond_matches(c2, figs)),
{
    let cs = seq![c1, c2];
    lemma_all_match(cs, figs);
    lemma_any_match(cs, figs);
    assert(cs[0] == c1 && cs[1] == c2);
}

/// A threshold that holds still holds when lowered by one.
pub proof fn lemma_at_least_lower(
    higher: Condition,
    lower: Condition,
    n: u32,
    sub: Condition,
    figs: Seq<FigureView>,
)
    requires
        n >= 1,
        higher == Condition::AtLeast(n, Box::new(sub)),
        lower == Condition::AtLeast((n - 1) as u32, Box::new(sub)),
    ensures
        cond_matches(higher, figs) ==> cond_matches(lower, figs),
{
}

} // verus!
