use tangible_soundscape::rule::{Condition, Rule};
use tangible_soundscape::FigureInfo;

#[test]
fn test_basic() {
    let figures = vec![
        FigureInfo::new("123", "building", "rural", "farm"),
        FigureInfo::new("456", "plant", "tree", "oak"),
    ];

    let rule_1 = Condition::MatchesCategory("building".into());
    let rule_2 = Condition::MatchesCategory("creature".into());
    let rule_3 = Condition::figure("building", "rural", "farm");
    let rule_4 = Condition::figure("creature", "goblin", "barbarian");

    assert!(rule_1.matches(&figures));
    assert!(!rule_2.matches(&figures));
    assert!(rule_3.matches(&figures));
    assert!(!rule_4.matches(&figures));
}

#[test]
fn test_and_rule() {
    let figures = vec![
        FigureInfo::new("123", "building", "rural", "farm"),
        FigureInfo::new("456", "plant", "tree", "oak"),
    ];

    let rule_1 = Condition::MatchesCategory("building".into());
    let rule_2 = Condition::MatchesCategory("plant".into());
    let rule_3 = Condition::All(vec![rule_1, rule_2]);

    assert!(rule_3.matches(&figures));
}

#[test]
fn test_or_rule() {
    let figures = vec![
        FigureInfo::new("123", "building", "rural", "farm"),
        FigureInfo::new("456", "plant", "tree", "oak"),
    ];

    let rule_1 = Condition::MatchesCategory("building".into());
    let rule_2 = Condition::MatchesCategory("creature".into());
    let rule_3 = Condition::Any(vec![rule_1, rule_2]);

    assert!(rule_3.matches(&figures));
}

fn oak(id: &str) -> FigureInfo {
    FigureInfo::new(id, "plant", "tree", "oak")
}

fn goblin() -> FigureInfo {
    FigureInfo::new("3", "creature", "goblin", "barbarian")
}

fn oak_threshold(n: u32) -> Condition {
    Condition::AtLeast(
        n,
        Box::new(Condition::All(vec![
            Condition::MatchesCategory("plant".into()),
            Condition::MatchesKind("oak".into()),
        ])),
    )
}

#[test]
fn at_least_counts_each_figure_alone() {
    let rule = oak_threshold(2);
    assert!(rule.matches(&[oak("1"), oak("2")]));
    assert!(!rule.matches(&[oak("1"), goblin()]));
}

#[test]
fn at_least_never_combines_two_figures() {
    // Each figure is judged as the only one present, so a member that needs
    // two different figures can never count.
    let rule = Condition::AtLeast(
        1,
        Box::new(Condition::All(vec![
            Condition::MatchesCategory("plant".into()),
            Condition::MatchesCategory("creature".into()),
        ])),
    );
    assert!(!rule.matches(&[oak("1"), goblin()]));
    let whole = Condition::All(vec![
        Condition::MatchesCategory("plant".into()),
        Condition::MatchesCategory("creature".into()),
    ]);
    assert!(whole.matches(&[oak("1"), goblin()]));
}

#[test]
fn at_least_zero_holds_of_nothing() {
    assert!(oak_threshold(0).matches(&[]));
    assert!(!oak_threshold(1).matches(&[]));
}

#[test]
fn at_least_lowered_threshold_still_holds() {
    let figures = vec![oak("1"), oak("2"), goblin()];
    assert!(oak_threshold(2).matches(&figures));
    assert!(oak_threshold(1).matches(&figures));
    assert!(!oak_threshold(3).matches(&figures));
}

#[test]
fn empty_combinators() {
    let figures = vec![oak("1")];
    assert!(Condition::All(vec![]).matches(&figures));
    assert!(!Condition::Any(vec![]).matches(&figures));
    assert!(Condition::All(vec![]).matches(&[]));
    assert!(!Condition::Any(vec![]).matches(&[]));
}

#[test]
fn pair_combinators_follow_their_members() {
    let figures = vec![oak("1")];
    let yes = || Condition::MatchesKind("oak".into());
    let no = || Condition::MatchesKind("farm".into());
    assert!(Condition::All(vec![yes(), yes()]).matches(&figures));
    assert!(!Condition::All(vec![yes(), no()]).matches(&figures));
    assert!(Condition::Any(vec![no(), yes()]).matches(&figures));
    assert!(!Condition::Any(vec![no(), no()]).matches(&figures));
}

#[test]
fn leaves_need_exact_text() {
    let figures = vec![oak("1")];
    assert!(Condition::MatchesSubcategory("tree".into()).matches(&figures));
    assert!(!Condition::MatchesSubcategory("Tree".into()).matches(&figures));
    assert!(!Condition::MatchesKind("oa".into()).matches(&figures));
    assert!(!Condition::MatchesCategory("plants".into()).matches(&figures));
    assert!(!Condition::MatchesCategory("plant".into()).matches(&[]));
}

#[test]
fn rule_delegates_to_its_condition() {
    let rule = Rule {
        condition: Condition::MatchesCategory("creature".into()),
        sound: "goblin.wav".into(),
    };
    assert!(rule.matches(&[goblin()]));
    assert!(!rule.matches(&[oak("1")]));
}

#[test]
fn figure_condition_needs_all_three_fields() {
    let rule = Condition::figure("plant", "tree", "oak");
    assert!(rule.matches(&[oak("9")]));
    assert!(!rule.matches(&[FigureInfo::new("9", "plant", "bush", "oak")]));
}

#[test]
fn figure_equality_covers_all_fields() {
    assert_eq!(oak("1"), oak("1").clone());
    assert_ne!(oak("1"), oak("2"));
    let f = FigureInfo::new("7", "a", "b", "c");
    assert_eq!(f.id, "7");
    assert_eq!(f.category, "a");
    assert_eq!(f.subcategory, "b");
    assert_eq!(f.kind, "c");
}

#[test]
fn cloned_condition_and_rule_match_alike() {
    let rule = Rule { condition: oak_threshold(2), sound: "oaks.wav".into() };
    let copy = rule.clone();
    assert_eq!(copy.sound, "oaks.wav");
    assert!(copy.matches(&[oak("1"), oak("2")]));
    assert!(!copy.matches(&[oak("1")]));
    let any = Condition::Any(vec![Condition::MatchesKind("oak".into())]).clone();
    assert!(any.matches(&[oak("1")]));
}
