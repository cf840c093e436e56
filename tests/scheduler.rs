use std::time::Duration;

use tangible_soundscape::rule::{Condition, Rule};
use tangible_soundscape::scheduler::{converge, Action, Scheduler};
use tangible_soundscape::{FigureInfo, MockFigureProvider};

fn category_rule(category: &str, sound: &str) -> Rule {
    Rule { condition: Condition::MatchesCategory(category.into()), sound: sound.into() }
}

fn farm() -> FigureInfo {
    FigureInfo::new("0", "building", "rural", "farm")
}

fn goblin() -> FigureInfo {
    FigureInfo::new("3", "creature", "goblin", "barbarian")
}

#[test]
fn scheduler_scenario_building_then_creature_then_nothing() {
    let mut s = Scheduler::new(vec![
        category_rule("building", "farm.wav"),
        category_rule("creature", "goblin.wav"),
    ]);
    assert_eq!(s.process(&[farm()]), vec![Action::Start(0)]);
    assert_eq!(s.process(&[farm(), goblin()]), vec![Action::Start(1)]);
    assert_eq!(s.process(&[]), vec![Action::Stop(0), Action::Stop(1)]);
    assert!(!s.is_active(0));
    assert!(!s.is_active(1));
}

#[test]
fn scheduler_same_snapshot_twice_is_quiet() {
    let mut s = Scheduler::new(vec![
        category_rule("building", "farm.wav"),
        category_rule("creature", "goblin.wav"),
    ]);
    assert_eq!(s.process(&[goblin()]), vec![Action::Start(1)]);
    assert_eq!(s.process(&[goblin()]), vec![]);
    assert!(s.is_active(1));
    assert!(!s.is_active(0));
}

#[test]
fn scheduler_converges_to_matching_rules() {
    let mut s = Scheduler::new(vec![
        category_rule("building", "a.wav"),
        category_rule("creature", "b.wav"),
        category_rule("building", "a.wav"),
        Rule { condition: Condition::All(vec![]), sound: "c.wav".into() },
    ]);
    let actions = s.process(&[farm()]);
    assert_eq!(actions, vec![Action::Start(0), Action::Start(2), Action::Start(3)]);
    assert!(s.is_active(0) && !s.is_active(1) && s.is_active(2) && s.is_active(3));
    assert!(!s.is_active(4));
    let actions = s.process(&[goblin()]);
    assert_eq!(actions, vec![Action::Stop(0), Action::Start(1), Action::Stop(2)]);
    assert_eq!(s.rules().len(), 4);
}

#[test]
fn scheduler_retries_a_failed_start() {
    let mut s = Scheduler::new(vec![category_rule("building", "farm.wav")]);
    assert_eq!(s.process(&[farm()]), vec![Action::Start(0)]);
    s.start_failed(0);
    assert!(!s.is_active(0));
    assert_eq!(s.process(&[farm()]), vec![Action::Start(0)]);
    s.start_failed(5);
    assert!(s.is_active(0));
}

#[test]
fn scheduler_without_rules_does_nothing() {
    let mut s = Scheduler::new(vec![]);
    assert_eq!(s.process(&[farm()]), vec![]);
}

#[test]
fn converge_reports_each_changed_slot() {
    let mut active = vec![true, false, true, false];
    let now = vec![true, true, false, false];
    assert_eq!(converge(&mut active, &now), vec![Action::Start(1), Action::Stop(2)]);
    assert_eq!(active, now);
    assert_eq!(converge(&mut active, &now), vec![]);
}

#[test]
fn mock_provider_cycles_through_frames() {
    let mut p = MockFigureProvider::new()
        .add(vec![farm()], Duration::from_millis(5))
        .add(vec![farm(), goblin()], Duration::from_millis(7));
    assert_eq!(p.frame_count(), 2);
    let (f, d) = p.next_frame();
    assert_eq!(f, vec![farm()]);
    assert_eq!(d, Duration::from_millis(5));
    let (f, d) = p.next_frame();
    assert_eq!(f, vec![farm(), goblin()]);
    assert_eq!(d, Duration::from_millis(7));
    let (f, _) = p.next_frame();
    assert_eq!(f, vec![farm()]);
}

#[test]
fn mock_provider_starts_empty() {
    assert_eq!(MockFigureProvider::new().frame_count(), 0);
}

#[test]
fn mock_provider_default_is_empty() {
    let p: MockFigureProvider = Default::default();
    assert_eq!(p.frame_count(), 0);
}
