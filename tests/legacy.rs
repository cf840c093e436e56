use tangible_soundscape::framing::{Framer, LineKind};
use tangible_soundscape::legacy::{sound_path, FigureScheduler, TaggedFigure};
use tangible_soundscape::scheduler::Action;
use tangible_soundscape::{insert_unique, FigureInfo};

fn tagged(category: &str, kind: &str, id: u32) -> TaggedFigure {
    TaggedFigure { category: category.into(), kind: kind.into(), id }
}

#[test]
fn sound_path_follows_convention() {
    assert_eq!(sound_path("/opt/app", "plant", "oak"), "/opt/app/sounds/plant/oak.wav");
    assert_eq!(sound_path("", "", ""), "/sounds//.wav");
}

#[test]
fn figure_scheduler_one_cue_per_identifier() {
    let mut s = FigureScheduler::new();
    let a = tagged("plant", "oak", 1);
    let b = tagged("creature", "barbarian", 3);
    assert_eq!(s.process(&[a.clone()]), vec![Action::Start(0)]);
    assert_eq!(s.figure(0).map(|f| f.id), Some(1));
    assert_eq!(s.process(&[a.clone(), b.clone()]), vec![Action::Start(1)]);
    assert_eq!(s.figure(1).map(|f| f.kind.clone()), Some("barbarian".to_string()));
    assert_eq!(s.process(&[a.clone(), b.clone()]), vec![]);
    assert_eq!(s.process(&[b.clone()]), vec![Action::Stop(0)]);
    assert_eq!(s.process(&[]), vec![Action::Stop(1)]);
    assert_eq!(s.process(&[a.clone()]), vec![Action::Start(0)]);
    assert!(s.is_active(0) && !s.is_active(1));
    assert!(s.figure(2).is_none());
}

#[test]
fn figure_scheduler_same_identifier_twice_in_snapshot() {
    let mut s = FigureScheduler::new();
    let a = tagged("plant", "oak", 1);
    let a2 = tagged("plant", "birch", 1);
    assert_eq!(s.process(&[a, a2]), vec![Action::Start(0)]);
    assert_eq!(s.figure(0).map(|f| f.kind.clone()), Some("oak".to_string()));
    assert!(s.figure(1).is_none());
}

#[test]
fn figure_scheduler_retries_failed_start() {
    let mut s = FigureScheduler::new();
    let a = tagged("plant", "oak", 1);
    assert_eq!(s.process(&[a.clone()]), vec![Action::Start(0)]);
    s.start_failed(0);
    assert!(!s.is_active(0));
    assert_eq!(s.process(&[a]), vec![Action::Start(0)]);
}

#[test]
fn framer_classifies_lines() {
    let mut f = Framer::new();
    assert_eq!(f.feed("{\"id\":\"1\"}"), LineKind::Skip);
    assert_eq!(f.feed("===START==="), LineKind::Begin);
    assert!(f.reading);
    assert_eq!(f.feed(""), LineKind::Skip);
    assert_eq!(f.feed("{\"id\":\"1\"}"), LineKind::Record);
    assert_eq!(f.feed("===END==="), LineKind::End);
    assert!(!f.reading);
    assert_eq!(f.feed("{\"id\":\"1\"}"), LineKind::Skip);
    assert_eq!(f.feed("===START"), LineKind::Skip);
}

#[test]
fn insert_unique_keeps_one_copy() {
    let mut snapshot = Vec::new();
    let a = FigureInfo::new("1", "plant", "tree", "oak");
    let b = FigureInfo::new("2", "plant", "tree", "oak");
    insert_unique(&mut snapshot, a.clone());
    insert_unique(&mut snapshot, b.clone());
    insert_unique(&mut snapshot, a.clone());
    assert_eq!(snapshot, vec![a, b]);
}

#[test]
fn figure_scheduler_returning_identifier_takes_new_figure() {
    let mut s = FigureScheduler::new();
    assert_eq!(s.process(&[tagged("plant", "oak", 1)]), vec![Action::Start(0)]);
    assert_eq!(s.process(&[]), vec![Action::Stop(0)]);
    assert_eq!(s.process(&[tagged("creature", "barbarian", 1)]), vec![Action::Start(0)]);
    let f = s.figure(0).unwrap();
    assert_eq!(f.category, "creature");
    assert_eq!(f.kind, "barbarian");
    assert_eq!(s.known_count(), 1);
}

#[test]
fn figure_scheduler_playing_identifier_keeps_its_figure() {
    let mut s = FigureScheduler::new();
    assert_eq!(s.process(&[tagged("plant", "oak", 1)]), vec![Action::Start(0)]);
    assert_eq!(s.process(&[tagged("creature", "barbarian", 1)]), vec![]);
    assert_eq!(s.figure(0).unwrap().kind, "oak");
}
