use rustburn::event::{Phase, ProgressEvent};
use rustburn::status::Status;

fn stream() -> Vec<ProgressEvent> {
    vec![
        ProgressEvent::Started(Phase::Burning),
        ProgressEvent::Log("writing".to_string()),
        ProgressEvent::Progress(Phase::Burning, 250),
        ProgressEvent::Started(Phase::Verifying),
        ProgressEvent::Completed,
    ]
}

#[test]
fn fold_in_parts_equals_fold_whole() {
    let all = stream();
    let whole = Status::Idle.fold(&all);
    for cut in 0..=all.len() {
        let a: Vec<ProgressEvent> = all[..cut].iter().map(|e| e.duplicate()).collect();
        let b: Vec<ProgressEvent> = all[cut..].iter().map(|e| e.duplicate()).collect();
        let parts = Status::Idle.fold(&a).fold(&b);
        assert!(parts.is_done());
    }
    assert!(whole.is_done());
}

#[test]
fn replaying_a_prefix_gives_the_same_status() {
    let all = stream();
    let prefix: Vec<ProgressEvent> = all[..3].iter().map(|e| e.duplicate()).collect();
    let once = Status::Idle.fold(&prefix);
    let again = Status::Idle.fold(&prefix);
    assert_eq!(once.running_phase(), Some(Phase::Burning));
    assert_eq!(again.running_phase(), Some(Phase::Burning));
}

#[test]
fn each_event_moves_the_status() {
    let s = Status::Idle.apply(&ProgressEvent::Log("x".to_string()));
    assert!(matches!(s, Status::Idle));
    let s = s.apply(&ProgressEvent::Started(Phase::Erasing));
    assert_eq!(s.running_phase(), Some(Phase::Erasing));
    let s = s.apply(&ProgressEvent::Progress(Phase::Erasing, 10));
    assert_eq!(s.running_phase(), Some(Phase::Erasing));
    let s = s.apply(&ProgressEvent::Failed("io".to_string()));
    assert_eq!(s.failure(), Some(&"io".to_string()));
    let s = s.apply(&ProgressEvent::Completed);
    assert!(s.is_done());
}

#[test]
fn at_rest_states() {
    assert!(Status::Idle.is_at_rest());
    assert!(Status::Done.is_at_rest());
    assert!(Status::Failed("e".to_string()).is_at_rest());
    assert!(!Status::Scanning.is_at_rest());
    assert!(!Status::Running(Phase::Burning).is_at_rest());
}

#[test]
fn duplicate_keeps_the_value() {
    let s = Status::Failed("gone".to_string()).duplicate();
    assert_eq!(s.failure(), Some(&"gone".to_string()));
    let e = ProgressEvent::Progress(Phase::Ejecting, 42).duplicate();
    assert!(matches!(e, ProgressEvent::Progress(Phase::Ejecting, 42)));
}
