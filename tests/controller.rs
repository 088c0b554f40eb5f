use rustburn::config::{BlockSize, BootMode, Device, OperationConfig};
use rustburn::controller::Controller;
use rustburn::dispatch::OperationKind;
use rustburn::event::{Phase, ProgressEvent};
use rustburn::status::Status;

fn cfg() -> OperationConfig {
    OperationConfig::new(
        "/images/win.iso".to_string(),
        "/dev/sdb".to_string(),
        8,
        BootMode::Uefi,
        false,
        BlockSize::Mib2,
    )
    .unwrap()
}

fn device(id: &str) -> Device {
    Device {
        id: id.to_string(),
        vendor: "SanDisk".to_string(),
        model: "Ultra".to_string(),
        size_bytes: 32_000_000_000,
    }
}

#[test]
fn burn_to_completion_ends_done_and_inactive() {
    let mut c = Controller::new();
    c.start(OperationKind::Burn, &cfg()).unwrap();
    assert!(c.is_active());
    c.tick(vec![
        ProgressEvent::Started(Phase::Burning),
        ProgressEvent::Progress(Phase::Burning, 500),
        ProgressEvent::Progress(Phase::Burning, 1000),
        ProgressEvent::Completed,
    ]);
    assert!(matches!(c.status(), Status::Done));
    assert_eq!(c.progress(), 1000);
    assert!(!c.is_active());
    assert!(c.actions_enabled());
}

#[test]
fn burn_failure_ends_failed_with_message() {
    let mut c = Controller::new();
    c.start(OperationKind::Burn, &cfg()).unwrap();
    c.tick(vec![
        ProgressEvent::Started(Phase::Burning),
        ProgressEvent::Failed("device removed".to_string()),
    ]);
    assert!(matches!(c.status(), Status::Failed(m) if m == "device removed"));
    assert_eq!(c.logs(), &vec!["ERROR: device removed".to_string()]);
    assert!(!c.is_active());
}

#[test]
fn second_start_before_drain_is_refused() {
    let mut c = Controller::new();
    assert!(c.start(OperationKind::Burn, &cfg()).is_ok());
    assert!(c.start(OperationKind::Burn, &cfg()).is_err());
    assert!(matches!(c.status(), Status::Running(Phase::Burning)));
    let got = c.tick(vec![ProgressEvent::Started(Phase::Burning), ProgressEvent::Completed]);
    assert_eq!(got.len(), 2);
    assert!(matches!(c.status(), Status::Done));
}

#[test]
fn multi_phase_runs_through_phases_to_done() {
    let mut c = Controller::new();
    c.start(OperationKind::Burn, &cfg()).unwrap();
    c.tick(vec![ProgressEvent::Started(Phase::Burning)]);
    assert!(matches!(c.status(), Status::Running(Phase::Burning)));
    c.tick(vec![ProgressEvent::Started(Phase::Verifying)]);
    assert!(matches!(c.status(), Status::Running(Phase::Verifying)));
    c.tick(vec![ProgressEvent::Progress(Phase::Verifying, 1000)]);
    assert!(matches!(c.status(), Status::Running(Phase::Verifying)));
    assert_eq!(c.progress(), 1000);
    c.tick(vec![ProgressEvent::Completed]);
    assert!(matches!(c.status(), Status::Done));
}

#[test]
fn start_sets_first_phase_and_resets_progress() {
    let mut c = Controller::new();
    c.start(OperationKind::Burn, &cfg()).unwrap();
    c.tick(vec![ProgressEvent::Progress(Phase::Burning, 700), ProgressEvent::Completed]);
    assert_eq!(c.progress(), 700);
    c.start(OperationKind::CreateBootableImage, &cfg()).unwrap();
    assert!(matches!(c.status(), Status::Running(Phase::CreatingImage)));
    assert_eq!(c.progress(), 0);
}

#[test]
fn log_lines_accumulate_in_order() {
    let mut c = Controller::new();
    c.start(OperationKind::Erase, &cfg()).unwrap();
    c.tick(vec![ProgressEvent::Log("wiping".to_string())]);
    c.tick(vec![ProgressEvent::Log("syncing".to_string()), ProgressEvent::Completed]);
    assert_eq!(c.logs(), &vec!["wiping".to_string(), "syncing".to_string()]);
}

#[test]
fn actions_disabled_while_running() {
    let mut c = Controller::new();
    assert!(c.actions_enabled());
    c.start(OperationKind::Burn, &cfg()).unwrap();
    assert!(!c.actions_enabled());
    assert!(!c.begin_scan());
    assert!(matches!(c.status(), Status::Running(Phase::Burning)));
}

#[test]
fn scan_success_returns_to_idle_with_devices() {
    let mut c = Controller::new();
    assert!(c.begin_scan());
    assert!(matches!(c.status(), Status::Scanning));
    assert!(!c.actions_enabled());
    let flash = c.finish_scan(Ok(vec![device("/dev/sdb"), device("/dev/sdc")]));
    assert!(flash.is_none());
    assert!(matches!(c.status(), Status::Idle));
    assert_eq!(c.devices().len(), 2);
    assert_eq!(c.devices()[1].id, "/dev/sdc");
}

#[test]
fn scan_error_is_transient() {
    let mut c = Controller::new();
    assert!(c.begin_scan());
    let flash = c.finish_scan(Err("permission denied".to_string()));
    assert_eq!(flash, Some("permission denied".to_string()));
    assert!(matches!(c.status(), Status::Idle));
    assert!(c.devices().is_empty());
    assert!(c.actions_enabled());
}

#[test]
fn scan_after_done_is_allowed() {
    let mut c = Controller::new();
    c.start(OperationKind::Eject, &cfg()).unwrap();
    c.tick(vec![ProgressEvent::Completed]);
    assert!(c.begin_scan());
    c.finish_scan(Ok(Vec::new()));
    assert!(matches!(c.status(), Status::Idle));
}

#[test]
fn start_is_refused_while_scanning() {
    let mut c = Controller::new();
    assert!(c.begin_scan());
    assert!(c.start(OperationKind::Burn, &cfg()).is_err());
    assert!(matches!(c.status(), Status::Scanning));
    assert!(!c.is_active());
    c.finish_scan(Ok(Vec::new()));
    assert!(matches!(c.status(), Status::Idle));
    assert!(c.start(OperationKind::Burn, &cfg()).is_ok());
}

#[test]
fn progress_shown_stays_within_full() {
    let mut c = Controller::new();
    c.start(OperationKind::Burn, &cfg()).unwrap();
    let got = c.tick(vec![ProgressEvent::Progress(Phase::Burning, 4000)]);
    assert!(matches!(got[0], ProgressEvent::Progress(Phase::Burning, 1000)));
    assert_eq!(c.progress(), 1000);
}

#[test]
fn one_tick_or_two_end_alike() {
    let events = || {
        vec![
            ProgressEvent::Started(Phase::Burning),
            ProgressEvent::Progress(Phase::Burning, 800),
            ProgressEvent::Log("flushing".to_string()),
            ProgressEvent::Progress(Phase::Burning, 300),
            ProgressEvent::Failed("io error".to_string()),
            ProgressEvent::Log("after the end".to_string()),
        ]
    };
    for cut in 0..=6 {
        let mut one = Controller::new();
        one.start(OperationKind::Burn, &cfg()).unwrap();
        let whole = one.tick(events());
        let mut two = Controller::new();
        two.start(OperationKind::Burn, &cfg()).unwrap();
        let mut all = events();
        let rest = all.split_off(cut);
        let mut parts = two.tick(all);
        parts.extend(two.tick(rest));
        assert_eq!(whole.len(), parts.len());
        assert_eq!(one.progress(), two.progress());
        assert_eq!(one.progress(), 800);
        assert_eq!(one.logs(), two.logs());
        assert!(matches!(two.status(), Status::Failed(m) if m == "io error"));
        assert!(!two.is_active());
    }
}
