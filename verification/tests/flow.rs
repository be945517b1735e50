use stormdl::orchestrator::{
    default_filename, join_path, DownloadEvent, Orchestrator, OrchestratorCommand,
};
use stormdl::types::{DownloadId, DownloadOptions, DownloadState, Priority};

fn options(filename: Option<&str>) -> DownloadOptions {
    DownloadOptions {
        url: String::from("http://host.example/dir/file.bin"),
        output_dir: String::from("/tmp/out"),
        filename: filename.map(String::from),
        segments: None,
        priority: Priority::Normal,
        bandwidth_limit: None,
        headers: Vec::new(),
        checksum: None,
    }
}

#[test]
fn filenames_from_urls() {
    assert_eq!(default_filename("http://h/a/b.iso"), "b.iso");
    assert_eq!(default_filename("http://h/a/b.iso?sig=1"), "b.iso");
    assert_eq!(default_filename("http://h/a/"), "download");
    assert_eq!(join_path("/tmp", "x"), "/tmp/x");
}

#[test]
fn add_download_registers_and_announces() {
    let mut orch = Orchestrator::new();
    let events = orch.handle_command(OrchestratorCommand::AddDownload {
        url: String::from("http://host.example/dir/file.bin"),
        options: options(None),
    });
    assert_eq!(events.len(), 1);
    match &events[0] {
        DownloadEvent::DownloadAdded { id, url, filename, total_size } => {
            assert_eq!(*id, DownloadId(1));
            assert_eq!(url, "http://host.example/dir/file.bin");
            assert_eq!(filename, "file.bin");
            assert!(total_size.is_none());
        }
        _ => panic!("expected DownloadAdded"),
    }
    let task = orch.get_task(DownloadId(1)).expect("registered");
    assert_eq!(task.state, DownloadState::Pending);
    assert_eq!(task.output_path, "/tmp/out/file.bin");
}

#[test]
fn pause_resume_cancel_transition_and_announce() {
    let mut orch = Orchestrator::new();
    orch.handle_command(OrchestratorCommand::AddDownload {
        url: String::from("http://host.example/f"),
        options: options(Some("f")),
    });
    let id = DownloadId(1);

    let events = orch.handle_command(OrchestratorCommand::PauseDownload(id));
    assert!(matches!(events[0], DownloadEvent::StateChange { state: DownloadState::Paused, .. }));
    assert_eq!(orch.get_task(id).unwrap().state, DownloadState::Paused);

    let events = orch.handle_command(OrchestratorCommand::ResumeDownload(id));
    assert!(matches!(
        events[0],
        DownloadEvent::StateChange { state: DownloadState::Downloading, .. }
    ));

    // Cancelling announces the cancellation and nothing else: no Complete.
    let events = orch.handle_command(OrchestratorCommand::CancelDownload(id));
    assert_eq!(events.len(), 1);
    assert!(matches!(
        events[0],
        DownloadEvent::StateChange { state: DownloadState::Cancelled, .. }
    ));
    assert_eq!(orch.get_task(id).unwrap().state, DownloadState::Cancelled);
}

#[test]
fn unknown_ids_are_ignored() {
    let mut orch = Orchestrator::new();
    let events = orch.handle_command(OrchestratorCommand::PauseDownload(DownloadId(9)));
    assert!(events.is_empty());
    let events = orch.handle_command(OrchestratorCommand::SetBandwidthLimit(Some(1000)));
    assert!(events.is_empty());
}

#[test]
fn cancel_then_re_add_starts_fresh() {
    // Cancelling a transfer and adding the same URL again yields a fresh
    // task under a new id, planned exactly like the first one.
    let mut orch = Orchestrator::new();
    orch.handle_command(OrchestratorCommand::AddDownload {
        url: String::from("http://host.example/dir/file.bin"),
        options: options(None),
    });
    orch.handle_command(OrchestratorCommand::CancelDownload(DownloadId(1)));

    let events = orch.handle_command(OrchestratorCommand::AddDownload {
        url: String::from("http://host.example/dir/file.bin"),
        options: options(None),
    });
    match &events[0] {
        DownloadEvent::DownloadAdded { id, filename, .. } => {
            assert_eq!(*id, DownloadId(2));
            assert_eq!(filename, "file.bin");
        }
        _ => panic!("expected DownloadAdded"),
    }
    let fresh = orch.get_task(DownloadId(2)).unwrap();
    let old = orch.get_task(DownloadId(1)).unwrap();
    assert_eq!(fresh.state, DownloadState::Pending);
    assert_eq!(old.state, DownloadState::Cancelled);
    assert_eq!(fresh.output_path, old.output_path);
}
