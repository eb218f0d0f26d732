use compactor::backend::{command, command_or_stop, Backend, Route, ScanEnd, ScanWatch};
use compactor::background::ControlToken;
use compactor::folder::{FileInfo, FileKind, FolderInfo};
use compactor::gui::GuiRequest;
use compactor::pipeline::{Command, Signal};

fn scanned() -> FolderInfo {
    let mut folder = FolderInfo::new("root");
    folder.push(FileKind::Compressible, FileInfo { path: "a".to_string(), logical_size: 10, physical_size: 10 });
    folder
}

#[test]
fn jobs_need_an_inventory() {
    let mut backend = Backend::new();
    assert!(!backend.has_info());
    assert_eq!(backend.route(&GuiRequest::ChooseFolder), Route::ChooseFolder);
    assert_eq!(backend.route(&GuiRequest::Analyse), Route::Ignore);
    assert_eq!(backend.route(&GuiRequest::Compress), Route::Ignore);
    assert_eq!(backend.route(&GuiRequest::Decompress), Route::Ignore);
    assert_eq!(backend.route(&GuiRequest::Pause), Route::Ignore);

    backend.set_info(scanned());
    assert!(backend.has_info());
    assert_eq!(backend.route(&GuiRequest::ChooseFolder), Route::ChooseFolder);
    assert_eq!(backend.route(&GuiRequest::Analyse), Route::Analyse);
    assert_eq!(backend.route(&GuiRequest::Compress), Route::Compress);
    assert_eq!(backend.route(&GuiRequest::Decompress), Route::Decompress);
    assert_eq!(backend.route(&GuiRequest::Stop), Route::Ignore);
    assert_eq!(backend.route(&GuiRequest::Quit), Route::Ignore);
    assert_eq!(backend.route(&GuiRequest::ResetConfig), Route::Ignore);

    let info = backend.take_info().unwrap();
    assert_eq!(info.path(), "root");
    assert!(!backend.has_info());
    assert!(backend.take_info().is_none());
}

#[test]
fn requests_as_commands() {
    assert_eq!(command(&GuiRequest::Pause), Command::Pause);
    assert_eq!(command(&GuiRequest::Resume), Command::Resume);
    assert_eq!(command(&GuiRequest::Stop), Command::Stop);
    assert_eq!(command(&GuiRequest::Compress), Command::Other);
    assert_eq!(command(&GuiRequest::Quit), Command::Other);
    assert_eq!(command(&GuiRequest::OpenUrl { url: String::new() }), Command::Other);
    assert_eq!(command_or_stop(Some(&GuiRequest::Pause)), Command::Pause);
    assert_eq!(command_or_stop(Some(&GuiRequest::Analyse)), Command::Other);
    assert_eq!(command_or_stop(None), Command::Stop);
}

#[test]
fn the_end_of_a_scan() {
    let mut backend = Backend::new();
    match backend.scan_ended(Err("worker panicked".to_string())) {
        ScanEnd::Failed(m) => assert_eq!(m, "worker panicked"),
        other => panic!("{:?}", other),
    }
    assert!(!backend.has_info());

    match backend.scan_ended(Ok(Err(scanned()))) {
        ScanEnd::Stopped(s) => assert_eq!((s.logical_size, s.compressible.count), (10, 1)),
        other => panic!("{:?}", other),
    }
    assert!(backend.has_info());

    match backend.scan_ended(Ok(Ok(FolderInfo::new("other")))) {
        ScanEnd::Scanned(s) => assert_eq!(s.logical_size, 0),
        other => panic!("{:?}", other),
    }
    assert_eq!(backend.take_info().unwrap().path(), "other");

    backend.set_info(scanned());
    assert!(matches!(backend.scan_ended(Err("x".to_string())), ScanEnd::Failed(_)));
    assert!(backend.has_info());
}

#[test]
fn watch_passes_commands_to_the_token() {
    let mut token: ControlToken<u8> = ControlToken::new();
    let mut watch = ScanWatch::new();
    assert!(watch.shows_progress());

    assert_eq!(watch.on_command(&mut token, Command::Pause), Signal::Paused);
    assert!(token.is_paused());
    assert!(!watch.shows_progress());
    assert_eq!(watch.on_command(&mut token, Command::Other), Signal::Silent);
    assert!(token.is_paused());

    assert_eq!(watch.on_command(&mut token, Command::Resume), Signal::Resumed);
    assert!(!token.is_paused());
    assert!(watch.shows_progress());

    assert_eq!(watch.on_command(&mut token, Command::Pause), Signal::Paused);
    assert_eq!(watch.on_command(&mut token, Command::Stop), Signal::Silent);
    assert!(token.is_cancelled());
    assert_eq!(token.is_cancelled_with_pause(), Some(true));
}
