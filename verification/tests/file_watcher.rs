use song_recommender::server::QueryServerMsg;
use song_recommender::watcher::{
    after_child_wait, concerns, ChildExit, FileWatchEvent, FileWatcher, ShutdownAction,
    WatcherAction, SHUTDOWN_SECONDS, WATCH_RETRY_SECONDS,
};

fn path_list(items: &[&str]) -> Vec<String> {
    items.iter().map(|s| s.to_string()).collect()
}

fn checkpoint_watcher() -> FileWatcher {
    FileWatcher::new("ml-data/ml_processor_checkpoint.txt".to_string())
}

#[test]
fn watcher_delays() {
    assert_eq!(WATCH_RETRY_SECONDS, 1);
    assert_eq!(SHUTDOWN_SECONDS, 5);
}

#[test]
fn change_concerns_the_file_by_its_name() {
    let target = "ml-data/ml_processor_checkpoint.txt";
    assert!(concerns(&path_list(&["/abs/ml-data/ml_processor_checkpoint.txt"]), target));
    assert!(concerns(&path_list(&["x/other", "ml_processor_checkpoint.txt"]), target));
    assert!(!concerns(&path_list(&["ml-data/rules.bincode"]), target));
    assert!(!concerns(&path_list(&["ml-data/ml_processor_checkpoint.txt.tmp"]), target));
    assert!(!concerns(&Vec::new(), target));
}

#[test]
fn new_watcher_is_not_watching() {
    let watcher = checkpoint_watcher();
    assert_eq!(watcher.path(), "ml-data/ml_processor_checkpoint.txt");
    assert!(!watcher.watching());
    assert!(matches!(FileWatcher::init(), FileWatchEvent::Init));
}

#[test]
fn init_installs_the_watch() {
    let mut watcher = checkpoint_watcher();
    assert!(matches!(watcher.handle_cast(FileWatchEvent::Init), WatcherAction::Install));
    assert!(matches!(watcher.after_install(true), WatcherAction::Nothing));
    assert!(watcher.watching());
}

#[test]
fn failed_installation_is_tried_again_later() {
    let mut watcher = checkpoint_watcher();
    assert!(matches!(watcher.handle_cast(FileWatchEvent::Init), WatcherAction::Install));
    assert!(matches!(watcher.after_install(false), WatcherAction::RetryLater { seconds: 1 }));
    assert!(!watcher.watching());
    assert!(matches!(watcher.handle_cast(FileWatchEvent::Init), WatcherAction::Install));
    assert!(matches!(watcher.after_install(true), WatcherAction::Nothing));
    assert!(watcher.watching());
}

#[test]
fn change_of_the_file_is_forwarded_as_a_hint() {
    let mut watcher = checkpoint_watcher();
    watcher.after_install(true);
    let event = FileWatchEvent::Event(
        Ok(path_list(&["/srv/ml-data/ml_processor_checkpoint.txt"])),
        77,
    );
    match watcher.handle_cast(event) {
        WatcherAction::Forward(QueryServerMsg::WatchedFileChanged(when)) => assert_eq!(when, 77),
        other => panic!("expected a hint, got {:?}", other),
    }
    assert!(watcher.watching());
}

#[test]
fn duplicate_changes_are_forwarded_each() {
    let mut watcher = checkpoint_watcher();
    watcher.after_install(true);
    for when in [5u64, 5, 4].iter() {
        let event = FileWatchEvent::Event(Ok(path_list(&["ml_processor_checkpoint.txt"])), *when);
        assert!(matches!(
            watcher.handle_cast(event),
            WatcherAction::Forward(QueryServerMsg::WatchedFileChanged(w)) if w == *when
        ));
    }
}

#[test]
fn change_of_another_file_is_passed_over() {
    let mut watcher = checkpoint_watcher();
    watcher.after_install(true);
    let event = FileWatchEvent::Event(Ok(path_list(&["/srv/ml-data/rules.bincode"])), 77);
    assert!(matches!(watcher.handle_cast(event), WatcherAction::Nothing));
}

#[test]
fn watch_error_restarts_the_watch() {
    let mut watcher = checkpoint_watcher();
    watcher.after_install(true);
    let event = FileWatchEvent::Event(Err("watch lost".to_string()), 78);
    assert!(matches!(watcher.handle_cast(event), WatcherAction::Restart));
    assert!(!watcher.watching());
    assert_eq!(watcher.path(), "ml-data/ml_processor_checkpoint.txt");
}

#[test]
fn watcher_without_receiver_cancels_itself() {
    let watcher = checkpoint_watcher();
    assert!(matches!(watcher.after_forward(true), WatcherAction::Nothing));
    assert!(matches!(watcher.after_forward(false), WatcherAction::CancelSelf));
}

#[test]
fn slow_watcher_is_aborted() {
    assert_eq!(after_child_wait(ChildExit::Clean), ShutdownAction::Done);
    assert_eq!(after_child_wait(ChildExit::Failed), ShutdownAction::LogError);
    assert_eq!(after_child_wait(ChildExit::TimedOut), ShutdownAction::AbortAndLog);
}
