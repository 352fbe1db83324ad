//! The file watcher: it keeps a watch on the directory of one file and tells
//! the rule server whenever that file may have changed.
//!
//! Installing the watch and sending the hint are done by whoever runs the
//! watcher; what is to be done, and what follows from how it went, is decided
//! here.

use vstd::prelude::*;
use crate::paths::{file_name, file_name_of};
use crate::server::{MsgView, QueryServerMsg};
use crate::text::{str_same, texts};

verus! {

/// How long the watcher waits before it tries again to install a watch that
/// could not be installed, in seconds.
pub const WATCH_RETRY_SECONDS: u64 = 1;

/// How long a watcher that was told to stop is waited for before its task is
/// aborted, in seconds.
pub const SHUTDOWN_SECONDS: u64 = 5;

/// Whether one of `paths` names the same file as `target`.
pub open spec fn touches(paths: Seq<Seq<char>>, target: Seq<char>) -> bool {
    exists|i: int| 0 <= i < paths.len() && file_name(#[trigger] paths[i]) == file_name(target)
}

/// Whether a change to `paths` concerns the file `target`.
pub fn concerns(paths: &Vec<String>, target: &str) -> (hit: bool)
    ensures
        hit == touches(texts(paths@), target@),
{
    let wanted = file_name_of(target);
    let mut i: usize = 0;
    while i < paths.len()
        invariant
            i <= paths.len(),
            wanted@ == file_name(target@),
            forall|j: int| 0 <= j < i ==> file_name(#[trigger] texts(paths@)[j]) != wanted@,
        decreases paths.len() - i,
    {
        let name = file_name_of(paths[i].as_str());
        assert(texts(paths@)[i as int] == paths@[i as int]@);
        if str_same(name.as_str(), wanted.as_str()) {
            return true;
        }
        i += 1;
    }
    false
}

/// The messages of the file watcher.
#[derive(Debug)]
pub enum FileWatchEvent {
    /// The watch reported a change to these paths, or failed with this
    /// account of what went wrong; either at the instant given.
    Event(Result<Vec<String>, String>, u64),
    /// Install the watch.
    Init,
}

/// What the watcher's task is to do.
#[derive(Debug)]
pub enum WatcherAction {
    /// Send this hint to the rule server, and report with `after_forward`
    /// whether it could be delivered.
    Forward(QueryServerMsg),
    /// Install the watch on the directory of the file, and report with
    /// `after_install` whether that worked.
    Install,
    /// Send `Init` to the watcher itself, at once.
    Restart,
    /// Send `Init` to the watcher itself after `seconds`.
    RetryLater { seconds: u64 },
    /// Cancel the watcher itself.
    CancelSelf,
    /// Go on waiting.
    Nothing,
}

/// What a watcher's action says.
pub enum WatcherActionView {
    Forward(MsgView),
    Install,
    Restart,
    RetryLater { seconds: u64 },
    CancelSelf,
    Nothing,
}

impl View for WatcherAction {
    type V = WatcherActionView;

    open spec fn view(&self) -> WatcherActionView {
        match *self {
            WatcherAction::Forward(msg) => WatcherActionView::Forward(msg@),
            WatcherAction::Install => WatcherActionView::Install,
            WatcherAction::Restart => WatcherActionView::Restart,
            WatcherAction::RetryLater { seconds } => WatcherActionView::RetryLater { seconds },
            WatcherAction::CancelSelf => WatcherActionView::CancelSelf,
            WatcherAction::Nothing => WatcherActionView::Nothing,
        }
    }
}

/// What a watcher of `target` does about a message: a change that concerns
/// the file is passed on as a hint, one that does not is passed over; an
/// error of the watch has the watch installed again.
pub open spec fn watcher_reaction(
    target: Seq<char>,
    event: Result<Seq<Seq<char>>, Seq<char>>,
    when: u64,
) -> WatcherActionView {
    match event {
        Ok(paths) => if touches(paths, target) {
            WatcherActionView::Forward(MsgView::WatchedFileChanged(when))
        } else {
            WatcherActionView::Nothing
        },
        Err(_) => WatcherActionView::Restart,
    }
}

/// A watcher of one file.
#[derive(Debug)]
pub struct FileWatcher {
    path: String,
    watching: bool,
}

/// What a watcher is: the file it watches, and whether its watch is installed.
pub struct WatcherView {
    pub path: Seq<char>,
    pub watching: bool,
}

impl View for FileWatcher {
    type V = WatcherView;

    closed spec fn view(&self) -> WatcherView {
        WatcherView { path: self.path@, watching: self.watching }
    }
}

impl FileWatcher {
    /// A watcher of the file at `path`, its watch not yet installed.
    pub fn new(path: String) -> (watcher: FileWatcher)
        ensures
            watcher@ == (WatcherView { path: path@, watching: false }),
    {
        FileWatcher { path, watching: false }
    }

    /// The file that is watched.
    pub fn path(&self) -> (path: &str)
        ensures
            path@ == self@.path,
    {
        self.path.as_str()
    }

    /// Whether the watch is installed.
    pub fn watching(&self) -> (watching: bool)
        ensures
            watching == self@.watching,
    {
        self.watching
    }

    /// The message that a watcher sends to itself when it starts.
    pub fn init() -> (msg: FileWatchEvent)
        ensures
            msg is Init,
    {
        FileWatchEvent::Init
    }

    /// Takes one message. An error of the watch means that the watch is gone.
    pub fn handle_cast(&mut self, msg: FileWatchEvent) -> (action: WatcherAction)
        ensures
            final(self)@.path == old(self)@.path,
            match msg {
                FileWatchEvent::Init => action@ == WatcherActionView::Install && final(self)@
                    == old(self)@,
                FileWatchEvent::Event(Ok(paths), when) => action@ == watcher_reaction(
                    old(self)@.path,
                    Ok(texts(paths@)),
                    when,
                ) && final(self)@ == old(self)@,
                FileWatchEvent::Event(Err(why), when) => action@ == WatcherActionView::Restart
                    && !final(self)@.watching,
            },
    {
        match msg {
            FileWatchEvent::Init => WatcherAction::Install,
            FileWatchEvent::Event(Ok(paths), when) => {
                if concerns(&paths, self.path.as_str()) {
                    WatcherAction::Forward(QueryServerMsg::WatchedFileChanged(when))
                } else {
                    WatcherAction::Nothing
                }
            },
            FileWatchEvent::Event(Err(_), _) => {
                self.watching = false;
                WatcherAction::Restart
            },
        }
    }

    /// After an attempt to install the watch: a watch that could not be
    /// installed is tried again after `WATCH_RETRY_SECONDS`, and the watcher
    /// lives on.
    pub fn after_install(&mut self, installed: bool) -> (action: WatcherAction)
        ensures
            final(self)@ == (WatcherView { path: old(self)@.path, watching: installed }),
            action@ == if installed {
                WatcherActionView::Nothing
            } else {
                WatcherActionView::RetryLater { seconds: WATCH_RETRY_SECONDS }
            },
    {
        self.watching = installed;
        if installed {
            WatcherAction::Nothing
        } else {
            WatcherAction::RetryLater { seconds: WATCH_RETRY_SECONDS }
        }
    }

    /// After an attempt to pass a hint on: a watcher whose hints reach nobody
    /// cancels itself.
    pub fn after_forward(&self, delivered: bool) -> (action: WatcherAction)
        ensures
            action@ == if delivered {
                WatcherActionView::Nothing
            } else {
                WatcherActionView::CancelSelf
            },
    {
        if delivered {
            WatcherAction::Nothing
        } else {
            WatcherAction::CancelSelf
        }
    }
}

/// How the wait for a watcher that was told to stop ended.
#[derive(Clone, Copy, Debug, PartialEq, Eq, Structural)]
pub enum ChildExit {
    /// Its task ended without an error.
    Clean,
    /// Its task ended with an error.
    Failed,
    /// Its task had not ended after `SHUTDOWN_SECONDS`.
    TimedOut,
}

/// What is done about a watcher after the wait for its end.
#[derive(Clone, Copy, Debug, PartialEq, Eq, Structural)]
pub enum ShutdownAction {
    /// Nothing is left to do.
    Done,
    /// Log the error; the service itself is not affected.
    LogError,
    /// Abort the task and log that it took too long.
    AbortAndLog,
}

/// Decides what is done about a watcher after the wait for its end.
pub fn after_child_wait(exit: ChildExit) -> (action: ShutdownAction)
    ensures
        action == match exit {
            ChildExit::Clean => ShutdownAction::Done,
            ChildExit::Failed => ShutdownAction::LogError,
            ChildExit::TimedOut => ShutdownAction::AbortAndLog,
        },
{
    match exit {
        ChildExit::Clean => ShutdownAction::Done,
        ChildExit::Failed => ShutdownAction::LogError,
        ChildExit::TimedOut => ShutdownAction::AbortAndLog,
    }
}

} // verus!
