//! The scene file being edited, its unsaved-changes flag, and the autosave
//! settings. Times are whole seconds on a clock that the caller reads.

use vstd::prelude::*;
use vstd::string::StringExecFns;
use crate::editor::text::{decimal, decimal_string};

verus! {

/// The final component of `path` as `std::path::Path::file_name` reads it on
/// the platform the crate is built for (`None` for a path without one, such
/// as one that ends in `..`).
pub uninterp spec fn path_file_name(path: Seq<char>) -> Option<Seq<char>>;

/// The final component of `path`, by `std::path::Path::file_name`. A path
/// made from a `&str` is valid UTF-8, so the component converts back to a
/// `String` whole.
#[verifier::external_body]
fn file_name_of(path: &str) -> (r: Option<String>)
    ensures
        match r {
            Some(n) => path_file_name(path@) == Some(n@),
            None => path_file_name(path@) is None,
        },
{
    std::path::Path::new(path).file_name().and_then(|f| f.to_str()).map(|f| f.to_string())
}

/// The name shown for the scene file: the file name of its path, or
/// "untitled".
pub open spec fn shown_file_name(path: Option<Seq<char>>) -> Seq<char> {
    match path {
        Some(p) => match path_file_name(p) {
            Some(n) => n,
            None => "untitled"@,
        },
        None => "untitled"@,
    }
}

/// Seconds from `saved` to `now`, zero if `now` is earlier.
pub open spec fn elapsed_secs(saved: u64, now: u64) -> nat {
    if now >= saved {
        (now - saved) as nat
    } else {
        0
    }
}

/// How long ago the scene was saved, for the status bar: "never", "just now"
/// within the first minute, then whole minutes ("5m ago") below an hour, then
/// whole hours ("2h ago").
pub open spec fn last_saved_text(elapsed: Option<nat>) -> Seq<char> {
    match elapsed {
        None => "never"@,
        Some(e) => if e < 60 {
            "just now"@
        } else if e < 3600 {
            decimal(e / 60) + "m ago"@
        } else {
            decimal(e / 3600) + "h ago"@
        },
    }
}

/// The scene file being edited.
pub struct CurrentFile {
    /// Where the scene is saved, once it has been.
    pub path: Option<String>,
    /// Whether there are changes that are not saved.
    pub dirty: bool,
    /// When the scene was last saved.
    pub last_saved: Option<u64>,
}

impl Default for CurrentFile {
    fn default() -> (f: CurrentFile)
        ensures
            f.path is None,
            !f.dirty,
            f.last_saved is None,
    {
        CurrentFile { path: None, dirty: false, last_saved: None }
    }
}

impl CurrentFile {
    /// The path of the scene, if it has one.
    pub fn get_path(&self) -> (r: Option<String>)
        ensures
            match r {
                Some(p) => self.path matches Some(q) && p@ == q@,
                None => self.path is None,
            },
    {
        match &self.path {
            Some(p) => Some(p.clone()),
            None => None,
        }
    }

    /// Sets the path of the scene.
    pub fn set_path(&mut self, path: String)
        ensures
            final(self).path == Some(path),
            final(self).dirty == old(self).dirty,
            final(self).last_saved == old(self).last_saved,
    {
        self.path = Some(path);
    }

    /// Records a save at time `now`: no unsaved changes any more.
    pub fn mark_clean(&mut self, now: u64)
        ensures
            !final(self).dirty,
            final(self).last_saved == Some(now),
            final(self).path == old(self).path,
    {
        self.dirty = false;
        self.last_saved = Some(now);
    }

    /// Records that the scene has changed.
    pub fn mark_dirty(&mut self)
        ensures
            final(self).dirty,
            final(self).path == old(self).path,
            final(self).last_saved == old(self).last_saved,
    {
        self.dirty = true;
    }

    /// Whether there are unsaved changes.
    pub fn is_dirty(&self) -> (r: bool)
        ensures
            r == self.dirty,
    {
        self.dirty
    }

    /// Whether the scene has a path.
    pub fn has_path(&self) -> (r: bool)
        ensures
            r == self.path is Some,
    {
        self.path.is_some()
    }

    /// A fresh, empty scene at time `now`: no path, nothing unsaved.
    pub fn start_new_file(&mut self, now: u64)
        ensures
            final(self).path is None,
            !final(self).dirty,
            final(self).last_saved == Some(now),
    {
        self.path = None;
        self.mark_clean(now);
    }

    /// The name shown for the scene: its file name, or "untitled".
    pub fn get_filename(&self) -> (r: String)
        ensures
            r@ == shown_file_name(
                match self.path {
                    Some(p) => Some(p@),
                    None => None,
                },
            ),
    {
        match &self.path {
            Some(p) => match file_name_of(p.as_str()) {
                Some(n) => n,
                None => String::from_str("untitled"),
            },
            None => String::from_str("untitled"),
        }
    }

    /// The name in the status bar: the file name, with a star when there are
    /// unsaved changes.
    pub fn display_name(&self) -> (r: String)
        ensures
            r@ == shown_file_name(
                match self.path {
                    Some(p) => Some(p@),
                    None => None,
                },
            ) + if self.dirty {
                "*"@
            } else {
                Seq::<char>::empty()
            },
    {
        let name = self.get_filename();
        if self.dirty {
            name.concat("*")
        } else {
            name
        }
    }

    /// How long ago the scene was saved, seen at time `now`.
    pub fn get_last_saved_text(&self, now: u64) -> (r: String)
        ensures
            r@ == last_saved_text(
                match self.last_saved {
                    Some(t) => Some(elapsed_secs(t, now)),
                    None => None,
                },
            ),
    {
        match self.last_saved {
            None => String::from_str("never"),
            Some(t) => {
                let e: u64 = if now >= t {
                    now - t
                } else {
                    0
                };
                if e < 60 {
                    String::from_str("just now")
                } else if e < 3600 {
                    decimal_string(e / 60).concat("m ago")
                } else {
                    decimal_string(e / 3600).concat("h ago")
                }
            },
        }
    }
}

/// The name of the autosave file kept beside the scene file `file_name`.
pub fn autosave_file_name(file_name: &str) -> (r: String)
    ensures
        r@ == file_name@ + ".autosave"@,
{
    String::from_str(file_name).concat(".autosave")
}

/// How often the scene is saved to its autosave file.
#[derive(Debug, Clone, Copy, PartialEq, Eq, Structural)]
pub enum AutoSaveInterval {
    Disabled,
    OneMinute,
    FiveMinutes,
    TenMinutes,
    FifteenMinutes,
    ThirtyMinutes,
}

/// The period of an interval in seconds, `None` when autosave is off.
pub open spec fn interval_secs(i: AutoSaveInterval) -> Option<u64> {
    match i {
        AutoSaveInterval::Disabled => None,
        AutoSaveInterval::OneMinute => Some(60),
        AutoSaveInterval::FiveMinutes => Some(300),
        AutoSaveInterval::TenMinutes => Some(600),
        AutoSaveInterval::FifteenMinutes => Some(900),
        AutoSaveInterval::ThirtyMinutes => Some(1800),
    }
}

/// The menu label of an interval.
pub open spec fn interval_label(i: AutoSaveInterval) -> Seq<char> {
    match i {
        AutoSaveInterval::Disabled => "Disabled"@,
        AutoSaveInterval::OneMinute => "1 minute"@,
        AutoSaveInterval::FiveMinutes => "5 minutes"@,
        AutoSaveInterval::TenMinutes => "10 minutes"@,
        AutoSaveInterval::FifteenMinutes => "15 minutes"@,
        AutoSaveInterval::ThirtyMinutes => "30 minutes"@,
    }
}

impl AutoSaveInterval {
    /// The period in seconds, `None` for `Disabled`.
    pub fn duration(&self) -> (r: Option<u64>)
        ensures
            r == interval_secs(*self),
    {
        match self {
            AutoSaveInterval::Disabled => None,
            AutoSaveInterval::OneMinute => Some(60),
            AutoSaveInterval::FiveMinutes => Some(5 * 60),
            AutoSaveInterval::TenMinutes => Some(10 * 60),
            AutoSaveInterval::FifteenMinutes => Some(15 * 60),
            AutoSaveInterval::ThirtyMinutes => Some(30 * 60),
        }
    }

    /// The menu label.
    pub fn label(&self) -> (r: &'static str)
        ensures
            r@ == interval_label(*self),
    {
        match self {
            AutoSaveInterval::Disabled => "Disabled",
            AutoSaveInterval::OneMinute => "1 minute",
            AutoSaveInterval::FiveMinutes => "5 minutes",
            AutoSaveInterval::TenMinutes => "10 minutes",
            AutoSaveInterval::FifteenMinutes => "15 minutes",
            AutoSaveInterval::ThirtyMinutes => "30 minutes",
        }
    }

    /// Every interval, from off to the longest, as the menu lists them.
    pub fn all() -> (r: Vec<AutoSaveInterval>)
        ensures
            r@ == seq![
                AutoSaveInterval::Disabled,
                AutoSaveInterval::OneMinute,
                AutoSaveInterval::FiveMinutes,
                AutoSaveInterval::TenMinutes,
                AutoSaveInterval::FifteenMinutes,
                AutoSaveInterval::ThirtyMinutes,
            ],
    {
        vec![
            AutoSaveInterval::Disabled,
            AutoSaveInterval::OneMinute,
            AutoSaveInterval::FiveMinutes,
            AutoSaveInterval::TenMinutes,
            AutoSaveInterval::FifteenMinutes,
            AutoSaveInterval::ThirtyMinutes,
        ]
    }
}

/// The autosave menu's entry for `interval`: its label, after a check mark
/// when it is the current setting.
pub fn autosave_menu_label(interval: AutoSaveInterval, current: AutoSaveInterval) -> (r: String)
    ensures
        r@ == if interval == current {
            "\u{2713} "@ + interval_label(interval)
        } else {
            interval_label(interval)
        },
{
    if interval == current {
        String::from_str("\u{2713} ").concat(interval.label())
    } else {
        String::from_str(interval.label())
    }
}

/// The autosave setting and the period its timer runs with. The period stays
/// that of the last interval that had one: switching autosave off keeps the
/// timer as it was.
pub struct AutoSaveTimer {
    pub interval: AutoSaveInterval,
    pub period_secs: u64,
}

impl Default for AutoSaveTimer {
    fn default() -> (t: AutoSaveTimer)
        ensures
            t.interval == AutoSaveInterval::FiveMinutes,
            t.period_secs == 300,
    {
        AutoSaveTimer { interval: AutoSaveInterval::FiveMinutes, period_secs: 300 }
    }
}

impl AutoSaveTimer {
    /// Selects `interval`. Returns the new period when the timer has to be
    /// restarted with it, `None` when autosave was switched off.
    pub fn set_interval(&mut self, interval: AutoSaveInterval) -> (restart: Option<u64>)
        ensures
            final(self).interval == interval,
            restart == interval_secs(interval),
            final(self).period_secs == match interval_secs(interval) {
                Some(p) => p,
                None => old(self).period_secs,
            },
    {
        self.interval = interval;
        let d = interval.duration();
        if let Some(p) = d {
            self.period_secs = p;
        }
        d
    }

    /// Whether autosave is on.
    pub fn is_enabled(&self) -> (r: bool)
        ensures
            r == (self.interval != AutoSaveInterval::Disabled),
    {
        match self.interval {
            AutoSaveInterval::Disabled => false,
            _ => true,
        }
    }

    /// The status bar's autosave indicator: "Autosave: " and the interval's
    /// label, or "Autosave: Disabled".
    pub fn status_text(&self) -> (r: String)
        ensures
            r@ == "Autosave: "@ + interval_label(self.interval),
    {
        String::from_str("Autosave: ").concat(self.interval.label())
    }

    /// Whether to write the autosave file now: autosave is on, its timer has
    /// just run out, and the scene has a path and unsaved changes.
    pub fn should_autosave(&self, timer_just_finished: bool, file: &CurrentFile) -> (r: bool)
        ensures
            r == (self.interval != AutoSaveInterval::Disabled && timer_just_finished
                && file.path is Some && file.dirty),
    {
        self.is_enabled() && timer_just_finished && file.has_path() && file.is_dirty()
    }
}

/// Seconds for which an autosave notice stays on screen.
pub const NOTIFICATION_SECS: u64 = 3;

/// The notice shown after an autosave, until its timer runs out.
pub struct AutoSaveNotification {
    pub message: Option<String>,
}

impl Default for AutoSaveNotification {
    fn default() -> (n: AutoSaveNotification)
        ensures
            n.message is None,
    {
        AutoSaveNotification { message: None }
    }
}

impl AutoSaveNotification {
    /// Shows `message`; its timer starts anew for [`NOTIFICATION_SECS`].
    pub fn show(&mut self, message: String)
        ensures
            final(self).message == Some(message),
    {
        self.message = Some(message);
    }

    /// Whether the notice's timer should run (a notice is shown).
    pub fn is_shown(&self) -> (r: bool)
        ensures
            r == self.message is Some,
    {
        self.message.is_some()
    }

    /// Takes the notice down once its timer has run out.
    pub fn update(&mut self, timer_finished: bool)
        ensures
            final(self).message == if timer_finished {
                None
            } else {
                old(self).message
            },
    {
        if self.message.is_some() && timer_finished {
            self.message = None;
        }
    }
}

} // verus!
