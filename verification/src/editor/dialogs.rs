//! The editor's modal dialogs: the unsaved-changes confirmation, the error
//! message box, and the keyboard shortcuts panel.

use vstd::prelude::*;
use vstd::string::StringExecFns;

verus! {

/// A file action that would discard unsaved changes.
#[derive(Debug, Clone, Copy, PartialEq, Eq, Structural)]
pub enum PendingAction {
    NewFile,
    OpenFile,
}

/// The buttons of the unsaved-changes dialog.
#[derive(Debug, Clone, Copy, PartialEq, Eq, Structural)]
pub enum ConfirmChoice {
    /// Save the scene, then go on with the pending action.
    Save,
    /// Go on with the pending action without saving.
    DontSave,
    /// Do nothing.
    Cancel,
}

/// What the editor does once the unsaved-changes dialog is answered.
#[derive(Debug, Clone, Copy, PartialEq, Eq, Structural)]
pub struct ConfirmOutcome {
    /// Save the scene first.
    pub save: bool,
    /// The file action to carry out, if any.
    pub proceed: Option<PendingAction>,
}

/// The unsaved-changes dialog: whether it is shown and for which action.
pub struct ConfirmationDialog {
    pub show: bool,
    pub pending_action: Option<PendingAction>,
}

impl Default for ConfirmationDialog {
    fn default() -> (d: ConfirmationDialog)
        ensures
            !d.show,
            d.pending_action is None,
    {
        ConfirmationDialog { show: false, pending_action: None }
    }
}

impl ConfirmationDialog {
    /// Shows the dialog, asking about `action`.
    pub fn request(&mut self, action: PendingAction)
        ensures
            final(self).show,
            final(self).pending_action == Some(action),
    {
        self.show = true;
        self.pending_action = Some(action);
    }

    /// Hides the dialog and forgets the action.
    pub fn close(&mut self)
        ensures
            !final(self).show,
            final(self).pending_action is None,
    {
        self.show = false;
        self.pending_action = None;
    }

    /// Asks for `action`: with unsaved changes the dialog is shown and the
    /// action waits (`false`); otherwise the action may go ahead at once
    /// (`true`) and the dialog is left as it was.
    pub fn guard(&mut self, dirty: bool, action: PendingAction) -> (go_ahead: bool)
        ensures
            go_ahead == !dirty,
            dirty ==> final(self).show && final(self).pending_action == Some(action),
            !dirty ==> final(self).show == old(self).show
                && final(self).pending_action == old(self).pending_action,
    {
        if dirty {
            self.request(action);
            false
        } else {
            true
        }
    }

    /// Answers the dialog: Save saves and then carries out the pending action,
    /// Don't Save carries it out, Cancel does neither. The dialog closes.
    pub fn resolve(&mut self, choice: ConfirmChoice) -> (out: ConfirmOutcome)
        ensures
            out.save == (choice == ConfirmChoice::Save),
            out.proceed == if choice == ConfirmChoice::Cancel {
                None
            } else {
                old(self).pending_action
            },
            !final(self).show,
            final(self).pending_action is None,
    {
        let proceed = match choice {
            ConfirmChoice::Cancel => None,
            _ => self.pending_action,
        };
        let save = match choice {
            ConfirmChoice::Save => true,
            _ => false,
        };
        self.close();
        ConfirmOutcome { save, proceed }
    }
}

/// A message box for an error, with its title and text.
pub struct ErrorDialog {
    pub show: bool,
    pub title: String,
    pub message: String,
}

impl Default for ErrorDialog {
    fn default() -> (d: ErrorDialog)
        ensures
            !d.show,
            d.title@ == Seq::<char>::empty(),
            d.message@ == Seq::<char>::empty(),
    {
        ErrorDialog { show: false, title: String::new(), message: String::new() }
    }
}

impl ErrorDialog {
    /// Shows `message` under `title`.
    pub fn show_error(&mut self, title: &str, message: &str)
        ensures
            final(self).show,
            final(self).title@ == title@,
            final(self).message@ == message@,
    {
        self.show = true;
        self.title = String::from_str(title);
        self.message = String::from_str(message);
    }

    /// Hides the box and empties its texts.
    pub fn close(&mut self)
        ensures
            !final(self).show,
            final(self).title@ == Seq::<char>::empty(),
            final(self).message@ == Seq::<char>::empty(),
    {
        self.show = false;
        self.title = String::new();
        self.message = String::new();
    }
}

/// The keyboard shortcuts reference panel.
pub struct ShortcutsPanel {
    pub show: bool,
}

impl Default for ShortcutsPanel {
    fn default() -> (p: ShortcutsPanel)
        ensures
            !p.show,
    {
        ShortcutsPanel { show: false }
    }
}

impl ShortcutsPanel {
    /// Shows the panel if hidden, hides it if shown.
    pub fn toggle(&mut self)
        ensures
            final(self).show == !old(self).show,
    {
        self.show = !self.show;
    }

    /// Hides the panel.
    pub fn close(&mut self)
        ensures
            !final(self).show,
    {
        self.show = false;
    }
}

} // verus!
