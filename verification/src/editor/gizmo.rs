//! The transform gizmo's modes: what a drag on a handle does, in which axes,
//! and how the keyboard switches between them.

use vstd::prelude::*;
use vstd::string::StringExecFns;

verus! {

/// What dragging a gizmo handle does to the selected objects.
#[derive(Debug, Clone, Copy, PartialEq, Eq, Structural)]
pub enum TransformMode {
    Translate,
    Rotate,
    Scale,
}

/// The coordinate space that the gizmo's axes follow.
#[derive(Debug, Clone, Copy, PartialEq, Eq, Structural)]
pub enum TransformOrientation {
    /// The world's X, Y and Z axes.
    Global,
    /// The selected object's own axes.
    Local,
}

/// The axis of a gizmo handle.
#[derive(Debug, Clone, Copy, PartialEq, Eq, Structural)]
pub enum GizmoAxis {
    X,
    Y,
    Z,
}

/// How fast a drag moves things, by the modifier keys held.
#[derive(Debug, Clone, Copy, PartialEq, Eq, Structural)]
pub enum DragSpeed {
    /// A quarter of the normal speed (Ctrl held).
    Quarter,
    /// Four times the normal speed (Shift held, Ctrl not).
    Quadruple,
    Normal,
}

/// The mode that F switches to: translate, rotate, scale, and round again.
pub open spec fn next_mode(m: TransformMode) -> TransformMode {
    match m {
        TransformMode::Translate => TransformMode::Rotate,
        TransformMode::Rotate => TransformMode::Scale,
        TransformMode::Scale => TransformMode::Translate,
    }
}

/// The mode that Shift+F switches to: the cycle of [`next_mode`] backwards.
pub open spec fn previous_mode(m: TransformMode) -> TransformMode {
    match m {
        TransformMode::Translate => TransformMode::Scale,
        TransformMode::Rotate => TransformMode::Translate,
        TransformMode::Scale => TransformMode::Rotate,
    }
}

/// The other orientation.
pub open spec fn flipped(o: TransformOrientation) -> TransformOrientation {
    match o {
        TransformOrientation::Global => TransformOrientation::Local,
        TransformOrientation::Local => TransformOrientation::Global,
    }
}

/// Shift+F undoes F, and F undoes Shift+F.
pub proof fn lemma_previous_undoes_next(m: TransformMode)
    ensures
        previous_mode(next_mode(m)) == m,
        next_mode(previous_mode(m)) == m,
{
}

/// Pressing F three times comes back to the starting mode, and no fewer
/// presses do.
pub proof fn lemma_next_cycles_in_three(m: TransformMode)
    ensures
        next_mode(next_mode(next_mode(m))) == m,
        next_mode(m) != m,
        next_mode(next_mode(m)) != m,
{
}

/// Pressing O twice gives the orientation back.
pub proof fn lemma_flip_twice(o: TransformOrientation)
    ensures
        flipped(flipped(o)) == o,
        flipped(o) != o,
{
}

impl Default for TransformMode {
    fn default() -> (m: TransformMode)
        ensures
            m == TransformMode::Translate,
    {
        TransformMode::Translate
    }
}

impl Default for TransformOrientation {
    fn default() -> (o: TransformOrientation)
        ensures
            o == TransformOrientation::Global,
    {
        TransformOrientation::Global
    }
}

impl TransformMode {
    /// The mode after this one in the cycle.
    pub fn next(self) -> (r: TransformMode)
        ensures
            r == next_mode(self),
    {
        match self {
            TransformMode::Translate => TransformMode::Rotate,
            TransformMode::Rotate => TransformMode::Scale,
            TransformMode::Scale => TransformMode::Translate,
        }
    }

    /// The mode before this one in the cycle.
    pub fn previous(self) -> (r: TransformMode)
        ensures
            r == previous_mode(self),
    {
        match self {
            TransformMode::Translate => TransformMode::Scale,
            TransformMode::Rotate => TransformMode::Translate,
            TransformMode::Scale => TransformMode::Rotate,
        }
    }
}

impl TransformOrientation {
    /// The other orientation.
    pub fn flip(self) -> (r: TransformOrientation)
        ensures
            r == flipped(self),
    {
        match self {
            TransformOrientation::Global => TransformOrientation::Local,
            TransformOrientation::Local => TransformOrientation::Global,
        }
    }
}

/// The gizmo's current mode and orientation.
pub struct GizmoState {
    pub mode: TransformMode,
    pub orientation: TransformOrientation,
}

impl Default for GizmoState {
    fn default() -> (s: GizmoState)
        ensures
            s.mode == TransformMode::Translate,
            s.orientation == TransformOrientation::Global,
    {
        GizmoState { mode: TransformMode::Translate, orientation: TransformOrientation::Global }
    }
}

impl GizmoState {
    /// The keyboard's effect in one frame: F steps the mode forward (backward
    /// with Shift held), O switches the orientation.
    pub fn toggle_transform_mode(&mut self, f_pressed: bool, shift_held: bool, o_pressed: bool)
        ensures
            final(self).mode == if !f_pressed {
                old(self).mode
            } else if shift_held {
                previous_mode(old(self).mode)
            } else {
                next_mode(old(self).mode)
            },
            final(self).orientation == if o_pressed {
                flipped(old(self).orientation)
            } else {
                old(self).orientation
            },
    {
        if f_pressed {
            self.mode = if shift_held {
                self.mode.previous()
            } else {
                self.mode.next()
            };
        }
        if o_pressed {
            self.orientation = self.orientation.flip();
        }
    }

    /// The status bar's mode indicator: "Mode: " and the mode's name.
    pub fn mode_text(&self) -> (r: String)
        ensures
            r@ == "Mode: "@ + match self.mode {
                TransformMode::Translate => "Translate"@,
                TransformMode::Rotate => "Rotate"@,
                TransformMode::Scale => "Scale"@,
            },
    {
        let name = match self.mode {
            TransformMode::Translate => "Translate",
            TransformMode::Rotate => "Rotate",
            TransformMode::Scale => "Scale",
        };
        String::from_str("Mode: ").concat(name)
    }

    /// Whether a drag moves the selection along the world's axes: always for
    /// several objects (their local axes would disagree), else as the
    /// orientation says.
    pub fn drags_in_world_axes(&self, selection_len: usize) -> (r: bool)
        ensures
            r == (selection_len > 1 || self.orientation == TransformOrientation::Global),
    {
        selection_len > 1 || self.orientation == TransformOrientation::Global
    }

    /// Whether a translation is snapped to the grid along the dragged axis:
    /// for a single object, or when the axes are the world's.
    pub fn snaps_translation(&self, selection_len: usize) -> (r: bool)
        ensures
            r == (selection_len == 1 || self.orientation == TransformOrientation::Global),
    {
        selection_len == 1 || self.orientation == TransformOrientation::Global
    }
}

/// The drag speed for the modifier keys held: Ctrl slows down, and wins over
/// Shift, which speeds up.
pub fn drag_speed(ctrl_held: bool, shift_held: bool) -> (s: DragSpeed)
    ensures
        s == if ctrl_held {
            DragSpeed::Quarter
        } else if shift_held {
            DragSpeed::Quadruple
        } else {
            DragSpeed::Normal
        },
{
    if ctrl_held {
        DragSpeed::Quarter
    } else if shift_held {
        DragSpeed::Quadruple
    } else {
        DragSpeed::Normal
    }
}

} // verus!
