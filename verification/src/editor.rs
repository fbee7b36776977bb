//! Decisions of the capture editor window: what a key press or the end of
//! a drag does. The window itself (widgets, drawing) is not here.
pub mod render;

use vstd::prelude::*;
use render::{spec_make_annotation, Annotation, Tool};

verus! {

/// The keys the editor reacts to.
#[derive(Debug, Clone, Copy, PartialEq, Eq, Structural)]
pub enum EditorKey {
    Escape,
    Return,
    KeypadEnter,
    /// `z`.
    LowerZ,
    /// `Z`.
    UpperZ,
    /// `s`.
    LowerS,
    /// `c`.
    LowerC,
    Other,
}

/// What the editor does.
#[derive(Debug, Clone, Copy, PartialEq, Eq, Structural)]
pub enum EditorAction {
    Close,
    Save,
    Undo,
    Redo,
    Copy,
}

/// The editor's keyboard shortcuts: Esc closes, Enter saves, Ctrl+Shift+Z
/// redoes, Ctrl+Z undoes, Ctrl+S saves, Ctrl+C copies; other keys go on to
/// the focused widget.
pub open spec fn spec_key_action(key: EditorKey, ctrl: bool, shift: bool) -> Option<EditorAction> {
    let is_z = key == EditorKey::LowerZ || key == EditorKey::UpperZ;
    if key == EditorKey::Escape {
        Some(EditorAction::Close)
    } else if key == EditorKey::Return || key == EditorKey::KeypadEnter {
        Some(EditorAction::Save)
    } else if ctrl && shift && is_z {
        Some(EditorAction::Redo)
    } else if ctrl && is_z {
        Some(EditorAction::Undo)
    } else if ctrl && key == EditorKey::LowerS {
        Some(EditorAction::Save)
    } else if ctrl && key == EditorKey::LowerC {
        Some(EditorAction::Copy)
    } else {
        None
    }
}

pub fn key_action(key: EditorKey, ctrl: bool, shift: bool) -> (a: Option<EditorAction>)
    ensures
        a == spec_key_action(key, ctrl, shift),
{
    if key == EditorKey::Escape {
        return Some(EditorAction::Close);
    }
    if key == EditorKey::Return || key == EditorKey::KeypadEnter {
        return Some(EditorAction::Save);
    }
    let is_z = key == EditorKey::LowerZ || key == EditorKey::UpperZ;
    if ctrl {
        if shift && is_z {
            return Some(EditorAction::Redo);
        }
        if is_z {
            return Some(EditorAction::Undo);
        }
        if key == EditorKey::LowerS {
            return Some(EditorAction::Save);
        }
        if key == EditorKey::LowerC {
            return Some(EditorAction::Copy);
        }
    }
    None
}

/// What releasing a drag adds to the history.
#[derive(Debug, Clone, Copy, PartialEq, Eq, Structural)]
pub enum DragRelease {
    /// A crop of the dragged rectangle; choosing a crop area means the
    /// editing is done, so the capture is saved right away.
    CropAndSave,
    /// A blur of the dragged rectangle.
    Blur,
    /// The arrow, rectangle or ellipse of the drag.
    Shape,
    /// The pen stroke of the drag.
    Pen,
    /// Nothing.
    Nothing,
}

/// A drag that moved no more than the minimum in both directions makes no
/// annotation (a shaky click draws nothing); the step tool works by clicks,
/// not drags.
pub open spec fn spec_drag_release(tool: Tool, moved: bool) -> DragRelease {
    if !moved {
        DragRelease::Nothing
    } else {
        match tool {
            Tool::Crop => DragRelease::CropAndSave,
            Tool::Blur => DragRelease::Blur,
            Tool::Arrow | Tool::Rect | Tool::Ellipse => DragRelease::Shape,
            Tool::Pen => DragRelease::Pen,
            Tool::Step => DragRelease::Nothing,
        }
    }
}

/// What to do when a drag with `tool` is released; `moved` tells whether
/// the drag went further than the minimum in x or in y.
pub fn drag_release(tool: Tool, moved: bool) -> (r: DragRelease)
    ensures
        r == spec_drag_release(tool, moved),
{
    if !moved {
        return DragRelease::Nothing;
    }
    match tool {
        Tool::Crop => DragRelease::CropAndSave,
        Tool::Blur => DragRelease::Blur,
        Tool::Arrow | Tool::Rect | Tool::Ellipse => DragRelease::Shape,
        Tool::Pen => DragRelease::Pen,
        Tool::Step => DragRelease::Nothing,
    }
}

/// The title of the notification of a saved capture, which says whether
/// the capture was also copied to the clipboard.
pub fn saved_title(auto_copy: bool) -> (title: &'static str)
    ensures
        title@ == (if auto_copy { "Salva e copiada"@ } else { "Captura salva"@ }),
{
    if auto_copy {
        "Salva e copiada"
    } else {
        "Captura salva"
    }
}

/// What releasing a drag adds follows the tool: a drag that did not move
/// adds nothing; a moved drag adds a shape exactly with the tools for which
/// [`render::make_annotation`] draws one (arrow, rectangle, ellipse), and
/// that shape is the tool's own kind of annotation; the crop tool crops and
/// saves, the blur tool blurs, the pen draws its stroke, and the step tool,
/// which works by clicks, adds nothing.
pub proof fn lemma_drag_release_follows_the_tool<A, S, P, M>(tool: Tool, shape: S)
    ensures
        spec_drag_release(tool, false) == DragRelease::Nothing,
        (spec_drag_release(tool, true) == DragRelease::Shape) <==> spec_make_annotation::<A, S, P, M>(
            tool,
            shape,
        ) is Some,
        spec_drag_release(tool, true) == DragRelease::Shape ==> match spec_make_annotation::<A, S, P, M>(
            tool,
            shape,
        ) {
            Some(Annotation::Arrow(s)) => tool == Tool::Arrow && s == shape,
            Some(Annotation::Rect(s)) => tool == Tool::Rect && s == shape,
            Some(Annotation::Ellipse(s)) => tool == Tool::Ellipse && s == shape,
            _ => false,
        },
        (spec_drag_release(tool, true) == DragRelease::CropAndSave) <==> tool == Tool::Crop,
        (spec_drag_release(tool, true) == DragRelease::Blur) <==> tool == Tool::Blur,
        (spec_drag_release(tool, true) == DragRelease::Pen) <==> tool == Tool::Pen,
        tool == Tool::Step ==> spec_drag_release(tool, true) == DragRelease::Nothing,
{
}

/// The keyboard: Esc always closes and Enter (either key) always saves,
/// whatever modifier is held; without Ctrl no other key does anything;
/// with Ctrl, `z` or `Z` undoes, and adding Shift turns that undo into the
/// redo; Ctrl+S saves and Ctrl+C copies.
pub proof fn lemma_editor_keys(key: EditorKey, ctrl: bool, shift: bool)
    ensures
        spec_key_action(EditorKey::Escape, ctrl, shift) == Some(EditorAction::Close),
        spec_key_action(EditorKey::Return, ctrl, shift) == Some(EditorAction::Save),
        spec_key_action(EditorKey::KeypadEnter, ctrl, shift) == Some(EditorAction::Save),
        !ctrl && key != EditorKey::Escape && key != EditorKey::Return && key != EditorKey::KeypadEnter
            ==> spec_key_action(key, ctrl, shift) is None,
        spec_key_action(EditorKey::LowerZ, true, false) == Some(EditorAction::Undo),
        spec_key_action(EditorKey::UpperZ, true, false) == Some(EditorAction::Undo),
        spec_key_action(EditorKey::LowerZ, true, true) == Some(EditorAction::Redo),
        spec_key_action(EditorKey::UpperZ, true, true) == Some(EditorAction::Redo),
        spec_key_action(EditorKey::LowerS, true, shift) == Some(EditorAction::Save),
        spec_key_action(EditorKey::LowerC, true, shift) == Some(EditorAction::Copy),
        spec_key_action(EditorKey::Other, ctrl, shift) is None,
{
}

} // verus!
