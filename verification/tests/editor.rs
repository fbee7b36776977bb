use printcher::editor::render::Tool;
use printcher::editor::{drag_release, key_action, saved_title, DragRelease, EditorAction, EditorKey};

#[test]
fn editor_keyboard_shortcuts() {
    assert_eq!(key_action(EditorKey::Escape, false, false), Some(EditorAction::Close));
    assert_eq!(key_action(EditorKey::Return, false, false), Some(EditorAction::Save));
    assert_eq!(key_action(EditorKey::KeypadEnter, true, true), Some(EditorAction::Save));
    assert_eq!(key_action(EditorKey::LowerZ, true, true), Some(EditorAction::Redo));
    assert_eq!(key_action(EditorKey::UpperZ, true, true), Some(EditorAction::Redo));
    assert_eq!(key_action(EditorKey::LowerZ, true, false), Some(EditorAction::Undo));
    assert_eq!(key_action(EditorKey::LowerS, true, false), Some(EditorAction::Save));
    assert_eq!(key_action(EditorKey::LowerC, true, false), Some(EditorAction::Copy));
    assert_eq!(key_action(EditorKey::LowerZ, false, false), None);
    assert_eq!(key_action(EditorKey::LowerC, false, false), None);
    assert_eq!(key_action(EditorKey::Other, true, true), None);
}

#[test]
fn releasing_a_drag() {
    assert_eq!(drag_release(Tool::Crop, true), DragRelease::CropAndSave);
    assert_eq!(drag_release(Tool::Blur, true), DragRelease::Blur);
    assert_eq!(drag_release(Tool::Arrow, true), DragRelease::Shape);
    assert_eq!(drag_release(Tool::Ellipse, true), DragRelease::Shape);
    assert_eq!(drag_release(Tool::Pen, true), DragRelease::Pen);
    assert_eq!(drag_release(Tool::Step, true), DragRelease::Nothing);
    assert_eq!(drag_release(Tool::Crop, false), DragRelease::Nothing);
}

#[test]
fn the_saved_notification_says_whether_it_was_copied() {
    assert_eq!(saved_title(true), "Salva e copiada");
    assert_eq!(saved_title(false), "Captura salva");
}
