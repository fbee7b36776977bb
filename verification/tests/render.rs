use printcher::editor::render::{
    box_blur_pass, box_blur_pixels, confirmed_crop, make_annotation, push_annotation, push_step, redo, undo,
    Annotation, EditHistory, Tool,
};

type Point = (f64, f64);
type Color = (f64, f64, f64);

#[derive(Debug, Clone, Copy, PartialEq)]
struct CropRect {
    p0: Point,
    p1: Point,
}

#[derive(Debug, Clone, PartialEq)]
struct Line {
    p0: Point,
    p1: Point,
    color: Color,
    width: f64,
}

type Ann = Annotation<CropRect, Line, Vec<Point>, (Point, Color)>;

fn blank_state() -> EditHistory<CropRect, Line, Vec<Point>, (Point, Color)> {
    EditHistory::new()
}

fn line(p0: Point, p1: Point) -> Line {
    Line { p0, p1, color: (1.0, 0.0, 0.0), width: 1.0 }
}

#[test]
fn make_annotation_returns_the_matching_shape_for_drawing_tools() {
    let p0 = (0.0, 0.0);
    let p1 = (1.0, 1.0);

    assert!(matches!(make_annotation::<CropRect, Line, Vec<Point>, (Point, Color)>(Tool::Arrow, line(p0, p1)), Some(Annotation::Arrow { .. })));
    assert!(matches!(make_annotation::<CropRect, Line, Vec<Point>, (Point, Color)>(Tool::Rect, line(p0, p1)), Some(Annotation::Rect { .. })));
    assert!(matches!(make_annotation::<CropRect, Line, Vec<Point>, (Point, Color)>(Tool::Ellipse, line(p0, p1)), Some(Annotation::Ellipse { .. })));
}

#[test]
fn make_annotation_returns_none_for_non_shape_tools() {
    let p0 = (0.0, 0.0);
    let p1 = (1.0, 1.0);

    let crop: Option<Ann> = make_annotation(Tool::Crop, line(p0, p1));
    let pen: Option<Ann> = make_annotation(Tool::Pen, line(p0, p1));
    assert!(crop.is_none());
    assert!(pen.is_none());
}

#[test]
fn undo_moves_the_last_annotation_to_the_redo_stack() {
    let mut state = blank_state();
    push_annotation(&mut state, Annotation::Crop(CropRect { p0: (0.0, 0.0), p1: (2.0, 2.0) }));
    push_annotation(&mut state, Annotation::Arrow(line((0.0, 0.0), (1.0, 1.0))));

    undo(&mut state);
    assert_eq!(state.annotations.len(), 1, "corte não deve ser mexido enquanto houver anotação pra desfazer");
    assert!(confirmed_crop(&state).is_some());
    assert_eq!(state.redo_stack.len(), 1);

    undo(&mut state);
    assert!(state.annotations.is_empty());
    assert!(confirmed_crop(&state).is_none(), "sem mais anotações, o corte também deve sair");
    assert_eq!(state.redo_stack.len(), 2);
}

#[test]
fn redo_brings_back_the_last_undone_annotation() {
    let mut state = blank_state();
    push_annotation(&mut state, Annotation::Crop(CropRect { p0: (0.0, 0.0), p1: (2.0, 2.0) }));

    undo(&mut state);
    assert!(state.annotations.is_empty());

    redo(&mut state);
    assert!(confirmed_crop(&state).is_some());
    assert!(state.redo_stack.is_empty());
}

#[test]
fn pushing_a_new_annotation_clears_the_redo_stack() {
    let mut state = blank_state();
    push_annotation(&mut state, Annotation::Crop(CropRect { p0: (0.0, 0.0), p1: (2.0, 2.0) }));
    undo(&mut state);
    assert_eq!(state.redo_stack.len(), 1);

    push_annotation(&mut state, Annotation::Rect(line((0.0, 0.0), (1.0, 1.0))));
    assert!(state.redo_stack.is_empty(), "uma operação nova deve invalidar o que dava pra refazer");
}

#[test]
fn push_step_assigns_sequential_numbers_and_undo_redo_track_the_counter() {
    let mut state = blank_state();
    assert_eq!(state.step_n, 1);

    push_step(&mut state, ((5.0, 5.0), (1.0, 0.0, 0.0)));
    push_step(&mut state, ((8.0, 8.0), (1.0, 0.0, 0.0)));
    assert_eq!(state.step_n, 3);
    assert!(matches!(state.annotations[0], Annotation::Step { n: 1, .. }));
    assert!(matches!(state.annotations[1], Annotation::Step { n: 2, .. }));

    undo(&mut state);
    assert_eq!(state.step_n, 2, "desfazer o 2º passo deve liberar o número 2 de novo");

    redo(&mut state);
    assert_eq!(state.step_n, 3);
}

#[test]
fn the_newest_crop_is_the_one_in_force() {
    let mut state = blank_state();
    let first = CropRect { p0: (0.0, 0.0), p1: (2.0, 2.0) };
    let second = CropRect { p0: (1.0, 1.0), p1: (5.0, 4.0) };
    push_annotation(&mut state, Annotation::Crop(first));
    push_annotation(&mut state, Annotation::Pen(vec![(0.0, 0.0), (1.0, 2.0)]));
    push_annotation(&mut state, Annotation::Crop(second));
    push_annotation(&mut state, Annotation::Blur(first));
    assert_eq!(confirmed_crop(&state), Some(second));
    undo(&mut state);
    undo(&mut state);
    assert_eq!(confirmed_crop(&state), Some(first));
}

#[test]
fn undo_then_redo_gives_back_the_same_history() {
    let mut state = blank_state();
    push_step(&mut state, ((1.0, 1.0), (0.0, 0.0, 0.0)));
    push_annotation(&mut state, Annotation::Ellipse(line((0.0, 0.0), (3.0, 3.0))));
    push_step(&mut state, ((2.0, 2.0), (0.0, 0.0, 0.0)));
    let (len, step) = (state.annotations.len(), state.step_n);
    undo(&mut state);
    undo(&mut state);
    redo(&mut state);
    redo(&mut state);
    assert_eq!(state.annotations.len(), len);
    assert_eq!(state.step_n, step);
    assert!(state.redo_stack.is_empty());
    assert!(matches!(state.annotations[2], Annotation::Step { n: 2, .. }));
}

#[test]
fn undo_with_nothing_to_undo_does_nothing() {
    let mut state = blank_state();
    undo(&mut state);
    redo(&mut state);
    assert!(state.annotations.is_empty());
    assert!(state.redo_stack.is_empty());
    assert_eq!(state.step_n, 1);
}

/// An ARGB32 buffer (little-endian bytes B, G, R, A) of one colour.
fn solid(w: usize, h: usize, bgra: [u8; 4]) -> Vec<u8> {
    let mut v = Vec::with_capacity(w * h * 4);
    for _ in 0..w * h {
        v.extend_from_slice(&bgra);
    }
    v
}

#[test]
fn box_blur_keeps_a_uniform_color_unchanged() {
    // (0.4, 0.6, 0.8) -> R=102, G=153, B=204.
    let surface = solid(30, 30, [204, 153, 102, 255]);
    let blurred = box_blur_pixels(&surface, 30, 30, 30 * 4, 4);
    let idx = 15 * 30 * 4 + 15 * 4;
    assert_eq!(&blurred[idx..idx + 4], &[204, 153, 102, 255], "veio {:?}", &blurred[idx..idx + 4]);
    assert_eq!(blurred, surface);
}

#[test]
fn box_blur_softens_a_sharp_edge() {
    let (w, h) = (30usize, 30usize);
    let mut surface = Vec::with_capacity(w * h * 4);
    for _y in 0..h {
        for x in 0..w {
            if x < 15 {
                surface.extend_from_slice(&[0, 0, 0, 255]);
            } else {
                surface.extend_from_slice(&[255, 255, 255, 255]);
            }
        }
    }
    let blurred = box_blur_pixels(&surface, w, h, w * 4, 6);
    let idx = 15 * w * 4 + 15 * 4;
    let red = blurred[idx + 2];
    assert!(red > 20 && red < 235, "esperava um cinza intermediário na borda, veio {red}");
}

#[test]
fn a_horizontal_pass_averages_along_the_row_only() {
    // One row of 3 grey levels, one row of zeros; radius 1.
    let mut buf = vec![
        30, 30, 30, 30, 60, 60, 60, 60, 90, 90, 90, 90, // row 0
        0, 0, 0, 0, 0, 0, 0, 0, 0, 0, 0, 0, // row 1
    ];
    box_blur_pass(&mut buf, 3, 2, 12, 1, true);
    assert_eq!(&buf[0..4], &[45, 45, 45, 45]);
    assert_eq!(&buf[4..8], &[60, 60, 60, 60]);
    assert_eq!(&buf[8..12], &[75, 75, 75, 75]);
    assert_eq!(&buf[12..24], &[0; 12]);
}

#[test]
fn a_pass_leaves_the_row_padding_alone() {
    // 1 pixel per row, rows of 8 bytes: the last 4 bytes of each row are padding.
    let mut buf = vec![10, 10, 10, 10, 7, 7, 7, 7, 30, 30, 30, 30, 9, 9, 9, 9];
    box_blur_pass(&mut buf, 1, 2, 8, 1, false);
    assert_eq!(buf, vec![20, 20, 20, 20, 7, 7, 7, 7, 20, 20, 20, 20, 9, 9, 9, 9]);
}

#[test]
fn a_zero_radius_leaves_the_pixels_alone() {
    let data = vec![1, 2, 3, 4, 5, 6, 7, 8];
    assert_eq!(box_blur_pixels(&data, 2, 1, 8, 0), data);
}

#[test]
fn the_mean_rounds_down() {
    let mut buf = vec![0, 0, 0, 0, 1, 1, 1, 1];
    box_blur_pass(&mut buf, 2, 1, 8, 1, true);
    assert_eq!(buf, vec![0, 0, 0, 0, 0, 0, 0, 0]);
}

#[test]
fn each_channel_is_blurred_on_its_own() {
    // Same green channel, different red and blue: the blurred green agrees.
    let (w, h) = (4usize, 3usize);
    let mut a = Vec::new();
    let mut b = Vec::new();
    for i in 0..w * h {
        let g = (i * 20) as u8;
        a.extend_from_slice(&[(i * 7) as u8, g, 200, 255]);
        b.extend_from_slice(&[9, g, (i * 13) as u8, 0]);
    }
    let (mut pa, mut pb) = (a.clone(), b.clone());
    box_blur_pass(&mut pa, w, h, w * 4, 2, true);
    box_blur_pass(&mut pb, w, h, w * 4, 2, true);
    for p in 0..w * h {
        assert_eq!(pa[p * 4 + 1], pb[p * 4 + 1]);
    }
    // Swapping the blue and red bytes before the blur swaps them after it.
    let swap = |v: &Vec<u8>| -> Vec<u8> { v.chunks(4).flat_map(|px| [px[2], px[1], px[0], px[3]]).collect() };
    assert_eq!(box_blur_pixels(&swap(&a), w, h, w * 4, 1), swap(&box_blur_pixels(&a, w, h, w * 4, 1)));
}
