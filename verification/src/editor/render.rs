//! Editor state that does not depend on a window: the undo/redo history of
//! annotations (the crop included), the step counter, and the box blur over
//! raw ARGB32 pixel bytes.
//!
//! The geometry of each annotation (points, colours, stroke widths) is
//! carried through untouched: it is a type parameter of [`Annotation`], so
//! the history logic is stated for every kind of geometry the window uses.
use vstd::prelude::*;
use vstd::arithmetic::div_mod::*;
use vstd::arithmetic::mul::*;

verus! {

/// The editor's tools.
#[derive(Debug, Clone, Copy, PartialEq, Eq, Structural)]
pub enum Tool {
    Crop,
    Arrow,
    Rect,
    Ellipse,
    Pen,
    Blur,
    Step,
}

/// One operation of the editor. `A` is the rectangle of a crop or a blur,
/// `S` the geometry of an arrow, rectangle or ellipse, `P` a pen stroke and
/// `M` the position and colour of a numbered step.
///
/// The crop is an operation on the same undo/redo stack as the drawings:
/// undoing a crop brings the whole image back.
#[derive(Debug, Clone)]
pub enum Annotation<A, S, P, M> {
    Crop(A),
    Arrow(S),
    Rect(S),
    Ellipse(S),
    Pen(P),
    Blur(A),
    Step { mark: M, n: u32 },
}

/// The annotations made so far, the ones that can be redone, and the next
/// number that the step tool hands out.
pub struct EditHistory<A, S, P, M> {
    pub annotations: Vec<Annotation<A, S, P, M>>,
    pub redo_stack: Vec<Annotation<A, S, P, M>>,
    pub step_n: u32,
}

/// The mathematical model of an [`EditHistory`].
pub struct HistoryModel<A, S, P, M> {
    pub annotations: Seq<Annotation<A, S, P, M>>,
    pub redo_stack: Seq<Annotation<A, S, P, M>>,
    pub step_n: int,
}

impl<A, S, P, M> View for EditHistory<A, S, P, M> {
    type V = HistoryModel<A, S, P, M>;

    open spec fn view(&self) -> HistoryModel<A, S, P, M> {
        HistoryModel {
            annotations: self.annotations@,
            redo_stack: self.redo_stack@,
            step_n: self.step_n as int,
        }
    }
}

/// Number of numbered steps in `s`.
pub open spec fn step_count<A, S, P, M>(s: Seq<Annotation<A, S, P, M>>) -> nat
    decreases s.len(),
{
    if s.len() == 0 {
        0
    } else {
        step_count(s.drop_last()) + if s.last() is Step { 1nat } else { 0nat }
    }
}

/// The crop in force: the last crop of `s`, if any.
pub open spec fn last_crop<A, S, P, M>(s: Seq<Annotation<A, S, P, M>>) -> Option<A>
    decreases s.len(),
{
    if s.len() == 0 {
        None
    } else {
        match s.last() {
            Annotation::Crop(r) => Some(r),
            _ => last_crop(s.drop_last()),
        }
    }
}

/// Every operation that was made and not discarded, in order: the
/// annotations on screen followed by the ones that can be redone, the next
/// one to redo first.
pub open spec fn timeline<A, S, P, M>(h: HistoryModel<A, S, P, M>) -> Seq<Annotation<A, S, P, M>> {
    h.annotations + h.redo_stack.reverse()
}

/// The steps of `t` are numbered 1, 2, 3, ... in the order they appear.
pub open spec fn steps_numbered<A, S, P, M>(t: Seq<Annotation<A, S, P, M>>) -> bool {
    forall|i: int|
        #![trigger t[i]]
        0 <= i < t.len() && t[i] is Step ==> t[i]->n == 1 + step_count(t.take(i))
}

/// A history built by the editor: steps are numbered in order along the
/// whole timeline, and the counter is one past the steps on screen.
pub open spec fn well_formed<A, S, P, M>(h: HistoryModel<A, S, P, M>) -> bool {
    &&& steps_numbered(timeline(h))
    &&& h.step_n == 1 + step_count(h.annotations)
}

/// A new operation goes on top and discards what could be redone.
pub open spec fn spec_push<A, S, P, M>(
    h: HistoryModel<A, S, P, M>,
    ann: Annotation<A, S, P, M>,
) -> HistoryModel<A, S, P, M> {
    HistoryModel { annotations: h.annotations.push(ann), redo_stack: Seq::empty(), step_n: h.step_n }
}

/// Undo moves the last operation to the redo stack; undoing a step gives
/// its number back (the counter never goes below 1).
pub open spec fn spec_undo<A, S, P, M>(h: HistoryModel<A, S, P, M>) -> HistoryModel<A, S, P, M> {
    if h.annotations.len() == 0 {
        h
    } else {
        let ann = h.annotations.last();
        HistoryModel {
            annotations: h.annotations.drop_last(),
            redo_stack: h.redo_stack.push(ann),
            step_n: if ann is Step {
                if h.step_n <= 1 { 1 } else { h.step_n - 1 }
            } else {
                h.step_n
            },
        }
    }
}

/// Redo moves the last undone operation back; redoing a step takes its
/// number again.
pub open spec fn spec_redo<A, S, P, M>(h: HistoryModel<A, S, P, M>) -> HistoryModel<A, S, P, M> {
    if h.redo_stack.len() == 0 {
        h
    } else {
        let ann = h.redo_stack.last();
        HistoryModel {
            annotations: h.annotations.push(ann),
            redo_stack: h.redo_stack.drop_last(),
            step_n: if ann is Step { h.step_n + 1 } else { h.step_n },
        }
    }
}

/// Redo would bring back a numbered step, and so advance the counter.
pub open spec fn redo_takes_number<A, S, P, M>(h: HistoryModel<A, S, P, M>) -> bool {
    h.redo_stack.len() > 0 && (h.redo_stack.last() is Step)
}

/// The step tool numbers its mark with the counter, then advances it.
pub open spec fn spec_push_step<A, S, P, M>(h: HistoryModel<A, S, P, M>, mark: M) -> HistoryModel<A, S, P, M> {
    let pushed = spec_push(h, Annotation::Step { mark, n: h.step_n as u32 });
    HistoryModel { step_n: h.step_n + 1, ..pushed }
}

impl<A, S, P, M> EditHistory<A, S, P, M> {
    /// An empty history whose first step will be number 1.
    pub fn new() -> (h: Self)
        ensures
            h@.annotations == Seq::<Annotation<A, S, P, M>>::empty(),
            h@.redo_stack == Seq::<Annotation<A, S, P, M>>::empty(),
            h@.step_n == 1,
            well_formed(h@),
    {
        EditHistory { annotations: Vec::new(), redo_stack: Vec::new(), step_n: 1 }
    }
}

/// Adds a new operation (a crop included) and clears the redo stack: any
/// new operation invalidates what could be redone before it.
pub fn push_annotation<A, S, P, M>(state: &mut EditHistory<A, S, P, M>, ann: Annotation<A, S, P, M>)
    ensures
        final(state)@ == spec_push(old(state)@, ann),
        well_formed(old(state)@) && !(ann is Step) ==> well_formed(final(state)@),
{
    proof {
        if well_formed(old(state)@) && !(ann is Step) {
            lemma_push_preserves_well_formed(old(state)@, ann);
        }
    }
    state.annotations.push(ann);
    state.redo_stack.clear();
}

pub fn undo<A, S, P, M>(state: &mut EditHistory<A, S, P, M>)
    ensures
        final(state)@ == spec_undo(old(state)@),
        well_formed(old(state)@) ==> well_formed(final(state)@),
{
    proof {
        if well_formed(old(state)@) {
            lemma_undo_preserves_well_formed(old(state)@);
        }
    }
    if let Some(ann) = state.annotations.pop() {
        if matches!(ann, Annotation::Step { .. }) {
            state.step_n = if state.step_n <= 1 { 1 } else { state.step_n - 1 };
        }
        state.redo_stack.push(ann);
    }
}

pub fn redo<A, S, P, M>(state: &mut EditHistory<A, S, P, M>)
    requires
        redo_takes_number(old(state)@) ==> old(state).step_n < u32::MAX,
    ensures
        final(state)@ == spec_redo(old(state)@),
        well_formed(old(state)@) ==> well_formed(final(state)@),
{
    proof {
        if well_formed(old(state)@) {
            lemma_redo_preserves_well_formed(old(state)@);
        }
    }
    if let Some(ann) = state.redo_stack.pop() {
        if matches!(ann, Annotation::Step { .. }) {
            state.step_n = state.step_n + 1;
        }
        state.annotations.push(ann);
    }
}

/// Pushes a numbered step with the next free number and advances the
/// counter.
pub fn push_step<A, S, P, M>(state: &mut EditHistory<A, S, P, M>, mark: M)
    requires
        old(state).step_n < u32::MAX,
    ensures
        final(state)@ == spec_push_step(old(state)@, mark),
        well_formed(old(state)@) ==> well_formed(final(state)@),
{
    proof {
        if well_formed(old(state)@) {
            lemma_push_step_preserves_well_formed(old(state)@, mark);
        }
    }
    let n = state.step_n;
    push_annotation(state, Annotation::Step { mark, n });
    state.step_n = state.step_n + 1;
}

/// The confirmed crop is the last crop on the stack: cropping again after
/// a crop makes the newer one count.
pub fn confirmed_crop<A: Copy, S, P, M>(state: &EditHistory<A, S, P, M>) -> (r: Option<A>)
    ensures
        r == last_crop(state@.annotations),
{
    let mut i = state.annotations.len();
    assert(state@.annotations.take(i as int) =~= state@.annotations);
    while i > 0
        invariant
            i <= state.annotations.len(),
            last_crop(state@.annotations) == last_crop(state@.annotations.take(i as int)),
        decreases i,
    {
        assert(state@.annotations.take(i as int).drop_last() =~= state@.annotations.take(i - 1));
        match &state.annotations[i - 1] {
            Annotation::Crop(r) => {
                return Some(*r);
            },
            _ => {},
        }
        i = i - 1;
    }
    None
}

/// The shape that a drag draws with `tool`: an arrow, a rectangle or an
/// ellipse of the drag's geometry, for the three shape tools; nothing for
/// the others.
pub open spec fn spec_make_annotation<A, S, P, M>(tool: Tool, shape: S) -> Option<Annotation<A, S, P, M>> {
    match tool {
        Tool::Arrow => Some(Annotation::<A, S, P, M>::Arrow(shape)),
        Tool::Rect => Some(Annotation::<A, S, P, M>::Rect(shape)),
        Tool::Ellipse => Some(Annotation::<A, S, P, M>::Ellipse(shape)),
        _ => None,
    }
}

/// The shape that a drag draws with `tool`, for the tools that draw one.
pub fn make_annotation<A, S, P, M>(tool: Tool, shape: S) -> (r: Option<Annotation<A, S, P, M>>)
    ensures
        r == spec_make_annotation::<A, S, P, M>(tool, shape),
        r == match tool {
            Tool::Arrow => Some(Annotation::<A, S, P, M>::Arrow(shape)),
            Tool::Rect => Some(Annotation::<A, S, P, M>::Rect(shape)),
            Tool::Ellipse => Some(Annotation::<A, S, P, M>::Ellipse(shape)),
            _ => None,
        },
{
    match tool {
        Tool::Arrow => Some(Annotation::Arrow(shape)),
        Tool::Rect => Some(Annotation::Rect(shape)),
        Tool::Ellipse => Some(Annotation::Ellipse(shape)),
        _ => None,
    }
}


/// Undo then redo gives back the same history, on a history built by the
/// editor with something to undo.
pub proof fn lemma_undo_then_redo_restores<A, S, P, M>(h: HistoryModel<A, S, P, M>)
    requires
        well_formed(h),
        h.annotations.len() > 0,
    ensures
        spec_redo(spec_undo(h)) == h,
{
    let a = h.annotations;
    assert(a.drop_last().push(a.last()) =~= a);
    assert(h.redo_stack.push(a.last()).drop_last() =~= h.redo_stack);
}

/// Redo then undo gives back the same history, on a history built by the
/// editor with something to redo.
pub proof fn lemma_redo_then_undo_restores<A, S, P, M>(h: HistoryModel<A, S, P, M>)
    requires
        well_formed(h),
        h.redo_stack.len() > 0,
    ensures
        spec_undo(spec_redo(h)) == h,
{
    let r = h.redo_stack;
    assert(h.annotations.push(r.last()).drop_last() =~= h.annotations);
    assert(r.drop_last().push(r.last()) =~= r);
}

/// Undo and redo only move the boundary between what is on screen and
/// what can be redone: the timeline of operations stays the same.
pub proof fn lemma_undo_redo_keep_timeline<A, S, P, M>(h: HistoryModel<A, S, P, M>)
    ensures
        timeline(spec_undo(h)) == timeline(h),
        timeline(spec_redo(h)) == timeline(h),
{
    if h.annotations.len() > 0 {
        let a = h.annotations;
        let r = h.redo_stack;
        assert(timeline(spec_undo(h)) =~= timeline(h)) by {
            assert(r.push(a.last()).reverse() =~= seq![a.last()] + r.reverse());
            assert(a.drop_last() + (seq![a.last()] + r.reverse()) =~= a + r.reverse());
        }
    }
    if h.redo_stack.len() > 0 {
        let a = h.annotations;
        let r = h.redo_stack;
        assert(timeline(spec_redo(h)) =~= timeline(h)) by {
            assert(r.reverse() =~= seq![r.last()] + r.drop_last().reverse());
            assert(a.push(r.last()) + r.drop_last().reverse() =~= a + (seq![r.last()] + r.drop_last().reverse()));
        }
    }
}

/// Undo keeps a history well formed.
pub proof fn lemma_undo_preserves_well_formed<A, S, P, M>(h: HistoryModel<A, S, P, M>)
    requires
        well_formed(h),
    ensures
        well_formed(spec_undo(h)),
{
    lemma_undo_redo_keep_timeline(h);
}

/// Redo keeps a history well formed.
pub proof fn lemma_redo_preserves_well_formed<A, S, P, M>(h: HistoryModel<A, S, P, M>)
    requires
        well_formed(h),
    ensures
        well_formed(spec_redo(h)),
{
    lemma_undo_redo_keep_timeline(h);
    if h.redo_stack.len() > 0 {
        assert(h.annotations.push(h.redo_stack.last()).drop_last() =~= h.annotations);
    }
}

/// A prefix of a timeline whose steps are numbered in order has its steps
/// numbered in order too.
proof fn lemma_prefix_numbered<A, S, P, M>(t: Seq<Annotation<A, S, P, M>>, k: int)
    requires
        steps_numbered(t),
        0 <= k <= t.len(),
    ensures
        steps_numbered(t.take(k)),
{
    assert forall|i: int|
        #![trigger t.take(k)[i]]
        0 <= i < k && t.take(k)[i] is Step implies t.take(k)[i]->n == 1 + step_count(
            t.take(k).take(i),
        ) by {
        assert(t.take(k).take(i) =~= t.take(i));
        assert(t[i] == t.take(k)[i]);
    }
}

/// Pushing a new operation other than a step keeps a history well formed.
pub proof fn lemma_push_preserves_well_formed<A, S, P, M>(
    h: HistoryModel<A, S, P, M>,
    ann: Annotation<A, S, P, M>,
)
    requires
        well_formed(h),
        !(ann is Step),
    ensures
        well_formed(spec_push(h, ann)),
{
    let a = h.annotations;
    let t = timeline(h);
    let t2 = timeline(spec_push(h, ann));
    assert(t2 =~= a.push(ann));
    assert(t.take(a.len() as int) =~= a);
    lemma_prefix_numbered(t, a.len() as int);
    assert forall|i: int| #![trigger t2[i]] 0 <= i < t2.len() && t2[i] is Step implies t2[i]->n == 1
        + step_count(t2.take(i)) by {
        assert(i < a.len());
        assert(t2.take(i) =~= a.take(i));
        assert(t2[i] == a[i]);
    }
    assert(a.push(ann).drop_last() =~= a);
}

/// The step tool keeps a history well formed: its new step gets the next
/// number in order.
pub proof fn lemma_push_step_preserves_well_formed<A, S, P, M>(h: HistoryModel<A, S, P, M>, mark: M)
    requires
        well_formed(h),
        h.step_n < u32::MAX,
    ensures
        well_formed(spec_push_step(h, mark)),
{
    let a = h.annotations;
    let t = timeline(h);
    let ann = Annotation::<A, S, P, M>::Step { mark, n: h.step_n as u32 };
    let t2 = a.push(ann);
    assert(timeline(spec_push_step(h, mark)) =~= t2);
    assert(t.take(a.len() as int) =~= a);
    lemma_prefix_numbered(t, a.len() as int);
    assert forall|i: int| #![trigger t2[i]] 0 <= i < t2.len() && t2[i] is Step implies t2[i]->n == 1
        + step_count(t2.take(i)) by {
        if i < a.len() {
            assert(t2.take(i) =~= a.take(i));
            assert(t2[i] == a[i]);
        } else {
            assert(t2.take(i) =~= a);
        }
    }
    assert(t2.drop_last() =~= a);
}

/// Undoing an operation that is not a crop leaves the crop in force
/// unchanged.
pub proof fn lemma_undo_keeps_crop<A, S, P, M>(h: HistoryModel<A, S, P, M>)
    requires
        h.annotations.len() > 0,
        !(h.annotations.last() is Crop),
    ensures
        last_crop(spec_undo(h).annotations) == last_crop(h.annotations),
{
}


/// Blur radius, in image pixels: the same for the live preview and for the
/// saved image, so that what is dragged is what gets saved.
pub const BLUR_RADIUS: usize = 10;

/// Position of the byte of channel `c` of the pixel (x, y) in an ARGB32
/// buffer whose rows are `stride` bytes apart.
pub open spec fn pixel_index(stride: int, x: int, y: int, c: int) -> int {
    y * stride + x * 4 + c
}

/// Position of channel `c` of the `k`-th pixel of the row (horizontal pass)
/// or column (vertical pass) that goes through (x, y).
pub open spec fn sample_index(stride: int, horizontal: bool, x: int, y: int, k: int, c: int) -> int {
    if horizontal {
        pixel_index(stride, k, y, c)
    } else {
        pixel_index(stride, x, k, c)
    }
}

/// First position of the window of `radius` around `p`.
pub open spec fn window_lo(p: int, radius: int) -> int {
    if p - radius < 0 {
        0
    } else {
        p - radius
    }
}

/// Last position of the window of `radius` around `p`, inside `[0, dim)`.
pub open spec fn window_hi(p: int, radius: int, dim: int) -> int {
    if p + radius > dim - 1 {
        dim - 1
    } else {
        p + radius
    }
}

/// Sum of channel `c` over the positions `lo..=hi` of the pass through (x, y).
pub open spec fn window_sum(
    b: Seq<u8>,
    stride: int,
    horizontal: bool,
    x: int,
    y: int,
    c: int,
    lo: int,
    hi: int,
) -> int
    decreases hi - lo + 1,
{
    if hi < lo {
        0
    } else {
        window_sum(b, stride, horizontal, x, y, c, lo, hi - 1) + b[sample_index(
            stride,
            horizontal,
            x,
            y,
            hi,
            c,
        )] as int
    }
}

/// Position of (x, y) along the pass.
pub open spec fn pass_pos(horizontal: bool, x: int, y: int) -> int {
    if horizontal {
        x
    } else {
        y
    }
}

/// Length of the rows (horizontal pass) or columns (vertical pass).
pub open spec fn pass_dim(horizontal: bool, width: int, height: int) -> int {
    if horizontal {
        width
    } else {
        height
    }
}

/// Sum of channel `c` over the whole window of the pixel (x, y).
pub open spec fn pixel_window_sum(
    b: Seq<u8>,
    width: int,
    height: int,
    stride: int,
    radius: int,
    horizontal: bool,
    x: int,
    y: int,
    c: int,
) -> int {
    let p = pass_pos(horizontal, x, y);
    let dim = pass_dim(horizontal, width, height);
    window_sum(b, stride, horizontal, x, y, c, window_lo(p, radius), window_hi(p, radius, dim))
}

/// The new value of channel `c` of the pixel (x, y): the mean, rounded
/// down, of that channel over the window of `radius` around the pixel
/// along the pass, cut at the image's border.
pub open spec fn blurred_byte(
    b: Seq<u8>,
    width: int,
    height: int,
    stride: int,
    radius: int,
    horizontal: bool,
    x: int,
    y: int,
    c: int,
) -> int {
    let p = pass_pos(horizontal, x, y);
    let dim = pass_dim(horizontal, width, height);
    pixel_window_sum(b, width, height, stride, radius, horizontal, x, y, c) / (window_hi(
        p,
        radius,
        dim,
    ) - window_lo(p, radius) + 1)
}

/// The byte at `i` belongs to a pixel of the image (not to the padding at
/// the end of a row, nor past the last row).
pub open spec fn is_pixel_byte(i: int, width: int, height: int, stride: int) -> bool {
    &&& stride > 0
    &&& 0 <= i < height * stride
    &&& i % stride < 4 * width
}

/// One pass of box blur over an ARGB32 buffer: every pixel byte becomes the
/// mean of its window, every other byte stays.
pub open spec fn spec_blur_pass(
    b: Seq<u8>,
    width: int,
    height: int,
    stride: int,
    radius: int,
    horizontal: bool,
) -> Seq<u8> {
    Seq::new(
        b.len(),
        |i: int|
            if is_pixel_byte(i, width, height, stride) {
                blurred_byte(
                    b,
                    width,
                    height,
                    stride,
                    radius,
                    horizontal,
                    (i % stride) / 4,
                    i / stride,
                    (i % stride) % 4,
                ) as u8
            } else {
                b[i]
            },
    )
}

/// What a pass needs of its buffer: rows of at least `4 * width` bytes, all
/// of them inside the buffer, and sums that fit the 32-bit counters.
pub open spec fn blur_pass_fits(
    b: Seq<u8>,
    width: int,
    height: int,
    stride: int,
    radius: int,
    horizontal: bool,
) -> bool {
    let dim = pass_dim(horizontal, width, height);
    &&& stride >= 4 * width
    &&& (width > 0 && height > 0 ==> (height - 1) * stride + 4 * width <= b.len())
    &&& width <= isize::MAX
    &&& height <= isize::MAX
    &&& (dim > 0 ==> radius + dim - 1 <= isize::MAX)
    &&& (2 * radius + 1 <= u32::MAX || dim <= u32::MAX)
    &&& forall|x: int, y: int, c: int|
        0 <= x < width && 0 <= y < height && 0 <= c < 4 ==> #[trigger] pixel_window_sum(
            b,
            width,
            height,
            stride,
            radius,
            horizontal,
            x,
            y,
            c,
        ) <= u32::MAX
}

proof fn lemma_index_decompose(y: int, off: int, stride: int)
    requires
        stride > 0,
        0 <= off < stride,
    ensures
        (y * stride + off) / stride == y,
        (y * stride + off) % stride == off,
{
    lemma_fundamental_div_mod_converse(y * stride + off, stride, y, off);
}

proof fn lemma_window_sum_monotone(
    b: Seq<u8>,
    stride: int,
    horizontal: bool,
    x: int,
    y: int,
    c: int,
    lo: int,
    k: int,
    hi: int,
)
    requires
        k <= hi,
    ensures
        window_sum(b, stride, horizontal, x, y, c, lo, k) <= window_sum(
            b,
            stride,
            horizontal,
            x,
            y,
            c,
            lo,
            hi,
        ),
    decreases hi - k,
{
    if k < hi {
        lemma_window_sum_monotone(b, stride, horizontal, x, y, c, lo, k, hi - 1);
    }
}

proof fn lemma_window_sum_bound(
    b: Seq<u8>,
    stride: int,
    horizontal: bool,
    x: int,
    y: int,
    c: int,
    lo: int,
    hi: int,
)
    requires
        lo <= hi + 1,
    ensures
        0 <= window_sum(b, stride, horizontal, x, y, c, lo, hi) <= 255 * (hi - lo + 1),
    decreases hi - lo + 1,
{
    if hi >= lo {
        lemma_window_sum_bound(b, stride, horizontal, x, y, c, lo, hi - 1);
    }
}

proof fn lemma_mean_is_byte(sum: int, count: int)
    requires
        count > 0,
        0 <= sum <= 255 * count,
    ensures
        0 <= sum / count <= 255,
{
    lemma_div_is_ordered(sum, 255 * count, count);
    lemma_div_multiples_vanish(255, count);
    lemma_div_pos_is_pos(sum, count);
}

/// A row of the image starts inside the buffer, and every pixel of it too.
proof fn lemma_pixel_in_buffer(width: int, height: int, stride: int, len: int, x: int, y: int, c: int)
    requires
        stride >= 4 * width,
        width > 0 && height > 0 ==> (height - 1) * stride + 4 * width <= len,
        0 <= x < width,
        0 <= y < height,
        0 <= c < 4,
    ensures
        0 <= pixel_index(stride, x, y, c) < len,
        pixel_index(stride, x, y, c) < y * stride + 4 * width,
        0 <= y * stride <= (height - 1) * stride,
{
    lemma_mul_inequality(y, height - 1, stride);
    lemma_mul_nonnegative(y, stride);
}

/// Writing the four bytes of pixel (x, y) extends the part of the buffer
/// that holds its final value by that pixel, and touches nothing else.
proof fn lemma_pixel_written(
    before: Seq<u8>,
    after: Seq<u8>,
    b: Seq<u8>,
    w: int,
    h: int,
    st: int,
    r: int,
    horizontal: bool,
    x: int,
    y: int,
)
    requires
        blur_pass_fits(b, w, h, st, r, horizontal),
        0 <= x < w,
        0 <= y < h,
        before.len() == b.len(),
        after.len() == b.len(),
        forall|j: int|
            0 <= j < b.len() && !(pixel_index(st, x, y, 0) <= j < pixel_index(st, x, y, 0) + 4)
                ==> after[j] == before[j],
        forall|c: int|
            0 <= c < 4 ==> #[trigger] after[pixel_index(st, x, y, c)] == blurred_byte(
                b,
                w,
                h,
                st,
                r,
                horizontal,
                x,
                y,
                c,
            ) as u8,
        forall|i: int| 0 <= i < b.len() && !is_pixel_byte(i, w, h, st) ==> #[trigger] before[i] == b[i],
        forall|xx: int, yy: int, c: int|
            0 <= xx < w && 0 <= yy < h && 0 <= c < 4 && (yy < y || (yy == y && xx < x))
                ==> #[trigger] before[pixel_index(st, xx, yy, c)] == blurred_byte(
                b,
                w,
                h,
                st,
                r,
                horizontal,
                xx,
                yy,
                c,
            ) as u8,
    ensures
        forall|i: int| 0 <= i < b.len() && !is_pixel_byte(i, w, h, st) ==> #[trigger] after[i] == b[i],
        forall|xx: int, yy: int, c: int|
            0 <= xx < w && 0 <= yy < h && 0 <= c < 4 && (yy < y || (yy == y && xx < x + 1))
                ==> #[trigger] after[pixel_index(st, xx, yy, c)] == blurred_byte(
                b,
                w,
                h,
                st,
                r,
                horizontal,
                xx,
                yy,
                c,
            ) as u8,
{
    let idx = pixel_index(st, x, y, 0);
    lemma_pixel_in_buffer(w, h, st, b.len() as int, x, y, 3);
    assert forall|i: int| 0 <= i < b.len() && !is_pixel_byte(i, w, h, st) implies #[trigger] after[i]
        == b[i] by {
        if idx <= i < idx + 4 {
            lemma_index_decompose(y, i - y * st, st);
            lemma_mul_inequality(y + 1, h, st);
            assert((y + 1) * st == y * st + st) by (nonlinear_arith);
            assert(false);
        }
    }
    assert forall|xx: int, yy: int, c: int|
        0 <= xx < w && 0 <= yy < h && 0 <= c < 4 && (yy < y || (yy == y && xx < x + 1)) implies #[trigger] after[pixel_index(
        st,
        xx,
        yy,
        c,
    )] == blurred_byte(b, w, h, st, r, horizontal, xx, yy, c) as u8 by {
        if !(yy == y && xx == x) {
            let j = pixel_index(st, xx, yy, c);
            lemma_pixel_in_buffer(w, h, st, b.len() as int, xx, yy, c);
            if idx <= j < idx + 4 {
                lemma_index_decompose(yy, xx * 4 + c, st);
                lemma_index_decompose(y, j - y * st, st);
                assert(false);
            }
        }
    }
}

/// The blurred value of the four channels of pixel (x, y).
fn window_means(
    original: &Vec<u8>,
    width: usize,
    height: usize,
    stride: usize,
    radius: usize,
    horizontal: bool,
    x: usize,
    y: usize,
) -> (v: (u8, u8, u8, u8))
    requires
        blur_pass_fits(original@, width as int, height as int, stride as int, radius as int, horizontal),
        x < width,
        y < height,
    ensures
        v.0 == blurred_byte(original@, width as int, height as int, stride as int, radius as int, horizontal, x as int, y as int, 0) as u8,
        v.1 == blurred_byte(original@, width as int, height as int, stride as int, radius as int, horizontal, x as int, y as int, 1) as u8,
        v.2 == blurred_byte(original@, width as int, height as int, stride as int, radius as int, horizontal, x as int, y as int, 2) as u8,
        v.3 == blurred_byte(original@, width as int, height as int, stride as int, radius as int, horizontal, x as int, y as int, 3) as u8,
{
    let ghost b = original@;
    let ghost (w, h, st, r) = (width as int, height as int, stride as int, radius as int);
    let dim = if horizontal { width } else { height };
    let p = if horizontal { x } else { y };
    let lo = if p >= radius { p - radius } else { 0 };
    let hi = if p + radius >= dim { dim - 1 } else { p + radius };
    assert(lo as int == window_lo(p as int, r));
    assert(hi as int == window_hi(p as int, r, dim as int));
    assert(hi - lo + 1 <= u32::MAX);
    proof {
        assert(pixel_window_sum(b, w, h, st, r, horizontal, x as int, y as int, 0) <= u32::MAX);
        assert(pixel_window_sum(b, w, h, st, r, horizontal, x as int, y as int, 1) <= u32::MAX);
        assert(pixel_window_sum(b, w, h, st, r, horizontal, x as int, y as int, 2) <= u32::MAX);
        assert(pixel_window_sum(b, w, h, st, r, horizontal, x as int, y as int, 3) <= u32::MAX);
    }
    let mut s0: u32 = 0;
    let mut s1: u32 = 0;
    let mut s2: u32 = 0;
    let mut s3: u32 = 0;
    let mut count: u32 = 0;
    let mut k = lo;
    while k <= hi
        invariant
            0 <= y < height,
            0 <= x < width,
            lo <= k <= hi + 1,
            hi < dim,
            original@ == b,
            b.len() == original.len(),
            blur_pass_fits(b, w, h, st, r, horizontal),
            w == width,
            h == height,
            st == stride,
            r == radius,
            dim == pass_dim(horizontal, w, h),
            count == k - lo,
            hi - lo + 1 <= u32::MAX,
            s0 == window_sum(b, st, horizontal, x as int, y as int, 0, lo as int, k - 1),
            s1 == window_sum(b, st, horizontal, x as int, y as int, 1, lo as int, k - 1),
            s2 == window_sum(b, st, horizontal, x as int, y as int, 2, lo as int, k - 1),
            s3 == window_sum(b, st, horizontal, x as int, y as int, 3, lo as int, k - 1),
            window_sum(b, st, horizontal, x as int, y as int, 0, lo as int, hi as int) <= u32::MAX,
            window_sum(b, st, horizontal, x as int, y as int, 1, lo as int, hi as int) <= u32::MAX,
            window_sum(b, st, horizontal, x as int, y as int, 2, lo as int, hi as int) <= u32::MAX,
            window_sum(b, st, horizontal, x as int, y as int, 3, lo as int, hi as int) <= u32::MAX,
        decreases hi + 1 - k,
    {
        let (sx, sy) = if horizontal { (k, y) } else { (x, k) };
        proof {
            lemma_pixel_in_buffer(w, h, st, b.len() as int, sx as int, sy as int, 3);
            lemma_window_sum_monotone(b, st, horizontal, x as int, y as int, 0, lo as int, k as int, hi as int);
            lemma_window_sum_monotone(b, st, horizontal, x as int, y as int, 1, lo as int, k as int, hi as int);
            lemma_window_sum_monotone(b, st, horizontal, x as int, y as int, 2, lo as int, k as int, hi as int);
            lemma_window_sum_monotone(b, st, horizontal, x as int, y as int, 3, lo as int, k as int, hi as int);
        }
        let idx = sy * stride + sx * 4;
        s0 = s0 + original[idx] as u32;
        s1 = s1 + original[idx + 1] as u32;
        s2 = s2 + original[idx + 2] as u32;
        s3 = s3 + original[idx + 3] as u32;
        count = count + 1;
        k = k + 1;
    }
    proof {
        lemma_window_sum_bound(b, st, horizontal, x as int, y as int, 0, lo as int, hi as int);
        lemma_window_sum_bound(b, st, horizontal, x as int, y as int, 1, lo as int, hi as int);
        lemma_window_sum_bound(b, st, horizontal, x as int, y as int, 2, lo as int, hi as int);
        lemma_window_sum_bound(b, st, horizontal, x as int, y as int, 3, lo as int, hi as int);
        lemma_mean_is_byte(s0 as int, count as int);
        lemma_mean_is_byte(s1 as int, count as int);
        lemma_mean_is_byte(s2 as int, count as int);
        lemma_mean_is_byte(s3 as int, count as int);
    }
    ((s0 / count) as u8, (s1 / count) as u8, (s2 / count) as u8, (s3 / count) as u8)
}

/// One pass of box blur (horizontal or vertical) over an ARGB32 buffer of
/// 4 bytes per pixel. Each of the 4 bytes is blurred on its own: the order
/// of the channels does not matter.
pub fn box_blur_pass(buf: &mut [u8], width: usize, height: usize, stride: usize, radius: usize, horizontal: bool)
    requires
        blur_pass_fits(old(buf)@, width as int, height as int, stride as int, radius as int, horizontal),
    ensures
        final(buf)@ == spec_blur_pass(
            old(buf)@,
            width as int,
            height as int,
            stride as int,
            radius as int,
            horizontal,
        ),
{
    let original = vstd::slice::slice_to_vec(buf);
    let ghost b = original@;
    assert(b.len() == original.len());
    let ghost (w, h, st, r) = (width as int, height as int, stride as int, radius as int);
    let dim = if horizontal { width } else { height };
    let mut y: usize = 0;
    while y < height
        invariant
            0 <= y <= height,
            original@ == b,
            b == old(buf)@,
            buf@.len() == b.len(),
            b.len() <= usize::MAX,
            blur_pass_fits(b, w, h, st, r, horizontal),
            w == width,
            h == height,
            st == stride,
            r == radius,
            dim == pass_dim(horizontal, w, h),
            forall|i: int|
                0 <= i < b.len() && !is_pixel_byte(i, w, h, st) ==> #[trigger] buf@[i] == b[i],
            forall|xx: int, yy: int, c: int|
                0 <= xx < w && 0 <= yy < y && 0 <= c < 4 ==> #[trigger] buf@[pixel_index(st, xx, yy, c)]
                    == blurred_byte(b, w, h, st, r, horizontal, xx, yy, c) as u8,
        decreases height - y,
    {
        let mut x: usize = 0;
        while x < width
            invariant
                0 <= y < height,
                0 <= x <= width,
                original@ == b,
                b == old(buf)@,
                buf@.len() == b.len(),
                b.len() <= usize::MAX,
                blur_pass_fits(b, w, h, st, r, horizontal),
                w == width,
                h == height,
                st == stride,
                r == radius,
                dim == pass_dim(horizontal, w, h),
                forall|i: int|
                    0 <= i < b.len() && !is_pixel_byte(i, w, h, st) ==> #[trigger] buf@[i] == b[i],
                forall|xx: int, yy: int, c: int|
                    0 <= xx < w && 0 <= yy < h && 0 <= c < 4 && (yy < y || (yy == y && xx < x))
                        ==> #[trigger] buf@[pixel_index(st, xx, yy, c)] == blurred_byte(
                        b,
                        w,
                        h,
                        st,
                        r,
                        horizontal,
                        xx,
                        yy,
                        c,
                    ) as u8,
            decreases width - x,
        {
            proof {
                lemma_pixel_in_buffer(w, h, st, b.len() as int, x as int, y as int, 3);
            }
            let (v0, v1, v2, v3) = window_means(&original, width, height, stride, radius, horizontal, x, y);
            let idx = y * stride + x * 4;
            let ghost before = buf@;
            buf[idx] = v0;
            buf[idx + 1] = v1;
            buf[idx + 2] = v2;
            buf[idx + 3] = v3;
            proof {
                lemma_pixel_written(before, buf@, b, w, h, st, r, horizontal, x as int, y as int);
            }
            x = x + 1;
        }
        y = y + 1;
    }
    proof {
        assert forall|i: int| 0 <= i < b.len() implies #[trigger] buf@[i] == spec_blur_pass(
            b,
            w,
            h,
            st,
            r,
            horizontal,
        )[i] by {
            if is_pixel_byte(i, w, h, st) {
                let yy = i / st;
                let off = i % st;
                lemma_fundamental_div_mod(i, st);
                lemma_fundamental_div_mod(off, 4);
                lemma_mod_pos_bound(i, st);
                lemma_mod_pos_bound(off, 4);
                lemma_div_pos_is_pos(i, st);
                lemma_div_pos_is_pos(off, 4);
                assert(yy < h) by {
                    if yy >= h {
                        lemma_mul_inequality(h, yy, st);
                    }
                }
                assert(off / 4 < w);
                assert(i == pixel_index(st, off / 4, yy, off % 4));
            }
        }
        assert(buf@ =~= spec_blur_pass(b, w, h, st, r, horizontal));
    }
}


/// Box blur of an ARGB32 buffer: a horizontal pass, then a vertical one;
/// a radius of 0 leaves the buffer as it is.
pub open spec fn spec_box_blur(b: Seq<u8>, width: int, height: int, stride: int, radius: int) -> Seq<u8> {
    if radius > 0 {
        spec_blur_pass(
            spec_blur_pass(b, width, height, stride, radius, true),
            width,
            height,
            stride,
            radius,
            false,
        )
    } else {
        b
    }
}

/// Separable box blur (horizontal, then vertical) of a copy of the pixels
/// of an ARGB32 image, used for the frosted glass behind the toolbar and
/// for the blur tool.
pub fn box_blur_pixels(data: &[u8], width: usize, height: usize, stride: usize, radius: usize) -> (out: Vec<u8>)
    requires
        radius > 0 ==> blur_pass_fits(data@, width as int, height as int, stride as int, radius as int, true),
        radius > 0 ==> blur_pass_fits(
            spec_blur_pass(data@, width as int, height as int, stride as int, radius as int, true),
            width as int,
            height as int,
            stride as int,
            radius as int,
            false,
        ),
    ensures
        out@ == spec_box_blur(data@, width as int, height as int, stride as int, radius as int),
{
    let mut buf = vstd::slice::slice_to_vec(data);
    if radius > 0 {
        box_blur_pass(buf.as_mut_slice(), width, height, stride, radius, true);
        box_blur_pass(buf.as_mut_slice(), width, height, stride, radius, false);
    }
    buf
}

proof fn lemma_uniform_window_sum(
    b: Seq<u8>,
    w: int,
    h: int,
    st: int,
    horizontal: bool,
    x: int,
    y: int,
    c: int,
    v: int,
    lo: int,
    hi: int,
)
    requires
        0 <= lo,
        lo <= hi + 1,
        hi < pass_dim(horizontal, w, h),
        0 <= x < w,
        0 <= y < h,
        0 <= c < 4,
        forall|xx: int, yy: int|
            0 <= xx < w && 0 <= yy < h ==> #[trigger] b[pixel_index(st, xx, yy, c)] == v,
    ensures
        window_sum(b, st, horizontal, x, y, c, lo, hi) == v * (hi - lo + 1),
    decreases hi - lo + 1,
{
    if hi >= lo {
        lemma_uniform_window_sum(b, w, h, st, horizontal, x, y, c, v, lo, hi - 1);
        if horizontal {
            assert(b[pixel_index(st, hi, y, c)] == v);
        } else {
            assert(b[pixel_index(st, x, hi, c)] == v);
        }
        assert(v * (hi - 1 - lo + 1) + v == v * (hi - lo + 1)) by (nonlinear_arith);
    } else {
        assert(v * (hi - lo + 1) == 0) by (nonlinear_arith)
            requires
                hi - lo + 1 == 0,
        ;
    }
}

/// Blurring an image of a single colour changes nothing: the mean of
/// neighbours that all have the same colour is that colour.
pub proof fn lemma_blur_pass_keeps_uniform_color(
    b: Seq<u8>,
    width: int,
    height: int,
    stride: int,
    radius: int,
    horizontal: bool,
    color: Seq<u8>,
)
    requires
        color.len() == 4,
        stride >= 4 * width,
        width > 0 && height > 0 ==> (height - 1) * stride + 4 * width <= b.len(),
        radius >= 0,
        forall|x: int, y: int, c: int|
            0 <= x < width && 0 <= y < height && 0 <= c < 4 ==> #[trigger] b[pixel_index(stride, x, y, c)]
                == color[c],
    ensures
        spec_blur_pass(b, width, height, stride, radius, horizontal) == b,
{
    let out = spec_blur_pass(b, width, height, stride, radius, horizontal);
    assert forall|i: int| 0 <= i < b.len() implies #[trigger] out[i] == b[i] by {
        if is_pixel_byte(i, width, height, stride) {
            let y = i / stride;
            let off = i % stride;
            let x = off / 4;
            let c = off % 4;
            lemma_fundamental_div_mod(i, stride);
            lemma_fundamental_div_mod(off, 4);
            lemma_mod_pos_bound(i, stride);
            lemma_mod_pos_bound(off, 4);
            lemma_div_pos_is_pos(i, stride);
            lemma_div_pos_is_pos(off, 4);
            assert(y < height) by {
                if y >= height {
                    lemma_mul_inequality(height, y, stride);
                }
            }
            lemma_mul_is_commutative(stride, y);
            lemma_mul_is_commutative(4, x);
            assert(i == pixel_index(stride, x, y, c));
            let p = pass_pos(horizontal, x, y);
            let dim = pass_dim(horizontal, width, height);
            let lo = window_lo(p, radius);
            let hi = window_hi(p, radius, dim);
            let v = color[c] as int;
            assert forall|xx: int, yy: int|
                0 <= xx < width && 0 <= yy < height implies #[trigger] b[pixel_index(stride, xx, yy, c)] == v by {
            }
            lemma_uniform_window_sum(b, width, height, stride, horizontal, x, y, c, v, lo, hi);
            lemma_div_multiples_vanish(v, hi - lo + 1);
            assert(v * (hi - lo + 1) == (hi - lo + 1) * v) by (nonlinear_arith);
        }
    }
    assert(out =~= b);
}

/// Two buffers whose channel `c` agree on every pixel have the same sums
/// of that channel over the windows inside the image.
proof fn lemma_channel_window_sum(
    b1: Seq<u8>,
    b2: Seq<u8>,
    w: int,
    h: int,
    st: int,
    horizontal: bool,
    x: int,
    y: int,
    c: int,
    lo: int,
    hi: int,
)
    requires
        0 <= lo,
        lo <= hi + 1,
        hi < pass_dim(horizontal, w, h),
        0 <= x < w,
        0 <= y < h,
        forall|xx: int, yy: int|
            0 <= xx < w && 0 <= yy < h ==> #[trigger] b1[pixel_index(st, xx, yy, c)] == b2[pixel_index(
                st,
                xx,
                yy,
                c,
            )],
    ensures
        window_sum(b1, st, horizontal, x, y, c, lo, hi) == window_sum(b2, st, horizontal, x, y, c, lo, hi),
    decreases hi - lo + 1,
{
    if hi >= lo {
        lemma_channel_window_sum(b1, b2, w, h, st, horizontal, x, y, c, lo, hi - 1);
        if horizontal {
            assert(b1[pixel_index(st, hi, y, c)] == b2[pixel_index(st, hi, y, c)]);
        } else {
            assert(b1[pixel_index(st, x, hi, c)] == b2[pixel_index(st, x, hi, c)]);
        }
    }
}

/// Each of the four bytes of a pixel is blurred on its own, whatever the
/// order of the channels: two buffers whose channel `c` agree on every
/// pixel still agree on it after a pass.
pub proof fn lemma_blur_pass_channels_independent(
    b1: Seq<u8>,
    b2: Seq<u8>,
    width: int,
    height: int,
    stride: int,
    radius: int,
    horizontal: bool,
    c: int,
)
    requires
        0 <= c < 4,
        stride >= 4 * width,
        b1.len() == b2.len(),
        width > 0 && height > 0 ==> (height - 1) * stride + 4 * width <= b1.len(),
        radius >= 0,
        forall|x: int, y: int|
            0 <= x < width && 0 <= y < height ==> #[trigger] b1[pixel_index(stride, x, y, c)] == b2[pixel_index(
                stride,
                x,
                y,
                c,
            )],
    ensures
        forall|x: int, y: int|
            0 <= x < width && 0 <= y < height ==> #[trigger] spec_blur_pass(
                b1,
                width,
                height,
                stride,
                radius,
                horizontal,
            )[pixel_index(stride, x, y, c)] == spec_blur_pass(b2, width, height, stride, radius, horizontal)[pixel_index(
                stride,
                x,
                y,
                c,
            )],
{
    let out1 = spec_blur_pass(b1, width, height, stride, radius, horizontal);
    let out2 = spec_blur_pass(b2, width, height, stride, radius, horizontal);
    assert forall|x: int, y: int| 0 <= x < width && 0 <= y < height implies #[trigger] out1[pixel_index(
        stride,
        x,
        y,
        c,
    )] == out2[pixel_index(stride, x, y, c)] by {
        let i = pixel_index(stride, x, y, c);
        lemma_pixel_in_buffer(width, height, stride, b1.len() as int, x, y, c);
        lemma_index_decompose(y, x * 4 + c, stride);
        lemma_mul_inequality(y + 1, height, stride);
        assert((y + 1) * stride == y * stride + stride) by (nonlinear_arith);
        assert(is_pixel_byte(i, width, height, stride));
        assert((x * 4 + c) / 4 == x && (x * 4 + c) % 4 == c) by {
            lemma_fundamental_div_mod_converse(x * 4 + c, 4, x, c);
        }
        let p = pass_pos(horizontal, x, y);
        let dim = pass_dim(horizontal, width, height);
        lemma_channel_window_sum(
            b1,
            b2,
            width,
            height,
            stride,
            horizontal,
            x,
            y,
            c,
            window_lo(p, radius),
            window_hi(p, radius, dim),
        );
    }
}

/// The byte of channel `c` of the pixel (x, y) is a byte of the image, and
/// reading its position back gives (x, y) and `c`.
proof fn lemma_pixel_byte_at(width: int, height: int, stride: int, len: int, x: int, y: int, c: int)
    requires
        stride >= 4 * width,
        width > 0 && height > 0 ==> (height - 1) * stride + 4 * width <= len,
        0 <= x < width,
        0 <= y < height,
        0 <= c < 4,
    ensures
        is_pixel_byte(pixel_index(stride, x, y, c), width, height, stride),
        0 <= pixel_index(stride, x, y, c) < len,
        pixel_index(stride, x, y, c) / stride == y,
        (pixel_index(stride, x, y, c) % stride) / 4 == x,
        (pixel_index(stride, x, y, c) % stride) % 4 == c,
{
    lemma_pixel_in_buffer(width, height, stride, len, x, y, c);
    lemma_index_decompose(y, x * 4 + c, stride);
    lemma_mul_inequality(y + 1, height, stride);
    assert((y + 1) * stride == y * stride + stride) by (nonlinear_arith);
    lemma_fundamental_div_mod_converse(x * 4 + c, 4, x, c);
}

/// Sum of channel `c` of the row colours `lo..=hi`.
pub open spec fn rows_sum(colors: Seq<Seq<u8>>, c: int, lo: int, hi: int) -> int
    decreases hi - lo + 1,
{
    if hi < lo {
        0
    } else {
        rows_sum(colors, c, lo, hi - 1) + colors[hi][c] as int
    }
}

/// Along a row of one colour, a window sums that colour once per pixel.
proof fn lemma_row_window_sum(b: Seq<u8>, w: int, st: int, x: int, y: int, c: int, v: int, lo: int, hi: int)
    requires
        0 <= lo,
        lo <= hi + 1,
        hi < w,
        forall|xx: int| 0 <= xx < w ==> #[trigger] b[pixel_index(st, xx, y, c)] == v,
    ensures
        window_sum(b, st, true, x, y, c, lo, hi) == v * (hi - lo + 1),
    decreases hi - lo + 1,
{
    if hi >= lo {
        lemma_row_window_sum(b, w, st, x, y, c, v, lo, hi - 1);
        assert(b[pixel_index(st, hi, y, c)] == v);
        assert(v * (hi - 1 - lo + 1) + v == v * (hi - lo + 1)) by (nonlinear_arith);
    } else {
        assert(v * (hi - lo + 1) == 0) by (nonlinear_arith)
            requires
                hi - lo + 1 == 0,
        ;
    }
}

/// Down a column whose pixels have the colours of their rows, a window
/// sums the colours of its rows.
proof fn lemma_column_window_sum(
    b: Seq<u8>,
    h: int,
    st: int,
    x: int,
    y: int,
    c: int,
    colors: Seq<Seq<u8>>,
    lo: int,
    hi: int,
)
    requires
        0 <= lo,
        lo <= hi + 1,
        hi < h,
        forall|yy: int| 0 <= yy < h ==> #[trigger] b[pixel_index(st, x, yy, c)] == colors[yy][c],
    ensures
        window_sum(b, st, false, x, y, c, lo, hi) == rows_sum(colors, c, lo, hi),
    decreases hi - lo + 1,
{
    if hi >= lo {
        lemma_column_window_sum(b, h, st, x, y, c, colors, lo, hi - 1);
        assert(b[pixel_index(st, x, hi, c)] == colors[hi][c]);
    }
}

/// The box blur is separable, horizontal then vertical: on an image whose
/// rows are each of one colour (bands), the horizontal pass changes
/// nothing, and the vertical pass makes each byte the mean, rounded down,
/// of the colours of the rows within `radius` above and below it, cut at
/// the image's border. So a boundary between two bands gets blurred.
pub proof fn lemma_box_blur_of_row_bands(
    b: Seq<u8>,
    width: int,
    height: int,
    stride: int,
    radius: int,
    colors: Seq<Seq<u8>>,
)
    requires
        radius > 0,
        stride >= 4 * width,
        width > 0 && height > 0 ==> (height - 1) * stride + 4 * width <= b.len(),
        colors.len() == height,
        forall|y: int| 0 <= y < height ==> (#[trigger] colors[y]).len() == 4,
        forall|x: int, y: int, c: int|
            0 <= x < width && 0 <= y < height && 0 <= c < 4 ==> #[trigger] b[pixel_index(stride, x, y, c)]
                == colors[y][c],
    ensures
        forall|x: int, y: int, c: int|
            0 <= x < width && 0 <= y < height && 0 <= c < 4 ==> {
                let lo = if y - radius < 0 { 0 } else { y - radius };
                let hi = if y + radius > height - 1 { height - 1 } else { y + radius };
                #[trigger] spec_box_blur(b, width, height, stride, radius)[pixel_index(stride, x, y, c)] == rows_sum(
                    colors,
                    c,
                    lo,
                    hi,
                ) / (hi - lo + 1)
            },
{
    let hb = spec_blur_pass(b, width, height, stride, radius, true);
    assert forall|x: int, y: int, c: int|
        0 <= x < width && 0 <= y < height && 0 <= c < 4 implies #[trigger] hb[pixel_index(stride, x, y, c)]
        == colors[y][c] by {
        lemma_pixel_byte_at(width, height, stride, b.len() as int, x, y, c);
        let lo = window_lo(x, radius);
        let hi = window_hi(x, radius, width);
        let v = colors[y][c] as int;
        assert forall|xx: int| 0 <= xx < width implies #[trigger] b[pixel_index(stride, xx, y, c)] == v by {}
        lemma_row_window_sum(b, width, stride, x, y, c, v, lo, hi);
        lemma_div_multiples_vanish(v, hi - lo + 1);
        assert(v * (hi - lo + 1) == (hi - lo + 1) * v) by (nonlinear_arith);
    }
    let out = spec_blur_pass(hb, width, height, stride, radius, false);
    assert forall|x: int, y: int, c: int|
        0 <= x < width && 0 <= y < height && 0 <= c < 4 implies {
        let lo = if y - radius < 0 { 0 } else { y - radius };
        let hi = if y + radius > height - 1 { height - 1 } else { y + radius };
        #[trigger] spec_box_blur(b, width, height, stride, radius)[pixel_index(stride, x, y, c)] == rows_sum(
            colors,
            c,
            lo,
            hi,
        ) / (hi - lo + 1)
    } by {
        lemma_pixel_byte_at(width, height, stride, b.len() as int, x, y, c);
        assert(hb.len() == b.len());
        assert forall|yy: int| 0 <= yy < height implies #[trigger] hb[pixel_index(stride, x, yy, c)]
            == colors[yy][c] by {}
        let lo = window_lo(y, radius);
        let hi = window_hi(y, radius, height);
        lemma_column_window_sum(hb, height, stride, x, y, c, colors, lo, hi);
        assert(spec_box_blur(b, width, height, stride, radius) == out);
        let sum = rows_sum(colors, c, lo, hi);
        assert(0 <= sum <= 255 * (hi - lo + 1)) by {
            lemma_rows_sum_bound(colors, c, lo, hi);
        }
        lemma_mean_is_byte(sum, hi - lo + 1);
    }
}

proof fn lemma_rows_sum_bound(colors: Seq<Seq<u8>>, c: int, lo: int, hi: int)
    requires
        lo <= hi + 1,
    ensures
        0 <= rows_sum(colors, c, lo, hi) <= 255 * (hi - lo + 1),
    decreases hi - lo + 1,
{
    if hi >= lo {
        lemma_rows_sum_bound(colors, c, lo, hi - 1);
    }
}

} // verus!
