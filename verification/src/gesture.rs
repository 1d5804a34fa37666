//! Recognition of the mouse gestures that start and confirm an emergency backup.
//!
//! The mouse is polled continuously. A *stroke* runs from the position where the
//! left button goes down to the position where it comes up again. A stroke is
//! *vertical* when its ends lie within `TOLERANCE` pixels of each other
//! horizontally and it spans at least 90% of the screen height; *horizontal*
//! is the same with the axes swapped.
//!
//! The start gesture is a rectangle: four strokes that alternate between
//! vertical and horizontal. Once four sides are recorded, the next completed
//! stroke of any kind signals the backup and starts the count again. The
//! confirmation gesture is a single horizontal stroke.

use vstd::prelude::*;

verus! {

/// How far apart, in pixels, the two ends of a stroke may lie across its direction.
pub const TOLERANCE: i32 = 50;

pub open spec fn abs_int(x: int) -> int {
    if x < 0 {
        -x
    } else {
        x
    }
}

/// `length` is at least 90% of `extent`. Compared in integers: for lengths
/// below 2^31 this is exactly the outcome of `length as f64 >= 0.9 * extent as f64`.
pub open spec fn reaches_ninety_percent(length: int, extent: u64) -> bool {
    10 * length >= 9 * extent
}

/// The stroke from `start` to `end` is vertical on a screen `height` pixels high.
pub open spec fn is_vertical_stroke(start: (i32, i32), end: (i32, i32), height: u64) -> bool {
    &&& start.0 >= end.0 - TOLERANCE
    &&& start.0 <= end.0 + TOLERANCE
    &&& reaches_ninety_percent(abs_int(end.1 - start.1), height)
}

/// The stroke from `start` to `end` is horizontal on a screen `width` pixels wide.
pub open spec fn is_horizontal_stroke(start: (i32, i32), end: (i32, i32), width: u64) -> bool {
    &&& start.1 >= end.1 - TOLERANCE
    &&& start.1 <= end.1 + TOLERANCE
    &&& reaches_ninety_percent(abs_int(start.0 - end.0), width)
}

/// The `i32` arithmetic of the vertical test stays in range: each operation that
/// the test reaches, in the order in which `&&` evaluates them, fits.
pub open spec fn vertical_check_defined(start: (i32, i32), end: (i32, i32)) -> bool {
    &&& end.0 - TOLERANCE >= i32::MIN
    &&& start.0 >= end.0 - TOLERANCE ==> end.0 + TOLERANCE <= i32::MAX
    &&& (start.0 >= end.0 - TOLERANCE && start.0 <= end.0 + TOLERANCE) ==> (i32::MIN < end.1
        - start.1 <= i32::MAX)
}

/// The `i32` arithmetic of the horizontal test stays in range.
pub open spec fn horizontal_check_defined(start: (i32, i32), end: (i32, i32)) -> bool {
    &&& end.1 - TOLERANCE >= i32::MIN
    &&& start.1 >= end.1 - TOLERANCE ==> end.1 + TOLERANCE <= i32::MAX
    &&& (start.1 >= end.1 - TOLERANCE && start.1 <= end.1 + TOLERANCE) ==> (i32::MIN < start.0
        - end.0 <= i32::MAX)
}

fn abs_reaches_ninety_percent(d: i32, extent: u64) -> (r: bool)
    requires
        d > i32::MIN,
    ensures
        r == reaches_ninety_percent(abs_int(d as int), extent),
{
    let a: i32 = if d < 0 {
        -d
    } else {
        d
    };
    (a as u128) * 10 >= (extent as u128) * 9
}

/// Tests whether the `i32` arithmetic of `vertical_check(start, end, _)` stays in range.
pub fn vertical_check_in_range(start: (i32, i32), end: (i32, i32)) -> (r: bool)
    ensures
        r == vertical_check_defined(start, end),
{
    end.0 >= i32::MIN + TOLERANCE && (start.0 < end.0 - TOLERANCE || (end.0 <= i32::MAX
        - TOLERANCE && (start.0 > end.0 + TOLERANCE || (start.1 >= 0 && end.1 >= i32::MIN + 1
        + start.1) || (start.1 < 0 && end.1 <= i32::MAX + start.1))))
}

/// Tests whether the `i32` arithmetic of `horizontal_check(start, end, _)` stays in range.
pub fn horizontal_check_in_range(start: (i32, i32), end: (i32, i32)) -> (r: bool)
    ensures
        r == horizontal_check_defined(start, end),
{
    end.1 >= i32::MIN + TOLERANCE && (start.1 < end.1 - TOLERANCE || (end.1 <= i32::MAX
        - TOLERANCE && (start.1 > end.1 + TOLERANCE || (end.0 >= 0 && start.0 >= i32::MIN + 1
        + end.0) || (end.0 < 0 && start.0 <= i32::MAX + end.0))))
}

/// Tests whether the stroke from `start` to `end` is vertical.
pub fn vertical_check(start: (i32, i32), end: (i32, i32), height: u64) -> (r: bool)
    requires
        vertical_check_defined(start, end),
    ensures
        r == is_vertical_stroke(start, end, height),
        r == (-50 <= start.0 - end.0 <= 50 && (10 * (end.1 - start.1) >= 9 * height || 10 * (
        start.1 - end.1) >= 9 * height)),
{
    (start.0 >= end.0 - TOLERANCE && start.0 <= end.0 + TOLERANCE) && abs_reaches_ninety_percent(
        end.1 - start.1,
        height,
    )
}

/// Tests whether the stroke from `start` to `end` is horizontal.
pub fn horizontal_check(start: (i32, i32), end: (i32, i32), width: u64) -> (r: bool)
    requires
        horizontal_check_defined(start, end),
    ensures
        r == is_horizontal_stroke(start, end, width),
        r == (-50 <= start.1 - end.1 <= 50 && (10 * (start.0 - end.0) >= 9 * width || 10 * (end.0
            - start.0) >= 9 * width)),
{
    (start.1 >= end.1 - TOLERANCE && start.1 <= end.1 + TOLERANCE) && abs_reaches_ninety_percent(
        start.0 - end.0,
        width,
    )
}


/// The orientation of a recorded side of the rectangle.
#[derive(Clone, Copy, Debug, PartialEq, Eq, Structural)]
pub enum Side {
    Vertical,
    Horizontal,
}

/// The abstract state of the rectangle recogniser.
pub struct RectangleState {
    /// The button is held and a stroke is in progress.
    pub drawing: bool,
    /// Where the stroke in progress (or the last one) began.
    pub start: (i32, i32),
    /// The sides recorded so far.
    pub sides: Seq<Side>,
}

/// At most four sides, alternating between vertical and horizontal.
pub open spec fn sides_wf(sides: Seq<Side>) -> bool {
    &&& sides.len() <= 4
    &&& forall|k: int| 0 <= k < sides.len() - 1 ==> #[trigger] sides[k] != sides[k + 1]
}

pub open spec fn initial_rectangle_state() -> RectangleState {
    RectangleState { drawing: false, start: (0, 0), sides: Seq::empty() }
}

/// What a completed stroke from `s.start` to `end` does to the recogniser:
/// the next state, and whether the backup is signalled.
pub open spec fn rectangle_release(s: RectangleState, end: (i32, i32), width: u64, height: u64) -> (
    RectangleState,
    bool,
) {
    let idle = RectangleState { drawing: false, ..s };
    let cleared = RectangleState { drawing: false, start: s.start, sides: Seq::empty() };
    if s.sides.len() == 0 {
        if is_vertical_stroke(s.start, end, height) {
            (RectangleState { sides: seq![Side::Vertical], ..idle }, false)
        } else if is_horizontal_stroke(s.start, end, width) {
            (RectangleState { sides: seq![Side::Horizontal], ..idle }, false)
        } else {
            (idle, false)
        }
    } else if s.sides.len() < 4 {
        if s.sides.last() == Side::Vertical && is_horizontal_stroke(s.start, end, width) {
            (RectangleState { sides: s.sides.push(Side::Horizontal), ..idle }, false)
        } else if s.sides.last() == Side::Horizontal && is_vertical_stroke(s.start, end, height) {
            (RectangleState { sides: s.sides.push(Side::Vertical), ..idle }, false)
        } else {
            (cleared, false)
        }
    } else if s.sides.len() == 4 {
        (cleared, true)
    } else {
        (idle, false)
    }
}

/// One poll of the mouse: `pressed` is the state of the left button and
/// `coords` the pointer position. Gives the next state and whether the backup
/// is signalled.
pub open spec fn rectangle_step(
    s: RectangleState,
    pressed: bool,
    coords: (i32, i32),
    width: u64,
    height: u64,
) -> (RectangleState, bool) {
    if pressed {
        if !s.drawing {
            (RectangleState { drawing: true, start: coords, sides: s.sides }, false)
        } else {
            (s, false)
        }
    } else if s.drawing {
        rectangle_release(s, coords, width, height)
    } else {
        (s, false)
    }
}

/// The stroke tests that a poll reaches keep their `i32` arithmetic in range.
pub open spec fn rectangle_step_defined(
    s: RectangleState,
    pressed: bool,
    coords: (i32, i32),
    width: u64,
    height: u64,
) -> bool {
    (!pressed && s.drawing) ==> {
        if s.sides.len() == 0 {
            &&& vertical_check_defined(s.start, coords)
            &&& !is_vertical_stroke(s.start, coords, height) ==> horizontal_check_defined(
                s.start,
                coords,
            )
        } else if s.sides.len() < 4 {
            if s.sides.last() == Side::Vertical {
                horizontal_check_defined(s.start, coords)
            } else {
                vertical_check_defined(s.start, coords)
            }
        } else {
            true
        }
    }
}

/// Recognises the rectangle gesture that starts a backup.
pub struct RectangleGesture {
    is_drawing: bool,
    start: (i32, i32),
    sides: Vec<Side>,
    screen_width: u64,
    screen_height: u64,
}

impl View for RectangleGesture {
    type V = RectangleState;

    closed spec fn view(&self) -> RectangleState {
        RectangleState { drawing: self.is_drawing, start: self.start, sides: self.sides@ }
    }
}

impl RectangleGesture {
    pub closed spec fn width(&self) -> u64 {
        self.screen_width
    }

    pub closed spec fn height(&self) -> u64 {
        self.screen_height
    }

    pub open spec fn wf(&self) -> bool {
        sides_wf(self@.sides)
    }

    /// A recogniser with no stroke in progress and no side recorded, for a
    /// screen of the given size in pixels.
    pub fn new(screen_width: u64, screen_height: u64) -> (g: Self)
        ensures
            g@ == initial_rectangle_state(),
            g.wf(),
            g.width() == screen_width,
            g.height() == screen_height,
    {
        let g = RectangleGesture {
            is_drawing: false,
            start: (0, 0),
            sides: Vec::with_capacity(4),
            screen_width,
            screen_height,
        };
        assert(g@.sides =~= Seq::<Side>::empty());
        g
    }

    /// The sides recorded so far.
    pub fn sides(&self) -> (r: &Vec<Side>)
        ensures
            r@ == self@.sides,
    {
        &self.sides
    }

    /// Tests whether the stroke tests that `on_mouse(pressed, coords)` reaches
    /// keep their `i32` arithmetic in range.
    pub fn step_is_defined(&self, pressed: bool, coords: (i32, i32)) -> (r: bool)
        ensures
            r == rectangle_step_defined(self@, pressed, coords, self.width(), self.height()),
    {
        if pressed || !self.is_drawing {
            return true;
        }
        let start = self.start;
        let n = self.sides.len();
        let v_ok = vertical_check_in_range(start, coords);
        let h_ok = horizontal_check_in_range(start, coords);
        if n == 0 {
            v_ok && (vertical_check(start, coords, self.screen_height) || h_ok)
        } else if n < 4 {
            match self.sides[n - 1] {
                Side::Vertical => h_ok,
                Side::Horizontal => v_ok,
            }
        } else {
            true
        }
    }

    /// Takes one poll of the mouse: `pressed` is the state of the left button
    /// and `coords` the pointer position. Returns `true` when the rectangle
    /// gesture is complete and the backup should start.
    pub fn on_mouse(&mut self, pressed: bool, coords: (i32, i32)) -> (signal: bool)
        requires
            old(self).wf(),
            rectangle_step_defined(old(self)@, pressed, coords, old(self).width(), old(self).height()),
        ensures
            final(self).wf(),
            final(self).width() == old(self).width(),
            final(self).height() == old(self).height(),
            (final(self)@, signal) == rectangle_step(
                old(self)@,
                pressed,
                coords,
                old(self).width(),
                old(self).height(),
            ),
            signal ==> old(self)@.sides.len() == 4 && final(self)@.sides.len() == 0,
    {
        if pressed {
            if !self.is_drawing {
                self.is_drawing = true;
                self.start = coords;
            }
            return false;
        }
        if !self.is_drawing {
            return false;
        }
        self.is_drawing = false;
        let start = self.start;
        let end = coords;
        let n = self.sides.len();
        if n == 0 {
            if vertical_check(start, end, self.screen_height) {
                self.sides.push(Side::Vertical);
                assert(self.sides@ =~= seq![Side::Vertical]);
            } else if horizontal_check(start, end, self.screen_width) {
                self.sides.push(Side::Horizontal);
                assert(self.sides@ =~= seq![Side::Horizontal]);
            }
            false
        } else if n < 4 {
            let last = self.sides[n - 1];
            let extended = match last {
                Side::Vertical => {
                    if horizontal_check(start, end, self.screen_width) {
                        self.sides.push(Side::Horizontal);
                        true
                    } else {
                        false
                    }
                },
                Side::Horizontal => {
                    if vertical_check(start, end, self.screen_height) {
                        self.sides.push(Side::Vertical);
                        true
                    } else {
                        false
                    }
                },
            };
            if !extended {
                self.sides.clear();
                assert(self.sides@ =~= Seq::<Side>::empty());
            }
            false
        } else if n == 4 {
            self.sides.clear();
            assert(self.sides@ =~= Seq::<Side>::empty());
            true
        } else {
            false
        }
    }
}


/// The abstract state of the confirmation recogniser.
pub struct LineState {
    pub drawing: bool,
    pub start: (i32, i32),
}

/// One poll of the mouse for the confirmation gesture: the next state, and
/// whether a horizontal stroke was just completed.
pub open spec fn line_step(s: LineState, pressed: bool, coords: (i32, i32), width: u64) -> (
    LineState,
    bool,
) {
    if pressed {
        if !s.drawing {
            (LineState { drawing: true, start: coords }, false)
        } else {
            (s, false)
        }
    } else if s.drawing {
        (LineState { drawing: false, start: s.start }, is_horizontal_stroke(s.start, coords, width))
    } else {
        (s, false)
    }
}

pub open spec fn line_step_defined(s: LineState, pressed: bool, coords: (i32, i32)) -> bool {
    (!pressed && s.drawing) ==> horizontal_check_defined(s.start, coords)
}

/// Recognises the horizontal stroke that confirms a backup.
pub struct LineGesture {
    is_drawing: bool,
    start: (i32, i32),
    screen_width: u64,
}

impl View for LineGesture {
    type V = LineState;

    closed spec fn view(&self) -> LineState {
        LineState { drawing: self.is_drawing, start: self.start }
    }
}

impl LineGesture {
    pub closed spec fn width(&self) -> u64 {
        self.screen_width
    }

    /// A recogniser with no stroke in progress, for a screen `screen_width` pixels wide.
    pub fn new(screen_width: u64) -> (g: Self)
        ensures
            g@ == (LineState { drawing: false, start: (0, 0) }),
            g.width() == screen_width,
    {
        LineGesture { is_drawing: false, start: (0, 0), screen_width }
    }

    /// Tests whether `on_mouse(pressed, coords)` keeps its `i32` arithmetic in range.
    pub fn step_is_defined(&self, pressed: bool, coords: (i32, i32)) -> (r: bool)
        ensures
            r == line_step_defined(self@, pressed, coords),
    {
        pressed || !self.is_drawing || horizontal_check_in_range(self.start, coords)
    }

    /// Takes one poll of the mouse. Returns `true` when a horizontal stroke has
    /// just been completed, which confirms the backup.
    pub fn on_mouse(&mut self, pressed: bool, coords: (i32, i32)) -> (signal: bool)
        requires
            line_step_defined(old(self)@, pressed, coords),
        ensures
            final(self).width() == old(self).width(),
            (final(self)@, signal) == line_step(old(self)@, pressed, coords, old(self).width()),
    {
        if pressed {
            if !self.is_drawing {
                self.is_drawing = true;
                self.start = coords;
            }
            false
        } else if self.is_drawing {
            self.is_drawing = false;
            horizontal_check(self.start, coords, self.screen_width)
        } else {
            false
        }
    }
}


/// A stroke is vertical exactly when its ends lie at most 50 pixels apart
/// horizontally and its vertical extent is at least nine tenths of the screen
/// height; horizontal exactly when its ends lie at most 50 pixels apart
/// vertically and its horizontal extent is at least nine tenths of the width.
pub proof fn lemma_stroke_orientation_meaning(
    start: (i32, i32),
    end: (i32, i32),
    width: u64,
    height: u64,
)
    ensures
        is_vertical_stroke(start, end, height) <==> (-50 <= start.0 - end.0 <= 50 && (10 * (end.1
            - start.1) >= 9 * height || 10 * (start.1 - end.1) >= 9 * height)),
        is_horizontal_stroke(start, end, width) <==> (-50 <= start.1 - end.1 <= 50 && (10 * (
        start.0 - end.0) >= 9 * width || 10 * (end.0 - start.0) >= 9 * width)),
{
}

/// A whole stroke: the button goes down at `a` and comes up at `b`. Gives the
/// state after it and whether either poll signalled the backup.
pub open spec fn rectangle_stroke(
    s: RectangleState,
    a: (i32, i32),
    b: (i32, i32),
    width: u64,
    height: u64,
) -> (RectangleState, bool) {
    let p = rectangle_step(s, true, a, width, height);
    let q = rectangle_step(p.0, false, b, width, height);
    (q.0, p.1 || q.1)
}

/// Runs a sequence of strokes from state `s`: the final state and, for each
/// stroke, whether it signalled the backup.
pub open spec fn run_strokes(
    s: RectangleState,
    strokes: Seq<((i32, i32), (i32, i32))>,
    width: u64,
    height: u64,
) -> (RectangleState, Seq<bool>)
    decreases strokes.len(),
{
    if strokes.len() == 0 {
        (s, seq![])
    } else {
        let r = run_strokes(s, strokes.drop_last(), width, height);
        let t = rectangle_stroke(r.0, strokes.last().0, strokes.last().1, width, height);
        (t.0, r.1.push(t.1))
    }
}

/// The stroke has the orientation `side`.
pub open spec fn stroke_has_side(
    side: Side,
    stroke: ((i32, i32), (i32, i32)),
    width: u64,
    height: u64,
) -> bool {
    match side {
        Side::Vertical => is_vertical_stroke(stroke.0, stroke.1, height),
        Side::Horizontal => is_horizontal_stroke(stroke.0, stroke.1, width),
    }
}

/// Polling again while the button stays down does not move the start of the
/// stroke, and polling while it stays up changes nothing; neither signals.
pub proof fn lemma_repeated_polls_change_nothing(
    s: RectangleState,
    coords: (i32, i32),
    width: u64,
    height: u64,
)
    ensures
        s.drawing ==> rectangle_step(s, true, coords, width, height) == (s, false),
        !s.drawing ==> rectangle_step(s, false, coords, width, height) == (s, false),
{
}

/// Every poll keeps the recorded sides alternating and at most four, and a poll
/// signals only when it completes a stroke with four sides recorded, which it
/// then forgets.
pub proof fn lemma_step_keeps_sides_wf(
    s: RectangleState,
    pressed: bool,
    coords: (i32, i32),
    width: u64,
    height: u64,
)
    requires
        sides_wf(s.sides),
    ensures
        sides_wf(rectangle_step(s, pressed, coords, width, height).0.sides),
        rectangle_step(s, pressed, coords, width, height).1 ==> {
            &&& s.drawing && !pressed && s.sides.len() == 4
            &&& rectangle_step(s, pressed, coords, width, height).0.sides.len() == 0
        },
{
}

/// From the initial state, four strokes that alternate between vertical and
/// horizontal, followed by any fifth stroke, start the backup at the fifth
/// stroke and at no earlier one; the recogniser then starts afresh.
pub proof fn lemma_rectangle_starts_backup(
    strokes: Seq<((i32, i32), (i32, i32))>,
    width: u64,
    height: u64,
)
    requires
        strokes.len() == 5,
        ({
            ||| {
                &&& stroke_has_side(Side::Vertical, strokes[0], width, height)
                &&& stroke_has_side(Side::Horizontal, strokes[1], width, height)
                &&& stroke_has_side(Side::Vertical, strokes[2], width, height)
                &&& stroke_has_side(Side::Horizontal, strokes[3], width, height)
            }
            ||| {
                &&& !stroke_has_side(Side::Vertical, strokes[0], width, height)
                &&& stroke_has_side(Side::Horizontal, strokes[0], width, height)
                &&& stroke_has_side(Side::Vertical, strokes[1], width, height)
                &&& stroke_has_side(Side::Horizontal, strokes[2], width, height)
                &&& stroke_has_side(Side::Vertical, strokes[3], width, height)
            }
        }),
    ensures
        run_strokes(initial_rectangle_state(), strokes, width, height).1 == seq![
            false,
            false,
            false,
            false,
            true,
        ],
        run_strokes(initial_rectangle_state(), strokes, width, height).0.sides.len() == 0,
{
    let init = initial_rectangle_state();
    let r0 = run_strokes(init, strokes.take(0), width, height);
    assert(strokes.take(1).drop_last() =~= strokes.take(0));
    assert(strokes.take(2).drop_last() =~= strokes.take(1));
    assert(strokes.take(3).drop_last() =~= strokes.take(2));
    assert(strokes.take(4).drop_last() =~= strokes.take(3));
    assert(strokes.drop_last() =~= strokes.take(4));
    let r1 = run_strokes(init, strokes.take(1), width, height);
    let r2 = run_strokes(init, strokes.take(2), width, height);
    let r3 = run_strokes(init, strokes.take(3), width, height);
    let r4 = run_strokes(init, strokes.take(4), width, height);
    let r5 = run_strokes(init, strokes, width, height);
    assert(r1.0.sides.len() == 1 && r1.1 =~= seq![false]);
    assert(r2.0.sides.len() == 2 && r2.1 =~= seq![false, false]);
    assert(r3.0.sides.len() == 3 && r3.1 =~= seq![false, false, false]);
    assert(r4.0.sides.len() == 4 && r4.1 =~= seq![false, false, false, false]);
    assert(r5.1 =~= seq![false, false, false, false, true]);
}

/// After any strokes from the initial state, no stroke is in progress, the
/// recorded sides are well formed, and the recorded sides are the orientations
/// of the most recent strokes, in order.
pub proof fn lemma_sides_record_recent_strokes(
    strokes: Seq<((i32, i32), (i32, i32))>,
    width: u64,
    height: u64,
)
    ensures
        ({
            let st = run_strokes(initial_rectangle_state(), strokes, width, height).0;
            &&& !st.drawing
            &&& sides_wf(st.sides)
            &&& st.sides.len() <= strokes.len()
            &&& forall|i: int|
                0 <= i < st.sides.len() ==> stroke_has_side(
                    #[trigger] st.sides[i],
                    strokes[strokes.len() - st.sides.len() + i],
                    width,
                    height,
                )
        }),
    decreases strokes.len(),
{
    if strokes.len() > 0 {
        let prev = strokes.drop_last();
        lemma_sides_record_recent_strokes(prev, width, height);
        let p = run_strokes(initial_rectangle_state(), prev, width, height).0;
        let st = run_strokes(initial_rectangle_state(), strokes, width, height).0;
        let n = strokes.len();
        assert forall|i: int| 0 <= i < st.sides.len() implies stroke_has_side(
            #[trigger] st.sides[i],
            strokes[n - st.sides.len() + i],
            width,
            height,
        ) by {
            if st.sides.len() == p.sides.len() + 1 {
                if i < p.sides.len() {
                    assert(st.sides[i] == p.sides[i]);
                    assert(prev[prev.len() - p.sides.len() + i] == strokes[n - st.sides.len()
                        + i]);
                }
            } else {
                assert(st.sides.len() == 0 || st.sides.len() == 1);
            }
        }
    }
}

/// A stroke starts the backup only when the four strokes before it form a
/// rectangle: alternating vertical and horizontal sides.
pub proof fn lemma_backup_only_after_rectangle(
    strokes: Seq<((i32, i32), (i32, i32))>,
    width: u64,
    height: u64,
)
    requires
        strokes.len() > 0,
        run_strokes(initial_rectangle_state(), strokes, width, height).1.last(),
    ensures
        strokes.len() >= 5,
        exists|sides: Seq<Side>|
            {
                &&& sides.len() == 4
                &&& sides_wf(sides)
                &&& forall|i: int|
                    0 <= i < 4 ==> stroke_has_side(
                        #[trigger] sides[i],
                        strokes[strokes.len() - 5 + i],
                        width,
                        height,
                    )
            },
{
    let prev = strokes.drop_last();
    lemma_sides_record_recent_strokes(prev, width, height);
    let p = run_strokes(initial_rectangle_state(), prev, width, height).0;
    assert(p.sides.len() == 4);
    assert forall|i: int| 0 <= i < 4 implies stroke_has_side(
        #[trigger] p.sides[i],
        strokes[strokes.len() - 5 + i],
        width,
        height,
    ) by {
        assert(prev[prev.len() - p.sides.len() + i] == strokes[strokes.len() - 5 + i]);
    }
}

/// From an idle confirmation recogniser, a stroke from `a` to `b` confirms the
/// backup exactly when it is horizontal.
pub proof fn lemma_line_confirms_horizontal_stroke(
    s: LineState,
    a: (i32, i32),
    b: (i32, i32),
    width: u64,
)
    requires
        !s.drawing,
    ensures
        ({
            let p = line_step(s, true, a, width);
            let q = line_step(p.0, false, b, width);
            &&& !p.1
            &&& q.1 == is_horizontal_stroke(a, b, width)
            &&& !q.0.drawing
        }),
{
}


/// A whole confirmation stroke from `a` to `b`: the state after it and whether
/// either poll confirmed the backup.
pub open spec fn line_stroke(s: LineState, a: (i32, i32), b: (i32, i32), width: u64) -> (
    LineState,
    bool,
) {
    let p = line_step(s, true, a, width);
    let q = line_step(p.0, false, b, width);
    (q.0, p.1 || q.1)
}

/// Runs a sequence of confirmation strokes: the final state and, for each
/// stroke, whether it confirmed the backup.
pub open spec fn run_line_strokes(
    s: LineState,
    strokes: Seq<((i32, i32), (i32, i32))>,
    width: u64,
) -> (LineState, Seq<bool>)
    decreases strokes.len(),
{
    if strokes.len() == 0 {
        (s, seq![])
    } else {
        let r = run_line_strokes(s, strokes.drop_last(), width);
        let t = line_stroke(r.0, strokes.last().0, strokes.last().1, width);
        (t.0, r.1.push(t.1))
    }
}

/// Over any sequence of strokes from an idle confirmation recogniser, a stroke
/// confirms the backup exactly when it is horizontal; so the first horizontal
/// stroke is the first confirmation, and no other stroke has any effect.
pub proof fn lemma_line_confirms_exactly_horizontal_strokes(
    s: LineState,
    strokes: Seq<((i32, i32), (i32, i32))>,
    width: u64,
)
    requires
        !s.drawing,
    ensures
        ({
            let r = run_line_strokes(s, strokes, width);
            &&& !r.0.drawing
            &&& r.1.len() == strokes.len()
            &&& forall|k: int|
                0 <= k < strokes.len() ==> #[trigger] r.1[k] == is_horizontal_stroke(
                    strokes[k].0,
                    strokes[k].1,
                    width,
                )
        }),
    decreases strokes.len(),
{
    if strokes.len() > 0 {
        let prev = strokes.drop_last();
        lemma_line_confirms_exactly_horizontal_strokes(s, prev, width);
        let r = run_line_strokes(s, strokes, width);
        let rp = run_line_strokes(s, prev, width);
        assert forall|k: int| 0 <= k < strokes.len() implies #[trigger] r.1[k]
            == is_horizontal_stroke(strokes[k].0, strokes[k].1, width) by {
            if k < prev.len() {
                assert(r.1[k] == rp.1[k]);
                assert(prev[k] == strokes[k]);
            }
        }
    }
}

} // verus!
