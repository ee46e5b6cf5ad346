//! The interactive control-point editor.
//!
//! A press of the mouse button either grabs the marker under the pointer or,
//! on empty space, adds a new control point there and grabs it; while the
//! button is held the grabbed point follows the pointer, and releasing the
//! button lets go. Keys toggle the markers and the control polygon, clear the
//! points or ask for the raster to be redrawn. The points are of any type `P`:
//! the editor only stores, moves and hands them out.
use vstd::prelude::*;

verus! {

/// What the editor holds, as mathematical values.
pub struct EditorState<P> {
    /// The control points, in the order in which they were added.
    pub points: Seq<P>,
    /// The grabbed point's index, or a negative number when none is grabbed.
    pub selected: int,
    /// Whether the markers of the control points are drawn.
    pub show_markers: bool,
    /// Whether the control polygon is drawn.
    pub show_lines: bool,
    /// Whether the raster must be drawn again.
    pub render_requested: bool,
}

impl<P> EditorState<P> {
    /// The state of a new editor: no points, nothing grabbed, markers shown,
    /// polygon hidden, nothing to redraw.
    pub open spec fn initial() -> Self {
        EditorState {
            points: Seq::empty(),
            selected: -1,
            show_markers: true,
            show_lines: false,
            render_requested: false,
        }
    }

    /// After a press of the button, where `hit` is the index of the marker
    /// under the pointer (negative when there is none) and `pos` the pointer:
    /// a hit grabs that marker; a miss adds `pos` as a new point and grabs it.
    pub open spec fn pressed(self, hit: i32, pos: P) -> Self {
        if hit < 0 {
            EditorState {
                points: self.points.push(pos),
                selected: (self.points.len() as i32) as int,
                show_markers: self.show_markers,
                show_lines: self.show_lines,
                render_requested: true,
            }
        } else {
            EditorState {
                points: self.points,
                selected: hit as int,
                show_markers: self.show_markers,
                show_lines: self.show_lines,
                render_requested: true,
            }
        }
    }

    /// Whether a point is grabbed and lies within the points.
    pub open spec fn holds_point(self) -> bool {
        self.selected > -1 && self.selected < (self.points.len() as i32)
    }

    /// While the button is held with the pointer at `pos`: the grabbed point
    /// moves to `pos`.
    pub open spec fn dragged(self, pos: P) -> Self {
        EditorState {
            points: if self.holds_point() {
                self.points.update(self.selected, pos)
            } else {
                self.points
            },
            selected: self.selected,
            show_markers: self.show_markers,
            show_lines: self.show_lines,
            render_requested: true,
        }
    }

    /// After the button is released: nothing is grabbed.
    pub open spec fn released(self) -> Self {
        EditorState {
            points: self.points,
            selected: -1,
            show_markers: self.show_markers,
            show_lines: self.show_lines,
            render_requested: true,
        }
    }

    /// The markers are shown if they were hidden and hidden if they were shown.
    pub open spec fn markers_toggled(self) -> Self {
        EditorState {
            points: self.points,
            selected: self.selected,
            show_markers: !self.show_markers,
            show_lines: self.show_lines,
            render_requested: self.render_requested,
        }
    }

    /// The polygon is shown if it was hidden and hidden if it was shown.
    pub open spec fn lines_toggled(self) -> Self {
        EditorState {
            points: self.points,
            selected: self.selected,
            show_markers: self.show_markers,
            show_lines: !self.show_lines,
            render_requested: self.render_requested,
        }
    }

    /// The selection lies within the points (or is none), and the number of
    /// points can be named by an `i32`.
    pub open spec fn well_formed(self) -> bool {
        &&& -1 <= self.selected < self.points.len()
        &&& self.points.len() <= i32::MAX
    }
}

/// The editor of a list of control points.
pub struct Editor<P> {
    points: Vec<P>,
    selected: i32,
    show_markers: bool,
    show_lines: bool,
    render_requested: bool,
}

impl<P> View for Editor<P> {
    type V = EditorState<P>;

    closed spec fn view(&self) -> EditorState<P> {
        EditorState {
            points: self.points@,
            selected: self.selected as int,
            show_markers: self.show_markers,
            show_lines: self.show_lines,
            render_requested: self.render_requested,
        }
    }
}

impl<P> Editor<P> {
    /// A new editor without points.
    pub fn new() -> (e: Self)
        ensures
            e@ == EditorState::<P>::initial(),
    {
        Editor {
            points: Vec::new(),
            selected: -1,
            show_markers: true,
            show_lines: false,
            render_requested: false,
        }
    }

    /// The control points.
    pub fn points(&self) -> (ps: &Vec<P>)
        ensures
            ps@ == self@.points,
    {
        &self.points
    }

    /// The grabbed point's index, or `-1` when none is grabbed.
    pub fn selected(&self) -> (i: i32)
        ensures
            i == self@.selected,
    {
        self.selected
    }

    /// Whether the markers are drawn.
    pub fn show_markers(&self) -> (b: bool)
        ensures
            b == self@.show_markers,
    {
        self.show_markers
    }

    /// Whether the control polygon is drawn.
    pub fn show_lines(&self) -> (b: bool)
        ensures
            b == self@.show_lines,
    {
        self.show_lines
    }

    /// Presses the button: `hit` is the index of the marker under the pointer,
    /// negative when there is none, and `pos` is the pointer.
    pub fn press(&mut self, hit: i32, pos: P)
        ensures
            final(self)@ == old(self)@.pressed(hit, pos),
    {
        proof {
            use_view_fields(self);
        }
        if hit < 0 {
            self.points.push(pos);
            self.selected = #[verifier::truncate] ((self.points.len() - 1) as i32);
        } else {
            self.selected = hit;
        }
        self.render_requested = true;
        proof {
            use_view_fields(self);
        }
    }

    /// Holds the button with the pointer at `pos`.
    pub fn drag(&mut self, pos: P)
        ensures
            final(self)@ == old(self)@.dragged(pos),
    {
        proof {
            use_view_fields(self);
        }
        if self.selected > -1 && self.selected < #[verifier::truncate] (self.points.len() as i32) {
            self.points.set(self.selected as usize, pos);
        }
        self.render_requested = true;
        proof {
            use_view_fields(self);
        }
    }

    /// Releases the button.
    pub fn release(&mut self)
        ensures
            final(self)@ == old(self)@.released(),
    {
        self.selected = -1;
        self.render_requested = true;
        proof {
            use_view_fields(self);
        }
    }

    /// Shows the markers if they were hidden, hides them otherwise.
    pub fn toggle_markers(&mut self)
        ensures
            final(self)@ == old(self)@.markers_toggled(),
    {
        if !self.show_markers {
            self.show_markers = true;
        } else {
            self.show_markers = false;
        }
        proof {
            use_view_fields(self);
        }
    }

    /// Shows the control polygon if it was hidden, hides it otherwise.
    pub fn toggle_lines(&mut self)
        ensures
            final(self)@ == old(self)@.lines_toggled(),
    {
        if !self.show_lines {
            self.show_lines = true;
        } else {
            self.show_lines = false;
        }
        proof {
            use_view_fields(self);
        }
    }

    /// Asks for the raster to be drawn again.
    pub fn request_render(&mut self)
        ensures
            final(self)@.render_requested,
            final(self)@.points == old(self)@.points,
            final(self)@.selected == old(self)@.selected,
            final(self)@.show_markers == old(self)@.show_markers,
            final(self)@.show_lines == old(self)@.show_lines,
    {
        self.render_requested = true;
        proof {
            use_view_fields(self);
        }
    }

    /// Whether the raster must be drawn again; the request is consumed.
    pub fn take_render_request(&mut self) -> (requested: bool)
        ensures
            requested == old(self)@.render_requested,
            !final(self)@.render_requested,
            final(self)@.points == old(self)@.points,
            final(self)@.selected == old(self)@.selected,
            final(self)@.show_markers == old(self)@.show_markers,
            final(self)@.show_lines == old(self)@.show_lines,
    {
        let requested = self.render_requested;
        self.render_requested = false;
        proof {
            use_view_fields(self);
        }
        requested
    }

    /// Removes every control point; the grabbed index is kept as it was.
    pub fn clear_points(&mut self)
        ensures
            final(self)@.points == Seq::<P>::empty(),
            final(self)@.selected == old(self)@.selected,
            final(self)@.show_markers == old(self)@.show_markers,
            final(self)@.show_lines == old(self)@.show_lines,
            final(self)@.render_requested == old(self)@.render_requested,
    {
        self.points.clear();
        proof {
            use_view_fields(self);
        }
    }

    /// Appends a control point without grabbing it.
    pub fn add_point(&mut self, pos: P)
        ensures
            final(self)@.points == old(self)@.points.push(pos),
            final(self)@.selected == old(self)@.selected,
            final(self)@.show_markers == old(self)@.show_markers,
            final(self)@.show_lines == old(self)@.show_lines,
            final(self)@.render_requested == old(self)@.render_requested,
    {
        self.points.push(pos);
        proof {
            use_view_fields(self);
        }
    }

    /// Whether there are enough points (more than two) for a curve to be drawn.
    pub fn draws_curve(&self) -> (b: bool)
        ensures
            b == (self@.points.len() > 2),
    {
        proof {
            use_view_fields(self);
        }
        self.points.len() > 2
    }

    /// The sides of the control polygon to draw, as pairs of point indices:
    /// `(i, i + 1)` for each point but the last when the polygon is shown and
    /// there are at least two points, none otherwise.
    pub fn line_segments(&self) -> (segs: Vec<(usize, usize)>)
        ensures
            segs.len() == (if self@.show_lines && self@.points.len() > 1 {
                self@.points.len() - 1
            } else {
                0
            }),
            forall|i: int| 0 <= i < segs.len() ==> #[trigger] segs@[i] == (i as usize, (i + 1) as usize),
    {
        proof {
            use_view_fields(self);
        }
        let mut segs: Vec<(usize, usize)> = Vec::new();
        if self.points.len() > 1 && self.show_lines {
            let n = self.points.len() - 1;
            let mut i: usize = 0;
            while i < n
                invariant
                    i <= n,
                    segs.len() == i,
                    forall|k: int| 0 <= k < segs.len() ==> #[trigger] segs@[k] == (k as usize, (k
                        + 1) as usize),
                decreases n - i,
            {
                segs.push((i, i + 1));
                i = i + 1;
            }
        }
        segs
    }
}

/// Relates the view of an editor to its fields.
proof fn use_view_fields<P>(e: &Editor<P>)
    ensures
        e@.points == e.points@,
        e@.selected == e.selected as int,
        e@.show_markers == e.show_markers,
        e@.show_lines == e.show_lines,
        e@.render_requested == e.render_requested,
{
}

/// Pressing on empty space and releasing adds the pointer's position as the
/// last point and leaves nothing grabbed.
pub proof fn lemma_click_adds_point<P>(s: EditorState<P>, pos: P)
    ensures
        s.pressed(-1i32, pos).released().points == s.points.push(pos),
        s.pressed(-1i32, pos).released().selected == -1,
{
}

/// Pressing on a marker adds no point and grabs that marker.
pub proof fn lemma_press_on_marker_adds_nothing<P>(s: EditorState<P>, hit: i32, pos: P)
    requires
        hit >= 0,
    ensures
        s.pressed(hit, pos).points == s.points,
        s.pressed(hit, pos).selected == hit,
{
}

/// A press on empty space grabs the new point, so that dragging moves it.
pub proof fn lemma_new_point_follows_drag<P>(s: EditorState<P>, pos: P, to: P)
    requires
        s.points.len() < i32::MAX,
    ensures
        s.pressed(-1i32, pos).dragged(to).points == s.points.push(to),
{
    assert(s.pressed(-1i32, pos).selected == s.points.len());
    assert(s.pressed(-1i32, pos).dragged(to).points =~= s.points.push(to));
}

/// Dragging keeps the number of points and moves at most the grabbed one:
/// every other point stays where it was.
pub proof fn lemma_drag_moves_only_grabbed<P>(s: EditorState<P>, pos: P)
    ensures
        s.dragged(pos).points.len() == s.points.len(),
        forall|i: int|
            0 <= i < s.points.len() && i != s.selected ==> #[trigger] s.dragged(pos).points[i]
                == s.points[i],
        s.holds_point() ==> s.dragged(pos).points[s.selected] == pos,
{
}

/// Toggling the markers or the polygon twice gives back the state.
pub proof fn lemma_toggle_twice<P>(s: EditorState<P>)
    ensures
        s.markers_toggled().markers_toggled() == s,
        s.lines_toggled().lines_toggled() == s,
{
}

/// Presses with the index of a marker under the pointer (or `-1`), drags,
/// releases and toggles keep the selection within the points, as long as the
/// number of points stays within `i32`.
pub proof fn lemma_well_formed_kept<P>(s: EditorState<P>, hit: i32, pos: P)
    requires
        s.well_formed(),
        -1 <= hit < s.points.len(),
        s.points.len() < i32::MAX,
    ensures
        s.pressed(hit, pos).well_formed(),
        s.dragged(pos).well_formed(),
        s.released().well_formed(),
        s.markers_toggled().well_formed(),
        s.lines_toggled().well_formed(),
{
}

/// In a well-formed state a grabbed point is always one of the points.
pub proof fn lemma_grabbed_is_held<P>(s: EditorState<P>)
    requires
        s.well_formed(),
        s.selected >= 0,
    ensures
        s.holds_point(),
{
}

/// A drag keeps the grab, so while the button is held the grabbed point
/// follows the pointer frame after frame: after two drags it stands at the
/// second position, and every other point stays where it was.
pub proof fn lemma_drag_keeps_grab<P>(s: EditorState<P>, p: P, q: P)
    ensures
        s.dragged(p).selected == s.selected,
        s.dragged(p).show_markers == s.show_markers,
        s.dragged(p).show_lines == s.show_lines,
        s.dragged(p).render_requested,
        s.holds_point() ==> s.dragged(p).dragged(q).points[s.selected] == q,
        s.holds_point() ==> s.dragged(p).dragged(q).points.len() == s.points.len(),
        s.holds_point() ==> forall|i: int|
            0 <= i < s.points.len() && i != s.selected ==> #[trigger] s.dragged(p).dragged(
                q,
            ).points[i] == s.points[i],
        !s.holds_point() ==> s.dragged(p).points == s.points,
{
}

/// The grab holds a point exactly when the grabbed index is one of the
/// points' indices (for up to `i32::MAX` points).
pub proof fn lemma_holds_point_is_index<P>(s: EditorState<P>)
    requires
        s.points.len() <= i32::MAX,
    ensures
        s.holds_point() <==> 0 <= s.selected < s.points.len(),
{
}

/// Each toggle negates its own flag, whatever the points, and changes nothing else.
pub proof fn lemma_toggles_negate<P>(s: EditorState<P>)
    ensures
        s.markers_toggled().show_markers == !s.show_markers,
        s.markers_toggled().show_lines == s.show_lines,
        s.markers_toggled().points == s.points,
        s.markers_toggled().selected == s.selected,
        s.markers_toggled().render_requested == s.render_requested,
        s.lines_toggled().show_lines == !s.show_lines,
        s.lines_toggled().show_markers == s.show_markers,
        s.lines_toggled().points == s.points,
        s.lines_toggled().selected == s.selected,
        s.lines_toggled().render_requested == s.render_requested,
{
}

/// A press on empty space appends the pointer's position as the last point and
/// grabs it (its index is the old number of points); a press on a marker
/// grabs that marker and keeps the points. Either way the flags stay and a
/// redraw is asked for.
pub proof fn lemma_press_effect<P>(s: EditorState<P>, hit: i32, pos: P)
    requires
        s.points.len() < i32::MAX,
    ensures
        hit < 0 ==> s.pressed(hit, pos).points.len() == s.points.len() + 1,
        hit < 0 ==> s.pressed(hit, pos).points.last() == pos,
        hit < 0 ==> s.pressed(hit, pos).points.drop_last() == s.points,
        hit < 0 ==> s.pressed(hit, pos).selected == s.points.len(),
        hit >= 0 ==> s.pressed(hit, pos).points == s.points,
        hit >= 0 ==> s.pressed(hit, pos).selected == hit,
        s.pressed(hit, pos).show_markers == s.show_markers,
        s.pressed(hit, pos).show_lines == s.show_lines,
        s.pressed(hit, pos).render_requested,
{
    if hit < 0 {
        assert(s.pressed(hit, pos).points.drop_last() =~= s.points);
    }
}

/// A release lets go of the grab and keeps the points and flags.
pub proof fn lemma_release_effect<P>(s: EditorState<P>)
    ensures
        s.released().selected == -1,
        !s.released().holds_point(),
        s.released().points == s.points,
        s.released().show_markers == s.show_markers,
        s.released().show_lines == s.show_lines,
        s.released().render_requested,
{
}

/// A new editor has no points, grabs nothing, shows the markers, hides the
/// polygon and has nothing to redraw.
pub proof fn lemma_initial_state<P>()
    ensures
        EditorState::<P>::initial().points.len() == 0,
        EditorState::<P>::initial().selected == -1,
        EditorState::<P>::initial().show_markers,
        !EditorState::<P>::initial().show_lines,
        !EditorState::<P>::initial().render_requested,
{
}

/// The index of the first marker that is hit, or `-1` when none is:
/// `hits[i]` says whether the pointer lies on the marker of point `i`.
/// The index is converted with `as i32`.
pub fn first_hit(hits: &Vec<bool>) -> (res: i32)
    ensures
        (forall|i: int| 0 <= i < hits.len() ==> !#[trigger] hits@[i]) ==> res == -1,
        forall|i: int|
            0 <= i < hits.len() && #[trigger] hits@[i] && (forall|j: int| 0 <= j < i ==> !hits@[j])
                ==> res == i as i32,
{
    let mut i: usize = 0;
    while i < hits.len()
        invariant
            i <= hits.len(),
            forall|j: int| 0 <= j < i ==> !#[trigger] hits@[j],
        decreases hits.len() - i,
    {
        if hits[i] {
            return #[verifier::truncate] (i as i32);
        }
        i = i + 1;
    }
    -1
}

} // verus!
