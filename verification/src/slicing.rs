//! Topology of slicing a triangle by a horizontal plane.
//!
//! Whether a vertex lies above a plane is a float comparison that the
//! caller makes; given those answers, this module decides where a triangle
//! goes and, for a triangle that the plane crosses, how it is cut into
//! pieces that keep its winding.
use vstd::prelude::*;

verus! {

/// How a plane meets a triangle, given which of its vertices lie above it
/// (strictly; a vertex on the plane counts as below).
#[derive(Clone, Copy, Debug, PartialEq, Eq, Structural)]
pub enum TriangleSplit {
    AllAbove,
    AllBelow,
    /// The vertex `lone` lies alone on its side (above when `lone_above`);
    /// `first` and `second` follow it in the triangle's winding order.
    Split { lone: usize, lone_above: bool, first: usize, second: usize },
}

/// A corner of a piece: an original vertex, or one of the two points where
/// the plane cuts the edges from the lone vertex (`Cut(0)` on the edge to
/// `first`, `Cut(1)` on the edge to `second`).
#[derive(Clone, Copy, Debug, PartialEq, Eq, Structural)]
pub enum Corner {
    Vertex(usize),
    Cut(usize),
}

/// The pieces of a crossed triangle: one on the lone vertex's side, two on
/// the other side.
#[derive(Clone, Copy, Debug)]
pub struct SplitPieces {
    pub lone_side: [Corner; 3],
    pub far_side: [[Corner; 3]; 2],
    pub lone_above: bool,
}

/// Where a triangle goes when an actor is cut into head, body and legs.
#[derive(Clone, Copy, Debug, PartialEq, Eq, Structural)]
pub enum Placement {
    Head,
    Legs,
    Body,
    /// The triangle crosses a cutting plane and must be split.
    Straddles,
}

/// Decides how the plane meets a triangle.
pub fn plan_triangle_split(above: [bool; 3]) -> (r: TriangleSplit)
    ensures
        (above[0] && above[1] && above[2]) <==> r == TriangleSplit::AllAbove,
        (!above[0] && !above[1] && !above[2]) <==> r == TriangleSplit::AllBelow,
        r matches TriangleSplit::Split { lone, lone_above, first, second } ==> {
            &&& lone < 3
            &&& above[lone as int] == lone_above
            &&& first == (lone + 1) % 3
            &&& second == (lone + 2) % 3
            &&& above[first as int] == !lone_above
            &&& above[second as int] == !lone_above
        },
{
    let mut above_nodes: Vec<usize> = Vec::new();
    let mut below_nodes: Vec<usize> = Vec::new();
    if above[0] {
        above_nodes.push(0);
    } else {
        below_nodes.push(0);
    }
    if above[1] {
        above_nodes.push(1);
    } else {
        below_nodes.push(1);
    }
    if above[2] {
        above_nodes.push(2);
    } else {
        below_nodes.push(2);
    }
    if above_nodes.len() == 3 {
        return TriangleSplit::AllAbove;
    }
    if below_nodes.len() == 3 {
        return TriangleSplit::AllBelow;
    }
    let (lone_above, lone, others) = if above_nodes.len() == 1 {
        (true, above_nodes[0], [below_nodes[0], below_nodes[1]])
    } else {
        (false, below_nodes[0], [above_nodes[0], above_nodes[1]])
    };
    let (first, second) = if (lone + 1) % 3 == others[0] {
        (others[0], others[1])
    } else {
        (others[1], others[0])
    };
    TriangleSplit::Split { lone, lone_above, first, second }
}

/// Pieces of a crossed triangle, with corners listed in the triangle's
/// winding order: the lone side is `(lone, Cut(0), Cut(1))`, the far side is
/// `(Cut(0), first, second)` and `(Cut(0), second, Cut(1))`.
pub fn split_pieces(lone: usize, lone_above: bool, first: usize, second: usize) -> (p: SplitPieces)
    ensures
        p.lone_above == lone_above,
        p.lone_side == [Corner::Vertex(lone), Corner::Cut(0), Corner::Cut(1)],
        p.far_side[0] == [Corner::Cut(0), Corner::Vertex(first), Corner::Vertex(second)],
        p.far_side[1] == [Corner::Cut(0), Corner::Vertex(second), Corner::Cut(1)],
{
    SplitPieces {
        lone_side: [Corner::Vertex(lone), Corner::Cut(0), Corner::Cut(1)],
        far_side: [
            [Corner::Cut(0), Corner::Vertex(first), Corner::Vertex(second)],
            [Corner::Cut(0), Corner::Vertex(second), Corner::Cut(1)],
        ],
        lone_above,
    }
}

/// Where a triangle goes, given for each vertex whether it lies above the
/// top plane, below the bottom plane, above the bottom plane and below the
/// top plane (all strict).
pub fn classify_triangle(
    above_top: [bool; 3],
    below_bottom: [bool; 3],
    above_bottom: [bool; 3],
    below_top: [bool; 3],
) -> (p: Placement)
    ensures
        p == (if above_top[0] && above_top[1] && above_top[2] {
            Placement::Head
        } else if below_bottom[0] && below_bottom[1] && below_bottom[2] {
            Placement::Legs
        } else if above_bottom[0] && above_bottom[1] && above_bottom[2] && below_top[0] && below_top[1] && below_top[2] {
            Placement::Body
        } else {
            Placement::Straddles
        }),
{
    if above_top[0] && above_top[1] && above_top[2] {
        Placement::Head
    } else if below_bottom[0] && below_bottom[1] && below_bottom[2] {
        Placement::Legs
    } else if above_bottom[0] && above_bottom[1] && above_bottom[2] && below_top[0] && below_top[1] && below_top[2] {
        Placement::Body
    } else {
        Placement::Straddles
    }
}

/// A crossed triangle's corners keep their cyclic order: `first` and
/// `second` are the two other vertices, each appearing once, and the three
/// vertices are distinct.
pub proof fn law_split_keeps_winding(above: [bool; 3], lone: usize, lone_above: bool, first: usize, second: usize)
    requires
        lone < 3,
        first == (lone + 1) % 3,
        second == (lone + 2) % 3,
    ensures
        lone != first && lone != second && first != second,
        first < 3 && second < 3,
        (first + 1) % 3 == second,
        (second + 1) % 3 == lone,
{
}

// ---------------------------------------------------------------------------
// Scheduling slices
// ---------------------------------------------------------------------------

/// What one frame of the slicing scheduler does.
#[derive(Clone, Copy, Debug, PartialEq, Eq, Structural)]
pub struct SlicingStep {
    /// Record an undoable change from the last sliced cuts to the current
    /// ones.
    pub push_undo: bool,
    /// Start a slicing task (the current cuts become the last sliced ones).
    pub start_slice: bool,
    /// Before slicing, set the cuts to the defaults of a fresh model
    /// (top 0.75, bottom 0.25).
    pub apply_default_cuts: bool,
    /// New value of the explicit-trigger flag.
    pub trigger_slice: bool,
    /// New value of the flag that keeps the next trigger out of the history.
    pub suppress_undo: bool,
    /// Whether a pending cut confirmation survives the frame (when false it
    /// is cleared).
    pub needs_confirm: bool,
    /// Release the gizmo being dragged.
    pub clear_dragging: bool,
}

/// Decides one frame of slicing.  Nothing happens while a slicing task is
/// running or no actor is loaded.  Otherwise an explicit trigger is
/// consumed (clearing the trigger, the undo suppression, the pending
/// confirmation and the drag) and is recorded in the history when it is not
/// suppressed, a previous cut exists and the cuts moved; a slice starts on
/// the first load, on a trigger, or when a cut moved.  The float tests are
/// the caller's: `has_previous_cut` is "last top cut >= 0", `cuts_changed`
/// is "a cut moved by more than 0.001 since the last slice" and
/// `last_top_unset` is "last top cut == -1".
pub fn slicing_step(
    task_running: bool,
    has_root: bool,
    needs_initial_slice: bool,
    trigger_slice: bool,
    suppress_undo: bool,
    has_previous_cut: bool,
    cuts_changed: bool,
    last_top_unset: bool,
) -> (s: SlicingStep)
    ensures
        ({
            let active = !task_running && has_root;
            let consumed = active && trigger_slice;
            &&& s.push_undo == (consumed && !suppress_undo && has_previous_cut && cuts_changed)
            &&& s.start_slice == (active && (needs_initial_slice || trigger_slice || cuts_changed))
            &&& s.apply_default_cuts == (s.start_slice && needs_initial_slice && last_top_unset)
            &&& s.trigger_slice == (trigger_slice && !consumed)
            &&& s.suppress_undo == (suppress_undo && !consumed)
            &&& s.needs_confirm == !consumed
            &&& s.clear_dragging == consumed
        }),
{
    if task_running || !has_root {
        return SlicingStep {
            push_undo: false,
            start_slice: false,
            apply_default_cuts: false,
            trigger_slice,
            suppress_undo,
            needs_confirm: true,
            clear_dragging: false,
        };
    }
    let push_undo = trigger_slice && !suppress_undo && has_previous_cut && cuts_changed;
    let start_slice = needs_initial_slice || trigger_slice || cuts_changed;
    let apply_default_cuts = start_slice && needs_initial_slice && last_top_unset;
    if trigger_slice {
        SlicingStep {
            push_undo,
            start_slice,
            apply_default_cuts,
            trigger_slice: false,
            suppress_undo: false,
            needs_confirm: false,
            clear_dragging: true,
        }
    } else {
        SlicingStep {
            push_undo,
            start_slice,
            apply_default_cuts,
            trigger_slice: false,
            suppress_undo,
            needs_confirm: true,
            clear_dragging: false,
        }
    }
}

} // verus!
