use vstd::prelude::*;

verus! {

/// The gesture in progress: where the pointer went down, where it is now,
/// and whether it is still down.
#[derive(Clone, Copy, Debug, PartialEq, Eq)]
pub struct DragState {
    pub start: Option<(usize, usize)>,
    pub end: Option<(usize, usize)>,
    pub is_dragging: bool,
}

/// `b` is one step up, down, left or right of `a`.
pub open spec fn is_adjacent(a: (usize, usize), b: (usize, usize)) -> bool {
    let dx = a.0 - b.0;
    let dy = a.1 - b.1;
    ((dx == 1 || dx == -1) && dy == 0) || ((dy == 1 || dy == -1) && dx == 0)
}

/// Whether a swap of the cells at `a` and `b` is a legal move.
pub fn is_valid_swap(a: (usize, usize), b: (usize, usize)) -> (r: bool)
    ensures
        r == is_adjacent(a, b),
{
    let dx: usize = if a.0 >= b.0 { a.0 - b.0 } else { b.0 - a.0 };
    let dy: usize = if a.1 >= b.1 { a.1 - b.1 } else { b.1 - a.1 };
    (dx == 1 && dy == 0) || (dy == 1 && dx == 0)
}

/// A cell's legal swap partners are exactly its four orthogonal neighbours;
/// the cell itself and its diagonal neighbours are not among them.
pub proof fn lemma_swap_partners(a: (usize, usize), b: (usize, usize))
    ensures
        is_adjacent(a, b) <==> ((b.0 == a.0 + 1 || b.0 + 1 == a.0) && b.1 == a.1) || ((b.1 == a.1
            + 1 || b.1 + 1 == a.1) && b.0 == a.0),
        !is_adjacent(a, a),
        (a.0 != b.0 && a.1 != b.1) ==> !is_adjacent(a, b),
{
}

/// The gesture after one frame of pointer input: `cell` is the board cell
/// under the pointer (`None` off the board), `pressed` and `released` say
/// whether the button went down or up in this frame. A press on the board
/// starts a gesture; while it is in progress each cell the pointer is over
/// becomes its end, and frames off the board leave it alone; a release ends
/// it wherever the pointer is, and one off the board leaves it without an end.
pub open spec fn after_frame(
    d: DragState,
    cell: Option<(usize, usize)>,
    pressed: bool,
    released: bool,
) -> DragState {
    let d1 = if pressed && cell is Some {
        DragState { start: cell, end: None, is_dragging: true }
    } else {
        d
    };
    let d2 = if d1.is_dragging && cell is Some {
        DragState { end: cell, ..d1 }
    } else {
        d1
    };
    if released && d2.is_dragging {
        DragState {
            end: if cell is Some {
                d2.end
            } else {
                None
            },
            is_dragging: false,
            ..d2
        }
    } else {
        d2
    }
}

impl DragState {
    /// No gesture in progress.
    pub open spec fn is_idle(&self) -> bool {
        self.start is None && self.end is None && !self.is_dragging
    }

    /// The idle state.
    pub fn new() -> (d: DragState)
        ensures
            d.is_idle(),
    {
        DragState { start: None, end: None, is_dragging: false }
    }

    /// The pointer went down on cell `p`: a new gesture starts there.
    pub fn press(&mut self, p: (usize, usize))
        ensures
            *final(self) == (DragState { start: Some(p), end: None, is_dragging: true }),
    {
        self.start = Some(p);
        self.end = None;
        self.is_dragging = true;
    }

    /// The pointer is over cell `q`: while a gesture is in progress, `q`
    /// becomes its end.
    pub fn hover(&mut self, q: (usize, usize))
        ensures
            old(self).is_dragging ==> *final(self) == (DragState { end: Some(q), ..*old(self) }),
            !old(self).is_dragging ==> *final(self) == *old(self),
    {
        if self.is_dragging {
            self.end = Some(q);
        }
    }

    /// The pointer was lifted: the gesture waits to be resolved.
    pub fn release(&mut self)
        ensures
            *final(self) == (DragState { is_dragging: false, ..*old(self) }),
    {
        self.is_dragging = false;
    }

    /// Feeds one frame of pointer input into the gesture.
    pub fn pointer_frame(&mut self, cell: Option<(usize, usize)>, pressed: bool, released: bool)
        ensures
            *final(self) == after_frame(*old(self), cell, pressed, released),
    {
        if pressed {
            if let Some(c) = cell {
                self.press(c);
            }
        }
        if self.is_dragging && cell.is_some() {
            self.end = cell;
        }
        if released && self.is_dragging {
            if cell.is_none() {
                self.end = None;
            }
            self.release();
        }
    }

    /// Back to idle.
    pub fn reset(&mut self)
        ensures
            final(self).is_idle(),
    {
        self.start = None;
        self.end = None;
        self.is_dragging = false;
    }
}

impl Default for DragState {
    fn default() -> (d: DragState)
        ensures
            d.is_idle(),
    {
        DragState::new()
    }
}

} // verus!
