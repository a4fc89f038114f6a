use super::GridEvent;
use crate::pathfinders::{Pos, Unit};
use vstd::prelude::*;

verus! {

/// Which marker, if any, the pointer is dragging.
#[derive(Clone, Copy, Debug, PartialEq, Eq, Structural)]
pub enum DragState {
    Idle,
    Start,
    End,
}

/// A request to change what is being dragged.
#[derive(Clone, Copy, Debug, PartialEq, Eq, Structural)]
pub enum GridMsg {
    DragStart,
    DragEnd,
    DragNone,
}

/// What the grid does in answer to the pointer: it changes what is being
/// dragged, or it asks its owner to change the grid.
#[derive(Clone, Copy, Debug, PartialEq, Eq, Structural)]
pub enum Reaction {
    Message(GridMsg),
    Emit(GridEvent),
}

/// The grid as drawn with one element per cell. It remembers which marker
/// is being dragged.
#[derive(Clone, Copy, Debug)]
pub struct DOMGridComponent {
    drag_state: DragState,
}

/// What a gesture at `pos` asks for while `drag_state` holds: to move the
/// marker that is being dragged, or else to toggle the tile.
pub open spec fn gesture(drag_state: DragState, pos: Pos) -> GridEvent {
    match drag_state {
        DragState::Start => GridEvent::StartMove(pos),
        DragState::End => GridEvent::EndMove(pos),
        DragState::Idle => GridEvent::TileClick(pos),
    }
}

/// The drag state that a message asks for.
pub open spec fn requested(msg: GridMsg) -> DragState {
    match msg {
        GridMsg::DragStart => DragState::Start,
        GridMsg::DragEnd => DragState::End,
        GridMsg::DragNone => DragState::Idle,
    }
}

impl DOMGridComponent {
    /// Which marker is being dragged.
    pub closed spec fn spec_drag_state(&self) -> DragState {
        self.drag_state
    }

    /// A grid on which nothing is being dragged.
    pub fn create() -> (component: Self)
        ensures
            component.spec_drag_state() == DragState::Idle,
    {
        Self { drag_state: DragState::Idle }
    }

    /// Which marker is being dragged.
    pub fn drag_state(&self) -> (state: DragState)
        ensures
            state == self.spec_drag_state(),
    {
        self.drag_state
    }

    /// Takes up a message. Returns whether the grid has to be drawn again,
    /// which is never the case.
    pub fn update(&mut self, msg: GridMsg) -> (redraw: bool)
        ensures
            !redraw,
            final(self).spec_drag_state() == requested(msg),
    {
        match msg {
            GridMsg::DragStart => {
                self.drag_state = DragState::Start;
                false
            },
            GridMsg::DragEnd => {
                self.drag_state = DragState::End;
                false
            },
            GridMsg::DragNone => {
                self.drag_state = DragState::Idle;
                false
            },
        }
    }

    /// The mouse button went down on the cell at `pos`. On a marker the
    /// drag of that marker begins; elsewhere the gesture is passed on.
    pub fn tile_pressed(&self, pos: Pos, is_tile_start: bool, is_tile_end: bool) -> (reaction:
        Reaction)
        ensures
            reaction == (if is_tile_start {
                Reaction::Message(GridMsg::DragStart)
            } else if is_tile_end {
                Reaction::Message(GridMsg::DragEnd)
            } else {
                Reaction::Emit(gesture(self.spec_drag_state(), pos))
            }),
    {
        if is_tile_start {
            Reaction::Message(GridMsg::DragStart)
        } else if is_tile_end {
            Reaction::Message(GridMsg::DragEnd)
        } else {
            Reaction::Emit(self.emit_for(pos))
        }
    }

    /// The pointer entered the cell at `pos`. With the button down the
    /// gesture is passed on; with the button up any drag ends.
    pub fn tile_entered(&self, pos: Pos, mouse_down: bool) -> (reaction: Reaction)
        ensures
            reaction == (if mouse_down {
                Reaction::Emit(gesture(self.spec_drag_state(), pos))
            } else {
                Reaction::Message(GridMsg::DragNone)
            }),
    {
        if mouse_down {
            Reaction::Emit(self.emit_for(pos))
        } else {
            Reaction::Message(GridMsg::DragNone)
        }
    }

    fn emit_for(&self, pos: Pos) -> (event: GridEvent)
        ensures
            event == gesture(self.spec_drag_state(), pos),
    {
        match self.drag_state {
            DragState::Start => GridEvent::StartMove(pos),
            DragState::End => GridEvent::EndMove(pos),
            DragState::Idle => GridEvent::TileClick(pos),
        }
    }
}

/// The pairs of a value of `x` and a value of `y`, for every `x` from
/// `x_start` up to but not including `x_end` and, within each, every `y`
/// from `y_start` up to but not including `y_end`.
pub open spec fn pairs(x_start: int, x_end: int, y_start: int, y_end: int) -> Seq<(Unit, Unit)>
    decreases x_end - x_start,
{
    if x_end <= x_start {
        Seq::empty()
    } else {
        pairs(x_start, x_end - 1, y_start, y_end) + row(x_end - 1, y_start, y_end)
    }
}

/// The pairs of `x` and every `y` from `y_start` up to but not including
/// `y_end`.
pub open spec fn row(x: int, y_start: int, y_end: int) -> Seq<(Unit, Unit)> {
    Seq::new(
        if y_end <= y_start {
            0nat
        } else {
            (y_end - y_start) as nat
        },
        |j: int| (x as Unit, (y_start + j) as Unit),
    )
}

/// All pairs of a value from the first range and a value from the second,
/// the first range outermost.
pub fn gen_2d_iter(x: core::ops::Range<Unit>, y: core::ops::Range<Unit>) -> (cells: Vec<
    (Unit, Unit),
>)
    ensures
        cells@ == pairs(x.start as int, x.end as int, y.start as int, y.end as int),
{
    let mut cells: Vec<(Unit, Unit)> = Vec::new();
    let mut i: Unit = x.start;
    while i < x.end
        invariant
            x.start <= i || x.end <= x.start,
            i <= x.end || x.end <= x.start,
            x.end <= x.start ==> i == x.start,
            cells@ == pairs(x.start as int, i as int, y.start as int, y.end as int),
        decreases x.end - i,
    {
        let ghost before = cells@;
        let mut j: Unit = y.start;
        while j < y.end
            invariant
                y.start <= j || y.end <= y.start,
                j <= y.end || y.end <= y.start,
                y.end <= y.start ==> j == y.start,
                cells@ == before + row(i as int, y.start as int, j as int),
            decreases y.end - j,
        {
            cells.push((i, j));
            proof {
                assert(row(i as int, y.start as int, j + 1) =~= row(
                    i as int,
                    y.start as int,
                    j as int,
                ).push((i, j)));
                assert(cells@ =~= before + row(i as int, y.start as int, j + 1));
            }
            j += 1;
        }
        proof {
            assert(row(i as int, y.start as int, j as int) =~= row(
                i as int,
                y.start as int,
                y.end as int,
            ));
        }
        i += 1;
    }
    cells
}

} // verus!
