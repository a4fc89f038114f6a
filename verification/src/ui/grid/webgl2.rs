use super::GridEvent;
use crate::pathfinders::{Grid, Pos};
use vstd::prelude::*;

verus! {

/// What the grid drawn on a canvas remembers of the pointer: the cell it
/// was over at the last event with the button down, and whether a marker
/// is being dragged.
#[derive(Clone, Copy, Debug, PartialEq, Eq, Structural)]
pub struct Pointer {
    pub old_pos: Option<Pos>,
    pub is_dragging_start: bool,
    pub is_dragging_end: bool,
}

impl Pointer {
    /// The pointer before any event.
    pub fn new() -> (pointer: Self)
        ensures
            pointer == (Pointer {
                old_pos: None,
                is_dragging_start: false,
                is_dragging_end: false,
            }),
    {
        Self { old_pos: None, is_dragging_start: false, is_dragging_end: false }
    }

    /// The pointer after an event over the cell `new_pos`.
    ///
    /// With the button up everything is forgotten. With the button down
    /// the cell is remembered; a drag of the start marker begins on the
    /// start cell and lasts, and a drag of the end marker begins on the end
    /// cell, unless the start marker is being dragged, and lasts.
    pub open spec fn after(self, start: Pos, end: Pos, new_pos: Pos, mouse_down: bool) -> Pointer {
        if !mouse_down {
            Pointer { old_pos: None, is_dragging_start: false, is_dragging_end: false }
        } else if start == new_pos || self.is_dragging_start {
            Pointer {
                old_pos: Some(new_pos),
                is_dragging_start: true,
                is_dragging_end: self.is_dragging_end,
            }
        } else if end == new_pos || self.is_dragging_end {
            Pointer {
                old_pos: Some(new_pos),
                is_dragging_start: self.is_dragging_start,
                is_dragging_end: true,
            }
        } else {
            Pointer {
                old_pos: Some(new_pos),
                is_dragging_start: self.is_dragging_start,
                is_dragging_end: self.is_dragging_end,
            }
        }
    }

    /// What an event over the cell `new_pos` asks of the owner of the
    /// grid.
    ///
    /// Nothing with the button up. A marker that is being dragged moves
    /// when the pointer has come from another cell. Without a drag the
    /// tile is toggled, unless the pointer was over the same cell at the
    /// last event.
    pub open spec fn asks(self, start: Pos, end: Pos, new_pos: Pos, mouse_down: bool) -> Option<
        GridEvent,
    > {
        let moved = self.old_pos is Some && self.old_pos.unwrap() != new_pos;
        if !mouse_down {
            None
        } else if start == new_pos || self.is_dragging_start {
            if moved {
                Some(GridEvent::StartMove(new_pos))
            } else {
                None
            }
        } else if end == new_pos || self.is_dragging_end {
            if moved {
                Some(GridEvent::EndMove(new_pos))
            } else {
                None
            }
        } else if moved || self.old_pos is None {
            Some(GridEvent::TileClick(new_pos))
        } else {
            None
        }
    }

    /// Takes up a mouse event over the cell `new_pos` of `grid`, and
    /// returns what it asks of the owner of the grid.
    pub fn update(&mut self, grid: &Grid, new_pos: Pos, mouse_down: bool) -> (event: Option<
        GridEvent,
    >)
        ensures
            *final(self) == old(self).after(
                grid.spec_start(),
                grid.spec_end(),
                new_pos,
                mouse_down,
            ),
            event == old(self).asks(grid.spec_start(), grid.spec_end(), new_pos, mouse_down),
    {
        let mut event: Option<GridEvent> = None;
        if mouse_down {
            if grid.start() == new_pos || self.is_dragging_start {
                self.is_dragging_start = true;
                if let Some(old_pos) = self.old_pos {
                    if old_pos != new_pos {
                        event = Some(GridEvent::StartMove(new_pos));
                    }
                }
                self.old_pos = Some(new_pos);
            } else if grid.end() == new_pos || self.is_dragging_end {
                self.is_dragging_end = true;
                if let Some(old_pos) = self.old_pos {
                    if old_pos != new_pos {
                        event = Some(GridEvent::EndMove(new_pos));
                    }
                }
                self.old_pos = Some(new_pos);
            } else {
                if let Some(old_pos) = self.old_pos {
                    if old_pos != new_pos {
                        event = Some(GridEvent::TileClick(new_pos));
                    }
                } else {
                    event = Some(GridEvent::TileClick(new_pos));
                }
                self.old_pos = Some(new_pos);
            }
        } else {
            self.old_pos = None;
            self.is_dragging_start = false;
            self.is_dragging_end = false;
        }
        event
    }
}

} // verus!
