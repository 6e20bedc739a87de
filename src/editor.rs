//! The decisions of the beam editor: what a mouse event does to it.
use vstd::prelude::*;
use crate::tile::Material;

verus! {

/// Pixels per engine unit in the drawing area.
pub const SCALE: i32 = 8;

/// Width and height of the drawing area, in pixels.
pub const EDITOR_SIZE: i32 = 40 * SCALE;

/// What a click in the editor draws.
#[derive(Debug, Copy, Clone, PartialEq, Eq, Structural)]
pub enum Action {
    DrawBeam(Material),
    DrawWheel(Material),
}

/// Whether the editor waits for the first end of a line, or holds it.
#[derive(Debug, Copy, Clone, PartialEq, Eq, Structural)]
pub enum Status {
    Draw(i32, i32),
    Idle,
}

/// A beam to add to the engine: its ends in engine units, and its material.
#[derive(Debug, Copy, Clone, PartialEq, Eq)]
pub struct NewBeam {
    pub start: (i32, i32),
    pub end: (i32, i32),
    pub material: Material,
}

/// Whether a pixel lies in a drawing area given by its left, top, right and
/// bottom edges (the right and bottom ones excluded).
pub open spec fn inside(rect: (i32, i32, i32, i32), x: int, y: int) -> bool {
    rect.0 <= x < rect.2 && rect.1 <= y < rect.3
}

/// The engine unit of a pixel of the drawing area, along one axis.
pub open spec fn unit_of(pixel: int, origin: int) -> i32 {
    ((pixel - origin) / (SCALE as int)) as i32
}

/// What a mouse event does: the editor's next status, and the beam to add.
///
/// A change of the button inside the drawing area either takes the first end of
/// a line, or takes the second and, when drawing beams, adds the beam between
/// the two; anything else leaves the editor as it is.
pub open spec fn step_of(
    rect: (i32, i32, i32, i32),
    pressed: bool,
    status: Status,
    mouse: (i32, i32, bool),
    action: Action,
) -> (Status, Option<NewBeam>) {
    if inside(rect, mouse.0 as int, mouse.1 as int) && pressed != mouse.2 {
        match status {
            Status::Draw(x, y) => (
                Status::Idle,
                match action {
                    Action::DrawBeam(material) => Some(
                        NewBeam {
                            start: (unit_of(x as int, rect.0 as int), unit_of(y as int, rect.1 as int)),
                            end: (
                                unit_of(mouse.0 as int, rect.0 as int),
                                unit_of(mouse.1 as int, rect.1 as int),
                            ),
                            material,
                        },
                    ),
                    Action::DrawWheel(_) => None,
                },
            ),
            Status::Idle => (Status::Draw(mouse.0, mouse.1), None),
        }
    } else {
        (status, None)
    }
}

/// The engine unit of a pixel that lies at or after `origin`.
fn to_unit(pixel: i32, origin: i32) -> (r: i32)
    requires
        origin <= pixel,
    ensures
        r == unit_of(pixel as int, origin as int),
{
    let offset = (pixel as i64 - origin as i64) as u64;
    (offset / (SCALE as u64)) as i32
}

/// What a mouse event does to the editor: its next status, and the beam to add.
///
/// `pressed` is whether the button was down at the previous event; a held first
/// end lies in the drawing area.
pub fn editor_step(
    rect: (i32, i32, i32, i32),
    pressed: bool,
    status: Status,
    mouse: (i32, i32, bool),
    action: Action,
) -> (r: (Status, Option<NewBeam>))
    requires
        status matches Status::Draw(x, y) ==> inside(rect, x as int, y as int),
    ensures
        r == step_of(rect, pressed, status, mouse, action),
        r.0 matches Status::Draw(x, y) ==> inside(rect, x as int, y as int),
{
    let x_in_rect = mouse.0 >= rect.0 && mouse.0 < rect.2;
    let y_in_rect = mouse.1 >= rect.1 && mouse.1 < rect.3;
    if x_in_rect && y_in_rect && pressed != mouse.2 {
        match status {
            Status::Draw(x, y) => {
                let beam = match action {
                    Action::DrawBeam(material) => Some(
                        NewBeam {
                            start: (to_unit(x, rect.0), to_unit(y, rect.1)),
                            end: (to_unit(mouse.0, rect.0), to_unit(mouse.1, rect.1)),
                            material,
                        },
                    ),
                    Action::DrawWheel(_) => None,
                };
                (Status::Idle, beam)
            },
            Status::Idle => (Status::Draw(mouse.0, mouse.1), None),
        }
    } else {
        (status, None)
    }
}

} // verus!
