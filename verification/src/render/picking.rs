//! What the cursor is over: the cell that its ray meets the ground in, or the
//! cell that was drawn under it.
//!
//! The first is there at once and right on flat ground; the second is right
//! everywhere and some frames late. Numbers are bit patterns.

use super::float_bits::Bits3;
use super::picking_buffer::HitTarget;
use crate::sim::IVec2;
use vstd::prelude::*;

verus! {

/// A cell that the cursor is over, and where.
#[derive(Debug, Clone, Copy, PartialEq, Eq)]
pub struct Hover {
    pub cell: IVec2,
    pub world_pos: Bits3,
}

/// What happens to the cursor.
#[derive(Debug, Clone, Copy, PartialEq, Eq)]
pub enum CursorEvent {
    Moved { position: [u32; 2] },
    Left,
    /// Something else.
    Other,
}

/// The state of the picker.
pub struct PickerModel {
    pub tile_size: u32,
    pub plane_z: u32,
    pub cursor: Option<[u32; 2]>,
    pub plane_hover: Option<Hover>,
    pub id_hover: Option<Hover>,
}

/// The picker after an event: it follows the cursor, and when that leaves, it is
/// over nothing.
pub open spec fn after_event(before: PickerModel, event: CursorEvent) -> PickerModel {
    match event {
        CursorEvent::Moved { position } => PickerModel { cursor: Some(position), ..before },
        CursorEvent::Left => PickerModel {
            cursor: None,
            plane_hover: None,
            id_hover: None,
            ..before
        },
        CursorEvent::Other => before,
    }
}

/// The ray under the cursor has been cast anew.
pub open spec fn is_cast<H, C>(
    before: PickerModel,
    after: PickerModel,
    hit: H,
    cell_at: C,
) -> bool where H: Fn([u32; 2], u32) -> Option<Bits3>, C: Fn(Bits3, u32) -> IVec2 {
    &&& after == (PickerModel { plane_hover: after.plane_hover, ..before })
    &&& match before.cursor {
        None => after.plane_hover is None,
        Some(p) => match after.plane_hover {
            Some(hover) => {
                &&& call_ensures(hit, (p, before.plane_z), Some(hover.world_pos))
                &&& call_ensures(cell_at, (hover.world_pos, before.tile_size), hover.cell)
            },
            None => call_ensures(hit, (p, before.plane_z), None),
        },
    }
}

/// What was drawn under the cursor has been taken.
pub open spec fn is_taken<C: Fn(IVec2, u32) -> [u32; 2]>(
    before: PickerModel,
    after: PickerModel,
    target: Option<HitTarget>,
    centre: C,
) -> bool {
    &&& after == (PickerModel { id_hover: after.id_hover, ..before })
    &&& match target {
        Some(HitTarget::TerrainCell { zone: _, cell }) => {
            &&& after.id_hover matches Some(hover) && {
                &&& hover.cell == cell
                &&& exists|at: [u32; 2]|
                    {
                        &&& #[trigger] call_ensures(centre, (cell, before.tile_size), at)
                        &&& hover.world_pos@ == seq![at@[0], at@[1], before.plane_z]
                    }
            }
        },
        _ => after.id_hover is None,
    }
}

/// Follows the cursor, and keeps what it is over.
pub struct TerrainPicker {
    tile_size: u32,
    plane_z: u32,
    last_cursor_px: Option<[u32; 2]>,
    plane_hover: Option<Hover>,
    id_hover: Option<Hover>,
}

impl View for TerrainPicker {
    type V = PickerModel;

    closed spec fn view(&self) -> PickerModel {
        PickerModel {
            tile_size: self.tile_size,
            plane_z: self.plane_z,
            cursor: self.last_cursor_px,
            plane_hover: self.plane_hover,
            id_hover: self.id_hover,
        }
    }
}

impl TerrainPicker {
    /// A picker for tiles of the given size, whose ground is at the height 0.
    pub fn new(tile_size: u32) -> (r: Self)
        ensures
            r@ == (PickerModel {
                tile_size,
                plane_z: 0,
                cursor: None,
                plane_hover: None,
                id_hover: None,
            }),
    {
        TerrainPicker {
            tile_size,
            plane_z: 0,
            last_cursor_px: None,
            plane_hover: None,
            id_hover: None,
        }
    }

    /// The picker with its ground at another height.
    pub fn with_plane_z(self, z: u32) -> (r: Self)
        ensures
            r@ == (PickerModel { plane_z: z, ..self@ }),
    {
        TerrainPicker {
            tile_size: self.tile_size,
            plane_z: z,
            last_cursor_px: self.last_cursor_px,
            plane_hover: self.plane_hover,
            id_hover: self.id_hover,
        }
    }

    /// Follows the cursor. When it leaves, it is over nothing.
    pub fn handle_event(&mut self, event: CursorEvent)
        ensures
            final(self)@ == after_event(old(self)@, event),
    {
        match event {
            CursorEvent::Moved { position } => {
                self.last_cursor_px = Some(position);
            },
            CursorEvent::Left => {
                self.last_cursor_px = None;
                self.plane_hover = None;
                self.id_hover = None;
            },
            CursorEvent::Other => {},
        }
    }

    /// Casts the ray under the cursor anew. `hit` gives where it meets the
    /// ground at a height, if it does, and `cell_at` the cell of a point for
    /// tiles of a size.
    pub fn update<H, C>(&mut self, hit: H, cell_at: C) where
        H: Fn([u32; 2], u32) -> Option<Bits3>,
        C: Fn(Bits3, u32) -> IVec2,

        requires
            forall|p: [u32; 2], z: u32| #[trigger] call_requires(hit, (p, z)),
            forall|p: Bits3, size: u32| #[trigger] call_requires(cell_at, (p, size)),
        ensures
            is_cast(old(self)@, final(self)@, hit, cell_at),
    {
        match self.last_cursor_px {
            None => {
                self.plane_hover = None;
            },
            Some(p) => match hit(p, self.plane_z) {
                Some(world_pos) => {
                    let cell = cell_at(world_pos, self.tile_size);
                    self.plane_hover = Some(Hover { cell, world_pos });
                },
                None => {
                    self.plane_hover = None;
                },
            },
        }
    }

    /// Takes what was drawn under the cursor. A cell is taken at its centre on
    /// the ground, which `centre` gives for tiles of a size; anything else
    /// clears it.
    pub fn set_id_hover<C: Fn(IVec2, u32) -> [u32; 2]>(
        &mut self,
        target: Option<HitTarget>,
        centre: C,
    )
        requires
            forall|cell: IVec2, size: u32| #[trigger] call_requires(centre, (cell, size)),
        ensures
            is_taken(old(self)@, final(self)@, target, centre),
    {
        match target {
            Some(HitTarget::TerrainCell { zone: _, cell }) => {
                let at = centre(cell, self.tile_size);
                let world_pos: Bits3 = [at[0], at[1], self.plane_z];
                assert(world_pos@ =~= seq![at@[0], at@[1], self.plane_z]);
                self.id_hover = Some(Hover { cell, world_pos });
            },
            _ => {
                self.id_hover = None;
            },
        }
    }

    /// What the cursor is over: what was drawn there if that is known,
    /// otherwise what its ray meets.
    pub fn hover(&self) -> (r: Option<Hover>)
        ensures
            r == (if self@.id_hover is Some {
                self@.id_hover
            } else {
                self@.plane_hover
            }),
    {
        match self.id_hover {
            Some(hover) => Some(hover),
            None => self.plane_hover,
        }
    }

    /// What the ray under the cursor meets.
    pub fn plane_hover(&self) -> (r: Option<Hover>)
        ensures
            r == self@.plane_hover,
    {
        self.plane_hover
    }

    /// What was drawn under the cursor.
    pub fn id_hover(&self) -> (r: Option<Hover>)
        ensures
            r == self@.id_hover,
    {
        self.id_hover
    }

    /// Where the cursor is, while it is in the window.
    pub fn last_cursor_px(&self) -> (r: Option<[u32; 2]>)
        ensures
            r == self@.cursor,
    {
        self.last_cursor_px
    }
}

/// What was drawn under the cursor is preferred to what its ray meets, and the
/// latter is what the cursor is over only as long as the former is not known.
pub proof fn law_what_was_drawn_is_preferred(
    picker: TerrainPicker,
    hover: Option<Hover>,
    drawn: Option<Hover>,
    met: Option<Hover>,
)
    requires
        call_ensures(TerrainPicker::hover, (&picker,), hover),
        call_ensures(TerrainPicker::id_hover, (&picker,), drawn),
        call_ensures(TerrainPicker::plane_hover, (&picker,), met),
    ensures
        drawn is Some ==> hover == drawn,
        drawn is None ==> hover == met,
{
}

/// A cursor that moves is followed, and one that leaves is over nothing; the
/// ground and the size of its tiles stay as they are.
pub proof fn law_the_cursor_is_followed(before: PickerModel, event: CursorEvent)
    ensures
        ({
            let after = after_event(before, event);
            &&& after.tile_size == before.tile_size
            &&& after.plane_z == before.plane_z
            &&& event matches CursorEvent::Moved { position } ==> after.cursor == Some(position)
                && after.plane_hover == before.plane_hover && after.id_hover == before.id_hover
            &&& event is Left ==> after.cursor is None && after.plane_hover is None
                && after.id_hover is None
            &&& event is Other ==> after == before
        }),
{
}

/// The ray is cast at the cursor, to the height of the ground; what it meets is
/// the cell of the point for tiles of the picker's size. Without a cursor, or if
/// it meets nothing, there is none. Nothing else changes.
pub proof fn law_rays_are_cast_at_the_cursor<H, C>(
    before: PickerModel,
    after: PickerModel,
    hit: H,
    cell_at: C,
) where H: Fn([u32; 2], u32) -> Option<Bits3>, C: Fn(Bits3, u32) -> IVec2
    requires
        is_cast(before, after, hit, cell_at),
    ensures
        after.tile_size == before.tile_size && after.plane_z == before.plane_z,
        after.cursor == before.cursor && after.id_hover == before.id_hover,
        before.cursor is None ==> after.plane_hover is None,
        after.plane_hover matches Some(hover) ==> before.cursor is Some && call_ensures(
            hit,
            (before.cursor->0, before.plane_z),
            Some(hover.world_pos),
        ) && call_ensures(cell_at, (hover.world_pos, before.tile_size), hover.cell),
        before.cursor is Some && after.plane_hover is None ==> call_ensures(
            hit,
            (before.cursor->0, before.plane_z),
            None::<Bits3>,
        ),
{
}

/// A cell that was drawn under the cursor is taken at its centre for tiles of
/// the picker's size and at the height of the ground; an object, or nothing,
/// clears what was taken before. Nothing else changes.
pub proof fn law_drawn_cells_are_taken_at_their_centre<C: Fn(IVec2, u32) -> [u32; 2]>(
    before: PickerModel,
    after: PickerModel,
    target: Option<HitTarget>,
    centre: C,
)
    requires
        is_taken(before, after, target, centre),
    ensures
        after.tile_size == before.tile_size && after.plane_z == before.plane_z,
        after.cursor == before.cursor && after.plane_hover == before.plane_hover,
        after.id_hover is Some <==> target is Some && target->0 is TerrainCell,
        after.id_hover matches Some(hover) ==> (target matches Some(HitTarget::TerrainCell {
            zone: _,
            cell,
        }) && hover.cell == cell && hover.world_pos@[2] == before.plane_z && exists|at: [u32; 2]|
            {
                &&& #[trigger] call_ensures(centre, (cell, before.tile_size), at)
                &&& hover.world_pos@[0] == at@[0]
                &&& hover.world_pos@[1] == at@[1]
            }),
{
    if let Some(HitTarget::TerrainCell { zone: _, cell }) = target {
        let hover = after.id_hover->0;
        let at = choose|at: [u32; 2]|
            {
                &&& #[trigger] call_ensures(centre, (cell, before.tile_size), at)
                &&& hover.world_pos@ == seq![at@[0], at@[1], before.plane_z]
            };
        assert(hover.world_pos@[0] == at@[0] && hover.world_pos@[1] == at@[1]);
    }
}

} // verus!
