//! What the mouse and the keys ask of a camera that orbits a point.
//!
//! The input is kept here; the camera's angles and distances are the caller's.
//! Positions are bit patterns.

use vstd::prelude::*;

verus! {

/// A key that moves the camera over the ground.
#[derive(Debug, Clone, Copy, PartialEq, Eq, Structural)]
pub enum PanKey {
    Forward,
    Left,
    Back,
    Right,
}

/// The keys that are held.
#[derive(Debug, Clone, Copy, PartialEq, Eq, Structural)]
pub struct PanKeys {
    pub w: bool,
    pub a: bool,
    pub s: bool,
    pub d: bool,
}

/// An event that the camera may follow.
#[derive(Debug, Clone, Copy, PartialEq, Eq)]
pub enum RigEvent {
    /// The button that turns the camera goes down or up.
    TurnButton { pressed: bool },
    CursorMoved { position: [u64; 2] },
    /// The wheel turns by a number of lines.
    Wheel { lines: u32 },
    Key { key: PanKey, pressed: bool },
    Other,
}

/// What the camera is to do.
#[derive(Debug, Clone, Copy, PartialEq, Eq)]
pub enum RigAction {
    /// It turns by the way from one position to another.
    Turn { from: [u64; 2], to: [u64; 2] },
    /// It goes nearer or further by a number of lines.
    Zoom { lines: u32 },
}

/// The state of the input.
pub struct InputModel {
    pub rotating: bool,
    pub last_cursor: Option<[u64; 2]>,
    pub keys: PanKeys,
}

/// The lines are none: zero of either sign.
pub open spec fn is_still(lines: u32) -> bool {
    lines == 0 || lines == 0x8000_0000
}

/// The input after an event, and what the camera is to do.
pub open spec fn next_input(before: InputModel, event: RigEvent) -> (InputModel, Option<RigAction>) {
    match event {
        RigEvent::TurnButton { pressed } => (
            InputModel { rotating: pressed, last_cursor: None, ..before },
            None,
        ),
        RigEvent::CursorMoved { position } => if before.rotating {
            (
                InputModel { last_cursor: Some(position), ..before },
                match before.last_cursor {
                    Some(from) => Some(RigAction::Turn { from, to: position }),
                    None => None,
                },
            )
        } else {
            (before, None)
        },
        RigEvent::Wheel { lines } => (
            before,
            if is_still(lines) {
                None
            } else {
                Some(RigAction::Zoom { lines })
            },
        ),
        RigEvent::Key { key, pressed } => (
            InputModel { keys: next_keys(before.keys, key, pressed), ..before },
            None,
        ),
        RigEvent::Other => (before, None),
    }
}

/// The keys that are held after one went down or up.
pub open spec fn next_keys(keys: PanKeys, key: PanKey, pressed: bool) -> PanKeys {
    match key {
        PanKey::Forward => PanKeys { w: pressed, ..keys },
        PanKey::Left => PanKeys { a: pressed, ..keys },
        PanKey::Back => PanKeys { s: pressed, ..keys },
        PanKey::Right => PanKeys { d: pressed, ..keys },
    }
}

/// 1 for a key that is held alone, -1 for its opposite, 0 for both or none.
pub open spec fn balance(plus: bool, minus: bool) -> int {
    (if plus {
        1int
    } else {
        0
    }) - (if minus {
        1int
    } else {
        0
    })
}

fn weigh(plus: bool, minus: bool) -> (r: i32)
    ensures
        r == balance(plus, minus),
{
    if plus == minus {
        0
    } else if plus {
        1
    } else {
        -1
    }
}

/// The input that a camera orbits by.
#[derive(Debug, Clone)]
pub struct OrbitInput {
    rotating: bool,
    last_cursor: Option<[u64; 2]>,
    keys: PanKeys,
}

impl View for OrbitInput {
    type V = InputModel;

    closed spec fn view(&self) -> InputModel {
        InputModel {
            rotating: self.rotating,
            last_cursor: self.last_cursor,
            keys: self.keys,
        }
    }
}

impl OrbitInput {
    /// No button or key is held.
    pub fn new() -> (r: Self)
        ensures
            r@ == (InputModel {
                rotating: false,
                last_cursor: None,
                keys: PanKeys { w: false, a: false, s: false, d: false },
            }),
    {
        OrbitInput {
            rotating: false,
            last_cursor: None,
            keys: PanKeys { w: false, a: false, s: false, d: false },
        }
    }

    /// Takes an event, and says what the camera is to do. The cursor turns it
    /// while the button is down, from its second position on.
    pub fn handle_event(&mut self, event: RigEvent) -> (r: Option<RigAction>)
        ensures
            (final(self)@, r) == next_input(old(self)@, event),
    {
        match event {
            RigEvent::TurnButton { pressed } => {
                self.rotating = pressed;
                self.last_cursor = None;
                None
            },
            RigEvent::CursorMoved { position } => {
                if !self.rotating {
                    return None;
                }
                let last = self.last_cursor;
                self.last_cursor = Some(position);
                match last {
                    Some(from) => Some(RigAction::Turn { from, to: position }),
                    None => None,
                }
            },
            RigEvent::Wheel { lines } => {
                if lines == 0 || lines == 0x8000_0000 {
                    None
                } else {
                    Some(RigAction::Zoom { lines })
                }
            },
            RigEvent::Key { key, pressed } => {
                let keys = self.keys;
                self.keys = match key {
                    PanKey::Forward => PanKeys { w: pressed, a: keys.a, s: keys.s, d: keys.d },
                    PanKey::Left => PanKeys { w: keys.w, a: pressed, s: keys.s, d: keys.d },
                    PanKey::Back => PanKeys { w: keys.w, a: keys.a, s: pressed, d: keys.d },
                    PanKey::Right => PanKeys { w: keys.w, a: keys.a, s: keys.s, d: pressed },
                };
                None
            },
            RigEvent::Other => None,
        }
    }

    /// The way that the held keys ask for, to the right and forward; nothing if
    /// they cancel out.
    pub fn pan(&self) -> (r: Option<(i32, i32)>)
        ensures
            ({
                let right = balance(self@.keys.d, self@.keys.a);
                let forward = balance(self@.keys.w, self@.keys.s);
                match r {
                    Some(way) => way.0 == right && way.1 == forward && (right != 0 || forward
                        != 0),
                    None => right == 0 && forward == 0,
                }
            }),
    {
        let right = weigh(self.keys.d, self.keys.a);
        let forward = weigh(self.keys.w, self.keys.s);
        if right == 0 && forward == 0 {
            None
        } else {
            Some((right, forward))
        }
    }
}

/// After the button went down, the first position does not turn the camera, and
/// the second turns it from the first.
pub proof fn law_a_drag_starts_where_it_is_pressed(
    before: InputModel,
    first: [u64; 2],
    second: [u64; 2],
)
    ensures
        ({
            let (pressed, _) = next_input(before, RigEvent::TurnButton { pressed: true });
            let (moved, none) = next_input(pressed, RigEvent::CursorMoved { position: first });
            let (_, turn) = next_input(moved, RigEvent::CursorMoved { position: second });
            &&& none is None
            &&& turn == Some(RigAction::Turn { from: first, to: second })
        }),
{
}

/// To press a key and release it is to release it, and leaves the other keys as
/// they were.
pub proof fn law_keys_do_not_disturb_each_other(keys: PanKeys, key: PanKey)
    ensures
        next_keys(next_keys(keys, key, true), key, false) == next_keys(keys, key, false),
{
}

/// The held keys move the camera: to the right or the left, forward or back, and
/// not at all along an axis whose two keys are both held or both free.
pub proof fn law_keys_pan_their_way(input: OrbitInput, r: Option<(i32, i32)>)
    requires
        call_ensures(OrbitInput::pan, (&input,), r),
    ensures
        r is None <==> (input@.keys.w == input@.keys.s && input@.keys.a == input@.keys.d),
        r matches Some(way) ==> {
            &&& way.0 == 1 <==> input@.keys.d && !input@.keys.a
            &&& way.0 == -1 <==> input@.keys.a && !input@.keys.d
            &&& way.0 == 0 <==> input@.keys.a == input@.keys.d
            &&& way.1 == 1 <==> input@.keys.w && !input@.keys.s
            &&& way.1 == -1 <==> input@.keys.s && !input@.keys.w
            &&& way.1 == 0 <==> input@.keys.w == input@.keys.s
        },
{
}

/// Each event does its own: only a cursor that moves while the button is down
/// turns the camera, and only from its second position on; letting go ends the
/// turn; the wheel zooms by its lines, if it turned at all; a key is held from
/// when it goes down until it goes up, and no other changes with it.
pub proof fn law_events_do_their_own(before: InputModel, position: [u64; 2], lines: u32)
    ensures
        !before.rotating ==> next_input(before, RigEvent::CursorMoved { position }) == (
            before,
            None::<RigAction>,
        ),
        before.rotating && before.last_cursor is None ==> next_input(
            before,
            RigEvent::CursorMoved { position },
        ).1 is None,
        before.rotating ==> {
            let after = next_input(before, RigEvent::CursorMoved { position }).0;
            &&& after.rotating
            &&& after.last_cursor == Some(position)
            &&& after.keys == before.keys
        },
        before.rotating && before.last_cursor is Some ==> next_input(
            before,
            RigEvent::CursorMoved { position },
        ).1 == Some(RigAction::Turn { from: before.last_cursor->0, to: position }),
        next_input(before, RigEvent::TurnButton { pressed: true }).0.rotating,
        !next_input(before, RigEvent::TurnButton { pressed: false }).0.rotating,
        forall|pressed: bool|
            (#[trigger] next_input(before, RigEvent::TurnButton { pressed })).1 is None
                && next_input(before, RigEvent::TurnButton { pressed }).0.last_cursor is None
                && next_input(before, RigEvent::TurnButton { pressed }).0.keys == before.keys,
        next_input(before, RigEvent::Wheel { lines }).0 == before,
        lines != 0 && lines != 0x8000_0000 ==> next_input(before, RigEvent::Wheel { lines }).1
            == Some(RigAction::Zoom { lines }),
        lines == 0 || lines == 0x8000_0000 ==> next_input(before, RigEvent::Wheel { lines }).1
            is None,
        forall|key: PanKey, pressed: bool|
            ({
                let (after, action) = #[trigger] next_input(
                    before,
                    RigEvent::Key { key, pressed },
                );
                &&& action is None
                &&& after.rotating == before.rotating
                &&& after.last_cursor == before.last_cursor
                &&& after.keys.w == (if key == PanKey::Forward {
                    pressed
                } else {
                    before.keys.w
                })
                &&& after.keys.a == (if key == PanKey::Left {
                    pressed
                } else {
                    before.keys.a
                })
                &&& after.keys.s == (if key == PanKey::Back {
                    pressed
                } else {
                    before.keys.s
                })
                &&& after.keys.d == (if key == PanKey::Right {
                    pressed
                } else {
                    before.keys.d
                })
            }),
        next_input(before, RigEvent::Other) == (before, None::<RigAction>),
{
}

} // verus!
