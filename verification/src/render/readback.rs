//! Reading results back from the GPU.
//!
//! A readback takes one of a few staging buffers through three steps: a copy
//! into it is recorded, the buffer is mapped once the copy has been submitted,
//! and some frames later its contents arrive. A buffer on its way is not given
//! out again; when all of them are on their way, the frame goes without.

use super::gltf_file::le_number;
use super::picking_buffer::{target_of, FrameIdTable, HitTarget};
use vstd::prelude::*;

verus! {

/// How many staging buffers there are.
pub const READBACK_SLOTS: usize = 3;

/// Which staging buffers are on their way.
pub struct SlotRing {
    in_flight: Vec<bool>,
    pending: Option<usize>,
}

/// The first slot that is not on its way, from `from` on.
pub open spec fn first_free(in_flight: Seq<bool>, from: int) -> Option<int>
    decreases in_flight.len() - from,
{
    if from >= in_flight.len() {
        None
    } else if !in_flight[from] {
        Some(from)
    } else {
        first_free(in_flight, from + 1)
    }
}

/// The first free slot is free, and those before it are not.
pub proof fn lemma_first_free(in_flight: Seq<bool>, from: int)
    requires
        0 <= from <= in_flight.len(),
    ensures
        match first_free(in_flight, from) {
            Some(slot) => {
                &&& from <= slot < in_flight.len()
                &&& !in_flight[slot]
                &&& forall|k: int| from <= k < slot ==> #[trigger] in_flight[k]
            },
            None => forall|k: int| from <= k < in_flight.len() ==> #[trigger] in_flight[k],
        },
    decreases in_flight.len() - from,
{
    if from < in_flight.len() && in_flight[from] {
        lemma_first_free(in_flight, from + 1);
    }
}

impl SlotRing {
    #[verifier::type_invariant]
    closed spec fn wf(self) -> bool {
        &&& self.in_flight@.len() == READBACK_SLOTS
        &&& self.pending matches Some(slot) ==> slot < READBACK_SLOTS
    }

    /// For each slot, whether it is on its way.
    pub closed spec fn in_flight(&self) -> Seq<bool> {
        self.in_flight@
    }

    /// The slot whose copy has been recorded but not yet scheduled.
    pub closed spec fn pending(&self) -> Option<usize> {
        self.pending
    }

    /// A ring with every slot free.
    pub fn new() -> (r: Self)
        ensures
            r.in_flight() == seq![false, false, false],
            r.pending() is None,
    {
        let mut in_flight: Vec<bool> = Vec::new();
        in_flight.push(false);
        in_flight.push(false);
        in_flight.push(false);
        assert(in_flight@ =~= seq![false, false, false]);
        SlotRing { in_flight, pending: None }
    }

    /// Takes the first free slot for a copy that is being recorded.
    pub fn begin(&mut self) -> (r: Option<usize>)
        ensures
            final(self).in_flight().len() == READBACK_SLOTS,
            match r {
                Some(slot) => {
                    &&& first_free(old(self).in_flight(), 0) == Some(slot as int)
                    &&& slot < READBACK_SLOTS
                    &&& final(self).in_flight() == old(self).in_flight().update(slot as int, true)
                    &&& final(self).pending() == Some(slot)
                },
                None => first_free(old(self).in_flight(), 0) is None && *final(self) == *old(self),
            },
    {
        proof {
            use_type_invariant(&*self);
        }
        let mut i: usize = 0;
        while i < READBACK_SLOTS
            invariant
                i <= READBACK_SLOTS,
                self.wf(),
                *self == *old(self),
                first_free(self.in_flight@, 0) == first_free(self.in_flight@, i as int),
            decreases READBACK_SLOTS - i,
        {
            if !self.in_flight[i] {
                self.in_flight[i] = true;
                self.pending = Some(i);
                return Some(i);
            }
            i += 1;
        }
        None
    }

    /// Hands over the slot whose copy has been submitted, if one was recorded.
    pub fn take_pending(&mut self) -> (r: Option<usize>)
        ensures
            r == old(self).pending(),
            r matches Some(slot) ==> slot < READBACK_SLOTS,
            final(self).pending() is None,
            final(self).in_flight() == old(self).in_flight(),
    {
        proof {
            use_type_invariant(&*self);
        }
        let r = self.pending;
        self.pending = None;
        r
    }

    /// Frees a slot whose contents have arrived, or whose mapping failed.
    pub fn release(&mut self, slot: usize)
        requires
            slot < READBACK_SLOTS,
        ensures
            final(self).in_flight() == old(self).in_flight().update(slot as int, false),
            final(self).pending() == old(self).pending(),
    {
        proof {
            use_type_invariant(&*self);
        }
        self.in_flight[slot] = false;
    }
}

/// A slot that is on its way is not given out again: the slot that `begin`
/// takes was free, and afterwards it is not.
pub proof fn law_busy_slots_are_not_reused(in_flight: Seq<bool>, slot: int)
    requires
        first_free(in_flight, 0) == Some(slot),
    ensures
        0 <= slot < in_flight.len(),
        !in_flight[slot],
        first_free(in_flight.update(slot, true), 0) != Some(slot),
{
    lemma_first_free(in_flight, 0);
    lemma_first_free(in_flight.update(slot, true), 0);
}

/// The readback of the hit id under the cursor.
pub struct IdReadback {
    ring: SlotRing,
    latest: Option<HitTarget>,
}

/// The number in the first four bytes of a mapped buffer.
pub fn sampled_id(bytes: &[u8]) -> (r: u32)
    requires
        bytes@.len() >= 4,
    ensures
        r == le_number(bytes@, 0),
{
    bytes[0] as u32 + 0x100 * (bytes[1] as u32) + 0x1_0000 * (bytes[2] as u32) + 0x100_0000 * (
    bytes[3] as u32)
}

impl IdReadback {
    /// Which staging buffers are on their way.
    pub closed spec fn ring(&self) -> SlotRing {
        self.ring
    }

    /// The latest target that arrived.
    pub closed spec fn spec_latest(&self) -> Option<HitTarget> {
        self.latest
    }

    /// A readback with every slot free and nothing arrived.
    pub fn new() -> (r: Self)
        ensures
            r.ring().in_flight() == seq![false, false, false],
            r.ring().pending() is None,
            r.spec_latest() is None,
    {
        IdReadback { ring: SlotRing::new(), latest: None }
    }

    /// The latest target that arrived.
    pub fn latest(&self) -> (r: Option<HitTarget>)
        ensures
            r == self.spec_latest(),
    {
        self.latest
    }

    /// Forgets the latest target, when the cursor has left the window.
    pub fn clear_latest(&mut self)
        ensures
            final(self).spec_latest() is None,
            final(self).ring() == old(self).ring(),
    {
        self.latest = None;
    }

    /// Picks the slot to copy the id under the cursor into. There is none if
    /// the cursor lies outside the texture, which can have shrunk since the
    /// cursor last moved, or if every slot is on its way.
    pub fn enqueue_copy(&mut self, cursor_x: u32, cursor_y: u32, width: u32, height: u32) -> (r:
        Option<usize>)
        ensures
            final(self).spec_latest() == old(self).spec_latest(),
            match r {
                Some(slot) => {
                    &&& cursor_x < width && cursor_y < height
                    &&& first_free(old(self).ring().in_flight(), 0) == Some(slot as int)
                    &&& slot < READBACK_SLOTS
                    &&& final(self).ring().in_flight() == old(self).ring().in_flight().update(
                        slot as int,
                        true,
                    )
                    &&& final(self).ring().pending() == Some(slot)
                },
                None => {
                    &&& cursor_x >= width || cursor_y >= height || first_free(
                        old(self).ring().in_flight(),
                        0,
                    ) is None
                    &&& final(self).ring() == old(self).ring()
                },
            },
    {
        if cursor_x >= width || cursor_y >= height {
            return None;
        }
        self.ring.begin()
    }

    /// Hands over the slot to map, if a copy was recorded for this frame.
    pub fn schedule_readback(&mut self) -> (r: Option<usize>)
        ensures
            r == old(self).ring().pending(),
            r matches Some(slot) ==> slot < READBACK_SLOTS,
            final(self).ring().pending() is None,
            final(self).ring().in_flight() == old(self).ring().in_flight(),
            final(self).spec_latest() == old(self).spec_latest(),
    {
        self.ring.take_pending()
    }

    /// Takes in what arrived in a slot: the sampled id, looked up in the table
    /// of the frame that wrote it, or nothing if the mapping failed. Either
    /// way the slot is free again.
    pub fn finish(&mut self, slot: usize, sampled: Option<u32>, table: &FrameIdTable)
        requires
            slot < READBACK_SLOTS,
        ensures
            final(self).spec_latest() == match sampled {
                Some(id) => target_of(table.chunks(), table.objects(), id),
                None => old(self).spec_latest(),
            },
            final(self).ring().in_flight() == old(self).ring().in_flight().update(
                slot as int,
                false,
            ),
            final(self).ring().pending() == old(self).ring().pending(),
    {
        match sampled {
            Some(id) => {
                self.latest = table.resolve(id);
            },
            None => {},
        }
        self.ring.release(slot);
    }
}

/// The latest GPU times, in ticks of the GPU's clock.
#[derive(Debug, Clone, Copy, PartialEq, Eq, Structural)]
pub struct LatestTicks {
    pub world: Option<u64>,
    pub overlay: Option<u64>,
}

/// The begin and end times of the two segments, in the order in which the GPU
/// writes them.
#[derive(Debug, Clone, Copy, PartialEq, Eq, Structural)]
pub struct Timestamps {
    pub world_begin: u64,
    pub world_end: u64,
    pub overlay_begin: u64,
    pub overlay_end: u64,
}

/// `end - begin`, or 0 where the clock went backwards.
pub open spec fn span(begin: u64, end: u64) -> u64 {
    if end >= begin {
        (end - begin) as u64
    } else {
        0
    }
}

/// The times of the segments. The overlay is measured only where the device
/// can, and a span of zero is no measurement.
pub open spec fn ticks_of(t: Timestamps, overlay_supported: bool) -> LatestTicks {
    let overlay = span(t.overlay_begin, t.overlay_end);
    LatestTicks {
        world: Some(span(t.world_begin, t.world_end)),
        overlay: if overlay_supported && overlay > 0 {
            Some(overlay)
        } else {
            None
        },
    }
}

/// A little-endian 64-bit number.
pub open spec fn le_number64(bytes: Seq<u8>, at: int) -> int {
    le_number(bytes, at) + 0x1_0000_0000 * le_number(bytes, at + 4)
}

fn read_half(bytes: &[u8], at: usize) -> (r: u64)
    requires
        at + 4 <= bytes@.len(),
    ensures
        r == le_number(bytes@, at as int),
        r <= 0xffff_ffff,
{
    bytes[at] as u64 + 0x100 * (bytes[at + 1] as u64) + 0x1_0000 * (bytes[at + 2] as u64)
        + 0x100_0000 * (bytes[at + 3] as u64)
}

fn read_u64(bytes: &[u8], at: usize) -> (r: u64)
    requires
        at + 8 <= bytes@.len(),
    ensures
        r == le_number64(bytes@, at as int),
{
    let len = bytes.len();
    assert(at + 8 <= len);
    let low = read_half(bytes, at);
    let high = read_half(bytes, at + 4);
    low + 0x1_0000_0000 * high
}

/// Reads the four timestamps of a mapped buffer.
pub fn read_timestamps(bytes: &[u8]) -> (r: Timestamps)
    requires
        bytes@.len() >= 32,
    ensures
        r.world_begin == le_number64(bytes@, 0),
        r.world_end == le_number64(bytes@, 8),
        r.overlay_begin == le_number64(bytes@, 16),
        r.overlay_end == le_number64(bytes@, 24),
{
    Timestamps {
        world_begin: read_u64(bytes, 0),
        world_end: read_u64(bytes, 8),
        overlay_begin: read_u64(bytes, 16),
        overlay_end: read_u64(bytes, 24),
    }
}

/// The readback of GPU times.
pub struct GpuProfiler {
    ring: SlotRing,
    latest: LatestTicks,
    overlay_supported: bool,
}

impl GpuProfiler {
    /// Which staging buffers are on their way.
    pub closed spec fn ring(&self) -> SlotRing {
        self.ring
    }

    /// The latest times that arrived.
    pub closed spec fn spec_latest(&self) -> LatestTicks {
        self.latest
    }

    /// Whether the device can measure the overlay.
    pub closed spec fn spec_overlay_supported(&self) -> bool {
        self.overlay_supported
    }

    /// A profiler with every slot free and nothing measured.
    pub fn new(overlay_supported: bool) -> (r: Self)
        ensures
            r.ring().in_flight() == seq![false, false, false],
            r.ring().pending() is None,
            r.spec_latest() == (LatestTicks { world: None, overlay: None }),
            r.spec_overlay_supported() == overlay_supported,
    {
        GpuProfiler {
            ring: SlotRing::new(),
            latest: LatestTicks { world: None, overlay: None },
            overlay_supported,
        }
    }

    /// Whether to write timestamps around the overlay.
    pub fn overlay_supported(&self) -> (r: bool)
        ensures
            r == self.spec_overlay_supported(),
    {
        self.overlay_supported
    }

    /// Picks the slot to resolve this frame's timestamps into, if one is free.
    pub fn resolve(&mut self) -> (r: Option<usize>)
        ensures
            final(self).spec_latest() == old(self).spec_latest(),
            final(self).spec_overlay_supported() == old(self).spec_overlay_supported(),
            match r {
                Some(slot) => {
                    &&& first_free(old(self).ring().in_flight(), 0) == Some(slot as int)
                    &&& slot < READBACK_SLOTS
                    &&& final(self).ring().in_flight() == old(self).ring().in_flight().update(
                        slot as int,
                        true,
                    )
                    &&& final(self).ring().pending() == Some(slot)
                },
                None => first_free(old(self).ring().in_flight(), 0) is None && final(self).ring()
                    == old(self).ring(),
            },
    {
        self.ring.begin()
    }

    /// Hands over the slot to map, if timestamps were resolved this frame.
    pub fn schedule_readback(&mut self) -> (r: Option<usize>)
        ensures
            r == old(self).ring().pending(),
            r matches Some(slot) ==> slot < READBACK_SLOTS,
            final(self).ring().pending() is None,
            final(self).ring().in_flight() == old(self).ring().in_flight(),
            final(self).spec_latest() == old(self).spec_latest(),
            final(self).spec_overlay_supported() == old(self).spec_overlay_supported(),
    {
        self.ring.take_pending()
    }

    /// Takes in the timestamps that arrived in a slot, or nothing if the
    /// mapping failed. Either way the slot is free again.
    pub fn finish(&mut self, slot: usize, arrived: Option<Timestamps>)
        requires
            slot < READBACK_SLOTS,
        ensures
            final(self).spec_latest() == match arrived {
                Some(t) => ticks_of(t, old(self).spec_overlay_supported()),
                None => old(self).spec_latest(),
            },
            final(self).ring().in_flight() == old(self).ring().in_flight().update(
                slot as int,
                false,
            ),
            final(self).ring().pending() == old(self).ring().pending(),
            final(self).spec_overlay_supported() == old(self).spec_overlay_supported(),
    {
        match arrived {
            Some(t) => {
                let world = t.world_end.saturating_sub(t.world_begin);
                let overlay = t.overlay_end.saturating_sub(t.overlay_begin);
                self.latest = LatestTicks {
                    world: Some(world),
                    overlay: if self.overlay_supported && overlay > 0 {
                        Some(overlay)
                    } else {
                        None
                    },
                };
            },
            None => {},
        }
        self.ring.release(slot);
    }

    /// The latest times that arrived.
    pub fn latest(&self) -> (r: LatestTicks)
        ensures
            r == self.spec_latest(),
    {
        self.latest
    }
}

/// The byte of a number that stands `place` bytes from its lowest one.
pub open spec fn byte_of(number: int, place: nat) -> int
    decreases place,
{
    if place == 0 {
        number % 256
    } else {
        byte_of(number / 256, (place - 1) as nat)
    }
}

proof fn lemma_bytes_of_number(bytes: Seq<u8>, at: int, rest: int)
    requires
        0 <= at,
        at + 4 <= bytes.len(),
    ensures
        ({
            let whole = le_number(bytes, at) + 0x1_0000_0000 * rest;
            &&& byte_of(whole, 0) == bytes[at]
            &&& byte_of(whole, 1) == bytes[at + 1]
            &&& byte_of(whole, 2) == bytes[at + 2]
            &&& byte_of(whole, 3) == bytes[at + 3]
            &&& whole / 256 / 256 / 256 / 256 == rest
        }),
{
    let whole = le_number(bytes, at) + 0x1_0000_0000 * rest;
    reveal_with_fuel(byte_of, 5);
    let a = bytes[at] as int;
    let b = bytes[at + 1] as int;
    let c = bytes[at + 2] as int;
    let d = bytes[at + 3] as int;
    assert(whole == a + 256 * (b + 256 * (c + 256 * (d + 256 * rest))));
    assert(whole / 256 == b + 256 * (c + 256 * (d + 256 * rest)));
    assert(whole / 256 / 256 == c + 256 * (d + 256 * rest));
    assert(whole / 256 / 256 / 256 == d + 256 * rest);
}

/// The sampled number has the four bytes of the buffer, the lowest first, and
/// nothing else of the buffer counts.
pub proof fn law_sampled_ids_have_their_bytes(bytes: &[u8], id: u32)
    requires
        bytes@.len() >= 4,
        call_ensures(sampled_id, (bytes,), id),
    ensures
        forall|place: nat| place < 4 ==> #[trigger] byte_of(id as int, place) == bytes@[place as int],
{
    lemma_bytes_of_number(bytes@, 0, 0);
}

proof fn lemma_bytes_of_number64(bytes: Seq<u8>, at: int, place: nat)
    requires
        0 <= at,
        at + 8 <= bytes.len(),
        place < 8,
    ensures
        byte_of(le_number64(bytes, at), place) == bytes[at + place],
{
    let high = le_number(bytes, at + 4);
    lemma_bytes_of_number(bytes, at, high);
    lemma_bytes_of_number(bytes, at + 4, 0);
    reveal_with_fuel(byte_of, 5);
    if place >= 4 {
        assert(byte_of(le_number64(bytes, at), place) == byte_of(high, (place - 4) as nat));
    }
}

/// The four times stand one behind the other in the buffer, each with its
/// lowest byte first: begin and end of the world, then those of the overlay.
pub proof fn law_timestamps_have_their_bytes(bytes: &[u8], t: Timestamps, place: nat)
    requires
        bytes@.len() >= 32,
        call_ensures(read_timestamps, (bytes,), t),
        place < 8,
    ensures
        byte_of(t.world_begin as int, place) == bytes@[place as int],
        byte_of(t.world_end as int, place) == bytes@[place + 8int],
        byte_of(t.overlay_begin as int, place) == bytes@[place + 16int],
        byte_of(t.overlay_end as int, place) == bytes@[place + 24int],
{
    lemma_bytes_of_number64(bytes@, 0, place);
    lemma_bytes_of_number64(bytes@, 8, place);
    lemma_bytes_of_number64(bytes@, 16, place);
    lemma_bytes_of_number64(bytes@, 24, place);
}

/// A segment took the time from its begin to its end. The world is always
/// measured; the overlay is if the device can and if it took any time at all.
pub proof fn law_segments_take_their_time(t: Timestamps, overlay_supported: bool)
    ensures
        ({
            let ticks = ticks_of(t, overlay_supported);
            &&& ticks.world is Some
            &&& t.world_begin <= t.world_end ==> t.world_begin + ticks.world->0 == t.world_end
            &&& t.world_begin > t.world_end ==> ticks.world->0 == 0
            &&& ticks.overlay is Some <==> overlay_supported && t.overlay_begin < t.overlay_end
            &&& ticks.overlay is Some ==> t.overlay_begin + ticks.overlay->0 == t.overlay_end
        }),
{
}

} // verus!
