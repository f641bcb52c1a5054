//! Per-frame counters and times.

use std::time::Duration;
use vstd::prelude::*;

verus! {

/// What the previous frame drew.
#[derive(Debug, Clone, Copy, PartialEq, Eq, Structural)]
pub struct FrameStats {
    /// Draw calls.
    pub draw_calls: u32,
    /// Instances over all draw calls.
    pub instances: u32,
    /// Live render objects inside the view.
    pub proxies_visible: u32,
    /// Live render objects outside the view that are still kept.
    pub proxies_hysteresis: u32,
}

impl Default for FrameStats {
    fn default() -> (r: Self)
        ensures
            r == (FrameStats {
                draw_calls: 0,
                instances: 0,
                proxies_visible: 0,
                proxies_hysteresis: 0,
            }),
    {
        FrameStats { draw_calls: 0, instances: 0, proxies_visible: 0, proxies_hysteresis: 0 }
    }
}

/// `a + b`, reduced to 32 bits.
pub open spec fn wrapped_sum(a: u32, b: u32) -> u32 {
    if a + b > u32::MAX {
        (a + b - 0x1_0000_0000) as u32
    } else {
        (a + b) as u32
    }
}

/// The counters after one more draw call.
pub open spec fn with_draw(counts: FrameStats, instances: u32) -> FrameStats {
    FrameStats {
        draw_calls: wrapped_sum(counts.draw_calls, 1),
        instances: wrapped_sum(counts.instances, instances),
        ..counts
    }
}

/// The counters with the live render objects that were noted.
pub open spec fn with_proxies(counts: FrameStats, visible: u32, hysteresis: u32) -> FrameStats {
    FrameStats { proxies_visible: visible, proxies_hysteresis: hysteresis, ..counts }
}

/// The counters that the next frame starts with.
pub open spec fn next_frame(counts: FrameStats) -> FrameStats {
    FrameStats { draw_calls: 0, instances: 0, ..counts }
}

/// The counters of the frame that is being drawn.
pub struct FrameStatsCollector {
    counts: FrameStats,
}

impl FrameStatsCollector {
    /// The counters so far.
    pub closed spec fn counts(&self) -> FrameStats {
        self.counts
    }

    /// Counters at zero.
    pub fn new() -> (r: Self)
        ensures
            r.counts() == (FrameStats {
                draw_calls: 0,
                instances: 0,
                proxies_visible: 0,
                proxies_hysteresis: 0,
            }),
    {
        FrameStatsCollector {
            counts: FrameStats {
                draw_calls: 0,
                instances: 0,
                proxies_visible: 0,
                proxies_hysteresis: 0,
            },
        }
    }

    /// Counts one draw call and its instances.
    pub fn record_draw(&mut self, instances: u32)
        ensures
            final(self).counts() == with_draw(old(self).counts(), instances),
    {
        let counts = self.counts;
        self.counts = FrameStats {
            draw_calls: counts.draw_calls.wrapping_add(1),
            instances: counts.instances.wrapping_add(instances),
            proxies_visible: counts.proxies_visible,
            proxies_hysteresis: counts.proxies_hysteresis,
        };
    }

    /// Notes how many render objects are live.
    pub fn record_proxies(&mut self, visible: u32, hysteresis: u32)
        ensures
            final(self).counts() == with_proxies(old(self).counts(), visible, hysteresis),
    {
        let counts = self.counts;
        self.counts = FrameStats {
            draw_calls: counts.draw_calls,
            instances: counts.instances,
            proxies_visible: visible,
            proxies_hysteresis: hysteresis,
        };
    }

    /// Hands out the counters and starts the next frame: draw calls and
    /// instances at zero, render objects as they were last noted.
    pub fn take_and_reset(&mut self) -> (r: FrameStats)
        ensures
            r == old(self).counts(),
            final(self).counts() == next_frame(old(self).counts()),
    {
        let counts = self.counts;
        self.counts = FrameStats {
            draw_calls: 0,
            instances: 0,
            proxies_visible: counts.proxies_visible,
            proxies_hysteresis: counts.proxies_hysteresis,
        };
        counts
    }
}

/// The length of a `std::time::Duration` in nanoseconds: `Duration::as_nanos`.
pub uninterp spec fn nanos_of(d: Duration) -> nat;

/// The longest duration: `Duration::MAX`, in nanoseconds.
pub open spec fn longest() -> nat {
    0xffff_ffff_ffff_ffff * 1_000_000_000 + 999_999_999
}

/// `Duration::checked_add`: the sum, or nothing if it is longer than the
/// longest duration.
#[verifier::external_body]
fn checked_sum(a: Duration, b: Duration) -> (r: Option<Duration>)
    ensures
        match r {
            Some(sum) => nanos_of(sum) == nanos_of(a) + nanos_of(b) && nanos_of(sum) <= longest(),
            None => nanos_of(a) + nanos_of(b) > longest(),
        },
{
    a.checked_add(b)
}

/// GPU times by segment. A segment is absent where the device cannot measure
/// it and until the first measurement arrives.
#[derive(Debug, Clone, Copy)]
pub struct GpuSegments {
    /// The main pass.
    pub world: Option<Duration>,
    /// The overlay passes.
    pub overlay: Option<Duration>,
}

impl Default for GpuSegments {
    /// Nothing was measured.
    fn default() -> (r: Self)
        ensures
            r == (GpuSegments { world: None, overlay: None }),
    {
        GpuSegments { world: None, overlay: None }
    }
}

/// CPU and GPU times of the previous frame.
#[derive(Debug, Clone, Copy)]
pub struct FrameTimings {
    /// Time spent ticking the simulation.
    pub sim_cpu: Duration,
    /// Time spent recording the frame.
    pub render_cpu: Duration,
    pub gpu: GpuSegments,
}

/// The nanoseconds of a segment, if it was measured.
pub open spec fn segment_nanos(d: Option<Duration>) -> Option<nat> {
    match d {
        Some(d) => Some(nanos_of(d)),
        None => None,
    }
}

/// The sum of what was measured; nothing if nothing was.
pub open spec fn total_nanos(world: Option<nat>, overlay: Option<nat>) -> Option<nat> {
    match (world, overlay) {
        (Some(w), Some(o)) => Some(w + o),
        (Some(w), None) => Some(w),
        (None, Some(o)) => Some(o),
        (None, None) => None,
    }
}

impl GpuSegments {
    /// The sum of the measured segments, in nanoseconds.
    pub open spec fn spec_total(&self) -> Option<nat> {
        total_nanos(segment_nanos(self.world), segment_nanos(self.overlay))
    }

    /// The sum of the measured segments.
    pub fn total(&self) -> (r: Option<Duration>)
        requires
            match (self.world, self.overlay) {
                (Some(w), Some(o)) => nanos_of(w) + nanos_of(o) <= longest(),
                _ => true,
            },
        ensures
            segment_nanos(r) == self.spec_total(),
    {
        match (self.world, self.overlay) {
            (Some(w), Some(o)) => checked_sum(w, o),
            (Some(w), None) => Some(w),
            (None, Some(o)) => Some(o),
            (None, None) => None,
        }
    }

    /// The sum of the measured segments, unless it is longer than the longest
    /// duration.
    pub fn checked_total(&self) -> (r: Result<Option<Duration>, ()>)
        ensures
            match r {
                Ok(total) => segment_nanos(total) == self.spec_total(),
                Err(_) => self.spec_total() matches Some(n) && n > longest(),
            },
    {
        let fits = match (self.world, self.overlay) {
            (Some(w), Some(o)) => match checked_sum(w, o) {
                Some(_) => true,
                None => false,
            },
            _ => true,
        };
        if !fits {
            return Err(());
        }
        Ok(self.total())
    }
}

/// Counters start anew where they would exceed 32 bits.
pub proof fn law_counters_wrap(a: u32, b: u32)
    ensures
        wrapped_sum(a, b) == (a + b) % 0x1_0000_0000,
{
}

/// The total is the sum of the segments that were measured; there is none if
/// neither was.
pub proof fn law_totals_add_the_segments(segments: GpuSegments, total: Option<Duration>)
    requires
        call_ensures(GpuSegments::total, (&segments,), total),
    ensures
        total is None <==> segments.world is None && segments.overlay is None,
        total matches Some(sum) ==> nanos_of(sum) == (match segments.world {
            Some(world) => nanos_of(world),
            None => 0,
        }) + (match segments.overlay {
            Some(overlay) => nanos_of(overlay),
            None => 0,
        }),
{
}

/// A draw call counts one, and its instances count as many as they are; render
/// objects are what was noted last, and stay from frame to frame, while draw
/// calls and instances are counted anew.
pub proof fn law_frames_are_counted_apart(
    counts: FrameStats,
    instances: u32,
    visible: u32,
    hysteresis: u32,
)
    ensures
        with_draw(counts, instances).draw_calls == (counts.draw_calls + 1) % 0x1_0000_0000,
        with_draw(counts, instances).instances == (counts.instances + instances) % 0x1_0000_0000,
        with_draw(counts, instances).proxies_visible == counts.proxies_visible,
        with_draw(counts, instances).proxies_hysteresis == counts.proxies_hysteresis,
        with_proxies(counts, visible, hysteresis).proxies_visible == visible,
        with_proxies(counts, visible, hysteresis).proxies_hysteresis == hysteresis,
        with_proxies(counts, visible, hysteresis).draw_calls == counts.draw_calls,
        with_proxies(counts, visible, hysteresis).instances == counts.instances,
        next_frame(counts).draw_calls == 0 && next_frame(counts).instances == 0,
        next_frame(counts).proxies_visible == counts.proxies_visible,
        next_frame(counts).proxies_hysteresis == counts.proxies_hysteresis,
{
}

} // verus!
