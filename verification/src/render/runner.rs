//! The decisions of the event loop: what an event leads to, which ticks a
//! redraw runs, and in what order a frame is drawn.

use vstd::prelude::*;

verus! {

/// An event of the window, as far as the loop depends on it.
#[derive(Debug, Clone, Copy, PartialEq, Eq, Structural)]
pub enum WindowEvent {
    /// A key goes down or up.
    Key { is_screenshot_key: bool, pressed: bool, repeat: bool },
    CloseRequested,
    Resized { width: u32, height: u32 },
    /// The cursor is at a pixel, which may lie outside the surface.
    CursorMoved { x: i64, y: i64 },
    CursorLeft,
    RedrawRequested,
    Other,
}

/// What the loop does about an event.
#[derive(Debug, Clone, Copy, PartialEq, Eq, Structural)]
pub enum Action {
    Exit,
    /// The surface takes the size of the window, and is drawn again.
    Resize { width: u32, height: u32 },
    /// What the cursor was over is forgotten.
    ForgetHover,
    /// Time passes and a frame is drawn, and the next is asked for.
    Redraw,
    Nothing,
}

/// How an attempt to get the next image of the surface went.
#[derive(Debug, Clone, Copy, PartialEq, Eq, Structural)]
pub enum SurfaceStatus {
    Success,
    Suboptimal,
    Outdated,
    Lost,
    Timeout,
    Occluded,
    Validation,
}

/// What follows an attempt to get the next image of the surface.
#[derive(Debug, Clone, Copy, PartialEq, Eq, Structural)]
pub enum Acquired {
    /// The frame is drawn.
    Draw,
    /// The surface takes the size of the window, and the frame is left out.
    ResizeAndSkip,
    /// The frame is left out.
    Skip,
}

/// What follows an attempt to get the next image: an image that is out of date
/// or lost wants the surface set up anew, other failures pass.
pub fn after_acquire(status: SurfaceStatus) -> (r: Acquired)
    ensures
        r == (match status {
            SurfaceStatus::Success | SurfaceStatus::Suboptimal => Acquired::Draw,
            SurfaceStatus::Outdated | SurfaceStatus::Lost => Acquired::ResizeAndSkip,
            _ => Acquired::Skip,
        }),
{
    match status {
        SurfaceStatus::Success | SurfaceStatus::Suboptimal => Acquired::Draw,
        SurfaceStatus::Outdated | SurfaceStatus::Lost => Acquired::ResizeAndSkip,
        SurfaceStatus::Timeout | SurfaceStatus::Occluded | SurfaceStatus::Validation => {
            Acquired::Skip
        },
    }
}

/// One step of drawing a frame.
#[derive(Debug, Clone, Copy, PartialEq, Eq, Structural)]
pub enum FrameStep {
    /// The scene's lights are taken from the simulation.
    ExtractScene,
    /// The view draws into a layer of the shadow map.
    ShadowPass { cascade: u32 },
    /// The view draws the world.
    MainPass,
    /// The pixel under the cursor is copied, to learn what was hit.
    CopyCursorPixel { x: u32, y: u32 },
    /// From here on the overlays are timed.
    OverlayBegin,
    GameUi,
    DebugUi,
    OverlayEnd,
    ResolveTimestamps,
    /// The finished image is copied.
    RecordScreenshot,
    /// What was recorded is handed over and shown.
    Submit,
    SaveScreenshot,
    /// What was hit is asked for.
    ScheduleIdReadback,
    ScheduleTimestampReadback,
    /// The counters of the frame are taken, and start anew.
    TakeStats,
}

/// The layers of the shadow map.
pub const SHADOW_CASCADE_COUNT: u32 = 4;

/// The shadow passes of a frame.
pub open spec fn shadow_steps(shadows: bool) -> Seq<FrameStep> {
    if shadows {
        Seq::new(
            SHADOW_CASCADE_COUNT as nat,
            |i: int| FrameStep::ShadowPass { cascade: i as u32 },
        )
    } else {
        Seq::empty()
    }
}

/// One step if it is asked for.
pub open spec fn if_asked(asked: bool, step: FrameStep) -> Seq<FrameStep> {
    if asked {
        seq![step]
    } else {
        Seq::empty()
    }
}

/// The copy of the pixel under the cursor.
pub open spec fn cursor_steps(cursor: Option<(u32, u32)>) -> Seq<FrameStep> {
    match cursor {
        Some(at) => seq![FrameStep::CopyCursorPixel { x: at.0, y: at.1 }],
        None => Seq::empty(),
    }
}

/// The steps up to the overlays.
pub open spec fn world_steps(shadows: bool, cursor: Option<(u32, u32)>) -> Seq<FrameStep> {
    seq![FrameStep::ExtractScene] + shadow_steps(shadows) + seq![FrameStep::MainPass]
        + cursor_steps(cursor)
}

/// The overlays, the game's under the one for debugging.
pub open spec fn overlay_steps() -> Seq<FrameStep> {
    seq![
        FrameStep::OverlayBegin,
        FrameStep::GameUi,
        FrameStep::DebugUi,
        FrameStep::OverlayEnd,
        FrameStep::ResolveTimestamps,
    ]
}

/// The steps behind the overlays. A screenshot is taken of the finished image.
pub open spec fn closing_steps(screenshot: bool) -> Seq<FrameStep> {
    if_asked(screenshot, FrameStep::RecordScreenshot) + seq![FrameStep::Submit] + if_asked(
        screenshot,
        FrameStep::SaveScreenshot,
    ) + seq![
        FrameStep::ScheduleIdReadback,
        FrameStep::ScheduleTimestampReadback,
        FrameStep::TakeStats,
    ]
}

/// The steps of a frame.
pub open spec fn frame_steps(
    shadows: bool,
    cursor: Option<(u32, u32)>,
    screenshot: bool,
) -> Seq<FrameStep> {
    world_steps(shadows, cursor) + overlay_steps() + closing_steps(screenshot)
}

/// What the loop remembers between events.
pub struct RunModel {
    pub cursor: Option<(u32, u32)>,
    pub screenshot: bool,
}

/// A coordinate brought into a surface of the given extent.
pub open spec fn into_surface(at: int, extent: int) -> int {
    if at < 0 || extent == 0 {
        0
    } else if at >= extent {
        extent - 1
    } else {
        at
    }
}

fn clamp_to_surface(at: i64, extent: u32) -> (r: u32)
    ensures
        r == into_surface(at as int, extent as int),
{
    if at < 0 || extent == 0 {
        0
    } else if at >= extent as i64 {
        extent - 1
    } else {
        at as u32
    }
}

/// The event is the key for a screenshot going down.
pub open spec fn asks_for_screenshot(event: WindowEvent) -> bool {
    event == WindowEvent::Key { is_screenshot_key: true, pressed: true, repeat: false }
}

/// What the loop remembers after an event, and what it does about it.
pub open spec fn next_run(before: RunModel, event: WindowEvent, surface: (u32, u32)) -> (
    RunModel,
    Action,
) {
    match event {
        WindowEvent::CloseRequested => (before, Action::Exit),
        WindowEvent::Resized { width, height } => (before, Action::Resize { width, height }),
        WindowEvent::CursorMoved { x, y } => (
            RunModel {
                cursor: Some(
                    (
                        into_surface(x as int, surface.0 as int) as u32,
                        into_surface(y as int, surface.1 as int) as u32,
                    ),
                ),
                ..before
            },
            Action::Nothing,
        ),
        WindowEvent::CursorLeft => (RunModel { cursor: None, ..before }, Action::ForgetHover),
        WindowEvent::RedrawRequested => (before, Action::Redraw),
        _ => (
            if asks_for_screenshot(event) {
                RunModel { screenshot: true, ..before }
            } else {
                before
            },
            Action::Nothing,
        ),
    }
}

/// The state of the event loop.
pub struct RunState {
    cursor_px: Option<(u32, u32)>,
    pending_screenshot: bool,
}

impl View for RunState {
    type V = RunModel;

    closed spec fn view(&self) -> RunModel {
        RunModel { cursor: self.cursor_px, screenshot: self.pending_screenshot }
    }
}

impl RunState {
    /// The cursor is not in the window, and no screenshot was asked for.
    pub fn new() -> (r: Self)
        ensures
            r@ == (RunModel { cursor: None, screenshot: false }),
    {
        RunState { cursor_px: None, pending_screenshot: false }
    }

    /// Whether the loop keeps the event to itself: neither the overlays nor the
    /// view see the key for a screenshot go down.
    pub fn keeps(&self, event: WindowEvent) -> (r: bool)
        ensures
            r == asks_for_screenshot(event),
    {
        match event {
            WindowEvent::Key { is_screenshot_key, pressed, repeat } => {
                is_screenshot_key && pressed && !repeat
            },
            _ => false,
        }
    }

    /// Whether the view sees an event: if neither overlay has taken it.
    pub fn reaches_view(debug_ui_took: bool, game_ui_took: bool) -> (r: bool)
        ensures
            r == (!debug_ui_took && !game_ui_took),
    {
        !debug_ui_took && !game_ui_took
    }

    /// Takes an event, and says what to do about it. `surface` is the size of
    /// the surface, into which the cursor is brought.
    pub fn window_event(&mut self, event: WindowEvent, surface: (u32, u32)) -> (r: Action)
        ensures
            (final(self)@, r) == next_run(old(self)@, event, surface),
    {
        match event {
            WindowEvent::Key { is_screenshot_key, pressed, repeat } => {
                if is_screenshot_key && pressed && !repeat {
                    self.pending_screenshot = true;
                }
                Action::Nothing
            },
            WindowEvent::CloseRequested => Action::Exit,
            WindowEvent::Resized { width, height } => Action::Resize { width, height },
            WindowEvent::CursorMoved { x, y } => {
                self.cursor_px = Some(
                    (clamp_to_surface(x, surface.0), clamp_to_surface(y, surface.1)),
                );
                Action::Nothing
            },
            WindowEvent::CursorLeft => {
                self.cursor_px = None;
                Action::ForgetHover
            },
            WindowEvent::RedrawRequested => Action::Redraw,
            WindowEvent::Other => Action::Nothing,
        }
    }

    /// The steps of a frame whose image is there, in order. A screenshot that
    /// was asked for is taken in it and no longer asked for.
    pub fn render_frame(&mut self, shadows: bool) -> (r: Vec<FrameStep>)
        ensures
            r@ == frame_steps(shadows, old(self)@.cursor, old(self)@.screenshot),
            final(self)@ == (RunModel { screenshot: false, ..old(self)@ }),
    {
        let screenshot = self.pending_screenshot;
        self.pending_screenshot = false;
        let mut steps: Vec<FrameStep> = Vec::new();
        steps.push(FrameStep::ExtractScene);
        if shadows {
            let mut cascade: u32 = 0;
            while cascade < SHADOW_CASCADE_COUNT
                invariant
                    cascade <= SHADOW_CASCADE_COUNT,
                    steps@ == seq![FrameStep::ExtractScene] + Seq::new(
                        cascade as nat,
                        |i: int| FrameStep::ShadowPass { cascade: i as u32 },
                    ),
                decreases SHADOW_CASCADE_COUNT - cascade,
            {
                steps.push(FrameStep::ShadowPass { cascade });
                cascade += 1;
                assert(steps@ =~= seq![FrameStep::ExtractScene] + Seq::new(
                    cascade as nat,
                    |i: int| FrameStep::ShadowPass { cascade: i as u32 },
                ));
            }
        }
        assert(steps@ =~= seq![FrameStep::ExtractScene] + shadow_steps(shadows));
        steps.push(FrameStep::MainPass);
        match self.cursor_px {
            Some(at) => {
                steps.push(FrameStep::CopyCursorPixel { x: at.0, y: at.1 });
            },
            None => {},
        }
        assert(steps@ =~= world_steps(shadows, self.cursor_px));
        steps.push(FrameStep::OverlayBegin);
        steps.push(FrameStep::GameUi);
        steps.push(FrameStep::DebugUi);
        steps.push(FrameStep::OverlayEnd);
        steps.push(FrameStep::ResolveTimestamps);
        assert(steps@ =~= world_steps(shadows, self.cursor_px) + overlay_steps());
        let ghost drawn = steps@;
        if screenshot {
            steps.push(FrameStep::RecordScreenshot);
        }
        steps.push(FrameStep::Submit);
        if screenshot {
            steps.push(FrameStep::SaveScreenshot);
        }
        steps.push(FrameStep::ScheduleIdReadback);
        steps.push(FrameStep::ScheduleTimestampReadback);
        steps.push(FrameStep::TakeStats);
        assert(steps@ =~= drawn + closing_steps(screenshot));
        steps
    }
}

/// The last `pending` of the first `total` ticks.
pub open spec fn last_ticks(total: int, pending: int) -> Seq<u64> {
    Seq::new(pending as nat, |i: int| (total - pending + i + 1) as u64)
}

/// The ticks that a redraw runs: those that the clock has counted and that were
/// not run yet, in order.
pub fn ticks_to_run(total_after_advance: u64, pending: u32) -> (r: Vec<u64>)
    requires
        pending <= total_after_advance,
    ensures
        r@ == last_ticks(total_after_advance as int, pending as int),
{
    let first: u64 = total_after_advance - pending as u64;
    let mut ticks: Vec<u64> = Vec::new();
    let mut i: u32 = 0;
    while i < pending
        invariant
            i <= pending <= total_after_advance,
            first == total_after_advance - pending,
            ticks@.len() == i,
            forall|k: int|
                0 <= k < i ==> #[trigger] ticks@[k] == total_after_advance - pending + k + 1,
        decreases pending - i,
    {
        ticks.push(first + i as u64 + 1);
        i += 1;
    }
    assert(ticks@ =~= last_ticks(total_after_advance as int, pending as int));
    ticks
}

/// A step of a redraw.
#[derive(Debug, Clone, Copy, PartialEq, Eq, Structural)]
pub enum RedrawStep {
    /// The commands are told which tick it is.
    SetTick { tick: u64 },
    /// The commands that are ready at the tick are applied to the simulation.
    ApplyReady { tick: u64 },
    /// The simulation runs one tick.
    Tick,
    /// The view is brought up to date, by the time that has passed.
    Update,
    /// A frame is drawn.
    Draw,
}

/// The steps of one tick: commands land before the simulation runs.
pub open spec fn tick_steps(tick: u64) -> Seq<RedrawStep> {
    seq![RedrawStep::SetTick { tick }, RedrawStep::ApplyReady { tick }, RedrawStep::Tick]
}

/// The steps of several ticks, one tick after the other.
pub open spec fn ticking(ticks: Seq<u64>) -> Seq<RedrawStep>
    decreases ticks.len(),
{
    if ticks.len() == 0 {
        Seq::empty()
    } else {
        ticking(ticks.drop_last()) + tick_steps(ticks.last())
    }
}

/// The steps of a redraw: the ticks that are due, then one update and one
/// frame, for which the commands know the last tick even if none was due.
pub open spec fn redrawing(total: u64, pending: u32) -> Seq<RedrawStep> {
    ticking(last_ticks(total as int, pending as int)) + seq![
        RedrawStep::SetTick { tick: total },
        RedrawStep::Update,
        RedrawStep::Draw,
    ]
}

/// The steps of a redraw, in order. `total` ticks have been counted, `pending`
/// of which were not run yet.
pub fn redraw_steps(total: u64, pending: u32) -> (r: Vec<RedrawStep>)
    requires
        pending <= total,
    ensures
        r@ == redrawing(total, pending),
{
    let ticks = ticks_to_run(total, pending);
    let mut steps: Vec<RedrawStep> = Vec::new();
    let mut i: usize = 0;
    while i < ticks.len()
        invariant
            i <= ticks@.len(),
            steps@ == ticking(ticks@.take(i as int)),
        decreases ticks@.len() - i,
    {
        let tick = ticks[i];
        steps.push(RedrawStep::SetTick { tick });
        steps.push(RedrawStep::ApplyReady { tick });
        steps.push(RedrawStep::Tick);
        i += 1;
        assert(ticks@.take(i as int).drop_last() =~= ticks@.take(i - 1));
        assert(steps@ =~= ticking(ticks@.take(i - 1)) + tick_steps(tick));
    }
    assert(ticks@.take(i as int) =~= ticks@);
    let ghost ticked = steps@;
    steps.push(RedrawStep::SetTick { tick: total });
    steps.push(RedrawStep::Update);
    steps.push(RedrawStep::Draw);
    assert(steps@ =~= ticked + seq![
        RedrawStep::SetTick { tick: total },
        RedrawStep::Update,
        RedrawStep::Draw,
    ]);
    steps
}

proof fn lemma_ticking_len(ticks: Seq<u64>)
    ensures
        ticking(ticks).len() == 3 * ticks.len(),
    decreases ticks.len(),
{
    if ticks.len() > 0 {
        lemma_ticking_len(ticks.drop_last());
    }
}

proof fn lemma_ticking_at(ticks: Seq<u64>, i: int)
    requires
        0 <= i < ticks.len(),
    ensures
        ticking(ticks).len() == 3 * ticks.len(),
        ticking(ticks)[3 * i] == (RedrawStep::SetTick { tick: ticks[i] }),
        ticking(ticks)[3 * i + 1] == (RedrawStep::ApplyReady { tick: ticks[i] }),
        ticking(ticks)[3 * i + 2] == RedrawStep::Tick,
    decreases ticks.len(),
{
    lemma_ticking_len(ticks);
    lemma_ticking_len(ticks.drop_last());
    if i < ticks.len() - 1 {
        lemma_ticking_at(ticks.drop_last(), i);
        assert(ticks.drop_last()[i] == ticks[i]);
    }
}

/// In a redraw each tick that is due sets the tick, applies the commands that
/// are ready at it and then runs the simulation; the view is brought up to date
/// and drawn once, after the last of them.
pub proof fn law_the_view_sees_the_last_tick(total: u64, pending: u32, i: int)
    requires
        pending <= total,
        0 <= i < pending,
    ensures
        ({
            let steps = redrawing(total, pending);
            let tick = (total - pending + i + 1) as u64;
            &&& steps.len() == 3 * pending + 3
            &&& steps[3 * i] == (RedrawStep::SetTick { tick })
            &&& steps[3 * i + 1] == (RedrawStep::ApplyReady { tick })
            &&& steps[3 * i + 2] == RedrawStep::Tick
            &&& steps[3 * pending + 1] == RedrawStep::Update
            &&& steps[3 * pending + 2] == RedrawStep::Draw
        }),
{
    lemma_ticking_at(last_ticks(total as int, pending as int), i);
}

/// The ticks of one redraw follow those of the one before: none is left out,
/// and none is run twice.
pub proof fn law_ticks_follow_each_other(total: int, pending: int, next: int)
    requires
        0 <= pending <= total,
        0 <= next,
    ensures
        last_ticks(total, pending) + last_ticks(total + next, next) == last_ticks(
            total + next,
            pending + next,
        ),
{
    assert(last_ticks(total, pending) + last_ticks(total + next, next) =~= last_ticks(
        total + next,
        pending + next,
    ));
}

/// The cursor is always a pixel of the surface, if that has any.
pub proof fn law_cursor_is_in_the_surface(
    before: RunModel,
    x: i64,
    y: i64,
    surface: (u32, u32),
)
    requires
        surface.0 > 0 && surface.1 > 0,
    ensures
        next_run(before, WindowEvent::CursorMoved { x, y }, surface).0.cursor matches Some(at)
            && at.0 < surface.0 && at.1 < surface.1,
{
}

/// A step stands before another.
pub open spec fn comes_before(steps: Seq<FrameStep>, a: FrameStep, b: FrameStep) -> bool {
    forall|i: int, j: int|
        0 <= i < steps.len() && 0 <= j < steps.len() && #[trigger] steps[i] == a && #[trigger]
            steps[j] == b ==> i < j
}

/// A screenshot is copied when the world and both overlays have been drawn and
/// before the image is handed over, and saved after that; what was hit is asked
/// for after that too.
pub proof fn law_screenshots_show_the_finished_image(shadows: bool, cursor: Option<(u32, u32)>)
    ensures
        ({
            let steps = frame_steps(shadows, cursor, true);
            &&& comes_before(steps, FrameStep::MainPass, FrameStep::GameUi)
            &&& comes_before(steps, FrameStep::GameUi, FrameStep::DebugUi)
            &&& comes_before(steps, FrameStep::DebugUi, FrameStep::RecordScreenshot)
            &&& comes_before(steps, FrameStep::RecordScreenshot, FrameStep::Submit)
            &&& comes_before(steps, FrameStep::Submit, FrameStep::SaveScreenshot)
            &&& comes_before(steps, FrameStep::Submit, FrameStep::ScheduleIdReadback)
        }),
{
    let world = world_steps(shadows, cursor);
    let overlay = overlay_steps();
    let closing = closing_steps(true);
    let steps = frame_steps(shadows, cursor, true);
    let n = world.len();
    assert(closing =~= seq![
        FrameStep::RecordScreenshot,
        FrameStep::Submit,
        FrameStep::SaveScreenshot,
        FrameStep::ScheduleIdReadback,
        FrameStep::ScheduleTimestampReadback,
        FrameStep::TakeStats,
    ]);
    assert forall|i: int| 0 <= i < n implies !((#[trigger] steps[i]) is GameUi)
        && !(steps[i] is DebugUi) && !(steps[i] is RecordScreenshot) && !(steps[i] is Submit)
        && !(steps[i] is SaveScreenshot) && !(steps[i] is ScheduleIdReadback) by {
        assert(steps[i] == world[i]);
    }
    assert forall|i: int| n <= i < n + 5 implies #[trigger] steps[i] == overlay[i - n] by {}
    assert forall|i: int| n + 5 <= i < steps.len() implies #[trigger] steps[i] == closing[i - n
        - 5] by {}
}

/// A frame with shadows draws each layer of the shadow map once, before the
/// world.
pub proof fn law_shadows_come_first(cursor: Option<(u32, u32)>, screenshot: bool, cascade: u32)
    requires
        cascade < SHADOW_CASCADE_COUNT,
    ensures
        ({
            let steps = frame_steps(true, cursor, screenshot);
            &&& steps[cascade + 1] == FrameStep::ShadowPass { cascade }
            &&& steps[5] == FrameStep::MainPass
        }),
{
    let world = world_steps(true, cursor);
    let steps = frame_steps(true, cursor, screenshot);
    assert(steps[cascade + 1] == world[cascade + 1]);
    assert(steps[5] == world[5]);
}

/// A redraw ends with one update of the view and one frame, for which the
/// commands know the last tick, whether or not ticks were due.
pub proof fn law_redraws_end_with_the_view(total: u64, pending: u32, steps: Vec<RedrawStep>)
    requires
        pending <= total,
        call_ensures(redraw_steps, (total, pending), steps),
    ensures
        steps@.len() == 3 * pending + 3,
        steps@[3 * pending] == (RedrawStep::SetTick { tick: total }),
        steps@[3 * pending + 1] == RedrawStep::Update,
        steps@[3 * pending + 2] == RedrawStep::Draw,
        forall|i: int|
            0 <= i < 3 * pending ==> !((#[trigger] steps@[i]) is Update) && !(steps@[i] is Draw),
{
    let ticks = last_ticks(total as int, pending as int);
    lemma_ticking_len(ticks);
    assert forall|i: int| 0 <= i < 3 * pending implies !((#[trigger] steps@[i]) is Update)
        && !(steps@[i] is Draw) by {
        lemma_ticking_at(ticks, i / 3);
        assert(steps@[i] == ticking(ticks)[i]);
    }
}

/// What each event leads to: closing ends the loop, a new size is taken over, a
/// redraw is a redraw, and the cursor's leaving makes what it was over
/// forgotten. The cursor is known after it moved, at its pixel if that is in the
/// surface and else at the nearest one, and not after it left. A screenshot is
/// asked for by its key going down, and by nothing else taken back.
pub proof fn law_events_lead_to_their_action(
    before: RunModel,
    event: WindowEvent,
    surface: (u32, u32),
)
    ensures
        ({
            let (after, action) = next_run(before, event, surface);
            &&& action is Exit <==> event is CloseRequested
            &&& action is Redraw <==> event is RedrawRequested
            &&& action is ForgetHover <==> event is CursorLeft
            &&& action is Resize <==> event is Resized
            &&& event matches WindowEvent::Resized { width, height } ==> action
                == (Action::Resize { width, height })
            &&& event is CursorLeft ==> after.cursor is None
            &&& !(event is CursorLeft) && !(event is CursorMoved) ==> after.cursor == before.cursor
            &&& event matches WindowEvent::CursorMoved { x, y } ==> after.cursor matches Some(at)
                && {
                &&& 0 <= x < surface.0 ==> at.0 == x
                &&& 0 <= y < surface.1 ==> at.1 == y
                &&& x < 0 ==> at.0 == 0
                &&& y < 0 ==> at.1 == 0
                &&& 0 < surface.0 <= x ==> at.0 == surface.0 - 1
                &&& 0 < surface.1 <= y ==> at.1 == surface.1 - 1
                &&& surface.0 == 0 ==> at.0 == 0
                &&& surface.1 == 0 ==> at.1 == 0
            }
            &&& before.screenshot ==> after.screenshot
            &&& after.screenshot && !before.screenshot <==> !before.screenshot && (event matches
                WindowEvent::Key { is_screenshot_key, pressed, repeat } && is_screenshot_key
                && pressed && !repeat)
        }),
{
}

/// Where a step has its place in a frame.
pub open spec fn turn_of(step: FrameStep) -> int {
    match step {
        FrameStep::ExtractScene => -1,
        FrameStep::ShadowPass { cascade } => cascade as int,
        FrameStep::MainPass => 0x1_0000_0000,
        FrameStep::CopyCursorPixel { .. } => 0x1_0000_0001,
        FrameStep::OverlayBegin => 0x1_0000_0002,
        FrameStep::GameUi => 0x1_0000_0003,
        FrameStep::DebugUi => 0x1_0000_0004,
        FrameStep::OverlayEnd => 0x1_0000_0005,
        FrameStep::ResolveTimestamps => 0x1_0000_0006,
        FrameStep::RecordScreenshot => 0x1_0000_0007,
        FrameStep::Submit => 0x1_0000_0008,
        FrameStep::SaveScreenshot => 0x1_0000_0009,
        FrameStep::ScheduleIdReadback => 0x1_0000_000a,
        FrameStep::ScheduleTimestampReadback => 0x1_0000_000b,
        FrameStep::TakeStats => 0x1_0000_000c,
    }
}

/// The step belongs to a frame: shadows are drawn into the layers that there
/// are if they are wanted, the pixel that is copied is the cursor's, and the
/// screenshot is taken if it was asked for.
pub open spec fn is_wanted(
    step: FrameStep,
    shadows: bool,
    cursor: Option<(u32, u32)>,
    screenshot: bool,
) -> bool {
    match step {
        FrameStep::ShadowPass { cascade } => shadows && cascade < SHADOW_CASCADE_COUNT,
        FrameStep::CopyCursorPixel { x, y } => cursor == Some((x, y)),
        FrameStep::RecordScreenshot => screenshot,
        FrameStep::SaveScreenshot => screenshot,
        _ => true,
    }
}

/// The steps come in their turn, from `low` up to but not at `high`.
pub open spec fn in_turn(steps: Seq<FrameStep>, low: int, high: int) -> bool {
    &&& forall|i: int, j: int|
        0 <= i < j < steps.len() ==> turn_of(#[trigger] steps[i]) < turn_of(#[trigger] steps[j])
    &&& forall|i: int| 0 <= i < steps.len() ==> low <= turn_of(#[trigger] steps[i]) < high
}

proof fn lemma_in_turn(a: Seq<FrameStep>, b: Seq<FrameStep>, low: int, mid: int, high: int)
    requires
        in_turn(a, low, mid),
        in_turn(b, mid, high),
        low <= mid <= high,
    ensures
        in_turn(a + b, low, high),
        forall|step: FrameStep| #[trigger]
            (a + b).contains(step) <==> a.contains(step) || b.contains(step),
{
    let both = a + b;
    assert forall|i: int| 0 <= i < both.len() implies low <= turn_of(#[trigger] both[i]) < high by {
        if i < a.len() {
            assert(both[i] == a[i]);
        } else {
            assert(both[i] == b[i - a.len()]);
        }
    }
    assert forall|i: int, j: int| 0 <= i < j < both.len() implies turn_of(#[trigger] both[i])
        < turn_of(#[trigger] both[j]) by {
        if j < a.len() {
            assert(both[i] == a[i] && both[j] == a[j]);
        } else if i < a.len() {
            assert(both[i] == a[i] && both[j] == b[j - a.len()]);
        } else {
            assert(both[i] == b[i - a.len()] && both[j] == b[j - a.len()]);
        }
    }
    assert forall|step: FrameStep| #[trigger]
        both.contains(step) <==> a.contains(step) || b.contains(step) by {
        if both.contains(step) {
            let i = choose|i: int| 0 <= i < both.len() && both[i] == step;
            if i < a.len() {
                assert(a[i] == step);
            } else {
                assert(b[i - a.len()] == step);
            }
        }
        if a.contains(step) {
            let i = choose|i: int| 0 <= i < a.len() && a[i] == step;
            assert(both[i] == step);
        }
        if b.contains(step) {
            let i = choose|i: int| 0 <= i < b.len() && b[i] == step;
            assert(both[a.len() + i] == step);
        }
    }
}

/// One step if it is asked for comes in its turn.
proof fn lemma_one_in_turn(asked: bool, step: FrameStep)
    ensures
        in_turn(if_asked(asked, step), turn_of(step), turn_of(step) + 1),
        forall|other: FrameStep| #[trigger]
            if_asked(asked, step).contains(other) <==> asked && other == step,
{
    let one = if_asked(asked, step);
    if asked {
        assert(one[0] == step);
    }
}

proof fn lemma_one_more(a: Seq<FrameStep>, asked: bool, step: FrameStep, low: int)
    requires
        in_turn(a, low, turn_of(step)),
        low <= turn_of(step),
    ensures
        in_turn(a + if_asked(asked, step), low, turn_of(step) + 1),
        forall|other: FrameStep| #[trigger]
            (a + if_asked(asked, step)).contains(other) <==> a.contains(other) || (asked && other
                == step),
{
    lemma_one_in_turn(asked, step);
    lemma_in_turn(a, if_asked(asked, step), low, turn_of(step), turn_of(step) + 1);
}

proof fn lemma_world_in_turn(shadows: bool, cursor: Option<(u32, u32)>)
    ensures
        in_turn(world_steps(shadows, cursor), -1, turn_of(FrameStep::OverlayBegin)),
        forall|step: FrameStep| #[trigger]
            world_steps(shadows, cursor).contains(step) <==> is_wanted(step, shadows, cursor, true)
                && turn_of(step) < turn_of(FrameStep::OverlayBegin),
{
    let first = seq![FrameStep::ExtractScene];
    assert(first =~= if_asked(true, FrameStep::ExtractScene));
    lemma_one_in_turn(true, FrameStep::ExtractScene);
    let shade = shadow_steps(shadows);
    let main = turn_of(FrameStep::MainPass);
    assert(in_turn(shade, 0, main));
    assert forall|step: FrameStep| #[trigger] shade.contains(step) <==> (step matches
        FrameStep::ShadowPass { cascade } && shadows && cascade < SHADOW_CASCADE_COUNT) by {
        if let FrameStep::ShadowPass { cascade } = step {
            if shadows && cascade < SHADOW_CASCADE_COUNT {
                assert(shade[cascade as int] == step);
            }
        }
    }
    lemma_in_turn(first, shade, -1, 0, main);
    assert(seq![FrameStep::MainPass] =~= if_asked(true, FrameStep::MainPass));
    lemma_one_more(first + shade, true, FrameStep::MainPass, -1);
    let before = first + shade + seq![FrameStep::MainPass];
    let copied = match cursor {
        Some(at) => FrameStep::CopyCursorPixel { x: at.0, y: at.1 },
        None => FrameStep::CopyCursorPixel { x: 0, y: 0 },
    };
    assert(cursor_steps(cursor) =~= if_asked(cursor is Some, copied));
    lemma_one_more(before, cursor is Some, copied, -1);
}

proof fn lemma_overlay_in_turn()
    ensures
        in_turn(
            overlay_steps(),
            turn_of(FrameStep::OverlayBegin),
            turn_of(FrameStep::RecordScreenshot),
        ),
        forall|step: FrameStep| #[trigger]
            overlay_steps().contains(step) <==> turn_of(FrameStep::OverlayBegin) <= turn_of(step)
                < turn_of(FrameStep::RecordScreenshot),
{
    let low = turn_of(FrameStep::OverlayBegin);
    let a = if_asked(true, FrameStep::OverlayBegin);
    lemma_one_in_turn(true, FrameStep::OverlayBegin);
    let b = a + if_asked(true, FrameStep::GameUi);
    lemma_one_more(a, true, FrameStep::GameUi, low);
    let c = b + if_asked(true, FrameStep::DebugUi);
    lemma_one_more(b, true, FrameStep::DebugUi, low);
    let d = c + if_asked(true, FrameStep::OverlayEnd);
    lemma_one_more(c, true, FrameStep::OverlayEnd, low);
    let e = d + if_asked(true, FrameStep::ResolveTimestamps);
    lemma_one_more(d, true, FrameStep::ResolveTimestamps, low);
    assert(e =~= overlay_steps());
}

proof fn lemma_closing_in_turn(screenshot: bool)
    ensures
        in_turn(
            closing_steps(screenshot),
            turn_of(FrameStep::RecordScreenshot),
            turn_of(FrameStep::TakeStats) + 1,
        ),
        forall|step: FrameStep| #[trigger]
            closing_steps(screenshot).contains(step) <==> is_wanted(step, true, None, screenshot)
                && turn_of(FrameStep::RecordScreenshot) <= turn_of(step),
{
    let low = turn_of(FrameStep::RecordScreenshot);
    let a = if_asked(screenshot, FrameStep::RecordScreenshot);
    lemma_one_in_turn(screenshot, FrameStep::RecordScreenshot);
    let b = a + if_asked(true, FrameStep::Submit);
    lemma_one_more(a, true, FrameStep::Submit, low);
    let c = b + if_asked(screenshot, FrameStep::SaveScreenshot);
    lemma_one_more(b, screenshot, FrameStep::SaveScreenshot, low);
    let d = c + if_asked(true, FrameStep::ScheduleIdReadback);
    lemma_one_more(c, true, FrameStep::ScheduleIdReadback, low);
    let e = d + if_asked(true, FrameStep::ScheduleTimestampReadback);
    lemma_one_more(d, true, FrameStep::ScheduleTimestampReadback, low);
    let f = e + if_asked(true, FrameStep::TakeStats);
    lemma_one_more(e, true, FrameStep::TakeStats, low);
    assert(f =~= closing_steps(screenshot));
}

/// A frame has every step that belongs to it, and no other, each once and in
/// its turn.
pub proof fn law_frames_have_every_step_in_turn(
    shadows: bool,
    cursor: Option<(u32, u32)>,
    screenshot: bool,
)
    ensures
        ({
            let steps = frame_steps(shadows, cursor, screenshot);
            &&& forall|i: int, j: int|
                0 <= i < j < steps.len() ==> turn_of(#[trigger] steps[i]) < turn_of(
                    #[trigger] steps[j],
                )
            &&& forall|step: FrameStep| #[trigger]
                steps.contains(step) <==> is_wanted(step, shadows, cursor, screenshot)
        }),
{
    let world = world_steps(shadows, cursor);
    let closing = closing_steps(screenshot);
    let begin = turn_of(FrameStep::OverlayBegin);
    let record = turn_of(FrameStep::RecordScreenshot);
    let end = turn_of(FrameStep::TakeStats) + 1;
    lemma_world_in_turn(shadows, cursor);
    lemma_overlay_in_turn();
    lemma_closing_in_turn(screenshot);
    lemma_in_turn(world, overlay_steps(), -1, begin, record);
    lemma_in_turn(world + overlay_steps(), closing, -1, record, end);
}

} // verus!
