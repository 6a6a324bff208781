use vstd::prelude::*;
use crate::bobber::{PointerOffset, aim_of, aim_point, is_bobber_match, locate_in_frame};
use crate::delay::DelayKind;
use crate::edge_filter::EdgeConfig;
use crate::edge_map::EdgeMap;
use crate::error::DetectionError;
use crate::frame::{Frame, Region};
use crate::grid::Grid;
use crate::locator::{MatchResult, match_fault};
use crate::splash::{SplashConfig, changed_count, comparison_fault, detect_splash};

verus! {

/// How long the cycle watches for a splash, as shipped, in milliseconds.
pub const DEFAULT_TIMEOUT_MS: u64 = 29_000;

/// The stages of one cycle.
#[derive(Debug, Clone, Copy, PartialEq, Eq, Structural)]
pub enum CycleState {
    /// The line is about to be cast.
    Idle,
    /// The line is out and the bobber settles.
    Casting,
    /// A frame is taken to find the bobber in.
    Settling,
    /// The bobber was found and the pointer moves onto it.
    Locating,
    /// The pointer is left alone for a moment.
    Aiming,
    /// Frames are compared until a splash shows or time runs out.
    WaitingForSplash,
    /// A splash showed and the button is pressed.
    Reacting,
    /// The cycle rests before the next one.
    Resting,
}

/// What the cycle is waiting for: the step that the caller was last asked
/// to carry out.
#[derive(Debug, Clone, Copy, PartialEq, Eq, Structural)]
pub enum Phase {
    /// Nothing was asked for yet.
    Start,
    /// The cast key goes down.
    CastPress,
    /// The cast key is held.
    CastHold,
    /// The cast key goes up.
    CastRelease,
    /// The bobber settles.
    Settle,
    /// The frame to find the bobber in is taken.
    LocateCapture,
    /// The pointer moves.
    Move,
    /// The pointer is left alone.
    AimPause,
    /// The first frame of the watch is taken.
    BaselineCapture,
    /// A frame to hold against the one before is taken.
    SampleCapture,
    /// The watch pauses between two frames.
    PollPause,
    /// The wait between the splash and the press passes.
    ReactLead,
    /// The button goes down.
    ReactPress,
    /// The button is held.
    ReactHold,
    /// The button goes up.
    ReactRelease,
    /// The cycle rests.
    Rest,
}

impl Phase {
    /// The stage that the phase belongs to.
    pub open spec fn spec_state(&self) -> CycleState {
        match self {
            Phase::Start | Phase::CastPress | Phase::CastHold | Phase::CastRelease => {
                CycleState::Idle
            },
            Phase::Settle => CycleState::Casting,
            Phase::LocateCapture => CycleState::Settling,
            Phase::Move => CycleState::Locating,
            Phase::AimPause => CycleState::Aiming,
            Phase::BaselineCapture | Phase::SampleCapture | Phase::PollPause => {
                CycleState::WaitingForSplash
            },
            Phase::ReactLead | Phase::ReactPress | Phase::ReactHold | Phase::ReactRelease => {
                CycleState::Reacting
            },
            Phase::Rest => CycleState::Resting,
        }
    }

    /// The stage that the phase belongs to.
    #[verifier::when_used_as_spec(spec_state)]
    pub fn state(&self) -> (s: CycleState)
        ensures
            s == self.spec_state(),
    {
        match self {
            Phase::Start | Phase::CastPress | Phase::CastHold | Phase::CastRelease => {
                CycleState::Idle
            },
            Phase::Settle => CycleState::Casting,
            Phase::LocateCapture => CycleState::Settling,
            Phase::Move => CycleState::Locating,
            Phase::AimPause => CycleState::Aiming,
            Phase::BaselineCapture | Phase::SampleCapture | Phase::PollPause => {
                CycleState::WaitingForSplash
            },
            Phase::ReactLead | Phase::ReactPress | Phase::ReactHold | Phase::ReactRelease => {
                CycleState::Reacting
            },
            Phase::Rest => CycleState::Resting,
        }
    }

    /// The phase is over when a frame arrives, not when a step is done.
    pub open spec fn spec_expects_frame(&self) -> bool {
        *self == Phase::LocateCapture || *self == Phase::BaselineCapture || *self
            == Phase::SampleCapture
    }

    /// Tells whether the phase is over when a frame arrives.
    #[verifier::when_used_as_spec(spec_expects_frame)]
    pub fn expects_frame(&self) -> (r: bool)
        ensures
            r == self.spec_expects_frame(),
    {
        match self {
            Phase::LocateCapture | Phase::BaselineCapture | Phase::SampleCapture => true,
            _ => false,
        }
    }
}

/// What the cycle asks its caller to do next.
#[derive(Debug, Clone, Copy, PartialEq, Eq, Structural)]
pub enum Action {
    /// Press the key that casts the line.
    PressCastKey,
    /// Release the key that casts the line.
    ReleaseCastKey,
    /// Press the button that reacts to a splash.
    PressReactButton,
    /// Release the button that reacts to a splash.
    ReleaseReactButton,
    /// Wait for a time drawn from the range of the given kind.
    Pause(DelayKind),
    /// Take a frame of the window.
    Capture,
    /// Move the pointer to the given point.
    MovePointer { x: i64, y: i64 },
}

/// What the caller reports back to the cycle.
#[derive(Debug)]
pub enum Event {
    /// The step that was asked for is done.
    Done,
    /// The frame that was asked for.
    Captured(Frame),
}

impl Event {
    /// The frame that the event carries, if it carries one.
    pub open spec fn frame(&self) -> Option<Grid<u8>> {
        match self {
            Event::Done => None,
            Event::Captured(frame) => Some(frame@),
        }
    }
}

/// How a watch for a splash ended.
#[derive(Debug, Clone, Copy, PartialEq, Eq, Structural)]
pub enum WaitOutcome {
    /// A splash showed.
    Splash,
    /// Time ran out first. This is an ordinary end of a watch, no fault.
    Timeout,
}

/// Why the cycle could not go on.
#[derive(Debug, Clone, Copy, PartialEq, Eq, Structural)]
pub enum CycleError {
    /// A frame came where a step was awaited, or the other way round.
    UnexpectedEvent,
    /// The detection refused its input.
    Detection(DetectionError),
}

/// Settings of a cycle.
#[derive(Debug, Clone, Copy, PartialEq, Eq, Structural)]
pub struct CycleConfig {
    /// Settings of the edge filter that frames go through.
    pub edges: EdgeConfig,
    /// Thresholds of the splash detector.
    pub splash: SplashConfig,
    /// Correction added to the pointer target.
    pub offset: PointerOffset,
    /// How long to watch for a splash, in milliseconds.
    pub timeout_ms: u64,
}

impl CycleConfig {
    /// The settings that the cycle ships with.
    pub fn standard() -> (c: CycleConfig)
        ensures
            c.edges == (EdgeConfig {
                low: crate::edge_filter::DEFAULT_LOW_THRESHOLD,
                high: crate::edge_filter::DEFAULT_HIGH_THRESHOLD,
                aperture: crate::gradient::Aperture::Three,
            }),
            c.splash == (SplashConfig {
                pixel_threshold: crate::splash::DEFAULT_PIXEL_THRESHOLD,
                count_threshold: crate::splash::DEFAULT_COUNT_THRESHOLD,
            }),
            c.offset == (PointerOffset { dx: 0, dy: crate::bobber::DEFAULT_POINTER_OFFSET_Y }),
            c.timeout_ms == DEFAULT_TIMEOUT_MS,
    {
        CycleConfig {
            edges: EdgeConfig::standard(),
            splash: SplashConfig::standard(),
            offset: PointerOffset::standard(),
            timeout_ms: DEFAULT_TIMEOUT_MS,
        }
    }
}

/// Mathematical model of a cycle.
pub struct CycleView {
    /// What the cycle is waiting for.
    pub phase: Phase,
    /// The settings of the cycle.
    pub config: CycleConfig,
    /// The template that frames are matched against.
    pub template: Grid<bool>,
    /// Where the bobber was found in this cycle.
    pub region: Option<Region>,
    /// The frame that the next sample is compared with.
    pub previous: Option<Grid<u8>>,
    /// The clock reading at which the watch began.
    pub wait_started_ms: u64,
    /// How the watch of this cycle ended.
    pub last_wait: Option<WaitOutcome>,
}

impl CycleView {
    /// The cycle knows the region while the pointer is on it, and keeps a
    /// frame to compare with while it watches.
    pub open spec fn wf(self) -> bool {
        &&& (self.phase == Phase::Move || self.phase == Phase::AimPause || self.phase
            == Phase::BaselineCapture || self.phase == Phase::SampleCapture || self.phase
            == Phase::PollPause) ==> self.region is Some
        &&& (self.phase == Phase::SampleCapture || self.phase == Phase::PollPause)
            ==> self.previous is Some
    }

    /// The same cycle in another phase.
    pub open spec fn at(self, phase: Phase) -> CycleView {
        CycleView { phase, ..self }
    }
}

/// The release that is owed when a cycle is broken off in `phase`: while
/// the cast key or the button may be down, it has to go up again.
pub open spec fn owed_release(phase: Phase) -> Option<Action> {
    match phase {
        Phase::CastPress | Phase::CastHold | Phase::CastRelease => Some(Action::ReleaseCastKey),
        Phase::ReactPress | Phase::ReactHold | Phase::ReactRelease => Some(
            Action::ReleaseReactButton,
        ),
        _ => None,
    }
}

/// Milliseconds from `start` to `now`; none when the clock reads less than
/// it did at the start.
pub open spec fn elapsed_ms(start: u64, now: u64) -> u64 {
    if now >= start {
        (now - start) as u64
    } else {
        0
    }
}

/// What a cycle in state `pre` does when `event` arrives at time `now`:
/// the state `post` it is in afterwards, and what it answers.
///
/// An event of the wrong kind is refused and changes nothing, and so is a
/// frame that the detection refuses. Otherwise each phase has one
/// successor, except for the two at which the watch can end.
pub open spec fn steps(
    pre: CycleView,
    event: Option<Grid<u8>>,
    now: u64,
    post: CycleView,
    answer: Result<Action, CycleError>,
) -> bool {
    if pre.phase.spec_expects_frame() != (event is Some) {
        post == pre && answer == Err::<Action, CycleError>(CycleError::UnexpectedEvent)
    } else {
        match pre.phase {
            Phase::Start | Phase::Rest => {
                &&& post == CycleView {
                    phase: Phase::CastPress,
                    region: None,
                    previous: None,
                    last_wait: None,
                    ..pre
                }
                &&& answer == Ok::<Action, CycleError>(Action::PressCastKey)
            },
            Phase::CastPress => {
                &&& post == pre.at(Phase::CastHold)
                &&& answer == Ok::<Action, CycleError>(Action::Pause(DelayKind::CastHold))
            },
            Phase::CastHold => {
                &&& post == pre.at(Phase::CastRelease)
                &&& answer == Ok::<Action, CycleError>(Action::ReleaseCastKey)
            },
            Phase::CastRelease => {
                &&& post == pre.at(Phase::Settle)
                &&& answer == Ok::<Action, CycleError>(Action::Pause(DelayKind::Settle))
            },
            Phase::Settle => {
                &&& post == pre.at(Phase::LocateCapture)
                &&& answer == Ok::<Action, CycleError>(Action::Capture)
            },
            Phase::LocateCapture => {
                let frame = event->Some_0;
                match match_fault(frame.width, frame.height, pre.template) {
                    Some(e) => {
                        &&& post == pre
                        &&& answer == Err::<Action, CycleError>(CycleError::Detection(e))
                    },
                    None => exists|found: MatchResult|
                        {
                            let region = found.spec_region(
                                pre.template.width as u32,
                                pre.template.height as u32,
                            );
                            let aim = aim_of(region, pre.config.offset);
                            &&& #[trigger] is_bobber_match(
                                frame,
                                pre.template,
                                pre.config.edges,
                                found,
                            )
                            &&& region.inside(frame.width, frame.height)
                            &&& post == CycleView {
                                phase: Phase::Move,
                                region: Some(region),
                                ..pre
                            }
                            &&& answer == Ok::<Action, CycleError>(
                                Action::MovePointer { x: aim.0 as i64, y: aim.1 as i64 },
                            )
                        },
                }
            },
            Phase::Move => {
                &&& post == pre.at(Phase::AimPause)
                &&& answer == Ok::<Action, CycleError>(Action::Pause(DelayKind::Aim))
            },
            Phase::AimPause => {
                &&& post == pre.at(Phase::BaselineCapture)
                &&& answer == Ok::<Action, CycleError>(Action::Capture)
            },
            Phase::BaselineCapture => {
                if pre.config.timeout_ms > 0 {
                    &&& post == CycleView {
                        phase: Phase::SampleCapture,
                        previous: event,
                        wait_started_ms: now,
                        ..pre
                    }
                    &&& answer == Ok::<Action, CycleError>(Action::Capture)
                } else {
                    &&& post == CycleView {
                        phase: Phase::Rest,
                        previous: None,
                        wait_started_ms: now,
                        last_wait: Some(WaitOutcome::Timeout),
                        ..pre
                    }
                    &&& answer == Ok::<Action, CycleError>(Action::Pause(DelayKind::Rest))
                }
            },
            Phase::SampleCapture => {
                if pre.previous is Some && pre.region is Some {
                    let before = pre.previous->Some_0;
                    let after = event->Some_0;
                    let region = pre.region->Some_0;
                    match comparison_fault(before, after, region) {
                        Some(e) => {
                            &&& post == pre
                            &&& answer == Err::<Action, CycleError>(CycleError::Detection(e))
                        },
                        None => {
                            if changed_count(
                                before,
                                after,
                                region,
                                pre.config.splash.pixel_threshold as int,
                            ) > pre.config.splash.count_threshold {
                                &&& post == CycleView {
                                    phase: Phase::ReactLead,
                                    previous: None,
                                    last_wait: Some(WaitOutcome::Splash),
                                    ..pre
                                }
                                &&& answer == Ok::<Action, CycleError>(
                                    Action::Pause(DelayKind::ReactLead),
                                )
                            } else {
                                &&& post == CycleView {
                                    phase: Phase::PollPause,
                                    previous: event,
                                    ..pre
                                }
                                &&& answer == Ok::<Action, CycleError>(
                                    Action::Pause(DelayKind::Poll),
                                )
                            }
                        },
                    }
                } else {
                    post == pre && answer == Err::<Action, CycleError>(
                        CycleError::UnexpectedEvent,
                    )
                }
            },
            Phase::PollPause => {
                if elapsed_ms(pre.wait_started_ms, now) < pre.config.timeout_ms {
                    &&& post == pre.at(Phase::SampleCapture)
                    &&& answer == Ok::<Action, CycleError>(Action::Capture)
                } else {
                    &&& post == CycleView {
                        phase: Phase::Rest,
                        previous: None,
                        last_wait: Some(WaitOutcome::Timeout),
                        ..pre
                    }
                    &&& answer == Ok::<Action, CycleError>(Action::Pause(DelayKind::Rest))
                }
            },
            Phase::ReactLead => {
                &&& post == pre.at(Phase::ReactPress)
                &&& answer == Ok::<Action, CycleError>(Action::PressReactButton)
            },
            Phase::ReactPress => {
                &&& post == pre.at(Phase::ReactHold)
                &&& answer == Ok::<Action, CycleError>(Action::Pause(DelayKind::ReactHold))
            },
            Phase::ReactHold => {
                &&& post == pre.at(Phase::ReactRelease)
                &&& answer == Ok::<Action, CycleError>(Action::ReleaseReactButton)
            },
            Phase::ReactRelease => {
                &&& post == pre.at(Phase::Rest)
                &&& answer == Ok::<Action, CycleError>(Action::Pause(DelayKind::Rest))
            },
        }
    }
}

/// One cycle of casting, finding the bobber, watching for a splash and
/// reacting to it, and then the next.
///
/// The cycle carries out nothing itself. It answers each event with the
/// step to take next; the caller takes the step and reports back.
#[derive(Debug)]
pub struct FishingCycle {
    phase: Phase,
    config: CycleConfig,
    template: EdgeMap,
    region: Option<Region>,
    previous: Option<Frame>,
    wait_started_ms: u64,
    last_wait: Option<WaitOutcome>,
}

impl View for FishingCycle {
    type V = CycleView;

    closed spec fn view(&self) -> CycleView {
        CycleView {
            phase: self.phase,
            config: self.config,
            template: self.template@,
            region: self.region,
            previous: match self.previous {
                Some(frame) => Some(frame@),
                None => None,
            },
            wait_started_ms: self.wait_started_ms,
            last_wait: self.last_wait,
        }
    }
}

impl FishingCycle {
    #[verifier::type_invariant]
    spec fn inv(self) -> bool {
        self@.wf()
    }

    /// Makes a cycle that matches against the first of the templates.
    ///
    /// Fails exactly when there is no template. The other templates
    /// take no part in the matching.
    pub fn new(templates: Vec<EdgeMap>, config: CycleConfig) -> (r: Result<
        FishingCycle,
        DetectionError,
    >)
        ensures
            r is Ok <==> templates@.len() > 0,
            r is Ok ==> r->Ok_0@ == (CycleView {
                phase: Phase::Start,
                config,
                template: templates@[0]@,
                region: None,
                previous: None,
                wait_started_ms: 0,
                last_wait: None,
            }),
            r is Err ==> r->Err_0 == DetectionError::EmptyTemplateSet,
    {
        let mut templates = templates;
        if templates.len() == 0 {
            return Err(DetectionError::EmptyTemplateSet);
        }
        let template = templates.swap_remove(0);
        Ok(FishingCycle::with_template(template, config))
    }

    /// Makes a cycle that matches against the given template.
    pub fn with_template(template: EdgeMap, config: CycleConfig) -> (c: FishingCycle)
        ensures
            c@ == (CycleView {
                phase: Phase::Start,
                config,
                template: template@,
                region: None,
                previous: None,
                wait_started_ms: 0,
                last_wait: None,
            }),
    {
        FishingCycle {
            phase: Phase::Start,
            config,
            template,
            region: None,
            previous: None,
            wait_started_ms: 0,
            last_wait: None,
        }
    }

    /// The stage that the cycle is in.
    pub fn state(&self) -> (s: CycleState)
        ensures
            s == self@.phase.spec_state(),
    {
        self.phase.state()
    }

    /// What the cycle is waiting for.
    pub fn phase(&self) -> (p: Phase)
        ensures
            p == self@.phase,
            self@.wf(),
    {
        proof {
            use_type_invariant(self);
        }
        self.phase
    }

    /// The region of the bobber, once it was found in this cycle.
    pub fn region(&self) -> (r: Option<Region>)
        ensures
            r == self@.region,
    {
        self.region
    }

    /// How the last watch of this cycle ended, once it has.
    pub fn last_wait(&self) -> (w: Option<WaitOutcome>)
        ensures
            w == self@.last_wait,
    {
        self.last_wait
    }

    /// The settings of the cycle.
    pub fn config(&self) -> (c: CycleConfig)
        ensures
            c == self@.config,
    {
        self.config
    }

    /// Takes in what the caller reports at time `now_ms`, a reading in
    /// milliseconds of a clock that does not run backwards, and answers
    /// with the step to take next.
    ///
    /// The first event of a new cycle is `Done`. What the cycle does on
    /// each event is laid down by `steps`.
    pub fn advance(&mut self, event: Event, now_ms: u64) -> (answer: Result<Action, CycleError>)
        ensures
            steps(old(self)@, event.frame(), now_ms, final(self)@, answer),
            final(self)@.wf(),
    {
        proof {
            use_type_invariant(&*self);
        }
        match event {
            Event::Done => self.step_done(now_ms),
            Event::Captured(frame) => self.step_frame(frame, now_ms),
        }
    }

    /// Breaks the cycle off, whatever it is waiting for, and makes it ready
    /// to start afresh.
    ///
    /// The answer is the release that is still owed, if the cast key or
    /// the button may be down. A caller that checks for a request to stop
    /// before each step can so leave at every transition.
    pub fn cancel(&mut self) -> (owed: Option<Action>)
        ensures
            owed == owed_release(old(self)@.phase),
            final(self)@ == (CycleView {
                phase: Phase::Start,
                region: None,
                previous: None,
                last_wait: None,
                ..old(self)@
            }),
            final(self)@.wf(),
    {
        let owed = match self.phase {
            Phase::CastPress | Phase::CastHold | Phase::CastRelease => Some(Action::ReleaseCastKey),
            Phase::ReactPress | Phase::ReactHold | Phase::ReactRelease => Some(
                Action::ReleaseReactButton,
            ),
            _ => None,
        };
        self.phase = Phase::Start;
        self.region = None;
        self.previous = None;
        self.last_wait = None;
        owed
    }

    /// Goes on after a step that carries nothing back.
    fn step_done(&mut self, now_ms: u64) -> (answer: Result<Action, CycleError>)
        ensures
            steps(old(self)@, None, now_ms, final(self)@, answer),
            final(self)@.wf(),
    {
        proof {
            use_type_invariant(&*self);
        }
        match self.phase {
            Phase::Start | Phase::Rest => {
                self.region = None;
                self.previous = None;
                self.last_wait = None;
                self.phase = Phase::CastPress;
                Ok(Action::PressCastKey)
            },
            Phase::CastPress => {
                self.phase = Phase::CastHold;
                Ok(Action::Pause(DelayKind::CastHold))
            },
            Phase::CastHold => {
                self.phase = Phase::CastRelease;
                Ok(Action::ReleaseCastKey)
            },
            Phase::CastRelease => {
                self.phase = Phase::Settle;
                Ok(Action::Pause(DelayKind::Settle))
            },
            Phase::Settle => {
                self.phase = Phase::LocateCapture;
                Ok(Action::Capture)
            },
            Phase::Move => {
                self.phase = Phase::AimPause;
                Ok(Action::Pause(DelayKind::Aim))
            },
            Phase::AimPause => {
                self.phase = Phase::BaselineCapture;
                Ok(Action::Capture)
            },
            Phase::PollPause => {
                let elapsed: u64 = if now_ms >= self.wait_started_ms {
                    now_ms - self.wait_started_ms
                } else {
                    0
                };
                if elapsed < self.config.timeout_ms {
                    self.phase = Phase::SampleCapture;
                    Ok(Action::Capture)
                } else {
                    self.phase = Phase::Rest;
                    self.previous = None;
                    self.last_wait = Some(WaitOutcome::Timeout);
                    Ok(Action::Pause(DelayKind::Rest))
                }
            },
            Phase::ReactLead => {
                self.phase = Phase::ReactPress;
                Ok(Action::PressReactButton)
            },
            Phase::ReactPress => {
                self.phase = Phase::ReactHold;
                Ok(Action::Pause(DelayKind::ReactHold))
            },
            Phase::ReactHold => {
                self.phase = Phase::ReactRelease;
                Ok(Action::ReleaseReactButton)
            },
            Phase::ReactRelease => {
                self.phase = Phase::Rest;
                Ok(Action::Pause(DelayKind::Rest))
            },
            Phase::LocateCapture | Phase::BaselineCapture | Phase::SampleCapture => Err(
                CycleError::UnexpectedEvent,
            ),
        }
    }

    /// Goes on after a frame was taken.
    fn step_frame(&mut self, frame: Frame, now_ms: u64) -> (answer: Result<Action, CycleError>)
        ensures
            steps(old(self)@, Some(frame@), now_ms, final(self)@, answer),
            final(self)@.wf(),
    {
        proof {
            use_type_invariant(&*self);
        }
        match self.phase {
            Phase::LocateCapture => {
                match locate_in_frame(&frame, &self.template, &self.config.edges) {
                    Ok(found) => {
                        let region = found.region(self.template.width(), self.template.height());
                        let aim = aim_point(region, self.config.offset);
                        self.region = Some(region);
                        self.phase = Phase::Move;
                        Ok(Action::MovePointer { x: aim.0, y: aim.1 })
                    },
                    Err(e) => Err(CycleError::Detection(e)),
                }
            },
            Phase::BaselineCapture => {
                self.wait_started_ms = now_ms;
                if self.config.timeout_ms > 0 {
                    self.previous = Some(frame);
                    self.phase = Phase::SampleCapture;
                    Ok(Action::Capture)
                } else {
                    self.previous = None;
                    self.last_wait = Some(WaitOutcome::Timeout);
                    self.phase = Phase::Rest;
                    Ok(Action::Pause(DelayKind::Rest))
                }
            },
            Phase::SampleCapture => {
                let compared = match (&self.previous, self.region) {
                    (Some(before), Some(region)) => detect_splash(
                        before,
                        &frame,
                        region,
                        &self.config.splash,
                    ),
                    _ => {
                        return Err(CycleError::UnexpectedEvent);
                    },
                };
                match compared {
                    Ok(evidence) => {
                        if evidence.is_splash() {
                            self.phase = Phase::ReactLead;
                            self.previous = None;
                            self.last_wait = Some(WaitOutcome::Splash);
                            Ok(Action::Pause(DelayKind::ReactLead))
                        } else {
                            self.previous = Some(frame);
                            self.phase = Phase::PollPause;
                            Ok(Action::Pause(DelayKind::Poll))
                        }
                    },
                    Err(e) => Err(CycleError::Detection(e)),
                }
            },
            _ => Err(CycleError::UnexpectedEvent),
        }
    }
}

} // verus!
