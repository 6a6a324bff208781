use vstd::prelude::*;
use crate::bobber::is_bobber_match;
use crate::cycle::{Action, CycleError, CycleState, CycleView, Phase, WaitOutcome, elapsed_ms, steps};
use crate::edge_filter::{is_edge_map_of, lemma_edge_map_is_unique};
use crate::grid::Grid;
use crate::locator::MatchResult;
use crate::locator_proofs::lemma_best_match_is_unique;
use crate::splash::{changed_count, comparison_fault};

verus! {

/// The stage that comes after `from` is `to`.
///
/// The stages form a ring. It forks once: a watch ends in a reaction or,
/// when time runs out, in the rest.
pub open spec fn follows(from: CycleState, to: CycleState) -> bool {
    match from {
        CycleState::Idle => to == CycleState::Casting,
        CycleState::Casting => to == CycleState::Settling,
        CycleState::Settling => to == CycleState::Locating,
        CycleState::Locating => to == CycleState::Aiming,
        CycleState::Aiming => to == CycleState::WaitingForSplash,
        CycleState::WaitingForSplash => to == CycleState::Reacting || to == CycleState::Resting,
        CycleState::Reacting => to == CycleState::Resting,
        CycleState::Resting => to == CycleState::Idle,
    }
}

/// The stages are passed in the order of the ring: an event that is
/// accepted leaves the cycle in its stage or moves it to the next one.
pub proof fn lemma_stages_follow_in_order(
    pre: CycleView,
    event: Option<Grid<u8>>,
    now: u64,
    post: CycleView,
    answer: Result<Action, CycleError>,
)
    requires
        steps(pre, event, now, post, answer),
    ensures
        post.phase.spec_state() == pre.phase.spec_state() || follows(
            pre.phase.spec_state(),
            post.phase.spec_state(),
        ),
        pre.phase == Phase::Rest && answer is Ok ==> post.phase.spec_state() == CycleState::Idle,
{
}

/// An event that is refused changes nothing.
pub proof fn lemma_refusal_changes_nothing(
    pre: CycleView,
    event: Option<Grid<u8>>,
    now: u64,
    post: CycleView,
    answer: Result<Action, CycleError>,
)
    requires
        steps(pre, event, now, post, answer),
        answer is Err,
    ensures
        post == pre,
{
}

/// What the cycle keeps is in order after every event, if it was before.
pub proof fn lemma_steps_keep_order(
    pre: CycleView,
    event: Option<Grid<u8>>,
    now: u64,
    post: CycleView,
    answer: Result<Action, CycleError>,
)
    requires
        pre.wf(),
        steps(pre, event, now, post, answer),
    ensures
        post.wf(),
{
}

/// The cycle starts to react only when a frame shows a splash: more
/// changed samples in the region than the threshold allows.
pub proof fn lemma_reaction_needs_splash(
    pre: CycleView,
    event: Option<Grid<u8>>,
    now: u64,
    post: CycleView,
    answer: Result<Action, CycleError>,
)
    requires
        steps(pre, event, now, post, answer),
        pre.phase.spec_state() != CycleState::Reacting,
        post.phase.spec_state() == CycleState::Reacting,
    ensures
        pre.phase == Phase::SampleCapture,
        event is Some && pre.previous is Some && pre.region is Some,
        changed_count(
            pre.previous->Some_0,
            event->Some_0,
            pre.region->Some_0,
            pre.config.splash.pixel_threshold as int,
        ) > pre.config.splash.count_threshold,
        post.last_wait == Some(WaitOutcome::Splash),
{
}

/// A watch that ends without a splash ends because time ran out: the
/// cycle goes to rest, records the timeout, and asks for the rest alone.
pub proof fn lemma_timeout_leads_to_rest(
    pre: CycleView,
    event: Option<Grid<u8>>,
    now: u64,
    post: CycleView,
    answer: Result<Action, CycleError>,
)
    requires
        steps(pre, event, now, post, answer),
        pre.phase.spec_state() == CycleState::WaitingForSplash,
        post.phase.spec_state() == CycleState::Resting,
    ensures
        post.last_wait == Some(WaitOutcome::Timeout),
        answer == Ok::<Action, CycleError>(Action::Pause(crate::delay::DelayKind::Rest)),
        pre.phase == Phase::PollPause ==> elapsed_ms(pre.wait_started_ms, now)
            >= pre.config.timeout_ms,
        pre.phase == Phase::BaselineCapture ==> pre.config.timeout_ms == 0,
{
}

/// As long as the time is not up, a pause of the watch is followed by
/// another frame.
pub proof fn lemma_watch_goes_on_in_time(
    pre: CycleView,
    now: u64,
    post: CycleView,
    answer: Result<Action, CycleError>,
)
    requires
        steps(pre, None, now, post, answer),
        pre.phase == Phase::PollPause,
        elapsed_ms(pre.wait_started_ms, now) < pre.config.timeout_ms,
    ensures
        post.phase == Phase::SampleCapture,
        answer == Ok::<Action, CycleError>(Action::Capture),
{
}

/// One exchange between the caller and the cycle: what came in and when,
/// the state of the cycle afterwards, and its answer.
pub struct Exchange {
    /// The frame that came in, or none when a step was reported as done.
    pub event: Option<Grid<u8>>,
    /// The clock reading that came with it.
    pub now: u64,
    /// The state of the cycle afterwards.
    pub post: CycleView,
    /// What the cycle answered.
    pub answer: Result<Action, CycleError>,
}

/// The state of the cycle before exchange `i` of a run that starts in `pre`.
pub open spec fn state_before(pre: CycleView, run: Seq<Exchange>, i: int) -> CycleView {
    if i <= 0 {
        pre
    } else {
        run[i - 1].post
    }
}

/// `run` is what a cycle in state `pre` goes through: each exchange
/// follows from the state before it.
pub open spec fn is_run(pre: CycleView, run: Seq<Exchange>) -> bool {
    forall|i: int|
        0 <= i < run.len() ==> steps(
            state_before(pre, run, i),
            (#[trigger] run[i]).event,
            run[i].now,
            run[i].post,
            run[i].answer,
        )
}

/// The cycle watches for a splash.
pub open spec fn in_watch(state: CycleView) -> bool {
    state.phase.spec_state() == CycleState::WaitingForSplash
}

/// Throughout `run` the caller brings a frame where one was asked for and
/// nothing else, and no frame that is held against the one before it is
/// refused or shows a splash.
pub open spec fn is_quiet(pre: CycleView, run: Seq<Exchange>) -> bool {
    forall|i: int|
        0 <= i < run.len() ==> {
            let before = state_before(pre, run, i);
            &&& ((#[trigger] run[i]).event is Some) == before.phase.spec_expects_frame()
            &&& before.phase == Phase::SampleCapture && before.previous is Some
                && before.region is Some ==> comparison_fault(
                before.previous->Some_0,
                run[i].event->Some_0,
                before.region->Some_0,
            ) is None && changed_count(
                before.previous->Some_0,
                run[i].event->Some_0,
                before.region->Some_0,
                before.config.splash.pixel_threshold as int,
            ) <= before.config.splash.count_threshold
        }
}

/// A watch in which no splash shows ends in a timeout and in nothing else.
///
/// Take a run that starts in the watch and in which every frame comes
/// when asked for, compares with the one before and shows no splash. As
/// long as the watch has not ended, every answer is a step to take and no
/// error; it asks for a frame or for a pause and never for a key, the
/// button or the pointer; and the cycle stays in the watch or goes to
/// rest. It goes to rest exactly at the pause at which the time is up,
/// or at once when the watch is given no time, and then the timeout is
/// recorded as the outcome.
pub proof fn lemma_quiet_watch_ends_in_timeout(pre: CycleView, run: Seq<Exchange>, k: int)
    requires
        pre.wf(),
        in_watch(pre),
        is_run(pre, run),
        is_quiet(pre, run),
        0 <= k < run.len(),
        forall|j: int| 0 <= j < k ==> in_watch((#[trigger] run[j]).post),
    ensures
        state_before(pre, run, k).wf(),
        in_watch(state_before(pre, run, k)),
        run[k].post.wf(),
        run[k].answer is Ok,
        run[k].answer->Ok_0 == Action::Capture || run[k].answer->Ok_0 == Action::Pause(
            crate::delay::DelayKind::Poll,
        ) || run[k].answer->Ok_0 == Action::Pause(crate::delay::DelayKind::Rest),
        in_watch(run[k].post) || run[k].post.phase == Phase::Rest,
        run[k].post.phase == Phase::Rest <==> (state_before(pre, run, k).phase == Phase::PollPause
            && elapsed_ms(state_before(pre, run, k).wait_started_ms, run[k].now)
            >= state_before(pre, run, k).config.timeout_ms) || (state_before(pre, run, k).phase
            == Phase::BaselineCapture && state_before(pre, run, k).config.timeout_ms == 0),
        run[k].post.phase == Phase::Rest ==> run[k].post.last_wait == Some(WaitOutcome::Timeout)
            && run[k].answer == Ok::<Action, CycleError>(
            Action::Pause(crate::delay::DelayKind::Rest),
        ),
    decreases k,
{
    if k > 0 {
        lemma_quiet_watch_ends_in_timeout(pre, run, k - 1);
        assert(in_watch(run[k - 1].post));
    }
    let before = state_before(pre, run, k);
    assert(steps(before, run[k].event, run[k].now, run[k].post, run[k].answer));
}

/// The button is touched only while the cycle reacts, and the key only
/// while it is idle; each press is answered to the phase that the
/// release follows from.
pub proof fn lemma_input_belongs_to_its_stage(
    pre: CycleView,
    event: Option<Grid<u8>>,
    now: u64,
    post: CycleView,
    answer: Result<Action, CycleError>,
)
    requires
        steps(pre, event, now, post, answer),
        answer is Ok,
    ensures
        answer->Ok_0 == Action::PressReactButton <==> post.phase == Phase::ReactPress,
        answer->Ok_0 == Action::ReleaseReactButton <==> post.phase == Phase::ReactRelease,
        answer->Ok_0 == Action::PressCastKey <==> post.phase == Phase::CastPress,
        answer->Ok_0 == Action::ReleaseCastKey <==> post.phase == Phase::CastRelease,
        answer->Ok_0 is MovePointer <==> post.phase == Phase::Move,
{
}

/// The next state and the answer are determined by the state, the event
/// and the time.
pub proof fn lemma_steps_are_deterministic(
    pre: CycleView,
    event: Option<Grid<u8>>,
    now: u64,
    post1: CycleView,
    answer1: Result<Action, CycleError>,
    post2: CycleView,
    answer2: Result<Action, CycleError>,
)
    requires
        event is Some ==> event->Some_0.wf(),
        steps(pre, event, now, post1, answer1),
        steps(pre, event, now, post2, answer2),
    ensures
        post1 == post2,
        answer1 == answer2,
{
    if pre.phase == Phase::LocateCapture && event is Some {
        let frame = event->Some_0;
        if crate::locator::match_fault(frame.width, frame.height, pre.template) is None {
            let found1 = choose|found: MatchResult|
                {
                    let region = found.spec_region(
                        pre.template.width as u32,
                        pre.template.height as u32,
                    );
                    let aim = crate::bobber::aim_of(region, pre.config.offset);
                    &&& #[trigger] is_bobber_match(frame, pre.template, pre.config.edges, found)
                    &&& region.inside(frame.width, frame.height)
                    &&& post1 == CycleView { phase: Phase::Move, region: Some(region), ..pre }
                    &&& answer1 == Ok::<Action, CycleError>(
                        Action::MovePointer { x: aim.0 as i64, y: aim.1 as i64 },
                    )
                };
            let found2 = choose|found: MatchResult|
                {
                    let region = found.spec_region(
                        pre.template.width as u32,
                        pre.template.height as u32,
                    );
                    let aim = crate::bobber::aim_of(region, pre.config.offset);
                    &&& #[trigger] is_bobber_match(frame, pre.template, pre.config.edges, found)
                    &&& region.inside(frame.width, frame.height)
                    &&& post2 == CycleView { phase: Phase::Move, region: Some(region), ..pre }
                    &&& answer2 == Ok::<Action, CycleError>(
                        Action::MovePointer { x: aim.0 as i64, y: aim.1 as i64 },
                    )
                };
            lemma_bobber_match_is_unique(frame, pre.template, pre.config.edges, found1, found2);
        }
    }
}

/// There is one place at which a template matches the edges of a frame best.
pub proof fn lemma_bobber_match_is_unique(
    frame: Grid<u8>,
    tpl: Grid<bool>,
    config: crate::edge_filter::EdgeConfig,
    first: MatchResult,
    second: MatchResult,
)
    requires
        frame.wf(),
        is_bobber_match(frame, tpl, config, first),
        is_bobber_match(frame, tpl, config, second),
    ensures
        first == second,
{
    let edges1 = choose|edges: Grid<bool>| #[trigger]
        is_edge_map_of(edges, frame, config) && crate::locator::is_best_match(
            edges,
            tpl,
            first.x as int,
            first.y as int,
        ) && crate::locator::is_score_ppm(
            first.score_ppm as int,
            crate::locator::rating(edges, tpl, first.x as int, first.y as int),
        );
    let edges2 = choose|edges: Grid<bool>| #[trigger]
        is_edge_map_of(edges, frame, config) && crate::locator::is_best_match(
            edges,
            tpl,
            second.x as int,
            second.y as int,
        ) && crate::locator::is_score_ppm(
            second.score_ppm as int,
            crate::locator::rating(edges, tpl, second.x as int, second.y as int),
        );
    lemma_edge_map_is_unique(edges1, edges2, frame, config);
    lemma_best_match_is_unique(
        edges1,
        tpl,
        first.x as int,
        first.y as int,
        second.x as int,
        second.y as int,
    );
    crate::locator_proofs::lemma_rating_den_is_positive(edges1, tpl, first.x as int, first.y as int);
    crate::locator_proofs::lemma_score_is_unique(
        crate::locator::rating(edges1, tpl, first.x as int, first.y as int),
        first.score_ppm as int,
        second.score_ppm as int,
    );
}

} // verus!
