//! The image loader's verdict, the game capability, and the frame loop.

use crate::bridge::{outcome_view, resolve_all, Resolution};
use crate::error::{EngineError, ErrorView};
use vstd::prelude::*;
use web_sys::{CanvasRenderingContext2d, HtmlImageElement};

verus! {

/// `web_sys::CanvasRenderingContext2d`, the drawing surface. Carried as an
/// opaque value from the host to the game.
#[verifier::external_type_specification]
#[verifier::external_body]
pub struct DrawingContext(CanvasRenderingContext2d);

/// `web_sys::HtmlImageElement`, the loaded resource. Carried as an opaque
/// value from the host to whoever asked for the load.
#[verifier::external_type_specification]
#[verifier::external_body]
pub struct ImageElement(HtmlImageElement);

/// What a load comes to once its outcome is known: the image itself on
/// success, and on failure an error that names the source and carries the
/// host's detail.
pub open spec fn load_verdict(
    source: Seq<char>,
    image: HtmlImageElement,
    outcome: Result<(), Seq<char>>,
) -> Result<HtmlImageElement, ErrorView> {
    match outcome {
        Ok(()) => Ok(image),
        Err(detail) => Err(ErrorView::LoadFailed { identifier: source, detail }),
    }
}

/// The value of a load's result: the image as it is, the error by its view.
pub open spec fn loaded_view(loaded: Result<HtmlImageElement, EngineError>) -> Result<
    HtmlImageElement,
    ErrorView,
> {
    match loaded {
        Ok(image) => Ok(image),
        Err(error) => Err(error@),
    }
}

/// Concludes the load of `image` from `source` with the outcome its pending
/// operation was completed with. The image is handed out only if the host
/// reported success.
pub fn load_image(source: &str, image: HtmlImageElement, outcome: Result<(), String>) -> (loaded:
    Result<HtmlImageElement, EngineError>)
    ensures
        loaded_view(loaded) == load_verdict(source@, image, outcome_view(outcome)),
{
    match outcome {
        Ok(()) => Ok(image),
        Err(detail) => Err(EngineError::LoadFailed { identifier: source.to_owned(), detail }),
    }
}

/// What the load of `image` from `source` has come to after a sequence of
/// resolver invocations on its fresh pending operation: nothing while the
/// slot is empty, then the verdict on the outcome in the slot.
pub open spec fn load_after(
    source: Seq<char>,
    image: HtmlImageElement,
    resolutions: Seq<Resolution>,
) -> Option<Result<HtmlImageElement, ErrorView>> {
    match resolve_all(None, resolutions) {
        None => None,
        Some(outcome) => Some(load_verdict(source, image, outcome)),
    }
}

/// Suspension: a load has no result before a resolver is invoked, and from
/// then on its result is decided by the first invocation: the image if that
/// was the success resolver, and `LoadFailed` with the source and the
/// supplied detail if it was the error resolver.
pub proof fn lemma_load_follows_first_resolution(
    source: Seq<char>,
    image: HtmlImageElement,
    resolutions: Seq<Resolution>,
)
    ensures
        load_after(source, image, resolutions) is None <==> resolutions.len() == 0,
        resolutions.len() > 0 && resolutions[0] is Success ==> load_after(
            source,
            image,
            resolutions,
        ) == Some(Ok::<HtmlImageElement, ErrorView>(image)),
        resolutions.len() > 0 && resolutions[0] is Failure ==> load_after(
            source,
            image,
            resolutions,
        ) == Some(
            Err::<HtmlImageElement, ErrorView>(
                ErrorView::LoadFailed { identifier: source, detail: resolutions[0]->Failure_0 },
            ),
        ),
{
    crate::bridge::lemma_first_resolution_wins(resolutions);
}

/// A playable unit: it can advance by one tick, and render its current state.
///
/// A game may say in `ticked_from` what one tick does to it; `update` then
/// has to do just that. The frame loop hands the promise on, so what a run of
/// frames leaves of a game follows from the game's own statement. A game that
/// says nothing promises nothing.
pub trait Game {
    /// Whether this state is what one tick makes of `before`.
    open spec fn ticked_from(&self, before: &Self) -> bool {
        true
    }

    /// Advances the game's state by one tick.
    fn update(&mut self)
        ensures
            final(self).ticked_from(old(self)),
    ;

    /// Renders the current state to the drawing surface.
    fn draw(&self, context: &CanvasRenderingContext2d);
}


/// The cell of a loop handle after `callback` is offered to it: an empty
/// cell takes the callback, a live one keeps its own.
pub open spec fn install<C>(cell: Option<C>, callback: C) -> Option<C> {
    match cell {
        None => Some(callback),
        Some(_) => cell,
    }
}

/// The cell after a sequence of callbacks is offered to it, in order.
pub open spec fn install_all<C>(cell: Option<C>, callbacks: Seq<C>) -> Option<C>
    decreases callbacks.len(),
{
    if callbacks.len() == 0 {
        cell
    } else {
        install_all(install(cell, callbacks[0]), callbacks.drop_first())
    }
}

/// The self-reference a rescheduling callback needs: a cell that is empty
/// until the callback is stored in it, and holds that callback from then on.
///
/// The cell is written once, before the first scheduling request, and only
/// read afterwards. Nothing empties it, so the loop can always find the
/// callback with which to request its next frame.
pub struct LoopHandle<C> {
    callback: Option<C>,
}

impl<C> View for LoopHandle<C> {
    type V = Option<C>;

    closed spec fn view(&self) -> Option<C> {
        self.callback
    }
}

impl<C> LoopHandle<C> {
    /// A handle with an empty cell.
    pub fn new() -> (handle: LoopHandle<C>)
        ensures
            handle@ is None,
    {
        LoopHandle { callback: None }
    }

    /// Whether the cell holds a callback.
    pub fn is_live(&self) -> (live: bool)
        ensures
            live == (self@ is Some),
    {
        self.callback.is_some()
    }

    /// Stores `callback` in an empty cell. A live cell keeps the callback it
    /// holds, and the one offered is handed back.
    pub fn install(&mut self, callback: C) -> (refused: Option<C>)
        ensures
            final(self)@ == install(old(self)@, callback),
            refused == (if old(self)@ is None {
                None
            } else {
                Some(callback)
            }),
    {
        if self.callback.is_none() {
            self.callback = Some(callback);
            None
        } else {
            Some(callback)
        }
    }

    /// The stored callback, with which a frame is requested. On an empty
    /// cell no request can be made: `SchedulingUnavailable`.
    pub fn callback(&self) -> (found: Result<&C, EngineError>)
        ensures
            match found {
                Ok(callback) => self@ == Some(*callback),
                Err(error) => self@ is None && error@ == ErrorView::SchedulingUnavailable,
            },
    {
        match &self.callback {
            Some(callback) => Ok(callback),
            None => Err(EngineError::SchedulingUnavailable),
        }
    }
}

/// A live handle stays live: whatever is offered to it later, the cell keeps
/// the callback it holds and never reverts to empty.
pub proof fn lemma_live_handle_keeps_its_callback<C>(cell: Option<C>, callbacks: Seq<C>)
    requires
        cell is Some,
    ensures
        install_all(cell, callbacks) == cell,
    decreases callbacks.len(),
{
    if callbacks.len() > 0 {
        lemma_live_handle_keeps_its_callback(cell, callbacks.drop_first());
    }
}

/// Where a frame loop stands in its cycle.
///
/// `AwaitingSurface` and `Rearming` are the two halves of the running state:
/// both lie inside a fired frame callback.
#[derive(Debug, Clone, Copy, PartialEq, Eq, Structural)]
pub enum Phase {
    /// Constructed; the first scheduling request has not been answered.
    Starting,
    /// A frame callback is requested and has not fired.
    Armed,
    /// Inside a fired callback: the game is updated, the surface is awaited.
    AwaitingSurface,
    /// Inside a fired callback: the frame is drawn, the answer to the next
    /// scheduling request is awaited.
    Rearming,
    /// Stopped for good.
    Halted,
}

/// What the host can tell a frame loop.
pub enum LoopEvent {
    /// The host answered the first scheduling request.
    Started { accepted: bool },
    /// The host fired the frame callback.
    FrameFired,
    /// The host answered the request for the drawing surface.
    SurfaceAnswered { obtained: bool },
    /// The host answered the scheduling request that re-arms the loop.
    Rearmed { accepted: bool },
}

/// What a frame loop does, or comes to hold, in response to an event.
#[derive(PartialEq, Eq, Structural)]
pub enum Effect {
    /// The host accepted a scheduling request, which the loop now holds.
    Request,
    /// The game was updated.
    Update,
    /// The game was drawn.
    Draw,
}

/// The phase that follows `phase` on `event`. An event that the phase does
/// not expect leaves it as it is.
pub open spec fn next(phase: Phase, event: LoopEvent) -> Phase {
    match (phase, event) {
        (Phase::Starting, LoopEvent::Started { accepted }) => if accepted {
            Phase::Armed
        } else {
            Phase::Halted
        },
        (Phase::Armed, LoopEvent::FrameFired) => Phase::AwaitingSurface,
        (Phase::AwaitingSurface, LoopEvent::SurfaceAnswered { obtained }) => if obtained {
            Phase::Rearming
        } else {
            Phase::Halted
        },
        (Phase::Rearming, LoopEvent::Rearmed { accepted }) => if accepted {
            Phase::Armed
        } else {
            Phase::Halted
        },
        _ => phase,
    }
}

/// What `event` brings about in `phase`, if anything.
pub open spec fn effect(phase: Phase, event: LoopEvent) -> Option<Effect> {
    match (phase, event) {
        (Phase::Starting, LoopEvent::Started { accepted: true }) => Some(Effect::Request),
        (Phase::Armed, LoopEvent::FrameFired) => Some(Effect::Update),
        (Phase::AwaitingSurface, LoopEvent::SurfaceAnswered { obtained: true }) => Some(
            Effect::Draw,
        ),
        (Phase::Rearming, LoopEvent::Rearmed { accepted: true }) => Some(Effect::Request),
        _ => None,
    }
}

/// What `start` returns in `phase` for the host's answer `request`: success
/// exactly when the answer arms a starting loop; otherwise the host's own
/// error, or `SchedulingUnavailable` where the host reported none.
pub open spec fn start_result(phase: Phase, request: Result<(), ErrorView>) -> Result<
    (),
    ErrorView,
> {
    match request {
        Ok(()) => if phase == Phase::Starting {
            Ok(())
        } else {
            Err(ErrorView::SchedulingUnavailable)
        },
        Err(error) => Err(error),
    }
}

/// The value of a host answer that carries nothing on success.
pub open spec fn answer_view(answer: Result<(), EngineError>) -> Result<(), ErrorView> {
    match answer {
        Ok(()) => Ok(()),
        Err(error) => Err(error@),
    }
}

/// How a step inside a frame ended.
#[derive(Debug, PartialEq, Eq)]
pub enum Step {
    /// The loop was not in the phase for this step: nothing was done.
    Ignored,
    /// The step was taken.
    Taken,
    /// The host reported this error, and the loop has stopped for good.
    Halted(EngineError),
}

/// The scheduler of a self-rescheduling frame loop.
///
/// The loop holds no host resource. Its caller issues the host calls, one at
/// a time, and reports each answer to the function for it: the first
/// scheduling request to [`GameLoop::start`]; then, for each fired callback,
/// [`GameLoop::begin_frame`], the drawing surface to
/// [`GameLoop::draw_frame`], and the next scheduling request to
/// [`GameLoop::rearm`]. A failure inside a frame stops the loop: the step
/// hands the host's error to the caller, and no later call does anything.
pub struct GameLoop {
    phase: Phase,
}

impl View for GameLoop {
    type V = Phase;

    closed spec fn view(&self) -> Phase {
        self.phase
    }
}

impl GameLoop {
    /// A loop that has not started: the caller now issues the first
    /// scheduling request and reports the answer to `start`.
    pub fn new() -> (scheduler: GameLoop)
        ensures
            scheduler@ == Phase::Starting,
    {
        GameLoop { phase: Phase::Starting }
    }

    /// The phase the loop is in.
    pub fn phase(&self) -> (phase: Phase)
        ensures
            phase == self@,
    {
        self.phase
    }

    /// Takes the host's answer to the first scheduling request. An accepted
    /// request arms a starting loop; a refused one stops it, and the host's
    /// error is returned.
    pub fn start(&mut self, request: Result<(), EngineError>) -> (started: Result<(), EngineError>)
        ensures
            final(self)@ == next(old(self)@, LoopEvent::Started { accepted: request is Ok }),
            answer_view(started) == start_result(old(self)@, answer_view(request)),
    {
        match request {
            Ok(()) => {
                if self.phase == Phase::Starting {
                    self.phase = Phase::Armed;
                    Ok(())
                } else {
                    Err(EngineError::SchedulingUnavailable)
                }
            },
            Err(error) => {
                if self.phase == Phase::Starting {
                    self.phase = Phase::Halted;
                }
                Err(error)
            },
        }
    }

    /// Takes a fired frame callback. On an armed loop this updates the game
    /// once and returns `true`: the caller now obtains the drawing surface
    /// and reports it to `draw_frame`. On any other loop nothing is done.
    pub fn begin_frame<G: Game>(&mut self, game: &mut G) -> (updated: bool)
        ensures
            final(self)@ == next(old(self)@, LoopEvent::FrameFired),
            updated == (effect(old(self)@, LoopEvent::FrameFired) == Some(Effect::Update)),
            updated ==> final(game).ticked_from(old(game)),
            !updated ==> *final(game) == *old(game),
    {
        if self.phase == Phase::Armed {
            game.update();
            self.phase = Phase::AwaitingSurface;
            true
        } else {
            false
        }
    }

    /// Takes the host's answer to the request for the drawing surface. On a
    /// loop that awaits it, a surface is drawn to once and the step is
    /// `Taken`: the caller now issues exactly one scheduling request and
    /// reports the answer to `rearm`. An error stops the loop.
    pub fn draw_frame<G: Game>(
        &mut self,
        game: &G,
        surface: Result<&CanvasRenderingContext2d, EngineError>,
    ) -> (step: Step)
        ensures
            final(self)@ == next(
                old(self)@,
                LoopEvent::SurfaceAnswered { obtained: surface is Ok },
            ),
            match step {
                Step::Ignored => old(self)@ != Phase::AwaitingSurface,
                Step::Taken => old(self)@ == Phase::AwaitingSurface && surface is Ok,
                Step::Halted(error) => old(self)@ == Phase::AwaitingSurface && surface is Err
                    && error@ == surface->Err_0@,
            },
    {
        if self.phase == Phase::AwaitingSurface {
            match surface {
                Ok(context) => {
                    game.draw(context);
                    self.phase = Phase::Rearming;
                    Step::Taken
                },
                Err(error) => {
                    self.phase = Phase::Halted;
                    Step::Halted(error)
                },
            }
        } else {
            Step::Ignored
        }
    }

    /// Takes the host's answer to the scheduling request that follows a drawn
    /// frame. On a loop that awaits it, an accepted request arms the loop for
    /// the next frame; a refused one stops the loop.
    pub fn rearm(&mut self, request: Result<(), EngineError>) -> (step: Step)
        ensures
            final(self)@ == next(old(self)@, LoopEvent::Rearmed { accepted: request is Ok }),
            match step {
                Step::Ignored => old(self)@ != Phase::Rearming,
                Step::Taken => old(self)@ == Phase::Rearming && request is Ok,
                Step::Halted(error) => old(self)@ == Phase::Rearming && request is Err
                    && error@ == request->Err_0@,
            },
    {
        if self.phase == Phase::Rearming {
            match request {
                Ok(()) => {
                    self.phase = Phase::Armed;
                    Step::Taken
                },
                Err(error) => {
                    self.phase = Phase::Halted;
                    Step::Halted(error)
                },
            }
        } else {
            Step::Ignored
        }
    }
}


/// A loop's phase together with everything it has done so far, in order.
pub struct History {
    pub phase: Phase,
    pub trace: Seq<Effect>,
}

/// The history of a loop that was just constructed.
pub open spec fn fresh() -> History {
    History { phase: Phase::Starting, trace: Seq::empty() }
}

/// The history after one more event.
pub open spec fn advance(history: History, event: LoopEvent) -> History {
    History {
        phase: next(history.phase, event),
        trace: match effect(history.phase, event) {
            Some(done) => history.trace.push(done),
            None => history.trace,
        },
    }
}

/// The history after a sequence of events, taken in order.
pub open spec fn run(history: History, events: Seq<LoopEvent>) -> History
    decreases events.len(),
{
    if events.len() == 0 {
        history
    } else {
        run(advance(history, events[0]), events.drop_first())
    }
}

/// How often `effect` occurs in `trace`.
pub open spec fn count(trace: Seq<Effect>, effect: Effect) -> nat
    decreases trace.len(),
{
    if trace.len() == 0 {
        0
    } else {
        count(trace.drop_last(), effect) + if trace.last() == effect {
            1nat
        } else {
            0nat
        }
    }
}

/// The scheduling requests a loop holds that have not fired yet: each
/// accepted request is held until the frame it asked for begins.
pub open spec fn outstanding(trace: Seq<Effect>) -> int {
    count(trace, Effect::Request) - count(trace, Effect::Update)
}

/// The events of `n` frames in which the host answers every request: the
/// callback fires, the surface is obtained, the next request is accepted.
pub open spec fn frames(n: nat) -> Seq<LoopEvent>
    decreases n,
{
    if n == 0 {
        Seq::empty()
    } else {
        frames((n - 1) as nat) + seq![
            LoopEvent::FrameFired,
            LoopEvent::SurfaceAnswered { obtained: true },
            LoopEvent::Rearmed { accepted: true },
        ]
    }
}

/// Whether the entry of `trace` at `i` has an `Update` directly before it.
pub open spec fn follows_update(trace: Seq<Effect>, i: int) -> bool {
    0 < i < trace.len() && trace[i - 1] == Effect::Update
}

/// Every `Draw` in `trace` directly follows an `Update`.
pub open spec fn draws_follow_updates(trace: Seq<Effect>) -> bool {
    forall|i: int|
        0 <= i < trace.len() && trace[i] == Effect::Draw ==> #[trigger] follows_update(trace, i)
}

spec fn consistent(history: History) -> bool {
    let requests = count(history.trace, Effect::Request);
    let updates = count(history.trace, Effect::Update);
    let draws = count(history.trace, Effect::Draw);
    &&& draws_follow_updates(history.trace)
    &&& match history.phase {
        Phase::Starting => history.trace.len() == 0,
        Phase::Armed => requests == updates + 1 && updates == draws,
        Phase::AwaitingSurface => requests == updates && updates == draws + 1
            && history.trace.len() > 0 && history.trace.last() == Effect::Update,
        Phase::Rearming => requests == updates && updates == draws,
        Phase::Halted => requests == updates && draws <= updates <= draws + 1,
    }
}

proof fn lemma_count_push(trace: Seq<Effect>, done: Effect, effect: Effect)
    ensures
        count(trace.push(done), effect) == count(trace, effect) + if done == effect {
            1nat
        } else {
            0nat
        },
{
    assert(trace.push(done).drop_last() =~= trace);
}

proof fn lemma_advance_keeps_consistency(history: History, event: LoopEvent)
    requires
        consistent(history),
    ensures
        consistent(advance(history, event)),
{
    match effect(history.phase, event) {
        Some(done) => {
            let before = history.trace;
            let after = before.push(done);
            lemma_count_push(before, done, Effect::Request);
            lemma_count_push(before, done, Effect::Update);
            lemma_count_push(before, done, Effect::Draw);
            assert forall|i: int| 0 <= i < after.len() && after[i] == Effect::Draw implies #[trigger] follows_update(
                after,
                i,
            ) by {
                if i < before.len() {
                    assert(before[i] == after[i]);
                    assert(follows_update(before, i));
                    assert(before[i - 1] == after[i - 1]);
                } else {
                    assert(done == Effect::Draw);
                    assert(before.last() == after[i - 1]);
                }
            }
        },
        None => {},
    }
}

proof fn lemma_run_keeps_consistency(history: History, events: Seq<LoopEvent>)
    requires
        consistent(history),
    ensures
        consistent(run(history, events)),
    decreases events.len(),
{
    if events.len() > 0 {
        lemma_advance_keeps_consistency(history, events[0]);
        lemma_run_keeps_consistency(advance(history, events[0]), events.drop_first());
    }
}

/// Running two sequences of events one after the other is running their
/// concatenation.
pub proof fn lemma_run_concat(history: History, first: Seq<LoopEvent>, second: Seq<LoopEvent>)
    ensures
        run(history, first + second) == run(run(history, first), second),
    decreases first.len(),
{
    if first.len() == 0 {
        assert(first + second =~= second);
    } else {
        assert((first + second)[0] == first[0]);
        assert((first + second).drop_first() =~= first.drop_first() + second);
        lemma_run_concat(advance(history, first[0]), first.drop_first(), second);
    }
}

/// Frame ordering: whatever the host does, a loop never draws without having
/// updated directly before, and it has drawn as often as it has updated, or
/// once less while a frame is under way.
pub proof fn lemma_update_precedes_draw(events: Seq<LoopEvent>)
    ensures
        ({
            let history = run(fresh(), events);
            let updates = count(history.trace, Effect::Update);
            let draws = count(history.trace, Effect::Draw);
            &&& draws_follow_updates(history.trace)
            &&& draws <= updates <= draws + 1
            &&& history.phase == Phase::Armed || history.phase == Phase::Rearming ==> updates
                == draws
        }),
{
    assert(consistent(fresh()));
    lemma_run_keeps_consistency(fresh(), events);
}

/// Single outstanding request: whatever the host does, a loop holds at most
/// one scheduling request that has not fired, and it holds one exactly while
/// it is armed.
pub proof fn lemma_single_outstanding_request(events: Seq<LoopEvent>)
    ensures
        ({
            let history = run(fresh(), events);
            &&& 0 <= outstanding(history.trace) <= 1
            &&& outstanding(history.trace) == 1 <==> history.phase == Phase::Armed
        }),
{
    assert(consistent(fresh()));
    lemma_run_keeps_consistency(fresh(), events);
}

/// A loop that has stopped does nothing more, whatever the host does.
pub proof fn lemma_halted_loop_stays_halted(history: History, events: Seq<LoopEvent>)
    requires
        history.phase == Phase::Halted,
    ensures
        run(history, events) == history,
    decreases events.len(),
{
    if events.len() > 0 {
        assert(advance(history, events[0]) == history);
        lemma_halted_loop_stays_halted(history, events.drop_first());
    }
}

/// Initial failure: if the host refuses the first scheduling request, the
/// loop is stopped and, whatever the host does afterwards, it never updates,
/// draws, or holds a request.
pub proof fn lemma_failed_start_runs_no_frame(events: Seq<LoopEvent>)
    ensures
        run(fresh(), seq![LoopEvent::Started { accepted: false }] + events) == (History {
            phase: Phase::Halted,
            trace: Seq::empty(),
        }),
{
    let refusal = seq![LoopEvent::Started { accepted: false }];
    let halted = History { phase: Phase::Halted, trace: Seq::empty() };
    lemma_run_concat(fresh(), refusal, events);
    assert(refusal.drop_first() =~= Seq::<LoopEvent>::empty());
    assert(run(fresh(), refusal) == run(advance(fresh(), refusal[0]), refusal.drop_first()));
    assert(advance(fresh(), refusal[0]) == halted);
    lemma_halted_loop_stays_halted(halted, events);
}

/// Frame counting: after a successful start and `n` frames in which the host
/// answers every request, the game was updated exactly `n` times and drawn
/// exactly `n` times, and the loop is armed for frame `n + 1`.
pub proof fn lemma_each_frame_updates_and_draws_once(n: nat)
    ensures
        ({
            let history = run(fresh(), seq![LoopEvent::Started { accepted: true }] + frames(n));
            &&& history.phase == Phase::Armed
            &&& count(history.trace, Effect::Update) == n
            &&& count(history.trace, Effect::Draw) == n
            &&& count(history.trace, Effect::Request) == n + 1
        }),
    decreases n,
{
    let start = seq![LoopEvent::Started { accepted: true }];
    if n == 0 {
        assert(start + frames(0) =~= start);
        assert(start.drop_first() =~= Seq::<LoopEvent>::empty());
        let armed = advance(fresh(), start[0]);
        assert(run(fresh(), start) == run(armed, start.drop_first()));
        assert(armed.trace =~= seq![Effect::Request]);
        lemma_count_push(Seq::empty(), Effect::Request, Effect::Request);
        lemma_count_push(Seq::empty(), Effect::Request, Effect::Update);
        lemma_count_push(Seq::empty(), Effect::Request, Effect::Draw);
    } else {
        let earlier = frames((n - 1) as nat);
        let frame = seq![
            LoopEvent::FrameFired,
            LoopEvent::SurfaceAnswered { obtained: true },
            LoopEvent::Rearmed { accepted: true },
        ];
        lemma_each_frame_updates_and_draws_once((n - 1) as nat);
        assert(start + frames(n) =~= (start + earlier) + frame);
        lemma_run_concat(fresh(), start + earlier, frame);
        let before = run(fresh(), start + earlier);
        lemma_frame_from_armed(before);
    }
}

proof fn lemma_frame_from_armed(before: History)
    requires
        before.phase == Phase::Armed,
    ensures
        ({
            let after = run(
                before,
                seq![
                    LoopEvent::FrameFired,
                    LoopEvent::SurfaceAnswered { obtained: true },
                    LoopEvent::Rearmed { accepted: true },
                ],
            );
            &&& after.phase == Phase::Armed
            &&& after.trace == before.trace.push(Effect::Update).push(Effect::Draw).push(
                Effect::Request,
            )
            &&& count(after.trace, Effect::Update) == count(before.trace, Effect::Update) + 1
            &&& count(after.trace, Effect::Draw) == count(before.trace, Effect::Draw) + 1
            &&& count(after.trace, Effect::Request) == count(before.trace, Effect::Request) + 1
        }),
{
    let frame = seq![
        LoopEvent::FrameFired,
        LoopEvent::SurfaceAnswered { obtained: true },
        LoopEvent::Rearmed { accepted: true },
    ];
    let updated = advance(before, frame[0]);
    let drawn = advance(updated, frame[1]);
    let rearmed = advance(drawn, frame[2]);
    let rest1 = frame.drop_first();
    let rest2 = rest1.drop_first();
    let rest3 = rest2.drop_first();
    assert(rest1[0] == frame[1]);
    assert(rest2[0] == frame[2]);
    assert(rest3.len() == 0);
    assert(run(before, frame) == run(updated, rest1));
    assert(run(updated, rest1) == run(drawn, rest2));
    assert(run(drawn, rest2) == run(rearmed, rest3));
    assert(run(rearmed, rest3) == rearmed);
    let t0 = before.trace;
    let t1 = t0.push(Effect::Update);
    let t2 = t1.push(Effect::Draw);
    lemma_count_push(t0, Effect::Update, Effect::Update);
    lemma_count_push(t0, Effect::Update, Effect::Draw);
    lemma_count_push(t0, Effect::Update, Effect::Request);
    lemma_count_push(t1, Effect::Draw, Effect::Update);
    lemma_count_push(t1, Effect::Draw, Effect::Draw);
    lemma_count_push(t1, Effect::Draw, Effect::Request);
    lemma_count_push(t2, Effect::Request, Effect::Update);
    lemma_count_push(t2, Effect::Request, Effect::Draw);
    lemma_count_push(t2, Effect::Request, Effect::Request);
}

} // verus!
