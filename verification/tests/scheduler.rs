use frame_engine::engine::{Game, GameLoop, LoopHandle, Phase, Step};
use frame_engine::error::EngineError;
use std::cell::RefCell;
use wasm_bindgen::{JsCast, JsValue};
use web_sys::CanvasRenderingContext2d;

/// A game that writes down each call it receives.
struct Recorder {
    calls: RefCell<Vec<&'static str>>,
}

impl Recorder {
    fn new() -> Recorder {
        Recorder { calls: RefCell::new(Vec::new()) }
    }

    fn calls(&self) -> Vec<&'static str> {
        self.calls.borrow().clone()
    }

    fn count(&self, call: &str) -> usize {
        self.calls.borrow().iter().filter(|seen| **seen == call).count()
    }
}

impl Game for Recorder {
    fn update(&mut self) {
        self.calls.borrow_mut().push("update");
    }

    fn draw(&self, _context: &CanvasRenderingContext2d) {
        self.calls.borrow_mut().push("draw");
    }
}

/// A host that counts the scheduling requests it holds, and fails on demand.
struct SimulatedHost {
    outstanding: u32,
    accepted: u32,
    refuse_request: Option<u32>,
    lose_surface_in_frame: Option<u32>,
    frames_fired: u32,
}

impl SimulatedHost {
    fn new() -> SimulatedHost {
        SimulatedHost {
            outstanding: 0,
            accepted: 0,
            refuse_request: None,
            lose_surface_in_frame: None,
            frames_fired: 0,
        }
    }

    fn request_next_frame(&mut self) -> Result<(), EngineError> {
        assert_eq!(self.outstanding, 0, "a request was issued while another was unresolved");
        if self.refuse_request == Some(self.accepted) {
            return Err(EngineError::SchedulingUnavailable);
        }
        self.accepted += 1;
        self.outstanding += 1;
        Ok(())
    }

    fn get_drawing_surface(&self) -> Result<CanvasRenderingContext2d, EngineError> {
        if self.lose_surface_in_frame == Some(self.frames_fired) {
            Err(EngineError::SurfaceUnavailable)
        } else {
            Ok(JsValue::NULL.unchecked_into::<CanvasRenderingContext2d>())
        }
    }

    /// Fires the frame callback if a request is outstanding, running one
    /// frame of the loop the way the callback does. Returns whether it fired.
    fn fire(&mut self, scheduler: &mut GameLoop, game: &mut Recorder) -> bool {
        if self.outstanding == 0 {
            return false;
        }
        self.outstanding -= 1;
        self.frames_fired += 1;
        if !scheduler.begin_frame(game) {
            return true;
        }
        let surface = self.get_drawing_surface();
        let step = match &surface {
            Ok(context) => scheduler.draw_frame(game, Ok(context)),
            Err(error) => scheduler.draw_frame(game, Err(error.clone())),
        };
        if step == Step::Taken {
            let answer = self.request_next_frame();
            scheduler.rearm(answer);
        }
        true
    }
}

fn started(host: &mut SimulatedHost) -> (GameLoop, Result<(), EngineError>) {
    let mut scheduler = GameLoop::new();
    let answer = host.request_next_frame();
    let result = scheduler.start(answer);
    (scheduler, result)
}

#[test]
fn new_loop_is_starting() {
    assert_eq!(GameLoop::new().phase(), Phase::Starting);
}

#[test]
fn accepted_first_request_arms_the_loop() {
    let mut host = SimulatedHost::new();
    let (scheduler, result) = started(&mut host);
    assert_eq!(result, Ok(()));
    assert_eq!(scheduler.phase(), Phase::Armed);
    assert_eq!(host.outstanding, 1);
}

#[test]
fn n_frames_update_and_draw_n_times_in_order() {
    let mut host = SimulatedHost::new();
    let mut game = Recorder::new();
    let (mut scheduler, result) = started(&mut host);
    assert_eq!(result, Ok(()));
    let frames = 25;
    for _ in 0..frames {
        assert!(host.fire(&mut scheduler, &mut game));
        assert_eq!(scheduler.phase(), Phase::Armed);
    }
    assert_eq!(game.count("update"), frames);
    assert_eq!(game.count("draw"), frames);
    let calls = game.calls();
    assert_eq!(calls.len(), 2 * frames);
    for frame in 0..frames {
        assert_eq!(calls[2 * frame], "update");
        assert_eq!(calls[2 * frame + 1], "draw");
    }
}

#[test]
fn zero_frames_call_nothing() {
    let mut host = SimulatedHost::new();
    let game = Recorder::new();
    let (scheduler, _) = started(&mut host);
    assert_eq!(scheduler.phase(), Phase::Armed);
    assert!(game.calls().is_empty());
}

#[test]
fn at_most_one_request_is_ever_outstanding() {
    let mut host = SimulatedHost::new();
    let mut game = Recorder::new();
    let (mut scheduler, _) = started(&mut host);
    for _ in 0..10 {
        assert_eq!(host.outstanding, 1);
        host.fire(&mut scheduler, &mut game);
    }
    assert_eq!(host.outstanding, 1);
    assert_eq!(host.accepted, 11);
    assert_eq!(host.frames_fired, 10);
}

#[test]
fn refused_first_request_is_returned_and_no_frame_runs() {
    let mut host = SimulatedHost::new();
    host.refuse_request = Some(0);
    let mut game = Recorder::new();
    let (mut scheduler, result) = started(&mut host);
    assert_eq!(result, Err(EngineError::SchedulingUnavailable));
    assert_eq!(scheduler.phase(), Phase::Halted);
    assert!(!host.fire(&mut scheduler, &mut game));
    assert!(!scheduler.begin_frame(&mut game));
    assert_eq!(scheduler.draw_frame(&game, Err(EngineError::SurfaceUnavailable)), Step::Ignored);
    assert_eq!(scheduler.rearm(Ok(())), Step::Ignored);
    assert_eq!(scheduler.phase(), Phase::Halted);
    assert!(game.calls().is_empty());
}

#[test]
fn start_returns_the_error_the_host_gave() {
    let mut scheduler = GameLoop::new();
    let refused = EngineError::LoadFailed {
        identifier: String::from("scheduler"),
        detail: String::from("no animation frames here"),
    };
    assert_eq!(scheduler.start(Err(refused.clone())), Err(refused));
    assert_eq!(scheduler.phase(), Phase::Halted);
}

#[test]
fn second_start_is_refused_and_changes_nothing() {
    let mut scheduler = GameLoop::new();
    assert_eq!(scheduler.start(Ok(())), Ok(()));
    assert_eq!(scheduler.start(Ok(())), Err(EngineError::SchedulingUnavailable));
    assert_eq!(scheduler.phase(), Phase::Armed);
    assert_eq!(
        scheduler.start(Err(EngineError::SurfaceUnavailable)),
        Err(EngineError::SurfaceUnavailable)
    );
    assert_eq!(scheduler.phase(), Phase::Armed);
}

#[test]
fn start_on_a_halted_loop_does_not_revive_it() {
    let mut scheduler = GameLoop::new();
    assert!(scheduler.start(Err(EngineError::SchedulingUnavailable)).is_err());
    assert_eq!(scheduler.start(Ok(())), Err(EngineError::SchedulingUnavailable));
    assert_eq!(scheduler.phase(), Phase::Halted);
}

#[test]
fn lost_surface_halts_the_loop_after_the_update() {
    let mut host = SimulatedHost::new();
    host.lose_surface_in_frame = Some(3);
    let mut game = Recorder::new();
    let (mut scheduler, _) = started(&mut host);
    for _ in 0..2 {
        host.fire(&mut scheduler, &mut game);
    }
    assert_eq!(scheduler.phase(), Phase::Armed);
    assert!(host.fire(&mut scheduler, &mut game));
    assert_eq!(scheduler.phase(), Phase::Halted);
    assert_eq!(game.count("update"), 3);
    assert_eq!(game.count("draw"), 2);
    assert_eq!(host.outstanding, 0);
    assert!(!host.fire(&mut scheduler, &mut game));
    assert_eq!(game.calls().len(), 5);
}

#[test]
fn draw_frame_hands_back_the_surface_error() {
    let mut game = Recorder::new();
    let mut scheduler = GameLoop::new();
    scheduler.start(Ok(())).unwrap();
    assert!(scheduler.begin_frame(&mut game));
    assert_eq!(scheduler.phase(), Phase::AwaitingSurface);
    assert_eq!(
        scheduler.draw_frame(&game, Err(EngineError::SurfaceUnavailable)),
        Step::Halted(EngineError::SurfaceUnavailable)
    );
    assert_eq!(scheduler.phase(), Phase::Halted);
    assert_eq!(game.calls(), vec!["update"]);
}

#[test]
fn refused_rearm_halts_the_loop_after_the_draw() {
    let mut host = SimulatedHost::new();
    host.refuse_request = Some(2);
    let mut game = Recorder::new();
    let (mut scheduler, result) = started(&mut host);
    assert_eq!(result, Ok(()));
    host.fire(&mut scheduler, &mut game);
    assert_eq!(scheduler.phase(), Phase::Armed);
    host.fire(&mut scheduler, &mut game);
    assert_eq!(scheduler.phase(), Phase::Halted);
    assert_eq!(game.calls(), vec!["update", "draw", "update", "draw"]);
    assert_eq!(host.outstanding, 0);
    assert!(!scheduler.begin_frame(&mut game));
}

#[test]
fn rearm_hands_back_the_scheduling_error() {
    let mut game = Recorder::new();
    let context = JsValue::NULL.unchecked_into::<CanvasRenderingContext2d>();
    let mut scheduler = GameLoop::new();
    scheduler.start(Ok(())).unwrap();
    assert!(scheduler.begin_frame(&mut game));
    assert_eq!(scheduler.draw_frame(&game, Ok(&context)), Step::Taken);
    assert_eq!(scheduler.phase(), Phase::Rearming);
    assert_eq!(
        scheduler.rearm(Err(EngineError::SchedulingUnavailable)),
        Step::Halted(EngineError::SchedulingUnavailable)
    );
    assert_eq!(scheduler.phase(), Phase::Halted);
}

#[test]
fn spurious_frame_is_ignored() {
    let mut game = Recorder::new();
    let context = JsValue::NULL.unchecked_into::<CanvasRenderingContext2d>();
    let mut scheduler = GameLoop::new();
    assert!(!scheduler.begin_frame(&mut game));
    assert_eq!(scheduler.phase(), Phase::Starting);
    scheduler.start(Ok(())).unwrap();
    assert!(scheduler.begin_frame(&mut game));
    assert!(!scheduler.begin_frame(&mut game));
    assert_eq!(scheduler.phase(), Phase::AwaitingSurface);
    assert_eq!(scheduler.draw_frame(&game, Ok(&context)), Step::Taken);
    assert!(!scheduler.begin_frame(&mut game));
    assert_eq!(game.calls(), vec!["update", "draw"]);
}

#[test]
fn steps_out_of_turn_are_ignored() {
    let game = Recorder::new();
    let context = JsValue::NULL.unchecked_into::<CanvasRenderingContext2d>();
    let mut scheduler = GameLoop::new();
    assert_eq!(scheduler.draw_frame(&game, Ok(&context)), Step::Ignored);
    assert_eq!(scheduler.rearm(Ok(())), Step::Ignored);
    assert_eq!(scheduler.phase(), Phase::Starting);
    scheduler.start(Ok(())).unwrap();
    assert_eq!(scheduler.draw_frame(&game, Ok(&context)), Step::Ignored);
    assert_eq!(scheduler.rearm(Err(EngineError::SchedulingUnavailable)), Step::Ignored);
    assert_eq!(scheduler.phase(), Phase::Armed);
    assert!(game.calls().is_empty());
}

#[test]
fn empty_handle_has_no_callback() {
    let handle: LoopHandle<u32> = LoopHandle::new();
    assert!(!handle.is_live());
    assert_eq!(handle.callback(), Err(EngineError::SchedulingUnavailable));
}

#[test]
fn installed_callback_is_found() {
    let mut handle: LoopHandle<String> = LoopHandle::new();
    assert_eq!(handle.install(String::from("frame")), None);
    assert!(handle.is_live());
    assert_eq!(handle.callback(), Ok(&String::from("frame")));
}

#[test]
fn live_handle_keeps_its_first_callback() {
    let mut handle: LoopHandle<u32> = LoopHandle::new();
    assert_eq!(handle.install(1), None);
    assert_eq!(handle.install(2), Some(2));
    assert_eq!(handle.install(3), Some(3));
    assert!(handle.is_live());
    assert_eq!(handle.callback(), Ok(&1));
}

/// A game that counts its ticks and shows the count on each draw.
struct Counting {
    ticks: u32,
    shown: RefCell<Vec<u32>>,
}

impl Game for Counting {
    fn update(&mut self) {
        self.ticks += 1;
    }

    fn draw(&self, _context: &CanvasRenderingContext2d) {
        self.shown.borrow_mut().push(self.ticks);
    }
}

#[test]
fn three_frames_tick_a_counting_game_three_times() {
    let context = JsValue::NULL.unchecked_into::<CanvasRenderingContext2d>();
    let mut game = Counting { ticks: 0, shown: RefCell::new(Vec::new()) };
    let mut scheduler = GameLoop::new();
    assert_eq!(scheduler.start(Ok(())), Ok(()));
    assert_eq!(game.ticks, 0);
    assert!(game.shown.borrow().is_empty());
    for _ in 0..3 {
        assert!(scheduler.begin_frame(&mut game));
        assert_eq!(scheduler.draw_frame(&game, Ok(&context)), Step::Taken);
        assert_eq!(scheduler.rearm(Ok(())), Step::Taken);
    }
    assert_eq!(game.ticks, 3);
    assert_eq!(*game.shown.borrow(), vec![1, 2, 3]);
}

#[test]
fn frame_on_an_unarmed_loop_leaves_the_game_alone() {
    let mut game = Counting { ticks: 7, shown: RefCell::new(Vec::new()) };
    let mut scheduler = GameLoop::new();
    assert!(!scheduler.begin_frame(&mut game));
    assert!(scheduler.start(Err(EngineError::SchedulingUnavailable)).is_err());
    assert!(!scheduler.begin_frame(&mut game));
    assert_eq!(game.ticks, 7);
    assert!(game.shown.borrow().is_empty());
}
