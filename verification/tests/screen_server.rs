use std::cell::RefCell;
use std::rc::Rc;

use wxpg::engine::EngineInternal;
use wxpg::engine::PhysicalSize;
use wxpg::modules::commands::Command;
use wxpg::modules::commands::Commands;
use wxpg::modules::screen_server::GameState;
use wxpg::modules::screen_server::ScreenServer;
use wxpg::screens::screen::Screen;

type Log = Rc<RefCell<Vec<String>>>;

/// A screen that writes down every callback it gets and, if told so, asks
/// for a transition or queues a mutation in one of them.
struct Probe {
    name: &'static str,
    log: Log,
    request_on: Option<(&'static str, GameState)>,
    second_request: Option<GameState>,
    queue_on: Option<&'static str>,
}

struct Note {
    text: String,
    log: Log,
}

impl Command<u32> for Note {
    fn effect(&self, before: EngineInternal<u32>) -> EngineInternal<u32> {
        let mut after = before;
        after.platform += 1;
        after
    }

    fn apply(&self, engine_internal: &mut EngineInternal<u32>) {
        engine_internal.platform += 1;
        self.log.borrow_mut().push(format!("{}@{}", self.text, engine_internal.platform));
    }
}

impl Probe {
    fn new(name: &'static str, log: &Log) -> Probe {
        Probe { name, log: log.clone(), request_on: None, second_request: None, queue_on: None }
    }

    fn requesting(mut self, cycle: &'static str, state: GameState) -> Probe {
        self.request_on = Some((cycle, state));
        self
    }

    fn then_requesting(mut self, state: GameState) -> Probe {
        self.second_request = Some(state);
        self
    }

    fn queueing(mut self, cycle: &'static str) -> Probe {
        self.queue_on = Some(cycle);
        self
    }

    fn called(&mut self, cycle: &'static str, commands: &mut Commands<u32>) {
        self.log.borrow_mut().push(format!("{}:{}", self.name, cycle));
        if let Some((on, state)) = self.request_on {
            if on == cycle {
                commands.set_state(state);
                if let Some(second) = self.second_request {
                    commands.set_state(second);
                }
            }
        }
        if self.queue_on == Some(cycle) {
            commands.add(Note { text: format!("{}:{}:queued", self.name, cycle), log: self.log.clone() });
        }
    }
}

impl Screen<u32> for Probe {
    fn start(&mut self, commands: &mut Commands<u32>, _engine_internal: &mut EngineInternal<u32>) {
        self.called("start", commands);
    }

    fn ui(&mut self, commands: &mut Commands<u32>, _engine_internal: &mut EngineInternal<u32>) {
        self.called("ui", commands);
    }

    fn draw(&mut self, commands: &mut Commands<u32>, _engine_internal: &mut EngineInternal<u32>) {
        self.called("draw", commands);
    }

    fn update(&mut self, commands: &mut Commands<u32>, _engine_internal: &mut EngineInternal<u32>) {
        self.called("update", commands);
    }
}

/// A screen that implements nothing.
struct Silent;

impl Screen<u32> for Silent {}

fn internal() -> EngineInternal<u32> {
    EngineInternal::new(PhysicalSize { width: 800, height: 600 }, 0)
}

fn log() -> Log {
    Rc::new(RefCell::new(Vec::new()))
}

fn taken(log: &Log) -> Vec<String> {
    log.borrow_mut().drain(..).collect()
}

#[test]
fn a_new_server_is_in_the_default_state_with_a_transition_pending() {
    let server: ScreenServer<u32> = ScreenServer::default();
    assert_eq!(GameState::default(), GameState::Menu);
    assert_eq!(server.state(), GameState::Menu);
    assert!(server.should_state_change());
    assert_eq!(server.screen_count(GameState::Menu), 0);
    assert_eq!(server.screen_count(GameState::Game), 0);
}

#[test]
fn update_state_applies_the_pending_transition() {
    let mut server: ScreenServer<u32> = ScreenServer::default();
    let mut commands = Commands::new();
    commands.set_state(GameState::Game);
    server.apply_commands(&mut commands, &mut internal());
    assert!(server.should_state_change());
    assert_eq!(server.state(), GameState::Menu);
    server.update_state();
    assert_eq!(server.state(), GameState::Game);
    assert!(!server.should_state_change());
}

#[test]
fn register_screen_counts_per_state() {
    let log = log();
    let mut server: ScreenServer<u32> = ScreenServer::default();
    server.register_screen(GameState::Game, Probe::new("a", &log));
    assert_eq!(server.screen_count(GameState::Game), 1);
    assert_eq!(server.screen_count(GameState::Menu), 0);
    server.register_screen(GameState::Menu, Probe::new("b", &log));
    server.register_screen(GameState::Game, Probe::new("c", &log));
    assert_eq!(server.screen_count(GameState::Game), 2);
    assert_eq!(server.screen_count(GameState::Menu), 1);
    assert_eq!(server.state(), GameState::Menu);
    assert!(taken(&log).is_empty());
}

#[test]
fn the_first_update_starts_the_initial_state_then_updates_it() {
    let log = log();
    let mut server = ScreenServer::default();
    server.register_screen(GameState::Menu, Probe::new("menu", &log));
    server.update(&mut internal());
    assert_eq!(taken(&log), vec!["menu:start", "menu:update"]);
    assert_eq!(server.state(), GameState::Menu);
    assert!(!server.should_state_change());
}

#[test]
fn start_is_not_repeated_while_the_state_stays() {
    let log = log();
    let mut server = ScreenServer::default();
    server.register_screen(GameState::Menu, Probe::new("menu", &log));
    let mut context = internal();
    server.update(&mut context);
    taken(&log);
    server.update(&mut context);
    server.draw(&mut context);
    server.update(&mut context);
    assert_eq!(taken(&log), vec!["menu:update", "menu:draw", "menu:ui", "menu:update"]);
}

#[test]
fn draw_consumes_the_pending_transition_when_it_runs_first() {
    let log = log();
    let mut server = ScreenServer::default();
    server.register_screen(GameState::Menu, Probe::new("menu", &log));
    let mut context = internal();
    server.draw(&mut context);
    assert_eq!(taken(&log), vec!["menu:start", "menu:draw", "menu:ui"]);
    server.update(&mut context);
    assert_eq!(taken(&log), vec!["menu:update"]);
}

#[test]
fn screens_are_called_in_registration_order_and_draw_comes_before_ui() {
    let log = log();
    let mut server = ScreenServer::default();
    server.register_screen(GameState::Menu, Probe::new("first", &log));
    server.register_screen(GameState::Game, Probe::new("other", &log));
    server.register_screen(GameState::Menu, Probe::new("second", &log));
    server.register_screen(GameState::Menu, Probe::new("third", &log));
    let mut context = internal();
    server.draw(&mut context);
    assert_eq!(
        taken(&log),
        vec![
            "first:start",
            "second:start",
            "third:start",
            "first:draw",
            "second:draw",
            "third:draw",
            "first:ui",
            "second:ui",
            "third:ui",
        ]
    );
}

#[test]
fn a_screen_registered_for_the_current_state_is_called_once_per_cycle() {
    let log = log();
    let mut server = ScreenServer::default();
    server.register_screen(GameState::Menu, Probe::new("old", &log));
    let mut context = internal();
    server.update(&mut context);
    taken(&log);
    server.register_screen(GameState::Menu, Probe::new("new", &log));
    server.update(&mut context);
    assert_eq!(taken(&log), vec!["old:update", "new:update"]);
    server.draw(&mut context);
    assert_eq!(taken(&log), vec!["old:draw", "new:draw", "old:ui", "new:ui"]);
}

#[test]
fn a_requested_transition_is_applied_by_the_next_call_and_starts_the_new_state_once() {
    let log = log();
    let mut server = ScreenServer::default();
    server.register_screen(
        GameState::Menu,
        Probe::new("menu", &log).requesting("update", GameState::Game),
    );
    server.register_screen(GameState::Game, Probe::new("game", &log));
    let mut context = internal();
    server.update(&mut context);
    assert_eq!(taken(&log), vec!["menu:start", "menu:update"]);
    assert_eq!(server.state(), GameState::Menu);
    assert!(server.should_state_change());
    server.draw(&mut context);
    assert_eq!(taken(&log), vec!["game:start", "game:draw", "game:ui"]);
    assert_eq!(server.state(), GameState::Game);
    assert!(!server.should_state_change());
    server.update(&mut context);
    server.draw(&mut context);
    assert_eq!(taken(&log), vec!["game:update", "game:draw", "game:ui"]);
}

#[test]
fn only_the_last_of_two_requests_in_one_cycle_is_honoured() {
    let log = log();
    let mut server = ScreenServer::default();
    server.register_screen(
        GameState::Menu,
        Probe::new("menu", &log).requesting("update", GameState::Menu).then_requesting(
            GameState::Game,
        ),
    );
    server.register_screen(GameState::Game, Probe::new("game", &log));
    let mut context = internal();
    server.update(&mut context);
    taken(&log);
    server.update(&mut context);
    assert_eq!(server.state(), GameState::Game);
    assert_eq!(taken(&log), vec!["game:start", "game:update"]);
}

#[test]
fn the_request_of_a_later_screen_replaces_that_of_an_earlier_one() {
    let log = log();
    let mut server = ScreenServer::default();
    server.register_screen(
        GameState::Menu,
        Probe::new("first", &log).requesting("update", GameState::Game),
    );
    server.register_screen(
        GameState::Menu,
        Probe::new("second", &log).requesting("update", GameState::Menu),
    );
    server.register_screen(GameState::Game, Probe::new("game", &log));
    let mut context = internal();
    server.update(&mut context);
    taken(&log);
    server.update(&mut context);
    assert_eq!(server.state(), GameState::Menu);
    assert_eq!(
        taken(&log),
        vec!["first:start", "second:start", "first:update", "second:update"]
    );
}

#[test]
fn a_request_made_while_starting_survives_the_cycle_that_follows() {
    let log = log();
    let mut server = ScreenServer::default();
    server.register_screen(
        GameState::Menu,
        Probe::new("menu", &log).requesting("start", GameState::Game),
    );
    server.register_screen(GameState::Game, Probe::new("game", &log));
    let mut context = internal();
    server.update(&mut context);
    assert_eq!(taken(&log), vec!["menu:start", "menu:update"]);
    assert!(server.should_state_change());
    server.update(&mut context);
    assert_eq!(server.state(), GameState::Game);
    assert_eq!(taken(&log), vec!["game:start", "game:update"]);
}

#[test]
fn a_request_made_while_drawing_survives_the_ui_cycle() {
    let log = log();
    let mut server = ScreenServer::default();
    server.register_screen(
        GameState::Menu,
        Probe::new("menu", &log).requesting("draw", GameState::Game),
    );
    let mut context = internal();
    server.draw(&mut context);
    assert_eq!(taken(&log), vec!["menu:start", "menu:draw", "menu:ui"]);
    assert!(server.should_state_change());
    server.draw(&mut context);
    assert_eq!(server.state(), GameState::Game);
    assert!(taken(&log).is_empty());
}

#[test]
fn a_transition_to_the_current_state_starts_its_screens_again() {
    let log = log();
    let mut server = ScreenServer::default();
    server.register_screen(GameState::Menu, Probe::new("menu", &log));
    let mut context = internal();
    server.update(&mut context);
    taken(&log);
    let mut commands = Commands::new();
    commands.set_state(GameState::Menu);
    server.apply_commands(&mut commands, &mut context);
    server.update(&mut context);
    assert_eq!(taken(&log), vec!["menu:start", "menu:update"]);
}

#[test]
fn a_state_without_screens_yields_no_callbacks() {
    let log = log();
    let mut server = ScreenServer::default();
    server.register_screen(GameState::Game, Probe::new("game", &log));
    let mut context = internal();
    server.update(&mut context);
    server.draw(&mut context);
    assert!(taken(&log).is_empty());
    assert_eq!(server.state(), GameState::Menu);
    assert!(!server.should_state_change());
}

#[test]
fn menu_to_game_without_game_screens_end_to_end() {
    let log = log();
    let mut server = ScreenServer::default();
    server.register_screen(GameState::Menu, Probe::new("menu", &log));
    let mut context = internal();

    server.update(&mut context);
    assert_eq!(taken(&log), vec!["menu:start", "menu:update"]);

    let mut commands = Commands::new();
    commands.set_state(GameState::Game);
    server.apply_commands(&mut commands, &mut context);
    assert!(server.should_state_change());

    server.update(&mut context);
    assert_eq!(server.state(), GameState::Game);
    assert!(!server.should_state_change());
    assert!(taken(&log).is_empty());

    server.draw(&mut context);
    assert_eq!(server.state(), GameState::Game);
    assert!(taken(&log).is_empty());
}

#[test]
fn queued_mutations_run_after_the_cycle_in_the_order_they_were_queued() {
    let log = log();
    let mut server = ScreenServer::default();
    server.register_screen(GameState::Menu, Probe::new("a", &log).queueing("update"));
    server.register_screen(GameState::Menu, Probe::new("b", &log).queueing("update"));
    let mut context = internal();
    server.update(&mut context);
    assert_eq!(
        taken(&log),
        vec!["a:start", "b:start", "a:update", "b:update", "a:update:queued@1", "b:update:queued@2"]
    );
    assert_eq!(context.platform, 2);
}

#[test]
fn apply_commands_keeps_the_pending_transition_when_nothing_was_requested() {
    let mut server: ScreenServer<u32> = ScreenServer::default();
    let mut context = internal();
    let mut commands = Commands::new();
    commands.set_state(GameState::Game);
    server.apply_commands(&mut commands, &mut context);
    assert_eq!(commands.new_state(), None);
    let mut nothing = Commands::new();
    server.apply_commands(&mut nothing, &mut context);
    assert!(server.should_state_change());
    server.update(&mut context);
    assert_eq!(server.state(), GameState::Game);
}

#[test]
fn a_screen_without_callbacks_is_registered_and_does_nothing() {
    let mut server = ScreenServer::default();
    server.register_screen(GameState::Menu, Silent);
    let mut context = internal();
    server.update(&mut context);
    server.draw(&mut context);
    assert_eq!(server.screen_count(GameState::Menu), 1);
    assert_eq!(server.state(), GameState::Menu);
    assert_eq!(context.platform, 0);
}
