use crate::app::App;
use crate::modules::clock::left_over;
use crate::modules::clock::steps_due;
use crate::modules::clock::Clock;
use crate::modules::input_server::reported;
use crate::modules::input_server::ElementState;
use crate::modules::input_server::Input;
use crate::modules::input_server::InputServer;
use crate::modules::input_server::KeyCode;
use crate::modules::input_server::KeyState;
use crate::modules::screen_server::History;
use crate::modules::screen_server::ScreenServer;
use vstd::prelude::*;

verus! {

/// The length of one logical update in nanoseconds: a twentieth of a second.
pub const UPDATE_DT: u64 = 50_000_000;

/// The key code that stands for the escape key.
pub const KEY_ESCAPE: KeyCode = 0;

/// A size in physical pixels.
#[derive(Clone, Copy, PartialEq, Eq, Structural, Debug)]
pub struct PhysicalSize {
    pub width: u32,
    pub height: u32,
}

/// The part of the surface configuration that the engine decides: the size
/// of the images that the surface hands out.
#[derive(Clone, Copy, PartialEq, Eq, Structural, Debug)]
pub struct SurfaceConfiguration {
    pub width: u32,
    pub height: u32,
}

/// Whether a surface can be configured to `size`: a surface without area
/// cannot.
pub open spec fn has_area(size: PhysicalSize) -> bool {
    size.width > 0 && size.height > 0
}

/// Everything a screen may reach while one of its callbacks runs.
///
/// `platform` is whatever the host keeps alive for the frame loop (window,
/// device, queue, renderers); the engine never looks inside it.
pub struct EngineInternal<G> {
    pub input_server: InputServer,
    pub window_size: PhysicalSize,
    pub config: SurfaceConfiguration,
    pub platform: G,
}

impl<G> EngineInternal<G> {
    /// This value with the window and the surface at `new_size`.
    pub open spec fn resized(self, new_size: PhysicalSize) -> Self {
        EngineInternal {
            window_size: new_size,
            config: SurfaceConfiguration { width: new_size.width, height: new_size.height },
            ..self
        }
    }

    /// Whether `after` is this value once `state` has been reported of
    /// `keycode`: the key has that state, and nothing else has changed.
    pub open spec fn keyed(self, keycode: KeyCode, state: ElementState, after: Self) -> bool {
        &&& after.input_server@ == Input {
            keys: self.input_server@.keys.insert(keycode, reported(state)),
            ..self.input_server@
        }
        &&& after.window_size == self.window_size
        &&& after.config == self.config
        &&& after.platform == self.platform
    }

    /// The internals of an engine whose window has `window_size`: the
    /// surface is configured to that size, and no input is known yet.
    pub fn new(window_size: PhysicalSize, platform: G) -> (internal: Self)
        ensures
            internal.window_size == window_size,
            internal.config == (SurfaceConfiguration {
                width: window_size.width,
                height: window_size.height,
            }),
            internal.platform == platform,
            internal.input_server@.actions == Map::<Seq<char>, KeyCode>::empty(),
            internal.input_server@.keys == Map::<KeyCode, KeyState>::empty(),
    {
        EngineInternal {
            input_server: InputServer::default(),
            window_size,
            config: SurfaceConfiguration { width: window_size.width, height: window_size.height },
            platform,
        }
    }
}

/// What the window system reports to the engine.
#[derive(Clone, Copy, PartialEq, Eq, Structural, Debug)]
pub enum WindowEvent {
    CloseRequested,
    /// A key changed its state. `keycode` is absent for a key that the
    /// platform could not identify.
    KeyboardInput { keycode: Option<KeyCode>, state: ElementState },
    Resized(PhysicalSize),
    RedrawRequested,
    /// Anything that the engine does not act on.
    Other,
}

/// Whether `event` asks the application to end: the window is to be closed,
/// or the escape key went down.
pub open spec fn asks_to_exit(event: WindowEvent) -> bool {
    match event {
        WindowEvent::CloseRequested => true,
        WindowEvent::KeyboardInput { keycode: Some(keycode), state: ElementState::Pressed } => keycode
            == KEY_ESCAPE,
        _ => false,
    }
}

/// What the host has to do once the engine has handled an event.
#[derive(Clone, Copy, PartialEq, Eq, Structural, Debug)]
pub enum EngineAction {
    /// Nothing.
    Continue,
    /// Leave the event loop.
    Exit,
    /// Configure the surface, and what depends on its size, to the new
    /// configuration.
    Reconfigure,
    /// The screens have been updated `updates` times and drawn once:
    /// compose the frame and present it.
    Present { updates: u64 },
}

/// `longer` still begins with `start` when more is put behind it.
proof fn lemma_prefix_grows<T>(start: Seq<T>, longer: Seq<T>, more: Seq<T>)
    requires
        start.is_prefix_of(longer),
    ensures
        start.is_prefix_of(longer + more),
{
    assert((longer + more).subrange(0, start.len() as int) =~= longer.subrange(
        0,
        start.len() as int,
    ));
}

/// The driver: it owns the clock and the screens, and turns what the window
/// system reports into updates, draws and resizes.
#[verifier::reject_recursive_types(G)]
pub struct Engine<G> {
    /// The clock of the fixed-timestep loop.
    pub clock: Clock,
    /// Whether the application has been asked to end.
    pub exiting: bool,
    pub engine_internal: Option<EngineInternal<G>>,
    pub screen_server: ScreenServer<G>,
}

impl<G> Engine<G> {
    /// Whether `after` differs from this engine in its internals and its
    /// screens at most.
    pub open spec fn unchanged_outside(self, after: Self) -> bool {
        &&& after.clock == self.clock
        &&& after.exiting == self.exiting
    }

    /// Whether `after` is what a redraw that ran `updates` updates may leave
    /// of the screens of this engine: the registry is as it was, and the
    /// history has gone on by that many updates and one draw. The draw came
    /// last: the server went through all the updates first, and the one
    /// draw led from there to `after`.
    pub open spec fn redrawn(self, updates: nat, after: Self) -> bool {
        &&& after.engine_internal is Some
        &&& after.exiting == self.exiting
        &&& after.clock.fixed_dt() == self.clock.fixed_dt()
        &&& after.clock.accumulator() < after.clock.fixed_dt()
        &&& after.screen_server@.screens == self.screen_server@.screens
        &&& after.screen_server.history().continues(self.screen_server.history(), updates, 1)
        &&& exists|updated: ScreenServer<G>| #[trigger]
            updated.drawn(after.screen_server) && updated.history().continues(
                self.screen_server.history(),
                updates,
                0,
            )
    }

    /// An engine for `app`, which is asked at once to register its screens.
    /// The engine has no internals until it is resumed.
    pub fn new(app: &mut impl App<G>) -> (engine: Self)
        ensures
            engine.engine_internal is None,
            !engine.exiting,
            engine.clock.accumulator() == 0,
            engine.clock.fixed_dt() == UPDATE_DT,
            !engine.clock.has_ticked(),
    {
        let mut screen_server = ScreenServer::default();
        app.start(&mut screen_server);
        Engine { clock: Clock::new(UPDATE_DT), exiting: false, engine_internal: None, screen_server }
    }

    /// Hands the engine its internals, once the host has made them.
    pub fn resumed(&mut self, engine_internal: EngineInternal<G>)
        ensures
            final(self).engine_internal == Some(engine_internal),
            final(self).screen_server == old(self).screen_server,
            (*old(self)).unchanged_outside(*final(self)),
    {
        self.engine_internal = Some(engine_internal);
    }

    /// One logical update of the screens.
    pub fn update(&mut self)
        requires
            old(self).engine_internal is Some,
        ensures
            final(self).engine_internal is Some,
            old(self).screen_server.updated(final(self).screen_server),
            (*old(self)).unchanged_outside(*final(self)),
    {
        match &mut self.engine_internal {
            Some(engine_internal) => {
                self.screen_server.update(engine_internal);
            },
            None => {},
        }
    }

    /// One draw of the screens. Composing and presenting the frame is left
    /// to the host.
    pub fn draw(&mut self)
        requires
            old(self).engine_internal is Some,
        ensures
            final(self).engine_internal is Some,
            old(self).screen_server.drawn(final(self).screen_server),
            (*old(self)).unchanged_outside(*final(self)),
    {
        match &mut self.engine_internal {
            Some(engine_internal) => {
                self.screen_server.draw(engine_internal);
            },
            None => {},
        }
    }

    /// Takes on a new window size. A size without area is ignored. Where the
    /// size is taken on, the host has to configure the surface anew.
    pub fn resize(&mut self, new_size: PhysicalSize) -> (reconfigure: bool)
        requires
            old(self).engine_internal is Some,
        ensures
            reconfigure == has_area(new_size),
            has_area(new_size) ==> final(self).engine_internal == Some(
                old(self).engine_internal->0.resized(new_size),
            ),
            !has_area(new_size) ==> final(self).engine_internal == old(self).engine_internal,
            final(self).screen_server == old(self).screen_server,
            (*old(self)).unchanged_outside(*final(self)),
    {
        if new_size.width > 0 && new_size.height > 0 {
            match &mut self.engine_internal {
                Some(engine_internal) => {
                    engine_internal.window_size = new_size;
                    engine_internal.config.width = new_size.width;
                    engine_internal.config.height = new_size.height;
                },
                None => {},
            }
            true
        } else {
            false
        }
    }

    /// Feeds `elapsed` nanoseconds to the clock, runs the updates that fall
    /// due, all of them before the draw, and then draws once. The number of
    /// updates is returned.
    pub fn advance(&mut self, elapsed: u64) -> (updates: u64)
        requires
            old(self).engine_internal is Some,
        ensures
            updates == steps_due(
                old(self).clock.accumulator(),
                old(self).clock.fixed_dt(),
                elapsed as nat,
            ),
            final(self).clock.accumulator() == left_over(
                old(self).clock.accumulator(),
                old(self).clock.fixed_dt(),
                elapsed as nat,
            ),
            final(self).clock.has_ticked() == old(self).clock.has_ticked(),
            (*old(self)).redrawn(updates as nat, *final(self)),
    {
        let ghost earlier = self.screen_server.history();
        let updates = self.clock.advance(elapsed);
        let ghost clock = self.clock;
        let mut done: u64 = 0;
        while done < updates
            invariant
                done <= updates,
                self.engine_internal is Some,
                self.clock == clock,
                self.exiting == old(self).exiting,
                self.screen_server@.screens == old(self).screen_server@.screens,
                self.screen_server.history().continues(earlier, done as nat, 0),
            decreases updates - done,
        {
            proof {
                lemma_prefix_grows(
                    earlier.dispatches,
                    self.screen_server.history().dispatches,
                    self.screen_server@.update_trace(),
                );
            }
            self.update();
            done = done + 1;
        }
        proof {
            lemma_prefix_grows(
                earlier.dispatches,
                self.screen_server.history().dispatches,
                self.screen_server@.draw_trace(),
            );
        }
        let ghost updated = self.screen_server;
        self.draw();
        proof {
            assert(updated.drawn(self.screen_server));
        }
        updates
    }

    /// A redraw: the time since the previous one is read off the clock and
    /// fed to `advance`. The first redraw finds that no time has passed, so
    /// it runs no update and leaves the accumulator as it is.
    pub fn redraw_requested(&mut self) -> (updates: u64)
        requires
            old(self).engine_internal is Some,
        ensures
            (*old(self)).redrawn(updates as nat, *final(self)),
            final(self).clock.has_ticked(),
            !old(self).clock.has_ticked() ==> updates == 0 && final(self).clock.accumulator()
                == old(self).clock.accumulator(),
    {
        let elapsed = self.clock.tick();
        proof {
            let accumulator = self.clock.accumulator() as int;
            let interval = self.clock.fixed_dt() as int;
            assert(accumulator / interval == 0 && accumulator % interval == accumulator)
                by (nonlinear_arith)
                requires
                    0 <= accumulator < interval,
            ;
        }
        self.advance(elapsed)
    }

    /// Whether `after` and `action` are what handling `event` may leave of
    /// this engine and ask of the host.
    ///
    /// An engine that was asked to end answers every event with `Exit` and
    /// does nothing. Otherwise a close request or the escape key going
    /// down makes it end; a resize is taken on if the size has an area; a
    /// redraw request runs the due updates and one draw; any other change
    /// of an identified key is recorded; and everything else is ignored.
    pub open spec fn handled(self, event: WindowEvent, after: Self, action: EngineAction) -> bool {
        if self.exiting {
            after == self && action == EngineAction::Exit
        } else if asks_to_exit(event) {
            &&& action == EngineAction::Exit
            &&& after.exiting
            &&& after.clock == self.clock
            &&& after.engine_internal == self.engine_internal
            &&& after.screen_server == self.screen_server
        } else {
            match event {
                WindowEvent::Resized(new_size) => {
                    &&& action == if has_area(new_size) {
                        EngineAction::Reconfigure
                    } else {
                        EngineAction::Continue
                    }
                    &&& after.engine_internal == if has_area(new_size) {
                        Some(self.engine_internal->0.resized(new_size))
                    } else {
                        self.engine_internal
                    }
                    &&& after.screen_server == self.screen_server
                    &&& self.unchanged_outside(after)
                },
                WindowEvent::RedrawRequested => {
                    &&& action matches EngineAction::Present { updates }
                    &&& self.redrawn(updates as nat, after)
                },
                WindowEvent::KeyboardInput { keycode: Some(keycode), state } => {
                    &&& action == EngineAction::Continue
                    &&& after.engine_internal is Some
                    &&& self.engine_internal->0.keyed(keycode, state, after.engine_internal->0)
                    &&& after.screen_server == self.screen_server
                    &&& self.unchanged_outside(after)
                },
                _ => after == self && action == EngineAction::Continue,
            }
        }
    }

    /// Handles one event of the window system and says what is left for the
    /// host to do.
    pub fn window_event(&mut self, event: WindowEvent) -> (action: EngineAction)
        requires
            old(self).engine_internal is Some,
        ensures
            (*old(self)).handled(event, *final(self), action),
    {
        if self.exiting {
            return EngineAction::Exit;
        }
        match event {
            WindowEvent::CloseRequested => {
                self.exiting = true;
                EngineAction::Exit
            },
            WindowEvent::KeyboardInput { keycode: Some(keycode), state } => {
                if keycode == KEY_ESCAPE && state.is_pressed() {
                    self.exiting = true;
                    EngineAction::Exit
                } else {
                    match &mut self.engine_internal {
                        Some(engine_internal) => {
                            engine_internal.input_server.keyboard_input(keycode, state);
                        },
                        None => {},
                    }
                    EngineAction::Continue
                }
            },
            WindowEvent::Resized(new_size) => {
                if self.resize(new_size) {
                    EngineAction::Reconfigure
                } else {
                    EngineAction::Continue
                }
            },
            WindowEvent::RedrawRequested => {
                let updates = self.redraw_requested();
                EngineAction::Present { updates }
            },
            _ => EngineAction::Continue,
        }
    }
}

} // verus!
