use crate::engine::EngineInternal;
use crate::modules::commands::Commands;
use vstd::prelude::*;

verus! {

/// A unit of per-state behaviour. Every callback is optional; a screen that
/// leaves one out simply does nothing in that cycle.
///
/// A callback may ask for a state transition or queue mutations through
/// `commands`; both take effect only once the whole cycle has been run.
pub trait Screen<G> {
    fn start(&mut self, commands: &mut Commands<G>, engine_internal: &mut EngineInternal<G>) {
    }

    fn ui(&mut self, commands: &mut Commands<G>, engine_internal: &mut EngineInternal<G>) {
    }

    fn draw(&mut self, commands: &mut Commands<G>, engine_internal: &mut EngineInternal<G>) {
    }

    fn update(&mut self, commands: &mut Commands<G>, engine_internal: &mut EngineInternal<G>) {
    }
}

} // verus!
