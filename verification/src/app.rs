use crate::modules::screen_server::ScreenServer;
use vstd::prelude::*;

verus! {

/// The host application: it is asked once, before the first frame, to register
/// its screens.
pub trait App<G> {
    fn start(&mut self, screen_server: &mut ScreenServer<G>);
}

} // verus!
