use crate::engine::EngineInternal;
use crate::modules::screen_server::GameState;
use vstd::prelude::*;

verus! {

/// A mutation of the engine that a screen queued while a cycle was running.
///
/// What a mutation does is a function of the engine that it finds: `effect`
/// names the engine that `apply` leaves behind. An implementation owes that
/// the two agree.
pub trait Command<G> {
    /// The engine after this mutation has been applied to `before`.
    spec fn effect(&self, before: EngineInternal<G>) -> EngineInternal<G>;

    fn apply(&self, engine_internal: &mut EngineInternal<G>)
        ensures
            *final(engine_internal) == self.effect(*old(engine_internal)),
    ;
}

/// The engine after the mutations of `queue` have been applied to `before`
/// one after the other, the first of the queue first.
pub open spec fn applied<G>(
    queue: Seq<Box<dyn Command<G>>>,
    before: EngineInternal<G>,
) -> EngineInternal<G>
    decreases queue.len(),
{
    if queue.len() == 0 {
        before
    } else {
        queue.last().effect(applied(queue.drop_last(), before))
    }
}

/// The pending transition after `state` has been asked for: the newest
/// request replaces whatever was asked for before it.
pub open spec fn request(pending: Option<GameState>, state: GameState) -> Option<GameState> {
    Some(state)
}

/// Of two requests that are made in one cycle only the later one is
/// pending, whatever was pending before them; and to ask for the same state
/// again changes nothing.
pub proof fn law_last_request_wins(pending: Option<GameState>, first: GameState, last: GameState)
    ensures
        request(request(pending, first), last) == Some(last),
        request(request(pending, first), last) == request(pending, last),
        request(request(pending, last), last) == request(pending, last),
{
}

/// Deferred commands of one cycle: at most one requested state transition and
/// the mutations queued so far, oldest first.
#[verifier::reject_recursive_types(G)]
pub struct Commands<G> {
    new_state: Option<GameState>,
    commands: Vec<Box<dyn Command<G>>>,
}

/// Appending one element lengthens a sequence by one and keeps what it held.
proof fn lemma_push<T>(s: Seq<T>, x: T)
    ensures
        s.push(x).len() == s.len() + 1,
        s.push(x).subrange(0, s.len() as int) == s,
{
}

impl<G> Commands<G> {
    /// The transition that will be handed to the state machine, if any.
    pub closed spec fn requested(&self) -> Option<GameState> {
        self.new_state
    }

    /// The queued mutations in the order in which they were added.
    pub closed spec fn queue(&self) -> Seq<Box<dyn Command<G>>> {
        self.commands@
    }

    pub fn new() -> (commands: Self)
        ensures
            commands.requested() is None,
            commands.queue().len() == 0,
    {
        Commands { new_state: None, commands: Vec::new() }
    }

    /// Asks for a transition to `state`. A later call in the same cycle
    /// overwrites an earlier one.
    pub fn set_state(&mut self, state: GameState)
        ensures
            final(self).requested() == request(old(self).requested(), state),
            final(self).queue() == old(self).queue(),
    {
        self.new_state = Some(state);
    }

    pub fn new_state(&self) -> (state: Option<GameState>)
        ensures
            state == self.requested(),
    {
        self.new_state
    }

    /// Queues `func` behind the mutations that are already waiting.
    pub fn add(&mut self, func: impl Command<G> + 'static)
        ensures
            final(self).queue().len() == old(self).queue().len() + 1,
            final(self).queue().subrange(0, old(self).queue().len() as int) == old(self).queue(),
            final(self).requested() == old(self).requested(),
    {
        let func: Box<dyn Command<G>> = Box::new(func);
        proof {
            lemma_push(self.commands@, func);
        }
        self.commands.push(func);
    }

    pub fn funcs(&self) -> (funcs: &Vec<Box<dyn Command<G>>>)
        ensures
            funcs@ == self.queue(),
    {
        &self.commands
    }

    pub fn clear_funcs(&mut self)
        ensures
            final(self).queue().len() == 0,
            final(self).requested() == old(self).requested(),
    {
        self.commands.clear();
    }

    /// Runs every queued mutation against `engine_internal`, oldest first,
    /// empties the queue and hands back the requested transition, which is
    /// forgotten here.
    pub fn drain_and_apply(&mut self, engine_internal: &mut EngineInternal<G>) -> (state: Option<
        GameState,
    >)
        ensures
            *final(engine_internal) == applied(old(self).queue(), *old(engine_internal)),
            state == old(self).requested(),
            final(self).requested() is None,
            final(self).queue().len() == 0,
    {
        let mut i: usize = 0;
        while i < self.commands.len()
            invariant
                i <= self.commands.len(),
                self.new_state == old(self).new_state,
                self.commands@ == old(self).commands@,
                *engine_internal == applied(
                    self.commands@.take(i as int),
                    *old(engine_internal),
                ),
            decreases self.commands.len() - i,
        {
            proof {
                let next = self.commands@.take(i + 1);
                assert(next.drop_last() =~= self.commands@.take(i as int));
                assert(next.last() == self.commands@[i as int]);
            }
            self.commands[i].apply(engine_internal);
            i = i + 1;
        }
        proof {
            assert(self.commands@.take(i as int) =~= self.commands@);
        }
        self.commands.clear();
        self.new_state.take()
    }
}

} // verus!
