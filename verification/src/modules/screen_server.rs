use crate::engine::EngineInternal;
use crate::modules::commands::applied;
use crate::modules::commands::Commands;
use crate::screens::screen::Screen;
use vstd::prelude::*;

verus! {

/// The modes of the application. Exactly one of them is current at any time.
#[derive(Clone, Copy, PartialEq, Eq, Structural, Hash, Debug)]
pub enum GameState {
    Menu,
    Game,
}

impl Default for GameState {
    fn default() -> (state: Self)
        ensures
            state == GameState::Menu,
    {
        GameState::Menu
    }
}

/// The four kinds of callback that a screen may receive.
#[derive(Clone, Copy, PartialEq, Eq, Structural, Hash, Debug)]
pub enum Cycle {
    Start,
    Ui,
    Draw,
    Update,
}

/// One callback that was run: `cycle` on the screen that was registered for
/// `state` as number `index`, counting from zero.
pub ghost struct Dispatch {
    pub cycle: Cycle,
    pub state: GameState,
    pub index: nat,
}

/// What a server has done since it was made: every callback that it ran,
/// oldest first, and how many calls of `update` and of `draw` it has
/// completed.
pub ghost struct History {
    pub dispatches: Seq<Dispatch>,
    pub updates: nat,
    pub draws: nat,
}

impl History {
    pub open spec fn empty() -> History {
        History { dispatches: Seq::empty(), updates: 0, draws: 0 }
    }

    /// This history with the callbacks of `ran` behind it.
    pub open spec fn ran(self, ran: Seq<Dispatch>) -> History {
        History { dispatches: self.dispatches + ran, ..self }
    }

    /// This history after one more `update`, called on `machine`.
    pub open spec fn updated(self, machine: Machine) -> History {
        History {
            dispatches: self.dispatches + machine.update_trace(),
            updates: self.updates + 1,
            draws: self.draws,
        }
    }

    /// This history after one more `draw`, called on `machine`.
    pub open spec fn drawn(self, machine: Machine) -> History {
        History {
            dispatches: self.dispatches + machine.draw_trace(),
            updates: self.updates,
            draws: self.draws + 1,
        }
    }

    /// Whether this history is `earlier` with `updates` more updates and
    /// `draws` more draws: nothing it held was lost or reordered.
    pub open spec fn continues(self, earlier: History, updates: nat, draws: nat) -> bool {
        &&& earlier.dispatches.is_prefix_of(self.dispatches)
        &&& self.updates == earlier.updates + updates
        &&& self.draws == earlier.draws + draws
    }
}

/// The pending transition once a finished cycle has handed over its request:
/// a new request replaces the pending one, no request leaves it alone.
pub open spec fn merge(pending: Option<GameState>, requested: Option<GameState>) -> Option<
    GameState,
> {
    if requested is Some {
        requested
    } else {
        pending
    }
}

/// The state machine as the contracts see it: the current state, the
/// transition that waits to be applied, and how many screens each state has.
/// A state that is missing from `screens` has none.
pub ghost struct Machine {
    pub state: GameState,
    pub next_state: Option<GameState>,
    pub screens: Map<GameState, nat>,
}

impl Machine {
    /// A new machine: nothing is registered, and the default state waits to
    /// be entered, so that its screens are started by the first cycle.
    pub open spec fn initial() -> Machine {
        Machine {
            state: GameState::Menu,
            next_state: Some(GameState::Menu),
            screens: Map::empty(),
        }
    }

    /// The number of screens registered for `state`.
    pub open spec fn count(self, state: GameState) -> nat {
        if self.screens.dom().contains(state) {
            self.screens[state]
        } else {
            0
        }
    }

    /// The machine after one more screen has been registered for `state`.
    pub open spec fn registered(self, state: GameState) -> Machine {
        Machine { screens: self.screens.insert(state, self.count(state) + 1), ..self }
    }

    /// The machine after a cycle has handed over `requested`.
    pub open spec fn requested(self, requested: Option<GameState>) -> Machine {
        Machine { next_state: merge(self.next_state, requested), ..self }
    }

    /// The machine after the pending transition, if there is one, has been
    /// applied.
    pub open spec fn entered(self) -> Machine {
        match self.next_state {
            Some(state) => Machine { state, next_state: None, ..self },
            None => self,
        }
    }

    /// One cycle over the current state: every registered screen once, in
    /// registration order.
    pub open spec fn cycle(self, cycle: Cycle) -> Seq<Dispatch> {
        Seq::new(
            self.count(self.state),
            |index: int| Dispatch { cycle, state: self.state, index: index as nat },
        )
    }

    /// The Start cycle that opens a call: it is run exactly when a transition
    /// is pending, against the screens of the state that is entered.
    pub open spec fn start_trace(self) -> Seq<Dispatch> {
        if self.next_state is Some {
            self.entered().cycle(Cycle::Start)
        } else {
            Seq::empty()
        }
    }

    /// Everything one `update` runs, in order.
    pub open spec fn update_trace(self) -> Seq<Dispatch> {
        self.start_trace() + self.entered().cycle(Cycle::Update)
    }

    /// Everything one `draw` runs, in order.
    pub open spec fn draw_trace(self) -> Seq<Dispatch> {
        self.start_trace() + self.entered().cycle(Cycle::Draw) + self.entered().cycle(Cycle::Ui)
    }
}

/// Whether `dispatch` stands in `trace` exactly once.
pub open spec fn once(trace: Seq<Dispatch>, dispatch: Dispatch) -> bool {
    exists|at: int|
        0 <= at < trace.len() && #[trigger] trace[at] == dispatch && forall|other: int|
            0 <= other < trace.len() && #[trigger] trace[other] == dispatch ==> other == at
}

/// Whether `dispatch` stands nowhere in `trace`.
pub open spec fn never(trace: Seq<Dispatch>, dispatch: Dispatch) -> bool {
    forall|at: int| 0 <= at < trace.len() ==> #[trigger] trace[at] != dispatch
}

/// Whether every `first` in `trace` stands before every `second`.
pub open spec fn precedes(trace: Seq<Dispatch>, first: Dispatch, second: Dispatch) -> bool {
    forall|early: int, late: int|
        0 <= early < trace.len() && 0 <= late < trace.len() && #[trigger] trace[early] == first
            && #[trigger] trace[late] == second ==> early < late
}

/// Whether no callback of kind `cycle` stands in `trace`.
pub open spec fn free_of(trace: Seq<Dispatch>, cycle: Cycle) -> bool {
    forall|at: int| 0 <= at < trace.len() ==> (#[trigger] trace[at]).cycle != cycle
}

proof fn lemma_once_left(left: Seq<Dispatch>, right: Seq<Dispatch>, dispatch: Dispatch)
    requires
        once(left, dispatch),
        never(right, dispatch),
    ensures
        once(left + right, dispatch),
{
    let trace = left + right;
    let at = choose|at: int|
        0 <= at < left.len() && #[trigger] left[at] == dispatch && forall|other: int|
            0 <= other < left.len() && #[trigger] left[other] == dispatch ==> other == at;
    assert(trace[at] == dispatch);
    assert forall|other: int|
        0 <= other < trace.len() && #[trigger] trace[other] == dispatch implies other == at by {
        if other < left.len() {
            assert(left[other] == dispatch);
        } else {
            assert(right[other - left.len()] == dispatch);
        }
    }
}

proof fn lemma_once_right(left: Seq<Dispatch>, right: Seq<Dispatch>, dispatch: Dispatch)
    requires
        never(left, dispatch),
        once(right, dispatch),
    ensures
        once(left + right, dispatch),
{
    let trace = left + right;
    let at = choose|at: int|
        0 <= at < right.len() && #[trigger] right[at] == dispatch && forall|other: int|
            0 <= other < right.len() && #[trigger] right[other] == dispatch ==> other == at;
    assert(trace[left.len() + at] == dispatch);
    assert forall|other: int|
        0 <= other < trace.len() && #[trigger] trace[other] == dispatch implies other
        == left.len() + at by {
        if other < left.len() {
            assert(left[other] == dispatch);
        } else {
            assert(right[other - left.len()] == dispatch);
        }
    }
}

/// One cycle calls each screen of the current state exactly once, and
/// nothing of another kind, of another state or beyond the last screen.
proof fn lemma_cycle(machine: Machine, cycle: Cycle, dispatch: Dispatch)
    ensures
        dispatch.cycle == cycle && dispatch.state == machine.state && dispatch.index
            < machine.count(machine.state) ==> once(machine.cycle(cycle), dispatch),
        dispatch.cycle != cycle || dispatch.state != machine.state || dispatch.index
            >= machine.count(machine.state) ==> never(machine.cycle(cycle), dispatch),
{
    let trace = machine.cycle(cycle);
    if dispatch.cycle == cycle && dispatch.state == machine.state && dispatch.index < machine.count(
        machine.state,
    ) {
        assert(trace[dispatch.index as int] == dispatch);
    }
}

/// A requested transition starts the screens of its state exactly once, and
/// before anything else is run in that state.
///
/// Let a transition to `target` be requested of `machine`. The next call,
/// be it `update` or `draw`, enters `target` and runs the Start cycle first:
/// each screen of `target` is started exactly once in that call, and before
/// any screen is updated, drawn or asked for its user interface. The call
/// leaves nothing pending, and as long as nothing new is requested, no later
/// call starts a screen again.
pub proof fn law_start_fires_once(machine: Machine, target: GameState, index: nat, later: nat)
    requires
        index < machine.count(target),
    ensures
        ({
            let pending = machine.requested(Some(target));
            let entered = pending.entered();
            let start = Dispatch { cycle: Cycle::Start, state: target, index };
            &&& entered.state == target
            &&& entered.next_state is None
            &&& once(pending.update_trace(), start)
            &&& once(pending.draw_trace(), start)
            &&& precedes(
                pending.update_trace(),
                start,
                Dispatch { cycle: Cycle::Update, state: target, index: later },
            )
            &&& precedes(
                pending.draw_trace(),
                start,
                Dispatch { cycle: Cycle::Draw, state: target, index: later },
            )
            &&& precedes(
                pending.draw_trace(),
                start,
                Dispatch { cycle: Cycle::Ui, state: target, index: later },
            )
            &&& free_of(entered.update_trace(), Cycle::Start)
            &&& free_of(entered.draw_trace(), Cycle::Start)
        }),
{
    let pending = machine.requested(Some(target));
    let entered = pending.entered();
    let start = Dispatch { cycle: Cycle::Start, state: target, index };
    lemma_cycle(entered, Cycle::Start, start);
    lemma_cycle(entered, Cycle::Update, start);
    lemma_cycle(entered, Cycle::Draw, start);
    lemma_cycle(entered, Cycle::Ui, start);
    lemma_once_left(entered.cycle(Cycle::Start), entered.cycle(Cycle::Update), start);
    lemma_once_left(entered.cycle(Cycle::Start), entered.cycle(Cycle::Draw), start);
    lemma_once_left(
        entered.cycle(Cycle::Start) + entered.cycle(Cycle::Draw),
        entered.cycle(Cycle::Ui),
        start,
    );
    assert(entered.entered() == entered);
}

/// A screen is called once per cycle from the moment it is registered.
///
/// Let one more screen be registered for `state`, which is the state that
/// the next call runs in. Then one `update` updates that screen exactly once;
/// one `draw` draws it exactly once and asks it exactly once for its user
/// interface; and where the call enters `state`, it starts the screen exactly
/// once.
pub proof fn law_registered_screen_is_called_once(machine: Machine, state: GameState)
    requires
        machine.entered().state == state,
    ensures
        ({
            let registered = machine.registered(state);
            let index = machine.count(state);
            &&& registered.count(state) == index + 1
            &&& once(registered.update_trace(), Dispatch { cycle: Cycle::Update, state, index })
            &&& once(registered.draw_trace(), Dispatch { cycle: Cycle::Draw, state, index })
            &&& once(registered.draw_trace(), Dispatch { cycle: Cycle::Ui, state, index })
            &&& registered.next_state is Some ==> once(
                registered.update_trace(),
                Dispatch { cycle: Cycle::Start, state, index },
            ) && once(registered.draw_trace(), Dispatch { cycle: Cycle::Start, state, index })
        }),
{
    let registered = machine.registered(state);
    let entered = registered.entered();
    let index = machine.count(state);
    let start = Dispatch { cycle: Cycle::Start, state, index };
    let update = Dispatch { cycle: Cycle::Update, state, index };
    let draw = Dispatch { cycle: Cycle::Draw, state, index };
    let ui = Dispatch { cycle: Cycle::Ui, state, index };
    assert(entered.state == state);
    assert(entered.count(state) == index + 1);
    lemma_cycle(entered, Cycle::Start, start);
    lemma_cycle(entered, Cycle::Start, update);
    lemma_cycle(entered, Cycle::Start, draw);
    lemma_cycle(entered, Cycle::Start, ui);
    lemma_cycle(entered, Cycle::Update, start);
    lemma_cycle(entered, Cycle::Update, update);
    lemma_cycle(entered, Cycle::Draw, start);
    lemma_cycle(entered, Cycle::Draw, draw);
    lemma_cycle(entered, Cycle::Draw, ui);
    lemma_cycle(entered, Cycle::Ui, start);
    lemma_cycle(entered, Cycle::Ui, draw);
    lemma_cycle(entered, Cycle::Ui, ui);
    let opening = registered.start_trace();
    assert(never(opening, update) && never(opening, draw) && never(opening, ui));
    lemma_once_right(opening, entered.cycle(Cycle::Update), update);
    lemma_once_right(opening, entered.cycle(Cycle::Draw), draw);
    lemma_once_left(opening + entered.cycle(Cycle::Draw), entered.cycle(Cycle::Ui), draw);
    assert(never(opening + entered.cycle(Cycle::Draw), ui));
    lemma_once_right(opening + entered.cycle(Cycle::Draw), entered.cycle(Cycle::Ui), ui);
    if registered.next_state is Some {
        lemma_once_left(opening, entered.cycle(Cycle::Update), start);
        lemma_once_left(opening, entered.cycle(Cycle::Draw), start);
        lemma_once_left(opening + entered.cycle(Cycle::Draw), entered.cycle(Cycle::Ui), start);
    }
}

/// Of two transitions that were requested before the next call, only the
/// later one is honoured: that call enters its state, and no other.
pub proof fn law_last_request_is_honoured(machine: Machine, first: GameState, last: GameState)
    ensures
        machine.requested(Some(first)).requested(Some(last)) == machine.requested(Some(last)),
        machine.requested(Some(first)).requested(Some(last)).entered().state == last,
        machine.requested(Some(last)).requested(None) == machine.requested(Some(last)),
{
}

/// The screens of one state, in registration order.
#[verifier::reject_recursive_types(G)]
struct Bucket<G> {
    state: GameState,
    screens: Vec<Box<dyn Screen<G>>>,
}

/// `at` is the first bucket that belongs to `state`.
spec fn is_first<G>(buckets: Seq<Bucket<G>>, state: GameState, at: int) -> bool {
    &&& 0 <= at < buckets.len()
    &&& buckets[at].state == state
    &&& forall|before: int| 0 <= before < at ==> (#[trigger] buckets[before]).state != state
}

spec fn first<G>(buckets: Seq<Bucket<G>>, state: GameState) -> int {
    choose|at: int| is_first(buckets, state, at)
}

/// What a list of buckets registers: each state that has a bucket, with the
/// number of screens in the first bucket of that state.
spec fn registry<G>(buckets: Seq<Bucket<G>>) -> Map<GameState, nat> {
    Map::new(
        |state: GameState| exists|at: int| is_first(buckets, state, at),
        |state: GameState| buckets[first(buckets, state)].screens@.len(),
    )
}

/// The screens that a list of buckets holds for `state`, in registration
/// order: those of the first bucket of that state, or none.
spec fn screens_of<G>(buckets: Seq<Bucket<G>>, state: GameState) -> Seq<Box<dyn Screen<G>>> {
    if exists|at: int| is_first(buckets, state, at) {
        buckets[first(buckets, state)].screens@
    } else {
        Seq::empty()
    }
}

proof fn lemma_screens_of_has<G>(buckets: Seq<Bucket<G>>, state: GameState, at: int)
    requires
        is_first(buckets, state, at),
    ensures
        screens_of(buckets, state) == buckets[at].screens@,
{
    let chosen = first(buckets, state);
    assert(is_first(buckets, state, chosen));
    if chosen < at {
        assert(buckets[chosen].state != state);
    }
    if at < chosen {
        assert(buckets[at].state != state);
    }
}

proof fn lemma_screens_of_lacks<G>(buckets: Seq<Bucket<G>>, state: GameState)
    requires
        forall|at: int| 0 <= at < buckets.len() ==> (#[trigger] buckets[at]).state != state,
    ensures
        screens_of(buckets, state) == Seq::<Box<dyn Screen<G>>>::empty(),
{
}

/// Where one bucket of `state` has changed or has been added at `at`, and
/// every other bucket is as it was, every other state holds the screens
/// that it held.
proof fn lemma_screens_of_kept<G>(
    before: Seq<Bucket<G>>,
    after: Seq<Bucket<G>>,
    state: GameState,
    at: int,
)
    requires
        is_first(after, state, at),
        after.len() == before.len() || (after.len() == before.len() + 1 && at == before.len()),
        forall|k: int|
            0 <= k < before.len() ==> (#[trigger] after[k]).state == before[k].state,
        forall|k: int|
            0 <= k < before.len() && k != at ==> (#[trigger] after[k]).screens@
                == before[k].screens@,
    ensures
        forall|other: GameState|
            other != state ==> #[trigger] screens_of(after, other) == screens_of(before, other),
{
    assert forall|other: GameState| other != state implies #[trigger] screens_of(after, other)
        == screens_of(before, other) by {
        assert forall|k: int| is_first(after, other, k) == is_first(before, other, k) by {
            if is_first(after, other, k) {
                assert(k != at);
                assert forall|j: int| 0 <= j < k implies (#[trigger] before[j]).state
                    != other by {
                    assert(after[j].state != other);
                }
            }
            if is_first(before, other, k) {
                assert(after[k].state == before[k].state);
                assert forall|j: int| 0 <= j < k implies (#[trigger] after[j]).state
                    != other by {
                    assert(before[j].state != other);
                }
            }
        }
        if exists|k: int| is_first(after, other, k) {
            let k = choose|k: int| is_first(after, other, k);
            assert(is_first(before, other, k));
            assert(after[k].state != state);
            lemma_screens_of_has(after, other, k);
            lemma_screens_of_has(before, other, k);
        } else {
            assert forall|k: int| !is_first(before, other, k) by {
                assert(is_first(after, other, k) == is_first(before, other, k));
            }
        }
    }
}

proof fn lemma_registry_has<G>(buckets: Seq<Bucket<G>>, state: GameState, at: int)
    requires
        is_first(buckets, state, at),
    ensures
        registry(buckets).dom().contains(state),
        registry(buckets)[state] == buckets[at].screens@.len(),
{
    let chosen = first(buckets, state);
    assert(is_first(buckets, state, chosen));
    if chosen < at {
        assert(buckets[chosen].state != state);
    }
    if at < chosen {
        assert(buckets[at].state != state);
    }
}

proof fn lemma_registry_lacks<G>(buckets: Seq<Bucket<G>>, state: GameState)
    requires
        forall|at: int| 0 <= at < buckets.len() ==> (#[trigger] buckets[at]).state != state,
    ensures
        !registry(buckets).dom().contains(state),
{
}

/// Two bucket lists with the same states and the same lengths register the
/// same.
proof fn lemma_registry_shape<G>(a: Seq<Bucket<G>>, b: Seq<Bucket<G>>)
    requires
        a.len() == b.len(),
        forall|at: int|
            0 <= at < a.len() ==> (#[trigger] a[at]).state == b[at].state && a[at].screens@.len()
                == b[at].screens@.len(),
    ensures
        registry(a) == registry(b),
{
    assert forall|state: GameState, at: int| is_first(a, state, at) == is_first(b, state, at) by {
        if is_first(a, state, at) {
            assert(b[at].state == state);
            assert forall|before: int| 0 <= before < at implies (#[trigger] b[before]).state
                != state by {
                assert(a[before].state != state);
            }
        }
        if is_first(b, state, at) {
            assert(a[at].state == state);
            assert forall|before: int| 0 <= before < at implies (#[trigger] a[before]).state
                != state by {
                assert(a[before].state == b[before].state);
            }
        }
    }
    assert forall|state: GameState| #[trigger]
        registry(a).dom().contains(state) == registry(b).dom().contains(state) by {
        if registry(a).dom().contains(state) {
            let at = choose|at: int| is_first(a, state, at);
            assert(is_first(b, state, at));
        }
        if registry(b).dom().contains(state) {
            let at = choose|at: int| is_first(b, state, at);
            assert(is_first(a, state, at));
        }
    }
    assert forall|state: GameState| #[trigger]
        registry(a).dom().contains(state) implies registry(a)[state] == registry(b)[state] by {
        let at = choose|at: int| is_first(a, state, at);
        assert(is_first(b, state, at));
        lemma_registry_has(a, state, at);
        lemma_registry_has(b, state, at);
    }
    assert(registry(a) =~= registry(b));
}

/// What registering one more screen for `state` does to the registry, when
/// `at` is the bucket of `state` afterwards and every other state keeps its
/// first bucket where it was.
proof fn lemma_registry_grown<G>(
    before: Seq<Bucket<G>>,
    after: Seq<Bucket<G>>,
    state: GameState,
    at: int,
    count: nat,
)
    requires
        is_first(after, state, at),
        after[at].screens@.len() == count + 1,
        forall|k: int|
            0 <= k < before.len() ==> (#[trigger] after[k]).state == before[k].state,
        forall|k: int|
            0 <= k < before.len() && k != at ==> (#[trigger] after[k]).screens@.len()
                == before[k].screens@.len(),
        after.len() == before.len() || (after.len() == before.len() + 1 && at == before.len()),
    ensures
        registry(after) == registry(before).insert(state, count + 1),
{
    lemma_registry_has(after, state, at);
    assert forall|other: GameState, k: int| other != state implies is_first(after, other, k)
        == is_first(before, other, k) by {
        if is_first(after, other, k) {
            assert(k != at);
            assert forall|j: int| 0 <= j < k implies (#[trigger] before[j]).state != other by {
                assert(after[j].state != other);
            }
        }
        if is_first(before, other, k) {
            assert(after[k].state == before[k].state);
            assert forall|j: int| 0 <= j < k implies (#[trigger] after[j]).state != other by {
                assert(before[j].state != other);
            }
        }
    }
    assert forall|other: GameState| other != state implies (#[trigger] registry(
        after,
    ).dom().contains(other)) == registry(before).dom().contains(other) by {
        if registry(after).dom().contains(other) {
            let k = choose|k: int| is_first(after, other, k);
            assert(is_first(before, other, k));
        }
        if registry(before).dom().contains(other) {
            let k = choose|k: int| is_first(before, other, k);
            assert(is_first(after, other, k));
        }
    }
    assert forall|other: GameState|
        other != state && #[trigger] registry(after).dom().contains(other) implies registry(
        after,
    )[other] == registry(before)[other] by {
        let k = choose|k: int| is_first(after, other, k);
        assert(is_first(before, other, k));
        lemma_registry_has(after, other, k);
        lemma_registry_has(before, other, k);
        assert(after[k].state != state);
    }
    assert(registry(after) =~= registry(before).insert(state, count + 1));
}

/// Appending one element lengthens a sequence by one and keeps what it held.
proof fn lemma_push<T>(s: Seq<T>, x: T)
    ensures
        s.push(x).len() == s.len() + 1,
        forall|at: int| 0 <= at < s.len() ==> s.push(x)[at] == s[at],
        s.push(x)[s.len() as int] == x,
        s.push(x).subrange(0, s.len() as int) == s,
{
}

/// The screen registry and the state machine that drives it.
///
/// Screens are kept per state in registration order. A transition that a
/// screen asked for is applied by the next `update` or `draw`, which then
/// starts the screens of the new state before it runs anything else.
#[verifier::reject_recursive_types(G)]
pub struct ScreenServer<G> {
    state: GameState,
    next_state: Option<GameState>,
    registered_screens: Vec<Bucket<G>>,
    history: Ghost<History>,
}

impl<G> View for ScreenServer<G> {
    type V = Machine;

    closed spec fn view(&self) -> Machine {
        Machine {
            state: self.state,
            next_state: self.next_state,
            screens: registry(self.registered_screens@),
        }
    }
}

impl<G> Default for ScreenServer<G> {
    fn default() -> (server: Self)
        ensures
            server@ == Machine::initial(),
            server.history() == History::empty(),
    {
        let server = ScreenServer {
            next_state: Some(GameState::default()),
            state: GameState::default(),
            registered_screens: Vec::new(),
            history: Ghost(History::empty()),
        };
        proof {
            assert(registry(server.registered_screens@) =~= Map::empty());
        }
        server
    }
}

impl<G> ScreenServer<G> {
    /// What this server has done since it was made.
    pub closed spec fn history(&self) -> History {
        self.history@
    }

    /// The screens registered for `state`, in registration order. The screen
    /// at position `index` is the one that a `Dispatch` with that index
    /// speaks of.
    pub closed spec fn bucket(&self, state: GameState) -> Seq<Box<dyn Screen<G>>> {
        screens_of(self.registered_screens@, state)
    }

    /// The view counts what the buckets hold.
    pub proof fn lemma_count_is_bucket_length(&self, state: GameState)
        ensures
            self@.count(state) == self.bucket(state).len(),
    {
        let buckets = self.registered_screens@;
        if exists|at: int| is_first(buckets, state, at) {
            let at = choose|at: int| is_first(buckets, state, at);
            lemma_registry_has(buckets, state, at);
            lemma_screens_of_has(buckets, state, at);
        }
    }

    /// Whether `after` is what one `update` may leave of this server. The
    /// state, the registry and the history are fixed by this server alone.
    /// The transition that is pending afterwards is up to the screens that
    /// were called; where none was called, none is pending.
    pub open spec fn updated(self, after: Self) -> bool {
        &&& after@.state == self@.entered().state
        &&& after@.screens == self@.screens
        &&& after.history() == self.history().updated(self@)
        &&& self@.entered().count(self@.entered().state) == 0 ==> after@.next_state is None
    }

    /// Whether `after` is what one `draw` may leave of this server. The
    /// state, the registry and the history are fixed by this server alone.
    /// The transition that is pending afterwards is up to the screens that
    /// were called; where none was called, none is pending.
    pub open spec fn drawn(self, after: Self) -> bool {
        &&& after@.state == self@.entered().state
        &&& after@.screens == self@.screens
        &&& after.history() == self.history().drawn(self@)
        &&& self@.entered().count(self@.entered().state) == 0 ==> after@.next_state is None
    }

    /// The position of the first bucket of `state`.
    fn find(&self, state: GameState) -> (found: Option<usize>)
        ensures
            match found {
                Some(at) => is_first(self.registered_screens@, state, at as int),
                None => forall|at: int|
                    0 <= at < self.registered_screens@.len() ==> (
                    #[trigger] self.registered_screens@[at]).state != state,
            },
    {
        let mut at: usize = 0;
        while at < self.registered_screens.len()
            invariant
                at <= self.registered_screens@.len(),
                forall|before: int|
                    0 <= before < at ==> (#[trigger] self.registered_screens@[before]).state
                        != state,
            decreases self.registered_screens@.len() - at,
        {
            if self.registered_screens[at].state == state {
                return Some(at);
            }
            at = at + 1;
        }
        None
    }

    /// Appends `screen` to the screens of `state`. It will be called after
    /// the screens that were registered for `state` before it.
    pub fn register_screen(&mut self, state: GameState, screen: impl Screen<G> + 'static)
        ensures
            final(self)@ == old(self)@.registered(state),
            final(self).history() == old(self).history(),
            final(self).bucket(state).len() == old(self).bucket(state).len() + 1,
            final(self).bucket(state).subrange(0, old(self).bucket(state).len() as int) == old(self).bucket(state),
            forall|other: GameState|
                other != state ==> #[trigger] final(self).bucket(other) == old(self).bucket(other),
    {
        let screen: Box<dyn Screen<G>> = Box::new(screen);
        let ghost before = self.registered_screens@;
        match self.find(state) {
            Some(at) => {
                proof {
                    lemma_push(before[at as int].screens@, screen);
                    lemma_registry_has(before, state, at as int);
                }
                self.registered_screens[at].screens.push(screen);
                proof {
                    let after = self.registered_screens@;
                    assert forall|k: int| 0 <= k < at implies (#[trigger] after[k]).state
                        != state by {
                        assert(before[k].state != state);
                    }
                    lemma_registry_grown(
                        before,
                        after,
                        state,
                        at as int,
                        old(self)@.count(state),
                    );
                    lemma_screens_of_has(before, state, at as int);
                    lemma_screens_of_has(after, state, at as int);
                    lemma_screens_of_kept(before, after, state, at as int);
                }
            },
            None => {
                let mut screens: Vec<Box<dyn Screen<G>>> = Vec::new();
                proof {
                    lemma_push(screens@, screen);
                    lemma_registry_lacks(before, state);
                }
                screens.push(screen);
                let bucket = Bucket { state, screens };
                proof {
                    lemma_push(before, bucket);
                }
                self.registered_screens.push(bucket);
                proof {
                    let after = self.registered_screens@;
                    let at = before.len() as int;
                    assert(after[at] == bucket);
                    assert forall|k: int| 0 <= k < at implies (#[trigger] after[k]).state
                        != state by {
                        assert(before[k].state != state);
                    }
                    lemma_registry_grown(before, after, state, at, 0);
                    lemma_screens_of_lacks(before, state);
                    lemma_screens_of_has(after, state, at);
                    lemma_screens_of_kept(before, after, state, at);
                    assert(after[at].screens@.subrange(0, 0) =~= Seq::<
                        Box<dyn Screen<G>>,
                    >::empty());
                }
            },
        }
    }

    /// The current state.
    pub fn state(&self) -> (state: GameState)
        ensures
            state == self@.state,
    {
        self.state
    }

    /// The number of screens registered for `state`.
    pub fn screen_count(&self, state: GameState) -> (count: usize)
        ensures
            count == self@.count(state),
            count == self.bucket(state).len(),
    {
        proof {
            self.lemma_count_is_bucket_length(state);
        }
        match self.find(state) {
            Some(at) => {
                proof {
                    lemma_registry_has(self.registered_screens@, state, at as int);
                }
                self.registered_screens[at].screens.len()
            },
            None => {
                proof {
                    lemma_registry_lacks(self.registered_screens@, state);
                }
                0
            },
        }
    }

    /// Whether a transition waits to be applied.
    pub fn should_state_change(&self) -> (pending: bool)
        ensures
            pending == (self@.next_state is Some),
    {
        self.next_state.is_some()
    }

    /// Applies the pending transition.
    pub fn update_state(&mut self)
        requires
            old(self)@.next_state is Some,
        ensures
            final(self)@ == old(self)@.entered(),
            final(self).history() == old(self).history(),
            forall|state: GameState|
                #[trigger] final(self).bucket(state) == old(self).bucket(state),
    {
        self.state = self.next_state.unwrap();
        self.next_state = None;
    }

    /// Takes over what a finished cycle left in `commands`: the queued
    /// mutations are run against `engine_internal`, oldest first, and the
    /// requested transition, if there is one, becomes the pending one. The
    /// registered screens stay as they are.
    pub fn apply_commands(
        &mut self,
        commands: &mut Commands<G>,
        engine_internal: &mut EngineInternal<G>,
    )
        ensures
            *final(engine_internal) == applied(old(commands).queue(), *old(engine_internal)),
            final(self)@ == old(self)@.requested(old(commands).requested()),
            final(self).history() == old(self).history(),
            forall|state: GameState|
                #[trigger] final(self).bucket(state) == old(self).bucket(state),
            final(commands).requested() is None,
            final(commands).queue().len() == 0,
    {
        match commands.drain_and_apply(engine_internal) {
            Some(state) => {
                self.next_state = Some(state);
            },
            None => {},
        }
    }

    /// Runs one cycle: every screen of the current state gets the callback
    /// of `cycle`, in registration order, and what the screens asked for is
    /// taken over once the last of them has returned. A state without
    /// screens yields no callback and changes nothing.
    fn emit_event(&mut self, cycle: Cycle, engine_internal: &mut EngineInternal<G>)
        ensures
            final(self)@.state == old(self)@.state,
            final(self)@.screens == old(self)@.screens,
            final(self).history() == old(self).history().ran(old(self)@.cycle(cycle)),
            final(self)@.next_state is None ==> old(self)@.next_state is None,
            old(self)@.count(old(self)@.state) == 0 ==> final(self)@.next_state == old(self)@.next_state,
    {
        let state = self.state;
        let ghost before = self.registered_screens@;
        let ghost earlier = self.history@;
        match self.find(state) {
            None => {
                proof {
                    lemma_registry_lacks(before, state);
                    assert(earlier.dispatches + old(self)@.cycle(cycle) =~= earlier.dispatches);
                }
            },
            Some(at) => {
                proof {
                    lemma_registry_has(before, state, at as int);
                }
                let mut commands = Commands::new();
                let count = self.registered_screens[at].screens.len();
                let mut index: usize = 0;
                while index < count
                    invariant
                        index <= count,
                        at < self.registered_screens@.len(),
                        count == self.registered_screens@[at as int].screens@.len(),
                        self.state == state,
                        self.next_state == old(self).next_state,
                        self.registered_screens@.len() == before.len(),
                        forall|k: int|
                            0 <= k < before.len() ==> (#[trigger] self.registered_screens@[k]).state
                                == before[k].state && self.registered_screens@[k].screens@.len()
                                == before[k].screens@.len(),
                        self.history@ == earlier.ran(
                            Seq::new(
                                index as nat,
                                |i: int| Dispatch { cycle, state, index: i as nat },
                            ),
                        ),
                        index == 0 ==> commands.requested() is None && commands.queue().len() == 0,
                    decreases count - index,
                {
                    match cycle {
                        Cycle::Start => {
                            self.registered_screens[at].screens[index].start(
                                &mut commands,
                                engine_internal,
                            );
                        },
                        Cycle::Ui => {
                            self.registered_screens[at].screens[index].ui(
                                &mut commands,
                                engine_internal,
                            );
                        },
                        Cycle::Draw => {
                            self.registered_screens[at].screens[index].draw(
                                &mut commands,
                                engine_internal,
                            );
                        },
                        Cycle::Update => {
                            self.registered_screens[at].screens[index].update(
                                &mut commands,
                                engine_internal,
                            );
                        },
                    }
                    proof {
                        let called = Dispatch { cycle, state, index: index as nat };
                        assert(earlier.dispatches + Seq::new(
                            index as nat,
                            |i: int| Dispatch { cycle, state, index: i as nat },
                        ).push(called) =~= earlier.dispatches + Seq::new(
                            (index + 1) as nat,
                            |i: int| Dispatch { cycle, state, index: i as nat },
                        ));
                        self.history@ = History {
                            dispatches: self.history@.dispatches.push(called),
                            ..self.history@
                        };
                    }
                    index = index + 1;
                }
                proof {
                    lemma_registry_shape(self.registered_screens@, before);
                }
                self.apply_commands(&mut commands, engine_internal);
            },
        }
    }

    /// One logical update: a pending transition is applied first and the
    /// screens of the new state are started; then the screens of the current
    /// state are updated.
    pub fn update(&mut self, engine_internal: &mut EngineInternal<G>)
        ensures
            (*old(self)).updated(*final(self)),
    {
        let ghost earlier = self.history@;
        if self.should_state_change() {
            self.update_state();
            self.emit_event(Cycle::Start, engine_internal);
        }
        self.emit_event(Cycle::Update, engine_internal);
        proof {
            let entered = old(self)@.entered();
            assert(self.history@.dispatches =~= earlier.dispatches + (old(self)@.start_trace()
                + entered.cycle(Cycle::Update)));
            self.history@ = History { updates: self.history@.updates + 1, ..self.history@ };
        }
    }

    /// One draw: a pending transition is applied first and the screens of the
    /// new state are started; then the screens of the current state are
    /// drawn, and after that their user interface is run.
    pub fn draw(&mut self, engine_internal: &mut EngineInternal<G>)
        ensures
            (*old(self)).drawn(*final(self)),
    {
        let ghost earlier = self.history@;
        if self.should_state_change() {
            self.update_state();
            self.emit_event(Cycle::Start, engine_internal);
        }
        self.emit_event(Cycle::Draw, engine_internal);
        self.emit_event(Cycle::Ui, engine_internal);
        proof {
            let entered = old(self)@.entered();
            assert(self.history@.dispatches =~= earlier.dispatches + (old(self)@.start_trace()
                + entered.cycle(Cycle::Draw) + entered.cycle(Cycle::Ui)));
            self.history@ = History { draws: self.history@.draws + 1, ..self.history@ };
        }
    }
}

} // verus!
