use std::collections::HashMap;
use vstd::prelude::*;
use vstd::std_specs::convert::FromSpecImpl;

verus! {

broadcast use vstd::std_specs::hash::group_hash_axioms;

/// The number of a physical key. The host decides which number stands for
/// which key.
pub type KeyCode = u32;

/// What the platform reports of a key: it went down or it came up.
#[derive(Clone, Copy, PartialEq, Eq, Structural, Hash, Debug)]
pub enum ElementState {
    Pressed,
    Released,
}

impl ElementState {
    pub fn is_pressed(self) -> (pressed: bool)
        ensures
            pressed == (self == ElementState::Pressed),
    {
        match self {
            ElementState::Pressed => true,
            ElementState::Released => false,
        }
    }
}

/// The state of a key as the screens see it.
#[derive(Clone, Copy, PartialEq, Eq, Structural, Debug)]
pub enum KeyState {
    Released,
    Pressed,
    JustPressed,
    JustReleased,
}

impl Default for KeyState {
    fn default() -> (state: Self)
        ensures
            state == KeyState::Released,
    {
        KeyState::Released
    }
}

/// The state that a key is in after the platform has reported `state` of it.
pub open spec fn reported(state: ElementState) -> KeyState {
    match state {
        ElementState::Pressed => KeyState::Pressed,
        ElementState::Released => KeyState::Released,
    }
}

impl From<ElementState> for KeyState {
    fn from(value: ElementState) -> (state: Self) {
        if value.is_pressed() {
            KeyState::Pressed
        } else {
            KeyState::Released
        }
    }
}

impl FromSpecImpl<ElementState> for KeyState {
    open spec fn obeys_from_spec() -> bool {
        true
    }

    open spec fn from_spec(value: ElementState) -> KeyState {
        reported(value)
    }
}

/// The input of the application as the contracts see it: which key each
/// action is bound to, and the last reported state of each key.
pub ghost struct Input {
    pub actions: Map<Seq<char>, KeyCode>,
    pub keys: Map<KeyCode, KeyState>,
}

impl Input {
    /// The state of `keycode`: a key of which nothing was reported yet is
    /// released.
    pub open spec fn key_state(self, keycode: KeyCode) -> KeyState {
        if self.keys.dom().contains(keycode) {
            self.keys[keycode]
        } else {
            KeyState::Released
        }
    }

    /// The state of the key that `action` is bound to.
    pub open spec fn state_of(self, action: Seq<char>) -> KeyState
        recommends
            self.actions.dom().contains(action),
    {
        self.key_state(self.actions[action])
    }
}

/// One action with the key that it is bound to.
struct Binding {
    action: String,
    keycode: KeyCode,
}

/// The key that a list of bindings gives to `action`: the last binding of
/// that name decides.
spec fn lookup(bindings: Seq<Binding>, action: Seq<char>) -> Option<KeyCode>
    decreases bindings.len(),
{
    if bindings.len() == 0 {
        None
    } else if bindings.last().action@ == action {
        Some(bindings.last().keycode)
    } else {
        lookup(bindings.drop_last(), action)
    }
}

spec fn bound(bindings: Seq<Binding>) -> Map<Seq<char>, KeyCode> {
    Map::new(
        |action: Seq<char>| lookup(bindings, action) is Some,
        |action: Seq<char>| lookup(bindings, action)->0,
    )
}

proof fn lemma_lookup_found(bindings: Seq<Binding>, action: Seq<char>, at: int)
    requires
        0 <= at < bindings.len(),
        bindings[at].action@ == action,
        forall|after: int|
            at < after < bindings.len() ==> (#[trigger] bindings[after]).action@ != action,
    ensures
        lookup(bindings, action) == Some(bindings[at].keycode),
    decreases bindings.len(),
{
    if at < bindings.len() - 1 {
        assert(bindings[bindings.len() - 1].action@ != action);
        let shorter = bindings.drop_last();
        assert forall|after: int| at < after < shorter.len() implies (#[trigger] shorter[after]).action@
            != action by {
            assert(bindings[after].action@ != action);
        }
        lemma_lookup_found(shorter, action, at);
    }
}

proof fn lemma_lookup_missing(bindings: Seq<Binding>, action: Seq<char>)
    requires
        forall|at: int| 0 <= at < bindings.len() ==> (#[trigger] bindings[at]).action@ != action,
    ensures
        lookup(bindings, action) is None,
    decreases bindings.len(),
{
    if bindings.len() > 0 {
        assert(bindings[bindings.len() - 1].action@ != action);
        let shorter = bindings.drop_last();
        assert forall|at: int| 0 <= at < shorter.len() implies (#[trigger] shorter[at]).action@
            != action by {
            assert(bindings[at].action@ != action);
        }
        lemma_lookup_missing(shorter, action);
    }
}

/// Taking out a binding of another name changes nothing for `action`.
proof fn lemma_lookup_remove(bindings: Seq<Binding>, action: Seq<char>, at: int)
    requires
        0 <= at < bindings.len(),
        bindings[at].action@ != action,
    ensures
        lookup(bindings.remove(at), action) == lookup(bindings, action),
    decreases bindings.len(),
{
    let removed = bindings.remove(at);
    if at == bindings.len() - 1 {
        assert(removed =~= bindings.drop_last());
    } else {
        assert(removed.last() == bindings.last());
        assert(removed.drop_last() =~= bindings.drop_last().remove(at));
        lemma_lookup_remove(bindings.drop_last(), action, at);
    }
}

proof fn lemma_lookup_push(bindings: Seq<Binding>, binding: Binding, action: Seq<char>)
    ensures
        lookup(bindings.push(binding), action) == if binding.action@ == action {
            Some(binding.keycode)
        } else {
            lookup(bindings, action)
        },
{
    assert(bindings.push(binding).drop_last() =~= bindings);
}

/// Named actions, the keys that they are bound to, and the state of the
/// keys.
pub struct InputServer {
    action_map: Vec<Binding>,
    key_states: HashMap<KeyCode, KeyState>,
}

impl View for InputServer {
    type V = Input;

    closed spec fn view(&self) -> Input {
        Input { actions: bound(self.action_map@), keys: self.key_states@ }
    }
}

impl Default for InputServer {
    fn default() -> (server: Self)
        ensures
            server@.actions == Map::<Seq<char>, KeyCode>::empty(),
            server@.keys == Map::<KeyCode, KeyState>::empty(),
    {
        let server = InputServer { action_map: Vec::new(), key_states: HashMap::new() };
        proof {
            assert(bound(server.action_map@) =~= Map::empty());
        }
        server
    }
}

impl InputServer {
    /// The position of the binding that decides for `name`.
    fn find(&self, name: &String) -> (found: Option<usize>)
        ensures
            match found {
                Some(at) => at < self.action_map@.len() && lookup(self.action_map@, name@) == Some(
                    self.action_map@[at as int].keycode,
                ),
                None => lookup(self.action_map@, name@) is None,
            },
    {
        let mut at: usize = self.action_map.len();
        while at > 0
            invariant
                at <= self.action_map@.len(),
                forall|after: int|
                    at <= after < self.action_map@.len() ==> (
                    #[trigger] self.action_map@[after]).action@ != name@,
            decreases at,
        {
            at = at - 1;
            if self.action_map[at].action == *name {
                proof {
                    lemma_lookup_found(self.action_map@, name@, at as int);
                }
                return Some(at);
            }
        }
        proof {
            lemma_lookup_missing(self.action_map@, name@);
        }
        None
    }

    /// Takes every binding of `name` out of the list.
    fn forget(&mut self, name: &String)
        ensures
            lookup(final(self).action_map@, name@) is None,
            forall|other: Seq<char>|
                other != name@ ==> lookup(final(self).action_map@, other) == lookup(
                    old(self).action_map@,
                    other,
                ),
            final(self).key_states == old(self).key_states,
    {
        let mut at: usize = 0;
        while at < self.action_map.len()
            invariant
                at <= self.action_map@.len(),
                forall|before: int|
                    0 <= before < at ==> (#[trigger] self.action_map@[before]).action@ != name@,
                forall|other: Seq<char>|
                    other != name@ ==> lookup(self.action_map@, other) == lookup(
                        old(self).action_map@,
                        other,
                    ),
                self.key_states == old(self).key_states,
            decreases self.action_map@.len() - at,
        {
            if self.action_map[at].action == *name {
                proof {
                    let bindings = self.action_map@;
                    assert forall|other: Seq<char>| other != name@ implies lookup(
                        bindings.remove(at as int),
                        other,
                    ) == lookup(bindings, other) by {
                        lemma_lookup_remove(bindings, other, at as int);
                    }
                }
                self.action_map.remove(at);
            } else {
                at = at + 1;
            }
        }
        proof {
            lemma_lookup_missing(self.action_map@, name@);
        }
    }

    /// Whether `action_name` is bound to a key.
    pub fn has_action(&self, action_name: &str) -> (bound: bool)
        ensures
            bound == self@.actions.dom().contains(action_name@),
    {
        let name = action_name.to_owned();
        self.find(&name).is_some()
    }

    /// The state of the key that `action_name` is bound to. The action must
    /// have been registered.
    pub fn get_state(&self, action_name: &str) -> (state: KeyState)
        requires
            self@.actions.dom().contains(action_name@),
        ensures
            state == self@.state_of(action_name@),
    {
        let name = action_name.to_owned();
        match self.find(&name) {
            Some(at) => {
                let keycode = self.action_map[at].keycode;
                match self.key_states.get(&keycode) {
                    None => KeyState::Released,
                    Some(state) => *state,
                }
            },
            None => KeyState::Released,
        }
    }

    /// Whether the key that `action` is bound to is held down. The action
    /// must have been registered.
    pub fn action(&self, action: &str) -> (pressed: bool)
        requires
            self@.actions.dom().contains(action@),
        ensures
            pressed == (self@.state_of(action@) == KeyState::Pressed),
    {
        self.get_state(action) == KeyState::Pressed
    }

    /// Records what the platform reported of `keycode`.
    pub fn keyboard_input(&mut self, keycode: KeyCode, state: ElementState)
        ensures
            final(self)@.keys == old(self)@.keys.insert(keycode, reported(state)),
            final(self)@.actions == old(self)@.actions,
    {
        let state = KeyState::from(state);
        self.key_states.insert(keycode, state);
    }

    /// Binds `action_name` to `keycode`. An earlier binding of that name is
    /// replaced.
    pub fn register_action(&mut self, action_name: &str, keycode: KeyCode)
        ensures
            final(self)@.actions == old(self)@.actions.insert(action_name@, keycode),
            final(self)@.keys == old(self)@.keys,
    {
        let name = action_name.to_owned();
        self.forget(&name);
        let binding = Binding { action: name, keycode };
        proof {
            let bindings = self.action_map@;
            assert forall|other: Seq<char>| #[trigger]
                lookup(bindings.push(binding), other) == if other == action_name@ {
                    Some(keycode)
                } else {
                    lookup(old(self).action_map@, other)
                } by {
                lemma_lookup_push(bindings, binding, other);
            }
        }
        self.action_map.push(binding);
        proof {
            assert(bound(self.action_map@) =~= bound(old(self).action_map@).insert(
                action_name@,
                keycode,
            ));
        }
    }

    /// Forgets the binding of `action_name`, if there is one.
    pub fn unregister_action(&mut self, action_name: &str)
        ensures
            final(self)@.actions == old(self)@.actions.remove(action_name@),
            final(self)@.keys == old(self)@.keys,
    {
        let name = action_name.to_owned();
        self.forget(&name);
        proof {
            assert(bound(self.action_map@) =~= bound(old(self).action_map@).remove(action_name@));
        }
    }
}

} // verus!
