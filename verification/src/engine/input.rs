use vstd::prelude::*;

verus! {

/// What a bound key does.
#[derive(Debug, Clone, Copy, PartialEq, Eq, Hash, Structural)]
pub enum Action {
    MoveForward,
    MoveBackward,
    MoveLeft,
    MoveRight,
    Jump,
    Reload,
    Sprint,
}

/// The held-down state of the player's controls for the current frame.
///
/// Pointer position and movement are kept by the caller beside this state.
#[derive(Debug, Clone, Copy, PartialEq, Eq, Structural)]
pub struct InputState {
    pub up: bool,
    pub down: bool,
    pub left: bool,
    pub right: bool,
    pub shoot: bool,
    pub sprint: bool,
    pub reload: bool,
    pub jump_pressed: bool,
}

impl InputState {
    /// Nothing held.
    pub open spec fn idle() -> InputState {
        InputState {
            up: false,
            down: false,
            left: false,
            right: false,
            shoot: false,
            sprint: false,
            reload: false,
            jump_pressed: false,
        }
    }

    /// The state after the key for `action` goes down.
    pub open spec fn pressed(self, action: Action) -> InputState {
        match action {
            Action::MoveForward => InputState { up: true, ..self },
            Action::MoveBackward => InputState { down: true, ..self },
            Action::MoveLeft => InputState { left: true, ..self },
            Action::MoveRight => InputState { right: true, ..self },
            Action::Jump => InputState { jump_pressed: true, ..self },
            Action::Reload => InputState { reload: true, ..self },
            Action::Sprint => InputState { sprint: true, ..self },
        }
    }

    /// The state after the key for `action` comes up. A jump is a one-frame press, so
    /// releasing its key changes nothing.
    pub open spec fn released(self, action: Action) -> InputState {
        match action {
            Action::MoveForward => InputState { up: false, ..self },
            Action::MoveBackward => InputState { down: false, ..self },
            Action::MoveLeft => InputState { left: false, ..self },
            Action::MoveRight => InputState { right: false, ..self },
            Action::Jump => self,
            Action::Reload => InputState { reload: false, ..self },
            Action::Sprint => InputState { sprint: false, ..self },
        }
    }

    /// Whether the held flag for `action` is set.
    pub open spec fn holds(self, action: Action) -> bool {
        match action {
            Action::MoveForward => self.up,
            Action::MoveBackward => self.down,
            Action::MoveLeft => self.left,
            Action::MoveRight => self.right,
            Action::Jump => self.jump_pressed,
            Action::Reload => self.reload,
            Action::Sprint => self.sprint,
        }
    }

    /// A fresh state with nothing held.
    pub fn new() -> (s: Self)
        ensures
            s == InputState::idle(),
    {
        InputState {
            up: false,
            down: false,
            left: false,
            right: false,
            shoot: false,
            sprint: false,
            reload: false,
            jump_pressed: false,
        }
    }

    /// Ends a frame: a jump press lasts one frame only; held keys stay held.
    pub fn end_frame(&mut self)
        ensures
            *final(self) == (InputState { jump_pressed: false, ..*old(self) }),
    {
        self.jump_pressed = false;
    }
}

impl Default for InputState {
    fn default() -> (s: Self)
        ensures
            s == InputState::idle(),
    {
        InputState::new()
    }
}

/// Maps key codes (as browsers name them, e.g. `"KeyW"`) to actions.
#[derive(Debug, Clone)]
pub struct Keybinds {
    code_to_action: Vec<(String, Action)>,
}

/// The action bound to `code` by the first binding that names it.
pub open spec fn first_binding(bindings: Seq<(Seq<char>, Action)>, code: Seq<char>) -> Option<
    Action,
>
    decreases bindings.len(),
{
    if bindings.len() == 0 {
        None
    } else if bindings[0].0 == code {
        Some(bindings[0].1)
    } else {
        first_binding(bindings.drop_first(), code)
    }
}

/// The default layout: WASD and the arrow keys move, Space jumps, R reloads and
/// either Shift sprints.
pub open spec fn default_binding(code: Seq<char>) -> Option<Action> {
    if code == "KeyW"@ || code == "ArrowUp"@ {
        Some(Action::MoveForward)
    } else if code == "KeyS"@ || code == "ArrowDown"@ {
        Some(Action::MoveBackward)
    } else if code == "KeyA"@ || code == "ArrowLeft"@ {
        Some(Action::MoveLeft)
    } else if code == "KeyD"@ || code == "ArrowRight"@ {
        Some(Action::MoveRight)
    } else if code == "Space"@ {
        Some(Action::Jump)
    } else if code == "KeyR"@ {
        Some(Action::Reload)
    } else if code == "ShiftLeft"@ || code == "ShiftRight"@ {
        Some(Action::Sprint)
    } else {
        None
    }
}

/// The state after the key `code` goes down under a binding lookup `bound`.
pub open spec fn after_key_down(input: InputState, bound: Option<Action>) -> InputState {
    match bound {
        Some(a) => input.pressed(a),
        None => input,
    }
}

/// The state after the key `code` comes up under a binding lookup `bound`.
pub open spec fn after_key_up(input: InputState, bound: Option<Action>) -> InputState {
    match bound {
        Some(a) => input.released(a),
        None => input,
    }
}


/// The default layout as a lookup list.
pub open spec fn default_bindings() -> Seq<(Seq<char>, Action)> {
    seq![
        ("KeyW"@, Action::MoveForward),
        ("ArrowUp"@, Action::MoveForward),
        ("KeyS"@, Action::MoveBackward),
        ("ArrowDown"@, Action::MoveBackward),
        ("KeyA"@, Action::MoveLeft),
        ("ArrowLeft"@, Action::MoveLeft),
        ("KeyD"@, Action::MoveRight),
        ("ArrowRight"@, Action::MoveRight),
        ("Space"@, Action::Jump),
        ("KeyR"@, Action::Reload),
        ("ShiftLeft"@, Action::Sprint),
        ("ShiftRight"@, Action::Sprint),
    ]
}

proof fn lemma_default_bindings_lookup(code: Seq<char>)
    ensures
        first_binding(default_bindings(), code) == default_binding(code),
{
    reveal_with_fuel(first_binding, 13);
    let b = default_bindings();
    assert(b.drop_first() =~= b.subrange(1, 12));
    assert(b.subrange(1, 12).drop_first() =~= b.subrange(2, 12));
    assert(b.subrange(2, 12).drop_first() =~= b.subrange(3, 12));
    assert(b.subrange(3, 12).drop_first() =~= b.subrange(4, 12));
    assert(b.subrange(4, 12).drop_first() =~= b.subrange(5, 12));
    assert(b.subrange(5, 12).drop_first() =~= b.subrange(6, 12));
    assert(b.subrange(6, 12).drop_first() =~= b.subrange(7, 12));
    assert(b.subrange(7, 12).drop_first() =~= b.subrange(8, 12));
    assert(b.subrange(8, 12).drop_first() =~= b.subrange(9, 12));
    assert(b.subrange(9, 12).drop_first() =~= b.subrange(10, 12));
    assert(b.subrange(10, 12).drop_first() =~= b.subrange(11, 12));
    assert(b.subrange(11, 12).drop_first() =~= b.subrange(12, 12));
}

impl Default for Keybinds {
    fn default() -> (kb: Self)
        ensures
            forall|code: Seq<char>| #[trigger] kb.action_for(code) == default_binding(code),
    {
        let mut code_to_action: Vec<(String, Action)> = Vec::new();
        code_to_action.push(("KeyW".to_string(), Action::MoveForward));
        code_to_action.push(("ArrowUp".to_string(), Action::MoveForward));
        code_to_action.push(("KeyS".to_string(), Action::MoveBackward));
        code_to_action.push(("ArrowDown".to_string(), Action::MoveBackward));
        code_to_action.push(("KeyA".to_string(), Action::MoveLeft));
        code_to_action.push(("ArrowLeft".to_string(), Action::MoveLeft));
        code_to_action.push(("KeyD".to_string(), Action::MoveRight));
        code_to_action.push(("ArrowRight".to_string(), Action::MoveRight));
        code_to_action.push(("Space".to_string(), Action::Jump));
        code_to_action.push(("KeyR".to_string(), Action::Reload));
        code_to_action.push(("ShiftLeft".to_string(), Action::Sprint));
        code_to_action.push(("ShiftRight".to_string(), Action::Sprint));
        let kb = Keybinds { code_to_action };
        proof {
            broadcast use vstd::string::to_string_from_display_ensures_for_str;
            assert(kb.bindings() =~= default_bindings());
            assert forall|code: Seq<char>| kb.action_for(code) == default_binding(code) by {
                lemma_default_bindings_lookup(code);
            }
        }
        kb
    }
}

impl Keybinds {
    /// The bindings, in lookup order, with codes as character sequences.
    pub closed spec fn bindings(&self) -> Seq<(Seq<char>, Action)> {
        self.code_to_action@.map_values(|p: (String, Action)| (p.0@, p.1))
    }

    /// The action bound to the key `code`, if any.
    pub open spec fn action_for(&self, code: Seq<char>) -> Option<Action> {
        first_binding(self.bindings(), code)
    }

    /// Looks up the action bound to `code`.
    pub fn lookup(&self, code: &str) -> (a: Option<Action>)
        ensures
            a == self.action_for(code@),
    {
        let key = code.to_string();
        proof {
            vstd::string::to_string_from_display_ensures_for_str(code, key);
        }
        let n = self.code_to_action.len();
        let mut i: usize = 0;
        assert(self.bindings().skip(0) =~= self.bindings());
        while i < n
            invariant
                n == self.code_to_action.len(),
                i <= n,
                key@ == code@,
                first_binding(self.bindings(), code@) == first_binding(
                    self.bindings().skip(i as int),
                    code@,
                ),
            decreases n - i,
        {
            let ghost rest = self.bindings().skip(i as int);
            assert(rest.drop_first() =~= self.bindings().skip(i + 1));
            assert(rest[0] == (self.code_to_action@[i as int].0@, self.code_to_action@[i as int].1));
            if self.code_to_action[i].0 == key {
                return Some(self.code_to_action[i].1);
            }
            i = i + 1;
        }
        assert(self.bindings().skip(i as int).len() == 0);
        None
    }

    /// Sets the held flag of the action bound to `code`; unbound keys are ignored.
    pub fn on_key_down(&self, input: &mut InputState, code: &str)
        ensures
            *final(input) == after_key_down(*old(input), self.action_for(code@)),
    {
        let Some(action) = self.lookup(code) else {
            return ;
        };
        match action {
            Action::MoveForward => input.up = true,
            Action::MoveBackward => input.down = true,
            Action::MoveLeft => input.left = true,
            Action::MoveRight => input.right = true,
            Action::Jump => {
                input.jump_pressed = true;
            },
            Action::Reload => input.reload = true,
            Action::Sprint => input.sprint = true,
        }
    }

    /// Clears the held flag of the action bound to `code`; unbound keys and the jump
    /// key are ignored.
    pub fn on_key_up(&self, input: &mut InputState, code: &str)
        ensures
            *final(input) == after_key_up(*old(input), self.action_for(code@)),
    {
        let Some(action) = self.lookup(code) else {
            return ;
        };
        match action {
            Action::MoveForward => input.up = false,
            Action::MoveBackward => input.down = false,
            Action::MoveLeft => input.left = false,
            Action::MoveRight => input.right = false,
            Action::Jump => {},
            Action::Reload => input.reload = false,
            Action::Sprint => input.sprint = false,
        }
    }
}

/// Releasing a key undoes pressing it: the press leaves no trace once the same key is
/// up again (the one-frame jump press is the exception and is cleared by
/// `InputState::end_frame` instead).
pub proof fn lemma_release_undoes_press(s: InputState, action: Action)
    requires
        action != Action::Jump,
    ensures
        s.pressed(action).released(action) == s.released(action),
        s.pressed(action).holds(action),
        !s.released(action).holds(action),
{
}

/// A key going down and then up leaves the input as if only the release had happened,
/// for every key that is not bound to jumping.
pub proof fn lemma_key_down_then_up(kb: Keybinds, s: InputState, code: Seq<char>)
    requires
        kb.action_for(code) != Some(Action::Jump),
    ensures
        after_key_up(after_key_down(s, kb.action_for(code)), kb.action_for(code))
            == after_key_up(s, kb.action_for(code)),
{
}

/// Pressing or releasing the key of one action leaves the flags of every other action
/// as they were.
pub proof fn lemma_keys_are_independent(s: InputState, a: Action, b: Action)
    requires
        a != b,
    ensures
        s.pressed(a).holds(b) == s.holds(b),
        s.released(a).holds(b) == s.holds(b),
        s.pressed(a).shoot == s.shoot,
        s.released(a).shoot == s.shoot,
{
}

} // verus!
