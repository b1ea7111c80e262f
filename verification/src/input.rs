use vstd::prelude::*;

verus! {

/// What the player can do; each action is bound to up to two inputs.
#[derive(Debug, Clone, Copy, PartialEq, Eq, Hash, Structural)]
pub enum Action {
    MoveForward,
    MoveBackward,
    MoveLeft,
    MoveRight,
    Jump,
    Prone,
    Crouch,
    ToggleMouseLock,
    PrimaryAction,
    SecondaryAction,
    ToggleMenu,
    Quit,
}

/// Number of actions.
pub const ACTION_COUNT: usize = 12;

/// Position of `a` in declaration order.
pub open spec fn action_index(a: Action) -> int {
    match a {
        Action::MoveForward => 0,
        Action::MoveBackward => 1,
        Action::MoveLeft => 2,
        Action::MoveRight => 3,
        Action::Jump => 4,
        Action::Prone => 5,
        Action::Crouch => 6,
        Action::ToggleMouseLock => 7,
        Action::PrimaryAction => 8,
        Action::SecondaryAction => 9,
        Action::ToggleMenu => 10,
        Action::Quit => 11,
    }
}

impl Action {
    /// Position of the action in declaration order.
    pub fn index(self) -> (r: usize)
        ensures
            r == action_index(self),
            r < ACTION_COUNT,
    {
        match self {
            Action::MoveForward => 0,
            Action::MoveBackward => 1,
            Action::MoveLeft => 2,
            Action::MoveRight => 3,
            Action::Jump => 4,
            Action::Prone => 5,
            Action::Crouch => 6,
            Action::ToggleMouseLock => 7,
            Action::PrimaryAction => 8,
            Action::SecondaryAction => 9,
            Action::ToggleMenu => 10,
            Action::Quit => 11,
        }
    }
}

/// A keyboard key, by its physical position; keys the default bindings do
/// not name are told apart by a code of their own.
#[derive(Debug, Clone, Copy, PartialEq, Eq, Hash, Structural)]
pub enum Key {
    Escape,
    ArrowUp,
    ArrowDown,
    ArrowLeft,
    ArrowRight,
    Numpad1,
    Numpad2,
    Numpad3,
    KeyC,
    KeyL,
    KeyQ,
    Other(u32),
}

/// A mouse button.
#[derive(Debug, Clone, Copy, PartialEq, Eq, Hash, Structural)]
pub enum Button {
    Left,
    Right,
    Middle,
    Back,
    Forward,
    Other(u16),
}

/// A physical input that can be bound to an action.
#[derive(Debug, Clone, Copy, PartialEq, Eq, Hash, Structural)]
pub enum Input {
    Keyboard(Key),
    Mouse(Button),
}

/// Up to two inputs that trigger one action.
#[derive(Debug, Clone, Copy, PartialEq, Eq, Structural)]
pub struct Binding {
    pub first: Option<Input>,
    pub second: Option<Input>,
}

/// `i` is one of the inputs of `b`.
pub open spec fn in_binding(b: Binding, i: Input) -> bool {
    b.first == Some(i) || b.second == Some(i)
}

/// The optional binding `ob` is present and uses `i`.
pub open spec fn holds(ob: Option<Binding>, i: Input) -> bool {
    ob matches Some(b) && in_binding(b, i)
}

/// Slot `s` with an input of `b` taken out.
pub open spec fn strip_slot(s: Option<Input>, b: Binding) -> Option<Input> {
    match s {
        Some(i) => if in_binding(b, i) {
            None
        } else {
            s
        },
        None => None,
    }
}

/// The optional binding `ob` with the inputs of `b` taken out of it.
pub open spec fn strip(ob: Option<Binding>, b: Binding) -> Option<Binding> {
    match ob {
        Some(o) => Some(Binding { first: strip_slot(o.first, b), second: strip_slot(o.second, b) }),
        None => None,
    }
}

/// Every input has at most one owner, and an input is owned by an action
/// exactly when that action's binding uses it.
pub open spec fn consistent(bs: Seq<Option<Binding>>, owners: Map<Input, Action>) -> bool {
    &&& bs.len() == ACTION_COUNT
    &&& forall|i: Input, k: int|
        0 <= k < ACTION_COUNT ==> ((owners.contains_key(i) && action_index(owners[i]) == k) <==> #[trigger] holds(
            bs[k],
            i,
        ))
}

/// The bindings after binding `b` to `action`: the action gets `b`, every
/// other action loses the inputs of `b`.
pub open spec fn bind_bindings(bs: Seq<Option<Binding>>, action: Action, b: Binding) -> Seq<Option<Binding>> {
    Seq::new(
        ACTION_COUNT as nat,
        |k: int|
            if k == action_index(action) {
                Some(b)
            } else {
                strip(bs[k], b)
            },
    )
}

/// The owners after binding `b` to `action`: the inputs of `b` belong to
/// `action`, the action's other inputs are released, the rest keep theirs.
pub open spec fn bind_owners(owners: Map<Input, Action>, action: Action, b: Binding) -> Map<Input, Action> {
    Map::new(
        |i: Input| in_binding(b, i) || (owners.contains_key(i) && owners[i] != action),
        |i: Input|
            if in_binding(b, i) {
                action
            } else {
                owners[i]
            },
    )
}

/// Slot `s` holds an input that another action than `action` owns.
pub open spec fn slot_taken(owners: Map<Input, Action>, action: Action, s: Option<Input>) -> bool {
    s matches Some(i) && owners.contains_key(i) && owners[i] != action
}

/// Binding `b` to `action` takes an input away from another action.
pub open spec fn takes_input(owners: Map<Input, Action>, action: Action, b: Binding) -> bool {
    slot_taken(owners, action, b.first) || slot_taken(owners, action, b.second)
}

/// The bindings after unbinding `action`.
pub open spec fn unbind_bindings(bs: Seq<Option<Binding>>, action: Action) -> Seq<Option<Binding>> {
    bs.update(action_index(action), None)
}

/// The owners after unbinding `action` whose binding was `ob`.
pub open spec fn unbind_owners(owners: Map<Input, Action>, ob: Option<Binding>) -> Map<Input, Action> {
    Map::new(|i: Input| owners.contains_key(i) && !holds(ob, i), |i: Input| owners[i])
}

/// Binding `ob` with the slots that hold `i` emptied.
pub open spec fn clear_input(ob: Option<Binding>, i: Input) -> Option<Binding> {
    match ob {
        Some(b) => Some(
            Binding {
                first: if b.first == Some(i) {
                    None
                } else {
                    b.first
                },
                second: if b.second == Some(i) {
                    None
                } else {
                    b.second
                },
            },
        ),
        None => None,
    }
}

/// Bindings and owners after slot `s` is taken from whichever other action owns it.
pub open spec fn steal_state(
    bs: Seq<Option<Binding>>,
    owners: Map<Input, Action>,
    action: Action,
    s: Option<Input>,
) -> (Seq<Option<Binding>>, Map<Input, Action>) {
    if slot_taken(owners, action, s) {
        let i = s->0;
        let k = action_index(owners[i]);
        (bs.update(k, clear_input(bs[k], i)), owners.remove(i))
    } else {
        (bs, owners)
    }
}

/// Bindings once the inputs of `b` are taken from the other actions.
pub open spec fn stolen_bindings(bs: Seq<Option<Binding>>, action: Action, b: Binding) -> Seq<Option<Binding>> {
    Seq::new(
        ACTION_COUNT as nat,
        |k: int|
            if k == action_index(action) {
                bs[k]
            } else {
                strip(bs[k], b)
            },
    )
}

/// Owners once the inputs of `b` are taken from the other actions.
pub open spec fn stolen_owners(owners: Map<Input, Action>, action: Action, b: Binding) -> Map<Input, Action> {
    Map::new(
        |i: Input| owners.contains_key(i) && !(in_binding(b, i) && owners[i] != action),
        |i: Input| owners[i],
    )
}

proof fn lemma_action_index(a: Action, b: Action)
    ensures
        0 <= action_index(a) < ACTION_COUNT,
        action_index(a) == action_index(b) ==> a == b,
{
}

proof fn lemma_steal_both(bs: Seq<Option<Binding>>, owners: Map<Input, Action>, action: Action, b: Binding)
    requires
        consistent(bs, owners),
    ensures
        ({
            let (bs1, own1) = steal_state(bs, owners, action, b.first);
            let (bs2, own2) = steal_state(bs1, own1, action, b.second);
            &&& bs2 == stolen_bindings(bs, action, b)
            &&& own2 == stolen_owners(owners, action, b)
            &&& (slot_taken(owners, action, b.first) || slot_taken(own1, action, b.second)) == takes_input(
                owners,
                action,
                b,
            )
        }),
{
    let (bs1, own1) = steal_state(bs, owners, action, b.first);
    let (bs2, own2) = steal_state(bs1, own1, action, b.second);
    let target = stolen_bindings(bs, action, b);
    lemma_action_index(action, action);
    assert forall|k: int| 0 <= k < ACTION_COUNT implies #[trigger] bs2[k] == target[k] by {
        if k != action_index(action) {
            match bs[k] {
                Some(o) => {
                    if let Some(x) = o.first {
                        assert(holds(bs[k], x));
                    }
                    if let Some(x) = o.second {
                        assert(holds(bs[k], x));
                    }
                    if let Some(x) = b.first {
                        if owners.contains_key(x) {
                            lemma_action_index(owners[x], action);
                            assert(holds(bs[action_index(owners[x])], x));
                        }
                    }
                    if let Some(y) = b.second {
                        if own1.contains_key(y) {
                            lemma_action_index(own1[y], action);
                            assert(holds(bs[action_index(own1[y])], y));
                        }
                    }
                },
                None => {
                    if let Some(x) = b.first {
                        if owners.contains_key(x) {
                            assert(holds(bs[action_index(owners[x])], x));
                        }
                    }
                    if let Some(y) = b.second {
                        if own1.contains_key(y) {
                            assert(holds(bs[action_index(own1[y])], y));
                        }
                    }
                },
            }
        } else {
            if let Some(x) = b.first {
                if owners.contains_key(x) {
                    lemma_action_index(owners[x], action);
                }
            }
            if let Some(y) = b.second {
                if own1.contains_key(y) {
                    lemma_action_index(own1[y], action);
                }
            }
        }
    }
    assert(bs2 =~= target);
    assert(own2 =~= stolen_owners(owners, action, b));
}

/// Binding an action keeps every input owned by the one action whose
/// binding uses it.
pub proof fn lemma_bind_consistent(bs: Seq<Option<Binding>>, owners: Map<Input, Action>, action: Action, b: Binding)
    requires
        consistent(bs, owners),
    ensures
        consistent(bind_bindings(bs, action, b), bind_owners(owners, action, b)),
{
    let nbs = bind_bindings(bs, action, b);
    let nown = bind_owners(owners, action, b);
    lemma_action_index(action, action);
    assert forall|i: Input, k: int| 0 <= k < ACTION_COUNT implies ((nown.contains_key(i) && action_index(nown[i])
        == k) <==> #[trigger] holds(nbs[k], i)) by {
        if owners.contains_key(i) {
            lemma_action_index(owners[i], action);
        }
        assert(holds(bs[k], i) == (owners.contains_key(i) && action_index(owners[i]) == k));
    }
}

/// Unbinding an action keeps every input owned by the one action whose
/// binding uses it.
pub proof fn lemma_unbind_consistent(bs: Seq<Option<Binding>>, owners: Map<Input, Action>, action: Action)
    requires
        consistent(bs, owners),
    ensures
        consistent(unbind_bindings(bs, action), unbind_owners(owners, bs[action_index(action)])),
{
    let nbs = unbind_bindings(bs, action);
    let nown = unbind_owners(owners, bs[action_index(action)]);
    lemma_action_index(action, action);
    assert forall|i: Input, k: int| 0 <= k < ACTION_COUNT implies ((nown.contains_key(i) && action_index(nown[i])
        == k) <==> #[trigger] holds(nbs[k], i)) by {
        assert(holds(bs[k], i) == (owners.contains_key(i) && action_index(owners[i]) == k));
        assert(holds(bs[action_index(action)], i) == (owners.contains_key(i) && action_index(owners[i])
            == action_index(action)));
        if owners.contains_key(i) {
            lemma_action_index(owners[i], action);
        }
    }
}

/// The binding the defaults give the action with index `k`.
pub open spec fn default_binding_at(k: int) -> Binding {
    let key = |c: Key| Some(Input::Keyboard(c));
    if k == 0 {
        Binding { first: key(Key::ArrowUp), second: None }
    } else if k == 1 {
        Binding { first: key(Key::ArrowDown), second: None }
    } else if k == 2 {
        Binding { first: key(Key::ArrowLeft), second: None }
    } else if k == 3 {
        Binding { first: key(Key::ArrowRight), second: None }
    } else if k == 4 {
        Binding { first: key(Key::Numpad1), second: None }
    } else if k == 5 {
        Binding { first: key(Key::Numpad3), second: None }
    } else if k == 6 {
        Binding { first: key(Key::Numpad2), second: None }
    } else if k == 7 {
        Binding { first: key(Key::KeyC), second: key(Key::KeyL) }
    } else if k == 8 {
        Binding { first: Some(Input::Mouse(Button::Left)), second: None }
    } else if k == 9 {
        Binding { first: Some(Input::Mouse(Button::Right)), second: None }
    } else if k == 10 {
        Binding { first: key(Key::Escape), second: None }
    } else {
        Binding { first: key(Key::KeyQ), second: None }
    }
}

/// The default bindings, by action index.
pub open spec fn default_bindings() -> Seq<Option<Binding>> {
    Seq::new(ACTION_COUNT as nat, |k: int| Some(default_binding_at(k)))
}

/// Step at which the defaults bind the action with index `k`.
spec fn default_step(k: int) -> int {
    if k == 10 {
        0
    } else if k < 5 {
        k + 1
    } else if k == 6 {
        6
    } else if k == 5 {
        7
    } else if k == 8 {
        8
    } else if k == 9 {
        9
    } else if k == 7 {
        10
    } else {
        11
    }
}

/// The defaults after their first `n` steps.
spec fn defaults_after(n: int) -> Seq<Option<Binding>> {
    Seq::new(
        ACTION_COUNT as nat,
        |k: int|
            if default_step(k) < n {
                Some(default_binding_at(k))
            } else {
                None
            },
    )
}

/// Inputs bound to actions, with the owner of each input recorded beside them.
#[derive(Debug)]
pub struct InputBindings {
    bindings: Vec<Option<Binding>>,
    reverse: Vec<(Input, Action)>,
}

/// The inputs recorded in `rev`, in order.
pub open spec fn rev_keys(rev: Seq<(Input, Action)>) -> Seq<Input> {
    rev.map_values(|e: (Input, Action)| e.0)
}

impl InputBindings {
    /// Action to its binding, by action index; `None` where nothing was bound.
    pub closed spec fn bindings(&self) -> Seq<Option<Binding>> {
        self.bindings@
    }

    /// Input to the action that owns it.
    pub closed spec fn owners(&self) -> Map<Input, Action> {
        Map::new(
            |i: Input| rev_keys(self.reverse@).contains(i),
            |i: Input| self.reverse@[rev_keys(self.reverse@).index_of(i)].1,
        )
    }

    pub closed spec fn wf(&self) -> bool {
        &&& rev_keys(self.reverse@).no_duplicates()
        &&& consistent(self.bindings@, self.owners())
    }

    /// No bindings.
    pub fn new() -> (r: Self)
        ensures
            r.wf(),
            r.bindings() == Seq::new(ACTION_COUNT as nat, |k: int| None::<Binding>),
            r.owners() == Map::<Input, Action>::empty(),
    {
        let mut bindings: Vec<Option<Binding>> = Vec::new();
        let mut k: usize = 0;
        while k < ACTION_COUNT
            invariant
                0 <= k <= ACTION_COUNT,
                bindings.len() == k,
                forall|j: int| 0 <= j < k ==> bindings@[j] == None::<Binding>,
            decreases ACTION_COUNT - k,
        {
            bindings.push(None);
            k += 1;
        }
        let r = InputBindings { bindings, reverse: Vec::new() };
        proof {
            assert(rev_keys(r.reverse@) =~= Seq::<Input>::empty());
            assert(r.owners() =~= Map::<Input, Action>::empty());
            assert(r.bindings() =~= Seq::new(ACTION_COUNT as nat, |k: int| None::<Binding>));
        }
        r
    }

    /// The action that owns `input`.
    pub fn action_for(&self, input: Input) -> (r: Option<Action>)
        requires
            self.wf(),
        ensures
            r == (if self.owners().contains_key(input) {
                Some(self.owners()[input])
            } else {
                None::<Action>
            }),
    {
        match self.find(input) {
            Some(k) => {
                proof {
                    assert(rev_keys(self.reverse@)[k as int] == input);
                }
                Some(self.reverse[k].1)
            },
            None => None,
        }
    }

    /// The binding of `action`, if any.
    pub fn binding(&self, action: Action) -> (r: Option<Binding>)
        requires
            self.wf(),
        ensures
            r == self.bindings()[action_index(action)],
    {
        self.bindings[action.index()]
    }

    fn find(&self, input: Input) -> (r: Option<usize>)
        requires
            rev_keys(self.reverse@).no_duplicates(),
        ensures
            match r {
                Some(k) => k < self.reverse@.len() && self.reverse@[k as int].0 == input && rev_keys(
                    self.reverse@,
                ).index_of(input) == k,
                None => !rev_keys(self.reverse@).contains(input),
            },
    {
        let mut k: usize = 0;
        while k < self.reverse.len()
            invariant
                rev_keys(self.reverse@).no_duplicates(),
                0 <= k <= self.reverse@.len(),
                forall|j: int| 0 <= j < k ==> self.reverse@[j].0 != input,
            decreases self.reverse@.len() - k,
        {
            if self.reverse[k].0 == input {
                proof {
                    let keys = rev_keys(self.reverse@);
                    assert(keys[k as int] == input);
                    assert(keys.contains(input));
                    let a = keys.index_of(input);
                    assert(keys[a] == input);
                }
                return Some(k);
            }
            k += 1;
        }
        proof {
            let keys = rev_keys(self.reverse@);
            if keys.contains(input) {
                let a = keys.index_of(input);
                assert(keys[a] == input);
                assert(self.reverse@[a].0 == input);
            }
        }
        None
    }

    /// Drops the owner of `input`.
    fn release(&mut self, input: Input)
        requires
            rev_keys(old(self).reverse@).no_duplicates(),
        ensures
            rev_keys(final(self).reverse@).no_duplicates(),
            final(self).owners() == old(self).owners().remove(input),
            final(self).bindings@ == old(self).bindings@,
    {
        if let Some(k) = self.find(input) {
            let ghost old_rev = self.reverse@;
            self.reverse.remove(k);
            proof {
                let ok = rev_keys(old_rev);
                let nk = rev_keys(self.reverse@);
                assert(nk =~= ok.remove(k as int));
                assert forall|a: int, b: int| 0 <= a < b < nk.len() implies nk[a] != nk[b] by {
                    let a0 = if a < k { a } else { a + 1 };
                    let b0 = if b < k { b } else { b + 1 };
                    assert(nk[a] == ok[a0]);
                    assert(nk[b] == ok[b0]);
                }
                assert forall|i: Input| #[trigger] nk.contains(i) <==> (ok.contains(i) && i != input) by {
                    if nk.contains(i) {
                        let a = nk.index_of(i);
                        let a0 = if a < k { a } else { a + 1 };
                        assert(ok[a0] == i);
                        assert(a0 != k);
                    }
                    if ok.contains(i) && i != input {
                        let a0 = ok.index_of(i);
                        assert(a0 != k);
                        let a = if a0 < k { a0 } else { a0 - 1 };
                        assert(nk[a] == i);
                    }
                }
                assert forall|i: Input| #[trigger] nk.contains(i) implies self.reverse@[nk.index_of(i)].1
                    == old_rev[ok.index_of(i)].1 by {
                    let a = nk.index_of(i);
                    let a0 = if a < k { a } else { a + 1 };
                    assert(ok[a0] == i);
                    assert(ok.index_of(i) == a0) by {
                        let c = ok.index_of(i);
                        assert(ok[c] == i);
                    }
                }
                assert(self.owners() =~= old(self).owners().remove(input));
            }
        }
    }

    /// Records `action` as the owner of `input`.
    fn set_owner(&mut self, input: Input, action: Action)
        requires
            rev_keys(old(self).reverse@).no_duplicates(),
        ensures
            rev_keys(final(self).reverse@).no_duplicates(),
            final(self).owners() == old(self).owners().insert(input, action),
            final(self).bindings@ == old(self).bindings@,
    {
        let ghost old_rev = self.reverse@;
        match self.find(input) {
            Some(k) => {
                self.reverse.set(k, (input, action));
                proof {
                    let ok = rev_keys(old_rev);
                    let nk = rev_keys(self.reverse@);
                    assert(nk =~= ok);
                    assert(ok[k as int] == input);
                    assert(ok.contains(input));
                    assert forall|i: Input| #[trigger] nk.contains(i) implies self.reverse@[nk.index_of(i)].1
                        == (if i == input {
                        action
                    } else {
                        old_rev[ok.index_of(i)].1
                    }) by {
                        let a = nk.index_of(i);
                        assert(nk[a] == i);
                        if i != input {
                            assert(a != k);
                        }
                    }
                    assert(self.owners() =~= old(self).owners().insert(input, action));
                }
            },
            None => {
                self.reverse.push((input, action));
                proof {
                    let ok = rev_keys(old_rev);
                    let nk = rev_keys(self.reverse@);
                    let n = ok.len() as int;
                    assert(nk =~= ok.push(input));
                    assert forall|i: Input| #[trigger] nk.contains(i) <==> (ok.contains(i) || i == input) by {
                        if ok.contains(i) {
                            let a = ok.index_of(i);
                            assert(nk[a] == i);
                        }
                        if i == input {
                            assert(nk[n] == i);
                        }
                        if nk.contains(i) && i != input {
                            let a = nk.index_of(i);
                            assert(a < n);
                            assert(ok[a] == i);
                        }
                    }
                    assert forall|i: Input| #[trigger] nk.contains(i) implies self.reverse@[nk.index_of(i)].1
                        == (if i == input {
                        action
                    } else {
                        old_rev[ok.index_of(i)].1
                    }) by {
                        let a = nk.index_of(i);
                        assert(nk[a] == i);
                        if i != input {
                            assert(a < n);
                            assert(ok[a] == i);
                            let c = ok.index_of(i);
                            assert(ok[c] == i);
                        } else {
                            assert(a == n);
                        }
                    }
                    assert(self.owners() =~= old(self).owners().insert(input, action));
                }
            },
        }
    }
    fn owner_of(&self, input: Input) -> (r: Option<Action>)
        requires
            rev_keys(self.reverse@).no_duplicates(),
        ensures
            r == (if self.owners().contains_key(input) {
                Some(self.owners()[input])
            } else {
                None::<Action>
            }),
    {
        match self.find(input) {
            Some(k) => {
                proof {
                    assert(rev_keys(self.reverse@)[k as int] == input);
                }
                Some(self.reverse[k].1)
            },
            None => None,
        }
    }

    /// Takes `input` from the action other than `action` that owns it, if any,
    /// emptying that action's slots that hold it; reports whether it did.
    fn steal(&mut self, action: Action, input: Input) -> (r: bool)
        requires
            rev_keys(old(self).reverse@).no_duplicates(),
            old(self).bindings@.len() == ACTION_COUNT,
        ensures
            rev_keys(final(self).reverse@).no_duplicates(),
            r == slot_taken(old(self).owners(), action, Some(input)),
            (final(self).bindings@, final(self).owners()) == steal_state(
                old(self).bindings@,
                old(self).owners(),
                action,
                Some(input),
            ),
    {
        match self.owner_of(input) {
            Some(owner) => {
                if owner != action {
                    let k = owner.index();
                    let cleared = match self.bindings[k] {
                        Some(b) => Some(
                            Binding {
                                first: if b.first == Some(input) {
                                    None
                                } else {
                                    b.first
                                },
                                second: if b.second == Some(input) {
                                    None
                                } else {
                                    b.second
                                },
                            },
                        ),
                        None => None,
                    };
                    self.bindings.set(k, cleared);
                    self.release(input);
                    true
                } else {
                    false
                }
            },
            None => false,
        }
    }

    /// Binds `binding` to `action`, taking any of its inputs away from the
    /// actions that had them. Returns `false` if some input was taken from
    /// another action, `true` if the binding went in cleanly.
    pub fn bind(&mut self, action: Action, binding: Binding) -> (r: bool)
        requires
            old(self).wf(),
        ensures
            final(self).wf(),
            final(self).bindings() == bind_bindings(old(self).bindings(), action, binding),
            final(self).owners() == bind_owners(old(self).owners(), action, binding),
            r == !takes_input(old(self).owners(), action, binding),
    {
        let ghost bs0 = self.bindings@;
        let ghost own0 = self.owners();
        proof {
            lemma_steal_both(bs0, own0, action, binding);
        }
        let mut had_conflict = false;
        if let Some(i) = binding.first {
            if self.steal(action, i) {
                had_conflict = true;
            }
        }
        if let Some(i) = binding.second {
            if self.steal(action, i) {
                had_conflict = true;
            }
        }
        proof {
            assert(self.bindings@ == stolen_bindings(bs0, action, binding));
            assert(self.owners() == stolen_owners(own0, action, binding));
            lemma_action_index(action, action);
        }
        let ghost own1 = self.owners();
        let idx = action.index();
        let previous = self.bindings[idx];
        if let Some(old_binding) = previous {
            if let Some(i) = old_binding.first {
                if !(binding.first == Some(i) || binding.second == Some(i)) {
                    self.release(i);
                }
            }
            if let Some(i) = old_binding.second {
                if !(binding.first == Some(i) || binding.second == Some(i)) {
                    self.release(i);
                }
            }
        }
        proof {
            assert(previous == bs0[action_index(action)]);
            assert forall|i: Input| #[trigger] self.owners().contains_key(i) <==> (own1.contains_key(i) && !(holds(
                previous,
                i,
            ) && !in_binding(binding, i))) by {}
        }
        if let Some(i) = binding.first {
            self.set_owner(i, action);
        }
        if let Some(i) = binding.second {
            self.set_owner(i, action);
        }
        self.bindings.set(idx, Some(binding));
        proof {
            assert(self.bindings@ =~= bind_bindings(bs0, action, binding));
            assert forall|i: Input| own0.contains_key(i) implies (holds(previous, i) <==> own0[i] == action) by {
                assert(holds(bs0[action_index(own0[i])], i));
                lemma_action_index(own0[i], action);
                assert(holds(bs0[action_index(action)], i) == (own0.contains_key(i) && action_index(own0[i])
                    == action_index(action)));
            }
            assert forall|i: Input| !own0.contains_key(i) implies !holds(previous, i) by {
                assert(holds(bs0[action_index(action)], i) == (own0.contains_key(i) && action_index(own0[i])
                    == action_index(action)));
            }
            assert(self.owners() =~= bind_owners(own0, action, binding));
            lemma_bind_consistent(bs0, own0, action, binding);
        }
        !had_conflict
    }

    /// Removes the binding of `action` and frees its inputs.
    pub fn unbind(&mut self, action: Action)
        requires
            old(self).wf(),
        ensures
            final(self).wf(),
            final(self).bindings() == unbind_bindings(old(self).bindings(), action),
            final(self).owners() == unbind_owners(old(self).owners(), old(self).bindings()[action_index(action)]),
    {
        let ghost bs0 = self.bindings@;
        let ghost own0 = self.owners();
        let idx = action.index();
        if let Some(b) = self.bindings[idx] {
            self.bindings.set(idx, None);
            if let Some(i) = b.first {
                self.release(i);
            }
            if let Some(i) = b.second {
                self.release(i);
            }
        }
        proof {
            assert(self.bindings@ =~= unbind_bindings(bs0, action));
            assert(self.owners() =~= unbind_owners(own0, bs0[action_index(action)]));
            lemma_unbind_consistent(bs0, own0, action);
        }
    }
    /// Binds `binding` to `action` as one step of the defaults.
    fn bind_default(&mut self, action: Action, binding: Binding, n: Ghost<int>)
        requires
            old(self).wf(),
            old(self).bindings() == defaults_after(n@),
            0 <= n@ < ACTION_COUNT,
            default_step(action_index(action)) == n@,
            binding == default_binding_at(action_index(action)),
        ensures
            final(self).wf(),
            final(self).bindings() == defaults_after(n@ + 1),
    {
        let ghost bs0 = self.bindings();
        self.bind(action, binding);
        proof {
            lemma_action_index(action, action);
            assert forall|k: int| 0 <= k < ACTION_COUNT implies #[trigger] self.bindings()[k] == defaults_after(
                n@ + 1,
            )[k] by {
                if k != action_index(action) {
                    assert(default_step(k) != n@);
                }
            }
            assert(self.bindings() =~= defaults_after(n@ + 1));
        }
    }

    /// The default bindings: arrows move, the numeric keypad jumps, crouches
    /// and goes prone, C or L toggles the mouse lock, the mouse buttons act,
    /// Escape toggles the menu and Q quits.
    pub fn default() -> (r: Self)
        ensures
            r.wf(),
            r.bindings() == default_bindings(),
            r.owners().contains_key(Input::Keyboard(Key::Escape)) && r.owners()[Input::Keyboard(Key::Escape)] == Action::ToggleMenu,
            r.owners().contains_key(Input::Keyboard(Key::ArrowUp)) && r.owners()[Input::Keyboard(Key::ArrowUp)] == Action::MoveForward,
            r.owners().contains_key(Input::Keyboard(Key::ArrowDown)) && r.owners()[Input::Keyboard(Key::ArrowDown)] == Action::MoveBackward,
            r.owners().contains_key(Input::Keyboard(Key::ArrowLeft)) && r.owners()[Input::Keyboard(Key::ArrowLeft)] == Action::MoveLeft,
            r.owners().contains_key(Input::Keyboard(Key::ArrowRight)) && r.owners()[Input::Keyboard(Key::ArrowRight)] == Action::MoveRight,
            r.owners().contains_key(Input::Keyboard(Key::Numpad1)) && r.owners()[Input::Keyboard(Key::Numpad1)] == Action::Jump,
            r.owners().contains_key(Input::Keyboard(Key::Numpad2)) && r.owners()[Input::Keyboard(Key::Numpad2)] == Action::Crouch,
            r.owners().contains_key(Input::Keyboard(Key::Numpad3)) && r.owners()[Input::Keyboard(Key::Numpad3)] == Action::Prone,
            r.owners().contains_key(Input::Mouse(Button::Left)) && r.owners()[Input::Mouse(Button::Left)] == Action::PrimaryAction,
            r.owners().contains_key(Input::Mouse(Button::Right)) && r.owners()[Input::Mouse(Button::Right)] == Action::SecondaryAction,
            r.owners().contains_key(Input::Keyboard(Key::KeyC)) && r.owners()[Input::Keyboard(Key::KeyC)] == Action::ToggleMouseLock,
            r.owners().contains_key(Input::Keyboard(Key::KeyL)) && r.owners()[Input::Keyboard(Key::KeyL)] == Action::ToggleMouseLock,
            r.owners().contains_key(Input::Keyboard(Key::KeyQ)) && r.owners()[Input::Keyboard(Key::KeyQ)] == Action::Quit,
            forall|i: Input| i != Input::Keyboard(Key::Escape) && i != Input::Keyboard(Key::ArrowUp) && i != Input::Keyboard(Key::ArrowDown) && i != Input::Keyboard(Key::ArrowLeft) && i != Input::Keyboard(Key::ArrowRight) && i != Input::Keyboard(Key::Numpad1) && i != Input::Keyboard(Key::Numpad2) && i != Input::Keyboard(Key::Numpad3) && i != Input::Mouse(Button::Left) && i != Input::Mouse(Button::Right) && i != Input::Keyboard(Key::KeyC) && i != Input::Keyboard(Key::KeyL) && i != Input::Keyboard(Key::KeyQ) ==> !(#[trigger] r.owners().contains_key(i)),
    {
        let mut s = Self::new();
        let kb = |k: Key| -> (r: Option<Input>)
            ensures
                r == Some(Input::Keyboard(k)),
            { Some(Input::Keyboard(k)) };
        proof {
            assert(s.bindings() =~= defaults_after(0));
        }
        s.bind_default(Action::ToggleMenu, Binding { first: kb(Key::Escape), second: None }, Ghost(0));
        s.bind_default(Action::MoveForward, Binding { first: kb(Key::ArrowUp), second: None }, Ghost(1));
        s.bind_default(Action::MoveBackward, Binding { first: kb(Key::ArrowDown), second: None }, Ghost(2));
        s.bind_default(Action::MoveLeft, Binding { first: kb(Key::ArrowLeft), second: None }, Ghost(3));
        s.bind_default(Action::MoveRight, Binding { first: kb(Key::ArrowRight), second: None }, Ghost(4));
        s.bind_default(Action::Jump, Binding { first: kb(Key::Numpad1), second: None }, Ghost(5));
        s.bind_default(Action::Crouch, Binding { first: kb(Key::Numpad2), second: None }, Ghost(6));
        s.bind_default(Action::Prone, Binding { first: kb(Key::Numpad3), second: None }, Ghost(7));
        s.bind_default(
            Action::PrimaryAction,
            Binding { first: Some(Input::Mouse(Button::Left)), second: None },
            Ghost(8),
        );
        s.bind_default(
            Action::SecondaryAction,
            Binding { first: Some(Input::Mouse(Button::Right)), second: None },
            Ghost(9),
        );
        s.bind_default(
            Action::ToggleMouseLock,
            Binding { first: kb(Key::KeyC), second: kb(Key::KeyL) },
            Ghost(10),
        );
        s.bind_default(Action::Quit, Binding { first: kb(Key::KeyQ), second: None }, Ghost(11));
        proof {
            assert(s.bindings() =~= default_bindings());
            lemma_default_table(s.bindings(), s.owners());
        }
        s
    }

    /// Every input is owned by exactly the action whose binding uses it.
    pub proof fn lemma_consistent(&self)
        requires
            self.wf(),
        ensures
            consistent(self.bindings(), self.owners()),
    {
    }
}

/// Under consistent bindings, an input that the binding of `a` uses is owned by `a`.
proof fn lemma_owner_of(bs: Seq<Option<Binding>>, owners: Map<Input, Action>, i: Input, a: Action)
    requires
        consistent(bs, owners),
        holds(bs[action_index(a)], i),
    ensures
        owners.contains_key(i) && owners[i] == a,
{
    lemma_action_index(a, a);
    assert(holds(bs[action_index(a)], i));
    lemma_action_index(owners[i], a);
}

/// The default table: the arrows move forward, back, left and right, the
/// keypad's 1, 2 and 3 jump, crouch and go prone, the left and right mouse
/// buttons act, C and L toggle the mouse lock, Escape toggles the menu and Q
/// quits; no other input does anything.
pub proof fn lemma_default_table(bs: Seq<Option<Binding>>, owners: Map<Input, Action>)
    requires
        bs == default_bindings(),
        consistent(bs, owners),
    ensures
        owners.contains_key(Input::Keyboard(Key::Escape)) && owners[Input::Keyboard(Key::Escape)] == Action::ToggleMenu,
        owners.contains_key(Input::Keyboard(Key::ArrowUp)) && owners[Input::Keyboard(Key::ArrowUp)] == Action::MoveForward,
        owners.contains_key(Input::Keyboard(Key::ArrowDown)) && owners[Input::Keyboard(Key::ArrowDown)] == Action::MoveBackward,
        owners.contains_key(Input::Keyboard(Key::ArrowLeft)) && owners[Input::Keyboard(Key::ArrowLeft)] == Action::MoveLeft,
        owners.contains_key(Input::Keyboard(Key::ArrowRight)) && owners[Input::Keyboard(Key::ArrowRight)] == Action::MoveRight,
        owners.contains_key(Input::Keyboard(Key::Numpad1)) && owners[Input::Keyboard(Key::Numpad1)] == Action::Jump,
        owners.contains_key(Input::Keyboard(Key::Numpad2)) && owners[Input::Keyboard(Key::Numpad2)] == Action::Crouch,
        owners.contains_key(Input::Keyboard(Key::Numpad3)) && owners[Input::Keyboard(Key::Numpad3)] == Action::Prone,
        owners.contains_key(Input::Mouse(Button::Left)) && owners[Input::Mouse(Button::Left)] == Action::PrimaryAction,
        owners.contains_key(Input::Mouse(Button::Right)) && owners[Input::Mouse(Button::Right)] == Action::SecondaryAction,
        owners.contains_key(Input::Keyboard(Key::KeyC)) && owners[Input::Keyboard(Key::KeyC)] == Action::ToggleMouseLock,
        owners.contains_key(Input::Keyboard(Key::KeyL)) && owners[Input::Keyboard(Key::KeyL)] == Action::ToggleMouseLock,
        owners.contains_key(Input::Keyboard(Key::KeyQ)) && owners[Input::Keyboard(Key::KeyQ)] == Action::Quit,
        forall|i: Input| i != Input::Keyboard(Key::Escape) && i != Input::Keyboard(Key::ArrowUp) && i != Input::Keyboard(Key::ArrowDown) && i != Input::Keyboard(Key::ArrowLeft) && i != Input::Keyboard(Key::ArrowRight) && i != Input::Keyboard(Key::Numpad1) && i != Input::Keyboard(Key::Numpad2) && i != Input::Keyboard(Key::Numpad3) && i != Input::Mouse(Button::Left) && i != Input::Mouse(Button::Right) && i != Input::Keyboard(Key::KeyC) && i != Input::Keyboard(Key::KeyL) && i != Input::Keyboard(Key::KeyQ) ==> !(#[trigger] owners.contains_key(i)),
{
    lemma_owner_of(bs, owners, Input::Keyboard(Key::Escape), Action::ToggleMenu);
    lemma_owner_of(bs, owners, Input::Keyboard(Key::ArrowUp), Action::MoveForward);
    lemma_owner_of(bs, owners, Input::Keyboard(Key::ArrowDown), Action::MoveBackward);
    lemma_owner_of(bs, owners, Input::Keyboard(Key::ArrowLeft), Action::MoveLeft);
    lemma_owner_of(bs, owners, Input::Keyboard(Key::ArrowRight), Action::MoveRight);
    lemma_owner_of(bs, owners, Input::Keyboard(Key::Numpad1), Action::Jump);
    lemma_owner_of(bs, owners, Input::Keyboard(Key::Numpad2), Action::Crouch);
    lemma_owner_of(bs, owners, Input::Keyboard(Key::Numpad3), Action::Prone);
    lemma_owner_of(bs, owners, Input::Mouse(Button::Left), Action::PrimaryAction);
    lemma_owner_of(bs, owners, Input::Mouse(Button::Right), Action::SecondaryAction);
    lemma_owner_of(bs, owners, Input::Keyboard(Key::KeyC), Action::ToggleMouseLock);
    lemma_owner_of(bs, owners, Input::Keyboard(Key::KeyL), Action::ToggleMouseLock);
    lemma_owner_of(bs, owners, Input::Keyboard(Key::KeyQ), Action::Quit);
    assert forall|i: Input| i != Input::Keyboard(Key::Escape) && i != Input::Keyboard(Key::ArrowUp) && i != Input::Keyboard(Key::ArrowDown) && i != Input::Keyboard(Key::ArrowLeft) && i != Input::Keyboard(Key::ArrowRight) && i != Input::Keyboard(Key::Numpad1) && i != Input::Keyboard(Key::Numpad2) && i != Input::Keyboard(Key::Numpad3) && i != Input::Mouse(Button::Left) && i != Input::Mouse(Button::Right) && i != Input::Keyboard(Key::KeyC) && i != Input::Keyboard(Key::KeyL) && i != Input::Keyboard(Key::KeyQ) implies !(#[trigger] owners.contains_key(i)) by {
        if owners.contains_key(i) {
            let k = action_index(owners[i]);
            lemma_action_index(owners[i], owners[i]);
            assert(holds(bs[k], i));
        }
    }
}

/// The set of actions flagged in `flags`, by action index.
pub open spec fn flagged(flags: Seq<bool>) -> Set<Action> {
    Set::new(|a: Action| flags[action_index(a)])
}

/// Held, pressed-this-tick and released-this-tick actions after the input
/// of `action` went down (`down`) or up.
pub open spec fn after_update(
    s: (Set<Action>, Set<Action>, Set<Action>),
    action: Action,
    down: bool,
) -> (Set<Action>, Set<Action>, Set<Action>) {
    let (held, pressed, released) = s;
    if down {
        (held.insert(action), if held.contains(action) {
            pressed
        } else {
            pressed.insert(action)
        }, released)
    } else {
        (held.remove(action), pressed, released.insert(action))
    }
}

/// Which actions are held, and which were pressed or released this tick.
#[derive(Debug)]
pub struct InputState {
    held: Vec<bool>,
    pressed: Vec<bool>,
    released: Vec<bool>,
}

fn no_flags() -> (r: Vec<bool>)
    ensures
        r@.len() == ACTION_COUNT,
        forall|k: int| 0 <= k < ACTION_COUNT ==> !(#[trigger] r@[k]),
{
    let mut v: Vec<bool> = Vec::new();
    let mut k: usize = 0;
    while k < ACTION_COUNT
        invariant
            0 <= k <= ACTION_COUNT,
            v.len() == k,
            forall|j: int| 0 <= j < k ==> !(#[trigger] v@[j]),
        decreases ACTION_COUNT - k,
    {
        v.push(false);
        k += 1;
    }
    v
}

impl InputState {
    /// Held, pressed this tick, released this tick.
    pub closed spec fn view_sets(&self) -> (Set<Action>, Set<Action>, Set<Action>) {
        (flagged(self.held@), flagged(self.pressed@), flagged(self.released@))
    }

    pub closed spec fn wf(&self) -> bool {
        self.held@.len() == ACTION_COUNT && self.pressed@.len() == ACTION_COUNT && self.released@.len()
            == ACTION_COUNT
    }

    /// Nothing held, pressed or released.
    pub fn new() -> (r: Self)
        ensures
            r.wf(),
            r.view_sets() == (Set::<Action>::empty(), Set::<Action>::empty(), Set::<Action>::empty()),
    {
        let r = InputState { held: no_flags(), pressed: no_flags(), released: no_flags() };
        proof {
            assert(flagged(r.held@) =~= Set::<Action>::empty());
            assert(flagged(r.pressed@) =~= Set::<Action>::empty());
            assert(flagged(r.released@) =~= Set::<Action>::empty());
        }
        r
    }

    /// Records that the input of `action` went down (`down`) or up: a press
    /// of an action not yet held counts as pressed this tick; a release
    /// counts as released this tick.
    pub fn update(&mut self, action: Action, down: bool)
        requires
            old(self).wf(),
        ensures
            final(self).wf(),
            final(self).view_sets() == after_update(old(self).view_sets(), action, down),
    {
        let k = action.index();
        let ghost s0 = self.view_sets();
        if down {
            if !self.held[k] {
                self.pressed.set(k, true);
            }
            self.held.set(k, true);
        } else {
            self.held.set(k, false);
            self.released.set(k, true);
        }
        proof {
            let s1 = after_update(s0, action, down);
            assert forall|a: Action| #[trigger] flagged(self.held@).contains(a) == s1.0.contains(a) by {
                lemma_action_index(a, action);
            }
            assert forall|a: Action| #[trigger] flagged(self.pressed@).contains(a) == s1.1.contains(a) by {
                lemma_action_index(a, action);
            }
            assert forall|a: Action| #[trigger] flagged(self.released@).contains(a) == s1.2.contains(a) by {
                lemma_action_index(a, action);
            }
            assert(flagged(self.held@) =~= s1.0);
            assert(flagged(self.pressed@) =~= s1.1);
            assert(flagged(self.released@) =~= s1.2);
        }
    }

    /// Forgets this tick's presses and releases; held actions stay held.
    pub fn clear(&mut self)
        requires
            old(self).wf(),
        ensures
            final(self).wf(),
            final(self).view_sets() == (old(self).view_sets().0, Set::<Action>::empty(), Set::<Action>::empty()),
    {
        self.pressed = no_flags();
        self.released = no_flags();
        proof {
            assert(flagged(self.pressed@) =~= Set::<Action>::empty());
            assert(flagged(self.released@) =~= Set::<Action>::empty());
        }
    }

    pub fn is_held(&self, action: Action) -> (r: bool)
        requires
            self.wf(),
        ensures
            r == self.view_sets().0.contains(action),
    {
        self.held[action.index()]
    }

    pub fn is_pressed(&self, action: Action) -> (r: bool)
        requires
            self.wf(),
        ensures
            r == self.view_sets().1.contains(action),
    {
        self.pressed[action.index()]
    }

    pub fn is_released(&self, action: Action) -> (r: bool)
        requires
            self.wf(),
        ensures
            r == self.view_sets().2.contains(action),
    {
        self.released[action.index()]
    }
}

/// Holding an action's input down, as key repeat does, counts as one press:
/// a second down event adds nothing to the pressed set.
pub proof fn lemma_repeat_presses_once(s: (Set<Action>, Set<Action>, Set<Action>), action: Action)
    ensures
        after_update(after_update(s, action, true), action, true) == after_update(s, action, true),
{
    let s1 = after_update(s, action, true);
    assert(s1.0.insert(action) =~= s1.0);
}

/// A press followed by a release leaves the action not held, pressed and
/// released this tick.
pub proof fn lemma_press_then_release(s: (Set<Action>, Set<Action>, Set<Action>), action: Action)
    ensures
        ({
            let s2 = after_update(after_update(s, action, true), action, false);
            !s2.0.contains(action) && s2.1.contains(action) == (s.1.contains(action) || !s.0.contains(action))
                && s2.2.contains(action)
        }),
{
}

/// Bindings and per-tick state of the player's inputs.
#[derive(Debug)]
pub struct InputManager {
    pub bindings: InputBindings,
    pub state: InputState,
}

impl InputManager {
    pub open spec fn wf(&self) -> bool {
        self.bindings.wf() && self.state.wf()
    }

    /// The default bindings, nothing held.
    pub fn new() -> (r: Self)
        ensures
            r.wf(),
            r.bindings.bindings() == default_bindings(),
            r.state.view_sets() == (Set::<Action>::empty(), Set::<Action>::empty(), Set::<Action>::empty()),
    {
        InputManager { bindings: InputBindings::default(), state: InputState::new() }
    }

    /// Feeds a button going down (`down`) or up to the action it is bound
    /// to; inputs bound to nothing are ignored.
    pub fn button_update(&mut self, input: Input, down: bool)
        requires
            old(self).wf(),
        ensures
            final(self).wf(),
            final(self).bindings == old(self).bindings,
            final(self).state.view_sets() == (if old(self).bindings.owners().contains_key(input) {
                after_update(old(self).state.view_sets(), old(self).bindings.owners()[input], down)
            } else {
                old(self).state.view_sets()
            }),
    {
        if let Some(action) = self.bindings.action_for(input) {
            self.state.update(action, down);
        }
    }

    pub fn is_held(&self, action: Action) -> (r: bool)
        requires
            self.wf(),
        ensures
            r == self.state.view_sets().0.contains(action),
    {
        self.state.is_held(action)
    }

    pub fn is_pressed(&self, action: Action) -> (r: bool)
        requires
            self.wf(),
        ensures
            r == self.state.view_sets().1.contains(action),
    {
        self.state.is_pressed(action)
    }

    pub fn is_released(&self, action: Action) -> (r: bool)
        requires
            self.wf(),
        ensures
            r == self.state.view_sets().2.contains(action),
    {
        self.state.is_released(action)
    }
}

} // verus!
