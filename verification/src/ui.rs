use vstd::prelude::*;
use vstd::string::StrSliceExecFns;

verus! {

/// Which screen of the menu is showing; `World` is the game with no menu.
#[derive(Debug, Clone, Copy, PartialEq, Eq, Structural)]
pub enum MenuState {
    World,
    Title,
    Main,
    GameOptions,
    SystemOptions,
    Keybinds,
}

/// Settings staged in the UI and applied when the user hits Accept.
#[derive(Debug, Clone, Copy, PartialEq, Eq, Structural)]
pub struct PendingSettings {
    pub vsync: bool,
    pub fps_cap: u32,
}

impl Default for PendingSettings {
    /// V-sync on, frame rate capped at 60.
    fn default() -> (r: Self)
        ensures
            r.vsync,
            r.fps_cap == 60,
    {
        PendingSettings { vsync: true, fps_cap: 60 }
    }
}

/// A setting that a checkbox can be bound to.
#[derive(Debug, Clone, Copy, PartialEq, Eq, Structural)]
pub enum SettingKey {
    Vsync,
}

/// What releasing the primary button over a node asks for.
#[derive(Debug, Clone, Copy, PartialEq, Eq, Structural)]
pub enum UiAction {
    CloseMenu,
    ExitApp,
    BackToMain,
    OpenKeybinds,
    OpenGameOptions,
    OpenSystemOptions,
    ToggleVsync,
    ApplySettings,
}

/// Whether a node's children may draw outside it.
#[derive(Debug, Clone, Copy, PartialEq, Eq, Structural)]
pub enum Overflow {
    Visible,
    Clip,
}

/// A point of a rectangle that a node is attached by.
#[derive(Debug, Clone, Copy, PartialEq, Eq, Structural)]
pub enum Anchor {
    TopLeft,
    Top,
    TopRight,
    Left,
    Center,
    Right,
    BottomLeft,
    Bottom,
    BottomRight,
}

/// Position of anchor `a` within a rectangle, in halves of its width and
/// height: `(0, 0)` is the top-left corner, `(2, 2)` the bottom-right one.
pub open spec fn anchor_halves(a: Anchor) -> (u32, u32) {
    match a {
        Anchor::TopLeft => (0, 0),
        Anchor::Top => (1, 0),
        Anchor::TopRight => (2, 0),
        Anchor::Left => (0, 1),
        Anchor::Center => (1, 1),
        Anchor::Right => (2, 1),
        Anchor::BottomLeft => (0, 2),
        Anchor::Bottom => (1, 2),
        Anchor::BottomRight => (2, 2),
    }
}

impl Anchor {
    /// Position of the anchor within a rectangle, in halves of its width and height.
    pub fn fractions_in_halves(self) -> (r: (u32, u32))
        ensures
            r == anchor_halves(self),
    {
        match self {
            Anchor::TopLeft => (0, 0),
            Anchor::Top => (1, 0),
            Anchor::TopRight => (2, 0),
            Anchor::Left => (0, 1),
            Anchor::Center => (1, 1),
            Anchor::Right => (2, 1),
            Anchor::BottomLeft => (0, 2),
            Anchor::Bottom => (1, 2),
            Anchor::BottomRight => (2, 2),
        }
    }
}

/// The actions an interactive node fires on press, release, enter and leave.
#[derive(Debug, Clone, Copy, PartialEq, Eq, Structural)]
pub struct InteractionCb {
    pub on_pressed: Option<UiAction>,
    pub on_release: Option<UiAction>,
    pub on_enter: Option<UiAction>,
    pub on_leave: Option<UiAction>,
}

impl Default for InteractionCb {
    /// No actions.
    fn default() -> (r: Self)
        ensures
            r.on_pressed.is_none() && r.on_release.is_none() && r.on_enter.is_none() && r.on_leave.is_none(),
    {
        InteractionCb { on_pressed: None, on_release: None, on_enter: None, on_leave: None }
    }
}

/// The actions an interactive node fires when pressed, released, entered or left.
pub type Interaction = InteractionCb;

/// `v` limited to `[lo, hi]`.
pub open spec fn clamp_spec(v: int, lo: int, hi: int) -> int {
    if v < lo {
        lo
    } else if v > hi {
        hi
    } else {
        v
    }
}

/// `v` limited to `[lo, hi]` and moved down to `lo` plus a whole number of steps.
pub open spec fn snap_spec(v: int, lo: int, hi: int, step: int) -> int {
    let c = clamp_spec(v, lo, hi);
    lo + ((c - lo) / step) * step
}

/// A slider's value, its range and step, and the nodes of its thumb and label.
#[derive(Debug, Clone, Copy, PartialEq, Eq, Structural)]
pub struct SliderNode {
    pub min_value: u32,
    pub max_value: u32,
    pub value: u32,
    pub step_size: u32,
    pub thumb_idx: Option<usize>,
    pub label_idx: Option<usize>,
}

impl SliderNode {
    pub open spec fn min(&self) -> u32 {
        self.min_value
    }

    pub open spec fn max(&self) -> u32 {
        self.max_value
    }

    pub open spec fn thumb(&self) -> Option<usize> {
        self.thumb_idx
    }

    pub open spec fn label(&self) -> Option<usize> {
        self.label_idx
    }

    /// Range `[0, 0]`, value 0, step 1, no thumb or label.
    pub fn new() -> (r: Self)
        ensures
            r.min() == 0 && r.max() == 0 && r.value == 0 && r.step_size == 1,
            r.thumb().is_none() && r.label().is_none(),
    {
        SliderNode { min_value: 0, max_value: 0, value: 0, step_size: 1, thumb_idx: None, label_idx: None }
    }

    pub fn get_label(&self) -> (r: Option<usize>)
        ensures
            r == self.label(),
    {
        self.label_idx
    }

    pub fn get_thumb(&self) -> (r: Option<usize>)
        ensures
            r == self.thumb(),
    {
        self.thumb_idx
    }

    pub fn set_label(&mut self, idx: Option<usize>)
        ensures
            final(self).label() == idx,
            final(self).thumb() == old(self).thumb(),
            final(self).min() == old(self).min() && final(self).max() == old(self).max(),
            final(self).value == old(self).value && final(self).step_size == old(self).step_size,
    {
        self.label_idx = idx;
    }

    pub fn set_thumb(&mut self, idx: Option<usize>)
        ensures
            final(self).thumb() == idx,
            final(self).label() == old(self).label(),
            final(self).min() == old(self).min() && final(self).max() == old(self).max(),
            final(self).value == old(self).value && final(self).step_size == old(self).step_size,
    {
        self.thumb_idx = idx;
    }

    /// Sets the range to `[min, max]` and clamps the value into it.
    pub fn set_min_max(&mut self, min: u32, max: u32)
        requires
            min <= max,
        ensures
            final(self).min() == min && final(self).max() == max,
            final(self).value == clamp_spec(old(self).value as int, min as int, max as int),
            final(self).step_size == old(self).step_size,
            final(self).thumb() == old(self).thumb() && final(self).label() == old(self).label(),
    {
        self.min_value = min;
        self.max_value = max;
        self.value = if self.value < min {
            min
        } else if self.value > max {
            max
        } else {
            self.value
        };
    }

    /// Clamps `value` to the range and snaps it down to the nearest step.
    pub fn set_value(&mut self, value: u32)
        requires
            old(self).min() <= old(self).max(),
            old(self).step_size > 0,
        ensures
            final(self).value == snap_spec(
                value as int,
                old(self).min() as int,
                old(self).max() as int,
                old(self).step_size as int,
            ),
            final(self).min() == old(self).min() && final(self).max() == old(self).max(),
            final(self).step_size == old(self).step_size,
            final(self).thumb() == old(self).thumb() && final(self).label() == old(self).label(),
    {
        let v = if value < self.min_value {
            self.min_value
        } else if value > self.max_value {
            self.max_value
        } else {
            value
        };
        let steps = (v - self.min_value) / self.step_size;
        proof {
            let d = (v - self.min_value) as int;
            let s = self.step_size as int;
            assert(steps * s <= d) by (nonlinear_arith)
                requires
                    steps == d / s,
                    s > 0,
                    d >= 0,
            ;
        }
        self.value = self.min_value + steps * self.step_size;
    }

    /// Number of decimal digits of the largest value, the width the value
    /// label is padded to.
    pub fn display_width(&self) -> (r: usize)
        ensures
            r == decimal_digits(self.max() as nat),
    {
        digits_of(self.max_value)
    }
}

/// Number of decimal digits of `n` (1 for zero).
pub open spec fn decimal_digits(n: nat) -> nat
    decreases n,
{
    if n < 10 {
        1
    } else {
        1 + decimal_digits(n / 10)
    }
}

/// `10` to the power `k`.
pub open spec fn pow10(k: nat) -> nat
    decreases k,
{
    if k == 0 {
        1
    } else {
        10 * pow10((k - 1) as nat)
    }
}

proof fn lemma_digits_bound(n: nat, k: nat)
    requires
        k >= 1,
        n < pow10(k),
    ensures
        decimal_digits(n) <= k,
    decreases k,
{
    if n >= 10 {
        assert(k >= 2) by {
            if k == 1 {
                assert(pow10(1) == 10 * pow10(0));
            }
        }
        let k1 = (k - 1) as nat;
        assert(n / 10 < pow10(k1)) by (nonlinear_arith)
            requires
                n < 10 * pow10(k1),
        ;
        lemma_digits_bound(n / 10, k1);
    }
}

fn digits_of(n: u32) -> (r: usize)
    ensures
        r == decimal_digits(n as nat),
{
    proof {
        reveal_with_fuel(pow10, 11);
        assert(pow10(10) == 10000000000nat);
        lemma_digits_bound(n as nat, 10);
    }
    let mut m = n;
    let mut count: usize = 1;
    while m >= 10
        invariant
            1 <= count,
            decimal_digits(m as nat) >= 1,
            count + decimal_digits(m as nat) - 1 == decimal_digits(n as nat),
            decimal_digits(n as nat) <= 10,
        decreases m,
    {
        m = m / 10;
        count += 1;
    }
    count
}

/// A text label; it remembers the longest text it ever held, so the space
/// reserved for it only grows.
#[derive(Debug)]
pub struct LabelNode {
    text: String,
    max_len: usize,
}

impl LabelNode {
    pub closed spec fn max_len_spec(&self) -> nat {
        self.max_len as nat
    }

    pub closed spec fn text_spec(&self) -> Seq<char> {
        self.text@
    }

    /// The text shown.
    pub fn text(&self) -> (r: &String)
        ensures
            r@ == self.text_spec(),
    {
        &self.text
    }

    /// A label showing `text`.
    pub fn new(text: String) -> (r: Self)
        ensures
            r.text_spec() == text@,
            r.max_len_spec() == text@.len(),
    {
        let n = text.as_str().unicode_len();
        LabelNode { text, max_len: n }
    }

    /// Longest text, in characters, the label has held.
    pub fn max_len(&self) -> (r: usize)
        ensures
            r == self.max_len_spec(),
    {
        self.max_len
    }

    /// Replaces the text; reports whether it is the longest the label has
    /// held, in which case the reserved space grows to it.
    pub fn set_text(&mut self, text: String) -> (r: bool)
        ensures
            final(self).text_spec() == text@,
            r == (text@.len() > old(self).max_len_spec()),
            final(self).max_len_spec() == if r {
                text@.len()
            } else {
                old(self).max_len_spec()
            },
    {
        let n = text.as_str().unicode_len();
        self.text = text;
        if n > self.max_len {
            self.max_len = n;
            true
        } else {
            false
        }
    }
}

/// Which of a checkbox's colours it shows.
#[derive(Debug, Clone, Copy, PartialEq, Eq, Structural)]
pub enum CheckboxColor {
    Hover,
    Selected,
    Unselected,
}

/// A checkbox: whether it is ticked and hovered, whether it has a hover colour.
#[derive(Debug, Clone, Copy, PartialEq, Eq, Structural)]
pub struct CheckboxNode {
    pub selected: bool,
    pub hovered: bool,
    pub has_hover_color: bool,
    pub setting: Option<SettingKey>,
    pub interaction: InteractionCb,
}

impl CheckboxNode {
    /// Unticked, not hovered, no hover colour, no actions.
    pub fn new() -> (r: Self)
        ensures
            !r.selected && !r.hovered && !r.has_hover_color && r.setting.is_none(),
            r.interaction.on_pressed.is_none() && r.interaction.on_release.is_none()
                && r.interaction.on_enter.is_none() && r.interaction.on_leave.is_none(),
    {
        CheckboxNode {
            selected: false,
            hovered: false,
            has_hover_color: false,
            setting: None,
            interaction: InteractionCb::default(),
        }
    }

    /// The colour shown: the hover colour while hovered if there is one,
    /// else the ticked or unticked colour.
    pub fn display_color(&self) -> (r: CheckboxColor)
        ensures
            r == (if self.hovered && self.has_hover_color {
                CheckboxColor::Hover
            } else if self.selected {
                CheckboxColor::Selected
            } else {
                CheckboxColor::Unselected
            }),
    {
        if self.hovered {
            if self.has_hover_color {
                CheckboxColor::Hover
            } else if self.selected {
                CheckboxColor::Selected
            } else {
                CheckboxColor::Unselected
            }
        } else if self.selected {
            CheckboxColor::Selected
        } else {
            CheckboxColor::Unselected
        }
    }
}

/// A button: its actions, whether it has a hover colour, and whether the
/// hover colour is the one showing.
#[derive(Debug, Clone, Copy, PartialEq, Eq, Structural)]
pub struct ButtonNode {
    pub has_hover_color: bool,
    pub hover_shown: bool,
    pub interaction: InteractionCb,
}

impl ButtonNode {
    /// No hover colour, no actions.
    pub fn new() -> (r: Self)
        ensures
            !r.has_hover_color && !r.hover_shown,
            r.interaction.on_release.is_none(),
    {
        ButtonNode { has_hover_color: false, hover_shown: false, interaction: InteractionCb::default() }
    }
}

/// What a node of the UI tree is, with the state its kind keeps.
#[derive(Debug)]
pub enum UiNode {
    Container,
    Panel,
    Button(ButtonNode),
    Checkbox(CheckboxNode),
    Label(LabelNode),
    Slider(SliderNode),
}

/// Where a node sits in the tree, and whether it is shown.
#[derive(Debug)]
pub struct NodeBase {
    pub parent: Option<usize>,
    pub children: Vec<usize>,
    pub visible: bool,
}

/// The UI's nodes; node 0 is the root, and every other node is a child of
/// an earlier one.
#[derive(Debug)]
pub struct UiTree {
    nodes: Vec<UiNode>,
    bases: Vec<NodeBase>,
}

/// Parents and child lists agree: node 0 has no parent, every other node
/// has an earlier parent that lists it once, and every listed child names
/// its parent back.
pub open spec fn links_ok(parents: Seq<Option<usize>>, children: Seq<Seq<usize>>) -> bool {
    &&& parents.len() >= 1
    &&& children.len() == parents.len()
    &&& parents[0].is_none()
    &&& forall|i: int| 1 <= i < parents.len() ==> ((#[trigger] parents[i]) matches Some(p) && p < i)
    &&& forall|i: int, k: int|
        0 <= i < children.len() && 0 <= k < children[i].len() ==> {
            let c = #[trigger] children[i][k];
            &&& 0 <= c < parents.len()
            &&& parents[c as int] == Some(i as usize)
        }
    &&& forall|i: int| 1 <= i < parents.len() ==> children[parents[i]->0 as int].contains(i as usize)
    &&& forall|i: int| 0 <= i < children.len() ==> (#[trigger] children[i]).no_duplicates()
}

impl UiTree {
    /// The nodes' kinds and state.
    pub closed spec fn kinds(&self) -> Seq<UiNode> {
        self.nodes@
    }

    /// Each node's parent.
    pub closed spec fn parents(&self) -> Seq<Option<usize>> {
        self.bases@.map_values(|b: NodeBase| b.parent)
    }

    /// Each node's children, in order.
    pub closed spec fn children(&self) -> Seq<Seq<usize>> {
        self.bases@.map_values(|b: NodeBase| b.children@)
    }

    /// Whether each node is shown.
    pub closed spec fn visibility(&self) -> Seq<bool> {
        self.bases@.map_values(|b: NodeBase| b.visible)
    }

    pub open spec fn len(&self) -> nat {
        self.kinds().len()
    }

    pub closed spec fn wf(&self) -> bool {
        &&& self.nodes@.len() == self.bases@.len()
        &&& links_ok(self.parents(), self.children())
    }

    /// Every node of a well-formed tree has a visibility, a parent entry
    /// and a child list, and the parent and child links agree.
    pub proof fn lemma_wf_facts(&self)
        requires
            self.wf(),
        ensures
            self.visibility().len() == self.len(),
            self.parents().len() == self.len(),
            self.children().len() == self.len(),
            links_ok(self.parents(), self.children()),
    {
    }

    /// A tree of only the root, a visible container.
    pub fn default() -> (r: Self)
        ensures
            r.wf(),
            r.len() == 1,
            r.kinds()[0] is Container,
            r.visibility()[0],
    {
        let mut nodes: Vec<UiNode> = Vec::new();
        nodes.push(UiNode::Container);
        let mut bases: Vec<NodeBase> = Vec::new();
        bases.push(NodeBase { parent: None, children: Vec::new(), visible: true });
        let r = UiTree { nodes, bases };
        proof {
            assert(r.children()[0] =~= Seq::<usize>::empty());
        }
        r
    }

    /// Number of nodes.
    pub fn node_count(&self) -> (r: usize)
        requires
            self.wf(),
        ensures
            r == self.len(),
    {
        self.nodes.len()
    }

    /// Appends `node` as the last child of `parent_idx`, shown, and returns its index.
    pub fn add_child(&mut self, node: UiNode, parent_idx: usize) -> (r: usize)
        requires
            old(self).wf(),
            parent_idx < old(self).len(),
            old(self).len() < usize::MAX,
        ensures
            final(self).wf(),
            r == old(self).len(),
            final(self).kinds() == old(self).kinds().push(node),
            final(self).parents() == old(self).parents().push(Some(parent_idx)),
            final(self).children() == old(self).children().update(
                parent_idx as int,
                old(self).children()[parent_idx as int].push(r),
            ).push(Seq::<usize>::empty()),
            final(self).visibility() == old(self).visibility().push(true),
    {
        let idx = self.nodes.len();
        let ghost ps0 = self.parents();
        let ghost cs0 = self.children();
        self.nodes.push(node);
        self.bases.push(NodeBase { parent: Some(parent_idx), children: Vec::new(), visible: true });
        self.bases[parent_idx].children.push(idx);
        proof {
            let ps = self.parents();
            let cs = self.children();
            assert(ps =~= ps0.push(Some(parent_idx)));
            assert(cs =~= cs0.update(parent_idx as int, cs0[parent_idx as int].push(idx)).push(Seq::<usize>::empty()));
            assert(self.visibility() =~= old(self).visibility().push(true));
            assert(!cs0[parent_idx as int].contains(idx)) by {
                if cs0[parent_idx as int].contains(idx) {
                    let k = cs0[parent_idx as int].index_of(idx);
                    assert(cs0[parent_idx as int][k] == idx);
                }
            }
            assert forall|i: int, k: int| 0 <= i < cs.len() && 0 <= k < cs[i].len() implies {
                let c = #[trigger] cs[i][k];
                &&& 0 <= c < ps.len()
                &&& ps[c as int] == Some(i as usize)
            } by {
                if i < cs0.len() && k < cs0[i].len() {
                    assert(cs[i][k] == cs0[i][k]);
                }
            }
            assert forall|i: int| 1 <= i < ps.len() implies cs[ps[i]->0 as int].contains(i as usize) by {
                if i < ps0.len() {
                    let p = ps0[i]->0 as int;
                    assert(cs0[p].contains(i as usize));
                    let k = cs0[p].index_of(i as usize);
                    assert(cs[p][k] == i as usize);
                } else {
                    assert(cs[parent_idx as int][cs0[parent_idx as int].len() as int] == idx);
                }
            }
            assert forall|i: int| 0 <= i < cs.len() implies (#[trigger] cs[i]).no_duplicates() by {
                if i == parent_idx {
                    assert forall|a: int, b: int| 0 <= a < b < cs[i].len() implies cs[i][a] != cs[i][b] by {
                        if b == cs0[i].len() {
                            assert(cs0[i].contains(cs[i][a]));
                        } else {
                            assert(cs0[i].no_duplicates());
                        }
                    }
                }
            }
        }
        idx
    }

    /// The kind and state of node `idx`.
    pub fn node(&self, idx: usize) -> (r: &UiNode)
        requires
            self.wf(),
            idx < self.len(),
        ensures
            *r == self.kinds()[idx as int],
    {
        &self.nodes[idx]
    }

    /// The parent of node `idx`.
    pub fn parent(&self, idx: usize) -> (r: Option<usize>)
        requires
            self.wf(),
            idx < self.len(),
        ensures
            r == self.parents()[idx as int],
    {
        self.bases[idx].parent
    }

    /// The children of node `idx`, in order.
    pub fn children_of(&self, idx: usize) -> (r: &Vec<usize>)
        requires
            self.wf(),
            idx < self.len(),
        ensures
            r@ == self.children()[idx as int],
    {
        &self.bases[idx].children
    }

    /// Whether node `idx` is shown.
    pub fn is_visible(&self, idx: usize) -> (r: bool)
        requires
            self.wf(),
            idx < self.len(),
        ensures
            r == self.visibility()[idx as int],
    {
        self.bases[idx].visible
    }

    /// Shows or hides node `idx`.
    pub fn set_visible(&mut self, idx: usize, visible: bool)
        requires
            old(self).wf(),
            idx < old(self).len(),
        ensures
            final(self).wf(),
            final(self).kinds() == old(self).kinds(),
            final(self).parents() == old(self).parents(),
            final(self).children() == old(self).children(),
            final(self).visibility() == old(self).visibility().update(idx as int, visible),
    {
        self.bases[idx].visible = visible;
        proof {
            assert(self.parents() =~= old(self).parents());
            assert(self.children() =~= old(self).children());
            assert(self.visibility() =~= old(self).visibility().update(idx as int, visible));
        }
    }

    /// Replaces the kind and state of node `idx`.
    pub fn set_node(&mut self, idx: usize, node: UiNode)
        requires
            old(self).wf(),
            idx < old(self).len(),
        ensures
            final(self).wf(),
            final(self).kinds() == old(self).kinds().update(idx as int, node),
            final(self).parents() == old(self).parents(),
            final(self).children() == old(self).children(),
            final(self).visibility() == old(self).visibility(),
    {
        self.nodes.set(idx, node);
    }
}

/// Why the UI could not do what was asked of it.
#[derive(Debug, Clone, Copy, PartialEq, Eq, Structural)]
pub enum UiError {
    /// No node has this index.
    OutOfBounds(usize),
    /// The node at this index is not of the kind asked for.
    WrongKind(usize),
}

/// What the window should do with the pointer.
#[derive(Debug, Clone, Copy, PartialEq, Eq, Structural)]
pub enum CursorRequest {
    /// Capture and hide it, for looking around the world.
    Lock,
    /// Release it and show it at its remembered position, for the menu.
    Free,
}

/// What the host has to do after the UI handled a tick of input.
#[derive(Debug, Clone, Copy, PartialEq, Eq, Structural)]
pub struct UiResponse {
    /// An action for the host: closing the menu, quitting, or applying settings.
    pub action: Option<UiAction>,
    /// A slider being dragged: the host moves its value with the pointer.
    pub drag_slider: Option<usize>,
    /// A slider whose drag began this tick: the host records where from.
    pub drag_started: Option<usize>,
    /// A slider whose thumb and value label the host must lay out again.
    pub relayout_slider: Option<usize>,
}

/// Input passes through containers and labels.
pub open spec fn takes_input(k: UiNode) -> bool {
    !(k is Container) && !(k is Label)
}

/// The node hit at node `idx`, with `inside[i]` telling whether the point
/// lies inside node `i`: nothing if `idx` is hidden or the point is outside
/// it; else the first of its children, in order, that is hit; else `idx`
/// itself unless input passes through it. At most `fuel` levels are entered.
pub open spec fn hit_spec(t: UiTree, inside: Seq<bool>, idx: int, fuel: nat) -> Option<usize>
    decreases fuel, 0nat,
{
    if fuel == 0 || !t.visibility()[idx] || !inside[idx] {
        None
    } else {
        match first_hit(t, inside, t.children()[idx], 0, (fuel - 1) as nat) {
            Some(h) => Some(h),
            None => if takes_input(t.kinds()[idx]) {
                Some(idx as usize)
            } else {
                None
            },
        }
    }
}

/// The first of `kids[j..]` at which something is hit, and what.
pub open spec fn first_hit(t: UiTree, inside: Seq<bool>, kids: Seq<usize>, j: nat, fuel: nat) -> Option<usize>
    decreases fuel, kids.len() - j + 1,
{
    if j >= kids.len() {
        None
    } else {
        match hit_spec(t, inside, kids[j as int] as int, fuel) {
            Some(h) => Some(h),
            None => first_hit(t, inside, kids, j + 1, fuel),
        }
    }
}

impl UiTree {
    fn hit_from(&self, inside: &Vec<bool>, idx: usize, fuel: usize) -> (r: Option<usize>)
        requires
            self.wf(),
            inside.len() == self.len(),
            idx < self.len(),
        ensures
            r == hit_spec(*self, inside@, idx as int, fuel as nat),
            r matches Some(h) ==> h < self.len() && self.visibility()[h as int] && inside@[h as int] && takes_input(
                self.kinds()[h as int],
            ),
        decreases fuel, 0nat,
    {
        proof {
            self.lemma_wf_facts();
        }
        if fuel == 0 || !self.is_visible(idx) || !inside[idx] {
            return None;
        }
        let kids = self.children_of(idx);
        let ghost k = kids@;
        let ghost f = (fuel - 1) as nat;
        let ghost at_idx = match first_hit(*self, inside@, k, 0, f) {
            Some(x) => Some(x),
            None => if takes_input(self.kinds()[idx as int]) {
                Some(idx)
            } else {
                None
            },
        };
        assert(hit_spec(*self, inside@, idx as int, fuel as nat) == at_idx);
        let mut j: usize = 0;
        while j < kids.len()
            invariant
                hit_spec(*self, inside@, idx as int, fuel as nat) == at_idx,
                at_idx == match first_hit(*self, inside@, k, 0, f) {
                    Some(x) => Some(x),
                    None => if takes_input(self.kinds()[idx as int]) {
                        Some(idx)
                    } else {
                        None
                    },
                },
                self.wf(),
                inside.len() == self.len(),
                idx < self.len(),
                fuel > 0,
                f == fuel - 1,
                kids@ == k,
                k == self.children()[idx as int],
                links_ok(self.parents(), self.children()),
                self.parents().len() == self.len(),
                self.children().len() == self.len(),
                0 <= j <= k.len(),
                first_hit(*self, inside@, k, 0, f) == first_hit(*self, inside@, k, j as nat, f),
            decreases k.len() - j,
        {
            let c = kids[j];
            proof {
                assert(0 <= c < self.len());
            }
            let h = self.hit_from(inside, c, fuel - 1);
            proof {
                assert(first_hit(*self, inside@, k, j as nat, f) == match h {
                    Some(x) => Some(x),
                    None => first_hit(*self, inside@, k, (j + 1) as nat, f),
                });
            }
            if h.is_some() {
                proof {
                    assert(first_hit(*self, inside@, k, 0, f) == h);
                }
                return h;
            }
            j += 1;
        }
        match self.node(idx) {
            UiNode::Container | UiNode::Label(_) => None,
            _ => Some(idx),
        }
    }

    /// The topmost node under the point at node `node_idx`, given for every
    /// node whether the point lies inside it: a node that is hidden or does
    /// not hold the point hides its children too; the first child that is
    /// hit, in order, wins over later ones and over the node itself; input
    /// passes through containers and labels.
    pub fn hit_test(&self, inside: &Vec<bool>, node_idx: usize) -> (r: Option<usize>)
        requires
            self.wf(),
            inside.len() == self.len(),
            node_idx < self.len(),
        ensures
            r == hit_spec(*self, inside@, node_idx as int, self.len()),
            r matches Some(h) ==> h < self.len() && self.visibility()[h as int] && inside@[h as int] && takes_input(
                self.kinds()[h as int],
            ),
    {
        self.hit_from(inside, node_idx, self.node_count())
    }
}

/// A response asking nothing of the host.
pub open spec fn no_response() -> UiResponse {
    UiResponse { action: None, drag_slider: None, drag_started: None, relayout_slider: None }
}

/// The action released over `node`, if it is a button or checkbox.
pub open spec fn release_action_of(node: UiNode) -> Option<UiAction> {
    match node {
        UiNode::Button(b) => b.interaction.on_release,
        UiNode::Checkbox(c) => c.interaction.on_release,
        _ => None,
    }
}

/// The screen that action `a` opens, if any.
pub open spec fn nav_target(a: UiAction) -> Option<MenuState> {
    match a {
        UiAction::OpenKeybinds => Some(MenuState::Keybinds),
        UiAction::OpenGameOptions => Some(MenuState::GameOptions),
        UiAction::OpenSystemOptions => Some(MenuState::SystemOptions),
        UiAction::BackToMain => Some(MenuState::Main),
        UiAction::ApplySettings => Some(MenuState::Main),
        _ => None,
    }
}

/// Whether action `a` is handed back to the host.
pub open spec fn returned_to_host(a: UiAction) -> bool {
    a == UiAction::CloseMenu || a == UiAction::ExitApp || a == UiAction::ApplySettings
}

/// `node` after the pointer entered (`entering`) or left it: a button with a
/// hover colour swaps its colours, a checkbox records the hover.
pub open spec fn hover_effect(node: UiNode, entering: bool) -> UiNode {
    match node {
        UiNode::Button(b) => if b.has_hover_color {
            UiNode::Button(ButtonNode { hover_shown: !b.hover_shown, ..b })
        } else {
            UiNode::Button(b)
        },
        UiNode::Checkbox(c) => UiNode::Checkbox(CheckboxNode { hovered: entering, ..c }),
        _ => node,
    }
}

/// Whether entering or leaving `node` changes how it is drawn.
pub open spec fn hover_redraws(node: UiNode) -> bool {
    match node {
        UiNode::Button(b) => b.has_hover_color,
        UiNode::Checkbox(_) => true,
        _ => false,
    }
}

/// Every slider of `kinds` has a range with its lower end first and a step above zero.
pub open spec fn sliders_ok(kinds: Seq<UiNode>) -> bool {
    forall|i: int| 0 <= i < kinds.len() ==> ((#[trigger] kinds[i]) matches UiNode::Slider(s) ==> s.min_value
        <= s.max_value && s.step_size > 0)
}

/// The menu: the UI tree, which screen shows, what the pointer hovers or
/// drags, which nodes need redrawing, and the settings being edited.
#[derive(Debug)]
pub struct Ui {
    dirty: bool,
    tree: UiTree,
    state: MenuState,
    hovered_node: Option<usize>,
    dragging_slider: Option<usize>,
    dirty_nodes: Vec<usize>,
    menu_container: usize,
    game_container: usize,
    system_container: usize,
    keybind_container: usize,
    world_container: usize,
    title_container: usize,
    vsync_checkbox_idx: usize,
    fps_slider_idx: usize,
    pending: PendingSettings,
}

impl Ui {
    pub closed spec fn tree(&self) -> UiTree {
        self.tree
    }

    pub closed spec fn state(&self) -> MenuState {
        self.state
    }

    pub closed spec fn hovered(&self) -> Option<usize> {
        self.hovered_node
    }

    pub closed spec fn dragging(&self) -> Option<usize> {
        self.dragging_slider
    }

    pub closed spec fn redraw_list(&self) -> Seq<usize> {
        self.dirty_nodes@
    }

    /// The whole tree must be drawn again.
    pub closed spec fn needs_full_redraw(&self) -> bool {
        self.dirty
    }

    pub closed spec fn pending_spec(&self) -> PendingSettings {
        self.pending
    }

    pub closed spec fn vsync_checkbox(&self) -> usize {
        self.vsync_checkbox_idx
    }

    pub closed spec fn fps_slider(&self) -> usize {
        self.fps_slider_idx
    }

    /// The node shown for screen `s`.
    pub closed spec fn container_spec(&self, s: MenuState) -> usize {
        match s {
            MenuState::World => self.world_container,
            MenuState::Title => self.title_container,
            MenuState::Main => self.menu_container,
            MenuState::GameOptions => self.game_container,
            MenuState::SystemOptions => self.system_container,
            MenuState::Keybinds => self.keybind_container,
        }
    }

    pub closed spec fn wf(&self) -> bool {
        &&& self.tree.wf()
        &&& self.menu_container < self.tree.len()
        &&& self.game_container < self.tree.len()
        &&& self.system_container < self.tree.len()
        &&& self.keybind_container < self.tree.len()
        &&& self.world_container < self.tree.len()
        &&& self.title_container < self.tree.len()
        &&& (self.hovered_node matches Some(h) ==> h < self.tree.len())
        &&& forall|k: int| 0 <= k < self.dirty_nodes@.len() ==> #[trigger] self.dirty_nodes@[k] < self.tree.len()
        &&& sliders_ok(self.tree.kinds())
    }

    /// A UI of only the root node, on the title screen, with every screen
    /// mapped to the root until the tree is built.
    pub fn new() -> (r: Self)
        ensures
            r.wf(),
            r.state() == MenuState::Title,
            r.tree().len() == 1,
            r.hovered().is_none() && r.dragging().is_none(),
            r.needs_full_redraw(),
            r.pending_spec() == (PendingSettings { vsync: true, fps_cap: 60 }),
    {
        Ui {
            dirty: true,
            tree: UiTree::default(),
            state: MenuState::Title,
            hovered_node: None,
            dragging_slider: None,
            dirty_nodes: Vec::new(),
            menu_container: 0,
            game_container: 0,
            system_container: 0,
            keybind_container: 0,
            world_container: 0,
            title_container: 0,
            vsync_checkbox_idx: 0,
            fps_slider_idx: 0,
            pending: PendingSettings::default(),
        }
    }

    /// The UI tree.
    pub fn tree_ref(&self) -> (r: &UiTree)
        ensures
            *r == self.tree(),
    {
        &self.tree
    }

    /// The screen showing.
    pub fn current(&self) -> (r: MenuState)
        ensures
            r == self.state(),
    {
        self.state
    }

    /// The settings being edited.
    pub fn pending(&self) -> (r: PendingSettings)
        ensures
            r == self.pending_spec(),
    {
        self.pending
    }

    /// The whole tree must be drawn again.
    pub fn is_dirty(&self) -> (r: bool)
        ensures
            r == self.needs_full_redraw(),
    {
        self.dirty
    }

    /// Asks for the whole tree to be drawn again.
    pub fn mark_dirty(&mut self)
        ensures
            final(self).needs_full_redraw(),
            final(self).tree() == old(self).tree(),
            final(self).state() == old(self).state(),
            final(self).hovered() == old(self).hovered(),
            final(self).dragging() == old(self).dragging(),
            final(self).redraw_list() == old(self).redraw_list(),
            final(self).pending_spec() == old(self).pending_spec(),
            forall|s: MenuState| #[trigger] final(self).container_spec(s) == old(self).container_spec(s),
            final(self).wf() == old(self).wf(),
    {
        self.dirty = true;
    }

    /// Some nodes wait to be redrawn in place.
    pub fn has_dirty_nodes(&self) -> (r: bool)
        ensures
            r == (self.redraw_list().len() > 0),
    {
        self.dirty_nodes.len() > 0
    }

    /// Hands out the nodes to redraw in place, in the order they changed,
    /// and forgets them.
    pub fn take_dirty_nodes(&mut self) -> (r: Vec<usize>)
        requires
            old(self).wf(),
        ensures
            final(self).wf(),
            r@ == old(self).redraw_list(),
            final(self).redraw_list() == Seq::<usize>::empty(),
            final(self).needs_full_redraw() == old(self).needs_full_redraw(),
            final(self).tree() == old(self).tree(),
            final(self).state() == old(self).state(),
    {
        let mut taken: Vec<usize> = Vec::new();
        std::mem::swap(&mut taken, &mut self.dirty_nodes);
        taken
    }

    /// Records that the whole tree was drawn: nothing waits to be redrawn.
    pub fn mark_flushed(&mut self)
        requires
            old(self).wf(),
        ensures
            final(self).wf(),
            !final(self).needs_full_redraw(),
            final(self).redraw_list() == Seq::<usize>::empty(),
            final(self).tree() == old(self).tree(),
            final(self).state() == old(self).state(),
            final(self).hovered() == old(self).hovered(),
            final(self).dragging() == old(self).dragging(),
            final(self).pending_spec() == old(self).pending_spec(),
            final(self).vsync_checkbox() == old(self).vsync_checkbox(),
            final(self).fps_slider() == old(self).fps_slider(),
            forall|st: MenuState| #[trigger] final(self).container_spec(st) == old(self).container_spec(st),
    {
        self.dirty = false;
        self.dirty_nodes = Vec::new();
    }

    /// The node shown for screen `s`.
    pub fn container_for(&self, s: MenuState) -> (r: usize)
        ensures
            r == self.container_spec(s),
    {
        match s {
            MenuState::World => self.world_container,
            MenuState::Title => self.title_container,
            MenuState::Main => self.menu_container,
            MenuState::GameOptions => self.game_container,
            MenuState::SystemOptions => self.system_container,
            MenuState::Keybinds => self.keybind_container,
        }
    }

    /// A menu screen is showing.
    pub fn menu_opened(&self) -> (r: bool)
        ensures
            r == (self.state() != MenuState::World),
    {
        self.state != MenuState::World
    }

    /// The title screen is showing.
    pub fn is_title_screen(&self) -> (r: bool)
        ensures
            r == (self.state() == MenuState::Title),
    {
        self.state == MenuState::Title
    }

    /// Replaces the settings being edited by the ones in force.
    pub fn sync_pending(&mut self, settings: PendingSettings)
        requires
            old(self).wf(),
        ensures
            final(self).wf(),
            final(self).pending_spec() == settings,
            final(self).tree() == old(self).tree(),
            final(self).state() == old(self).state(),
    {
        self.pending = settings;
    }
}

impl Ui {
    /// `self` is `other` as far as the menu's state goes: screen, hover,
    /// drag, pending redraws, settings being edited, and the nodes named
    /// for screens and settings.
    pub open spec fn same_menu(&self, other: Ui) -> bool {
        &&& self.state() == other.state()
        &&& self.hovered() == other.hovered()
        &&& self.dragging() == other.dragging()
        &&& self.redraw_list() == other.redraw_list()
        &&& self.needs_full_redraw() == other.needs_full_redraw()
        &&& self.pending_spec() == other.pending_spec()
        &&& self.vsync_checkbox() == other.vsync_checkbox()
        &&& self.fps_slider() == other.fps_slider()
        &&& forall|st: MenuState| #[trigger] self.container_spec(st) == other.container_spec(st)
    }

    /// `self` keeps `other`'s screen, hover, drag, settings being edited and
    /// named nodes; only the tree and what waits to be redrawn may differ.
    pub open spec fn keeps_settings(&self, other: Ui) -> bool {
        &&& self.state() == other.state()
        &&& self.hovered() == other.hovered()
        &&& self.dragging() == other.dragging()
        &&& self.pending_spec() == other.pending_spec()
        &&& self.vsync_checkbox() == other.vsync_checkbox()
        &&& self.fps_slider() == other.fps_slider()
        &&& forall|st: MenuState| #[trigger] self.container_spec(st) == other.container_spec(st)
    }

    /// What a well-formed menu guarantees: its tree is well formed, every
    /// node has a visibility, a parent entry and a child list, and the
    /// nodes named for screens, the hovered node and the nodes waiting to
    /// be redrawn all exist.
    pub proof fn lemma_wf_facts(&self)
        requires
            self.wf(),
        ensures
            self.tree().wf(),
            self.tree().visibility().len() == self.tree().len(),
            self.tree().parents().len() == self.tree().len(),
            self.tree().children().len() == self.tree().len(),
            links_ok(self.tree().parents(), self.tree().children()),
            forall|st: MenuState| #[trigger] self.container_spec(st) < self.tree().len(),
            self.hovered() matches Some(h) ==> h < self.tree().len(),
            forall|k: int| 0 <= k < self.redraw_list().len() ==> #[trigger] self.redraw_list()[k] < self.tree().len(),
    {
        self.tree.lemma_wf_facts();
        assert forall|st: MenuState| #[trigger] self.container_spec(st) < self.tree().len() by {
            match st {
                MenuState::World => {},
                MenuState::Title => {},
                MenuState::Main => {},
                MenuState::GameOptions => {},
                MenuState::SystemOptions => {},
                MenuState::Keybinds => {},
            }
        }
    }
}

impl Ui {
    /// Starts a new tree of only the root: nothing hovered or waiting to be
    /// redrawn in place, every screen mapped to the root until the builder
    /// names its node, and the whole tree to be drawn.
    pub fn reset_tree(&mut self)
        requires
            old(self).wf(),
        ensures
            final(self).wf(),
            final(self).tree().len() == 1,
            final(self).hovered().is_none(),
            final(self).redraw_list() == Seq::<usize>::empty(),
            final(self).needs_full_redraw(),
            final(self).state() == old(self).state(),
            final(self).dragging() == old(self).dragging(),
            final(self).pending_spec() == old(self).pending_spec(),
    {
        self.dirty = true;
        self.tree = UiTree::default();
        self.hovered_node = None;
        self.dirty_nodes = Vec::new();
        self.menu_container = 0;
        self.game_container = 0;
        self.system_container = 0;
        self.keybind_container = 0;
        self.world_container = 0;
        self.title_container = 0;
    }

    fn add_node(&mut self, parent: usize, node: UiNode) -> (r: usize)
        requires
            old(self).wf(),
            parent < old(self).tree.len(),
            old(self).tree.len() < usize::MAX,
            node matches UiNode::Slider(sl) ==> sl.min_value <= sl.max_value && sl.step_size > 0,
        ensures
            final(self).wf(),
            r == old(self).tree.len(),
            final(self).tree.kinds() == old(self).tree.kinds().push(node),
            final(self).tree.parents() == old(self).tree.parents().push(Some(parent)),
            final(self).tree.visibility() == old(self).tree.visibility().push(true),
            final(self).tree.children()[parent as int] == old(self).tree.children()[parent as int].push(r),
            final(self).tree.children() == old(self).tree.children().update(
                parent as int,
                old(self).tree.children()[parent as int].push(r),
            ).push(Seq::<usize>::empty()),
            final(self).state == old(self).state,
            final(self).hovered_node == old(self).hovered_node,
            final(self).dragging_slider == old(self).dragging_slider,
            final(self).dirty_nodes == old(self).dirty_nodes,
            final(self).dirty == old(self).dirty,
            final(self).pending == old(self).pending,
            final(self).vsync_checkbox_idx == old(self).vsync_checkbox_idx,
            final(self).fps_slider_idx == old(self).fps_slider_idx,
            final(self).menu_container == old(self).menu_container,
            final(self).game_container == old(self).game_container,
            final(self).system_container == old(self).system_container,
            final(self).keybind_container == old(self).keybind_container,
            final(self).world_container == old(self).world_container,
            final(self).title_container == old(self).title_container,
    {
        let ghost k0 = self.tree.kinds();
        let ghost n = node;
        let r = self.tree.add_child(node, parent);
        proof {
            assert forall|i: int| 0 <= i < self.tree.kinds().len() implies ((#[trigger] self.tree.kinds()[i]) matches UiNode::Slider(
                sl,
            ) ==> sl.min_value <= sl.max_value && sl.step_size > 0) by {
                if i < k0.len() {
                    assert(self.tree.kinds()[i] == k0[i]);
                } else {
                    assert(self.tree.kinds()[i] == n);
                }
            }
        }
        r
    }

    /// Adds an invisible grouping node under `parent` and returns its index.
    pub fn create_container(&mut self, parent: usize) -> (r: usize)
        requires
            old(self).wf(),
            parent < old(self).tree().len(),
            old(self).tree().len() < usize::MAX,
        ensures
            final(self).wf(),
            r == old(self).tree().len(),
            final(self).tree().kinds() == old(self).tree().kinds().push(UiNode::Container),
            final(self).tree().parents() == old(self).tree().parents().push(Some(parent)),
            final(self).tree().visibility() == old(self).tree().visibility().push(true),
            final(self).tree().children()[parent as int] == old(self).tree().children()[parent as int].push(r),
            final(self).same_menu(*old(self)),
            final(self).state() == old(self).state(),
    {
        self.add_node(parent, UiNode::Container)
    }

    /// Adds a panel under `parent` and returns its index.
    pub fn create_panel(&mut self, parent: usize) -> (r: usize)
        requires
            old(self).wf(),
            parent < old(self).tree().len(),
            old(self).tree().len() < usize::MAX,
        ensures
            final(self).wf(),
            r == old(self).tree().len(),
            final(self).tree().kinds() == old(self).tree().kinds().push(UiNode::Panel),
            final(self).tree().parents() == old(self).tree().parents().push(Some(parent)),
            final(self).tree().visibility() == old(self).tree().visibility().push(true),
            final(self).tree().children()[parent as int] == old(self).tree().children()[parent as int].push(r),
            final(self).same_menu(*old(self)),
            final(self).state() == old(self).state(),
    {
        self.add_node(parent, UiNode::Panel)
    }

    /// Adds a button with no actions and no hover colour under `parent` and returns its index.
    pub fn create_button(&mut self, parent: usize) -> (r: usize)
        requires
            old(self).wf(),
            parent < old(self).tree().len(),
            old(self).tree().len() < usize::MAX,
        ensures
            final(self).wf(),
            r == old(self).tree().len(),
            final(self).tree().kinds() == old(self).tree().kinds().push(
                UiNode::Button(
                    ButtonNode {
                        has_hover_color: false,
                        hover_shown: false,
                        interaction: InteractionCb {
                            on_pressed: None,
                            on_release: None,
                            on_enter: None,
                            on_leave: None,
                        },
                    },
                ),
            ),
            final(self).tree().parents() == old(self).tree().parents().push(Some(parent)),
            final(self).tree().visibility() == old(self).tree().visibility().push(true),
            final(self).tree().children()[parent as int] == old(self).tree().children()[parent as int].push(r),
            final(self).same_menu(*old(self)),
            final(self).state() == old(self).state(),
    {
        let b = ButtonNode { has_hover_color: false, hover_shown: false, interaction: InteractionCb::default() };
        self.add_node(parent, UiNode::Button(b))
    }

    /// Adds an empty label under `parent` and returns its index.
    pub fn create_label(&mut self, parent: usize) -> (r: usize)
        requires
            old(self).wf(),
            parent < old(self).tree().len(),
            old(self).tree().len() < usize::MAX,
        ensures
            final(self).wf(),
            r == old(self).tree().len(),
            final(self).tree().kinds().len() == old(self).tree().kinds().len() + 1,
            final(self).tree().kinds().take(r as int) == old(self).tree().kinds(),
            final(self).tree().kinds()[r as int] matches UiNode::Label(l) && l.text_spec().len() == 0
                && l.max_len_spec() == 0,
            final(self).tree().parents() == old(self).tree().parents().push(Some(parent)),
            final(self).tree().visibility() == old(self).tree().visibility().push(true),
            final(self).tree().children()[parent as int] == old(self).tree().children()[parent as int].push(r),
            final(self).same_menu(*old(self)),
            final(self).state() == old(self).state(),
    {
        let l = LabelNode::new(String::new());
        let r = self.add_node(parent, UiNode::Label(l));
        proof {
            assert(self.tree.kinds().take(r as int) =~= old(self).tree.kinds());
        }
        r
    }

    /// Adds an unticked checkbox with no actions under `parent` and returns its index.
    pub fn create_checkbox(&mut self, parent: usize) -> (r: usize)
        requires
            old(self).wf(),
            parent < old(self).tree().len(),
            old(self).tree().len() < usize::MAX,
        ensures
            final(self).wf(),
            r == old(self).tree().len(),
            final(self).tree().kinds().len() == old(self).tree().kinds().len() + 1,
            final(self).tree().kinds().take(r as int) == old(self).tree().kinds(),
            final(self).tree().kinds()[r as int] matches UiNode::Checkbox(c) && !c.selected && !c.hovered
                && c.interaction.on_release.is_none(),
            final(self).tree().parents() == old(self).tree().parents().push(Some(parent)),
            final(self).tree().visibility() == old(self).tree().visibility().push(true),
            final(self).tree().children()[parent as int] == old(self).tree().children()[parent as int].push(r),
            final(self).same_menu(*old(self)),
            final(self).state() == old(self).state(),
    {
        let c = CheckboxNode::new();
        let r = self.add_node(parent, UiNode::Checkbox(c));
        proof {
            assert(self.tree.kinds().take(r as int) =~= old(self).tree.kinds());
        }
        r
    }

    /// Adds a slider under `parent`, a panel under it for its thumb and a
    /// label under `parent` for its value, and returns the slider's index;
    /// the thumb and label follow it.
    pub fn create_slider(&mut self, parent: usize) -> (r: usize)
        requires
            old(self).wf(),
            parent < old(self).tree().len(),
            old(self).tree().len() + 3 < usize::MAX,
        ensures
            final(self).wf(),
            r == old(self).tree().len(),
            final(self).tree().len() == old(self).tree().len() + 3,
            final(self).tree().kinds().take(r as int) == old(self).tree().kinds(),
            final(self).tree().kinds()[r as int] matches UiNode::Slider(sl) && sl.thumb_idx == Some((r + 1) as usize)
                && sl.label_idx == Some((r + 2) as usize) && sl.min_value == 0 && sl.max_value == 0 && sl.value
                == 0 && sl.step_size == 1,
            final(self).tree().kinds()[r + 1] is Panel,
            final(self).tree().kinds()[r + 2] is Label,
            final(self).tree().parents() == old(self).tree().parents().push(Some(parent)).push(
                Some(r),
            ).push(Some(parent)),
            final(self).tree().visibility() == old(self).tree().visibility().push(true).push(true).push(true),
            final(self).tree().children()[parent as int] == old(self).tree().children()[parent as int].push(r).push(
                (r + 2) as usize,
            ),
            final(self).tree().children()[r as int] == seq![(r + 1) as usize],
            final(self).same_menu(*old(self)),
            final(self).state() == old(self).state(),
    {
        let slider_idx = self.add_node(parent, UiNode::Slider(SliderNode::new()));
        let thumb_idx = self.add_node(slider_idx, UiNode::Panel);
        let label_idx = self.add_node(parent, UiNode::Label(LabelNode::new(String::new())));
        let mut sl = SliderNode::new();
        sl.set_thumb(Some(thumb_idx));
        sl.set_label(Some(label_idx));
        let ghost k0 = self.tree.kinds();
        self.tree.set_node(slider_idx, UiNode::Slider(sl));
        proof {
            assert forall|i: int| 0 <= i < self.tree.kinds().len() implies ((#[trigger] self.tree.kinds()[i]) matches UiNode::Slider(
                s2,
            ) ==> s2.min_value <= s2.max_value && s2.step_size > 0) by {
                if i != slider_idx {
                    assert(self.tree.kinds()[i] == k0[i]);
                }
            }
            assert(self.tree.kinds().take(slider_idx as int) =~= old(self).tree.kinds());
        }
        slider_idx
    }

    /// Sets the action fired when the primary button is released over the
    /// button or checkbox `idx`.
    pub fn set_on_release(&mut self, idx: usize, action: Option<UiAction>) -> (r: Result<(), UiError>)
        requires
            old(self).wf(),
        ensures
            final(self).wf(),
            idx >= old(self).tree().len() ==> r == Err::<(), UiError>(UiError::OutOfBounds(idx)),
            idx < old(self).tree().len() ==> match old(self).tree().kinds()[idx as int] {
                UiNode::Button(b) => r is Ok && final(self).tree().kinds() == old(self).tree().kinds().update(
                    idx as int,
                    UiNode::Button(
                        ButtonNode { interaction: InteractionCb { on_release: action, ..b.interaction }, ..b },
                    ),
                ),
                UiNode::Checkbox(c) => r is Ok && final(self).tree().kinds() == old(self).tree().kinds().update(
                    idx as int,
                    UiNode::Checkbox(
                        CheckboxNode { interaction: InteractionCb { on_release: action, ..c.interaction }, ..c },
                    ),
                ),
                _ => r == Err::<(), UiError>(UiError::WrongKind(idx)) && final(self).tree() == old(self).tree(),
            },
            final(self).tree().parents() == old(self).tree().parents(),
            final(self).tree().children() == old(self).tree().children(),
            final(self).tree().visibility() == old(self).tree().visibility(),
            final(self).state() == old(self).state(),
            final(self).same_menu(*old(self)),
    {
        if idx >= self.tree.node_count() {
            return Err(UiError::OutOfBounds(idx));
        }
        let ghost k0 = self.tree.kinds();
        let replacement = match self.tree.node(idx) {
            UiNode::Button(b) => {
                let mut nb = *b;
                nb.interaction.on_release = action;
                UiNode::Button(nb)
            },
            UiNode::Checkbox(c) => {
                let mut nc = *c;
                nc.interaction.on_release = action;
                UiNode::Checkbox(nc)
            },
            _ => {
                return Err(UiError::WrongKind(idx));
            },
        };
        self.tree.set_node(idx, replacement);
        proof {
            assert forall|i: int| 0 <= i < self.tree.kinds().len() implies ((#[trigger] self.tree.kinds()[i]) matches UiNode::Slider(
                s2,
            ) ==> s2.min_value <= s2.max_value && s2.step_size > 0) by {
                if i != idx {
                    assert(self.tree.kinds()[i] == k0[i]);
                }
            }
        }
        Ok(())
    }

    /// Gives the button or checkbox `idx` a hover colour, or takes it away.
    pub fn set_hover_color(&mut self, idx: usize, has_hover_color: bool) -> (r: Result<(), UiError>)
        requires
            old(self).wf(),
        ensures
            final(self).wf(),
            idx >= old(self).tree().len() ==> r == Err::<(), UiError>(UiError::OutOfBounds(idx)),
            idx < old(self).tree().len() ==> match old(self).tree().kinds()[idx as int] {
                UiNode::Button(b) => r is Ok && final(self).tree().kinds() == old(self).tree().kinds().update(
                    idx as int,
                    UiNode::Button(ButtonNode { has_hover_color, ..b }),
                ),
                UiNode::Checkbox(c) => r is Ok && final(self).tree().kinds() == old(self).tree().kinds().update(
                    idx as int,
                    UiNode::Checkbox(CheckboxNode { has_hover_color, ..c }),
                ),
                _ => r == Err::<(), UiError>(UiError::WrongKind(idx)) && final(self).tree() == old(self).tree(),
            },
            final(self).tree().parents() == old(self).tree().parents(),
            final(self).tree().children() == old(self).tree().children(),
            final(self).tree().visibility() == old(self).tree().visibility(),
            final(self).state() == old(self).state(),
            final(self).same_menu(*old(self)),
    {
        if idx >= self.tree.node_count() {
            return Err(UiError::OutOfBounds(idx));
        }
        let ghost k0 = self.tree.kinds();
        let replacement = match self.tree.node(idx) {
            UiNode::Button(b) => {
                let mut nb = *b;
                nb.has_hover_color = has_hover_color;
                UiNode::Button(nb)
            },
            UiNode::Checkbox(c) => {
                let mut nc = *c;
                nc.has_hover_color = has_hover_color;
                UiNode::Checkbox(nc)
            },
            _ => {
                return Err(UiError::WrongKind(idx));
            },
        };
        self.tree.set_node(idx, replacement);
        proof {
            assert forall|i: int| 0 <= i < self.tree.kinds().len() implies ((#[trigger] self.tree.kinds()[i]) matches UiNode::Slider(
                s2,
            ) ==> s2.min_value <= s2.max_value && s2.step_size > 0) by {
                if i != idx {
                    assert(self.tree.kinds()[i] == k0[i]);
                }
            }
        }
        Ok(())
    }
}

proof fn lemma_sliders_ok_update(kinds: Seq<UiNode>, i: int, node: UiNode)
    requires
        sliders_ok(kinds),
        0 <= i < kinds.len(),
        node matches UiNode::Slider(sl) ==> sl.min_value <= sl.max_value && sl.step_size > 0,
    ensures
        sliders_ok(kinds.update(i, node)),
{
    let k1 = kinds.update(i, node);
    assert forall|j: int| 0 <= j < k1.len() implies ((#[trigger] k1[j]) matches UiNode::Slider(s2) ==> s2.min_value
        <= s2.max_value && s2.step_size > 0) by {
        if j != i {
            assert(k1[j] == kinds[j]);
        }
    }
}

/// The slider `s` with value `v` clamped to its range and snapped to its steps.
pub open spec fn slider_with_value(s: SliderNode, v: int) -> SliderNode {
    SliderNode { value: snap_spec(v, s.min_value as int, s.max_value as int, s.step_size as int) as u32, ..s }
}

impl Ui {
    /// Shows or hides node `idx`.
    pub fn set_visible(&mut self, idx: usize, visible: bool) -> (r: Result<(), UiError>)
        requires
            old(self).wf(),
        ensures
            final(self).wf(),
            r is Ok <==> idx < old(self).tree().len(),
            r is Err ==> r == Err::<(), UiError>(UiError::OutOfBounds(idx)) && final(self).tree() == old(self).tree(),
            r is Ok ==> final(self).tree().visibility() == old(self).tree().visibility().update(idx as int, visible),
            final(self).tree().kinds() == old(self).tree().kinds(),
            final(self).tree().parents() == old(self).tree().parents(),
            final(self).state() == old(self).state(),
            final(self).same_menu(*old(self)),
    {
        if idx >= self.tree.node_count() {
            return Err(UiError::OutOfBounds(idx));
        }
        self.tree.set_visible(idx, visible);
        Ok(())
    }

    /// Ticks or unticks the checkbox `idx`.
    pub fn set_checkbox_selected(&mut self, idx: usize, selected: bool) -> (r: Result<(), UiError>)
        requires
            old(self).wf(),
        ensures
            final(self).wf(),
            idx >= old(self).tree().len() ==> r == Err::<(), UiError>(UiError::OutOfBounds(idx)),
            idx < old(self).tree().len() ==> match old(self).tree().kinds()[idx as int] {
                UiNode::Checkbox(c) => r is Ok && final(self).tree().kinds() == old(self).tree().kinds().update(
                    idx as int,
                    UiNode::Checkbox(CheckboxNode { selected, ..c }),
                ),
                _ => r == Err::<(), UiError>(UiError::WrongKind(idx)) && final(self).tree() == old(self).tree(),
            },
            final(self).tree().parents() == old(self).tree().parents(),
            final(self).tree().visibility() == old(self).tree().visibility(),
            final(self).state() == old(self).state(),
            final(self).same_menu(*old(self)),
    {
        if idx >= self.tree.node_count() {
            return Err(UiError::OutOfBounds(idx));
        }
        let replacement = match self.tree.node(idx) {
            UiNode::Checkbox(c) => {
                let mut nc = *c;
                nc.selected = selected;
                UiNode::Checkbox(nc)
            },
            _ => {
                return Err(UiError::WrongKind(idx));
            },
        };
        proof {
            lemma_sliders_ok_update(self.tree.kinds(), idx as int, replacement);
        }
        self.tree.set_node(idx, replacement);
        Ok(())
    }

    /// The slider `idx`.
    pub fn slider(&self, idx: usize) -> (r: Result<SliderNode, UiError>)
        requires
            self.wf(),
        ensures
            idx >= self.tree().len() ==> r == Err::<SliderNode, UiError>(UiError::OutOfBounds(idx)),
            idx < self.tree().len() ==> match self.tree().kinds()[idx as int] {
                UiNode::Slider(sl) => r == Ok::<SliderNode, UiError>(sl),
                _ => r == Err::<SliderNode, UiError>(UiError::WrongKind(idx)),
            },
    {
        if idx >= self.tree.node_count() {
            return Err(UiError::OutOfBounds(idx));
        }
        match self.tree.node(idx) {
            UiNode::Slider(sl) => Ok(*sl),
            _ => Err(UiError::WrongKind(idx)),
        }
    }

    /// Gives the slider `idx` the range `[min, max]` and the step `step`,
    /// then sets its value to `value`, clamped and snapped.
    pub fn configure_slider(&mut self, idx: usize, min: u32, max: u32, step: u32, value: u32) -> (r: Result<
        (),
        UiError,
    >)
        requires
            old(self).wf(),
            min <= max,
            step > 0,
        ensures
            final(self).wf(),
            idx >= old(self).tree().len() ==> r == Err::<(), UiError>(UiError::OutOfBounds(idx)),
            idx < old(self).tree().len() ==> match old(self).tree().kinds()[idx as int] {
                UiNode::Slider(sl) => r is Ok && final(self).tree().kinds() == old(self).tree().kinds().update(
                    idx as int,
                    UiNode::Slider(
                        SliderNode {
                            min_value: min,
                            max_value: max,
                            step_size: step,
                            value: snap_spec(value as int, min as int, max as int, step as int) as u32,
                            ..sl
                        },
                    ),
                ),
                _ => r == Err::<(), UiError>(UiError::WrongKind(idx)) && final(self).tree() == old(self).tree(),
            },
            final(self).tree().parents() == old(self).tree().parents(),
            final(self).tree().visibility() == old(self).tree().visibility(),
            final(self).state() == old(self).state(),
            final(self).same_menu(*old(self)),
    {
        if idx >= self.tree.node_count() {
            return Err(UiError::OutOfBounds(idx));
        }
        let mut sl = match self.tree.node(idx) {
            UiNode::Slider(sl) => *sl,
            _ => {
                return Err(UiError::WrongKind(idx));
            },
        };
        sl.set_min_max(min, max);
        sl.step_size = step;
        sl.set_value(value);
        proof {
            lemma_sliders_ok_update(self.tree.kinds(), idx as int, UiNode::Slider(sl));
        }
        self.tree.set_node(idx, UiNode::Slider(sl));
        Ok(())
    }

    /// Sets the value of slider `idx`, clamped to its range and snapped to its steps.
    pub fn set_slider_value(&mut self, idx: usize, value: u32) -> (r: Result<(), UiError>)
        requires
            old(self).wf(),
        ensures
            final(self).wf(),
            idx >= old(self).tree().len() ==> r == Err::<(), UiError>(UiError::OutOfBounds(idx)),
            idx < old(self).tree().len() ==> match old(self).tree().kinds()[idx as int] {
                UiNode::Slider(sl) => r is Ok && final(self).tree().kinds() == old(self).tree().kinds().update(
                    idx as int,
                    UiNode::Slider(slider_with_value(sl, value as int)),
                ),
                _ => r == Err::<(), UiError>(UiError::WrongKind(idx)) && final(self).tree() == old(self).tree(),
            },
            final(self).tree().parents() == old(self).tree().parents(),
            final(self).tree().visibility() == old(self).tree().visibility(),
            final(self).state() == old(self).state(),
            final(self).redraw_list() == old(self).redraw_list(),
            final(self).needs_full_redraw() == old(self).needs_full_redraw(),
            final(self).pending_spec() == old(self).pending_spec(),
            final(self).hovered() == old(self).hovered(),
            final(self).dragging() == old(self).dragging(),
    {
        if idx >= self.tree.node_count() {
            return Err(UiError::OutOfBounds(idx));
        }
        let mut sl = match self.tree.node(idx) {
            UiNode::Slider(sl) => *sl,
            _ => {
                return Err(UiError::WrongKind(idx));
            },
        };
        proof {
            assert(self.tree.kinds()[idx as int] matches UiNode::Slider(s0) && s0.min_value <= s0.max_value
                && s0.step_size > 0);
        }
        sl.set_value(value);
        proof {
            lemma_sliders_ok_update(self.tree.kinds(), idx as int, UiNode::Slider(sl));
        }
        self.tree.set_node(idx, UiNode::Slider(sl));
        Ok(())
    }

    /// Replaces the text of label `idx`. If it is the longest the label has
    /// held, the whole tree is to be drawn again; else the label is redrawn
    /// in place.
    pub fn update_label(&mut self, idx: usize, text: String) -> (r: Result<(), UiError>)
        requires
            old(self).wf(),
        ensures
            final(self).wf(),
            idx >= old(self).tree().len() ==> r == Err::<(), UiError>(UiError::OutOfBounds(idx)),
            idx < old(self).tree().len() ==> match old(self).tree().kinds()[idx as int] {
                UiNode::Label(l) => {
                    &&& r is Ok
                    &&& final(self).tree().kinds()[idx as int] matches UiNode::Label(l2) && l2.text_spec() == text@
                        && l2.max_len_spec() == (if text@.len() > l.max_len_spec() {
                        text@.len()
                    } else {
                        l.max_len_spec()
                    })
                    &&& if text@.len() > l.max_len_spec() {
                        final(self).needs_full_redraw() && final(self).redraw_list() == old(self).redraw_list()
                    } else {
                        final(self).needs_full_redraw() == old(self).needs_full_redraw() && final(self).redraw_list()
                            == old(self).redraw_list().push(idx)
                    }
                },
                _ => r == Err::<(), UiError>(UiError::WrongKind(idx)) && final(self).tree() == old(self).tree(),
            },
            final(self).tree().len() == old(self).tree().len(),
            forall|i: int| 0 <= i < old(self).tree().len() && i != idx ==> #[trigger] final(self).tree().kinds()[i]
                == old(self).tree().kinds()[i],
            final(self).tree().parents() == old(self).tree().parents(),
            final(self).tree().visibility() == old(self).tree().visibility(),
            final(self).state() == old(self).state(),
            final(self).keeps_settings(*old(self)),
    {
        if idx >= self.tree.node_count() {
            return Err(UiError::OutOfBounds(idx));
        }
        let is_label = match self.tree.node(idx) {
            UiNode::Label(_) => true,
            _ => false,
        };
        if !is_label {
            return Err(UiError::WrongKind(idx));
        }
        let old_max = match self.tree.node(idx) {
            UiNode::Label(l) => l.max_len(),
            _ => 0,
        };
        let mut label = LabelNode { text: String::new(), max_len: old_max };
        let grew = label.set_text(text);
        proof {
            lemma_sliders_ok_update(self.tree.kinds(), idx as int, UiNode::Label(label));
        }
        self.tree.set_node(idx, UiNode::Label(label));
        if grew {
            self.dirty = true;
        } else {
            self.dirty_nodes.push(idx);
        }
        Ok(())
    }

    /// Queues node `idx` to be redrawn in place.
    pub fn push_dirty(&mut self, idx: usize) -> (r: Result<(), UiError>)
        requires
            old(self).wf(),
        ensures
            final(self).wf(),
            r is Ok <==> idx < old(self).tree().len(),
            final(self).redraw_list() == (if idx < old(self).tree().len() {
                old(self).redraw_list().push(idx)
            } else {
                old(self).redraw_list()
            }),
            r is Err ==> r == Err::<(), UiError>(UiError::OutOfBounds(idx)),
            final(self).tree() == old(self).tree(),
            final(self).state() == old(self).state(),
    {
        if idx >= self.tree.node_count() {
            return Err(UiError::OutOfBounds(idx));
        }
        self.dirty_nodes.push(idx);
        Ok(())
    }

    /// Names the nodes shown for each screen.
    pub fn set_screen_containers(
        &mut self,
        main: usize,
        game: usize,
        system: usize,
        keybinds: usize,
        world: usize,
        title: usize,
    )
        requires
            old(self).wf(),
            main < old(self).tree().len() && game < old(self).tree().len() && system < old(self).tree().len()
                && keybinds < old(self).tree().len() && world < old(self).tree().len() && title < old(
                self,
            ).tree().len(),
        ensures
            final(self).wf(),
            final(self).container_spec(MenuState::Main) == main,
            final(self).container_spec(MenuState::GameOptions) == game,
            final(self).container_spec(MenuState::SystemOptions) == system,
            final(self).container_spec(MenuState::Keybinds) == keybinds,
            final(self).container_spec(MenuState::World) == world,
            final(self).container_spec(MenuState::Title) == title,
            final(self).tree() == old(self).tree(),
            final(self).state() == old(self).state(),
            final(self).pending_spec() == old(self).pending_spec(),
            final(self).hovered() == old(self).hovered(),
            final(self).dragging() == old(self).dragging(),
            final(self).vsync_checkbox() == old(self).vsync_checkbox(),
            final(self).fps_slider() == old(self).fps_slider(),
            final(self).redraw_list() == old(self).redraw_list(),
            final(self).needs_full_redraw() == old(self).needs_full_redraw(),
    {
        self.menu_container = main;
        self.game_container = game;
        self.system_container = system;
        self.keybind_container = keybinds;
        self.world_container = world;
        self.title_container = title;
    }

    /// Names the V-sync checkbox and frame-rate slider that Accept reads.
    pub fn set_settings_controls(&mut self, vsync_checkbox: usize, fps_slider: usize)
        requires
            old(self).wf(),
        ensures
            final(self).wf(),
            final(self).vsync_checkbox() == vsync_checkbox,
            final(self).fps_slider() == fps_slider,
            final(self).tree() == old(self).tree(),
            final(self).state() == old(self).state(),
            final(self).pending_spec() == old(self).pending_spec(),
            final(self).hovered() == old(self).hovered(),
            final(self).dragging() == old(self).dragging(),
            forall|st: MenuState| #[trigger] final(self).container_spec(st) == old(self).container_spec(st),
            final(self).redraw_list() == old(self).redraw_list(),
            final(self).needs_full_redraw() == old(self).needs_full_redraw(),
    {
        self.vsync_checkbox_idx = vsync_checkbox;
        self.fps_slider_idx = fps_slider;
    }

    /// After a rebuild, shows the node of the current screen again, and
    /// hides the world's unless the world is showing.
    pub fn restore_visibility(&mut self)
        requires
            old(self).wf(),
        ensures
            final(self).wf(),
            final(self).tree().visibility() == (if old(self).state() != MenuState::World {
                old(self).tree().visibility().update(old(self).container_spec(old(self).state()) as int, true).update(
                    old(self).container_spec(MenuState::World) as int,
                    false,
                )
            } else {
                old(self).tree().visibility()
            }),
            final(self).tree().kinds() == old(self).tree().kinds(),
            final(self).state() == old(self).state(),
            final(self).same_menu(*old(self)),
            final(self).tree().parents() == old(self).tree().parents(),
            final(self).tree().visibility().len() == old(self).tree().len(),
            old(self).state() != MenuState::World && old(self).container_spec(old(self).state()) != old(
                self,
            ).container_spec(MenuState::World) ==> {
                &&& final(self).tree().visibility()[old(self).container_spec(old(self).state()) as int]
                &&& !final(self).tree().visibility()[old(self).container_spec(MenuState::World) as int]
            },
    {
        proof {
            self.lemma_wf_facts();
        }
        if self.state != MenuState::World {
            let visible_idx = self.container_for(self.state);
            self.tree.set_visible(visible_idx, true);
            self.tree.set_visible(self.world_container, false);
        }
    }
}

/// The checkbox at index `i` of `kinds`, if there is one.
pub open spec fn checkbox_at(kinds: Seq<UiNode>, i: int) -> Option<CheckboxNode> {
    if 0 <= i < kinds.len() {
        match kinds[i] {
            UiNode::Checkbox(c) => Some(c),
            _ => None,
        }
    } else {
        None
    }
}

/// The slider at index `i` of `kinds`, if there is one.
pub open spec fn slider_at_index(kinds: Seq<UiNode>, i: int) -> Option<SliderNode> {
    if 0 <= i < kinds.len() {
        match kinds[i] {
            UiNode::Slider(sl) => Some(sl),
            _ => None,
        }
    } else {
        None
    }
}

/// The slider that node `i` belongs to: itself, or the slider whose thumb it is.
pub open spec fn slider_owner(kinds: Seq<UiNode>, parents: Seq<Option<usize>>, i: int) -> Option<usize> {
    if kinds[i] is Slider {
        Some(i as usize)
    } else {
        match parents[i] {
            Some(p) => match kinds[p as int] {
                UiNode::Slider(sl) => if sl.thumb_idx == Some(i as usize) {
                    Some(p)
                } else {
                    None
                },
                _ => None,
            },
            None => None,
        }
    }
}

/// `kinds` after the pointer left node `h`, if any.
pub open spec fn unhover(kinds: Seq<UiNode>, h: Option<usize>) -> Seq<UiNode> {
    match h {
        Some(i) => kinds.update(i as int, hover_effect(kinds[i as int], false)),
        None => kinds,
    }
}

/// `kinds` after the pointer left node `h`, if any, as closing the menu
/// handles it: only a button's colours are put back.
pub open spec fn unhover_button(kinds: Seq<UiNode>, h: Option<usize>) -> Seq<UiNode> {
    match h {
        Some(i) => if kinds[i as int] is Button {
            kinds.update(i as int, hover_effect(kinds[i as int], false))
        } else {
            kinds
        },
        None => kinds,
    }
}

/// `kinds` with the V-sync checkbox `vsync` and frame-rate slider `fps`
/// showing the settings `p`, where they are of those kinds.
pub open spec fn sync_controls(kinds: Seq<UiNode>, vsync: usize, fps: usize, p: PendingSettings) -> Seq<UiNode> {
    let k1 = match checkbox_at(kinds, vsync as int) {
        Some(c) => kinds.update(vsync as int, UiNode::Checkbox(CheckboxNode { selected: p.vsync, ..c })),
        None => kinds,
    };
    match slider_at_index(k1, fps as int) {
        Some(sl) => k1.update(fps as int, UiNode::Slider(slider_with_value(sl, p.fps_cap as int))),
        None => k1,
    }
}

/// `kinds` after navigating to `target` with `h` hovered.
pub open spec fn nav_kinds(
    kinds: Seq<UiNode>,
    h: Option<usize>,
    target: MenuState,
    vsync: usize,
    fps: usize,
    p: PendingSettings,
) -> Seq<UiNode> {
    let k1 = unhover(kinds, h);
    if target == MenuState::SystemOptions {
        sync_controls(k1, vsync, fps, p)
    } else {
        k1
    }
}

/// `kinds` after the pointer moved from node `old_h` to node `hit`.
pub open spec fn hover_kinds(kinds: Seq<UiNode>, old_h: Option<usize>, hit: Option<usize>) -> Seq<UiNode> {
    if hit == old_h {
        kinds
    } else {
        let k1 = unhover(kinds, old_h);
        match hit {
            Some(n) => k1.update(n as int, hover_effect(k1[n as int], true)),
            None => k1,
        }
    }
}

proof fn lemma_hover_keeps_kind(node: UiNode, entering: bool)
    ensures
        release_action_of(hover_effect(node, entering)) == release_action_of(node),
        (hover_effect(node, entering) is Slider) == (node is Slider),
        hover_effect(node, entering) is Slider ==> hover_effect(node, entering) == node,
{
}

proof fn lemma_sliders_ok_hover(kinds: Seq<UiNode>, i: int, entering: bool)
    requires
        sliders_ok(kinds),
        0 <= i < kinds.len(),
    ensures
        sliders_ok(kinds.update(i, hover_effect(kinds[i], entering))),
{
    lemma_hover_keeps_kind(kinds[i], entering);
    lemma_sliders_ok_update(kinds, i, hover_effect(kinds[i], entering));
}

impl Ui {
    /// `kinds` of this UI after navigating to `target`.
    pub closed spec fn nav_kinds_spec(&self, target: MenuState) -> Seq<UiNode> {
        nav_kinds(
            self.tree.kinds(),
            self.hovered_node,
            target,
            self.vsync_checkbox_idx,
            self.fps_slider_idx,
            self.pending,
        )
    }

    /// The pointer enters (`entering`) or leaves node `idx`; with `mark`, a
    /// node whose drawing changes is queued to be redrawn.
    fn hover_node(&mut self, idx: usize, entering: bool, mark: bool)
        requires
            old(self).wf(),
            idx < old(self).tree.len(),
        ensures
            final(self).wf(),
            final(self).tree.kinds() == old(self).tree.kinds().update(
                idx as int,
                hover_effect(old(self).tree.kinds()[idx as int], entering),
            ),
            final(self).tree.parents() == old(self).tree.parents(),
            final(self).tree.children() == old(self).tree.children(),
            final(self).tree.visibility() == old(self).tree.visibility(),
            final(self).dirty_nodes@ == (if mark && hover_redraws(old(self).tree.kinds()[idx as int]) {
                old(self).dirty_nodes@.push(idx)
            } else {
                old(self).dirty_nodes@
            }),
            final(self).state == old(self).state,
            final(self).hovered_node == old(self).hovered_node,
            final(self).dragging_slider == old(self).dragging_slider,
            final(self).dirty == old(self).dirty,
            final(self).pending == old(self).pending,
            final(self).vsync_checkbox_idx == old(self).vsync_checkbox_idx,
            final(self).fps_slider_idx == old(self).fps_slider_idx,
            final(self).menu_container == old(self).menu_container,
            final(self).game_container == old(self).game_container,
            final(self).system_container == old(self).system_container,
            final(self).keybind_container == old(self).keybind_container,
            final(self).world_container == old(self).world_container,
            final(self).title_container == old(self).title_container,
    {
        let (replacement, redraw) = match self.tree.node(idx) {
            UiNode::Button(b) => {
                if b.has_hover_color {
                    let mut nb = *b;
                    nb.hover_shown = !b.hover_shown;
                    (Some(UiNode::Button(nb)), true)
                } else {
                    (None, false)
                }
            },
            UiNode::Checkbox(c) => {
                let mut nc = *c;
                nc.hovered = entering;
                (Some(UiNode::Checkbox(nc)), true)
            },
            _ => (None, false),
        };
        proof {
            lemma_sliders_ok_hover(self.tree.kinds(), idx as int, entering);
        }
        match replacement {
            Some(node) => {
                self.tree.set_node(idx, node);
            },
            None => {
                proof {
                    assert(self.tree.kinds().update(idx as int, hover_effect(self.tree.kinds()[idx as int], entering))
                        =~= self.tree.kinds());
                }
            },
        }
        if mark && redraw {
            self.dirty_nodes.push(idx);
        }
    }

    /// Shows the V-sync checkbox and frame-rate slider as the settings being
    /// edited say, and names the slider to lay out again.
    fn sync_controls_from_pending(&mut self) -> (r: Option<usize>)
        requires
            old(self).wf(),
        ensures
            final(self).wf(),
            final(self).tree.kinds() == sync_controls(
                old(self).tree.kinds(),
                old(self).vsync_checkbox_idx,
                old(self).fps_slider_idx,
                old(self).pending,
            ),
            final(self).tree.parents() == old(self).tree.parents(),
            final(self).tree.children() == old(self).tree.children(),
            final(self).tree.visibility() == old(self).tree.visibility(),
            final(self).dirty_nodes == old(self).dirty_nodes,
            r == (if slider_at_index(
                sync_controls(
                    old(self).tree.kinds(),
                    old(self).vsync_checkbox_idx,
                    old(self).fps_slider_idx,
                    old(self).pending,
                ),
                old(self).fps_slider_idx as int,
            ) is Some {
                Some(old(self).fps_slider_idx)
            } else {
                None::<usize>
            }),
            final(self).state == old(self).state,
            final(self).hovered_node == old(self).hovered_node,
            final(self).dragging_slider == old(self).dragging_slider,
            final(self).dirty == old(self).dirty,
            final(self).pending == old(self).pending,
            final(self).vsync_checkbox_idx == old(self).vsync_checkbox_idx,
            final(self).fps_slider_idx == old(self).fps_slider_idx,
            final(self).menu_container == old(self).menu_container,
            final(self).game_container == old(self).game_container,
            final(self).system_container == old(self).system_container,
            final(self).keybind_container == old(self).keybind_container,
            final(self).world_container == old(self).world_container,
            final(self).title_container == old(self).title_container,
    {
        let v = self.vsync_checkbox_idx;
        let f = self.fps_slider_idx;
        if v < self.tree.node_count() {
            let replacement = match self.tree.node(v) {
                UiNode::Checkbox(c) => {
                    let mut nc = *c;
                    nc.selected = self.pending.vsync;
                    Some(UiNode::Checkbox(nc))
                },
                _ => None,
            };
            if let Some(node) = replacement {
                proof {
                    lemma_sliders_ok_update(self.tree.kinds(), v as int, node);
                }
                self.tree.set_node(v, node);
            }
        }
        let ghost k1 = self.tree.kinds();
        if f < self.tree.node_count() {
            let replacement = match self.tree.node(f) {
                UiNode::Slider(sl) => {
                    let mut ns = *sl;
                    proof {
                        assert(k1[f as int] matches UiNode::Slider(s0) && s0.min_value <= s0.max_value && s0.step_size
                            > 0);
                    }
                    ns.set_value(self.pending.fps_cap);
                    Some(UiNode::Slider(ns))
                },
                _ => None,
            };
            if let Some(node) = replacement {
                proof {
                    lemma_sliders_ok_update(self.tree.kinds(), f as int, node);
                }
                self.tree.set_node(f, node);
                return Some(f);
            }
        }
        None
    }

    /// Shows the screen `new_state` instead of the current one: the hovered
    /// node is let go, the old screen's node hidden and the new one's shown,
    /// and the whole tree is to be drawn again. Entering the system options
    /// shows the settings being edited on its checkbox and slider, and names
    /// the slider to lay out again.
    pub fn navigate(&mut self, new_state: MenuState) -> (r: Option<usize>)
        requires
            old(self).wf(),
        ensures
            final(self).wf(),
            final(self).state() == new_state,
            final(self).hovered().is_none(),
            final(self).needs_full_redraw(),
            final(self).tree().kinds() == old(self).nav_kinds_spec(new_state),
            final(self).tree().parents() == old(self).tree().parents(),
            final(self).tree().visibility() == old(self).tree().visibility().update(
                old(self).container_spec(old(self).state()) as int,
                false,
            ).update(old(self).container_spec(new_state) as int, true),
            r == (if new_state == MenuState::SystemOptions && slider_at_index(
                old(self).nav_kinds_spec(new_state),
                old(self).fps_slider() as int,
            ) is Some {
                Some(old(self).fps_slider())
            } else {
                None::<usize>
            }),
            final(self).pending_spec() == old(self).pending_spec(),
            final(self).dragging() == old(self).dragging(),
            forall|st: MenuState| #[trigger] final(self).container_spec(st) == old(self).container_spec(st),
            final(self).vsync_checkbox() == old(self).vsync_checkbox(),
            final(self).fps_slider() == old(self).fps_slider(),
            final(self).redraw_list() == old(self).redraw_list(),
            final(self).tree().visibility().len() == old(self).tree().len(),
            final(self).tree().visibility()[old(self).container_spec(new_state) as int],
            old(self).container_spec(old(self).state()) != old(self).container_spec(new_state)
                ==> !final(self).tree().visibility()[old(self).container_spec(old(self).state()) as int],
    {
        proof {
            self.lemma_wf_facts();
        }
        if let Some(h) = self.hovered_node {
            self.hover_node(h, false, false);
            self.hovered_node = None;
        }
        let old_idx = self.container_for(self.state);
        let new_idx = self.container_for(new_state);
        self.tree.set_visible(old_idx, false);
        self.tree.set_visible(new_idx, true);
        self.state = new_state;
        let relayout = if new_state == MenuState::SystemOptions {
            self.sync_controls_from_pending()
        } else {
            None
        };
        self.dirty = true;
        relayout
    }

    /// Opens the main menu from the world, or goes back to the world from
    /// any menu screen, and says what to do with the pointer.
    pub fn toggle_menu(&mut self) -> (r: CursorRequest)
        requires
            old(self).wf(),
        ensures
            final(self).wf(),
            final(self).needs_full_redraw(),
            old(self).state() == MenuState::World ==> {
                &&& r == CursorRequest::Free
                &&& final(self).state() == MenuState::Main
                &&& final(self).hovered() == old(self).hovered()
                &&& final(self).tree().kinds() == old(self).tree().kinds()
                &&& final(self).tree().visibility() == old(self).tree().visibility().update(
                    old(self).container_spec(MenuState::World) as int,
                    false,
                ).update(old(self).container_spec(MenuState::Main) as int, true)
            },
            old(self).state() != MenuState::World ==> {
                &&& r == CursorRequest::Lock
                &&& final(self).state() == MenuState::World
                &&& final(self).hovered().is_none()
                &&& final(self).tree().kinds() == unhover_button(old(self).tree().kinds(), old(self).hovered())
                &&& final(self).tree().visibility() == old(self).tree().visibility().update(
                    old(self).container_spec(old(self).state()) as int,
                    false,
                ).update(old(self).container_spec(MenuState::World) as int, true)
            },
            final(self).tree().parents() == old(self).tree().parents(),
            final(self).pending_spec() == old(self).pending_spec(),
            final(self).dragging() == old(self).dragging(),
            final(self).redraw_list() == old(self).redraw_list(),
            forall|st: MenuState| #[trigger] final(self).container_spec(st) == old(self).container_spec(st),
            final(self).tree().visibility().len() == old(self).tree().len(),
            final(self).tree().visibility()[final(self).container_spec(final(self).state()) as int],
            old(self).container_spec(old(self).state()) != final(self).container_spec(final(self).state())
                ==> !final(self).tree().visibility()[old(self).container_spec(old(self).state()) as int],
    {
        proof {
            self.lemma_wf_facts();
        }
        self.dirty = true;
        if self.state == MenuState::World {
            let old_idx = self.world_container;
            let new_idx = self.menu_container;
            self.tree.set_visible(old_idx, false);
            self.tree.set_visible(new_idx, true);
            self.state = MenuState::Main;
            CursorRequest::Free
        } else {
            if let Some(h) = self.hovered_node {
                let is_button = match self.tree.node(h) {
                    UiNode::Button(_) => true,
                    _ => false,
                };
                if is_button {
                    self.hover_node(h, false, false);
                }
                self.hovered_node = None;
            }
            let old_idx = self.container_for(self.state);
            let new_idx = self.world_container;
            self.tree.set_visible(old_idx, false);
            self.tree.set_visible(new_idx, true);
            self.state = MenuState::World;
            CursorRequest::Lock
        }
    }

    /// The slider that node `idx` belongs to: itself, or the slider whose thumb it is.
    pub fn slider_at(&self, idx: usize) -> (r: Option<usize>)
        requires
            self.wf(),
            idx < self.tree().len(),
        ensures
            r == slider_owner(self.tree().kinds(), self.tree().parents(), idx as int),
    {
        match self.tree.node(idx) {
            UiNode::Slider(_) => Some(idx),
            _ => {
                match self.tree.parent(idx) {
                    Some(p) => {
                        proof {
                            assert(idx >= 1);
                            assert(p < idx);
                        }
                        match self.tree.node(p) {
                            UiNode::Slider(sl) => {
                                if sl.thumb_idx == Some(idx) {
                                    Some(p)
                                } else {
                                    None
                                }
                            },
                            _ => None,
                        }
                    },
                    None => None,
                }
            },
        }
    }
}

/// The error for asking node `i` of `kinds` to be of a kind it is not.
pub open spec fn kind_error(kinds: Seq<UiNode>, i: usize) -> UiError {
    if i >= kinds.len() {
        UiError::OutOfBounds(i)
    } else {
        UiError::WrongKind(i)
    }
}

/// The redraw queue `list` after the pointer moved from node `old_h` to node `hit`.
pub open spec fn hover_redraw_list(kinds: Seq<UiNode>, old_h: Option<usize>, hit: Option<usize>, list: Seq<usize>) -> Seq<
    usize,
> {
    if hit == old_h {
        list
    } else {
        let k1 = unhover(kinds, old_h);
        let l1 = match old_h {
            Some(o) => if hover_redraws(kinds[o as int]) {
                list.push(o)
            } else {
                list
            },
            None => list,
        };
        match hit {
            Some(n) => if hover_redraws(k1[n as int]) {
                l1.push(n)
            } else {
                l1
            },
            None => l1,
        }
    }
}

/// `kinds` with the checkbox at `i`, if it is one, ticked the other way.
pub open spec fn toggle_checkbox(kinds: Seq<UiNode>, i: int) -> Seq<UiNode> {
    match checkbox_at(kinds, i) {
        Some(c) => kinds.update(i, UiNode::Checkbox(CheckboxNode { selected: !c.selected, ..c })),
        None => kinds,
    }
}

fn none_response() -> (r: UiResponse)
    ensures
        r == no_response(),
{
    UiResponse { action: None, drag_slider: None, drag_started: None, relayout_slider: None }
}

impl Ui {
    /// The slider that a press over `hit` starts dragging, after the pointer moved there.
    pub open spec fn drag_target(&self, hit: Option<usize>, pressed: bool) -> Option<usize> {
        let k1 = hover_kinds(self.tree().kinds(), self.hovered(), hit);
        if pressed && hit is Some {
            slider_owner(k1, self.tree().parents(), hit->0 as int)
        } else {
            None
        }
    }

    /// The action a release over `hit` fires.
    pub open spec fn released_action(&self, hit: Option<usize>, released: bool) -> Option<UiAction> {
        if released && hit is Some {
            release_action_of(self.tree().kinds()[hit->0 as int])
        } else {
            None
        }
    }

    /// Handles one tick of pointer input, `hit` being the node under the
    /// pointer. Nothing happens while the world shows. While a slider is
    /// dragged, holding the primary button keeps dragging it and letting go
    /// ends the drag. Otherwise the pointer leaves the node it hovered and
    /// enters `hit`; a press over a slider or its thumb starts dragging it;
    /// a release fires the node's action: opening a screen navigates there,
    /// the V-sync action ticks its checkbox the other way, Accept stages the
    /// checkbox and slider values and goes back to the main menu, and Accept,
    /// closing the menu and quitting are handed back to the host.
    #[verifier::rlimit(60)]
    #[verifier::spinoff_prover]
    pub fn handle_input(
        &mut self,
        hit: Option<usize>,
        primary_held: bool,
        primary_pressed: bool,
        primary_released: bool,
    ) -> (r: Result<UiResponse, UiError>)
        requires
            old(self).wf(),
            hit matches Some(h) ==> h < old(self).tree().len(),
        ensures
            final(self).wf(),
            final(self).tree().parents() == old(self).tree().parents(),
            forall|st: MenuState| #[trigger] final(self).container_spec(st) == old(self).container_spec(st),
            old(self).state() == MenuState::World ==> {
                &&& r == Ok::<UiResponse, UiError>(no_response())
                &&& final(self).tree() == old(self).tree()
                &&& final(self).state() == old(self).state()
                &&& final(self).hovered() == old(self).hovered()
                &&& final(self).dragging() == old(self).dragging()
                &&& final(self).pending_spec() == old(self).pending_spec()
                &&& final(self).redraw_list() == old(self).redraw_list()
                &&& final(self).needs_full_redraw() == old(self).needs_full_redraw()
            },
            old(self).state() != MenuState::World && old(self).dragging() is Some ==> ({
                let s = old(self).dragging()->0;
                &&& final(self).tree() == old(self).tree()
                &&& final(self).state() == old(self).state()
                &&& final(self).hovered() == old(self).hovered()
                &&& final(self).pending_spec() == old(self).pending_spec()
                &&& final(self).redraw_list() == old(self).redraw_list()
                &&& final(self).needs_full_redraw() == old(self).needs_full_redraw()
                &&& if slider_at_index(old(self).tree().kinds(), s as int) is None {
                    r == Err::<UiResponse, UiError>(kind_error(old(self).tree().kinds(), s))
                } else if primary_held {
                    &&& r == Ok::<UiResponse, UiError>(UiResponse { drag_slider: Some(s), ..no_response() })
                    &&& final(self).dragging() == old(self).dragging()
                } else {
                    &&& r == Ok::<UiResponse, UiError>(no_response())
                    &&& final(self).dragging().is_none()
                }
            }),
            old(self).state() != MenuState::World && old(self).dragging() is None ==> ({
                let k1 = hover_kinds(old(self).tree().kinds(), old(self).hovered(), hit);
                let l1 = hover_redraw_list(
                    old(self).tree().kinds(),
                    old(self).hovered(),
                    hit,
                    old(self).redraw_list(),
                );
                let drag = old(self).drag_target(hit, primary_pressed);
                let a = old(self).released_action(hit, primary_released);
                let i = hit->0 as int;
                let v = old(self).vsync_checkbox();
                let f = old(self).fps_slider();
                &&& final(self).dragging() == (if drag is Some {
                    drag
                } else {
                    old(self).dragging()
                })
                &&& match a {
                    None => {
                        &&& r == Ok::<UiResponse, UiError>(UiResponse { drag_started: drag, ..no_response() })
                        &&& final(self).tree().kinds() == k1
                        &&& final(self).redraw_list() == l1
                        &&& final(self).state() == old(self).state()
                        &&& final(self).hovered() == hit
                        &&& final(self).pending_spec() == old(self).pending_spec()
                        &&& final(self).tree().visibility() == old(self).tree().visibility()
                        &&& final(self).needs_full_redraw() == old(self).needs_full_redraw()
                    },
                    Some(UiAction::ToggleVsync) => {
                        &&& r == Ok::<UiResponse, UiError>(UiResponse { drag_started: drag, ..no_response() })
                        &&& final(self).tree().kinds() == toggle_checkbox(k1, i)
                        &&& final(self).redraw_list() == l1.push(i as usize)
                        &&& final(self).state() == old(self).state()
                        &&& final(self).hovered() == hit
                        &&& final(self).pending_spec() == old(self).pending_spec()
                        &&& final(self).tree().visibility() == old(self).tree().visibility()
                        &&& final(self).needs_full_redraw() == old(self).needs_full_redraw()
                    },
                    Some(UiAction::CloseMenu) | Some(UiAction::ExitApp) => {
                        &&& r == Ok::<UiResponse, UiError>(UiResponse { drag_started: drag, action: a, ..no_response() })
                        &&& final(self).tree().kinds() == k1
                        &&& final(self).redraw_list() == l1
                        &&& final(self).state() == old(self).state()
                        &&& final(self).hovered() == hit
                        &&& final(self).pending_spec() == old(self).pending_spec()
                        &&& final(self).tree().visibility() == old(self).tree().visibility()
                        &&& final(self).needs_full_redraw() == old(self).needs_full_redraw()
                    },
                    Some(UiAction::ApplySettings) => {
                        if checkbox_at(k1, v as int) is None || slider_at_index(k1, f as int) is None {
                            &&& r == Err::<UiResponse, UiError>(
                                if checkbox_at(k1, v as int) is None {
                                    kind_error(k1, v)
                                } else {
                                    kind_error(k1, f)
                                },
                            )
                            &&& final(self).tree().kinds() == k1
                            &&& final(self).tree().visibility() == old(self).tree().visibility()
                            &&& final(self).redraw_list() == l1
                            &&& final(self).state() == old(self).state()
                            &&& final(self).hovered() == hit
                            &&& final(self).pending_spec() == old(self).pending_spec()
                        } else {
                            let p = PendingSettings {
                                vsync: checkbox_at(k1, v as int)->0.selected,
                                fps_cap: slider_at_index(k1, f as int)->0.value,
                            };
                            let k2 = nav_kinds(k1, hit, MenuState::Main, v, f, p);
                            &&& r == Ok::<UiResponse, UiError>(
                                UiResponse { drag_started: drag, action: a, ..no_response() },
                            )
                            &&& final(self).pending_spec() == p
                            &&& final(self).state() == MenuState::Main
                            &&& final(self).hovered().is_none()
                            &&& final(self).tree().kinds() == k2
                            &&& final(self).redraw_list() == l1
                            &&& final(self).tree().visibility() == old(self).tree().visibility().update(
                                old(self).container_spec(old(self).state()) as int,
                                false,
                            ).update(old(self).container_spec(MenuState::Main) as int, true)
                            &&& final(self).needs_full_redraw()
                        }
                    },
                    Some(x) => {
                        let t = nav_target(x)->0;
                        let k2 = nav_kinds(k1, hit, t, v, f, old(self).pending_spec());
                        &&& r == Ok::<UiResponse, UiError>(
                            UiResponse {
                                drag_started: drag,
                                relayout_slider: if t == MenuState::SystemOptions && slider_at_index(k2, f as int) is Some {
                                    Some(f)
                                } else {
                                    None
                                },
                                ..no_response()
                            },
                        )
                        &&& final(self).state() == t
                        &&& final(self).hovered().is_none()
                        &&& final(self).tree().kinds() == k2
                        &&& final(self).pending_spec() == old(self).pending_spec()
                        &&& final(self).redraw_list() == l1
                        &&& final(self).tree().visibility() == old(self).tree().visibility().update(
                            old(self).container_spec(old(self).state()) as int,
                            false,
                        ).update(old(self).container_spec(t) as int, true)
                        &&& final(self).needs_full_redraw()
                    },
                }
            }),
    {
        if self.state == MenuState::World {
            return Ok(none_response());
        }
        if let Some(s) = self.dragging_slider {
            if s >= self.tree.node_count() {
                return Err(UiError::OutOfBounds(s));
            }
            let is_slider = match self.tree.node(s) {
                UiNode::Slider(_) => true,
                _ => false,
            };
            if !is_slider {
                return Err(UiError::WrongKind(s));
            }
            if primary_held {
                return Ok(UiResponse { action: None, drag_slider: Some(s), drag_started: None, relayout_slider: None });
            }
            self.dragging_slider = None;
            return Ok(none_response());
        }
        let ghost k0 = self.tree.kinds();
        let ghost h0 = self.hovered_node;
        if hit != self.hovered_node {
            if let Some(o) = self.hovered_node {
                self.hover_node(o, false, true);
            }
            if let Some(n) = hit {
                self.hover_node(n, true, true);
            }
            self.hovered_node = hit;
        }
        proof {
            assert(self.tree.kinds() == hover_kinds(k0, h0, hit));
        }
        let mut response = none_response();
        if let Some(idx) = hit {
            if primary_pressed {
                if let Some(s) = self.slider_at(idx) {
                    self.dragging_slider = Some(s);
                    response.drag_started = Some(s);
                }
            }
            let action = if primary_released {
                match self.tree.node(idx) {
                    UiNode::Button(b) => b.interaction.on_release,
                    UiNode::Checkbox(c) => c.interaction.on_release,
                    _ => None,
                }
            } else {
                None
            };
            proof {
                if h0 is Some && hit != h0 {
                    lemma_hover_keeps_kind(k0[h0->0 as int], false);
                }
                if hit != h0 {
                    lemma_hover_keeps_kind(unhover(k0, h0)[idx as int], true);
                }
                assert(action == old(self).released_action(hit, primary_released));
            }
            if let Some(a) = action {
                match a {
                    UiAction::OpenKeybinds => {
                        response.relayout_slider = self.navigate(MenuState::Keybinds);
                    },
                    UiAction::OpenGameOptions => {
                        response.relayout_slider = self.navigate(MenuState::GameOptions);
                    },
                    UiAction::OpenSystemOptions => {
                        response.relayout_slider = self.navigate(MenuState::SystemOptions);
                    },
                    UiAction::BackToMain => {
                        response.relayout_slider = self.navigate(MenuState::Main);
                    },
                    UiAction::ToggleVsync => {
                        let replacement = match self.tree.node(idx) {
                            UiNode::Checkbox(c) => {
                                let mut nc = *c;
                                nc.selected = !c.selected;
                                Some(UiNode::Checkbox(nc))
                            },
                            _ => None,
                        };
                        if let Some(node) = replacement {
                            proof {
                                lemma_sliders_ok_update(self.tree.kinds(), idx as int, node);
                            }
                            self.tree.set_node(idx, node);
                        }
                        self.dirty_nodes.push(idx);
                    },
                    UiAction::ApplySettings => {
                        let v = self.vsync_checkbox_idx;
                        let f = self.fps_slider_idx;
                        if v >= self.tree.node_count() {
                            return Err(UiError::OutOfBounds(v));
                        }
                        let vsync = match self.tree.node(v) {
                            UiNode::Checkbox(c) => c.selected,
                            _ => {
                                return Err(UiError::WrongKind(v));
                            },
                        };
                        if f >= self.tree.node_count() {
                            return Err(UiError::OutOfBounds(f));
                        }
                        let fps_cap = match self.tree.node(f) {
                            UiNode::Slider(sl) => sl.value,
                            _ => {
                                return Err(UiError::WrongKind(f));
                            },
                        };
                        self.pending = PendingSettings { vsync, fps_cap };
                        response.relayout_slider = self.navigate(MenuState::Main);
                        response.action = Some(UiAction::ApplySettings);
                        return Ok(response);
                    },
                    UiAction::CloseMenu => {
                        response.action = Some(a);
                        return Ok(response);
                    },
                    UiAction::ExitApp => {
                        response.action = Some(a);
                        return Ok(response);
                    },
                }
            }
        }
        Ok(response)
    }

    /// Moves slider `idx` to `value`, clamped and snapped, for a drag the
    /// host measured.
    pub fn drag_to(&mut self, idx: usize, value: u32) -> (r: Result<(), UiError>)
        requires
            old(self).wf(),
        ensures
            final(self).wf(),
            idx >= old(self).tree().len() ==> r == Err::<(), UiError>(UiError::OutOfBounds(idx)),
            idx < old(self).tree().len() ==> match old(self).tree().kinds()[idx as int] {
                UiNode::Slider(sl) => r is Ok && final(self).tree().kinds() == old(self).tree().kinds().update(
                    idx as int,
                    UiNode::Slider(slider_with_value(sl, value as int)),
                ),
                _ => r == Err::<(), UiError>(UiError::WrongKind(idx)) && final(self).tree() == old(self).tree(),
            },
            final(self).state() == old(self).state(),
            final(self).dragging() == old(self).dragging(),
    {
        self.set_slider_value(idx, value)
    }
}

/// Quads a node of kind `k` is drawn with: one per reserved character of a
/// label, one for a panel, button, checkbox or slider, none for a container.
pub open spec fn node_quads(k: UiNode) -> int {
    match k {
        UiNode::Container => 0,
        UiNode::Label(l) => l.max_len_spec() as int,
        _ => 1,
    }
}

/// Quads of the visible nodes among the first `j` of `kids`.
pub open spec fn shown_quads(t: UiTree, kids: Seq<usize>, j: nat) -> int
    decreases j,
{
    if j == 0 {
        0
    } else {
        let c = kids[j - 1] as int;
        shown_quads(t, kids, (j - 1) as nat) + if t.visibility()[c] {
            node_quads(t.kinds()[c])
        } else {
            0
        }
    }
}

/// The visible nodes among the first `j` of `kids`, each with its first
/// quad, the first of them at quad `q`.
pub open spec fn shown_entries(t: UiTree, kids: Seq<usize>, j: nat, q: int) -> Seq<(usize, usize)>
    decreases j,
{
    if j == 0 {
        Seq::empty()
    } else {
        let c = kids[j - 1];
        shown_entries(t, kids, (j - 1) as nat, q) + if t.visibility()[c as int] {
            seq![(c, (q + shown_quads(t, kids, (j - 1) as nat)) as usize)]
        } else {
            Seq::<(usize, usize)>::empty()
        }
    }
}

/// The visible nodes among the first `j` of `kids` whose own children are
/// drawn too: all but labels.
pub open spec fn descended(t: UiTree, kids: Seq<usize>, j: nat) -> Seq<usize>
    decreases j,
{
    if j == 0 {
        Seq::empty()
    } else {
        let c = kids[j - 1];
        descended(t, kids, (j - 1) as nat) + if t.visibility()[c as int] && !(t.kinds()[c as int] is Label) {
            seq![c]
        } else {
            Seq::<usize>::empty()
        }
    }
}

/// The drawing walk: the node on top of `stack` is taken off, its visible
/// children are drawn in order from quad `q` on, and those that are not
/// labels go on the stack; at most `fuel` nodes are taken off.
pub open spec fn walk(t: UiTree, stack: Seq<usize>, fuel: nat, q: int) -> Seq<(usize, usize)>
    decreases fuel,
{
    if fuel == 0 || stack.len() == 0 {
        Seq::empty()
    } else {
        let kids = t.children()[stack.last() as int];
        shown_entries(t, kids, kids.len(), q) + walk(
            t,
            stack.drop_last() + descended(t, kids, kids.len()),
            (fuel - 1) as nat,
            q + shown_quads(t, kids, kids.len()),
        )
    }
}

/// The quad count the drawing walk ends at.
pub open spec fn walk_end(t: UiTree, stack: Seq<usize>, fuel: nat, q: int) -> int
    decreases fuel,
{
    if fuel == 0 || stack.len() == 0 {
        q
    } else {
        let kids = t.children()[stack.last() as int];
        walk_end(
            t,
            stack.drop_last() + descended(t, kids, kids.len()),
            (fuel - 1) as nat,
            q + shown_quads(t, kids, kids.len()),
        )
    }
}

/// Quads drawn before the tree: the two bars of the crosshair while the world shows.
pub open spec fn crosshair_quads(state: MenuState) -> int {
    if state == MenuState::World {
        2
    } else {
        0
    }
}

/// The order the menu is drawn in, each node with its first quad: starting
/// from the root, the node last put on the stack has its visible children
/// drawn, and those that are not labels put on the stack in turn. Every node
/// is put on the stack at most once, so as many steps as nodes reach all.
pub open spec fn draw_order(t: UiTree, state: MenuState) -> Seq<(usize, usize)> {
    walk(t, seq![0usize], t.len(), crosshair_quads(state))
}

/// The number of quads the whole menu is drawn with.
pub open spec fn draw_total(t: UiTree, state: MenuState) -> int {
    walk_end(t, seq![0usize], t.len(), crosshair_quads(state))
}

proof fn lemma_shown_quads_grow(t: UiTree, kids: Seq<usize>, a: nat, b: nat)
    requires
        a <= b,
    ensures
        shown_quads(t, kids, a) <= shown_quads(t, kids, b),
    decreases b,
{
    if a < b {
        lemma_shown_quads_grow(t, kids, a, (b - 1) as nat);
    }
}

proof fn lemma_walk_end_grows(t: UiTree, stack: Seq<usize>, fuel: nat, q: int)
    ensures
        walk_end(t, stack, fuel, q) >= q,
    decreases fuel,
{
    if fuel > 0 && stack.len() > 0 {
        let kids = t.children()[stack.last() as int];
        lemma_shown_quads_grow(t, kids, 0, kids.len());
        lemma_walk_end_grows(
            t,
            stack.drop_last() + descended(t, kids, kids.len()),
            (fuel - 1) as nat,
            q + shown_quads(t, kids, kids.len()),
        );
    }
}

impl Ui {
    /// Plans a full redraw: every visible node reached from the root, in
    /// drawing order, with the first quad it is drawn at, after the
    /// crosshair while the world shows. With the plan made, nothing waits
    /// to be drawn. `None`, changing nothing, when the quads would not fit
    /// a `usize`.
    pub fn draw_plan(&mut self) -> (r: Option<Vec<(usize, usize)>>)
        requires
            old(self).wf(),
        ensures
            final(self).wf(),
            final(self).tree() == old(self).tree(),
            final(self).state() == old(self).state(),
            final(self).hovered() == old(self).hovered(),
            final(self).dragging() == old(self).dragging(),
            final(self).pending_spec() == old(self).pending_spec(),
            forall|st: MenuState| #[trigger] final(self).container_spec(st) == old(self).container_spec(st),
            match r {
                Some(plan) => {
                    &&& plan@ == draw_order(old(self).tree(), old(self).state())
                    &&& draw_total(old(self).tree(), old(self).state()) <= usize::MAX
                    &&& !final(self).needs_full_redraw()
                    &&& final(self).redraw_list() == Seq::<usize>::empty()
                },
                None => {
                    &&& draw_total(old(self).tree(), old(self).state()) > usize::MAX
                    &&& final(self).same_menu(*old(self))
                },
            },
    {
        let ghost t = self.tree();
        let n = self.tree.node_count();
        let start: usize = if self.state == MenuState::World {
            2
        } else {
            0
        };
        let ghost total = walk_end(t, seq![0usize], n as nat, start as int);
        let mut out: Vec<(usize, usize)> = Vec::new();
        let mut stack: Vec<usize> = Vec::new();
        stack.push(0);
        let mut cursor: usize = start;
        let mut fuel: usize = n;
        proof {
            assert(stack@ =~= seq![0usize]);
        }
        while fuel > 0 && stack.len() > 0
            invariant
                self.wf(),
                *self == *old(self),
                start as int == crosshair_quads(old(self).state()),
                total == draw_total(t, old(self).state()),
                t == old(self).tree(),
                self.tree() == t,
                t.wf(),
                n == t.len(),
                links_ok(t.parents(), t.children()),
                t.children().len() == t.len(),
                t.visibility().len() == t.len(),
                forall|k: int| 0 <= k < stack@.len() ==> #[trigger] stack@[k] < n,
                out@ + walk(t, stack@, fuel as nat, cursor as int) == walk(t, seq![0usize], n as nat, start as int),
                walk_end(t, stack@, fuel as nat, cursor as int) == total,
            decreases fuel,
        {
            let ghost s0 = stack@;
            let ghost out0 = out@;
            let ghost c0 = cursor as int;
            let node = stack.pop().unwrap();
            proof {
                assert(s0.last() == node);
                assert(stack@ =~= s0.drop_last());
            }
            let kids = self.tree.children_of(node);
            let ghost k = kids@;
            let mut q: usize = cursor;
            let mut j: usize = 0;
            proof {
                assert(stack@ =~= s0.drop_last() + descended(t, k, 0));
                assert(out@ =~= out0 + shown_entries(t, k, 0, c0));
            }
            while j < kids.len()
                invariant
                    self.wf(),
                    *self == *old(self),
                    start as int == crosshair_quads(old(self).state()),
                    total == draw_total(t, old(self).state()),
                    t == old(self).tree(),
                    self.tree() == t,
                    t.wf(),
                    n == t.len(),
                    links_ok(t.parents(), t.children()),
                    t.children().len() == t.len(),
                    t.visibility().len() == t.len(),
                    node < n,
                    k == t.children()[node as int],
                    kids@ == k,
                    0 <= j <= k.len(),
                    fuel > 0,
                    s0.len() > 0,
                    s0.last() == node,
                    forall|i: int| 0 <= i < stack@.len() ==> #[trigger] stack@[i] < n,
                    stack@ == s0.drop_last() + descended(t, k, j as nat),
                    out@ == out0 + shown_entries(t, k, j as nat, c0),
                    q as int == c0 + shown_quads(t, k, j as nat),
                    out0 + walk(t, s0, fuel as nat, c0) == walk(t, seq![0usize], n as nat, start as int),
                    walk_end(t, s0, fuel as nat, c0) == total,
                decreases k.len() - j,
            {
                let c = kids[j];
                proof {
                    assert(0 <= c < t.len());
                }
                let ghost d0 = stack@;
                let ghost e0 = out@;
                if self.tree.is_visible(c) {
                    let kq: usize = match self.tree.node(c) {
                        UiNode::Container => 0,
                        UiNode::Label(l) => l.max_len(),
                        _ => 1,
                    };
                    let is_label = match self.tree.node(c) {
                        UiNode::Label(_) => true,
                        _ => false,
                    };
                    out.push((c, q));
                    if q > usize::MAX - kq {
                        proof {
                            lemma_shown_quads_grow(t, k, (j + 1) as nat, k.len());
                            let rest = s0.drop_last() + descended(t, k, k.len());
                            lemma_walk_end_grows(t, rest, (fuel - 1) as nat, c0 + shown_quads(t, k, k.len()));
                            assert(shown_quads(t, k, (j + 1) as nat) == shown_quads(t, k, j as nat) + kq);
                            assert(walk_end(t, s0, fuel as nat, c0) == walk_end(t, rest, (fuel - 1) as nat, c0 + shown_quads(t, k, k.len())));
                            assert(total > usize::MAX);
                            assert(start as int == crosshair_quads(old(self).state()));
                            assert(total == draw_total(old(self).tree(), old(self).state()));
                            assert(self.same_menu(*old(self)));
                        }
                        return None;
                    }
                    q = q + kq;
                    if !is_label {
                        stack.push(c);
                    }
                    proof {
                        assert(shown_quads(t, k, (j + 1) as nat) == shown_quads(t, k, j as nat) + kq);
                        assert(out@ =~= out0 + shown_entries(t, k, (j + 1) as nat, c0));
                        assert(stack@ =~= s0.drop_last() + descended(t, k, (j + 1) as nat));
                    }
                } else {
                    proof {
                        assert(out@ =~= out0 + shown_entries(t, k, (j + 1) as nat, c0));
                        assert(stack@ =~= s0.drop_last() + descended(t, k, (j + 1) as nat));
                    }
                }
                j += 1;
            }
            proof {
                assert(out@ + walk(t, stack@, (fuel - 1) as nat, q as int) =~= out0 + walk(t, s0, fuel as nat, c0));
            }
            cursor = q;
            fuel -= 1;
        }
        proof {
            assert(walk(t, stack@, fuel as nat, cursor as int) =~= Seq::<(usize, usize)>::empty());
            assert(out@ =~= walk(t, seq![0usize], n as nat, start as int));
        }
        self.mark_flushed();
        Some(out)
    }
}

} // verus!
