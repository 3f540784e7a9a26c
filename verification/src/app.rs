//! The status item: the state it shows, the layout of its row of space buttons,
//! and the decisions of its delegate (what a refresh, a toggle or a click leads
//! to). Sizes are in points; drawing and event delivery are the caller's.

use vstd::prelude::*;
use crate::skylight::SLSpace;
use crate::text::{decimal_spec, usize_to_string};

verus! {

/// The width of a space button.
pub const BUTTON_W: u64 = 24;

/// The height of a space button.
pub const BUTTON_H: u64 = 15;

/// The room around a button: half of it on each side.
pub const BUTTON_PADDING: u64 = 5;

/// The width of the divider drawn between the buttons of two displays.
pub const SEPARATOR_W: u64 = 8;

/// The horizontal room one button takes: its width and its padding.
pub open spec fn slot_w() -> nat {
    (BUTTON_W + BUTTON_PADDING) as nat
}

/// A divider stands before button `i` when dividers are shown and the space
/// before it is on another display.
pub open spec fn separator_before(spaces: Seq<SLSpace>, show: bool, i: int) -> bool {
    &&& show
    &&& 0 < i < spaces.len()
    &&& spaces[i - 1].display_index != spaces[i].display_index
}

/// The room a divider takes before button `i`.
pub open spec fn separator_room(spaces: Seq<SLSpace>, show: bool, i: int) -> nat {
    if separator_before(spaces, show, i) {
        SEPARATOR_W as nat
    } else {
        0
    }
}

/// Where the row ends after its first `n` buttons.
pub open spec fn offset_after(spaces: Seq<SLSpace>, show: bool, n: nat) -> nat
    decreases n,
{
    if n == 0 {
        0
    } else {
        offset_after(spaces, show, (n - 1) as nat) + separator_room(spaces, show, n - 1) + slot_w()
    }
}

/// Where the room of button `i` starts: after the buttons before it and the
/// divider before it, if any.
pub open spec fn slot_x(spaces: Seq<SLSpace>, show: bool, i: nat) -> nat {
    offset_after(spaces, show, i) + separator_room(spaces, show, i as int)
}

/// The width of the row: the room of all buttons and dividers, or the room of
/// one button when there is no space.
pub open spec fn width_spec(spaces: Seq<SLSpace>, show: bool) -> nat {
    if spaces.len() == 0 {
        slot_w()
    } else {
        offset_after(spaces, show, spaces.len())
    }
}

proof fn lemma_offset_bound(spaces: Seq<SLSpace>, show: bool, n: nat)
    ensures
        offset_after(spaces, show, n) <= 37 * n,
    decreases n,
{
    if n > 0 {
        lemma_offset_bound(spaces, show, (n - 1) as nat);
    }
}

/// The width of the row of buttons for `spaces`.
pub fn spaces_width(spaces: &[SLSpace], show_separator: bool) -> (r: u128)
    ensures
        r == width_spec(spaces@, show_separator),
{
    if spaces.len() == 0 {
        return (BUTTON_W + BUTTON_PADDING) as u128;
    }
    let mut w: u128 = 0;
    let mut last_display: Option<usize> = None;
    let mut i: usize = 0;
    while i < spaces.len()
        invariant
            i <= spaces@.len(),
            w == offset_after(spaces@, show_separator, i as nat),
            i == 0 ==> last_display is None,
            i > 0 ==> last_display == Some(spaces@[i - 1].display_index),
        decreases spaces@.len() - i,
    {
        proof {
            lemma_offset_bound(spaces@, show_separator, (i + 1) as nat);
        }
        let space = spaces[i];
        let new_display = match last_display {
            Some(d) => d != space.display_index,
            None => false,
        };
        if show_separator && new_display {
            w = w + SEPARATOR_W as u128;
        }
        last_display = Some(space.display_index);
        w = w + (BUTTON_W + BUTTON_PADDING) as u128;
        i = i + 1;
    }
    w
}

/// The place of one button in the row.
#[derive(Clone, Copy, Debug, PartialEq, Eq, Structural)]
pub struct ButtonSlot {
    /// Where the button's room starts; the button is drawn half the padding to
    /// the right of it.
    pub x: u128,
    /// Where the divider before the button is drawn, if there is one.
    pub separator_x: Option<u128>,
    /// The number the button shows: its 1-based position in the row.
    pub label: usize,
    /// The button's space is the focused one: the button is filled.
    pub is_active: bool,
}

/// The place of button `i`.
pub open spec fn slot_spec(spaces: Seq<SLSpace>, show: bool, i: int) -> ButtonSlot {
    ButtonSlot {
        x: slot_x(spaces, show, i as nat) as u128,
        separator_x: if separator_before(spaces, show, i) {
            Some(offset_after(spaces, show, i as nat) as u128)
        } else {
            None
        },
        label: (i + 1) as usize,
        is_active: spaces[i].is_active,
    }
}

/// The places of all buttons for `spaces`, one per space, in order.
pub fn button_slots(spaces: &[SLSpace], show_separator: bool) -> (r: Vec<ButtonSlot>)
    ensures
        r@.len() == spaces@.len(),
        forall|i: int| 0 <= i < spaces@.len() ==> #[trigger] r@[i].is_active == spaces@[i].is_active,
        forall|i: int| 0 <= i < spaces@.len() ==> r@[i] == slot_spec(spaces@, show_separator, i),
{
    let mut slots: Vec<ButtonSlot> = Vec::new();
    let mut x: u128 = 0;
    let mut last_display: Option<usize> = None;
    let mut i: usize = 0;
    while i < spaces.len()
        invariant
            i <= spaces@.len(),
            slots@.len() == i,
            forall|k: int| 0 <= k < i ==> slots@[k] == slot_spec(spaces@, show_separator, k),
            x == offset_after(spaces@, show_separator, i as nat),
            i == 0 ==> last_display is None,
            i > 0 ==> last_display == Some(spaces@[i - 1].display_index),
        decreases spaces@.len() - i,
    {
        proof {
            lemma_offset_bound(spaces@, show_separator, (i + 1) as nat);
        }
        let space = spaces[i];
        let new_display = match last_display {
            Some(d) => d != space.display_index,
            None => false,
        };
        let mut separator_x: Option<u128> = None;
        if show_separator && new_display {
            separator_x = Some(x);
            x = x + SEPARATOR_W as u128;
        }
        last_display = Some(space.display_index);
        slots.push(ButtonSlot { x: x, separator_x: separator_x, label: i + 1, is_active: space.is_active });
        x = x + (BUTTON_W + BUTTON_PADDING) as u128;
        i = i + 1;
    }
    slots
}

impl ButtonSlot {
    /// The text drawn on the button: its number.
    pub fn label_text(&self) -> (r: String)
        ensures
            r@ == decimal_spec(self.label as int),
    {
        usize_to_string(self.label)
    }
}


/// What the status item shows: the spaces, and whether dividers stand between
/// the buttons of different displays.
pub struct AppState {
    pub spaces: Vec<SLSpace>,
    pub show_display_separator: bool,
}

impl AppState {
    /// No spaces yet, dividers shown.
    pub fn new() -> (r: AppState)
        ensures
            r.spaces@.len() == 0,
            r.show_display_separator,
    {
        AppState { spaces: Vec::new(), show_display_separator: true }
    }

    /// The width of the row of buttons.
    pub fn content_width(&self) -> (r: u128)
        ensures
            r == width_spec(self.spaces@, self.show_display_separator),
    {
        spaces_width(self.spaces.as_slice(), self.show_display_separator)
    }

    /// The places of the buttons, one per space, in order.
    pub fn button_slots(&self) -> (r: Vec<ButtonSlot>)
        ensures
            r@.len() == self.spaces@.len(),
            forall|i: int|
                0 <= i < self.spaces@.len() ==> r@[i] == slot_spec(
                    self.spaces@,
                    self.show_display_separator,
                    i,
                ),
    {
        button_slots(self.spaces.as_slice(), self.show_display_separator)
    }

    /// Shows the dividers when they are hidden and hides them when they are shown.
    pub fn toggle_separator(&mut self)
        ensures
            final(self).show_display_separator == !old(self).show_display_separator,
            final(self).spaces@ == old(self).spaces@,
    {
        self.show_display_separator = !self.show_display_separator;
    }

    /// The index that yabai is asked to focus when button `slot` is clicked: the
    /// number the button shows. `None` when there is no such button.
    pub fn focus_target(&self, slot: usize) -> (r: Option<i64>)
        ensures
            r == focus_target_spec(self.spaces@, slot as int),
    {
        if slot < self.spaces.len() {
            Some(#[verifier::truncate] ((slot + 1) as i64))
        } else {
            None
        }
    }
}

/// The index that a click on button `slot` asks yabai to focus: the button's
/// 1-based position; none when there is no such button.
pub open spec fn focus_target_spec(spaces: Seq<SLSpace>, slot: int) -> Option<i64> {
    if 0 <= slot < spaces.len() {
        Some(#[verifier::truncate] ((slot + 1) as i64))
    } else {
        None
    }
}

/// The width of the view that draws `state`: the room of one button while it
/// has no state yet.
pub fn view_width(state: Option<&AppState>) -> (r: u128)
    ensures
        r == match state {
            Some(s) => width_spec(s.spaces@, s.show_display_separator),
            None => slot_w(),
        },
{
    match state {
        Some(s) => s.content_width(),
        None => (BUTTON_W + BUTTON_PADDING) as u128,
    }
}

/// What a menu item does.
#[derive(Clone, Copy, Debug, PartialEq, Eq, Structural)]
pub enum MenuAction {
    ToggleSeparator,
    Divider,
    Refresh,
    Quit,
}

/// One item of the status item's menu: its action, title and key equivalent.
#[derive(Clone, Debug)]
pub struct MenuItem {
    pub action: MenuAction,
    pub title: String,
    pub key_equivalent: String,
}

/// A menu item by its action, title and key equivalent.
pub open spec fn menu_item_view(m: MenuItem) -> (MenuAction, Seq<char>, Seq<char>) {
    (m.action, m.title@, m.key_equivalent@)
}

/// The menu: the divider toggle (titled by what it will do), a divider, refresh
/// on `r`, and quit on `q`.
pub open spec fn menu_spec(show_separator: bool) -> Seq<(MenuAction, Seq<char>, Seq<char>)> {
    seq![
        (
            MenuAction::ToggleSeparator,
            if show_separator {
                "Hide Display Separators"@
            } else {
                "Show Display Separators"@
            },
            ""@,
        ),
        (MenuAction::Divider, ""@, ""@),
        (MenuAction::Refresh, "Refresh"@, "r"@),
        (MenuAction::Quit, "Quit yabai-id"@, "q"@),
    ]
}

fn menu_item(action: MenuAction, title: &str, key: &str) -> (r: MenuItem)
    ensures
        menu_item_view(r) == (action, title@, key@),
{
    MenuItem { action: action, title: String::from_str(title), key_equivalent: String::from_str(key) }
}

/// What the status item is to show after a change: the width of its row and its
/// menu.
pub struct StatusUpdate {
    pub width: u128,
    pub menu: Vec<MenuItem>,
}

/// The delegate of the status item: it holds the state and decides what a
/// refresh, a toggle of the dividers or a click leads to.
pub struct AppDelegate {
    pub state: AppState,
}

impl AppDelegate {
    /// A delegate with no spaces yet and dividers shown.
    pub fn new() -> (r: AppDelegate)
        ensures
            r.state.spaces@.len() == 0,
            r.state.show_display_separator,
    {
        AppDelegate { state: AppState::new() }
    }

    /// The menu for the current state.
    pub fn rebuild_menu(&self) -> (r: Vec<MenuItem>)
        ensures
            r@.map_values(|m: MenuItem| menu_item_view(m)) == menu_spec(
                self.state.show_display_separator,
            ),
    {
        let title = if self.state.show_display_separator {
            "Hide Display Separators"
        } else {
            "Show Display Separators"
        };
        let mut menu: Vec<MenuItem> = Vec::new();
        menu.push(menu_item(MenuAction::ToggleSeparator, title, ""));
        menu.push(menu_item(MenuAction::Divider, "", ""));
        menu.push(menu_item(MenuAction::Refresh, "Refresh", "r"));
        menu.push(menu_item(MenuAction::Quit, "Quit yabai-id", "q"));
        assert(menu@.map_values(|m: MenuItem| menu_item_view(m)) =~= menu_spec(
            self.state.show_display_separator,
        ));
        menu
    }

    /// The width that the view and the status item take: that of the row of buttons.
    pub fn update_view_size(&self) -> (r: u128)
        ensures
            r == width_spec(self.state.spaces@, self.state.show_display_separator),
    {
        self.state.content_width()
    }

    fn status_update(&self) -> (r: StatusUpdate)
        ensures
            r.width == width_spec(self.state.spaces@, self.state.show_display_separator),
            r.menu@.map_values(|m: MenuItem| menu_item_view(m)) == menu_spec(
                self.state.show_display_separator,
            ),
    {
        StatusUpdate { width: self.update_view_size(), menu: self.rebuild_menu() }
    }

    /// Takes the spaces just read from the window server and says what to show:
    /// the new width and the menu. Whether dividers are shown does not change.
    pub fn do_refresh(&mut self, spaces: Vec<SLSpace>) -> (r: StatusUpdate)
        ensures
            final(self).state.spaces@ == spaces@,
            final(self).state.show_display_separator == old(self).state.show_display_separator,
            r.width == width_spec(spaces@, old(self).state.show_display_separator),
            r.menu@.map_values(|m: MenuItem| menu_item_view(m)) == menu_spec(
                old(self).state.show_display_separator,
            ),
    {
        self.state.spaces = spaces;
        self.status_update()
    }

    /// Shows or hides the dividers and says what to show then.
    pub fn toggle_separator(&mut self) -> (r: StatusUpdate)
        ensures
            final(self).state.spaces@ == old(self).state.spaces@,
            final(self).state.show_display_separator == !old(self).state.show_display_separator,
            r.width == width_spec(old(self).state.spaces@, !old(self).state.show_display_separator),
            r.menu@.map_values(|m: MenuItem| menu_item_view(m)) == menu_spec(
                !old(self).state.show_display_separator,
            ),
    {
        self.state.toggle_separator();
        self.status_update()
    }
}

/// The number of dividers among the first `n` buttons.
pub open spec fn separator_count(spaces: Seq<SLSpace>, show: bool, n: nat) -> nat
    decreases n,
{
    if n == 0 {
        0
    } else {
        separator_count(spaces, show, (n - 1) as nat) + if separator_before(spaces, show, n - 1) {
            1nat
        } else {
            0nat
        }
    }
}

proof fn lemma_offset_is_sum(spaces: Seq<SLSpace>, show: bool, n: nat)
    ensures
        offset_after(spaces, show, n) == slot_w() * n + (SEPARATOR_W as nat) * separator_count(
            spaces,
            show,
            n,
        ),
    decreases n,
{
    if n > 0 {
        lemma_offset_is_sum(spaces, show, (n - 1) as nat);
        let w = slot_w();
        let m = (n - 1) as nat;
        assert(w * n == w * m + w) by (nonlinear_arith)
            requires
                m + 1 == n,
        ;
        let c = separator_count(spaces, show, m);
        let sw = SEPARATOR_W as nat;
        if separator_before(spaces, show, m as int) {
            assert(separator_count(spaces, show, n) == c + 1);
            assert(sw * (c + 1) == sw * c + sw) by (nonlinear_arith);
        } else {
            assert(separator_count(spaces, show, n) == c);
        }
    } else {
        assert(slot_w() * 0 == 0);
        assert((SEPARATOR_W as nat) * 0 == 0);
    }
}

/// The row is as wide as its buttons and its dividers together: each button
/// takes its width and padding, each divider its own width.
pub proof fn lemma_width_is_sum(spaces: Seq<SLSpace>, show: bool)
    requires
        spaces.len() > 0,
    ensures
        width_spec(spaces, show) == slot_w() * spaces.len() + (SEPARATOR_W as nat)
            * separator_count(spaces, show, spaces.len()),
{
    lemma_offset_is_sum(spaces, show, spaces.len());
}

proof fn lemma_no_separators_hidden(spaces: Seq<SLSpace>, n: nat)
    ensures
        separator_count(spaces, false, n) == 0,
    decreases n,
{
    if n > 0 {
        lemma_no_separators_hidden(spaces, (n - 1) as nat);
    }
}

/// With the dividers hidden, the row is one button's room per space (and one
/// button's room when there is no space).
pub proof fn lemma_width_without_separators(spaces: Seq<SLSpace>)
    ensures
        width_spec(spaces, false) == slot_w() * if spaces.len() == 0 {
            1
        } else {
            spaces.len()
        },
{
    if spaces.len() > 0 {
        lemma_offset_is_sum(spaces, false, spaces.len());
        lemma_no_separators_hidden(spaces, spaces.len());
    }
}

proof fn lemma_offset_one_display(spaces: Seq<SLSpace>, n: nat)
    requires
        n <= spaces.len(),
        forall|i: int| 0 <= i < spaces.len() ==> #[trigger] spaces[i].display_index
            == spaces[0].display_index,
    ensures
        offset_after(spaces, true, n) == offset_after(spaces, false, n),
    decreases n,
{
    if n > 0 {
        lemma_offset_one_display(spaces, (n - 1) as nat);
        if n - 1 > 0 {
            assert(spaces[n - 2].display_index == spaces[0].display_index);
            assert(spaces[n - 1].display_index == spaces[0].display_index);
        }
    }
}

/// When all spaces are on one display, showing or hiding the dividers does not
/// change the row.
pub proof fn lemma_one_display_width(spaces: Seq<SLSpace>)
    requires
        forall|i: int| 0 <= i < spaces.len() ==> #[trigger] spaces[i].display_index
            == spaces[0].display_index,
    ensures
        width_spec(spaces, true) == width_spec(spaces, false),
{
    lemma_offset_one_display(spaces, spaces.len());
}

proof fn lemma_offset_monotone(spaces: Seq<SLSpace>, show: bool, i: nat, j: nat)
    requires
        i <= j,
    ensures
        offset_after(spaces, show, i) + slot_w() * (j - i) <= offset_after(spaces, show, j),
    decreases j - i,
{
    if i < j {
        lemma_offset_monotone(spaces, show, i, (j - 1) as nat);
        let w = slot_w();
        let d = (j - i) as nat;
        let e = (j - 1 - i) as nat;
        assert(w * d == w * e + w) by (nonlinear_arith)
            requires
                e + 1 == d,
        ;
        assert(offset_after(spaces, show, j) >= offset_after(spaces, show, (j - 1) as nat) + w);
    } else {
        assert(slot_w() * 0 == 0);
    }
}

/// The buttons do not overlap and all lie within the row: each button's room
/// ends at or before the next one starts, and the last one ends where the row
/// ends. A click lands on one button at most.
pub proof fn lemma_buttons_disjoint(spaces: Seq<SLSpace>, show: bool, i: nat, j: nat)
    requires
        spaces.len() > 0,
    ensures
        i < j < spaces.len() ==> slot_x(spaces, show, i) + slot_w() <= slot_x(spaces, show, j),
        slot_x(spaces, show, (spaces.len() - 1) as nat) + slot_w() == width_spec(spaces, show),
{
    if i < j {
        lemma_offset_monotone(spaces, show, i + 1, j);
    }
}

/// A click on a button asks yabai to focus the space whose number the button
/// shows.
pub proof fn lemma_click_focuses_label(spaces: Seq<SLSpace>, show: bool, i: nat)
    requires
        i < spaces.len() <= isize::MAX,
    ensures
        slot_spec(spaces, show, i as int).label == i + 1,
        focus_target_spec(spaces, i as int) == Some(slot_spec(spaces, show, i as int).label as i64),
{
}

/// A button is filled exactly when its space is the active one, whatever the
/// space's other flags; its number is its 1-based position; a divider stands
/// before it exactly when dividers are shown and the previous button's space is
/// on another display.
pub proof fn lemma_slot_fields(spaces: Seq<SLSpace>, show: bool, i: int)
    requires
        0 <= i < spaces.len() <= usize::MAX,
    ensures
        slot_spec(spaces, show, i).is_active == spaces[i].is_active,
        slot_spec(spaces, show, i).label == i + 1,
        slot_spec(spaces, show, i).separator_x is Some <==> (show && i > 0
            && spaces[i - 1].display_index != spaces[i].display_index),
{
}

/// The width of a row with one more button: one more button's room, plus a
/// divider's when dividers are shown and the new button's space is on another
/// display than the last button's. A single button takes one button's room.
pub proof fn lemma_width_append(spaces: Seq<SLSpace>, x: SLSpace, show: bool)
    ensures
        width_spec(seq![x], show) == 29,
        spaces.len() > 0 ==> width_spec(spaces.push(x), show) == width_spec(spaces, show) + 29 + if show
            && spaces.last().display_index != x.display_index {
            8int
        } else {
            0int
        },
{
    let one = seq![x];
    assert(offset_after(one, show, 1) == offset_after(one, show, 0) + separator_room(one, show, 0)
        + slot_w());
    if spaces.len() > 0 {
        let longer = spaces.push(x);
        let n = spaces.len();
        lemma_offset_prefix(spaces, longer, show, n);
        assert(longer[n - 1] == spaces.last());
        assert(longer[n as int] == x);
    }
}

proof fn lemma_offset_prefix(a: Seq<SLSpace>, b: Seq<SLSpace>, show: bool, n: nat)
    requires
        n <= a.len(),
        n <= b.len(),
        forall|i: int| 0 <= i < n ==> a[i] == b[i],
    ensures
        offset_after(a, show, n) == offset_after(b, show, n),
    decreases n,
{
    if n > 0 {
        lemma_offset_prefix(a, b, show, (n - 1) as nat);
        if n >= 2 {
            assert(a[n - 2] == b[n - 2]);
        }
        assert(a[n - 1] == b[n - 1]);
    }
}

/// The menu always has its four items in the same order; only the divider
/// toggle's title depends on whether dividers are shown, and it names what the
/// toggle will do.
pub proof fn lemma_menu_items(show: bool)
    ensures
        menu_spec(show).len() == 4,
        menu_spec(true).subrange(1, 4) == menu_spec(false).subrange(1, 4),
        menu_spec(show)[0] == (
            MenuAction::ToggleSeparator,
            if show {
                "Hide Display Separators"@
            } else {
                "Show Display Separators"@
            },
            ""@,
        ),
        menu_spec(show)[1] == (MenuAction::Divider, ""@, ""@),
        menu_spec(show)[2] == (MenuAction::Refresh, "Refresh"@, "r"@),
        menu_spec(show)[3] == (MenuAction::Quit, "Quit yabai-id"@, "q"@),
{
    assert(menu_spec(true).subrange(1, 4) =~= menu_spec(false).subrange(1, 4));
}

} // verus!
