//! Menu bar definitions: items, keyboard shortcuts, discovery and lookup.
use vstd::prelude::*;

use crate::text::{
    ascii_upper_char, join, chars_of, char_lower, char_to_lowercase, char_to_uppercase, char_upper,
    eq_chars, str_lower, string_of, to_lowercase,
};

verus! {

/// External command that can be sent to the menu bar via AMP.
#[derive(Clone, Debug, PartialEq)]
pub enum MenuCommand {
    /// Open the parent menu and pulse-highlight an item (visual only).
    Highlight { id: String, duration_ms: u32 },
    /// Highlight briefly, then fire the action (simulates a click).
    Invoke { id: String },
    /// Close any open dropdown.
    Close,
}

/// Discoverable menu item info returned by `menu.list`.
#[derive(Clone, Debug)]
pub struct MenuItemInfo {
    pub id: String,
    pub label: String,
    pub shortcut: Option<String>,
    pub enabled: bool,
    pub menu: String,
}

/// A keyboard shortcut modifier + key combination.
#[derive(Clone, Copy, Debug, PartialEq, Eq, Structural)]
pub struct Shortcut {
    pub ctrl: bool,
    pub shift: bool,
    pub alt: bool,
    pub key: char,
}

/// A key press: its modifiers and, for a character key, the character(s).
#[derive(Clone, Debug)]
pub struct KeyPress {
    pub ctrl: bool,
    pub shift: bool,
    pub alt: bool,
    pub character: Option<String>,
}

/// The parts of a label: the modifier names in order, then `key`.
pub open spec fn label_parts(s: Shortcut, key: Seq<char>) -> Seq<Seq<char>> {
    (if s.ctrl { seq!["Ctrl"@] } else { Seq::empty() }) + (if s.shift {
        seq!["Shift"@]
    } else {
        Seq::empty()
    }) + (if s.alt { seq!["Alt"@] } else { Seq::empty() }) + seq![key]
}

/// Modifier names and the upper-cased key, joined with `+`.
pub open spec fn spec_label(s: Shortcut) -> Seq<char> {
    join(label_parts(s, char_upper(s.key)), "+"@)
}

/// The label of a shortcut whose key is ASCII: its upper-case form is the
/// ASCII one.
pub open spec fn ascii_label(s: Shortcut) -> Seq<char> {
    join(label_parts(s, seq![ascii_upper_char(s.key)]), "+"@)
}

/// The shortcut matches a key press: same modifiers, and the pressed
/// character lower-cases to the key lower-cased.
pub open spec fn spec_matches(s: Shortcut, e: KeyPress) -> bool {
    &&& e.ctrl == s.ctrl
    &&& e.shift == s.shift
    &&& e.alt == s.alt
    &&& match e.character {
        Some(c) => str_lower(c@) == char_lower(s.key),
        None => false,
    }
}

impl Shortcut {
    pub fn ctrl(key: char) -> (s: Self)
        ensures
            s == (Shortcut { ctrl: true, shift: false, alt: false, key }),
    {
        Shortcut { ctrl: true, shift: false, alt: false, key }
    }

    pub fn ctrl_shift(key: char) -> (s: Self)
        ensures
            s == (Shortcut { ctrl: true, shift: true, alt: false, key }),
    {
        Shortcut { ctrl: true, shift: true, alt: false, key }
    }

    /// Human-readable label e.g. "Ctrl+S" or "Ctrl+Shift+S".
    pub fn label(&self) -> (l: String)
        ensures
            l@ == spec_label(*self),
            (self.key as u32) < 0x80 ==> l@ == ascii_label(*self),
    {
        let mut parts: Vec<String> = Vec::new();
        if self.ctrl {
            parts.push("Ctrl".to_owned());
        }
        let ghost a = parts.deep_view();
        if self.shift {
            parts.push("Shift".to_owned());
        }
        let ghost b = parts.deep_view();
        if self.alt {
            parts.push("Alt".to_owned());
        }
        let ghost c = parts.deep_view();
        parts.push(char_to_uppercase(self.key));
        proof {
            assert(a =~= (if self.ctrl { seq!["Ctrl"@] } else { Seq::empty() }));
            assert(b =~= a + (if self.shift { seq!["Shift"@] } else { Seq::empty() }));
            assert(c =~= b + (if self.alt { seq!["Alt"@] } else { Seq::empty() }));
            assert(parts.deep_view() =~= c + seq![char_upper(self.key)]);
        }
        let j = crate::text::join_strings(&parts, "+");
        string_of(&j)
    }

    /// Returns true if this shortcut matches the given key press.
    pub fn matches(&self, e: &KeyPress) -> (b: bool)
        ensures
            b == spec_matches(*self, *e),
    {
        if e.ctrl != self.ctrl {
            return false;
        }
        if e.shift != self.shift {
            return false;
        }
        if e.alt != self.alt {
            return false;
        }
        match &e.character {
            Some(c) => {
                let a = to_lowercase(c.as_str());
                let k = char_to_lowercase(self.key);
                let av = chars_of(a.as_str());
                let kv = chars_of(k.as_str());
                eq_chars(&av, &kv)
            },
            None => false,
        }
    }
}

/// What happens when a menu item is activated.
#[derive(Clone, Debug, PartialEq)]
pub enum MenuAction {
    /// Emit an action ID for the app to handle via `on_action` callback.
    Local(String),
    /// No-op (placeholder or disabled item).
    Noop,
}

/// A single item in a menu.
#[derive(Debug, PartialEq)]
pub enum MenuItem {
    Action {
        id: String,
        label: String,
        shortcut: Option<Shortcut>,
        action: MenuAction,
        enabled: bool,
    },
    Separator,
    Submenu { label: String, items: Vec<MenuItem> },
}

/// A complete menu bar definition — top-level items must be `Submenu` variants.
#[derive(Debug, PartialEq)]
pub struct MenuBarDef {
    pub menus: Vec<MenuItem>,
}

/// Abstract form of a [`MenuItemInfo`].
pub struct InfoView {
    pub id: Seq<char>,
    pub label: Seq<char>,
    pub shortcut: Option<Seq<char>>,
    pub enabled: bool,
    pub menu: Seq<char>,
}

impl View for MenuItemInfo {
    type V = InfoView;

    open spec fn view(&self) -> InfoView {
        InfoView {
            id: self.id@,
            label: self.label@,
            shortcut: match self.shortcut {
                Some(s) => Some(s@),
                None => None,
            },
            enabled: self.enabled,
            menu: self.menu@,
        }
    }
}

/// Discovery entries of a list of items under the menu labelled `menu`:
/// actions in order, submenus listed under their own label.
pub open spec fn item_infos(items: Seq<MenuItem>, menu: Seq<char>) -> Seq<InfoView>
    decreases items,
{
    if items.len() == 0 {
        Seq::empty()
    } else {
        let prev = item_infos(items.drop_last(), menu);
        match items.last() {
            MenuItem::Action { id, label, shortcut, enabled, .. } => prev.push(
                InfoView {
                    id: id@,
                    label: label@,
                    shortcut: match shortcut {
                        Some(s) => Some(spec_label(s)),
                        None => None,
                    },
                    enabled,
                    menu,
                },
            ),
            MenuItem::Separator => prev,
            MenuItem::Submenu { label, items: sub } => {
                proof {
                    assert(decreases_to!(items => items.last()));
                }
                prev + item_infos(sub@, label@)
            },
        }
    }
}

/// Discovery entries of a whole menu bar: the items of each top-level submenu.
pub open spec fn bar_infos(menus: Seq<MenuItem>) -> Seq<InfoView>
    decreases menus.len(),
{
    if menus.len() == 0 {
        Seq::empty()
    } else {
        bar_infos(menus.drop_last()) + match menus.last() {
            MenuItem::Submenu { label, items } => item_infos(items@, label@),
            _ => Seq::empty(),
        }
    }
}

/// The first action with `id`, searching items in order and submenus depth first.
pub open spec fn find_in(items: Seq<MenuItem>, id: Seq<char>) -> Option<MenuItem>
    decreases items,
{
    if items.len() == 0 {
        None
    } else {
        match items[0] {
            MenuItem::Action { id: item_id, .. } => if item_id@ == id {
                Some(items[0])
            } else {
                find_in(items.drop_first(), id)
            },
            MenuItem::Submenu { items: sub, .. } => {
                proof {
                    assert(decreases_to!(items => items[0]));
                }
                match find_in(sub@, id) {
                    Some(x) => Some(x),
                    None => find_in(items.drop_first(), id),
                }
            },
            MenuItem::Separator => find_in(items.drop_first(), id),
        }
    }
}

/// The top-level menu holding the first action with `id`, and that action.
pub open spec fn bar_find(menus: Seq<MenuItem>, id: Seq<char>, from: int) -> Option<(int, MenuItem)>
    decreases menus.len() - from,
{
    if from < 0 || from >= menus.len() {
        None
    } else {
        match menus[from] {
            MenuItem::Submenu { items, .. } => match find_in(items@, id) {
                Some(x) => Some((from, x)),
                None => bar_find(menus, id, from + 1),
            },
            _ => bar_find(menus, id, from + 1),
        }
    }
}

/// Append the discovery entries of `items` under `menu_label`.
fn collect_items_recursive(items: &Vec<MenuItem>, menu_label: &String, out: &mut Vec<MenuItemInfo>)
    ensures
        final(out)@.len() >= old(out)@.len(),
        Seq::new(final(out)@.len(), |i: int| final(out)@[i]@) == Seq::new(
            old(out)@.len(),
            |i: int| old(out)@[i]@,
        ) + item_infos(items@, menu_label@),
    decreases items@,
{
    let ghost start = Seq::new(out@.len(), |i: int| out@[i]@);
    let mut i: usize = 0;
    while i < items.len()
        invariant
            i <= items@.len(),
            Seq::new(out@.len(), |k: int| out@[k]@) == start + item_infos(
                items@.take(i as int),
                menu_label@,
            ),
        decreases items@.len() - i,
    {
        let ghost before = Seq::new(out@.len(), |k: int| out@[k]@);
        assert(items@.take(i + 1).drop_last() =~= items@.take(i as int));
        assert(items@.take(i + 1).last() == items@[i as int]);
        match &items[i] {
            MenuItem::Action { id, label, shortcut, enabled, .. } => {
                let sc = match shortcut {
                    Some(s) => Some(s.label()),
                    None => None,
                };
                out.push(
                    MenuItemInfo {
                        id: id.clone(),
                        label: label.clone(),
                        shortcut: sc,
                        enabled: *enabled,
                        menu: menu_label.clone(),
                    },
                );
                assert(Seq::new(out@.len(), |k: int| out@[k]@) =~= before.push(out@[out@.len() - 1]@));
            },
            MenuItem::Submenu { label, items: sub } => {
                assert(decreases_to!(items@ => items@[i as int]));
                collect_items_recursive(sub, label, out);
            },
            MenuItem::Separator => {},
        }
        i = i + 1;
    }
    assert(items@.take(items@.len() as int) =~= items@);
}

/// The first action with `id` in `items`, searching submenus depth first.
fn find_in_items<'a>(items: &'a Vec<MenuItem>, id: &str) -> (r: Option<&'a MenuItem>)
    ensures
        match r {
            Some(x) => find_in(items@, id@) == Some(*x),
            None => find_in(items@, id@) is None,
        },
    decreases items@,
{
    let idv = chars_of(id);
    let mut i: usize = 0;
    assert(items@.skip(0) =~= items@);
    while i < items.len()
        invariant
            i <= items@.len(),
            idv@ == id@,
            find_in(items@, id@) == find_in(items@.skip(i as int), id@),
        decreases items@.len() - i,
    {
        let ghost rest = items@.skip(i as int);
        assert(rest[0] == items@[i as int]);
        assert(rest.drop_first() =~= items@.skip(i + 1));
        match &items[i] {
            MenuItem::Action { id: item_id, .. } => {
                let iv = chars_of(item_id.as_str());
                if eq_chars(&iv, &idv) {
                    return Some(&items[i]);
                }
            },
            MenuItem::Submenu { items: sub, .. } => {
                assert(decreases_to!(items@ => items@[i as int]));
                match find_in_items(sub, id) {
                    Some(found) => {
                        return Some(found);
                    },
                    None => {},
                }
            },
            MenuItem::Separator => {},
        }
        i = i + 1;
    }
    assert(items@.skip(items@.len() as int) =~= Seq::<MenuItem>::empty());
    None
}

impl MenuBarDef {
    pub fn new() -> (d: Self)
        ensures
            d.menus@ == Seq::<MenuItem>::empty(),
    {
        MenuBarDef { menus: Vec::new() }
    }

    /// The definition with one more top-level menu.
    pub fn with(self, menu: MenuItem) -> (d: Self)
        ensures
            d.menus@ == self.menus@.push(menu),
    {
        let mut s = self;
        s.menus.push(menu);
        s
    }

    /// Collect all actionable menu items for `menu.list` discovery.
    pub fn collect_items(&self) -> (out: Vec<MenuItemInfo>)
        ensures
            Seq::new(out@.len(), |i: int| out@[i]@) == bar_infos(self.menus@),
    {
        let mut out: Vec<MenuItemInfo> = Vec::new();
        let mut i: usize = 0;
        assert(Seq::new(out@.len(), |k: int| out@[k]@) =~= Seq::<InfoView>::empty());
        while i < self.menus.len()
            invariant
                i <= self.menus@.len(),
                Seq::new(out@.len(), |k: int| out@[k]@) == bar_infos(self.menus@.take(i as int)),
            decreases self.menus@.len() - i,
        {
            assert(self.menus@.take(i + 1).drop_last() =~= self.menus@.take(i as int));
            assert(self.menus@.take(i + 1).last() == self.menus@[i as int]);
            match &self.menus[i] {
                MenuItem::Submenu { label, items } => {
                    collect_items_recursive(items, label, &mut out);
                },
                _ => {
                    assert(bar_infos(self.menus@.take(i + 1)) =~= bar_infos(self.menus@.take(i as int)));
                },
            }
            i = i + 1;
        }
        assert(self.menus@.take(self.menus@.len() as int) =~= self.menus@);
        out
    }

    /// Find which top-level menu index contains an item with the given ID.
    /// Returns (menu_index, reference to the MenuItem).
    pub fn find_item(&self, id: &str) -> (r: Option<(usize, &MenuItem)>)
        ensures
            match r {
                Some((idx, x)) => bar_find(self.menus@, id@, 0) == Some((idx as int, *x)),
                None => bar_find(self.menus@, id@, 0) is None,
            },
    {
        let mut i: usize = 0;
        while i < self.menus.len()
            invariant
                i <= self.menus@.len(),
                bar_find(self.menus@, id@, 0) == bar_find(self.menus@, id@, i as int),
            decreases self.menus@.len() - i,
        {
            match &self.menus[i] {
                MenuItem::Submenu { items, .. } => {
                    match find_in_items(items, id) {
                        Some(item) => {
                            return Some((i, item));
                        },
                        None => {},
                    }
                },
                _ => {},
            }
            i = i + 1;
        }
        None
    }
}

impl Default for MenuBarDef {
    fn default() -> (d: Self)
        ensures
            d.menus@ == Seq::<MenuItem>::empty(),
    {
        MenuBarDef { menus: Vec::new() }
    }
}

/// The item is, or holds, an action with `id`.
pub open spec fn item_has(item: MenuItem, id: Seq<char>) -> bool
    decreases item,
{
    match item {
        MenuItem::Action { id: item_id, .. } => item_id@ == id,
        MenuItem::Submenu { items, .. } => has_action(items@, id),
        MenuItem::Separator => false,
    }
}

/// Some item of `items` is, or holds, an action with `id`.
pub open spec fn has_action(items: Seq<MenuItem>, id: Seq<char>) -> bool
    decreases items,
{
    if items.len() == 0 {
        false
    } else {
        proof {
            assert(decreases_to!(items => items[0]));
        }
        item_has(items[0], id) || has_action(items.drop_first(), id)
    }
}

/// Some entry of `infos` has `id`.
pub open spec fn lists_id(infos: Seq<InfoView>, id: Seq<char>) -> bool {
    exists|i: int| 0 <= i < infos.len() && #[trigger] infos[i].id == id
}

proof fn lemma_find_has(items: Seq<MenuItem>, id: Seq<char>)
    ensures
        (find_in(items, id) is Some) == has_action(items, id),
    decreases items,
{
    if items.len() > 0 {
        assert(decreases_to!(items => items[0]));
        lemma_find_has(items.drop_first(), id);
        assert(has_action(items, id) == (item_has(items[0], id) || has_action(items.drop_first(), id)));
        match items[0] {
            MenuItem::Submenu { items: sub, .. } => {
                lemma_find_has(sub@, id);
                assert(item_has(items[0], id) == has_action(sub@, id));
            },
            MenuItem::Action { id: item_id, .. } => {
                assert(item_has(items[0], id) == (item_id@ == id));
            },
            MenuItem::Separator => {
                assert(!item_has(items[0], id));
            },
        }
    }
}

proof fn lemma_has_last(items: Seq<MenuItem>, id: Seq<char>)
    requires
        items.len() > 0,
    ensures
        has_action(items, id) == (has_action(items.drop_last(), id) || item_has(items.last(), id)),
    decreases items.len(),
{
    assert(has_action(items, id) == (item_has(items[0], id) || has_action(items.drop_first(), id)));
    if items.len() > 1 {
        lemma_has_last(items.drop_first(), id);
        assert(items.drop_first().drop_last() =~= items.drop_last().drop_first());
        assert(items.drop_last()[0] == items[0]);
        assert(items.drop_first().last() == items.last());
        assert(has_action(items.drop_last(), id) == (item_has(items.drop_last()[0], id) || has_action(items.drop_last().drop_first(), id)));
    } else {
        assert(items.drop_first().len() == 0);
        assert(!has_action(items.drop_first(), id));
        assert(items.drop_last().len() == 0);
        assert(!has_action(items.drop_last(), id));
        assert(items.last() == items[0]);
    }
}

proof fn lemma_lists_concat(a: Seq<InfoView>, b: Seq<InfoView>, id: Seq<char>)
    ensures
        lists_id(a + b, id) == (lists_id(a, id) || lists_id(b, id)),
{
    if lists_id(a + b, id) {
        let i = choose|i: int| 0 <= i < (a + b).len() && #[trigger] (a + b)[i].id == id;
        if i < a.len() {
            assert(a[i].id == id);
        } else {
            assert(b[i - a.len()].id == id);
        }
    }
    if lists_id(a, id) {
        let i = choose|i: int| 0 <= i < a.len() && #[trigger] a[i].id == id;
        assert((a + b)[i].id == id);
    }
    if lists_id(b, id) {
        let i = choose|i: int| 0 <= i < b.len() && #[trigger] b[i].id == id;
        assert((a + b)[a.len() + i].id == id);
    }
}

proof fn lemma_infos_has(items: Seq<MenuItem>, menu: Seq<char>, id: Seq<char>)
    ensures
        lists_id(item_infos(items, menu), id) == has_action(items, id),
    decreases items,
{
    if items.len() > 0 {
        lemma_infos_has(items.drop_last(), menu, id);
        lemma_has_last(items, id);
        let prev = item_infos(items.drop_last(), menu);
        match items.last() {
            MenuItem::Action { id: item_id, label, shortcut, enabled, .. } => {
                let e = InfoView {
                    id: item_id@,
                    label: label@,
                    shortcut: match shortcut {
                        Some(s) => Some(spec_label(s)),
                        None => None,
                    },
                    enabled,
                    menu,
                };
                lemma_lists_concat(prev, seq![e], id);
                assert(prev.push(e) =~= prev + seq![e]);
                if e.id == id {
                    assert(seq![e][0].id == id);
                }
            },
            MenuItem::Separator => {},
            MenuItem::Submenu { label, items: sub } => {
                assert(decreases_to!(items => items.last()));
                lemma_infos_has(sub@, label@, id);
                lemma_lists_concat(prev, item_infos(sub@, label@), id);
            },
        }
    } else {
        assert(item_infos(items, menu).len() == 0);
    }
}

/// A top-level submenu at or after `from` holds an action with `id`.
pub open spec fn bar_has(menus: Seq<MenuItem>, id: Seq<char>, from: int) -> bool {
    exists|j: int| from <= j < menus.len() && 0 <= j && match #[trigger] menus[j] {
        MenuItem::Submenu { items, .. } => has_action(items@, id),
        _ => false,
    }
}

proof fn lemma_bar_find_has(menus: Seq<MenuItem>, id: Seq<char>, from: int)
    requires
        0 <= from <= menus.len(),
    ensures
        (bar_find(menus, id, from) is Some) == bar_has(menus, id, from),
    decreases menus.len() - from,
{
    if from < menus.len() {
        lemma_bar_find_has(menus, id, from + 1);
        match menus[from] {
            MenuItem::Submenu { items, .. } => {
                lemma_find_has(items@, id);
            },
            _ => {},
        }
        if bar_has(menus, id, from) {
            let j = choose|j: int| from <= j < menus.len() && 0 <= j && match #[trigger] menus[j] {
                MenuItem::Submenu { items, .. } => has_action(items@, id),
                _ => false,
            };
            if j > from {
                assert(bar_has(menus, id, from + 1));
            }
        }
        if bar_has(menus, id, from + 1) {
            let j = choose|j: int| from + 1 <= j < menus.len() && 0 <= j && match #[trigger] menus[j] {
                MenuItem::Submenu { items, .. } => has_action(items@, id),
                _ => false,
            };
            assert(bar_has(menus, id, from));
        }
    }
}

proof fn lemma_bar_infos_has(menus: Seq<MenuItem>, id: Seq<char>)
    ensures
        lists_id(bar_infos(menus), id) == bar_has(menus, id, 0),
    decreases menus.len(),
{
    if menus.len() > 0 {
        let t = menus.drop_last();
        lemma_bar_infos_has(t, id);
        let tail = match menus.last() {
            MenuItem::Submenu { label, items } => item_infos(items@, label@),
            _ => Seq::empty(),
        };
        lemma_lists_concat(bar_infos(t), tail, id);
        match menus.last() {
            MenuItem::Submenu { label, items } => {
                lemma_infos_has(items@, label@, id);
            },
            _ => {},
        }
        if bar_has(menus, id, 0) {
            let j = choose|j: int| 0 <= j < menus.len() && 0 <= j && match #[trigger] menus[j] {
                MenuItem::Submenu { items, .. } => has_action(items@, id),
                _ => false,
            };
            if j < menus.len() - 1 {
                assert(t[j] == menus[j]);
                assert(bar_has(t, id, 0));
            }
        }
        if bar_has(t, id, 0) {
            let j = choose|j: int| 0 <= j < t.len() && 0 <= j && match #[trigger] t[j] {
                MenuItem::Submenu { items, .. } => has_action(items@, id),
                _ => false,
            };
            assert(menus[j] == t[j]);
            assert(bar_has(menus, id, 0));
        }
        if lists_id(tail, id) {
            assert(menus[menus.len() - 1] == menus.last());
            assert(bar_has(menus, id, 0));
        }
    } else {
        assert(bar_infos(menus).len() == 0);
    }
}

/// Discovery and lookup agree: `find_item(id)` finds an item exactly when
/// `collect_items()` lists an item with that id.
pub proof fn law_find_iff_listed(def: MenuBarDef, id: Seq<char>)
    ensures
        (bar_find(def.menus@, id, 0) is Some) == lists_id(bar_infos(def.menus@), id),
{
    lemma_bar_find_has(def.menus@, id, 0);
    lemma_bar_infos_has(def.menus@, id);
}

// ---------------------------------------------------------------------------
// Menu bar state
// ---------------------------------------------------------------------------

/// What the menu bar shows: the open top-level menu and the item
/// highlighted by a remote command.
pub struct MenuState {
    pub open: Option<usize>,
    pub highlight: Option<String>,
}

/// Follow-up work after a menu command.
pub enum MenuEffect {
    /// Clear the highlight after this many milliseconds.
    ClearHighlightAfter(u32),
    /// Run this item action.
    Dispatch(MenuAction),
    /// Clear the highlight and close the menu after this many milliseconds.
    CloseAfter(u32),
}

/// The menu state and follow-up work after a remote menu command. An id
/// that no item has leaves everything as it was.
pub open spec fn spec_on_command(
    menus: Seq<MenuItem>,
    st: (Option<usize>, Option<Seq<char>>),
    cmd: MenuCommand,
) -> ((Option<usize>, Option<Seq<char>>), Seq<MenuEffect>) {
    match cmd {
        MenuCommand::Close => ((None, None), Seq::empty()),
        MenuCommand::Highlight { id, duration_ms } => match bar_find(menus, id@, 0) {
            Some((idx, _)) => ((Some(idx as usize), Some(id@)), seq![MenuEffect::ClearHighlightAfter(duration_ms)]),
            None => (st, Seq::empty()),
        },
        MenuCommand::Invoke { id } => match bar_find(menus, id@, 0) {
            Some((idx, item)) => (
                (Some(idx as usize), Some(id@)),
                match item {
                    MenuItem::Action { action, .. } => seq![MenuEffect::Dispatch(action), MenuEffect::CloseAfter(300)],
                    _ => seq![MenuEffect::CloseAfter(300)],
                },
            ),
            None => (st, Seq::empty()),
        },
    }
}

/// Abstract form of a menu state.
pub open spec fn state_view(st: MenuState) -> (Option<usize>, Option<Seq<char>>) {
    (
        st.open,
        match st.highlight {
            Some(h) => Some(h@),
            None => None,
        },
    )
}

impl MenuBarDef {
    /// Apply a remote menu command (`menu.highlight`, `menu.invoke`,
    /// `menu.close`).
    pub fn on_command(&self, st: &mut MenuState, cmd: MenuCommand) -> (effects: Vec<MenuEffect>)
        ensures
            (state_view(*final(st)), effects@) == spec_on_command(self.menus@, state_view(*old(st)), cmd),
    {
        match cmd {
            MenuCommand::Close => {
                st.open = None;
                st.highlight = None;
                let v: Vec<MenuEffect> = Vec::new();
                assert(v@ =~= Seq::<MenuEffect>::empty());
                v
            },
            MenuCommand::Highlight { id, duration_ms } => match self.find_item(id.as_str()) {
                Some((idx, _)) => {
                    st.open = Some(idx);
                    st.highlight = Some(id);
                    let mut v = Vec::new();
                    v.push(MenuEffect::ClearHighlightAfter(duration_ms));
                    v
                },
                None => {
                    let v: Vec<MenuEffect> = Vec::new();
                    assert(v@ =~= Seq::<MenuEffect>::empty());
                    v
                },
            },
            MenuCommand::Invoke { id } => match self.find_item(id.as_str()) {
                Some((idx, item)) => {
                    let mut v = Vec::new();
                    match item {
                        MenuItem::Action { action, .. } => {
                            v.push(MenuEffect::Dispatch(copy_action(action)));
                        },
                        _ => {},
                    }
                    v.push(MenuEffect::CloseAfter(300));
                    st.open = Some(idx);
                    st.highlight = Some(id);
                    v
                },
                None => {
                    let v: Vec<MenuEffect> = Vec::new();
                    assert(v@ =~= Seq::<MenuEffect>::empty());
                    v
                },
            },
        }
    }
}

/// A copy of an item action.
fn copy_action(a: &MenuAction) -> (r: MenuAction)
    ensures
        r == *a,
{
    match a {
        MenuAction::Local(id) => MenuAction::Local(id.clone()),
        MenuAction::Noop => MenuAction::Noop,
    }
}

/// A click on the trigger of top-level menu `idx`: it closes when it was
/// open, else it opens.
pub fn on_trigger_click(st: &mut MenuState, idx: usize)
    ensures
        final(st).open == if old(st).open == Some(idx) { None } else { Some(idx) },
        final(st).highlight == old(st).highlight,
{
    st.open = match st.open {
        Some(i) => if i == idx { None } else { Some(idx) },
        None => Some(idx),
    };
}

/// Style class of a menu item: disabled, highlighted, or plain.
pub fn item_class(enabled: bool, highlighted: bool) -> (c: &'static str)
    ensures
        c@ == if !enabled {
            "cmx-menu-item cmx-disabled"@
        } else if highlighted {
            "cmx-menu-item cmx-amp-highlight"@
        } else {
            "cmx-menu-item"@
        },
{
    if !enabled {
        "cmx-menu-item cmx-disabled"
    } else if highlighted {
        "cmx-menu-item cmx-amp-highlight"
    } else {
        "cmx-menu-item"
    }
}

/// The action id an item action hands to the app, if any.
pub fn local_action_id(action: &MenuAction) -> (r: Option<String>)
    ensures
        r == match *action {
            MenuAction::Local(id) => Some(id),
            MenuAction::Noop => None,
        },
{
    match action {
        MenuAction::Local(id) => Some(id.clone()),
        MenuAction::Noop => None,
    }
}

} // verus!
