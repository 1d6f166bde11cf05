//! Menu trees: the shape a tray publishes, and the shape a bar consumes.

use vstd::prelude::*;

verus! {

/// What an entry of a menu is.
#[derive(Debug, Clone, Copy, PartialEq, Eq, Structural)]
pub enum MenuType {
    Separator,
    Standard,
}

/// How an entry can be toggled.
#[derive(Debug, Clone, Copy, PartialEq, Eq, Structural)]
pub enum ToggleType {
    Checkmark,
    Radio,
    CannotBeToggled,
}

/// Whether a togglable entry is on.
#[derive(Debug, Clone, Copy, PartialEq, Eq, Structural)]
pub enum ToggleState {
    On,
    Off,
    Indeterminate,
}

/// One entry of a tray's menu, with the entries below it.
#[derive(Debug)]
pub struct MenuItem {
    pub id: i32,
    pub menu_type: MenuType,
    pub label: Option<String>,
    pub enabled: bool,
    pub visible: bool,
    pub toggle_type: ToggleType,
    pub toggle_state: ToggleState,
    pub submenu: Vec<MenuItem>,
}

/// A tray's whole menu.
#[derive(Debug)]
pub struct TrayMenu {
    pub id: u32,
    pub submenus: Vec<MenuItem>,
}

/// One entry of a menu as the bar reads it.
#[derive(Debug)]
pub struct MenuItemJson {
    pub id: i32,
    pub label: String,
    pub enabled: bool,
    pub visible: bool,
    pub separator: bool,
    /// 0: cannot be toggled; 1: off; 2: on.
    pub toggle: i32,
    pub children: Vec<MenuItemJson>,
}

/// The text of an optional string, empty where there is none.
pub open spec fn text_or_empty(s: Option<String>) -> Seq<char> {
    match s {
        Some(t) => t@,
        None => Seq::empty(),
    }
}

/// A copy of an optional string, empty where there is none.
pub fn string_or_empty(s: &Option<String>) -> (r: String)
    ensures
        r@ == text_or_empty(*s),
{
    match s {
        Some(t) => t.clone(),
        None => String::new(),
    }
}

impl MenuItem {
    pub open spec fn is_separator(self) -> bool {
        self.menu_type == MenuType::Separator
    }

    /// 0 for an entry that cannot be toggled or is in neither state, 1 for one that is off,
    /// 2 for one that is on.
    pub open spec fn toggle(self) -> int {
        if self.toggle_type == ToggleType::CannotBeToggled {
            0
        } else if self.toggle_state == ToggleState::Off {
            1
        } else if self.toggle_state == ToggleState::On {
            2
        } else {
            0
        }
    }
}

/// Whether `json` shows the entry `item`, and its children the entries below it, one for
/// one and in order.
pub open spec fn shows(json: MenuItemJson, item: MenuItem) -> bool
    decreases item,
{
    &&& json.id == item.id
    &&& json.label@ == text_or_empty(item.label)
    &&& json.enabled == item.enabled
    &&& json.visible == item.visible
    &&& json.separator == item.is_separator()
    &&& json.toggle == item.toggle()
    &&& json.children@.len() == item.submenu@.len()
    &&& forall|i: int|
        0 <= i < item.submenu@.len() ==> shows(#[trigger] json.children@[i], item.submenu@[i])
}

/// Whether a list of shown entries shows a list of entries, one for one and in order.
pub open spec fn shows_all(json: Seq<MenuItemJson>, items: Seq<MenuItem>) -> bool {
    &&& json.len() == items.len()
    &&& forall|i: int| 0 <= i < items.len() ==> shows(#[trigger] json[i], items[i])
}

/// Whether two shown entries are the same, and those below them.
pub open spec fn same_shown(a: MenuItemJson, b: MenuItemJson) -> bool
    decreases a,
{
    &&& a.id == b.id
    &&& a.label@ == b.label@
    &&& a.enabled == b.enabled
    &&& a.visible == b.visible
    &&& a.separator == b.separator
    &&& a.toggle == b.toggle
    &&& a.children@.len() == b.children@.len()
    &&& forall|i: int|
        0 <= i < a.children@.len() ==> same_shown(#[trigger] a.children@[i], b.children@[i])
}

/// Whether two lists of shown entries are the same.
pub open spec fn all_same_shown(a: Seq<MenuItemJson>, b: Seq<MenuItemJson>) -> bool {
    &&& a.len() == b.len()
    &&& forall|i: int| 0 <= i < a.len() ==> same_shown(#[trigger] a[i], b[i])
}

/// There is one way only to show an entry.
pub proof fn lemma_shown_one_way(a: MenuItemJson, b: MenuItemJson, item: MenuItem)
    requires
        shows(a, item),
        shows(b, item),
    ensures
        same_shown(a, b),
    decreases item,
{
    assert forall|i: int| 0 <= i < a.children@.len() implies same_shown(
        #[trigger] a.children@[i],
        b.children@[i],
    ) by {
        lemma_shown_one_way(a.children@[i], b.children@[i], item.submenu@[i]);
    }
}

/// Shows one entry and all that is below it.
pub fn menu_item_to_json(m: &MenuItem) -> (r: MenuItemJson)
    ensures
        shows(r, *m),
    decreases m,
{
    let separator = m.menu_type == MenuType::Separator;
    let toggle: i32 = match m.toggle_state {
        ToggleState::Off => 1,
        ToggleState::On => 2,
        ToggleState::Indeterminate => 0,
    };
    let mut children: Vec<MenuItemJson> = Vec::new();
    let mut i: usize = 0;
    while i < m.submenu.len()
        invariant
            i <= m.submenu@.len(),
            children@.len() == i,
            forall|j: int| 0 <= j < i ==> shows(#[trigger] children@[j], m.submenu@[j]),
        decreases m.submenu.len() - i,
    {
        let child = menu_item_to_json(&m.submenu[i]);
        children.push(child);
        i += 1;
    }
    MenuItemJson {
        id: m.id,
        label: string_or_empty(&m.label),
        enabled: m.enabled,
        visible: m.visible,
        separator,
        toggle: if m.toggle_type == ToggleType::CannotBeToggled {
            0
        } else {
            toggle
        },
        children,
    }
}

/// Shows every top entry of a menu, and all that is below.
pub fn menu_to_json(menu: &TrayMenu) -> (r: Vec<MenuItemJson>)
    ensures
        shows_all(r@, menu.submenus@),
{
    let mut items: Vec<MenuItemJson> = Vec::new();
    let mut i: usize = 0;
    while i < menu.submenus.len()
        invariant
            i <= menu.submenus@.len(),
            items@.len() == i,
            forall|j: int| 0 <= j < i ==> shows(#[trigger] items@[j], menu.submenus@[j]),
        decreases menu.submenus.len() - i,
    {
        let item = menu_item_to_json(&menu.submenus[i]);
        items.push(item);
        i += 1;
    }
    items
}

/// Every entry of a list of entries and of the lists below them, each before those below
/// it, and those before the entries after it.
pub open spec fn preorder(items: Seq<MenuItem>) -> Seq<MenuItem>
    decreases items,
{
    if items.len() == 0 {
        Seq::empty()
    } else {
        seq![items[0]] + preorder(items[0].submenu@) + preorder(items.drop_first())
    }
}

/// The first entry of a list with the given id.
pub open spec fn first_with_id(items: Seq<MenuItem>, target: i32) -> Option<MenuItem>
    decreases items.len(),
{
    if items.len() == 0 {
        None
    } else if items[0].id == target {
        Some(items[0])
    } else {
        first_with_id(items.drop_first(), target)
    }
}

/// A row is searched before the row that follows it.
pub proof fn lemma_first_with_id_concat(a: Seq<MenuItem>, b: Seq<MenuItem>, target: i32)
    ensures
        first_with_id(a + b, target) == (match first_with_id(a, target) {
            Some(found) => Some(found),
            None => first_with_id(b, target),
        }),
    decreases a.len(),
{
    if a.len() == 0 {
        assert(a + b =~= b);
    } else {
        assert((a + b)[0] == a[0]);
        assert((a + b).drop_first() =~= a.drop_first() + b);
        lemma_first_with_id_concat(a.drop_first(), b, target);
    }
}

/// The entries below the first entry of the tree with the given id.
pub open spec fn submenu_of(items: Seq<MenuItem>, target: i32) -> Option<Vec<MenuItem>> {
    match first_with_id(preorder(items), target) {
        Some(found) => Some(found.submenu),
        None => None,
    }
}

/// Finds the entries below the first entry with the given id, anywhere in the tree.
pub fn find_submenu(items: &Vec<MenuItem>, target: i32) -> (r: Option<&Vec<MenuItem>>)
    ensures
        r is Some <==> submenu_of(items@, target) is Some,
        r matches Some(found) ==> submenu_of(items@, target) == Some(*found),
    decreases items,
{
    let mut i: usize = 0;
    assert(items@.skip(0) =~= items@);
    while i < items.len()
        invariant
            i <= items@.len(),
            first_with_id(preorder(items@), target) == first_with_id(
                preorder(items@.skip(i as int)),
                target,
            ),
        decreases items.len() - i,
    {
        let it = &items[i];
        let ghost rest = items@.skip(i as int);
        proof {
            let below = preorder(it.submenu@);
            let after = preorder(rest.drop_first());
            assert(preorder(rest) =~= seq![*it] + below + after);
            assert(preorder(rest).drop_first() =~= below + after);
            assert(preorder(rest)[0] == *it);
            lemma_first_with_id_concat(below, after, target);
            assert(rest.drop_first() =~= items@.skip(i + 1));
        }
        if it.id == target {
            return Some(&it.submenu);
        }
        if let Some(found) = find_submenu(&it.submenu, target) {
            return Some(found);
        }
        i += 1;
    }
    assert(items@.skip(i as int) =~= Seq::<MenuItem>::empty());
    None
}

/// A search of the tree finds nothing only where no entry has the id; and what it finds has
/// the id, and no entry on the way to it has.
pub proof fn law_search_finds_the_first(items: Seq<MenuItem>, target: i32)
    ensures
        match first_with_id(items, target) {
            Some(found) => exists|k: int|
                0 <= k < items.len() && #[trigger] items[k] == found && found.id == target && (
                forall|j: int| 0 <= j < k ==> (#[trigger] items[j]).id != target),
            None => forall|j: int| 0 <= j < items.len() ==> (#[trigger] items[j]).id != target,
        },
    decreases items.len(),
{
    if items.len() > 0 {
        let rest = items.drop_first();
        law_search_finds_the_first(rest, target);
        if items[0].id != target {
            match first_with_id(rest, target) {
                Some(found) => {
                    let k = choose|k: int|
                        0 <= k < rest.len() && #[trigger] rest[k] == found && found.id == target
                            && (forall|j: int| 0 <= j < k ==> (#[trigger] rest[j]).id != target);
                    assert(items[k + 1] == found);
                    assert forall|j: int| 0 <= j < k + 1 implies (#[trigger] items[j]).id
                        != target by {
                        if j > 0 {
                            assert(rest[j - 1] == items[j]);
                        }
                    }
                },
                None => {
                    assert forall|j: int| 0 <= j < items.len() implies (#[trigger] items[j]).id
                        != target by {
                        if j > 0 {
                            assert(rest[j - 1] == items[j]);
                        }
                    }
                },
            }
        } else {
            assert(items[0] == items[0]);
        }
    }
}

/// An entry is shown with its own id, label and flags, and with as many entries below it as it
/// has, each of them shown in its turn and place. A label that it does not have is empty.
pub proof fn law_entry_is_shown_as_it_is(json: MenuItemJson, item: MenuItem)
    requires
        shows(json, item),
    ensures
        json.id == item.id,
        item.label matches Some(label) ==> json.label@ == label@,
        item.label is None ==> json.label@.len() == 0,
        json.enabled == item.enabled,
        json.visible == item.visible,
        json.separator <==> item.menu_type is Separator,
        json.children@.len() == item.submenu@.len(),
        forall|i: int|
            0 <= i < item.submenu@.len() ==> shows(#[trigger] json.children@[i], item.submenu@[i]),
{
}

/// An entry that can be toggled, by a checkmark or as one of several, is shown as on exactly
/// where it is on and as off exactly where it is off; one that cannot is shown as neither.
pub proof fn law_toggle_is_shown_as_it_is(json: MenuItemJson, item: MenuItem)
    requires
        shows(json, item),
    ensures
        item.toggle_type !is CannotBeToggled ==> {
            &&& json.toggle == 2 <==> item.toggle_state is On
            &&& json.toggle == 1 <==> item.toggle_state is Off
            &&& json.toggle == 0 <==> item.toggle_state is Indeterminate
        },
        item.toggle_type is CannotBeToggled ==> json.toggle == 0,
{
}

/// A menu is shown entry by entry, none left out, none added, none moved.
pub proof fn law_menu_is_shown_entry_by_entry(json: Seq<MenuItemJson>, items: Seq<MenuItem>)
    ensures
        shows_all(json, items) <==> json.len() == items.len() && (forall|i: int|
            0 <= i < items.len() ==> shows(#[trigger] json[i], items[i])),
{
}

/// The entries below an id are those of the first entry that has it: an entry comes before
/// those below it, and these before the entries after it.
pub proof fn law_submenu_search(item: MenuItem, rest: Seq<MenuItem>, target: i32)
    ensures
        submenu_of(Seq::<MenuItem>::empty(), target) is None,
        item.id == target ==> submenu_of(seq![item] + rest, target) == Some(item.submenu),
        item.id != target && submenu_of(item.submenu@, target) is Some ==> submenu_of(
            seq![item] + rest,
            target,
        ) == submenu_of(item.submenu@, target),
        item.id != target && submenu_of(item.submenu@, target) is None ==> submenu_of(
            seq![item] + rest,
            target,
        ) == submenu_of(rest, target),
{
    let items = seq![item] + rest;
    let below = preorder(item.submenu@);
    let after = preorder(rest);
    assert(preorder(Seq::<MenuItem>::empty()) =~= Seq::<MenuItem>::empty());
    assert(items[0] == item);
    assert(items.drop_first() =~= rest);
    assert(preorder(items) =~= seq![item] + below + after);
    assert(preorder(items)[0] == item);
    assert(preorder(items).drop_first() =~= below + after);
    lemma_first_with_id_concat(below, after, target);
}

} // verus!
