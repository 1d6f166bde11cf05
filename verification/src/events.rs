//! What happens on the bus, and what it changes.

use vstd::prelude::*;

use crate::menu::{text_or_empty, TrayMenu};
use crate::pixmap::IconPixmap;
use crate::registry::{
    or_empty, or_none, pixmaps_of, text_of, Registry, State, StatusNotifierItem, Tray,
};

verus! {

/// A change of one tray.
#[derive(Debug)]
pub enum UpdateEvent {
    Icon { icon_name: Option<String>, icon_pixmap: Option<Vec<IconPixmap>> },
    Title(Option<String>),
    /// The title of the new tooltip, where there is one.
    Tooltip(Option<String>),
    /// The whole new menu.
    Menu(TrayMenu),
    /// A change that leaves all that is kept of the tray as it is.
    Other,
}

/// Something that happened on the bus to the tray at an address.
#[derive(Debug)]
pub enum Event {
    Add(String, StatusNotifierItem),
    Update(String, UpdateEvent),
    Remove(String),
}

/// What is left to do outside once an event has been taken in.
#[derive(Debug)]
pub enum Effect {
    Nothing,
    /// The icon of the tray at this address has to be worked out anew.
    ExtractIcon(String),
    /// The tray whose icon this was is gone, and the file is to be removed. It may be one that
    /// a pixmap was saved in, or a theme's own; the path may be empty.
    RemoveFile(Vec<u8>),
}

impl Tray {
    /// The tray after a change.
    pub open spec fn updated(self, event: UpdateEvent) -> Tray {
        match event {
            UpdateEvent::Icon { icon_name, icon_pixmap } => Tray {
                icon_name: text_of(icon_name),
                icon_pixmaps: pixmaps_of(icon_pixmap),
                ..self
            },
            UpdateEvent::Title(title) => Tray { title: text_or_empty(title), ..self },
            UpdateEvent::Tooltip(title) => Tray { tooltip: text_or_empty(title), ..self },
            UpdateEvent::Menu(menu) => Tray { menu: Some(menu), ..self },
            UpdateEvent::Other => self,
        }
    }
}

impl Registry {
    /// The registry after an event. One that speaks of a tray that is not known changes
    /// nothing, unless it makes it known.
    pub open spec fn after(self, event: Event) -> Registry {
        match event {
            Event::Add(address, item) => self.upserted(address@, item),
            Event::Update(address, update) => if self.trays.contains_key(address@) {
                self.changed(address@, self.trays[address@].updated(update))
            } else {
                self
            },
            Event::Remove(address) => self.removed(address@),
        }
    }

    /// Whether an effect is what is left to do after an event: a tray that came or got another
    /// icon has its icon worked out, and a tray that went leaves its icon's file.
    pub open spec fn leaves(self, event: Event, effect: Effect) -> bool {
        match event {
            Event::Add(address, _) => effect matches Effect::ExtractIcon(a) && a@ == address@,
            Event::Update(address, UpdateEvent::Icon { .. }) => if self.trays.contains_key(
                address@,
            ) {
                effect matches Effect::ExtractIcon(a) && a@ == address@
            } else {
                effect is Nothing
            },
            Event::Update(_, _) => effect is Nothing,
            Event::Remove(address) => if self.trays.contains_key(address@) {
                effect matches Effect::RemoveFile(path) && path@
                    == self.trays[address@].icon_path
            } else {
                effect is Nothing
            },
        }
    }
}

impl State {
    /// Takes in an event of the bus.
    pub fn apply(&mut self, event: Event) -> (r: Effect)
        requires
            old(self).wf(),
            event matches Event::Add(address, _) ==> old(self)@.trays.contains_key(address@)
                || old(self)@.next_id < u32::MAX,
        ensures
            final(self).wf(),
            final(self)@ == old(self)@.after(event),
            old(self)@.leaves(event, r),
    {
        match event {
            Event::Add(address, item) => {
                self.upsert(address.as_str(), item);
                Effect::ExtractIcon(address)
            },
            Event::Update(address, update) => self.update(address, update),
            Event::Remove(address) => match self.remove(address.as_str()) {
                Some(path) => Effect::RemoveFile(path),
                None => Effect::Nothing,
            },
        }
    }

    /// Takes in a change of one tray.
    fn update(&mut self, address: String, event: UpdateEvent) -> (r: Effect)
        requires
            old(self).wf(),
        ensures
            final(self).wf(),
            final(self)@ == old(self)@.after(Event::Update(address, event)),
            old(self)@.leaves(Event::Update(address, event), r),
    {
        match self.get_mut(address.as_str()) {
            Some(t) => match event {
                UpdateEvent::Icon { icon_name, icon_pixmap } => {
                    t.icon_name = icon_name;
                    t.icon_pixmaps = or_none(icon_pixmap);
                    Effect::ExtractIcon(address)
                },
                UpdateEvent::Title(title) => {
                    t.title = or_empty(title);
                    Effect::Nothing
                },
                UpdateEvent::Tooltip(title) => {
                    t.tooltip = or_empty(title);
                    Effect::Nothing
                },
                UpdateEvent::Menu(menu) => {
                    t.menu = Some(menu);
                    Effect::Nothing
                },
                UpdateEvent::Other => Effect::Nothing,
            },
            None => Effect::Nothing,
        }
    }

    /// Takes in a tray that was there before the first event, with its menu. Its icon has to
    /// be worked out. Returns the tray's id.
    pub fn seed(
        &mut self,
        address: &str,
        item: StatusNotifierItem,
        menu: Option<TrayMenu>,
    ) -> (r: u32)
        requires
            old(self).wf(),
            old(self)@.trays.contains_key(address@) || old(self)@.next_id < u32::MAX,
        ensures
            final(self).wf(),
            ({
                let known = old(self)@.upserted(address@, item);
                &&& final(self)@ == known.changed(
                    address@,
                    Tray { menu, ..known.trays[address@] },
                )
                &&& r == known.trays[address@].id
            }),
            final(self)@.trays.contains_key(address@),
            final(self)@.trays[address@].id == r,
            final(self)@.trays[address@].menu == menu,
    {
        let id = self.upsert(address, item);
        if let Some(t) = self.get_mut(address) {
            t.menu = menu;
        }
        id
    }
}

impl Event {
    /// The address of the tray that the event speaks of.
    pub open spec fn address(self) -> Seq<char> {
        match self {
            Event::Add(address, _) => address@,
            Event::Update(address, _) => address@,
            Event::Remove(address) => address@,
        }
    }
}

impl Registry {
    /// The registry after a row of events.
    pub open spec fn after_all(self, events: Seq<Event>) -> Registry
        decreases events.len(),
    {
        if events.len() == 0 {
            self
        } else {
            self.after_all(events.drop_last()).after(events.last())
        }
    }
}

/// An event leaves every tray but the one that it speaks of as it is.
pub proof fn law_event_touches_one_tray(registry: Registry, event: Event, address: Seq<char>)
    requires
        address != event.address(),
    ensures
        registry.after(event).trays.contains_key(address) == registry.trays.contains_key(address),
        registry.trays.contains_key(address) ==> registry.after(event).trays[address]
            == registry.trays[address],
{
}

/// An event keeps a registry valid, and a tray that is known before and after it keeps its id.
/// A tray that is known only after it has the id that was next, which no tray had before.
pub proof fn law_event_keeps_ids(registry: Registry, event: Event)
    requires
        registry.valid(),
        event matches Event::Add(address, _) ==> registry.trays.contains_key(address@)
            || registry.next_id < u32::MAX,
    ensures
        registry.after(event).valid(),
        registry.next_id <= registry.after(event).next_id <= registry.next_id + 1,
        forall|a: Seq<char>| #[trigger]
            registry.after(event).trays.contains_key(a) ==> registry.after(event).trays[a].id == (
            if registry.trays.contains_key(a) {
                registry.trays[a].id as int
            } else {
                registry.next_id
            }),
{
}

/// Ids are stable and monotonic: whatever happens, the registry stays valid, and a tray that
/// is known in the end has the id that it had in the beginning, or has been added since and
/// has an id that no tray had until then.
pub proof fn law_ids_are_stable_and_monotonic(registry: Registry, events: Seq<Event>)
    requires
        registry.valid(),
        registry.after_all(events).next_id <= u32::MAX,
    ensures
        registry.after_all(events).valid(),
        registry.next_id <= registry.after_all(events).next_id,
        forall|a: Seq<char>| #[trigger]
            registry.after_all(events).trays.contains_key(a) ==> {
                let id = registry.after_all(events).trays[a].id;
                ||| registry.trays.contains_key(a) && id == registry.trays[a].id
                ||| registry.next_id <= id
            },
    decreases events.len(),
{
    if events.len() > 0 {
        let front = registry.after_all(events.drop_last());
        assert(front.next_id <= registry.after_all(events).next_id);
        law_ids_are_stable_and_monotonic(registry, events.drop_last());
        law_event_keeps_ids(front, events.last());
    }
}

/// Nobody has the id 0: a request that names no tray finds none.
pub proof fn law_no_tray_has_id_zero(registry: Registry)
    requires
        registry.valid(),
    ensures
        registry.with_id(0) is None,
{
}

/// To hear the same of a tray twice is to hear it once.
pub proof fn law_hearing_twice_changes_nothing(
    registry: Registry,
    address: Seq<char>,
    item: StatusNotifierItem,
)
    ensures
        registry.upserted(address, item).upserted(address, item) == registry.upserted(
            address,
            item,
        ),
{
    let once = registry.upserted(address, item);
    assert(once.upserted(address, item).trays =~= once.trays);
}

/// A tray that comes and goes leaves the trays as they were; only its id is used up.
pub proof fn law_removing_undoes_adding(
    registry: Registry,
    address: Seq<char>,
    item: StatusNotifierItem,
)
    requires
        !registry.trays.contains_key(address),
    ensures
        registry.upserted(address, item).removed(address) == (Registry {
            next_id: registry.next_id + 1,
            ..registry
        }),
{
    assert(registry.upserted(address, item).removed(address).trays =~= registry.trays);
}

/// A tray has the title, icon and menu path of the last that was heard of it. One that was
/// known keeps its id, address, tooltip, icon file and menu; one that was not has the next id,
/// and none of the other three.
pub proof fn law_added_tray_is_as_it_was_told(
    registry: Registry,
    address: String,
    item: StatusNotifierItem,
)
    requires
        registry.trays.contains_key(address@) || 0 <= registry.next_id <= u32::MAX,
    ensures
        ({
            let after = registry.after(Event::Add(address, item));
            let t = after.trays[address@];
            &&& after == registry.upserted(address@, item)
            &&& after.trays.contains_key(address@)
            &&& item.title matches Some(title) ==> t.title == title@
            &&& item.title is None ==> t.title.len() == 0
            &&& item.icon_name matches Some(name) ==> t.icon_name == Some(name@)
            &&& item.icon_name is None ==> t.icon_name is None
            &&& item.icon_pixmap matches Some(pixmaps) ==> t.icon_pixmaps == pixmaps@
            &&& item.icon_pixmap is None ==> t.icon_pixmaps.len() == 0
            &&& item.icon_theme_path matches Some(dir) ==> t.icon_theme_path == Some(dir@)
            &&& item.icon_theme_path is None ==> t.icon_theme_path is None
            &&& item.menu matches Some(path) ==> t.menu_path == Some(path@)
            &&& item.menu is None ==> t.menu_path is None
            &&& registry.trays.contains_key(address@) ==> {
                let before = registry.trays[address@];
                &&& after.next_id == registry.next_id
                &&& t.id == before.id && t.address == before.address
                &&& t.tooltip == before.tooltip && t.icon_path == before.icon_path
                &&& t.menu == before.menu
            }
            &&& !registry.trays.contains_key(address@) ==> {
                &&& after.next_id == registry.next_id + 1
                &&& t.id == registry.next_id && t.address == address@
                &&& t.tooltip.len() == 0 && t.icon_path.len() == 0
                &&& t.menu is None
            }
        }),
{
}

/// The last menu that a tray sent is its menu, whatever it had before, and nothing else of it
/// changes.
pub proof fn law_new_menu_replaces_the_old(registry: Registry, address: String, menu: TrayMenu)
    requires
        registry.trays.contains_key(address@),
    ensures
        ({
            let before = registry.trays[address@];
            let after = registry.after(Event::Update(address, UpdateEvent::Menu(menu)));
            let t = after.trays[address@];
            &&& after.next_id == registry.next_id
            &&& after.trays.contains_key(address@)
            &&& t.menu == Some(menu)
            &&& t == (Tray { menu: t.menu, ..before })
        }),
{
}

/// A new title replaces the old one, and nothing else of the tray changes.
pub proof fn law_new_title_replaces_the_old(
    registry: Registry,
    address: String,
    title: Option<String>,
)
    requires
        registry.trays.contains_key(address@),
    ensures
        ({
            let before = registry.trays[address@];
            let after = registry.after(Event::Update(address, UpdateEvent::Title(title)));
            let t = after.trays[address@];
            &&& after.next_id == registry.next_id
            &&& after.trays.contains_key(address@)
            &&& title matches Some(text) ==> t.title == text@
            &&& title is None ==> t.title.len() == 0
            &&& t == (Tray { title: t.title, ..before })
        }),
{
}

/// A new tooltip replaces the old one, and nothing else of the tray changes.
pub proof fn law_new_tooltip_replaces_the_old(
    registry: Registry,
    address: String,
    title: Option<String>,
)
    requires
        registry.trays.contains_key(address@),
    ensures
        ({
            let before = registry.trays[address@];
            let after = registry.after(Event::Update(address, UpdateEvent::Tooltip(title)));
            let t = after.trays[address@];
            &&& after.next_id == registry.next_id
            &&& after.trays.contains_key(address@)
            &&& title matches Some(text) ==> t.tooltip == text@
            &&& title is None ==> t.tooltip.len() == 0
            &&& t == (Tray { tooltip: t.tooltip, ..before })
        }),
{
}

/// A new icon replaces the old name and the old pixmaps, both of them, and nothing else of the
/// tray changes before the icon is worked out.
pub proof fn law_new_icon_replaces_the_old(
    registry: Registry,
    address: String,
    icon_name: Option<String>,
    icon_pixmap: Option<Vec<IconPixmap>>,
)
    requires
        registry.trays.contains_key(address@),
    ensures
        ({
            let before = registry.trays[address@];
            let after = registry.after(
                Event::Update(address, UpdateEvent::Icon { icon_name, icon_pixmap }),
            );
            let t = after.trays[address@];
            &&& after.next_id == registry.next_id
            &&& after.trays.contains_key(address@)
            &&& icon_name matches Some(name) ==> t.icon_name == Some(name@)
            &&& icon_name is None ==> t.icon_name is None
            &&& icon_pixmap matches Some(pixmaps) ==> t.icon_pixmaps == pixmaps@
            &&& icon_pixmap is None ==> t.icon_pixmaps.len() == 0
            &&& t == (Tray { icon_name: t.icon_name, icon_pixmaps: t.icon_pixmaps, ..before })
        }),
{
}

/// News of a tray that is not known, and news that says nothing that is kept, change nothing.
pub proof fn law_idle_news(registry: Registry, address: String, update: UpdateEvent)
    requires
        !registry.trays.contains_key(address@) || update is Other,
    ensures
        registry.after(Event::Update(address, update)).next_id == registry.next_id,
        registry.after(Event::Update(address, update)).trays =~= registry.trays,
{
    if registry.trays.contains_key(address@) {
        assert(registry.trays.insert(address@, registry.trays[address@]) =~= registry.trays);
    }
}

/// A tray that is removed is not known any more, and its id is not given again.
pub proof fn law_removed_tray_is_gone(registry: Registry, address: String)
    ensures
        registry.after(Event::Remove(address)) == registry.removed(address@),
        !registry.after(Event::Remove(address)).trays.contains_key(address@),
        registry.after(Event::Remove(address)).next_id == registry.next_id,
{
}

/// What is left to do: to work out the icon of a tray that came or whose icon changed, and to
/// remove the icon's file of a tray that went; nothing else, and nothing for a tray that was
/// not known.
pub proof fn law_what_is_left_to_do(registry: Registry, event: Event, effect: Effect)
    requires
        registry.leaves(event, effect),
    ensures
        ({
            let known = registry.trays.contains_key(event.address());
            let icon_changed = (event matches Event::Update(_, update) && update is Icon);
            &&& event is Add || (known && icon_changed) <==> effect is ExtractIcon
            &&& effect matches Effect::ExtractIcon(address) ==> address@ == event.address()
            &&& event is Remove && known <==> effect is RemoveFile
            &&& effect matches Effect::RemoveFile(path) ==> path@
                == registry.trays[event.address()].icon_path
        }),
{
}

/// The menu that is served is the one of the last menu update: nothing that follows it changes
/// it, as long as the tray is not removed and sends no other.
pub proof fn law_last_menu_is_kept(
    registry: Registry,
    address: String,
    menu: TrayMenu,
    later: Seq<Event>,
)
    requires
        registry.trays.contains_key(address@),
        forall|i: int|
            0 <= i < later.len() && (#[trigger] later[i]).address() == address@ ==> {
                &&& later[i] !is Remove
                &&& later[i] matches Event::Update(_, update) ==> update !is Menu
            },
    ensures
        ({
            let after = registry.after(Event::Update(address, UpdateEvent::Menu(menu))).after_all(
                later,
            );
            &&& after.trays.contains_key(address@)
            &&& after.trays[address@].menu == Some(menu)
        }),
    decreases later.len(),
{
    if later.len() > 0 {
        let front = later.drop_last();
        assert forall|i: int|
            0 <= i < front.len() && (#[trigger] front[i]).address() == address@ implies {
            &&& front[i] !is Remove
            &&& front[i] matches Event::Update(_, update) ==> update !is Menu
        } by {
            assert(front[i] == later[i]);
        }
        law_last_menu_is_kept(registry, address, menu, front);
        assert(later[later.len() - 1] == later.last());
    }
}

} // verus!
