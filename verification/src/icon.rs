//! Which picture becomes a tray's icon, and where it is kept.

use vstd::prelude::*;

use crate::paths::{icon_file, icon_file_path};
use crate::pixmap::{biggest, is_biggest};
use crate::registry::{text_of, State, Tray, TrayState};

verus! {

/// What came of the work on a tray's icon.
#[derive(Debug)]
pub enum IconEvent {
    /// Nothing was done yet.
    Start,
    /// Whether the pixmap that was named has been saved.
    PixmapWritten(bool),
    /// The file of the icon that was named, where there is one.
    NameResolved(Option<Vec<u8>>),
}

/// What is to be done for a tray's icon.
#[derive(Debug)]
pub enum IconAction {
    /// Save the pixmap at this position under this path.
    WritePixmap { pixmap: usize, path: Vec<u8> },
    /// Search for the icon of this name.
    ResolveName { name: String, theme_path: Option<String> },
    /// Nothing: the icon's path is settled.
    Done,
}

impl Tray {
    /// The tray with another icon.
    pub open spec fn with_icon(self, path: Seq<u8>) -> Tray {
        Tray { icon_path: path, ..self }
    }

    /// Whether an event leaves the icon to its name.
    pub open spec fn left_to_name(self, event: IconEvent) -> bool {
        match event {
            IconEvent::Start => self.icon_pixmaps.len() == 0,
            IconEvent::PixmapWritten(ok) => !ok,
            IconEvent::NameResolved(_) => false,
        }
    }

    /// The tray after an event: a saved pixmap is its icon, then the file that its icon's
    /// name stands for; without either it has none.
    pub open spec fn icon_after(self, runtime: Option<String>, event: IconEvent) -> Tray {
        match event {
            IconEvent::PixmapWritten(true) => self.with_icon(icon_file_path(runtime, self.id)),
            IconEvent::NameResolved(Some(path)) => self.with_icon(path@),
            IconEvent::NameResolved(None) => self.with_icon(Seq::empty()),
            _ => if self.left_to_name(event) && self.icon_name is None {
                self.with_icon(Seq::empty())
            } else {
                self
            },
        }
    }

    /// Whether an action is the one that is due after an event: to save the biggest pixmap,
    /// where there are any; else, or where that failed, to search by name, where there is one;
    /// else nothing.
    pub open spec fn due(
        self,
        runtime: Option<String>,
        event: IconEvent,
        action: IconAction,
    ) -> bool {
        if event is Start && self.icon_pixmaps.len() > 0 {
            &&& action matches IconAction::WritePixmap { pixmap, path }
            &&& is_biggest(self.icon_pixmaps, pixmap as int)
            &&& path@ == icon_file_path(runtime, self.id)
        } else if self.left_to_name(event) && self.icon_name is Some {
            &&& action matches IconAction::ResolveName { name, theme_path }
            &&& Some(name@) == self.icon_name
            &&& text_of(theme_path) == self.icon_theme_path
        } else {
            action is Done
        }
    }
}

/// Leaves a tray's icon to its name.
fn leave_to_name(t: &mut TrayState) -> (r: IconAction)
    ensures
        final(t).id == old(t).id,
        final(t).address == old(t).address,
        match old(t).icon_name {
            Some(name) => {
                &&& *final(t) == *old(t)
                &&& r matches IconAction::ResolveName { name: n, theme_path }
                &&& n@ == name@
                &&& text_of(theme_path) == text_of(old(t).icon_theme_path)
            },
            None => {
                &&& final(t)@ == old(t)@.with_icon(Seq::empty())
                &&& r is Done
            },
        },
{
    match &t.icon_name {
        Some(name) => {
            let theme_path = match &t.icon_theme_path {
                Some(dir) => Some(dir.clone()),
                None => None,
            };
            IconAction::ResolveName { name: name.clone(), theme_path }
        },
        None => {
            t.icon_path = Vec::new();
            assert(t@ =~= old(t)@.with_icon(Seq::empty()));
            IconAction::Done
        },
    }
}

/// Takes what came of the work on a tray's icon and tells what to do next.
fn extract_icon(t: &mut TrayState, runtime: &Option<String>, event: IconEvent) -> (r: IconAction)
    ensures
        final(t).id == old(t).id,
        final(t).address == old(t).address,
        final(t)@ == old(t)@.icon_after(*runtime, event),
        old(t)@.due(*runtime, event, r),
{
    match event {
        IconEvent::Start => {
            if !t.icon_pixmaps.is_empty() {
                let pixmap = biggest(&t.icon_pixmaps);
                IconAction::WritePixmap { pixmap, path: icon_file(runtime, t.id) }
            } else {
                leave_to_name(t)
            }
        },
        IconEvent::PixmapWritten(ok) => {
            if ok {
                t.icon_path = icon_file(runtime, t.id);
                IconAction::Done
            } else {
                leave_to_name(t)
            }
        },
        IconEvent::NameResolved(found) => {
            t.icon_path = match found {
                Some(path) => path,
                None => Vec::new(),
            };
            IconAction::Done
        },
    }
}

impl State {
    /// Takes what came of the work on the icon of the tray at an address and tells what to do
    /// next. For an address that is not known there is nothing to do.
    pub fn extract_icon(
        &mut self,
        address: &str,
        runtime: &Option<String>,
        event: IconEvent,
    ) -> (r: IconAction)
        requires
            old(self).wf(),
        ensures
            final(self).wf(),
            old(self)@.trays.contains_key(address@) ==> {
                &&& final(self)@ == old(self)@.changed(
                    address@,
                    old(self)@.trays[address@].icon_after(*runtime, event),
                )
                &&& old(self)@.trays[address@].due(*runtime, event, r)
            },
            !old(self)@.trays.contains_key(address@) ==> final(self)@ == old(self)@ && r is Done,
    {
        match self.get_mut(address) {
            Some(t) => extract_icon(t, runtime, event),
            None => IconAction::Done,
        }
    }
}

/// The path that a tray's icon ends up with, given whether its pixmap can be saved and what
/// its icon's name stands for.
pub open spec fn settled_path(
    t: Tray,
    runtime: Option<String>,
    saved: bool,
    found: Option<Seq<u8>>,
) -> Seq<u8> {
    if t.icon_pixmaps.len() > 0 && saved {
        icon_file_path(runtime, t.id)
    } else if t.icon_name is Some && found is Some {
        found->0
    } else {
        Seq::empty()
    }
}

/// Doing what is due until nothing is: a pixmap that can be saved wins over a name, a name is
/// what is left without one, and a tray with neither has no icon.
pub proof fn law_pixmap_wins_over_name(
    t: Tray,
    runtime: Option<String>,
    saved: bool,
    found: Option<Vec<u8>>,
    first: IconAction,
    second: IconAction,
)
    requires
        t.due(runtime, IconEvent::Start, first),
        t.icon_after(runtime, IconEvent::Start).due(
            runtime,
            IconEvent::PixmapWritten(saved),
            second,
        ),
    ensures
        ({
            let path = settled_path(
                t,
                runtime,
                saved,
                match found {
                    Some(p) => Some(p@),
                    None => None,
                },
            );
            let started = t.icon_after(runtime, IconEvent::Start);
            let written = started.icon_after(runtime, IconEvent::PixmapWritten(saved));
            match first {
                IconAction::Done => started == t.with_icon(path),
                IconAction::ResolveName { .. } => started.icon_after(
                    runtime,
                    IconEvent::NameResolved(found),
                ) == t.with_icon(path),
                IconAction::WritePixmap { .. } => match second {
                    IconAction::ResolveName { .. } => written.icon_after(
                        runtime,
                        IconEvent::NameResolved(found),
                    ) == t.with_icon(path),
                    _ => written == t.with_icon(path),
                },
            }
        }),
{
}

/// Working out an icon touches nothing of the tray but its icon's path.
pub proof fn law_icon_work_touches_the_icon_alone(
    t: Tray,
    runtime: Option<String>,
    event: IconEvent,
)
    ensures
        t.icon_after(runtime, event) == (Tray {
            icon_path: t.icon_after(runtime, event).icon_path,
            ..t
        }),
{
}

/// A tray with pixmaps has the one with the biggest area saved first, the last of several, as
/// the file of its id; the path is its icon's once that is done.
pub proof fn law_biggest_pixmap_is_saved(t: Tray, runtime: Option<String>, action: IconAction)
    requires
        t.icon_pixmaps.len() > 0,
        t.due(runtime, IconEvent::Start, action),
    ensures
        t.icon_after(runtime, IconEvent::Start) == t,
        action matches IconAction::WritePixmap { pixmap, path } && {
            &&& pixmap < t.icon_pixmaps.len()
            &&& forall|i: int|
                0 <= i < t.icon_pixmaps.len() ==> (#[trigger] t.icon_pixmaps[i]).width
                    * t.icon_pixmaps[i].height <= t.icon_pixmaps[pixmap as int].width
                    * t.icon_pixmaps[pixmap as int].height
            &&& forall|i: int|
                pixmap < i < t.icon_pixmaps.len() ==> (#[trigger] t.icon_pixmaps[i]).width
                    * t.icon_pixmaps[i].height < t.icon_pixmaps[pixmap as int].width
                    * t.icon_pixmaps[pixmap as int].height
            &&& path@ == icon_file_path(runtime, t.id)
            &&& t.icon_after(runtime, IconEvent::PixmapWritten(true)).icon_path == path@
        },
{
    let action_pixmap = action->pixmap;
    assert forall|i: int| 0 <= i < t.icon_pixmaps.len() implies (#[trigger] t.icon_pixmaps[i]).width
        * t.icon_pixmaps[i].height <= t.icon_pixmaps[action_pixmap as int].width
        * t.icon_pixmaps[action_pixmap as int].height by {
        assert(t.icon_pixmaps[i].area() <= t.icon_pixmaps[action_pixmap as int].area());
    }
    assert forall|i: int|
        action_pixmap < i < t.icon_pixmaps.len() implies (#[trigger] t.icon_pixmaps[i]).width
        * t.icon_pixmaps[i].height < t.icon_pixmaps[action_pixmap as int].width
        * t.icon_pixmaps[action_pixmap as int].height by {
        assert(t.icon_pixmaps[i].area() < t.icon_pixmaps[action_pixmap as int].area());
    }
}

/// Without a pixmap, or where it could not be saved, the icon is searched for by its own name
/// in its own theme's directory; a tray without a name has no icon.
pub proof fn law_icon_is_searched_by_name(
    t: Tray,
    runtime: Option<String>,
    event: IconEvent,
    action: IconAction,
)
    requires
        (event is Start && t.icon_pixmaps.len() == 0) || event matches IconEvent::PixmapWritten(
            false,
        ),
        t.due(runtime, event, action),
    ensures
        t.icon_name matches Some(wanted) ==> {
            &&& action matches IconAction::ResolveName { name, theme_path }
            &&& name@ == wanted
            &&& theme_path is Some <==> t.icon_theme_path is Some
            &&& theme_path matches Some(dir) ==> t.icon_theme_path == Some(dir@)
            &&& t.icon_after(runtime, event) == t
        },
        t.icon_name is None ==> action is Done && t.icon_after(runtime, event).icon_path.len() == 0,
{
}

/// Once a pixmap was saved or a search has ended there is nothing left to do. A search that
/// found a file makes it the icon, and one that found none leaves the tray without.
pub proof fn law_icon_is_settled(
    t: Tray,
    runtime: Option<String>,
    event: IconEvent,
    action: IconAction,
)
    requires
        event is NameResolved || event matches IconEvent::PixmapWritten(true),
        t.due(runtime, event, action),
    ensures
        action is Done,
        event matches IconEvent::NameResolved(Some(path)) ==> t.icon_after(runtime, event).icon_path
            == path@,
        event matches IconEvent::NameResolved(None) ==> t.icon_after(
            runtime,
            event,
        ).icon_path.len() == 0,
        event matches IconEvent::PixmapWritten(true) ==> t.icon_after(runtime, event).icon_path
            == icon_file_path(runtime, t.id),
{
}

} // verus!
