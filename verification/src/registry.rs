//! The trays that are known, by the address of their bus connection and by their id.

use std::collections::HashMap;

use vstd::prelude::*;

use crate::menu::{text_or_empty, TrayMenu};
use crate::pixmap::IconPixmap;

verus! {

/// What a tray application tells of itself.
#[derive(Debug)]
pub struct StatusNotifierItem {
    pub title: Option<String>,
    pub icon_name: Option<String>,
    pub icon_pixmap: Option<Vec<IconPixmap>>,
    pub icon_theme_path: Option<String>,
    /// The bus path of the menu.
    pub menu: Option<String>,
}

/// A tray that is known.
#[derive(Debug)]
pub struct TrayState {
    pub id: u32,
    /// The bus name that requests go to.
    pub address: String,
    pub title: String,
    pub tooltip: String,
    /// Empty where there is no icon.
    pub icon_path: Vec<u8>,
    pub icon_name: Option<String>,
    pub icon_pixmaps: Vec<IconPixmap>,
    pub icon_theme_path: Option<String>,
    /// The bus path of the menu.
    pub menu_path: Option<String>,
    pub menu: Option<TrayMenu>,
}

/// A tray, over the texts and bytes that it holds.
#[verifier::ext_equal]
pub struct Tray {
    pub id: u32,
    pub address: Seq<char>,
    pub title: Seq<char>,
    pub tooltip: Seq<char>,
    pub icon_path: Seq<u8>,
    pub icon_name: Option<Seq<char>>,
    pub icon_pixmaps: Seq<IconPixmap>,
    pub icon_theme_path: Option<Seq<char>>,
    pub menu_path: Option<Seq<char>>,
    pub menu: Option<TrayMenu>,
}

/// The text of an optional string.
pub open spec fn text_of(s: Option<String>) -> Option<Seq<char>> {
    match s {
        Some(t) => Some(t@),
        None => None,
    }
}

/// The pixmaps of an optional list, none where there is no list.
pub open spec fn pixmaps_of(pixmaps: Option<Vec<IconPixmap>>) -> Seq<IconPixmap> {
    match pixmaps {
        Some(v) => v@,
        None => Seq::empty(),
    }
}

impl View for TrayState {
    type V = Tray;

    open spec fn view(&self) -> Tray {
        Tray {
            id: self.id,
            address: self.address@,
            title: self.title@,
            tooltip: self.tooltip@,
            icon_path: self.icon_path@,
            icon_name: text_of(self.icon_name),
            icon_pixmaps: self.icon_pixmaps@,
            icon_theme_path: text_of(self.icon_theme_path),
            menu_path: text_of(self.menu_path),
            menu: self.menu,
        }
    }
}

/// All trays that are known, each under its address, and the id of the next one.
#[verifier::ext_equal]
pub struct Registry {
    pub next_id: int,
    pub trays: Map<Seq<char>, Tray>,
}

impl Registry {
    /// Every tray stands under its own address; ids start at 1, lie below the next one, and
    /// no two trays share one.
    pub open spec fn valid(self) -> bool {
        &&& self.next_id >= 1
        &&& forall|a: Seq<char>| #[trigger]
            self.trays.contains_key(a) ==> {
                &&& self.trays[a].address == a
                &&& 1 <= self.trays[a].id < self.next_id
            }
        &&& forall|a: Seq<char>, b: Seq<char>|
            #![trigger self.trays.contains_key(a), self.trays.contains_key(b)]
            self.trays.contains_key(a) && self.trays.contains_key(b) && self.trays[a].id
                == self.trays[b].id ==> a == b
    }

    /// The registry once it has heard of a tray. One that is known keeps its id, its address
    /// and what the news does not speak of.
    pub open spec fn upserted(self, address: Seq<char>, item: StatusNotifierItem) -> Registry {
        if self.trays.contains_key(address) {
            Registry {
                trays: self.trays.insert(
                    address,
                    Tray {
                        title: text_or_empty(item.title),
                        icon_name: text_of(item.icon_name),
                        icon_pixmaps: pixmaps_of(item.icon_pixmap),
                        icon_theme_path: text_of(item.icon_theme_path),
                        menu_path: text_of(item.menu),
                        ..self.trays[address]
                    },
                ),
                ..self
            }
        } else {
            Registry {
                next_id: self.next_id + 1,
                trays: self.trays.insert(
                    address,
                    Tray {
                        id: self.next_id as u32,
                        address,
                        title: text_or_empty(item.title),
                        tooltip: Seq::empty(),
                        icon_path: Seq::empty(),
                        icon_name: text_of(item.icon_name),
                        icon_pixmaps: pixmaps_of(item.icon_pixmap),
                        icon_theme_path: text_of(item.icon_theme_path),
                        menu_path: text_of(item.menu),
                        menu: None,
                    },
                ),
            }
        }
    }

    /// The registry without the tray at an address.
    pub open spec fn removed(self, address: Seq<char>) -> Registry {
        Registry { trays: self.trays.remove(address), ..self }
    }

    /// The registry with another tray at an address.
    pub open spec fn changed(self, address: Seq<char>, t: Tray) -> Registry {
        Registry { trays: self.trays.insert(address, t), ..self }
    }

    /// The tray with an id, where there is one.
    pub open spec fn with_id(self, id: u32) -> Option<Tray> {
        if exists|a: Seq<char>| #[trigger] self.trays.contains_key(a) && self.trays[a].id == id {
            let a = choose|a: Seq<char>| #[trigger]
                self.trays.contains_key(a) && self.trays[a].id == id;
            Some(self.trays[a])
        } else {
            None
        }
    }
}

impl Registry {
    /// A tray is the one with its id.
    pub proof fn lemma_with_id(self, address: Seq<char>)
        requires
            self.valid(),
            self.trays.contains_key(address),
        ensures
            self.with_id(self.trays[address].id) == Some(self.trays[address]),
    {
    }
}

/// The trays of a list, each under its address.
pub open spec fn by_address(entries: Seq<TrayState>) -> Map<Seq<char>, Tray> {
    Map::new(
        |a: Seq<char>| exists|i: int| 0 <= i < entries.len() && #[trigger] entries[i].address@ == a,
        |a: Seq<char>|
            entries[choose|i: int|
                0 <= i < entries.len() && #[trigger] entries[i].address@ == a]@,
    )
}

/// Whether no two trays of a list have the same address.
pub open spec fn addresses_differ(entries: Seq<TrayState>) -> bool {
    forall|i: int, j: int|
        #![trigger entries[i], entries[j]]
        0 <= i < entries.len() && 0 <= j < entries.len() && entries[i].address@
            == entries[j].address@ ==> i == j
}

/// The trays that are known.
pub struct State {
    next_id: u32,
    by_addr: Vec<TrayState>,
    by_id: HashMap<u32, String>,
}

impl View for State {
    type V = Registry;

    closed spec fn view(&self) -> Registry {
        Registry { next_id: self.next_id as int, trays: by_address(self.by_addr@) }
    }
}

/// A tray of a list stands under its address.
pub proof fn lemma_by_address(entries: Seq<TrayState>, i: int)
    requires
        addresses_differ(entries),
        0 <= i < entries.len(),
    ensures
        by_address(entries).contains_key(entries[i].address@),
        by_address(entries)[entries[i].address@] == entries[i]@,
{
    let a = entries[i].address@;
    let k = choose|k: int| 0 <= k < entries.len() && #[trigger] entries[k].address@ == a;
    assert(entries[k].address@ == entries[i].address@);
    assert(k == i);
}

/// Whether the next id, the list of trays and the addresses by id belong together.
spec fn agree(next_id: u32, entries: Seq<TrayState>, ids: Map<u32, String>) -> bool {
    &&& next_id >= 1
    &&& addresses_differ(entries)
    &&& forall|i: int|
        0 <= i < entries.len() ==> {
            let t = #[trigger] entries[i];
            &&& 1 <= t.id < next_id
            &&& ids.contains_key(t.id)
            &&& ids[t.id]@ == t.address@
        }
    &&& forall|id: u32| #[trigger]
        ids.contains_key(id) ==> exists|i: int|
            0 <= i < entries.len() && #[trigger] entries[i].id == id
}

/// A tray may change in anything but its id and address.
proof fn lemma_agree_changed(
    next_id: u32,
    entries: Seq<TrayState>,
    ids: Map<u32, String>,
    i: int,
    t: TrayState,
)
    requires
        agree(next_id, entries, ids),
        0 <= i < entries.len(),
        t.id == entries[i].id,
        t.address@ == entries[i].address@,
    ensures
        agree(next_id, entries.update(i, t), ids),
        by_address(entries.update(i, t)) == by_address(entries).insert(t.address@, t@),
{
    let after = entries.update(i, t);
    lemma_changed(entries, i, t);
    assert forall|id: u32| #[trigger] ids.contains_key(id) implies exists|k: int|
        0 <= k < after.len() && #[trigger] after[k].id == id by {
        let k = choose|k: int| 0 <= k < entries.len() && #[trigger] entries[k].id == id;
        assert(after[k].id == id);
    }
}

/// To change a tray other than in its address is to put the changed tray in its place.
proof fn lemma_changed(entries: Seq<TrayState>, i: int, t: TrayState)
    requires
        addresses_differ(entries),
        0 <= i < entries.len(),
        t.address@ == entries[i].address@,
    ensures
        addresses_differ(entries.update(i, t)),
        by_address(entries.update(i, t)) == by_address(entries).insert(t.address@, t@),
{
    let after = entries.update(i, t);
    assert forall|a: Seq<char>|
        by_address(after).contains_key(a) == #[trigger] by_address(entries).insert(
            t.address@,
            t@,
        ).contains_key(a) by {
        if by_address(after).contains_key(a) {
            let k = choose|k: int| 0 <= k < after.len() && #[trigger] after[k].address@ == a;
            assert(entries[k].address@ == a);
        }
        if by_address(entries).contains_key(a) {
            let k = choose|k: int| 0 <= k < entries.len() && #[trigger] entries[k].address@ == a;
            assert(after[k].address@ == a);
        }
        assert(after[i].address@ == t.address@);
    }
    assert forall|a: Seq<char>| #[trigger] by_address(after).contains_key(a) implies by_address(
        after,
    )[a] == by_address(entries).insert(t.address@, t@)[a] by {
        let k = choose|k: int| 0 <= k < after.len() && #[trigger] after[k].address@ == a;
        lemma_by_address(after, k);
        lemma_by_address(entries, k);
    }
    assert(by_address(after) =~= by_address(entries).insert(t.address@, t@));
}

/// To add a tray at an address of its own is to put it under that address.
proof fn lemma_added(entries: Seq<TrayState>, t: TrayState)
    requires
        addresses_differ(entries),
        forall|j: int| 0 <= j < entries.len() ==> #[trigger] entries[j].address@ != t.address@,
    ensures
        addresses_differ(entries.push(t)),
        by_address(entries.push(t)) == by_address(entries).insert(t.address@, t@),
{
    let after = entries.push(t);
    assert forall|a: Seq<char>|
        by_address(after).contains_key(a) == #[trigger] by_address(entries).insert(
            t.address@,
            t@,
        ).contains_key(a) by {
        if by_address(after).contains_key(a) && a != t.address@ {
            let k = choose|k: int| 0 <= k < after.len() && #[trigger] after[k].address@ == a;
            assert(entries[k].address@ == a);
        }
        if by_address(entries).contains_key(a) {
            let k = choose|k: int| 0 <= k < entries.len() && #[trigger] entries[k].address@ == a;
            assert(after[k].address@ == a);
        }
        assert(after[entries.len() as int].address@ == t.address@);
    }
    assert forall|a: Seq<char>| #[trigger] by_address(after).contains_key(a) implies by_address(
        after,
    )[a] == by_address(entries).insert(t.address@, t@)[a] by {
        let k = choose|k: int| 0 <= k < after.len() && #[trigger] after[k].address@ == a;
        lemma_by_address(after, k);
        if k < entries.len() {
            lemma_by_address(entries, k);
        }
    }
    assert(by_address(after) =~= by_address(entries).insert(t.address@, t@));
}

/// A new tray may come in under the next id and an address of its own.
proof fn lemma_agree_added(
    next_id: u32,
    entries: Seq<TrayState>,
    ids: Map<u32, String>,
    t: TrayState,
    address: String,
)
    requires
        agree(next_id, entries, ids),
        next_id < u32::MAX,
        t.id == next_id,
        t.address@ == address@,
        !by_address(entries).contains_key(address@),
    ensures
        agree((next_id + 1) as u32, entries.push(t), ids.insert(next_id, address)),
        by_address(entries.push(t)) == by_address(entries).insert(t.address@, t@),
{
    let after = entries.push(t);
    lemma_added(entries, t);
    assert(after[entries.len() as int].id == next_id);
    assert forall|id: u32| #[trigger] ids.insert(next_id, address).contains_key(id) implies exists|
        k: int,
    |
        0 <= k < after.len() && #[trigger] after[k].id == id by {
        if id != next_id {
            let k = choose|k: int| 0 <= k < entries.len() && #[trigger] entries[k].id == id;
            assert(after[k].id == id);
        }
    }
}

/// To take a tray out is to take it from under its address.
proof fn lemma_taken(entries: Seq<TrayState>, i: int)
    requires
        addresses_differ(entries),
        0 <= i < entries.len(),
    ensures
        addresses_differ(entries.remove(i)),
        by_address(entries.remove(i)) == by_address(entries).remove(entries[i].address@),
{
    let after = entries.remove(i);
    let gone = entries[i].address@;
    assert forall|j: int, k: int|
        #![trigger after[j], after[k]]
        0 <= j < after.len() && 0 <= k < after.len() && after[j].address@
            == after[k].address@ implies j == k by {
        let jj = if j < i { j } else { j + 1 };
        let kk = if k < i { k } else { k + 1 };
        assert(after[j] == entries[jj] && after[k] == entries[kk]);
    }
    assert forall|a: Seq<char>|
        by_address(after).contains_key(a) == #[trigger] by_address(entries).remove(
            gone,
        ).contains_key(a) by {
        if by_address(after).contains_key(a) {
            let k = choose|k: int| 0 <= k < after.len() && #[trigger] after[k].address@ == a;
            let kk = if k < i { k } else { k + 1 };
            assert(after[k] == entries[kk]);
            assert(entries[kk].address@ == a);
            if a == gone {
                assert(entries[kk].address@ == entries[i].address@);
            }
        }
        if by_address(entries).contains_key(a) && a != gone {
            let k = choose|k: int| 0 <= k < entries.len() && #[trigger] entries[k].address@ == a;
            let kk = if k < i { k } else { k - 1 };
            assert(after[kk] == entries[k]);
            assert(after[kk].address@ == a);
        }
    }
    assert forall|a: Seq<char>| #[trigger] by_address(after).contains_key(a) implies by_address(
        after,
    )[a] == by_address(entries).remove(gone)[a] by {
        let k = choose|k: int| 0 <= k < after.len() && #[trigger] after[k].address@ == a;
        let kk = if k < i { k } else { k + 1 };
        assert(after[k] == entries[kk]);
        lemma_by_address(after, k);
        lemma_by_address(entries, kk);
    }
    assert(by_address(after) =~= by_address(entries).remove(gone));
}

/// A tray may go, and its id with it.
proof fn lemma_agree_taken(next_id: u32, entries: Seq<TrayState>, ids: Map<u32, String>, i: int)
    requires
        agree(next_id, entries, ids),
        0 <= i < entries.len(),
    ensures
        agree(next_id, entries.remove(i), ids.remove(entries[i].id)),
        by_address(entries.remove(i)) == by_address(entries).remove(entries[i].address@),
{
    let after = entries.remove(i);
    let gone = entries[i].id;
    lemma_taken(entries, i);
    assert forall|k: int| 0 <= k < after.len() implies ({
        let t = #[trigger] after[k];
        &&& 1 <= t.id < next_id
        &&& ids.remove(gone).contains_key(t.id)
        &&& ids.remove(gone)[t.id]@ == t.address@
    }) by {
        let kk = if k < i {
            k
        } else {
            k + 1
        };
        assert(after[k] == entries[kk]);
        assert(entries[kk].address@ == entries[i].address@ ==> kk == i);
    }
    assert forall|id: u32| #[trigger] ids.remove(gone).contains_key(id) implies exists|k: int|
        0 <= k < after.len() && #[trigger] after[k].id == id by {
        let k = choose|k: int| 0 <= k < entries.len() && #[trigger] entries[k].id == id;
        let kk = if k < i {
            k
        } else {
            k - 1
        };
        assert(after[kk] == entries[k]);
        assert(after[kk].id == id);
    }
}

impl State {
    /// No two trays share an address; ids start at 1 and lie below the next one; and each id
    /// in use, no other, leads to the address of its tray.
    pub closed spec fn wf(&self) -> bool {
        agree(self.next_id, self.by_addr@, self.by_id@)
    }

    /// A well-formed state describes a valid registry.
    pub proof fn lemma_valid(&self)
        requires
            self.wf(),
        ensures
            self@.valid(),
    {
        let entries = self.by_addr@;
        assert forall|a: Seq<char>| #[trigger] self@.trays.contains_key(a) implies {
            &&& self@.trays[a].address == a
            &&& 1 <= self@.trays[a].id < self@.next_id
        } by {
            let i = choose|i: int| 0 <= i < entries.len() && #[trigger] entries[i].address@ == a;
            lemma_by_address(entries, i);
        }
        assert forall|a: Seq<char>, b: Seq<char>|
            #![trigger self@.trays.contains_key(a), self@.trays.contains_key(b)]
            self@.trays.contains_key(a) && self@.trays.contains_key(b) && self@.trays[a].id
                == self@.trays[b].id implies a == b by {
            let i = choose|i: int| 0 <= i < entries.len() && #[trigger] entries[i].address@ == a;
            let j = choose|j: int| 0 <= j < entries.len() && #[trigger] entries[j].address@ == b;
            lemma_by_address(entries, i);
            lemma_by_address(entries, j);
        }
    }

    /// No tray is known yet, and the first one gets the id 1.
    pub fn new() -> (r: State)
        ensures
            r.wf(),
            r@ == (Registry { next_id: 1, trays: Map::empty() }),
    {
        broadcast use vstd::std_specs::hash::group_hash_axioms;

        let r = State { next_id: 1, by_addr: Vec::new(), by_id: HashMap::new() };
        assert(r@.trays =~= Map::<Seq<char>, Tray>::empty());
        r
    }

    /// The position of the tray at an address.
    fn position(&self, address: &str) -> (r: Option<usize>)
        requires
            self.wf(),
        ensures
            match r {
                Some(i) => {
                    &&& i < self.by_addr@.len()
                    &&& self.by_addr@[i as int].address@ == address@
                    &&& self@.trays.contains_key(address@)
                    &&& self@.trays[address@] == self.by_addr@[i as int]@
                },
                None => {
                    &&& !self@.trays.contains_key(address@)
                    &&& forall|j: int|
                        0 <= j < self.by_addr@.len() ==> #[trigger] self.by_addr@[j].address@
                            != address@
                },
            },
    {
        let wanted = address.to_owned();
        let mut i: usize = 0;
        while i < self.by_addr.len()
            invariant
                self.wf(),
                wanted@ == address@,
                i <= self.by_addr@.len(),
                forall|j: int|
                    0 <= j < i ==> #[trigger] self.by_addr@[j].address@ != address@,
            decreases self.by_addr.len() - i,
        {
            if self.by_addr[i].address == wanted {
                proof {
                    lemma_by_address(self.by_addr@, i as int);
                }
                return Some(i);
            }
            i += 1;
        }
        None
    }

    /// The tray at an address, to be changed in anything but its id and address.
    pub(crate) fn get_mut(&mut self, address: &str) -> (r: Option<&mut TrayState>)
        requires
            old(self).wf(),
        ensures
            match r {
                Some(t) => {
                    &&& old(self)@.trays.contains_key(address@)
                    &&& (*t)@ == old(self)@.trays[address@]
                    &&& t.address@ == address@
                    &&& final(t).id == t.id && final(t).address@ == address@ ==> {
                        &&& final(self).wf()
                        &&& final(self)@ == old(self)@.changed(address@, (*final(t))@)
                    }
                },
                None => {
                    &&& !old(self)@.trays.contains_key(address@)
                    &&& *final(self) == *old(self)
                },
            },
    {
        match self.position(address) {
            Some(i) => {
                let ghost entries = self.by_addr@;
                assert forall|t: TrayState|
                    t.id == entries[i as int].id && t.address@ == address@ implies agree(
                    self.next_id,
                    #[trigger] entries.update(i as int, t),
                    self.by_id@,
                ) && by_address(entries.update(i as int, t)) == by_address(entries).insert(
                    address@,
                    t@,
                ) by {
                    lemma_agree_changed(self.next_id, entries, self.by_id@, i as int, t);
                }
                Some(&mut self.by_addr[i])
            },
            None => None,
        }
    }

    /// Takes in what a tray tells of itself: a known one is brought up to date, and a new one
    /// gets the next id. Returns the tray's id.
    pub fn upsert(&mut self, address: &str, item: StatusNotifierItem) -> (r: u32)
        requires
            old(self).wf(),
            old(self)@.trays.contains_key(address@) || old(self)@.next_id < u32::MAX,
        ensures
            final(self).wf(),
            final(self)@ == old(self)@.upserted(address@, item),
            r == final(self)@.trays[address@].id,
    {
        broadcast use vstd::std_specs::hash::group_hash_axioms;

        if let Some(t) = self.get_mut(address) {
            t.title = or_empty(item.title);
            t.icon_name = item.icon_name;
            t.icon_pixmaps = or_none(item.icon_pixmap);
            t.icon_theme_path = item.icon_theme_path;
            t.menu_path = item.menu;
            return t.id;
        }
        let id = self.next_id;
        self.next_id += 1;
        let t = TrayState {
            id,
            address: address.to_owned(),
            title: or_empty(item.title),
            tooltip: String::new(),
            icon_path: Vec::new(),
            icon_name: item.icon_name,
            icon_pixmaps: or_none(item.icon_pixmap),
            icon_theme_path: item.icon_theme_path,
            menu_path: item.menu,
            menu: None,
        };
        let known_as = address.to_owned();
        proof {
            lemma_agree_added(id, self.by_addr@, self.by_id@, t, known_as);
        }
        self.by_addr.push(t);
        self.by_id.insert(id, known_as);
        id
    }

    /// Forgets the tray at an address. Returns the path of its icon, where a tray was known:
    /// the file that a pixmap was saved in, a theme's own file where the icon was found by
    /// name, or an empty path.
    pub fn remove(&mut self, address: &str) -> (r: Option<Vec<u8>>)
        requires
            old(self).wf(),
        ensures
            final(self).wf(),
            final(self)@ == old(self)@.removed(address@),
            r is Some <==> old(self)@.trays.contains_key(address@),
            r matches Some(path) ==> path@ == old(self)@.trays[address@].icon_path,
    {
        broadcast use vstd::std_specs::hash::group_hash_axioms;

        match self.position(address) {
            Some(i) => {
                proof {
                    lemma_agree_taken(self.next_id, self.by_addr@, self.by_id@, i as int);
                }
                let t = self.by_addr.remove(i);
                self.by_id.remove(&t.id);
                Some(t.icon_path)
            },
            None => {
                assert(self@.trays.remove(address@) =~= self@.trays);
                None
            },
        }
    }

    /// Whether what a tray tells of itself can be taken in: it is known, or an id is left.
    pub fn has_room(&self, address: &str) -> (r: bool)
        requires
            self.wf(),
        ensures
            r == (self@.trays.contains_key(address@) || self@.next_id < u32::MAX),
    {
        self.next_id < u32::MAX || self.position(address).is_some()
    }

    /// The tray at an address.
    pub fn get(&self, address: &str) -> (r: Option<&TrayState>)
        requires
            self.wf(),
        ensures
            r is Some <==> self@.trays.contains_key(address@),
            r matches Some(t) ==> (*t)@ == self@.trays[address@],
    {
        match self.position(address) {
            Some(i) => Some(&self.by_addr[i]),
            None => None,
        }
    }

    /// All trays, in no particular order.
    pub(crate) fn entries(&self) -> (r: &Vec<TrayState>)
        requires
            self.wf(),
        ensures
            addresses_differ(r@),
            by_address(r@) == self@.trays,
            forall|i: int, j: int|
                #![trigger r@[i], r@[j]]
                0 <= i < r@.len() && 0 <= j < r@.len() && r@[i].id == r@[j].id ==> i == j,
    {
        proof {
            assert forall|i: int, j: int|
                #![trigger self.by_addr@[i], self.by_addr@[j]]
                0 <= i < self.by_addr@.len() && 0 <= j < self.by_addr@.len() && self.by_addr@[i].id
                    == self.by_addr@[j].id implies i == j by {
                assert(self.by_addr@[i].address@ == self.by_addr@[j].address@);
            }
        }
        &self.by_addr
    }

    /// The address of the tray with an id.
    pub fn address_of(&self, id: u32) -> (r: Option<&String>)
        requires
            self.wf(),
        ensures
            r is Some <==> self@.with_id(id) is Some,
            r matches Some(address) ==> address@ == self@.with_id(id)->0.address,
    {
        broadcast use vstd::std_specs::hash::group_hash_axioms;

        let found = self.by_id.get(&id);
        proof {
            self.lemma_valid();
            if self.by_id@.contains_key(id) {
                let i = choose|i: int|
                    0 <= i < self.by_addr@.len() && #[trigger] self.by_addr@[i].id == id;
                lemma_by_address(self.by_addr@, i);
                self@.lemma_with_id(self.by_addr@[i].address@);
            } else {
                assert forall|a: Seq<char>| #[trigger]
                    self@.trays.contains_key(a) implies self@.trays[a].id != id by {
                    let i = choose|i: int|
                        0 <= i < self.by_addr@.len() && #[trigger] self.by_addr@[i].address@ == a;
                    lemma_by_address(self.by_addr@, i);
                }
            }
        }
        found
    }

    /// The tray with an id.
    pub fn with_id(&self, id: u32) -> (r: Option<&TrayState>)
        requires
            self.wf(),
        ensures
            r is Some <==> self@.with_id(id) is Some,
            r matches Some(t) ==> self@.with_id(id) == Some((*t)@),
    {
        match self.address_of(id) {
            Some(address) => {
                proof {
                    self.lemma_valid();
                    let t = self@.with_id(id)->0;
                    assert(self@.trays.contains_key(t.address) && self@.trays[t.address] == t);
                }
                self.get(address.as_str())
            },
            None => None,
        }
    }
}

/// In a valid registry every tray stands under its own address and has an id of its own, which
/// is not 0 and has been given before.
pub proof fn law_every_tray_has_its_id(registry: Registry, a: Seq<char>, b: Seq<char>)
    requires
        registry.valid(),
        registry.trays.contains_key(a),
        registry.trays.contains_key(b),
    ensures
        registry.trays[a].address == a,
        1 <= registry.trays[a].id < registry.next_id,
        registry.trays[a].id == registry.trays[b].id ==> a == b,
{
}

/// A tray is found by its id, and nothing by an id that no tray has.
pub proof fn law_trays_are_found_by_id(registry: Registry, id: u32)
    requires
        registry.valid(),
    ensures
        forall|a: Seq<char>| #[trigger]
            registry.trays.contains_key(a) && registry.trays[a].id == id ==> registry.with_id(id)
                == Some(registry.trays[a]),
        (forall|a: Seq<char>| #[trigger]
            registry.trays.contains_key(a) ==> registry.trays[a].id != id) ==> registry.with_id(id)
            is None,
{
}

/// A tray is looked at as it is.
pub proof fn law_tray_is_looked_at_as_it_is(t: TrayState)
    ensures
        t@.id == t.id,
        t@.address == t.address@,
        t@.title == t.title@,
        t@.tooltip == t.tooltip@,
        t@.icon_path == t.icon_path@,
        t.icon_name matches Some(name) ==> t@.icon_name == Some(name@),
        t.icon_name is None ==> t@.icon_name is None,
        t@.icon_pixmaps == t.icon_pixmaps@,
        t.icon_theme_path matches Some(dir) ==> t@.icon_theme_path == Some(dir@),
        t.icon_theme_path is None ==> t@.icon_theme_path is None,
        t.menu_path matches Some(path) ==> t@.menu_path == Some(path@),
        t.menu_path is None ==> t@.menu_path is None,
        t@.menu == t.menu,
{
}

/// The text of an optional string, empty where there is none.
pub(crate) fn or_empty(s: Option<String>) -> (r: String)
    ensures
        r@ == text_or_empty(s),
{
    match s {
        Some(t) => t,
        None => String::new(),
    }
}

/// The pixmaps of an optional list, none where there is no list.
pub(crate) fn or_none(pixmaps: Option<Vec<IconPixmap>>) -> (r: Vec<IconPixmap>)
    ensures
        r@ == pixmaps_of(pixmaps),
{
    match pixmaps {
        Some(v) => v,
        None => Vec::new(),
    }
}

} // verus!
