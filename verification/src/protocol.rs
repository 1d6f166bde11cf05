//! What a client asks of the daemon, one command per connection, and what it is answered.

use vstd::prelude::*;
use vstd::utf8::{decode_utf8, valid_utf8};

use crate::listing::{is_listing, listing, tray_rows};
use crate::menu::{
    all_same_shown, find_submenu, menu_to_json, shows_all, string_or_empty, submenu_of,
    text_or_empty, MenuItem, MenuItemJson, MenuType, TrayMenu,
};
use crate::number::{i32_from, parse_i32, parse_u32, push_signed, signed_decimal, u32_from};
use crate::registry::{Registry, State};
use crate::text::{
    chars_of, lemma_until, string_of, texts, until, utf8_text, words, words_of,
};

verus! {

/// A command of a client.
#[derive(Debug, Clone, Copy, PartialEq, Eq, Structural)]
pub enum Request {
    List,
    Activate(u32),
    Secondary(u32),
    Menu(u32),
    MenuFlat { id: u32, parent: i32 },
    MenuClick { id: u32, submenu: i32 },
    /// A line that is no command.
    Unknown,
}

/// The number that the word at a position denotes; 0 where it denotes none.
pub open spec fn id_at(line: Seq<Seq<char>>, at: int) -> u32 {
    if at < line.len() && u32_from(line[at]) is Some {
        u32_from(line[at])->0
    } else {
        0
    }
}

/// The signed number that the word at a position denotes; 0 where it denotes none.
pub open spec fn entry_at(line: Seq<Seq<char>>, at: int) -> i32 {
    if at < line.len() && i32_from(line[at]) is Some {
        i32_from(line[at])->0
    } else {
        0
    }
}

/// The command that the words of a line make.
pub open spec fn request_of(line: Seq<Seq<char>>) -> Request {
    if line.len() == 0 {
        Request::Unknown
    } else if line[0] == "list"@ {
        Request::List
    } else if line[0] == "activate"@ {
        Request::Activate(id_at(line, 1))
    } else if line[0] == "secondary"@ {
        Request::Secondary(id_at(line, 1))
    } else if line[0] == "menu"@ {
        Request::Menu(id_at(line, 1))
    } else if line[0] == "menu-flat"@ {
        Request::MenuFlat { id: id_at(line, 1), parent: entry_at(line, 2) }
    } else if line[0] == "menu-click"@ {
        Request::MenuClick { id: id_at(line, 1), submenu: entry_at(line, 2) }
    } else {
        Request::Unknown
    }
}

/// Reads the number that the word at a position denotes.
fn read_id(line: &Vec<Vec<char>>, at: usize) -> (r: u32)
    ensures
        r == id_at(texts(line@), at as int),
{
    if at < line.len() {
        assert(texts(line@)[at as int] == line@[at as int]@);
        match parse_u32(&line[at]) {
            Some(n) => n,
            None => 0,
        }
    } else {
        0
    }
}

/// Reads the signed number that the word at a position denotes.
fn read_entry(line: &Vec<Vec<char>>, at: usize) -> (r: i32)
    ensures
        r == entry_at(texts(line@), at as int),
{
    if at < line.len() {
        assert(texts(line@)[at as int] == line@[at as int]@);
        match parse_i32(&line[at]) {
            Some(n) => n,
            None => 0,
        }
    } else {
        0
    }
}

/// Reads a command.
pub fn parse_request(line: &str) -> (r: Request)
    ensures
        r == request_of(words(line@)),
{
    let parts = words_of(&chars_of(line));
    if parts.len() == 0 {
        return Request::Unknown;
    }
    assert(texts(parts@)[0] == parts@[0]@);
    let cmd = string_of(&parts[0]);
    if cmd == "list".to_owned() {
        Request::List
    } else if cmd == "activate".to_owned() {
        Request::Activate(read_id(&parts, 1))
    } else if cmd == "secondary".to_owned() {
        Request::Secondary(read_id(&parts, 1))
    } else if cmd == "menu".to_owned() {
        Request::Menu(read_id(&parts, 1))
    } else if cmd == "menu-flat".to_owned() {
        Request::MenuFlat { id: read_id(&parts, 1), parent: read_entry(&parts, 2) }
    } else if cmd == "menu-click".to_owned() {
        Request::MenuClick { id: read_id(&parts, 1), submenu: read_entry(&parts, 2) }
    } else {
        Request::Unknown
    }
}

/// Why what a client sent is no command at all.
#[derive(Debug, Clone, Copy, PartialEq, Eq, Structural)]
pub enum LineError {
    NotUtf8,
}

impl LineError {
    /// The error in words.
    pub fn message(&self) -> (r: String)
        ensures
            r@ == "stream did not contain valid UTF-8"@,
    {
        "stream did not contain valid UTF-8".to_owned()
    }
}

/// The first line of what was received, without its newline: all of it where there is none.
pub open spec fn first_line(received: Seq<u8>) -> Seq<u8> {
    received.take(until(received, 0x0a) as int)
}

/// The command of a connection: that of its first line.
pub open spec fn request_in(received: Seq<u8>) -> Result<Request, LineError> {
    if valid_utf8(first_line(received)) {
        Ok(request_of(words(decode_utf8(first_line(received)))))
    } else {
        Err(LineError::NotUtf8)
    }
}

/// Reads the command of a connection.
pub fn read_request(received: &[u8]) -> (r: Result<Request, LineError>)
    ensures
        r == request_in(received@),
{
    let mut end: usize = 0;
    while end < received.len() && received[end] != 0x0a
        invariant
            end <= received@.len(),
            forall|j: int| 0 <= j < end ==> received@[j] != 0x0a,
        decreases received.len() - end,
    {
        end += 1;
    }
    proof {
        lemma_until(received@, 0x0a, end as nat);
    }
    let line = vstd::slice::slice_subrange(received, 0, end);
    assert(line@ =~= first_line(received@));
    match utf8_text(line) {
        Some(text) => Ok(parse_request(text)),
        None => Err(LineError::NotUtf8),
    }
}

/// A request to a tray application, to be sent over the bus.
#[derive(Debug)]
pub enum ActivateRequest {
    Default { address: String, x: i32, y: i32 },
    Secondary { address: String, x: i32, y: i32 },
    MenuItem { address: String, menu_path: String, submenu_id: i32 },
}

/// What a command comes to.
#[derive(Debug)]
pub enum Reply {
    Nothing,
    /// This text for the client.
    Text(String),
    /// These entries for the client, as JSON; nothing where there is no menu.
    Menu(Option<Vec<MenuItemJson>>),
    /// This request for a tray application.
    Activate(ActivateRequest),
}

/// A flag in a row.
pub open spec fn flag(b: bool) -> Seq<char> {
    if b {
        "1"@
    } else {
        "0"@
    }
}

/// The row of a menu entry: its id, its label, whether it is enabled, whether there are
/// entries below it, and whether it is a separator, with tabs between them.
pub open spec fn flat_row(it: MenuItem) -> Seq<char> {
    signed_decimal(it.id as int) + "\t"@ + text_or_empty(it.label) + "\t"@ + flag(it.enabled)
        + "\t"@ + flag(it.submenu@.len() > 0) + "\t"@ + flag(it.is_separator()) + "\n"@
}

/// The rows of the visible entries of a list.
pub open spec fn flat_rows(items: Seq<MenuItem>) -> Seq<char>
    decreases items.len(),
{
    if items.len() == 0 {
        Seq::empty()
    } else if items[0].visible {
        flat_row(items[0]) + flat_rows(items.drop_first())
    } else {
        flat_rows(items.drop_first())
    }
}

/// The entries that a client sees: those below the entry that it names, or the top ones
/// where it names none or one that is not there.
pub open spec fn pool(menu: TrayMenu, parent: i32) -> Seq<MenuItem> {
    if parent == 0 {
        menu.submenus@
    } else {
        match submenu_of(menu.submenus@, parent) {
            Some(items) => items@,
            None => menu.submenus@,
        }
    }
}

/// A flag in a row.
fn flag_text(b: bool) -> (r: &'static str)
    ensures
        r@ == flag(b),
{
    if b {
        "1"
    } else {
        "0"
    }
}

/// The row of a menu entry.
fn flat_row_text(it: &MenuItem) -> (r: String)
    ensures
        r@ == flat_row(*it),
{
    let mut row = String::new();
    push_signed(&mut row, it.id);
    assert(row@ =~= signed_decimal(it.id as int));
    row.append("\t");
    row.append(string_or_empty(&it.label).as_str());
    row.append("\t");
    row.append(flag_text(it.enabled));
    row.append("\t");
    row.append(flag_text(!it.submenu.is_empty()));
    row.append("\t");
    row.append(flag_text(it.menu_type == MenuType::Separator));
    row.append("\n");
    row
}

/// The rows of the visible entries of a menu, below the entry that is named.
pub fn menu_flat(menu: &TrayMenu, parent: i32) -> (r: String)
    ensures
        r@ == flat_rows(pool(*menu, parent)),
{
    let items = if parent == 0 {
        &menu.submenus
    } else {
        match find_submenu(&menu.submenus, parent) {
            Some(found) => found,
            None => &menu.submenus,
        }
    };
    let mut out = String::new();
    let mut i: usize = 0;
    assert(items@.skip(0) =~= items@);
    assert(out@ + flat_rows(items@) =~= flat_rows(items@));
    while i < items.len()
        invariant
            i <= items@.len(),
            out@ + flat_rows(items@.skip(i as int)) == flat_rows(items@),
        decreases items.len() - i,
    {
        let it = &items[i];
        let ghost rest = items@.skip(i as int);
        assert(rest.drop_first() =~= items@.skip(i + 1));
        let ghost before = out@;
        if it.visible {
            out.append(flat_row_text(it).as_str());
            assert(before + flat_rows(rest) =~= out@ + flat_rows(rest.drop_first()));
        }
        i += 1;
    }
    assert(items@.skip(i as int) =~= Seq::<MenuItem>::empty());
    assert(out@ + Seq::<char>::empty() =~= out@);
    out
}

/// Whether a reply is what a command comes to. A command for a tray that is not known, or for
/// a menu that is not there, comes to nothing, or to an empty menu where one was asked for.
pub open spec fn answers(registry: Registry, request: Request, reply: Reply) -> bool {
    match request {
        Request::List => {
            &&& is_listing(registry.trays, listing(registry.trays))
            &&& reply matches Reply::Text(text)
            &&& text@ == tray_rows(listing(registry.trays))
        },
        Request::Activate(id) => match registry.with_id(id) {
            Some(t) => {
                &&& reply matches Reply::Activate(ActivateRequest::Default { address, x, y })
                &&& address@ == t.address
                &&& x == 0 && y == 0
            },
            None => reply is Nothing,
        },
        Request::Secondary(id) => match registry.with_id(id) {
            Some(t) => {
                &&& reply matches Reply::Activate(ActivateRequest::Secondary { address, x, y })
                &&& address@ == t.address
                &&& x == 0 && y == 0
            },
            None => reply is Nothing,
        },
        Request::Menu(id) => match registry.menu_with_id(id) {
            Some(menu) => {
                &&& reply matches Reply::Menu(Some(items))
                &&& shows_all(items@, menu.submenus@)
            },
            None => reply matches Reply::Menu(None),
        },
        Request::MenuFlat { id, parent } => match registry.menu_with_id(id) {
            Some(menu) => {
                &&& reply matches Reply::Text(text)
                &&& text@ == flat_rows(pool(menu, parent))
            },
            None => reply is Nothing,
        },
        Request::MenuClick { id, submenu } => match registry.with_id(id) {
            Some(t) => match t.menu_path {
                Some(path) => {
                    &&& reply matches Reply::Activate(
                        ActivateRequest::MenuItem { address, menu_path, submenu_id },
                    )
                    &&& address@ == t.address
                    &&& menu_path@ == path
                    &&& submenu_id == submenu
                },
                None => reply is Nothing,
            },
            None => reply is Nothing,
        },
        Request::Unknown => reply is Nothing,
    }
}

/// Whether what was received is handled as it should be: its first line is answered, where
/// it is text.
pub open spec fn handled(
    registry: Registry,
    received: Seq<u8>,
    result: Result<Reply, LineError>,
) -> bool {
    match request_in(received) {
        Ok(request) => result matches Ok(reply) && answers(registry, request, reply),
        Err(e) => result matches Err(got) && got == e,
    }
}

/// Whether two replies are the same.
pub open spec fn same_reply(a: Reply, b: Reply) -> bool {
    match a {
        Reply::Nothing => b is Nothing,
        Reply::Text(text) => b matches Reply::Text(other) && text@ == other@,
        Reply::Menu(None) => b matches Reply::Menu(None),
        Reply::Menu(Some(items)) => b matches Reply::Menu(Some(others)) && all_same_shown(
            items@,
            others@,
        ),
        Reply::Activate(ActivateRequest::Default { address, x, y }) => {
            &&& b matches Reply::Activate(ActivateRequest::Default { address: to, x: x2, y: y2 })
            &&& address@ == to@ && x == x2 && y == y2
        },
        Reply::Activate(ActivateRequest::Secondary { address, x, y }) => {
            &&& b matches Reply::Activate(ActivateRequest::Secondary { address: to, x: x2, y: y2 })
            &&& address@ == to@ && x == x2 && y == y2
        },
        Reply::Activate(ActivateRequest::MenuItem { address, menu_path, submenu_id }) => {
            &&& b matches Reply::Activate(
                ActivateRequest::MenuItem { address: to, menu_path: path, submenu_id: id },
            )
            &&& address@ == to@ && menu_path@ == path@ && submenu_id == id
        },
    }
}

impl Registry {
    /// The menu of the tray with an id, where there is one.
    pub open spec fn menu_with_id(self, id: u32) -> Option<TrayMenu> {
        match self.with_id(id) {
            Some(t) => t.menu,
            None => None,
        }
    }
}

impl State {
    /// Answers a command.
    pub fn answer(&self, request: Request) -> (r: Reply)
        requires
            self.wf(),
        ensures
            answers(self@, request, r),
    {
        match request {
            Request::List => Reply::Text(self.list()),
            Request::Activate(id) => match self.address_of(id) {
                Some(address) => Reply::Activate(
                    ActivateRequest::Default { address: address.clone(), x: 0, y: 0 },
                ),
                None => Reply::Nothing,
            },
            Request::Secondary(id) => match self.address_of(id) {
                Some(address) => Reply::Activate(
                    ActivateRequest::Secondary { address: address.clone(), x: 0, y: 0 },
                ),
                None => Reply::Nothing,
            },
            Request::Menu(id) => match self.menu_with_id(id) {
                Some(menu) => Reply::Menu(Some(menu_to_json(menu))),
                None => Reply::Menu(None),
            },
            Request::MenuFlat { id, parent } => match self.menu_with_id(id) {
                Some(menu) => Reply::Text(menu_flat(menu, parent)),
                None => Reply::Nothing,
            },
            Request::MenuClick { id, submenu } => match self.with_id(id) {
                Some(t) => match &t.menu_path {
                    Some(path) => Reply::Activate(
                        ActivateRequest::MenuItem {
                            address: t.address.clone(),
                            menu_path: path.clone(),
                            submenu_id: submenu,
                        },
                    ),
                    None => Reply::Nothing,
                },
                None => Reply::Nothing,
            },
            Request::Unknown => Reply::Nothing,
        }
    }

    /// The menu of the tray with an id.
    fn menu_with_id(&self, id: u32) -> (r: Option<&TrayMenu>)
        requires
            self.wf(),
        ensures
            r is Some <==> self@.menu_with_id(id) is Some,
            r matches Some(menu) ==> self@.menu_with_id(id) == Some(*menu),
    {
        match self.with_id(id) {
            Some(t) => t.menu.as_ref(),
            None => None,
        }
    }

    /// Answers what a client sent: the first line is the command, and what follows it is of
    /// no account.
    pub fn handle_client(&self, received: &[u8]) -> (r: Result<Reply, LineError>)
        requires
            self.wf(),
        ensures
            handled(self@, received@, r),
    {
        match read_request(received) {
            Ok(request) => Ok(self.answer(request)),
            Err(e) => Err(e),
        }
    }
}

/// The line that answers a request for a menu: its JSON, or an empty list where there is none.
pub fn menu_line(json: Option<String>) -> (r: String)
    ensures
        r@ == (match json {
            Some(text) => text@,
            None => "[]"@,
        }) + "\n"@,
{
    match json {
        Some(text) => text.concat("\n"),
        None => "[]".to_owned().concat("\n"),
    }
}

/// A command is the first word of a line; the second is the id of a tray, and the third that of
/// an entry of its menu. A word that is not there, or is no number, stands for 0. A line
/// without a word, or with another first word, is no command.
pub proof fn law_words_of_a_command(cmd: Seq<char>, args: Seq<Seq<char>>)
    ensures
        ({
            let request = request_of(seq![cmd] + args);
            let id: u32 = if args.len() > 0 && u32_from(args[0]) is Some {
                u32_from(args[0])->0
            } else {
                0
            };
            let entry: i32 = if args.len() > 1 && i32_from(args[1]) is Some {
                i32_from(args[1])->0
            } else {
                0
            };
            &&& request_of(Seq::<Seq<char>>::empty()) is Unknown
            &&& cmd == "list"@ <==> request is List
            &&& cmd == "activate"@ <==> request is Activate
            &&& cmd == "secondary"@ <==> request is Secondary
            &&& cmd == "menu"@ <==> request is Menu
            &&& cmd == "menu-flat"@ <==> request is MenuFlat
            &&& cmd == "menu-click"@ <==> request is MenuClick
            &&& request matches Request::Activate(n) ==> n == id
            &&& request matches Request::Secondary(n) ==> n == id
            &&& request matches Request::Menu(n) ==> n == id
            &&& request matches Request::MenuFlat { id: n, parent } ==> n == id && parent == entry
            &&& request matches Request::MenuClick { id: n, submenu } ==> n == id && submenu
                == entry
        }),
{
    let line = seq![cmd] + args;
    assert(line[0] == cmd);
    assert(args.len() > 0 ==> line[1] == args[0]);
    assert(args.len() > 1 ==> line[2] == args[1]);
    lemma_commands_differ();
}

/// No two commands have the same name.
pub proof fn lemma_commands_differ()
    ensures
        "list"@ != "activate"@ && "list"@ != "secondary"@ && "list"@ != "menu"@,
        "list"@ != "menu-flat"@ && "list"@ != "menu-click"@,
        "activate"@ != "secondary"@ && "activate"@ != "menu"@,
        "activate"@ != "menu-flat"@ && "activate"@ != "menu-click"@,
        "secondary"@ != "menu"@ && "secondary"@ != "menu-flat"@ && "secondary"@ != "menu-click"@,
        "menu"@ != "menu-flat"@ && "menu"@ != "menu-click"@ && "menu-flat"@ != "menu-click"@,
{
    reveal_strlit("list");
    reveal_strlit("activate");
    reveal_strlit("secondary");
    reveal_strlit("menu");
    reveal_strlit("menu-flat");
    reveal_strlit("menu-click");
    assert("list"@.len() == 4 && "activate"@.len() == 8 && "secondary"@.len() == 9 && "menu"@.len()
        == 4 && "menu-flat"@.len() == 9 && "menu-click"@.len() == 10);
    assert("list"@[0] == 'l' && "menu"@[0] == 'm');
    assert("secondary"@[0] == 's' && "menu-flat"@[0] == 'm');
}

/// The row of a menu entry is its id, its label and three flags, with tabs between them and a
/// newline behind: whether it is enabled, whether there are entries below it, and whether it is
/// a separator. A label that it does not have is an empty field.
pub proof fn law_row_of_an_entry(it: MenuItem)
    ensures
        ({
            let label = match it.label {
                Some(text) => text@,
                None => Seq::empty(),
            };
            let enabled = if it.enabled {
                '1'
            } else {
                '0'
            };
            let below = if it.submenu@.len() > 0 {
                '1'
            } else {
                '0'
            };
            let separator = if it.menu_type is Separator {
                '1'
            } else {
                '0'
            };
            flat_row(it) == signed_decimal(it.id as int) + seq!['\t'] + label + seq![
                '\t',
                enabled,
                '\t',
                below,
                '\t',
                separator,
                '\n',
            ]
        }),
{
    reveal_strlit("\t");
    reveal_strlit("\n");
    reveal_strlit("1");
    reveal_strlit("0");
    let front = signed_decimal(it.id as int) + seq!['\t'] + text_or_empty(it.label);
    let e = flag(it.enabled);
    let b = flag(it.submenu@.len() > 0);
    let s = flag(it.is_separator());
    assert("\t"@ =~= seq!['\t']);
    assert(front + "\t"@ + e + "\t"@ + b + "\t"@ + s + "\n"@ =~= front + seq![
        '\t',
        e[0],
        '\t',
        b[0],
        '\t',
        s[0],
        '\n',
    ]);
}

/// The rows of a list of entries are those of its visible ones, one behind another.
pub proof fn law_only_visible_entries_have_rows(it: MenuItem, rest: Seq<MenuItem>)
    ensures
        flat_rows(Seq::<MenuItem>::empty()).len() == 0,
        it.visible ==> flat_rows(seq![it] + rest) == flat_row(it) + flat_rows(rest),
        !it.visible ==> flat_rows(seq![it] + rest) == flat_rows(rest),
{
    let items = seq![it] + rest;
    assert(items[0] == it);
    assert(items.drop_first() =~= rest);
}

/// The entries that are shown are the top ones for 0 and for an entry that is not there, and
/// those below the entry for any other.
pub proof fn law_entries_below_the_parent(menu: TrayMenu, parent: i32)
    ensures
        pool(menu, 0) == menu.submenus@,
        parent != 0 && submenu_of(menu.submenus@, parent) is None ==> pool(menu, parent)
            == menu.submenus@,
        parent != 0 && submenu_of(menu.submenus@, parent) is Some ==> pool(menu, parent)
            == submenu_of(menu.submenus@, parent)->0@,
{
}

/// A command for a tray that is not known comes to nothing, or to an empty menu where one was
/// asked for; and so does one for a menu that is not there. What is no command comes to nothing.
pub proof fn law_nobody_is_reached(registry: Registry, request: Request, reply: Reply)
    requires
        answers(registry, request, reply),
    ensures
        request is Unknown ==> reply is Nothing,
        request matches Request::Activate(id) && registry.with_id(id) is None ==> reply is Nothing,
        request matches Request::Secondary(id) && registry.with_id(id) is None ==> reply is Nothing,
        request matches Request::Menu(id) && (registry.with_id(id) is None || registry.with_id(
            id,
        )->0.menu is None) ==> reply matches Reply::Menu(None),
        request matches Request::MenuFlat { id, parent } && (registry.with_id(id) is None
            || registry.with_id(id)->0.menu is None) ==> reply is Nothing,
        request matches Request::MenuClick { id, submenu } && (registry.with_id(id) is None
            || registry.with_id(id)->0.menu_path is None) ==> reply is Nothing,
{
}

} // verus!
