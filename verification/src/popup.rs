//! The popup that shows a tray's menu: what it is started with, what it asks of the daemon,
//! what it shows, and what a click does.

use vstd::prelude::*;

use crate::number::{
    decimal, i32_from, parse_i32, parse_u32, push_decimal, push_signed, signed_decimal, u32_from,
};
use crate::text::{chars_of, lines, lines_of, split, split_chars, string_of, texts};

verus! {

/// One entry of a menu, as the daemon's rows tell it.
#[derive(Debug)]
pub struct Item {
    pub id: i32,
    pub label: String,
    pub enabled: bool,
    pub has_submenu: bool,
    pub separator: bool,
}

/// An entry, over the text that it holds.
#[verifier::ext_equal]
pub struct Entry {
    pub id: i32,
    pub label: Seq<char>,
    pub enabled: bool,
    pub has_submenu: bool,
    pub separator: bool,
}

impl View for Item {
    type V = Entry;

    open spec fn view(&self) -> Entry {
        Entry {
            id: self.id,
            label: self.label@,
            enabled: self.enabled,
            has_submenu: self.has_submenu,
            separator: self.separator,
        }
    }
}

/// The command that asks for the entries of a tray's menu below an entry, 0 standing for
/// the top.
pub open spec fn fetch_text(tray_id: u32, parent_menu_id: i32) -> Seq<char> {
    if parent_menu_id == 0 {
        "menu-flat "@ + decimal(tray_id as nat)
    } else {
        "menu-flat "@ + decimal(tray_id as nat) + " "@ + signed_decimal(parent_menu_id as int)
    }
}

/// The command that asks for the entries of a tray's menu.
pub fn fetch_command(tray_id: u32, parent_menu_id: i32) -> (r: String)
    ensures
        r@ == fetch_text(tray_id, parent_menu_id),
{
    let mut cmd = "menu-flat ".to_owned();
    push_decimal(&mut cmd, tray_id as u64);
    if parent_menu_id != 0 {
        cmd.append(" ");
        push_signed(&mut cmd, parent_menu_id);
    }
    cmd
}

/// The command that clicks an entry of a tray's menu.
pub open spec fn click_text(tray_id: u32, id: i32) -> Seq<char> {
    "menu-click "@ + decimal(tray_id as nat) + " "@ + signed_decimal(id as int)
}

/// The command that clicks an entry of a tray's menu.
pub fn click_command(tray_id: u32, id: i32) -> (r: String)
    ensures
        r@ == click_text(tray_id, id),
{
    let mut cmd = "menu-click ".to_owned();
    push_decimal(&mut cmd, tray_id as u64);
    cmd.append(" ");
    push_signed(&mut cmd, id);
    cmd
}

/// The line that carries a command to the daemon.
pub fn message(cmd: &String) -> (r: String)
    ensures
        r@ == cmd@ + "\n"@,
{
    cmd.clone().concat("\n")
}

/// The entry that a row tells of. A row of fewer than five fields tells of none; an id that
/// is no number is 0; a flag is set by `1` alone.
pub open spec fn entry_of(row: Seq<char>) -> Option<Entry> {
    let f = split(row, '\t');
    if f.len() < 5 {
        None
    } else {
        Some(
            Entry {
                id: match i32_from(f[0]) {
                    Some(id) => id,
                    None => 0,
                },
                label: f[1],
                enabled: f[2] == seq!['1'],
                has_submenu: f[3] == seq!['1'],
                separator: f[4] == seq!['1'],
            },
        )
    }
}

/// The entries that rows tell of.
pub open spec fn entries_of(rows: Seq<Seq<char>>) -> Seq<Entry>
    decreases rows.len(),
{
    if rows.len() == 0 {
        Seq::empty()
    } else {
        entries_of(rows.drop_last()) + (match entry_of(rows.last()) {
            Some(entry) => seq![entry],
            None => Seq::empty(),
        })
    }
}

/// Whether a field is a set flag.
fn is_set(field: &Vec<char>) -> (r: bool)
    ensures
        r == (field@ == seq!['1']),
{
    let r = field.len() == 1 && field[0] == '1';
    assert(r ==> field@ =~= seq!['1']);
    r
}

/// Reads a row.
fn read_row(row: &Vec<char>) -> (r: Option<Item>)
    ensures
        r is Some <==> entry_of(row@) is Some,
        r matches Some(item) ==> entry_of(row@) == Some(item@),
{
    let f = split_chars(row, '\t');
    let ghost fields = texts(f@);
    assert(fields == split(row@, '\t'));
    if f.len() < 5 {
        return None;
    }
    assert(fields[0] == f@[0]@ && fields[1] == f@[1]@ && fields[2] == f@[2]@ && fields[3] == f@[3]@
        && fields[4] == f@[4]@);
    let id = match parse_i32(&f[0]) {
        Some(id) => id,
        None => 0,
    };
    Some(
        Item {
            id,
            label: string_of(&f[1]),
            enabled: is_set(&f[2]),
            has_submenu: is_set(&f[3]),
            separator: is_set(&f[4]),
        },
    )
}

/// The entries that items stand for.
pub open spec fn entries(items: Seq<Item>) -> Seq<Entry> {
    Seq::new(items.len(), |i: int| items[i]@)
}

/// The entries that the daemon's answer tells of; none where there was no answer.
pub open spec fn fetched(reply: Option<String>) -> Seq<Entry> {
    match reply {
        Some(raw) => entries_of(lines(raw@)),
        None => Seq::empty(),
    }
}

/// Reads the entries out of the daemon's answer.
pub fn fetch_items(reply: &Option<String>) -> (r: Vec<Item>)
    ensures
        entries(r@) == fetched(*reply),
{
    let mut out: Vec<Item> = Vec::new();
    let raw = match reply {
        Some(raw) => raw,
        None => {
            assert(entries(out@) =~= Seq::<Entry>::empty());
            return out;
        },
    };
    let rows = lines_of(&chars_of(raw.as_str()));
    let ghost all = texts(rows@);
    let mut i: usize = 0;
    assert(entries(out@) =~= entries_of(all.take(0)));
    while i < rows.len()
        invariant
            i <= rows@.len(),
            all == texts(rows@),
            entries(out@) == entries_of(all.take(i as int)),
        decreases rows.len() - i,
    {
        let ghost before = out@;
        assert(all[i as int] == rows@[i as int]@);
        assert(all.take(i + 1).drop_last() =~= all.take(i as int));
        match read_row(&rows[i]) {
            Some(item) => {
                out.push(item);
                assert(entries(out@) =~= entries(before) + seq![item@]);
            },
            None => {
                assert(entries(out@) =~= entries(before) + Seq::<Entry>::empty());
            },
        }
        i += 1;
    }
    assert(all.take(i as int) =~= all);
    out
}

/// What a click on an entry does.
#[derive(Debug)]
pub enum Click {
    /// Opens the entries below this one.
    OpenSubmenu(i32),
    /// Sends this command to the daemon.
    Send(String),
}

/// One row of the popup.
#[derive(Debug)]
pub enum MenuRow {
    Separator,
    Button { label: String, sensitive: bool, arrow: bool, click: Click },
}

/// Whether a row of the popup shows an entry of a tray's menu. A separator shows nothing
/// else; an entry with entries below it has an arrow and opens them; any other is clicked.
pub open spec fn row_shows(row: MenuRow, tray_id: u32, entry: Entry) -> bool {
    if entry.separator {
        row is Separator
    } else {
        &&& row matches MenuRow::Button { label, sensitive, arrow, click }
        &&& label@ == entry.label
        &&& sensitive == entry.enabled
        &&& arrow == entry.has_submenu
        &&& if entry.has_submenu {
            click matches Click::OpenSubmenu(id) && id == entry.id
        } else {
            click matches Click::Send(cmd) && cmd@ == click_text(tray_id, entry.id)
        }
    }
}

/// The rows of the popup for the entries of a tray's menu.
pub fn menu_rows(tray_id: u32, items: &Vec<Item>) -> (r: Vec<MenuRow>)
    ensures
        r@.len() == items@.len(),
        forall|i: int|
            0 <= i < items@.len() ==> row_shows(#[trigger] r@[i], tray_id, items@[i]@),
{
    let mut rows: Vec<MenuRow> = Vec::new();
    let mut i: usize = 0;
    while i < items.len()
        invariant
            i <= items@.len(),
            rows@.len() == i,
            forall|j: int| 0 <= j < i ==> row_shows(#[trigger] rows@[j], tray_id, items@[j]@),
        decreases items.len() - i,
    {
        let it = &items[i];
        let row = if it.separator {
            MenuRow::Separator
        } else {
            MenuRow::Button {
                label: it.label.clone(),
                sensitive: it.enabled,
                arrow: it.has_submenu,
                click: if it.has_submenu {
                    Click::OpenSubmenu(it.id)
                } else {
                    Click::Send(click_command(tray_id, it.id))
                },
            }
        };
        rows.push(row);
        i += 1;
    }
    rows
}

/// The number that a setting denotes; none where it is not set or is no number.
pub open spec fn setting(value: Option<String>) -> Option<i32> {
    match value {
        Some(text) => i32_from(text@),
        None => None,
    }
}

/// Reads a setting.
pub fn env_i32(value: &Option<String>) -> (r: Option<i32>)
    ensures
        r == setting(*value),
{
    match value {
        Some(text) => parse_i32(&chars_of(text.as_str())),
        None => None,
    }
}

/// What the popup was started for: a tray, and the slot of the bar that shows it. A tray that
/// is not named, or by no number, or by 0, is none; the slot is 1 unless a number says
/// otherwise.
pub open spec fn started_for(args: Seq<String>) -> Option<(u32, u32)> {
    let tray = if args.len() > 1 {
        u32_from(args[1]@)
    } else {
        None
    };
    let slot = if args.len() > 2 {
        u32_from(args[2]@)
    } else {
        None
    };
    match tray {
        Some(id) if id != 0 => Some(
            (
                id,
                match slot {
                    Some(n) => n,
                    None => 1,
                },
            ),
        ),
        _ => None,
    }
}

/// Reads the command line, the program's own name first.
pub fn parse_args(args: &Vec<String>) -> (r: Option<(u32, u32)>)
    ensures
        r == started_for(args@),
{
    let tray = if args.len() > 1 {
        parse_u32(&chars_of(args[1].as_str()))
    } else {
        None
    };
    let slot = if args.len() > 2 {
        parse_u32(&chars_of(args[2].as_str()))
    } else {
        None
    };
    match tray {
        Some(id) => if id != 0 {
            Some(
                (
                    id,
                    match slot {
                        Some(n) => n,
                        None => 1,
                    },
                ),
            )
        } else {
            None
        },
        None => None,
    }
}

/// What the popup sends: the command, the tray's id, and the entry's id where it is needed.
pub proof fn law_commands_of_the_popup(tray_id: u32, id: i32)
    ensures
        fetch_text(tray_id, 0) == "menu-flat "@ + decimal(tray_id as nat),
        id != 0 ==> fetch_text(tray_id, id) == "menu-flat "@ + decimal(tray_id as nat) + " "@
            + signed_decimal(id as int),
        click_text(tray_id, id) == "menu-click "@ + decimal(tray_id as nat) + " "@
            + signed_decimal(id as int),
{
}

/// A row tells of an entry where it has five fields or more: the first is its id, 0 where that
/// is no number, the second its label, and the next three are flags, which a `1` alone sets.
pub proof fn law_fields_of_a_row(row: Seq<char>)
    ensures
        split(row, '\t').len() < 5 ==> entry_of(row) is None,
        split(row, '\t').len() >= 5 ==> {
            let f = split(row, '\t');
            &&& entry_of(row) matches Some(entry)
            &&& i32_from(f[0]) matches Some(id) ==> entry.id == id
            &&& i32_from(f[0]) is None ==> entry.id == 0
            &&& entry.label == f[1]
            &&& entry.enabled <==> f[2].len() == 1 && f[2][0] == '1'
            &&& entry.has_submenu <==> f[3].len() == 1 && f[3][0] == '1'
            &&& entry.separator <==> f[4].len() == 1 && f[4][0] == '1'
        },
{
    let f = split(row, '\t');
    if f.len() >= 5 {
        assert(f[2].len() == 1 && f[2][0] == '1' ==> f[2] =~= seq!['1']);
        assert(f[3].len() == 1 && f[3][0] == '1' ==> f[3] =~= seq!['1']);
        assert(f[4].len() == 1 && f[4][0] == '1' ==> f[4] =~= seq!['1']);
    }
}

/// The popup takes the entries of an answer's lines, in order, and passes over a line that
/// tells of none. Without an answer there are none.
pub proof fn law_entries_of_an_answer(raw: String, rows: Seq<Seq<char>>, row: Seq<char>)
    ensures
        fetched(None).len() == 0,
        fetched(Some(raw)) == entries_of(lines(raw@)),
        entries_of(Seq::<Seq<char>>::empty()).len() == 0,
        entry_of(row) matches Some(entry) ==> entries_of(rows.push(row)) == entries_of(rows).push(
            entry,
        ),
        entry_of(row) is None ==> entries_of(rows.push(row)) == entries_of(rows),
{
    assert(rows.push(row).drop_last() =~= rows);
    if let Some(entry) = entry_of(row) {
        assert(entries_of(rows) + seq![entry] =~= entries_of(rows).push(entry));
    } else {
        assert(entries_of(rows) + Seq::<Entry>::empty() =~= entries_of(rows));
    }
}

/// A separator is shown as one. Any other entry is a button with its label, which can be
/// pressed where the entry is enabled; one with entries below it has an arrow and opens them,
/// and one without sends the click on that entry of that tray.
pub proof fn law_what_a_row_shows(row: MenuRow, tray_id: u32, entry: Entry)
    requires
        row_shows(row, tray_id, entry),
    ensures
        row is Separator <==> entry.separator,
        row matches MenuRow::Button { label, sensitive, arrow, click } ==> {
            &&& label@ == entry.label
            &&& sensitive == entry.enabled
            &&& arrow == entry.has_submenu
            &&& click is OpenSubmenu <==> entry.has_submenu
            &&& click matches Click::OpenSubmenu(id) ==> id == entry.id
            &&& click matches Click::Send(cmd) ==> cmd@ == "menu-click "@ + decimal(tray_id as nat)
                + " "@ + signed_decimal(entry.id as int)
        },
{
}

/// An item is looked at as it is, and so is each of several.
pub proof fn law_item_is_looked_at_as_it_is(item: Item, items: Seq<Item>)
    ensures
        entries(items).len() == items.len(),
        forall|i: int| 0 <= i < items.len() ==> #[trigger] entries(items)[i] == items[i]@,
        item@.id == item.id,
        item@.label == item.label@,
        item@.enabled == item.enabled,
        item@.has_submenu == item.has_submenu,
        item@.separator == item.separator,
{
}

/// A setting counts where it is a number.
pub proof fn law_settings_are_numbers(text: String)
    ensures
        setting(None) is None,
        setting(Some(text)) == i32_from(text@),
{
}

/// The popup is started for the tray that its first argument numbers, other than 0, and for the
/// slot that its second one numbers, or the first slot.
pub proof fn law_what_the_popup_is_started_for(args: Seq<String>)
    ensures
        started_for(args) is Some <==> args.len() > 1 && u32_from(args[1]@) is Some && u32_from(
            args[1]@,
        ) != Some(0u32),
        started_for(args) matches Some((tray, slot)) ==> {
            &&& u32_from(args[1]@) == Some(tray)
            &&& args.len() > 2 && u32_from(args[2]@) is Some ==> u32_from(args[2]@) == Some(slot)
            &&& args.len() <= 2 || u32_from(args[2]@) is None ==> slot == 1
        },
{
}

} // verus!
