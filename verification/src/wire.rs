//! What the daemon and its clients can rely on when they talk to each other.

use vstd::prelude::*;
use vstd::utf8::{
    encode_scalar, encode_utf8, last_continuation_byte, leading_byte_width_1, leading_byte_width_2,
    leading_byte_width_3, leading_byte_width_4, second_last_continuation_byte,
    third_last_continuation_byte, valid_utf8,
};

use crate::client::spaced;
use crate::events::law_no_tray_has_id_zero;
use crate::listing::{icon_text, is_listing, law_listing_is_unique, listing, tray_row, tray_rows};
use crate::menu::{lemma_shown_one_way, same_shown, shows, text_or_empty, MenuItem};
use crate::number::{
    decimal, is_digit, law_i32_written_is_read_back, law_u32_written_is_read_back, lemma_decimal,
    signed_decimal, u32_from,
};
use crate::paths::{lemma_encode_concat, lemma_encode_one};
use crate::placement::{blank, filled};
use crate::popup::{click_text, entries_of, entry_of, fetch_text, Entry};
use crate::protocol::{
    answers, entry_at, first_line, flag, flat_row, flat_rows, handled, id_at,
    lemma_commands_differ, pool, request_in, request_of, same_reply, ActivateRequest, LineError,
    Reply, Request,
};
use crate::registry::{Registry, Tray};
use crate::text::{
    is_space, is_word, lemma_lines_first, lemma_split_first, lemma_split_last, lemma_until,
    lemma_words_first, lines, split, words,
};

verus! {

/// White space between two texts keeps their words apart.
pub proof fn lemma_words_apart(a: Seq<char>, space: char, b: Seq<char>)
    requires
        is_space(space),
    ensures
        words(a.push(space) + b) == words(a) + words(b),
    decreases a.len(),
{
    let s = a.push(space) + b;
    if a.len() == 0 {
        assert(s.drop_first() =~= b);
        assert(words(a) + words(b) =~= words(b));
    } else if is_space(a[0]) {
        assert(s[0] == a[0]);
        assert(s.drop_first() =~= a.drop_first().push(space) + b);
        lemma_words_apart(a.drop_first(), space, b);
    } else {
        let n = lemma_first_word(a);
        let word = a.take(n as int);
        let rest = a.skip(n as int);
        assert(a =~= word + rest);
        lemma_words_first(word, rest);
        assert(s =~= word + (rest.push(space) + b));
        lemma_words_first(word, rest.push(space) + b);
        lemma_words_apart(rest, space, b);
        assert(seq![word] + (words(rest) + words(b)) =~= (seq![word] + words(rest)) + words(b));
    }
}

/// The length of the word that a text begins with.
proof fn lemma_first_word(s: Seq<char>) -> (n: nat)
    requires
        s.len() > 0,
        !is_space(s[0]),
    ensures
        0 < n <= s.len(),
        is_word(s.take(n as int)),
        n < s.len() ==> is_space(s[n as int]),
    decreases s.len(),
{
    let t = s.drop_first();
    if t.len() == 0 || is_space(t[0]) {
        1
    } else {
        let n = lemma_first_word(t);
        let m: nat = n + 1;
        assert forall|i: int| 0 <= i < m implies !is_space(#[trigger] s.take(m as int)[i]) by {
            if i > 0 {
                assert(s.take(m as int)[i] == t.take(n as int)[i - 1]);
            }
        }
        if m < s.len() {
            assert(s[m as int] == t[n as int]);
        }
        m
    }
}

/// White space at the end of a line is of no account.
pub proof fn law_trailing_space_is_ignored(line: Seq<char>, space: char)
    requires
        is_space(space),
    ensures
        words(line.push(space)) == words(line),
{
    let none = Seq::<char>::empty();
    lemma_words_apart(line, space, none);
    assert(line.push(space) + none =~= line.push(space));
    assert(words(none) =~= Seq::<Seq<char>>::empty());
    assert(words(line) + Seq::<Seq<char>>::empty() =~= words(line));
}

/// A newline is encoded as the byte of a newline, and no other character with that byte.
proof fn lemma_newline_byte(c: char)
    ensures
        c == '\n' ==> encode_scalar(c as u32) == seq![0x0au8],
        c != '\n' ==> !encode_scalar(c as u32).contains(0x0a),
{
    let v = c as u32;
    assert(v <= 0x7f ==> (leading_byte_width_1(v) == 0x0a <==> v == 0x0a)) by (bit_vector);
    assert(leading_byte_width_2(v) >= 0x80) by (bit_vector);
    assert(leading_byte_width_3(v) >= 0x80) by (bit_vector);
    assert(leading_byte_width_4(v) >= 0x80) by (bit_vector);
    assert(last_continuation_byte(v) >= 0x80) by (bit_vector);
    assert(second_last_continuation_byte(v) >= 0x80) by (bit_vector);
    assert(third_last_continuation_byte(v) >= 0x80) by (bit_vector);
    if c == '\n' {
        assert(encode_scalar(v) =~= seq![0x0au8]);
    }
}

proof fn lemma_no_newline_byte(text: Seq<char>)
    requires
        !text.contains('\n'),
    ensures
        !encode_utf8(text).contains(0x0a),
    decreases text.len(),
{
    if text.len() > 0 {
        let rest = text.drop_first();
        assert(text.contains(text[0]));
        assert forall|i: int| 0 <= i < rest.len() implies rest[i] != '\n' by {
            assert(text.contains(text[i + 1]));
        }
        lemma_newline_byte(text[0]);
        lemma_no_newline_byte(rest);
        lemma_lacks(encode_scalar(text[0] as u32), encode_utf8(rest), 0x0a);
    }
}

/// What neither of two sequences holds, the two together do not hold.
proof fn lemma_lacks<T>(a: Seq<T>, b: Seq<T>, x: T)
    requires
        !a.contains(x),
        !b.contains(x),
    ensures
        !(a + b).contains(x),
{
    assert forall|i: int| 0 <= i < (a + b).len() implies (a + b)[i] != x by {
        if i < a.len() {
            assert(a.contains(a[i]));
        } else {
            assert(b.contains(b[i - a.len()]));
        }
    }
}

proof fn lemma_first_line(line: Seq<u8>, rest: Seq<u8>)
    requires
        !line.contains(0x0a),
    ensures
        first_line(line.push(0x0a) + rest) == line,
{
    let received = line.push(0x0a) + rest;
    assert forall|i: int| 0 <= i < line.len() implies received[i] != 0x0a by {
        assert(line.contains(line[i]));
    }
    lemma_until(received, 0x0a, line.len());
    assert(first_line(received) =~= line);
}

/// The daemon reads a line of text as the command that its words make.
pub proof fn law_daemon_reads_a_line(line: Seq<char>)
    requires
        !line.contains('\n'),
    ensures
        request_in(encode_utf8(line + "\n"@)) == Ok::<Request, LineError>(request_of(words(line))),
{
    reveal_strlit("\n");
    assert("\n"@ =~= seq!['\n']);
    lemma_encode_concat(line, "\n"@);
    lemma_encode_one('\n');
    lemma_newline_byte('\n');
    lemma_no_newline_byte(line);
    let none = Seq::<u8>::empty();
    assert(encode_utf8(line + "\n"@) =~= encode_utf8(line).push(0x0a) + none);
    lemma_first_line(encode_utf8(line), none);
    vstd::utf8::encode_utf8_valid_utf8(line);
    vstd::utf8::encode_utf8_decode_utf8(line);
}

/// There is one reply only to a command.
pub proof fn law_replies_are_determined(registry: Registry, request: Request, a: Reply, b: Reply)
    requires
        answers(registry, request, a),
        answers(registry, request, b),
    ensures
        same_reply(a, b),
{
    if let Request::Menu(id) = request {
        if let Some(menu) = registry.menu_with_id(id) {
            if let (Reply::Menu(Some(x)), Reply::Menu(Some(y))) = (a, b) {
                assert forall|i: int| 0 <= i < x@.len() implies same_shown(
                    #[trigger] x@[i],
                    y@[i],
                ) by {
                    lemma_shown_one_way(x@[i], y@[i], menu.submenus@[i]);
                }
            }
        }
    }
}

/// A connection carries one command: what comes behind its first line changes nothing about
/// how it is handled.
pub proof fn law_one_command_per_connection(
    registry: Registry,
    line: Seq<u8>,
    rest: Seq<u8>,
    alone: Result<Reply, LineError>,
    followed: Result<Reply, LineError>,
)
    requires
        !line.contains(0x0a),
        handled(registry, line.push(0x0a), alone),
        handled(registry, line.push(0x0a) + rest, followed),
    ensures
        match alone {
            Ok(reply) => followed matches Ok(other) && same_reply(reply, other),
            Err(e) => followed matches Err(other) && e == other,
        },
{
    lemma_first_line(line, rest);
    lemma_first_line(line, Seq::empty());
    assert(line.push(0x0a) + Seq::<u8>::empty() =~= line.push(0x0a));
    if let (Ok(a), Ok(b)) = (alone, followed) {
        if let Ok(request) = request_in(line.push(0x0a)) {
            law_replies_are_determined(registry, request, a, b);
        }
    }
}

/// The words of all arguments, in order.
pub open spec fn words_of_all(args: Seq<String>) -> Seq<Seq<char>>
    decreases args.len(),
{
    if args.len() == 0 {
        Seq::empty()
    } else {
        words_of_all(args.drop_last()) + words(args.last()@)
    }
}

/// The daemon reads the words of the client's arguments, no matter how they are spread over
/// the arguments, where none of these holds a newline.
pub proof fn law_daemon_reads_the_clients_words(args: Seq<String>)
    requires
        args.len() > 0,
        forall|i: int| 0 <= i < args.len() ==> !(#[trigger] args[i])@.contains('\n'),
    ensures
        request_in(encode_utf8(spaced(args) + "\n"@)) == Ok::<Request, LineError>(
            request_of(words_of_all(args)),
        ),
{
    lemma_spaced(args);
    law_daemon_reads_a_line(spaced(args));
}

proof fn lemma_spaced(args: Seq<String>)
    requires
        args.len() > 0,
        forall|i: int| 0 <= i < args.len() ==> !(#[trigger] args[i])@.contains('\n'),
    ensures
        words(spaced(args)) == words_of_all(args),
        !spaced(args).contains('\n'),
    decreases args.len(),
{
    assert(!args[args.len() - 1]@.contains('\n'));
    if args.len() == 1 {
        assert(args.drop_last() =~= Seq::<String>::empty());
        assert(words_of_all(args.drop_last()) =~= Seq::<Seq<char>>::empty());
        assert(words_of_all(args) =~= words(args[0]@));
    } else {
        reveal_strlit(" ");
        let front = spaced(args.drop_last());
        lemma_spaced(args.drop_last());
        assert(spaced(args) =~= front.push(' ') + args.last()@);
        lemma_words_apart(front, ' ', args.last()@);
        lemma_lacks(front, " "@, '\n');
        lemma_lacks(front + " "@, args.last()@, '\n');
    }
}

proof fn lemma_decimal_is_word(n: nat)
    ensures
        is_word(decimal(n)),
        !decimal(n).contains('\n'),
{
    lemma_decimal(n);
    assert forall|i: int| 0 <= i < decimal(n).len() implies !is_space(#[trigger] decimal(n)[i]) by {
        assert(is_digit(decimal(n)[i]));
    }
}

proof fn lemma_signed_decimal_is_word(n: int)
    ensures
        is_word(signed_decimal(n)),
        !signed_decimal(n).contains('\t'),
        !signed_decimal(n).contains('\n'),
{
    let digits = decimal(if n < 0 {
        (-n) as nat
    } else {
        n as nat
    });
    lemma_decimal(if n < 0 {
        (-n) as nat
    } else {
        n as nat
    });
    let s = signed_decimal(n);
    assert forall|i: int| 0 <= i < s.len() implies is_digit(#[trigger] s[i]) || s[i] == '-' by {
        if n < 0 && i > 0 {
            assert(s[i] == digits[i - 1]);
        }
    }
}

proof fn lemma_word_alone(word: Seq<char>)
    requires
        is_word(word),
    ensures
        words(word) == seq![word],
{
    lemma_words_first(word, Seq::empty());
    assert(word + Seq::<char>::empty() =~= word);
    assert(words(Seq::<char>::empty()) =~= Seq::<Seq<char>>::empty());
    assert(seq![word] + Seq::<Seq<char>>::empty() =~= seq![word]);
}

/// The words of a command for a tray, and perhaps for an entry of its menu.
spec fn command_words(cmd: Seq<char>, tray_id: u32, entry: Option<i32>) -> Seq<Seq<char>> {
    match entry {
        None => seq![cmd, decimal(tray_id as nat)],
        Some(id) => seq![cmd, decimal(tray_id as nat), signed_decimal(id as int)],
    }
}

/// A command for a tray, and perhaps for an entry of its menu, in text.
spec fn command_text(cmd: Seq<char>, tray_id: u32, entry: Option<i32>) -> Seq<char> {
    match entry {
        None => cmd + " "@ + decimal(tray_id as nat),
        Some(id) => cmd + " "@ + decimal(tray_id as nat) + " "@ + signed_decimal(id as int),
    }
}

/// The daemon reads the words of a command for a tray, and the numbers that they write.
proof fn lemma_command_is_read(cmd: Seq<char>, tray_id: u32, entry: Option<i32>)
    requires
        is_word(cmd),
    ensures
        ({
            let line = command_words(cmd, tray_id, entry);
            &&& request_in(encode_utf8(command_text(cmd, tray_id, entry) + "\n"@)) == Ok::<
                Request,
                LineError,
            >(request_of(line))
            &&& id_at(line, 1) == tray_id
            &&& entry_at(line, 2) == (match entry {
                Some(id) => id,
                None => 0,
            })
        }),
{
    reveal_strlit(" ");
    let tray = decimal(tray_id as nat);
    let two = cmd + " "@ + tray;
    lemma_decimal_is_word(tray_id as nat);
    law_u32_written_is_read_back(tray_id);
    lemma_word_alone(cmd);
    lemma_word_alone(tray);
    assert(two =~= cmd.push(' ') + tray);
    lemma_words_apart(cmd, ' ', tray);
    assert(words(two) =~= seq![cmd, tray]);
    assert(!cmd.contains('\n')) by {
        assert(is_space('\n'));
    }
    lemma_lacks(cmd, " "@, '\n');
    lemma_lacks(cmd + " "@, tray, '\n');
    if let Some(id) = entry {
        let below = signed_decimal(id as int);
        let three = two + " "@ + below;
        lemma_signed_decimal_is_word(id as int);
        law_i32_written_is_read_back(id);
        lemma_word_alone(below);
        assert(three =~= two.push(' ') + below);
        lemma_words_apart(two, ' ', below);
        assert(words(three) =~= seq![cmd, tray, below]);
        lemma_lacks(two, " "@, '\n');
        lemma_lacks(two + " "@, below, '\n');
    }
    law_daemon_reads_a_line(command_text(cmd, tray_id, entry));
}

/// The daemon reads what the popup asks for: the entries of this tray's menu below this entry.
pub proof fn law_daemon_reads_what_the_popup_fetches(tray_id: u32, parent_menu_id: i32)
    ensures
        request_in(encode_utf8(fetch_text(tray_id, parent_menu_id) + "\n"@)) == Ok::<
            Request,
            LineError,
        >(Request::MenuFlat { id: tray_id, parent: parent_menu_id }),
{
    lemma_command_names();
    lemma_commands_differ();
    reveal_strlit("menu-flat ");
    reveal_strlit("menu-flat");
    reveal_strlit(" ");
    let cmd = "menu-flat"@;
    assert("menu-flat "@ =~= cmd + " "@);
    lemma_command_is_read(
        cmd,
        tray_id,
        if parent_menu_id == 0 {
            None
        } else {
            Some(parent_menu_id)
        },
    );
}

/// The daemon reads what the popup clicks: this entry of this tray's menu.
pub proof fn law_daemon_reads_what_the_popup_clicks(tray_id: u32, id: i32)
    ensures
        request_in(encode_utf8(click_text(tray_id, id) + "\n"@)) == Ok::<Request, LineError>(
            Request::MenuClick { id: tray_id, submenu: id },
        ),
{
    lemma_command_names();
    lemma_commands_differ();
    reveal_strlit("menu-click ");
    reveal_strlit("menu-click");
    reveal_strlit(" ");
    let cmd = "menu-click"@;
    assert("menu-click "@ =~= cmd + " "@);
    lemma_command_is_read(cmd, tray_id, Some(id));
}

/// The names of commands are words.
proof fn lemma_command_names()
    ensures
        is_word("list"@) && is_word("activate"@) && is_word("secondary"@),
        is_word("menu"@) && is_word("menu-flat"@) && is_word("menu-click"@),
{
    reveal_strlit("list");
    reveal_strlit("activate");
    reveal_strlit("secondary");
    reveal_strlit("menu");
    reveal_strlit("menu-flat");
    reveal_strlit("menu-click");
}

/// A menu entry as the popup shows it.
pub open spec fn shown(it: MenuItem) -> Entry {
    Entry {
        id: it.id,
        label: text_or_empty(it.label),
        enabled: it.enabled,
        has_submenu: it.submenu@.len() > 0,
        separator: it.is_separator(),
    }
}

/// The visible entries of a list, as the popup shows them.
pub open spec fn shown_entries(items: Seq<MenuItem>) -> Seq<Entry>
    decreases items.len(),
{
    if items.len() == 0 {
        Seq::empty()
    } else if items[0].visible {
        seq![shown(items[0])] + shown_entries(items.drop_first())
    } else {
        shown_entries(items.drop_first())
    }
}

/// Whether a label fits into one field of a row.
pub open spec fn fits_a_field(it: MenuItem) -> bool {
    !text_or_empty(it.label).contains('\t') && !text_or_empty(it.label).contains('\n')
}

/// Five fields with tabs between them.
spec fn fields(a: Seq<char>, b: Seq<char>, c: Seq<char>, d: Seq<char>, e: Seq<char>) -> Seq<char> {
    a.push('\t') + (b.push('\t') + (c.push('\t') + (d.push('\t') + e)))
}

proof fn lemma_fields_joined(
    a: Seq<char>,
    b: Seq<char>,
    c: Seq<char>,
    d: Seq<char>,
    e: Seq<char>,
)
    ensures
        a + seq!['\t'] + b + seq!['\t'] + c + seq!['\t'] + d + seq!['\t'] + e + seq!['\n'] == fields(
            a,
            b,
            c,
            d,
            e,
        ).push('\n'),
{
    let t = seq!['\t'];
    let ab = a + t + b;
    let abc = ab + t + c;
    let abcd = abc + t + d;
    let r3 = d.push('\t') + e;
    let r2 = c.push('\t') + r3;
    let r1 = b.push('\t') + r2;
    assert(abcd + t + e =~= abc + t + r3);
    assert(abc + t + r3 =~= ab + t + r2);
    assert(ab + t + r2 =~= a + t + r1);
    assert(a + t + r1 =~= a.push('\t') + r1);
    let all = abcd + t + e;
    assert(all + seq!['\n'] =~= all.push('\n'));
}

proof fn lemma_fields_split(a: Seq<char>, b: Seq<char>, c: Seq<char>, d: Seq<char>, e: Seq<char>)
    requires
        !a.contains('\t'),
        !b.contains('\t'),
        !c.contains('\t'),
        !d.contains('\t'),
        !e.contains('\t'),
    ensures
        split(fields(a, b, c, d, e), '\t') == seq![a, b, c, d, e],
{
    let r3 = d.push('\t') + e;
    let r2 = c.push('\t') + r3;
    let r1 = b.push('\t') + r2;
    lemma_split_last(e, '\t');
    lemma_split_first(d, '\t', e);
    assert(split(r3, '\t') =~= seq![d, e]);
    lemma_split_first(c, '\t', r3);
    assert(split(r2, '\t') =~= seq![c, d, e]);
    lemma_split_first(b, '\t', r2);
    assert(split(r1, '\t') =~= seq![b, c, d, e]);
    lemma_split_first(a, '\t', r1);
    assert(split(fields(a, b, c, d, e), '\t') =~= seq![a, b, c, d, e]);
}

/// A tab does not bring a newline with it.
proof fn lemma_no_newline(a: Seq<char>, b: Seq<char>)
    requires
        !a.contains('\n'),
        !b.contains('\n'),
    ensures
        !(a.push('\t') + b).contains('\n'),
{
    let s = a.push('\t') + b;
    assert forall|i: int| 0 <= i < s.len() implies s[i] != '\n' by {
        if i < a.len() {
            assert(a.contains(s[i]));
        } else if i > a.len() {
            assert(b.contains(s[i]));
        }
    }
}

proof fn lemma_flag(b: bool)
    ensures
        flag(b).len() == 1,
        flag(b)[0] == '0' || flag(b)[0] == '1',
        flag(b) == seq!['1'] <==> b,
        !flag(b).contains('\t'),
        !flag(b).contains('\n'),
{
    reveal_strlit("1");
    reveal_strlit("0");
    assert("1"@ =~= seq!['1']);
    assert("0"@[0] == '0');
}

/// The row of an entry whose label fits is one line of five fields, and tells of that entry.
proof fn lemma_row_is_read_back(it: MenuItem, rest: Seq<char>)
    requires
        fits_a_field(it),
    ensures
        ({
            let row = flat_row(it).drop_last();
            &&& lines(flat_row(it) + rest) == seq![row] + lines(rest)
            &&& entry_of(row) == Some(shown(it))
        }),
{
    let id = signed_decimal(it.id as int);
    let label = text_or_empty(it.label);
    let enabled = flag(it.enabled);
    let below = flag(it.submenu@.len() > 0);
    let separator = flag(it.is_separator());
    let row = fields(id, label, enabled, below, separator);
    assert(flat_row(it) == row.push('\n')) by {
        reveal_strlit("\t");
        reveal_strlit("\n");
        assert("\t"@ =~= seq!['\t']);
        assert("\n"@ =~= seq!['\n']);
        lemma_fields_joined(id, label, enabled, below, separator);
    }
    assert(flat_row(it).drop_last() =~= row);
    lemma_signed_decimal_is_word(it.id as int);
    lemma_flag(it.enabled);
    lemma_flag(it.submenu@.len() > 0);
    lemma_flag(it.is_separator());
    assert(lines(flat_row(it) + rest) == seq![row] + lines(rest)) by {
        let r3 = below.push('\t') + separator;
        let r2 = enabled.push('\t') + r3;
        let r1 = label.push('\t') + r2;
        lemma_no_newline(below, separator);
        lemma_no_newline(enabled, r3);
        lemma_no_newline(label, r2);
        lemma_no_newline(id, r1);
        assert(r3.last() == separator[0] && r2.last() == r3.last() && r1.last() == r2.last()
            && row.last() == r1.last());
        lemma_lines_first(row, rest);
    }
    assert(entry_of(row) == Some(shown(it))) by {
        lemma_fields_split(id, label, enabled, below, separator);
        law_i32_written_is_read_back(it.id);
    }
}

proof fn lemma_entries_first(row: Seq<char>, rows: Seq<Seq<char>>)
    requires
        entry_of(row) is Some,
    ensures
        entries_of(seq![row] + rows) == seq![entry_of(row)->0] + entries_of(rows),
    decreases rows.len(),
{
    let all = seq![row] + rows;
    if rows.len() == 0 {
        assert(all =~= seq![row]);
        assert(all.drop_last() =~= Seq::<Seq<char>>::empty());
        assert(entries_of(Seq::<Seq<char>>::empty()) =~= Seq::<Entry>::empty());
        assert(entries_of(all) =~= seq![entry_of(row)->0] + entries_of(rows));
    } else {
        lemma_entries_first(row, rows.drop_last());
        assert(all.drop_last() =~= seq![row] + rows.drop_last());
        assert(all.last() == rows.last());
        assert(entries_of(all) =~= seq![entry_of(row)->0] + entries_of(rows));
    }
}

/// The popup shows the menu that the daemon holds: the rows that the daemon sends of a list
/// of entries are read back as its visible entries, in order, where no visible entry's label
/// holds a tab or a newline.
pub proof fn law_popup_reads_back_the_menu(items: Seq<MenuItem>)
    requires
        forall|i: int|
            0 <= i < items.len() && (#[trigger] items[i]).visible ==> fits_a_field(items[i]),
    ensures
        entries_of(lines(flat_rows(items))) == shown_entries(items),
    decreases items.len(),
{
    if items.len() == 0 {
        assert(lines(Seq::<char>::empty()) =~= Seq::<Seq<char>>::empty());
    } else {
        let rest = items.drop_first();
        assert forall|i: int| 0 <= i < rest.len() && (#[trigger] rest[i]).visible implies fits_a_field(
            rest[i],
        ) by {
            assert(rest[i] == items[i + 1]);
        }
        law_popup_reads_back_the_menu(rest);
        if items[0].visible {
            lemma_row_is_read_back(items[0], flat_rows(rest));
            lemma_entries_first(flat_row(items[0]).drop_last(), lines(flat_rows(rest)));
        }
    }
}

/// The popup shows what the daemon holds: the answer to what it fetches is read back as the
/// visible entries below the entry that it names, where no label of theirs holds a tab or a
/// newline.
pub proof fn law_popup_shows_the_trays_menu(
    registry: Registry,
    address: Seq<char>,
    parent_menu_id: i32,
    result: Result<Reply, LineError>,
)
    requires
        registry.valid(),
        registry.trays.contains_key(address),
        registry.trays[address].menu is Some,
        ({
            let items = pool(registry.trays[address].menu->0, parent_menu_id);
            forall|i: int|
                0 <= i < items.len() && (#[trigger] items[i]).visible ==> fits_a_field(items[i])
        }),
        handled(
            registry,
            encode_utf8(fetch_text(registry.trays[address].id, parent_menu_id) + "\n"@),
            result,
        ),
    ensures
        result matches Ok(Reply::Text(text)) && entries_of(lines(text@)) == shown_entries(
            pool(registry.trays[address].menu->0, parent_menu_id),
        ),
{
    law_daemon_reads_what_the_popup_fetches(registry.trays[address].id, parent_menu_id);
    registry.lemma_with_id(address);
    law_popup_reads_back_the_menu(pool(registry.trays[address].menu->0, parent_menu_id));
}

/// A command that names no tray by number reaches no tray and shows no menu.
pub proof fn law_unreadable_id_reaches_nobody(
    registry: Registry,
    line: Seq<Seq<char>>,
    reply: Reply,
)
    requires
        registry.valid(),
        line.len() < 2 || u32_from(line[1]) is None,
        answers(registry, request_of(line), reply),
    ensures
        reply is Nothing || reply matches Reply::Menu(None) || request_of(line) is List,
{
    law_no_tray_has_id_zero(registry);
}

/// A click in the popup reaches the tray that the popup was opened for: the request goes to
/// its address and its menu, and names the entry that was clicked.
pub proof fn law_click_reaches_the_tray(
    registry: Registry,
    address: Seq<char>,
    id: i32,
    result: Result<Reply, LineError>,
)
    requires
        registry.valid(),
        registry.trays.contains_key(address),
        registry.trays[address].menu_path is Some,
        handled(
            registry,
            encode_utf8(click_text(registry.trays[address].id, id) + "\n"@),
            result,
        ),
    ensures
        result matches Ok(
            Reply::Activate(ActivateRequest::MenuItem { address: to, menu_path, submenu_id }),
        ) && to@ == address && Some(menu_path@) == registry.trays[address].menu_path && submenu_id
            == id,
{
    law_daemon_reads_what_the_popup_clicks(registry.trays[address].id, id);
    registry.lemma_with_id(address);
}

/// Whether the texts of a tray fit into one field each of a row.
pub open spec fn fits_a_row(t: Tray) -> bool {
    &&& !t.title.contains('\t') && !t.title.contains('\n')
    &&& !icon_text(t.icon_path).contains('\t') && !icon_text(t.icon_path).contains('\n')
}

/// The row of a tray without its newline.
pub open spec fn tray_line(t: Tray) -> Seq<char> {
    tray_row(t).drop_last()
}

proof fn lemma_tray_row(t: Tray, rest: Seq<char>)
    requires
        fits_a_row(t),
    ensures
        lines(tray_row(t) + rest) == seq![tray_line(t)] + lines(rest),
        split(tray_line(t), '\t') == seq![
            decimal(t.id as nat),
            t.title,
            icon_text(t.icon_path),
            flag(t.menu is Some),
        ],
        !blank(tray_line(t)),
{
    let id = decimal(t.id as nat);
    let title = t.title;
    let icon = icon_text(t.icon_path);
    let menu = flag(t.menu is Some);
    let r2 = icon.push('\t') + menu;
    let r1 = title.push('\t') + r2;
    let line = id.push('\t') + r1;
    assert(tray_row(t) == line.push('\n')) by {
        reveal_strlit("\t");
        reveal_strlit("\n");
        let tab = seq!['\t'];
        assert("\t"@ =~= tab);
        assert("\n"@ =~= seq!['\n']);
        let front = id + tab + title;
        assert(front + tab + icon + tab + menu =~= front + tab + r2);
        assert(front + tab + r2 =~= id + tab + r1);
        assert(id + tab + r1 =~= line);
        assert(line + seq!['\n'] =~= line.push('\n'));
    }
    assert(tray_line(t) =~= line);
    lemma_signed_decimal_is_word(t.id as int);
    lemma_flag(t.menu is Some);
    lemma_no_newline(icon, menu);
    lemma_no_newline(title, r2);
    lemma_no_newline(id, r1);
    assert(r2.last() == menu[0] && r1.last() == r2.last() && line.last() == r1.last());
    lemma_lines_first(line, rest);
    lemma_split_last(menu, '\t');
    lemma_split_first(icon, '\t', menu);
    assert(split(r2, '\t') =~= seq![icon, menu]);
    lemma_split_first(title, '\t', r2);
    assert(split(r1, '\t') =~= seq![title, icon, menu]);
    lemma_split_first(id, '\t', r1);
    assert(split(line, '\t') =~= seq![id, title, icon, menu]);
    lemma_decimal(t.id as nat);
    assert(is_digit(line[0])) by {
        assert(line[0] == id[0]);
    }
    assert(!is_space(line[0]));
}

/// The list has one line for each tray, in order, and its four fields are the tray's id, its
/// title, its icon's path and whether it has a menu, where no title or path holds a tab or a
/// newline. A reader that counts the lines that hold something counts the trays.
pub proof fn law_list_has_one_line_per_tray(row: Seq<Tray>)
    requires
        forall|i: int| 0 <= i < row.len() ==> fits_a_row(#[trigger] row[i]),
    ensures
        lines(tray_rows(row)) == Seq::new(row.len(), |i: int| tray_line(row[i])),
        forall|i: int|
            0 <= i < row.len() ==> split(#[trigger] lines(tray_rows(row))[i], '\t') == seq![
                decimal(row[i].id as nat),
                row[i].title,
                icon_text(row[i].icon_path),
                flag(row[i].menu is Some),
            ],
        filled(lines(tray_rows(row))) == row.len(),
    decreases row.len(),
{
    let all = Seq::new(row.len(), |i: int| tray_line(row[i]));
    if row.len() == 0 {
        assert(lines(Seq::<char>::empty()) =~= all);
    } else {
        let rest = row.drop_first();
        assert forall|i: int| 0 <= i < rest.len() implies fits_a_row(#[trigger] rest[i]) by {
            assert(rest[i] == row[i + 1]);
        }
        law_list_has_one_line_per_tray(rest);
        lemma_tray_row(row[0], tray_rows(rest));
        assert(lines(tray_rows(row)) =~= all);
    }
    assert forall|i: int| 0 <= i < row.len() implies split(
        #[trigger] lines(tray_rows(row))[i],
        '\t',
    ) == seq![
        decimal(row[i].id as nat),
        row[i].title,
        icon_text(row[i].icon_path),
        flag(row[i].menu is Some),
    ] by {
        lemma_tray_row(row[i], Seq::empty());
    }
    assert forall|i: int| 0 <= i < all.len() implies !blank(#[trigger] all[i]) by {
        lemma_tray_row(row[i], Seq::empty());
    }
    lemma_all_filled(all);
}

proof fn lemma_all_filled(rows: Seq<Seq<char>>)
    requires
        forall|i: int| 0 <= i < rows.len() ==> !blank(#[trigger] rows[i]),
    ensures
        filled(rows) == rows.len(),
    decreases rows.len(),
{
    if rows.len() > 0 {
        let front = rows.drop_last();
        assert forall|i: int| 0 <= i < front.len() implies !blank(#[trigger] front[i]) by {
            assert(front[i] == rows[i]);
        }
        lemma_all_filled(front);
        assert(!blank(rows[rows.len() - 1]));
    }
}

/// `activate` and a tray's id reach that tray's application, whatever else is known of the tray:
/// the request goes to its address, as a click at no place in particular.
pub proof fn law_activation_reaches_the_tray(
    registry: Registry,
    address: Seq<char>,
    result: Result<Reply, LineError>,
)
    requires
        registry.valid(),
        registry.trays.contains_key(address),
        handled(
            registry,
            encode_utf8("activate "@ + decimal(registry.trays[address].id as nat) + "\n"@),
            result,
        ),
    ensures
        result matches Ok(Reply::Activate(ActivateRequest::Default { address: to, x, y })) && to@
            == address && x == 0 && y == 0,
{
    let id = registry.trays[address].id;
    lemma_command_names();
    lemma_commands_differ();
    reveal_strlit("activate ");
    reveal_strlit("activate");
    reveal_strlit(" ");
    assert("activate "@ =~= "activate"@ + " "@);
    lemma_command_is_read("activate"@, id, None);
    registry.lemma_with_id(address);
}

/// `secondary` and a tray's id reach that tray's application in the same way, as a click with
/// the other button.
pub proof fn law_secondary_activation_reaches_the_tray(
    registry: Registry,
    address: Seq<char>,
    result: Result<Reply, LineError>,
)
    requires
        registry.valid(),
        registry.trays.contains_key(address),
        handled(
            registry,
            encode_utf8("secondary "@ + decimal(registry.trays[address].id as nat) + "\n"@),
            result,
        ),
    ensures
        result matches Ok(Reply::Activate(ActivateRequest::Secondary { address: to, x, y })) && to@
            == address && x == 0 && y == 0,
{
    let id = registry.trays[address].id;
    lemma_command_names();
    lemma_commands_differ();
    reveal_strlit("secondary ");
    reveal_strlit("secondary");
    reveal_strlit(" ");
    assert("secondary "@ =~= "secondary"@ + " "@);
    lemma_command_is_read("secondary"@, id, None);
    registry.lemma_with_id(address);
}

/// `menu` and a tray's id are answered by the menu that the tray has, every top entry of it in
/// its place; by none where it has none.
pub proof fn law_menu_of_the_tray_is_served(
    registry: Registry,
    address: Seq<char>,
    result: Result<Reply, LineError>,
)
    requires
        registry.valid(),
        registry.trays.contains_key(address),
        handled(
            registry,
            encode_utf8("menu "@ + decimal(registry.trays[address].id as nat) + "\n"@),
            result,
        ),
    ensures
        registry.trays[address].menu is None ==> (result matches Ok(Reply::Menu(None))),
        registry.trays[address].menu matches Some(menu) ==> {
            &&& result matches Ok(Reply::Menu(Some(items)))
            &&& items@.len() == menu.submenus@.len()
            &&& forall|i: int|
                0 <= i < items@.len() ==> shows(#[trigger] items@[i], menu.submenus@[i])
        },
{
    let id = registry.trays[address].id;
    lemma_command_names();
    lemma_commands_differ();
    reveal_strlit("menu ");
    reveal_strlit("menu");
    reveal_strlit(" ");
    assert("menu "@ =~= "menu"@ + " "@);
    lemma_command_is_read("menu"@, id, None);
    registry.lemma_with_id(address);
}

/// `menu-flat`, a tray's id and the id of an entry are answered by the rows of the visible
/// entries below that entry of the tray's menu, 0 standing for the top; by nothing where the
/// tray has no menu.
pub proof fn law_flat_menu_of_the_tray_is_served(
    registry: Registry,
    address: Seq<char>,
    parent: i32,
    result: Result<Reply, LineError>,
)
    requires
        registry.valid(),
        registry.trays.contains_key(address),
        handled(
            registry,
            encode_utf8(
                "menu-flat "@ + decimal(registry.trays[address].id as nat) + " "@ + signed_decimal(
                    parent as int,
                ) + "\n"@,
            ),
            result,
        ),
    ensures
        registry.trays[address].menu is None ==> (result matches Ok(Reply::Nothing)),
        registry.trays[address].menu matches Some(menu) ==> {
            &&& result matches Ok(Reply::Text(text))
            &&& text@ == flat_rows(pool(menu, parent))
        },
{
    let id = registry.trays[address].id;
    lemma_command_names();
    lemma_commands_differ();
    reveal_strlit("menu-flat ");
    reveal_strlit("menu-flat");
    reveal_strlit(" ");
    assert("menu-flat "@ =~= "menu-flat"@ + " "@);
    lemma_command_is_read("menu-flat"@, id, Some(parent));
    registry.lemma_with_id(address);
}

/// `list` is answered by the rows of all trays that are known, in order.
pub proof fn law_all_trays_are_listed(
    registry: Registry,
    row: Seq<Tray>,
    result: Result<Reply, LineError>,
)
    requires
        handled(registry, encode_utf8("list\n"@), result),
    ensures
        is_listing(registry.trays, listing(registry.trays)),
        is_listing(registry.trays, row) ==> row == listing(registry.trays),
        result matches Ok(Reply::Text(text)) && text@ == tray_rows(listing(registry.trays)),
{
    lemma_command_names();
    reveal_strlit("list");
    reveal_strlit("\n");
    reveal_strlit("list\n");
    assert("list\n"@ =~= "list"@ + "\n"@);
    assert(!"list"@.contains('\n'));
    law_daemon_reads_a_line("list"@);
    lemma_word_alone("list"@);
    if is_listing(registry.trays, row) {
        law_listing_is_unique(registry.trays, row);
    }
}

/// A line may go without its newline where nothing follows it.
pub proof fn law_newline_may_be_missing(line: Seq<u8>)
    requires
        !line.contains(0x0a),
    ensures
        request_in(line) == request_in(line.push(0x0a)),
{
    lemma_first_line(line, Seq::empty());
    assert(line.push(0x0a) + Seq::<u8>::empty() =~= line.push(0x0a));
    assert forall|i: int| 0 <= i < line.len() implies line[i] != 0x0a by {
        assert(line.contains(line[i]));
    }
    lemma_until(line, 0x0a, line.len());
    assert(first_line(line) =~= line);
}

/// A first line that is no text is refused, whatever follows it.
pub proof fn law_only_text_is_a_command(
    registry: Registry,
    line: Seq<u8>,
    rest: Seq<u8>,
    result: Result<Reply, LineError>,
)
    requires
        !line.contains(0x0a),
        handled(registry, line.push(0x0a) + rest, result),
    ensures
        result is Err <==> !valid_utf8(line),
{
    lemma_first_line(line, rest);
}

/// A line is answered as the command that its words make, whichever that is.
pub proof fn law_lines_are_answered(
    registry: Registry,
    line: Seq<char>,
    result: Result<Reply, LineError>,
)
    requires
        !line.contains('\n'),
        handled(registry, encode_utf8(line + "\n"@), result),
    ensures
        result matches Ok(reply) && answers(registry, request_of(words(line)), reply),
{
    law_daemon_reads_a_line(line);
}

} // verus!
