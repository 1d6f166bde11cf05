//! The list of trays that a bar shows.

use vstd::prelude::*;
use vstd::utf8::{decode_utf8, valid_utf8};

use crate::menu::text_or_empty;
use crate::number::{decimal, push_decimal};
use crate::registry::{
    by_address, lemma_by_address, Registry, State, StatusNotifierItem, Tray, TrayState,
};
use crate::text::chars_of;

verus! {

/// Whether a text comes before another: by the first character in which they differ, a
/// text before those that go on where it ends.
pub open spec fn text_before(a: Seq<char>, b: Seq<char>) -> bool
    decreases b.len(),
{
    if b.len() == 0 {
        false
    } else if a.len() == 0 {
        true
    } else {
        a[0] < b[0] || (a[0] == b[0] && text_before(a.drop_first(), b.drop_first()))
    }
}

/// Whether a tray is listed before another: by title, and by id where the titles are the same.
pub open spec fn tray_before(a: Tray, b: Tray) -> bool {
    text_before(a.title, b.title) || (a.title == b.title && a.id < b.id)
}

/// Of two texts that differ, one comes before the other, and not the other way round.
pub proof fn lemma_text_order(a: Seq<char>, b: Seq<char>)
    ensures
        a == b ==> !text_before(a, b),
        !(text_before(a, b) && text_before(b, a)),
        a != b ==> text_before(a, b) || text_before(b, a),
    decreases a.len(),
{
    if a.len() > 0 && b.len() > 0 {
        lemma_text_order(a.drop_first(), b.drop_first());
        if a[0] == b[0] && a.drop_first() == b.drop_first() {
            assert(a =~= seq![a[0]] + a.drop_first());
            assert(b =~= seq![b[0]] + b.drop_first());
        }
    } else if a.len() == 0 && b.len() == 0 {
        assert(a =~= b);
    }
}

/// What comes before a text comes before all that the text comes before.
pub proof fn lemma_text_order_chain(a: Seq<char>, b: Seq<char>, c: Seq<char>)
    requires
        text_before(a, b),
        text_before(b, c),
    ensures
        text_before(a, c),
    decreases a.len(),
{
    if a.len() > 0 && a[0] == b[0] && b[0] == c[0] {
        lemma_text_order_chain(a.drop_first(), b.drop_first(), c.drop_first());
    }
}

/// Of two trays with ids of their own, one is listed before the other.
pub proof fn lemma_tray_order(a: Tray, b: Tray)
    ensures
        a == b ==> !tray_before(a, b),
        !(tray_before(a, b) && tray_before(b, a)),
        a.id != b.id ==> tray_before(a, b) || tray_before(b, a),
{
    lemma_text_order(a.title, b.title);
}

/// What is listed before a tray is listed before all that the tray is listed before.
pub proof fn lemma_tray_order_chain(a: Tray, b: Tray, c: Tray)
    requires
        tray_before(a, b),
        tray_before(b, c),
    ensures
        tray_before(a, c),
{
    if text_before(a.title, b.title) && text_before(b.title, c.title) {
        lemma_text_order_chain(a.title, b.title, c.title);
    }
}

/// Whether a text comes before another.
fn is_text_before(a: &String, b: &String) -> (r: bool)
    ensures
        r == text_before(a@, b@),
{
    let x = chars_of(a.as_str());
    let y = chars_of(b.as_str());
    let mut i: usize = 0;
    assert(x@.skip(0) =~= x@ && y@.skip(0) =~= y@);
    while i < x.len() && i < y.len() && x[i] == y[i]
        invariant
            i <= x@.len(),
            i <= y@.len(),
            text_before(x@, y@) == text_before(x@.skip(i as int), y@.skip(i as int)),
        decreases x.len() - i,
    {
        assert(x@.skip(i as int).drop_first() =~= x@.skip(i + 1));
        assert(y@.skip(i as int).drop_first() =~= y@.skip(i + 1));
        i += 1;
    }
    i < y.len() && (i == x.len() || x[i] < y[i])
}

/// Whether a tray is listed before another.
fn is_tray_before(a: &TrayState, b: &TrayState) -> (r: bool)
    ensures
        r == tray_before((*a)@, (*b)@),
{
    is_text_before(&a.title, &b.title) || (a.title == b.title && a.id < b.id)
}

/// Whether every tray of a row is listed before those behind it.
pub open spec fn in_order(row: Seq<Tray>) -> bool {
    forall|i: int, j: int|
        #![trigger row[i], row[j]]
        0 <= i < j < row.len() ==> tray_before(row[i], row[j])
}

/// Whether a row holds all trays, each of them once, in order.
pub open spec fn is_listing(trays: Map<Seq<char>, Tray>, row: Seq<Tray>) -> bool {
    &&& in_order(row)
    &&& forall|i: int|
        0 <= i < row.len() ==> {
            &&& trays.contains_key((#[trigger] row[i]).address)
            &&& trays[row[i].address] == row[i]
        }
    &&& forall|a: Seq<char>| #[trigger] trays.contains_key(a) ==> row.contains(trays[a])
}

/// All trays, in order.
pub open spec fn listing(trays: Map<Seq<char>, Tray>) -> Seq<Tray> {
    choose|row: Seq<Tray>| is_listing(trays, row)
}

/// Two rows in order that hold the same trays are the same row.
proof fn lemma_one_order(s: Seq<Tray>, t: Seq<Tray>)
    requires
        in_order(s),
        in_order(t),
        forall|x: Tray|
            #![trigger s.contains(x)]
            #![trigger t.contains(x)]
            s.contains(x) <==> t.contains(x),
    ensures
        s == t,
    decreases s.len(),
{
    if s.len() == 0 {
        if t.len() > 0 {
            assert(t.contains(t[0]));
        }
        assert(s =~= t);
    } else {
        assert(s.contains(s[0]));
        let k = choose|k: int| 0 <= k < t.len() && t[k] == s[0];
        assert(t.contains(t[0]));
        let j = choose|j: int| 0 <= j < s.len() && s[j] == t[0];
        lemma_tray_order(s[0], t[0]);
        assert(s[0] == t[0]);
        let s1 = s.drop_first();
        let t1 = t.drop_first();
        assert forall|x: Tray| #[trigger] s1.contains(x) <==> t1.contains(x) by {
            lemma_tray_order(s[0], x);
            if s1.contains(x) {
                let i = choose|i: int| 0 <= i < s1.len() && s1[i] == x;
                assert(s[i + 1] == x);
                assert(tray_before(s[0], s[i + 1]));
                assert(s.contains(x));
                let m = choose|m: int| 0 <= m < t.len() && t[m] == x;
                assert(m > 0);
                assert(t1[m - 1] == x);
            }
            if t1.contains(x) {
                let i = choose|i: int| 0 <= i < t1.len() && t1[i] == x;
                assert(t[i + 1] == x);
                assert(tray_before(t[0], t[i + 1]));
                assert(t.contains(x));
                let m = choose|m: int| 0 <= m < s.len() && s[m] == x;
                assert(m > 0);
                assert(s1[m - 1] == x);
            }
        }
        assert forall|a: int, b: int|
            #![trigger s1[a], s1[b]]
            0 <= a < b < s1.len() implies tray_before(s1[a], s1[b]) by {
            assert(s1[a] == s[a + 1] && s1[b] == s[b + 1]);
        }
        assert forall|a: int, b: int|
            #![trigger t1[a], t1[b]]
            0 <= a < b < t1.len() implies tray_before(t1[a], t1[b]) by {
            assert(t1[a] == t[a + 1] && t1[b] == t[b + 1]);
        }
        lemma_one_order(s1, t1);
        assert(s =~= seq![s[0]] + s1);
        assert(t =~= seq![t[0]] + t1);
    }
}

/// There is one listing of some trays only.
pub proof fn law_listing_is_unique(trays: Map<Seq<char>, Tray>, row: Seq<Tray>)
    requires
        is_listing(trays, row),
    ensures
        listing(trays) == row,
{
    let chosen = listing(trays);
    assert(is_listing(trays, chosen));
    assert forall|x: Tray| #[trigger] chosen.contains(x) <==> row.contains(x) by {
        if chosen.contains(x) {
            let i = choose|i: int| 0 <= i < chosen.len() && chosen[i] == x;
            assert(trays.contains_key(chosen[i].address));
        }
        if row.contains(x) {
            let i = choose|i: int| 0 <= i < row.len() && row[i] == x;
            assert(trays.contains_key(row[i].address));
        }
    }
    lemma_one_order(chosen, row);
}

/// The text of bytes, what is no UTF-8 among them shown as replacement characters.
pub uninterp spec fn lossy_text(bytes: Seq<u8>) -> Seq<char>;

/// `String::from_utf8_lossy` gives the text of bytes. Bytes that are valid UTF-8 stand for
/// their characters; how many replacement characters stand for others is left unsaid.
#[verifier::external_body]
fn text_lossy(bytes: &[u8]) -> (r: String)
    ensures
        r@ == lossy_text(bytes@),
        valid_utf8(bytes@) ==> r@ == decode_utf8(bytes@),
{
    String::from_utf8_lossy(bytes).into_owned()
}

/// The path of an icon in text: as it is where it is UTF-8, with replacement characters
/// otherwise.
pub open spec fn icon_text(path: Seq<u8>) -> Seq<char> {
    if valid_utf8(path) {
        decode_utf8(path)
    } else {
        lossy_text(path)
    }
}

/// The row of a tray: its id, its title, its icon's path and whether it has a menu, with tabs
/// between them.
pub open spec fn tray_row(t: Tray) -> Seq<char> {
    decimal(t.id as nat) + "\t"@ + t.title + "\t"@ + icon_text(t.icon_path) + "\t"@ + (
    if t.menu is Some {
        "1"@
    } else {
        "0"@
    }) + "\n"@
}

/// The rows of trays, one after another.
pub open spec fn tray_rows(row: Seq<Tray>) -> Seq<char>
    decreases row.len(),
{
    if row.len() == 0 {
        Seq::empty()
    } else {
        tray_row(row[0]) + tray_rows(row.drop_first())
    }
}

/// The row of a tray.
fn tray_row_text(t: &TrayState) -> (r: String)
    ensures
        r@ == tray_row((*t)@),
{
    let mut row = String::new();
    push_decimal(&mut row, t.id as u64);
    assert(row@ =~= decimal(t.id as nat));
    row.append("\t");
    row.append(t.title.as_str());
    row.append("\t");
    row.append(text_lossy(t.icon_path.as_slice()).as_str());
    row.append("\t");
    row.append(
        if t.menu.is_some() {
            "1"
        } else {
            "0"
        },
    );
    row.append("\n");
    row
}

/// The trays at some positions of a list.
spec fn picked(entries: Seq<TrayState>, at: Seq<usize>) -> Seq<Tray> {
    Seq::new(at.len(), |i: int| entries[at[i] as int]@)
}

/// The positions of the trays of a list, in the order in which they are listed.
fn sorted(entries: &Vec<TrayState>) -> (r: Vec<usize>)
    requires
        forall|i: int, j: int|
            #![trigger entries@[i], entries@[j]]
            0 <= i < entries@.len() && 0 <= j < entries@.len() && entries@[i].id
                == entries@[j].id ==> i == j,
    ensures
        in_order(picked(entries@, r@)),
        forall|i: int| 0 <= i < r@.len() ==> 0 <= #[trigger] r@[i] < entries@.len(),
        forall|k: usize| 0 <= k < entries@.len() ==> #[trigger] r@.contains(k),
{
    let mut order: Vec<usize> = Vec::new();
    let mut n: usize = 0;
    while n < entries.len()
        invariant
            n <= entries@.len(),
            forall|i: int, j: int|
                #![trigger entries@[i], entries@[j]]
                0 <= i < entries@.len() && 0 <= j < entries@.len() && entries@[i].id
                    == entries@[j].id ==> i == j,
            in_order(picked(entries@, order@)),
            forall|i: int| 0 <= i < order@.len() ==> 0 <= #[trigger] order@[i] < n,
            forall|k: usize| 0 <= k < n ==> #[trigger] order@.contains(k),
        decreases entries.len() - n,
    {
        let ghost before = order@;
        let ghost row = picked(entries@, before);
        let mut at: usize = 0;
        while at < order.len() && is_tray_before(&entries[order[at]], &entries[n])
            invariant
                n < entries@.len(),
                order@ == before,
                row == picked(entries@, before),
                at <= order@.len(),
                forall|i: int| 0 <= i < order@.len() ==> 0 <= #[trigger] order@[i] < n,
                forall|i: int|
                    0 <= i < at ==> tray_before(#[trigger] row[i], entries@[n as int]@),
            decreases order.len() - at,
        {
            assert(row[at as int] == entries@[order@[at as int] as int]@);
            at += 1;
        }
        order.insert(at, n);
        proof {
            let t = entries@[n as int]@;
            let after = picked(entries@, order@);
            assert forall|i: int| at <= i < row.len() implies tray_before(t, #[trigger] row[i]) by {
                let first = row[at as int];
                assert(first == entries@[before[at as int] as int]@);
                lemma_tray_order(first, t);
                if i > at {
                    lemma_tray_order_chain(t, first, row[i]);
                }
            }
            assert forall|i: int| 0 <= i < after.len() implies #[trigger] after[i] == (if i < at {
                row[i]
            } else if i == at {
                t
            } else {
                row[i - 1]
            }) by {
                assert(order@[i] == (if i < at {
                    before[i]
                } else if i == at {
                    n
                } else {
                    before[i - 1]
                }));
            }
            assert forall|i: int, j: int|
                #![trigger after[i], after[j]]
                0 <= i < j < after.len() implies tray_before(after[i], after[j]) by {}
            assert forall|k: usize| 0 <= k < n + 1 implies #[trigger] order@.contains(k) by {
                if k == n {
                    assert(order@[at as int] == n);
                } else {
                    assert(before.contains(k));
                    let i = choose|i: int| 0 <= i < before.len() && before[i] == k;
                    if i < at {
                        assert(order@[i] == k);
                    } else {
                        assert(order@[i + 1] == k);
                    }
                }
            }
        }
        n += 1;
    }
    order
}

impl State {
    /// The rows of all trays, in order.
    pub fn list(&self) -> (r: String)
        requires
            self.wf(),
        ensures
            r@ == tray_rows(listing(self@.trays)),
            is_listing(self@.trays, listing(self@.trays)),
    {
        let entries = self.entries();
        let count: usize = entries.len();
        let order = sorted(entries);
        let ghost row = picked(entries@, order@);
        let mut out = String::new();
        let mut i: usize = 0;
        assert(row.skip(0) =~= row);
        assert(out@ + tray_rows(row) =~= tray_rows(row));
        while i < order.len()
            invariant
                i <= order@.len(),
                row == picked(entries@, order@),
                forall|j: int| 0 <= j < order@.len() ==> 0 <= #[trigger] order@[j] < entries@.len(),
                out@ + tray_rows(row.skip(i as int)) == tray_rows(row),
            decreases order.len() - i,
        {
            let ghost before = out@;
            let ghost rest = row.skip(i as int);
            out.append(tray_row_text(&entries[order[i]]).as_str());
            i += 1;
            assert(rest.drop_first() =~= row.skip(i as int));
            assert(before + tray_rows(rest) =~= out@ + tray_rows(row.skip(i as int)));
        }
        proof {
            assert(row.skip(i as int) =~= Seq::<Tray>::empty());
            assert(out@ + Seq::<char>::empty() =~= out@);
            assert forall|j: int| 0 <= j < row.len() implies {
                &&& self@.trays.contains_key((#[trigger] row[j]).address)
                &&& self@.trays[row[j].address] == row[j]
            } by {
                assert(0 <= order@[j] < entries@.len());
                lemma_by_address(entries@, order@[j] as int);
            }
            assert forall|a: Seq<char>| #[trigger] self@.trays.contains_key(a) implies row.contains(
                self@.trays[a],
            ) by {
                assert(by_address(entries@).contains_key(a));
                let k = choose|k: int|
                    0 <= k < entries@.len() && #[trigger] entries@[k].address@ == a;
                lemma_by_address(entries@, k);
                assert(k < count);
                assert(order@.contains(k as usize));
                let j = choose|j: int| 0 <= j < order@.len() && order@[j] == k as usize;
                assert(row[j] == entries@[k]@);
            }
            law_listing_is_unique(self@.trays, row);
        }
        out
    }
}

/// The titles of a row of trays.
pub open spec fn titles(row: Seq<Tray>) -> Seq<Seq<char>> {
    Seq::new(row.len(), |i: int| row[i].title)
}

/// The last position of a row with the title of the tray at `k`.
proof fn lemma_last_alike(row: Seq<Tray>, k: int, upto: int) -> (m: int)
    requires
        0 <= k < upto <= row.len(),
    ensures
        k <= m < upto,
        row[m].title == row[k].title,
        forall|j: int| m < j < upto ==> (#[trigger] row[j]).title != row[k].title,
    decreases upto - k,
{
    if row[upto - 1].title == row[k].title {
        upto - 1
    } else {
        lemma_last_alike(row, k, upto - 1)
    }
}

/// The order survives closing and reopening: once an application has gone and come back
/// under the same title, the list shows the same titles in the same order. Where no other
/// tray has that title, nothing but that tray's own row has changed.
pub proof fn law_order_survives_reopening(
    registry: Registry,
    address: Seq<char>,
    item: StatusNotifierItem,
    before: Seq<Tray>,
    after: Seq<Tray>,
)
    requires
        registry.valid(),
        registry.next_id < u32::MAX,
        registry.trays.contains_key(address),
        text_or_empty(item.title) == registry.trays[address].title,
        is_listing(registry.trays, before),
        is_listing(registry.removed(address).upserted(address, item).trays, after),
    ensures
        titles(after) == titles(before),
        forall|k: int|
            #![trigger before[k]]
            0 <= k < before.len() && before[k].address == address && (forall|j: int|
                0 <= j < before.len() && (#[trigger] before[j]).title == before[k].title ==> j == k)
                ==> after == before.update(k, after[k]),
{
    let old_tray = registry.trays[address];
    let reopened = registry.removed(address).upserted(address, item);
    let new_tray = reopened.trays[address];
    assert(before.contains(old_tray));
    let k = choose|k: int| 0 <= k < before.len() && before[k] == old_tray;
    let m = lemma_last_alike(before, k, before.len() as int);
    let moved = Seq::new(
        before.len(),
        |i: int|
            if i < k || i > m {
                before[i]
            } else if i < m {
                before[i + 1]
            } else {
                new_tray
            },
    );
    assert forall|i: int| k <= i <= m implies (#[trigger] before[i]).title == old_tray.title by {
        if k < i < m {
            assert(tray_before(before[k], before[i]));
            assert(tray_before(before[i], before[m]));
            lemma_text_order(before[k].title, before[i].title);
        }
    }
    assert forall|i: int, j: int|
        #![trigger moved[i], moved[j]]
        0 <= i < j < moved.len() implies tray_before(moved[i], moved[j]) by {
        if i == m {
            assert(tray_before(before[m], before[j]));
        } else if j == m {
            let from = if i < k {
                i
            } else {
                i + 1
            };
            assert(moved[i] == before[from]);
            assert(registry.trays.contains_key(before[from].address));
            if from != m {
                assert(tray_before(before[from], before[m]));
            }
        }
    }
    assert forall|i: int| 0 <= i < moved.len() implies {
        &&& reopened.trays.contains_key((#[trigger] moved[i]).address)
        &&& reopened.trays[moved[i].address] == moved[i]
    } by {
        if i != m {
            let from = if i < k || i > m {
                i
            } else {
                i + 1
            };
            assert(moved[i] == before[from]);
            assert(registry.trays.contains_key(before[from].address));
            if before[from].address == address {
                assert(before[from] == before[k]);
                lemma_tray_order(before[k], before[k]);
                assert(from != k);
                assert(false);
            }
        }
    }
    assert forall|a: Seq<char>| #[trigger] reopened.trays.contains_key(a) implies moved.contains(
        reopened.trays[a],
    ) by {
        if a == address {
            assert(moved[m] == new_tray);
        } else {
            assert(registry.trays.contains_key(a));
            assert(before.contains(registry.trays[a]));
            let from = choose|i: int| 0 <= i < before.len() && before[i] == registry.trays[a];
            assert(from != k);
            let to = if from < k || from > m {
                from
            } else {
                from - 1
            };
            assert(moved[to] == before[from]);
        }
    }
    law_listing_is_unique(reopened.trays, moved);
    law_listing_is_unique(reopened.trays, after);
    assert(titles(after) =~= titles(before));
    assert forall|n: int|
        #![trigger before[n]]
        0 <= n < before.len() && before[n].address == address && (forall|j: int|
            0 <= j < before.len() && (#[trigger] before[j]).title == before[n].title ==> j
                == n) implies after == before.update(n, after[n]) by {
        assert(registry.trays.contains_key(before[n].address));
        assert(before[n] == old_tray);
        assert(before[k].title == before[n].title);
        assert(before[m].title == before[n].title);
        assert(after =~= before.update(n, after[n]));
    }
}

/// Texts are ordered by the first character in which they differ; where one goes on where the
/// other ends, the shorter one comes first; and none comes before itself.
pub proof fn law_texts_are_ordered_by_characters(
    common: Seq<char>,
    c: char,
    a: Seq<char>,
    d: char,
    b: Seq<char>,
)
    ensures
        !text_before(common, common),
        text_before(common, common + seq![c] + a),
        !text_before(common + seq![c] + a, common),
        c != d ==> (text_before(common + seq![c] + a, common + seq![d] + b) <==> c < d),
    decreases common.len(),
{
    let x = common + seq![c] + a;
    let y = common + seq![d] + b;
    if common.len() == 0 {
        assert(x[0] == c && y[0] == d);
    } else {
        let rest = common.drop_first();
        law_texts_are_ordered_by_characters(rest, c, a, d, b);
        assert(x[0] == common[0] && y[0] == common[0]);
        assert(x.drop_first() =~= rest + seq![c] + a);
        assert(y.drop_first() =~= rest + seq![d] + b);
    }
}

/// Trays are listed by title, and those with one title by id.
pub proof fn law_trays_are_ordered_by_title_and_id(a: Tray, b: Tray)
    ensures
        a.title != b.title ==> (tray_before(a, b) <==> text_before(a.title, b.title)),
        a.title == b.title ==> (tray_before(a, b) <==> a.id < b.id),
{
    lemma_text_order(a.title, b.title);
}

/// A listing holds every tray that is known, and nothing else; of two trays the one that is
/// listed first has the lower title, or the same one and the lower id.
pub proof fn law_listing_holds_every_tray_in_order(
    trays: Map<Seq<char>, Tray>,
    row: Seq<Tray>,
    address: Seq<char>,
    i: int,
    j: int,
)
    requires
        is_listing(trays, row),
    ensures
        trays.contains_key(address) ==> row.contains(trays[address]),
        0 <= i < row.len() ==> trays.contains_key(row[i].address) && trays[row[i].address]
            == row[i],
        0 <= i < j < row.len() ==> text_before(row[i].title, row[j].title) || (row[i].title
            == row[j].title && row[i].id < row[j].id),
        0 <= i < j < row.len() ==> row[i].address != row[j].address,
{
    if 0 <= i < j < row.len() {
        assert(tray_before(row[i], row[j]));
        lemma_tray_order(row[i], row[j]);
    }
}

/// The row of a tray is its id, its title, its icon's path and whether its menu is there, with
/// tabs between them and a newline behind. A path that is text stands as it is, and where there
/// is no icon the field is empty.
pub proof fn law_row_of_a_tray(t: Tray)
    ensures
        tray_row(t) == decimal(t.id as nat) + seq!['\t'] + t.title + seq!['\t'] + icon_text(
            t.icon_path,
        ) + seq!['\t', if t.menu is Some {
            '1'
        } else {
            '0'
        }, '\n'],
        valid_utf8(t.icon_path) ==> icon_text(t.icon_path) == decode_utf8(t.icon_path),
        t.icon_path.len() == 0 ==> icon_text(t.icon_path).len() == 0,
{
    reveal_strlit("\t");
    reveal_strlit("\n");
    reveal_strlit("1");
    reveal_strlit("0");
    let front = decimal(t.id as nat) + seq!['\t'] + t.title + seq!['\t'] + icon_text(t.icon_path);
    assert("\t"@ =~= seq!['\t']);
    let flag = if t.menu is Some {
        "1"@
    } else {
        "0"@
    };
    assert(front + "\t"@ + flag + "\n"@ =~= front + seq!['\t', flag[0], '\n']);
}

/// The list is the rows of its trays, one behind another.
pub proof fn law_rows_follow_each_other(t: Tray, rest: Seq<Tray>)
    ensures
        tray_rows(Seq::<Tray>::empty()).len() == 0,
        tray_rows(seq![t] + rest) == tray_row(t) + tray_rows(rest),
{
    let row = seq![t] + rest;
    assert(row[0] == t);
    assert(row.drop_first() =~= rest);
}

} // verus!
