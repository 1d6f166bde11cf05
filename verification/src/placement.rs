//! Where the popup stands: beside the bar, at the height of the tray row.

use vstd::prelude::*;

use crate::text::{chars_of, is_space, lines, lines_of, texts, whitespace};

verus! {

pub const BAR_WIDTH: i32 = 150;

/// A 16 px icon with 4 px of padding on each side.
pub const TRAY_BUTTON_WIDTH: i32 = 24;

pub const TRAY_BUTTON_SPACING: i32 = 6;

pub const MENU_CURSOR_GAP: i32 = 8;

pub const TRAY_MENU_BOTTOM_MARGIN: i32 = 78;

pub const FALLBACK_MONITOR_HEIGHT: i32 = 1440;

pub const FALLBACK_MONITOR_WIDTH: i32 = 2304;

pub const MAX_EWWII_TRAY_SLOTS: i32 = 8;

pub open spec fn least(a: int, b: int) -> int {
    if a <= b {
        a
    } else {
        b
    }
}

pub open spec fn most(a: int, b: int) -> int {
    if a >= b {
        a
    } else {
        b
    }
}

/// The number from `low` to `high` that is nearest to `n`.
pub open spec fn within(n: int, low: int, high: int) -> int {
    least(most(n, low), high)
}

/// What is left of a number in the 32 bits of an `i32`.
pub open spec fn wrapped(n: int) -> int {
    (n + 0x8000_0000) % 0x1_0000_0000 - 0x8000_0000
}

/// Whether a line holds nothing but white space.
pub open spec fn blank(line: Seq<char>) -> bool {
    forall|i: int| 0 <= i < line.len() ==> is_space(#[trigger] line[i])
}

/// How many lines hold something.
pub open spec fn filled(rows: Seq<Seq<char>>) -> nat
    decreases rows.len(),
{
    if rows.len() == 0 {
        0
    } else {
        filled(rows.drop_last()) + (if blank(rows.last()) {
            0nat
        } else {
            1nat
        })
    }
}

/// Tells whether a line holds nothing but white space.
fn is_blank(line: &Vec<char>) -> (r: bool)
    ensures
        r == blank(line@),
{
    let mut i: usize = 0;
    while i < line.len()
        invariant
            i <= line@.len(),
            forall|j: int| 0 <= j < i ==> is_space(#[trigger] line@[j]),
        decreases line.len() - i,
    {
        if !whitespace(line[i]) {
            return false;
        }
        i += 1;
    }
    true
}

/// How many trays a list file names: the lines that hold something, none where there is no
/// file.
pub open spec fn listed_trays(list: Option<String>) -> nat {
    match list {
        Some(raw) => filled(lines(raw@)),
        None => 0,
    }
}

/// Counts the trays that a list file names.
fn count_trays(list: &Option<String>) -> (r: usize)
    ensures
        r == listed_trays(*list),
{
    match list {
        Some(raw) => {
            let rows = lines_of(&chars_of(raw.as_str()));
            let ghost all = texts(rows@);
            let mut count: usize = 0;
            let mut i: usize = 0;
            assert(filled(all.take(0)) == 0);
            while i < rows.len()
                invariant
                    count <= i <= rows@.len(),
                    all == texts(rows@),
                    count == filled(all.take(i as int)),
                decreases rows.len() - i,
            {
                assert(all[i as int] == rows@[i as int]@);
                assert(all.take(i + 1).drop_last() =~= all.take(i as int));
                if !is_blank(&rows[i]) {
                    count += 1;
                }
                i += 1;
            }
            assert(all.take(i as int) =~= all);
            count
        },
        None => 0,
    }
}

/// How many slots of the bar show a tray: as many as the list names or as the clicked slot
/// needs, at least one and at most those that the bar has. Both counts are taken as `i32`.
pub open spec fn slots_shown(list: Option<String>, slot: u32) -> int {
    within(
        most(wrapped(listed_trays(list) as int), wrapped(slot as int)),
        1,
        MAX_EWWII_TRAY_SLOTS as int,
    )
}

proof fn lemma_wrapped_u64(n: u64)
    ensures
        n as i32 == wrapped(n as int),
{
    assert((n as i32) == ((n + 0x8000_0000) % 0x1_0000_0000) - 0x8000_0000) by (bit_vector);
}

/// How many slots of the bar show a tray.
pub fn visible_tray_slots(list: &Option<String>, slot: u32) -> (r: i32)
    ensures
        r == slots_shown(*list, slot),
{
    let count: u64 = count_trays(list) as u64;
    proof {
        lemma_wrapped_u64(count);
        lemma_wrapped_u64(slot as u64);
    }
    let listed = count as i32;
    let asked = slot as u64 as i32;
    clamp(
        if listed >= asked {
            listed
        } else {
            asked
        },
        1,
        MAX_EWWII_TRAY_SLOTS,
    )
}

/// The number from `low` to `high` that is nearest to `n`.
fn clamp(n: i32, low: i32, high: i32) -> (r: i32)
    requires
        low <= high,
    ensures
        r == within(n as int, low as int, high as int),
{
    if n < low {
        low
    } else if n > high {
        high
    } else {
        n
    }
}

/// How far the middle of a slot's icon is from the left edge of the bar: the row of slots is
/// centred in the bar, or starts at its edge where it is too wide, and no icon leaves the bar.
pub open spec fn icon_center(slots: int, slot: int) -> int {
    let row_width = slots * TRAY_BUTTON_WIDTH + (slots - 1) * TRAY_BUTTON_SPACING;
    let row_left = most((BAR_WIDTH - row_width) / 2, 0);
    let before = (within(slot, 1, slots) - 1) * (TRAY_BUTTON_WIDTH + TRAY_BUTTON_SPACING);
    within(
        row_left + before + TRAY_BUTTON_WIDTH / 2,
        TRAY_BUTTON_WIDTH as int / 2,
        BAR_WIDTH - TRAY_BUTTON_WIDTH as int / 2,
    )
}

/// The popup's margin from the right edge of the screen: the one that is set, or the one that
/// puts it left of the middle of the slot's icon.
pub open spec fn right_margin(set: Option<i32>, list: Option<String>, slot: u32) -> int {
    match set {
        Some(margin) => margin as int,
        None => BAR_WIDTH - icon_center(slots_shown(list, slot), wrapped(slot as int))
            + MENU_CURSOR_GAP,
    }
}

/// The popup's margin from the right edge of the screen.
pub fn tray_icon_right_margin(set: Option<i32>, list: &Option<String>, slot: u32) -> (r: i32)
    ensures
        r == right_margin(set, *list, slot),
{
    if let Some(margin) = set {
        return margin;
    }
    let slots = visible_tray_slots(list, slot);
    proof {
        lemma_wrapped_u64(slot as u64);
    }
    let slot_i = clamp(slot as u64 as i32, 1, slots) - 1;
    let row_width = slots * TRAY_BUTTON_WIDTH + (slots - 1) * TRAY_BUTTON_SPACING;
    let spare = BAR_WIDTH - row_width;
    let row_left = if spare >= 0 {
        spare / 2
    } else {
        0
    };
    let icon_center_from_left = row_left + slot_i * (TRAY_BUTTON_WIDTH + TRAY_BUTTON_SPACING)
        + TRAY_BUTTON_WIDTH / 2;
    let icon_center_from_left = clamp(
        icon_center_from_left,
        TRAY_BUTTON_WIDTH / 2,
        BAR_WIDTH - TRAY_BUTTON_WIDTH / 2,
    );
    BAR_WIDTH - icon_center_from_left + MENU_CURSOR_GAP
}

/// The popup's margin from the bottom of the screen: the one that is set, but not below 0, or
/// the height of what stands under the tray row.
pub fn tray_icon_bottom_margin(set: Option<i32>) -> (r: i32)
    ensures
        r == most(
            match set {
                Some(margin) => margin as int,
                None => TRAY_MENU_BOTTOM_MARGIN as int,
            },
            0,
        ),
        set is None ==> r == 78,
        set matches Some(margin) ==> (margin >= 0 ==> r == margin) && (margin < 0 ==> r == 0),
{
    let margin = match set {
        Some(margin) => margin,
        None => TRAY_MENU_BOTTOM_MARGIN,
    };
    if margin >= 0 {
        margin
    } else {
        0
    }
}

/// Which edge of the screen the popup keeps its distance from, and how much.
#[derive(Debug, Clone, Copy, PartialEq, Eq, Structural)]
pub enum Vertical {
    Top(i32),
    Bottom(i32),
}

/// The popup's vertical place: its top edge stands where a margin from the top of the screen
/// says, or a distance from the bottom of the screen, whichever is set, and never above the
/// screen; otherwise its bottom edge stands at the margin from the bottom.
pub fn vertical_place(
    top_margin: Option<i32>,
    top_from_bottom: Option<i32>,
    bottom_margin: Option<i32>,
    monitor_height: i32,
) -> (r: Vertical)
    ensures
        match (top_margin, top_from_bottom) {
            (Some(margin), _) => r matches Vertical::Top(m) && m == most(margin as int, 0),
            (None, Some(distance)) => r matches Vertical::Top(m) && m == within(
                monitor_height - distance,
                0,
                i32::MAX as int,
            ),
            (None, None) => r matches Vertical::Bottom(m) && m == most(
                match bottom_margin {
                    Some(margin) => margin as int,
                    None => TRAY_MENU_BOTTOM_MARGIN as int,
                },
                0,
            ),
        },
        top_margin matches Some(margin) ==> (margin >= 0 ==> r == Vertical::Top(margin)) && (margin
            < 0 ==> r == Vertical::Top(0)),
        top_margin is None ==> (top_from_bottom matches Some(distance) ==> {
            &&& r matches Vertical::Top(margin)
            &&& 0 <= monitor_height - distance <= i32::MAX ==> margin == monitor_height - distance
            &&& monitor_height < distance ==> margin == 0
            &&& monitor_height - distance > i32::MAX ==> margin == i32::MAX
        }),
        top_margin is None && top_from_bottom is None ==> {
            &&& bottom_margin is None ==> r == Vertical::Bottom(78)
            &&& bottom_margin matches Some(margin) ==> (margin >= 0 ==> r == Vertical::Bottom(
                margin,
            )) && (margin < 0 ==> r == Vertical::Bottom(0))
        },
{
    match (top_margin, top_from_bottom) {
        (Some(margin), _) => Vertical::Top(
            if margin >= 0 {
                margin
            } else {
                0
            },
        ),
        (None, Some(distance)) => {
            let margin: i64 = monitor_height as i64 - distance as i64;
            if margin < 0 {
                Vertical::Top(0)
            } else if margin > i32::MAX as i64 {
                Vertical::Top(i32::MAX)
            } else {
                Vertical::Top(margin as i32)
            }
        },
        (None, None) => Vertical::Bottom(tray_icon_bottom_margin(bottom_margin)),
    }
}

/// The size of the popup's window: that of the screen, or of a common one where the screen's
/// is not known.
pub fn window_size(monitor: Option<(i32, i32)>) -> (r: (i32, i32))
    ensures
        r == (match monitor {
            Some(size) => size,
            None => (FALLBACK_MONITOR_WIDTH, FALLBACK_MONITOR_HEIGHT),
        }),
        monitor matches Some(size) ==> r == size,
        monitor is None ==> r == (2304i32, 1440i32),
{
    match monitor {
        Some(size) => size,
        None => (FALLBACK_MONITOR_WIDTH, FALLBACK_MONITOR_HEIGHT),
    }
}

/// Whatever the list says, a margin that is worked out puts the popup beside an icon that
/// lies wholly on the bar.
pub proof fn law_popup_stands_beside_the_bar(list: Option<String>, slot: u32)
    ensures
        MENU_CURSOR_GAP + TRAY_BUTTON_WIDTH / 2 <= right_margin(None, list, slot) <= BAR_WIDTH
            - TRAY_BUTTON_WIDTH / 2 + MENU_CURSOR_GAP,
{
}

/// Slots further to the right have their popup further to the right, or at the same place.
pub proof fn law_popups_follow_the_slots(list: Option<String>, left: u32, right: u32)
    requires
        left <= right <= i32::MAX,
    ensures
        right_margin(None, list, right) <= right_margin(None, list, left),
{
    let few = slots_shown(list, left);
    let many = slots_shown(list, right);
    let a = within(left as int, 1, few);
    let b = within(right as int, 1, many);
    assert(few <= many && a <= b);
    assert(many == few || b == many);
}

/// A count that is no `i32` is taken by its lowest 32 bits.
pub proof fn law_counts_wrap(n: int)
    ensures
        i32::MIN <= wrapped(n) <= i32::MAX,
        (n - wrapped(n)) % 0x1_0000_0000 == 0,
        i32::MIN <= n <= i32::MAX ==> wrapped(n) == n,
{
}

/// The trays of a list file are its lines that hold anything but white space.
pub proof fn law_lines_that_hold_something_are_trays(
    raw: String,
    rows: Seq<Seq<char>>,
    row: Seq<char>,
)
    ensures
        listed_trays(None) == 0,
        listed_trays(Some(raw)) == filled(lines(raw@)),
        filled(Seq::<Seq<char>>::empty()) == 0,
        (forall|i: int| 0 <= i < row.len() ==> is_space(#[trigger] row[i])) ==> filled(
            rows.push(row),
        ) == filled(rows),
        (exists|i: int| 0 <= i < row.len() && !is_space(#[trigger] row[i])) ==> filled(
            rows.push(row),
        ) == filled(rows) + 1,
{
    assert(rows.push(row).drop_last() =~= rows);
}

/// The bar shows as many slots as there are trays in the list, or as it takes to show the one
/// that was clicked, from 1 to 8.
pub proof fn law_slots_of_the_bar(list: Option<String>, slot: u32)
    ensures
        ({
            let trays = wrapped(listed_trays(list) as int);
            let clicked = wrapped(slot as int);
            let slots = slots_shown(list, slot);
            &&& 1 <= slots <= 8
            &&& trays <= 8 && clicked <= 8 && (trays >= 1 || clicked >= 1) ==> slots == trays
                || slots == clicked
            &&& trays <= 8 ==> slots >= trays
            &&& clicked <= 8 ==> slots >= clicked
            &&& trays > 8 || clicked > 8 ==> slots == 8
            &&& trays < 1 && clicked < 1 ==> slots == 1
        }),
{
}

/// The popup stands 8 px left of the middle of its slot's icon, unless a margin is set. The
/// slots are 24 px wide and 6 px apart, and their row is in the middle of a bar of 150 px at
/// the right edge of the screen, or begins where the bar does if it is wider; what would leave
/// the bar is held at its edge.
pub proof fn law_margin_in_pixels(set: i32, list: Option<String>, slot: u32)
    ensures
        right_margin(Some(set), list, slot) == set,
        ({
            let slots = slots_shown(list, slot);
            let clicked = wrapped(slot as int);
            let place = if clicked < 1 {
                0
            } else if clicked > slots {
                slots - 1
            } else {
                clicked - 1
            };
            let left = if slots <= 5 {
                78 - 15 * slots
            } else {
                0
            };
            let middle = left + 30 * place + 12;
            &&& middle <= 138 ==> right_margin(None, list, slot) == 150 - middle + 8
            &&& middle > 138 ==> right_margin(None, list, slot) == 150 - 138 + 8
        }),
{
    law_slots_of_the_bar(list, slot);
    let slots = slots_shown(list, slot);
    assert((156 - 30 * slots) / 2 == 78 - 15 * slots);
}

} // verus!
