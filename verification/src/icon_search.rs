//! The search for an icon by name: which directories to read, and which file to take.

use vstd::prelude::*;
use vstd::utf8::{decode_utf8, encode_utf8, valid_utf8};

use crate::number::{
    decimal, is_digit, law_u32_written_is_read_back, lemma_decimal, parse_u32, u32_from,
};
use crate::paths::{
    absolute, is_absolute, join, joined, lemma_absolute, lemma_absolute_text, lemma_relative,
};
use crate::text::{
    chars_of, lemma_split_first, lemma_split_last, split, split_chars, texts, utf8_text,
};

verus! {

/// The size that a part of a path names, such as `48x48`: the smaller of the numbers before
/// and behind its first `x`.
pub open spec fn named_size(part: Seq<char>) -> Option<u32> {
    let numbers = split(part, 'x');
    if numbers.len() < 2 {
        None
    } else {
        match (u32_from(numbers[0]), u32_from(numbers[1])) {
            (Some(w), Some(h)) => Some(
                if w <= h {
                    w
                } else {
                    h
                },
            ),
            _ => None,
        }
    }
}

/// Reads the size that a part of a path names.
fn read_size(part: &str) -> (r: Option<u32>)
    ensures
        r == named_size(part@),
{
    let numbers = split_chars(&chars_of(part), 'x');
    assert(texts(numbers@) == split(part@, 'x'));
    if numbers.len() < 2 {
        return None;
    }
    assert(texts(numbers@)[0] == numbers@[0]@);
    assert(texts(numbers@)[1] == numbers@[1]@);
    match (parse_u32(&numbers[0]), parse_u32(&numbers[1])) {
        (Some(w), Some(h)) => Some(
            if w <= h {
                w
            } else {
                h
            },
        ),
        _ => None,
    }
}

/// The size that a part of a path names, where the part is text.
pub open spec fn part_size(part: Seq<u8>) -> Option<u32> {
    if valid_utf8(part) {
        named_size(decode_utf8(part))
    } else {
        None
    }
}

/// Reads the size that a part of a path names.
fn read_part(part: &[u8]) -> (r: Option<u32>)
    ensures
        r == part_size(part@),
{
    match utf8_text(part) {
        Some(text) => read_size(text),
        None => None,
    }
}

/// The first size that a part of a path names; 0 where none does.
pub open spec fn first_size(parts: Seq<Seq<u8>>) -> u32
    decreases parts.len(),
{
    if parts.len() == 0 {
        0
    } else {
        match part_size(parts[0]) {
            Some(size) => size,
            None => first_size(parts.drop_first()),
        }
    }
}

/// The size of the icon at a path, as the directories on the way tell it.
pub open spec fn icon_size(path: Seq<u8>) -> u32 {
    first_size(split(path, 0x2f))
}

/// Reads the size of the icon at a path.
pub fn size_of_icon(path: &Vec<u8>) -> (r: u32)
    ensures
        r == icon_size(path@),
{
    let mut start: usize = 0;
    let mut i: usize = 0;
    assert(path@.skip(0) =~= path@);
    while i < path.len()
        invariant
            start <= i <= path@.len(),
            first_size(split(path@.skip(start as int), 0x2f)) == icon_size(path@),
            forall|j: int| start <= j < i ==> path@[j] != 0x2f,
        decreases path.len() - i,
    {
        if path[i] == 0x2f {
            let part = vstd::slice::slice_subrange(path.as_slice(), start, i);
            let ghost after = path@.skip(i + 1);
            proof {
                assert forall|j: int| 0 <= j < part@.len() implies part@[j] != 0x2f by {
                    assert(part@[j] == path@[start + j]);
                }
                assert(path@.skip(start as int) =~= part@.push(0x2f) + after);
                lemma_split_first(part@, 0x2f, after);
                assert((seq![part@] + split(after, 0x2f)).drop_first() =~= split(after, 0x2f));
            }
            if let Some(size) = read_part(part) {
                return size;
            }
            start = i + 1;
        }
        i += 1;
    }
    let part = vstd::slice::slice_subrange(path.as_slice(), start, i);
    proof {
        assert forall|j: int| 0 <= j < part@.len() implies part@[j] != 0x2f by {
            assert(part@[j] == path@[start + j]);
        }
        assert(path@.skip(start as int) =~= part@);
        lemma_split_last(part@, 0x2f);
        assert(seq![part@].drop_first() =~= Seq::<Seq<u8>>::empty());
        assert(first_size(Seq::<Seq<u8>>::empty()) == 0);
    }
    match read_part(part) {
        Some(size) => size,
        None => 0,
    }
}

/// The part of a path behind its last slash.
pub open spec fn file_name(path: Seq<u8>) -> Seq<u8>
    decreases path.len(),
{
    if path.len() == 0 || path.last() == 0x2f {
        Seq::empty()
    } else {
        file_name(path.drop_last()).push(path.last())
    }
}

proof fn lemma_file_name(path: Seq<u8>, start: int)
    requires
        0 <= start <= path.len(),
        start > 0 ==> path[start - 1] == 0x2f,
        forall|j: int| start <= j < path.len() ==> path[j] != 0x2f,
    ensures
        file_name(path) == path.skip(start),
    decreases path.len(),
{
    if start < path.len() {
        lemma_file_name(path.drop_last(), start);
        assert(path.skip(start) =~= path.drop_last().skip(start).push(path.last()));
    }
}

/// Whether the part of a path behind its last slash is the given name.
fn is_named(path: &Vec<u8>, name: &Vec<u8>) -> (r: bool)
    ensures
        r == (file_name(path@) == name@),
{
    let mut start: usize = path.len();
    while start > 0 && path[start - 1] != 0x2f
        invariant
            start <= path@.len(),
            forall|j: int| start <= j < path@.len() ==> path@[j] != 0x2f,
        decreases start,
    {
        start -= 1;
    }
    proof {
        lemma_file_name(path@, start as int);
    }
    let len: usize = path.len();
    let ghost found = path@.skip(start as int);
    if len - start != name.len() {
        return false;
    }
    let mut i: usize = 0;
    while i < name.len()
        invariant
            i <= name@.len(),
            start + name@.len() == path@.len() == len,
            found == path@.skip(start as int),
            file_name(path@) == found,
            forall|j: int| 0 <= j < i ==> found[j] == name@[j],
        decreases name.len() - i,
    {
        assert(found[i as int] == path@[start + i]);
        if path[start + i] != name[i] {
            return false;
        }
        i += 1;
    }
    assert(found =~= name@);
    true
}

/// What a directory holds: a file, or a directory in its turn.
#[derive(Debug)]
pub struct DirEntry {
    pub path: Vec<u8>,
    pub is_dir: bool,
}

/// The icon of the bigger size: the one that was found before, unless the new one is bigger.
pub open spec fn bigger(best: Option<(u32, Seq<u8>)>, path: Seq<u8>) -> Option<(u32, Seq<u8>)> {
    match best {
        Some((size, _)) if icon_size(path) <= size => best,
        _ => Some((icon_size(path), path)),
    }
}

/// A search under way.
#[verifier::ext_equal]
pub struct Search {
    /// The name of the wanted icon, without its ending.
    pub name: Seq<char>,
    /// The directories still to be searched.
    pub bases: Seq<Seq<u8>>,
    /// The directories still to be read below the one that is being searched.
    pub stack: Seq<Seq<u8>>,
    /// The size and path of the best icon so far.
    pub best: Option<(u32, Seq<u8>)>,
}

/// What a search asks for, over what it names.
pub enum Asked {
    TestBase(Seq<u8>),
    ReadDir(Seq<u8>),
    Done(Option<Seq<u8>>),
}

impl Search {
    /// Whether the file at a path is the wanted icon, as a PNG or an SVG.
    pub open spec fn wants(self, path: Seq<u8>) -> bool {
        ||| file_name(path) == encode_utf8(self.name + ".png"@)
        ||| file_name(path) == encode_utf8(self.name + ".svg"@)
    }

    /// The search after it has seen one entry of a directory.
    pub open spec fn seen(self, entry: DirEntry) -> Search {
        if entry.is_dir {
            Search { stack: self.stack.push(entry.path@), ..self }
        } else if self.wants(entry.path@) {
            Search { best: bigger(self.best, entry.path@), ..self }
        } else {
            self
        }
    }

    /// The search after it has seen the entries of a directory, one by one.
    pub open spec fn scanned(self, entries: Seq<DirEntry>) -> Search
        decreases entries.len(),
    {
        if entries.len() == 0 {
            self
        } else {
            self.scanned(entries.drop_last()).seen(entries.last())
        }
    }

    /// The search after an event.
    pub open spec fn informed(self, event: SearchEvent) -> Search {
        match event {
            SearchEvent::Start => self,
            SearchEvent::BaseTested(is_dir) => if self.bases.len() == 0 {
                self
            } else if is_dir {
                Search {
                    bases: self.bases.drop_first(),
                    stack: self.stack.push(self.bases[0]),
                    ..self
                }
            } else {
                Search { bases: self.bases.drop_first(), ..self }
            },
            SearchEvent::Listed(Some(entries)) => self.scanned(entries@),
            SearchEvent::Listed(None) => self,
        }
    }

    /// What the search asks for next: the directory that was found last, then the next base,
    /// then nothing.
    pub open spec fn asks(self) -> Asked {
        if self.stack.len() > 0 {
            Asked::ReadDir(self.stack.last())
        } else if self.bases.len() > 0 {
            Asked::TestBase(self.bases[0])
        } else {
            Asked::Done(
                match self.best {
                    Some((_, path)) => Some(path),
                    None => None,
                },
            )
        }
    }

    /// The search once it has asked: a directory is asked for once.
    pub open spec fn having_asked(self) -> Search {
        if self.stack.len() > 0 {
            Search { stack: self.stack.drop_last(), ..self }
        } else {
            self
        }
    }
}

/// What the file system answered.
#[derive(Debug)]
pub enum SearchEvent {
    /// Nothing was asked yet.
    Start,
    /// Whether the base that was named is a directory.
    BaseTested(bool),
    /// What the directory that was named holds; nothing where it cannot be read.
    Listed(Option<Vec<DirEntry>>),
}

/// What a search needs to know next.
#[derive(Debug)]
pub enum SearchAction {
    /// Whether this is a directory.
    TestBase(Vec<u8>),
    /// What this directory holds.
    ReadDir(Vec<u8>),
    /// Nothing: the search is over, and this is the icon that it found.
    Done(Option<Vec<u8>>),
}

impl View for SearchAction {
    type V = Asked;

    open spec fn view(&self) -> Asked {
        match self {
            SearchAction::TestBase(path) => Asked::TestBase(path@),
            SearchAction::ReadDir(path) => Asked::ReadDir(path@),
            SearchAction::Done(Some(path)) => Asked::Done(Some(path@)),
            SearchAction::Done(None) => Asked::Done(None),
        }
    }
}

/// The directories to search for an icon, first to last: the one that the tray names, the
/// user's own, and the system's two. One that does not start at the root is left out.
pub open spec fn search_bases(theme_path: Option<String>, home: Option<Vec<u8>>) -> Seq<Seq<u8>> {
    let named = match theme_path {
        Some(dir) if absolute(encode_utf8(dir@)) => seq![encode_utf8(dir@)],
        _ => Seq::empty(),
    };
    let own = match home {
        Some(dir) if absolute(dir@) => seq![joined(dir@, encode_utf8(".local/share/icons"@))],
        _ => Seq::empty(),
    };
    named + own + seq![encode_utf8("/usr/share/icons"@), encode_utf8("/usr/share/pixmaps"@)]
}

/// A search for the icon of a name, which has not begun.
pub open spec fn unbegun(
    name: Seq<char>,
    theme_path: Option<String>,
    home: Option<Vec<u8>>,
) -> Search {
    Search { name, bases: search_bases(theme_path, home), stack: Seq::empty(), best: None }
}

/// The paths that a list of byte vectors holds.
pub open spec fn paths(v: Seq<Vec<u8>>) -> Seq<Seq<u8>> {
    Seq::new(v.len(), |i: int| v[i]@)
}

/// A search for an icon by name.
pub struct IconSearch {
    name: String,
    png: Vec<u8>,
    svg: Vec<u8>,
    bases: Vec<Vec<u8>>,
    next: usize,
    stack: Vec<Vec<u8>>,
    best: Option<(u32, Vec<u8>)>,
}

impl View for IconSearch {
    type V = Search;

    closed spec fn view(&self) -> Search {
        Search {
            name: self.name@,
            bases: paths(self.bases@.skip(self.next as int)),
            stack: paths(self.stack@),
            best: match self.best {
                Some((size, path)) => Some((size, path@)),
                None => None,
            },
        }
    }
}

/// The bytes of a text, as a path of their own.
fn bytes_of(text: &str) -> (r: Vec<u8>)
    ensures
        r@ == encode_utf8(text@),
{
    let mut out: Vec<u8> = Vec::new();
    out.extend_from_slice(text.as_bytes());
    assert(out@ =~= encode_utf8(text@));
    out
}

/// A copy of a path.
fn copy_path(path: &Vec<u8>) -> (r: Vec<u8>)
    ensures
        r@ == path@,
{
    let mut out: Vec<u8> = Vec::new();
    out.extend_from_slice(path.as_slice());
    assert(out@ =~= path@);
    out
}

impl IconSearch {
    pub closed spec fn wf(&self) -> bool {
        &&& self.png@ == encode_utf8(self.name@ + ".png"@)
        &&& self.svg@ == encode_utf8(self.name@ + ".svg"@)
        &&& self.next <= self.bases@.len()
    }

    /// A search for the icon of the given name, which has not begun.
    pub fn resolve_icon_name(
        name: &String,
        theme_path: &Option<String>,
        home: &Option<Vec<u8>>,
    ) -> (r: IconSearch)
        ensures
            r.wf(),
            r@ == unbegun(name@, *theme_path, *home),
    {
        let mut bases: Vec<Vec<u8>> = Vec::new();
        if let Some(dir) = theme_path {
            let named = bytes_of(dir.as_str());
            if is_absolute(&named) {
                bases.push(named);
            }
        }
        if let Some(dir) = home {
            if is_absolute(dir) {
                bases.push(join(dir.as_slice(), ".local/share/icons".as_bytes()));
            }
        }
        bases.push(bytes_of("/usr/share/icons"));
        bases.push(bytes_of("/usr/share/pixmaps"));
        let png = name.clone().concat(".png");
        let svg = name.clone().concat(".svg");
        let r = IconSearch {
            name: name.clone(),
            png: bytes_of(png.as_str()),
            svg: bytes_of(svg.as_str()),
            bases,
            next: 0,
            stack: Vec::new(),
            best: None,
        };
        assert(r.bases@.skip(0) =~= r.bases@);
        assert(r@.bases =~= search_bases(*theme_path, *home));
        assert(r@.stack =~= Seq::<Seq<u8>>::empty());
        r
    }

    /// Takes note of one entry of a directory.
    fn see(&mut self, entry: &DirEntry)
        requires
            old(self).wf(),
        ensures
            final(self).wf(),
            final(self)@ == old(self)@.seen(*entry),
    {
        if entry.is_dir {
            self.stack.push(copy_path(&entry.path));
            assert(self@ =~= old(self)@.seen(*entry));
        } else if is_named(&entry.path, &self.png) || is_named(&entry.path, &self.svg) {
            let size = size_of_icon(&entry.path);
            let take = match &self.best {
                None => true,
                Some((cur, _)) => size > *cur,
            };
            if take {
                self.best = Some((size, copy_path(&entry.path)));
            }
            assert(self@ =~= old(self)@.seen(*entry));
        }
    }

    /// Takes note of the entries of a directory.
    fn scan(&mut self, entries: &Vec<DirEntry>)
        requires
            old(self).wf(),
        ensures
            final(self).wf(),
            final(self)@ == old(self)@.scanned(entries@),
    {
        let ghost start = self@;
        let mut i: usize = 0;
        while i < entries.len()
            invariant
                i <= entries@.len(),
                self.wf(),
                self@ == start.scanned(entries@.take(i as int)),
            decreases entries.len() - i,
        {
            self.see(&entries[i]);
            i += 1;
            assert(entries@.take(i as int).drop_last() =~= entries@.take(i - 1));
        }
        assert(entries@.take(i as int) =~= entries@);
    }

    /// Takes what the file system answered and tells what to ask it next.
    pub fn step(&mut self, event: SearchEvent) -> (r: SearchAction)
        requires
            old(self).wf(),
        ensures
            final(self).wf(),
            r@ == old(self)@.informed(event).asks(),
            final(self)@ == old(self)@.informed(event).having_asked(),
    {
        match event {
            SearchEvent::Start => {},
            SearchEvent::BaseTested(is_dir) => {
                if self.next < self.bases.len() {
                    if is_dir {
                        self.stack.push(copy_path(&self.bases[self.next]));
                    }
                    self.next += 1;
                }
                assert(self@ =~= old(self)@.informed(event));
            },
            SearchEvent::Listed(ref listing) => {
                if let Some(entries) = listing {
                    self.scan(entries);
                }
            },
        }
        let ghost told = self@;
        assert(told == old(self)@.informed(event));
        match self.stack.pop() {
            Some(dir) => {
                assert(self@ =~= told.having_asked());
                SearchAction::ReadDir(dir)
            },
            None => {
                if self.next < self.bases.len() {
                    SearchAction::TestBase(copy_path(&self.bases[self.next]))
                } else {
                    match &self.best {
                        Some((_, path)) => SearchAction::Done(Some(copy_path(path))),
                        None => SearchAction::Done(None),
                    }
                }
            },
        }
    }
}

/// The position of the file that made it to the best icon while a directory was scanned:
/// one that is bigger than the best before it and than every wanted file listed earlier.
pub open spec fn wins(search: Search, entries: Seq<DirEntry>, k: int) -> bool {
    let path = entries[k].path@;
    &&& 0 <= k < entries.len()
    &&& !entries[k].is_dir
    &&& search.wants(path)
    &&& search.best matches Some((size, _)) ==> size < icon_size(path)
    &&& forall|j: int|
        0 <= j < k && !(#[trigger] entries[j]).is_dir && search.wants(entries[j].path@)
            ==> icon_size(entries[j].path@) < icon_size(path)
}

/// The largest icon wins, and of several equally large ones the first that was found: no
/// wanted file of a directory is larger than the best icon after its scan, and that icon is
/// the best one before the scan or a file of the directory that beat all before it.
pub proof fn law_largest_icon_wins(search: Search, entries: Seq<DirEntry>)
    ensures
        search.scanned(entries).name == search.name,
        search.scanned(entries).bases == search.bases,
        search.best matches Some((size, _)) ==> {
            &&& search.scanned(entries).best matches Some((after, _))
            &&& size <= after
        },
        forall|k: int|
            0 <= k < entries.len() && !(#[trigger] entries[k]).is_dir && search.wants(
                entries[k].path@,
            ) ==> {
                &&& search.scanned(entries).best matches Some((after, _))
                &&& icon_size(entries[k].path@) <= after
            },
        search.scanned(entries).best == search.best || exists|k: int| #[trigger]
            wins(search, entries, k) && search.scanned(entries).best == Some(
                (icon_size(entries[k].path@), entries[k].path@),
            ),
    decreases entries.len(),
{
    if entries.len() > 0 {
        let front = entries.drop_last();
        let last = entries.last();
        let before = search.scanned(front);
        law_largest_icon_wins(search, front);
        assert forall|k: int|
            0 <= k < entries.len() && !(#[trigger] entries[k]).is_dir && search.wants(
                entries[k].path@,
            ) implies {
            &&& search.scanned(entries).best matches Some((after, _))
            &&& icon_size(entries[k].path@) <= after
        } by {
            if k < front.len() {
                assert(front[k] == entries[k]);
            }
        }
        assert forall|k: int| #[trigger] wins(search, front, k) implies wins(
            search,
            entries,
            k,
        ) by {
            assert(front[k] == entries[k]);
            assert forall|j: int|
                0 <= j < k && !(#[trigger] entries[j]).is_dir && search.wants(
                    entries[j].path@,
                ) implies icon_size(entries[j].path@) < icon_size(entries[k].path@) by {
                assert(front[j] == entries[j]);
            }
        }
        if before.best != search.best {
            let k = choose|k: int| #[trigger]
                wins(search, front, k) && before.best == Some(
                    (icon_size(front[k].path@), front[k].path@),
                );
            assert(front[k] == entries[k]);
            assert(wins(search, entries, k));
        }
        if !last.is_dir && search.wants(last.path@) && search.scanned(entries).best != before.best {
            let k = entries.len() - 1;
            assert forall|j: int|
                0 <= j < k && !(#[trigger] entries[j]).is_dir && search.wants(
                    entries[j].path@,
                ) implies icon_size(entries[j].path@) < icon_size(last.path@) by {
                assert(front[j] == entries[j]);
            }
            assert(wins(search, entries, k));
        }
    }
}

/// What a search has become after a row of events, each answered by what it asks next.
pub open spec fn run(search: Search, events: Seq<SearchEvent>) -> Search
    decreases events.len(),
{
    if events.len() == 0 {
        search
    } else {
        run(search, events.drop_last()).informed(events.last()).having_asked()
    }
}

/// All that the directories of a row of events hold, in the order of the events.
pub open spec fn listed(events: Seq<SearchEvent>) -> Seq<DirEntry>
    decreases events.len(),
{
    if events.len() == 0 {
        Seq::empty()
    } else {
        match events.last() {
            SearchEvent::Listed(Some(entries)) => listed(events.drop_last()) + entries@,
            _ => listed(events.drop_last()),
        }
    }
}

/// Where two searches want the same name and know the same best icon, a scan leaves them
/// with the same best icon.
proof fn lemma_scan_of_like_searches(a: Search, b: Search, entries: Seq<DirEntry>)
    requires
        a.name == b.name,
        a.best == b.best,
    ensures
        a.scanned(entries).name == b.scanned(entries).name,
        a.scanned(entries).best == b.scanned(entries).best,
    decreases entries.len(),
{
    if entries.len() > 0 {
        lemma_scan_of_like_searches(a, b, entries.drop_last());
    }
}

/// Two scans are one scan of all that they list.
proof fn lemma_scans_add_up(search: Search, a: Seq<DirEntry>, b: Seq<DirEntry>)
    ensures
        search.scanned(a).scanned(b) == search.scanned(a + b),
    decreases b.len(),
{
    if b.len() == 0 {
        assert(a + b =~= a);
    } else {
        lemma_scans_add_up(search, a, b.drop_last());
        assert((a + b).drop_last() =~= a + b.drop_last());
        assert((a + b).last() == b.last());
    }
}

/// Wherever a search has been, it knows the best icon of all the directories that were
/// listed to it, whichever base they are below.
pub proof fn law_search_knows_the_best_of_all_listings(search: Search, events: Seq<SearchEvent>)
    ensures
        run(search, events).name == search.name,
        run(search, events).best == search.scanned(listed(events)).best,
    decreases events.len(),
{
    if events.len() > 0 {
        let front = events.drop_last();
        let before = run(search, front);
        law_search_knows_the_best_of_all_listings(search, front);
        if let SearchEvent::Listed(Some(entries)) = events.last() {
            let sum = search.scanned(listed(front));
            law_largest_icon_wins(search, listed(front));
            law_largest_icon_wins(before, entries@);
            lemma_scan_of_like_searches(before, sum, entries@);
            lemma_scans_add_up(search, listed(front), entries@);
        }
    }
}

/// What a search asks for after the last event of a row.
pub open spec fn asked(search: Search, events: Seq<SearchEvent>) -> Asked {
    run(search, events.drop_last()).informed(events.last()).asks()
}

/// The directories that a search asks to read during a row of events.
pub open spec fn asked_to_read(search: Search, events: Seq<SearchEvent>) -> Seq<Seq<u8>>
    decreases events.len(),
{
    if events.len() == 0 {
        Seq::empty()
    } else {
        let before = asked_to_read(search, events.drop_last());
        match asked(search, events) {
            Asked::ReadDir(dir) => before.push(dir),
            _ => before,
        }
    }
}

/// A scan puts the directories that it sees on top of those that wait.
proof fn lemma_scan_keeps_directories(search: Search, entries: Seq<DirEntry>)
    ensures
        search.stack.len() <= search.scanned(entries).stack.len(),
        forall|i: int|
            0 <= i < search.stack.len() ==> search.scanned(entries).stack[i]
                == #[trigger] search.stack[i],
        forall|k: int|
            0 <= k < entries.len() && (#[trigger] entries[k]).is_dir ==> search.scanned(
                entries,
            ).stack.contains(entries[k].path@),
    decreases entries.len(),
{
    if entries.len() > 0 {
        let front = entries.drop_last();
        let before = search.scanned(front).stack;
        let after = search.scanned(entries).stack;
        lemma_scan_keeps_directories(search, front);
        assert forall|k: int| 0 <= k < entries.len() && (#[trigger] entries[k]).is_dir implies after.contains(
            entries[k].path@,
        ) by {
            if k < front.len() {
                assert(front[k] == entries[k]);
                let i = choose|i: int| 0 <= i < before.len() && before[i] == entries[k].path@;
                assert(after[i] == entries[k].path@);
            } else {
                assert(after[after.len() - 1] == entries[k].path@);
            }
        }
    }
}

/// The bases that were tested during a row of events, each with whether it is a directory.
pub open spec fn tested(search: Search, events: Seq<SearchEvent>) -> Seq<(Seq<u8>, bool)>
    decreases events.len(),
{
    if events.len() == 0 {
        Seq::empty()
    } else {
        let before = tested(search, events.drop_last());
        let waiting = run(search, events.drop_last()).bases;
        match events.last() {
            SearchEvent::BaseTested(is_dir) if waiting.len() > 0 => before.push(
                (waiting[0], is_dir),
            ),
            _ => before,
        }
    }
}

/// Whether a search has asked for a directory or has it waiting.
pub open spec fn remembered(search: Search, events: Seq<SearchEvent>, dir: Seq<u8>) -> bool {
    asked_to_read(search, events).contains(dir) || run(search, events).stack.contains(dir)
}

/// A directory that a search remembers stays remembered, and so does one that an event
/// brings.
proof fn lemma_remembers(search: Search, events: Seq<SearchEvent>, dir: Seq<u8>)
    requires
        events.len() > 0,
        remembered(search, events.drop_last(), dir) || run(
            search,
            events.drop_last(),
        ).informed(events.last()).stack.contains(dir),
    ensures
        remembered(search, events, dir),
{
    let front = events.drop_last();
    let event = events.last();
    let before = run(search, front);
    let told = before.informed(event);
    let read_before = asked_to_read(search, front);
    let read = asked_to_read(search, events);
    let after = run(search, events);
    if read_before.contains(dir) {
        let i = choose|i: int| 0 <= i < read_before.len() && read_before[i] == dir;
        assert(read[i] == dir);
    } else {
        if before.stack.contains(dir) {
            let i = choose|i: int| 0 <= i < before.stack.len() && before.stack[i] == dir;
            if let SearchEvent::Listed(Some(entries)) = event {
                lemma_scan_keeps_directories(before, entries@);
            }
            assert(told.stack[i] == dir);
        }
        let i = choose|i: int| 0 <= i < told.stack.len() && told.stack[i] == dir;
        if i == told.stack.len() - 1 {
            assert(read[read.len() - 1] == dir);
        } else {
            assert(after.stack[i] == dir);
        }
    }
}

/// No directory is forgotten: the bases are tested in order, and each one that is a
/// directory, like each directory that was listed, has been asked for or is still waiting.
/// The search is over only when no base and no directory waits, so that all of them have
/// been asked for by then.
pub proof fn law_every_directory_is_read(search: Search, events: Seq<SearchEvent>)
    ensures
        tested(search, events).len() <= search.bases.len(),
        run(search, events).bases == search.bases.skip(tested(search, events).len() as int),
        forall|i: int|
            0 <= i < tested(search, events).len() ==> (#[trigger] tested(search, events)[i]).0
                == search.bases[i],
        forall|i: int|
            0 <= i < tested(search, events).len() && (#[trigger] tested(search, events)[i]).1
                ==> remembered(search, events, tested(search, events)[i].0),
        forall|k: int|
            0 <= k < listed(events).len() && (#[trigger] listed(events)[k]).is_dir ==> remembered(
                search,
                events,
                listed(events)[k].path@,
            ),
        events.len() > 0 && asked(search, events) is Done ==> run(search, events).bases.len() == 0
            && run(search, events).stack.len() == 0,
    decreases events.len(),
{
    if events.len() == 0 {
        assert(search.bases.skip(0) =~= search.bases);
    } else {
        let front = events.drop_last();
        let event = events.last();
        let before = run(search, front);
        law_every_directory_is_read(search, front);
        assert forall|d: Seq<u8>| remembered(search, front, d) implies #[trigger] remembered(
            search,
            events,
            d,
        ) by {
            lemma_remembers(search, events, d);
        }
        match event {
            SearchEvent::BaseTested(is_dir) => {
                if before.bases.len() > 0 {
                    let n = tested(search, front).len();
                    assert(before.bases[0] == search.bases[n as int]);
                    assert(before.bases.drop_first() =~= search.bases.skip(n as int + 1));
                    if is_dir {
                        let told = before.informed(event);
                        assert(told.stack[told.stack.len() - 1] == before.bases[0]);
                        lemma_remembers(search, events, before.bases[0]);
                    }
                }
            },
            SearchEvent::Listed(Some(entries)) => {
                law_largest_icon_wins(before, entries@);
                lemma_scan_keeps_directories(before, entries@);
                assert forall|k: int|
                    0 <= k < listed(events).len() && (#[trigger] listed(
                        events,
                    )[k]).is_dir implies remembered(search, events, listed(events)[k].path@) by {
                    if k < listed(front).len() {
                        assert(listed(front)[k] == listed(events)[k]);
                    } else {
                        assert(entries@[k - listed(front).len()] == listed(events)[k]);
                        lemma_remembers(search, events, listed(events)[k].path@);
                    }
                }
            },
            _ => {},
        }
    }
}

/// Whether a path is that of a directory with a name behind it.
pub open spec fn entry_in(dir: Seq<u8>, path: Seq<u8>) -> bool {
    exists|name: Seq<u8>|
        name.len() > 0 && !name.contains(0x2f) && path == #[trigger] joined(dir, name)
}

/// Whether a path leads from a directory to something below it.
pub open spec fn below(dir: Seq<u8>, path: Seq<u8>) -> bool {
    exists|rest: Seq<u8>|
        rest.len() > 0 && rest[0] != 0x2f && path == #[trigger] joined(dir, rest)
}

/// Whether a path leads below one of the bases.
pub open spec fn below_a_base(bases: Seq<Seq<u8>>, path: Seq<u8>) -> bool {
    exists|i: int| 0 <= i < bases.len() && below(#[trigger] bases[i], path)
}

/// Whether every listing of a row of events is one of the directory that the search had asked
/// for: it holds that directory's path with a name behind it, each time.
pub open spec fn lists_what_was_asked(search: Search, events: Seq<SearchEvent>) -> bool
    decreases events.len(),
{
    events.len() > 0 ==> {
        &&& lists_what_was_asked(search, events.drop_last())
        &&& events.last() matches SearchEvent::Listed(Some(entries)) ==> {
            &&& events.len() > 1
            &&& asked(search, events.drop_last()) matches Asked::ReadDir(dir)
            &&& forall|k: int|
                0 <= k < entries@.len() ==> entry_in(dir, (#[trigger] entries@[k]).path@)
        }
    }
}

/// A name in a directory that a base leads to lies below that base.
proof fn lemma_below(base: Seq<u8>, dir: Seq<u8>, path: Seq<u8>)
    requires
        dir == base || below(base, dir),
        entry_in(dir, path),
    ensures
        below(base, path),
{
    let name = choose|name: Seq<u8>|
        name.len() > 0 && !name.contains(0x2f) && path == #[trigger] joined(dir, name);
    assert(name.contains(name[0]));
    if dir != base {
        let rest = choose|rest: Seq<u8>|
            rest.len() > 0 && rest[0] != 0x2f && dir == #[trigger] joined(base, rest);
        assert(dir.last() == rest.last());
        let longer = joined(rest, name);
        assert(longer[0] == rest[0]);
        assert(joined(base, longer) =~= path);
    }
}

/// What a search knows of its bases: all that waits to be read is a base or lies below one,
/// and so does the best icon.
spec fn grounded(search: Search, bases: Seq<Seq<u8>>) -> bool {
    &&& forall|i: int| 0 <= i < search.bases.len() ==> bases.contains(#[trigger] search.bases[i])
    &&& forall|i: int|
        0 <= i < search.stack.len() ==> {
            ||| bases.contains(#[trigger] search.stack[i])
            ||| below_a_base(bases, search.stack[i])
        }
    &&& search.best matches Some((_, path)) ==> below_a_base(bases, path)
}

proof fn lemma_scan_stays_grounded(
    search: Search,
    bases: Seq<Seq<u8>>,
    dir: Seq<u8>,
    entries: Seq<DirEntry>,
)
    requires
        grounded(search, bases),
        bases.contains(dir) || below_a_base(bases, dir),
        forall|k: int| 0 <= k < entries.len() ==> entry_in(dir, (#[trigger] entries[k]).path@),
    ensures
        grounded(search.scanned(entries), bases),
    decreases entries.len(),
{
    if entries.len() > 0 {
        let front = entries.drop_last();
        let path = entries.last().path@;
        assert forall|k: int| 0 <= k < front.len() implies entry_in(
            dir,
            (#[trigger] front[k]).path@,
        ) by {
            assert(front[k] == entries[k]);
        }
        lemma_scan_stays_grounded(search, bases, dir, front);
        assert(entry_in(dir, entries[entries.len() - 1].path@));
        let i = if bases.contains(dir) {
            choose|i: int| 0 <= i < bases.len() && bases[i] == dir
        } else {
            choose|i: int| 0 <= i < bases.len() && below(#[trigger] bases[i], dir)
        };
        lemma_below(bases[i], dir, path);
        assert(below_a_base(bases, path));
    }
}

proof fn lemma_stays_grounded(search: Search, bases: Seq<Seq<u8>>, events: Seq<SearchEvent>)
    requires
        grounded(search, bases),
        lists_what_was_asked(search, events),
    ensures
        grounded(run(search, events), bases),
        events.len() > 0 ==> grounded(
            run(search, events.drop_last()).informed(events.last()),
            bases,
        ),
    decreases events.len(),
{
    if events.len() > 0 {
        let front = events.drop_last();
        lemma_stays_grounded(search, bases, front);
        let before = run(search, front);
        if let SearchEvent::Listed(Some(entries)) = events.last() {
            let told = run(search, front.drop_last()).informed(front.last());
            let dir = told.stack.last();
            assert(asked(search, front) == Asked::ReadDir(dir));
            assert(told.stack[told.stack.len() - 1] == dir);
            lemma_scan_stays_grounded(before, bases, dir, entries@);
        }
    }
}

/// The bases of a search start at the root.
pub proof fn lemma_bases_are_absolute(theme_path: Option<String>, home: Option<Vec<u8>>)
    ensures
        forall|i: int|
            0 <= i < search_bases(theme_path, home).len() ==> absolute(
                #[trigger] search_bases(theme_path, home)[i],
            ),
{
    reveal_strlit("/usr/share/icons");
    reveal_strlit("/usr/share/pixmaps");
    lemma_absolute("/usr/share/icons"@);
    lemma_absolute("/usr/share/pixmaps"@);
}

/// An icon that is found by name has an absolute path, and lies below one of the directories
/// that are searched, where the file system lists what it is asked for.
pub proof fn law_found_icon_is_absolute(
    name: Seq<char>,
    theme_path: Option<String>,
    home: Option<Vec<u8>>,
    events: Seq<SearchEvent>,
)
    requires
        events.len() > 0,
        lists_what_was_asked(unbegun(name, theme_path, home), events),
    ensures
        asked(unbegun(name, theme_path, home), events) matches Asked::Done(Some(path)) ==> {
            &&& absolute(path)
            &&& below_a_base(search_bases(theme_path, home), path)
        },
{
    let search = unbegun(name, theme_path, home);
    let bases = search_bases(theme_path, home);
    assert(grounded(search, bases));
    lemma_stays_grounded(search, bases, events);
    lemma_bases_are_absolute(theme_path, home);
    if let Asked::Done(Some(path)) = asked(search, events) {
        let i = choose|i: int| 0 <= i < bases.len() && below(#[trigger] bases[i], path);
        assert(absolute(bases[i]));
    }
}

/// A part of a path names a size by two numbers with an `x` between them: the smaller one,
/// whatever stands behind a second `x`. A part without an `x` names none.
pub proof fn law_size_is_the_smaller_number(a: Seq<char>, b: Seq<char>, rest: Seq<char>)
    requires
        !a.contains('x'),
        !b.contains('x'),
    ensures
        named_size(a) is None,
        named_size(a + seq!['x'] + b) == (match (u32_from(a), u32_from(b)) {
            (Some(w), Some(h)) => Some(
                if h < w {
                    h
                } else {
                    w
                },
            ),
            _ => None,
        }),
        named_size(a + seq!['x'] + b + seq!['x'] + rest) == named_size(a + seq!['x'] + b),
{
    lemma_split_last(a, 'x');
    lemma_split_last(b, 'x');
    lemma_split_first(a, 'x', b);
    assert(a + seq!['x'] + b =~= a.push('x') + b);
    let tail = b.push('x') + rest;
    lemma_split_first(b, 'x', rest);
    lemma_split_first(a, 'x', tail);
    assert(a + seq!['x'] + b + seq!['x'] + rest =~= a.push('x') + tail);
    let two = split(a.push('x') + b, 'x');
    assert(two[0] == a && two[1] == b);
    let more = split(a.push('x') + tail, 'x');
    assert(more[0] == a && more[1] == b);
}

proof fn lemma_decimal_lacks_x(n: u32)
    ensures
        !decimal(n as nat).contains('x'),
{
    lemma_decimal(n as nat);
    let s = decimal(n as nat);
    assert forall|i: int| 0 <= i < s.len() implies s[i] != 'x' by {
        assert(is_digit(s[i]));
    }
}

/// Every directory that is named by a width and a height names the smaller of them as a size.
pub proof fn law_dimensions_name_a_size(w: u32, h: u32)
    ensures
        named_size(decimal(w as nat) + "x"@ + decimal(h as nat)) == Some(
            if h < w {
                h
            } else {
                w
            },
        ),
{
    reveal_strlit("x");
    assert("x"@ =~= seq!['x']);
    lemma_decimal_lacks_x(w);
    lemma_decimal_lacks_x(h);
    law_u32_written_is_read_back(w);
    law_u32_written_is_read_back(h);
    law_size_is_the_smaller_number(decimal(w as nat), decimal(h as nat), Seq::empty());
}

/// A part of a path names the size that its text names; one that is no text names none.
pub proof fn law_parts_are_read_as_text(text: Seq<char>, bytes: Seq<u8>)
    ensures
        part_size(encode_utf8(text)) == named_size(text),
        !valid_utf8(bytes) ==> part_size(bytes) is None,
{
    vstd::utf8::encode_utf8_valid_utf8(text);
    vstd::utf8::encode_utf8_decode_utf8(text);
}

/// The size of an icon is the one that the first part of its path names, where that names any;
/// else it is what the rest of the path says, or 0 at its end.
pub proof fn law_first_size_on_the_path_counts(part: Seq<u8>, rest: Seq<u8>)
    requires
        !part.contains(0x2f),
    ensures
        icon_size(part) == (match part_size(part) {
            Some(size) => size,
            None => 0,
        }),
        icon_size(part + seq![0x2fu8] + rest) == (match part_size(part) {
            Some(size) => size,
            None => icon_size(rest),
        }),
{
    lemma_split_last(part, 0x2f);
    assert(seq![part].drop_first() =~= Seq::<Seq<u8>>::empty());
    assert(first_size(Seq::<Seq<u8>>::empty()) == 0);
    lemma_split_first(part, 0x2f, rest);
    assert(part + seq![0x2fu8] + rest =~= part.push(0x2f) + rest);
    let parts = seq![part] + split(rest, 0x2f);
    assert(parts[0] == part);
    assert(parts.drop_first() =~= split(rest, 0x2f));
}

/// The directories of a path one after another, each with a slash behind it.
pub open spec fn slashed(dirs: Seq<Seq<u8>>) -> Seq<u8>
    decreases dirs.len(),
{
    if dirs.len() == 0 {
        Seq::empty()
    } else {
        dirs[0] + seq![0x2fu8] + slashed(dirs.drop_first())
    }
}

proof fn lemma_no_slash_in_dimensions(w: u32, h: u32)
    ensures
        !encode_utf8(decimal(w as nat) + "x"@ + decimal(h as nat)).contains(0x2f),
{
    reveal_strlit("x");
    let text = decimal(w as nat) + "x"@ + decimal(h as nat);
    lemma_decimal(w as nat);
    lemma_decimal(h as nat);
    assert forall|i: int| 0 <= i < text.len() implies is_digit(#[trigger] text[i]) || text[i]
        == 'x' by {
        let n = decimal(w as nat).len();
        if i < n {
            assert(text[i] == decimal(w as nat)[i]);
        } else if i > n {
            assert(text[i] == decimal(h as nat)[i - n - 1]);
        }
    }
    lemma_plain_text_has_no_slash(text);
}

proof fn lemma_plain_character_has_no_slash(c: char)
    requires
        is_digit(c) || c == 'x',
    ensures
        !vstd::utf8::encode_scalar(c as u32).contains(0x2f),
{
    let v = c as u32;
    assert((v & 0x7f) as u8 != 0x2f) by (bit_vector)
        requires
            v <= 0x7f,
            v != 0x2f,
    ;
    assert(vstd::utf8::encode_scalar(v) =~= seq![(v & 0x7f) as u8]);
}

proof fn lemma_plain_text_has_no_slash(text: Seq<char>)
    requires
        forall|i: int| 0 <= i < text.len() ==> is_digit(#[trigger] text[i]) || text[i] == 'x',
    ensures
        !encode_utf8(text).contains(0x2f),
    decreases text.len(),
{
    if text.len() > 0 {
        let rest = text.drop_first();
        assert forall|i: int| 0 <= i < rest.len() implies is_digit(#[trigger] rest[i]) || rest[i]
            == 'x' by {
            assert(rest[i] == text[i + 1]);
        }
        lemma_plain_text_has_no_slash(rest);
        assert(is_digit(text[0]) || text[0] == 'x');
        lemma_plain_character_has_no_slash(text[0]);
        let first = vstd::utf8::encode_scalar(text[0] as u32);
        let bytes = first + encode_utf8(rest);
        assert forall|i: int| 0 <= i < bytes.len() implies bytes[i] != 0x2f by {
            if i < first.len() {
                assert(first.contains(first[i]));
            } else {
                assert(encode_utf8(rest).contains(encode_utf8(rest)[i - first.len()]));
            }
        }
        assert(encode_utf8(text) =~= bytes);
    }
}

/// An icon in a directory that is named by a width and a height has the smaller of them as its
/// size, where no directory on the way there names one.
pub proof fn law_icon_has_the_size_of_its_directory(
    dirs: Seq<Seq<u8>>,
    w: u32,
    h: u32,
    rest: Seq<u8>,
)
    requires
        forall|i: int|
            0 <= i < dirs.len() ==> !(#[trigger] dirs[i]).contains(0x2f) && part_size(dirs[i])
                is None,
    ensures
        icon_size(
            slashed(dirs) + encode_utf8(decimal(w as nat) + "x"@ + decimal(h as nat))
                + seq![0x2fu8] + rest,
        ) == (if h < w {
            h
        } else {
            w
        }),
    decreases dirs.len(),
{
    let named = encode_utf8(decimal(w as nat) + "x"@ + decimal(h as nat));
    let tail = named + seq![0x2fu8] + rest;
    let path = slashed(dirs) + named + seq![0x2fu8] + rest;
    if dirs.len() == 0 {
        assert(path =~= tail);
        lemma_no_slash_in_dimensions(w, h);
        law_first_size_on_the_path_counts(named, rest);
        law_parts_are_read_as_text(
            decimal(w as nat) + "x"@ + decimal(h as nat),
            Seq::empty(),
        );
        law_dimensions_name_a_size(w, h);
    } else {
        let front = dirs.drop_first();
        assert forall|i: int| 0 <= i < front.len() implies !(#[trigger] front[i]).contains(0x2f)
            && part_size(front[i]) is None by {
            assert(front[i] == dirs[i + 1]);
        }
        law_icon_has_the_size_of_its_directory(front, w, h, rest);
        let behind = slashed(front) + named + seq![0x2fu8] + rest;
        assert(path =~= dirs[0] + seq![0x2fu8] + behind);
        law_first_size_on_the_path_counts(dirs[0], behind);
    }
}

/// The wanted files are those that are called by the icon's name with `.png` or `.svg` behind
/// it, in whichever directory.
pub proof fn law_wanted_files(search: Search, dir: Seq<u8>, file: Seq<u8>)
    requires
        !file.contains(0x2f),
    ensures
        search.wants(dir + seq![0x2fu8] + file) <==> (file == encode_utf8(search.name + ".png"@)
            || file == encode_utf8(search.name + ".svg"@)),
        search.wants(file) <==> (file == encode_utf8(search.name + ".png"@) || file == encode_utf8(
            search.name + ".svg"@,
        )),
{
    let path = dir + seq![0x2fu8] + file;
    let start = dir.len() as int + 1;
    assert forall|j: int| start <= j < path.len() implies path[j] != 0x2f by {
        assert(file.contains(file[j - start]));
    }
    lemma_file_name(path, start);
    assert(path.skip(start) =~= file);
    assert forall|j: int| 0 <= j < file.len() implies file[j] != 0x2f by {
        assert(file.contains(file[j]));
    }
    lemma_file_name(file, 0);
    assert(file.skip(0) =~= file);
}

/// What one more entry of a directory adds to a search: a directory waits to be read, before
/// all that waited; a wanted file is the best icon where there was none or a smaller one;
/// anything else changes nothing.
pub proof fn law_one_more_entry(search: Search, entries: Seq<DirEntry>, entry: DirEntry)
    ensures
        search.scanned(Seq::<DirEntry>::empty()) == search,
        ({
            let before = search.scanned(entries);
            let after = search.scanned(entries.push(entry));
            &&& after.name == before.name && after.bases == before.bases
            &&& entry.is_dir ==> after.stack == before.stack.push(entry.path@) && after.best
                == before.best
            &&& !entry.is_dir ==> after.stack == before.stack
            &&& !entry.is_dir && !before.wants(entry.path@) ==> after.best == before.best
            &&& !entry.is_dir && before.wants(entry.path@) ==> match before.best {
                Some((size, _)) if size >= icon_size(entry.path@) => after.best == before.best,
                _ => after.best == Some((icon_size(entry.path@), entry.path@)),
            }
        }),
{
    assert(entries.push(entry).drop_last() =~= entries);
}

/// What the answers of the file system change: a base that was tested waits no more, and is to
/// be read where it is a directory; what a directory holds is scanned; a directory that could
/// not be read changes nothing, and no more does the start.
pub proof fn law_answers_of_the_file_system(search: Search, entries: Vec<DirEntry>)
    ensures
        search.informed(SearchEvent::Start) == search,
        search.informed(SearchEvent::Listed(None)) == search,
        search.informed(SearchEvent::Listed(Some(entries))) == search.scanned(entries@),
        search.bases.len() == 0 ==> {
            &&& search.informed(SearchEvent::BaseTested(false)) == search
            &&& search.informed(SearchEvent::BaseTested(true)) == search
        },
        search.bases.len() > 0 ==> {
            &&& search.informed(SearchEvent::BaseTested(false)) == (Search {
                bases: search.bases.drop_first(),
                ..search
            })
            &&& search.informed(SearchEvent::BaseTested(true)) == (Search {
                bases: search.bases.drop_first(),
                stack: search.stack.push(search.bases[0]),
                ..search
            })
        },
{
}

/// What a search asks for: the directory that waits since last, which then waits no more; else
/// the first base; and nothing once neither waits, when the best icon is what was found.
pub proof fn law_questions_of_a_search(search: Search)
    ensures
        search.stack.len() > 0 ==> {
            &&& search.asks() == Asked::ReadDir(search.stack.last())
            &&& search.having_asked() == (Search { stack: search.stack.drop_last(), ..search })
        },
        search.stack.len() == 0 ==> search.having_asked() == search,
        search.stack.len() == 0 && search.bases.len() > 0 ==> search.asks() == Asked::TestBase(
            search.bases[0],
        ),
        search.stack.len() == 0 && search.bases.len() == 0 ==> match search.best {
            Some((_, path)) => search.asks() == Asked::Done(Some(path)),
            None => search.asks() == Asked::Done(None),
        },
{
}

/// The directories that are searched: the tray's own, the user's `.local/share/icons`, and the
/// system's two, in this order. The first two are left out where they do not start at the root,
/// or are not there.
pub proof fn law_where_icons_are_searched(theme_path: Option<String>, home: Option<Vec<u8>>)
    ensures
        ({
            let bases = search_bases(theme_path, home);
            let own = encode_utf8(".local/share/icons"@);
            let named = (theme_path matches Some(dir) && dir@.len() > 0 && dir@[0] == '/');
            let housed = (home matches Some(dir) && dir@.len() > 0 && dir@[0] == 0x2f);
            let count: int = if named && housed {
                2
            } else if named || housed {
                1
            } else {
                0
            };
            &&& bases.len() == count + 2
            &&& named ==> bases[0] == encode_utf8(theme_path->0@)
            &&& housed && home->0@.last() != 0x2f ==> bases[count - 1] == home->0@ + seq![0x2fu8]
                + own
            &&& housed && home->0@.last() == 0x2f ==> bases[count - 1] == home->0@ + own
            &&& bases[count] == encode_utf8("/usr/share/icons"@)
            &&& bases[count + 1] == encode_utf8("/usr/share/pixmaps"@)
        }),
{
    reveal_strlit(".local/share/icons");
    lemma_relative(".local/share/icons"@);
    if let Some(dir) = theme_path {
        lemma_absolute_text(dir@);
    }
    if let Some(dir) = home {
        let own = encode_utf8(".local/share/icons"@);
        assert(dir@.push(0x2f) + own =~= dir@ + seq![0x2fu8] + own);
    }
}

/// A search that is over has found the largest of the wanted files that were listed to it, and
/// of several the one that was listed first; it has found none only where none was listed.
pub proof fn law_search_ends_with_the_largest(
    name: Seq<char>,
    theme_path: Option<String>,
    home: Option<Vec<u8>>,
    events: Seq<SearchEvent>,
    found: Option<Seq<u8>>,
)
    requires
        events.len() > 0,
        asked(unbegun(name, theme_path, home), events) == Asked::Done(found),
    ensures
        ({
            let search = unbegun(name, theme_path, home);
            let all = listed(events);
            &&& search.name == name
            &&& forall|k: int|
                0 <= k < all.len() && !(#[trigger] all[k]).is_dir && search.wants(all[k].path@)
                    ==> found is Some && icon_size(all[k].path@) <= icon_size(found->0)
            &&& found matches Some(path) ==> exists|k: int|
                {
                    &&& 0 <= k < all.len() && !(#[trigger] all[k]).is_dir
                    &&& search.wants(all[k].path@) && all[k].path@ == path
                    &&& forall|j: int|
                        0 <= j < k && !(#[trigger] all[j]).is_dir && search.wants(all[j].path@)
                            ==> icon_size(all[j].path@) < icon_size(path)
                }
        }),
{
    let search = unbegun(name, theme_path, home);
    let all = listed(events);
    law_search_knows_the_best_of_all_listings(search, events);
    law_largest_icon_wins(search, all);
    let told = run(search, events.drop_last()).informed(events.last());
    assert(run(search, events).best == told.best);
    if found is Some {
        let k = choose|k: int| #[trigger]
            wins(search, all, k) && search.scanned(all).best == Some(
                (icon_size(all[k].path@), all[k].path@),
            );
        assert(all[k].path@ == found->0);
    }
}

/// A search begins with all bases before it, and with nothing found.
pub proof fn law_search_begins_with_all_bases(
    name: Seq<char>,
    theme_path: Option<String>,
    home: Option<Vec<u8>>,
)
    ensures
        unbegun(name, theme_path, home).name == name,
        unbegun(name, theme_path, home).bases == search_bases(theme_path, home),
        unbegun(name, theme_path, home).stack.len() == 0,
        unbegun(name, theme_path, home).best is None,
{
}

/// A question is looked at as it is.
pub proof fn law_question_is_looked_at_as_it_is(action: SearchAction)
    ensures
        action matches SearchAction::TestBase(path) ==> action@ == Asked::TestBase(path@),
        action matches SearchAction::ReadDir(path) ==> action@ == Asked::ReadDir(path@),
        action matches SearchAction::Done(Some(path)) ==> action@ == Asked::Done(Some(path@)),
        action matches SearchAction::Done(None) ==> action@ == Asked::Done(None),
{
}

} // verus!
