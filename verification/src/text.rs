//! Characters, words, fields and lines of the text that travels over the socket.

use vstd::prelude::*;
use vstd::utf8::{decode_utf8, valid_utf8};

verus! {

/// `String::push` appends the given character to the end of the string.
pub assume_specification[ String::push ](s: &mut String, c: char)
    ensures
        final(s)@ == old(s)@.push(c),
;

/// `std::str::from_utf8` gives the text of bytes that are valid UTF-8, and an error for any
/// others.
#[verifier::external_body]
pub(crate) fn utf8_text(bytes: &[u8]) -> (r: Option<&str>)
    ensures
        r is Some <==> valid_utf8(bytes@),
        r matches Some(text) ==> text@ == decode_utf8(bytes@),
{
    std::str::from_utf8(bytes).ok()
}

/// The Unicode `White_Space` characters.
pub open spec fn is_space(c: char) -> bool {
    ||| '\u{9}' <= c <= '\u{d}'
    ||| c == ' '
    ||| c == '\u{85}'
    ||| c == '\u{a0}'
    ||| c == '\u{1680}'
    ||| '\u{2000}' <= c <= '\u{200a}'
    ||| c == '\u{2028}'
    ||| c == '\u{2029}'
    ||| c == '\u{202f}'
    ||| c == '\u{205f}'
    ||| c == '\u{3000}'
}

/// Whether a character separates words.
pub fn whitespace(c: char) -> (r: bool)
    ensures
        r == is_space(c),
{
    ('\u{9}' <= c && c <= '\u{d}') || c == ' ' || c == '\u{85}' || c == '\u{a0}' || c == '\u{1680}'
        || ('\u{2000}' <= c && c <= '\u{200a}') || c == '\u{2028}' || c == '\u{2029}'
        || c == '\u{202f}' || c == '\u{205f}' || c == '\u{3000}'
}

/// The characters of a string, in order.
pub fn chars_of(s: &str) -> (r: Vec<char>)
    ensures
        r@ == s@,
{
    let mut r: Vec<char> = Vec::new();
    for c in it: s.chars()
        invariant
            it.seq() == s@,
            r@ == s@.take(it.index() as int),
    {
        r.push(c);
    }
    assert(s@.take(s@.len() as int) =~= s@);
    r
}

/// The string of the given characters.
pub fn string_of(chars: &Vec<char>) -> (r: String)
    ensures
        r@ == chars@,
{
    let mut r: String = String::new();
    let mut i: usize = 0;
    while i < chars.len()
        invariant
            i <= chars.len(),
            r@ == chars@.take(i as int),
        decreases chars.len() - i,
    {
        r.push(chars[i]);
        i += 1;
        assert(chars@.take(i as int) =~= chars@.take(i - 1).push(chars@[i - 1]));
    }
    assert(chars@.take(i as int) =~= chars@);
    r
}

/// The texts that a list of character vectors holds.
pub open spec fn texts(v: Seq<Vec<char>>) -> Seq<Seq<char>> {
    Seq::new(v.len(), |i: int| v[i]@)
}

/// The characters from position `from` up to, not including, position `to`.
pub fn slice_chars(chars: &Vec<char>, from: usize, to: usize) -> (r: Vec<char>)
    requires
        from <= to <= chars@.len(),
    ensures
        r@ == chars@.subrange(from as int, to as int),
{
    let mut r: Vec<char> = Vec::new();
    let mut i: usize = from;
    while i < to
        invariant
            from <= i <= to <= chars@.len(),
            r@ == chars@.subrange(from as int, i as int),
        decreases to - i,
    {
        r.push(chars[i]);
        i += 1;
        assert(chars@.subrange(from as int, i as int) =~= chars@.subrange(
            from as int,
            i - 1,
        ).push(chars@[i - 1]));
    }
    r
}

/// How many elements stand before the first `sep`, or all of them where there is none.
pub open spec fn until<T>(s: Seq<T>, sep: T) -> nat
    decreases s.len(),
{
    if s.len() == 0 || s[0] == sep {
        0
    } else {
        1 + until(s.drop_first(), sep)
    }
}

/// The pieces between the separators: always one more than there are separators.
pub open spec fn split<T>(s: Seq<T>, sep: T) -> Seq<Seq<T>>
    decreases s.len(),
{
    let n = until(s, sep);
    if n >= s.len() {
        seq![s]
    } else {
        seq![s.take(n as int)] + split(s.skip(n as int + 1), sep)
    }
}

/// `until` is the one length that ends at a separator or at the end of the sequence, with
/// no separator before it.
pub proof fn lemma_until<T>(s: Seq<T>, sep: T, n: nat)
    requires
        n <= s.len(),
        forall|i: int| 0 <= i < n ==> s[i] != sep,
        n < s.len() ==> s[n as int] == sep,
    ensures
        until(s, sep) == n,
    decreases n,
{
    if n > 0 {
        lemma_until(s.drop_first(), sep, (n - 1) as nat);
    }
}

/// A piece without separators followed by one is the first piece of a split.
pub proof fn lemma_split_first<T>(piece: Seq<T>, sep: T, rest: Seq<T>)
    requires
        !piece.contains(sep),
    ensures
        split(piece.push(sep) + rest, sep) == seq![piece] + split(rest, sep),
{
    let s = piece.push(sep) + rest;
    assert forall|i: int| 0 <= i < piece.len() implies s[i] != sep by {
        assert(s[i] == piece[i]);
    }
    lemma_until(s, sep, piece.len());
    assert(s.take(piece.len() as int) =~= piece);
    assert(s.skip(piece.len() as int + 1) =~= rest);
}

/// A sequence without separators is its own only piece.
pub proof fn lemma_split_last<T>(piece: Seq<T>, sep: T)
    requires
        !piece.contains(sep),
    ensures
        split(piece, sep) == seq![piece],
{
    assert forall|i: int| 0 <= i < piece.len() implies piece[i] != sep by {
        assert(piece.contains(piece[i]));
    }
    lemma_until(piece, sep, piece.len());
}

/// Splits at every `sep`.
pub fn split_chars(chars: &Vec<char>, sep: char) -> (r: Vec<Vec<char>>)
    ensures
        texts(r@) == split(chars@, sep),
{
    let mut r: Vec<Vec<char>> = Vec::new();
    let mut start: usize = 0;
    let mut i: usize = 0;
    assert(chars@.skip(0) =~= chars@);
    assert(texts(r@) + split(chars@, sep) =~= split(chars@, sep));
    while i < chars.len()
        invariant
            start <= i <= chars@.len(),
            forall|j: int| start <= j < i ==> chars@[j] != sep,
            texts(r@) + split(chars@.skip(start as int), sep) == split(chars@, sep),
        decreases chars.len() - i,
    {
        if chars[i] == sep {
            let piece = slice_chars(chars, start, i);
            let ghost before = r@;
            let ghost tail = chars@.skip(start as int);
            proof {
                assert forall|j: int| 0 <= j < piece@.len() implies piece@[j] != sep by {
                    assert(piece@[j] == chars@[start + j]);
                }
                assert(tail =~= piece@.push(sep) + chars@.skip(i + 1));
                lemma_split_first(piece@, sep, chars@.skip(i + 1));
            }
            r.push(piece);
            assert(texts(r@) =~= texts(before).push(piece@));
            assert(texts(before) + split(tail, sep) =~= texts(r@) + split(
                chars@.skip(i + 1),
                sep,
            ));
            start = i + 1;
        }
        i += 1;
    }
    let piece = slice_chars(chars, start, i);
    let ghost before = r@;
    proof {
        assert(piece@ =~= chars@.skip(start as int));
        assert forall|j: int| 0 <= j < piece@.len() implies piece@[j] != sep by {
            assert(piece@[j] == chars@[start + j]);
        }
        lemma_split_last(piece@, sep);
    }
    r.push(piece);
    assert(texts(r@) =~= texts(before) + seq![piece@]);
    r
}

/// A terminated line without the carriage return that may close it.
pub open spec fn chomp(line: Seq<char>) -> Seq<char> {
    if line.len() > 0 && line.last() == '\r' {
        line.drop_last()
    } else {
        line
    }
}

/// The lines of a text: each ends at a newline, which may follow a carriage return; the
/// last one may go without either.
pub open spec fn lines(s: Seq<char>) -> Seq<Seq<char>>
    decreases s.len(),
{
    let n = until(s, '\n');
    if s.len() == 0 {
        Seq::empty()
    } else if n >= s.len() {
        seq![s]
    } else {
        seq![chomp(s.take(n as int))] + lines(s.skip(n as int + 1))
    }
}

/// A terminated line comes first, whatever follows it.
pub proof fn lemma_lines_first(line: Seq<char>, rest: Seq<char>)
    requires
        !line.contains('\n'),
    ensures
        lines(line.push('\n') + rest) == seq![chomp(line)] + lines(rest),
{
    let s = line.push('\n') + rest;
    assert forall|i: int| 0 <= i < line.len() implies s[i] != '\n' by {
        assert(s[i] == line[i]);
    }
    lemma_until(s, '\n', line.len());
    assert(s.take(line.len() as int) =~= line);
    assert(s.skip(line.len() as int + 1) =~= rest);
}

/// The lines of a text.
pub fn lines_of(chars: &Vec<char>) -> (r: Vec<Vec<char>>)
    ensures
        texts(r@) == lines(chars@),
{
    let mut r: Vec<Vec<char>> = Vec::new();
    let mut start: usize = 0;
    let mut i: usize = 0;
    assert(chars@.skip(0) =~= chars@);
    assert(texts(r@) + lines(chars@) =~= lines(chars@));
    while i < chars.len()
        invariant
            start <= i <= chars@.len(),
            forall|j: int| start <= j < i ==> chars@[j] != '\n',
            texts(r@) + lines(chars@.skip(start as int)) == lines(chars@),
        decreases chars.len() - i,
    {
        if chars[i] == '\n' {
            let ghost line = chars@.subrange(start as int, i as int);
            let end: usize = if start < i && chars[i - 1] == '\r' {
                i - 1
            } else {
                i
            };
            let piece = slice_chars(chars, start, end);
            let ghost before = r@;
            let ghost tail = chars@.skip(start as int);
            proof {
                assert forall|j: int| 0 <= j < line.len() implies line[j] != '\n' by {
                    assert(line[j] == chars@[start + j]);
                }
                assert(tail =~= line.push('\n') + chars@.skip(i + 1));
                lemma_lines_first(line, chars@.skip(i + 1));
                assert(piece@ =~= chomp(line));
            }
            r.push(piece);
            assert(texts(r@) =~= texts(before).push(piece@));
            assert(texts(before) + lines(tail) =~= texts(r@) + lines(chars@.skip(i + 1)));
            start = i + 1;
        }
        i += 1;
    }
    if start < i {
        let piece = slice_chars(chars, start, i);
        let ghost before = r@;
        proof {
            assert(piece@ =~= chars@.skip(start as int));
            assert forall|j: int| 0 <= j < piece@.len() implies piece@[j] != '\n' by {
                assert(piece@[j] == chars@[start + j]);
            }
            lemma_until(piece@, '\n', piece@.len());
        }
        r.push(piece);
        assert(texts(r@) =~= texts(before) + seq![piece@]);
    } else {
        assert(chars@.skip(start as int) =~= Seq::<char>::empty());
        assert(texts(r@) + Seq::<Seq<char>>::empty() =~= texts(r@));
    }
    r
}

/// How many characters stand before the first white space, or all of them.
pub open spec fn word_len(s: Seq<char>) -> nat
    decreases s.len(),
{
    if s.len() == 0 || is_space(s[0]) {
        0
    } else {
        1 + word_len(s.drop_first())
    }
}

/// The words of a text: its longest runs without white space.
pub open spec fn words(s: Seq<char>) -> Seq<Seq<char>>
    decreases s.len(),
{
    if s.len() == 0 {
        Seq::empty()
    } else if is_space(s[0]) {
        words(s.drop_first())
    } else {
        let n = word_len(s);
        if 0 < n <= s.len() {
            seq![s.take(n as int)] + words(s.skip(n as int))
        } else {
            Seq::empty()
        }
    }
}

/// `word_len` is the one length that ends at white space or at the end of the text, with no
/// white space before it.
pub proof fn lemma_word_len(s: Seq<char>, n: nat)
    requires
        n <= s.len(),
        forall|i: int| 0 <= i < n ==> !is_space(s[i]),
        n < s.len() ==> is_space(s[n as int]),
    ensures
        word_len(s) == n,
    decreases n,
{
    if n > 0 {
        lemma_word_len(s.drop_first(), (n - 1) as nat);
    }
}

/// Whether a text is one word: not empty, and without white space.
pub open spec fn is_word(w: Seq<char>) -> bool {
    &&& w.len() > 0
    &&& forall|i: int| 0 <= i < w.len() ==> !is_space(#[trigger] w[i])
}

/// A word that white space or the end follows is the first word.
pub proof fn lemma_words_first(word: Seq<char>, rest: Seq<char>)
    requires
        is_word(word),
        rest.len() > 0 ==> is_space(rest[0]),
    ensures
        words(word + rest) == seq![word] + words(rest),
{
    let s = word + rest;
    assert forall|i: int| 0 <= i < word.len() implies !is_space(s[i]) by {
        assert(s[i] == word[i]);
    }
    lemma_word_len(s, word.len());
    assert(!is_space(s[0]));
    assert(s.take(word.len() as int) =~= word);
    assert(s.skip(word.len() as int) =~= rest);
}

/// The words of a text.
pub fn words_of(chars: &Vec<char>) -> (r: Vec<Vec<char>>)
    ensures
        texts(r@) == words(chars@),
{
    let mut r: Vec<Vec<char>> = Vec::new();
    let mut i: usize = 0;
    assert(chars@.skip(0) =~= chars@);
    assert(texts(r@) + words(chars@) =~= words(chars@));
    while i < chars.len()
        invariant
            i <= chars@.len(),
            texts(r@) + words(chars@.skip(i as int)) == words(chars@),
        decreases chars.len() - i,
    {
        let ghost tail = chars@.skip(i as int);
        if whitespace(chars[i]) {
            assert(tail.drop_first() =~= chars@.skip(i + 1));
            i += 1;
        } else {
            let start: usize = i;
            while i < chars.len() && !whitespace(chars[i])
                invariant
                    start <= i <= chars@.len(),
                    forall|j: int| start <= j < i ==> !is_space(chars@[j]),
                decreases chars.len() - i,
            {
                i += 1;
            }
            let piece = slice_chars(chars, start, i);
            let ghost before = r@;
            proof {
                assert forall|j: int| 0 <= j < piece@.len() implies !is_space(
                    #[trigger] piece@[j],
                ) by {
                    assert(piece@[j] == chars@[start + j]);
                }
                assert(piece@.len() > 0) by {
                    assert(!is_space(chars@[start as int]));
                }
                assert(tail =~= piece@ + chars@.skip(i as int));
                lemma_words_first(piece@, chars@.skip(i as int));
            }
            r.push(piece);
            assert(texts(r@) =~= texts(before).push(piece@));
            assert(texts(before) + words(tail) =~= texts(r@) + words(chars@.skip(i as int)));
        }
    }
    assert(chars@.skip(i as int) =~= Seq::<char>::empty());
    assert(texts(r@) + Seq::<Seq<char>>::empty() =~= texts(r@));
    r
}

/// White space is what Unicode calls so.
pub proof fn law_white_space(c: char)
    ensures
        is_space(c) <==> {
            let v = c as u32;
            ||| 9 <= v <= 13
            ||| 0x2000 <= v <= 0x200a
            ||| v == 0x20 || v == 0x85 || v == 0xa0 || v == 0x1680
            ||| v == 0x2028 || v == 0x2029 || v == 0x202f || v == 0x205f || v == 0x3000
        },
{
}

/// Words are what white space separates: it is skipped where it leads, a word that it follows
/// or that ends the text is the first of them, and a text without anything has none.
pub proof fn law_words(space: char, word: Seq<char>, rest: Seq<char>)
    requires
        is_space(space),
        word.len() > 0,
        forall|i: int| 0 <= i < word.len() ==> !is_space(#[trigger] word[i]),
    ensures
        words(Seq::<char>::empty()) == Seq::<Seq<char>>::empty(),
        words(seq![space] + rest) == words(rest),
        words(word) == seq![word],
        words(word + seq![space] + rest) == seq![word] + words(rest),
{
    let none = Seq::<char>::empty();
    assert(words(none) =~= Seq::<Seq<char>>::empty());
    let led = seq![space] + rest;
    assert(led.drop_first() =~= rest);
    lemma_words_first(word, none);
    assert(word + none =~= word);
    assert(seq![word] + words(none) =~= seq![word]);
    lemma_words_first(word, led);
    assert(word + seq![space] + rest =~= word + led);
}

/// Fields are what separators stand between: what comes before the first one is the first
/// field, and what holds none is a field by itself.
pub proof fn law_fields<T>(field: Seq<T>, sep: T, rest: Seq<T>)
    requires
        forall|i: int| 0 <= i < field.len() ==> #[trigger] field[i] != sep,
    ensures
        split(field, sep) == seq![field],
        split(field + seq![sep] + rest, sep) == seq![field] + split(rest, sep),
{
    lemma_split_last(field, sep);
    lemma_split_first(field, sep, rest);
    assert(field + seq![sep] + rest =~= field.push(sep) + rest);
}

/// Lines end in a newline, which a carriage return may precede; what is left behind the last
/// newline is a line too, unless nothing is.
pub proof fn law_lines(line: Seq<char>, rest: Seq<char>)
    requires
        forall|i: int| 0 <= i < line.len() ==> #[trigger] line[i] != '\n',
    ensures
        lines(Seq::<char>::empty()) == Seq::<Seq<char>>::empty(),
        line.len() > 0 ==> lines(line) == seq![line],
        lines(line + seq!['\r', '\n'] + rest) == seq![line] + lines(rest),
        line.len() == 0 || line.last() != '\r' ==> lines(line + seq!['\n'] + rest) == seq![line]
            + lines(rest),
{
    assert(lines(Seq::<char>::empty()) =~= Seq::<Seq<char>>::empty());
    lemma_until(line, '\n', line.len());
    let returned = line.push('\r');
    assert(returned.drop_last() =~= line);
    lemma_lines_first(returned, rest);
    assert(line + seq!['\r', '\n'] + rest =~= returned.push('\n') + rest);
    lemma_lines_first(line, rest);
    assert(line + seq!['\n'] + rest =~= line.push('\n') + rest);
}

} // verus!
