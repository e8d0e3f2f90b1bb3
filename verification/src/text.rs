//! Character-level helpers shared by the parsers.

use vstd::prelude::*;

verus! {

/// Whitespace that carries no meaning anywhere in a schedule: space, tab,
/// carriage return and form feed. A line feed is not blank; it ends a line.
pub open spec fn is_blank(c: char) -> bool {
    c == ' ' || c == '\t' || c == '\r' || c == '\u{c}'
}

/// `s` with every blank character removed.
pub open spec fn without_blanks(s: Seq<char>) -> Seq<char>
    decreases s.len(),
{
    if s.len() == 0 {
        Seq::empty()
    } else if is_blank(s.last()) {
        without_blanks(s.drop_last())
    } else {
        without_blanks(s.drop_last()).push(s.last())
    }
}

/// The characters of `text` that are not blank, in order.
pub fn strip_blanks(text: &str) -> (out: Vec<char>)
    ensures
        out@ == without_blanks(text@),
{
    let mut out: Vec<char> = Vec::new();
    for c in it: text.chars()
        invariant
            it.seq() == text@,
            out@ == without_blanks(text@.take(it.index() as int)),
    {
        proof {
            let n = it.index() as int;
            assert(text@.take(n + 1).drop_last() == text@.take(n));
        }
        if !(c == ' ' || c == '\t' || c == '\r' || c == '\u{c}') {
            out.push(c);
        }
    }
    proof {
        assert(text@.take(text@.len() as int) == text@);
    }
    out
}

/// Appending one character with std's `String::push` lengthens the text by
/// exactly that character.
pub assume_specification[ String::push ](s: &mut String, ch: char)
    ensures
        final(s)@ == old(s)@.push(ch),
;

/// The text made of the characters `chars`, in order.
pub fn text_of(chars: &Vec<char>) -> (s: String)
    ensures
        s@ == chars@,
{
    let mut s = String::new();
    let mut i: usize = 0;
    while i < chars.len()
        invariant
            i <= chars.len(),
            s@ == chars@.take(i as int),
        decreases chars.len() - i,
    {
        s.push(chars[i]);
        i = i + 1;
        assert(chars@.take(i as int) == chars@.take(i - 1).push(chars@[i - 1]));
    }
    assert(chars@.take(chars.len() as int) == chars@);
    s
}

/// The pieces into which the separator `sep` cuts `s`: one more piece than
/// there are separators, none of them holding a separator, some possibly
/// empty. Reading left to right, a separator opens a new empty piece and any
/// other character lengthens the piece that is open.
pub open spec fn split(s: Seq<char>, sep: char) -> Seq<Seq<char>>
    decreases s.len(),
{
    if s.len() == 0 {
        seq![Seq::empty()]
    } else {
        let before = split(s.drop_last(), sep);
        if s.last() == sep {
            before.push(Seq::empty())
        } else {
            before.drop_last().push(before.last().push(s.last()))
        }
    }
}

/// The character sequences held by a vector of character vectors.
pub open spec fn views(pieces: Seq<Vec<char>>) -> Seq<Seq<char>> {
    Seq::new(pieces.len(), |i: int| pieces[i]@)
}

/// Cuts `s` at every occurrence of `sep`.
pub fn split_at(s: &Vec<char>, sep: char) -> (pieces: Vec<Vec<char>>)
    ensures
        views(pieces@) == split(s@, sep),
        pieces@.len() >= 1,
{
    let mut done: Vec<Vec<char>> = Vec::new();
    let mut current: Vec<char> = Vec::new();
    let mut i: usize = 0;
    while i < s.len()
        invariant
            i <= s.len(),
            views(done@).push(current@) == split(s@.take(i as int), sep),
        decreases s.len() - i,
    {
        let c = s[i];
        proof {
            assert(s@.take(i + 1).drop_last() == s@.take(i as int));
            assert(views(done@).push(current@).drop_last() == views(done@));
        }
        if c == sep {
            proof {
                assert(views(done@.push(current)) == views(done@).push(current@));
            }
            done.push(current);
            current = Vec::new();
        } else {
            current.push(c);
        }
        i = i + 1;
    }
    proof {
        assert(s@.take(s.len() as int) == s@);
        assert(views(done@.push(current)) == views(done@).push(current@));
    }
    done.push(current);
    done
}

/// Whether `c` is one of the decimal digits `0` to `9`.
pub open spec fn is_digit(c: char) -> bool {
    '0' <= c <= '9'
}

/// The number that the decimal digit `c` stands for.
pub open spec fn digit_value(c: char) -> nat {
    (c as u32 - '0' as u32) as nat
}

/// Whether `s` holds decimal digits only.
pub open spec fn all_digits(s: Seq<char>) -> bool {
    forall|i: int| 0 <= i < s.len() ==> is_digit(#[trigger] s[i])
}

/// The number written by the decimal digits `s`, most significant first.
pub open spec fn digits_value(s: Seq<char>) -> nat
    decreases s.len(),
{
    if s.len() == 0 {
        0
    } else {
        digits_value(s.drop_last()) * 10 + digit_value(s.last())
    }
}

/// The digits of a written number: what follows an optional leading `+`.
pub open spec fn number_digits(s: Seq<char>) -> Seq<char> {
    if s.len() > 0 && s[0] == '+' {
        s.skip(1)
    } else {
        s
    }
}

/// The non-negative integer that `s` writes: an optional `+` and then one or
/// more decimal digits, with nothing before, between or after them. Leading
/// zeros are allowed.
pub open spec fn number(s: Seq<char>) -> Option<nat> {
    let digits = number_digits(s);
    if digits.len() > 0 && all_digits(digits) {
        Some(digits_value(digits))
    } else {
        None
    }
}

/// A number can only grow when a digit is written after it.
pub proof fn lemma_digits_value_grows(s: Seq<char>, n: int)
    requires
        0 <= n <= s.len(),
    ensures
        digits_value(s.take(n)) <= digits_value(s),
    decreases s.len() - n,
{
    if n < s.len() {
        assert(s.take(n + 1).drop_last() == s.take(n));
        lemma_digits_value_grows(s, n + 1);
    } else {
        assert(s.take(n) == s);
    }
}

/// Reads the non-negative integer that `s` writes, provided that it is at
/// most `limit`.
pub fn parse_number(s: &Vec<char>, limit: u32) -> (r: Option<u32>)
    ensures
        r is Some <==> number(s@) is Some && number(s@).unwrap() <= limit,
        r matches Some(v) ==> v == number(s@).unwrap(),
{
    let start: usize = if s.len() > 0 && s[0] == '+' {
        1
    } else {
        0
    };
    if start == s.len() {
        return None;
    }
    let ghost digits = number_digits(s@);
    assert(digits == s@.skip(start as int));
    let mut value: u32 = 0;
    let mut i: usize = start;
    while i < s.len()
        invariant
            start <= i <= s.len(),
            digits == s@.skip(start as int),
            digits == number_digits(s@),
            all_digits(digits.take(i - start)),
            value == digits_value(digits.take(i - start)),
            value <= limit,
        decreases s.len() - i,
    {
        let c = s[i];
        proof {
            assert(digits.take(i + 1 - start).drop_last() == digits.take(i - start));
            assert(digits[i - start] == c);
        }
        if !('0' <= c && c <= '9') {
            assert(!is_digit(digits[i - start]));
            return None;
        }
        let next: u64 = value as u64 * 10 + (c as u32 - '0' as u32) as u64;
        if next > limit as u64 {
            proof {
                assert(digits_value(digits.take(i + 1 - start)) == next);
                lemma_digits_value_grows(digits, i + 1 - start);
            }
            return None;
        }
        value = next as u32;
        i = i + 1;
    }
    assert(digits.take(i - start) == digits);
    Some(value)
}

/// The characters of `text`, in order.
pub fn chars_of(text: &str) -> (out: Vec<char>)
    ensures
        out@ == text@,
{
    let mut out: Vec<char> = Vec::new();
    for c in it: text.chars()
        invariant
            it.seq() == text@,
            out@ == text@.take(it.index() as int),
    {
        proof {
            let n = it.index() as int;
            assert(text@.take(n + 1) == text@.take(n).push(text@[n]));
        }
        out.push(c);
    }
    proof {
        assert(text@.take(text@.len() as int) == text@);
    }
    out
}

/// Whether `s` reads exactly as `word`.
pub fn is_word(s: &Vec<char>, word: &str) -> (same: bool)
    ensures
        same == (s@ == word@),
{
    let w = chars_of(word);
    if s.len() != w.len() {
        return false;
    }
    let mut i: usize = 0;
    while i < s.len()
        invariant
            i <= s.len(),
            s.len() == w.len(),
            w@ == word@,
            s@.take(i as int) == w@.take(i as int),
        decreases s.len() - i,
    {
        if s[i] != w[i] {
            return false;
        }
        proof {
            assert(s@.take(i + 1) == s@.take(i as int).push(s@[i as int]));
            assert(w@.take(i + 1) == w@.take(i as int).push(w@[i as int]));
        }
        i = i + 1;
    }
    proof {
        assert(s@.take(s.len() as int) == s@);
        assert(w@.take(w.len() as int) == w@);
    }
    true
}

/// The character sequences held by a vector of texts.
pub open spec fn texts(items: Seq<String>) -> Seq<Seq<char>> {
    Seq::new(items.len(), |i: int| items[i]@)
}

/// The texts made of each of the pieces, in order.
pub fn texts_of(pieces: &Vec<Vec<char>>) -> (out: Vec<String>)
    ensures
        texts(out@) == views(pieces@),
{
    let mut out: Vec<String> = Vec::new();
    let mut i: usize = 0;
    while i < pieces.len()
        invariant
            i <= pieces.len(),
            texts(out@) == views(pieces@.take(i as int)),
        decreases pieces.len() - i,
    {
        let item = text_of(&pieces[i]);
        proof {
            assert(texts(out@.push(item)) == texts(out@).push(item@));
            assert(views(pieces@.take(i + 1)) == views(pieces@.take(i as int)).push(pieces@[i as int]@));
        }
        out.push(item);
        i = i + 1;
    }
    proof {
        assert(pieces@.take(pieces.len() as int) == pieces@);
    }
    out
}

/// All of `s` but its first character; nothing, if `s` is empty.
pub fn rest_of(s: &Vec<char>) -> (out: Vec<char>)
    ensures
        s@.len() > 0 ==> out@ == s@.skip(1),
        s@.len() == 0 ==> out@.len() == 0,
{
    let mut out: Vec<char> = Vec::new();
    if s.len() == 0 {
        return out;
    }
    let mut i: usize = 1;
    while i < s.len()
        invariant
            1 <= i <= s.len(),
            out@ == s@.subrange(1, i as int),
        decreases s.len() - i,
    {
        out.push(s[i]);
        i = i + 1;
        assert(s@.subrange(1, i as int) == s@.subrange(1, i - 1).push(s@[i - 1]));
    }
    assert(s@.subrange(1, s.len() as int) == s@.skip(1));
    out
}

/// The pieces put together again, with one `sep` between each two.
pub open spec fn joined(pieces: Seq<Seq<char>>, sep: char) -> Seq<char>
    decreases pieces.len(),
{
    if pieces.len() == 0 {
        Seq::empty()
    } else if pieces.len() == 1 {
        pieces[0]
    } else {
        joined(pieces.drop_last(), sep).push(sep) + pieces.last()
    }
}

/// Cutting a text yields at least one piece, no piece holds the separator,
/// and the pieces joined by the separator are the text again.
pub proof fn lemma_split_cuts_at_separators(s: Seq<char>, sep: char)
    ensures
        split(s, sep).len() >= 1,
        forall|i: int, j: int|
            0 <= i < split(s, sep).len() && 0 <= j < split(s, sep)[i].len() ==> split(
                s,
                sep,
            )[i][j] != sep,
        joined(split(s, sep), sep) == s,
    decreases s.len(),
{
    if s.len() > 0 {
        let before = split(s.drop_last(), sep);
        let after = split(s, sep);
        lemma_split_cuts_at_separators(s.drop_last(), sep);
        if s.last() == sep {
            assert(after == before.push(Seq::empty()));
            assert(after.drop_last() == before);
            assert(joined(after, sep) == s.drop_last().push(sep) + Seq::<char>::empty());
            assert(s.drop_last().push(sep) == s);
        } else {
            let grown = before.last().push(s.last());
            assert(after == before.drop_last().push(grown));
            assert(after.drop_last() == before.drop_last());
            if before.len() == 1 {
                assert(joined(after, sep) == grown);
                assert(joined(before, sep) == before[0]);
            } else {
                let head = joined(before.drop_last(), sep).push(sep);
                assert(joined(after, sep) == head + grown);
                assert(joined(before, sep) == head + before.last());
                assert(head + grown == (head + before.last()).push(s.last()));
            }
            assert(s.drop_last().push(s.last()) == s);
        }
    }
}

/// A text that begins with a character other than the separator has a
/// first piece that begins with that character.
pub proof fn lemma_first_piece(s: Seq<char>, sep: char)
    requires
        s.len() > 0,
        s[0] != sep,
    ensures
        split(s, sep).len() >= 1,
        split(s, sep)[0].len() > 0,
        split(s, sep)[0][0] == s[0],
    decreases s.len(),
{
    let before = split(s.drop_last(), sep);
    if s.len() > 1 {
        lemma_first_piece(s.drop_last(), sep);
        if s.last() != sep {
            let grown = before.drop_last().push(before.last().push(s.last()));
            assert(split(s, sep) == grown);
            if before.len() == 1 {
                assert(grown[0] == before[0].push(s.last()));
            } else {
                assert(grown[0] == before[0]);
            }
        }
    } else {
        assert(s.drop_last().len() == 0);
        assert(before == seq![Seq::<char>::empty()]);
        assert(split(s, sep) == before.drop_last().push(before.last().push(s.last())));
    }
}

/// The index, at or after `from`, of the first `sep` in `s`, or the length
/// of `s` if there is none.
pub open spec fn first_at(s: Seq<char>, sep: char, from: int) -> int
    decreases s.len() - from,
{
    if from < 0 || from >= s.len() {
        s.len() as int
    } else if s[from] == sep {
        from
    } else {
        first_at(s, sep, from + 1)
    }
}

/// Before the first separator from `from` on there is none, and where the
/// index found lies within the text, a separator stands there.
pub proof fn lemma_first_at(s: Seq<char>, sep: char, from: int)
    requires
        0 <= from <= s.len(),
    ensures
        from <= first_at(s, sep, from) <= s.len(),
        forall|i: int| from <= i < first_at(s, sep, from) ==> s[i] != sep,
        first_at(s, sep, from) < s.len() ==> s[first_at(s, sep, from)] == sep,
    decreases s.len() - from,
{
    if from < s.len() && s[from] != sep {
        lemma_first_at(s, sep, from + 1);
    }
}

/// The index of the first `sep` in `s`, or the length of `s` if there is
/// none.
pub fn find_first(s: &Vec<char>, sep: char) -> (at: usize)
    ensures
        at == first_at(s@, sep, 0),
        at <= s@.len(),
{
    let mut i: usize = 0;
    while i < s.len() && s[i] != sep
        invariant
            i <= s.len(),
            first_at(s@, sep, 0) == first_at(s@, sep, i as int),
        decreases s.len() - i,
    {
        i = i + 1;
    }
    i
}

/// The characters of `s` from index `from` up to, not including, index
/// `to`; nothing, if these are no bounds of a part of `s`.
pub fn part_of(s: &Vec<char>, from: usize, to: usize) -> (out: Vec<char>)
    ensures
        from <= to <= s@.len() ==> out@ == s@.subrange(from as int, to as int),
        !(from <= to <= s@.len()) ==> out@.len() == 0,
{
    let mut out: Vec<char> = Vec::new();
    if from > to || to > s.len() {
        return out;
    }
    let mut i: usize = from;
    while i < to
        invariant
            from <= i <= to <= s.len(),
            out@ == s@.subrange(from as int, i as int),
        decreases to - i,
    {
        out.push(s[i]);
        i = i + 1;
        assert(s@.subrange(from as int, i as int) == s@.subrange(from as int, i - 1).push(
            s@[i - 1],
        ));
    }
    out
}

} // verus!
