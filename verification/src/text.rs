//! Character-sequence helpers shared by the rest of the library.
//!
//! Strings are viewed as `Seq<char>`; the executable helpers work on
//! `Vec<char>` and `&[char]`, where indexing is constant time.

use vstd::prelude::*;

verus! {

/// `String::push` appends one character at the end.
pub assume_specification[ std::string::String::push ](s: &mut std::string::String, c: char)
    ensures
        final(s)@ == old(s)@.push(c),
;

/// The characters of `s`, in order.
pub fn chars_of(s: &str) -> (v: Vec<char>)
    ensures
        v@ == s@,
{
    let mut v: Vec<char> = Vec::new();
    for c in it: s.chars()
        invariant
            v@ == it.seq().take(it.index() as int),
            it.seq() == s@,
    {
        v.push(c);
    }
    v
}

/// A string made of the characters of `v`, in order.
pub fn string_of(v: &[char]) -> (s: String)
    ensures
        s@ == v@,
{
    let mut s = String::new();
    let mut i: usize = 0;
    while i < v.len()
        invariant
            i <= v.len(),
            s@ == v@.take(i as int),
        decreases v.len() - i,
    {
        s.push(v[i]);
        i += 1;
    }
    s
}

/// Whether two character sequences are the same.
pub fn same_chars(a: &[char], b: &[char]) -> (r: bool)
    ensures
        r == (a@ == b@),
{
    if a.len() != b.len() {
        return false;
    }
    let mut i: usize = 0;
    while i < a.len()
        invariant
            i <= a.len(),
            a.len() == b.len(),
            a@.take(i as int) == b@.take(i as int),
        decreases a.len() - i,
    {
        if a[i] != b[i] {
            return false;
        }
        assert(a@.take(i + 1) == a@.take(i as int).push(a@[i as int]));
        assert(b@.take(i + 1) == b@.take(i as int).push(b@[i as int]));
        i += 1;
    }
    assert(a@.take(a.len() as int) == a@);
    assert(b@.take(b.len() as int) == b@);
    true
}

/// Whether two strings hold the same characters.
pub fn same_text(a: &str, b: &str) -> (r: bool)
    ensures
        r == (a@ == b@),
{
    let x = chars_of(a);
    let y = chars_of(b);
    same_chars(x.as_slice(), y.as_slice())
}

/// `s` begins with `prefix`.
pub open spec fn has_prefix(s: Seq<char>, prefix: Seq<char>) -> bool {
    prefix.len() <= s.len() && s.take(prefix.len() as int) == prefix
}

/// Whether `s` begins with `prefix`.
pub fn starts_with(s: &[char], prefix: &[char]) -> (r: bool)
    ensures
        r == has_prefix(s@, prefix@),
{
    if prefix.len() > s.len() {
        return false;
    }
    let mut i: usize = 0;
    while i < prefix.len()
        invariant
            i <= prefix.len(),
            prefix.len() <= s.len(),
            s@.take(i as int) == prefix@.take(i as int),
        decreases prefix.len() - i,
    {
        if s[i] != prefix[i] {
            assert(s@.take(prefix.len() as int)[i as int] != prefix@[i as int]);
            return false;
        }
        assert(s@.take(i + 1) == s@.take(i as int).push(s@[i as int]));
        assert(prefix@.take(i + 1) == prefix@.take(i as int).push(prefix@[i as int]));
        i += 1;
    }
    assert(prefix@.take(prefix.len() as int) == prefix@);
    true
}

/// Index of the first occurrence of `c` in `s` at or after `from`, or the
/// length of `s` when there is none.
pub open spec fn position_from(s: Seq<char>, c: char, from: int) -> int
    decreases s.len() - from,
{
    if from < 0 || from >= s.len() {
        s.len() as int
    } else if s[from] == c {
        from
    } else {
        position_from(s, c, from + 1)
    }
}

/// What `position_from` finds: no `c` before it, and `c` at it unless it
/// is the end.
pub proof fn lemma_position_from(s: Seq<char>, c: char, from: int)
    requires
        0 <= from <= s.len(),
    ensures
        from <= position_from(s, c, from) <= s.len(),
        forall|k: int| from <= k < position_from(s, c, from) ==> s[k] != c,
        position_from(s, c, from) < s.len() ==> s[position_from(s, c, from)] == c,
    decreases s.len() - from,
{
    if from < s.len() && s[from] != c {
        lemma_position_from(s, c, from + 1);
    }
}

/// Index of the first `c` in `s` at or after `from`, or `s.len()`.
pub fn find_from(s: &[char], c: char, from: usize) -> (r: usize)
    requires
        from <= s.len(),
    ensures
        r == position_from(s@, c, from as int),
        from <= r <= s.len(),
{
    let mut i: usize = from;
    while i < s.len()
        invariant
            from <= i <= s.len(),
            position_from(s@, c, from as int) == position_from(s@, c, i as int),
        decreases s.len() - i,
    {
        if s[i] == c {
            return i;
        }
        i += 1;
    }
    i
}

/// The part of `s` from `from` up to, not including, `to`.
pub fn slice_of(s: &[char], from: usize, to: usize) -> (v: Vec<char>)
    requires
        from <= to <= s.len(),
    ensures
        v@ == s@.subrange(from as int, to as int),
{
    let mut v: Vec<char> = Vec::new();
    let mut i: usize = from;
    while i < to
        invariant
            from <= i <= to <= s.len(),
            v@ == s@.subrange(from as int, i as int),
        decreases to - i,
    {
        v.push(s[i]);
        assert(s@.subrange(from as int, i + 1) == s@.subrange(from as int, i as int).push(
            s@[i as int],
        ));
        i += 1;
    }
    v
}

/// Appends the characters of `tail` to `v`.
pub fn append_chars(v: &mut Vec<char>, tail: &[char])
    ensures
        final(v)@ == old(v)@ + tail@,
{
    let mut i: usize = 0;
    while i < tail.len()
        invariant
            i <= tail.len(),
            v@ == old(v)@ + tail@.take(i as int),
        decreases tail.len() - i,
    {
        v.push(tail[i]);
        assert(tail@.take(i + 1) == tail@.take(i as int).push(tail@[i as int]));
        i += 1;
    }
    assert(tail@.take(tail.len() as int) == tail@);
}

/// Appends the characters of the string `tail` to `v`.
pub fn append_str(v: &mut Vec<char>, tail: &str)
    ensures
        final(v)@ == old(v)@ + tail@,
{
    let t = chars_of(tail);
    append_chars(v, t.as_slice());
}

/// `a` comes before `b` in dictionary order, compared character by
/// character from index `i` on. Characters are ordered by code point, as
/// strings are in Rust.
pub open spec fn lex_less_from(a: Seq<char>, b: Seq<char>, i: int) -> bool
    decreases a.len() - i,
{
    if i < 0 || i >= b.len() {
        false
    } else if i >= a.len() {
        true
    } else if a[i] != b[i] {
        a[i] < b[i]
    } else {
        lex_less_from(a, b, i + 1)
    }
}

/// `a` comes strictly before `b` in dictionary order.
pub open spec fn lex_less(a: Seq<char>, b: Seq<char>) -> bool {
    lex_less_from(a, b, 0)
}

/// Nothing comes before itself.
pub proof fn lemma_lex_irreflexive(a: Seq<char>, i: int)
    requires
        0 <= i,
    ensures
        !lex_less_from(a, a, i),
    decreases a.len() - i,
{
    if i < a.len() {
        lemma_lex_irreflexive(a, i + 1);
    }
}

/// Of two different texts that agree before `i`, one comes before the
/// other, and not both.
pub proof fn lemma_lex_total(a: Seq<char>, b: Seq<char>, i: int)
    requires
        0 <= i <= a.len(),
        i <= b.len(),
        a.take(i) == b.take(i),
    ensures
        a == b || lex_less_from(a, b, i) || lex_less_from(b, a, i),
        !(lex_less_from(a, b, i) && lex_less_from(b, a, i)),
    decreases a.len() - i,
{
    if i < a.len() && i < b.len() {
        if a[i] == b[i] {
            assert(a.take(i + 1) == a.take(i).push(a[i]));
            assert(b.take(i + 1) == b.take(i).push(b[i]));
            lemma_lex_total(a, b, i + 1);
        }
    } else if i == a.len() && i == b.len() {
        assert(a.take(i) == a);
        assert(b.take(i) == b);
    }
}

/// Dictionary order is transitive.
pub proof fn lemma_lex_transitive(a: Seq<char>, b: Seq<char>, c: Seq<char>, i: int)
    requires
        0 <= i,
        lex_less_from(a, b, i),
        lex_less_from(b, c, i),
    ensures
        lex_less_from(a, c, i),
    decreases a.len() - i,
{
    if i < a.len() && a[i] == b[i] && b[i] == c[i] {
        lemma_lex_transitive(a, b, c, i + 1);
    }
}

/// Whether `a` comes strictly before `b` in dictionary order.
pub fn chars_less(a: &[char], b: &[char]) -> (r: bool)
    ensures
        r == lex_less(a@, b@),
{
    let mut i: usize = 0;
    while i < a.len() && i < b.len()
        invariant
            i <= a.len(),
            i <= b.len(),
            lex_less(a@, b@) == lex_less_from(a@, b@, i as int),
        decreases a.len() - i,
    {
        if a[i] != b[i] {
            return a[i] < b[i];
        }
        i += 1;
    }
    i < b.len()
}

/// Each sequence of characters in `v`, in order.
pub open spec fn texts(v: Seq<Vec<char>>) -> Seq<Seq<char>> {
    v.map_values(|x: Vec<char>| x@)
}

/// The view of each string in `v`, in order.
pub open spec fn views(v: Seq<String>) -> Seq<Seq<char>> {
    v.map_values(|x: String| x@)
}

/// The parts written one after the other, with `sep` between each two.
pub open spec fn join(parts: Seq<Seq<char>>, sep: Seq<char>) -> Seq<char>
    decreases parts.len(),
{
    if parts.len() == 0 {
        Seq::empty()
    } else if parts.len() == 1 {
        parts[0]
    } else {
        join(parts.drop_last(), sep) + sep + parts.last()
    }
}

/// Writes the parts one after the other, with `sep` between each two.
pub fn join_chars(parts: &Vec<Vec<char>>, sep: &str) -> (out: Vec<char>)
    ensures
        out@ == join(texts(parts@), sep@),
{
    let mut out: Vec<char> = Vec::new();
    let mut i: usize = 0;
    while i < parts.len()
        invariant
            i <= parts.len(),
            out@ == join(texts(parts@).take(i as int), sep@),
        decreases parts.len() - i,
    {
        proof {
            let l = texts(parts@);
            assert(l.take(i + 1).drop_last() =~= l.take(i as int));
            assert(l.take(i + 1).last() == parts@[i as int]@);
        }
        if i > 0 {
            append_str(&mut out, sep);
        }
        append_chars(&mut out, parts[i].as_slice());
        i += 1;
    }
    proof {
        let l = texts(parts@);
        assert(l.take(l.len() as int) =~= l);
    }
    out
}

/// The character that writes the digit `d`.
pub open spec fn digit(d: nat) -> char {
    if d == 0 {
        '0'
    } else if d == 1 {
        '1'
    } else if d == 2 {
        '2'
    } else if d == 3 {
        '3'
    } else if d == 4 {
        '4'
    } else if d == 5 {
        '5'
    } else if d == 6 {
        '6'
    } else if d == 7 {
        '7'
    } else if d == 8 {
        '8'
    } else {
        '9'
    }
}

/// The number `n` written in decimal, without leading zeros.
pub open spec fn decimal(n: nat) -> Seq<char>
    decreases n,
{
    if n < 10 {
        seq![digit(n)]
    } else {
        decimal(n / 10).push(digit(n % 10))
    }
}

/// The character that writes the digit `d`.
pub fn digit_char(d: u8) -> (c: char)
    requires
        d < 10,
    ensures
        c == digit(d as nat),
{
    if d == 0 {
        '0'
    } else if d == 1 {
        '1'
    } else if d == 2 {
        '2'
    } else if d == 3 {
        '3'
    } else if d == 4 {
        '4'
    } else if d == 5 {
        '5'
    } else if d == 6 {
        '6'
    } else if d == 7 {
        '7'
    } else if d == 8 {
        '8'
    } else {
        '9'
    }
}

/// Appends `n`, written in decimal, to `out`.
pub fn append_decimal(out: &mut Vec<char>, n: u128)
    ensures
        final(out)@ == old(out)@ + decimal(n as nat),
    decreases n,
{
    if n >= 10 {
        append_decimal(out, n / 10);
    }
    let d: u8 = (n % 10) as u8;
    out.push(digit_char(d));
    assert(out@ =~= old(out)@ + decimal(n as nat));
}

/// `pattern` stands in `s` at `i`.
pub open spec fn occurs_at(s: Seq<char>, pattern: Seq<char>, i: int) -> bool {
    0 <= i && i + pattern.len() <= s.len() && s.subrange(i, i + pattern.len()) == pattern
}

/// `pattern` stands somewhere in `s`.
pub open spec fn has_infix(s: Seq<char>, pattern: Seq<char>) -> bool {
    exists|i: int| occurs_at(s, pattern, i)
}

/// Whether `pattern` stands in `s` at `i`.
pub fn matches_at(s: &[char], pattern: &[char], i: usize) -> (r: bool)
    requires
        i <= s.len(),
    ensures
        r == occurs_at(s@, pattern@, i as int),
{
    if pattern.len() > s.len() - i {
        return false;
    }
    let mut k: usize = 0;
    while k < pattern.len()
        invariant
            k <= pattern.len(),
            i + pattern.len() <= s.len(),
            forall|j: int| 0 <= j < k ==> s@[i + j] == pattern@[j],
        decreases pattern.len() - k,
    {
        if s[i + k] != pattern[k] {
            assert(s@.subrange(i as int, i + pattern@.len())[k as int] != pattern@[k as int]);
            return false;
        }
        k += 1;
    }
    assert(s@.subrange(i as int, i + pattern@.len()) =~= pattern@);
    true
}

/// Whether `pattern` stands somewhere in `s`.
pub fn contains_chars(s: &[char], pattern: &[char]) -> (r: bool)
    ensures
        r == has_infix(s@, pattern@),
{
    let mut i: usize = 0;
    while i < s.len()
        invariant
            i <= s.len(),
            forall|j: int| 0 <= j < i ==> !occurs_at(s@, pattern@, j),
        decreases s.len() - i,
    {
        if matches_at(s, pattern, i) {
            return true;
        }
        i += 1;
    }
    if matches_at(s, pattern, i) {
        return true;
    }
    assert forall|j: int| !occurs_at(s@, pattern@, j) by {
        if occurs_at(s@, pattern@, j) {
            assert(j <= s.len());
        }
    }
    false
}

/// Whether the text `pattern` stands somewhere in the text `s`.
pub fn contains_text(s: &str, pattern: &str) -> (r: bool)
    ensures
        r == has_infix(s@, pattern@),
{
    let a = chars_of(s);
    let b = chars_of(pattern);
    contains_chars(a.as_slice(), b.as_slice())
}

/// The line that starts at `from`, without its line ending: it runs to the
/// next line feed or to the end, and a carriage return just before the
/// line feed does not belong to it.
pub open spec fn line_at(s: Seq<char>, from: int) -> Seq<char> {
    let feed = position_from(s, '\n', from);
    if feed < s.len() && feed > from && s[feed - 1] == '\r' {
        s.subrange(from, feed - 1)
    } else {
        s.subrange(from, feed)
    }
}

/// The lines of `s` from `from` on. A line ends with a line feed, or with
/// a carriage return and a line feed; the last line may do without. What
/// follows the last line ending is a line only if it is not empty.
pub open spec fn lines_from(s: Seq<char>, from: int) -> Seq<Seq<char>>
    decreases s.len() - from,
{
    if from < 0 || from >= s.len() {
        Seq::empty()
    } else {
        let feed = position_from(s, '\n', from);
        if from <= feed < s.len() {
            seq![line_at(s, from)] + lines_from(s, feed + 1)
        } else {
            seq![line_at(s, from)]
        }
    }
}

/// The lines of `s`.
pub open spec fn lines_of(s: Seq<char>) -> Seq<Seq<char>> {
    lines_from(s, 0)
}

/// The lines of `s`.
pub fn split_lines(s: &[char]) -> (lines: Vec<Vec<char>>)
    ensures
        texts(lines@) == lines_of(s@),
{
    let mut lines: Vec<Vec<char>> = Vec::new();
    let mut from: usize = 0;
    assert(texts(lines@) =~= Seq::<Seq<char>>::empty());
    while from < s.len()
        invariant
            from <= s.len(),
            lines_of(s@) == texts(lines@) + lines_from(s@, from as int),
        decreases s.len() - from,
    {
        let feed: usize = find_from(s, '\n', from);
        let end: usize = if feed < s.len() && feed > from && s[feed - 1] == '\r' {
            feed - 1
        } else {
            feed
        };
        let line = slice_of(s, from, end);
        let ghost before = lines@;
        lines.push(line);
        proof {
            assert(texts(lines@) =~= texts(before).push(line@));
            assert(texts(before) + (seq![line_at(s@, from as int)] + lines_from(s@, feed + 1))
                =~= texts(lines@) + lines_from(s@, feed + 1));
            assert(texts(before) + seq![line_at(s@, from as int)] =~= texts(lines@)
                + Seq::<Seq<char>>::empty());
        }
        if feed == s.len() {
            from = feed;
        } else {
            from = feed + 1;
        }
    }
    assert(texts(lines@) + Seq::<Seq<char>>::empty() =~= texts(lines@));
    lines
}

/// Whether a character is white space, as `char::is_whitespace` tells.
pub uninterp spec fn white_space(c: char) -> bool;

/// `char::is_whitespace` tells whether a character has the Unicode
/// property White_Space. Its answer depends on the character alone; it is
/// given the name `white_space`.
pub assume_specification[ char::is_whitespace ](c: char) -> (b: bool)
    ensures
        b == white_space(c),
;

/// Index of the first character of `s`, at or after `from`, that is not
/// white space; the length of `s` when there is none.
pub open spec fn text_start(s: Seq<char>, from: int) -> int
    decreases s.len() - from,
{
    if from < 0 || from >= s.len() {
        s.len() as int
    } else if !white_space(s[from]) {
        from
    } else {
        text_start(s, from + 1)
    }
}

/// Index just after the last character of `s`, before `to`, that is not
/// white space; 0 when there is none.
pub open spec fn text_end(s: Seq<char>, to: int) -> int
    decreases to,
{
    if to <= 0 || to > s.len() {
        0
    } else if !white_space(s[to - 1]) {
        to
    } else {
        text_end(s, to - 1)
    }
}

/// `s` without the white space at its start and at its end.
pub open spec fn trimmed(s: Seq<char>) -> Seq<char> {
    if text_start(s, 0) >= text_end(s, s.len() as int) {
        Seq::empty()
    } else {
        s.subrange(text_start(s, 0), text_end(s, s.len() as int))
    }
}

/// `s` without the white space at its start and at its end.
pub fn trim_chars(s: &[char]) -> (r: Vec<char>)
    ensures
        r@ == trimmed(s@),
{
    let mut start: usize = 0;
    while start < s.len() && s[start].is_whitespace()
        invariant
            start <= s.len(),
            text_start(s@, 0) == text_start(s@, start as int),
        decreases s.len() - start,
    {
        start += 1;
    }
    let mut end: usize = s.len();
    while end > 0 && s[end - 1].is_whitespace()
        invariant
            end <= s.len(),
            text_end(s@, s.len() as int) == text_end(s@, end as int),
        decreases end,
    {
        end -= 1;
    }
    if start >= end {
        return Vec::new();
    }
    slice_of(s, start, end)
}

/// `s` with `with` in the place of every `c`.
pub open spec fn replace_char(s: Seq<char>, c: char, with: Seq<char>) -> Seq<char>
    decreases s.len(),
{
    if s.len() == 0 {
        Seq::empty()
    } else if s.last() == c {
        replace_char(s.drop_last(), c, with) + with
    } else {
        replace_char(s.drop_last(), c, with).push(s.last())
    }
}

/// `s` with `with` in the place of every `c`.
pub fn replace_chars(s: &[char], c: char, with: &str) -> (r: Vec<char>)
    ensures
        r@ == replace_char(s@, c, with@),
{
    let mut r: Vec<char> = Vec::new();
    let mut i: usize = 0;
    while i < s.len()
        invariant
            i <= s.len(),
            r@ == replace_char(s@.take(i as int), c, with@),
        decreases s.len() - i,
    {
        proof {
            assert(s@.take(i + 1).drop_last() =~= s@.take(i as int));
            assert(s@.take(i + 1).last() == s@[i as int]);
        }
        if s[i] == c {
            append_str(&mut r, with);
        } else {
            r.push(s[i]);
        }
        i += 1;
    }
    assert(s@.take(s@.len() as int) =~= s@);
    r
}

/// The text `s` with `with` in the place of every `c`.
pub fn replace_in(s: &str, c: char, with: &str) -> (r: String)
    ensures
        r@ == replace_char(s@, c, with@),
{
    let chars = chars_of(s);
    let out = replace_chars(chars.as_slice(), c, with);
    string_of(out.as_slice())
}

/// A capital letter of the ASCII alphabet as a small one; any other
/// character as it is.
pub open spec fn ascii_lower(c: char) -> char {
    if 'A' <= c && c <= 'Z' {
        ((c as u8) + 32) as char
    } else {
        c
    }
}

/// A small letter of the ASCII alphabet as a capital one; any other
/// character as it is.
pub open spec fn ascii_upper(c: char) -> char {
    if 'a' <= c && c <= 'z' {
        ((c as u8) - 32) as char
    } else {
        c
    }
}

/// `s` with its ASCII capital letters made small.
pub open spec fn lowered(s: Seq<char>) -> Seq<char> {
    s.map_values(|c: char| ascii_lower(c))
}

/// `c` as a small letter, if it is an ASCII capital letter.
pub fn lower_char(c: char) -> (r: char)
    ensures
        r == ascii_lower(c),
{
    if 'A' <= c && c <= 'Z' {
        ((c as u8) + 32) as char
    } else {
        c
    }
}

/// `c` as a capital letter, if it is an ASCII small letter.
pub fn upper_char(c: char) -> (r: char)
    ensures
        r == ascii_upper(c),
{
    if 'a' <= c && c <= 'z' {
        ((c as u8) - 32) as char
    } else {
        c
    }
}

/// `s` with its ASCII capital letters made small.
pub fn lower_chars(s: &[char]) -> (r: Vec<char>)
    ensures
        r@ == lowered(s@),
{
    let mut r: Vec<char> = Vec::new();
    let mut i: usize = 0;
    while i < s.len()
        invariant
            i <= s.len(),
            r@ == lowered(s@.take(i as int)),
        decreases s.len() - i,
    {
        r.push(lower_char(s[i]));
        assert(r@ =~= lowered(s@.take(i + 1)));
        i += 1;
    }
    assert(s@.take(s@.len() as int) =~= s@);
    r
}

/// The pieces of `s` from `from` on that `sep` separates. There is always
/// one piece more than there are separators.
pub open spec fn pieces_from(s: Seq<char>, sep: char, from: int) -> Seq<Seq<char>>
    decreases s.len() - from,
{
    if from < 0 || from > s.len() {
        Seq::empty()
    } else {
        let next = position_from(s, sep, from);
        if from <= next < s.len() {
            seq![s.subrange(from, next)] + pieces_from(s, sep, next + 1)
        } else {
            seq![s.subrange(from, s.len() as int)]
        }
    }
}

/// The pieces of `s` that `sep` separates.
pub fn split_chars(s: &[char], sep: char) -> (pieces: Vec<Vec<char>>)
    ensures
        texts(pieces@) == pieces_from(s@, sep, 0),
{
    let mut pieces: Vec<Vec<char>> = Vec::new();
    let mut from: usize = 0;
    assert(texts(pieces@) =~= Seq::<Seq<char>>::empty());
    loop
        invariant_except_break
            from <= s.len(),
            pieces_from(s@, sep, 0) == texts(pieces@) + pieces_from(s@, sep, from as int),
        ensures
            texts(pieces@) == pieces_from(s@, sep, 0),
        decreases s.len() - from,
    {
        let next: usize = find_from(s, sep, from);
        let piece = slice_of(s, from, next);
        let ghost before = pieces@;
        pieces.push(piece);
        proof {
            assert(texts(pieces@) =~= texts(before).push(piece@));
            assert(texts(before) + (seq![piece@] + pieces_from(s@, sep, next + 1)) =~= texts(
                pieces@,
            ) + pieces_from(s@, sep, next + 1));
            assert(texts(before) + seq![piece@] =~= texts(pieces@));
        }
        if next == s.len() {
            break ;
        }
        from = next + 1;
    }
    pieces
}

/// `x` put into `sorted` before the first text that comes after it.
pub open spec fn insert_text(sorted: Seq<Seq<char>>, x: Seq<char>) -> Seq<Seq<char>>
    decreases sorted.len(),
{
    if sorted.len() == 0 {
        seq![x]
    } else if lex_less(x, sorted.last()) {
        insert_text(sorted.drop_last(), x).push(sorted.last())
    } else {
        sorted.push(x)
    }
}

/// The texts of `l` in dictionary order.
pub open spec fn sort_texts(l: Seq<Seq<char>>) -> Seq<Seq<char>>
    decreases l.len(),
{
    if l.len() == 0 {
        Seq::empty()
    } else {
        insert_text(sort_texts(l.drop_last()), l.last())
    }
}

/// Puts `x` into `sorted` before the first text that comes after it.
pub fn insert_sorted(sorted: &mut Vec<Vec<char>>, x: Vec<char>)
    ensures
        texts(final(sorted)@) == insert_text(texts(old(sorted)@), x@),
{
    let ghost start = texts(sorted@);
    let mut i: usize = sorted.len();
    proof {
        assert(start.take(i as int) =~= start);
        assert(insert_text(start, x@) + start.skip(i as int) =~= insert_text(start, x@));
    }
    while i > 0 && chars_less(x.as_slice(), sorted[i - 1].as_slice())
        invariant
            i <= sorted.len(),
            start == texts(sorted@),
            insert_text(start, x@) == insert_text(start.take(i as int), x@) + start.skip(i as int),
        decreases i,
    {
        proof {
            let head = start.take(i as int);
            assert(head.drop_last() =~= start.take(i - 1));
            assert(head.last() == start[i - 1]);
            assert(insert_text(head.drop_last(), x@).push(head.last()) + start.skip(i as int)
                =~= insert_text(start.take(i - 1), x@) + start.skip(i - 1));
        }
        i -= 1;
    }
    proof {
        let head = start.take(i as int);
        if i > 0 {
            assert(head.last() == start[i - 1]);
        }
        assert(insert_text(head, x@) == head.push(x@));
        assert(start.take(0) =~= Seq::<Seq<char>>::empty());
    }
    let ghost before = sorted@;
    let ghost xv = x@;
    sorted.insert(i, x);
    assert(texts(sorted@) =~= texts(before).take(i as int).push(xv) + texts(before).skip(i as int));
}

/// The texts of `l` in dictionary order.
pub fn sort_chars(l: Vec<Vec<char>>) -> (sorted: Vec<Vec<char>>)
    ensures
        texts(sorted@) == sort_texts(texts(l@)),
{
    let mut rest = l;
    let ghost all = texts(rest@);
    let mut sorted: Vec<Vec<char>> = Vec::new();
    let ghost mut done: int = 0;
    assert(texts(sorted@) =~= sort_texts(all.take(0)));
    assert(all.skip(0) =~= all);
    while rest.len() > 0
        invariant
            0 <= done,
            done + rest@.len() == all.len(),
            texts(rest@) == all.skip(done),
            texts(sorted@) == sort_texts(all.take(done)),
        decreases rest.len(),
    {
        let ghost before = rest@;
        let x = rest.remove(0);
        proof {
            assert(all.take(done + 1).drop_last() =~= all.take(done));
            assert(all.take(done + 1).last() == all[done]);
            assert(x@ == texts(before)[0]);
            assert(rest@ =~= before.drop_first());
            assert(texts(rest@) =~= texts(before).drop_first());
            assert(texts(rest@) =~= all.skip(done + 1));
        }
        insert_sorted(&mut sorted, x);
        proof {
            done = done + 1;
        }
    }
    assert(all.take(all.len() as int) =~= all);
    sorted
}

/// The texts of `l` in the opposite order.
pub fn reverse_chars(l: Vec<Vec<char>>) -> (r: Vec<Vec<char>>)
    ensures
        texts(r@) == texts(l@).reverse(),
{
    let mut rest = l;
    let ghost all = texts(rest@);
    let mut r: Vec<Vec<char>> = Vec::new();
    while rest.len() > 0
        invariant
            rest@.len() <= all.len(),
            texts(rest@) == all.take(rest@.len() as int),
            r@.len() + rest@.len() == all.len(),
            forall|k: int| 0 <= k < r@.len() ==> (#[trigger] r@[k])@ == all[all.len() - 1 - k],
        decreases rest.len(),
    {
        let ghost before = rest@;
        match rest.pop() {
            Some(x) => {
                assert(x@ == texts(before)[before.len() - 1]);
                assert(texts(rest@) =~= all.take(rest@.len() as int));
                r.push(x);
            },
            None => {},
        }
    }
    assert(texts(r@) =~= all.reverse());
    r
}


/// The view of a text that may be missing.
pub open spec fn text_view(value: Option<String>) -> Option<Seq<char>> {
    match value {
        Some(v) => Some(v@),
        None => None,
    }
}

/// A copy of the strings of `v`.
pub fn clone_strings(v: &Vec<String>) -> (r: Vec<String>)
    ensures
        views(r@) == views(v@),
{
    let mut r: Vec<String> = Vec::new();
    let mut i: usize = 0;
    while i < v.len()
        invariant
            i <= v.len(),
            views(r@) == views(v@).take(i as int),
        decreases v.len() - i,
    {
        let ghost before = r@;
        let s = v[i].clone();
        r.push(s);
        assert(views(r@) =~= views(before).push(s@));
        assert(views(r@) =~= views(v@).take(i + 1));
        i += 1;
    }
    assert(views(v@).take(v@.len() as int) =~= views(v@));
    r
}

/// A copy of a text that may be missing.
pub fn clone_text(v: &Option<String>) -> (r: Option<String>)
    ensures
        text_view(r) == text_view(*v),
{
    match v {
        Some(s) => Some(s.clone()),
        None => None,
    }
}

/// A text that may be missing, as a string of its own.
pub fn owned_text(v: Option<&str>) -> (r: Option<String>)
    ensures
        r is Some <==> v is Some,
        r matches Some(s) ==> s@ == v->0@,
{
    match v {
        Some(s) => Some(String::from_str(s)),
        None => None,
    }
}

/// The view of a borrowed text that may be missing.
pub open spec fn str_view(value: Option<&str>) -> Option<Seq<char>> {
    match value {
        Some(v) => Some(v@),
        None => None,
    }
}

/// A text that may be missing, borrowed.
pub fn borrow_text(v: &Option<String>) -> (r: Option<&str>)
    ensures
        str_view(r) == text_view(*v),
{
    match v {
        Some(s) => Some(s.as_str()),
        None => None,
    }
}

} // verus!
