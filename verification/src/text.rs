//! Text as a sequence of characters: trimming, case, joining, numbers.

use vstd::prelude::*;
#[allow(unused_imports)]
use vstd::utf8::{decode_utf8, valid_utf8};

verus! {

/// `String::push`: appends one character at the end.
pub assume_specification[ String::push ](s: &mut String, c: char)
    ensures
        final(s)@ == old(s)@.push(c),
;

/// `String::from_utf8`: the text that the bytes encode where they are valid UTF-8, and nothing
/// where they are not.
#[verifier::external_body]
pub(crate) fn utf8_text(bytes: &Vec<u8>) -> (r: Option<String>)
    ensures
        match r {
            Some(text) => valid_utf8(bytes@) && text@ == decode_utf8(bytes@),
            None => !valid_utf8(bytes@),
        },
{
    String::from_utf8(bytes.clone()).ok()
}

/// The texts of a list of strings.
pub open spec fn views(list: Seq<String>) -> Seq<Seq<char>> {
    Seq::new(list.len(), |i: int| list[i]@)
}

/// The text of an optional string.
pub open spec fn view_of(text: Option<String>) -> Option<Seq<char>> {
    match text {
        Some(t) => Some(t@),
        None => None,
    }
}

/// Unicode's `White_Space` property.
pub open spec fn is_white(c: char) -> bool {
    ||| '\u{9}' <= c <= '\u{d}'
    ||| c == '\u{20}'
    ||| c == '\u{85}'
    ||| c == '\u{a0}'
    ||| c == '\u{1680}'
    ||| '\u{2000}' <= c <= '\u{200a}'
    ||| c == '\u{2028}'
    ||| c == '\u{2029}'
    ||| c == '\u{202f}'
    ||| c == '\u{205f}'
    ||| c == '\u{3000}'
}

/// `s` without the white space at its start.
pub open spec fn trim_start_of(s: Seq<char>) -> Seq<char>
    decreases s.len(),
{
    if s.len() > 0 && is_white(s[0]) {
        trim_start_of(s.skip(1))
    } else {
        s
    }
}

/// `s` without the white space at its end.
pub open spec fn trim_end_of(s: Seq<char>) -> Seq<char>
    decreases s.len(),
{
    if s.len() > 0 && is_white(s.last()) {
        trim_end_of(s.drop_last())
    } else {
        s
    }
}

/// `s` without the white space at either end.
pub open spec fn trim_of(s: Seq<char>) -> Seq<char> {
    trim_end_of(trim_start_of(s))
}

/// Whether nothing but white space stands in `s`.
pub open spec fn blank(s: Seq<char>) -> bool {
    forall|i: int| 0 <= i < s.len() ==> is_white(#[trigger] s[i])
}

/// The lower case of an ASCII letter; any other character itself.
pub open spec fn lower_char(c: char) -> char {
    if 'A' <= c <= 'Z' {
        ((c as u32) + 32) as char
    } else {
        c
    }
}

/// `s` with its ASCII letters in lower case.
pub open spec fn lower_of(s: Seq<char>) -> Seq<char> {
    Seq::new(s.len(), |i: int| lower_char(s[i]))
}

/// Whether `s` begins with `prefix`.
pub open spec fn begins(s: Seq<char>, prefix: Seq<char>) -> bool {
    prefix.len() <= s.len() && s.take(prefix.len() as int) == prefix
}

/// Whether `s` ends with `suffix`.
pub open spec fn ends(s: Seq<char>, suffix: Seq<char>) -> bool {
    suffix.len() <= s.len() && s.skip(s.len() - suffix.len()) == suffix
}

/// The parts in order, with `separator` between each two.
pub open spec fn joined_with(parts: Seq<Seq<char>>, separator: Seq<char>) -> Seq<char>
    decreases parts.len(),
{
    if parts.len() == 0 {
        Seq::empty()
    } else if parts.len() == 1 {
        parts[0]
    } else {
        joined_with(parts.drop_last(), separator) + separator + parts.last()
    }
}

/// The decimal digit for a number below ten.
pub open spec fn digit_char(n: int) -> char {
    (48 + n) as char
}

/// `n` in decimal.
pub open spec fn decimal_of(n: nat) -> Seq<char>
    decreases n,
{
    if n < 10 {
        seq![digit_char(n as int)]
    } else {
        decimal_of(n / 10).push(digit_char((n % 10) as int))
    }
}

/// Whether `s` is one or more decimal digits.
pub open spec fn all_digits(s: Seq<char>) -> bool {
    s.len() > 0 && forall|i: int| 0 <= i < s.len() ==> '0' <= #[trigger] s[i] <= '9'
}

/// The number that a run of decimal digits writes.
pub open spec fn digits_value(s: Seq<char>) -> int
    decreases s.len(),
{
    if s.len() == 0 {
        0
    } else {
        digits_value(s.drop_last()) * 10 + (s.last() as int - 48)
    }
}

/// The digits of a number that may carry one leading `+`.
pub open spec fn unsigned_digits(s: Seq<char>) -> Seq<char> {
    if s.len() > 0 && s[0] == '+' {
        s.skip(1)
    } else {
        s
    }
}

/// The number `s` writes, if it is one below two to the thirty-second.
pub open spec fn u32_of(s: Seq<char>) -> Option<u32> {
    let digits = unsigned_digits(s);
    if all_digits(digits) && digits_value(digits) <= u32::MAX {
        Some(digits_value(digits) as u32)
    } else {
        None
    }
}

/// The code units `s` takes in UTF-16.
pub open spec fn utf16_len_of(s: Seq<char>) -> nat
    decreases s.len(),
{
    if s.len() == 0 {
        0
    } else {
        utf16_len_of(s.drop_last()) + utf16_width(s.last())
    }
}

/// The code units one character takes in UTF-16.
pub open spec fn utf16_width(c: char) -> nat {
    if (c as u32) >= 0x10000 {
        2
    } else {
        1
    }
}

/// A number keeps its last digit and the rest of it when one is split off.
proof fn lemma_digits_value_bound(s: Seq<char>, n: int)
    requires
        0 <= n <= s.len(),
        forall|i: int| 0 <= i < s.len() ==> '0' <= #[trigger] s[i] <= '9',
    ensures
        0 <= digits_value(s.take(n)) <= digits_value(s),
    decreases s.len(),
{
    if s.len() == 0 {
        assert(s.take(n) =~= s);
    } else if n == s.len() {
        assert(s.take(n) =~= s);
        lemma_digits_value_bound(s.drop_last(), n - 1);
        assert(s.drop_last().take(n - 1) =~= s.drop_last());
    } else {
        lemma_digits_value_bound(s.drop_last(), n);
        assert(s.drop_last().take(n) =~= s.take(n));
    }
}

/// The characters of `text`, in order.
pub fn chars_of(text: &str) -> (chars: Vec<char>)
    ensures
        chars@ == text@,
{
    let mut chars: Vec<char> = Vec::new();
    for c in it: text.chars()
        invariant
            chars@ == it.seq().take(it.index()),
            it.seq() == text@,
    {
        proof {
            assert(it.seq().take(it.index() + 1) =~= it.seq().take(it.index()).push(c));
        }
        chars.push(c);
    }
    proof {
        assert(chars@ =~= text@);
    }
    chars
}

/// The text made of some of `chars`.
pub fn text_of(chars: &Vec<char>, from: usize, to: usize) -> (text: String)
    requires
        from <= to <= chars@.len(),
    ensures
        text@ == chars@.subrange(from as int, to as int),
{
    let mut text: String = String::new();
    let mut i: usize = from;
    while i < to
        invariant
            from <= i <= to <= chars@.len(),
            text@ == chars@.subrange(from as int, i as int),
        decreases to - i,
    {
        text.push(chars[i]);
        i = i + 1;
        assert(chars@.subrange(from as int, i as int) =~= chars@.subrange(
            from as int,
            i - 1,
        ).push(chars@[i - 1]));
    }
    text
}

/// Whether two texts are the same characters in the same order.
pub fn same(a: &str, b: &str) -> (r: bool)
    ensures
        r == (a@ == b@),
{
    let x: Vec<char> = chars_of(a);
    let y: Vec<char> = chars_of(b);
    if x.len() != y.len() {
        return false;
    }
    let mut i: usize = 0;
    while i < x.len()
        invariant
            i <= x@.len(),
            x@.len() == y@.len(),
            x@ == a@,
            y@ == b@,
            forall|j: int| 0 <= j < i ==> x@[j] == y@[j],
        decreases x@.len() - i,
    {
        if x[i] != y[i] {
            return false;
        }
        i = i + 1;
    }
    assert(a@ =~= b@);
    true
}

/// Whether two optional texts are both absent or the same text.
pub fn same_option(a: &Option<String>, b: &Option<String>) -> (r: bool)
    ensures
        r == (view_of(*a) == view_of(*b)),
{
    match (a, b) {
        (Some(x), Some(y)) => same(x.as_str(), y.as_str()),
        (None, None) => true,
        _ => false,
    }
}

/// A copy of an optional text.
pub fn copy_option(text: &Option<String>) -> (r: Option<String>)
    ensures
        view_of(r) == view_of(*text),
{
    match text {
        Some(t) => Some(t.clone()),
        None => None,
    }
}

/// Whether `c` is white space.
pub fn white(c: char) -> (r: bool)
    ensures
        r == is_white(c),
{
    ('\u{9}' <= c && c <= '\u{d}') || c == '\u{20}' || c == '\u{85}' || c == '\u{a0}' || c
        == '\u{1680}' || ('\u{2000}' <= c && c <= '\u{200a}') || c == '\u{2028}' || c == '\u{2029}'
        || c == '\u{202f}' || c == '\u{205f}' || c == '\u{3000}'
}

/// `text` without the white space at its end.
pub fn trim_end(text: &str) -> (r: String)
    ensures
        r@ == trim_end_of(text@),
{
    let chars: Vec<char> = chars_of(text);
    let mut n: usize = chars.len();
    assert(chars@.take(n as int) =~= chars@);
    while n > 0 && white(chars[n - 1])
        invariant
            n <= chars@.len(),
            chars@ == text@,
            trim_end_of(chars@) == trim_end_of(chars@.take(n as int)),
        decreases n,
    {
        proof {
            assert(chars@.take(n as int).drop_last() =~= chars@.take(n - 1));
        }
        n = n - 1;
    }
    assert(chars@.subrange(0, n as int) =~= chars@.take(n as int));
    text_of(&chars, 0, n)
}

/// `text` without the white space at either end.
pub fn trim(text: &str) -> (r: String)
    ensures
        r@ == trim_of(text@),
{
    let chars: Vec<char> = chars_of(text);
    let mut from: usize = 0;
    assert(chars@.skip(0) =~= chars@);
    while from < chars.len() && white(chars[from])
        invariant
            from <= chars@.len(),
            chars@ == text@,
            trim_start_of(chars@) == trim_start_of(chars@.skip(from as int)),
        decreases chars@.len() - from,
    {
        proof {
            assert(chars@.skip(from as int).skip(1) =~= chars@.skip(from + 1));
        }
        from = from + 1;
    }
    let mut to: usize = chars.len();
    assert(chars@.subrange(from as int, to as int) =~= chars@.skip(from as int));
    while from < to && white(chars[to - 1])
        invariant
            from <= to <= chars@.len(),
            chars@ == text@,
            trim_of(chars@) == trim_end_of(chars@.subrange(from as int, to as int)),
        decreases to,
    {
        proof {
            assert(chars@.subrange(from as int, to as int).drop_last() =~= chars@.subrange(
                from as int,
                to - 1,
            ));
        }
        to = to - 1;
    }
    text_of(&chars, from, to)
}

/// Whether `text` holds nothing but white space.
pub fn is_blank(text: &str) -> (r: bool)
    ensures
        r == blank(text@),
{
    let chars: Vec<char> = chars_of(text);
    let mut i: usize = 0;
    while i < chars.len()
        invariant
            i <= chars@.len(),
            chars@ == text@,
            forall|j: int| 0 <= j < i ==> is_white(#[trigger] chars@[j]),
        decreases chars@.len() - i,
    {
        if !white(chars[i]) {
            assert(!is_white(text@[i as int]));
            return false;
        }
        i = i + 1;
    }
    true
}

/// The lower case of an ASCII letter; any other character itself.
pub fn to_lower_char(c: char) -> (r: char)
    ensures
        r == lower_char(c),
{
    if 'A' <= c && c <= 'Z' {
        ((c as u8) + 32) as char
    } else {
        c
    }
}

/// `text` with its ASCII letters in lower case.
pub fn to_lower(text: &str) -> (r: String)
    ensures
        r@ == lower_of(text@),
{
    let chars: Vec<char> = chars_of(text);
    let mut r: String = String::new();
    let mut i: usize = 0;
    while i < chars.len()
        invariant
            i <= chars@.len(),
            chars@ == text@,
            r@ == lower_of(chars@.take(i as int)),
        decreases chars@.len() - i,
    {
        r.push(to_lower_char(chars[i]));
        i = i + 1;
        assert(r@ =~= lower_of(chars@.take(i as int)));
    }
    assert(chars@.take(chars@.len() as int) =~= chars@);
    r
}

/// Whether `text` begins with `prefix`.
pub fn starts_with(text: &str, prefix: &str) -> (r: bool)
    ensures
        r == begins(text@, prefix@),
{
    let t: Vec<char> = chars_of(text);
    let p: Vec<char> = chars_of(prefix);
    if p.len() > t.len() {
        return false;
    }
    let mut i: usize = 0;
    while i < p.len()
        invariant
            i <= p@.len() <= t@.len(),
            t@ == text@,
            p@ == prefix@,
            forall|j: int| 0 <= j < i ==> t@[j] == p@[j],
        decreases p@.len() - i,
    {
        if t[i] != p[i] {
            assert(t@.take(p@.len() as int)[i as int] == t@[i as int]);
            return false;
        }
        i = i + 1;
    }
    assert(t@.take(p@.len() as int) =~= p@);
    true
}

/// Whether `text` ends with `suffix`.
pub fn ends_with(text: &str, suffix: &str) -> (r: bool)
    ensures
        r == ends(text@, suffix@),
{
    let t: Vec<char> = chars_of(text);
    let p: Vec<char> = chars_of(suffix);
    if p.len() > t.len() {
        return false;
    }
    let start: usize = t.len() - p.len();
    let mut i: usize = 0;
    while i < p.len()
        invariant
            i <= p@.len() <= t@.len(),
            start == t.len() - p.len(),
            t@ == text@,
            p@ == suffix@,
            forall|j: int| 0 <= j < i ==> t@[start + j] == p@[j],
        decreases p@.len() - i,
    {
        if t[start + i] != p[i] {
            assert(t@.skip(start as int)[i as int] == t@[start + i]);
            return false;
        }
        i = i + 1;
    }
    assert(t@.skip(start as int) =~= p@);
    true
}

/// The parts of `text` before and after its first `separator`.
pub open spec fn split_at_char(s: Seq<char>, separator: char) -> Option<(Seq<char>, Seq<char>)> {
    if exists|i: int| first_at(s, separator, i) {
        let i = choose|i: int| first_at(s, separator, i);
        Some((s.take(i), s.skip(i + 1)))
    } else {
        None
    }
}

/// Whether the first `separator` of `s` stands at `i`.
pub open spec fn first_at(s: Seq<char>, separator: char, i: int) -> bool {
    &&& 0 <= i < s.len()
    &&& s[i] == separator
    &&& forall|j: int| 0 <= j < i ==> s[j] != separator
}

/// The parts of `text` before and after its first `separator`.
pub fn split_once(text: &str, separator: char) -> (r: Option<(String, String)>)
    ensures
        match r {
            Some((before, after)) => split_at_char(text@, separator) == Some((before@, after@)),
            None => split_at_char(text@, separator) is None,
        },
{
    let chars: Vec<char> = chars_of(text);
    let mut i: usize = 0;
    while i < chars.len()
        invariant
            i <= chars@.len(),
            chars@ == text@,
            forall|j: int| 0 <= j < i ==> chars@[j] != separator,
        decreases chars@.len() - i,
    {
        if chars[i] == separator {
            proof {
                let s = text@;
                assert(first_at(s, separator, i as int));
                let k = choose|k: int| first_at(s, separator, k);
                assert(first_at(s, separator, k));
                assert(k == i) by {
                    if k < i {
                        assert(s[k] != separator);
                    }
                    if i < k {
                        assert(s[i as int] != separator);
                    }
                }
                assert(s.subrange(0, i as int) =~= s.take(i as int));
                assert(s.subrange(i + 1, s.len() as int) =~= s.skip(i + 1));
            }
            return Some((text_of(&chars, 0, i), text_of(&chars, i + 1, chars.len())));
        }
        i = i + 1;
    }
    assert(!exists|k: int| first_at(text@, separator, k));
    None
}

/// `s` cut at every `separator`; always at least one piece.
pub open spec fn pieces<A>(s: Seq<A>, separator: A) -> Seq<Seq<A>>
    decreases s.len(),
{
    if s.len() == 0 {
        seq![Seq::<A>::empty()]
    } else {
        let before = pieces(s.drop_last(), separator);
        if s.last() == separator {
            before.push(Seq::empty())
        } else {
            before.update(before.len() - 1, before.last().push(s.last()))
        }
    }
}

/// The pieces that a reader yields: what follows the last `separator` counts only where it is not
/// empty.
pub open spec fn yielded<A>(s: Seq<A>, separator: A) -> Seq<Seq<A>> {
    let all = pieces(s, separator);
    if all.last().len() == 0 {
        all.drop_last()
    } else {
        all
    }
}

/// The contents of a list of lists.
pub open spec fn inner<A>(list: Seq<Vec<A>>) -> Seq<Seq<A>> {
    Seq::new(list.len(), |i: int| list[i]@)
}

/// Cuts `input` at every `separator`.
pub fn split_bytes(input: &Vec<u8>, separator: u8) -> (r: Vec<Vec<u8>>)
    ensures
        inner(r@) == yielded(input@, separator),
{
    let mut r: Vec<Vec<u8>> = Vec::new();
    let mut piece: Vec<u8> = Vec::new();
    let mut i: usize = 0;
    proof {
        assert(input@.take(0) =~= Seq::<u8>::empty());
        assert(pieces(input@.take(0), separator).drop_last() =~= inner(r@));
    }
    while i < input.len()
        invariant
            i <= input@.len(),
            pieces(input@.take(i as int), separator).len() > 0,
            piece@ == pieces(input@.take(i as int), separator).last(),
            inner(r@) == pieces(input@.take(i as int), separator).drop_last(),
        decreases input@.len() - i,
    {
        let b: u8 = input[i];
        let ghost seen = pieces(input@.take(i as int), separator);
        proof {
            assert(input@.take(i + 1).drop_last() =~= input@.take(i as int));
        }
        if b == separator {
            let mut done: Vec<u8> = Vec::new();
            std::mem::swap(&mut done, &mut piece);
            let ghost before = inner(r@);
            let ghost last = done@;
            r.push(done);
            proof {
                assert(inner(r@) =~= before.push(last));
                assert(before.push(last) =~= seen);
                assert(pieces(input@.take(i + 1), separator).drop_last() =~= seen);
            }
        } else {
            piece.push(b);
            assert(pieces(input@.take(i + 1), separator).drop_last() =~= seen.drop_last());
        }
        i = i + 1;
    }
    assert(input@.take(input@.len() as int) =~= input@);
    if piece.len() > 0 {
        let ghost seen = pieces(input@, separator);
        let ghost before = inner(r@);
        let ghost last = piece@;
        r.push(piece);
        assert(inner(r@) =~= before.push(last));
        assert(before.push(last) =~= seen);
    }
    r
}

/// Cuts `text` into lines, without their ends.
pub fn split_lines(text: &str) -> (r: Vec<String>)
    ensures
        views(r@) == yielded(text@, '\n'),
{
    let chars: Vec<char> = chars_of(text);
    let mut r: Vec<String> = Vec::new();
    let mut piece: String = String::new();
    let mut i: usize = 0;
    proof {
        assert(chars@.take(0) =~= Seq::<char>::empty());
        assert(pieces(chars@.take(0), '\n').drop_last() =~= views(r@));
    }
    while i < chars.len()
        invariant
            i <= chars@.len(),
            pieces(chars@.take(i as int), '\n').len() > 0,
            piece@ == pieces(chars@.take(i as int), '\n').last(),
            views(r@) == pieces(chars@.take(i as int), '\n').drop_last(),
        decreases chars@.len() - i,
    {
        let c: char = chars[i];
        let ghost seen = pieces(chars@.take(i as int), '\n');
        proof {
            assert(chars@.take(i + 1).drop_last() =~= chars@.take(i as int));
        }
        if c == '\n' {
            let mut done: String = String::new();
            std::mem::swap(&mut done, &mut piece);
            let ghost before = views(r@);
            let ghost last = done@;
            r.push(done);
            proof {
                assert(views(r@) =~= before.push(last));
                assert(before.push(last) =~= seen);
                assert(pieces(chars@.take(i + 1), '\n').drop_last() =~= seen);
            }
        } else {
            piece.push(c);
            assert(pieces(chars@.take(i + 1), '\n').drop_last() =~= seen.drop_last());
        }
        i = i + 1;
    }
    assert(chars@.take(chars@.len() as int) =~= chars@);
    if !piece.as_str().is_empty() {
        let ghost seen = pieces(chars@, '\n');
        let ghost before = views(r@);
        let ghost last = piece@;
        r.push(piece);
        assert(views(r@) =~= before.push(last));
        assert(before.push(last) =~= seen);
    }
    r
}

/// The texts in order, with `separator` between each two.
pub fn join(parts: &Vec<String>, separator: &str) -> (r: String)
    ensures
        r@ == joined_with(views(parts@), separator@),
{
    let mut r: String = String::new();
    let mut i: usize = 0;
    while i < parts.len()
        invariant
            i <= parts@.len(),
            r@ == joined_with(views(parts@.take(i as int)), separator@),
        decreases parts@.len() - i,
    {
        if i > 0 {
            r.append(separator);
        }
        r.append(parts[i].as_str());
        i = i + 1;
        proof {
            let now = views(parts@.take(i as int));
            assert(now.drop_last() =~= views(parts@.take(i - 1)));
            assert(now.last() == parts@[i - 1]@);
            if i == 1 {
                assert(r@ =~= now[0]);
            }
        }
    }
    assert(parts@.take(parts@.len() as int) =~= parts@);
    r
}

/// The decimal digit for a number below ten.
fn digit(n: u64) -> (c: char)
    requires
        n < 10,
    ensures
        c == digit_char(n as int),
{
    (48 + n as u8) as char
}

/// `n` in decimal.
pub fn decimal(n: u64) -> (r: String)
    ensures
        r@ == decimal_of(n as nat),
    decreases n,
{
    if n < 10 {
        let mut r: String = String::new();
        r.push(digit(n));
        assert(r@ =~= decimal_of(n as nat));
        r
    } else {
        let mut r: String = decimal(n / 10);
        r.push(digit(n % 10));
        r
    }
}

/// The number `text` writes, if it is one that fits.
pub fn parse_u32(text: &str) -> (r: Option<u32>)
    ensures
        r == u32_of(text@),
{
    let chars: Vec<char> = chars_of(text);
    let start: usize = if chars.len() > 0 && chars[0] == '+' {
        1
    } else {
        0
    };
    let ghost digits = unsigned_digits(text@);
    assert(digits =~= text@.skip(start as int));
    if start == chars.len() {
        return None;
    }
    let mut value: u32 = 0;
    let mut i: usize = start;
    while i < chars.len()
        invariant
            start <= i <= chars@.len(),
            start <= 1,
            start < chars@.len(),
            chars@ == text@,
            digits == text@.skip(start as int),
            digits == unsigned_digits(text@),
            forall|j: int| 0 <= j < i - start ==> '0' <= #[trigger] digits[j] <= '9',
            value == digits_value(digits.take(i - start)),
        decreases chars@.len() - i,
    {
        let c: char = chars[i];
        assert(digits[i - start] == c);
        if c < '0' || c > '9' {
            return None;
        }
        let d: u32 = c as u32 - 48;
        let wide: u64 = value as u64 * 10 + d as u64;
        proof {
            assert(digits.take(i - start + 1).drop_last() =~= digits.take(i - start));
            assert(wide == digits_value(digits.take(i - start + 1)));
        }
        if wide > u32::MAX as u64 {
            proof {
                if all_digits(digits) {
                    lemma_digits_value_bound(digits, i - start + 1);
                }
            }
            return None;
        }
        value = wide as u32;
        i = i + 1;
    }
    assert(digits.take(digits.len() as int) =~= digits);
    Some(value)
}

/// The code units `text` takes in UTF-16, as the thirty-two bits in which positions count.
pub fn utf16_len(text: &str) -> (n: u32)
    ensures
        n == utf16_len_of(text@) % 0x1_0000_0000,
{
    let chars: Vec<char> = chars_of(text);
    let mut n: u64 = 0;
    let mut i: usize = 0;
    while i < chars.len()
        invariant
            i <= chars@.len(),
            chars@ == text@,
            n == utf16_len_of(chars@.take(i as int)) % 0x1_0000_0000,
        decreases chars@.len() - i,
    {
        let width: u64 = if (chars[i] as u32) >= 0x10000 {
            2
        } else {
            1
        };
        n = (n + width) % 0x1_0000_0000;
        i = i + 1;
        assert(chars@.take(i as int).drop_last() =~= chars@.take(i - 1));
    }
    assert(chars@.take(chars@.len() as int) =~= chars@);
    n as u32
}

} // verus!
