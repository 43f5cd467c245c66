//! What the small operations on text do.

use vstd::prelude::*;
#[allow(unused_imports)]
use crate::text::{
    all_digits, decimal_of, digit_char, digits_value, is_white, joined_with, lower_of, trim_end_of,
    trim_of, trim_start_of, u32_of, unsigned_digits, utf16_len_of,
};

verus! {

proof fn lemma_trim_start(s: Seq<char>) -> (n: int)
    ensures
        0 <= n <= s.len(),
        trim_start_of(s) == s.skip(n),
        forall|i: int| 0 <= i < n ==> is_white(#[trigger] s[i]),
        n < s.len() ==> !is_white(s[n]),
    decreases s.len(),
{
    if s.len() > 0 && is_white(s[0]) {
        let rest = s.skip(1);
        let n = lemma_trim_start(rest);
        assert(rest.skip(n) =~= s.skip(n + 1));
        assert forall|i: int| 0 <= i < n + 1 implies is_white(#[trigger] s[i]) by {
            if i > 0 {
                assert(rest[i - 1] == s[i]);
            }
        }
        if n < rest.len() {
            assert(rest[n] == s[n + 1]);
        }
        n + 1
    } else {
        assert(s.skip(0) =~= s);
        0
    }
}

proof fn lemma_trim_end(s: Seq<char>) -> (n: int)
    ensures
        0 <= n <= s.len(),
        trim_end_of(s) == s.take(n),
        forall|i: int| n <= i < s.len() ==> is_white(#[trigger] s[i]),
        n > 0 ==> !is_white(s[n - 1]),
    decreases s.len(),
{
    if s.len() > 0 && is_white(s.last()) {
        let rest = s.drop_last();
        let n = lemma_trim_end(rest);
        assert(rest.take(n) =~= s.take(n));
        assert forall|i: int| n <= i < s.len() implies is_white(#[trigger] s[i]) by {
            if i < rest.len() {
                assert(rest[i] == s[i]);
            }
        }
        if n > 0 {
            assert(rest[n - 1] == s[n - 1]);
        }
        n
    } else {
        assert(s.take(s.len() as int) =~= s);
        s.len() as int
    }
}

/// Trimming takes white space from both ends and nothing else: what is left stands between white
/// space, and neither begins nor ends with any.
pub proof fn law_trimming_takes_the_space_around(s: Seq<char>) -> (r: (Seq<char>, Seq<char>))
    ensures
        s == r.0 + trim_of(s) + r.1,
        forall|i: int| 0 <= i < r.0.len() ==> is_white(#[trigger] r.0[i]),
        forall|i: int| 0 <= i < r.1.len() ==> is_white(#[trigger] r.1[i]),
        trim_of(s).len() > 0 ==> !is_white(trim_of(s)[0]) && !is_white(
            trim_of(s)[trim_of(s).len() - 1],
        ),
{
    let n = lemma_trim_start(s);
    let rest = s.skip(n);
    let m = lemma_trim_end(rest);
    let front = s.take(n);
    let back = rest.skip(m);
    assert(s =~= front + trim_of(s) + back);
    assert forall|i: int| 0 <= i < back.len() implies is_white(#[trigger] back[i]) by {
        assert(back[i] == rest[m + i]);
    }
    if trim_of(s).len() > 0 {
        assert(trim_of(s)[0] == s[n]);
        assert(trim_of(s)[m - 1] == rest[m - 1]);
    }
    (front, back)
}

/// A space, a tab and both line ends are white space; a letter or a digit is not.
pub proof fn law_what_white_space_is(c: char)
    ensures
        is_white(' ') && is_white('\t') && is_white('\n') && is_white('\r'),
        'a' <= c <= 'z' || 'A' <= c <= 'Z' || '0' <= c <= '9' ==> !is_white(c),
        c == '_' || c == '.' || c == '-' || c == '/' || c == '*' || c == ':' ==> !is_white(c),
{
}

/// Lower case keeps the length, takes the letters of `A` to `Z` to those of `a` to `z` in order, and
/// leaves every other character as it is.
pub proof fn law_lower_case_changes_capitals_alone(s: Seq<char>, i: int)
    requires
        0 <= i < s.len(),
    ensures
        lower_of(s).len() == s.len(),
        'A' <= s[i] <= 'Z' ==> lower_of(s)[i] as int - 'a' as int == s[i] as int - 'A' as int,
        !('A' <= s[i] <= 'Z') ==> lower_of(s)[i] == s[i],
{
}

/// A number is written so that reading it gives it back, in digits, and without zeroes in front.
pub proof fn law_a_written_number_reads_back(n: nat)
    ensures
        all_digits(decimal_of(n)),
        digits_value(decimal_of(n)) == n,
        decimal_of(n).len() > 1 ==> decimal_of(n)[0] != '0',
    decreases n,
{
    if n < 10 {
        let c = digit_char(n as int);
        assert('0' <= c <= '9');
        assert(decimal_of(n).drop_last() =~= Seq::<char>::empty());
        assert(digits_value(decimal_of(n).drop_last()) == 0);
        assert(decimal_of(n).last() == c);
        assert(c as int - 48 == n);
    } else {
        law_a_written_number_reads_back(n / 10);
        let before = decimal_of(n / 10);
        let c = digit_char((n % 10) as int);
        assert('0' <= c <= '9');
        assert(decimal_of(n).drop_last() =~= before);
        assert(decimal_of(n).last() == c);
        assert(c as int - 48 == n % 10);
        assert(digits_value(decimal_of(n)) == digits_value(before) * 10 + (c as int - 48));
        assert forall|i: int| 0 <= i < decimal_of(n).len() implies '0' <= #[trigger] decimal_of(
            n,
        )[i] <= '9' by {
            if i < before.len() {
                assert(decimal_of(n)[i] == before[i]);
            }
        }
        if before.len() == 1 {
            if n / 10 >= 10 {
                assert(decimal_of(n / 10 / 10).len() >= 1) by {
                    law_a_written_number_reads_back(n / 10 / 10);
                }
            }
            assert(n / 10 < 10);
            assert(before[0] == digit_char((n / 10) as int));
        }
        assert(decimal_of(n)[0] == before[0]);
    }
}

/// A number below two to the thirty-second is read back from how it is written, a `+` in front or
/// not; and whatever is read is written in digits alone, with at most a `+` in front.
pub proof fn law_numbers_are_read_as_written(n: u32, s: Seq<char>)
    ensures
        u32_of(decimal_of(n as nat)) == Some(n),
        u32_of(seq!['+'] + decimal_of(n as nat)) == Some(n),
        u32_of(s) is Some ==> s.len() > 0 && (forall|i: int|
            0 < i < s.len() ==> '0' <= #[trigger] s[i] <= '9') && ('0' <= s[0] <= '9' || (s[0]
            == '+' && s.len() > 1)),
{
    law_a_written_number_reads_back(n as nat);
    let digits = decimal_of(n as nat);
    assert('0' <= digits[0] <= '9');
    let signed = seq!['+'] + digits;
    assert(signed.skip(1) =~= digits);
    if u32_of(s) is Some {
        let own = unsigned_digits(s);
        assert('0' <= own[0] <= '9');
        assert forall|i: int| 0 < i < s.len() implies '0' <= #[trigger] s[i] <= '9' by {
            if s[0] == '+' {
                assert(own[i - 1] == s[i]);
            } else {
                assert(own[i] == s[i]);
            }
        }
    }
}

/// Joining puts the separator between each two parts: one more part adds the separator and the part.
pub proof fn law_joining_goes_on_with_the_separator(
    parts: Seq<Seq<char>>,
    separator: Seq<char>,
    more: Seq<char>,
)
    ensures
        joined_with(Seq::empty(), separator) == Seq::<char>::empty(),
        joined_with(seq![more], separator) == more,
        parts.len() > 0 ==> joined_with(parts.push(more), separator) == joined_with(
            parts,
            separator,
        ) + separator + more,
{
    assert(parts.push(more).drop_last() =~= parts);
}

/// The length in UTF-16 adds up, one for each character and two for those beyond the first plane.
pub proof fn law_utf16_lengths_add_up(a: Seq<char>, b: Seq<char>, c: char)
    ensures
        utf16_len_of(a + b) == utf16_len_of(a) + utf16_len_of(b),
        utf16_len_of(seq![c]) == if (c as u32) < 0x10000 {
            1nat
        } else {
            2nat
        },
    decreases b.len(),
{
    assert(seq![c].drop_last() =~= Seq::<char>::empty());
    assert(utf16_len_of(seq![c].drop_last()) == 0);
    if b.len() == 0 {
        assert(a + b =~= a);
    } else {
        law_utf16_lengths_add_up(a, b.drop_last(), c);
        assert((a + b).drop_last() =~= a + b.drop_last());
    }
}

} // verus!
