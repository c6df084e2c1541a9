//! What the text helpers do, said of the characters.

use crate::text::{
    begins_with, chomped, decimal, digits_value, find_from, index_of, is_digit, is_space,
    lemma_decimal_round_trip, lemma_index_from, lines_of, lowered, number_in, occurrences,
    split_at_first, trimmed, trimmed_end, trimmed_start, without_plus,
};
use vstd::prelude::*;

verus! {

/// Lowercase replaces the letters from A to Z, which stand 32 places before
/// their small forms, and nothing else.
pub proof fn law_lowercase(s: Seq<char>, i: int)
    requires
        0 <= i < s.len(),
    ensures
        lowered(s).len() == s.len(),
        65 <= s[i] as u32 <= 90 ==> lowered(s)[i] as u32 == s[i] as u32 + 32,
        !(65 <= s[i] as u32 <= 90) ==> lowered(s)[i] == s[i],
{
}

/// Text in lowercase stays as it is.
pub proof fn law_lowercase_once(s: Seq<char>)
    ensures
        lowered(lowered(s)) == lowered(s),
{
    assert(lowered(lowered(s)) =~= lowered(s));
}

/// Among the ASCII characters the space and those from tab to carriage return
/// are white space, and no other; beyond them, the spaces of Unicode are.
pub proof fn law_white_space(c: char)
    ensures
        (c as u32) < 128 ==> is_space(c) == (c as u32 == 32 || 9 <= c as u32 <= 13),
        c as u32 >= 128 && is_space(c) ==> c as u32 == 0x85 || c as u32 == 0xa0 || c as u32 == 0x1680
            || 0x2000 <= c as u32 <= 0x200a || c as u32 == 0x2028 || c as u32 == 0x2029 || c as u32
            == 0x202f || c as u32 == 0x205f || c as u32 == 0x3000,
        c as u32 == 0x85 || c as u32 == 0xa0 || c as u32 == 0x1680 || 0x2000 <= c as u32 <= 0x200a
            || c as u32 == 0x2028 || c as u32 == 0x2029 || c as u32 == 0x202f || c as u32 == 0x205f
            || c as u32 == 0x3000 ==> is_space(c),
{
}

/// Trimming takes white space off both ends, all of it and nothing else.
pub proof fn law_trimming(s: Seq<char>)
    ensures
        exists|a: int, b: int| #[trigger] is_trimmed_at(s, a, b),
        trimmed(s).len() > 0 ==> !is_space(trimmed(s)[0]) && !is_space(trimmed(s).last()),
{
    lemma_trimmed_start(s);
    let middle = trimmed_start(s);
    lemma_trimmed_end(middle);
    let a = s.len() - middle.len();
    let b = a + trimmed(s).len();
    assert(trimmed(s) =~= s.subrange(a, b));
    assert forall|i: int| b <= i < s.len() implies is_space(#[trigger] s[i]) by {
        assert(middle[i - a] == s[i]);
    }
    assert(is_trimmed_at(s, a, b));
    if trimmed(s).len() > 0 {
        assert(trimmed(s)[0] == middle[0]);
    }
}

/// Whether the trimmed text is the part `a..b`, with white space around it.
pub open spec fn is_trimmed_at(s: Seq<char>, a: int, b: int) -> bool {
    &&& 0 <= a <= b <= s.len()
    &&& trimmed(s) == s.subrange(a, b)
    &&& forall|i: int| 0 <= i < a || b <= i < s.len() ==> is_space(#[trigger] s[i])
}

proof fn lemma_trimmed_start(s: Seq<char>)
    ensures
        trimmed_start(s).len() <= s.len(),
        trimmed_start(s) == s.skip(s.len() - trimmed_start(s).len()),
        forall|i: int| 0 <= i < s.len() - trimmed_start(s).len() ==> is_space(#[trigger] s[i]),
        trimmed_start(s).len() > 0 ==> !is_space(trimmed_start(s)[0]),
    decreases s.len(),
{
    if s.len() > 0 && is_space(s[0]) {
        let rest = s.drop_first();
        lemma_trimmed_start(rest);
        assert(trimmed_start(s) =~= s.skip(s.len() - trimmed_start(s).len()));
        assert forall|i: int| 0 <= i < s.len() - trimmed_start(s).len() implies is_space(
            #[trigger] s[i],
        ) by {
            if i > 0 {
                assert(rest[i - 1] == s[i]);
            }
        }
    } else {
        assert(s.skip(0) =~= s);
    }
}

proof fn lemma_trimmed_end(s: Seq<char>)
    ensures
        trimmed_end(s).len() <= s.len(),
        trimmed_end(s) == s.take(trimmed_end(s).len() as int),
        forall|i: int| trimmed_end(s).len() <= i < s.len() ==> is_space(#[trigger] s[i]),
        trimmed_end(s).len() > 0 ==> !is_space(trimmed_end(s).last()),
    decreases s.len(),
{
    if s.len() > 0 && is_space(s.last()) {
        let rest = s.drop_last();
        lemma_trimmed_end(rest);
        assert(trimmed_end(s) =~= s.take(trimmed_end(s).len() as int));
        assert forall|i: int| trimmed_end(s).len() <= i < s.len() implies is_space(
            #[trigger] s[i],
        ) by {
            if i < rest.len() {
                assert(rest[i] == s[i]);
            }
        }
    } else {
        assert(s.take(s.len() as int) =~= s);
    }
}

/// A line feed ends a line, a carriage return before it goes with it, and what
/// follows are the next lines.
pub proof fn law_lines_end_at_line_feeds(line: Seq<char>, rest: Seq<char>)
    requires
        !line.contains('\n'),
    ensures
        (line.len() == 0 || line.last() != '\r') ==> lines_of(line.push('\n') + rest) == seq![line]
            + lines_of(rest),
        lines_of(line.push('\r').push('\n') + rest) == seq![line] + lines_of(rest),
        line.len() > 0 ==> lines_of(line) == seq![line],
        lines_of(Seq::empty()) == Seq::<Seq<char>>::empty(),
{
    let a = line.push('\n') + rest;
    let b = line.push('\r').push('\n') + rest;
    lemma_index_from(a, '\n', 0);
    lemma_index_from(b, '\n', 0);
    lemma_index_from(line, '\n', 0);
    assert forall|i: int| 0 <= i < line.len() implies line[i] != '\n' by {
        assert(line.contains(line[i]));
    }
    assert(a[line.len() as int] == '\n');
    assert(forall|i: int| 0 <= i < line.len() ==> a[i] == line[i]);
    assert(index_of(a, '\n') == Some(line.len() as int));
    assert(a.take(line.len() as int) =~= line);
    assert(a.skip(line.len() as int + 1) =~= rest);
    assert(b[line.len() as int + 1] == '\n');
    assert(forall|i: int| 0 <= i < line.len() ==> b[i] == line[i]);
    assert(b[line.len() as int] == '\r');
    assert(index_of(b, '\n') == Some(line.len() as int + 1));
    assert(b.take(line.len() as int + 1) =~= line.push('\r'));
    assert(chomped(line.push('\r')) =~= line);
    assert(b.skip(line.len() as int + 2) =~= rest);
}

/// What is before and after the first `c` makes up the text again, and `c` does
/// not occur before it.
pub proof fn law_splitting_at_the_first(s: Seq<char>, c: char)
    ensures
        split_at_first(s, c) matches Some((a, b)) ==> s == a.push(c) + b && !a.contains(c),
        split_at_first(s, c) is None <==> !s.contains(c),
{
    lemma_index_from(s, c, 0);
    if let Some(i) = index_of(s, c) {
        assert(s =~= s.take(i).push(c) + s.skip(i + 1));
        assert(s.contains(c)) by {
            assert(s[i] == c);
        }
    }
}

/// A pattern is found where it first stands, and nowhere only if it stands
/// nowhere.
pub proof fn law_finding_a_pattern(s: Seq<char>, pattern: Seq<char>, i: int)
    requires
        0 <= i,
    ensures
        match find_from(s, pattern, i) {
            Some(k) => i <= k && k + pattern.len() <= s.len() && s.subrange(k, k + pattern.len())
                == pattern && forall|j: int|
                i <= j < k ==> #[trigger] s.subrange(j, j + pattern.len()) != pattern,
            None => forall|j: int|
                i <= j && j + pattern.len() <= s.len() ==> #[trigger] s.subrange(
                    j,
                    j + pattern.len(),
                ) != pattern,
        },
    decreases s.len() + 1 - i,
{
    if i + pattern.len() <= s.len() && s.subrange(i, i + pattern.len()) != pattern {
        law_finding_a_pattern(s, pattern, i + 1);
    }
}

/// A text begins with a prefix exactly where it is that prefix and something
/// more.
pub proof fn law_prefixes(s: Seq<char>, prefix: Seq<char>, more: Seq<char>)
    ensures
        begins_with(prefix + more, prefix),
        begins_with(s, prefix) ==> s == prefix + s.skip(prefix.len() as int),
{
    assert((prefix + more).take(prefix.len() as int) =~= prefix);
    if begins_with(s, prefix) {
        assert(s =~= s.take(prefix.len() as int) + s.skip(prefix.len() as int));
    }
}

/// Occurrences add up.
pub proof fn law_occurrences_add_up(s: Seq<char>, d: char, c: char)
    ensures
        occurrences(s.push(d), c) == occurrences(s, c) + if d == c {
            1int
        } else {
            0
        },
        occurrences(Seq::empty(), c) == 0,
{
    assert(s.push(d).drop_last() =~= s);
}

/// A number is written with the digits from 0 to 9, tens before ones, and without
/// leading zeros.
pub proof fn law_decimal_digits(n: nat, digit: nat)
    requires
        digit < 10,
    ensures
        decimal(digit).len() == 1,
        decimal(digit)[0] as u32 == 48 + digit,
        n > 0 ==> decimal(10 * n + digit) == decimal(n) + decimal(digit),
{
    if n > 0 {
        let whole = 10 * n + digit;
        assert(whole / 10 == n && whole % 10 == digit);
        assert(decimal(whole) =~= decimal(n) + decimal(digit));
    }
}

/// A number reads back from how it is written, with or without a plus sign,
/// where it is not too large; and what is no run of digits is no number.
pub proof fn law_numbers_read_back(n: nat, max: nat, s: Seq<char>)
    ensures
        number_in(decimal(n), max) == if n <= max {
            Some(n)
        } else {
            None
        },
        number_in(seq!['+'] + decimal(n), max) == if n <= max {
            Some(n)
        } else {
            None
        },
        number_in(s, max) matches Some(k) ==> k <= max && s.len() > 0 && forall|i: int|
            0 < i < s.len() ==> 48 <= #[trigger] s[i] as u32 <= 57,
        number_in(s, max) is Some ==> s[0] == '+' && s.len() > 1 || 48 <= s[0] as u32 <= 57,
{
    lemma_decimal_round_trip(n);
    let signed = seq!['+'] + decimal(n);
    assert(signed.drop_first() =~= decimal(n));
    assert(without_plus(signed) == decimal(n));
    if number_in(s, max) is Some {
        let body = without_plus(s);
        assert(is_digit(body[0]));
        assert forall|i: int| 0 < i < s.len() implies 48 <= #[trigger] s[i] as u32 <= 57 by {
            if s[0] == '+' {
                assert(body[i - 1] == s[i]);
                assert(is_digit(body[i - 1]));
            } else {
                assert(is_digit(body[i]));
            }
        }
    }
}

/// Another digit makes a number ten times as large, and adds the digit; leading
/// zeros do not matter.
pub proof fn law_digits_count_by_tens(s: Seq<char>, c: char, max: nat, v: nat)
    requires
        s.len() > 0,
        forall|i: int| 0 <= i < s.len() ==> 48 <= #[trigger] s[i] as u32 <= 57,
        number_in(s, v) == Some(v),
        48 <= c as u32 <= 57,
    ensures
        v * 10 + c as u32 - 48 <= max ==> number_in(s.push(c), max) == Some(
            (v * 10 + c as u32 - 48) as nat,
        ),
        v * 10 + c as u32 - 48 > max ==> number_in(s.push(c), max) is None,
        number_in(seq!['0'], max) == Some(0nat),
{
    let t = s.push(c);
    assert(t.drop_last() =~= s);
    assert(s[0] != '+' && t[0] == s[0]);
    assert(without_plus(s) == s && without_plus(t) == t);
    assert forall|i: int| 0 <= i < t.len() implies crate::text::is_digit(#[trigger] t[i]) by {
        if i < s.len() {
            assert(t[i] == s[i]);
        }
    }
    let z = seq!['0'];
    reveal_with_fuel(crate::text::digits_value, 2);
    assert(without_plus(z) == z);
    assert(z.drop_last() =~= Seq::<char>::empty());
    assert(crate::text::is_digit(z[0]));
}

} // verus!
