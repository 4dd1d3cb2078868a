//! What sizes written as text stand for.
use crate::size;
use crate::size::SizeError;
use vstd::arithmetic::power::*;
use vstd::prelude::*;
use vstd::string::*;

verus! {

/// Whitespace is what Unicode calls so.
pub proof fn law_whitespace(c: char)
    ensures
        size::is_whitespace(c) <==> (c == '\t' || c == '\n' || c == '\u{b}' || c == '\u{c}' || c
            == '\r' || c == ' ' || c == '\u{85}' || c == '\u{a0}' || c == '\u{1680}' || c
            == '\u{2000}' || c == '\u{2001}' || c == '\u{2002}' || c == '\u{2003}' || c
            == '\u{2004}' || c == '\u{2005}' || c == '\u{2006}' || c == '\u{2007}' || c
            == '\u{2008}' || c == '\u{2009}' || c == '\u{200a}' || c == '\u{2028}' || c
            == '\u{2029}' || c == '\u{202f}' || c == '\u{205f}' || c == '\u{3000}'),
{
}

proof fn lemma_trim_start(s: Seq<char>) -> (a: int)
    ensures
        0 <= a <= s.len(),
        size::trim_start(s) == s.skip(a),
        forall|j: int| 0 <= j < a ==> size::is_whitespace(#[trigger] s[j]),
        a < s.len() ==> !size::is_whitespace(s[a]),
    decreases s.len(),
{
    if s.len() > 0 && size::is_whitespace(s[0]) {
        let rest = s.drop_first();
        let a = lemma_trim_start(rest);
        assert(rest.skip(a) =~= s.skip(a + 1));
        assert forall|j: int| 0 <= j < a + 1 implies size::is_whitespace(#[trigger] s[j]) by {
            if j > 0 {
                assert(rest[j - 1] == s[j]);
            }
        }
        a + 1
    } else {
        assert(s.skip(0) =~= s);
        0
    }
}

proof fn lemma_trim_end(s: Seq<char>) -> (n: int)
    ensures
        0 <= n <= s.len(),
        size::trim_end(s) == s.take(n),
        forall|j: int| n <= j < s.len() ==> size::is_whitespace(#[trigger] s[j]),
        n > 0 ==> !size::is_whitespace(s[n - 1]),
    decreases s.len(),
{
    if s.len() > 0 && size::is_whitespace(s.last()) {
        let front = s.drop_last();
        let n = lemma_trim_end(front);
        assert(front.take(n) =~= s.take(n));
        assert forall|j: int| n <= j < s.len() implies size::is_whitespace(#[trigger] s[j]) by {
            if j < front.len() {
                assert(front[j] == s[j]);
            }
        }
        n
    } else {
        assert(s.take(s.len() as int) =~= s);
        s.len() as int
    }
}

/// A text without the whitespace around it is a part of the text that neither
/// starts nor ends with whitespace, and all that is left out is whitespace. The
/// part begins at the place that is returned.
pub proof fn law_trimmed_text(s: Seq<char>) -> (a: int)
    ensures
        ({
            let n = size::trimmed(s).len() as int;
            &&& 0 <= a
            &&& a + n <= s.len()
            &&& size::trimmed(s) == s.subrange(a, a + n)
            &&& forall|j: int| 0 <= j < a ==> size::is_whitespace(#[trigger] s[j])
            &&& forall|j: int| a + n <= j < s.len() ==> size::is_whitespace(#[trigger] s[j])
            &&& n > 0 ==> !size::is_whitespace(s[a]) && !size::is_whitespace(s[a + n - 1])
        }),
{
    let a = lemma_trim_start(s);
    let rest = s.skip(a);
    let n = lemma_trim_end(rest);
    assert(rest.take(n) =~= s.subrange(a, a + n));
    assert forall|j: int| a + n <= j < s.len() implies size::is_whitespace(#[trigger] s[j]) by {
        assert(rest[j - a] == s[j]);
    }
    a
}

proof fn lemma_trimmed_again(t: Seq<char>)
    requires
        t.len() > 0 ==> !size::is_whitespace(t[0]) && !size::is_whitespace(t.last()),
    ensures
        size::trimmed(t) == t,
{
}

/// Whitespace around a size makes no difference.
pub proof fn law_whitespace_around_a_size(s: Seq<char>)
    ensures
        size::size_bytes(s) == size::size_bytes(size::trimmed(s)),
        size::trimmed(s).len() == 0 ==> size::size_bytes(s) is None,
{
    let a = law_trimmed_text(s);
    let n = size::trimmed(s).len() as int;
    if n > 0 {
        assert(size::trimmed(s)[0] == s[a]);
        assert(size::trimmed(s)[n - 1] == s[a + n - 1]);
    }
    lemma_trimmed_again(size::trimmed(s));
}

/// Each digit counts ten times as much as the one after it.
pub proof fn law_value_of_digits(digits: Seq<char>)
    requires
        forall|i: int| 0 <= i < digits.len() ==> '0' <= #[trigger] digits[i] <= '9',
    ensures
        digits.len() == 0 ==> size::decimal_value(digits) == 0,
        digits.len() > 0 ==> size::decimal_value(digits) == (digits[0] as int - '0' as int) * pow(
            10,
            (digits.len() - 1) as nat,
        ) + size::decimal_value(digits.skip(1)),
    decreases digits.len(),
{
    if digits.len() == 1 {
        assert(digits.skip(1) =~= Seq::empty());
        assert(digits.drop_last() =~= Seq::empty());
        assert(size::decimal_value(Seq::empty()) == 0);
        lemma_pow0(10);
    } else if digits.len() > 1 {
        let front = digits.drop_last();
        let n = (digits.len() - 2) as nat;
        assert forall|i: int| 0 <= i < front.len() implies '0' <= #[trigger] front[i] <= '9' by {
            assert(front[i] == digits[i]);
        }
        law_value_of_digits(front);
        assert(front.skip(1) =~= digits.skip(1).drop_last());
        assert(digits.skip(1).last() == digits.last());
        let first = digits[0] as int - '0' as int;
        let last = (digits.last() as nat - '0' as nat) as nat;
        let rest = size::decimal_value(front.skip(1));
        reveal(pow);
        assert(pow(10, n + 1) == 10 * pow(10, n));
        assert((first * pow(10, n) + rest) * 10 + last == first * (10 * pow(10, n)) + (rest * 10
            + last)) by (nonlinear_arith);
    }
}

/// A number is written with one or more decimal digits, and a `+` before them if
/// at all. It is the value of the digits.
pub proof fn law_written_number(digits: Seq<char>)
    ensures
        digits.len() > 0 && digits[0] == '+' ==> size::written_number(seq!['+'] + digits) is None,
        digits.len() == 0 || digits[0] != '+' ==> {
            &&& size::written_number(seq!['+'] + digits) == size::written_number(digits)
            &&& size::written_number(digits) is Some <==> digits.len() > 0 && forall|i: int|
                0 <= i < digits.len() ==> '0' <= #[trigger] digits[i] <= '9'
            &&& size::written_number(digits) is Some ==> size::written_number(digits)->0
                == size::decimal_value(digits)
        },
{
    assert((seq!['+'] + digits).drop_first() =~= digits);
    if digits.len() > 0 && digits[0] == '+' {
        assert(!size::is_digit(digits[0]));
    }
    if size::all_digits(digits) {
        assert forall|i: int| 0 <= i < digits.len() implies '0' <= #[trigger] digits[i]
            <= '9' by {
            assert(size::is_digit(digits[i]));
        }
    } else {
        let i = choose|i: int| 0 <= i < digits.len() && !size::is_digit(#[trigger] digits[i]);
        assert(!('0' <= digits[i] <= '9'));
    }
}

/// The units are `K`, `M` and `G`, in either letter case and with or without a `B`
/// after them, for 1024 bytes and the square and the cube of that. A size is the
/// number before its unit times the unit.
pub proof fn law_units(number: Seq<char>, letter: char, b: char)
    requires
        b == 'B' || b == 'b',
        letter == 'K' || letter == 'k' || letter == 'M' || letter == 'm' || letter == 'G' || letter
            == 'g',
    ensures
        ({
            let unit: nat = if letter == 'K' || letter == 'k' {
                1024
            } else if letter == 'M' || letter == 'm' {
                1048576
            } else {
                1073741824
            };
            let bytes = match size::written_number(size::trimmed(number)) {
                Some(n) if n <= 0xffff_ffff_ffff_ffff => Some(n * unit),
                _ => None,
            };
            &&& size::size_bytes(number + seq![letter]) == bytes
            &&& size::size_bytes(number + seq![letter, b]) == bytes
        }),
{
    size::law_number_times_unit(number, seq![letter]);
    size::law_number_times_unit(number, seq![letter, b]);
}

/// Whether a unit can begin with this character.
pub open spec fn is_unit_letter(c: char) -> bool {
    c == 'K' || c == 'k' || c == 'M' || c == 'm' || c == 'G' || c == 'g'
}

/// A text that does not end in a unit stands for the number that it writes.
pub proof fn law_size_without_unit(s: Seq<char>)
    requires
        s.len() > 0,
        !size::is_whitespace(s[0]),
        !size::is_whitespace(s.last()),
        !is_unit_letter(s.last()),
        s.len() > 1 && (s.last() == 'B' || s.last() == 'b') ==> !is_unit_letter(s[s.len() - 2]),
    ensures
        size::size_bytes(s) == match size::written_number(s) {
            Some(n) if n <= 0xffff_ffff_ffff_ffff => Some(n),
            _ => None,
        },
{
    lemma_trimmed_again(s);
    assert(s[s.len() - 1] == s.last());
    assert(size::unit_length(s) == 0);
    assert(s.subrange(0, s.len() - 0) =~= s);
    assert(size::unit_bytes(s) == 1);
}

/// A text is refused as a size for the reason that holds, and with the text that
/// was refused.
pub proof fn law_refused_sizes(s: Seq<char>, e: SizeError)
    requires
        size::refused(s, e),
    ensures
        size::size_bytes(s) is None || size::size_bytes(s)->0 > 0xffff_ffff_ffff_ffff,
        e is Empty <==> size::trimmed(s).len() == 0,
        e is TooLarge <==> size::size_bytes(s) is Some,
        match e {
            SizeError::Empty => e.message_text() == "empty size"@,
            SizeError::Invalid { value, .. } => {
                &&& value@ == size::trimmed(s)
                &&& e.message_text() == "invalid size value: "@ + size::trimmed(s)
            },
            SizeError::TooLarge { value } => {
                &&& value@ == size::trimmed(s)
                &&& e.message_text() == "size value is too large: "@ + size::trimmed(s)
            },
        },
{
}

} // verus!
