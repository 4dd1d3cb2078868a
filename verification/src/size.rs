//! File sizes written as text, such as `10M`.
use vstd::prelude::*;
use vstd::string::*;

verus! {

/// The characters with the Unicode property `White_Space`.
pub open spec fn is_whitespace(c: char) -> bool {
    let v = c as u32;
    ||| 0x9 <= v <= 0xd
    ||| v == 0x20
    ||| v == 0x85
    ||| v == 0xa0
    ||| v == 0x1680
    ||| 0x2000 <= v <= 0x200a
    ||| v == 0x2028
    ||| v == 0x2029
    ||| v == 0x202f
    ||| v == 0x205f
    ||| v == 0x3000
}

/// A text without its leading whitespace.
pub open spec fn trim_start(s: Seq<char>) -> Seq<char>
    decreases s.len(),
{
    if s.len() > 0 && is_whitespace(s[0]) {
        trim_start(s.drop_first())
    } else {
        s
    }
}

/// A text without its trailing whitespace.
pub open spec fn trim_end(s: Seq<char>) -> Seq<char>
    decreases s.len(),
{
    if s.len() > 0 && is_whitespace(s.last()) {
        trim_end(s.drop_last())
    } else {
        s
    }
}

/// A text without the whitespace around it.
pub open spec fn trimmed(s: Seq<char>) -> Seq<char> {
    trim_end(trim_start(s))
}

/// `str::trim` removes leading and trailing Unicode whitespace.
pub assume_specification[ str::trim ](s: &str) -> (t: &str)
    ensures
        t@ == trimmed(s@),
;

/// The message with which `str::parse::<u64>` rejects a text.
pub uninterp spec fn number_error(s: Seq<char>) -> Seq<char>;

pub open spec fn is_digit(c: char) -> bool {
    '0' <= c <= '9'
}

pub open spec fn all_digits(s: Seq<char>) -> bool {
    forall|i: int| 0 <= i < s.len() ==> is_digit(#[trigger] s[i])
}

/// The value of a run of decimal digits.
pub open spec fn decimal_value(digits: Seq<char>) -> nat
    decreases digits.len(),
{
    if digits.len() == 0 {
        0
    } else {
        decimal_value(digits.drop_last()) * 10 + (digits.last() as nat - '0' as nat) as nat
    }
}

/// The number that a text writes: an optional `+` before one or more decimal
/// digits, and nothing else.
pub open spec fn written_number(s: Seq<char>) -> Option<nat> {
    let digits = if s.len() > 0 && s[0] == '+' {
        s.drop_first()
    } else {
        s
    };
    if digits.len() > 0 && all_digits(digits) {
        Some(decimal_value(digits))
    } else {
        None
    }
}

/// `str::parse::<u64>` accepts exactly the texts that write a number which a
/// `u64` can hold, and returns that number. The message of its error depends on
/// the text alone.
#[verifier::external_body]
fn parse_u64(s: &str) -> (r: Result<u64, String>)
    ensures
        match r {
            Ok(n) => written_number(s@) == Some(n as nat),
            Err(message) => {
                &&& written_number(s@) matches Some(n) ==> n > u64::MAX
                &&& message@ == number_error(s@)
            },
        },
{
    match s.parse::<u64>() {
        Ok(n) => Ok(n),
        Err(e) => Err(e.to_string()),
    }
}

/// Why a text is not a size. `value` is the text without the whitespace around
/// it.
#[derive(Debug)]
pub enum SizeError {
    Empty,
    Invalid { value: String, cause: String },
    TooLarge { value: String },
}

impl SizeError {
    /// What went wrong, in one line.
    pub open spec fn message_text(&self) -> Seq<char> {
        match self {
            SizeError::Empty => "empty size"@,
            SizeError::Invalid { value, .. } => "invalid size value: "@ + value@,
            SizeError::TooLarge { value } => "size value is too large: "@ + value@,
        }
    }

    pub fn message(&self) -> (m: String)
        ensures
            m@ == self.message_text(),
    {
        match self {
            SizeError::Empty => "empty size".to_owned(),
            SizeError::Invalid { value, .. } => {
                let mut m = "invalid size value: ".to_owned();
                m.append(value.as_str());
                m
            },
            SizeError::TooLarge { value } => {
                let mut m = "size value is too large: ".to_owned();
                m.append(value.as_str());
                m
            },
        }
    }
}

/// Whether the character `i` places before the end of `s` is the letter
/// `upper` or its small form `lower`.
pub open spec fn letter_from_end(s: Seq<char>, i: int, upper: char, lower: char) -> bool {
    s.len() > i && (s[s.len() - 1 - i] == upper || s[s.len() - 1 - i] == lower)
}

/// How many characters the unit at the end of a size takes: two for `KB`, `MB`
/// and `GB`, one for `K`, `M` and `G`, and none without a unit. Letter case does
/// not count.
pub open spec fn unit_length(s: Seq<char>) -> int {
    if letter_from_end(s, 0, 'B', 'b') && (letter_from_end(s, 1, 'K', 'k') || letter_from_end(
        s,
        1,
        'M',
        'm',
    ) || letter_from_end(s, 1, 'G', 'g')) {
        2
    } else if letter_from_end(s, 0, 'K', 'k') || letter_from_end(s, 0, 'M', 'm')
        || letter_from_end(s, 0, 'G', 'g') {
        1
    } else {
        0
    }
}

/// The number of bytes in the unit at the end of a size.
pub open spec fn unit_bytes(s: Seq<char>) -> nat {
    let i = unit_length(s) - 1;
    if i < 0 {
        1
    } else if letter_from_end(s, i, 'K', 'k') {
        1024
    } else if letter_from_end(s, i, 'M', 'm') {
        1024 * 1024
    } else {
        1024 * 1024 * 1024
    }
}

/// What stands before the unit of a size that has no whitespace around it.
pub open spec fn before_unit(s: Seq<char>) -> Seq<char> {
    trimmed(s.subrange(0, s.len() - unit_length(s)))
}

/// The number before the unit of a size that has no whitespace around it.
pub open spec fn size_number(s: Seq<char>) -> Option<nat> {
    match written_number(before_unit(s)) {
        Some(n) if n <= u64::MAX => Some(n),
        _ => None,
    }
}

/// The bytes that a text stands for, however many, or `None` where the text is
/// not a size.
pub open spec fn size_bytes(s: Seq<char>) -> Option<nat> {
    let t = trimmed(s);
    if t.len() == 0 {
        None
    } else {
        match size_number(t) {
            Some(n) => Some(n * unit_bytes(t)),
            None => None,
        }
    }
}

/// Whether the character `i` places before the end of `s` is one of two.
fn has_letter_from_end(s: &str, len: usize, i: usize, upper: char, lower: char) -> (r: bool)
    requires
        len == s@.len(),
    ensures
        r == letter_from_end(s@, i as int, upper, lower),
{
    if i < len {
        let c = s.get_char(len - 1 - i);
        c == upper || c == lower
    } else {
        false
    }
}

/// The length of the unit at the end of `s` and the bytes it stands for.
fn split_unit(s: &str) -> (r: (usize, u64))
    ensures
        r.0 == unit_length(s@),
        r.1 == unit_bytes(s@),
{
    let len = s.unicode_len();
    let place: usize = if has_letter_from_end(s, len, 0, 'B', 'b') {
        1
    } else {
        0
    };
    if has_letter_from_end(s, len, place, 'K', 'k') {
        (place + 1, 1024)
    } else if has_letter_from_end(s, len, place, 'M', 'm') {
        (place + 1, 1024 * 1024)
    } else if has_letter_from_end(s, len, place, 'G', 'g') {
        (place + 1, 1024 * 1024 * 1024)
    } else {
        (0, 1)
    }
}

/// The error with which a text is refused as a size.
pub open spec fn refused(s: Seq<char>, e: SizeError) -> bool {
    match e {
        SizeError::Empty => trimmed(s).len() == 0,
        SizeError::Invalid { value, cause } => {
            &&& trimmed(s).len() > 0
            &&& size_bytes(s) is None
            &&& value@ == trimmed(s)
            &&& cause@ == number_error(before_unit(trimmed(s)))
        },
        SizeError::TooLarge { value } => {
            &&& size_bytes(s) matches Some(n)
            &&& n > u64::MAX
            &&& value@ == trimmed(s)
        },
    }
}

/// Turns a size such as `10M`, `500K`, `2G`, `10MB` or `1024` into bytes.
pub fn parse_size(s: &str) -> (r: Result<u64, SizeError>)
    ensures
        match r {
            Ok(n) => size_bytes(s@) == Some(n as nat),
            Err(e) => refused(s@, e),
        },
        r is Ok <==> size_bytes(s@) is Some && size_bytes(s@)->0 <= 0xffff_ffff_ffff_ffff,
        r matches Err(e) ==> (e is Empty <==> trimmed(s@).len() == 0),
        r matches Err(e) ==> (e is TooLarge <==> size_bytes(s@) is Some),
{
    let t = s.trim();
    if t.is_empty() {
        return Err(SizeError::Empty);
    }
    let (unit_len, unit) = split_unit(t);
    let digits = t.substring_char(0, t.unicode_len() - unit_len).trim();
    match parse_u64(digits) {
        Err(cause) => Err(SizeError::Invalid { value: t.to_owned(), cause }),
        Ok(n) => match n.checked_mul(unit) {
            Some(bytes) => Ok(bytes),
            None => Err(SizeError::TooLarge { value: t.to_owned() }),
        },
    }
}

/// The bytes in a unit as it is written: `K`, `KB`, `M`, `MB`, `G` or `GB`, in
/// any letter case.
pub open spec fn named_unit(unit: Seq<char>) -> Option<nat> {
    if unit.len() == 2 && unit[1] != 'B' && unit[1] != 'b' || unit.len() == 0 || unit.len() > 2 {
        None
    } else if unit[0] == 'K' || unit[0] == 'k' {
        Some(1024)
    } else if unit[0] == 'M' || unit[0] == 'm' {
        Some(1024 * 1024)
    } else if unit[0] == 'G' || unit[0] == 'g' {
        Some(1024 * 1024 * 1024)
    } else {
        None
    }
}

proof fn lemma_trim_start_before(s: Seq<char>, rest: Seq<char>)
    requires
        rest.len() > 0,
        !is_whitespace(rest[0]),
    ensures
        trim_start(s + rest) == trim_start(s) + rest,
    decreases s.len(),
{
    if s.len() > 0 {
        assert((s + rest)[0] == s[0]);
        if is_whitespace(s[0]) {
            assert((s + rest).drop_first() =~= s.drop_first() + rest);
            lemma_trim_start_before(s.drop_first(), rest);
        }
    } else {
        assert(s + rest =~= rest);
    }
}

proof fn lemma_trim_start_twice(s: Seq<char>)
    ensures
        trim_start(trim_start(s)) == trim_start(s),
    decreases s.len(),
{
    if s.len() > 0 && is_whitespace(s[0]) {
        lemma_trim_start_twice(s.drop_first());
    }
}

proof fn lemma_trim_digits(s: Seq<char>)
    requires
        all_digits(s),
    ensures
        trimmed(s) == s,
{
    if s.len() > 0 {
        assert(is_digit(s[0]));
        assert(is_digit(s[s.len() - 1]));
    }
}

/// A text that ends in a unit, in whichever spelling and letter case, stands for
/// the number before the unit times the bytes in the unit; whitespace around the
/// number does not count.
pub proof fn law_number_times_unit(number: Seq<char>, unit: Seq<char>)
    requires
        named_unit(unit) is Some,
    ensures
        size_bytes(number + unit) == match written_number(trimmed(number)) {
            Some(n) if n <= u64::MAX => Some(n * named_unit(unit)->0),
            _ => None,
        },
{
    let start = trim_start(number);
    let t = start + unit;
    lemma_trim_start_before(number, unit);
    lemma_trim_start_twice(number);
    assert(t.last() == unit.last());
    assert(trimmed(number + unit) == t);
    assert(t[t.len() - unit.len()] == unit[0]);
    assert(unit_length(t) == unit.len());
    assert(t.subrange(0, t.len() - unit_length(t)) =~= start);
}

/// A run of digits stands for as many bytes as it says.
pub proof fn law_plain_number(digits: Seq<char>)
    requires
        digits.len() > 0,
        all_digits(digits),
        decimal_value(digits) <= u64::MAX,
    ensures
        size_bytes(digits) == Some(decimal_value(digits)),
{
    lemma_trim_digits(digits);
    assert(is_digit(digits[0]));
    assert(is_digit(digits[digits.len() - 1]));
    assert(digits.subrange(0, digits.len() - unit_length(digits)) =~= digits);
    assert(unit_bytes(digits) == 1);
}

} // verus!
