//! Compiled search patterns.
use regex::Regex;
use vstd::prelude::*;
use vstd::utf8::*;

verus! {

/// The compiled expression of the `regex` crate.
#[verifier::external_type_specification]
#[verifier::external_body]
pub struct ExRegex(regex::Regex);

/// What a compiled expression was built from: the pattern, and whether letter
/// case is ignored.
pub uninterp spec fn regex_source(re: Regex) -> (Seq<char>, bool);

/// The message with which the `regex` crate rejects a pattern that is not in
/// its syntax, or `None` where the pattern is in it.
pub uninterp spec fn regex_syntax_error(pattern: Seq<char>, ignore_case: bool) -> Option<Seq<char>>;

/// The successive non-overlapping matches of a pattern in a text, each as the
/// byte offsets of its start and its end.
pub uninterp spec fn regex_matches(pattern: Seq<char>, ignore_case: bool, text: Seq<char>) -> Seq<
    (usize, usize),
>;

/// Why a pattern could not be compiled.
#[derive(Debug)]
pub struct PatternError {
    /// Whether the pattern is not a regular expression at all; otherwise its
    /// compiled form is over the size limit.
    pub syntax: bool,
    pub message: String,
}

/// The error with which a pattern is refused.
pub open spec fn refused(pattern: Seq<char>, ignore_case: bool, e: PatternError) -> bool {
    &&& e.syntax == (regex_syntax_error(pattern, ignore_case) is Some)
    &&& e.message@ == match regex_syntax_error(pattern, ignore_case) {
        Some(message) => message,
        None => "Compiled regex exceeds size limit of 10485760 bytes."@,
    }
}

/// Byte ranges of which none starts before its predecessor ends.
pub open spec fn spans_ordered(spans: Seq<(usize, usize)>) -> bool {
    &&& forall|i: int| 0 <= i < spans.len() ==> (#[trigger] spans[i]).0 <= spans[i].1
    &&& forall|i: int, j: int|
        0 <= i < j < spans.len() ==> (#[trigger] spans[i]).1 <= (#[trigger] spans[j]).0
}

/// Byte ranges that lie within a text and start and end between characters.
pub open spec fn spans_on_chars(spans: Seq<(usize, usize)>, text: Seq<u8>) -> bool {
    forall|i: int|
        0 <= i < spans.len() ==> (#[trigger] spans[i]).0 <= text.len() && spans[i].1 <= text.len()
            && is_char_boundary(text, spans[i].0 as int)
            && is_char_boundary(text, spans[i].1 as int)
}

/// Calls `regex::RegexBuilder::build` for one pattern, with every setting but
/// `case_insensitive` at its default. Claimed of it: a compiled expression
/// remembers what it was built from; a pattern outside the syntax is always
/// rejected, with a message that depends on the pattern and the flag alone; a
/// pattern in the syntax is rejected only for the size of its compiled form,
/// which is limited to 10 MiB. Whether a pattern meets that limit is left
/// unsaid: the size is counted in bytes of the machine's own data layout.
#[verifier::external_body]
fn build_regex(pattern: &str, ignore_case: bool) -> (built: Result<Regex, PatternError>)
    ensures
        built matches Ok(re) ==> regex_source(re) == (pattern@, ignore_case)
            && regex_syntax_error(pattern@, ignore_case) is None,
        built matches Err(e) ==> refused(pattern@, ignore_case, e),
{
    match regex::RegexBuilder::new(pattern).case_insensitive(ignore_case).build() {
        Ok(re) => Ok(re),
        Err(e) => Err(
            PatternError {
                message: e.to_string(),
                syntax: matches!(e, regex::Error::Syntax(_)),
            },
        ),
    }
}

/// Calls `regex::Regex::is_match`, which says whether the text holds a match.
#[verifier::external_body]
fn regex_is_match(re: &Regex, text: &str) -> (found: bool)
    ensures
        found == (regex_matches(regex_source(*re).0, regex_source(*re).1, text@).len() > 0),
{
    re.is_match(text)
}

/// Calls `regex::Regex::find_iter` and takes the two offsets of each match. The
/// matches lie within the text, in order, without overlap, and start and end
/// between characters.
#[verifier::external_body]
fn regex_find_iter(re: &Regex, text: &str) -> (spans: Vec<(usize, usize)>)
    ensures
        spans@ == regex_matches(regex_source(*re).0, regex_source(*re).1, text@),
        spans_ordered(spans@),
        spans_on_chars(spans@, encode_utf8(text@)),
{
    re.find_iter(text).map(|m| (m.start(), m.end())).collect()
}

/// A compiled search pattern.
pub struct Matcher {
    re: Regex,
}

impl Matcher {
    /// The regular expression as it was written.
    pub closed spec fn pattern(&self) -> Seq<char> {
        regex_source(self.re).0
    }

    /// Whether letter case is ignored.
    pub closed spec fn ignore_case(&self) -> bool {
        regex_source(self.re).1
    }

    /// The matches in a text.
    pub open spec fn spans(&self, text: Seq<char>) -> Seq<(usize, usize)> {
        regex_matches(self.pattern(), self.ignore_case(), text)
    }

    /// Whether a text holds a match.
    pub open spec fn finds(&self, text: Seq<char>) -> bool {
        self.spans(text).len() > 0
    }

    /// The matches in a text are those that the regular expression has in it, and
    /// a text matches where there is one.
    pub proof fn law_matches_are_those_of_the_expression(&self, text: Seq<char>)
        ensures
            self.spans(text) == regex_matches(self.pattern(), self.ignore_case(), text),
            self.finds(text) <==> regex_matches(self.pattern(), self.ignore_case(), text).len() > 0,
    {
    }

    /// Compiles a pattern.
    pub fn new(pattern: &str, ignore_case: bool) -> (r: Result<Matcher, PatternError>)
        ensures
            r matches Ok(m) ==> m.pattern() == pattern@ && m.ignore_case() == ignore_case,
            r is Ok ==> regex_syntax_error(pattern@, ignore_case) is None,
            r matches Err(e) ==> refused(pattern@, ignore_case, e),
    {
        match build_regex(pattern, ignore_case) {
            Ok(re) => Ok(Matcher { re }),
            Err(e) => Err(e),
        }
    }

    /// Whether `text` holds a match.
    pub fn is_match(&self, text: &str) -> (found: bool)
        ensures
            found == self.finds(text@),
            found == (regex_matches(self.pattern(), self.ignore_case(), text@).len() > 0),
    {
        regex_is_match(&self.re, text)
    }

    /// The matches in `text`, from left to right, as byte offsets.
    pub fn find_all(&self, text: &str) -> (spans: Vec<(usize, usize)>)
        ensures
            spans@ == self.spans(text@),
            spans@ == regex_matches(self.pattern(), self.ignore_case(), text@),
            spans_ordered(spans@),
            spans_on_chars(spans@, encode_utf8(text@)),
    {
        regex_find_iter(&self.re, text)
    }
}

} // verus!
