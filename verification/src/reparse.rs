//! Regex-based line parsing.
//!
//! A [`Reparse`] holds a compiled pattern. Parsing a line with it gives a
//! [`Rematch`]: the texts of the pattern's capture groups in the line.

use regex::Regex;
use vstd::prelude::*;

verus! {

/// `regex::Regex`, a compiled pattern. Nothing is claimed of what it holds.
#[verifier::external_type_specification]
#[verifier::external_body]
pub struct ExRegex(regex::Regex);

/// `regex::Error`, the reason why a pattern was not compiled. Nothing is
/// claimed of what it holds.
#[verifier::external_type_specification]
#[verifier::external_body]
pub struct ExRegexError(regex::Error);

/// What the regex compiled from `pattern` captures at its leftmost match in
/// `line`: nothing where the line has no match, and otherwise the text of
/// each capture group, group 0 being the whole match, with `None` for a
/// group that took no part in the match.
pub uninterp spec fn pattern_captures(pattern: Seq<char>, line: Seq<char>) -> Option<
    Seq<Option<Seq<char>>>,
>;

/// The texts of the groups.
pub open spec fn texts(groups: Seq<Option<&str>>) -> Seq<Option<Seq<char>>> {
    groups.map_values(
        |g: Option<&str>|
            match g {
                Some(s) => Some(s@),
                None => None,
            },
    )
}

/// Whether `text` occurs in `line` as a contiguous part.
pub open spec fn is_part_of(text: Seq<char>, line: Seq<char>) -> bool {
    exists|from: int, to: int| 0 <= from <= to <= line.len() && text == line.subrange(from, to)
}

/// Why the regex engine did not accept a pattern.
#[derive(Debug, Clone, PartialEq, Eq)]
pub enum PatternError {
    /// The pattern is not well formed; the text says where and why.
    Syntax(String),
    /// The compiled pattern would exceed the engine's size limit, which is
    /// given in bytes.
    CompiledTooBig(usize),
    /// Another reason, of a kind that the engine did not have when this
    /// library was written.
    Unknown,
}

/// `Regex::new`: compiles the pattern, or reports why the engine does not
/// accept it. Nothing is claimed of which patterns it accepts.
#[verifier::external_body]
fn compile(pattern: &str) -> (out: Result<Regex, regex::Error>) {
    Regex::new(pattern)
}

/// Tells the variants of `regex::Error` apart and moves their fields over.
#[verifier::external_body]
fn reason(error: regex::Error) -> (out: PatternError) {
    match error {
        regex::Error::Syntax(text) => PatternError::Syntax(text),
        regex::Error::CompiledTooBig(limit) => PatternError::CompiledTooBig(limit),
        _ => PatternError::Unknown,
    }
}

/// `Regex::captures`, read out with `Captures::len`, `Captures::get` and
/// `Match::as_str`: the texts of the capture groups at the leftmost match of
/// the parser's regex in the line. The regex of a parser is the one that
/// `Regex::new` compiled from the parser's pattern, since `Reparse::new`
/// alone makes parsers; so the texts depend on the pattern and the line
/// alone. There is always a group 0, it always has a text, and every text
/// is a part of the line.
#[verifier::external_body]
fn captures<'a>(parser: &Reparse, line: &'a str) -> (out: Option<Vec<Option<&'a str>>>)
    ensures
        match pattern_captures(parser@, line@) {
            Some(found) => out matches Some(groups) && texts(groups@) == found,
            None => out is None,
        },
        out matches Some(groups) ==> ({
            &&& groups@.len() >= 1
            &&& groups@[0] is Some
            &&& forall|i: int|
                0 <= i < groups@.len() ==> (#[trigger] groups@[i] matches Some(s) ==> is_part_of(
                    s@,
                    line@,
                ))
        }),
{
    parser.regex.captures(line).map(
        |found| (0..found.len()).map(|i| found.get(i).map(|m| m.as_str())).collect(),
    )
}

/// A compiled pattern for parsing lines: the regex together with the
/// pattern that it was compiled from.
pub struct Reparse {
    regex: Regex,
    pattern: String,
}

/// The capture groups of a pattern in a line that it matched.
pub struct Rematch<'a> {
    groups: Vec<Option<&'a str>>,
}

impl View for Reparse {
    type V = Seq<char>;

    /// The pattern that the parser was compiled from.
    closed spec fn view(&self) -> Seq<char> {
        self.pattern@
    }
}

impl<'a> View for Rematch<'a> {
    type V = Seq<Option<Seq<char>>>;

    /// The text of each capture group, with `None` for a group that took no
    /// part in the match.
    closed spec fn view(&self) -> Seq<Option<Seq<char>>> {
        texts(self.groups@)
    }
}

impl Reparse {
    /// Compile the pattern. Whether the regex engine accepts a pattern is
    /// for the engine to say; where it does not, its reason is returned.
    pub fn new(pat: &str) -> (out: Result<Self, PatternError>)
        ensures
            out matches Ok(parser) ==> parser@ == pat@,
    {
        let compiled = match compile(pat) {
            Ok(regex) => Ok(regex),
            Err(error) => Err(reason(error)),
        };
        Reparse::from_compiled(pat, compiled)
    }

    /// The parser for a pattern, given what the regex engine made of the
    /// pattern: a parser that holds the regex where there is one, and the
    /// engine's reason where there is none. This stays private: a regex
    /// handed in must be the one compiled from `pat`, which nothing here
    /// could check.
    fn from_compiled(pat: &str, compiled: Result<Regex, PatternError>) -> (out: Result<
        Self,
        PatternError,
    >)
        ensures
            match compiled {
                Ok(_) => out matches Ok(parser) && parser@ == pat@,
                Err(error) => out == Err::<Self, PatternError>(error),
            },
    {
        match compiled {
            Ok(regex) => Ok(Reparse { regex, pattern: pat.to_owned() }),
            Err(error) => Err(error),
        }
    }

    /// Match the pattern against the line and return the capture groups of
    /// the leftmost match, or `None` if the line has no match.
    pub fn parse<'a>(&self, line: &'a str) -> (out: Option<Rematch<'a>>)
        ensures
            match pattern_captures(self@, line@) {
                Some(found) => out matches Some(m) && m@ == found,
                None => out is None,
            },
            out matches Some(m) ==> ({
                &&& m@.len() >= 1
                &&& m@[0] is Some
                &&& forall|i: int|
                    0 <= i < m@.len() ==> (#[trigger] m@[i] matches Some(t) ==> is_part_of(t, line@))
            }),
    {
        match captures(self, line) {
            Some(groups) => Some(Rematch { groups }),
            None => None,
        }
    }
}

impl<'a> Rematch<'a> {
    /// The text of the capture group at the given index, which must be the
    /// index of a group that took part in the match. The text is returned as
    /// it stands in the line, for the caller to parse.
    pub fn get(&self, index: usize) -> (out: &'a str)
        requires
            index < self@.len(),
            self@[index as int] is Some,
        ensures
            self@[index as int] == Some(out@),
    {
        match self.groups[index] {
            Some(s) => s,
            None => {
                proof {
                    assert(false);
                }
                vstd::pervasive::unreached()
            },
        }
    }

    /// The text of the capture group at the given index, or `None` if there
    /// is no such group or it took no part in the match.
    pub fn get_raw(&self, index: usize) -> (out: Option<String>)
        ensures
            match out {
                Some(text) => index < self@.len() && self@[index as int] == Some(text@),
                None => index >= self@.len() || self@[index as int] is None,
            },
    {
        if index < self.groups.len() {
            match self.groups[index] {
                Some(s) => Some(s.to_owned()),
                None => None,
            }
        } else {
            None
        }
    }
}

} // verus!
