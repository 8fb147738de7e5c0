use vstd::prelude::*;

use crate::lemmas::lemma_line_ending_counts;
use crate::text::{
    join_all, join_str, lemma_split_all_len, occurrences, replace_all, replace_str, split_all,
    split_str, texts,
};

verus! {

/// The line-ending conventions: a lone line feed, a carriage return followed by
/// a line feed, and a lone carriage return.
#[derive(Debug, Clone, Copy, PartialEq, Eq, Hash, Structural)]
pub enum LineEnding {
    /// Line feed, `\n` (Unix, Linux, macOS).
    LF,
    /// Carriage return and line feed, `\r\n` (Windows).
    CRLF,
    /// Carriage return, `\r` (classic Mac OS).
    CR,
}

/// The error of an operation that a line ending cannot support.
#[derive(Debug, Clone, Copy, PartialEq, Eq)]
pub enum LineEndingError {
    /// The operation is not defined for this line ending; the text says why.
    InvalidOperation(&'static str),
}

/// How often each kind of line ending occurs in a text.
#[derive(Debug, Clone, Copy, PartialEq, Eq, Structural)]
pub struct LineEndingScores {
    /// Occurrences of `\r\n`.
    pub crlf: usize,
    /// Occurrences of `\r` that are not followed by `\n`.
    pub cr: usize,
    /// Occurrences of `\n` that do not follow `\r`.
    pub lf: usize,
}

impl LineEnding {
    /// The characters of this line ending.
    pub open spec fn text(self) -> Seq<char> {
        match self {
            LineEnding::LF => seq!['\n'],
            LineEnding::CRLF => seq!['\r', '\n'],
            LineEnding::CR => seq!['\r'],
        }
    }
}

/// The number of `\r\n` sequences in `s`.
pub open spec fn crlf_count(s: Seq<char>) -> int {
    occurrences(s, LineEnding::CRLF.text()) as int
}

/// The number of `\r` in `s` that do not begin a `\r\n`.
pub open spec fn cr_count(s: Seq<char>) -> int {
    occurrences(s, LineEnding::CR.text()) - occurrences(s, LineEnding::CRLF.text())
}

/// The number of `\n` in `s` that do not end a `\r\n`.
pub open spec fn lf_count(s: Seq<char>) -> int {
    occurrences(s, LineEnding::LF.text()) - occurrences(s, LineEnding::CRLF.text())
}

/// The kind with the highest count; `CRLF` wins every tie and is also the
/// answer when no line ending occurs at all, and `CR` beats `LF` on a tie.
pub open spec fn dominant(crlf: int, cr: int, lf: int) -> LineEnding {
    let top = if crlf >= cr && crlf >= lf {
        crlf
    } else if cr >= lf {
        cr
    } else {
        lf
    };
    if top == 0 || crlf == top {
        LineEnding::CRLF
    } else if cr == top {
        LineEnding::CR
    } else {
        LineEnding::LF
    }
}

/// The dominant line ending of `s`.
pub open spec fn detected(s: Seq<char>) -> LineEnding {
    dominant(crlf_count(s), cr_count(s), lf_count(s))
}

/// `s` with `\r\n` replaced by `\n`, and then each remaining `\r` by `\n`.
pub open spec fn normalized(s: Seq<char>) -> Seq<char> {
    replace_all(
        replace_all(s, LineEnding::CRLF.text(), LineEnding::LF.text()),
        LineEnding::CR.text(),
        LineEnding::LF.text(),
    )
}

/// `s` with every `\n` replaced by the characters of `kind`.
pub open spec fn denormalized(kind: LineEnding, s: Seq<char>) -> Seq<char> {
    replace_all(s, LineEnding::LF.text(), kind.text())
}

/// `s` with each of its line endings, whatever its kind, written as `kind`.
pub open spec fn applied(kind: LineEnding, s: Seq<char>) -> Seq<char> {
    denormalized(kind, normalized(s))
}

/// `s` begins with a backslash followed by the letter `r` or `n`: the text of
/// an escape sequence, not a line ending.
pub open spec fn begins_with_escape(s: Seq<char>) -> bool {
    s.len() >= 2 && s[0] == '\\' && (s[1] == 'r' || s[1] == 'n')
}

/// The line ending that begins `s`, if one does. A backslash followed by the
/// letter `r` or `n` is text, not a line ending; `\r\n` is one line ending.
pub open spec fn line_ending_at(s: Seq<char>) -> Option<LineEnding> {
    if begins_with_escape(s) {
        None
    } else if s.len() >= 1 && s[0] == '\r' {
        if s.len() >= 2 && s[1] == '\n' {
            Some(LineEnding::CRLF)
        } else {
            Some(LineEnding::CR)
        }
    } else if s.len() >= 1 && s[0] == '\n' {
        Some(LineEnding::LF)
    } else {
        None
    }
}

/// The number of characters that a line ending found by `line_ending_at` takes.
pub open spec fn consumed_len(found: Option<LineEnding>) -> nat {
    match found {
        Some(kind) => kind.text().len(),
        None => 0,
    }
}

/// The number of line endings met when `s` is read from the left, each
/// `\r\n` counting once.
pub open spec fn count_line_endings(s: Seq<char>) -> nat
    decreases s.len(),
{
    if s.len() == 0 {
        0
    } else {
        match line_ending_at(s) {
            Some(kind) => 1 + count_line_endings(s.skip(kind.text().len() as int)),
            None => count_line_endings(s.skip(1)),
        }
    }
}

/// Every line ending met when `s` is read from the left is of kind `kind`.
pub open spec fn only_line_endings_of(s: Seq<char>, kind: LineEnding) -> bool
    decreases s.len(),
{
    if s.len() == 0 {
        true
    } else {
        match line_ending_at(s) {
            Some(found) => found == kind && only_line_endings_of(
                s.skip(found.text().len() as int),
                kind,
            ),
            None => only_line_endings_of(s.skip(1), kind),
        }
    }
}

impl LineEndingScores {
    /// The count for `kind`.
    pub open spec fn count_of(self, kind: LineEnding) -> usize {
        match kind {
            LineEnding::CRLF => self.crlf,
            LineEnding::CR => self.cr,
            LineEnding::LF => self.lf,
        }
    }

    /// The count for `kind`.
    pub fn get(&self, kind: LineEnding) -> (r: usize)
        ensures
            r == self.count_of(kind),
    {
        match kind {
            LineEnding::CRLF => self.crlf,
            LineEnding::CR => self.cr,
            LineEnding::LF => self.lf,
        }
    }
}

impl LineEnding {
    /// The default line ending of a platform: `CRLF` for a Windows target,
    /// `LF` for every other.
    pub fn from_current_platform(target_is_windows: bool) -> (r: LineEnding)
        ensures
            r == (if target_is_windows {
                LineEnding::CRLF
            } else {
                LineEnding::LF
            }),
    {
        if target_is_windows {
            LineEnding::CRLF
        } else {
            LineEnding::LF
        }
    }

    /// Counts the line endings of each kind in `s`; a `\r\n` counts as `CRLF`
    /// only, not also as a `CR` and an `LF`.
    pub fn score_mixed_types(s: &str) -> (r: LineEndingScores)
        ensures
            r.crlf == crlf_count(s@),
            r.cr == cr_count(s@),
            r.lf == lf_count(s@),
    {
        proof {
            lemma_split_all_len(s@, LineEnding::CRLF.text());
            lemma_split_all_len(s@, LineEnding::CR.text());
            lemma_split_all_len(s@, LineEnding::LF.text());
            lemma_line_ending_counts(s@);
        }
        let crlf_pieces = LineEnding::CRLF.split_with(s);
        let cr_pieces = LineEnding::CR.split_with(s);
        let lf_pieces = LineEnding::LF.split_with(s);
        assert(texts(crlf_pieces@).len() == crlf_pieces@.len());
        assert(texts(cr_pieces@).len() == cr_pieces@.len());
        assert(texts(lf_pieces@).len() == lf_pieces@.len());
        let crlf_score = crlf_pieces.len() - 1;
        let cr_score = cr_pieces.len() - 1 - crlf_score;
        let lf_score = lf_pieces.len() - 1 - crlf_score;
        LineEndingScores { crlf: crlf_score, cr: cr_score, lf: lf_score }
    }

    /// The characters of this line ending: `"\n"`, `"\r\n"` or `"\r"`.
    pub fn as_str(&self) -> (r: &'static str)
        ensures
            r@ == self.text(),
    {
        match self {
            LineEnding::LF => {
                proof {
                    reveal_strlit("\n");
                }
                assert("\n"@ =~= seq!['\n']);
                "\n"
            },
            LineEnding::CRLF => {
                proof {
                    reveal_strlit("\r\n");
                }
                assert("\r\n"@ =~= seq!['\r', '\n']);
                "\r\n"
            },
            LineEnding::CR => {
                proof {
                    reveal_strlit("\r");
                }
                assert("\r"@ =~= seq!['\r']);
                "\r"
            },
        }
    }

    /// The single character of this line ending; `CRLF` has two characters and
    /// gives `InvalidOperation`.
    pub fn as_char(&self) -> (r: Result<char, LineEndingError>)
        ensures
            *self == LineEnding::LF ==> r == Ok::<char, LineEndingError>('\n'),
            *self == LineEnding::CR ==> r == Ok::<char, LineEndingError>('\r'),
            *self == LineEnding::CRLF ==> r matches Err(LineEndingError::InvalidOperation(_)),
    {
        match self {
            LineEnding::LF => Ok('\n'),
            LineEnding::CR => Ok('\r'),
            LineEnding::CRLF => Err(
                LineEndingError::InvalidOperation(
                    "CRLF cannot be represented as a single character",
                ),
            ),
        }
    }

    /// `s` with every line ending written as `\n`.
    pub fn normalize(s: &str) -> (r: String)
        ensures
            r@ == normalized(s@),
    {
        let without_crlf = replace_str(s, LineEnding::CRLF.as_str(), LineEnding::LF.as_str());
        replace_str(without_crlf.as_str(), LineEnding::CR.as_str(), LineEnding::LF.as_str())
    }

    /// `s` with every `\n` written as this line ending.
    pub fn denormalize(&self, s: &str) -> (r: String)
        ensures
            r@ == denormalized(*self, s@),
    {
        replace_str(s, LineEnding::LF.as_str(), self.as_str())
    }

    /// The lines of `s`, split at its dominant line ending.
    pub fn split(s: &str) -> (r: Vec<String>)
        ensures
            texts(r@) == split_all(s@, detected(s@).text()),
    {
        let kind = LineEnding::from(s);
        kind.split_with(s)
    }

    /// The lines of `s`, split at this line ending only.
    pub fn split_with(&self, s: &str) -> (r: Vec<String>)
        ensures
            texts(r@) == split_all(s@, self.text()),
    {
        split_str(s, self.as_str())
    }

    /// The lines of `s`, split at this line ending only.
    pub fn split_as(&self, s: &str) -> (r: Vec<String>)
        ensures
            texts(r@) == split_all(s@, self.text()),
    {
        self.split_with(s)
    }

    /// The lines joined with this line ending between each two of them.
    pub fn join(&self, lines: Vec<String>) -> (r: String)
        ensures
            r@ == join_all(texts(lines@), self.text()),
    {
        join_str(&lines, self.as_str())
    }

    /// `s` with each of its line endings, whatever its kind, written as this one.
    pub fn apply(&self, s: &str) -> (r: String)
        ensures
            r@ == applied(*self, s@),
    {
        let normalized = LineEnding::normalize(s);
        replace_str(normalized.as_str(), LineEnding::LF.as_str(), self.as_str())
    }
}

impl<'a> From<&'a str> for LineEnding {
    /// The dominant line ending of `s`, by the counts of `score_mixed_types`.
    fn from(s: &'a str) -> (r: LineEnding)
        ensures
            r == detected(s@),
    {
        let scores = LineEnding::score_mixed_types(s);
        let crlf_score = scores.get(LineEnding::CRLF);
        let cr_score = scores.get(LineEnding::CR);
        let lf_score = scores.get(LineEnding::LF);
        let max_score = if crlf_score >= cr_score && crlf_score >= lf_score {
            crlf_score
        } else if cr_score >= lf_score {
            cr_score
        } else {
            lf_score
        };
        if max_score == 0 || crlf_score == max_score {
            LineEnding::CRLF
        } else if cr_score == max_score {
            LineEnding::CR
        } else {
            LineEnding::LF
        }
    }
}

impl<'a> vstd::std_specs::convert::FromSpecImpl<&'a str> for LineEnding {
    open spec fn obeys_from_spec() -> bool {
        true
    }

    open spec fn from_spec(s: &'a str) -> LineEnding {
        detected(s@)
    }
}

} // verus!
