use vstd::prelude::*;

use crate::line_ending::{
    applied, count_line_endings, cr_count, crlf_count, lf_count, line_ending_at, normalized,
    only_line_endings_of, LineEnding,
};
use crate::text::{occurrences, replace_all, split_all, starts_with};

verus! {

proof fn lemma_starts_with_one(s: Seq<char>, d: char)
    requires
        s.len() > 0,
    ensures
        starts_with(s, seq![d]) <==> s[0] == d,
{
    if s[0] == d {
        assert(s.subrange(0, 1) =~= seq![d]);
    } else {
        assert(s.subrange(0, 1)[0] != seq![d][0]);
    }
}

proof fn lemma_starts_with_two(s: Seq<char>, a: char, b: char)
    ensures
        starts_with(s, seq![a, b]) <==> (s.len() >= 2 && s[0] == a && s[1] == b),
{
    if s.len() >= 2 {
        if s[0] == a && s[1] == b {
            assert(s.subrange(0, 2) =~= seq![a, b]);
        } else if s[0] != a {
            assert(s.subrange(0, 2)[0] != seq![a, b][0]);
        } else {
            assert(s.subrange(0, 2)[1] != seq![a, b][1]);
        }
    }
}

/// Each `\r\n` holds one `\r` and one `\n`, and the three counts of a text add
/// up to the number of its line endings.
pub proof fn lemma_line_ending_counts(s: Seq<char>)
    ensures
        occurrences(s, LineEnding::CRLF.text()) <= occurrences(s, LineEnding::CR.text()),
        occurrences(s, LineEnding::CRLF.text()) <= occurrences(s, LineEnding::LF.text()),
        crlf_count(s) + cr_count(s) + lf_count(s) == count_line_endings(s),
    decreases s.len(),
{
    let crlf = LineEnding::CRLF.text();
    let cr = LineEnding::CR.text();
    let lf = LineEnding::LF.text();
    if s.len() > 0 {
        lemma_starts_with_one(s, '\r');
        lemma_starts_with_one(s, '\n');
        lemma_starts_with_two(s, '\r', '\n');
        let rest = s.skip(1);
        if s.len() >= 2 && s[0] == '\r' && s[1] == '\n' {
            lemma_starts_with_one(rest, '\r');
            lemma_starts_with_one(rest, '\n');
            assert(rest.skip(1) =~= s.skip(2));
            lemma_line_ending_counts(s.skip(2));
            assert(occurrences(s, crlf) == 1 + occurrences(s.skip(2), crlf));
            assert(occurrences(rest, cr) == occurrences(s.skip(2), cr));
            assert(occurrences(s, cr) == 1 + occurrences(s.skip(2), cr));
            assert(occurrences(rest, lf) == 1 + occurrences(s.skip(2), lf));
            assert(occurrences(s, lf) == 1 + occurrences(s.skip(2), lf));
            assert(line_ending_at(s) == Some(LineEnding::CRLF));
            assert(count_line_endings(s) == 1 + count_line_endings(s.skip(2)));
        } else {
            lemma_line_ending_counts(rest);
            assert(occurrences(s, crlf) == occurrences(rest, crlf));
            if s[0] == '\r' {
                assert(occurrences(s, cr) == 1 + occurrences(rest, cr));
                assert(occurrences(s, lf) == occurrences(rest, lf));
                assert(line_ending_at(s) == Some(LineEnding::CR));
                assert(count_line_endings(s) == 1 + count_line_endings(rest));
            } else if s[0] == '\n' {
                assert(occurrences(s, cr) == occurrences(rest, cr));
                assert(occurrences(s, lf) == 1 + occurrences(rest, lf));
                assert(line_ending_at(s) == Some(LineEnding::LF));
                assert(count_line_endings(s) == 1 + count_line_endings(rest));
            } else {
                assert(occurrences(s, cr) == occurrences(rest, cr));
                assert(occurrences(s, lf) == occurrences(rest, lf));
                assert(line_ending_at(s) is None);
                assert(count_line_endings(s) == count_line_endings(rest));
            }
        }
    }
}


/// `s` read from the left, with each line ending that `line_ending_at` finds
/// written as `\n`.
spec fn normalized_by_scan(s: Seq<char>) -> Seq<char>
    decreases s.len(),
{
    if s.len() == 0 {
        s
    } else {
        match line_ending_at(s) {
            Some(kind) => seq!['\n'] + normalized_by_scan(s.skip(kind.text().len() as int)),
            None => seq![s[0]] + normalized_by_scan(s.skip(1)),
        }
    }
}

proof fn lemma_replace_one_cons(c: char, y: Seq<char>, d: char, rep: Seq<char>)
    ensures
        replace_all(seq![c] + y, seq![d], rep) == (if c == d {
            rep
        } else {
            seq![c]
        }) + replace_all(y, seq![d], rep),
{
    let t = seq![c] + y;
    lemma_starts_with_one(t, d);
    assert(t[0] == c);
    assert(t.skip(1) =~= y);
}

proof fn lemma_normalized_by_scan(s: Seq<char>)
    ensures
        normalized(s) == normalized_by_scan(s),
    decreases s.len(),
{
    let crlf = LineEnding::CRLF.text();
    let lf = LineEnding::LF.text();
    if s.len() > 0 {
        lemma_starts_with_two(s, '\r', '\n');
        if s.len() >= 2 && s[0] == '\r' && s[1] == '\n' {
            let y = replace_all(s.skip(2), crlf, lf);
            assert(replace_all(s, crlf, lf) == lf + y);
            lemma_replace_one_cons('\n', y, '\r', lf);
            lemma_normalized_by_scan(s.skip(2));
            assert(line_ending_at(s) == Some(LineEnding::CRLF));
        } else {
            let y = replace_all(s.skip(1), crlf, lf);
            assert(replace_all(s, crlf, lf) == seq![s[0]] + y);
            lemma_replace_one_cons(s[0], y, '\r', lf);
            lemma_normalized_by_scan(s.skip(1));
            if s[0] == '\r' {
                assert(line_ending_at(s) == Some(LineEnding::CR));
            } else if s[0] == '\n' {
                assert(line_ending_at(s) == Some(LineEnding::LF));
            } else {
                assert(line_ending_at(s) is None);
            }
        }
    }
}

/// A character other than `\r` or `\n` in front of `u` begins no line ending.
proof fn lemma_plain_head(c: char, u: Seq<char>)
    requires
        c != '\r',
        c != '\n',
    ensures
        line_ending_at(seq![c] + u) is None,
        (seq![c] + u).skip(1) == u,
        normalized_by_scan(seq![c] + u) == seq![c] + normalized_by_scan(u),
        only_line_endings_of(seq![c] + u, LineEnding::LF) == only_line_endings_of(u, LineEnding::LF),
        only_line_endings_of(seq![c] + u, LineEnding::CR) == only_line_endings_of(u, LineEnding::CR),
        only_line_endings_of(seq![c] + u, LineEnding::CRLF) == only_line_endings_of(
            u,
            LineEnding::CRLF,
        ),
{
    assert((seq![c] + u).skip(1) =~= u);
}

/// The characters of `kind` in front of `u` are read back as one line ending of
/// that kind, provided that a lone `\r` is not followed by `\n`.
proof fn lemma_kind_head(kind: LineEnding, u: Seq<char>)
    requires
        kind == LineEnding::CR ==> (u.len() == 0 || u[0] != '\n'),
    ensures
        line_ending_at(kind.text() + u) == Some(kind),
        (kind.text() + u).skip(kind.text().len() as int) == u,
        normalized_by_scan(kind.text() + u) == seq!['\n'] + normalized_by_scan(u),
        only_line_endings_of(kind.text() + u, kind) == only_line_endings_of(u, kind),
{
    let t = kind.text() + u;
    assert(t.skip(kind.text().len() as int) =~= u);
    match kind {
        LineEnding::LF => assert(t[0] == '\n'),
        LineEnding::CR => {
            assert(t[0] == '\r');
            assert(t.len() >= 2 ==> t[1] == u[0]);
        },
        LineEnding::CRLF => {
            assert(t[0] == '\r');
            assert(t[1] == '\n');
        },
    }
}

proof fn lemma_scan_idempotent(s: Seq<char>)
    ensures
        normalized_by_scan(normalized_by_scan(s)) == normalized_by_scan(s),
    decreases s.len(),
{
    if s.len() > 0 {
        match line_ending_at(s) {
            Some(kind) => {
                let rest = s.skip(kind.text().len() as int);
                lemma_scan_idempotent(rest);
                lemma_kind_head(LineEnding::LF, normalized_by_scan(rest));
            },
            None => {
                let rest = s.skip(1);
                lemma_scan_idempotent(rest);
                lemma_plain_head(s[0], normalized_by_scan(rest));
            },
        }
    }
}

proof fn lemma_scan_denormalize(kind: LineEnding, s: Seq<char>)
    ensures
        normalized_by_scan(
            replace_all(normalized_by_scan(s), LineEnding::LF.text(), kind.text()),
        ) == normalized_by_scan(s),
        only_line_endings_of(
            replace_all(normalized_by_scan(s), LineEnding::LF.text(), kind.text()),
            kind,
        ),
        kind == LineEnding::CR ==> ({
            let a = replace_all(normalized_by_scan(s), LineEnding::LF.text(), kind.text());
            a.len() == 0 || a[0] != '\n'
        }),
    decreases s.len(),
{
    let lf = LineEnding::LF.text();
    if s.len() > 0 {
        match line_ending_at(s) {
            Some(found) => {
                let rest = s.skip(found.text().len() as int);
                lemma_scan_denormalize(kind, rest);
                let u = replace_all(normalized_by_scan(rest), lf, kind.text());
                lemma_replace_one_cons('\n', normalized_by_scan(rest), '\n', kind.text());
                lemma_kind_head(kind, u);
                assert(kind.text()[0] != '\n' || kind != LineEnding::CR);
            },
            None => {
                let rest = s.skip(1);
                lemma_scan_denormalize(kind, rest);
                let u = replace_all(normalized_by_scan(rest), lf, kind.text());
                lemma_replace_one_cons(s[0], normalized_by_scan(rest), '\n', kind.text());
                lemma_plain_head(s[0], u);
            },
        }
    } else {
        assert(normalized_by_scan(s) == s);
    }
}

/// Normalizing a text twice gives the same text as normalizing it once.
pub proof fn lemma_normalize_idempotent(s: Seq<char>)
    ensures
        normalized(normalized(s)) == normalized(s),
{
    lemma_normalized_by_scan(s);
    lemma_normalized_by_scan(normalized(s));
    lemma_scan_idempotent(s);
}

/// After a text is converted to `kind`, every line ending in it is of that
/// kind, and normalizing it gives what normalizing the original gives, so the
/// two have the same lines.
pub proof fn lemma_apply_round_trip(kind: LineEnding, s: Seq<char>)
    ensures
        only_line_endings_of(applied(kind, s), kind),
        normalized(applied(kind, s)) == normalized(s),
        split_all(normalized(applied(kind, s)), LineEnding::LF.text()).len() == split_all(
            normalized(s),
            LineEnding::LF.text(),
        ).len(),
{
    lemma_normalized_by_scan(s);
    lemma_normalized_by_scan(applied(kind, s));
    lemma_scan_denormalize(kind, s);
}

} // verus!
