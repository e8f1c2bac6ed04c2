//! Extraction of segment names from a playlist document.
//!
//! A playlist is scanned line by line; each line contributes its first
//! segment token, if it has one. A segment token is a maximal run of one or
//! more alphanumeric characters followed directly by the extension `.ts`,
//! and the token includes the extension. A playlist from which no token can
//! be extracted is invalid: a zero-length plan cannot make progress.

use vstd::prelude::*;
use vstd::string::StrSliceExecFns;
use crate::FatalError;

verus! {

/// Characters that may form the stem of a segment token.
pub open spec fn is_seg_char(c: char) -> bool {
    ('a' <= c && c <= 'z') || ('A' <= c && c <= 'Z') || ('0' <= c && c <= '9')
}

/// Index of the first `'\n'` at or after `i`, or the length of `s` if none.
pub open spec fn spec_line_end(s: Seq<char>, i: int) -> int
    decreases s.len() - i,
{
    if i >= s.len() {
        s.len() as int
    } else if s[i] == '\n' {
        i
    } else {
        spec_line_end(s, i + 1)
    }
}

pub proof fn lemma_line_end(s: Seq<char>, i: int)
    requires
        i <= s.len(),
    ensures
        i <= spec_line_end(s, i) <= s.len(),
    decreases s.len() - i,
{
    if i < s.len() && s[i] != '\n' {
        lemma_line_end(s, i + 1);
    }
}

/// A line loses one trailing carriage return, as a line ending of the form
/// `"\r\n"` would leave one behind after splitting on `'\n'`.
pub open spec fn strip_cr(line: Seq<char>) -> Seq<char> {
    if line.len() > 0 && line.last() == '\r' {
        line.drop_last()
    } else {
        line
    }
}

/// Index of the first non-alphanumeric character at or after `i`, or the
/// length of `line` if none: the end of the alphanumeric run starting at `i`.
pub open spec fn spec_run_end(line: Seq<char>, i: int) -> int
    decreases line.len() - i,
{
    if i >= line.len() {
        line.len() as int
    } else if !is_seg_char(line[i]) {
        i
    } else {
        spec_run_end(line, i + 1)
    }
}

pub proof fn lemma_run_end(line: Seq<char>, i: int)
    requires
        i <= line.len(),
    ensures
        i <= spec_run_end(line, i) <= line.len(),
    decreases line.len() - i,
{
    if i < line.len() && is_seg_char(line[i]) {
        lemma_run_end(line, i + 1);
    }
}

/// A segment token starts at `i` when a nonempty alphanumeric run starting
/// there is followed directly by `.ts`.
pub open spec fn match_at(line: Seq<char>, i: int) -> bool {
    let e = spec_run_end(line, i);
    &&& e > i
    &&& e + 3 <= line.len()
    &&& line[e] == '.'
    &&& line[e + 1] == 't'
    &&& line[e + 2] == 's'
}

/// The token starting at `i`: the alphanumeric run together with `.ts`.
pub open spec fn token_at(line: Seq<char>, i: int) -> Seq<char> {
    line.subrange(i, spec_run_end(line, i) + 3)
}

/// The leftmost segment token of `line` at or after position `i`, if any.
pub open spec fn spec_first_token_from(line: Seq<char>, i: int) -> Option<Seq<char>>
    decreases line.len() - i,
{
    if i >= line.len() {
        None
    } else if match_at(line, i) {
        Some(token_at(line, i))
    } else {
        spec_first_token_from(line, i + 1)
    }
}

/// The leftmost segment token of a line, if the line has one.
pub open spec fn spec_first_token(line: Seq<char>) -> Option<Seq<char>> {
    spec_first_token_from(line, 0)
}

/// What one line contributes to the segment list.
pub open spec fn line_tokens(line: Seq<char>) -> Seq<Seq<char>> {
    match spec_first_token(line) {
        Some(t) => seq![t],
        None => seq![],
    }
}

/// The segment tokens of the document suffix starting at position `i`:
/// the first token of every line, in line order.
pub open spec fn spec_tokens_from(s: Seq<char>, i: int) -> Seq<Seq<char>>
    decreases s.len() - i,
    via spec_tokens_from_decreases
{
    if i >= s.len() {
        seq![]
    } else {
        let j = spec_line_end(s, i);
        let head = line_tokens(strip_cr(s.subrange(i, j)));
        if j >= s.len() {
            head
        } else {
            head + spec_tokens_from(s, j + 1)
        }
    }
}

#[via_fn]
proof fn spec_tokens_from_decreases(s: Seq<char>, i: int) {
    if i < s.len() {
        lemma_line_end(s, i);
    }
}

/// The ordered segment list of a playlist document: for each line, in
/// order, its leftmost segment token, if it has one.
pub open spec fn spec_extract(s: Seq<char>) -> Seq<Seq<char>> {
    spec_tokens_from(s, 0)
}

/// Whether `c` may form the stem of a segment token.
pub fn seg_char(c: char) -> (r: bool)
    ensures
        r == is_seg_char(c),
{
    ('a' <= c && c <= 'z') || ('A' <= c && c <= 'Z') || ('0' <= c && c <= '9')
}

/// Position of the first `'\n'` at or after `i`, or `n` if none.
fn line_end(s: &str, i: usize, n: usize) -> (j: usize)
    requires
        i <= n,
        n == s@.len(),
    ensures
        j == spec_line_end(s@, i as int),
{
    let mut j = i;
    while j < n && s.get_char(j) != '\n'
        invariant
            i <= j <= n,
            n == s@.len(),
            spec_line_end(s@, i as int) == spec_line_end(s@, j as int),
        decreases n - j,
    {
        j = j + 1;
    }
    j
}

/// End of the alphanumeric run starting at `i`.
fn run_end(line: &str, i: usize, n: usize) -> (j: usize)
    requires
        i <= n,
        n == line@.len(),
    ensures
        j == spec_run_end(line@, i as int),
{
    let mut j = i;
    while j < n && seg_char(line.get_char(j))
        invariant
            i <= j <= n,
            n == line@.len(),
            spec_run_end(line@, i as int) == spec_run_end(line@, j as int),
        decreases n - j,
    {
        j = j + 1;
    }
    j
}

/// The leftmost segment token of one line, if the line has one.
fn find_token(line: &str) -> (r: Option<String>)
    ensures
        r.deep_view() == spec_first_token(line@),
{
    let n = line.unicode_len();
    let mut i: usize = 0;
    while i < n
        invariant
            i <= n,
            n == line@.len(),
            spec_first_token(line@) == spec_first_token_from(line@, i as int),
        decreases n - i,
    {
        let e = run_end(line, i, n);
        proof {
            lemma_run_end(line@, i as int);
        }
        if e > i && n - e >= 3 {
            if line.get_char(e) == '.' && line.get_char(e + 1) == 't' && line.get_char(e + 2)
                == 's' {
                assert(match_at(line@, i as int));
                let tok = line.substring_char(i, e + 3).to_owned();
                assert(tok@ == token_at(line@, i as int));
                return Some(tok);
            }
        }
        assert(!match_at(line@, i as int));
        i = i + 1;
    }
    None
}

/// Extracts the ordered segment list from a playlist document.
///
/// Returns the first segment token of every line, in line order, and fails
/// exactly when the whole document yields no token at all.
pub fn extract(content: &str) -> (r: Result<Vec<String>, FatalError>)
    ensures
        r is Ok <==> spec_extract(content@).len() > 0,
        r matches Ok(list) ==> list.deep_view() == spec_extract(content@),
        r matches Err(e) ==> e is EmptyPlaylist,
{
    let n = content.unicode_len();
    let mut out: Vec<String> = Vec::new();
    let mut i: usize = 0;
    while i < n
        invariant
            i <= n,
            n == content@.len(),
            out.deep_view() + spec_tokens_from(content@, i as int) == spec_extract(content@),
        decreases n - i,
    {
        let ghost prev = out.deep_view();
        let ghost i0 = i as int;
        let j = line_end(content, i, n);
        proof {
            lemma_line_end(content@, i as int);
        }
        let line_raw = content.substring_char(i, j);
        let m = j - i;
        let line: &str = if m > 0 && line_raw.get_char(m - 1) == '\r' {
            line_raw.substring_char(0, m - 1)
        } else {
            line_raw
        };
        assert(line@ =~= strip_cr(content@.subrange(i as int, j as int)));
        match find_token(line) {
            Some(tok) => {
                out.push(tok);
                assert(out.deep_view() =~= prev + line_tokens(line@));
            },
            None => {
                assert(out.deep_view() =~= prev + line_tokens(line@));
            },
        }
        if j >= n {
            i = n;
            assert(spec_tokens_from(content@, i0) == line_tokens(line@));
            assert(out.deep_view() + spec_tokens_from(content@, n as int) =~= prev
                + spec_tokens_from(content@, i0));
        } else {
            i = j + 1;
            assert(spec_tokens_from(content@, i0) == line_tokens(line@) + spec_tokens_from(
                content@,
                j + 1,
            ));
            assert(out.deep_view() + spec_tokens_from(content@, j + 1) =~= prev
                + spec_tokens_from(content@, i0));
        }
    }
    assert(out.deep_view() =~= spec_extract(content@));
    if out.len() == 0 {
        Err(FatalError::EmptyPlaylist)
    } else {
        Ok(out)
    }
}

} // verus!
