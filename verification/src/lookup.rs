//! The heart of the protocol: splitting a range response into lines and
//! `SUFFIX:COUNT` fields, matching the digest suffix case-insensitively, and
//! resolving the occurrence count.

use vstd::prelude::*;

use crate::digest::{candidate_digest, prefix_of, split_digest, suffix_of};
use crate::digest::digest_of_candidate;
use crate::numbers::{parse_i32, parsed_i32};
use crate::report::report_of;
use crate::text::{eq_ignore_ascii_case, eq_ignore_case, trim_of, trimmed};

verus! {

/// The index of the first occurrence of `sep` in `s`, or `s.len()` when
/// `sep` does not occur.
pub open spec fn find_char(s: Seq<char>, sep: char) -> int
    decreases s.len(),
{
    if s.len() == 0 {
        0
    } else if s[0] == sep {
        0
    } else {
        1 + find_char(s.drop_first(), sep)
    }
}

proof fn lemma_find_char_at(s: Seq<char>, sep: char, i: int)
    requires
        0 <= i <= s.len(),
        forall|j: int| 0 <= j < i ==> s[j] != sep,
        i < s.len() ==> s[i] == sep,
    ensures
        find_char(s, sep) == i,
    decreases i,
{
    if i > 0 {
        lemma_find_char_at(s.drop_first(), sep, i - 1);
    }
}

/// The segments of `s` between occurrences of `sep`: one segment more than
/// there are separators, each without the separator itself.
pub open spec fn split_on(s: Seq<char>, sep: char) -> Seq<Seq<char>>
    decreases s.len(),
{
    let i = find_char(s, sep);
    if 0 <= i < s.len() {
        seq![s.subrange(0, i)] + split_on(s.subrange(i + 1, s.len() as int), sep)
    } else {
        seq![s]
    }
}

proof fn lemma_split_on_nonempty(s: Seq<char>, sep: char)
    ensures
        split_on(s, sep).len() >= 1,
{
}

/// The `:`-separated fields of a response line.
pub open spec fn line_fields(line: Seq<char>) -> Seq<Seq<char>> {
    split_on(line, ':')
}

/// Whether a response line matches the local digest suffix: the line splits
/// into exactly two fields and the first, trimmed, equals the suffix up to
/// ASCII letter case.
pub open spec fn line_matches(line: Seq<char>, suffix: Seq<char>) -> bool {
    line_fields(line).len() == 2 && eq_ignore_case(trim_of(line_fields(line)[0]), suffix)
}

/// The trimmed count field of the first matching line, when any line
/// matches.
pub open spec fn first_match(lines: Seq<Seq<char>>, suffix: Seq<char>) -> Option<Seq<char>>
    decreases lines.len(),
{
    if lines.len() == 0 {
        None
    } else if line_matches(lines[0], suffix) {
        Some(trim_of(line_fields(lines[0])[1]))
    } else {
        first_match(lines.drop_first(), suffix)
    }
}

/// The lines of a response body.
pub open spec fn body_lines(body: Seq<char>) -> Seq<Seq<char>> {
    split_on(body, '\n')
}

/// What resolving a response body against a suffix yields: zero when no
/// line matches, the count of the first matching line when its count field
/// parses as a decimal integer, and that offending field itself otherwise.
pub open spec fn resolve_of(body: Seq<char>, suffix: Seq<char>) -> Result<int, Seq<char>> {
    match first_match(body_lines(body), suffix) {
        None => Ok(0),
        Some(field) => match parsed_i32(field) {
            Some(v) => Ok(v),
            None => Err(field),
        },
    }
}

/// Why a lookup could not be completed.
#[derive(Debug)]
pub enum LookupError {
    /// The request could not be carried out at the transport layer.
    Transport(String),
    /// The remote endpoint answered with a non-success HTTP status.
    RemoteStatus(u16),
    /// The matched line's count field, carried here, is not a decimal
    /// integer that fits a 32-bit count.
    InvalidCount(String),
    /// A line of a batch file could not be read.
    Io(String),
}

/// Examines one response line: `None` when the line does not match the
/// suffix, otherwise the parsed count or the unparseable count field.
#[verifier::loop_isolation(false)]
fn line_lookup(line: &str, suffix: &str) -> (r: Option<Result<i32, String>>)
    ensures
        match r {
            None => !line_matches(line@, suffix@),
            Some(inner) => line_matches(line@, suffix@) && match inner {
                Ok(c) => parsed_i32(trim_of(line_fields(line@)[1])) == Some(c as int),
                Err(f) => f@ == trim_of(line_fields(line@)[1]) && parsed_i32(f@) is None,
            },
        },
{
    let n = line.unicode_len();
    let mut i: usize = 0;
    while i < n && line.get_char(i) != ':'
        invariant
            0 <= i <= n,
            forall|j: int| 0 <= j < i ==> line@[j] != ':',
        decreases n - i,
    {
        i = i + 1;
    }
    proof {
        lemma_find_char_at(line@, ':', i as int);
    }
    if i >= n {
        // no separator: a single field, never a match
        assert(line_fields(line@).len() == 1);
        return None;
    }
    let ghost tail = line@.subrange(i + 1, n as int);
    assert(line_fields(line@) == seq![line@.subrange(0, i as int)] + split_on(tail, ':'));
    let mut k: usize = i + 1;
    while k < n && line.get_char(k) != ':'
        invariant
            i + 1 <= k <= n,
            forall|j: int| i + 1 <= j < k ==> line@[j] != ':',
        decreases n - k,
    {
        k = k + 1;
    }
    proof {
        assert(forall|j: int| 0 <= j < k - (i + 1) ==> tail[j] != ':');
        lemma_find_char_at(tail, ':', k - (i + 1));
    }
    if k < n {
        // a second separator: three or more fields, never a match
        proof {
            lemma_split_on_nonempty(tail.subrange(k - i, tail.len() as int), ':');
            assert(split_on(tail, ':').len() >= 2);
            assert(line_fields(line@).len() >= 3);
        }
        return None;
    }
    // exactly one separator: exactly the two fields the protocol asks for
    proof {
        assert(split_on(tail, ':') == seq![tail]);
        assert(line_fields(line@).len() == 2);
        assert(line_fields(line@)[0] == line@.subrange(0, i as int));
        assert(line_fields(line@)[1] == tail);
    }
    let field0 = line.substring_char(0, i);
    let field1 = line.substring_char(i + 1, n);
    let t0 = trimmed(field0);
    if !eq_ignore_ascii_case(t0, suffix) {
        return None;
    }
    let t1 = trimmed(field1);
    match parse_i32(t1) {
        Some(c) => Some(Ok(c)),
        None => Some(Err(t1.to_owned())),
    }
}

/// Resolves a range response body against the local digest suffix: the
/// count of the first matching line, zero when no line matches, and an
/// `InvalidCount` error when the matched count field is not a number.
#[verifier::loop_isolation(false)]
pub fn resolve_response(body: &str, suffix: &str) -> (r: Result<i32, LookupError>)
    ensures
        match r {
            Ok(count) => resolve_of(body@, suffix@) == Ok::<int, Seq<char>>(count as int),
            Err(e) => match e {
                LookupError::InvalidCount(f) => resolve_of(body@, suffix@) == Err::<
                    int,
                    Seq<char>,
                >(f@),
                _ => false,
            },
        },
{
    let n = body.unicode_len();
    let mut pos: usize = 0;
    proof {
        assert(body@.subrange(0, n as int) =~= body@);
    }
    loop
        invariant
            0 <= pos <= n,
            first_match(body_lines(body@), suffix@) == first_match(
                split_on(body@.subrange(pos as int, n as int), '\n'),
                suffix@,
            ),
        decreases n - pos,
    {
        let ghost rest = body@.subrange(pos as int, n as int);
        let mut j: usize = pos;
        while j < n && body.get_char(j) != '\n'
            invariant
                pos <= j <= n,
                forall|m: int| pos <= m < j ==> body@[m] != '\n',
            decreases n - j,
        {
            j = j + 1;
        }
        let ghost line_seq = body@.subrange(pos as int, j as int);
        proof {
            assert(forall|m: int| 0 <= m < j - pos ==> rest[m] != '\n');
            lemma_find_char_at(rest, '\n', j - pos);
            assert(rest.subrange(0, j - pos) =~= line_seq);
            if j < n {
                assert(rest.subrange(j - pos + 1, rest.len() as int) =~= body@.subrange(
                    j + 1,
                    n as int,
                ));
                assert(split_on(rest, '\n') == seq![line_seq] + split_on(
                    body@.subrange(j + 1, n as int),
                    '\n',
                ));
            } else {
                assert(rest =~= line_seq);
                assert(split_on(rest, '\n') == seq![line_seq]);
            }
        }
        let line = body.substring_char(pos, j);
        match line_lookup(line, suffix) {
            Some(inner) => {
                proof {
                    if j < n {
                        assert((seq![line_seq] + split_on(body@.subrange(j + 1, n as int), '\n'))[0]
                            == line_seq);
                    } else {
                        assert(seq![line_seq][0] == line_seq);
                    }
                    assert(split_on(rest, '\n')[0] == line_seq);
                    lemma_split_on_nonempty(rest, '\n');
                    assert(first_match(split_on(rest, '\n'), suffix@) == Some(
                        trim_of(line_fields(line_seq)[1]),
                    ));
                }
                match inner {
                    Ok(c) => {
                        return Ok(c);
                    },
                    Err(f) => {
                        return Err(LookupError::InvalidCount(f));
                    },
                }
            },
            None => {
                if j >= n {
                    proof {
                        assert(!line_matches(line_seq, suffix@));
                        assert(seq![line_seq].drop_first() =~= Seq::<Seq<char>>::empty());
                        assert(first_match(Seq::<Seq<char>>::empty(), suffix@) is None);
                        assert(first_match(seq![line_seq], suffix@) is None);
                        assert(first_match(split_on(rest, '\n'), suffix@) is None);
                    }
                    return Ok(0);
                }
                proof {
                    let lines = seq![line_seq] + split_on(body@.subrange(j + 1, n as int), '\n');
                    assert(lines[0] == line_seq);
                    assert(lines.drop_first() =~= split_on(body@.subrange(j + 1, n as int), '\n'));
                    assert(first_match(lines, suffix@) == first_match(
                        split_on(body@.subrange(j + 1, n as int), '\n'),
                        suffix@,
                    ));
                }
                pos = j + 1;
            },
        }
    }
}

/// Everything one lookup sends and keeps: the query address, which holds
/// only the five-character digest prefix, and the private suffix that is
/// matched locally and never transmitted.
pub struct RangeQuery {
    pub url: String,
    pub suffix: String,
}

/// The address of the range endpoint for a digest prefix.
pub fn range_url(prefix: &str) -> (r: String)
    ensures
        r@ == "http://api.pwnedpasswords.com/range/"@ + prefix@,
{
    let mut url = "http://api.pwnedpasswords.com/range/".to_owned();
    url.append(prefix);
    url
}

/// Builds the one query a candidate gives rise to: the range address made
/// from the digest's five-character prefix alone, and the suffix kept back
/// for local matching.
pub fn prepare_query(candidate: &str, hash_passed: bool) -> (r: RangeQuery)
    requires
        hash_passed ==> candidate@.len() >= 5,
    ensures
        r.url@ == "http://api.pwnedpasswords.com/range/"@ + prefix_of(
            candidate_digest(candidate@, hash_passed),
        ),
        r.suffix@ == suffix_of(candidate_digest(candidate@, hash_passed)),
{
    let digest = digest_of_candidate(candidate, hash_passed);
    let (prefix, suffix) = split_digest(digest.as_str());
    let url = range_url(prefix.as_str());
    RangeQuery { url, suffix }
}

/// Matching does not see ASCII letter case: suffix fields that agree up to
/// case are matched by exactly the same suffixes.
pub proof fn lemma_match_case_insensitive(a: Seq<char>, b: Seq<char>, suffix: Seq<char>)
    requires
        eq_ignore_case(a, b),
    ensures
        eq_ignore_case(a, suffix) == eq_ignore_case(b, suffix),
{
}

/// When no line of the body matches the suffix, the lookup resolves to
/// exactly zero, a normal outcome rather than an error, and a zero count is
/// reported as not found.
pub proof fn lemma_no_match_resolves_to_zero(body: Seq<char>, suffix: Seq<char>, label: Seq<char>)
    requires
        first_match(body_lines(body), suffix) is None,
    ensures
        resolve_of(body, suffix) == Ok::<int, Seq<char>>(0),
        report_of(label, 0) == label + " was NOT found in any known breaches."@,
{
}

} // verus!
