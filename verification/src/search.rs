//! Scanning text for matching lines.
//!
//! The pattern language is the regex crate's; matching stands behind a
//! trusted wrapper whose result is named, since what a pattern matches is
//! a function of the pattern and the line alone. Everything around the
//! call — plain-text escaping, case-folding prefixes, line splitting,
//! result collection and caps — is verified.

use vstd::prelude::*;
use vstd::string::StrSliceExecFns;
use vstd::string::StringExecFns;
use vstd::string::StringSliceAdditionalSpecFns;
use vstd::utf8::encode_utf8;
use vstd::utf8::encode_utf8_valid_utf8;
use vstd::utf8::is_char_boundary_iff_not_is_continuation_byte;
use vstd::utf8::is_char_boundary_start_end_of_seq;

use crate::plugin::PluginError;
use crate::strutil;

verus! {

/// What regex matching decides for a pattern and a line of text, over
/// their UTF-8 bytes: nothing when the pattern does not compile, else
/// whether it matches. A function of the two texts alone.
pub uninterp spec fn regex_match_of(pattern: Seq<u8>, line: Seq<u8>) -> Option<bool>;

/// A character with significance in a regex pattern — the fixed set the
/// regex crate documents as stable.
pub open spec fn spec_is_meta_char(ch: char) -> bool {
    ||| ch == '\\'
    ||| ch == '.'
    ||| ch == '+'
    ||| ch == '*'
    ||| ch == '?'
    ||| ch == '('
    ||| ch == ')'
    ||| ch == '|'
    ||| ch == '['
    ||| ch == ']'
    ||| ch == '{'
    ||| ch == '}'
    ||| ch == '^'
    ||| ch == '$'
    ||| ch == '#'
    ||| ch == '&'
    ||| ch == '-'
    ||| ch == '~'
}

/// The pattern that matches a text literally: every meta character gets a
/// preceding backslash; everything else passes through.
pub open spec fn spec_regex_escape(s: Seq<char>) -> Seq<char>
    decreases s.len(),
{
    if s.len() == 0 {
        Seq::empty()
    } else {
        (if spec_is_meta_char(s[0]) {
            seq!['\\', s[0]]
        } else {
            seq![s[0]]
        }) + spec_regex_escape(s.drop_first())
    }
}

/// Relies on regex::Regex::new and regex::Regex::is_match: whether the
/// pattern compiles and, if so, whether it matches the line. Both are
/// deterministic in the pattern and line, so the result carries the name
/// `regex_match_of`.
#[verifier::external_body]
fn regex_match_line(pattern: &str, line: &str) -> (r: Option<bool>)
    ensures
        r == regex_match_of(pattern.spec_bytes(), line.spec_bytes()),
{
    match regex::Regex::new(pattern) {
        Ok(re) => Some(re.is_match(line)),
        Err(_) => None,
    }
}

/// Relies on regex::escape: a backslash before every character of the
/// crate's fixed meta set, everything else unchanged.
#[verifier::external_body]
fn regex_escape(s: &str) -> (r: String)
    ensures
        r@ == spec_regex_escape(s@),
{
    regex::escape(s)
}

/// The effective pattern for a query: the query itself in regex mode,
/// its literal escape otherwise; case-insensitive matching turned on by
/// prefix unless asked for case sensitivity.
pub open spec fn spec_effective_pattern(
    query: Seq<char>,
    use_regex: bool,
    case_sensitive: bool,
) -> Seq<char> {
    let base = if use_regex {
        query
    } else {
        spec_regex_escape(query)
    };
    if case_sensitive {
        base
    } else {
        "(?i)"@ + base
    }
}

/// Build the effective pattern for a query.
pub fn build_pattern(query: &str, use_regex: bool, case_sensitive: bool) -> (r: String)
    ensures
        r@ == spec_effective_pattern(query@, use_regex, case_sensitive),
{
    let base = if use_regex {
        String::from_str(query)
    } else {
        regex_escape(query)
    };
    if case_sensitive {
        base
    } else {
        let mut s = String::from_str("(?i)");
        s.append(base.as_str());
        s
    }
}

/// One matching line: its 1-based line number and its trimmed text.
#[derive(Debug, Clone, PartialEq, Eq)]
pub struct SearchMatch {
    pub line: usize,
    pub content: String,
}

/// Byte index of the first line feed, or the whole length.
pub open spec fn spec_lf_pos(b: Seq<u8>) -> int
    decreases b.len(),
{
    if b.len() == 0 {
        0
    } else if b[0] == 0x0a {
        0
    } else {
        1 + spec_lf_pos(b.drop_first())
    }
}

pub proof fn lemma_lf_pos_bounds(b: Seq<u8>)
    ensures
        0 <= spec_lf_pos(b) <= b.len(),
        spec_lf_pos(b) < b.len() ==> b[spec_lf_pos(b)] == 0x0a,
        forall|j: int| 0 <= j < spec_lf_pos(b) ==> #[trigger] b[j] != 0x0a,
    decreases b.len(),
{
    if b.len() > 0 && b[0] != 0x0a {
        lemma_lf_pos_bounds(b.drop_first());
        assert forall|j: int| 0 <= j < spec_lf_pos(b) implies #[trigger] b[j] != 0x0a by {
            if j > 0 {
                assert(b.drop_first()[j - 1] == b[j]);
            }
        }
    }
}

/// The position a forward scan for a line feed stops at.
pub proof fn lemma_lf_pos_at(b: Seq<u8>, p: int)
    requires
        0 <= p <= b.len(),
        p == b.len() || b[p] == 0x0a,
        forall|j: int| 0 <= j < p ==> #[trigger] b[j] != 0x0a,
    ensures
        spec_lf_pos(b) == p,
    decreases b.len(),
{
    if b.len() > 0 && b[0] != 0x0a {
        assert forall|j: int| 0 <= j < p - 1 implies #[trigger] b.drop_first()[j] != 0x0a by {
            assert(b.drop_first()[j] == b[j + 1]);
        }
        lemma_lf_pos_at(b.drop_first(), p - 1);
    }
}

/// A line without its trailing carriage return.
pub open spec fn spec_strip_cr(l: Seq<u8>) -> Seq<u8> {
    if l.len() > 0 && l[l.len() - 1] == 0x0d {
        l.drop_last()
    } else {
        l
    }
}

/// The matching lines of a text: for each line, in order, the pattern is
/// consulted; a line that matches contributes its 1-based number and its
/// trimmed bytes, until the budget is spent. Nothing — an invalid
/// pattern — propagates.
pub open spec fn spec_scan(b: Seq<u8>, pattern: Seq<u8>, line_no: int, budget: int) -> Option<
    Seq<(int, Seq<u8>)>,
>
    decreases b.len(),
    via spec_scan_decreases
{
    if budget <= 0 || b.len() == 0 {
        Some(Seq::empty())
    } else {
        let p = spec_lf_pos(b);
        let line = spec_strip_cr(b.subrange(0, p));
        let rest_bytes: Seq<u8> = if p >= b.len() {
            Seq::empty()
        } else {
            b.subrange(p + 1, b.len() as int)
        };
        match regex_match_of(pattern, line) {
            None => None,
            Some(true) => match spec_scan(rest_bytes, pattern, line_no + 1, budget - 1) {
                None => None,
                Some(rest) => Some(seq![(line_no, strutil::spec_trim(line))] + rest),
            },
            Some(false) => spec_scan(rest_bytes, pattern, line_no + 1, budget),
        }
    }
}

#[via_fn]
proof fn spec_scan_decreases(b: Seq<u8>, pattern: Seq<u8>, line_no: int, budget: int) {
    lemma_lf_pos_bounds(b);
}

/// Scan a text line by line for the pattern, collecting up to `budget`
/// matching lines starting at line number `line_no`. Matched lines are
/// trimmed of ASCII whitespace (a conscious narrowing from full Unicode
/// trimming). An uncompilable pattern is reported as invalid input.
pub fn scan_lines(text: &str, pattern: &str, line_no: usize, budget: usize) -> (r: Result<
    Vec<SearchMatch>,
    PluginError,
>)
    requires
        line_no + text.spec_bytes().len() <= usize::MAX,
    ensures
        match r {
            Ok(ms) => {
                &&& Some(
                    Seq::new(ms@.len(), |k: int| (ms@[k].line as int, encode_utf8(ms@[k].content@))),
                ) == spec_scan(text.spec_bytes(), pattern.spec_bytes(), line_no as int, budget as int)
                &&& ms@.len() <= budget
            },
            Err(e) => {
                &&& e is InvalidInput
                &&& spec_scan(text.spec_bytes(), pattern.spec_bytes(), line_no as int, budget as int) is None
            },
        },
    decreases text.spec_bytes().len(),
{
    proof {
        encode_utf8_valid_utf8(text@);
        is_char_boundary_start_end_of_seq(text.spec_bytes());
    }
    let ghost tb = text.spec_bytes();
    let b = text.as_bytes();
    let n = b.len();
    if budget == 0 || n == 0 {
        let ms: Vec<SearchMatch> = Vec::new();
        proof {
            assert(Seq::new(0, |k: int| (ms@[k].line as int, encode_utf8(ms@[k].content@)))
                =~= Seq::<(int, Seq<u8>)>::empty());
        }
        return Ok(ms);
    }
    // Find the end of the first line.
    let mut p: usize = 0;
    while p < n && b[p] != 0x0a
        invariant
            b@ == tb,
            n == tb.len(),
            0 <= p <= n,
            forall|j: int| 0 <= j < p ==> #[trigger] b@[j] != 0x0a,
        decreases n - p,
    {
        p = p + 1;
    }
    proof {
        lemma_lf_pos_at(tb, p as int);
        if p < n {
            is_char_boundary_iff_not_is_continuation_byte(tb, p as int);
        }
    }
    let (head, _) = text.split_at(p);
    // Drop a trailing carriage return from the line.
    let line: &str = if p > 0 && b[p - 1] == 0x0d {
        proof {
            encode_utf8_valid_utf8(head@);
            is_char_boundary_start_end_of_seq(head.spec_bytes());
            assert(head.spec_bytes()[p - 1] == tb[p - 1]);
            is_char_boundary_iff_not_is_continuation_byte(head.spec_bytes(), p - 1);
        }
        let (l, _) = head.split_at(p - 1);
        proof {
            assert(l.spec_bytes() =~= spec_strip_cr(tb.subrange(0, p as int)));
        }
        l
    } else {
        proof {
            assert(head.spec_bytes() =~= spec_strip_cr(tb.subrange(0, p as int)));
        }
        head
    };
    let matched = match regex_match_line(pattern, line) {
        Some(m) => m,
        None => {
            return Err(PluginError::InvalidInput(String::from_str("invalid pattern")));
        },
    };
    // The rest of the text, after the line feed.
    let rest: &str = if p == n {
        ""
    } else {
        proof {
            strutil::lemma_boundary_after_ascii(tb, p as int);
        }
        let (_, rr) = text.split_at(p + 1);
        rr
    };
    proof {
        if p == n {
            reveal_strlit("");
            assert(rest.spec_bytes() =~= Seq::<u8>::empty());
        }
    }
    if matched {
        let trimmed = strutil::trim_ascii(line);
        let owned = trimmed.to_owned();
        let ghost first_content = encode_utf8(owned@);
        let found = SearchMatch { line: line_no, content: owned };
        let tail = match scan_lines(rest, pattern, line_no + 1, budget - 1) {
            Ok(t) => t,
            Err(e) => {
                return Err(e);
            },
        };
        let mut ms: Vec<SearchMatch> = Vec::new();
        ms.push(found);
        let mut rest_ms = tail;
        let ghost tail_view = rest_ms@;
        let tail_len = rest_ms.len();
        let mut t: usize = 0;
        while rest_ms.len() > 0
            invariant
                tail_view.len() == tail_len,
                0 <= t <= tail_view.len(),
                rest_ms@ == tail_view.skip(t as int),
                ms@.len() == t + 1,
                ms@[0].line == line_no,
                encode_utf8(ms@[0].content@) == first_content,
                forall|k: int| 0 <= k < t ==> ms@[k + 1] == tail_view[k],
            decreases rest_ms@.len(),
        {
            assert(t < tail_view.len()) by {
                assert(tail_view.skip(t as int).len() == tail_view.len() - t);
            }
            let x = rest_ms.remove(0);
            assert(x == tail_view[t as int]) by {
                assert(tail_view.skip(t as int)[0] == tail_view[t as int]);
            }
            proof {
                assert(rest_ms@ =~= tail_view.skip(t + 1));
            }
            ms.push(x);
            t = t + 1;
        }
        proof {
            let expect = spec_scan(tb, pattern.spec_bytes(), line_no as int, budget as int);
            let line_item: (int, Seq<u8>) = (
                line_no as int,
                strutil::spec_trim(spec_strip_cr(tb.subrange(0, p as int))),
            );
            let tail_seq = Seq::new(
                tail_view.len(),
                |k: int| (tail_view[k].line as int, encode_utf8(tail_view[k].content@)),
            );
            assert(spec_scan(rest.spec_bytes(), pattern.spec_bytes(), line_no + 1, budget - 1)
                == Some(tail_seq));
            assert(first_content == line_item.1);
            assert(expect == Some(seq![line_item] + tail_seq));
            assert(Seq::new(ms@.len(), |k: int| (ms@[k].line as int, encode_utf8(ms@[k].content@)))
                =~= seq![line_item] + tail_seq);
        }
        Ok(ms)
    } else {
        let tail = match scan_lines(rest, pattern, line_no + 1, budget) {
            Ok(t) => t,
            Err(e) => {
                return Err(e);
            },
        };
        Ok(tail)
    }
}

/// Search a text for a query: the effective pattern (escaping and case
/// handling per the flags) is matched line by line, collecting up to
/// `max_results` matches.
pub fn search_text(
    text: &str,
    query: &str,
    use_regex: bool,
    case_sensitive: bool,
    max_results: usize,
) -> (r: Result<Vec<SearchMatch>, PluginError>)
    requires
        text.spec_bytes().len() < usize::MAX,
    ensures
        match r {
            Ok(ms) => {
                &&& Some(
                    Seq::new(
                        ms@.len(),
                        |k: int| (ms@[k].line as int, encode_utf8(ms@[k].content@)),
                    ),
                ) == spec_scan(
                    text.spec_bytes(),
                    encode_utf8(spec_effective_pattern(query@, use_regex, case_sensitive)),
                    1,
                    max_results as int,
                )
                &&& ms@.len() <= max_results
            },
            Err(e) => {
                &&& e is InvalidInput
                &&& spec_scan(
                    text.spec_bytes(),
                    encode_utf8(spec_effective_pattern(query@, use_regex, case_sensitive)),
                    1,
                    max_results as int,
                ) is None
            },
        },
{
    let pattern = build_pattern(query, use_regex, case_sensitive);
    scan_lines(text, pattern.as_str(), 1, max_results)
}

} // verus!
