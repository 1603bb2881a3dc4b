//! The matcher: a pattern compiled into a regular expression, with the
//! query text escaped so that it is searched for literally, optionally
//! case-insensitive and optionally bounded to whole words.

use vstd::prelude::*;
use vstd::string::StringExecFns;

verus! {

/// The error a search run can fail with before any line is read.
#[derive(Clone, Copy, Debug, PartialEq, Eq, Structural)]
pub enum SearchError {
    /// The configuration produced a pattern that the regular-expression
    /// compiler rejects.
    InvalidPattern,
}

/// Whether the regular expression compiled from `pattern` finds a match in
/// `line`: the result of `regex::Regex::find(..).is_some()`, a function of
/// the two strings alone.
pub uninterp spec fn regex_found(pattern: Seq<char>, line: Seq<char>) -> bool;

/// The byte-offset spans of the successive non-overlapping matches the
/// regular expression compiled from `pattern` finds in `line`: what
/// `regex::Regex::find_iter` yields, a function of the two strings alone.
pub uninterp spec fn regex_spans(pattern: Seq<char>, line: Seq<char>) -> Seq<(usize, usize)>;

/// Whether `pattern` is a pattern the regular-expression compiler accepts:
/// whether `regex::Regex::new` returns `Ok`, a function of the pattern alone.
pub uninterp spec fn regex_compiles(pattern: Seq<char>) -> bool;

/// The escaping of `text` for use in a regular expression: the result of
/// `regex::escape`, a function of `text` alone.
pub uninterp spec fn escaped_of(text: Seq<char>) -> Seq<char>;

/// Whether `pat` occurs in `line` as a contiguous substring.
pub open spec fn spec_contains(pat: Seq<char>, line: Seq<char>) -> bool {
    exists|i: int|
        0 <= i <= line.len() - pat.len() && #[trigger] line.subrange(i, i + pat.len()) == pat
}

#[verifier::external_type_specification]
#[verifier::external_body]
pub struct ExRegex(regex::Regex);

#[verifier::external_type_specification]
#[verifier::external_body]
pub struct ExRegexError(regex::Error);

/// Relies on regex::Regex::new: it returns `Ok` exactly on the patterns the
/// regular-expression compiler accepts.
#[verifier::external_body]
fn regex_new(pattern: &str) -> (r: Result<regex::Regex, regex::Error>)
    ensures
        r is Ok <==> regex_compiles(pattern@),
{
    regex::Regex::new(pattern)
}

/// Relies on regex::escape: the escaped text, used as a regular expression,
/// matches exactly the lines that contain `text` as a literal substring
/// (byte-level occurrences of valid UTF-8 always fall on character
/// boundaries, so byte containment and character containment agree).
#[verifier::external_body]
fn regex_escape(text: &str) -> (r: String)
    ensures
        r@ == escaped_of(text@),
        regex_compiles(r@) ==> forall|l: Seq<char>|
            #[trigger] regex_found(r@, l) == spec_contains(text@, l),
{
    regex::escape(text)
}

/// A compiled matcher. The regular expression is kept together with the
/// pattern text it was compiled from; the fields are private so that the
/// two can never drift apart, which the trusted find wrappers below rely on.
pub struct Matcher {
    re: regex::Regex,
    pattern: String,
    query: String,
    ignore_case: bool,
    word_regexp: bool,
}

/// Relies on regex::Regex::find: its result is a function of the compiled
/// pattern and the haystack alone, and `find(..).is_some()` tells whether
/// any match exists.
#[verifier::external_body]
fn regex_find(m: &Matcher, line: &str) -> (r: bool)
    ensures
        r == regex_found(m.spec_pattern(), line@),
{
    m.re.find(line).is_some()
}

/// Relies on regex::Regex::find_iter: it yields the byte-offset spans of
/// the successive non-overlapping matches, in order, each within the
/// haystack's byte length.
#[verifier::external_body]
fn regex_find_spans(m: &Matcher, line: &str) -> (r: Vec<(usize, usize)>)
    ensures
        r@ == regex_spans(m.spec_pattern(), line@),
        forall|i: int| 0 <= i < r@.len() ==>
            (#[trigger] r@[i]).0 <= r@[i].1 <= vstd::utf8::encode_utf8(line@).len(),
        forall|i: int| 0 <= i < r@.len() - 1 ==>
            (#[trigger] r@[i]).1 <= r@[i + 1].0,
{
    m.re.find_iter(line).map(|mm| (mm.start(), mm.end())).collect()
}

impl Matcher {
    /// The query text this matcher was built for.
    pub closed spec fn spec_query(self) -> Seq<char> {
        self.query@
    }

    /// Whether this matcher ignores case.
    pub closed spec fn spec_ignore_case(self) -> bool {
        self.ignore_case
    }

    /// Whether this matcher requires whole-word matches.
    pub closed spec fn spec_word(self) -> bool {
        self.word_regexp
    }

    /// The pattern text the regular expression was compiled from.
    pub closed spec fn spec_pattern(self) -> Seq<char> {
        self.pattern@
    }

    /// The pattern text built for a query under the two matching options:
    /// the escaped query, wrapped in word boundaries when whole-word
    /// matching is on, prefixed with the case-insensitivity flag when
    /// case is ignored.
    pub open spec fn spec_pattern_of(query: Seq<char>, ignore_case: bool, word_regexp: bool) -> Seq<
        char,
    > {
        let base = if word_regexp {
            "\\b"@ + escaped_of(query) + "\\b"@
        } else {
            escaped_of(query)
        };
        if ignore_case {
            "(?i)"@ + base
        } else {
            base
        }
    }

    /// A well-formed matcher: the stored pattern is the one its options
    /// prescribe, it compiled, and in plain literal mode matching the
    /// pattern is the same as containing the query.
    pub closed spec fn wf(self) -> bool {
        &&& self.pattern@ == Self::spec_pattern_of(self.query@, self.ignore_case, self.word_regexp)
        &&& regex_compiles(self.pattern@)
        &&& (!self.ignore_case && !self.word_regexp ==> forall|l: Seq<char>|
            #[trigger] regex_found(self.pattern@, l) == spec_contains(self.query@, l))
    }

    /// Whether this matcher reports a match on `line`.
    pub open spec fn spec_matches(self, line: Seq<char>) -> bool {
        regex_found(self.spec_pattern(), line)
    }

    /// Builds the matcher for `query` under the given options. The query is
    /// escaped, so it is matched literally; the call fails exactly when the
    /// assembled pattern is rejected by the regular-expression compiler.
    pub fn new(query: &str, ignore_case: bool, word_regexp: bool) -> (r: Result<
        Matcher,
        SearchError,
    >)
        ensures
            r is Ok <==> regex_compiles(
                Self::spec_pattern_of(query@, ignore_case, word_regexp),
            ),
            r is Ok ==> {
                &&& r->Ok_0.wf()
                &&& r->Ok_0.spec_query() == query@
                &&& r->Ok_0.spec_ignore_case() == ignore_case
                &&& r->Ok_0.spec_word() == word_regexp
                &&& r->Ok_0.spec_pattern() == Self::spec_pattern_of(
                    query@,
                    ignore_case,
                    word_regexp,
                )
            },
            r is Err ==> r->Err_0 == SearchError::InvalidPattern,
    {
        let escaped = regex_escape(query);
        let mut pattern = String::new();
        if ignore_case {
            pattern.append("(?i)");
        }
        if word_regexp {
            pattern.append("\\b");
        }
        pattern.append(escaped.as_str());
        if word_regexp {
            pattern.append("\\b");
        }
        proof {
            assert(pattern@ =~= Self::spec_pattern_of(query@, ignore_case, word_regexp));
        }
        match regex_new(pattern.as_str()) {
            Ok(re) => Ok(
                Matcher {
                    re,
                    pattern,
                    query: query.to_owned(),
                    ignore_case,
                    word_regexp,
                },
            ),
            Err(_) => Err(SearchError::InvalidPattern),
        }
    }

    /// Whether the compiled expression finds a match in `line`.
    pub fn matches(&self, line: &str) -> (r: bool)
        ensures
            r == self.spec_matches(line@),
    {
        regex_find(self, line)
    }

    /// The byte-offset spans of all matches in `line`, in order,
    /// non-overlapping, each within the line's byte length.
    pub fn find_spans(&self, line: &str) -> (r: Vec<(usize, usize)>)
        ensures
            r@ == regex_spans(self.spec_pattern(), line@),
            forall|i: int| 0 <= i < r@.len() ==>
                (#[trigger] r@[i]).0 <= r@[i].1 <= vstd::utf8::encode_utf8(line@).len(),
            forall|i: int| 0 <= i < r@.len() - 1 ==>
                (#[trigger] r@[i]).1 <= r@[i + 1].0,
    {
        regex_find_spans(self, line)
    }
}

/// Whether `pat` starts at position `start` of `line`, by direct character
/// comparison.
fn match_at(pat: &str, line: &str, start: usize) -> (r: bool)
    requires
        start + pat@.len() <= line@.len(),
    ensures
        r == (line@.subrange(start as int, start + pat@.len()) == pat@),
{
    let plen = pat.unicode_len();
    let llen = line.unicode_len();
    let mut j: usize = 0;
    while j < plen
        invariant
            plen == pat@.len(),
            llen == line@.len(),
            start + plen <= llen,
            j <= plen,
            forall|k: int| 0 <= k < j ==> line@[start + k] == pat@[k],
        decreases plen - j,
    {
        if line.get_char(start + j) != pat.get_char(j) {
            proof {
                assert(line@.subrange(start as int, start + pat@.len())[j as int] == line@[start
                    + j]);
            }
            return false;
        }
        j = j + 1;
    }
    proof {
        assert(line@.subrange(start as int, start + pat@.len()) =~= pat@);
    }
    true
}

/// Whether `pat` occurs in `line` as a contiguous substring, found by
/// direct character comparison: the plain-substring counterpart of the
/// escaped regular-expression search.
pub fn contains_substring(pat: &str, line: &str) -> (r: bool)
    ensures
        r == spec_contains(pat@, line@),
{
    let plen = pat.unicode_len();
    let llen = line.unicode_len();
    if plen > llen {
        return false;
    }
    if plen == 0 {
        proof {
            assert(line@.subrange(0, 0 + pat@.len() as int) =~= pat@);
        }
        return true;
    }
    let mut i: usize = 0;
    while i <= llen - plen
        invariant
            plen == pat@.len(),
            llen == line@.len(),
            1 <= plen <= llen,
            i <= llen - plen + 1,
            forall|k: int| 0 <= k < i ==> #[trigger] line@.subrange(k, k + pat@.len()) != pat@,
        decreases llen - plen + 1 - i,
    {
        if match_at(pat, line, i) {
            return true;
        }
        i = i + 1;
    }
    false
}

/// Law: literal equivalence. For a matcher built without the case and word
/// options, matching through the compiled, escaped expression agrees with
/// plain substring search on every line.
pub proof fn lemma_literal_equivalence(m: Matcher, line: Seq<char>)
    requires
        m.wf(),
        !m.spec_ignore_case(),
        !m.spec_word(),
    ensures
        m.spec_matches(line) == spec_contains(m.spec_query(), line),
{
}

} // verus!
