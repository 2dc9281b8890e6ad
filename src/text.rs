//! Character-level helpers: whitespace trimming, the first word of a text,
//! and the content of a document once its declaration line is dropped.
use vstd::prelude::*;

verus! {

/// The characters with the Unicode White_Space property.
pub open spec fn is_space_spec(c: char) -> bool {
    ('\u{9}' <= c && c <= '\u{d}') || c == ' ' || c == '\u{85}' || c == '\u{a0}'
        || c == '\u{1680}' || ('\u{2000}' <= c && c <= '\u{200a}') || c == '\u{2028}'
        || c == '\u{2029}' || c == '\u{202f}' || c == '\u{205f}' || c == '\u{3000}'
}

pub fn is_space(c: char) -> (r: bool)
    ensures
        r == is_space_spec(c),
{
    ('\u{9}' <= c && c <= '\u{d}') || c == ' ' || c == '\u{85}' || c == '\u{a0}'
        || c == '\u{1680}' || ('\u{2000}' <= c && c <= '\u{200a}') || c == '\u{2028}'
        || c == '\u{2029}' || c == '\u{202f}' || c == '\u{205f}' || c == '\u{3000}'
}

/// `s` without its leading whitespace.
pub open spec fn trim_start(s: Seq<char>) -> Seq<char>
    decreases s.len(),
{
    if s.len() > 0 && is_space_spec(s[0]) {
        trim_start(s.drop_first())
    } else {
        s
    }
}

/// `s` without its trailing whitespace.
pub open spec fn trim_end(s: Seq<char>) -> Seq<char>
    decreases s.len(),
{
    if s.len() > 0 && is_space_spec(s.last()) {
        trim_end(s.drop_last())
    } else {
        s
    }
}

/// `s` without its outer whitespace.
pub open spec fn trim(s: Seq<char>) -> Seq<char> {
    trim_end(trim_start(s))
}

/// The characters of `s` before its first whitespace.
pub open spec fn take_word(s: Seq<char>) -> Seq<char>
    decreases s.len(),
{
    if s.len() == 0 || is_space_spec(s[0]) {
        Seq::empty()
    } else {
        seq![s[0]] + take_word(s.drop_first())
    }
}

/// The first whitespace-delimited word of `s`, empty where it has none.
pub open spec fn first_word(s: Seq<char>) -> Seq<char> {
    take_word(trim_start(s))
}

/// What follows the first line break of `s`; empty where it has none.
pub open spec fn after_first_line(s: Seq<char>) -> Seq<char>
    decreases s.len(),
{
    if s.len() == 0 {
        Seq::empty()
    } else if s[0] == '\n' {
        s.drop_first()
    } else {
        after_first_line(s.drop_first())
    }
}

/// `s` with each line break (`\n` or `\r\n`) replaced by `sep`.
pub open spec fn join_lines(s: Seq<char>, sep: Seq<char>) -> Seq<char>
    decreases s.len(),
{
    if s.len() == 0 {
        Seq::empty()
    } else if s.len() > 1 && s[0] == '\r' && s[1] == '\n' {
        sep + join_lines(s.subrange(2, s.len() as int), sep)
    } else if s[0] == '\n' {
        sep + join_lines(s.drop_first(), sep)
    } else {
        seq![s[0]] + join_lines(s.drop_first(), sep)
    }
}

/// The content of a document: its lines after the first, joined by `sep`,
/// outer whitespace trimmed.
pub open spec fn content_of(doc: Seq<char>, sep: Seq<char>) -> Seq<char> {
    trim(join_lines(after_first_line(doc), sep))
}

/// Relies on `str::chars` collected into a `Vec`: the characters of `s`.
#[verifier::external_body]
pub(crate) fn chars_of(s: &str) -> (r: Vec<char>)
    ensures
        r@ == s@,
{
    s.chars().collect()
}

/// Index of the first non-space character of `s` at or after `from`.
fn skip_spaces(s: &Vec<char>, from: usize) -> (r: usize)
    requires
        from <= s@.len(),
    ensures
        from <= r <= s@.len(),
        trim_start(s@.subrange(from as int, s@.len() as int)) == s@.subrange(r as int, s@.len() as int),
{
    let mut i = from;
    while i < s.len() && is_space(s[i])
        invariant
            from <= i <= s@.len(),
            trim_start(s@.subrange(from as int, s@.len() as int)) == trim_start(s@.subrange(i as int, s@.len() as int)),
        decreases s@.len() - i,
    {
        assert(s@.subrange(i as int, s@.len() as int).drop_first() =~= s@.subrange(i + 1, s@.len() as int));
        i = i + 1;
    }
    i
}

/// `s` without its outer whitespace.
pub fn trim_chars(s: &Vec<char>) -> (r: Vec<char>)
    ensures
        r@ == trim(s@),
{
    let start = skip_spaces(s, 0);
    assert(s@.subrange(0, s@.len() as int) =~= s@);
    let mut end = s.len();
    while end > start && is_space(s[end - 1])
        invariant
            start <= end <= s@.len(),
            trim(s@) == trim_end(s@.subrange(start as int, end as int)),
        decreases end,
    {
        assert(s@.subrange(start as int, end as int).drop_last() =~= s@.subrange(start as int, end - 1));
        end = end - 1;
    }
    let mut r: Vec<char> = Vec::new();
    let mut k = start;
    while k < end
        invariant
            start <= k <= end <= s@.len(),
            r@ =~= s@.subrange(start as int, k as int),
        decreases end - k,
    {
        r.push(s[k]);
        k = k + 1;
    }
    r
}

/// The first whitespace-delimited word of `s`.
pub fn first_word_chars(s: &Vec<char>) -> (r: Vec<char>)
    ensures
        r@ == first_word(s@),
{
    let start = skip_spaces(s, 0);
    assert(s@.subrange(0, s@.len() as int) =~= s@);
    let mut r: Vec<char> = Vec::new();
    let mut k = start;
    while k < s.len() && !is_space(s[k])
        invariant
            start <= k <= s@.len(),
            first_word(s@) == r@ + take_word(s@.subrange(k as int, s@.len() as int)),
        decreases s@.len() - k,
    {
        let ghost rest = s@.subrange(k as int, s@.len() as int);
        assert(rest.drop_first() =~= s@.subrange(k + 1, s@.len() as int));
        assert(r@ + take_word(rest) =~= r@.push(s[k as int]) + take_word(rest.drop_first()));
        r.push(s[k]);
        k = k + 1;
    }
    assert(r@ + take_word(s@.subrange(k as int, s@.len() as int)) =~= r@);
    r
}

/// The content of a document: its lines after the first, joined by `sep`
/// (nothing, or a line break), outer whitespace trimmed.
pub fn document_content(doc: &Vec<char>, keep_newlines: bool) -> (r: Vec<char>)
    ensures
        r@ == content_of(doc@, if keep_newlines { seq!['\n'] } else { Seq::empty() }),
{
    let ghost sep: Seq<char> = if keep_newlines { seq!['\n'] } else { Seq::empty() };
    let n = doc.len();
    let mut i: usize = 0;
    assert(doc@.subrange(0, n as int) =~= doc@);
    while i < n && doc[i] != '\n'
        invariant
            n == doc@.len(),
            i <= n,
            after_first_line(doc@) == after_first_line(doc@.subrange(i as int, n as int)),
        decreases n - i,
    {
        assert(doc@.subrange(i as int, n as int).drop_first() =~= doc@.subrange(i + 1, n as int));
        i = i + 1;
    }
    if i < n {
        assert(doc@.subrange(i as int, n as int).drop_first() =~= doc@.subrange(i + 1, n as int));
        i = i + 1;
    }
    let ghost body = after_first_line(doc@);
    assert(body =~= doc@.subrange(i as int, n as int));
    let mut joined: Vec<char> = Vec::new();
    while i < n
        invariant
            n == doc@.len(),
            i <= n,
            sep == (if keep_newlines { seq!['\n'] } else { Seq::<char>::empty() }),
            join_lines(body, sep) == joined@ + join_lines(doc@.subrange(i as int, n as int), sep),
        decreases n - i,
    {
        let ghost rest = doc@.subrange(i as int, n as int);
        if i + 1 < n && doc[i] == '\r' && doc[i + 1] == '\n' {
            assert(rest.subrange(2, rest.len() as int) =~= doc@.subrange(i + 2, n as int));
            let ghost before = joined@;
            if keep_newlines {
                joined.push('\n');
            }
            assert(before + join_lines(rest, sep) =~= joined@ + join_lines(doc@.subrange(i + 2, n as int), sep));
            i = i + 2;
        } else if doc[i] == '\n' {
            assert(rest.drop_first() =~= doc@.subrange(i + 1, n as int));
            let ghost before = joined@;
            if keep_newlines {
                joined.push('\n');
            }
            assert(before + join_lines(rest, sep) =~= joined@ + join_lines(doc@.subrange(i + 1, n as int), sep));
            i = i + 1;
        } else {
            assert(rest.drop_first() =~= doc@.subrange(i + 1, n as int));
            let ghost before = joined@;
            joined.push(doc[i]);
            assert(before + join_lines(rest, sep) =~= joined@ + join_lines(doc@.subrange(i + 1, n as int), sep));
            i = i + 1;
        }
    }
    assert(joined@ + join_lines(doc@.subrange(i as int, n as int), sep) =~= joined@);
    trim_chars(&joined)
}

} // verus!
