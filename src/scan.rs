//! The headword scanner: a small state machine driven by XML events.
use crate::text::{chars_of, first_word, first_word_chars, trim, trim_chars};
use crate::xml::{is_last_token, next_event, open_reader, pending_tokens, text_view, token_stream_ok, unescape_text, unescaped, xml_tokens, Token, XmlAttr, XmlEvent};
use vstd::prelude::*;

verus! {

/// How the headword is taken from the matching element.
#[derive(Clone, Copy, PartialEq, Eq, Structural)]
pub enum HeadwordPolicy {
    /// The first whitespace-delimited word of the element's text.
    FirstWord,
    /// All the element's text, nested elements included, pieces joined by a space.
    WholeText,
}

/// How the content lines of a document are joined.
#[derive(Clone, Copy, PartialEq, Eq, Structural)]
pub enum ContentPolicy {
    /// Lines concatenated into one line.
    SingleLine,
    /// Line breaks kept.
    KeepNewlines,
}

/// Where the headword may be found.
#[derive(Clone, Copy, PartialEq, Eq, Structural)]
pub enum MatchScope {
    /// Anywhere in the document.
    Anywhere,
    /// Only inside an element whose `class` attribute is `entry`.
    WithinEntry,
}

/// The settings of one run.
pub struct Config {
    /// The element name, or `class` attribute value, that marks the headword.
    pub tag: Vec<u8>,
    pub headword: HeadwordPolicy,
    pub content: ContentPolicy,
    pub scope: MatchScope,
}

/// The state of the scanner.
pub enum ScanState {
    /// No headword element seen yet.
    Searching,
    /// Inside the entry element `name`, `depth` nested elements of the same
    /// name deep, no headword element seen yet.
    InEntry { name: Vec<u8>, depth: usize },
    /// Inside the headword element `name`, `depth` nested elements of the
    /// same name deep, with the text gathered so far.
    InRegion { name: Vec<u8>, depth: usize, acc: Vec<char> },
    /// The scan is over; the headword found (possibly empty).
    Found { headword: Vec<char> },
    /// The scan is over; the document could not be read.
    Failed { message: Vec<char> },
}

/// The mathematical model of a `ScanState`.
pub enum Scan {
    Searching,
    InEntry { name: Seq<u8>, depth: nat },
    InRegion { name: Seq<u8>, depth: nat, acc: Seq<char> },
    Found(Seq<char>),
    Failed(Seq<char>),
}

impl View for ScanState {
    type V = Scan;

    open spec fn view(&self) -> Scan {
        match self {
            ScanState::Searching => Scan::Searching,
            ScanState::InEntry { name, depth } => Scan::InEntry { name: name@, depth: *depth as nat },
            ScanState::InRegion { name, depth, acc } => Scan::InRegion { name: name@, depth: *depth as nat, acc: acc@ },
            ScanState::Found { headword } => Scan::Found(headword@),
            ScanState::Failed { message } => Scan::Failed(message@),
        }
    }
}

pub open spec fn class_key() -> Seq<u8> {
    seq![99u8, 108u8, 97u8, 115u8, 115u8]
}

pub open spec fn entry_class() -> Seq<u8> {
    seq![101u8, 110u8, 116u8, 114u8, 121u8]
}

/// Whether one of the attributes is a `class` attribute with value `v`.
pub open spec fn has_class(attrs: Seq<Option<(Seq<u8>, Seq<u8>)>>, v: Seq<u8>) -> bool {
    exists|i: int| 0 <= i < attrs.len() && #[trigger] attrs[i] == Some((class_key(), v))
}

/// A start tag marks the headword when its name, or the value of one of its
/// `class` attributes, is the configured tag.
pub open spec fn start_matches(name: Seq<u8>, attrs: Seq<Option<(Seq<u8>, Seq<u8>)>>, tag: Seq<u8>) -> bool {
    name == tag || has_class(attrs, tag)
}

/// `acc` with the trimmed `piece` added, separated by one space.
pub open spec fn add_piece(acc: Seq<char>, piece: Seq<char>) -> Seq<char> {
    if piece.len() == 0 {
        acc
    } else if acc.len() == 0 {
        piece
    } else {
        acc + seq![' '] + piece
    }
}

pub open spec fn nesting_error() -> Seq<char> {
    seq!['n', 'e', 's', 't', 'i', 'n', 'g', ' ', 't', 'o', 'o', ' ', 'd', 'e', 'e', 'p']
}

pub open spec fn is_finished(s: Scan) -> bool {
    s is Found || s is Failed
}

/// The transition on decoded character data (or on a decoding error).
pub open spec fn text_step(s: Scan, t: Result<Seq<char>, Seq<char>>, p: HeadwordPolicy) -> Scan {
    match s {
        Scan::InRegion { name, depth, acc } => match t {
            Ok(x) => match p {
                HeadwordPolicy::FirstWord => if first_word(x).len() > 0 {
                    Scan::Found(first_word(x))
                } else {
                    s
                },
                HeadwordPolicy::WholeText => Scan::InRegion { name, depth, acc: add_piece(acc, trim(x)) },
            },
            Err(m) => Scan::Failed(m),
        },
        _ => s,
    }
}

/// One transition of the scanner.
pub open spec fn step(s: Scan, t: Token, tag: Seq<u8>, p: HeadwordPolicy, sc: MatchScope) -> Scan {
    match s {
        Scan::Searching => match t {
            Token::Start(n, a) => if sc is WithinEntry {
                if has_class(a, entry_class()) {
                    Scan::InEntry { name: n, depth: 0 }
                } else {
                    s
                }
            } else if start_matches(n, a, tag) {
                Scan::InRegion { name: n, depth: 0, acc: Seq::empty() }
            } else {
                s
            },
            Token::Eof => Scan::Found(Seq::empty()),
            Token::Malformed(m) => Scan::Failed(m),
            _ => s,
        },
        Scan::InEntry { name, depth } => match t {
            Token::Start(n, a) => if start_matches(n, a, tag) {
                Scan::InRegion { name: n, depth: 0, acc: Seq::empty() }
            } else if n == name {
                if depth + 1 > usize::MAX {
                    Scan::Failed(nesting_error())
                } else {
                    Scan::InEntry { name, depth: depth + 1 }
                }
            } else {
                s
            },
            Token::End(n) => if n == name {
                if depth == 0 {
                    Scan::Searching
                } else {
                    Scan::InEntry { name, depth: (depth - 1) as nat }
                }
            } else {
                s
            },
            Token::Eof => Scan::Found(Seq::empty()),
            Token::Malformed(m) => Scan::Failed(m),
            _ => s,
        },
        Scan::InRegion { name, depth, acc } => match t {
            Token::Start(n, a) => if n == name {
                if depth + 1 > usize::MAX {
                    Scan::Failed(nesting_error())
                } else {
                    Scan::InRegion { name, depth: depth + 1, acc }
                }
            } else {
                s
            },
            Token::End(n) => if n == name {
                if depth == 0 {
                    Scan::Found(acc)
                } else {
                    Scan::InRegion { name, depth: (depth - 1) as nat, acc }
                }
            } else {
                s
            },
            Token::Text(raw) => text_step(s, unescaped(raw), p),
            Token::Other => s,
            Token::Eof => Scan::Found(acc),
            Token::Malformed(m) => Scan::Failed(m),
        },
        _ => s,
    }
}

/// The scanner's state after the tokens `ts`, from state `s`.
pub open spec fn run(s: Scan, ts: Seq<Token>, tag: Seq<u8>, p: HeadwordPolicy, sc: MatchScope) -> Scan
    decreases ts.len(),
{
    if ts.len() == 0 {
        s
    } else {
        step(run(s, ts.drop_last(), tag, p, sc), ts.last(), tag, p, sc)
    }
}

/// The outcome of scanning a whole token stream.
pub open spec fn scan_result(ts: Seq<Token>, tag: Seq<u8>, p: HeadwordPolicy, sc: MatchScope) -> Scan {
    run(Scan::Searching, ts, tag, p, sc)
}

/// The scan of a document.
pub open spec fn document_scan(doc: Seq<char>, tag: Seq<u8>, p: HeadwordPolicy, sc: MatchScope) -> Scan {
    scan_result(xml_tokens(doc), tag, p, sc)
}

pub proof fn lemma_run_concat(s: Scan, a: Seq<Token>, b: Seq<Token>, tag: Seq<u8>, p: HeadwordPolicy, sc: MatchScope)
    ensures
        run(s, a + b, tag, p, sc) == run(run(s, a, tag, p, sc), b, tag, p, sc),
    decreases b.len(),
{
    if b.len() == 0 {
        assert(a + b =~= a);
    } else {
        assert((a + b).drop_last() =~= a + b.drop_last());
        lemma_run_concat(s, a, b.drop_last(), tag, p, sc);
    }
}

/// Once finished, the scanner stays where it is.
pub proof fn lemma_finished_stays(s: Scan, ts: Seq<Token>, tag: Seq<u8>, p: HeadwordPolicy, sc: MatchScope)
    requires
        is_finished(s),
    ensures
        run(s, ts, tag, p, sc) == s,
    decreases ts.len(),
{
    if ts.len() > 0 {
        lemma_finished_stays(s, ts.drop_last(), tag, p, sc);
    }
}

fn bytes_eq(a: &Vec<u8>, b: &Vec<u8>) -> (r: bool)
    ensures
        r == (a@ == b@),
{
    if a.len() != b.len() {
        return false;
    }
    let mut i: usize = 0;
    while i < a.len()
        invariant
            a@.len() == b@.len(),
            i <= a@.len(),
            forall|j: int| 0 <= j < i ==> a@[j] == b@[j],
        decreases a@.len() - i,
    {
        if a[i] != b[i] {
            return false;
        }
        i = i + 1;
    }
    assert(a@ =~= b@);
    true
}

fn is_class_key(k: &Vec<u8>) -> (r: bool)
    ensures
        r == (k@ == class_key()),
{
    let r = k.len() == 5 && k[0] == 99u8 && k[1] == 108u8 && k[2] == 97u8 && k[3] == 115u8 && k[4] == 115u8;
    if r {
        assert(k@ =~= class_key());
    }
    r
}

/// Whether one of the attributes is a `class` attribute with value `v`.
pub fn has_class_attr(attrs: &Vec<Option<XmlAttr>>, v: &Vec<u8>) -> (r: bool)
    ensures
        r == has_class(attrs@.map_values(|a| crate::xml::attr_view(a)), v@),
{
    let ghost av = attrs@.map_values(|a| crate::xml::attr_view(a));
    let mut i: usize = 0;
    while i < attrs.len()
        invariant
            i <= attrs@.len(),
            av == attrs@.map_values(|a| crate::xml::attr_view(a)),
            forall|j: int| 0 <= j < i ==> av[j] != Some((class_key(), v@)),
        decreases attrs@.len() - i,
    {
        match &attrs[i] {
            Some(a) => {
                if is_class_key(&a.key) && bytes_eq(&a.value, v) {
                    assert(av[i as int] == Some((class_key(), v@)));
                    return true;
                }
            },
            None => {},
        }
        i = i + 1;
    }
    false
}

/// Whether a start tag marks the headword.
pub fn matches_tag(name: &Vec<u8>, attrs: &Vec<Option<XmlAttr>>, tag: &Vec<u8>) -> (r: bool)
    ensures
        r == start_matches(name@, attrs@.map_values(|a| crate::xml::attr_view(a)), tag@),
{
    bytes_eq(name, tag) || has_class_attr(attrs, tag)
}

fn entry_class_bytes() -> (r: Vec<u8>)
    ensures
        r@ == entry_class(),
{
    let r = vec![101u8, 110u8, 116u8, 114u8, 121u8];
    assert(r@ =~= entry_class());
    r
}

impl ScanState {
    pub fn new() -> (r: ScanState)
        ensures
            r@ == Scan::Searching,
    {
        ScanState::Searching
    }

    pub fn finished(&self) -> (r: bool)
        ensures
            r == is_finished(self@),
    {
        match self {
            ScanState::Found { .. } => true,
            ScanState::Failed { .. } => true,
            _ => false,
        }
    }

    /// Feeds one event to the scanner.
    pub fn feed(&mut self, ev: &XmlEvent, cfg: &Config)
        ensures
            final(self)@ == step(old(self)@, ev@, cfg.tag@, cfg.headword, cfg.scope),
    {
        let mut cur = ScanState::Searching;
        std::mem::swap(self, &mut cur);
        let next = match cur {
            ScanState::Searching => match ev {
                XmlEvent::Start { name, attrs } => match cfg.scope {
                    MatchScope::WithinEntry => if has_class_attr(attrs, &entry_class_bytes()) {
                        ScanState::InEntry { name: name.clone(), depth: 0 }
                    } else {
                        ScanState::Searching
                    },
                    MatchScope::Anywhere => if matches_tag(name, attrs, &cfg.tag) {
                        ScanState::InRegion { name: name.clone(), depth: 0, acc: Vec::new() }
                    } else {
                        ScanState::Searching
                    },
                },
                XmlEvent::Eof => ScanState::Found { headword: Vec::new() },
                XmlEvent::Malformed { message } => ScanState::Failed { message: chars_of(message.as_str()) },
                _ => ScanState::Searching,
            },
            ScanState::InEntry { name, depth } => match ev {
                XmlEvent::Start { name: n, attrs } => if matches_tag(n, attrs, &cfg.tag) {
                    ScanState::InRegion { name: n.clone(), depth: 0, acc: Vec::new() }
                } else if bytes_eq(n, &name) {
                    if depth == usize::MAX {
                        let message = vec!['n', 'e', 's', 't', 'i', 'n', 'g', ' ', 't', 'o', 'o', ' ', 'd', 'e', 'e', 'p'];
                        assert(message@ =~= nesting_error());
                        ScanState::Failed { message }
                    } else {
                        ScanState::InEntry { name, depth: depth + 1 }
                    }
                } else {
                    ScanState::InEntry { name, depth }
                },
                XmlEvent::End { name: n } => if bytes_eq(n, &name) {
                    if depth == 0 {
                        ScanState::Searching
                    } else {
                        ScanState::InEntry { name, depth: depth - 1 }
                    }
                } else {
                    ScanState::InEntry { name, depth }
                },
                XmlEvent::Eof => ScanState::Found { headword: Vec::new() },
                XmlEvent::Malformed { message } => ScanState::Failed { message: chars_of(message.as_str()) },
                _ => ScanState::InEntry { name, depth },
            },
            ScanState::InRegion { name, depth, acc } => match ev {
                XmlEvent::Start { name: n, .. } => if bytes_eq(n, &name) {
                    if depth == usize::MAX {
                        let message = vec!['n', 'e', 's', 't', 'i', 'n', 'g', ' ', 't', 'o', 'o', ' ', 'd', 'e', 'e', 'p'];
                        assert(message@ =~= nesting_error());
                        ScanState::Failed { message }
                    } else {
                        ScanState::InRegion { name, depth: depth + 1, acc }
                    }
                } else {
                    ScanState::InRegion { name, depth, acc }
                },
                XmlEvent::End { name: n } => if bytes_eq(n, &name) {
                    if depth == 0 {
                        ScanState::Found { headword: acc }
                    } else {
                        ScanState::InRegion { name, depth: depth - 1, acc }
                    }
                } else {
                    ScanState::InRegion { name, depth, acc }
                },
                XmlEvent::Text { raw } => {
                    let decoded = unescape_text(raw);
                    let mut st = ScanState::InRegion { name, depth, acc };
                    st.feed_text(&decoded, cfg);
                    st
                },
                XmlEvent::Other => ScanState::InRegion { name, depth, acc },
                XmlEvent::Eof => ScanState::Found { headword: acc },
                XmlEvent::Malformed { message } => ScanState::Failed { message: chars_of(message.as_str()) },
            },
            other => other,
        };
        *self = next;
    }
}

impl ScanState {
    /// Feeds decoded character data, or the error met decoding it.
    pub fn feed_text(&mut self, text: &Result<String, String>, cfg: &Config)
        ensures
            final(self)@ == text_step(old(self)@, text_view(*text), cfg.headword),
    {
        let mut cur = ScanState::Searching;
        std::mem::swap(self, &mut cur);
        let next = match cur {
            ScanState::InRegion { name, depth, acc } => match text {
                Ok(t) => {
                    let chars = chars_of(t.as_str());
                    match cfg.headword {
                        HeadwordPolicy::FirstWord => {
                            let w = first_word_chars(&chars);
                            if w.len() > 0 {
                                ScanState::Found { headword: w }
                            } else {
                                ScanState::InRegion { name, depth, acc }
                            }
                        },
                        HeadwordPolicy::WholeText => {
                            let piece = trim_chars(&chars);
                            let acc2 = add_piece_chars(acc, &piece);
                            ScanState::InRegion { name, depth, acc: acc2 }
                        },
                    }
                },
                Err(m) => ScanState::Failed { message: chars_of(m.as_str()) },
            },
            other => other,
        };
        *self = next;
    }
}

fn add_piece_chars(acc: Vec<char>, piece: &Vec<char>) -> (r: Vec<char>)
    ensures
        r@ == add_piece(acc@, piece@),
{
    if piece.len() == 0 {
        return acc;
    }
    let mut r = acc;
    if r.len() > 0 {
        r.push(' ');
    }
    let ghost start = r@;
    let mut i: usize = 0;
    while i < piece.len()
        invariant
            i <= piece@.len(),
            r@ =~= start + piece@.subrange(0, i as int),
        decreases piece@.len() - i,
    {
        r.push(piece[i]);
        i = i + 1;
    }
    assert(piece@.subrange(0, piece@.len() as int) =~= piece@);
    r
}

/// Scans a sequence of events from the start.
pub fn scan_events(events: &Vec<XmlEvent>, cfg: &Config) -> (r: ScanState)
    ensures
        r@ == run(Scan::Searching, events@.map_values(|e: XmlEvent| e@), cfg.tag@, cfg.headword, cfg.scope),
{
    let ghost ts = events@.map_values(|e: XmlEvent| e@);
    let mut st = ScanState::new();
    let mut i: usize = 0;
    while i < events.len()
        invariant
            i <= events@.len(),
            ts == events@.map_values(|e: XmlEvent| e@),
            st@ == run(Scan::Searching, ts.subrange(0, i as int), cfg.tag@, cfg.headword, cfg.scope),
        decreases events@.len() - i,
    {
        assert(ts.subrange(0, i + 1).drop_last() =~= ts.subrange(0, i as int));
        st.feed(&events[i], cfg);
        i = i + 1;
    }
    assert(ts.subrange(0, events@.len() as int) =~= ts);
    st
}

/// Scans a document for its headword, reading its events one at a time and
/// stopping as soon as the scan is over.
pub fn scan_document(doc: &str, cfg: &Config) -> (r: ScanState)
    ensures
        r@ == document_scan(doc@, cfg.tag@, cfg.headword, cfg.scope),
        is_finished(r@),
{
    let mut reader = open_reader(doc);
    let ghost ts = pending_tokens(reader);
    let mut st = ScanState::new();
    let ghost mut k: int = 0;
    while !st.finished()
        invariant
            0 <= k <= ts.len(),
            token_stream_ok(ts),
            ts == xml_tokens(doc@),
            pending_tokens(reader) == ts.subrange(k, ts.len() as int),
            st@ == run(Scan::Searching, ts.subrange(0, k), cfg.tag@, cfg.headword, cfg.scope),
            k == ts.len() ==> is_finished(st@),
        decreases ts.len() - k,
    {
        let ev = next_event(&mut reader);
        proof {
            assert(ts.subrange(0, k + 1).drop_last() =~= ts.subrange(0, k));
            assert(ts.subrange(k, ts.len() as int).drop_first() =~= ts.subrange(k + 1, ts.len() as int));
        }
        st.feed(&ev, cfg);
        proof {
            if k + 1 == ts.len() {
                assert(is_last_token(ts[k]));
            }
            k = k + 1;
        }
    }
    proof {
        let rest = ts.subrange(k, ts.len() as int);
        lemma_finished_stays(st@, rest, cfg.tag@, cfg.headword, cfg.scope);
        lemma_run_concat(Scan::Searching, ts.subrange(0, k), rest, cfg.tag@, cfg.headword, cfg.scope);
        assert(ts.subrange(0, k) + rest =~= ts);
    }
    st
}

} // verus!
