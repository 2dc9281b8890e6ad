//! Per-file outcomes, the parallel fan-out over files, and the output
//! dictionary text.
use crate::scan::{document_scan, scan_document, Config, ContentPolicy, HeadwordPolicy, MatchScope, Scan, ScanState};
use crate::text::{chars_of, content_of, document_content};
use rayon::iter::{IntoParallelRefIterator, ParallelIterator};
use vstd::prelude::*;

verus! {

/// The run settings as mathematical values.
pub struct Settings {
    pub tag: Seq<u8>,
    pub headword: HeadwordPolicy,
    pub content: ContentPolicy,
    pub scope: MatchScope,
}

impl View for Config {
    type V = Settings;

    open spec fn view(&self) -> Settings {
        Settings { tag: self.tag@, headword: self.headword, content: self.content, scope: self.scope }
    }
}

/// One extracted dictionary entry.
pub struct Entry {
    pub headword: String,
    pub content: String,
}

/// What became of one input file.
pub enum FileOutcome {
    /// A headword was found: the entry goes to the output.
    Extracted(Entry),
    /// No non-empty headword was found.
    Skipped,
    /// The file could not be read or parsed; the message says why.
    Failed(String),
}

/// The mathematical model of a `FileOutcome`.
pub enum Outcome {
    Extracted(Seq<char>, Seq<char>),
    Skipped,
    Failed(Seq<char>),
}

impl View for FileOutcome {
    type V = Outcome;

    open spec fn view(&self) -> Outcome {
        match self {
            FileOutcome::Extracted(e) => Outcome::Extracted(e.headword@, e.content@),
            FileOutcome::Skipped => Outcome::Skipped,
            FileOutcome::Failed(m) => Outcome::Failed(m@),
        }
    }
}

pub open spec fn separator(p: ContentPolicy) -> Seq<char> {
    match p {
        ContentPolicy::SingleLine => Seq::empty(),
        ContentPolicy::KeepNewlines => seq!['\n'],
    }
}

/// The outcome for a document, given the result of its scan.
pub open spec fn outcome_from(scan: Scan, doc: Seq<char>, s: Settings) -> Outcome {
    match scan {
        Scan::Found(h) => if h.len() > 0 {
            Outcome::Extracted(h, content_of(doc, separator(s.content)))
        } else {
            Outcome::Skipped
        },
        Scan::Failed(m) => Outcome::Failed(m),
        _ => Outcome::Skipped,
    }
}

/// The outcome for a document.
pub open spec fn document_outcome(doc: Seq<char>, s: Settings) -> Outcome {
    outcome_from(document_scan(doc, s.tag, s.headword, s.scope), doc, s)
}

/// The model of one input: the file's text, or why it could not be read.
pub open spec fn input_view(x: Result<String, String>) -> Result<Seq<char>, Seq<char>> {
    match x {
        Ok(d) => Ok(d@),
        Err(m) => Err(m@),
    }
}

/// The outcome for one input.
pub open spec fn input_outcome(x: Result<Seq<char>, Seq<char>>, s: Settings) -> Outcome {
    match x {
        Ok(d) => document_outcome(d, s),
        Err(m) => Outcome::Failed(m),
    }
}

/// The outcomes for inputs in their order.
pub open spec fn outcomes(xs: Seq<Result<Seq<char>, Seq<char>>>, s: Settings) -> Seq<Outcome> {
    xs.map_values(|x| input_outcome(x, s))
}

/// The entries that go to the output, in order.
pub open spec fn records(os: Seq<Outcome>) -> Seq<(Seq<char>, Seq<char>)>
    decreases os.len(),
{
    if os.len() == 0 {
        Seq::empty()
    } else {
        match os.last() {
            Outcome::Extracted(h, c) => records(os.drop_last()).push((h, c)),
            _ => records(os.drop_last()),
        }
    }
}

pub open spec fn terminator() -> Seq<char> {
    seq!['<', '/', '>']
}

/// The three lines of one record.
pub open spec fn record_text(r: (Seq<char>, Seq<char>)) -> Seq<char> {
    r.0 + seq!['\n'] + r.1 + seq!['\n'] + terminator() + seq!['\n']
}

/// The output text: the records one after another.
pub open spec fn join_records(rs: Seq<(Seq<char>, Seq<char>)>) -> Seq<char>
    decreases rs.len(),
{
    if rs.len() == 0 {
        Seq::empty()
    } else {
        join_records(rs.drop_last()) + record_text(rs.last())
    }
}

/// The output text for the inputs.
pub open spec fn dictionary_text(xs: Seq<Result<Seq<char>, Seq<char>>>, s: Settings) -> Seq<char> {
    join_records(records(outcomes(xs, s)))
}

/// Relies on `String::from_iter` over characters: the string of those characters.
#[verifier::external_body]
fn string_of(v: &Vec<char>) -> (r: String)
    ensures
        r@ == v@,
{
    v.iter().collect()
}

/// The outcome for a document whose scan ended in `scan`.
pub fn outcome_of_scan(scan: ScanState, doc: &str, cfg: &Config) -> (r: FileOutcome)
    ensures
        r@ == outcome_from(scan@, doc@, cfg@),
{
    match scan {
        ScanState::Found { headword } => if headword.len() > 0 {
            let chars = chars_of(doc);
            let keep = match cfg.content {
                ContentPolicy::SingleLine => false,
                ContentPolicy::KeepNewlines => true,
            };
            let content = document_content(&chars, keep);
            assert(separator(cfg.content) == (if keep { seq!['\n'] } else { Seq::<char>::empty() }));
            FileOutcome::Extracted(Entry { headword: string_of(&headword), content: string_of(&content) })
        } else {
            FileOutcome::Skipped
        },
        ScanState::Failed { message } => FileOutcome::Failed(string_of(&message)),
        _ => FileOutcome::Skipped,
    }
}

/// Extracts the entry of one document.
pub fn process_document(doc: &str, cfg: &Config) -> (r: FileOutcome)
    ensures
        r@ == document_outcome(doc@, cfg@),
{
    let scan = scan_document(doc, cfg);
    outcome_of_scan(scan, doc, cfg)
}

/// The outcome for one input: its text, or the reason it could not be read.
pub fn process_input(input: &Result<String, String>, cfg: &Config) -> (r: FileOutcome)
    ensures
        r@ == input_outcome(input_view(*input), cfg@),
{
    match input {
        Ok(doc) => process_document(doc.as_str(), cfg),
        Err(m) => FileOutcome::Failed(m.clone()),
    }
}

/// Relies on rayon's indexed `par_iter().map(..).collect()` into a `Vec`:
/// every input is mapped exactly once and the results keep the input order,
/// whichever worker finishes first.
#[verifier::external_body]
fn par_process(inputs: &Vec<Result<String, String>>, cfg: &Config) -> (r: Vec<FileOutcome>)
    ensures
        r@.len() == inputs@.len(),
        forall|i: int| 0 <= i < inputs@.len() ==> #[trigger] r@[i]@ == input_outcome(input_view(inputs@[i]), cfg@),
{
    inputs.par_iter().map(|x| process_input(x, cfg)).collect()
}

/// The outcomes for all inputs, computed in parallel, in input order.
pub fn process_all(inputs: &Vec<Result<String, String>>, cfg: &Config) -> (r: Vec<FileOutcome>)
    ensures
        r@.map_values(|o: FileOutcome| o@) == outcomes(inputs@.map_values(|x: Result<String, String>| input_view(x)), cfg@),
{
    let r = par_process(inputs, cfg);
    assert(r@.map_values(|o: FileOutcome| o@) =~= outcomes(inputs@.map_values(|x: Result<String, String>| input_view(x)), cfg@));
    r
}

/// The dictionary text for the outcomes, in their order.
pub fn render(os: &Vec<FileOutcome>) -> (r: String)
    ensures
        r@ == join_records(records(os@.map_values(|o: FileOutcome| o@))),
{
    let ghost ov = os@.map_values(|o: FileOutcome| o@);
    let mut out = String::new();
    let mut i: usize = 0;
    proof {
        reveal_strlit("\n");
        reveal_strlit("</>");
        assert(out@ =~= join_records(records(ov.subrange(0, 0))));
    }
    while i < os.len()
        invariant
            i <= os@.len(),
            ov == os@.map_values(|o: FileOutcome| o@),
            out@ == join_records(records(ov.subrange(0, i as int))),
        decreases os@.len() - i,
    {
        proof {
            reveal_strlit("\n");
            reveal_strlit("</>");
            assert(ov.subrange(0, i + 1).drop_last() =~= ov.subrange(0, i as int));
        }
        match &os[i] {
            FileOutcome::Extracted(e) => {
                let ghost before = out@;
                out.append(e.headword.as_str());
                out.append("\n");
                out.append(e.content.as_str());
                out.append("\n");
                out.append("</>");
                out.append("\n");
                let ghost rs = records(ov.subrange(0, i as int));
                assert(records(ov.subrange(0, i + 1)) == rs.push((e.headword@, e.content@)));
                assert(rs.push((e.headword@, e.content@)).drop_last() =~= rs);
                assert(out@ =~= before + record_text((e.headword@, e.content@)));
            },
            _ => {},
        }
        i = i + 1;
    }
    assert(ov.subrange(0, os@.len() as int) =~= ov);
    out
}

} // verus!
