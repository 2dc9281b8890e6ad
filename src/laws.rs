//! Properties of the pipeline as a whole, proved over the models of its parts.
use crate::pipeline::{dictionary_text, input_outcome, join_records, outcomes, records, Outcome, Settings};
use crate::scan::{class_key, is_finished, lemma_finished_stays, lemma_run_concat, run, scan_result, start_matches, step, HeadwordPolicy, MatchScope, Scan};
use crate::xml::{unescaped, Token};
use vstd::prelude::*;

verus! {

pub open spec fn count_extracted(os: Seq<Outcome>) -> nat
    decreases os.len(),
{
    if os.len() == 0 {
        0
    } else {
        count_extracted(os.drop_last()) + if os.last() is Extracted { 1nat } else { 0nat }
    }
}

pub open spec fn count_skipped(os: Seq<Outcome>) -> nat
    decreases os.len(),
{
    if os.len() == 0 {
        0
    } else {
        count_skipped(os.drop_last()) + if os.last() is Skipped { 1nat } else { 0nat }
    }
}

pub open spec fn count_failed(os: Seq<Outcome>) -> nat
    decreases os.len(),
{
    if os.len() == 0 {
        0
    } else {
        count_failed(os.drop_last()) + if os.last() is Failed { 1nat } else { 0nat }
    }
}

/// Whether an input is a readable document with a non-empty headword.
pub open spec fn has_headword(x: Result<Seq<char>, Seq<char>>, s: Settings) -> bool {
    input_outcome(x, s) is Extracted
}

/// The number of inputs that are readable documents with a non-empty headword.
pub open spec fn count_with_headword(xs: Seq<Result<Seq<char>, Seq<char>>>, s: Settings) -> nat
    decreases xs.len(),
{
    if xs.len() == 0 {
        0
    } else {
        count_with_headword(xs.drop_last(), s) + if has_headword(xs.last(), s) { 1nat } else { 0nat }
    }
}

/// The output holds one record for each input with a non-empty headword,
/// no more and no fewer.
pub proof fn lemma_one_record_per_headword(xs: Seq<Result<Seq<char>, Seq<char>>>, s: Settings)
    ensures
        records(outcomes(xs, s)).len() == count_with_headword(xs, s),
    decreases xs.len(),
{
    if xs.len() > 0 {
        assert(outcomes(xs, s).drop_last() =~= outcomes(xs.drop_last(), s));
        lemma_one_record_per_headword(xs.drop_last(), s);
    }
}

/// Every outcome is extracted, skipped or failed, and the records written
/// are the outcomes that neither failed nor were skipped.
pub proof fn lemma_outcome_counts(os: Seq<Outcome>)
    ensures
        count_extracted(os) + count_skipped(os) + count_failed(os) == os.len(),
        records(os).len() == os.len() - count_failed(os) - count_skipped(os),
    decreases os.len(),
{
    if os.len() > 0 {
        lemma_outcome_counts(os.drop_last());
    }
}

proof fn lemma_records_concat(a: Seq<Outcome>, b: Seq<Outcome>)
    ensures
        records(a + b) == records(a) + records(b),
    decreases b.len(),
{
    if b.len() == 0 {
        assert(a + b =~= a);
        assert(records(a) + records(b) =~= records(a));
    } else {
        assert((a + b).drop_last() =~= a + b.drop_last());
        lemma_records_concat(a, b.drop_last());
        match b.last() {
            Outcome::Extracted(h, c) => {
                assert(records(a) + records(b.drop_last()).push((h, c)) =~= (records(a) + records(b.drop_last())).push((h, c)));
            },
            _ => {},
        }
    }
}

proof fn lemma_join_concat(a: Seq<(Seq<char>, Seq<char>)>, b: Seq<(Seq<char>, Seq<char>)>)
    ensures
        join_records(a + b) == join_records(a) + join_records(b),
    decreases b.len(),
{
    if b.len() == 0 {
        assert(a + b =~= a);
        assert(join_records(a) + join_records(b) =~= join_records(a));
    } else {
        assert((a + b).drop_last() =~= a + b.drop_last());
        lemma_join_concat(a, b.drop_last());
        assert(join_records(a) + join_records(b.drop_last()) + crate::pipeline::record_text(b.last())
            =~= join_records(a) + (join_records(b.drop_last()) + crate::pipeline::record_text(b.last())));
    }
}

/// The output follows the order in which the inputs were found: the text
/// for inputs found one after another is the text for the first ones
/// followed by the text for the rest.
pub proof fn lemma_output_in_input_order(
    a: Seq<Result<Seq<char>, Seq<char>>>,
    b: Seq<Result<Seq<char>, Seq<char>>>,
    s: Settings,
)
    ensures
        dictionary_text(a + b, s) == dictionary_text(a, s) + dictionary_text(b, s),
{
    assert(outcomes(a + b, s) =~= outcomes(a, s) + outcomes(b, s));
    lemma_records_concat(outcomes(a, s), outcomes(b, s));
    lemma_join_concat(records(outcomes(a, s)), records(outcomes(b, s)));
}

/// Running the pipeline twice over the same inputs gives the same text.
pub proof fn lemma_same_inputs_same_output(
    a: Seq<Result<Seq<char>, Seq<char>>>,
    b: Seq<Result<Seq<char>, Seq<char>>>,
    s: Settings,
)
    requires
        a == b,
    ensures
        dictionary_text(a, s) == dictionary_text(b, s),
{
}

/// A stream with no start tag that marks the headword and no read error
/// ends without a headword.
pub proof fn lemma_no_match_no_headword(ts: Seq<Token>, tag: Seq<u8>, p: HeadwordPolicy, sc: MatchScope)
    requires
        ts.len() <= usize::MAX,
        forall|i: int| 0 <= i < ts.len() ==> match #[trigger] ts[i] {
            Token::Start(n, a) => !start_matches(n, a, tag),
            Token::Malformed(_) => false,
            _ => true,
        },
    ensures
        match scan_result(ts, tag, p, sc) {
            Scan::Searching => true,
            Scan::InEntry { depth, .. } => depth < ts.len(),
            Scan::Found(h) => h == Seq::<char>::empty(),
            _ => false,
        },
    decreases ts.len(),
{
    if ts.len() > 0 {
        let init = ts.drop_last();
        assert forall|i: int| 0 <= i < init.len() implies match #[trigger] init[i] {
            Token::Start(n, a) => !start_matches(n, a, tag),
            Token::Malformed(_) => false,
            _ => true,
        } by {
            assert(init[i] == ts[i]);
        }
        lemma_no_match_no_headword(init, tag, p, sc);
        assert(match ts[ts.len() - 1] {
            Token::Start(n, a) => !start_matches(n, a, tag),
            Token::Malformed(_) => false,
            _ => true,
        });
    }
}

/// So a document with no marking element and no read error is skipped.
pub proof fn lemma_no_match_skipped(doc: Seq<char>, s: Settings)
    requires
        crate::xml::xml_tokens(doc).len() <= usize::MAX,
        forall|i: int| 0 <= i < crate::xml::xml_tokens(doc).len() ==> match #[trigger] crate::xml::xml_tokens(doc)[i] {
            Token::Start(n, a) => !start_matches(n, a, s.tag),
            Token::Malformed(_) => false,
            _ => true,
        },
    ensures
        crate::pipeline::document_outcome(doc, s) == Outcome::Skipped,
{
    lemma_no_match_no_headword(crate::xml::xml_tokens(doc), s.tag, s.headword, s.scope);
}

/// The two scans agree: finished in the same state, or inside the headword
/// element at the outer level with the same text, one element named `m1`,
/// the other `m2`.
pub open spec fn scans_agree(s1: Scan, s2: Scan, m1: Seq<u8>, m2: Seq<u8>) -> bool {
    (is_finished(s1) && s1 == s2) || exists|acc: Seq<char>|
        s1 == Scan::InRegion { name: m1, depth: 0, acc } && s2 == Scan::InRegion { name: m2, depth: 0, acc }
}

/// A token that neither opens nor closes an element named `m1` or `m2`.
pub open spec fn avoids_names(t: Token, m1: Seq<u8>, m2: Seq<u8>) -> bool {
    match t {
        Token::Start(n, _) => n != m1 && n != m2,
        Token::End(n) => n != m1 && n != m2,
        _ => true,
    }
}

proof fn lemma_agree_through_body(body: Seq<Token>, m1: Seq<u8>, m2: Seq<u8>, tag: Seq<u8>, p: HeadwordPolicy, sc: MatchScope)
    requires
        forall|i: int| 0 <= i < body.len() ==> avoids_names(#[trigger] body[i], m1, m2),
    ensures
        scans_agree(
            run(Scan::InRegion { name: m1, depth: 0, acc: Seq::empty() }, body, tag, p, sc),
            run(Scan::InRegion { name: m2, depth: 0, acc: Seq::empty() }, body, tag, p, sc),
            m1,
            m2,
        ),
    decreases body.len(),
{
    let s1 = Scan::InRegion { name: m1, depth: 0, acc: Seq::<char>::empty() };
    let s2 = Scan::InRegion { name: m2, depth: 0, acc: Seq::<char>::empty() };
    if body.len() == 0 {
        assert(scans_agree(s1, s2, m1, m2));
    } else {
        let init = body.drop_last();
        assert forall|i: int| 0 <= i < init.len() implies avoids_names(#[trigger] init[i], m1, m2) by {
            assert(init[i] == body[i]);
        }
        lemma_agree_through_body(init, m1, m2, tag, p, sc);
        let a = run(s1, init, tag, p, sc);
        let b = run(s2, init, tag, p, sc);
        let t = body.last();
        assert(avoids_names(body[body.len() - 1], m1, m2));
        if !is_finished(a) {
            let acc = choose|acc: Seq<char>|
                a == Scan::InRegion { name: m1, depth: 0, acc } && b == Scan::InRegion { name: m2, depth: 0, acc };
            match t {
                Token::Text(raw) => {
                    match unescaped(raw) {
                        Ok(x) => {
                            let acc2 = crate::scan::add_piece(acc, crate::text::trim(x));
                            match p {
                                HeadwordPolicy::WholeText => {
                                    assert(step(a, t, tag, p, sc) == Scan::InRegion { name: m1, depth: 0, acc: acc2 });
                                    assert(step(b, t, tag, p, sc) == Scan::InRegion { name: m2, depth: 0, acc: acc2 });
                                },
                                HeadwordPolicy::FirstWord => {
                                    if crate::text::first_word(x).len() == 0 {
                                        assert(step(a, t, tag, p, sc) == a);
                                        assert(step(b, t, tag, p, sc) == b);
                                    }
                                },
                            }
                        },
                        Err(_) => {},
                    }
                },
                _ => {},
            }
        }
    }
}

/// A start tag that marks the headword by its name and one that marks it by
/// its `class` attribute lead to the same scan result, when the element's
/// body neither opens nor closes an element of either name, and the tag
/// stands where a headword may be found (anywhere, or inside an entry).
pub proof fn lemma_class_match_as_name_match(
    pre: Seq<Token>,
    body: Seq<Token>,
    post: Seq<Token>,
    tag: Seq<u8>,
    other: Seq<u8>,
    a1: Seq<Option<(Seq<u8>, Seq<u8>)>>,
    a2: Seq<Option<(Seq<u8>, Seq<u8>)>>,
    p: HeadwordPolicy,
    sc: MatchScope,
)
    requires
        a2.contains(Some((class_key(), tag))),
        (sc is Anywhere && run(Scan::Searching, pre, tag, p, sc) == Scan::Searching)
            || run(Scan::Searching, pre, tag, p, sc) is InEntry,
        forall|i: int| 0 <= i < body.len() ==> avoids_names(#[trigger] body[i], tag, other),
    ensures
        scan_result(pre + seq![Token::Start(tag, a1)] + body + seq![Token::End(tag)] + post, tag, p, sc)
            == scan_result(pre + seq![Token::Start(other, a2)] + body + seq![Token::End(other)] + post, tag, p, sc),
{
    let s1 = Scan::InRegion { name: tag, depth: 0, acc: Seq::<char>::empty() };
    let s2 = Scan::InRegion { name: other, depth: 0, acc: Seq::<char>::empty() };
    let o1 = seq![Token::Start(tag, a1)];
    let o2 = seq![Token::Start(other, a2)];
    let c1 = seq![Token::End(tag)];
    let c2 = seq![Token::End(other)];
    let i = choose|i: int| 0 <= i < a2.len() && a2[i] == Some((class_key(), tag));
    assert(start_matches(other, a2, tag));
    assert(start_matches(tag, a1, tag));
    let q = run(Scan::Searching, pre, tag, p, sc);
    assert(run(q, o1, tag, p, sc) == s1) by {
        assert(o1.drop_last() =~= Seq::<Token>::empty());
        assert(run(q, o1.drop_last(), tag, p, sc) == q);
        assert(o1.last() == Token::Start(tag, a1));
    }
    assert(run(q, o2, tag, p, sc) == s2) by {
        assert(o2.drop_last() =~= Seq::<Token>::empty());
        assert(run(q, o2.drop_last(), tag, p, sc) == q);
        assert(o2.last() == Token::Start(other, a2));
    }
    lemma_run_concat(Scan::Searching, pre, o1, tag, p, sc);
    lemma_run_concat(Scan::Searching, pre, o2, tag, p, sc);
    lemma_run_concat(Scan::Searching, pre + o1, body, tag, p, sc);
    lemma_run_concat(Scan::Searching, pre + o2, body, tag, p, sc);
    lemma_agree_through_body(body, tag, other, tag, p, sc);
    let b1 = run(s1, body, tag, p, sc);
    let b2 = run(s2, body, tag, p, sc);
    lemma_run_concat(Scan::Searching, pre + o1 + body, c1, tag, p, sc);
    lemma_run_concat(Scan::Searching, pre + o2 + body, c2, tag, p, sc);
    assert(c1.drop_last() =~= Seq::<Token>::empty());
    assert(c2.drop_last() =~= Seq::<Token>::empty());
    assert(run(b1, c1, tag, p, sc) == run(b2, c2, tag, p, sc)) by {
        if is_finished(b1) {
            lemma_finished_stays(b1, c1, tag, p, sc);
            lemma_finished_stays(b2, c2, tag, p, sc);
        } else {
            let acc = choose|acc: Seq<char>|
                b1 == Scan::InRegion { name: tag, depth: 0, acc } && b2 == Scan::InRegion { name: other, depth: 0, acc };
            assert(run(b1, c1.drop_last(), tag, p, sc) == b1);
            assert(run(b2, c2.drop_last(), tag, p, sc) == b2);
            assert(c1.last() == Token::End(tag));
            assert(c2.last() == Token::End(other));
            assert(run(b1, c1, tag, p, sc) == Scan::Found(acc));
            assert(run(b2, c2, tag, p, sc) == Scan::Found(acc));
        }
    }
    lemma_run_concat(Scan::Searching, pre + o1 + body + c1, post, tag, p, sc);
    lemma_run_concat(Scan::Searching, pre + o2 + body + c2, post, tag, p, sc);
}

} // verus!
