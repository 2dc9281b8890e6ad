use xmldict::pipeline::{process_all, process_document, process_input, render, FileOutcome};
use xmldict::progress::{progress_due, progress_interval, progress_percent};
use xmldict::scan::{scan_events, Config, ContentPolicy, HeadwordPolicy, MatchScope, ScanState};
use xmldict::text::{document_content, first_word_chars, trim_chars};
use xmldict::xml::{XmlAttr, XmlEvent};

fn config(tag: &str, headword: HeadwordPolicy, content: ContentPolicy) -> Config {
    Config { tag: tag.as_bytes().to_vec(), headword, content, scope: MatchScope::Anywhere }
}

fn default_config() -> Config {
    config("mida", HeadwordPolicy::FirstWord, ContentPolicy::SingleLine)
}

fn extracted(o: &FileOutcome) -> (String, String) {
    match o {
        FileOutcome::Extracted(e) => (e.headword.clone(), e.content.clone()),
        FileOutcome::Skipped => panic!("skipped"),
        FileOutcome::Failed(m) => panic!("failed: {}", m),
    }
}

fn chars(s: &str) -> Vec<char> {
    s.chars().collect()
}

#[test]
fn direct_tag_match_extracts_headword_and_content() {
    let doc = "<?xml version=\"1.0\"?>\n<d>\n  <mida>alpha</mida>\n  <p>A</p>\n</d>\n";
    let (h, c) = extracted(&process_document(doc, &default_config()));
    assert_eq!(h, "alpha");
    assert_eq!(c, "<d>  <mida>alpha</mida>  <p>A</p></d>");
}

#[test]
fn class_match_equals_tag_match() {
    let by_name = "<?xml version=\"1.0\"?>\n<d><mida>alpha beta</mida></d>";
    let by_class = "<?xml version=\"1.0\"?>\n<d><span class=\"mida\">alpha beta</span></d>";
    for policy in [HeadwordPolicy::FirstWord, HeadwordPolicy::WholeText] {
        let cfg = config("mida", policy, ContentPolicy::SingleLine);
        let (h1, _) = extracted(&process_document(by_name, &cfg));
        let (h2, _) = extracted(&process_document(by_class, &cfg));
        assert_eq!(h1, h2);
    }
}

#[test]
fn no_matching_element_is_skipped() {
    let doc = "<?xml version=\"1.0\"?>\n<d><p class=\"other\">alpha</p></d>";
    assert!(matches!(process_document(doc, &default_config()), FileOutcome::Skipped));
}

#[test]
fn empty_headword_is_skipped() {
    let doc = "<?xml version=\"1.0\"?>\n<d><mida>   </mida><p>x</p></d>";
    assert!(matches!(process_document(doc, &default_config()), FileOutcome::Skipped));
}

#[test]
fn unreadable_input_is_failed() {
    let input: Result<String, String> = Err("permission denied".to_string());
    match process_input(&input, &default_config()) {
        FileOutcome::Failed(m) => assert_eq!(m, "permission denied"),
        _ => panic!("expected a failure"),
    }
}

#[test]
fn malformed_xml_is_failed() {
    let doc = "<?xml version=\"1.0\"?>\n<d><b></d><mida>alpha</mida>";
    assert!(matches!(process_document(doc, &default_config()), FileOutcome::Failed(_)));
}

#[test]
fn bad_entity_in_headword_is_failed() {
    let doc = "<?xml version=\"1.0\"?>\n<d><mida>&bogus;</mida></d>";
    assert!(matches!(process_document(doc, &default_config()), FileOutcome::Failed(_)));
}

#[test]
fn entities_are_decoded_in_headword() {
    let doc = "<?xml version=\"1.0\"?>\n<d><mida>caf&amp;e</mida></d>";
    let (h, _) = extracted(&process_document(doc, &default_config()));
    assert_eq!(h, "caf&e");
}

#[test]
fn first_word_and_whole_text_policies() {
    let doc = "<?xml version=\"1.0\"?>\n<d><mida>big <b>cat</b></mida></d>";
    let (h1, _) = extracted(&process_document(doc, &config("mida", HeadwordPolicy::FirstWord, ContentPolicy::SingleLine)));
    assert_eq!(h1, "big");
    let (h2, _) = extracted(&process_document(doc, &config("mida", HeadwordPolicy::WholeText, ContentPolicy::SingleLine)));
    assert_eq!(h2, "big cat");
}

#[test]
fn whole_text_stops_at_the_element_end() {
    let doc = "<?xml version=\"1.0\"?>\n<d><mida>one<mida>two</mida>three</mida><mida>four</mida></d>";
    let cfg = config("mida", HeadwordPolicy::WholeText, ContentPolicy::SingleLine);
    let (h, _) = extracted(&process_document(doc, &cfg));
    assert_eq!(h, "one two three");
}

#[test]
fn content_keeps_newlines_when_asked() {
    let doc = "<?xml version=\"1.0\"?>\r\n<d>\r\n<mida>alpha</mida>\r\n</d>\r\n";
    let cfg = config("mida", HeadwordPolicy::FirstWord, ContentPolicy::KeepNewlines);
    let (_, c) = extracted(&process_document(doc, &cfg));
    assert_eq!(c, "<d>\n<mida>alpha</mida>\n</d>");
    let (_, c1) = extracted(&process_document(doc, &default_config()));
    assert_eq!(c1, "<d><mida>alpha</mida></d>");
}

#[test]
fn round_trip_three_files() {
    let inputs: Vec<Result<String, String>> = vec![
        Ok("<?xml version=\"1.0\"?>\n<mida>alpha</mida>".to_string()),
        Ok("<?xml version=\"1.0\"?>\n<p>none</p>".to_string()),
        Ok("<?xml version=\"1.0\"?>\n<mida>beta</mida>".to_string()),
    ];
    let out = render(&process_all(&inputs, &default_config()));
    assert_eq!(out, "alpha\n<mida>alpha</mida>\n</>\nbeta\n<mida>beta</mida>\n</>\n");
}

#[test]
fn output_follows_input_order_and_counts() {
    let mut inputs: Vec<Result<String, String>> = Vec::new();
    for i in 0..200 {
        if i % 7 == 0 {
            inputs.push(Err(format!("unreadable {}", i)));
        } else if i % 5 == 0 {
            inputs.push(Ok(format!("<?xml version=\"1.0\"?>\n<p>{}</p>", i)));
        } else {
            let padding = "x".repeat((i * 37) % 5000);
            inputs.push(Ok(format!("<?xml version=\"1.0\"?>\n<d><mida>w{}</mida><p>{}</p></d>", i, padding)));
        }
    }
    let outcomes = process_all(&inputs, &default_config());
    assert_eq!(outcomes.len(), inputs.len());
    let mut expected_heads = Vec::new();
    let (mut failed, mut skipped) = (0, 0);
    for i in 0..200 {
        if i % 7 == 0 {
            failed += 1;
            assert!(matches!(outcomes[i], FileOutcome::Failed(_)));
        } else if i % 5 == 0 {
            skipped += 1;
            assert!(matches!(outcomes[i], FileOutcome::Skipped));
        } else {
            expected_heads.push(format!("w{}", i));
            assert_eq!(extracted(&outcomes[i]).0, format!("w{}", i));
        }
    }
    let text = render(&outcomes);
    let lines: Vec<&str> = text.lines().collect();
    assert_eq!(lines.len(), 3 * expected_heads.len());
    assert_eq!(expected_heads.len(), 200 - failed - skipped);
    for (k, h) in expected_heads.iter().enumerate() {
        assert_eq!(lines[3 * k], h.as_str());
        assert_eq!(lines[3 * k + 2], "</>");
    }
}

#[test]
fn running_twice_gives_identical_output() {
    let inputs: Vec<Result<String, String>> = (0..50)
        .map(|i| Ok(format!("<?xml version=\"1.0\"?>\n<d><mida>w{}</mida></d>", i)))
        .collect();
    let first = render(&process_all(&inputs, &default_config()));
    let second = render(&process_all(&inputs, &default_config()));
    assert_eq!(first, second);
}

#[test]
fn render_of_nothing_is_empty() {
    assert_eq!(render(&Vec::new()), "");
}

#[test]
fn scan_events_finds_class_match() {
    let events = vec![
        XmlEvent::Start {
            name: b"div".to_vec(),
            attrs: vec![None, Some(XmlAttr { key: b"class".to_vec(), value: b"mida".to_vec() })],
        },
        XmlEvent::Text { raw: b"  hello world ".to_vec() },
        XmlEvent::End { name: b"div".to_vec() },
        XmlEvent::Eof,
    ];
    match scan_events(&events, &default_config()) {
        ScanState::Found { headword } => assert_eq!(headword, chars("hello")),
        _ => panic!("expected a headword"),
    }
}

#[test]
fn scan_events_reports_read_error() {
    let events = vec![XmlEvent::Other, XmlEvent::Malformed { message: "bad".to_string() }];
    match scan_events(&events, &default_config()) {
        ScanState::Failed { message } => assert_eq!(message, chars("bad")),
        _ => panic!("expected a failure"),
    }
}

#[test]
fn text_helpers() {
    assert_eq!(trim_chars(&chars("\u{a0} a b \n")), chars("a b"));
    assert_eq!(trim_chars(&chars("   ")), chars(""));
    assert_eq!(first_word_chars(&chars("  one two")), chars("one"));
    assert_eq!(first_word_chars(&chars("")), chars(""));
    assert_eq!(document_content(&chars("<?xml?>\na\r\nb\n"), false), chars("ab"));
    assert_eq!(document_content(&chars("<?xml?>\na\r\nb\n"), true), chars("a\nb"));
    assert_eq!(document_content(&chars("only one line"), false), chars(""));
}

#[test]
fn progress_rules() {
    assert_eq!(progress_interval(5), 10);
    assert_eq!(progress_interval(999), 10);
    assert_eq!(progress_interval(1000), 10);
    assert_eq!(progress_interval(25000), 250);
    assert!(!progress_due(0, 10));
    assert!(progress_due(20, 10));
    assert!(!progress_due(21, 10));
    assert_eq!(progress_percent(1, 3), 33);
    assert_eq!(progress_percent(3, 3), 100);
    assert_eq!(progress_percent(usize::MAX, usize::MAX), 100);
}

#[test]
fn feed_text_takes_first_word_or_fails() {
    let cfg = default_config();
    let mut st = ScanState::InRegion { name: b"mida".to_vec(), depth: 0, acc: Vec::new() };
    st.feed_text(&Ok("  caf\u{e9} au lait".to_string()), &cfg);
    match st {
        ScanState::Found { headword } => assert_eq!(headword, chars("caf\u{e9}")),
        _ => panic!("expected a headword"),
    }
    let mut st2 = ScanState::InRegion { name: b"mida".to_vec(), depth: 0, acc: Vec::new() };
    st2.feed_text(&Err("bad entity".to_string()), &cfg);
    match st2 {
        ScanState::Failed { message } => assert_eq!(message, chars("bad entity")),
        _ => panic!("expected a failure"),
    }
    let mut st3 = ScanState::Searching;
    st3.feed_text(&Ok("alpha".to_string()), &cfg);
    assert!(matches!(st3, ScanState::Searching));
}

#[test]
fn scan_events_decodes_entities() {
    let events = vec![
        XmlEvent::Start { name: b"mida".to_vec(), attrs: Vec::new() },
        XmlEvent::Text { raw: b"&lt;x&gt;".to_vec() },
        XmlEvent::End { name: b"mida".to_vec() },
        XmlEvent::Eof,
    ];
    match scan_events(&events, &default_config()) {
        ScanState::Found { headword } => assert_eq!(headword, chars("<x>")),
        _ => panic!("expected a headword"),
    }
}

fn entry_config() -> Config {
    let mut cfg = default_config();
    cfg.scope = MatchScope::WithinEntry;
    cfg
}

#[test]
fn entry_scope_ignores_headword_outside_entry() {
    let doc = "<?xml version=\"1.0\"?>\n<r><mida>outside</mida><div class=\"entry\"><mida>inside</mida></div></r>";
    let (h, _) = extracted(&process_document(doc, &entry_config()));
    assert_eq!(h, "inside");
    let (h2, _) = extracted(&process_document(doc, &default_config()));
    assert_eq!(h2, "outside");
}

#[test]
fn entry_scope_tracks_nested_entry_tags() {
    let doc = "<?xml version=\"1.0\"?>\n<r><div class=\"entry\"><div>x</div></div><mida>after</mida></r>";
    assert!(matches!(process_document(doc, &entry_config()), FileOutcome::Skipped));
    let doc2 = "<?xml version=\"1.0\"?>\n<r><div class=\"entry\"><div>x</div><span class=\"mida\">late</span></div></r>";
    let (h, _) = extracted(&process_document(doc2, &entry_config()));
    assert_eq!(h, "late");
}
