use backside::document::{parse_document, parse_sections, section_of, split_lines, Policy};
use backside::error::{Diagnostic, Error};
use backside::event::EventKind;
use backside::script::Script;
use backside::types::{OverrideCode, Run, Section};

const SAMPLE: &str = "[Script Info]\n\
Title: Test\n\
ScriptType: v4.00+\n\
this line has no separator\n\
Title: Again\n\
\n\
[V4+ Styles]\n\
Format: Name, Fontname, Fontsize, Bold\n\
Style: Default,Arial,20,-1\n\
Style: Alt,Courier New,16,0\n\
\n\
[Events]\n\
Format: Layer, Start, End, Style, Text\n\
Dialogue: 0,0:00:01.00,0:00:02.00,Default,Hello {\\b1}bold{\\b0} end\n\
Comment: 0,0:00:02.00,0:00:03.00,Nobody,note\n\
\n\
[Fonts]\n\
fontname: x.ttf\n\
M1234\n";

fn text(s: &str) -> Vec<u8> {
    s.as_bytes().to_vec()
}

fn diag(section: Section, record: usize, error: Error) -> Diagnostic {
    Diagnostic { section, record, error, span: None }
}

#[test]
fn a_whole_document() {
    let script = parse_sections(SAMPLE).unwrap();
    assert_eq!(script.buf, text(SAMPLE));
    assert_eq!(
        script.info,
        vec![
            (text("Title"), text("Test")),
            (text("ScriptType"), text("v4.00+")),
            (text("Title"), text("Again")),
        ]
    );
    assert_eq!(script.styles.len(), 2);
    assert_eq!(script.styles[0].name, text("Default"));
    assert_eq!(script.styles[0].font_name, text("Arial"));
    assert_eq!(script.styles[0].font_size, 20);
    assert!(script.styles[0].bold);
    assert_eq!(script.styles[1].name, text("Alt"));
    assert_eq!(script.styles[1].font_name, text("Courier New"));
    assert!(!script.styles[1].bold);
    assert_eq!(script.events.len(), 2);
    assert_eq!(script.events[0].kind, EventKind::Dialogue);
    assert_eq!(script.events[0].start, 100);
    assert_eq!(script.events[0].end, 200);
    assert_eq!(
        script.events[0].text,
        vec![
            Run::Literal(text("Hello ")),
            Run::Tag(OverrideCode::Bold(true)),
            Run::Literal(text("bold")),
            Run::Tag(OverrideCode::Bold(false)),
            Run::Literal(text(" end")),
        ]
    );
    assert_eq!(script.events[1].kind, EventKind::Comment);
    assert_eq!(script.events[1].style, text("Nobody"));
    assert_eq!(script.blocks, vec![(text("Fonts"), text("fontname: x.ttf\nM1234\n"))]);
}

#[test]
fn style_references_are_resolved_by_name() {
    let script = parse_sections(SAMPLE).unwrap();
    assert_eq!(script.style_of(&script.events[0]), Ok(0));
    assert_eq!(script.style_of(&script.events[1]), Err(Error::StyleUndefined));
    assert_eq!(script.style_named(b"Alt"), Some(1));
    assert_eq!(script.style_named(b"alt"), None);
}

#[test]
fn the_last_info_pair_of_a_key_counts() {
    let script = parse_sections(SAMPLE).unwrap();
    assert_eq!(script.info_named(b"Title"), Some(2));
    assert_eq!(script.info_named(b"ScriptType"), Some(1));
    assert_eq!(script.info_named(b"Nothing"), None);
}

#[test]
fn from_str_reads_nothing_until_init() {
    let mut script = Script::from_str(SAMPLE);
    assert_eq!(script.buf, text(SAMPLE));
    assert!(script.info.is_empty());
    assert!(script.styles.is_empty());
    assert!(script.events.is_empty());
    assert_eq!(script.init(), Ok(()));
    assert_eq!(script, parse_sections(SAMPLE).unwrap());
}

#[test]
fn init_leaves_the_script_alone_on_error() {
    let mut script = Script::from_str("[Events]\nno format here\n");
    let before = script.clone();
    assert_eq!(script.init(), Err(diag(Section::Events, 0, Error::StructureInvalid)));
    assert_eq!(script, before);
}

#[test]
fn init_with_collect_gives_the_diagnostics() {
    let mut script =
        Script::from_str("[V4+ Styles]\nFormat: Name, Bold\nStyle: A,-1\nStyle: B,1\nStyle: C,0\n");
    assert_eq!(
        script.init_with(Policy::Collect),
        Ok(vec![diag(Section::V4PlusStyles, 1, Error::FieldInvalid)])
    );
    assert_eq!(script.styles.len(), 2);
    assert_eq!(script.styles[0].name, text("A"));
    assert_eq!(script.styles[1].name, text("C"));
}

#[test]
fn empty_document_is_an_empty_script() {
    let script = parse_sections("").unwrap();
    assert!(script.info.is_empty());
    assert!(script.styles.is_empty());
    assert!(script.events.is_empty());
    assert!(script.blocks.is_empty());
}

#[test]
fn text_outside_sections_is_passed_over() {
    let script = parse_sections("junk\nmore: junk\n\n[Script Info]\nA: 1\n\nafter\n").unwrap();
    assert_eq!(script.info, vec![(text("A"), text("1"))]);
}

#[test]
fn a_header_must_begin_its_line() {
    let script = parse_sections(" [Script Info]\nA: 1\n").unwrap();
    assert!(script.info.is_empty());
}

#[test]
fn header_without_closing_bracket() {
    assert_eq!(
        parse_sections("[Script Info\nTitle: x\n"),
        Err(diag(Section::Unknown, 0, Error::StructureInvalid))
    );
    assert_eq!(parse_sections("["), Err(diag(Section::Unknown, 0, Error::StructureInvalid)));
    let collected = parse_document(b"[Script Info]\nA: 1\n\n[Events", Policy::Collect);
    assert_eq!(collected, Err(diag(Section::Unknown, 0, Error::StructureInvalid)));
}

#[test]
fn styles_need_a_format_line_first() {
    assert_eq!(
        parse_sections("[V4+ Styles]\nStyle: Default,Arial\n"),
        Err(diag(Section::V4PlusStyles, 0, Error::StructureInvalid))
    );
    assert_eq!(
        parse_sections("[V4+ Styles]\n"),
        Err(diag(Section::V4PlusStyles, 0, Error::StructureInvalid))
    );
    assert_eq!(
        parse_sections("[V4+ Styles]"),
        Err(diag(Section::V4PlusStyles, 0, Error::StructureInvalid))
    );
    assert_eq!(
        parse_document(b"[V4+ Styles]\nStyle: Default,Arial\n", Policy::Collect),
        Err(diag(Section::V4PlusStyles, 0, Error::StructureInvalid))
    );
}

#[test]
fn events_need_a_format_line_first() {
    assert_eq!(
        parse_sections("[Events]\nDialogue: 0,x\n"),
        Err(diag(Section::Events, 0, Error::StructureInvalid))
    );
}

#[test]
fn the_older_name_of_the_styles_section() {
    let script = parse_sections("[V4 Styles]\nFormat: Name, Fontsize\nStyle: Old,12\n").unwrap();
    assert_eq!(script.styles.len(), 1);
    assert_eq!(script.styles[0].name, text("Old"));
    assert_eq!(script.styles[0].font_size, 12);
}

#[test]
fn fail_fast_stops_at_the_first_bad_record() {
    let doc = "[V4+ Styles]\nFormat: Name, Bold\nStyle: A,-1\nStyle: B,1\nStyle: ,0\n";
    assert_eq!(parse_sections(doc), Err(diag(Section::V4PlusStyles, 1, Error::FieldInvalid)));
    assert_eq!(
        parse_document(doc.as_bytes(), Policy::FailFast),
        Err(diag(Section::V4PlusStyles, 1, Error::FieldInvalid))
    );
}

#[test]
fn collect_keeps_going_and_reports_each_record() {
    let doc = "[V4+ Styles]\nFormat: Name, Bold\nStyle: A,-1\nStyle: B,1\nnot a row\nStyle: ,0\nStyle: C\nStyle: D,0\n\n[Events]\nFormat: Layer, Style, Text\nDialogue: 0,A,fine\nDialogue: x,A,bad layer\nComment: 0,A,{\\zzz1}\nDialogue: 0,D,{open\n";
    let outcome = parse_document(doc.as_bytes(), Policy::Collect).unwrap();
    assert_eq!(outcome.script.styles.len(), 2);
    assert_eq!(outcome.script.styles[0].name, text("A"));
    assert_eq!(outcome.script.styles[1].name, text("D"));
    assert_eq!(outcome.script.events.len(), 1);
    assert_eq!(outcome.script.events[0].text, vec![Run::Literal(text("fine"))]);
    assert_eq!(
        outcome.diagnostics,
        vec![
            diag(Section::V4PlusStyles, 1, Error::FieldInvalid),
            diag(Section::V4PlusStyles, 2, Error::StructureInvalid),
            diag(Section::V4PlusStyles, 3, Error::StructureInvalid),
            diag(Section::Events, 1, Error::FieldInvalid),
            Diagnostic {
                section: Section::Events,
                record: 2,
                error: Error::OCInvalid,
                span: Some((2, 6)),
            },
            Diagnostic {
                section: Section::Events,
                record: 3,
                error: Error::StructureInvalid,
                span: Some((0, 5)),
            },
        ]
    );
}

#[test]
fn a_clean_document_has_no_diagnostics_under_either_policy() {
    let fast = parse_document(SAMPLE.as_bytes(), Policy::FailFast).unwrap();
    let all = parse_document(SAMPLE.as_bytes(), Policy::Collect).unwrap();
    assert!(fast.diagnostics.is_empty());
    assert!(all.diagnostics.is_empty());
    assert_eq!(fast, all);
}

#[test]
fn style_names_are_unique() {
    let doc = "[V4+ Styles]\nFormat: Name, Fontsize\nStyle: A,1\nStyle: A,2\nStyle: B,3\n";
    assert_eq!(parse_sections(doc), Err(diag(Section::V4PlusStyles, 1, Error::StructureInvalid)));
    let outcome = parse_document(doc.as_bytes(), Policy::Collect).unwrap();
    assert_eq!(outcome.script.styles.len(), 2);
    assert_eq!(outcome.script.styles[0].font_size, 1);
    assert_eq!(outcome.script.styles[1].name, text("B"));
    assert_eq!(
        outcome.diagnostics,
        vec![diag(Section::V4PlusStyles, 1, Error::StructureInvalid)]
    );
}

#[test]
fn style_names_are_unique_across_sections() {
    let doc = "[V4+ Styles]\nFormat: Name\nStyle: A\n\n[V4 Styles]\nFormat: Name\nStyle: B\nStyle: A\n";
    assert_eq!(parse_sections(doc), Err(diag(Section::V4PlusStyles, 1, Error::StructureInvalid)));
}

#[test]
fn a_blank_line_ends_the_body() {
    let script = parse_sections("[Script Info]\nA: 1\n\nB: 2\n").unwrap();
    assert_eq!(script.info, vec![(text("A"), text("1"))]);
}

#[test]
fn a_blank_line_right_after_the_header_makes_an_empty_body() {
    let script = parse_sections("[Script Info]\n\nA: 1\n[Fonts]\n\n").unwrap();
    assert!(script.info.is_empty());
    assert_eq!(script.blocks, vec![(text("Fonts"), text(""))]);
}

#[test]
fn a_body_runs_to_the_end_of_the_text() {
    let script = parse_sections("[Script Info]\nA: 1\nB:2").unwrap();
    assert_eq!(script.info, vec![(text("A"), text("1")), (text("B"), text("2"))]);
}

#[test]
fn a_header_inside_a_body_is_a_line_of_the_body() {
    let script = parse_sections("[Script Info]\nA: 1\n[Events]\nB: 2\n").unwrap();
    assert_eq!(script.info, vec![(text("A"), text("1")), (text("B"), text("2"))]);
    assert!(script.events.is_empty());
}

#[test]
fn unknown_sections_are_kept_as_they_stand() {
    let script = parse_sections("[Graphics]\nfilename: a.png\nABC\n\n[Aegisub Project Garbage]\nx\n")
        .unwrap();
    assert_eq!(
        script.blocks,
        vec![
            (text("Graphics"), text("filename: a.png\nABC")),
            (text("Aegisub Project Garbage"), text("x\n")),
        ]
    );
}

#[test]
fn info_values_lose_one_space_only() {
    let script = parse_sections("[Script Info]\nA:  two\nB:none\nC:\n: v\nD: x: y\n").unwrap();
    assert_eq!(
        script.info,
        vec![
            (text("A"), text(" two")),
            (text("B"), text("none")),
            (text("C"), text("")),
            (text(""), text("v")),
            (text("D"), text("x: y")),
        ]
    );
}

#[test]
fn sections_are_named_exactly() {
    assert_eq!(section_of(b"Script Info"), Section::ScriptInfo);
    assert_eq!(section_of(b"V4+ Styles"), Section::V4PlusStyles);
    assert_eq!(section_of(b"V4 Styles"), Section::V4PlusStyles);
    assert_eq!(section_of(b"Fonts"), Section::Fonts);
    assert_eq!(section_of(b"Events"), Section::Events);
    assert_eq!(section_of(b"events"), Section::Unknown);
    assert_eq!(section_of(b"Graphics"), Section::Unknown);
    assert_eq!(section_of(b""), Section::Unknown);
}

#[test]
fn lines_are_parted_at_line_feeds() {
    assert_eq!(split_lines(b"a\nb"), vec![&b"a"[..], &b"b"[..]]);
    assert_eq!(split_lines(b"a\nb\n"), vec![&b"a"[..], &b"b"[..], &b""[..]]);
    assert_eq!(split_lines(b""), vec![&b""[..]]);
    assert_eq!(split_lines(b"\n\n"), vec![&b""[..], &b""[..], &b""[..]]);
}

#[test]
fn every_prefix_of_a_document_has_an_outcome() {
    let bytes = SAMPLE.as_bytes();
    for cut in 0..=bytes.len() {
        let fast = parse_document(&bytes[..cut], Policy::FailFast);
        let all = parse_document(&bytes[..cut], Policy::Collect);
        if let Ok(outcome) = &fast {
            assert!(outcome.diagnostics.is_empty());
        }
        if let (Ok(a), Ok(b)) = (&fast, &all) {
            assert_eq!(a, b);
        }
    }
}

#[test]
fn arbitrary_bytes_have_an_outcome() {
    let alphabet: &[u8] = b"[]{}\\\n\n,: FormatStyleDialogue:Events V4+b1\xff\x80\x00";
    let mut state: u32 = 12345;
    for _ in 0..300 {
        let mut doc: Vec<u8> = Vec::new();
        let mut prefix: Vec<u8> = if state % 3 == 0 {
            b"[Events]\nFormat: Layer, Text\n".to_vec()
        } else if state % 3 == 1 {
            b"[V4+ Styles]\nFormat: Name, Bold\n".to_vec()
        } else {
            Vec::new()
        };
        doc.append(&mut prefix);
        for _ in 0..200 {
            state = state.wrapping_mul(1664525).wrapping_add(1013904223);
            doc.push(alphabet[(state >> 16) as usize % alphabet.len()]);
        }
        let _ = parse_document(&doc, Policy::FailFast);
        let collected = parse_document(&doc, Policy::Collect);
        if let Ok(outcome) = collected {
            for i in 0..outcome.script.styles.len() {
                assert!(!outcome.script.styles[i].name.is_empty());
                for j in 0..i {
                    assert_ne!(outcome.script.styles[i].name, outcome.script.styles[j].name);
                }
            }
        }
    }
}

#[test]
fn invalid_utf8_is_parsed_as_bytes() {
    let doc: &[u8] = b"[Script Info]\nTitle: \xff\xfe\n";
    let outcome = parse_document(doc, Policy::FailFast).unwrap();
    assert_eq!(outcome.script.info, vec![(b"Title".to_vec(), vec![0xff, 0xfe])]);
}
