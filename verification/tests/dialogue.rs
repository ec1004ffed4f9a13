use backside::dialogue::{parse_dialogue, Fault};
use backside::error::Error;
use backside::types::{OverrideCode, Run, XOrYOrZ};

fn literal(text: &str) -> Run {
    Run::Literal(text.as_bytes().to_vec())
}

#[test]
fn literal_and_tags_in_order() {
    assert_eq!(
        parse_dialogue(b"Hello {\\b1}bold{\\b0} end"),
        Ok(vec![
            literal("Hello "),
            Run::Tag(OverrideCode::Bold(true)),
            literal("bold"),
            Run::Tag(OverrideCode::Bold(false)),
            literal(" end"),
        ])
    );
}

#[test]
fn comment_block_is_dropped() {
    assert_eq!(parse_dialogue(b"{this is a comment}text"), Ok(vec![literal("text")]));
}

#[test]
fn empty_block_is_a_comment() {
    assert_eq!(parse_dialogue(b"a{}b"), Ok(vec![literal("a"), literal("b")]));
    assert_eq!(parse_dialogue(b"{}"), Ok(vec![]));
}

#[test]
fn unmatched_brace_is_structure_invalid() {
    assert_eq!(
        parse_dialogue(b"Hello {\\b1"),
        Err(Fault { error: Error::StructureInvalid, start: 6, end: 10 })
    );
}

#[test]
fn unmatched_brace_at_every_truncation() {
    let whole: &[u8] = b"Hello {\\b1\\i1\\fnArial} end";
    for cut in 7..22 {
        let r = parse_dialogue(&whole[..cut]);
        assert_eq!(r, Err(Fault { error: Error::StructureInvalid, start: 6, end: cut }));
    }
    assert!(parse_dialogue(&whole[..6]).is_ok());
    assert!(parse_dialogue(&whole[..22]).is_ok());
    assert!(parse_dialogue(whole).is_ok());
}

#[test]
fn lone_open_brace() {
    assert_eq!(
        parse_dialogue(b"{"),
        Err(Fault { error: Error::StructureInvalid, start: 0, end: 1 })
    );
    assert_eq!(
        parse_dialogue(b"abc{"),
        Err(Fault { error: Error::StructureInvalid, start: 3, end: 4 })
    );
}

#[test]
fn empty_text_has_no_runs() {
    assert_eq!(parse_dialogue(b""), Ok(vec![]));
}

#[test]
fn plain_text_is_one_literal() {
    assert_eq!(parse_dialogue(b"just text"), Ok(vec![literal("just text")]));
}

#[test]
fn a_lone_close_brace_is_text() {
    assert_eq!(parse_dialogue(b"a}b"), Ok(vec![literal("a}b")]));
}

#[test]
fn several_codes_in_one_block() {
    assert_eq!(
        parse_dialogue(b"{\\b1\\i1\\fs20}x"),
        Ok(vec![
            Run::Tag(OverrideCode::Bold(true)),
            Run::Tag(OverrideCode::Italic(true)),
            Run::Tag(OverrideCode::FontSize(20)),
            literal("x"),
        ])
    );
}

#[test]
fn font_name_with_spaces_in_a_block() {
    assert_eq!(
        parse_dialogue(b"{\\fnCourier New\\frz45}x"),
        Ok(vec![
            Run::Tag(OverrideCode::FontName(b"Courier New".to_vec())),
            Run::Tag(OverrideCode::Rotation(XOrYOrZ::Z, 45)),
            literal("x"),
        ])
    );
}

#[test]
fn line_break_escapes_pass_through() {
    assert_eq!(parse_dialogue(b"one\\Ntwo\\nthree\\hfour"), Ok(vec![literal("one\\Ntwo\\nthree\\hfour")]));
}

#[test]
fn escaped_brace_opens_nothing() {
    assert_eq!(parse_dialogue(b"a\\{b"), Ok(vec![literal("a\\{b")]));
    assert_eq!(parse_dialogue(b"a\\{b}c"), Ok(vec![literal("a\\{b}c")]));
}

#[test]
fn escaped_backslash_escapes_nothing_after_it() {
    assert_eq!(
        parse_dialogue(b"a\\\\{\\b1}c"),
        Ok(vec![literal("a\\\\"), Run::Tag(OverrideCode::Bold(true)), literal("c")])
    );
}

#[test]
fn backslash_at_the_end_is_text() {
    assert_eq!(parse_dialogue(b"abc\\"), Ok(vec![literal("abc\\")]));
}

#[test]
fn fault_names_the_span_of_the_code() {
    assert_eq!(
        parse_dialogue(b"ab{\\b1\\zzz1\\i1}cd"),
        Err(Fault { error: Error::OCInvalid, start: 7, end: 11 })
    );
    assert_eq!(
        parse_dialogue(b"{\\fs}"),
        Err(Fault { error: Error::OCMissingParams, start: 2, end: 4 })
    );
    assert_eq!(
        parse_dialogue(b"x{\\b7}"),
        Err(Fault { error: Error::OCInvalidParams, start: 3, end: 5 })
    );
}

#[test]
fn empty_span_is_no_code() {
    assert_eq!(
        parse_dialogue(b"{\\}"),
        Err(Fault { error: Error::OCInvalid, start: 2, end: 2 })
    );
    assert_eq!(
        parse_dialogue(b"{\\b1\\}"),
        Err(Fault { error: Error::OCInvalid, start: 5, end: 5 })
    );
}

#[test]
fn the_first_fault_in_the_text_is_reported() {
    assert_eq!(
        parse_dialogue(b"{\\zzz}{\\b1"),
        Err(Fault { error: Error::OCInvalid, start: 2, end: 5 })
    );
    assert_eq!(
        parse_dialogue(b"{\\b1}{\\b1"),
        Err(Fault { error: Error::StructureInvalid, start: 5, end: 9 })
    );
}

#[test]
fn nested_open_brace_belongs_to_the_block() {
    assert_eq!(parse_dialogue(b"{a{b}c"), Ok(vec![literal("c")]));
}

#[test]
fn text_that_is_not_utf8_is_kept() {
    let text: &[u8] = &[0xff, 0xfe, b'{', b'\\', b'b', b'1', b'}', 0x80];
    assert_eq!(
        parse_dialogue(text),
        Ok(vec![
            Run::Literal(vec![0xff, 0xfe]),
            Run::Tag(OverrideCode::Bold(true)),
            Run::Literal(vec![0x80]),
        ])
    );
}
