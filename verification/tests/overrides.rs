use backside::error::Error;
use backside::overrides::{decode, parse_bool, parse_override, registry_table, TagName};
use backside::types::{ColorSlot, KaraokeKind, OverrideCode, XOrYOrZ};

#[test]
fn on_off_tags() {
    assert_eq!(parse_override(b"b1"), Ok(OverrideCode::Bold(true)));
    assert_eq!(parse_override(b"b0"), Ok(OverrideCode::Bold(false)));
    assert_eq!(parse_override(b"i1"), Ok(OverrideCode::Italic(true)));
    assert_eq!(parse_override(b"u0"), Ok(OverrideCode::Underline(false)));
    assert_eq!(parse_override(b"s1"), Ok(OverrideCode::Strikeout(true)));
    assert_eq!(parse_override(b"be1"), Ok(OverrideCode::BlurEdges(true)));
    assert_eq!(parse_override(b"be0"), Ok(OverrideCode::BlurEdges(false)));
}

#[test]
fn on_off_tags_take_one_byte_zero_or_one() {
    assert_eq!(parse_override(b"b"), Err(Error::OCInvalidParams));
    assert_eq!(parse_override(b"b2"), Err(Error::OCInvalidParams));
    assert_eq!(parse_override(b"b10"), Err(Error::OCInvalidParams));
    assert_eq!(parse_override(b"b-1"), Err(Error::OCInvalidParams));
    assert_eq!(parse_override(b"bx"), Err(Error::OCInvalidParams));
    assert_eq!(parse_override(b"be"), Err(Error::OCInvalidParams));
    assert_eq!(parse_override(b"i"), Err(Error::OCInvalidParams));
}

#[test]
fn parse_bool_reads_one_byte() {
    assert_eq!(parse_bool(b'0'), Ok(false));
    assert_eq!(parse_bool(b'1'), Ok(true));
    assert_eq!(parse_bool(b'2'), Err(Error::OCInvalidParams));
    assert_eq!(parse_bool(b' '), Err(Error::OCInvalidParams));
}

#[test]
fn unknown_tag_is_invalid() {
    assert_eq!(parse_override(b"zzz1"), Err(Error::OCInvalid));
    assert_eq!(parse_override(b""), Err(Error::OCInvalid));
    assert_eq!(parse_override(b"B1"), Err(Error::OCInvalid));
    assert_eq!(parse_override(b" b1"), Err(Error::OCInvalid));
    assert_eq!(parse_override(b"5c"), Err(Error::OCInvalid));
}

#[test]
fn longest_name_wins() {
    assert_eq!(parse_override(b"bord3"), Ok(OverrideCode::Border(3)));
    assert_eq!(parse_override(b"be1"), Ok(OverrideCode::BlurEdges(true)));
    assert_eq!(parse_override(b"a5"), Ok(OverrideCode::Alignment(5)));
    assert_eq!(parse_override(b"an5"), Ok(OverrideCode::AlignmentNumpad(5)));
    assert_eq!(parse_override(b"alpha&HFF&"), Ok(OverrideCode::Alpha(ColorSlot::Primary, 0xFF)));
    assert_eq!(parse_override(b"fr30"), Ok(OverrideCode::Rotation(XOrYOrZ::Z, 30)));
    assert_eq!(parse_override(b"frz30"), Ok(OverrideCode::Rotation(XOrYOrZ::Z, 30)));
    assert_eq!(parse_override(b"frx30"), Ok(OverrideCode::Rotation(XOrYOrZ::X, 30)));
    assert_eq!(parse_override(b"fry30"), Ok(OverrideCode::Rotation(XOrYOrZ::Y, 30)));
    assert_eq!(parse_override(b"fs16"), Ok(OverrideCode::FontSize(16)));
    assert_eq!(parse_override(b"fscx120"), Ok(OverrideCode::Scale(XOrYOrZ::X, 120)));
    assert_eq!(parse_override(b"fscy80"), Ok(OverrideCode::Scale(XOrYOrZ::Y, 80)));
    assert_eq!(parse_override(b"fsp2"), Ok(OverrideCode::Spacing(2)));
    assert_eq!(parse_override(b"s1"), Ok(OverrideCode::Strikeout(true)));
    assert_eq!(parse_override(b"shad2"), Ok(OverrideCode::Shadow(2)));
    assert_eq!(parse_override(b"k94"), Ok(OverrideCode::Karaoke(KaraokeKind::Word, 94)));
    assert_eq!(parse_override(b"kf94"), Ok(OverrideCode::Karaoke(KaraokeKind::Fill, 94)));
    assert_eq!(parse_override(b"K94"), Ok(OverrideCode::Karaoke(KaraokeKind::Fill, 94)));
    assert_eq!(parse_override(b"ko94"), Ok(OverrideCode::Karaoke(KaraokeKind::Outline, 94)));
    assert_eq!(parse_override(b"c&HFF&"), Ok(OverrideCode::Color(ColorSlot::Primary, 0xFF)));
}

#[test]
fn a_longer_name_that_only_nearly_fits_does_not_win() {
    assert_eq!(parse_override(b"fsc5"), Err(Error::OCInvalidParams));
    assert_eq!(parse_override(b"bor1"), Err(Error::OCInvalidParams));
    assert_eq!(parse_override(b"alph"), Err(Error::OCInvalidParams));
    assert_eq!(parse_override(b"sha1"), Err(Error::OCInvalidParams));
}

#[test]
fn numeric_tags() {
    assert_eq!(parse_override(b"fs0"), Ok(OverrideCode::FontSize(0)));
    assert_eq!(parse_override(b"fs65535"), Ok(OverrideCode::FontSize(65535)));
    assert_eq!(parse_override(b"fs+12"), Ok(OverrideCode::FontSize(12)));
    assert_eq!(parse_override(b"fe128"), Ok(OverrideCode::FontEncoding(128)));
    assert_eq!(parse_override(b"q2"), Ok(OverrideCode::WrappingStyle(2)));
}

#[test]
fn numeric_tag_without_parameter_is_missing() {
    assert_eq!(parse_override(b"fs"), Err(Error::OCMissingParams));
    assert_eq!(parse_override(b"fsp"), Err(Error::OCMissingParams));
    assert_eq!(parse_override(b"bord"), Err(Error::OCMissingParams));
    assert_eq!(parse_override(b"shad"), Err(Error::OCMissingParams));
    assert_eq!(parse_override(b"k"), Err(Error::OCMissingParams));
    assert_eq!(parse_override(b"kf"), Err(Error::OCMissingParams));
    assert_eq!(parse_override(b"ko"), Err(Error::OCMissingParams));
    assert_eq!(parse_override(b"fscx"), Err(Error::OCMissingParams));
    assert_eq!(parse_override(b"frz"), Err(Error::OCMissingParams));
    assert_eq!(parse_override(b"fr"), Err(Error::OCMissingParams));
    assert_eq!(parse_override(b"q"), Err(Error::OCMissingParams));
}

#[test]
fn numeric_tag_with_malformed_numeral_is_invalid() {
    assert_eq!(parse_override(b"fs12pt"), Err(Error::OCInvalidParams));
    assert_eq!(parse_override(b"fs65536"), Err(Error::OCInvalidParams));
    assert_eq!(parse_override(b"fs-1"), Err(Error::OCInvalidParams));
    assert_eq!(parse_override(b"fs-0"), Err(Error::OCInvalidParams));
    assert_eq!(parse_override(b"fs-"), Err(Error::OCInvalidParams));
    assert_eq!(parse_override(b"fs+"), Err(Error::OCInvalidParams));
    assert_eq!(parse_override(b"fs 12"), Err(Error::OCInvalidParams));
    assert_eq!(parse_override(b"fs1.5"), Err(Error::OCInvalidParams));
    assert_eq!(parse_override(b"k9x"), Err(Error::OCInvalidParams));
}

#[test]
fn color_literal_is_kept_as_written() {
    assert_eq!(
        parse_override(b"c&HFF0000&"),
        Ok(OverrideCode::Color(ColorSlot::Primary, 0xFF0000))
    );
    assert_eq!(
        parse_override(b"1c&HFF0000&"),
        Ok(OverrideCode::Color(ColorSlot::Primary, 0xFF0000))
    );
    assert_eq!(
        parse_override(b"2c&H00FF00&"),
        Ok(OverrideCode::Color(ColorSlot::Secondary, 0x00FF00))
    );
    assert_eq!(parse_override(b"3c&HA0A0A&"), Ok(OverrideCode::Color(ColorSlot::Outline, 0xA0A0A)));
    assert_eq!(parse_override(b"4c&Hffffff&"), Ok(OverrideCode::Color(ColorSlot::Back, 0xFFFFFF)));
    assert_eq!(parse_override(b"1a&H80&"), Ok(OverrideCode::Alpha(ColorSlot::Primary, 0x80)));
    assert_eq!(parse_override(b"2a&H80&"), Ok(OverrideCode::Alpha(ColorSlot::Secondary, 0x80)));
    assert_eq!(parse_override(b"3a&H80&"), Ok(OverrideCode::Alpha(ColorSlot::Outline, 0x80)));
    assert_eq!(parse_override(b"4a&H80&"), Ok(OverrideCode::Alpha(ColorSlot::Back, 0x80)));
}

#[test]
fn color_literal_must_be_whole() {
    assert_eq!(parse_override(b"c"), Err(Error::OCMissingParams));
    assert_eq!(parse_override(b"1c"), Err(Error::OCMissingParams));
    assert_eq!(parse_override(b"alpha"), Err(Error::OCMissingParams));
    assert_eq!(parse_override(b"cFF0000"), Err(Error::OCInvalidParams));
    assert_eq!(parse_override(b"c&HFF0000"), Err(Error::OCInvalidParams));
    assert_eq!(parse_override(b"c&FF0000&"), Err(Error::OCInvalidParams));
    assert_eq!(parse_override(b"c&hFF0000&"), Err(Error::OCInvalidParams));
    assert_eq!(parse_override(b"cHFF0000&"), Err(Error::OCInvalidParams));
    assert_eq!(parse_override(b"c&H&"), Err(Error::OCInvalidParams));
    assert_eq!(parse_override(b"c&H"), Err(Error::OCInvalidParams));
    assert_eq!(parse_override(b"c&"), Err(Error::OCInvalidParams));
    assert_eq!(parse_override(b"c&HGG&"), Err(Error::OCInvalidParams));
    assert_eq!(parse_override(b"c&H100000000&"), Err(Error::OCInvalidParams));
    assert_eq!(parse_override(b"c&HFF&&"), Err(Error::OCInvalidParams));
}

#[test]
fn font_name_is_kept_verbatim() {
    assert_eq!(
        parse_override(b"fn Courier New"),
        Ok(OverrideCode::FontName(b" Courier New".to_vec()))
    );
    assert_eq!(
        parse_override(b"fnCourier New"),
        Ok(OverrideCode::FontName(b"Courier New".to_vec()))
    );
    assert_eq!(parse_override(b"fn"), Ok(OverrideCode::FontName(Vec::new())));
}

#[test]
fn tags_that_may_stand_alone() {
    assert_eq!(parse_override(b"r"), Ok(OverrideCode::Reset(Vec::new())));
    assert_eq!(parse_override(b"rAlt"), Ok(OverrideCode::Reset(b"Alt".to_vec())));
    assert_eq!(parse_override(b"a"), Ok(OverrideCode::Alignment(0)));
    assert_eq!(parse_override(b"a0"), Ok(OverrideCode::Alignment(0)));
    assert_eq!(parse_override(b"a11"), Ok(OverrideCode::Alignment(11)));
    assert_eq!(parse_override(b"an"), Ok(OverrideCode::AlignmentNumpad(0)));
    assert_eq!(parse_override(b"an7"), Ok(OverrideCode::AlignmentNumpad(7)));
    assert_eq!(parse_override(b"ax"), Err(Error::OCInvalidParams));
}

#[test]
fn decode_applies_the_grammar_of_the_tag_it_is_given() {
    assert_eq!(decode(TagName::Bold, b"1"), Ok(OverrideCode::Bold(true)));
    assert_eq!(decode(TagName::Border, b"4"), Ok(OverrideCode::Border(4)));
    assert_eq!(decode(TagName::Border, b""), Err(Error::OCMissingParams));
    assert_eq!(decode(TagName::Color3, b"&H1&"), Ok(OverrideCode::Color(ColorSlot::Outline, 1)));
    assert_eq!(decode(TagName::Reset, b"x"), Ok(OverrideCode::Reset(b"x".to_vec())));
}

#[test]
fn every_name_of_the_registry_is_found_under_itself() {
    let table = registry_table();
    assert_eq!(table.len(), 35);
    for tag in table {
        let name = tag.text();
        assert!(!name.is_empty());
        assert_ne!(parse_override(name.as_bytes()), Err(Error::OCInvalid));
    }
}

#[test]
fn the_names_of_the_registry_differ() {
    let table = registry_table();
    for i in 0..table.len() {
        for j in 0..table.len() {
            if i != j {
                assert_ne!(table[i].text(), table[j].text());
            }
        }
    }
}
