use backside::error::Error;
use backside::format::{parse_format, strip_keyword, FormatTable};

fn names(list: &[&str]) -> Vec<Vec<u8>> {
    list.iter().map(|s| s.as_bytes().to_vec()).collect()
}

fn pair(name: &str, value: &str) -> (Vec<u8>, Vec<u8>) {
    (name.as_bytes().to_vec(), value.as_bytes().to_vec())
}

#[test]
fn format_line_yields_its_names() {
    assert_eq!(
        parse_format(b"Format: Name, Fontsize, Bold"),
        Ok(names(&["Name", "Fontsize", "Bold"]))
    );
}

#[test]
fn both_separators_parse_alike() {
    let spaced = parse_format(b"Format: Name, Fontsize, Bold");
    let tight = parse_format(b"Format: Name,Fontsize,Bold");
    let bare = parse_format(b"Format:Name,Fontsize,Bold");
    assert_eq!(spaced, tight);
    assert_eq!(spaced, bare);
}

#[test]
fn only_one_space_belongs_to_the_separator() {
    assert_eq!(parse_format(b"Format: A,  B"), Ok(names(&["A", " B"])));
    assert_eq!(parse_format(b"Format:  A"), Ok(names(&[" A"])));
    assert_eq!(parse_format(b"Format: A ,B"), Ok(names(&["A ", "B"])));
}

#[test]
fn last_field_ends_with_the_line() {
    assert_eq!(parse_format(b"Format: A"), Ok(names(&["A"])));
    assert_eq!(parse_format(b"Format: A,"), Ok(names(&["A", ""])));
    assert_eq!(parse_format(b"Format: A, "), Ok(names(&["A", ""])));
    assert_eq!(parse_format(b"Format:"), Ok(names(&[""])));
    assert_eq!(parse_format(b"Format: "), Ok(names(&[""])));
    assert_eq!(parse_format(b"Format: ,"), Ok(names(&["", ""])));
}

#[test]
fn line_without_the_keyword_declares_nothing() {
    assert_eq!(parse_format(b"Style: Name"), Err(Error::StructureInvalid));
    assert_eq!(parse_format(b""), Err(Error::StructureInvalid));
    assert_eq!(parse_format(b"format: Name"), Err(Error::StructureInvalid));
    assert_eq!(parse_format(b" Format: Name"), Err(Error::StructureInvalid));
    assert_eq!(parse_format(b"Format"), Err(Error::StructureInvalid));
}

#[test]
fn strip_keyword_steps_over_one_space() {
    assert_eq!(strip_keyword(b"Style: x", "Style:"), Some(7));
    assert_eq!(strip_keyword(b"Style:x", "Style:"), Some(6));
    assert_eq!(strip_keyword(b"Style:  x", "Style:"), Some(7));
    assert_eq!(strip_keyword(b"Style:", "Style:"), Some(6));
    assert_eq!(strip_keyword(b"Styl", "Style:"), None);
}

#[test]
fn apply_maps_values_onto_names() {
    let table = FormatTable::parse(b"Format: Name, Fontsize, Bold").unwrap();
    assert_eq!(
        table.apply(b"Default,20,-1"),
        Ok(vec![pair("Name", "Default"), pair("Fontsize", "20"), pair("Bold", "-1")])
    );
}

#[test]
fn apply_with_fewer_values_fails() {
    let table = FormatTable::parse(b"Format: Name, Fontsize, Bold").unwrap();
    assert_eq!(table.apply(b"Default,20"), Err(Error::StructureInvalid));
    assert_eq!(table.apply(b"Default"), Err(Error::StructureInvalid));
    assert_eq!(table.apply(b""), Err(Error::StructureInvalid));
}

#[test]
fn apply_merges_excess_into_last_field() {
    let table = FormatTable { fields: names(&["Name", "Text"]) };
    assert_eq!(
        table.apply(b"Name,Hello, world"),
        Ok(vec![pair("Name", "Name"), pair("Text", "Hello, world")])
    );
    assert_eq!(
        table.apply(b"n,a,b,,c,"),
        Ok(vec![pair("Name", "n"), pair("Text", "a,b,,c,")])
    );
}

#[test]
fn apply_takes_the_separator_with_or_without_space() {
    let table = FormatTable { fields: names(&["A", "B", "C"]) };
    assert_eq!(table.apply(b"1, 2, 3"), Ok(vec![pair("A", "1"), pair("B", "2"), pair("C", "3")]));
    assert_eq!(table.apply(b"1,2,3"), Ok(vec![pair("A", "1"), pair("B", "2"), pair("C", "3")]));
    assert_eq!(table.apply(b",,"), Ok(vec![pair("A", ""), pair("B", ""), pair("C", "")]));
}

#[test]
fn apply_with_one_name_takes_the_whole_row() {
    let table = FormatTable { fields: names(&["Text"]) };
    assert_eq!(table.apply(b"a,b"), Ok(vec![pair("Text", "a,b")]));
    assert_eq!(table.apply(b""), Ok(vec![pair("Text", "")]));
}

#[test]
fn apply_with_no_names_gives_an_empty_record() {
    let table = FormatTable { fields: Vec::new() };
    assert_eq!(table.apply(b"a,b"), Ok(vec![]));
}

#[test]
fn apply_does_not_return_the_row_unchanged() {
    let table = FormatTable { fields: names(&["A", "B"]) };
    let record = table.apply(b"x,y").unwrap();
    assert_eq!(record.len(), 2);
    assert_eq!(record[0].1, b"x".to_vec());
    assert_eq!(record[1].1, b"y".to_vec());
}
