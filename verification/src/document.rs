//! The document: sections, and what each of them adds to the script.
//!
//! A line that begins with `[` is a header, up to the `]` that follows.
//! The body of the section begins on the next line and ends before the
//! next blank line, or with the text. Lines end with a line feed.

use vstd::prelude::*;
use vstd::slice::slice_to_vec;
use vstd::string::StringSliceAdditionalSpecFns;
use crate::cursor::{first_byte, first_pair, is_word, lemma_first_byte, lemma_first_pair, word, Cursor};
use crate::error::{Diagnostic, Error};
use crate::event::{event_row, event_start, event_keyword, parse_event};
use crate::format::{after_gap, content_start, format_of, strip_keyword, FormatTable};
use crate::script::{find_style, has_style, Outcome, Parsed, Script, ScriptView};
use crate::style::{parse_style, style_row, StyleView};
use crate::types::Section;

verus! {

/// What to do with a record that cannot be decoded.
#[derive(Clone, Copy, Debug, PartialEq, Eq, Structural)]
pub enum Policy {
    /// The parse ends with the first such record, and its diagnostic is
    /// the error.
    FailFast,
    /// The record is left out, its diagnostic is kept, and the parse goes
    /// on.
    Collect,
}

/// The bytes of each slice of `v`.
pub open spec fn slices(v: Seq<&[u8]>) -> Seq<Seq<u8>> {
    Seq::new(v.len(), |i: int| v[i]@)
}

/// The lines of `s` from index `i` on: parted at every line feed, the last
/// one ended by the end of `s`.
pub open spec fn lines_from(s: Seq<u8>, i: int) -> Seq<Seq<u8>>
    decreases s.len() - i,
{
    if i < 0 || i > s.len() {
        Seq::empty()
    } else {
        match first_byte(s, '\n' as u8, i) {
            None => seq![s.subrange(i, s.len() as int)],
            Some(feed) => {
                proof {
                    lemma_first_byte(s, '\n' as u8, i);
                }
                seq![s.subrange(i, feed)] + lines_from(s, feed + 1)
            },
        }
    }
}

/// The lines of `s`. There is always one, if an empty one.
pub open spec fn lines_of(s: Seq<u8>) -> Seq<Seq<u8>> {
    lines_from(s, 0)
}

/// The section that a header names. `V4 Styles`, as older scripts have
/// it, is the styles section too.
pub open spec fn section_named(name: Seq<u8>) -> Section {
    if name == word("Script Info") {
        Section::ScriptInfo
    } else if name == word("V4+ Styles") || name == word("V4 Styles") {
        Section::V4PlusStyles
    } else if name == word("Fonts") {
        Section::Fonts
    } else if name == word("Events") {
        Section::Events
    } else {
        Section::Unknown
    }
}

/// The key and the value of a line of script info: what stands before the
/// first `:` and what stands after it, less one space. A line without `:`
/// is no pair.
pub open spec fn info_pair(line: Seq<u8>) -> Option<(Seq<u8>, Seq<u8>)> {
    match first_byte(line, ':' as u8, 0) {
        None => None,
        Some(colon) => Some((line.take(colon), line.skip(after_gap(line, colon + 1)))),
    }
}

/// The state after the first `n` of `lines` were read as script info.
/// Lines that are no pair are passed over.
pub open spec fn info_rows(lines: Seq<Seq<u8>>, n: int, st: Parsed) -> Parsed
    decreases n,
{
    if n <= 0 {
        st
    } else {
        let cur = info_rows(lines, n - 1, st);
        match info_pair(lines[n - 1]) {
            Some(pair) => cur.with_info(pair),
            None => cur,
        }
    }
}

/// The state after a record failed with `d`: under `FailFast` the parse is
/// over, under `Collect` the diagnostic is kept.
pub open spec fn flagged(st: Parsed, d: Diagnostic, policy: Policy) -> Result<Parsed, Diagnostic> {
    match policy {
        Policy::FailFast => Err(d),
        Policy::Collect => Ok(st.with_diagnostic(d)),
    }
}

/// The style that the row `line` adds to `styles`: the style of the row,
/// which must not bear a name that is taken.
pub open spec fn new_style(styles: Seq<StyleView>, names: Seq<Seq<u8>>, line: Seq<u8>) -> Result<
    StyleView,
    Error,
> {
    match style_row(names, line) {
        Ok(style) => if has_style(styles, style.name) {
            Err(Error::StructureInvalid)
        } else {
            Ok(style)
        },
        Err(e) => Err(e),
    }
}

/// The state after the first `n` lines of a styles section, with the
/// number of style rows among them. Line 0 is the declaration. Every line
/// after it that opens with `Style:` is a record; other lines are passed
/// over.
pub open spec fn style_rows(
    names: Seq<Seq<u8>>,
    lines: Seq<Seq<u8>>,
    n: int,
    st: Parsed,
    policy: Policy,
) -> Result<(Parsed, nat), Diagnostic>
    decreases n,
{
    if n <= 1 {
        Ok((st, 0nat))
    } else {
        match style_rows(names, lines, n - 1, st, policy) {
            Err(d) => Err(d),
            Ok((cur, count)) => {
                let line = lines[n - 1];
                if content_start(line, word("Style:")) is None {
                    Ok((cur, count))
                } else {
                    match new_style(cur.script.styles, names, line) {
                        Ok(style) => Ok((cur.with_style(style), count + 1)),
                        Err(error) => match flagged(
                            cur,
                            Diagnostic {
                                section: Section::V4PlusStyles,
                                record: count as usize,
                                error,
                                span: None,
                            },
                            policy,
                        ) {
                            Ok(next) => Ok((next, count + 1)),
                            Err(d) => Err(d),
                        },
                    }
                }
            },
        }
    }
}

/// The state after the first `n` lines of an events section, with the
/// number of event rows among them. Line 0 is the declaration. Every line
/// after it that opens with `Dialogue:` or `Comment:` is a record; other
/// lines are passed over.
pub open spec fn event_rows(
    names: Seq<Seq<u8>>,
    lines: Seq<Seq<u8>>,
    n: int,
    st: Parsed,
    policy: Policy,
) -> Result<(Parsed, nat), Diagnostic>
    decreases n,
{
    if n <= 1 {
        Ok((st, 0nat))
    } else {
        match event_rows(names, lines, n - 1, st, policy) {
            Err(d) => Err(d),
            Ok((cur, count)) => {
                let line = lines[n - 1];
                if event_start(line) is None {
                    Ok((cur, count))
                } else {
                    match event_row(names, line, count as usize) {
                        Ok(event) => Ok((cur.with_event(event), count + 1)),
                        Err(d) => match flagged(cur, d, policy) {
                            Ok(next) => Ok((next, count + 1)),
                            Err(d) => Err(d),
                        },
                    }
                }
            },
        }
    }
}

/// The diagnostic for a section whose first line declares no format.
pub open spec fn no_format(section: Section) -> Diagnostic {
    Diagnostic { section, record: 0, error: Error::StructureInvalid, span: None }
}

/// The state after the section with the header `name` and the body
/// `body`. Script info adds its pairs; styles and events need a
/// declaration as their first line and add their records; any other
/// section is kept as it stands.
#[verifier::opaque]
pub open spec fn section_step(st: Parsed, name: Seq<u8>, body: Seq<u8>, policy: Policy) -> Result<
    Parsed,
    Diagnostic,
> {
    let lines = lines_of(body);
    match section_named(name) {
        Section::ScriptInfo => Ok(info_rows(lines, lines.len() as int, st)),
        Section::V4PlusStyles => match format_of(lines[0]) {
            Err(_) => Err(no_format(Section::V4PlusStyles)),
            Ok(names) => match style_rows(names, lines, lines.len() as int, st, policy) {
                Ok((next, _)) => Ok(next),
                Err(d) => Err(d),
            },
        },
        Section::Events => match format_of(lines[0]) {
            Err(_) => Err(no_format(Section::Events)),
            Ok(names) => match event_rows(names, lines, lines.len() as int, st, policy) {
                Ok((next, _)) => Ok(next),
                Err(d) => Err(d),
            },
        },
        _ => Ok(st.with_block((name, body))),
    }
}

/// The index of the line after the one that holds index `i`.
pub open spec fn line_after(s: Seq<u8>, i: int) -> int {
    match first_byte(s, '\n' as u8, i) {
        Some(feed) => feed + 1,
        None => s.len() as int,
    }
}

/// Where the body ends whose header's line ends just before index
/// `start`: at the first blank line, or with the text. The line feed that
/// ends the header's line may be the first of the two that make the blank
/// line.
pub open spec fn body_end(s: Seq<u8>, start: int) -> int {
    match first_pair(s, '\n' as u8, '\n' as u8, start - 1) {
        Some(blank) => blank,
        None => s.len() as int,
    }
}

/// The body of the section whose header closes at index `close`.
pub open spec fn body_at(s: Seq<u8>, close: int) -> Seq<u8> {
    let start = line_after(s, close);
    let end = body_end(s, start);
    if start <= end {
        s.subrange(start, end)
    } else {
        Seq::empty()
    }
}

/// Where the scan goes on after the section whose header closes at index
/// `close`: after the blank line that ends its body.
pub open spec fn after_body(s: Seq<u8>, close: int) -> int {
    match first_pair(s, '\n' as u8, '\n' as u8, line_after(s, close) - 1) {
        Some(blank) => blank + 2,
        None => s.len() as int,
    }
}

/// A line ends after the index it is asked for, and inside the text.
pub proof fn lemma_line_after(s: Seq<u8>, i: int)
    requires
        0 <= i < s.len(),
    ensures
        i < line_after(s, i) <= s.len(),
{
    lemma_first_byte(s, '\n' as u8, i);
}

/// The scan goes on after the header that it has read.
pub proof fn lemma_after_body(s: Seq<u8>, close: int)
    requires
        0 <= close < s.len(),
    ensures
        close < line_after(s, close) <= s.len(),
        line_after(s, close) - 1 <= body_end(s, line_after(s, close)) <= s.len(),
        close < after_body(s, close) <= s.len(),
{
    lemma_line_after(s, close);
    lemma_first_pair(s, '\n' as u8, '\n' as u8, line_after(s, close) - 1);
}

/// The diagnostic for a header that never closes.
pub open spec fn open_header() -> Diagnostic {
    Diagnostic { section: Section::Unknown, record: 0, error: Error::StructureInvalid, span: None }
}

/// The outcome of the document `s` from index `i` on, where a line begins
/// outside every section, after `st` was found before it.
pub open spec fn document_from(s: Seq<u8>, i: int, st: Parsed, policy: Policy) -> Result<
    Parsed,
    Diagnostic,
>
    decreases s.len() - i,
    via document_from_decreases
{
    if i < 0 || i >= s.len() {
        Ok(st)
    } else if s[i] != '[' as u8 {
        document_from(s, line_after(s, i), st, policy)
    } else {
        match first_byte(s, ']' as u8, i + 1) {
            None => Err(open_header()),
            Some(close) => match section_step(
                st,
                s.subrange(i + 1, close),
                body_at(s, close),
                policy,
            ) {
                Err(d) => Err(d),
                Ok(next) => document_from(s, after_body(s, close), next, policy),
            },
        }
    }
}

#[via_fn]
proof fn document_from_decreases(s: Seq<u8>, i: int, st: Parsed, policy: Policy) {
    if 0 <= i < s.len() {
        if s[i] != '[' as u8 {
            lemma_line_after(s, i);
        } else {
            lemma_first_byte(s, ']' as u8, i + 1);
            match first_byte(s, ']' as u8, i + 1) {
                Some(close) => {
                    lemma_after_body(s, close);
                },
                None => {},
            }
        }
    }
}

/// What the document `s` holds. Under `Collect` every record that could
/// not be decoded has its diagnostic in the outcome; under `FailFast`
/// the first of them is the error. A header that never closes and a
/// styles or events section without a declaration are errors under both.
pub open spec fn document_of(s: Seq<u8>, policy: Policy) -> Result<Parsed, Diagnostic> {
    document_from(
        s,
        0,
        Parsed { script: ScriptView::unread(s), diagnostics: Seq::empty() },
        policy,
    )
}

/// Once a row of a styles section has ended the parse, the lines after it
/// change nothing: the error stays.
pub proof fn lemma_style_rows_error_stays(
    names: Seq<Seq<u8>>,
    lines: Seq<Seq<u8>>,
    k: int,
    n: int,
    st: Parsed,
    policy: Policy,
)
    requires
        1 <= k <= n,
        style_rows(names, lines, k, st, policy) is Err,
    ensures
        style_rows(names, lines, n, st, policy) == style_rows(names, lines, k, st, policy),
    decreases n - k,
{
    if k < n {
        lemma_style_rows_error_stays(names, lines, k, n - 1, st, policy);
    }
}

/// Once a row of an events section has ended the parse, the lines after
/// it change nothing: the error stays.
pub proof fn lemma_event_rows_error_stays(
    names: Seq<Seq<u8>>,
    lines: Seq<Seq<u8>>,
    k: int,
    n: int,
    st: Parsed,
    policy: Policy,
)
    requires
        1 <= k <= n,
        event_rows(names, lines, k, st, policy) is Err,
    ensures
        event_rows(names, lines, n, st, policy) == event_rows(names, lines, k, st, policy),
    decreases n - k,
{
    if k < n {
        lemma_event_rows_error_stays(names, lines, k, n - 1, st, policy);
    }
}

/// Reading script info leaves the diagnostics as they were.
pub proof fn lemma_info_rows_keep(lines: Seq<Seq<u8>>, n: int, st: Parsed)
    ensures
        info_rows(lines, n, st).diagnostics == st.diagnostics,
    decreases n,
{
    if n > 0 {
        lemma_info_rows_keep(lines, n - 1, st);
    }
}

/// The two policies on the rows of a styles section. Where `FailFast`
/// gets through, it has added no diagnostic and `Collect` finds the same.
/// `Collect` always gets through and takes no diagnostic away; where it
/// has added none, `FailFast` finds the same.
pub proof fn lemma_style_rows_policies(
    names: Seq<Seq<u8>>,
    lines: Seq<Seq<u8>>,
    n: int,
    st: Parsed,
)
    ensures
        style_rows(names, lines, n, st, Policy::FailFast) matches Ok(r) ==> r.0.diagnostics
            == st.diagnostics && style_rows(names, lines, n, st, Policy::Collect) == Ok::<
            (Parsed, nat),
            Diagnostic,
        >(r),
        style_rows(names, lines, n, st, Policy::Collect) matches Ok(r) && r.0.diagnostics.len()
            >= st.diagnostics.len() && (r.0.diagnostics.len() == st.diagnostics.len()
            ==> style_rows(names, lines, n, st, Policy::FailFast) == Ok::<
            (Parsed, nat),
            Diagnostic,
        >(r)),
    decreases n,
{
    if n > 1 {
        lemma_style_rows_policies(names, lines, n - 1, st);
    }
}

/// The two policies on the rows of an events section. Where `FailFast`
/// gets through, it has added no diagnostic and `Collect` finds the same.
/// `Collect` always gets through and takes no diagnostic away; where it
/// has added none, `FailFast` finds the same.
pub proof fn lemma_event_rows_policies(
    names: Seq<Seq<u8>>,
    lines: Seq<Seq<u8>>,
    n: int,
    st: Parsed,
)
    ensures
        event_rows(names, lines, n, st, Policy::FailFast) matches Ok(r) ==> r.0.diagnostics
            == st.diagnostics && event_rows(names, lines, n, st, Policy::Collect) == Ok::<
            (Parsed, nat),
            Diagnostic,
        >(r),
        event_rows(names, lines, n, st, Policy::Collect) matches Ok(r) && r.0.diagnostics.len()
            >= st.diagnostics.len() && (r.0.diagnostics.len() == st.diagnostics.len()
            ==> event_rows(names, lines, n, st, Policy::FailFast) == Ok::<
            (Parsed, nat),
            Diagnostic,
        >(r)),
    decreases n,
{
    if n > 1 {
        lemma_event_rows_policies(names, lines, n - 1, st);
    }
}

/// The two policies on one section. Where `FailFast` gets through, it has
/// added no diagnostic and `Collect` finds the same. Where `Collect` gets
/// through, it has taken no diagnostic away, and where it has added none,
/// `FailFast` finds the same.
pub proof fn lemma_section_policies(st: Parsed, name: Seq<u8>, body: Seq<u8>)
    ensures
        section_step(st, name, body, Policy::FailFast) matches Ok(p) ==> p.diagnostics
            == st.diagnostics && section_step(st, name, body, Policy::Collect) == Ok::<
            Parsed,
            Diagnostic,
        >(p),
        section_step(st, name, body, Policy::Collect) matches Ok(p) ==> p.diagnostics.len()
            >= st.diagnostics.len() && (p.diagnostics.len() == st.diagnostics.len()
            ==> section_step(st, name, body, Policy::FailFast) == Ok::<Parsed, Diagnostic>(p)),
{
    reveal(section_step);
    let lines = lines_of(body);
    lemma_info_rows_keep(lines, lines.len() as int, st);
    match format_of(lines[0]) {
        Ok(names) => {
            lemma_style_rows_policies(names, lines, lines.len() as int, st);
            lemma_event_rows_policies(names, lines, lines.len() as int, st);
        },
        Err(_) => {},
    }
}

/// The two policies on a document from index `i` on. Where `FailFast`
/// gets through, it has added no diagnostic and `Collect` finds the same.
/// Where `Collect` gets through, it has taken no diagnostic away, and
/// where it has added none, `FailFast` finds the same.
pub proof fn lemma_document_policies(s: Seq<u8>, i: int, st: Parsed)
    ensures
        document_from(s, i, st, Policy::FailFast) matches Ok(p) ==> p.diagnostics
            == st.diagnostics && document_from(s, i, st, Policy::Collect) == Ok::<
            Parsed,
            Diagnostic,
        >(p),
        document_from(s, i, st, Policy::Collect) matches Ok(p) ==> p.diagnostics.len()
            >= st.diagnostics.len() && (p.diagnostics.len() == st.diagnostics.len()
            ==> document_from(s, i, st, Policy::FailFast) == Ok::<Parsed, Diagnostic>(p)),
    decreases s.len() - i,
{
    if 0 <= i < s.len() {
        if s[i] != '[' as u8 {
            lemma_line_after(s, i);
            lemma_document_policies(s, line_after(s, i), st);
        } else {
            lemma_first_byte(s, ']' as u8, i + 1);
            match first_byte(s, ']' as u8, i + 1) {
                None => {},
                Some(close) => {
                    lemma_after_body(s, close);
                    let name = s.subrange(i + 1, close);
                    let body = body_at(s, close);
                    lemma_section_policies(st, name, body);
                    match section_step(st, name, body, Policy::FailFast) {
                        Ok(next) => {
                            lemma_document_policies(s, after_body(s, close), next);
                        },
                        Err(_) => {},
                    }
                    match section_step(st, name, body, Policy::Collect) {
                        Ok(next) => {
                            lemma_document_policies(s, after_body(s, close), next);
                        },
                        Err(_) => {},
                    }
                },
            }
        }
    }
}

/// The two policies agree on every document that has no record at fault:
/// `FailFast` finds a script just when `Collect` finds one without
/// diagnostics, and then both find the same.
pub proof fn lemma_policies_agree(s: Seq<u8>)
    ensures
        document_of(s, Policy::FailFast) matches Ok(p) ==> p.diagnostics.len() == 0
            && document_of(s, Policy::Collect) == Ok::<Parsed, Diagnostic>(p),
        document_of(s, Policy::Collect) matches Ok(p) ==> (p.diagnostics.len() == 0
            ==> document_of(s, Policy::FailFast) == Ok::<Parsed, Diagnostic>(p)),
{
    lemma_document_policies(
        s,
        0,
        Parsed { script: ScriptView::unread(s), diagnostics: Seq::empty() },
    );
}

/// Splits `body` into its lines.
pub fn split_lines<'a>(body: &'a [u8]) -> (lines: Vec<&'a [u8]>)
    ensures
        slices(lines@) == lines_of(body@),
        lines@.len() >= 1,
{
    let mut c = Cursor::new(body);
    let len = c.len();
    let mut out: Vec<&'a [u8]> = Vec::new();
    assert(slices(out@) =~= Seq::<Seq<u8>>::empty());
    assert(Seq::<Seq<u8>>::empty() + lines_from(body@, 0) =~= lines_from(body@, 0));
    loop
        invariant
            c.input() == body@,
            len == body@.len(),
            0 <= c.pos() <= len,
            lines_of(body@) == slices(out@) + lines_from(body@, c.pos()),
        decreases len - c.pos(),
    {
        let start = c.position();
        let ghost before = slices(out@);
        proof {
            lemma_first_byte(body@, '\n' as u8, start as int);
        }
        match c.find('\n' as u8) {
            None => {
                out.push(c.rest());
                proof {
                    let last = seq![body@.subrange(start as int, len as int)];
                    assert(slices(out@) =~= before + last);
                }
                return out;
            },
            Some(feed) => {
                let line = match c.slice(start, feed) {
                    Some(line) => line,
                    None => {
                        return out;
                    },
                };
                out.push(line);
                c.seek(feed + 1);
                proof {
                    let one = seq![body@.subrange(start as int, feed as int)];
                    let rest = lines_from(body@, feed + 1);
                    assert(slices(out@) =~= before + one);
                    assert(before + (one + rest) =~= (before + one) + rest);
                }
            },
        }
    }
}

/// The section that a header names.
pub fn section_of(name: &[u8]) -> (section: Section)
    ensures
        section == section_named(name@),
{
    if is_word(name, "Script Info") {
        Section::ScriptInfo
    } else if is_word(name, "V4+ Styles") || is_word(name, "V4 Styles") {
        Section::V4PlusStyles
    } else if is_word(name, "Fonts") {
        Section::Fonts
    } else if is_word(name, "Events") {
        Section::Events
    } else {
        Section::Unknown
    }
}

/// Reads one line of script info.
fn read_pair(line: &[u8]) -> (r: Option<(Vec<u8>, Vec<u8>)>)
    ensures
        match r {
            Some(pair) => info_pair(line@) == Some((pair.0@, pair.1@)),
            None => info_pair(line@).is_none(),
        },
{
    let mut c = Cursor::new(line);
    let len = c.len();
    proof {
        lemma_first_byte(line@, ':' as u8, 0);
    }
    let colon = match c.find(':' as u8) {
        Some(colon) => colon,
        None => {
            return None;
        },
    };
    let key = match c.slice(0, colon) {
        Some(key) => key,
        None => {
            return None;
        },
    };
    c.seek(colon + 1);
    match c.peek() {
        Ok(b) => {
            if b == ' ' as u8 {
                c.advance();
            }
        },
        Err(_) => {},
    }
    let value = c.rest();
    assert(key@ =~= line@.take(colon as int));
    assert(value@ =~= line@.skip(after_gap(line@, colon + 1)));
    Some((slice_to_vec(key), slice_to_vec(value)))
}

/// Adds the pairs of a script info section to `out`.
fn read_info(out: &mut Outcome, lines: &Vec<&[u8]>)
    ensures
        final(out)@ == info_rows(slices(lines@), lines@.len() as int, old(out)@),
        final(out)@.script.styles == old(out)@.script.styles,
        final(out)@.script.buf == old(out)@.script.buf,
        final(out)@.diagnostics == old(out)@.diagnostics,
{
    let n = lines.len();
    let mut k: usize = 0;
    while k < n
        invariant
            k <= n,
            n == lines@.len(),
            out@ == info_rows(slices(lines@), k as int, old(out)@),
            out@.script.styles == old(out)@.script.styles,
            out@.script.buf == old(out)@.script.buf,
            out@.diagnostics == old(out)@.diagnostics,
        decreases n - k,
    {
        let ghost cur = out@;
        match read_pair(lines[k]) {
            Some(pair) => {
                let ghost p = (pair.0@, pair.1@);
                out.script.info.push(pair);
                proof {
                    assert(out@.script.info =~= cur.script.info.push(p));
                    assert(out@ == cur.with_info(p));
                }
            },
            None => {},
        }
        k = k + 1;
    }
}

/// The diagnostic for record `record` of section `section`.
fn diagnose(section: Section, record: usize, error: Error) -> (d: Diagnostic)
    ensures
        d == (Diagnostic { section, record, error, span: None }),
{
    Diagnostic { section, record, error, span: None }
}

/// Adds the records of a styles section, whose declaration is `format`, to
/// `out`.
fn read_styles(out: &mut Outcome, format: &FormatTable, lines: &Vec<&[u8]>, policy: Policy) -> (r:
    Result<(), Diagnostic>)
    requires
        lines@.len() >= 1,
        old(out)@.script.well_formed(),
        policy == Policy::FailFast ==> old(out)@.diagnostics.len() == 0,
    ensures
        match r {
            Ok(_) => style_rows(format@, slices(lines@), lines@.len() as int, old(out)@, policy)
                matches Ok((st, _)) && st == final(out)@,
            Err(d) => style_rows(format@, slices(lines@), lines@.len() as int, old(out)@, policy)
                == Err::<(Parsed, nat), Diagnostic>(d),
        },
        r is Ok ==> final(out)@.script.well_formed(),
        r is Ok ==> final(out)@.script.buf == old(out)@.script.buf,
        r is Ok && policy == Policy::FailFast ==> final(out)@.diagnostics.len() == 0,
{
    let n = lines.len();
    let mut k: usize = 1;
    let mut count: usize = 0;
    while k < n
        invariant
            1 <= k <= n,
            count < k,
            n == lines@.len(),
            style_rows(format@, slices(lines@), k as int, old(out)@, policy) == Ok::<
                (Parsed, nat),
                Diagnostic,
            >((out@, count as nat)),
            out@.script.well_formed(),
            out@.script.buf == old(out)@.script.buf,
            policy == Policy::FailFast ==> out@.diagnostics.len() == 0,
        decreases n - k,
    {
        let ghost cur = out@;
        let line = lines[k];
        assert(slices(lines@)[k as int] == line@);
        if strip_keyword(line, "Style:").is_some() {
            let found = match parse_style(format, line) {
                Ok(style) => {
                    if find_style(&out.script.styles, style.name.as_slice()).is_some() {
                        Err(Error::StructureInvalid)
                    } else {
                        Ok(style)
                    }
                },
                Err(e) => Err(e),
            };
            match found {
                Ok(style) => {
                    let ghost sv = style@;
                    out.script.styles.push(style);
                    proof {
                        assert(out@.script.styles =~= cur.script.styles.push(sv));
                        assert(out@ == cur.with_style(sv));
                        assert(!has_style(cur.script.styles, sv.name));
                        assert forall|i: int, j: int|
                            0 <= i < j < out@.script.styles.len() implies (
                        #[trigger] out@.script.styles[i]).name != (
                        #[trigger] out@.script.styles[j]).name by {
                            if j == cur.script.styles.len() {
                                assert(cur.script.styles[i].name != sv.name);
                            } else {
                                assert(cur.script.styles[i].name != cur.script.styles[j].name);
                            }
                        }
                        assert forall|i: int| 0 <= i < out@.script.styles.len() implies (
                        #[trigger] out@.script.styles[i]).name.len() > 0 by {
                            if i < cur.script.styles.len() {
                                assert(cur.script.styles[i].name.len() > 0);
                            }
                        }
                    }
                },
                Err(e) => {
                    let d = diagnose(Section::V4PlusStyles, count, e);
                    match policy {
                        Policy::FailFast => {
                            proof {
                                lemma_style_rows_error_stays(
                                    format@,
                                    slices(lines@),
                                    k + 1,
                                    n as int,
                                    old(out)@,
                                    policy,
                                );
                            }
                            return Err(d);
                        },
                        Policy::Collect => {
                            out.diagnostics.push(d);
                            proof {
                                assert(out@ == cur.with_diagnostic(d));
                            }
                        },
                    }
                },
            }
            count = count + 1;
        }
        k = k + 1;
    }
    Ok(())
}

/// Adds the records of an events section, whose declaration is `format`,
/// to `out`.
fn read_events(out: &mut Outcome, format: &FormatTable, lines: &Vec<&[u8]>, policy: Policy) -> (r:
    Result<(), Diagnostic>)
    requires
        lines@.len() >= 1,
        policy == Policy::FailFast ==> old(out)@.diagnostics.len() == 0,
    ensures
        match r {
            Ok(_) => event_rows(format@, slices(lines@), lines@.len() as int, old(out)@, policy)
                matches Ok((st, _)) && st == final(out)@,
            Err(d) => event_rows(format@, slices(lines@), lines@.len() as int, old(out)@, policy)
                == Err::<(Parsed, nat), Diagnostic>(d),
        },
        r is Ok ==> final(out)@.script.styles == old(out)@.script.styles,
        r is Ok ==> final(out)@.script.buf == old(out)@.script.buf,
        r is Ok && policy == Policy::FailFast ==> final(out)@.diagnostics.len() == 0,
{
    let n = lines.len();
    let mut k: usize = 1;
    let mut count: usize = 0;
    while k < n
        invariant
            1 <= k <= n,
            count < k,
            n == lines@.len(),
            event_rows(format@, slices(lines@), k as int, old(out)@, policy) == Ok::<
                (Parsed, nat),
                Diagnostic,
            >((out@, count as nat)),
            out@.script.styles == old(out)@.script.styles,
            out@.script.buf == old(out)@.script.buf,
            policy == Policy::FailFast ==> out@.diagnostics.len() == 0,
        decreases n - k,
    {
        let ghost cur = out@;
        let line = lines[k];
        assert(slices(lines@)[k as int] == line@);
        if event_keyword(line).is_some() {
            match parse_event(format, line, count) {
                Ok(event) => {
                    let ghost ev = event@;
                    out.script.events.push(event);
                    proof {
                        assert(out@.script.events =~= cur.script.events.push(ev));
                        assert(out@ == cur.with_event(ev));
                    }
                },
                Err(d) => {
                    match policy {
                        Policy::FailFast => {
                            proof {
                                lemma_event_rows_error_stays(
                                    format@,
                                    slices(lines@),
                                    k + 1,
                                    n as int,
                                    old(out)@,
                                    policy,
                                );
                            }
                            return Err(d);
                        },
                        Policy::Collect => {
                            out.diagnostics.push(d);
                            proof {
                                assert(out@ == cur.with_diagnostic(d));
                            }
                        },
                    }
                },
            }
            count = count + 1;
        }
        k = k + 1;
    }
    Ok(())
}

/// Adds what the section with the header `name` and the body `body` holds
/// to `out`.
fn read_section(out: &mut Outcome, name: &[u8], body: &[u8], policy: Policy) -> (r: Result<
    (),
    Diagnostic,
>)
    requires
        old(out)@.script.well_formed(),
        policy == Policy::FailFast ==> old(out)@.diagnostics.len() == 0,
    ensures
        match r {
            Ok(_) => section_step(old(out)@, name@, body@, policy) == Ok::<Parsed, Diagnostic>(
                final(out)@,
            ),
            Err(d) => section_step(old(out)@, name@, body@, policy) == Err::<Parsed, Diagnostic>(
                d,
            ),
        },
        r is Ok ==> final(out)@.script.well_formed(),
        r is Ok ==> final(out)@.script.buf == old(out)@.script.buf,
        r is Ok && policy == Policy::FailFast ==> final(out)@.diagnostics.len() == 0,
{
    reveal(section_step);
    let lines = split_lines(body);
    let ghost cur = out@;
    match section_of(name) {
        Section::ScriptInfo => {
            read_info(out, &lines);
            Ok(())
        },
        Section::V4PlusStyles => {
            assert(slices(lines@)[0] == lines@[0]@);
            match FormatTable::parse(lines[0]) {
                Err(_) => Err(diagnose(Section::V4PlusStyles, 0, Error::StructureInvalid)),
                Ok(format) => read_styles(out, &format, &lines, policy),
            }
        },
        Section::Events => {
            assert(slices(lines@)[0] == lines@[0]@);
            match FormatTable::parse(lines[0]) {
                Err(_) => Err(diagnose(Section::Events, 0, Error::StructureInvalid)),
                Ok(format) => read_events(out, &format, &lines, policy),
            }
        },
        _ => {
            let ghost block = (name@, body@);
            out.script.blocks.push((slice_to_vec(name), slice_to_vec(body)));
            proof {
                assert(out@.script.blocks =~= cur.script.blocks.push(block));
                assert(out@ == cur.with_block(block));
            }
            Ok(())
        },
    }
}

/// Whether `r` is the outcome `m`, its state taken as a mathematical value.
pub open spec fn outcome_agrees(r: Result<Outcome, Diagnostic>, m: Result<Parsed, Diagnostic>) -> bool {
    match r {
        Ok(outcome) => m == Ok::<Parsed, Diagnostic>(outcome@),
        Err(d) => m == Err::<Parsed, Diagnostic>(d),
    }
}

/// Parses a whole document under the policy `policy`.
///
/// Every input has an outcome: there is no text on which the parse does
/// not end, and none on which it reads outside the text. The script that
/// comes out is well formed; under `FailFast` it comes without
/// diagnostics.
pub fn parse_document(r: &[u8], policy: Policy) -> (outcome: Result<Outcome, Diagnostic>)
    ensures
        outcome_agrees(outcome, document_of(r@, policy)),
        outcome matches Ok(o) ==> o@.script.well_formed() && o@.script.buf == r@,
        outcome matches Ok(o) ==> (policy == Policy::FailFast ==> o@.diagnostics.len() == 0),
{
    let mut out = Outcome {
        script: Script {
            buf: slice_to_vec(r),
            info: Vec::new(),
            styles: Vec::new(),
            events: Vec::new(),
            blocks: Vec::new(),
        },
        diagnostics: Vec::new(),
    };
    proof {
        assert(out@.script.info =~= Seq::<(Seq<u8>, Seq<u8>)>::empty());
        assert(out@.script.blocks =~= Seq::<(Seq<u8>, Seq<u8>)>::empty());
        assert(out@.script.styles =~= Seq::<StyleView>::empty());
        assert(out@.script.events =~= Seq::empty());
        assert(out@.script == ScriptView::unread(r@));
    }
    let mut c = Cursor::new(r);
    let len = c.len();
    loop
        invariant
            c.input() == r@,
            len == r@.len(),
            0 <= c.pos() <= len,
            document_of(r@, policy) == document_from(r@, c.pos(), out@, policy),
            out@.script.well_formed(),
            out@.script.buf == r@,
            policy == Policy::FailFast ==> out@.diagnostics.len() == 0,
        ensures
            c.pos() == len,
        decreases len - c.pos(),
    {
        let at = c.position();
        match c.peek() {
            Err(_) => {
                break ;
            },
            Ok(b) => {
                if b != '[' as u8 {
                    proof {
                        lemma_line_after(r@, at as int);
                    }
                    match c.find('\n' as u8) {
                        Some(feed) => {
                            c.seek(feed + 1);
                        },
                        None => {
                            c.seek(len);
                        },
                    }
                } else {
                    c.advance();
                    proof {
                        lemma_first_byte(r@, ']' as u8, at + 1);
                    }
                    let close = match c.find(']' as u8) {
                        Some(close) => close,
                        None => {
                            return Err(diagnose(Section::Unknown, 0, Error::StructureInvalid));
                        },
                    };
                    proof {
                        lemma_after_body(r@, close as int);
                    }
                    let name = match c.slice(at + 1, close) {
                        Some(name) => name,
                        None => {
                            return Err(diagnose(Section::Unknown, 0, Error::StructureInvalid));
                        },
                    };
                    c.seek(close);
                    let start = match c.find('\n' as u8) {
                        Some(feed) => feed + 1,
                        None => len,
                    };
                    c.seek(start - 1);
                    let blank = c.find_pair('\n' as u8, '\n' as u8);
                    let end = match blank {
                        Some(blank) => blank,
                        None => len,
                    };
                    let next = match blank {
                        Some(blank) => blank + 2,
                        None => len,
                    };
                    let body = if start <= end {
                        match c.slice(start, end) {
                            Some(body) => body,
                            None => {
                                return Err(diagnose(Section::Unknown, 0, Error::StructureInvalid));
                            },
                        }
                    } else {
                        match c.slice(start, start) {
                            Some(body) => body,
                            None => {
                                return Err(diagnose(Section::Unknown, 0, Error::StructureInvalid));
                            },
                        }
                    };
                    assert(body@ =~= body_at(r@, close as int));
                    match read_section(&mut out, name, body, policy) {
                        Ok(_) => {},
                        Err(d) => {
                            return Err(d);
                        },
                    }
                    c.seek(next);
                }
            },
        }
    }
    Ok(out)
}

/// Parses the document `tr` into a script. The first record that cannot
/// be decoded ends the parse.
pub fn parse_sections(tr: &str) -> (script: Result<Script, Diagnostic>)
    ensures
        match script {
            Ok(found) => document_of(tr.spec_bytes(), Policy::FailFast) == Ok::<
                Parsed,
                Diagnostic,
            >(Parsed { script: found@, diagnostics: Seq::empty() }) && found@.well_formed(),
            Err(d) => document_of(tr.spec_bytes(), Policy::FailFast) == Err::<Parsed, Diagnostic>(
                d,
            ),
        },
{
    match parse_document(tr.as_bytes(), Policy::FailFast) {
        Ok(outcome) => {
            assert(outcome@.diagnostics =~= Seq::<Diagnostic>::empty());
            Ok(outcome.script)
        },
        Err(d) => Err(d),
    }
}

} // verus!
