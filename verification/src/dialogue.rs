//! The text of an event: literal runs and override blocks.
//!
//! A `{` opens a block and the next `}` closes it. A block that begins
//! with `\` holds override codes, each from one `\` to the next; any other
//! block is a comment and leaves nothing behind. Outside blocks a `\` takes
//! the byte after it along, so `\{` opens nothing, and `\N`, `\n` and `\h`
//! stay in the literal text as they are written.

use vstd::prelude::*;
use vstd::slice::slice_to_vec;
use crate::cursor::{first_byte, lemma_first_byte, lemma_first_byte_skip, Cursor};
use crate::error::Error;
use crate::overrides::{override_of, parse_override};
use crate::types::{runs_view, Run, RunView};

verus! {

/// An error and the bytes of the text that it is about: from index
/// `start` up to, not including, index `end`.
#[derive(Clone, Copy, Debug, PartialEq, Eq, Structural)]
pub struct Fault {
    pub error: Error,
    pub start: usize,
    pub end: usize,
}

impl Fault {
    /// This fault, seen from a text in which its own begins at index `by`.
    pub open spec fn shifted(self, by: int) -> Fault {
        Fault { error: self.error, start: (self.start + by) as usize, end: (self.end + by) as usize }
    }
}

/// `first`, then the runs of `rest`; the fault of `rest` where it has one.
pub open spec fn prepend(first: Seq<RunView>, rest: Result<Seq<RunView>, Fault>) -> Result<
    Seq<RunView>,
    Fault,
> {
    match rest {
        Ok(runs) => Ok(first + runs),
        Err(fault) => Err(fault),
    }
}

/// Where the literal text that begins at index `i` of `s` ends: at the
/// next `{` that no `\` takes along, or at the end of `s`.
pub open spec fn literal_end(s: Seq<u8>, i: int) -> int
    decreases s.len() - i,
{
    if i < 0 || i >= s.len() {
        s.len() as int
    } else if s[i] == '{' as u8 {
        i
    } else if s[i] == '\\' as u8 && i + 1 < s.len() {
        literal_end(s, i + 2)
    } else {
        literal_end(s, i + 1)
    }
}

/// Literal text ends inside the buffer, and after its first byte where
/// that byte opens no block.
pub proof fn lemma_literal_end(s: Seq<u8>, i: int)
    requires
        0 <= i <= s.len(),
    ensures
        i <= literal_end(s, i) <= s.len(),
        i < s.len() && s[i] != '{' as u8 ==> i < literal_end(s, i),
    decreases s.len() - i,
{
    if i < s.len() && s[i] != '{' as u8 {
        if s[i] == '\\' as u8 && i + 1 < s.len() {
            lemma_literal_end(s, i + 2);
        } else {
            lemma_literal_end(s, i + 1);
        }
    }
}

/// Where the tag span that begins at index `i` of a block's content ends:
/// at the next `\`, or at the end of the content.
pub open spec fn span_end(content: Seq<u8>, i: int) -> int {
    match first_byte(content, '\\' as u8, i) {
        Some(k) => k,
        None => content.len() as int,
    }
}

/// The codes of a block's content from index `i` on, where a span begins.
pub open spec fn codes_from(content: Seq<u8>, i: int) -> Result<Seq<RunView>, Fault>
    decreases content.len() - i,
{
    let stop = span_end(content, i);
    if i < 0 || i > content.len() {
        Ok(Seq::empty())
    } else {
        match override_of(content.subrange(i, stop)) {
            Err(error) => Err(Fault { error, start: i as usize, end: stop as usize }),
            Ok(code) => if stop >= content.len() {
                Ok(seq![RunView::Tag(code)])
            } else {
                proof {
                    lemma_first_byte(content, '\\' as u8, i);
                }
                prepend(seq![RunView::Tag(code)], codes_from(content, stop + 1))
            },
        }
    }
}

/// A fault among the codes of a block lies inside the block's content.
pub proof fn lemma_codes_fault_within(content: Seq<u8>, i: int)
    requires
        0 <= i <= content.len() <= usize::MAX,
    ensures
        codes_from(content, i) matches Err(fault) ==> i <= fault.start <= fault.end
            <= content.len(),
    decreases content.len() - i,
{
    lemma_first_byte(content, '\\' as u8, i);
    let stop = span_end(content, i);
    if override_of(content.subrange(i, stop)) is Ok && stop < content.len() {
        lemma_codes_fault_within(content, stop + 1);
    }
}

/// The runs that a block with this content leaves: its codes where it
/// begins with `\`, nothing where it is a comment.
pub open spec fn block_runs(content: Seq<u8>) -> Result<Seq<RunView>, Fault> {
    if content.len() > 0 && content[0] == '\\' as u8 {
        codes_from(content, 1)
    } else {
        Ok(Seq::empty())
    }
}

/// The runs of the text `s` from index `i` on.
pub open spec fn runs_from(s: Seq<u8>, i: int) -> Result<Seq<RunView>, Fault>
    decreases s.len() - i,
{
    if i < 0 || i >= s.len() {
        Ok(Seq::empty())
    } else if s[i] == '{' as u8 {
        match first_byte(s, '}' as u8, i + 1) {
            None => Err(
                Fault { error: Error::StructureInvalid, start: i as usize, end: s.len() as usize },
            ),
            Some(close) => {
                proof {
                    lemma_first_byte(s, '}' as u8, i + 1);
                }
                match block_runs(s.subrange(i + 1, close)) {
                    Err(fault) => Err(fault.shifted(i + 1)),
                    Ok(codes) => prepend(codes, runs_from(s, close + 1)),
                }
            },
        }
    } else {
        proof {
            lemma_literal_end(s, i);
        }
        let end = literal_end(s, i);
        prepend(seq![RunView::Literal(s.subrange(i, end))], runs_from(s, end))
    }
}

/// The runs of the text `s`, or the first fault in it.
pub open spec fn runs_of(s: Seq<u8>) -> Result<Seq<RunView>, Fault> {
    runs_from(s, 0)
}

/// Whether `r` is the outcome `m`, its runs taken as mathematical values.
pub open spec fn runs_agree(r: Result<Vec<Run>, Fault>, m: Result<Seq<RunView>, Fault>) -> bool {
    match r {
        Ok(runs) => m == Ok::<Seq<RunView>, Fault>(runs_view(runs@)),
        Err(fault) => m == Err::<Seq<RunView>, Fault>(fault),
    }
}

/// A fault lies inside the text: it begins at or after the index from
/// which the text was read, and ends no later than the text.
pub proof fn lemma_fault_within(s: Seq<u8>, i: int)
    requires
        0 <= i <= s.len() <= usize::MAX,
    ensures
        runs_from(s, i) matches Err(fault) ==> i <= fault.start <= fault.end <= s.len(),
    decreases s.len() - i,
{
    if i < s.len() {
        if s[i] == '{' as u8 {
            lemma_first_byte(s, '}' as u8, i + 1);
            match first_byte(s, '}' as u8, i + 1) {
                None => {},
                Some(close) => {
                    let content = s.subrange(i + 1, close);
                    if content.len() > 0 {
                        lemma_codes_fault_within(content, 1);
                    }
                    lemma_fault_within(s, close + 1);
                },
            }
        } else {
            lemma_literal_end(s, i);
            lemma_fault_within(s, literal_end(s, i));
        }
    }
}

/// A block that is never closed is `StructureInvalid`, and the fault runs
/// from its `{` to the end of the text, whatever stands after the `{`.
pub proof fn lemma_unclosed_block(s: Seq<u8>, i: int)
    requires
        0 <= i < s.len(),
        s[i] == '{' as u8,
        forall|j: int| i < j < s.len() ==> s[j] != '}' as u8,
    ensures
        runs_from(s, i) == Err::<Seq<RunView>, Fault>(
            Fault { error: Error::StructureInvalid, start: i as usize, end: s.len() as usize },
        ),
{
    lemma_first_byte(s, '}' as u8, i + 1);
}

/// Literal text that holds neither `{` nor `\` runs up to the `{` that
/// follows it.
pub proof fn lemma_literal_runs_to_brace(s: Seq<u8>, i: int, brace: int)
    requires
        0 <= i <= brace < s.len(),
        s[brace] == '{' as u8,
        forall|j: int| i <= j < brace ==> s[j] != '{' as u8 && s[j] != '\\' as u8,
    ensures
        literal_end(s, i) == brace,
    decreases brace - i,
{
    if i < brace {
        lemma_literal_runs_to_brace(s, i + 1, brace);
    }
}

/// Wherever a text is cut off inside a block, the outcome is the same:
/// plain text, then a `{` that nothing closes, is `StructureInvalid`, and
/// the fault runs from the `{` to the end of what is left.
pub proof fn lemma_truncated_block(before: Seq<u8>, after: Seq<u8>)
    requires
        forall|j: int|
            0 <= j < before.len() ==> before[j] != '{' as u8 && before[j] != '\\' as u8,
        forall|j: int| 0 <= j < after.len() ==> after[j] != '}' as u8,
    ensures
        runs_of(before + seq!['{' as u8] + after) == Err::<Seq<RunView>, Fault>(
            Fault {
                error: Error::StructureInvalid,
                start: before.len() as usize,
                end: (before.len() + 1 + after.len()) as usize,
            },
        ),
{
    let s = before + seq!['{' as u8] + after;
    let brace = before.len() as int;
    assert(s[brace] == '{' as u8);
    assert forall|j: int| brace < j < s.len() implies s[j] != '}' as u8 by {
        assert(s[j] == after[j - brace - 1]);
    }
    lemma_unclosed_block(s, brace);
    if brace > 0 {
        assert forall|j: int| 0 <= j < brace implies s[j] != '{' as u8 && s[j] != '\\' as u8 by {
            assert(s[j] == before[j]);
        }
        lemma_literal_runs_to_brace(s, 0, brace);
    }
}

/// The outcome `r`, seen from a text in which its own begins at index
/// `by`: the runs are the same, and a fault lies `by` places further on.
pub open spec fn moved(r: Result<Seq<RunView>, Fault>, by: int) -> Result<Seq<RunView>, Fault> {
    match r {
        Ok(runs) => Ok(runs),
        Err(fault) => Err(fault.shifted(by)),
    }
}

/// Literal text ends where it ends in the part of the text that begins
/// at index `k`, `k` places further on.
pub proof fn lemma_literal_end_skip(s: Seq<u8>, k: int, i: int)
    requires
        0 <= k,
        0 <= i,
        k + i <= s.len(),
    ensures
        literal_end(s.skip(k), i) == literal_end(s, k + i) - k,
    decreases s.len() - (k + i),
{
    if k + i < s.len() {
        assert(s.skip(k)[i] == s[k + i]);
        if s[k + i] != '{' as u8 {
            if s[k + i] == '\\' as u8 && k + i + 1 < s.len() {
                lemma_literal_end_skip(s, k, i + 2);
            } else {
                lemma_literal_end_skip(s, k, i + 1);
            }
        }
    }
}

/// What stands before index `k` has no part in the runs after it: the
/// runs of a text from index `k + i` on are the runs, from index `i` on,
/// of the part of it that begins at index `k`.
pub proof fn lemma_runs_skip(s: Seq<u8>, k: int, i: int)
    requires
        0 <= k,
        0 <= i,
        k + i <= s.len() <= usize::MAX,
    ensures
        runs_from(s, k + i) == moved(runs_from(s.skip(k), i), k),
    decreases s.len() - (k + i),
{
    let t = s.skip(k);
    if k + i < s.len() {
        assert(t[i] == s[k + i]);
        if s[k + i] == '{' as u8 {
            lemma_first_byte_skip(s, '}' as u8, k, i + 1);
            lemma_first_byte(s, '}' as u8, k + i + 1);
            match first_byte(s, '}' as u8, k + i + 1) {
                None => {},
                Some(close) => {
                    let content = s.subrange(k + i + 1, close);
                    assert(content =~= t.subrange(i + 1, close - k));
                    if content.len() > 0 {
                        lemma_codes_fault_within(content, 1);
                    }
                    lemma_runs_skip(s, k, close - k + 1);
                },
            }
        } else {
            lemma_literal_end(s, k + i);
            lemma_literal_end_skip(s, k, i);
            let end = literal_end(s, k + i);
            assert(s.subrange(k + i, end) =~= t.subrange(i, end - k));
            lemma_runs_skip(s, k, end - k);
        }
    }
}

/// A comment leaves nothing behind: a block that does not begin with `\`,
/// put before a text, changes none of the text's runs, and moves a fault
/// in the text by its own length.
pub proof fn lemma_comment_dropped(comment: Seq<u8>, text: Seq<u8>)
    requires
        comment.len() > 0 ==> comment[0] != '\\' as u8,
        forall|j: int| 0 <= j < comment.len() ==> comment[j] != '}' as u8,
        comment.len() + 2 + text.len() <= usize::MAX,
    ensures
        runs_of(seq!['{' as u8] + comment + seq!['}' as u8] + text) == moved(
            runs_of(text),
            comment.len() as int + 2,
        ),
{
    let s = seq!['{' as u8] + comment + seq!['}' as u8] + text;
    let close = comment.len() as int + 1;
    assert(s[0] == '{' as u8);
    assert(s[close] == '}' as u8);
    assert forall|j: int| 1 <= j < close implies s[j] != '}' as u8 by {
        assert(s[j] == comment[j - 1]);
    }
    lemma_first_byte(s, '}' as u8, 1);
    assert(first_byte(s, '}' as u8, 1) == Some(close));
    assert(s.subrange(1, close) =~= comment);
    lemma_runs_skip(s, close + 1, 0);
    assert(s.skip(close + 1) =~= text);
    match runs_from(s, close + 1) {
        Ok(rest) => {
            assert(Seq::<RunView>::empty() + rest =~= rest);
        },
        Err(_) => {},
    }
}

/// Parses the codes of a block's content, which begins with `\`.
fn parse_codes(content: &[u8]) -> (r: Result<Vec<Run>, Fault>)
    requires
        content@.len() > 0,
    ensures
        runs_agree(r, codes_from(content@, 1)),
{
    let mut c = Cursor::new(content);
    let len = c.len();
    let mut out: Vec<Run> = Vec::new();
    c.advance();
    loop
        invariant
            c.input() == content@,
            len == content@.len(),
            1 <= c.pos() <= len,
            codes_from(content@, 1) == prepend(runs_view(out@), codes_from(content@, c.pos())),
        decreases len - c.pos(),
    {
        let start = c.position();
        let found = c.find('\\' as u8);
        let stop = match found {
            Some(k) => k,
            None => len,
        };
        proof {
            lemma_first_byte(content@, '\\' as u8, start as int);
        }
        let span = match c.slice(start, stop) {
            Some(span) => span,
            None => {
                return Err(Fault { error: Error::StructureInvalid, start, end: stop });
            },
        };
        match parse_override(span) {
            Err(error) => {
                return Err(Fault { error, start, end: stop });
            },
            Ok(code) => {
                let ghost before = runs_view(out@);
                out.push(Run::Tag(code));
                proof {
                    assert(runs_view(out@) =~= before + seq![RunView::Tag(code@)]);
                }
                if stop >= len {
                    proof {
                        assert(before + seq![RunView::Tag(code@)] =~= runs_view(out@));
                    }
                    return Ok(out);
                }
                proof {
                    let rest = codes_from(content@, stop + 1);
                    match rest {
                        Ok(more) => {
                            assert(before + (seq![RunView::Tag(code@)] + more) =~= runs_view(out@)
                                + more);
                        },
                        Err(_) => {},
                    }
                }
                c.seek(stop + 1);
            },
        }
    }
}

/// Parses what stands between `{` and `}`.
fn parse_block(content: &[u8]) -> (r: Result<Vec<Run>, Fault>)
    ensures
        runs_agree(r, block_runs(content@)),
{
    let c = Cursor::new(content);
    match c.peek() {
        Ok(b) => {
            if b == '\\' as u8 {
                parse_codes(content)
            } else {
                let out: Vec<Run> = Vec::new();
                assert(runs_view(out@) =~= Seq::<RunView>::empty());
                Ok(out)
            }
        },
        Err(_) => {
            let out: Vec<Run> = Vec::new();
            assert(runs_view(out@) =~= Seq::<RunView>::empty());
            Ok(out)
        },
    }
}

/// Moves the cursor from the first byte of a literal run to its end.
fn skip_literal(c: &mut Cursor)
    ensures
        final(c).input() == old(c).input(),
        final(c).pos() == literal_end(old(c).input(), old(c).pos()),
        old(c).pos() <= final(c).pos() <= old(c).input().len(),
{
    let ghost s = c.input();
    let ghost from = c.pos();
    let len = c.len();
    proof {
        lemma_literal_end(s, from);
    }
    loop
        invariant
            c.input() == s,
            len == s.len(),
            from <= c.pos() <= len,
            literal_end(s, from) == literal_end(s, c.pos()),
        ensures
            c.pos() == literal_end(s, from),
        decreases len - c.pos(),
    {
        match c.peek() {
            Err(_) => {
                break ;
            },
            Ok(b) => {
                if b == '{' as u8 {
                    break ;
                }
                c.advance();
                if b == '\\' as u8 {
                    c.advance();
                }
            },
        }
    }
}

/// Splits the text of an event into literal runs and override codes, in
/// the order in which they stand.
///
/// An empty text has no runs. A `{` that no `}` follows is
/// `StructureInvalid`; a span that is no override code fails as
/// [`parse_override`] says. The fault names the bytes at fault: the span of
/// the code, or the text from the open `{` on.
pub fn parse_dialogue(r: &[u8]) -> (runs: Result<Vec<Run>, Fault>)
    ensures
        runs_agree(runs, runs_of(r@)),
{
    let mut c = Cursor::new(r);
    let len = c.len();
    let mut out: Vec<Run> = Vec::new();
    assert(runs_view(out@) =~= Seq::<RunView>::empty());
    proof {
        match runs_of(r@) {
            Ok(all) => {
                assert(Seq::<RunView>::empty() + all =~= all);
            },
            Err(_) => {},
        }
    }
    loop
        invariant
            c.input() == r@,
            len == r@.len(),
            0 <= c.pos() <= len,
            runs_of(r@) == prepend(runs_view(out@), runs_from(r@, c.pos())),
        ensures
            c.pos() == len,
        decreases len - c.pos(),
    {
        let start = c.position();
        let ghost before = runs_view(out@);
        match c.peek() {
            Err(_) => {
                break ;
            },
            Ok(b) => {
                if b == '{' as u8 {
                    c.advance();
                    proof {
                        lemma_first_byte(r@, '}' as u8, start + 1);
                    }
                    let close = match c.find('}' as u8) {
                        Some(k) => k,
                        None => {
                            return Err(Fault { error: Error::StructureInvalid, start, end: len });
                        },
                    };
                    let content = match c.slice(start + 1, close) {
                        Some(content) => content,
                        None => {
                            return Err(Fault { error: Error::StructureInvalid, start, end: len });
                        },
                    };
                    proof {
                        if content@.len() > 0 {
                            lemma_codes_fault_within(content@, 1);
                        }
                    }
                    match parse_block(content) {
                        Err(fault) => {
                            return Err(
                                Fault {
                                    error: fault.error,
                                    start: fault.start + (start + 1),
                                    end: fault.end + (start + 1),
                                },
                            );
                        },
                        Ok(mut codes) => {
                            let ghost added = runs_view(codes@);
                            out.append(&mut codes);
                            proof {
                                assert(runs_view(out@) =~= before + added);
                                match runs_from(r@, close + 1) {
                                    Ok(more) => {
                                        assert(before + (added + more) =~= (before + added) + more);
                                    },
                                    Err(_) => {},
                                }
                            }
                        },
                    }
                    c.seek(close + 1);
                } else {
                    skip_literal(&mut c);
                    let end = c.position();
                    proof {
                        lemma_literal_end(r@, start as int);
                    }
                    let text = match c.slice(start, end) {
                        Some(text) => text,
                        None => {
                            return Err(Fault { error: Error::StructureInvalid, start, end: len });
                        },
                    };
                    out.push(Run::Literal(slice_to_vec(text)));
                    proof {
                        let lit = seq![RunView::Literal(r@.subrange(start as int, end as int))];
                        assert(runs_view(out@) =~= before + lit);
                        match runs_from(r@, end as int) {
                            Ok(more) => {
                                assert(before + (lit + more) =~= (before + lit) + more);
                            },
                            Err(_) => {},
                        }
                    }
                }
            },
        }
    }
    proof {
        assert(runs_view(out@) + Seq::<RunView>::empty() =~= runs_view(out@));
    }
    Ok(out)
}

} // verus!
