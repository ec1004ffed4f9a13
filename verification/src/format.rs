//! Format declarations and the records that follow them.
//!
//! A `Format:` line names the fields of the rows below it, in order. Names
//! and values are parted by the record separator: a comma, which may have
//! one space after it. The field that is declared last takes the rest of a
//! row, commas and all.

use vstd::prelude::*;
use vstd::slice::slice_to_vec;
use crate::cursor::{
    first_byte, lemma_first_byte, lemma_first_byte_skip, starts_with, word, Cursor,
};
use crate::error::Error;

verus! {

/// Each text of `v` as a sequence of bytes.
pub open spec fn texts(v: Seq<Vec<u8>>) -> Seq<Seq<u8>> {
    Seq::new(v.len(), |i: int| v[i]@)
}

/// Each pair of `v` as a pair of byte sequences: a field's name and its
/// raw value.
pub open spec fn pairs(v: Seq<(Vec<u8>, Vec<u8>)>) -> Seq<(Seq<u8>, Seq<u8>)> {
    Seq::new(v.len(), |i: int| (v[i].0@, v[i].1@))
}

/// The index after a separator or keyword that ends just before index `i`:
/// one space, if it stands there, is stepped over.
pub open spec fn after_gap(s: Seq<u8>, i: int) -> int {
    if 0 <= i < s.len() && s[i] == ' ' as u8 {
        i + 1
    } else {
        i
    }
}

/// The fields of `s` from index `i` on: parted at every comma, the last
/// one ended by the end of `s`.
pub open spec fn fields_from(s: Seq<u8>, i: int) -> Seq<Seq<u8>>
    decreases s.len() - i,
{
    if i < 0 || i > s.len() {
        Seq::empty()
    } else {
        match first_byte(s, ',' as u8, i) {
            None => seq![s.subrange(i, s.len() as int)],
            Some(comma) => {
                proof {
                    lemma_first_byte(s, ',' as u8, i);
                }
                seq![s.subrange(i, comma)] + fields_from(s, after_gap(s, comma + 1))
            },
        }
    }
}

/// Where the content of `line` begins if `line` opens with the keyword
/// `key`: after the keyword and one space, if there is one.
pub open spec fn content_start(line: Seq<u8>, key: Seq<u8>) -> Option<int> {
    if key.is_prefix_of(line) {
        Some(after_gap(line, key.len() as int))
    } else {
        None
    }
}

/// The field names that the declaration `line` lists. A line that does not
/// open with `Format:` declares nothing.
pub open spec fn format_of(line: Seq<u8>) -> Result<Seq<Seq<u8>>, Error> {
    match content_start(line, word("Format:")) {
        Some(start) => Ok(fields_from(line, start)),
        None => Err(Error::StructureInvalid),
    }
}

/// The fields `names[k..]` with the values that `row` gives them from
/// index `i` on. Each but the last takes the text up to the next comma; the
/// last takes all that is left. Where a comma is wanting, a field is
/// missing and there is no record.
pub open spec fn record_from(names: Seq<Seq<u8>>, k: int, row: Seq<u8>, i: int) -> Option<
    Seq<(Seq<u8>, Seq<u8>)>,
>
    decreases names.len() - k,
{
    if k < 0 || k >= names.len() {
        Some(Seq::empty())
    } else if k == names.len() - 1 {
        Some(seq![(names[k], row.subrange(i, row.len() as int))])
    } else {
        match first_byte(row, ',' as u8, i) {
            None => None,
            Some(comma) => match record_from(names, k + 1, row, after_gap(row, comma + 1)) {
                None => None,
                Some(rest) => Some(seq![(names[k], row.subrange(i, comma))] + rest),
            },
        }
    }
}

/// The record that `row` is under the declaration `names`.
pub open spec fn record_of(names: Seq<Seq<u8>>, row: Seq<u8>) -> Result<
    Seq<(Seq<u8>, Seq<u8>)>,
    Error,
> {
    match record_from(names, 0, row, 0) {
        Some(record) => Ok(record),
        None => Err(Error::StructureInvalid),
    }
}

/// Where the content of `line` begins, if `line` opens with `key`.
pub fn strip_keyword(line: &[u8], key: &str) -> (r: Option<usize>)
    ensures
        match r {
            Some(start) => content_start(line@, word(key)) == Some(start as int) && start
                <= line@.len(),
            None => content_start(line@, word(key)).is_none(),
        },
{
    if !starts_with(line, key) {
        return None;
    }
    let mut c = Cursor::new(line);
    c.seek(key.as_bytes().len());
    match c.peek() {
        Ok(b) => {
            if b == ' ' as u8 {
                c.advance();
            }
        },
        Err(_) => {},
    }
    Some(c.position())
}

/// Steps over the comma under the cursor and the space after it, if any.
fn skip_separator(c: &mut Cursor)
    requires
        old(c).pos() < old(c).input().len(),
    ensures
        final(c).input() == old(c).input(),
        final(c).pos() == after_gap(old(c).input(), old(c).pos() + 1),
        old(c).pos() < final(c).pos() <= old(c).input().len(),
{
    c.advance();
    match c.peek() {
        Ok(b) => {
            if b == ' ' as u8 {
                c.advance();
            }
        },
        Err(_) => {},
    }
}

/// Splits `s` from index `from` on into its fields.
fn split_fields(s: &[u8], from: usize) -> (out: Vec<Vec<u8>>)
    requires
        from <= s@.len(),
    ensures
        texts(out@) == fields_from(s@, from as int),
{
    let mut c = Cursor::new(s);
    c.seek(from);
    let len = c.len();
    let mut out: Vec<Vec<u8>> = Vec::new();
    assert(texts(out@) =~= Seq::<Seq<u8>>::empty());
    assert(Seq::<Seq<u8>>::empty() + fields_from(s@, from as int) =~= fields_from(
        s@,
        from as int,
    ));
    loop
        invariant
            c.input() == s@,
            len == s@.len(),
            0 <= c.pos() <= len,
            fields_from(s@, from as int) == texts(out@) + fields_from(s@, c.pos()),
        decreases len - c.pos(),
    {
        let start = c.position();
        let ghost before = texts(out@);
        proof {
            lemma_first_byte(s@, ',' as u8, start as int);
        }
        match c.find(',' as u8) {
            None => {
                out.push(slice_to_vec(c.rest()));
                proof {
                    let last = seq![s@.subrange(start as int, len as int)];
                    assert(texts(out@) =~= before + last);
                }
                return out;
            },
            Some(comma) => {
                let field = match c.slice(start, comma) {
                    Some(field) => field,
                    None => {
                        return out;
                    },
                };
                out.push(slice_to_vec(field));
                c.seek(comma);
                skip_separator(&mut c);
                proof {
                    let one = seq![s@.subrange(start as int, comma as int)];
                    let rest = fields_from(s@, c.pos());
                    assert(texts(out@) =~= before + one);
                    assert(before + (one + rest) =~= (before + one) + rest);
                }
            },
        }
    }
}

/// Reads a `Format:` line into the names that it declares, in order.
///
/// `Name,Fontsize` and `Name, Fontsize` declare the same names. A line
/// that does not open with `Format:` is `StructureInvalid`.
pub fn parse_format(r: &[u8]) -> (names: Result<Vec<Vec<u8>>, Error>)
    ensures
        match names {
            Ok(list) => format_of(r@) == Ok::<Seq<Seq<u8>>, Error>(texts(list@)),
            Err(e) => format_of(r@) == Err::<Seq<Seq<u8>>, Error>(e),
        },
{
    match strip_keyword(r, "Format:") {
        Some(start) => Ok(split_fields(r, start)),
        None => Err(Error::StructureInvalid),
    }
}

/// The field names of a section, in the order of their declaration.
#[derive(Clone, Debug, PartialEq, Eq)]
pub struct FormatTable {
    pub fields: Vec<Vec<u8>>,
}

impl View for FormatTable {
    type V = Seq<Seq<u8>>;

    open spec fn view(&self) -> Seq<Seq<u8>> {
        texts(self.fields@)
    }
}

impl FormatTable {
    /// The table that the declaration `line` stands for.
    pub fn parse(line: &[u8]) -> (table: Result<FormatTable, Error>)
        ensures
            match table {
                Ok(t) => format_of(line@) == Ok::<Seq<Seq<u8>>, Error>(t@),
                Err(e) => format_of(line@) == Err::<Seq<Seq<u8>>, Error>(e),
            },
    {
        match parse_format(line) {
            Ok(fields) => Ok(FormatTable { fields }),
            Err(e) => Err(e),
        }
    }

    /// Maps the values of `row` onto the declared names.
    ///
    /// A row with fewer values than there are names is `StructureInvalid`.
    /// Where it has more, the last name gets the rest of the row whole.
    pub fn apply(&self, row: &[u8]) -> (record: Result<Vec<(Vec<u8>, Vec<u8>)>, Error>)
        ensures
            match record {
                Ok(list) => record_of(self@, row@) == Ok::<Seq<(Seq<u8>, Seq<u8>)>, Error>(
                    pairs(list@),
                ),
                Err(e) => record_of(self@, row@) == Err::<Seq<(Seq<u8>, Seq<u8>)>, Error>(e),
            },
    {
        let n = self.fields.len();
        let mut c = Cursor::new(row);
        let len = c.len();
        let mut out: Vec<(Vec<u8>, Vec<u8>)> = Vec::new();
        let mut k: usize = 0;
        assert(pairs(out@) =~= Seq::<(Seq<u8>, Seq<u8>)>::empty());
        while k < n
            invariant
                c.input() == row@,
                len == row@.len(),
                n == self.fields@.len(),
                0 <= c.pos() <= len,
                k <= n,
                match record_from(self@, k as int, row@, c.pos()) {
                    Some(rest) => record_from(self@, 0, row@, 0) == Some(pairs(out@) + rest),
                    None => record_from(self@, 0, row@, 0).is_none(),
                },
            decreases n - k,
        {
            let start = c.position();
            let ghost before = pairs(out@);
            let name = slice_to_vec(self.fields[k].as_slice());
            assert(name@ == self@[k as int]);
            if k == n - 1 {
                out.push((name, slice_to_vec(c.rest())));
                proof {
                    let last = seq![(self@[k as int], row@.subrange(start as int, len as int))];
                    assert(pairs(out@) =~= before + last);
                    assert(record_from(self@, k + 1, row@, c.pos()) == Some(
                        Seq::<(Seq<u8>, Seq<u8>)>::empty(),
                    ));
                    assert(pairs(out@) + Seq::<(Seq<u8>, Seq<u8>)>::empty() =~= pairs(out@));
                }
            } else {
                proof {
                    lemma_first_byte(row@, ',' as u8, start as int);
                }
                let comma = match c.find(',' as u8) {
                    Some(comma) => comma,
                    None => {
                        return Err(Error::StructureInvalid);
                    },
                };
                let value = match c.slice(start, comma) {
                    Some(value) => value,
                    None => {
                        return Err(Error::StructureInvalid);
                    },
                };
                out.push((name, slice_to_vec(value)));
                c.seek(comma);
                skip_separator(&mut c);
                proof {
                    let one = seq![(self@[k as int], row@.subrange(start as int, comma as int))];
                    assert(pairs(out@) =~= before + one);
                    match record_from(self@, k + 1, row@, c.pos()) {
                        Some(rest) => {
                            assert(before + (one + rest) =~= (before + one) + rest);
                        },
                        None => {},
                    }
                }
            }
            k = k + 1;
        }
        proof {
            assert(pairs(out@) + Seq::<(Seq<u8>, Seq<u8>)>::empty() =~= pairs(out@));
        }
        Ok(out)
    }
}

/// The fields of a text from index `i + k` on are the fields, from index
/// `k` on, of the part of it that begins at index `i`.
pub proof fn lemma_fields_skip(s: Seq<u8>, i: int, k: int)
    requires
        0 <= i,
        0 <= k,
        i + k <= s.len(),
    ensures
        fields_from(s, i + k) == fields_from(s.skip(i), k),
    decreases s.len() - (i + k),
{
    let t = s.skip(i);
    lemma_first_byte_skip(s, ',' as u8, i, k);
    lemma_first_byte(s, ',' as u8, i + k);
    match first_byte(s, ',' as u8, i + k) {
        None => {
            assert(s.subrange(i + k, s.len() as int) =~= t.subrange(k, t.len() as int));
        },
        Some(comma) => {
            assert(s.subrange(i + k, comma) =~= t.subrange(k, comma - i));
            if comma + 1 < s.len() {
                assert(t[comma + 1 - i] == s[comma + 1]);
            }
            let next = after_gap(s, comma + 1);
            assert(after_gap(t, comma - i + 1) == next - i);
            lemma_fields_skip(s, i, next - i);
        },
    }
}

/// The texts of `names` in a row, with `gap` between each two.
pub open spec fn joined(names: Seq<Seq<u8>>, gap: Seq<u8>) -> Seq<u8>
    decreases names.len(),
{
    if names.len() == 0 {
        Seq::empty()
    } else if names.len() == 1 {
        names[0]
    } else {
        names[0] + gap + joined(names.skip(1), gap)
    }
}

/// Whether `name` can stand in a list: it holds no comma and does not
/// begin with a space.
pub open spec fn listable(name: Seq<u8>) -> bool {
    &&& forall|i: int| 0 <= i < name.len() ==> #[trigger] name[i] != ',' as u8
    &&& name.len() > 0 ==> name[0] != ' ' as u8
}

/// The comma alone.
pub open spec fn tight_gap() -> Seq<u8> {
    seq![',' as u8]
}

/// The comma with a space after it.
pub open spec fn wide_gap() -> Seq<u8> {
    seq![',' as u8, ' ' as u8]
}

/// A list written with `gap`, which is one of the two separators, splits
/// into the names it was written from.
pub proof fn lemma_fields_of_joined(names: Seq<Seq<u8>>, gap: Seq<u8>)
    requires
        names.len() >= 1,
        forall|j: int| 0 <= j < names.len() ==> listable(#[trigger] names[j]),
        gap == tight_gap() || gap == wide_gap(),
    ensures
        fields_from(joined(names, gap), 0) == names,
    decreases names.len(),
{
    let s = joined(names, gap);
    let head = names[0];
    assert(listable(head));
    if names.len() == 1 {
        lemma_first_byte(s, ',' as u8, 0);
        assert(s.subrange(0, s.len() as int) =~= s);
        assert(seq![s] =~= names);
    } else {
        let tail = names.skip(1);
        let rest = joined(tail, gap);
        assert forall|j: int| 0 <= j < tail.len() implies listable(#[trigger] tail[j]) by {
            assert(tail[j] == names[j + 1]);
        }
        lemma_fields_of_joined(tail, gap);
        let n = head.len() as int;
        assert(s =~= head + gap + rest);
        assert(s[n] == ',' as u8);
        assert forall|j: int| 0 <= j < n implies s[j] != ',' as u8 by {
            assert(s[j] == head[j]);
        }
        lemma_first_byte(s, ',' as u8, 0);
        assert(first_byte(s, ',' as u8, 0) == Some(n));
        assert(s.subrange(0, n) =~= head);
        let next = n + gap.len();
        assert(listable(tail[0]));
        if tail.len() == 1 {
            assert(rest == tail[0]);
        } else {
            assert(rest =~= tail[0] + gap + joined(tail.skip(1), gap));
        }
        if rest.len() > 0 {
            if tail[0].len() > 0 {
                assert(rest[0] == tail[0][0]);
            } else {
                assert(rest[0] == gap[0]);
            }
            assert(rest[0] != ' ' as u8);
            assert(s[next] == rest[0]);
        }
        if gap == wide_gap() {
            assert(s[n + 1] == ' ' as u8);
        }
        assert(after_gap(s, n + 1) == next);
        lemma_fields_skip(s, next, 0);
        assert(s.skip(next) =~= rest);
        assert(seq![head] + tail =~= names);
    }
}

/// A format line lists the same names whether they are parted by `,` or
/// by `, `, and whether or not a space follows `Format:`: the names that
/// were written.
pub proof fn lemma_format_separators(names: Seq<Seq<u8>>)
    requires
        names.len() >= 1,
        forall|j: int| 0 <= j < names.len() ==> listable(#[trigger] names[j]),
    ensures
        format_of(word("Format:") + joined(names, tight_gap())) == Ok::<Seq<Seq<u8>>, Error>(names),
        format_of(word("Format:") + joined(names, wide_gap())) == Ok::<Seq<Seq<u8>>, Error>(names),
        format_of(word("Format:") + seq![' ' as u8] + joined(names, tight_gap())) == Ok::<
            Seq<Seq<u8>>,
            Error,
        >(names),
        format_of(word("Format:") + seq![' ' as u8] + joined(names, wide_gap())) == Ok::<
            Seq<Seq<u8>>,
            Error,
        >(names),
{
    lemma_format_of_list(names, tight_gap());
    lemma_format_of_list(names, wide_gap());
}

/// A format line written from `names` with `gap` lists `names`, with a
/// space after `Format:` or without.
pub proof fn lemma_format_of_list(names: Seq<Seq<u8>>, gap: Seq<u8>)
    requires
        names.len() >= 1,
        forall|j: int| 0 <= j < names.len() ==> listable(#[trigger] names[j]),
        gap == tight_gap() || gap == wide_gap(),
    ensures
        format_of(word("Format:") + joined(names, gap)) == Ok::<Seq<Seq<u8>>, Error>(names),
        format_of(word("Format:") + seq![' ' as u8] + joined(names, gap)) == Ok::<
            Seq<Seq<u8>>,
            Error,
        >(names),
{
    let key = word("Format:");
    let list = joined(names, gap);
    let k = key.len() as int;
    lemma_fields_of_joined(names, gap);
    assert(listable(names[0]));
    if names.len() == 1 {
        assert(list == names[0]);
    } else {
        assert(list =~= names[0] + gap + joined(names.skip(1), gap));
    }
    if list.len() > 0 {
        if names[0].len() > 0 {
            assert(list[0] == names[0][0]);
        } else {
            assert(list[0] == gap[0]);
        }
        assert(list[0] != ' ' as u8);
    }
    let bare = key + list;
    assert(key.is_prefix_of(bare)) by {
        assert(bare.subrange(0, k) =~= key);
    }
    if list.len() > 0 {
        assert(bare[k] == list[0]);
    }
    assert(after_gap(bare, k) == k);
    lemma_fields_skip(bare, k, 0);
    assert(bare.skip(k) =~= list);
    let spaced = key + seq![' ' as u8] + list;
    assert(key.is_prefix_of(spaced)) by {
        assert(spaced.subrange(0, k) =~= key);
    }
    assert(spaced[k] == ' ' as u8);
    assert(after_gap(spaced, k) == k + 1);
    lemma_fields_skip(spaced, k + 1, 0);
    assert(spaced.skip(k + 1) =~= list);
}

/// What a row gives the names of a declaration, in terms of the row's
/// fields.
///
/// There is a record just when the row has at least as many fields as
/// there are names. Then each name but the last has the field in its
/// place, and the last has the rest of the row: a part of the row that
/// runs to its end and whose own fields are all the fields that were left.
pub proof fn lemma_record_takes_fields(names: Seq<Seq<u8>>, k: int, row: Seq<u8>, i: int)
    requires
        0 <= k < names.len(),
        0 <= i <= row.len(),
    ensures
        record_from(names, k, row, i) is Some <==> fields_from(row, i).len() >= names.len() - k,
        record_from(names, k, row, i) matches Some(record) ==> {
            let fields = fields_from(row, i);
            let last = names.len() - k - 1;
            &&& record.len() == names.len() - k
            &&& forall|j: int| 0 <= j < record.len() ==> (#[trigger] record[j]).0 == names[k + j]
            &&& forall|j: int| 0 <= j < last ==> (#[trigger] record[j]).1 == fields[j]
            &&& exists|from: int|
                i <= from <= row.len() && record[last].1 == row.skip(from) && fields_from(
                    row.skip(from),
                    0,
                ) == fields.skip(last)
        },
    decreases names.len() - k,
{
    let fields = fields_from(row, i);
    lemma_first_byte(row, ',' as u8, i);
    if k == names.len() - 1 {
        let record = record_from(names, k, row, i).unwrap();
        assert(fields.len() >= 1);
        assert(row.subrange(i, row.len() as int) =~= row.skip(i));
        lemma_fields_skip(row, i, 0);
        assert(fields.skip(0) =~= fields);
        assert(i <= i <= row.len() && record[0].1 == row.skip(i) && fields_from(row.skip(i), 0)
            == fields.skip(0));
    } else {
        match first_byte(row, ',' as u8, i) {
            None => {
                assert(fields.len() == 1);
            },
            Some(comma) => {
                let next = after_gap(row, comma + 1);
                let rest_fields = fields_from(row, next);
                assert(fields =~= seq![row.subrange(i, comma)] + rest_fields);
                lemma_record_takes_fields(names, k + 1, row, next);
                match record_from(names, k + 1, row, next) {
                    None => {},
                    Some(rest) => {
                        let record = record_from(names, k, row, i).unwrap();
                        let one = seq![(names[k], row.subrange(i, comma))];
                        assert(record == one + rest);
                        let last = names.len() - k - 1;
                        assert forall|j: int| 0 <= j < record.len() implies (
                        #[trigger] record[j]).0 == names[k + j] by {
                            if j > 0 {
                                assert(record[j] == rest[j - 1]);
                            }
                        }
                        assert forall|j: int| 0 <= j < last implies (#[trigger] record[j]).1
                            == fields[j] by {
                            if j > 0 {
                                assert(record[j] == rest[j - 1]);
                                assert(fields[j] == rest_fields[j - 1]);
                            }
                        }
                        let from = choose|from: int|
                            next <= from <= row.len() && rest[last - 1].1 == row.skip(from)
                                && fields_from(row.skip(from), 0) == rest_fields.skip(last - 1);
                        assert(record[last] == rest[last - 1]);
                        assert(fields.skip(last) =~= rest_fields.skip(last - 1));
                        assert(i <= from <= row.len() && record[last].1 == row.skip(from)
                            && fields_from(row.skip(from), 0) == fields.skip(last));
                    },
                }
            },
        }
    }
}

/// A row with fewer fields than the declaration has names is
/// `StructureInvalid`, and no other row is.
pub proof fn lemma_missing_fields(names: Seq<Seq<u8>>, row: Seq<u8>)
    requires
        names.len() >= 1,
    ensures
        fields_from(row, 0).len() < names.len() <==> record_of(names, row) == Err::<
            Seq<(Seq<u8>, Seq<u8>)>,
            Error,
        >(Error::StructureInvalid),
        fields_from(row, 0).len() >= names.len() <==> record_of(names, row) is Ok,
{
    lemma_record_takes_fields(names, 0, row, 0);
}

} // verus!
