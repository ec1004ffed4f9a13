//! Bounds-checked scanning over an input buffer.
//!
//! Every scan of the parser goes through a [`Cursor`]: it never reads
//! outside the buffer, and a search that finds nothing says so instead of
//! running on.

use vstd::prelude::*;
use vstd::string::{is_ascii, is_ascii_spec_bytes, StringSliceAdditionalSpecFns};

verus! {

/// The bytes of a keyword of the format, as they stand in a document.
pub open spec fn word(w: &str) -> Seq<u8> {
    w.spec_bytes()
}

/// A keyword of plain letters, digits and signs stands in a document byte
/// for character.
pub proof fn lemma_word_bytes(w: &str)
    requires
        is_ascii(w),
    ensures
        word(w).len() == w@.len(),
        forall|i: int| 0 <= i < w@.len() ==> #[trigger] word(w)[i] == w@[i] as u8,
{
    is_ascii_spec_bytes(w);
}

/// Where `b` first stands in `s` at or after `from`, if anywhere.
pub open spec fn first_byte(s: Seq<u8>, b: u8, from: int) -> Option<int>
    decreases s.len() - from,
{
    if from < 0 || from >= s.len() {
        None
    } else if s[from] == b {
        Some(from)
    } else {
        first_byte(s, b, from + 1)
    }
}

/// Where the bytes `a`, `b` first stand side by side in `s`, the `a` at or
/// after `from`, if anywhere.
pub open spec fn first_pair(s: Seq<u8>, a: u8, b: u8, from: int) -> Option<int>
    decreases s.len() - from,
{
    if from < 0 || from + 1 >= s.len() {
        None
    } else if s[from] == a && s[from + 1] == b {
        Some(from)
    } else {
        first_pair(s, a, b, from + 1)
    }
}

/// What `first_byte` finds is the leftmost occurrence, and it finds nothing
/// only where there is none.
pub proof fn lemma_first_byte(s: Seq<u8>, b: u8, from: int)
    requires
        0 <= from,
    ensures
        match first_byte(s, b, from) {
            Some(k) => from <= k < s.len() && s[k] == b && forall|j: int|
                from <= j < k ==> s[j] != b,
            None => forall|j: int| from <= j < s.len() ==> s[j] != b,
        },
    decreases s.len() - from,
{
    if from < s.len() && s[from] != b {
        lemma_first_byte(s, b, from + 1);
    }
}

/// Searching a text from index `i` on finds what searching the part of it
/// from `i` on finds, `i` places further on.
pub proof fn lemma_first_byte_skip(s: Seq<u8>, b: u8, i: int, k: int)
    requires
        0 <= i,
        0 <= k,
        i + k <= s.len(),
    ensures
        first_byte(s.skip(i), b, k) == match first_byte(s, b, i + k) {
            Some(p) => Some(p - i),
            None => None::<int>,
        },
    decreases s.len() - (i + k),
{
    if i + k < s.len() {
        assert(s.skip(i)[k] == s[i + k]);
        if s[i + k] != b {
            lemma_first_byte_skip(s, b, i, k + 1);
        }
    }
}

/// What `first_pair` finds is the leftmost occurrence, and it finds nothing
/// only where there is none.
pub proof fn lemma_first_pair(s: Seq<u8>, a: u8, b: u8, from: int)
    requires
        0 <= from,
    ensures
        match first_pair(s, a, b, from) {
            Some(k) => from <= k && k + 1 < s.len() && s[k] == a && s[k + 1] == b && forall|
                j: int,
            |
                from <= j < k ==> !(#[trigger] s[j] == a && s[j + 1] == b),
            None => forall|j: int|
                from <= j && j + 1 < s.len() ==> !(#[trigger] s[j] == a && s[j + 1] == b),
        },
    decreases s.len() - from,
{
    if from + 1 < s.len() && !(s[from] == a && s[from + 1] == b) {
        lemma_first_pair(s, a, b, from + 1);
    }
}

/// The cursor stood at the end of its buffer.
#[derive(Clone, Copy, Debug, PartialEq, Eq, Structural)]
pub struct EndOfInput;

/// A position in a buffer, never beyond its end.
pub struct Cursor<'a> {
    buf: &'a [u8],
    pos: usize,
}

impl<'a> Cursor<'a> {
    #[verifier::type_invariant]
    spec fn within(self) -> bool {
        self.pos <= self.buf@.len()
    }

    /// The buffer that the cursor scans.
    pub closed spec fn input(self) -> Seq<u8> {
        self.buf@
    }

    /// The index of the byte that the cursor stands on.
    pub closed spec fn pos(self) -> int {
        self.pos as int
    }

    /// A cursor on the first byte of `buf`.
    pub fn new(buf: &'a [u8]) -> (c: Self)
        ensures
            c.input() == buf@,
            c.pos() == 0,
    {
        Cursor { buf, pos: 0 }
    }

    /// The index of the byte that the cursor stands on.
    pub fn position(&self) -> (p: usize)
        ensures
            p == self.pos(),
            0 <= self.pos() <= self.input().len(),
    {
        proof {
            use_type_invariant(self);
        }
        self.pos
    }

    /// The length of the buffer.
    pub fn len(&self) -> (n: usize)
        ensures
            n == self.input().len(),
            0 <= self.pos() <= n,
    {
        proof {
            use_type_invariant(self);
        }
        self.buf.len()
    }

    /// Whether no byte is left.
    pub fn is_at_end(&self) -> (r: bool)
        ensures
            r == (self.pos() == self.input().len()),
            0 <= self.pos() <= self.input().len(),
    {
        proof {
            use_type_invariant(self);
        }
        self.pos == self.buf.len()
    }

    /// The byte under the cursor; at the end of the buffer there is none.
    pub fn peek(&self) -> (r: Result<u8, EndOfInput>)
        ensures
            0 <= self.pos() <= self.input().len(),
            r == if self.pos() < self.input().len() {
                Ok::<u8, EndOfInput>(self.input()[self.pos()])
            } else {
                Err::<u8, EndOfInput>(EndOfInput)
            },
    {
        proof {
            use_type_invariant(self);
        }
        if self.pos < self.buf.len() {
            Ok(self.buf[self.pos])
        } else {
            Err(EndOfInput)
        }
    }

    /// Steps over one byte; at the end of the buffer the cursor stays.
    pub fn advance(&mut self)
        ensures
            final(self).input() == old(self).input(),
            final(self).pos() == if old(self).pos() < old(self).input().len() {
                old(self).pos() + 1
            } else {
                old(self).pos()
            },
            0 <= final(self).pos() <= final(self).input().len(),
    {
        proof {
            use_type_invariant(&*self);
        }
        if self.pos < self.buf.len() {
            self.pos = self.pos + 1;
        }
    }

    /// Moves to index `to`, or to the end of the buffer where `to` lies
    /// beyond it.
    pub fn seek(&mut self, to: usize)
        ensures
            final(self).input() == old(self).input(),
            final(self).pos() == if to <= old(self).input().len() {
                to as int
            } else {
                old(self).input().len() as int
            },
            0 <= final(self).pos() <= final(self).input().len(),
    {
        if to <= self.buf.len() {
            self.pos = to;
        } else {
            self.pos = self.buf.len();
        }
    }

    /// The index of the next `b` at or after the cursor. The cursor does
    /// not move.
    pub fn find(&self, b: u8) -> (r: Option<usize>)
        ensures
            match r {
                Some(k) => first_byte(self.input(), b, self.pos()) == Some(k as int),
                None => first_byte(self.input(), b, self.pos()).is_none(),
            },
            r matches Some(k) ==> self.pos() <= k < self.input().len(),
    {
        proof {
            use_type_invariant(self);
            lemma_first_byte(self.buf@, b, self.pos as int);
        }
        let mut i: usize = self.pos;
        while i < self.buf.len()
            invariant
                self.pos <= i <= self.buf@.len(),
                first_byte(self.buf@, b, self.pos as int) == first_byte(self.buf@, b, i as int),
            decreases self.buf@.len() - i,
        {
            if self.buf[i] == b {
                return Some(i);
            }
            i = i + 1;
        }
        None
    }

    /// The index of the next `a` at or after the cursor that `b` follows
    /// at once. The cursor does not move.
    pub fn find_pair(&self, a: u8, b: u8) -> (r: Option<usize>)
        ensures
            match r {
                Some(k) => first_pair(self.input(), a, b, self.pos()) == Some(k as int),
                None => first_pair(self.input(), a, b, self.pos()).is_none(),
            },
            r matches Some(k) ==> self.pos() <= k && k + 1 < self.input().len(),
    {
        proof {
            use_type_invariant(self);
        }
        let mut i: usize = self.pos;
        while i < self.buf.len() && i + 1 < self.buf.len()
            invariant
                self.pos <= i <= self.buf@.len(),
                first_pair(self.buf@, a, b, self.pos as int) == first_pair(
                    self.buf@,
                    a,
                    b,
                    i as int,
                ),
            decreases self.buf@.len() - i,
        {
            if self.buf[i] == a && self.buf[i + 1] == b {
                return Some(i);
            }
            i = i + 1;
        }
        None
    }

    /// The bytes from index `from` up to, not including, index `to`; none
    /// where the two do not bound a part of the buffer.
    pub fn slice(&self, from: usize, to: usize) -> (r: Option<&'a [u8]>)
        ensures
            match r {
                Some(part) => from <= to <= self.input().len() && part@ == self.input().subrange(
                    from as int,
                    to as int,
                ),
                None => !(from <= to <= self.input().len()),
            },
    {
        if from <= to && to <= self.buf.len() {
            let buf: &'a [u8] = self.buf;
            Some(&buf[from..to])
        } else {
            None
        }
    }

    /// The bytes from the cursor to the end of the buffer.
    pub fn rest(&self) -> (r: &'a [u8])
        ensures
            0 <= self.pos() <= self.input().len(),
            r@ == self.input().subrange(self.pos(), self.input().len() as int),
    {
        proof {
            use_type_invariant(self);
        }
        let buf: &'a [u8] = self.buf;
        &buf[self.pos..buf.len()]
    }
}

/// Whether `a` and `b` hold the same bytes.
pub fn same_bytes(a: &[u8], b: &[u8]) -> (r: bool)
    ensures
        r == (a@ == b@),
{
    let mut left = Cursor::new(a);
    let mut right = Cursor::new(b);
    if left.len() != right.len() {
        return false;
    }
    loop
        invariant
            left.input() == a@,
            right.input() == b@,
            a@.len() == b@.len(),
            0 <= left.pos() <= a@.len(),
            left.pos() == right.pos(),
            forall|j: int| 0 <= j < left.pos() ==> a@[j] == b@[j],
        ensures
            left.pos() == a@.len(),
        decreases a@.len() - left.pos(),
    {
        match (left.peek(), right.peek()) {
            (Ok(x), Ok(y)) => {
                if x != y {
                    return false;
                }
            },
            _ => {
                break ;
            },
        }
        left.advance();
        right.advance();
    }
    assert(a@ =~= b@);
    true
}

/// Whether `s` is the keyword `w`.
pub fn is_word(s: &[u8], w: &str) -> (r: bool)
    ensures
        r == (s@ == word(w)),
{
    same_bytes(s, w.as_bytes())
}

/// Whether `s` begins with the keyword `w`.
pub fn starts_with(s: &[u8], w: &str) -> (r: bool)
    ensures
        r == word(w).is_prefix_of(s@),
{
    let n = w.as_bytes().len();
    let c = Cursor::new(s);
    match c.slice(0, n) {
        Some(head) => {
            let r = is_word(head, w);
            proof {
                if r {
                    assert(word(w).is_prefix_of(s@));
                }
                if word(w).is_prefix_of(s@) {
                    assert(s@.subrange(0, n as int) =~= word(w));
                }
            }
            r
        },
        None => false,
    }
}

} // verus!
