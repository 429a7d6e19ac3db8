//! Log lines for systemd: output is buffered until a newline, then written
//! with its leading whitespace trimmed.

use vstd::prelude::*;
use crate::text::{chars_of, drop_front, string_of, trim_front, CharClass};

verus! {

/// `String::from_utf8_lossy`: the text of `b`, invalid sequences replaced by U+FFFD.
pub uninterp spec fn lossy(b: Seq<u8>) -> Seq<char>;

/// Decodes bytes with std's `String::from_utf8_lossy`. The result is named, a
/// function of the bytes alone; for valid UTF-8 it is the text those bytes encode.
#[verifier::external_body]
pub(crate) fn utf8_lossy(b: &[u8]) -> (s: String)
    ensures
        s@ == lossy(b@),
        vstd::utf8::valid_utf8(b@) ==> vstd::utf8::encode_utf8(s@) == b@,
{
    String::from_utf8_lossy(b).into_owned()
}

/// The bytes written for buffered output `b`: decoded, leading whitespace
/// dropped, encoded again.
pub open spec fn trimmed_bytes(b: Seq<u8>) -> Seq<u8> {
    vstd::utf8::encode_utf8(drop_front(lossy(b), CharClass::Space))
}

/// The index of the first newline in `b`.
pub open spec fn first_newline(b: Seq<u8>) -> Option<nat>
    decreases b.len(),
{
    if b.len() == 0 {
        None
    } else if b[0] == 10u8 {
        Some(0)
    } else {
        match first_newline(b.drop_first()) {
            Some(i) => Some(i + 1),
            None => None,
        }
    }
}

proof fn lemma_first_newline(b: Seq<u8>, i: int)
    requires
        0 <= i <= b.len(),
        forall|j: int| 0 <= j < i ==> b[j] != 10u8,
    ensures
        i < b.len() && b[i] == 10u8 ==> first_newline(b) == Some(i as nat),
        i == b.len() ==> first_newline(b) is None,
    decreases i,
{
    if i > 0 {
        let t = b.drop_first();
        assert forall|j: int| 0 <= j < i - 1 implies t[j] != 10u8 by {
            assert(t[j] == b[j + 1]);
        }
        lemma_first_newline(t, i - 1);
        if i < b.len() {
            assert(t[i - 1] == b[i]);
        }
    }
}

/// Buffers log output until a line is complete.
pub struct LineTrimWriter {
    pub buf: Vec<u8>,
}

fn trimmed_of(b: &[u8]) -> (r: Vec<u8>)
    ensures
        r@ == trimmed_bytes(b@),
{
    let s = utf8_lossy(b);
    let t = trim_front(chars_of(s.as_str()).as_slice(), CharClass::Space);
    let ts = string_of(t.as_slice());
    ts.as_str().as_bytes_vec()
}

fn find_newline(b: &Vec<u8>) -> (r: Option<usize>)
    ensures
        match r {
            Some(i) => first_newline(b@) == Some(i as nat) && i < b@.len(),
            None => first_newline(b@) is None,
        },
{
    let mut i: usize = 0;
    while i < b.len()
        invariant
            i <= b@.len(),
            forall|j: int| 0 <= j < i ==> b@[j] != 10u8,
        decreases b@.len() - i,
    {
        if b[i] == 10u8 {
            proof {
                lemma_first_newline(b@, i as int);
            }
            return Some(i);
        }
        i = i + 1;
    }
    proof {
        lemma_first_newline(b@, i as int);
    }
    None
}

/// The bytes to write for the first complete line of `b` (the line, newline
/// included, without its leading whitespace), if `b` holds a newline.
pub open spec fn first_line_out(b: Seq<u8>) -> Option<Seq<u8>> {
    match first_newline(b) {
        Some(i) => Some(trimmed_bytes(b.take(i + 1 as int))),
        None => None,
    }
}

/// What stays buffered once the first complete line of `b` has been written.
pub open spec fn after_first_line(b: Seq<u8>) -> Seq<u8> {
    match first_newline(b) {
        Some(i) => b.skip(i + 1 as int),
        None => b,
    }
}

/// Log output is buffered until a line is complete; a line leaves the buffer
/// only once its write has succeeded, so a failed write loses nothing.
impl LineTrimWriter {
    pub fn new() -> (w: Self)
        ensures
            w.buf@.len() == 0,
    {
        LineTrimWriter { buf: Vec::new() }
    }

    /// The bytes to write for the first complete line in the buffer; none
    /// while no newline is buffered. The buffer is left as it is.
    pub fn pending_line(&self) -> (out: Option<Vec<u8>>)
        ensures
            match first_line_out(self.buf@) {
                Some(o) => out matches Some(v) && v@ == o,
                None => out is None,
            },
    {
        match find_newline(&self.buf) {
            None => None,
            Some(i) => {
                let n = self.buf.len();
                assert(i < n);
                let line = crate::logline::take_bytes(&self.buf, 0, i + 1);
                Some(trimmed_of(line.as_slice()))
            },
        }
    }

    /// Ends one step of flushing a line: after the write of `pending_line`
    /// succeeded (`write_ok`), the line leaves the buffer; after a failed
    /// write, or with no complete line, the buffer stays as it was.
    pub fn flush_line(&mut self, write_ok: bool)
        ensures
            write_ok ==> final(self).buf@ == after_first_line(old(self).buf@),
            !write_ok ==> final(self).buf@ == old(self).buf@,
    {
        if !write_ok {
            return;
        }
        match find_newline(&self.buf) {
            None => {},
            Some(i) => {
                let n = self.buf.len();
                self.buf = crate::logline::take_bytes(&self.buf, i + 1, n);
            },
        }
    }

    /// Buffers `b`; the bytes to write when the buffer then holds a complete
    /// line (still buffered until `flush_line` is told the write succeeded).
    pub fn write(&mut self, b: &[u8]) -> (out: Option<Vec<u8>>)
        ensures
            final(self).buf@ == old(self).buf@ + b@,
            match first_line_out(old(self).buf@ + b@) {
                Some(o) => out matches Some(v) && v@ == o,
                None => out is None,
            },
    {
        let mut i: usize = 0;
        let ghost b0 = self.buf@;
        while i < b.len()
            invariant
                i <= b@.len(),
                self.buf@ == b0 + b@.take(i as int),
            decreases b@.len() - i,
        {
            self.buf.push(b[i]);
            i = i + 1;
            assert(self.buf@ =~= b0 + b@.take(i as int));
        }
        assert(b@.take(b@.len() as int) =~= b@);
        self.pending_line()
    }

    /// The bytes to write for everything still buffered (on flush), if
    /// anything is. The buffer is left as it is.
    pub fn pending_rest(&self) -> (out: Option<Vec<u8>>)
        ensures
            self.buf@.len() == 0 ==> out is None,
            self.buf@.len() > 0 ==> (out matches Some(o) && o@ == trimmed_bytes(self.buf@)),
    {
        if self.buf.len() == 0 {
            return None;
        }
        Some(trimmed_of(self.buf.as_slice()))
    }

    /// Ends a flush: after the write of `pending_rest` succeeded
    /// (`write_ok`) the buffer is empty; after a failed write it stays.
    pub fn finish(&mut self, write_ok: bool)
        ensures
            write_ok ==> final(self).buf@.len() == 0,
            !write_ok ==> final(self).buf@ == old(self).buf@,
    {
        if write_ok {
            self.buf = Vec::new();
        }
    }
}

/// Copy of `v[a..b]`.
pub fn take_bytes(v: &Vec<u8>, a: usize, b: usize) -> (r: Vec<u8>)
    requires
        a <= b <= v@.len(),
    ensures
        r@ == v@.subrange(a as int, b as int),
{
    let mut r: Vec<u8> = Vec::new();
    let mut i = a;
    while i < b
        invariant
            a <= i <= b,
            b <= v@.len(),
            r@ == v@.subrange(a as int, i as int),
        decreases b - i,
    {
        r.push(v[i]);
        i = i + 1;
        assert(r@ =~= v@.subrange(a as int, i as int));
    }
    r
}

} // verus!
