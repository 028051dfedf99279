//! Framing of the client's byte stream into lines.
use vstd::prelude::*;
use vstd::utf8::{decode_utf8, valid_utf8};

verus! {

/// The most bytes held while waiting for the end of a line.
pub const MAX_BUFFER: usize = 2048;

#[derive(Debug, Clone, Copy, PartialEq, Eq, Structural)]
pub enum LineError {
    /// More than `MAX_BUFFER` bytes without the end of a line.
    LineTooLong,
    /// A line that is not UTF-8.
    BadLine,
}

/// Index of the first `b` in `s` at or after `i`, or the length.
pub open spec fn find_byte(s: Seq<u8>, b: u8, i: int) -> int
    decreases s.len() - i,
{
    if i < 0 || i >= s.len() {
        s.len() as int
    } else if s[i] == b {
        i
    } else {
        find_byte(s, b, i + 1)
    }
}

/// The bytes of a line before its terminator: a CR before the LF goes too.
pub open spec fn line_body(s: Seq<u8>, k: int) -> Seq<u8> {
    if k > 0 && s[k - 1] == 13u8 {
        s.subrange(0, k - 1)
    } else {
        s.subrange(0, k)
    }
}

/// Relies on `std::str::from_utf8`: the bytes read as a string exactly when
/// they are UTF-8.
#[verifier::external_body]
fn utf8_string(b: &[u8]) -> (r: Option<String>)
    ensures
        r is Some <==> valid_utf8(b@),
        r matches Some(s) ==> s@ == decode_utf8(b@),
{
    match std::str::from_utf8(b) {
        Ok(s) => Some(s.to_owned()),
        Err(_) => None,
    }
}

#[derive(Debug)]
pub struct LineReader {
    pub linebuf: Vec<u8>,
}

impl LineReader {
    pub open spec fn wf(&self) -> bool {
        self.linebuf@.len() <= MAX_BUFFER
    }

    pub fn new() -> (r: Self)
        ensures
            r.wf(),
            r.linebuf@.len() == 0,
    {
        LineReader { linebuf: Vec::new() }
    }

    /// Adds `chunk` to the buffer, then takes the first complete line out of
    /// it. Too many bytes without a line end fail with `LineTooLong` and leave
    /// the buffer as it was.
    pub fn read(&mut self, chunk: &[u8]) -> (r: Result<Option<String>, LineError>)
        requires
            old(self).wf(),
        ensures
            final(self).wf(),
            old(self).linebuf@.len() + chunk@.len() > MAX_BUFFER ==> r == Err::<Option<String>, LineError>(LineError::LineTooLong)
                && final(self).linebuf == old(self).linebuf,
            old(self).linebuf@.len() + chunk@.len() <= MAX_BUFFER ==> LineReader::split_result(
                old(self).linebuf@ + chunk@,
                final(self).linebuf@,
                r,
            ),
    {
        if chunk.len() > MAX_BUFFER - self.linebuf.len() {
            return Err(LineError::LineTooLong);
        }
        let ghost before = self.linebuf@;
        self.linebuf.extend_from_slice(chunk);
        assert(self.linebuf@ =~= before + chunk@);
        self.split_next_line()
    }

    /// How taking a line out of `buf` leaves `rest` and answers `r`: no line
    /// end leaves it all; otherwise the line and its terminator go, and the
    /// line comes out if it is UTF-8, else `BadLine`.
    pub open spec fn split_result(buf: Seq<u8>, rest: Seq<u8>, r: Result<Option<String>, LineError>) -> bool {
        let k = find_byte(buf, 10u8, 0);
        if k >= buf.len() {
            rest == buf && r == Ok::<Option<String>, LineError>(None)
        } else {
            &&& rest == buf.subrange(k + 1, buf.len() as int)
            &&& valid_utf8(line_body(buf, k)) ==> (r matches Ok(Some(s)) && s@ == decode_utf8(line_body(buf, k)))
            &&& !valid_utf8(line_body(buf, k)) ==> r == Err::<Option<String>, LineError>(LineError::BadLine)
        }
    }

    /// Takes the first complete line out of the buffer.
    pub fn split_next_line(&mut self) -> (r: Result<Option<String>, LineError>)
        requires
            old(self).wf(),
        ensures
            final(self).wf(),
            LineReader::split_result(old(self).linebuf@, final(self).linebuf@, r),
    {
        let mut k: usize = 0;
        while k < self.linebuf.len() && self.linebuf[k] != 10u8
            invariant
                k <= self.linebuf@.len(),
                find_byte(self.linebuf@, 10u8, k as int) == find_byte(self.linebuf@, 10u8, 0),
            decreases self.linebuf@.len() - k,
        {
            k = k + 1;
        }
        if k == self.linebuf.len() {
            return Ok(None);
        }
        let end: usize = if k > 0 && self.linebuf[k - 1] == 13u8 { k - 1 } else { k };
        let mut line: Vec<u8> = Vec::new();
        let mut i: usize = 0;
        while i < end
            invariant
                end <= k < self.linebuf@.len(),
                i <= end,
                line@ == self.linebuf@.subrange(0, i as int),
            decreases end - i,
        {
            line.push(self.linebuf[i]);
            i = i + 1;
            assert(line@ =~= self.linebuf@.subrange(0, i as int));
        }
        assert(line@ =~= line_body(self.linebuf@, k as int));
        let mut rest: Vec<u8> = Vec::new();
        let mut j: usize = k + 1;
        while j < self.linebuf.len()
            invariant
                k < j <= self.linebuf@.len(),
                rest@ == self.linebuf@.subrange(k + 1, j as int),
            decreases self.linebuf@.len() - j,
        {
            rest.push(self.linebuf[j]);
            j = j + 1;
            assert(rest@ =~= self.linebuf@.subrange(k + 1, j as int));
        }
        self.linebuf = rest;
        match utf8_string(line.as_slice()) {
            Some(s) => Ok(Some(s)),
            None => Err(LineError::BadLine),
        }
    }
}

} // verus!
