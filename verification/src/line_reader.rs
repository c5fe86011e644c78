//! A cursor over a byte buffer that yields terminated lines and exact-length
//! reads, the foundation the request parser builds on.
use vstd::prelude::*;

verus! {

/// Index of the first line feed at or after `pos`, or the length of the
/// sequence if there is none.
pub open spec fn find_lf(data: Seq<u8>, pos: int) -> int
    decreases data.len() - pos,
{
    if pos < 0 || pos >= data.len() {
        data.len() as int
    } else if data[pos] == 10 {
        pos
    } else {
        find_lf(data, pos + 1)
    }
}

pub proof fn lemma_find_lf_bounds(data: Seq<u8>, pos: int)
    requires
        0 <= pos <= data.len(),
    ensures
        pos <= find_lf(data, pos) <= data.len(),
        find_lf(data, pos) < data.len() ==> data[find_lf(data, pos)] == 10,
        forall|t: int| pos <= t < find_lf(data, pos) ==> data[t] != 10,
    decreases data.len() - pos,
{
    if pos < data.len() && data[pos] != 10 {
        lemma_find_lf_bounds(data, pos + 1);
    }
}

/// The first line feed at or after `pos` is the one the bytes show.
pub proof fn lemma_find_lf_at(data: Seq<u8>, pos: int, k: int)
    requires
        0 <= pos <= k < data.len(),
        data[k] == 10,
        forall|t: int| pos <= t < k ==> data[t] != 10,
    ensures
        find_lf(data, pos) == k,
    decreases k - pos,
{
    if pos < k {
        lemma_find_lf_at(data, pos + 1, k);
    }
}

/// A line with a trailing carriage return loses it; the line feed itself is
/// never part of the line.
pub open spec fn strip_cr(s: Seq<u8>) -> Seq<u8> {
    if s.len() > 0 && s.last() == 13 {
        s.drop_last()
    } else {
        s
    }
}

/// Content of the line that starts at `pos`: the bytes up to the first line
/// feed, with a carriage return before the line feed stripped.
pub open spec fn line_at(data: Seq<u8>, pos: int) -> Seq<u8> {
    strip_cr(data.subrange(pos, find_lf(data, pos)))
}

/// Cursor over a received byte buffer.
pub struct LineReader {
    pub data: Vec<u8>,
    pub pos: usize,
}

impl LineReader {
    pub open spec fn wf(&self) -> bool {
        self.pos <= self.data@.len()
    }

    pub fn new(data: Vec<u8>) -> (r: LineReader)
        ensures
            r.wf(),
            r.data@ == data@,
            r.pos == 0,
    {
        LineReader { data, pos: 0 }
    }

    /// The next line-feed-terminated line, with the terminator and a carriage
    /// return before it stripped; `None`, and no movement, when no terminated
    /// line remains in the buffer.
    pub fn read_line(&mut self) -> (r: Option<Vec<u8>>)
        requires
            old(self).wf(),
        ensures
            final(self).wf(),
            final(self).data@ == old(self).data@,
            ({
                let nl = find_lf(old(self).data@, old(self).pos as int);
                match r {
                    Some(l) => nl < old(self).data@.len() && l@ == line_at(
                        old(self).data@,
                        old(self).pos as int,
                    ) && final(self).pos == nl + 1,
                    None => nl == old(self).data@.len() && final(self).pos == old(self).pos,
                }
            }),
    {
        let ghost data0 = self.data@;
        let ghost pos0 = self.pos as int;
        proof {
            lemma_find_lf_bounds(data0, pos0);
        }
        let n = self.data.len();
        let mut j = self.pos;
        while j < n && self.data[j] != 10
            invariant
                self.wf(),
                self.data@ == data0,
                self.pos == pos0,
                n == data0.len(),
                pos0 <= j <= n,
                forall|t: int| pos0 <= t < j ==> data0[t] != 10,
            decreases n - j,
        {
            j += 1;
        }
        if j == n {
            assert(find_lf(data0, pos0) == n) by {
                lemma_find_lf_bounds(data0, pos0);
                if find_lf(data0, pos0) < n {
                    assert(data0[find_lf(data0, pos0)] == 10);
                }
            }
            return None;
        }
        proof {
            lemma_find_lf_at(data0, pos0, j as int);
        }
        let end = if j > self.pos && self.data[j - 1] == 13 {
            j - 1
        } else {
            j
        };
        let line = vstd::slice::slice_to_vec(
            vstd::slice::slice_subrange(self.data.as_slice(), self.pos, end),
        );
        assert(line@ =~= line_at(data0, pos0)) by {
            let raw = data0.subrange(pos0, j as int);
            if j > pos0 && data0[j - 1] == 13 {
                assert(raw.len() > 0 && raw.last() == 13);
                assert(strip_cr(raw) =~= data0.subrange(pos0, j - 1));
            } else {
                assert(strip_cr(raw) == raw);
            }
        }
        self.pos = j + 1;
        Some(line)
    }

    /// Exactly `n` bytes from the cursor on; `None`, and no movement, when
    /// fewer remain.
    pub fn read_exact(&mut self, n: usize) -> (r: Option<Vec<u8>>)
        requires
            old(self).wf(),
        ensures
            final(self).wf(),
            final(self).data@ == old(self).data@,
            ({
                let avail = old(self).data@.len() - old(self).pos;
                match r {
                    Some(b) => n <= avail && b@ == old(self).data@.subrange(
                        old(self).pos as int,
                        old(self).pos + n,
                    ) && final(self).pos == old(self).pos + n,
                    None => n > avail && final(self).pos == old(self).pos,
                }
            }),
    {
        if n > self.data.len() - self.pos {
            return None;
        }
        let body = vstd::slice::slice_to_vec(
            vstd::slice::slice_subrange(self.data.as_slice(), self.pos, self.pos + n),
        );
        self.pos = self.pos + n;
        Some(body)
    }
}

} // verus!
