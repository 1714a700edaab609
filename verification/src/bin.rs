//! Sequential little-endian reading for the binary encoding.

use vstd::prelude::*;
use crate::lex::find_byte;
use crate::lex::run_len;
use vstd::slice::slice_index_get;
use vstd::slice::slice_subrange;
use vstd::slice::slice_to_vec;

verus! {

/// Value of the `n` little-endian bytes of `s` starting at `i`.
pub open spec fn le_val(s: Seq<u8>, i: int, n: nat) -> int
    decreases n,
{
    if n == 0 {
        0
    } else {
        s[i] + 256 * le_val(s, i + 1, (n - 1) as nat)
    }
}

pub open spec fn pow256(n: nat) -> int
    decreases n,
{
    if n == 0 {
        1
    } else {
        256 * pow256((n - 1) as nat)
    }
}

pub proof fn lemma_le_val_bound(s: Seq<u8>, i: int, n: nat)
    ensures
        0 <= le_val(s, i, n) < pow256(n),
    decreases n,
{
    if n > 0 {
        lemma_le_val_bound(s, i + 1, (n - 1) as nat);
    }
}

/// The unsigned 64-bit field at `i`.
pub open spec fn u64_of_le(s: Seq<u8>, i: int) -> u64 {
    le_val(s, i, 8) as u64
}

/// The two's-complement 32-bit field at `i`.
pub open spec fn i32_of_le(s: Seq<u8>, i: int) -> i32 {
    let v = le_val(s, i, 4);
    (if v < 0x8000_0000 {
        v
    } else {
        v - 0x1_0000_0000
    }) as i32
}

/// The two's-complement 64-bit field at `i`.
pub open spec fn i64_of_le(s: Seq<u8>, i: int) -> i64 {
    let v = le_val(s, i, 8);
    (if v < 0x8000_0000_0000_0000 {
        v
    } else {
        v - 0x1_0000_0000_0000_0000
    }) as i64
}

/// A strictly sequential reader over a byte slice.
pub struct Cursor<'a> {
    data: &'a [u8],
    pos: usize,
}

impl<'a> Cursor<'a> {
    pub closed spec fn data(&self) -> Seq<u8> {
        self.data@
    }

    pub closed spec fn pos(&self) -> int {
        self.pos as int
    }

    pub open spec fn wf(&self) -> bool {
        0 <= self.pos() <= self.data().len()
    }

    pub fn new(data: &'a [u8]) -> (c: Cursor<'a>)
        ensures
            c.data() == data@,
            c.pos() == 0,
            c.wf(),
    {
        Cursor { data, pos: 0 }
    }

    /// The next `n` bytes as a little-endian unsigned value, or `None` when
    /// fewer than `n` bytes remain (the position is then left unchanged).
    pub fn read_le(&mut self, n: usize) -> (r: Option<u64>)
        requires
            old(self).wf(),
            n <= 8,
        ensures
            final(self).data() == old(self).data(),
            final(self).wf(),
            old(self).pos() + n <= old(self).data().len() ==> r == Some(
                le_val(old(self).data(), old(self).pos(), n as nat) as u64,
            ) && final(self).pos() == old(self).pos() + n,
            old(self).pos() + n > old(self).data().len() ==> r is None && final(self).pos() == old(
                self,
            ).pos(),
    {
        if n > self.data.len() - self.pos {
            return None;
        }
        let base = self.pos;
        let dlen = self.data.len();
        let mut acc: u64 = 0;
        let mut j: usize = n;
        proof {
            lemma_pow256_le(0, 8);
        }
        while j > 0
            invariant
                j <= n <= 8,
                base + n <= dlen,
                dlen == self.data@.len(),
                acc == le_val(self.data@, base + j, (n - j) as nat),
                0 <= acc < pow256((n - j) as nat),
            decreases j,
        {
            j = j - 1;
            let b = *slice_index_get(self.data, base + j);
            proof {
                lemma_pow256_le((n - j) as nat, 8);
                lemma_pow256_le((n - j - 1) as nat, 8);
                lemma_pow256_vals();
            }
            acc = (b as u64) + 256 * acc;
        }
        self.pos = base + n;
        proof {
            lemma_le_val_bound(self.data@, base as int, n as nat);
        }
        Some(acc)
    }

    /// The next byte, or `None` at the end of the input.
    pub fn read_u8(&mut self) -> (r: Option<u8>)
        requires
            old(self).wf(),
        ensures
            final(self).data() == old(self).data(),
            final(self).wf(),
            old(self).pos() < old(self).data().len() ==> r == Some(
                old(self).data()[old(self).pos()],
            ) && final(self).pos() == old(self).pos() + 1,
            old(self).pos() >= old(self).data().len() ==> r is None && final(self).pos() == old(
                self,
            ).pos(),
    {
        if self.pos >= self.data.len() {
            return None;
        }
        let b = *slice_index_get(self.data, self.pos);
        self.pos = self.pos + 1;
        Some(b)
    }

    pub fn read_u64_le(&mut self) -> (r: Option<u64>)
        requires
            old(self).wf(),
        ensures
            final(self).data() == old(self).data(),
            final(self).wf(),
            old(self).pos() + 8 <= old(self).data().len() ==> r == Some(
                u64_of_le(old(self).data(), old(self).pos()),
            ) && final(self).pos() == old(self).pos() + 8,
            old(self).pos() + 8 > old(self).data().len() ==> r is None && final(self).pos() == old(
                self,
            ).pos(),
    {
        self.read_le(8)
    }

    pub fn read_i32_le(&mut self) -> (r: Option<i32>)
        requires
            old(self).wf(),
        ensures
            final(self).data() == old(self).data(),
            final(self).wf(),
            old(self).pos() + 4 <= old(self).data().len() ==> r == Some(
                i32_of_le(old(self).data(), old(self).pos()),
            ) && final(self).pos() == old(self).pos() + 4,
            old(self).pos() + 4 > old(self).data().len() ==> r is None && final(self).pos() == old(
                self,
            ).pos(),
    {
        let ghost s = self.data@;
        let ghost p = self.pos as int;
        match self.read_le(4) {
            None => None,
            Some(v) => {
                proof {
                    lemma_le_val_bound(s, p, 4);
                    lemma_pow256_vals();
                }
                let iv = v as i64;
                if iv >= 0x8000_0000 {
                    Some((iv - 0x1_0000_0000) as i32)
                } else {
                    Some(iv as i32)
                }
            },
        }
    }

    pub fn read_i64_le(&mut self) -> (r: Option<i64>)
        requires
            old(self).wf(),
        ensures
            final(self).data() == old(self).data(),
            final(self).wf(),
            old(self).pos() + 8 <= old(self).data().len() ==> r == Some(
                i64_of_le(old(self).data(), old(self).pos()),
            ) && final(self).pos() == old(self).pos() + 8,
            old(self).pos() + 8 > old(self).data().len() ==> r is None && final(self).pos() == old(
                self,
            ).pos(),
    {
        let ghost s = self.data@;
        let ghost p = self.pos as int;
        match self.read_le(8) {
            None => None,
            Some(v) => {
                proof {
                    lemma_le_val_bound(s, p, 8);
                    lemma_pow256_vals();
                }
                if v >= 0x8000_0000_0000_0000 {
                    Some(((v as i128) - 0x1_0000_0000_0000_0000) as i64)
                } else {
                    Some(v as i64)
                }
            },
        }
    }

    /// The bytes strictly before the next `NUL`, which is consumed as well;
    /// `None` when no `NUL` remains (the position is then left unchanged).
    pub fn read_until_nul(&mut self) -> (r: Option<Vec<u8>>)
        requires
            old(self).wf(),
        ensures
            final(self).data() == old(self).data(),
            final(self).wf(),
            ({
                let k = run_len(old(self).data().skip(old(self).pos()), 0) as int;
                if old(self).pos() + k < old(self).data().len() {
                    r matches Some(v) && v@ == old(self).data().subrange(
                        old(self).pos(),
                        old(self).pos() + k,
                    ) && final(self).pos() == old(self).pos() + k + 1
                } else {
                    r is None && final(self).pos() == old(self).pos()
                }
            }),
    {
        let end = find_byte(self.data, self.pos, 0);
        if end == self.data.len() {
            return None;
        }
        let v = slice_to_vec(slice_subrange(self.data, self.pos, end));
        self.pos = end + 1;
        Some(v)
    }
}

/// The byte-power values the fixed field widths need.
pub proof fn lemma_pow256_vals()
    ensures
        pow256(4) == 0x1_0000_0000,
        pow256(8) == 0x1_0000_0000_0000_0000,
{
    assert(pow256(0) == 1);
    assert(pow256(1) == 256);
    assert(pow256(2) == 0x1_0000);
    assert(pow256(3) == 0x100_0000);
    assert(pow256(4) == 0x1_0000_0000);
    assert(pow256(5) == 0x100_0000_0000);
    assert(pow256(6) == 0x1_0000_0000_0000);
    assert(pow256(7) == 0x100_0000_0000_0000);
    assert(pow256(8) == 0x1_0000_0000_0000_0000);
}

pub proof fn lemma_pow256_le(a: nat, b: nat)
    requires
        a <= b,
    ensures
        pow256(a) <= pow256(b),
        pow256(a) >= 1,
    decreases b,
{
    if b > 0 {
        if a == b {
            lemma_pow256_le((a - 1) as nat, (b - 1) as nat);
        } else {
            lemma_pow256_le(a, (b - 1) as nat);
        }
    }
}

} // verus!
