//! The sequential byte source the codec reads from: a cursor over a byte
//! buffer with fixed-size reads, little-endian integer reads, and the
//! variable-width unsigned integer that prefixes string rows.

use vstd::prelude::*;
use vstd::bytes::{
    lemma_auto_spec_u16_to_from_le_bytes, lemma_auto_spec_u32_to_from_le_bytes,
    lemma_auto_spec_u64_to_from_le_bytes, spec_u16_to_le_bytes, spec_u32_to_le_bytes,
    spec_u64_to_le_bytes, u16_from_le_bytes, u32_from_le_bytes, u64_from_le_bytes,
};

use crate::Error;

verus! {

/// The variable-width unsigned integer: seven value bits per byte, least
/// significant group first, the high bit marking continuation.
pub open spec fn vu_enc(x: u64) -> Seq<u8>
    decreases x,
{
    if x < 128 {
        seq![x as u8]
    } else {
        seq![(x % 128 + 128) as u8] + vu_enc(x / 128)
    }
}

/// What a varuint read yields from the front of `s`: the value and how many
/// bytes it took, `None` when the stream ends early or the value overflows.
pub open spec fn vu_parse(s: Seq<u8>) -> Option<(u64, int)>
    decreases s.len(),
{
    if s.len() == 0 {
        None
    } else if s[0] < 128 {
        Some((s[0] as u64, 1))
    } else {
        let lo = s[0] as int - 128;
        match vu_parse(s.skip(1)) {
            Some((v, k)) => {
                if lo + 128 * (v as int) <= u64::MAX {
                    Some(((lo + 128 * v) as u64, k + 1))
                } else {
                    None
                }
            },
            None => None,
        }
    }
}

/// Reading an encoded varuint gives the value back and consumes exactly its
/// encoding, whatever follows it.
pub proof fn lemma_vu_parse_enc(x: u64, rest: Seq<u8>)
    ensures
        vu_parse(vu_enc(x) + rest) == Some((x, vu_enc(x).len() as int)),
    decreases x,
{
    let s = vu_enc(x) + rest;
    if x < 128 {
        assert(s[0] == x as u8);
    } else {
        assert(s[0] == (x % 128 + 128) as u8);
        assert(s[0] as int == x % 128 + 128);
        lemma_vu_parse_enc(x / 128, rest);
        assert(s.skip(1) =~= vu_enc(x / 128) + rest);
        assert(x % 128 + 128 * (x / 128) == x) by (nonlinear_arith);
    }
}

/// A sequential reader over a byte buffer.
pub struct ByteReader {
    pub data: Vec<u8>,
    pub pos: usize,
}

impl ByteReader {
    pub open spec fn wf(self) -> bool {
        self.pos <= self.data@.len()
    }

    /// The bytes not yet consumed.
    pub open spec fn remaining(self) -> Seq<u8> {
        self.data@.skip(self.pos as int)
    }

    pub fn new(data: Vec<u8>) -> (r: ByteReader)
        ensures
            r.wf(),
            r.data@ == data@,
            r.pos == 0,
    {
        ByteReader { data, pos: 0 }
    }

    /// Reads exactly `k` bytes; fails without moving when fewer remain.
    pub fn read_exact(&mut self, k: usize) -> (r: Result<Vec<u8>, Error>)
        requires
            old(self).wf(),
        ensures
            final(self).wf(),
            final(self).data == old(self).data,
            match r {
                Ok(v) => k <= old(self).remaining().len() && v@ == old(self).remaining().take(
                    k as int,
                ) && final(self).pos == old(self).pos + k,
                Err(e) => e == Error::ReadFailure && k > old(self).remaining().len() && *final(self) == *old(self),
            },
    {
        let dlen = self.data.len();
        if k > dlen - self.pos {
            return Err(Error::ReadFailure);
        }
        let mut out: Vec<u8> = Vec::new();
        let mut i: usize = 0;
        while i < k
            invariant
                0 <= i <= k,
                self.wf(),
                *self == *old(self),
                dlen == self.data@.len(),
                k <= dlen - self.pos,
                out@ =~= self.remaining().take(i as int),
            decreases k - i,
        {
            proof {
                assert(self.pos + i < dlen);
            }
            out.push(self.data[self.pos + i]);
            proof {
                assert(out@ =~= self.remaining().take(i + 1));
            }
            i = i + 1;
        }
        self.pos = self.pos + k;
        Ok(out)
    }

    pub fn read_u16_le(&mut self) -> (r: Result<u16, Error>)
        requires
            old(self).wf(),
        ensures
            final(self).wf(),
            final(self).data == old(self).data,
            match r {
                Ok(x) => old(self).remaining().len() >= 2 && old(self).remaining().take(2)
                    == spec_u16_to_le_bytes(x) && final(self).pos == old(self).pos + 2,
                Err(e) => e == Error::ReadFailure && old(self).remaining().len() < 2 && *final(self) == *old(self),
            },
    {
        match self.read_exact(2) {
            Ok(v) => {
                let x = u16_from_le_bytes(v.as_slice());
                proof {
                    lemma_auto_spec_u16_to_from_le_bytes();
                }
                Ok(x)
            },
            Err(e) => Err(e),
        }
    }

    pub fn read_u32_le(&mut self) -> (r: Result<u32, Error>)
        requires
            old(self).wf(),
        ensures
            final(self).wf(),
            final(self).data == old(self).data,
            match r {
                Ok(x) => old(self).remaining().len() >= 4 && old(self).remaining().take(4)
                    == spec_u32_to_le_bytes(x) && final(self).pos == old(self).pos + 4,
                Err(e) => e == Error::ReadFailure && old(self).remaining().len() < 4 && *final(self) == *old(self),
            },
    {
        match self.read_exact(4) {
            Ok(v) => {
                let x = u32_from_le_bytes(v.as_slice());
                proof {
                    lemma_auto_spec_u32_to_from_le_bytes();
                }
                Ok(x)
            },
            Err(e) => Err(e),
        }
    }

    pub fn read_u64_le(&mut self) -> (r: Result<u64, Error>)
        requires
            old(self).wf(),
        ensures
            final(self).wf(),
            final(self).data == old(self).data,
            match r {
                Ok(x) => old(self).remaining().len() >= 8 && old(self).remaining().take(8)
                    == spec_u64_to_le_bytes(x) && final(self).pos == old(self).pos + 8,
                Err(e) => e == Error::ReadFailure && old(self).remaining().len() < 8 && *final(self) == *old(self),
            },
    {
        match self.read_exact(8) {
            Ok(v) => {
                let x = u64_from_le_bytes(v.as_slice());
                proof {
                    lemma_auto_spec_u64_to_from_le_bytes();
                }
                Ok(x)
            },
            Err(e) => Err(e),
        }
    }

    /// Reads one variable-width unsigned integer.
    pub fn read_uvarint(&mut self) -> (r: Result<u64, Error>)
        requires
            old(self).wf(),
        ensures
            final(self).wf(),
            final(self).data == old(self).data,
            match r {
                Ok(x) => match vu_parse(old(self).remaining()) {
                    Some(p) => x == p.0 && final(self).pos == old(self).pos + p.1,
                    None => false,
                },
                Err(e) => e == Error::ReadFailure && vu_parse(old(self).remaining()) is None,
            },
    {
        match vu_read(&self.data, self.pos) {
            Ok((x, np)) => {
                self.pos = np;
                Ok(x)
            },
            Err(e) => Err(e),
        }
    }
}

/// The recursive worker behind `read_uvarint`.
fn vu_read(data: &Vec<u8>, pos: usize) -> (r: Result<(u64, usize), Error>)
    requires
        pos <= data@.len(),
    ensures
        match r {
            Ok(p) => vu_parse(data@.skip(pos as int)) == Some((p.0, p.1 - pos as int)) && pos
                < p.1 <= data@.len(),
            Err(e) => e == Error::ReadFailure && vu_parse(data@.skip(pos as int)) is None,
        },
    decreases data@.len() - pos,
{
    let ghost s = data@.skip(pos as int);
    if pos >= data.len() {
        return Err(Error::ReadFailure);
    }
    let b = data[pos];
    proof {
        assert(s[0] == b);
    }
    if b < 128 {
        Ok((b as u64, pos + 1))
    } else {
        proof {
            assert(s.skip(1) =~= data@.skip(pos + 1));
        }
        match vu_read(data, pos + 1) {
            Ok((v, np)) => {
                let lo: u64 = (b - 128) as u64;
                if v <= (u64::MAX - lo) / 128 {
                    proof {
                        assert(lo + 128 * v <= u64::MAX) by (nonlinear_arith)
                            requires
                                v <= (u64::MAX - lo) / 128,
                                lo <= 127,
                        ;
                    }
                    Ok((lo + 128 * v, np))
                } else {
                    proof {
                        assert(lo as int + 128 * (v as int) > u64::MAX) by (nonlinear_arith)
                            requires
                                v > (u64::MAX - lo) / 128,
                                lo <= 127,
                        ;
                    }
                    Err(Error::ReadFailure)
                }
            },
            Err(e) => Err(e),
        }
    }
}

/// Writes one variable-width unsigned integer.
pub fn write_uvarint(out: &mut Vec<u8>, x: u64)
    ensures
        final(out)@ == old(out)@ + vu_enc(x),
    decreases x,
{
    if x < 128 {
        out.push(x as u8);
        proof {
            assert(out@ =~= old(out)@ + vu_enc(x));
        }
    } else {
        let b: u8 = ((x % 128) + 128) as u8;
        out.push(b);
        let ghost mid = out@;
        proof {
            assert(x / 128 < x) by (nonlinear_arith)
                requires
                    x >= 128,
            ;
        }
        write_uvarint(out, x / 128);
        proof {
            assert(out@ == mid + vu_enc(x / 128));
            assert(out@ =~= old(out)@ + vu_enc(x));
        }
    }
}

} // verus!
