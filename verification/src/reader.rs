//! A cursor over bytes that reads little-endian numbers and runs of bytes.
use vstd::prelude::*;

use crate::bytes;
use crate::bytes::{dword, slice_of, word};
use crate::error::{Error, Fault};

verus! {

/// The complaint about data that ends too early.
pub open spec fn short_data() -> Fault {
    Fault::Parse("unexpected end of data"@)
}

/// The byte at `p`.
pub open spec fn byte_at(data: Seq<u8>, p: int) -> Result<u8, Fault> {
    if p + 1 <= data.len() {
        Ok(data[p])
    } else {
        Err(short_data())
    }
}

/// The word at `p`.
pub open spec fn word_at(data: Seq<u8>, p: int) -> Result<u16, Fault> {
    if p + 2 <= data.len() {
        Ok(bytes::le16(data, p))
    } else {
        Err(short_data())
    }
}

/// The double word at `p`.
pub open spec fn dword_at(data: Seq<u8>, p: int) -> Result<u32, Fault> {
    if p + 4 <= data.len() {
        Ok(bytes::le32(data, p))
    } else {
        Err(short_data())
    }
}

/// The `n` bytes at `p`.
pub open spec fn bytes_at(data: Seq<u8>, p: int, n: int) -> Result<Seq<u8>, Fault> {
    if p + n <= data.len() {
        Ok(data.subrange(p, p + n))
    } else {
        Err(short_data())
    }
}

/// A place in some bytes.
pub struct Cursor<'a> {
    pub data: &'a [u8],
    pub pos: usize,
}

impl<'a> Cursor<'a> {
    /// The place is in the bytes or right behind them.
    pub open spec fn wf(&self) -> bool {
        self.pos <= self.data@.len()
    }

    /// A cursor at the first byte.
    pub fn new(data: &'a [u8]) -> (r: Cursor<'a>)
        ensures
            r.wf(),
            r.data == data,
            r.pos == 0,
    {
        Cursor { data, pos: 0 }
    }

    fn short<T>() -> (r: Result<T, Error>)
        ensures
            r matches Err(e) && e@ == short_data(),
    {
        Err(Error::parse("unexpected end of data"))
    }

    /// Reads a byte.
    pub fn u8(&mut self) -> (r: Result<u8, Error>)
        requires
            old(self).wf(),
        ensures
            final(self).wf(),
            final(self).data == old(self).data,
            match r {
                Ok(v) => byte_at(old(self).data@, old(self).pos as int) == Ok::<u8, Fault>(v)
                    && final(self).pos == old(self).pos + 1,
                Err(e) => byte_at(old(self).data@, old(self).pos as int) == Err::<u8, Fault>(e@),
            },
    {
        if self.data.len() - self.pos < 1 {
            return Self::short();
        }
        let v = self.data[self.pos];
        self.pos = self.pos + 1;
        Ok(v)
    }

    /// Reads a word.
    pub fn u16(&mut self) -> (r: Result<u16, Error>)
        requires
            old(self).wf(),
        ensures
            final(self).wf(),
            final(self).data == old(self).data,
            match r {
                Ok(v) => word_at(old(self).data@, old(self).pos as int) == Ok::<u16, Fault>(v)
                    && final(self).pos == old(self).pos + 2,
                Err(e) => word_at(old(self).data@, old(self).pos as int) == Err::<u16, Fault>(e@),
            },
    {
        if self.data.len() - self.pos < 2 {
            return Self::short();
        }
        let v = word(self.data, self.pos);
        self.pos = self.pos + 2;
        Ok(v)
    }

    /// Reads a double word.
    pub fn u32(&mut self) -> (r: Result<u32, Error>)
        requires
            old(self).wf(),
        ensures
            final(self).wf(),
            final(self).data == old(self).data,
            match r {
                Ok(v) => dword_at(old(self).data@, old(self).pos as int) == Ok::<u32, Fault>(v)
                    && final(self).pos == old(self).pos + 4,
                Err(e) => dword_at(old(self).data@, old(self).pos as int) == Err::<u32, Fault>(e@),
            },
    {
        if self.data.len() - self.pos < 4 {
            return Self::short();
        }
        let v = dword(self.data, self.pos);
        self.pos = self.pos + 4;
        Ok(v)
    }

    /// Reads `n` bytes.
    pub fn bytes(&mut self, n: u32) -> (r: Result<Vec<u8>, Error>)
        requires
            old(self).wf(),
        ensures
            final(self).wf(),
            final(self).data == old(self).data,
            match r {
                Ok(v) => bytes_at(old(self).data@, old(self).pos as int, n as int) == Ok::<
                    Seq<u8>,
                    Fault,
                >(v@) && final(self).pos == old(self).pos + n,
                Err(e) => bytes_at(old(self).data@, old(self).pos as int, n as int) == Err::<
                    Seq<u8>,
                    Fault,
                >(e@),
            },
    {
        if ((self.data.len() - self.pos) as u64) < n as u64 {
            return Self::short();
        }
        let end: usize = self.pos + n as usize;
        let v = slice_of(self.data, self.pos, end);
        self.pos = end;
        Ok(v)
    }
}

/// What was written is read again where it stands, and nothing is read that is
/// not there in full.
pub proof fn writing_is_read_again(front: Seq<u8>, one: u8, v: u16, d: u32, run: Seq<u8>, back: Seq<u8>)
    ensures
        byte_at(front + seq![one] + back, front.len() as int) == Ok::<u8, Fault>(one),
        word_at(front + bytes::word_bytes(v) + back, front.len() as int) == Ok::<u16, Fault>(v),
        dword_at(front + bytes::dword_bytes(d) + back, front.len() as int) == Ok::<u32, Fault>(d),
        bytes_at(front + run + back, front.len() as int, run.len() as int) == Ok::<Seq<u8>, Fault>(
            run,
        ),
        ({
            let short = Fault::Parse("unexpected end of data"@);
            &&& byte_at(front, front.len() as int) == Err::<u8, Fault>(short)
            &&& back.len() < 2 ==> word_at(front + back, front.len() as int) == Err::<u16, Fault>(
                short,
            )
            &&& back.len() < 4 ==> dword_at(front + back, front.len() as int) == Err::<u32, Fault>(
                short,
            )
            &&& back.len() < run.len() ==> bytes_at(
                front + back,
                front.len() as int,
                run.len() as int,
            ) == Err::<Seq<u8>, Fault>(short)
        }),
{
    bytes::numbers_come_back(front, v, 0, d, back);
    let n = front.len() as int;
    let data = front + run + back;
    assert(data.subrange(n, n + run.len()) =~= run);
}

} // verus!
