//! A window of identity-mapped physical memory.

use crate::bytes;
use vstd::prelude::*;

verus! {

/// Why an operation on memory could not go on.
#[derive(Clone, Copy, Debug, PartialEq, Eq, Structural)]
pub enum Stop {
    /// An address computation overflowed.
    Overflow,
    /// An access at this address left the window.
    Fault(u64),
}

/// The bytes of memory from `base` on.
pub struct PhysMem {
    /// Address of the first byte.
    pub base: u64,
    /// The bytes.
    pub bytes: Vec<u8>,
}

/// What memory holds.
#[verifier::ext_equal]
pub struct Memory {
    pub base: int,
    pub bytes: Seq<u8>,
}

impl Memory {
    /// Whether the `n` bytes at `addr` lie in the window.
    pub open spec fn covers(self, addr: int, n: int) -> bool {
        self.base <= addr && addr + n <= self.base + self.bytes.len()
    }

    /// The `n` bytes at `addr`.
    pub open spec fn slice(self, addr: int, n: int) -> Seq<u8> {
        self.bytes.subrange(addr - self.base, addr - self.base + n)
    }

    /// The byte at `addr`.
    pub open spec fn get8(self, addr: int) -> Option<int> {
        if self.covers(addr, 1) {
            Some(self.bytes[addr - self.base] as int)
        } else {
            None
        }
    }

    /// The 16-bit number at `addr`.
    pub open spec fn get16(self, addr: int) -> Option<int> {
        if self.covers(addr, 2) {
            Some(bytes::le16(self.bytes, addr - self.base))
        } else {
            None
        }
    }

    /// The 32-bit number at `addr`.
    pub open spec fn get32(self, addr: int) -> Option<int> {
        if self.covers(addr, 4) {
            Some(bytes::le32(self.bytes, addr - self.base))
        } else {
            None
        }
    }

    /// The 64-bit number at `addr`.
    pub open spec fn get64(self, addr: int) -> Option<int> {
        if self.covers(addr, 8) {
            Some(bytes::le64(self.bytes, addr - self.base))
        } else {
            None
        }
    }

    /// This memory with `data` written at `addr`.
    pub open spec fn put(self, addr: int, data: Seq<u8>) -> Memory {
        Memory { base: self.base, bytes: bytes::splice(self.bytes, addr - self.base, data) }
    }
}

impl View for PhysMem {
    type V = Memory;

    open spec fn view(&self) -> Memory {
        Memory { base: self.base as int, bytes: self.bytes@ }
    }
}

impl PhysMem {
    /// Whether the `n` bytes at `addr` lie in the window.
    pub fn covers(&self, addr: u64, n: u64) -> (r: bool)
        ensures
            r == self@.covers(addr as int, n as int),
    {
        assert(self.bytes@.len() == self.bytes.len());
        let len: u64 = self.bytes.len() as u64;
        addr >= self.base && addr - self.base <= len && n <= len - (addr - self.base)
    }

    /// Reads the byte at `addr`.
    pub fn load8(&self, addr: u64) -> (r: Result<u8, Stop>)
        ensures
            match r {
                Ok(v) => self@.get8(addr as int) == Some(v as int),
                Err(e) => self@.get8(addr as int) is None && e == Stop::Fault(addr),
            },
    {
        if !self.covers(addr, 1) {
            return Err(Stop::Fault(addr));
        }
        assert(self.bytes@.len() == self.bytes.len());
        Ok(self.bytes[(addr - self.base) as usize])
    }

    /// Reads the 16-bit number at `addr`.
    pub fn load16(&self, addr: u64) -> (r: Result<u16, Stop>)
        ensures
            match r {
                Ok(v) => self@.get16(addr as int) == Some(v as int),
                Err(e) => self@.get16(addr as int) is None && e == Stop::Fault(addr),
            },
    {
        if !self.covers(addr, 2) {
            return Err(Stop::Fault(addr));
        }
        assert(self.bytes@.len() == self.bytes.len());
        Ok(bytes::read_le16(&self.bytes, (addr - self.base) as usize))
    }

    /// Reads the 32-bit number at `addr`.
    pub fn load32(&self, addr: u64) -> (r: Result<u32, Stop>)
        ensures
            match r {
                Ok(v) => self@.get32(addr as int) == Some(v as int),
                Err(e) => self@.get32(addr as int) is None && e == Stop::Fault(addr),
            },
    {
        if !self.covers(addr, 4) {
            return Err(Stop::Fault(addr));
        }
        assert(self.bytes@.len() == self.bytes.len());
        Ok(bytes::read_le32(&self.bytes, (addr - self.base) as usize))
    }

    /// Reads the 64-bit number at `addr`.
    pub fn load64(&self, addr: u64) -> (r: Result<u64, Stop>)
        ensures
            match r {
                Ok(v) => self@.get64(addr as int) == Some(v as int),
                Err(e) => self@.get64(addr as int) is None && e == Stop::Fault(addr),
            },
    {
        if !self.covers(addr, 8) {
            return Err(Stop::Fault(addr));
        }
        assert(self.bytes@.len() == self.bytes.len());
        Ok(bytes::read_le64(&self.bytes, (addr - self.base) as usize))
    }

    /// Writes `data` at `addr`.
    pub fn store(&mut self, addr: u64, data: &[u8]) -> (r: Result<(), Stop>)
        ensures
            match r {
                Ok(()) => old(self)@.covers(addr as int, data@.len() as int) && final(self)@
                    == old(self)@.put(addr as int, data@),
                Err(e) => !old(self)@.covers(addr as int, data@.len() as int) && e
                    == Stop::Fault(addr) && *final(self) == *old(self),
            },
    {
        assert(data@.len() == data.len());
        if !self.covers(addr, data.len() as u64) {
            return Err(Stop::Fault(addr));
        }
        assert(self.bytes@.len() == self.bytes.len());
        let at: usize = (addr - self.base) as usize;
        bytes::write_at(&mut self.bytes, at, data);
        Ok(())
    }

    /// Writes `n` zero bytes at `addr`.
    pub fn clear(&mut self, addr: u64, n: u64) -> (r: Result<(), Stop>)
        ensures
            match r {
                Ok(()) => old(self)@.covers(addr as int, n as int) && final(self)@ == old(
                    self,
                )@.put(addr as int, bytes::zeros(n as nat)),
                Err(e) => !old(self)@.covers(addr as int, n as int) && e == Stop::Fault(addr)
                    && *final(self) == *old(self),
            },
    {
        if !self.covers(addr, n) {
            return Err(Stop::Fault(addr));
        }
        assert(self.bytes@.len() == self.bytes.len());
        let at: usize = (addr - self.base) as usize;
        let z: Vec<u8> = bytes::zeroed(n as usize);
        bytes::write_at(&mut self.bytes, at, &z);
        Ok(())
    }

    /// Writes a 32-bit number at `addr`.
    pub fn store32(&mut self, addr: u64, v: u32) -> (r: Result<(), Stop>)
        ensures
            match r {
                Ok(()) => old(self)@.covers(addr as int, 4) && final(self)@ == old(self)@.put(
                    addr as int,
                    bytes::le32_bytes(v),
                ),
                Err(e) => !old(self)@.covers(addr as int, 4) && e == Stop::Fault(addr)
                    && *final(self) == *old(self),
            },
    {
        let mut b: Vec<u8> = Vec::new();
        bytes::push_le32(&mut b, v);
        assert(b@ =~= bytes::le32_bytes(v));
        self.store(addr, &b)
    }

    /// Writes a 64-bit number at `addr`.
    pub fn store64(&mut self, addr: u64, v: u64) -> (r: Result<(), Stop>)
        ensures
            match r {
                Ok(()) => old(self)@.covers(addr as int, 8) && final(self)@ == old(self)@.put(
                    addr as int,
                    bytes::le64_bytes(v),
                ),
                Err(e) => !old(self)@.covers(addr as int, 8) && e == Stop::Fault(addr)
                    && *final(self) == *old(self),
            },
    {
        let mut b: Vec<u8> = Vec::new();
        bytes::push_le64(&mut b, v);
        assert(b@ =~= bytes::le64_bytes(v));
        self.store(addr, &b)
    }
}

/// A 64-bit number that was written is read back.
pub proof fn lemma_get_after_put64(m: Memory, addr: int, v: u64)
    requires
        m.covers(addr, 8),
    ensures
        m.put(addr, bytes::le64_bytes(v)).get64(addr) == Some(v as int),
{
    bytes::lemma_le64_roundtrip(v);
    let b = m.put(addr, bytes::le64_bytes(v)).bytes;
    bytes::lemma_le_window(b, addr - m.base, bytes::le64_bytes(v), 0, 8);
}

/// Whether `n` is `m` with `data` at `addr`, and nothing else changed.
pub open spec fn changed_at(m: Memory, n: Memory, addr: int, data: Seq<u8>) -> bool {
    &&& n.base == m.base
    &&& n.bytes.len() == m.bytes.len()
    &&& forall|k: int|
        0 <= k < data.len() ==> n.get8(addr + k) == Some((#[trigger] data[k]) as int)
    &&& forall|x: int| !(addr <= x < addr + data.len()) ==> #[trigger] n.get8(x) == m.get8(x)
}

/// Bytes that are written are the ones that are read there, and no other byte
/// changes.
pub proof fn law_written_bytes_are_read(m: Memory, addr: int, data: Seq<u8>)
    requires
        m.covers(addr, data.len() as int),
    ensures
        changed_at(m, m.put(addr, data), addr, data),
        m.put(addr, data).slice(addr, data.len() as int) == data,
{
    let n = m.put(addr, data);
    assert(n.slice(addr, data.len() as int) =~= data);
    assert forall|k: int| 0 <= k < data.len() implies n.get8(addr + k) == Some(
        (#[trigger] data[k]) as int,
    ) by {}
}

} // verus!
