//! A window of a disk, with a position in it.

use vstd::prelude::*;

verus! {

/// Where in a partition the next access starts.
#[derive(Clone, Copy, Debug, PartialEq, Eq, Structural)]
pub struct Partition {
    /// Where the partition starts on the disk.
    pub base: u64,
    /// How many bytes it has.
    pub len: u64,
    /// The position in it.
    pub pos: u64,
}

/// Where to go.
#[derive(Clone, Copy, Debug, PartialEq, Eq, Structural)]
pub enum SeekTo {
    /// So many bytes from the start.
    Start(u64),
    /// So many bytes from the position.
    Current(i64),
    /// So many bytes from the end.
    End(i64),
}

/// The target lies outside the partition.
#[derive(Clone, Copy, Debug, PartialEq, Eq, Structural)]
pub struct SeekError;

impl Partition {
    /// Whether the partition ends inside the disk's addresses and the position
    /// lies in it.
    pub open spec fn wf(self) -> bool {
        self.base + self.len <= u64::MAX && self.pos <= self.len
    }

    /// The position that a target stands for.
    pub open spec fn target(self, to: SeekTo) -> int {
        match to {
            SeekTo::Start(off) => off as int,
            SeekTo::Current(delta) => self.pos + delta,
            SeekTo::End(delta) => self.len + delta,
        }
    }

    /// The partition of `len` bytes at `base`, at its start.
    pub fn new(base: u64, len: u64) -> (r: Self)
        requires
            base + len <= u64::MAX,
        ensures
            r == (Partition { base, len, pos: 0 }),
            r.wf(),
    {
        Partition { base, len, pos: 0 }
    }

    /// Where on the disk an access for up to `want` bytes starts and how many
    /// bytes it may have; none at the end of the partition.
    pub fn access(&self, want: usize) -> (r: Option<(u64, usize)>)
        requires
            self.wf(),
        ensures
            match r {
                Some((at, count)) => {
                    &&& self.pos < self.len
                    &&& at == self.base + self.pos
                    &&& count == if want <= self.len - self.pos {
                        want as int
                    } else {
                        self.len - self.pos
                    }
                },
                None => self.pos == self.len,
            },
    {
        if self.pos >= self.len {
            return None;
        }
        let remaining: u64 = self.len - self.pos;
        let count: usize = if (want as u64) <= remaining {
            want
        } else {
            remaining as usize
        };
        Some((self.base + self.pos, count))
    }

    /// Moves the position behind `done` bytes.
    pub fn advance(&mut self, done: usize)
        requires
            old(self).wf(),
            done <= old(self).len - old(self).pos,
        ensures
            *final(self) == (Partition { pos: (old(self).pos + done) as u64, ..*old(self) }),
            final(self).wf(),
    {
        self.pos = self.pos + done as u64;
    }

    /// Moves the position: the new one, or an error if the target lies outside.
    pub fn seek(&mut self, to: SeekTo) -> (r: Result<u64, SeekError>)
        requires
            old(self).wf(),
        ensures
            final(self).wf(),
            ({
                let target = old(self).target(to);
                if 0 <= target <= old(self).len {
                    r matches Ok(p) && p == target && *final(self) == (Partition {
                        pos: target as u64,
                        ..*old(self)
                    })
                } else {
                    r is Err && *final(self) == *old(self)
                }
            }),
    {
        let next: Option<u64> = match to {
            SeekTo::Start(off) => Some(off),
            SeekTo::Current(delta) => offset(self.pos, delta),
            SeekTo::End(delta) => offset(self.len, delta),
        };
        match next {
            Some(n) => if n <= self.len {
                self.pos = n;
                Ok(n)
            } else {
                Err(SeekError)
            },
            None => Err(SeekError),
        }
    }
}

/// A number and a signed distance; none if the result is no 64-bit number.
fn offset(from: u64, delta: i64) -> (r: Option<u64>)
    ensures
        match r {
            Some(n) => n == from + delta,
            None => from + delta < 0 || from + delta > u64::MAX,
        },
{
    if delta >= 0 {
        from.checked_add(delta as u64)
    } else {
        let back: u64 = (-(delta as i128)) as u64;
        from.checked_sub(back)
    }
}

/// An access stays inside the partition, whatever is asked for and wherever the
/// position was moved to.
pub proof fn law_access_stays_inside(p: Partition, to: SeekTo, at: int, count: int, want: int)
    requires
        p.wf(),
        0 <= want,
        0 <= p.target(to) <= p.len,
        at == p.base + p.target(to),
        0 <= count <= want,
        count <= p.len - p.target(to),
    ensures
        p.base <= at,
        at + count <= p.base + p.len,
{
}

} // verus!
