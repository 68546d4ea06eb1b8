use vstd::prelude::*;

use crate::error::Exception;

verus! {

/// Capacity of the machine's memory in bytes.
pub const MEMORY_LEN: usize = 10240;

/// Capacity of a `Stack` made for the machine.
pub const STACK_LEN: usize = 1024;

/// The little-endian 16-bit value of the two bytes at `addr`.
pub open spec fn le16(b: Seq<u8>, addr: int) -> u16 {
    (b[addr] as u16) | ((b[addr + 1] as u16) << 8u16)
}

/// The little-endian 32-bit value of the four bytes at `addr`.
pub open spec fn le32(b: Seq<u8>, addr: int) -> u32 {
    (b[addr] as u32) | ((b[addr + 1] as u32) << 8u32) | ((b[addr + 2] as u32) << 16u32) | ((b[addr
        + 3] as u32) << 24u32)
}

/// Byte `k` of `v`, least significant first.
pub open spec fn byte_of(v: u32, k: int) -> u8 {
    ((v >> (8 * k) as u32) & 0xffu32) as u8
}

/// The little-endian bytes of a 32-bit value.
pub open spec fn le32_bytes(v: u32) -> Seq<u8> {
    seq![byte_of(v, 0), byte_of(v, 1), byte_of(v, 2), byte_of(v, 3)]
}

/// The little-endian bytes of a 16-bit value.
pub open spec fn le16_bytes(v: u16) -> Seq<u8> {
    seq![(v & 0xffu16) as u8, ((v >> 8u16) & 0xffu16) as u8]
}

/// The address of the first byte of `[addr, addr + n)` that lies outside a store of `len`
/// bytes.
pub open spec fn fault_addr(addr: int, n: int, len: int) -> int {
    if addr >= len {
        addr
    } else {
        len
    }
}

/// `b` with `vals` written from `addr` on, byte by byte, as far as the store reaches.
pub open spec fn write_bytes(b: Seq<u8>, addr: int, vals: Seq<u8>) -> Seq<u8> {
    Seq::new(
        b.len(),
        |j: int|
            if addr <= j < addr + vals.len() {
                vals[j - addr]
            } else {
                b[j]
            },
    )
}

/// `b` after copying `n` bytes from `from` to `to` in ascending order, stopping before
/// the first byte that lies outside the store.
pub open spec fn copy_bytes(b: Seq<u8>, from: int, to: int, n: int) -> Seq<u8> {
    let k = copy_reach(b.len() as int, from, to, n);
    Seq::new(
        b.len(),
        |j: int|
            if to <= j < to + k {
                b[from + (j - to)]
            } else {
                b[j]
            },
    )
}

/// How many bytes of a copy of `n` bytes from `from` to `to` lie inside a store of `len`.
pub open spec fn copy_reach(len: int, from: int, to: int, n: int) -> int {
    let a = if from >= len {
        0
    } else {
        len - from
    };
    let c = if to >= len {
        0
    } else {
        len - to
    };
    let m = if a < c {
        a
    } else {
        c
    };
    if n < m {
        n
    } else {
        m
    }
}

/// The address at which a copy from `from` to `to` first leaves a store of `len` bytes:
/// at each step the source byte is read before the destination byte is written.
pub open spec fn copy_fault(len: int, from: int, to: int, n: int) -> int {
    let k = copy_reach(len, from, to, n);
    if from + k >= len {
        from + k
    } else {
        to + k
    }
}

/// A byte-addressable store. Every access outside its capacity is
/// `InvalidMemoryAccess` of the address.
pub trait Addressable {
    /// The bytes the store holds; address `i` is byte `i`.
    spec fn bytes(&self) -> Seq<u8>;

    /// The store's capacity fits the 32-bit address space.
    proof fn lemma_capacity(&self)
        ensures
            self.bytes().len() <= u32::MAX,
    ;

    /// The byte at `addr`.
    fn read(&self, addr: u32) -> (r: Result<u8, Exception>)
        ensures
            addr < self.bytes().len() ==> r == Ok::<u8, Exception>(self.bytes()[addr as int]),
            addr >= self.bytes().len() ==> r == Err::<u8, Exception>(
                Exception::InvalidMemoryAccess(addr),
            ),
    ;

    /// Sets the byte at `addr` to `value`.
    fn write(&mut self, addr: u32, value: u8) -> (r: Result<(), Exception>)
        ensures
            addr < old(self).bytes().len() ==> r == Ok::<(), Exception>(())
                && final(self).bytes() == old(self).bytes().update(addr as int, value),
            addr >= old(self).bytes().len() ==> r == Err::<(), Exception>(
                Exception::InvalidMemoryAccess(addr),
            ) && final(self).bytes() == old(self).bytes(),
    ;

    /// The little-endian 16-bit value at `addr`.
    fn read_u16(&self, addr: u32) -> (r: Result<u16, Exception>)
        ensures
            addr + 2 <= self.bytes().len() ==> r == Ok::<u16, Exception>(
                le16(self.bytes(), addr as int),
            ),
            addr + 2 > self.bytes().len() ==> r == Err::<u16, Exception>(
                Exception::InvalidMemoryAccess(fault_addr(addr as int, 2, self.bytes().len() as int) as u32),
            ),
    {
        proof {
            self.lemma_capacity();
        }
        let b0 = match self.read(addr) {
            Ok(b) => b,
            Err(e) => return Err(e),
        };
        let b1 = match self.read(addr + 1) {
            Ok(b) => b,
            Err(e) => return Err(e),
        };
        Ok((b0 as u16) | ((b1 as u16) << 8u16))
    }

    /// Writes the little-endian bytes of `value` from `addr` on, one at a time; a fault
    /// leaves the bytes before it written.
    fn write_u16(&mut self, addr: u32, value: u16) -> (r: Result<(), Exception>)
        ensures
            final(self).bytes() == write_bytes(old(self).bytes(), addr as int, le16_bytes(value)),
            addr + 2 <= old(self).bytes().len() ==> r == Ok::<(), Exception>(()),
            addr + 2 > old(self).bytes().len() ==> r == Err::<(), Exception>(
                Exception::InvalidMemoryAccess(
                    fault_addr(addr as int, 2, old(self).bytes().len() as int) as u32,
                ),
            ),
    {
        proof {
            self.lemma_capacity();
        }
        let ghost b = self.bytes();
        let ghost vals = le16_bytes(value);
        match self.write(addr, (value & 0xffu16) as u8) {
            Ok(()) => {},
            Err(e) => {
                assert(final(self).bytes() =~= write_bytes(b, addr as int, vals));
                return Err(e);
            },
        }
        match self.write(addr + 1, ((value >> 8u16) & 0xffu16) as u8) {
            Ok(()) => {},
            Err(e) => {
                assert(self.bytes() =~= write_bytes(b, addr as int, vals));
                return Err(e);
            },
        }
        assert(self.bytes() =~= write_bytes(b, addr as int, vals));
        Ok(())
    }

    /// The little-endian 32-bit value at `addr`.
    fn read_u32(&self, addr: u32) -> (r: Result<u32, Exception>)
        ensures
            addr + 4 <= self.bytes().len() ==> r == Ok::<u32, Exception>(
                le32(self.bytes(), addr as int),
            ),
            addr + 4 > self.bytes().len() ==> r == Err::<u32, Exception>(
                Exception::InvalidMemoryAccess(fault_addr(addr as int, 4, self.bytes().len() as int) as u32),
            ),
    {
        proof {
            self.lemma_capacity();
        }
        let b0 = match self.read(addr) {
            Ok(b) => b,
            Err(e) => return Err(e),
        };
        let b1 = match self.read(addr + 1) {
            Ok(b) => b,
            Err(e) => return Err(e),
        };
        let b2 = match self.read(addr + 2) {
            Ok(b) => b,
            Err(e) => return Err(e),
        };
        let b3 = match self.read(addr + 3) {
            Ok(b) => b,
            Err(e) => return Err(e),
        };
        Ok((b0 as u32) | ((b1 as u32) << 8u32) | ((b2 as u32) << 16u32) | ((b3 as u32) << 24u32))
    }

    /// Writes the little-endian bytes of `value` from `addr` on, one at a time; a fault
    /// leaves the bytes before it written.
    fn write_u32(&mut self, addr: u32, value: u32) -> (r: Result<(), Exception>)
        ensures
            final(self).bytes() == write_bytes(old(self).bytes(), addr as int, le32_bytes(value)),
            addr + 4 <= old(self).bytes().len() ==> r == Ok::<(), Exception>(()),
            addr + 4 > old(self).bytes().len() ==> r == Err::<(), Exception>(
                Exception::InvalidMemoryAccess(
                    fault_addr(addr as int, 4, old(self).bytes().len() as int) as u32,
                ),
            ),
    {
        proof {
            self.lemma_capacity();
        }
        let ghost b = self.bytes();
        let ghost vals = le32_bytes(value);
        let mut k: u32 = 0;
        while k < 4
            invariant
                k <= 4,
                b == old(self).bytes(),
                vals == le32_bytes(value),
                b.len() <= u32::MAX,
                k > 0 ==> addr + k <= b.len(),
                self.bytes() == write_bytes(b, addr as int, vals.subrange(0, k as int)),
            decreases 4 - k,
        {
            proof {
                self.lemma_capacity();
            }
            let byte = ((value >> (8 * k)) & 0xffu32) as u8;
            match self.write(addr + k, byte) {
                Ok(()) => {},
                Err(e) => {
                    assert(self.bytes() =~= write_bytes(b, addr as int, vals));
                    return Err(e);
                },
            }
            assert(self.bytes() =~= write_bytes(b, addr as int, vals.subrange(0, k + 1)));
            k = k + 1;
        }
        assert(vals.subrange(0, 4) =~= vals);
        Ok(())
    }

    /// Copies `n` bytes from `from` to `to`, one at a time in ascending order, stopping at
    /// the first byte that lies outside the store. A destination that overlaps the source
    /// above its start is not supported.
    fn copy(&mut self, from: u32, to: u32, n: usize) -> (r: Result<(), Exception>)
        requires
            !(from < to < from + n),
        ensures
            final(self).bytes() == copy_bytes(old(self).bytes(), from as int, to as int, n as int),
            copy_reach(old(self).bytes().len() as int, from as int, to as int, n as int) == n ==> r
                == Ok::<(), Exception>(()),
            copy_reach(old(self).bytes().len() as int, from as int, to as int, n as int) < n ==> r
                == Err::<(), Exception>(
                Exception::InvalidMemoryAccess(
                    copy_fault(old(self).bytes().len() as int, from as int, to as int, n as int)
                        as u32,
                ),
            ),
    {
        proof {
            self.lemma_capacity();
        }
        let ghost b = self.bytes();
        let ghost len = b.len() as int;
        let ghost k = copy_reach(len, from as int, to as int, n as int);
        let mut idx: usize = 0;
        while idx < n
            invariant
                b == old(self).bytes(),
                len == b.len(),
                len <= u32::MAX,
                k == copy_reach(len, from as int, to as int, n as int),
                !(from < to < from + n),
                idx <= k,
                self.bytes() == copy_bytes(b, from as int, to as int, idx as int),
            decreases n - idx,
        {
            proof {
                self.lemma_capacity();
            }
            let ghost cur = self.bytes();
            let i = idx as u32;
            let byte = match self.read(from + i) {
                Ok(v) => v,
                Err(e) => {
                    assert(copy_bytes(b, from as int, to as int, idx as int) =~= copy_bytes(
                        b,
                        from as int,
                        to as int,
                        n as int,
                    ));
                    return Err(e);
                },
            };
            assert(byte == b[from + idx]);
            match self.write(to + i, byte) {
                Ok(()) => {},
                Err(e) => {
                    assert(copy_bytes(b, from as int, to as int, idx as int) =~= copy_bytes(
                        b,
                        from as int,
                        to as int,
                        n as int,
                    ));
                    return Err(e);
                },
            }
            assert(self.bytes() =~= copy_bytes(b, from as int, to as int, idx + 1));
            idx = idx + 1;
        }
        Ok(())
    }
}


/// The machine's memory: `MEMORY_LEN` bytes, all zero at the start.
#[derive(Debug, Clone)]
pub struct Memory {
    data: [u8; MEMORY_LEN],
}

impl Memory {
    pub fn new() -> (m: Memory)
        ensures
            m.bytes() == Seq::new(MEMORY_LEN as nat, |i: int| 0u8),
    {
        let m = Memory { data: [0u8; MEMORY_LEN] };
        assert(m.data@ =~= Seq::new(MEMORY_LEN as nat, |i: int| 0u8));
        m
    }
}

impl Addressable for Memory {
    closed spec fn bytes(&self) -> Seq<u8> {
        self.data@
    }

    proof fn lemma_capacity(&self) {
    }

    fn read(&self, addr: u32) -> (r: Result<u8, Exception>) {
        if (addr as usize) < MEMORY_LEN {
            Ok(self.data[addr as usize])
        } else {
            Err(Exception::InvalidMemoryAccess(addr))
        }
    }

    fn write(&mut self, addr: u32, value: u8) -> (r: Result<(), Exception>) {
        if (addr as usize) < MEMORY_LEN {
            self.data[addr as usize] = value;
            Ok(())
        } else {
            Err(Exception::InvalidMemoryAccess(addr))
        }
    }
}

/// The store's capacity.
pub proof fn lemma_memory_len(m: &Memory)
    ensures
        m.bytes().len() == MEMORY_LEN,
{
}


/// A stack of at most `N` values.
#[derive(Clone)]
pub struct Stack<T: Copy, const N: usize> {
    data: Vec<T>,
}

impl<T: Copy, const N: usize> View for Stack<T, N> {
    type V = Seq<T>;

    /// The values on the stack, bottom first.
    closed spec fn view(&self) -> Seq<T> {
        self.data@
    }
}

impl<T: Copy, const N: usize> Stack<T, N> {
    /// The stack holds at most `N` values.
    pub closed spec fn wf(&self) -> bool {
        self.data@.len() <= N
    }

    /// An empty stack.
    pub fn new() -> (s: Self)
        ensures
            s.wf(),
            s@ == Seq::<T>::empty(),
    {
        Stack { data: Vec::new() }
    }

    /// Number of values on the stack.
    pub fn len(&self) -> (r: usize)
        ensures
            r == self@.len(),
    {
        self.data.len()
    }

    /// Puts `value` on top; a full stack is `StackOverflow` and stays as it was.
    pub fn push(&mut self, value: T) -> (r: Result<(), Exception>)
        requires
            old(self).wf(),
        ensures
            final(self).wf(),
            old(self)@.len() < N ==> r == Ok::<(), Exception>(()) && final(self)@ == old(self)@.push(value),
            old(self)@.len() >= N ==> r == Err::<(), Exception>(Exception::StackOverflow)
                && final(self)@ == old(self)@,
    {
        if N <= self.data.len() {
            return Err(Exception::StackOverflow);
        }
        self.data.push(value);
        Ok(())
    }

    /// Takes the top value off; an empty stack is `StackUnderflow`.
    pub fn pop(&mut self) -> (r: Result<T, Exception>)
        requires
            old(self).wf(),
        ensures
            final(self).wf(),
            old(self)@.len() > 0 ==> r == Ok::<T, Exception>(old(self)@.last()) && final(self)@
                == old(self)@.drop_last(),
            old(self)@.len() == 0 ==> r == Err::<T, Exception>(Exception::StackUnderflow)
                && final(self)@ == old(self)@,
    {
        match self.data.pop() {
            Some(v) => Ok(v),
            None => Err(Exception::StackUnderflow),
        }
    }

    /// The top value, if any.
    pub fn peek(&self) -> (r: Option<T>)
        ensures
            self@.len() > 0 ==> r == Some(self@.last()),
            self@.len() == 0 ==> r == None::<T>,
    {
        let n = self.data.len();
        if n == 0 {
            return None;
        }
        Some(self.data[n - 1])
    }

    /// The value `at` places below the top, if there is one.
    pub fn peek_at(&self, at: usize) -> (r: Option<T>)
        ensures
            at < self@.len() ==> r == Some(self@[self@.len() - 1 - at]),
            at >= self@.len() ==> r == None::<T>,
    {
        let n = self.data.len();
        if at >= n {
            return None;
        }
        Some(self.data[n - 1 - at])
    }
}

} // verus!
