use vstd::prelude::*;

verus! {

/// Number of bits used for the slab index inside a handle.
pub const INDEX_BITS: u32 = 21;

/// Mask selecting the slab-index bits of a handle.
pub const INDEX_MASK: u32 = 0x001F_FFFF;

/// One past the largest slab index a handle can carry.
pub const INDEX_LIMIT: u32 = 0x0020_0000;

/// Bit marking a handle as belonging to the socket slab (rather than the
/// dpoll slab).
pub const SOCKET_BIT: u32 = 0x2000_0000;

/// Bit set on every handle this library hands out; a descriptor with this
/// bit clear is an ordinary kernel file descriptor.
pub const DPOLL_BIT: u32 = 0x4000_0000;

/// The sign bit of the 32-bit descriptor; always clear on library handles so
/// the encoded value is a valid non-negative file descriptor.
pub const SIGN_BIT: u32 = 0x8000_0000;

/// Wrapping 8-bit generation counter stored both in a slab entry and in the
/// handles that point at it; a mismatch detects use after free.
#[derive(Clone, Copy, Debug, PartialEq, Eq, Structural)]
pub struct Generation {
    pub value: u8,
}

impl Generation {
    pub fn zero() -> (r: Generation)
        ensures
            r.value == 0,
    {
        Generation { value: 0 }
    }

    /// The generation that a slab slot takes when its occupant is freed.
    /// Wraps around; the result always differs from the argument.
    pub fn next(self) -> (r: Generation)
        ensures
            r.value == if self.value == 255 { 0int } else { self.value + 1 },
            r.value != self.value,
    {
        if self.value == 255 {
            Generation { value: 0 }
        } else {
            Generation { value: self.value + 1 }
        }
    }

    pub fn from_bits(bits: u8) -> (r: Generation)
        ensures
            r.value == bits,
    {
        Generation { value: bits }
    }

    pub fn into_bits(self) -> (r: u8)
        ensures
            r == self.value,
    {
        self.value
    }
}

/// A 32-bit handle encoding a slab index, a generation counter and two kind
/// bits; interchangeable with a kernel file descriptor on the ABI because the
/// dpoll bit distinguishes the two and the sign bit is clear.
#[derive(Clone, Copy, Debug, PartialEq, Eq, Structural)]
pub struct Index {
    pub bits: u32,
}

impl Index {
    /// Slab index encoded in the low bits of the handle.
    pub open spec fn spec_index(self) -> u32 {
        self.bits & INDEX_MASK
    }

    /// Generation counter encoded above the index bits.
    pub open spec fn spec_generation(self) -> Generation {
        Generation { value: ((self.bits >> INDEX_BITS) & 0xFF) as u8 }
    }

    /// Whether the handle names an entry of the socket slab.
    pub open spec fn spec_is_socket(self) -> bool {
        self.bits & SOCKET_BIT != 0
    }

    /// Whether the descriptor is a library handle at all.
    pub open spec fn spec_is_dpoll(self) -> bool {
        self.bits & DPOLL_BIT != 0
    }

    /// Whether the sign bit is clear, i.e. the handle is a valid fd value.
    pub open spec fn spec_sign_clear(self) -> bool {
        self.bits & SIGN_BIT == 0
    }

    pub fn index(self) -> (r: u32)
        ensures
            r == self.spec_index(),
            r < INDEX_LIMIT,
    {
        proof {
            let b = self.bits;
            assert(b & 0x001F_FFFFu32 < 0x0020_0000u32) by (bit_vector);
        }
        self.bits & INDEX_MASK
    }

    pub fn generation(self) -> (r: Generation)
        ensures
            r == self.spec_generation(),
    {
        proof {
            let b = self.bits;
            assert((b >> 21u32) & 0xFFu32 < 256) by (bit_vector);
        }
        Generation { value: ((self.bits >> INDEX_BITS) & 0xFF) as u8 }
    }

    pub fn is_socket(self) -> (r: bool)
        ensures
            r == self.spec_is_socket(),
    {
        self.bits & SOCKET_BIT != 0
    }

    pub fn is_dpoll(self) -> (r: bool)
        ensures
            r == self.spec_is_dpoll(),
    {
        self.bits & DPOLL_BIT != 0
    }

    /// Encoding of the three handle components into the 32-bit value; the
    /// dpoll bit is always set and the sign bit always clear.
    pub open spec fn spec_encode(index: u32, genval: u8, is_socket: bool) -> u32 {
        index | ((genval as u32) << INDEX_BITS) | (if is_socket {
            SOCKET_BIT
        } else {
            0u32
        }) | DPOLL_BIT
    }

    /// Builds the handle for slab slot `index` with generation `gene`.
    pub fn from_parts(index: u32, gene: Generation, is_socket: bool) -> (r: Index)
        requires
            index < INDEX_LIMIT,
        ensures
            r.bits == Index::spec_encode(index, gene.value, is_socket),
            r.spec_index() == index,
            r.spec_generation() == gene,
            r.spec_is_socket() == is_socket,
            r.spec_is_dpoll(),
            r.spec_sign_clear(),
    {
        let sock_bits: u32 = if is_socket {
            SOCKET_BIT
        } else {
            0u32
        };
        let bits: u32 = index | ((gene.value as u32) << INDEX_BITS) | sock_bits | DPOLL_BIT;
        proof {
            let i = index;
            let g = gene.value;
            assert({
                let b = i | ((g as u32) << 21u32) | 0x2000_0000u32 | 0x4000_0000u32;
                &&& b & 0x001F_FFFFu32 == i
                &&& (b >> 21u32) & 0xFFu32 == g
                &&& b & 0x2000_0000u32 != 0
                &&& b & 0x4000_0000u32 != 0
                &&& b & 0x8000_0000u32 == 0
            }) by (bit_vector)
                requires
                    i < 0x0020_0000u32,
            ;
            assert({
                let b = i | ((g as u32) << 21u32) | 0u32 | 0x4000_0000u32;
                &&& b & 0x001F_FFFFu32 == i
                &&& (b >> 21u32) & 0xFFu32 == g
                &&& b & 0x2000_0000u32 == 0
                &&& b & 0x4000_0000u32 != 0
                &&& b & 0x8000_0000u32 == 0
            }) by (bit_vector)
                requires
                    i < 0x0020_0000u32,
            ;
        }
        Index { bits }
    }

    pub fn from_bits(bits: u32) -> (r: Index)
        ensures
            r.bits == bits,
    {
        Index { bits }
    }

    pub fn into_bits(self) -> (r: u32)
        ensures
            r == self.bits,
    {
        self.bits
    }

    /// Reads a descriptor received from the application.
    pub fn from_fd(fd: i32) -> (r: Index)
        requires
            fd >= 0,
        ensures
            r.bits == fd,
            r.spec_sign_clear(),
    {
        proof {
            let f = fd;
            assert(f >= 0 ==> (f as u32) & 0x8000_0000u32 == 0 && (f as u32) == f) by (bit_vector);
        }
        Index { bits: fd as u32 }
    }

    /// The descriptor value handed back to the application.
    pub fn into_fd(self) -> (r: i32)
        requires
            self.spec_sign_clear(),
        ensures
            r == self.bits,
            r >= 0,
    {
        proof {
            let b = self.bits;
            assert(b & 0x8000_0000u32 == 0 ==> (b as i32) == b && (b as i32) >= 0) by (bit_vector);
        }
        self.bits as i32
    }
}

/// Every library handle survives a decode / encode round trip: re-encoding
/// the decoded index, generation and kind bits of a handle with the dpoll
/// bit set and the sign bit clear yields the handle itself.
pub proof fn lemma_handle_round_trip(h: Index)
    requires
        h.spec_is_dpoll(),
        h.spec_sign_clear(),
    ensures
        Index::spec_encode(h.spec_index(), h.spec_generation().value, h.spec_is_socket()) == h.bits,
{
    let b = h.bits;
    assert(b & 0x4000_0000u32 != 0 && b & 0x8000_0000u32 == 0 && b & 0x2000_0000u32 != 0 ==> (b
        & 0x001F_FFFFu32) | ((((b >> 21u32) & 0xFFu32) as u8 as u32) << 21u32) | 0x2000_0000u32
        | 0x4000_0000u32 == b) by (bit_vector);
    assert(b & 0x4000_0000u32 != 0 && b & 0x8000_0000u32 == 0 && b & 0x2000_0000u32 == 0 ==> (b
        & 0x001F_FFFFu32) | ((((b >> 21u32) & 0xFFu32) as u8 as u32) << 21u32) | 0u32
        | 0x4000_0000u32 == b) by (bit_vector);
}

/// Where the shim routes a descriptor received from the application.
#[derive(Clone, Copy, Debug, PartialEq, Eq, Structural)]
pub enum FdClass {
    /// The dpoll bit is clear: an ordinary kernel file descriptor, passed
    /// through to the kernel untouched.
    Kernel,
    /// A library handle naming an entry of the socket slab.
    LibSocket(Index),
    /// A library handle naming an entry of the dpoll slab.
    LibDpoll(Index),
}

/// Dispatch decision for a descriptor coming in over the ABI: descriptors
/// with the dpoll bit clear belong to the kernel, the rest to one of the two
/// library slabs according to the socket bit.
pub fn classify_fd(fd: i32) -> (r: FdClass)
    requires
        fd >= 0,
    ensures
        ({
            let idx = Index { bits: fd as u32 };
            r == if !idx.spec_is_dpoll() {
                FdClass::Kernel
            } else if idx.spec_is_socket() {
                FdClass::LibSocket(idx)
            } else {
                FdClass::LibDpoll(idx)
            }
        }),
{
    proof {
        let f = fd;
        assert(f >= 0 ==> (f as u32) == f) by (bit_vector);
    }
    let idx = Index::from_bits(fd as u32);
    if !idx.is_dpoll() {
        FdClass::Kernel
    } else if idx.is_socket() {
        FdClass::LibSocket(idx)
    } else {
        FdClass::LibDpoll(idx)
    }
}

} // verus!
