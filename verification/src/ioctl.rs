//! Request numbers of ioctls, put together as the kernel's `_IOC` does.

use vstd::prelude::*;

verus! {

pub const IOC_NRBITS: u32 = 8;

pub const IOC_TYPEBITS: u32 = 8;

pub const IOC_SIZEBITS: u32 = 14;

pub const IOC_DIRBITS: u32 = 2;

pub const IOC_NRSHIFT: u32 = 0;

pub const IOC_TYPESHIFT: u32 = 8;

pub const IOC_SIZESHIFT: u32 = 16;

pub const IOC_DIRSHIFT: u32 = 30;

pub const IOC_NONE: u32 = 0;

pub const IOC_WRITE: u32 = 1;

pub const IOC_READ: u32 = 2;

/// The request number with the given direction, type, number and payload
/// size, each in its own bits: number lowest, then type, size and direction.
pub open spec fn ioc(dir: u32, ty: u32, nr: u32, size: u32) -> u32 {
    (dir << 30u32) | (ty << 8u32) | (nr << 0u32) | (size << 16u32)
}

/// Puts a request number together.
pub fn _ioc(dir: u32, ty: u32, nr: u32, size: u32) -> (r: u32)
    ensures
        r == ioc(dir, ty, nr, size),
{
    (dir << IOC_DIRSHIFT) | (ty << IOC_TYPESHIFT) | (nr << IOC_NRSHIFT) | (size << IOC_SIZESHIFT)
}

/// The number of a request that carries no payload.
pub fn _io(ty: u32, nr: u32) -> (r: u32)
    ensures
        r == ioc(0, ty, nr, 0),
{
    _ioc(IOC_NONE, ty, nr, 0)
}

/// The number of a request that reads `size` bytes from the kernel.
pub fn _ior(ty: u32, nr: u32, size: usize) -> (r: u32)
    ensures
        r == ioc(2, ty, nr, #[verifier::truncate] (size as u32)),
{
    _ioc(IOC_READ, ty, nr, #[verifier::truncate] (size as u32))
}

/// The number of a request that writes `size` bytes to the kernel.
pub fn _iow(ty: u32, nr: u32, size: usize) -> (r: u32)
    ensures
        r == ioc(1, ty, nr, #[verifier::truncate] (size as u32)),
{
    _ioc(IOC_WRITE, ty, nr, #[verifier::truncate] (size as u32))
}

/// The number of a request that writes `size` bytes and reads them back.
pub fn _iowr(ty: u32, nr: u32, size: usize) -> (r: u32)
    ensures
        r == ioc(3, ty, nr, #[verifier::truncate] (size as u32)),
{
    assert(2u32 | 1u32 == 3u32) by (bit_vector);
    _ioc(IOC_READ | IOC_WRITE, ty, nr, #[verifier::truncate] (size as u32))
}

/// Each field that fits its bits can be read back from the request number,
/// and the number is the sum of the fields, each at its place.
pub proof fn lemma_ioc_fields(dir: u32, ty: u32, nr: u32, size: u32)
    requires
        dir < 4,
        ty < 256,
        nr < 256,
        size < 16384,
    ensures
        ioc(dir, ty, nr, size) & 0xff == nr,
        (ioc(dir, ty, nr, size) >> 8u32) & 0xff == ty,
        (ioc(dir, ty, nr, size) >> 16u32) & 0x3fff == size,
        ioc(dir, ty, nr, size) >> 30u32 == dir,
        ioc(dir, ty, nr, size) == dir * 0x4000_0000 + size * 0x1_0000 + ty * 0x100 + nr,
{
    let r = (dir << 30u32) | (ty << 8u32) | (nr << 0u32) | (size << 16u32);
    assert(r & 0xff == nr && (r >> 8u32) & 0xff == ty && (r >> 16u32) & 0x3fff == size && r
        >> 30u32 == dir) by (bit_vector)
        requires
            r == (dir << 30u32) | (ty << 8u32) | (nr << 0u32) | (size << 16u32),
            dir < 4,
            ty < 256,
            nr < 256,
            size < 16384,
    ;
    assert(r == dir * 0x4000_0000 + size * 0x1_0000 + ty * 0x100 + nr) by (bit_vector)
        requires
            r == (dir << 30u32) | (ty << 8u32) | (nr << 0u32) | (size << 16u32),
            dir < 4,
            ty < 256,
            nr < 256,
            size < 16384,
    ;
}

} // verus!
