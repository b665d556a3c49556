//! File ids of the NFS volume.
//!
//! ```text
//! 0x1                                device root, the list of storages
//! 0x2 + i                            root of storage i
//! 1<<63 | storage<<48 | handle       object on the device
//! 1<<62 | n                          file that is not on the device yet
//! ```

use vstd::prelude::*;

verus! {

/// Id of the device root.
pub const DEVICE_ROOT_ID: u64 = 1;

/// Id of the root of the first storage.
pub const STORAGE_BASE_ID: u64 = 2;

/// The bit that marks an object on the device.
pub const REAL_FLAG: u64 = 0x8000_0000_0000_0000;

/// The bit that marks a file that is not on the device yet.
pub const VIRT_FLAG: u64 = 0x4000_0000_0000_0000;

/// Handles are below this bound.
pub const HANDLE_BOUND: u64 = 0x1_0000_0000_0000;

/// Storage indices of objects are below this bound.
pub const STORAGE_BOUND: usize = 0x4000;

/// A storage and a handle on it.
#[derive(Debug, Clone, Copy, PartialEq, Eq, Structural)]
pub struct Decoded {
    pub storage_index: usize,
    pub handle: u64,
}

/// What a file id stands for.
#[derive(Debug, Clone, Copy, PartialEq, Eq, Structural)]
pub enum Kind {
    DeviceRoot,
    StorageRoot(usize),
    Real(Decoded),
}

/// The id of an object on the device.
pub open spec fn real_id(storage_index: usize, handle: u64) -> u64 {
    REAL_FLAG | ((storage_index as u64) << 48u64) | handle
}

/// What an id stands for; ids of files that are not on the device yet belong to
/// the staging table alone.
pub open spec fn kind_of(id: u64) -> Option<Kind> {
    if id & VIRT_FLAG != 0 {
        None
    } else if id == DEVICE_ROOT_ID {
        Some(Kind::DeviceRoot)
    } else if STORAGE_BASE_ID <= id < REAL_FLAG {
        Some(Kind::StorageRoot((id - STORAGE_BASE_ID) as usize))
    } else if id & REAL_FLAG != 0 {
        Some(
            Kind::Real(
                Decoded {
                    storage_index: ((id >> 48u64) & 0x7FFF) as usize,
                    handle: id & 0xFFFF_FFFF_FFFF,
                },
            ),
        )
    } else {
        None
    }
}

/// Packs a storage index and a handle into an id.
pub fn encode_real(storage_index: usize, handle: u64) -> (r: u64)
    requires
        handle < HANDLE_BOUND,
    ensures
        r == real_id(storage_index, handle),
{
    REAL_FLAG | ((storage_index as u64) << 48u64) | handle
}

/// Unpacks an id.
pub fn decode(id: u64) -> (r: Option<Kind>)
    ensures
        r == kind_of(id),
{
    if id & VIRT_FLAG != 0 {
        return None;
    }
    if id == DEVICE_ROOT_ID {
        return Some(Kind::DeviceRoot);
    }
    if STORAGE_BASE_ID <= id && id < REAL_FLAG {
        return Some(Kind::StorageRoot((id - STORAGE_BASE_ID) as usize));
    }
    if id & REAL_FLAG != 0 {
        return Some(
            Kind::Real(
                Decoded {
                    storage_index: ((id >> 48u64) & 0x7FFF) as usize,
                    handle: id & 0xFFFF_FFFF_FFFF,
                },
            ),
        );
    }
    None
}

/// The id of the `n`th file that is not on the device yet.
pub open spec fn virtual_id(n: u64) -> u64 {
    VIRT_FLAG | n
}

/// Packing is lossless: unpacking gives the storage index and the handle back.
pub proof fn law_real_id_round_trip(storage_index: usize, handle: u64)
    requires
        storage_index < STORAGE_BOUND,
        handle < HANDLE_BOUND,
    ensures
        kind_of(real_id(storage_index, handle)) == Some(
            Kind::Real(Decoded { storage_index, handle }),
        ),
{
    let i = storage_index as u64;
    let id = real_id(storage_index, handle);
    assert(id & 0x4000_0000_0000_0000 == 0 && id >= 0x8000_0000_0000_0000 && id
        & 0x8000_0000_0000_0000 != 0 && (id >> 48u64) & 0x7FFF == i && id & 0xFFFF_FFFF_FFFF
        == handle) by (bit_vector)
        requires
            id == 0x8000_0000_0000_0000u64 | (i << 48u64) | handle,
            i < 0x4000u64,
            handle < 0x1_0000_0000_0000u64,
    ;
}

/// Two objects have the same id only when they are the same object.
pub proof fn law_real_ids_are_distinct(i: usize, h: u64, j: usize, k: u64)
    requires
        i < STORAGE_BOUND,
        j < STORAGE_BOUND,
        h < HANDLE_BOUND,
        k < HANDLE_BOUND,
        real_id(i, h) == real_id(j, k),
    ensures
        i == j && h == k,
{
    law_real_id_round_trip(i, h);
    law_real_id_round_trip(j, k);
}

/// The id of a file that is not on the device yet is the id of nothing else: no
/// root, no storage and no object has it, and no other such file.
pub proof fn law_virtual_ids_stay_apart(n: u64, m: u64, storage_index: usize, handle: u64)
    requires
        n < VIRT_FLAG,
        m < VIRT_FLAG,
        storage_index < STORAGE_BOUND,
        handle < HANDLE_BOUND,
    ensures
        kind_of(virtual_id(n)) is None,
        virtual_id(n) != real_id(storage_index, handle),
        virtual_id(n) == virtual_id(m) ==> n == m,
        virtual_id(n) & REAL_FLAG == 0,
        virtual_id(n) == VIRT_FLAG + n,
{
    let v = virtual_id(n);
    let u = virtual_id(m);
    assert(v & 0x4000_0000_0000_0000 != 0 && v & 0x8000_0000_0000_0000 == 0 && v
        == 0x4000_0000_0000_0000 + n) by (bit_vector)
        requires
            v == 0x4000_0000_0000_0000u64 | n,
            n < 0x4000_0000_0000_0000u64,
    ;
    assert(u == 0x4000_0000_0000_0000 + m) by (bit_vector)
        requires
            u == 0x4000_0000_0000_0000u64 | m,
            m < 0x4000_0000_0000_0000u64,
    ;
    law_real_id_round_trip(storage_index, handle);
}

/// The device root and the roots of the storages have ids of their own.
pub proof fn law_root_ids(i: u64)
    requires
        i < VIRT_FLAG - STORAGE_BASE_ID,
    ensures
        kind_of(DEVICE_ROOT_ID) == Some(Kind::DeviceRoot),
        kind_of((STORAGE_BASE_ID + i) as u64) == Some(Kind::StorageRoot(i as usize)),
        kind_of(0) is None,
{
    let id = (STORAGE_BASE_ID + i) as u64;
    assert(id & 0x4000_0000_0000_0000 == 0) by (bit_vector)
        requires
            id < 0x4000_0000_0000_0000u64,
    ;
    assert(1u64 & 0x4000_0000_0000_0000 == 0) by (bit_vector);
    assert(0u64 & 0x4000_0000_0000_0000 == 0) by (bit_vector);
    assert(0u64 & 0x8000_0000_0000_0000 == 0) by (bit_vector);
}

} // verus!
