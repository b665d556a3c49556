//! Value types shared between the device session and its front-ends.

use vstd::prelude::*;

verus! {

/// The handle that stands for the root directory of a storage.
pub const ROOT: u64 = 0;

/// A file or directory reported by the device.
#[derive(Debug, PartialEq, Eq)]
pub struct Entry {
    /// Object handle assigned by the device.
    pub handle: u64,
    /// Handle of the parent object (`0` at the root of a storage).
    pub parent: u64,
    /// Display name.
    pub name: String,
    /// True when the entry is a directory.
    pub is_dir: bool,
    /// Size in bytes (`0` for directories).
    pub size: u64,
}

/// An [`Entry`] with its name as a sequence of characters.
pub struct EntryView {
    pub handle: u64,
    pub parent: u64,
    pub name: Seq<char>,
    pub is_dir: bool,
    pub size: u64,
}

impl View for Entry {
    type V = EntryView;

    open spec fn view(&self) -> EntryView {
        EntryView {
            handle: self.handle,
            parent: self.parent,
            name: self.name@,
            is_dir: self.is_dir,
            size: self.size,
        }
    }
}

impl Clone for Entry {
    fn clone(&self) -> (r: Self)
        ensures
            r == *self,
    {
        Entry {
            handle: self.handle,
            parent: self.parent,
            name: self.name.clone(),
            is_dir: self.is_dir,
            size: self.size,
        }
    }
}

/// The views of a sequence of entries.
pub open spec fn entry_views(s: Seq<Entry>) -> Seq<EntryView> {
    s.map_values(|e: Entry| e@)
}

/// A copy of a list of entries.
pub fn copy_entries(v: &Vec<Entry>) -> (r: Vec<Entry>)
    ensures
        r@ == v@,
{
    let mut out: Vec<Entry> = Vec::new();
    let mut i: usize = 0;
    while i < v.len()
        invariant
            i <= v.len(),
            out@ == v@.take(i as int),
        decreases v.len() - i,
    {
        out.push(v[i].clone());
        i = i + 1;
    }
    out
}

/// One storage volume exposed by the device.
#[derive(Debug, PartialEq, Eq)]
pub struct StorageSummary {
    /// MTP storage id.
    pub id: u32,
    /// Description, for example `"Internal shared storage"`.
    pub description: String,
    /// Total capacity in bytes.
    pub capacity: u64,
    /// Free space in bytes.
    pub free: u64,
    /// Whether the storage accepts writes.
    pub writable: bool,
}

impl Clone for StorageSummary {
    fn clone(&self) -> (r: Self)
        ensures
            r == *self,
    {
        StorageSummary {
            id: self.id,
            description: self.description.clone(),
            capacity: self.capacity,
            free: self.free,
            writable: self.writable,
        }
    }
}

/// A copy of a storage table.
pub fn copy_storages(v: &Vec<StorageSummary>) -> (r: Vec<StorageSummary>)
    ensures
        r@ == v@,
{
    let mut out: Vec<StorageSummary> = Vec::new();
    let mut i: usize = 0;
    while i < v.len()
        invariant
            i <= v.len(),
            out@ == v@.take(i as int),
        decreases v.len() - i,
    {
        out.push(v[i].clone());
        i = i + 1;
    }
    out
}

/// Description of the connected device and its volumes.
#[derive(Debug)]
pub struct DeviceSummary {
    /// USB vendor id (`0` when only the session is known).
    pub vendor_id: u16,
    /// USB product id (`0` when only the session is known).
    pub product_id: u16,
    /// Manufacturer, when the device reports one.
    pub manufacturer: Option<String>,
    /// Product or model, when the device reports one.
    pub product: Option<String>,
    /// Serial number, when the device reports one.
    pub serial: Option<String>,
    /// Label of the negotiated USB speed.
    pub speed: Option<String>,
    /// Firmware version, when reported.
    pub firmware: Option<String>,
    /// Storages exposed by the device, in enumeration order.
    pub storages: Vec<StorageSummary>,
}

/// Progress of a transfer.
#[derive(Debug, Clone, Copy, PartialEq, Eq)]
pub struct Progress {
    /// Total bytes planned for this transfer (best estimate).
    pub total: u64,
    /// Bytes transferred so far.
    pub done: u64,
}

/// A resolved object on the device.
#[derive(Debug)]
pub struct Resolved {
    /// Index into the storage table.
    pub storage_index: usize,
    /// Object handle.
    pub handle: u64,
    /// Metadata of the object.
    pub entry: Entry,
}

} // verus!
