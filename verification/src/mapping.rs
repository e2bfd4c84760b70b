//! What this crate has from outside: the mapped memory and the page size of the
//! machine.
use memmap2::MmapMut;
use std::ops::Deref;
use std::ops::DerefMut;
use vstd::prelude::*;

verus! {

/// [`memmap2::MmapMut`], a writable memory map.
#[verifier::external_type_specification]
#[verifier::external_body]
pub struct ExMmapMut(memmap2::MmapMut);

/// The bytes that a memory map holds. Whoever maps a file answers for it that
/// nobody else changes the file while it is mapped.
pub uninterp spec fn mapped_bytes(mmap: MmapMut) -> Seq<u8>;

/// Calls `<memmap2::MmapMut as Deref>::deref`: the slice that it returns holds
/// the bytes of the map, all of them.
#[verifier::external_body]
pub(crate) fn mapped(mmap: &MmapMut) -> (bytes: &[u8])
    ensures
        bytes@ == mapped_bytes(*mmap),
{
    mmap.deref()
}

/// Calls `<memmap2::MmapMut as DerefMut>::deref_mut`: the slice that it returns
/// holds the bytes of the map, all of them, and what is left in the slice is
/// left in the map.
#[verifier::external_body]
pub(crate) fn mapped_mut(mmap: &mut MmapMut) -> (bytes: &mut [u8])
    ensures
        bytes@ == mapped_bytes(*old(mmap)),
        mapped_bytes(*final(mmap)) == final(bytes)@,
{
    mmap.deref_mut()
}

/// `size` is one that a call of `page_size::get` can return.
pub closed spec fn is_machine_page_size(size: usize) -> bool {
    call_ensures(machine_page_size, (), size)
}

/// Only what the call returns counts as the page size of the machine.
pub(crate) proof fn law_machine_page_size()
    ensures
        forall|size: usize| #[trigger]
            is_machine_page_size(size) <==> call_ensures(machine_page_size, (), size),
{
}

/// Calls `page_size::get`, which asks the operating system for the size of a
/// memory page. Nothing is claimed of the answer: it rests on the machine.
#[verifier::external_body]
pub(crate) fn machine_page_size() -> (size: usize) {
    page_size::get()
}

} // verus!
