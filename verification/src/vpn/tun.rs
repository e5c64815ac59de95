//! The TUN device that stands in where there is no kernel TUN: it has a
//! fixed name and swallows what is sent to it.

use vstd::prelude::*;

verus! {

/// A TUN device that takes every packet and gives none.
#[derive(Debug, Clone, Copy, PartialEq, Eq, Structural)]
pub struct MockTun;

impl MockTun {
    /// Opens the device; this never fails.
    pub fn open() -> (r: MockTun)
        ensures
            r == MockTun,
    {
        MockTun
    }

    /// The device's name, `mock`.
    pub fn name(&self) -> (r: &'static str)
        ensures
            r@ == "mock"@,
    {
        "mock"
    }

    /// Takes a packet whole: the count sent is its length.
    pub fn send(&self, data: &[u8]) -> (r: usize)
        ensures
            r == data@.len(),
    {
        data.len()
    }
}

} // verus!
