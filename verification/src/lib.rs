use vstd::prelude::*;

pub mod endian;
pub mod error;
pub mod value;
pub mod ifd;
pub mod metadata;
pub mod codec;

verus! {

} // verus!
