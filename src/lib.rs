//! Value representation and dispatch core of a scripting-language runtime:
//! heap cells tagged by concrete type, per-type dispatch tables, type-erased
//! handles, and the freeze and heap-copy protocols that migrate object
//! graphs between heaps, leaving tombstones behind.
pub mod equality;
pub mod handle;
pub mod header;
pub mod heap;
pub mod laws;
pub mod migrate;
pub mod profile;
pub mod repr;
pub mod value;
pub mod vtable;
