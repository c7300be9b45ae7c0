use vstd::prelude::*;

use vstd::utf8::encode_utf8;

use crate::header::{align_up, round_up, ALIGN, HEADER_SIZE};

verus! {

/// A reference to a heap cell: an index into the mutable heap or into the
/// frozen (immutable) heap.
#[derive(Clone, Copy, Debug, PartialEq, Eq, Structural)]
pub enum Value {
    Mutable(usize),
    Frozen(usize),
}

/// One record field: its attribute name and the value it holds.
#[derive(Debug)]
pub struct Field {
    pub name: String,
    pub value: Value,
}

/// The payload stored in a heap cell, tagged by its concrete type.
#[derive(Debug)]
pub enum Payload {
    NoneValue,
    Bool(bool),
    Int(i64),
    Str(String),
    List(Vec<Value>),
    Record(Vec<Field>),
    /// Left behind in a cell whose value migrated elsewhere; holds the
    /// memory size of the payload it replaced.
    Tombstone(usize),
}

/// Errors of value operations.
#[derive(Clone, Copy, Debug, PartialEq, Eq, Structural)]
pub enum ValueError {
    /// The operation is not defined for the operand types.
    Unsupported,
    /// No attribute of that name.
    AttributeNotFound,
    /// Index outside the collection.
    IndexOutOfRange,
    /// The value cannot be hashed.
    NotHashable,
    /// Mutation of a value of the immutable heap.
    Immutable,
    /// Integer result outside the representable range.
    Overflow,
    /// Integer division or remainder by zero.
    DivisionByZero,
    /// Comparison nested deeper than its limit, as a cyclic value makes it.
    TooDeep,
    /// Internal invariant violation: a reference to no cell.
    Dangling,
    /// Internal invariant violation: a migration reached a tombstone that
    /// stands for no migrated cell.
    Tombstone,
}

impl ValueError {
    /// Whether the error is an internal invariant violation rather than an
    /// error of the scripting language.
    pub fn is_fatal(&self) -> (r: bool)
        ensures
            r == (*self == ValueError::Dangling || *self == ValueError::Tombstone),
    {
        match self {
            ValueError::Dangling | ValueError::Tombstone => true,
            _ => false,
        }
    }
}

/// Bytes taken by one reference inside a container payload.
pub const VALUE_BYTES: usize = 16;

/// Bytes taken by one record field outside the cell (name string and value).
pub const FIELD_BYTES: usize = 40;

/// The UTF-8 bytes of a string.
pub open spec fn str_bytes(s: String) -> Seq<u8> {
    encode_utf8(s@)
}

/// Payload bytes before alignment: strings are stored inline, containers
/// keep a vector header in the cell and their elements outside it.
pub open spec fn payload_bytes(p: Payload) -> int {
    match p {
        Payload::Str(s) => 8 + str_bytes(s).len() as int,
        Payload::List(_) => 24,
        Payload::Record(_) => 24,
        Payload::Tombstone(n) => n as int,
        _ => 8,
    }
}

/// Memory size of a payload: its bytes rounded up to the alignment unit; a
/// tombstone reports the size it recorded.
pub open spec fn memory_size(p: Payload) -> int {
    match p {
        Payload::Tombstone(n) => n as int,
        _ => align_up(payload_bytes(p)),
    }
}

/// Bytes owned by a payload outside its cell.
pub open spec fn extra_memory(p: Payload) -> int {
    match p {
        Payload::List(xs) => VALUE_BYTES * xs@.len(),
        Payload::Record(fs) => FIELD_BYTES * fs@.len(),
        _ => 0,
    }
}

/// Header, cell payload and external allocations together.
pub open spec fn total_memory(p: Payload) -> int {
    HEADER_SIZE + memory_size(p) + extra_memory(p)
}

/// Whether the memory accounting of a payload fits a machine word, with a
/// size that is a multiple of the alignment unit (for a tombstone, the
/// size it recorded).
pub open spec fn fits(p: Payload) -> bool {
    &&& memory_size(p) + extra_memory(p) + 32 <= usize::MAX
    &&& memory_size(p) % ALIGN as int == 0
}

impl Payload {
    /// Memory size of the payload (see `memory_size`).
    pub fn memory_size(&self) -> (r: usize)
        requires
            fits(*self),
        ensures
            r == memory_size(*self),
            r % ALIGN == 0,
    {
        match self {
            Payload::Str(s) => round_up(8 + s.as_str().len()),
            Payload::List(_) => round_up(24),
            Payload::Record(_) => round_up(24),
            Payload::Tombstone(n) => *n,
            _ => round_up(8),
        }
    }

    /// Bytes owned outside the cell (see `extra_memory`).
    pub fn extra_memory(&self) -> (r: usize)
        requires
            fits(*self),
        ensures
            r == extra_memory(*self),
    {
        match self {
            Payload::List(xs) => VALUE_BYTES * xs.len(),
            Payload::Record(fs) => FIELD_BYTES * fs.len(),
            _ => 0,
        }
    }
}

} // verus!
