use vstd::prelude::*;

use crate::value::{Payload, ValueError};

verus! {

/// The concrete value types known to the runtime.
#[derive(Clone, Copy, Debug, PartialEq, Eq, Structural)]
pub enum TypeKind {
    NoneType,
    Bool,
    Int,
    Str,
    List,
    Record,
    Tombstone,
}

pub const NONE_TYPE_ID: u64 = 1;
pub const BOOL_TYPE_ID: u64 = 2;
pub const INT_TYPE_ID: u64 = 3;
pub const STR_TYPE_ID: u64 = 4;
pub const LIST_TYPE_ID: u64 = 5;
pub const RECORD_TYPE_ID: u64 = 6;
pub const TOMBSTONE_TYPE_ID: u64 = 7;

/// The concrete type of a payload.
pub open spec fn kind_of(p: Payload) -> TypeKind {
    match p {
        Payload::NoneValue => TypeKind::NoneType,
        Payload::Bool(_) => TypeKind::Bool,
        Payload::Int(_) => TypeKind::Int,
        Payload::Str(_) => TypeKind::Str,
        Payload::List(_) => TypeKind::List,
        Payload::Record(_) => TypeKind::Record,
        Payload::Tombstone(_) => TypeKind::Tombstone,
    }
}

/// The stable identifier of each concrete type; distinct types have
/// distinct identifiers.
pub open spec fn type_id_of(k: TypeKind) -> u64 {
    match k {
        TypeKind::NoneType => NONE_TYPE_ID,
        TypeKind::Bool => BOOL_TYPE_ID,
        TypeKind::Int => INT_TYPE_ID,
        TypeKind::Str => STR_TYPE_ID,
        TypeKind::List => LIST_TYPE_ID,
        TypeKind::Record => RECORD_TYPE_ID,
        TypeKind::Tombstone => TOMBSTONE_TYPE_ID,
    }
}

/// The name under which each type is shown to scripts.
pub open spec fn type_name_of(k: TypeKind) -> Seq<char> {
    match k {
        TypeKind::NoneType => "NoneType"@,
        TypeKind::Bool => "bool"@,
        TypeKind::Int => "int"@,
        TypeKind::Str => "string"@,
        TypeKind::List => "list"@,
        TypeKind::Record => "record"@,
        TypeKind::Tombstone => "BlackHole"@,
    }
}

#[verifier::external_type_specification]
#[verifier::external_body]
pub struct ExKey(allocative::Key);

/// The memory-accounting key of a type name.
pub uninterp spec fn allocative_key_of(name: Seq<char>) -> allocative::Key;

/// Relies on `allocative::Key::new`: the key holds the name and a hash of
/// its bytes, so it is a function of the name alone.
#[verifier::external_body]
fn allocative_key(name: &'static str) -> (r: allocative::Key)
    ensures
        r == allocative_key_of(name@),
{
    allocative::Key::new(name)
}

/// Per-type dispatch table: the metadata of one concrete type and the
/// selector of the operation implementations bound to it.
#[derive(Debug)]
pub struct AValueVTable {
    pub static_type_of_value: u64,
    pub name: &'static str,
    /// Cached key under which memory accounting reports the type.
    pub type_as_allocative_key: allocative::Key,
    pub is_str: bool,
    pub kind: TypeKind,
}

impl AValueVTable {
    /// Whether the table is the one built for its kind.
    pub open spec fn wf(&self) -> bool {
        &&& self.static_type_of_value == type_id_of(self.kind)
        &&& self.name@ == type_name_of(self.kind)
        &&& self.is_str == (self.kind == TypeKind::Str)
        &&& self.type_as_allocative_key == allocative_key_of(type_name_of(self.kind))
    }

    /// The table of an ordinary value type.
    pub fn new(kind: TypeKind) -> (r: AValueVTable)
        requires
            kind != TypeKind::Tombstone,
        ensures
            r.wf(),
            r.kind == kind,
    {
        let (id, name): (u64, &'static str) = match kind {
            TypeKind::NoneType => (NONE_TYPE_ID, "NoneType"),
            TypeKind::Bool => (BOOL_TYPE_ID, "bool"),
            TypeKind::Int => (INT_TYPE_ID, "int"),
            TypeKind::Str => (STR_TYPE_ID, "string"),
            TypeKind::List => (LIST_TYPE_ID, "list"),
            TypeKind::Record => (RECORD_TYPE_ID, "record"),
            TypeKind::Tombstone => (TOMBSTONE_TYPE_ID, "BlackHole"),
        };
        AValueVTable {
            static_type_of_value: id,
            name,
            type_as_allocative_key: allocative_key(name),
            is_str: kind == TypeKind::Str,
            kind,
        }
    }

    /// The table of the tombstone left in a migrated cell: only size
    /// queries and drop are legal through it.
    pub fn new_tombstone() -> (r: AValueVTable)
        ensures
            r.wf(),
            r.kind == TypeKind::Tombstone,
    {
        AValueVTable {
            static_type_of_value: TOMBSTONE_TYPE_ID,
            name: "BlackHole",
            type_as_allocative_key: allocative_key("BlackHole"),
            is_str: false,
            kind: TypeKind::Tombstone,
        }
    }

}

/// Position of each kind's table in the registry.
pub open spec fn table_index(k: TypeKind) -> int {
    match k {
        TypeKind::NoneType => 0,
        TypeKind::Bool => 1,
        TypeKind::Int => 2,
        TypeKind::Str => 3,
        TypeKind::List => 4,
        TypeKind::Record => 5,
        TypeKind::Tombstone => 6,
    }
}

/// The registry of dispatch tables: one table per concrete type, built once
/// and never changed; handles borrow their table from it.
#[derive(Debug)]
pub struct VTables {
    pub tables: Vec<AValueVTable>,
}

impl VTables {
    /// Holds exactly one well-formed table per kind.
    pub open spec fn wf(&self) -> bool {
        &&& self.tables@.len() == 7
        &&& forall|k: TypeKind| #[trigger] self.tables@[table_index(k)].wf() && self.tables@[table_index(k)].kind == k
    }

    /// Builds the table of every kind.
    pub fn new() -> (r: VTables)
        ensures
            r.wf(),
    {
        let mut tables: Vec<AValueVTable> = Vec::new();
        tables.push(AValueVTable::new(TypeKind::NoneType));
        tables.push(AValueVTable::new(TypeKind::Bool));
        tables.push(AValueVTable::new(TypeKind::Int));
        tables.push(AValueVTable::new(TypeKind::Str));
        tables.push(AValueVTable::new(TypeKind::List));
        tables.push(AValueVTable::new(TypeKind::Record));
        tables.push(AValueVTable::new_tombstone());
        let r = VTables { tables };
        assert forall|k: TypeKind| #[trigger] r.tables@[table_index(k)].wf() && r.tables@[table_index(k)].kind == k by {
            match k {
                TypeKind::NoneType => {},
                TypeKind::Bool => {},
                TypeKind::Int => {},
                TypeKind::Str => {},
                TypeKind::List => {},
                TypeKind::Record => {},
                TypeKind::Tombstone => {},
            }
        }
        r
    }

    /// The table for the concrete type of a payload.
    pub fn of(&self, p: &Payload) -> (r: &AValueVTable)
        requires
            self.wf(),
        ensures
            r.wf(),
            r.kind == kind_of(*p),
    {
        let i: usize = match p {
            Payload::NoneValue => 0,
            Payload::Bool(_) => 1,
            Payload::Int(_) => 2,
            Payload::Str(_) => 3,
            Payload::List(_) => 4,
            Payload::Record(_) => 5,
            Payload::Tombstone(_) => 6,
        };
        assert(i == table_index(kind_of(*p)));
        assert(self.tables@[table_index(kind_of(*p))].wf() && self.tables@[table_index(kind_of(*p))].kind == kind_of(*p));
        &self.tables[i]
    }
}

} // verus!
