//! What a checked program declares, as the runtime reads it: the input that table, event
//! and request schemas are made from.

use vstd::prelude::*;

use crate::text::same;

verus! {

/// The type of a declared field.
pub enum Type {
    Bool,
    Int,
    Decimal(u8),
    Text,
    Uuid,
    Timestamp,
    Money(u8),
    Enum(String),
    Record(String),
    Rounding,
    Json,
    Response,
    Outcome,
    Secret,
    List(Box<Type>),
    Table(Box<Type>, Box<Type>),
    Opt(Box<Type>),
    /// Content behind the decrypt boundary, and the subject its key is filed under.
    Sealed(Box<Type>, String),
}

/// A declared enum.
pub struct EnumDef {
    pub name: String,
    pub variants: Vec<String>,
}

/// A declared field of an event or an entity.
pub struct FieldDef {
    pub name: String,
    pub ty: Type,
    /// The longest text it may hold.
    pub max_len: Option<usize>,
    pub indexed: bool,
    /// The sibling field whose key encrypts this one.
    pub subject: Option<String>,
}

/// A declared event.
pub struct EventDecl {
    /// The segments of its path.
    pub path: Vec<String>,
    pub fields: Vec<FieldDef>,
}

/// A declared entity of a projector.
pub struct EntityDecl {
    pub name: String,
    /// The name of its key field.
    pub key: String,
    pub fields: Vec<FieldDef>,
    /// The columns of each declared index.
    pub indexes: Vec<Vec<String>>,
}

/// A parameter of a command.
pub struct ParamDef {
    pub name: String,
    pub ty: Type,
}

/// The first enum of that name: a projector's own enums stand in front of the program's.
pub open spec fn enum_named(enums: Seq<EnumDef>, name: Seq<char>) -> Option<EnumDef>
    decreases enums.len(),
{
    if enums.len() == 0 {
        None
    } else if enums[0].name@ == name {
        Some(enums[0])
    } else {
        enum_named(enums.skip(1), name)
    }
}

/// Where the first enum of that name stands.
pub fn find_enum(enums: &Vec<EnumDef>, name: &str) -> (r: Option<usize>)
    ensures
        match r {
            Some(i) => i < enums.len() && enum_named(enums@, name@) == Some(enums@[i as int]),
            None => enum_named(enums@, name@) is None,
        },
{
    let mut i: usize = 0;
    assert(enums@.skip(0) =~= enums@);
    while i < enums.len()
        invariant
            i <= enums.len(),
            enum_named(enums@.skip(i as int), name@) == enum_named(enums@, name@),
        decreases enums.len() - i,
    {
        if same(&enums[i].name, name) {
            assert(enums@.skip(i as int)[0] == enums@[i as int]);
            return Some(i);
        }
        assert(enums@.skip(i as int).skip(1) =~= enums@.skip(i as int + 1));
        i += 1;
    }
    None
}

} // verus!
