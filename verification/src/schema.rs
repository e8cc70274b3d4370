//! The schema model: what a project declares, as plain data. The read model builds its
//! tables from an [`EntityDef`], the read API types a column from a [`FieldKind`], the
//! API document walks an [`EventDef`].

use vstd::prelude::*;

use crate::ir::{enum_named, find_enum, EntityDecl, EnumDef, EventDecl, FieldDef, ParamDef, Type};
use crate::json::Json;
use crate::read_api::{filterable, filterable_fields, reserved_list, reserved_params};
use crate::sql::{quote_all, quote_ident, quoted, quoted_all};
use crate::text::{
    debug_all, debug_items, chars_of, copied, copied_option, decimal, holds, is_digit, is_letter, join, joined, letter,
    number, option_view, same, views,
};

verus! {

// ---------------------------------------------------------------------------
// Field types
// ---------------------------------------------------------------------------

/// What a field holds.
#[derive(Debug)]
pub enum FieldKind {
    Text { max_length: Option<u32> },
    I64,
    U64,
    Bool,
    Uuid,
    Timestamp,
    /// Fixed-scale decimal, a decimal string on the wire and in storage.
    Money { scale: u8 },
    Json,
    OneOf(Vec<String>),
    Optional(Box<FieldKind>),
}

/// The SQLite column type a kind is stored as.
pub open spec fn column_type(kind: FieldKind) -> Seq<char>
    decreases kind,
{
    match kind {
        FieldKind::I64 | FieldKind::U64 | FieldKind::Bool => "INTEGER"@,
        FieldKind::Optional(inner) => column_type(*inner),
        _ => "TEXT"@,
    }
}

/// A kind without the one `Optional` it may be wrapped in.
pub open spec fn base_kind(kind: FieldKind) -> FieldKind {
    match kind {
        FieldKind::Optional(inner) => *inner,
        other => other,
    }
}

/// Whether a column of this kind has a stable total order in SQLite.
pub open spec fn keyable(kind: FieldKind) -> bool {
    kind is Text || kind is I64 || kind is U64 || kind is Uuid || kind is Timestamp || kind is OneOf
}

/// Whether SQLite's order over a column of this kind is the order that its declaration
/// means.
pub open spec fn comparable(kind: FieldKind) -> bool {
    keyable(kind) && !(kind is OneOf)
}

/// A bound on a text's length, as it is declared.
pub open spec fn max_text(n: u32) -> Seq<char> {
    "@max("@ + decimal(n as nat) + ")"@
}

/// The kind spelled the way an author declares it.
pub open spec fn description(kind: FieldKind) -> Seq<char>
    decreases kind,
{
    match kind {
        FieldKind::Text { max_length: Some(n) } => "String "@ + max_text(n),
        FieldKind::Text { max_length: None } => "String"@,
        FieldKind::I64 => "Int"@,
        FieldKind::U64 => "UInt"@,
        FieldKind::Bool => "Bool"@,
        FieldKind::Uuid => "Uuid"@,
        FieldKind::Timestamp => "Timestamp"@,
        FieldKind::Money { scale } => "Money("@ + decimal(scale as nat) + ")"@,
        FieldKind::Json => "Json"@,
        FieldKind::OneOf(values) => joined(views(values@), " | "@),
        FieldKind::Optional(inner) => match *inner {
            FieldKind::Text { max_length: Some(n) } => "String? "@ + max_text(n),
            FieldKind::OneOf(values) => "("@ + joined(views(values@), " | "@) + ")?"@,
            other => description(other) + "?"@,
        },
    }
}

fn max_length_text(n: u32) -> (r: String)
    ensures
        r@ == max_text(n),
{
    let mut out = "@max(".to_owned();
    out.append(&number(n as u64));
    out.append(")");
    out
}

impl FieldKind {
    /// The SQLite column type. A timestamp is text that sorts as it should, and an amount
    /// of money is stored verbatim so that it reads back as it was written.
    pub fn sql_type(&self) -> (r: &'static str)
        ensures
            r@ == column_type(*self),
        decreases *self,
    {
        match self {
            FieldKind::I64 => "INTEGER",
            FieldKind::U64 => "INTEGER",
            FieldKind::Bool => "INTEGER",
            FieldKind::Optional(inner) => inner.sql_type(),
            _ => "TEXT",
        }
    }

    pub fn is_nullable(&self) -> (r: bool)
        ensures
            r == (*self is Optional),
    {
        matches!(self, FieldKind::Optional(_))
    }

    /// The kind spelled the way an author declares it. The question mark of an optional
    /// binds to the type, so a bound on the length follows it, and the variants of an
    /// enum are bracketed, or it would read as though it belonged to the last one alone.
    pub fn describe(&self) -> (r: String)
        ensures
            r@ == description(*self),
        decreases *self,
    {
        match self {
            FieldKind::Text { max_length: Some(n) } => {
                let mut out = "String ".to_owned();
                out.append(&max_length_text(*n));
                out
            },
            FieldKind::Text { max_length: None } => "String".to_owned(),
            FieldKind::I64 => "Int".to_owned(),
            FieldKind::U64 => "UInt".to_owned(),
            FieldKind::Bool => "Bool".to_owned(),
            FieldKind::Uuid => "Uuid".to_owned(),
            FieldKind::Timestamp => "Timestamp".to_owned(),
            FieldKind::Money { scale } => {
                let mut out = "Money(".to_owned();
                out.append(&number(*scale as u64));
                out.append(")");
                out
            },
            FieldKind::Json => "Json".to_owned(),
            FieldKind::OneOf(values) => join(values, " | "),
            FieldKind::Optional(inner) => {
                match &**inner {
                    FieldKind::Text { max_length: Some(n) } => {
                        let mut out = "String? ".to_owned();
                        out.append(&max_length_text(*n));
                        out
                    },
                    FieldKind::OneOf(values) => {
                        let mut out = "(".to_owned();
                        out.append(&join(values, " | "));
                        out.append(")?");
                        out
                    },
                    other => {
                        let mut out = other.describe();
                        out.append("?");
                        out
                    },
                }
            },
        }
    }

    /// The kind without an `Optional` wrapper.
    pub fn base(&self) -> (r: &FieldKind)
        ensures
            *r == base_kind(*self),
    {
        match self {
            FieldKind::Optional(inner) => &**inner,
            other => other,
        }
    }

    /// Whether a column of this kind has a stable total order in SQLite, which is what
    /// the pagination cursor needs. An amount of money is stored as a decimal string and
    /// has no usable order, a `Bool` holds two values, `Json` is unordered, and an
    /// optional column can be NULL.
    pub fn is_keyable(&self) -> (r: bool)
        ensures
            r == keyable(*self),
    {
        match self {
            FieldKind::Text { .. } => true,
            FieldKind::I64 => true,
            FieldKind::U64 => true,
            FieldKind::Uuid => true,
            FieldKind::Timestamp => true,
            FieldKind::OneOf(_) => true,
            _ => false,
        }
    }

    /// Whether SQLite's order over a column of this kind is the order that the
    /// declaration means, which is what a range filter needs. An enum stores the spelling
    /// of its variant, so a range over it would walk the alphabet.
    pub fn is_comparable(&self) -> (r: bool)
        ensures
            r == comparable(*self),
    {
        self.is_keyable() && !matches!(self, FieldKind::OneOf(_))
    }

    /// A copy.
    pub fn copy(&self) -> (r: FieldKind)
        ensures
            same_kind(r, *self),
        decreases *self,
    {
        match self {
            FieldKind::Text { max_length } => FieldKind::Text { max_length: *max_length },
            FieldKind::I64 => FieldKind::I64,
            FieldKind::U64 => FieldKind::U64,
            FieldKind::Bool => FieldKind::Bool,
            FieldKind::Uuid => FieldKind::Uuid,
            FieldKind::Timestamp => FieldKind::Timestamp,
            FieldKind::Money { scale } => FieldKind::Money { scale: *scale },
            FieldKind::Json => FieldKind::Json,
            FieldKind::OneOf(values) => FieldKind::OneOf(copied(values)),
            FieldKind::Optional(inner) => FieldKind::Optional(Box::new(inner.copy())),
        }
    }
}

impl Clone for FieldKind {
    fn clone(&self) -> (r: FieldKind)
        ensures
            same_kind(r, *self),
    {
        self.copy()
    }
}

/// What a kind says, its texts taken by what they hold.
pub enum KindView {
    Text(Option<u32>),
    I64,
    U64,
    Bool,
    Uuid,
    Timestamp,
    Money(u8),
    Json,
    OneOf(Seq<Seq<char>>),
    Optional(Box<KindView>),
}

pub open spec fn kind_view(kind: FieldKind) -> KindView
    decreases kind,
{
    match kind {
        FieldKind::Text { max_length } => KindView::Text(max_length),
        FieldKind::I64 => KindView::I64,
        FieldKind::U64 => KindView::U64,
        FieldKind::Bool => KindView::Bool,
        FieldKind::Uuid => KindView::Uuid,
        FieldKind::Timestamp => KindView::Timestamp,
        FieldKind::Money { scale } => KindView::Money(scale),
        FieldKind::Json => KindView::Json,
        FieldKind::OneOf(values) => KindView::OneOf(views(values@)),
        FieldKind::Optional(inner) => KindView::Optional(Box::new(kind_view(*inner))),
    }
}

/// Whether two kinds say the same.
pub open spec fn same_kind(a: FieldKind, b: FieldKind) -> bool {
    kind_view(a) == kind_view(b)
}

// ---------------------------------------------------------------------------
// Kinds from declared types
// ---------------------------------------------------------------------------

/// The kind a declared type is stored as, by the variants that an enum of a name has. A
/// seal does not show here: whether a column holds ciphertext is the field's own question.
pub open spec fn kind_in(ty: Type, variants: spec_fn(Seq<char>) -> Seq<Seq<char>>) -> KindView
    decreases ty,
{
    match ty {
        Type::Sealed(inner, _) => kind_in(*inner, variants),
        Type::Opt(inner) => KindView::Optional(Box::new(kind_in(*inner, variants))),
        Type::Bool => KindView::Bool,
        Type::Int => KindView::I64,
        Type::Text => KindView::Text(None),
        Type::Uuid => KindView::Uuid,
        Type::Timestamp => KindView::Timestamp,
        Type::Money(scale) => KindView::Money(scale),
        Type::Decimal(scale) => KindView::Money(scale),
        Type::Enum(name) => KindView::OneOf(variants(name@)),
        _ => KindView::Json,
    }
}

/// The variants of a declared enum. One that is not declared has none.
pub open spec fn variants_in(enums: Seq<EnumDef>) -> spec_fn(Seq<char>) -> Seq<Seq<char>> {
    |name: Seq<char>|
        match enum_named(enums, name) {
            Some(def) => views(def.variants@),
            None => Seq::empty(),
        }
}

/// The kind a declared type is stored as among declared enums.
pub open spec fn stored_kind(ty: Type, enums: Seq<EnumDef>) -> KindView {
    kind_in(ty, variants_in(enums))
}

impl FieldKind {
    /// A declared type, as the runtime stores it. The variants of an enum come from its
    /// declaration; an enum that is not declared has none. A record, a list and a map are
    /// stored as JSON.
    pub fn of(ty: &Type, enums: &Vec<EnumDef>) -> (r: FieldKind)
        ensures
            kind_view(r) == stored_kind(*ty, enums@),
        decreases *ty,
    {
        match ty {
            Type::Sealed(inner, _) => FieldKind::of(inner, enums),
            Type::Opt(inner) => FieldKind::Optional(Box::new(FieldKind::of(inner, enums))),
            Type::Bool => FieldKind::Bool,
            Type::Int => FieldKind::I64,
            Type::Text => FieldKind::Text { max_length: None },
            Type::Uuid => FieldKind::Uuid,
            Type::Timestamp => FieldKind::Timestamp,
            Type::Money(scale) => FieldKind::Money { scale: *scale },
            Type::Decimal(scale) => FieldKind::Money { scale: *scale },
            Type::Enum(name) => {
                match find_enum(enums, name) {
                    Some(i) => FieldKind::OneOf(copied(&enums[i].variants)),
                    None => {
                        let none: Vec<String> = Vec::new();
                        assert(views(none@) =~= Seq::empty());
                        FieldKind::OneOf(none)
                    },
                }
            },
            _ => FieldKind::Json,
        }
    }
}

/// A declared bound pushed down onto the text kind it bounds. One that does not fit the
/// column's bound is no bound.
pub open spec fn with_bound(kind: KindView, max_len: Option<usize>) -> KindView
    decreases kind,
{
    match kind {
        KindView::Optional(inner) => KindView::Optional(Box::new(with_bound(*inner, max_len))),
        KindView::Text(_) => match max_len {
            Some(max) => KindView::Text(if max <= u32::MAX { Some(max as u32) } else { None }),
            None => kind,
        },
        other => other,
    }
}

/// Pushes a declared bound down onto the text kind it bounds, through an optional.
pub fn bounded(kind: FieldKind, max_len: Option<usize>) -> (r: FieldKind)
    ensures
        kind_view(r) == with_bound(kind_view(kind), max_len),
    decreases kind,
{
    match kind {
        FieldKind::Optional(inner) => FieldKind::Optional(Box::new(bounded(*inner, max_len))),
        FieldKind::Text { max_length } => {
            match max_len {
                Some(max) => FieldKind::Text {
                    max_length: if max <= u32::MAX as usize {
                        Some(max as u32)
                    } else {
                        None
                    },
                },
                None => FieldKind::Text { max_length },
            }
        },
        other => other,
    }
}


// ---------------------------------------------------------------------------
// Fields
// ---------------------------------------------------------------------------

/// A declared field: its type, and the policy that governs tagging and subject-scoped
/// encryption. `indexed` decides whether the field becomes a store tag; `subject` names a
/// sibling field whose per-subject key encrypts this field's value.
#[derive(Debug, Clone)]
pub struct FieldMeta {
    pub kind: FieldKind,
    pub indexed: bool,
    pub subject: Option<String>,
    /// Also tagged under a global key, so that it can be filtered across subjects.
    pub unique: bool,
}

/// What a field says.
pub struct MetaView {
    pub kind: KindView,
    pub indexed: bool,
    pub subject: Option<Seq<char>>,
    pub unique: bool,
}

pub open spec fn meta_view(meta: FieldMeta) -> MetaView {
    MetaView {
        kind: kind_view(meta.kind),
        indexed: meta.indexed,
        subject: option_view(meta.subject),
        unique: meta.unique,
    }
}

/// The column type of a field: a subject-scoped one stores its ciphertext.
pub open spec fn meta_column_type(meta: FieldMeta) -> Seq<char> {
    if meta.subject is Some {
        "TEXT"@
    } else {
        column_type(meta.kind)
    }
}

impl FieldMeta {
    /// A plain field: indexed and unscoped.
    pub fn plain(kind: FieldKind) -> (r: FieldMeta)
        ensures
            r == (FieldMeta { kind, indexed: true, subject: None, unique: false }),
    {
        FieldMeta { kind, indexed: true, subject: None, unique: false }
    }

    pub fn is_nullable(&self) -> (r: bool)
        ensures
            r == (self.kind is Optional),
    {
        self.kind.is_nullable()
    }

    /// The column type of this field in a read model. A subject-scoped field stores its
    /// opaque ciphertext, so its column is text whatever its kind.
    pub fn sql_type(&self) -> (r: &'static str)
        ensures
            r@ == meta_column_type(*self),
    {
        if self.subject.is_some() {
            "TEXT"
        } else {
            self.kind.sql_type()
        }
    }
}

/// The first field of that name.
pub open spec fn field_named(fields: Seq<(String, FieldMeta)>, name: Seq<char>) -> Option<FieldMeta>
    decreases fields.len(),
{
    if fields.len() == 0 {
        None
    } else if fields[0].0@ == name {
        Some(fields[0].1)
    } else {
        field_named(fields.skip(1), name)
    }
}

/// The first field of that name.
pub fn find_field<'a>(fields: &'a Vec<(String, FieldMeta)>, name: &str) -> (r: Option<&'a FieldMeta>)
    ensures
        match r {
            Some(meta) => field_named(fields@, name@) == Some(*meta),
            None => field_named(fields@, name@) is None,
        },
{
    let mut i: usize = 0;
    assert(fields@.skip(0) =~= fields@);
    while i < fields.len()
        invariant
            i <= fields.len(),
            field_named(fields@.skip(i as int), name@) == field_named(fields@, name@),
        decreases fields.len() - i,
    {
        if same(&fields[i].0, name) {
            assert(fields@.skip(i as int)[0] == fields@[i as int]);
            return Some(&fields[i].1);
        }
        assert(fields@.skip(i as int).skip(1) =~= fields@.skip(i as int + 1));
        i += 1;
    }
    None
}

/// The names of declared fields, in order.
pub open spec fn field_names(fields: Seq<(String, FieldMeta)>) -> Seq<Seq<char>> {
    Seq::new(fields.len(), |i: int| fields[i].0@)
}

/// A command's request body.
#[derive(Debug, Clone)]
pub struct InputSchema {
    pub fields: Vec<(String, FieldKind)>,
}

impl InputSchema {
    /// A short form for messages.
    pub fn display(&self) -> (r: String)
        ensures
            r@ == "schema("@ + decimal(self.fields.len() as nat) + " fields)"@,
    {
        let mut out = "schema(".to_owned();
        out.append(&crate::text::count(self.fields.len()));
        out.append(" fields)");
        out
    }
}

/// A declared index.
#[derive(Debug, Clone)]
pub struct IndexDef {
    pub name: String,
    /// In order of precedence, as in a composite SQL index.
    pub columns: Vec<String>,
}

impl IndexDef {
    /// A short form for messages.
    pub fn display(&self) -> (r: String)
        ensures
            r@ == "index("@ + self.name@ + ", ["@ + joined(debug_all(views(self.columns@)), ", "@)
                + "])"@,
    {
        let mut out = "index(".to_owned();
        out.append(&self.name);
        out.append(", [");
        out.append(&debug_items(&self.columns));
        out.append("])");
        out
    }
}

// ---------------------------------------------------------------------------
// Entities
// ---------------------------------------------------------------------------

/// A declared entity: one table of a read model.
#[derive(Debug, Clone)]
pub struct EntityDef {
    /// The table name, which is the entity's declared name.
    pub name: String,
    pub key: String,
    pub fields: Vec<(String, FieldMeta)>,
    pub indexes: Vec<IndexDef>,
}

/// One column of a table, as it is declared in SQL.
pub open spec fn column_sql(entity: EntityDef, at: int) -> Seq<char> {
    let (name, meta) = entity.fields[at];
    "  "@ + quoted(name@) + " "@ + meta_column_type(meta) + (if name@ == entity.key@ {
        " PRIMARY KEY"@
    } else {
        ""@
    }) + (if meta.kind is Optional {
        ""@
    } else {
        " NOT NULL"@
    })
}

/// The statement that creates an entity's table.
pub open spec fn table_sql(entity: EntityDef) -> Seq<char> {
    "CREATE TABLE IF NOT EXISTS "@ + quoted(entity.name@) + " (\n"@ + joined(
        Seq::new(entity.fields.len() as nat, |i: int| column_sql(entity, i)),
        ",\n"@,
    ) + "\n)"@
}

/// The columns one declared index is built over: what was declared, then the key.
pub open spec fn index_column_views(entity: EntityDef, ix: IndexDef) -> Seq<Seq<char>> {
    if views(ix.columns@).contains(entity.key@) {
        views(ix.columns@)
    } else {
        views(ix.columns@).push(entity.key@)
    }
}

/// The name an index carries in the database.
pub open spec fn index_name_view(entity: EntityDef, declared: Seq<char>) -> Seq<char> {
    entity.name@ + "_"@ + declared
}

/// The statement that creates one index.
pub open spec fn index_sql(entity: EntityDef, ix: IndexDef) -> Seq<char> {
    "CREATE INDEX IF NOT EXISTS "@ + quoted(index_name_view(entity, ix.name@)) + " ON "@ + quoted(
        entity.name@,
    ) + " ("@ + joined(quoted_all(index_column_views(entity, ix)), ", "@) + ")"@
}

impl EntityDef {
    /// A short form for messages.
    pub fn display(&self) -> (r: String)
        ensures
            r@ == "entity("@ + (if self.name@.len() == 0 {
                "<unbound>"@
            } else {
                self.name@
            }) + ")"@,
    {
        let mut out = "entity(".to_owned();
        if self.name.as_str().is_empty() {
            out.append("<unbound>");
        } else {
            out.append(&self.name);
        }
        out.append(")");
        out
    }

    /// The statement that creates this entity's table.
    pub fn create_table_sql(&self) -> (r: String)
        ensures
            r@ == table_sql(*self),
    {
        let mut columns: Vec<String> = Vec::new();
        let mut i: usize = 0;
        while i < self.fields.len()
            invariant
                i <= self.fields.len(),
                columns.len() == i,
                forall|k: int| 0 <= k < i ==> (#[trigger] columns@[k])@ == column_sql(*self, k),
            decreases self.fields.len() - i,
        {
            let name = &self.fields[i].0;
            let meta = &self.fields[i].1;
            let mut column = "  ".to_owned();
            column.append(&quote_ident(name));
            column.append(" ");
            column.append(meta.sql_type());
            column.append(if same(name, &self.key) { " PRIMARY KEY" } else { "" });
            column.append(if meta.is_nullable() { "" } else { " NOT NULL" });
            columns.push(column);
            i += 1;
        }
        assert(views(columns@) =~= Seq::new(self.fields.len() as nat, |i: int| column_sql(*self, i)));
        let mut out = "CREATE TABLE IF NOT EXISTS ".to_owned();
        out.append(&quote_ident(&self.name));
        out.append(" (\n");
        out.append(&join(&columns, ",\n"));
        out.append("\n)");
        out
    }

    /// The name that the declared index carries in the database. Qualified by the table,
    /// because index names share one namespace across a whole database.
    pub fn index_name(&self, declared: &str) -> (r: String)
        ensures
            r@ == index_name_view(*self, declared@),
    {
        let mut out = self.name.clone();
        out.append("_");
        out.append(declared);
        out
    }

    /// The columns one declared index is built over: what was declared, then the key. A
    /// scan orders by the key, so with the key behind the declared columns the rows of a
    /// filter on all of them arrive in the order that the scan wants.
    pub fn index_columns(&self, ix: &IndexDef) -> (r: Vec<String>)
        ensures
            views(r@) == index_column_views(*self, *ix),
    {
        let mut columns = copied(&ix.columns);
        if !holds(&columns, &self.key) {
            columns.push(self.key.clone());
            assert(views(columns@) =~= views(ix.columns@).push(self.key@));
        }
        columns
    }

    /// The statements that create this entity's indexes.
    pub fn create_index_sql(&self) -> (r: Vec<String>)
        ensures
            r.len() == self.indexes.len(),
            forall|i: int|
                0 <= i < r.len() ==> (#[trigger] r@[i])@ == index_sql(*self, self.indexes@[i]),
    {
        let mut out: Vec<String> = Vec::new();
        let mut i: usize = 0;
        while i < self.indexes.len()
            invariant
                i <= self.indexes.len(),
                out.len() == i,
                forall|k: int|
                    0 <= k < i ==> (#[trigger] out@[k])@ == index_sql(*self, self.indexes@[k]),
            decreases self.indexes.len() - i,
        {
            let ix = &self.indexes[i];
            let columns = quote_all(&self.index_columns(ix));
            let mut sql = "CREATE INDEX IF NOT EXISTS ".to_owned();
            sql.append(&quote_ident(&self.index_name(&ix.name)));
            sql.append(" ON ");
            sql.append(&quote_ident(&self.name));
            sql.append(" (");
            sql.append(&join(&columns, ", "));
            sql.append(")");
            out.push(sql);
            i += 1;
        }
        out
    }
}

/// The key is a column of every index, so that the rows of an index have one order.
pub proof fn law_an_index_ends_in_the_key(entity: EntityDef, ix: IndexDef)
    ensures
        index_column_views(entity, ix).contains(entity.key@),
        views(ix.columns@).is_prefix_of(index_column_views(entity, ix)),
{
    let columns = views(ix.columns@);
    if !columns.contains(entity.key@) {
        assert(columns.push(entity.key@)[columns.len() as int] == entity.key@);
        assert(columns =~= columns.push(entity.key@).take(columns.len() as int));
    } else {
        assert(columns =~= columns.take(columns.len() as int));
    }
}


// ---------------------------------------------------------------------------
// Entity operations, modules
// ---------------------------------------------------------------------------

/// What a projector does to an entity for one event.
#[derive(Debug, Clone)]
pub enum EntityOpKind {
    /// Replace a whole row, given as a JSON object.
    Put(String),
    /// Merge `changes` into the row with `key`: fields present are set, fields set to
    /// null are cleared, and columns not mentioned are left as they are. Nothing where
    /// there is no such row.
    Patch { key: String, changes: String },
    /// Delete the row with this key.
    Delete(String),
}


/// Which directory convention a module falls under.
#[derive(Debug, Clone, Copy, PartialEq, Eq, Structural)]
pub enum ModuleKind {
    Command,
    Projector,
    Effect,
}

impl ModuleKind {
    /// The word used in diagnostics.
    pub fn label(self) -> (r: &'static str)
        ensures
            r@ == match self {
                ModuleKind::Command => "command"@,
                ModuleKind::Projector => "projector"@,
                ModuleKind::Effect => "effect"@,
            },
    {
        match self {
            ModuleKind::Command => "command",
            ModuleKind::Projector => "projector",
            ModuleKind::Effect => "effect",
        }
    }
}

/// A loaded module.
#[derive(Debug, Clone)]
pub enum ModuleDef {
    Command { name: String, input: InputSchema },
    Projector {
        name: String,
        entities: Vec<EntityDef>,
        /// The event types that its handlers select.
        sources: Vec<String>,
    },
    Effect {
        name: String,
        /// The event types that its arms select.
        sources: Vec<String>,
    },
}

/// The name of a module.
pub open spec fn module_name(def: ModuleDef) -> Seq<char> {
    match def {
        ModuleDef::Command { name, .. } => name@,
        ModuleDef::Projector { name, .. } => name@,
        ModuleDef::Effect { name, .. } => name@,
    }
}

impl ModuleDef {
    pub fn name(&self) -> (r: &str)
        ensures
            r@ == module_name(*self),
    {
        match self {
            ModuleDef::Command { name, .. } => name.as_str(),
            ModuleDef::Projector { name, .. } => name.as_str(),
            ModuleDef::Effect { name, .. } => name.as_str(),
        }
    }
}

// ---------------------------------------------------------------------------
// Validation
// ---------------------------------------------------------------------------

/// Whether a name is a plain SQL identifier.
pub open spec fn sql_identifier(name: Seq<char>) -> bool {
    &&& name.len() > 0
    &&& is_letter(name[0]) || name[0] == '_'
    &&& forall|i: int|
        1 <= i < name.len() ==> is_letter(#[trigger] name[i]) || is_digit(name[i]) || name[i] == '_'
}

/// Whether a name is a plain SQL identifier: ascii letters, digits and underscores,
/// starting with a letter or underscore.
pub fn is_sql_identifier(name: &str) -> (r: bool)
    ensures
        r == sql_identifier(name@),
{
    let chars: Vec<char> = chars_of(name);
    if chars.len() == 0 || !(letter(chars[0]) || chars[0] == '_') {
        return false;
    }
    let mut i: usize = 1;
    while i < chars.len()
        invariant
            1 <= i <= chars.len(),
            chars@ == name@,
            forall|k: int|
                1 <= k < i ==> is_letter(#[trigger] name@[k]) || is_digit(name@[k]) || name@[k] == '_',
        decreases chars.len() - i,
    {
        let c: char = chars[i];
        if !(letter(c) || crate::text::ascii_digit(c) || c == '_') {
            assert(name@[i as int] == c);
            return false;
        }
        i += 1;
    }
    true
}

/// How every message about an entity begins.
pub open spec fn entity_prefix(entity: EntityDef) -> Seq<char> {
    "entity `"@ + entity.name@ + "`: "@
}

/// What is wrong with an index's name: it is no identifier, or it is the key's.
pub open spec fn index_name_error(entity: EntityDef, ix: IndexDef) -> Option<Seq<char>> {
    if !sql_identifier(ix.name@) {
        Some(
            entity_prefix(entity) + "index name `"@ + ix.name@
                + "` must be ascii letters, digits and underscores, starting with a letter or underscore"@,
        )
    } else if ix.name@ == entity.key@ {
        Some(
            entity_prefix(entity) + "the index over ("@ + joined(views(ix.columns@), ", "@)
                + ") is named `"@ + ix.name@ + "`, which is also the key column, so `order_by="@
                + ix.name@ + "` could mean either; rename the key"@,
        )
    } else {
        None
    }
}

/// The first error in the names of the indexes from `from` on.
pub open spec fn index_names_error(entity: EntityDef, from: nat) -> Option<Seq<char>>
    decreases entity.indexes.len() - from,
{
    if from >= entity.indexes.len() {
        None
    } else {
        match index_name_error(entity, entity.indexes@[from as int]) {
            Some(message) => Some(message),
            None => index_names_error(entity, from + 1),
        }
    }
}

/// How a kind that cannot be a key is named in a message.
pub open spec fn unkeyable_name(kind: FieldKind) -> Seq<char> {
    match kind {
        FieldKind::Bool => "Bool"@,
        FieldKind::Money { scale } => "Money { scale: "@ + decimal(scale as nat) + " }"@,
        _ => "Json"@,
    }
}

/// What is wrong with the key: not declared, optional, without an order, or encrypted.
pub open spec fn key_error(entity: EntityDef) -> Option<Seq<char>> {
    let key = entity_prefix(entity) + "key `"@ + entity.key@;
    match field_named(entity.fields@, entity.key@) {
        None => Some(key + "` is not a declared field"@),
        Some(meta) => if meta.kind is Optional {
            Some(key + "` may not be optional"@)
        } else if !keyable(meta.kind) {
            Some(key + "` must be an orderable scalar, not "@ + unkeyable_name(meta.kind))
        } else if meta.subject is Some {
            Some(key + "` may not be subject-encrypted (the key is a plaintext cursor)"@)
        } else {
            None
        },
    }
}

/// What is wrong with one column of an index: not declared, or encrypted.
pub open spec fn index_column_error(entity: EntityDef, ix: IndexDef, column: Seq<char>) -> Option<Seq<char>> {
    let index = entity_prefix(entity) + "index `"@ + ix.name@;
    match field_named(entity.fields@, column) {
        None => Some(index + "` references unknown field `"@ + column + "`"@),
        Some(meta) => if meta.subject is Some {
            Some(
                index + "` covers subject-encrypted column `"@ + column
                    + "`; filter by the plaintext subject id instead"@,
            )
        } else {
            None
        },
    }
}

/// The first error in the columns of one index from `from` on.
pub open spec fn index_columns_error(entity: EntityDef, ix: IndexDef, from: nat) -> Option<Seq<char>>
    decreases ix.columns.len() - from,
{
    if from >= ix.columns.len() {
        None
    } else {
        match index_column_error(entity, ix, ix.columns@[from as int]@) {
            Some(message) => Some(message),
            None => index_columns_error(entity, ix, from + 1),
        }
    }
}

/// The first error in the columns of the indexes from `from` on.
pub open spec fn covered_error(entity: EntityDef, from: nat) -> Option<Seq<char>>
    decreases entity.indexes.len() - from,
{
    if from >= entity.indexes.len() {
        None
    } else {
        match index_columns_error(entity, entity.indexes@[from as int], 0) {
            Some(message) => Some(message),
            None => covered_error(entity, from + 1),
        }
    }
}

/// The first filterable field from `from` on that is named like a control of the read
/// API.
pub open spec fn reserved_error(entity: EntityDef, from: nat) -> Option<Seq<char>>
    decreases filterable(entity).len() - from,
{
    let fields = filterable(entity);
    if from >= fields.len() {
        None
    } else if reserved_params().contains(fields[from as int]) {
        Some(
            entity_prefix(entity) + "filterable field `"@ + fields[from as int]
                + "` collides with a reserved read query param (one of: "@ + joined(
                reserved_params(),
                ", "@,
            ) + ")"@,
        )
    } else {
        reserved_error(entity, from + 1)
    }
}

/// What is wrong with an entity, the first thing that is.
pub open spec fn entity_error(entity: EntityDef) -> Option<Seq<char>> {
    if !sql_identifier(entity.name@) {
        Some(
            entity_prefix(entity)
                + "table name must be ascii letters, digits and underscores, starting with a letter or underscore"@,
        )
    } else if index_names_error(entity, 0) is Some {
        index_names_error(entity, 0)
    } else if key_error(entity) is Some {
        key_error(entity)
    } else if covered_error(entity, 0) is Some {
        covered_error(entity, 0)
    } else {
        reserved_error(entity, 0)
    }
}

impl EntityDef {
    fn prefix(&self) -> (r: String)
        ensures
            r@ == entity_prefix(*self),
    {
        let mut out = "entity `".to_owned();
        out.append(&self.name);
        out.append("`: ");
        out
    }

    fn check_index_names(&self) -> (r: Option<String>)
        ensures
            option_view(r) == index_names_error(*self, 0),
    {
        let mut i: usize = 0;
        while i < self.indexes.len()
            invariant
                i <= self.indexes.len(),
                index_names_error(*self, 0) == index_names_error(*self, i as nat),
            decreases self.indexes.len() - i,
        {
            let ix = &self.indexes[i];
            if !is_sql_identifier(&ix.name) {
                let mut out = self.prefix();
                out.append("index name `");
                out.append(&ix.name);
                out.append(
                    "` must be ascii letters, digits and underscores, starting with a letter or underscore",
                );
                return Some(out);
            }
            if same(&ix.name, &self.key) {
                let mut out = self.prefix();
                out.append("the index over (");
                out.append(&join(&ix.columns, ", "));
                out.append(") is named `");
                out.append(&ix.name);
                out.append("`, which is also the key column, so `order_by=");
                out.append(&ix.name);
                out.append("` could mean either; rename the key");
                return Some(out);
            }
            i += 1;
        }
        None
    }

    fn check_key(&self) -> (r: Option<String>)
        ensures
            option_view(r) == key_error(*self),
    {
        let mut out = self.prefix();
        out.append("key `");
        out.append(&self.key);
        match find_field(&self.fields, &self.key) {
            None => {
                out.append("` is not a declared field");
                Some(out)
            },
            Some(meta) => {
                if meta.is_nullable() {
                    out.append("` may not be optional");
                    Some(out)
                } else if !meta.kind.is_keyable() {
                    out.append("` must be an orderable scalar, not ");
                    let name = match &meta.kind {
                        FieldKind::Bool => "Bool".to_owned(),
                        FieldKind::Money { scale } => {
                            let mut money = "Money { scale: ".to_owned();
                            money.append(&number(*scale as u64));
                            money.append(" }");
                            money
                        },
                        _ => "Json".to_owned(),
                    };
                    out.append(&name);
                    Some(out)
                } else if meta.subject.is_some() {
                    out.append("` may not be subject-encrypted (the key is a plaintext cursor)");
                    Some(out)
                } else {
                    None
                }
            },
        }
    }

    fn check_index_columns(&self, ix: &IndexDef) -> (r: Option<String>)
        ensures
            option_view(r) == index_columns_error(*self, *ix, 0),
    {
        let mut i: usize = 0;
        while i < ix.columns.len()
            invariant
                i <= ix.columns.len(),
                index_columns_error(*self, *ix, 0) == index_columns_error(*self, *ix, i as nat),
            decreases ix.columns.len() - i,
        {
            let column = &ix.columns[i];
            match find_field(&self.fields, column) {
                None => {
                    let mut out = self.prefix();
                    out.append("index `");
                    out.append(&ix.name);
                    out.append("` references unknown field `");
                    out.append(column);
                    out.append("`");
                    return Some(out);
                },
                Some(meta) => {
                    if meta.subject.is_some() {
                        let mut out = self.prefix();
                        out.append("index `");
                        out.append(&ix.name);
                        out.append("` covers subject-encrypted column `");
                        out.append(column);
                        out.append("`; filter by the plaintext subject id instead");
                        return Some(out);
                    }
                },
            }
            i += 1;
        }
        None
    }

    fn check_reserved(&self) -> (r: Option<String>)
        ensures
            option_view(r) == reserved_error(*self, 0),
    {
        let fields = filterable_fields(self);
        let reserved = reserved_list();
        let mut i: usize = 0;
        while i < fields.len()
            invariant
                i <= fields.len(),
                views(fields@) == filterable(*self),
                views(reserved@) == reserved_params(),
                reserved_error(*self, 0) == reserved_error(*self, i as nat),
            decreases fields.len() - i,
        {
            assert(filterable(*self)[i as int] == fields@[i as int]@);
            if holds(&reserved, &fields[i]) {
                let mut out = self.prefix();
                out.append("filterable field `");
                out.append(&fields[i]);
                out.append("` collides with a reserved read query param (one of: ");
                out.append(&join(&reserved, ", "));
                out.append(")");
                return Some(out);
            }
            i += 1;
        }
        None
    }

    /// Checks that the runtime can store and serve this entity, and says what is wrong
    /// with it where it cannot.
    ///
    /// Names are held to what reads as a table name in a schema dump or a query. An
    /// index may not share its name with the key, which `order_by` could then not tell
    /// apart. The key is the pagination cursor, so it must be a present, plaintext kind
    /// that orders. An index may not cover an encrypted column, which a plaintext filter
    /// could never match. And no filterable field may be named like a control of the read
    /// API, which would leave it without a way to be filtered.
    pub fn validate(&self) -> (r: Result<(), String>)
        ensures
            match r {
                Ok(()) => entity_error(*self) is None,
                Err(message) => entity_error(*self) == Some(message@),
            },
    {
        if !is_sql_identifier(&self.name) {
            let mut out = self.prefix();
            out.append(
                "table name must be ascii letters, digits and underscores, starting with a letter or underscore",
            );
            return Err(out);
        }
        if let Some(message) = self.check_index_names() {
            return Err(message);
        }
        if let Some(message) = self.check_key() {
            return Err(message);
        }
        let mut i: usize = 0;
        while i < self.indexes.len()
            invariant
                i <= self.indexes.len(),
                sql_identifier(self.name@),
                index_names_error(*self, 0) is None,
                key_error(*self) is None,
                covered_error(*self, 0) == covered_error(*self, i as nat),
            decreases self.indexes.len() - i,
        {
            if let Some(message) = self.check_index_columns(&self.indexes[i]) {
                return Err(message);
            }
            i += 1;
        }
        match self.check_reserved() {
            Some(message) => Err(message),
            None => Ok(()),
        }
    }
}

proof fn lemma_reserved_none(entity: EntityDef, from: nat, at: int)
    requires
        reserved_error(entity, from) is None,
        from <= at < filterable(entity).len(),
    ensures
        !reserved_params().contains(filterable(entity)[at]),
    decreases at - from,
{
    if from < at {
        lemma_reserved_none(entity, from + 1, at);
    }
}

/// What a valid entity can be relied on for: its key is a declared, present, plaintext
/// column that orders, and no filterable field is named like a control of the read API.
pub proof fn law_a_valid_entity_can_be_served(entity: EntityDef)
    requires
        entity_error(entity) is None,
    ensures
        field_named(entity.fields@, entity.key@) is Some,
        keyable(field_named(entity.fields@, entity.key@)->0.kind),
        field_named(entity.fields@, entity.key@)->0.subject is None,
        forall|i: int|
            0 <= i < filterable(entity).len() ==> !reserved_params().contains(
                #[trigger] filterable(entity)[i],
            ),
{
    assert forall|i: int| 0 <= i < filterable(entity).len() implies !reserved_params().contains(
        #[trigger] filterable(entity)[i],
    ) by {
        lemma_reserved_none(entity, 0, i);
    }
}

proof fn lemma_covered_none(entity: EntityDef, from: nat, at: int)
    requires
        covered_error(entity, from) is None,
        from <= at < entity.indexes.len(),
    ensures
        index_columns_error(entity, entity.indexes@[at], 0) is None,
    decreases at - from,
{
    if from < at {
        lemma_covered_none(entity, from + 1, at);
    }
}

proof fn lemma_columns_none(entity: EntityDef, ix: IndexDef, from: nat, at: int)
    requires
        index_columns_error(entity, ix, from) is None,
        from <= at < ix.columns.len(),
    ensures
        index_column_error(entity, ix, ix.columns@[at]@) is None,
    decreases at - from,
{
    if from < at {
        lemma_columns_none(entity, ix, from + 1, at);
    }
}

/// Every column of a valid entity's indexes is declared and in plaintext, so a filter on
/// it can match.
pub proof fn law_a_valid_index_covers_plaintext(entity: EntityDef, index: int, column: int)
    requires
        entity_error(entity) is None,
        0 <= index < entity.indexes.len(),
        0 <= column < entity.indexes@[index].columns.len(),
    ensures
        ({
            let name = entity.indexes@[index].columns@[column]@;
            &&& field_named(entity.fields@, name) is Some
            &&& field_named(entity.fields@, name)->0.subject is None
        }),
{
    lemma_covered_none(entity, 0, index);
    lemma_columns_none(entity, entity.indexes@[index], 0, column);
}

// ---------------------------------------------------------------------------
// Events
// ---------------------------------------------------------------------------

/// A declared event.
#[derive(Debug, Clone)]
pub struct EventDef {
    pub event_type: String,
    /// Every field, with its tagging and encryption policy.
    pub fields: Vec<(String, FieldMeta)>,
}

/// Whether a field is declared and subject-scoped.
pub open spec fn subject_scoped(def: EventDef, name: Seq<char>) -> bool {
    match field_named(def.fields@, name) {
        Some(meta) => meta.subject is Some,
        None => false,
    }
}

impl EventDef {
    /// The declared field of that name, if any.
    pub fn field(&self, name: &str) -> (r: Option<&FieldMeta>)
        ensures
            match r {
                Some(meta) => field_named(self.fields@, name@) == Some(*meta),
                None => field_named(self.fields@, name@) is None,
            },
    {
        find_field(&self.fields, name)
    }

    /// Whether a field is subject-scoped, and so encrypted. A command's response leaves
    /// such a field's tag out.
    pub fn is_subject(&self, name: &str) -> (r: bool)
        ensures
            r == subject_scoped(*self, name@),
    {
        match self.field(name) {
            Some(meta) => meta.subject.is_some(),
            None => false,
        }
    }

    /// A short form for messages.
    pub fn display(&self) -> (r: String)
        ensures
            r@ == "event("@ + self.event_type@ + ")"@,
    {
        let mut out = "event(".to_owned();
        out.append(&self.event_type);
        out.append(")");
        out
    }
}

/// One event that a command emits.
pub struct EmittedEvent {
    pub event_type: String,
    pub data: Json,
    pub tags: Vec<(String, Option<String>)>,
}

/// The scalar text of a JSON value.
pub open spec fn scalar_text(value: crate::json::JsonView) -> Option<Seq<char>> {
    match value {
        crate::json::JsonView::Text(text) => Some(text),
        crate::json::JsonView::Int(n) => Some(crate::text::signed_decimal(n)),
        crate::json::JsonView::Decimal(text) => Some(text),
        crate::json::JsonView::Bool(flag) => Some(if flag { "true"@ } else { "false"@ }),
        crate::json::JsonView::Embedded(text) => crate::read_model::document_scalar(text, true),
        _ => None,
    }
}

/// The scalar text of a JSON value for a tag or a subject id: a string as it is, a number
/// or a flag by its canonical text. Nothing for null or a container.
pub fn scalar_to_string(value: &Json) -> (r: Option<String>)
    ensures
        option_view(r) == scalar_text(value@),
{
    match value {
        Json::Text(text) => Some(text.clone()),
        Json::Int(n) => Some(crate::text::wide_number(*n)),
        Json::Decimal(text) => Some(text.clone()),
        Json::Bool(flag) => Some(if *flag { "true".to_owned() } else { "false".to_owned() }),
        Json::Embedded(text) => crate::read_model::document_text(text, true),
        _ => None,
    }
}


// ---------------------------------------------------------------------------
// Schemas from declarations
// ---------------------------------------------------------------------------

/// The name an event is stored, tagged and queried under.
pub open spec fn wire_name(path: Seq<String>) -> Seq<char> {
    joined(views(path), "."@)
}

/// The name an event is stored, tagged and queried under: the segments of its path.
pub fn event_type(path: &Vec<String>) -> (r: String)
    ensures
        r@ == wire_name(path@),
{
    join(path, ".")
}

/// The fields of a schema: their names and what they say.
pub open spec fn fields_view(fields: Seq<(String, FieldMeta)>) -> Seq<(Seq<char>, MetaView)> {
    Seq::new(fields.len(), |i: int| (fields[i].0@, meta_view(fields[i].1)))
}

/// A declared field as it is stored.
pub open spec fn declared_field(field: FieldDef, enums: Seq<EnumDef>, indexed: bool) -> (
    Seq<char>,
    MetaView,
) {
    (
        field.name@,
        MetaView {
            kind: with_bound(stored_kind(field.ty, enums), field.max_len),
            indexed,
            subject: option_view(field.subject),
            unique: false,
        },
    )
}

fn stored_field(field: &FieldDef, enums: &Vec<EnumDef>, indexed: bool) -> (r: (String, FieldMeta))
    ensures
        (r.0@, meta_view(r.1)) == declared_field(*field, enums@, indexed),
{
    let kind = bounded(FieldKind::of(&field.ty, enums), field.max_len);
    (
        field.name.clone(),
        FieldMeta { kind, indexed, subject: copied_option(&field.subject), unique: false },
    )
}

/// The fields of a declared event.
pub open spec fn declared_event(decl: EventDecl, enums: Seq<EnumDef>) -> Seq<(Seq<char>, MetaView)> {
    Seq::new(
        decl.fields.len() as nat,
        |i: int| declared_field(decl.fields@[i], enums, decl.fields@[i].indexed),
    )
}

impl EventDef {
    /// One declared event, as the runtime stores and tags it.
    pub fn of(decl: &EventDecl, enums: &Vec<EnumDef>) -> (r: EventDef)
        ensures
            r.event_type@ == wire_name(decl.path@),
            fields_view(r.fields@) == declared_event(*decl, enums@),
    {
        let mut fields: Vec<(String, FieldMeta)> = Vec::new();
        let mut i: usize = 0;
        while i < decl.fields.len()
            invariant
                i <= decl.fields.len(),
                fields.len() == i,
                forall|k: int|
                    0 <= k < i ==> fields_view(fields@)[k] == #[trigger] declared_event(*decl, enums@)[k],
            decreases decl.fields.len() - i,
        {
            let ghost was = fields@;
            let field = stored_field(&decl.fields[i], enums, decl.fields[i].indexed);
            fields.push(field);
            assert forall|k: int| 0 <= k < i + 1 implies fields_view(fields@)[k]
                == #[trigger] declared_event(*decl, enums@)[k] by {
                if k < i {
                    assert(fields_view(fields@)[k] == fields_view(was)[k]);
                }
            }
            i += 1;
        }
        assert(fields_view(fields@) =~= declared_event(*decl, enums@));
        EventDef { event_type: event_type(&decl.path), fields }
    }

    /// Every event of a list of declarations.
    pub fn all(decls: &Vec<EventDecl>, enums: &Vec<EnumDef>) -> (r: Vec<EventDef>)
        ensures
            r.len() == decls.len(),
            forall|i: int|
                0 <= i < r.len() ==> (#[trigger] r@[i]).event_type@ == wire_name(decls@[i].path@)
                    && fields_view(r@[i].fields@) == declared_event(decls@[i], enums@),
    {
        let mut out: Vec<EventDef> = Vec::new();
        let mut i: usize = 0;
        while i < decls.len()
            invariant
                i <= decls.len(),
                out.len() == i,
                forall|k: int|
                    0 <= k < i ==> (#[trigger] out@[k]).event_type@ == wire_name(decls@[k].path@)
                        && fields_view(out@[k].fields@) == declared_event(decls@[k], enums@),
            decreases decls.len() - i,
        {
            out.push(EventDef::of(&decls[i], enums));
            i += 1;
        }
        out
    }
}

/// Whether some declared index covers a column.
pub open spec fn is_indexed(decl: EntityDecl, name: Seq<char>) -> bool {
    exists|i: int| 0 <= i < decl.indexes.len() && views((#[trigger] decl.indexes@[i])@).contains(name)
}

/// The fields of a declared entity. A column can be filtered where the author asked for
/// it: the key, or a column of an index.
pub open spec fn declared_entity(decl: EntityDecl, enums: Seq<EnumDef>) -> Seq<(Seq<char>, MetaView)> {
    Seq::new(
        decl.fields.len() as nat,
        |i: int|
            declared_field(
                decl.fields@[i],
                enums,
                decl.fields@[i].name@ == decl.key@ || is_indexed(decl, decl.fields@[i].name@),
            ),
    )
}

/// An index as its name and its columns.
pub open spec fn index_view(ix: IndexDef) -> (Seq<char>, Seq<Seq<char>>) {
    (ix.name@, views(ix.columns@))
}

/// The indexes of a declared entity, each named after its columns.
pub open spec fn declared_index(decl: EntityDecl, at: int) -> (Seq<char>, Seq<Seq<char>>) {
    let columns = views(decl.indexes@[at]@);
    ("by_"@ + joined(columns, "_"@), columns)
}

fn covers(decl: &EntityDecl, name: &str) -> (r: bool)
    ensures
        r == is_indexed(*decl, name@),
{
    let mut i: usize = 0;
    while i < decl.indexes.len()
        invariant
            i <= decl.indexes.len(),
            forall|k: int| 0 <= k < i ==> !views((#[trigger] decl.indexes@[k])@).contains(name@),
        decreases decl.indexes.len() - i,
    {
        if holds(&decl.indexes[i], name) {
            assert(views(decl.indexes@[i as int]@).contains(name@));
            return true;
        }
        i += 1;
    }
    false
}

impl EntityDef {
    /// One declared entity, as a table.
    pub fn of(decl: &EntityDecl, enums: &Vec<EnumDef>) -> (r: EntityDef)
        ensures
            r.name@ == decl.name@,
            r.key@ == decl.key@,
            fields_view(r.fields@) == declared_entity(*decl, enums@),
            r.indexes.len() == decl.indexes.len(),
            forall|i: int|
                0 <= i < r.indexes.len() ==> index_view(#[trigger] r.indexes@[i]) == declared_index(
                    *decl,
                    i,
                ),
    {
        let mut fields: Vec<(String, FieldMeta)> = Vec::new();
        let mut i: usize = 0;
        while i < decl.fields.len()
            invariant
                i <= decl.fields.len(),
                fields.len() == i,
                forall|k: int|
                    0 <= k < i ==> fields_view(fields@)[k] == #[trigger] declared_entity(*decl, enums@)[k],
            decreases decl.fields.len() - i,
        {
            let ghost was = fields@;
            let name = &decl.fields[i].name;
            let indexed = same(name, &decl.key) || covers(decl, name);
            let field = stored_field(&decl.fields[i], enums, indexed);
            fields.push(field);
            assert forall|k: int| 0 <= k < i + 1 implies fields_view(fields@)[k]
                == #[trigger] declared_entity(*decl, enums@)[k] by {
                if k < i {
                    assert(fields_view(fields@)[k] == fields_view(was)[k]);
                }
            }
            i += 1;
        }
        assert(fields_view(fields@) =~= declared_entity(*decl, enums@));
        let mut indexes: Vec<IndexDef> = Vec::new();
        let mut i: usize = 0;
        while i < decl.indexes.len()
            invariant
                i <= decl.indexes.len(),
                indexes.len() == i,
                forall|k: int|
                    0 <= k < i ==> index_view(#[trigger] indexes@[k]) == declared_index(*decl, k),
            decreases decl.indexes.len() - i,
        {
            let columns = &decl.indexes[i];
            let mut name = "by_".to_owned();
            name.append(&join(columns, "_"));
            indexes.push(IndexDef { name, columns: copied(columns) });
            i += 1;
        }
        EntityDef { name: decl.name.clone(), key: decl.key.clone(), fields, indexes }
    }

    /// Every entity that one projector declares, in declaration order.
    pub fn all(decls: &Vec<EntityDecl>, enums: &Vec<EnumDef>) -> (r: Vec<EntityDef>)
        ensures
            r.len() == decls.len(),
            forall|i: int| 0 <= i < r.len() ==> is_declared(#[trigger] r@[i], decls@[i], enums@),
    {
        let mut out: Vec<EntityDef> = Vec::new();
        let mut i: usize = 0;
        while i < decls.len()
            invariant
                i <= decls.len(),
                out.len() == i,
                forall|k: int| 0 <= k < i ==> is_declared(#[trigger] out@[k], decls@[k], enums@),
            decreases decls.len() - i,
        {
            out.push(EntityDef::of(&decls[i], enums));
            i += 1;
        }
        out
    }
}

/// Whether an entity is the table that a declaration comes to.
pub open spec fn is_declared(entity: EntityDef, decl: EntityDecl, enums: Seq<EnumDef>) -> bool {
    &&& entity.name@ == decl.name@
    &&& entity.key@ == decl.key@
    &&& fields_view(entity.fields@) == declared_entity(decl, enums)
    &&& entity.indexes.len() == decl.indexes.len()
    &&& forall|i: int|
        0 <= i < entity.indexes.len() ==> index_view(#[trigger] entity.indexes@[i])
            == declared_index(decl, i)
}

impl InputSchema {
    /// A command's parameters, which are its request body.
    pub fn of(params: &Vec<ParamDef>, enums: &Vec<EnumDef>) -> (r: InputSchema)
        ensures
            r.fields.len() == params.len(),
            forall|i: int|
                0 <= i < r.fields.len() ==> (#[trigger] r.fields@[i]).0@ == params@[i].name@
                    && kind_view(r.fields@[i].1) == stored_kind(params@[i].ty, enums@),
    {
        let mut fields: Vec<(String, FieldKind)> = Vec::new();
        let mut i: usize = 0;
        while i < params.len()
            invariant
                i <= params.len(),
                fields.len() == i,
                forall|k: int|
                    0 <= k < i ==> (#[trigger] fields@[k]).0@ == params@[k].name@ && kind_view(
                        fields@[k].1,
                    ) == stored_kind(params@[k].ty, enums@),
            decreases params.len() - i,
        {
            fields.push((params[i].name.clone(), FieldKind::of(&params[i].ty, enums)));
            i += 1;
        }
        InputSchema { fields }
    }
}

/// A bound leaves a kind as it is in every respect but the length of its text.
pub proof fn law_a_bound_keeps_optionality(kind: KindView, max_len: Option<usize>)
    ensures
        (kind is Optional) == (with_bound(kind, max_len) is Optional),
        max_len is None ==> with_bound(kind, max_len) == kind,
    decreases kind,
{
    if let KindView::Optional(inner) = kind {
        law_a_bound_keeps_optionality(*inner, max_len);
    }
}

} // verus!
