//! Entity schemas: descriptors of typed fields, compiled into labels.
use vstd::prelude::*;
use vstd::utf8::encode_utf8;
use crate::label::{fnv64, field_label, fnv64_hash, struct_label};

verus! {

/// How a field of an entity is stored.
#[derive(Clone, Copy, Debug, PartialEq, Eq, Structural)]
pub enum FieldKind {
    /// One edge to a fresh node that carries an encoded value.
    Atom,
    /// One edge to another entity.
    Link,
    /// One edge to a fresh node that carries an encoded value or nothing.
    AtomOption,
    /// One edge to another entity or to a fresh id with nothing behind it.
    LinkOption,
    /// The destinations of all edges from the entity with the field's label.
    Multilinks,
    /// The sources of all edges with a foreign field's label into the entity.
    Backlinks,
}

/// A field as declared: its name, its kind and, for back-links, the foreign
/// field `Struct.field` that it reverses.
pub struct FieldDesc {
    pub name: String,
    pub kind: FieldKind,
    pub backlink: Option<String>,
}

/// An entity as declared: its name and its fields.
pub struct StructDesc {
    pub name: String,
    pub fields: Vec<FieldDesc>,
}

/// Why a descriptor is refused.
#[derive(Clone, Copy, Debug, PartialEq, Eq, Structural)]
pub enum SchemaError {
    /// A back-link field does not name the foreign field it reverses.
    MissingBacklink,
    /// A field is named `id`, which every entity has already.
    ReservedId,
}

/// A compiled field: its name, kind and label.
pub struct Field {
    pub name: String,
    pub kind: FieldKind,
    pub label: u64,
}

/// A compiled entity: its name, label and fields.
pub struct Model {
    pub name: String,
    pub label: u64,
    pub fields: Vec<Field>,
}

pub open spec fn id_name() -> Seq<char> {
    seq!['i', 'd']
}

/// What is wrong with a field, if anything. A back-link without its
/// annotation is reported before a reserved name.
pub open spec fn field_error(f: FieldDesc) -> Option<SchemaError> {
    if f.kind is Backlinks && f.backlink is None {
        Some(SchemaError::MissingBacklink)
    } else if f.name@ == id_name() {
        Some(SchemaError::ReservedId)
    } else {
        None
    }
}

/// The label of field `f` of entity `s`: the hash of `Struct.field`, or for a
/// back-link the hash of the foreign field that it names.
pub open spec fn field_label_spec(s: Seq<char>, f: FieldDesc) -> u64 {
    if f.kind is Backlinks {
        fnv64(encode_utf8(f.backlink->0@))
    } else {
        fnv64(encode_utf8(s + seq!['.'] + f.name@))
    }
}

/// `m` is the compiled form of `d`.
pub open spec fn compiled(d: StructDesc, m: Model) -> bool {
    &&& m.name@ == d.name@
    &&& m.label == fnv64(encode_utf8(d.name@))
    &&& m.fields@.len() == d.fields@.len()
    &&& forall|i: int|
        0 <= i < d.fields@.len() ==> {
            &&& (#[trigger] m.fields@[i]).name@ == d.fields@[i].name@
            &&& m.fields@[i].kind == d.fields@[i].kind
            &&& m.fields@[i].label == field_label_spec(d.name@, d.fields@[i])
        }
}

fn check_field(f: &FieldDesc) -> (r: Option<SchemaError>)
    ensures
        r == field_error(*f),
{
    if f.kind == FieldKind::Backlinks && f.backlink.is_none() {
        return Some(SchemaError::MissingBacklink);
    }
    proof {
        reveal_strlit("id");
    }
    let id = "id".to_owned();
    assert(id@ =~= id_name());
    let same = f.name == id;
    assert(same == (f.name@ == id@));
    if same {
        Some(SchemaError::ReservedId)
    } else {
        None
    }
}

/// Compiles a descriptor: checks every field and derives the labels. The
/// error is that of the first field that is wrong.
pub fn compile(d: &StructDesc) -> (r: Result<Model, SchemaError>)
    ensures
        match r {
            Ok(m) => compiled(*d, m) && forall|i: int|
                0 <= i < d.fields@.len() ==> field_error(#[trigger] d.fields@[i]) is None,
            Err(e) => exists|i: int|
                0 <= i < d.fields@.len() && field_error(#[trigger] d.fields@[i]) == Some(e)
                    && forall|j: int| 0 <= j < i ==> field_error(#[trigger] d.fields@[j]) is None,
        },
{
    let mut fields: Vec<Field> = Vec::new();
    let mut i: usize = 0;
    while i < d.fields.len()
        invariant
            i <= d.fields@.len(),
            fields@.len() == i,
            forall|j: int| 0 <= j < i ==> field_error(#[trigger] d.fields@[j]) is None,
            forall|j: int|
                0 <= j < i ==> {
                    &&& (#[trigger] fields@[j]).name@ == d.fields@[j].name@
                    &&& fields@[j].kind == d.fields@[j].kind
                    &&& fields@[j].label == field_label_spec(d.name@, d.fields@[j])
                },
        decreases d.fields@.len() - i,
    {
        let f = &d.fields[i];
        if let Some(e) = check_field(f) {
            return Err(e);
        }
        let label = match &f.backlink {
            Some(foreign) if f.kind == FieldKind::Backlinks => fnv64_hash(foreign.as_str()),
            _ => field_label(d.name.as_str(), f.name.as_str()),
        };
        fields.push(Field { name: f.name.clone(), kind: f.kind, label });
        i += 1;
    }
    Ok(Model { name: d.name.clone(), label: struct_label(d.name.as_str()), fields })
}

} // verus!
