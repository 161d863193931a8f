//! The compiler's own model of a contract, and the TypeScript types it gives.

use vstd::prelude::*;

use crate::json::Json;
use crate::text::{join, same_text};
use crate::text;

verus! {

broadcast use vstd::string::group_string_axioms;

/// A type as the compiler writes it down.
#[derive(Debug)]
pub struct TypeRef {
    pub ty_name: String,
    /// The byte width of a `Bytes`, or the number of elements of a `Vector`.
    pub length: Option<u64>,
    /// The greatest value of a `Uint`, not its width.
    pub maxval: Option<u64>,
    /// The declared name of a `Struct` or an `Enum`.
    pub name: Option<String>,
    /// The element type of a `Vector`.
    pub element_type: Option<Box<TypeRef>>,
    /// The member types of a `Tuple`.
    pub types: Vec<TypeRef>,
    /// The fields of a `Struct`, or the variants of an `Enum`.
    pub elements: Vec<TypeElement>,
}

/// A member of a composite type.
#[derive(Debug)]
pub enum TypeElement {
    /// A field of a `Struct`.
    Field(StructField),
    /// The name of a variant of an `Enum`.
    Variant(String),
}

/// A named field of a `Struct` type.
#[derive(Debug)]
pub struct StructField {
    pub name: String,
    pub ty: TypeRef,
}

#[derive(Debug)]
pub struct Argument {
    pub name: String,
    pub ty: TypeRef,
}

#[derive(Debug)]
pub struct Circuit {
    pub name: String,
    pub pure: bool,
    /// Whether a `.zkir` file is emitted for the circuit.
    pub proof: bool,
    pub arguments: Vec<Argument>,
    pub result_type: TypeRef,
}

#[derive(Debug)]
pub struct Witness {
    pub name: String,
    pub arguments: Vec<Argument>,
    pub result_type: TypeRef,
}

#[derive(Debug)]
pub struct LedgerField {
    pub name: String,
    pub index: u64,
    pub exported: bool,
    pub storage: String,
}

#[derive(Debug)]
pub struct ContractInfo {
    pub compiler_version: String,
    pub language_version: String,
    pub runtime_version: String,
    pub circuits: Vec<Circuit>,
    /// Only witnesses that some circuit calls.
    pub witnesses: Vec<Witness>,
    pub contracts: Vec<Json>,
    pub ledger: Vec<LedgerField>,
}

impl Default for TypeRef {
    fn default() -> (r: TypeRef)
        ensures
            r.ty_name@ == Seq::<char>::empty(),
            r.length is None,
            r.maxval is None,
            r.name is None,
            r.element_type is None,
            r.types@ == Seq::<TypeRef>::empty(),
            r.elements@ == Seq::<TypeElement>::empty(),
    {
        TypeRef {
            ty_name: String::new(),
            length: None,
            maxval: None,
            name: None,
            element_type: None,
            types: Vec::new(),
            elements: Vec::new(),
        }
    }
}

impl TypeRef {
    /// The type with this name and nothing else.
    pub fn named(n: &str) -> (r: TypeRef)
        ensures
            r.ty_name@ == n@,
            r.length is None,
            r.maxval is None,
            r.name is None,
            r.element_type is None,
            r.types@ == Seq::<TypeRef>::empty(),
            r.elements@ == Seq::<TypeElement>::empty(),
    {
        TypeRef {
            ty_name: n.to_owned(),
            length: None,
            maxval: None,
            name: None,
            element_type: None,
            types: Vec::new(),
            elements: Vec::new(),
        }
    }
}

/// The TypeScript type that the compiler itself emits for a Compact type in witness
/// signatures. What cannot be represented is `unknown`, never a plausible other type.
pub open spec fn typescript(t: TypeRef) -> Seq<char>
    decreases t, 0int,
{
    let name = t.ty_name@;
    if name == "Field"@ || name == "Uint"@ {
        "bigint"@
    } else if name == "Boolean"@ {
        "boolean"@
    } else if name == "Bytes"@ {
        "Uint8Array"@
    } else if name == "Tuple"@ {
        "["@ + text::joined(type_texts(t.types@, t.types@.len() as int), ", "@) + "]"@
    } else if name == "Vector"@ {
        match t.element_type {
            Some(el) => typescript(*el) + "[]"@,
            None => "unknown"@,
        }
    } else if name == "Struct"@ {
        "{ "@ + text::joined(field_texts(t.elements@, t.elements@.len() as int), ", "@) + " }"@
    } else if name == "Enum"@ {
        "number"@
    } else {
        "unknown"@
    }
}

/// The TypeScript types of the first `n` of these types.
pub open spec fn type_texts(types: Seq<TypeRef>, n: int) -> Seq<Seq<char>>
    decreases types, n,
{
    if n <= 0 || n > types.len() {
        seq![]
    } else {
        type_texts(types, n - 1).push(typescript(types[n - 1]))
    }
}

/// The fields among the first `n` of these members, each with its TypeScript type.
pub open spec fn field_texts(elements: Seq<TypeElement>, n: int) -> Seq<Seq<char>>
    decreases elements, n,
{
    if n <= 0 || n > elements.len() {
        seq![]
    } else {
        let rest = field_texts(elements, n - 1);
        match elements[n - 1] {
            TypeElement::Field(f) => rest.push(f.name@ + ": "@ + typescript(f.ty)),
            TypeElement::Variant(_) => rest,
        }
    }
}

/// The fallback for a type that cannot be represented.
fn unknown() -> (r: String)
    ensures
        r@ == "unknown"@,
{
    "unknown".to_owned()
}

/// The TypeScript type of a Compact type.
#[verifier::loop_isolation(false)]
pub fn ts_type(t: &TypeRef) -> (r: String)
    ensures
        r@ == typescript(*t),
    decreases t,
{
    let name = t.ty_name.as_str();
    if same_text(name, "Field") || same_text(name, "Uint") {
        "bigint".to_owned()
    } else if same_text(name, "Boolean") {
        "boolean".to_owned()
    } else if same_text(name, "Bytes") {
        "Uint8Array".to_owned()
    } else if same_text(name, "Tuple") {
        let mut parts: Vec<String> = Vec::new();
        let mut i: usize = 0;
        assert(text::views(parts@) =~= Seq::<Seq<char>>::empty());
        while i < t.types.len()
            invariant
                i <= t.types.len(),
                text::views(parts@) == type_texts(t.types@, i as int),
            decreases t.types.len() - i,
        {
            assert(decreases_to!(t => t.types@[i as int]));
            let part = ts_type(&t.types[i]);
            let ghost done = parts@;
            parts.push(part);
            proof {
                text::lemma_views_push(done, part);
            }
            i = i + 1;
        }
        let mut s = "[".to_owned();
        s.append(join(&parts, ", ").as_str());
        s.append("]");
        s
    } else if same_text(name, "Vector") {
        match &t.element_type {
            Some(el) => {
                let mut s = ts_type(el);
                s.append("[]");
                s
            },
            None => unknown(),
        }
    } else if same_text(name, "Struct") {
        let mut parts: Vec<String> = Vec::new();
        let mut i: usize = 0;
        assert(text::views(parts@) =~= Seq::<Seq<char>>::empty());
        while i < t.elements.len()
            invariant
                i <= t.elements.len(),
                text::views(parts@) == field_texts(t.elements@, i as int),
            decreases t.elements.len() - i,
        {
            match &t.elements[i] {
                TypeElement::Field(f) => {
                    assert(decreases_to!(t => t.elements@[i as int]));
                    assert(decreases_to!(t.elements@[i as int] => f.ty));
                    let mut part = f.name.clone();
                    part.append(": ");
                    part.append(ts_type(&f.ty).as_str());
                    let ghost done = parts@;
                    parts.push(part);
                    proof {
                        text::lemma_views_push(done, part);
                    }
                },
                TypeElement::Variant(_) => {},
            }
            i = i + 1;
        }
        let mut s = "{ ".to_owned();
        s.append(join(&parts, ", ").as_str());
        s.append(" }");
        s
    } else if same_text(name, "Enum") {
        "number".to_owned()
    } else {
        unknown()
    }
}

// ---------------------------------------------------------------------------
// Laws
// ---------------------------------------------------------------------------

/// A vector of any type is an array of what that type is: its TypeScript type is that of its
/// elements with `[]` behind it, whatever they are, and is never the same.
pub proof fn law_vectors_are_arrays_of_their_elements(t: TypeRef)
    requires
        t.ty_name@ == "Vector"@,
    ensures
        match t.element_type {
            Some(el) => {
                &&& typescript(t) == typescript(*el) + "[]"@
                &&& typescript(t).len() == typescript(*el).len() + 2
                &&& typescript(t) != typescript(*el)
                &&& typescript(t).last() == ']'
            },
            None => typescript(t) == "unknown"@,
        },
{
    lemma_type_names_differ();
    reveal_strlit("[]");
}

/// The types without parts are what the compiler makes of them, and a name it does not know is
/// `unknown`: never a type that would compile and be wrong.
pub proof fn law_plain_types_are_what_the_compiler_emits(t: TypeRef)
    ensures
        t.ty_name@ == "Field"@ ==> typescript(t) == "bigint"@,
        t.ty_name@ == "Uint"@ ==> typescript(t) == "bigint"@,
        t.ty_name@ == "Boolean"@ ==> typescript(t) == "boolean"@,
        t.ty_name@ == "Bytes"@ ==> typescript(t) == "Uint8Array"@,
        t.ty_name@ == "Enum"@ ==> typescript(t) == "number"@,
        t.ty_name@ != "Field"@ && t.ty_name@ != "Uint"@ && t.ty_name@ != "Boolean"@ && t.ty_name@
            != "Bytes"@ && t.ty_name@ != "Enum"@ && t.ty_name@ != "Tuple"@ && t.ty_name@
            != "Vector"@ && t.ty_name@ != "Struct"@ ==> typescript(t) == "unknown"@,
{
    lemma_type_names_differ();
}

/// A tuple has the types of its members in their order, and a structure its fields in their
/// order, each with its own name and type; nothing is left out and nothing is added.
pub proof fn law_composite_types_have_all_their_parts(t: TypeRef)
    ensures
        t.ty_name@ == "Tuple"@ ==> typescript(t) == "["@ + text::joined(
            Seq::new(t.types@.len(), |i: int| typescript(t.types@[i])),
            ", "@,
        ) + "]"@,
        t.ty_name@ == "Struct"@ && (forall|i: int|
            0 <= i < t.elements@.len() ==> #[trigger] t.elements@[i] is Field) ==> typescript(t)
            == "{ "@ + text::joined(
            Seq::new(
                t.elements@.len(),
                |i: int|
                    t.elements@[i]->Field_0.name@ + ": "@ + typescript(t.elements@[i]->Field_0.ty),
            ),
            ", "@,
        ) + " }"@,
{
    lemma_type_names_differ();
    if t.ty_name@ == "Tuple"@ {
        lemma_type_texts(t.types@, t.types@.len() as int);
        assert(type_texts(t.types@, t.types@.len() as int) =~= Seq::new(
            t.types@.len(),
            |i: int| typescript(t.types@[i]),
        ));
    }
    if t.ty_name@ == "Struct"@ && (forall|i: int|
        0 <= i < t.elements@.len() ==> #[trigger] t.elements@[i] is Field) {
        lemma_field_texts(t.elements@, t.elements@.len() as int);
        assert(field_texts(t.elements@, t.elements@.len() as int) =~= Seq::new(
            t.elements@.len(),
            |i: int|
                t.elements@[i]->Field_0.name@ + ": "@ + typescript(t.elements@[i]->Field_0.ty),
        ));
    }
}

proof fn lemma_type_texts(types: Seq<TypeRef>, n: int)
    requires
        0 <= n <= types.len(),
    ensures
        type_texts(types, n).len() == n,
        forall|i: int| 0 <= i < n ==> #[trigger] type_texts(types, n)[i] == typescript(types[i]),
    decreases n,
{
    if n > 0 {
        lemma_type_texts(types, n - 1);
    }
}

proof fn lemma_field_texts(elements: Seq<TypeElement>, n: int)
    requires
        0 <= n <= elements.len(),
        forall|i: int| 0 <= i < elements.len() ==> #[trigger] elements[i] is Field,
    ensures
        field_texts(elements, n).len() == n,
        forall|i: int|
            0 <= i < n ==> #[trigger] field_texts(elements, n)[i] == elements[i]->Field_0.name@
                + ": "@ + typescript(elements[i]->Field_0.ty),
    decreases n,
{
    if n > 0 {
        lemma_field_texts(elements, n - 1);
        assert(elements[n - 1] is Field);
    }
}

/// The names of the compiler's types are all different.
proof fn lemma_type_names_differ()
    ensures
        "Field"@ != "Uint"@,
        "Boolean"@ != "Field"@ && "Boolean"@ != "Uint"@,
        "Bytes"@ != "Field"@ && "Bytes"@ != "Uint"@ && "Bytes"@ != "Boolean"@,
        "Tuple"@ != "Field"@ && "Tuple"@ != "Uint"@ && "Tuple"@ != "Boolean"@ && "Tuple"@
            != "Bytes"@,
        "Vector"@ != "Field"@ && "Vector"@ != "Uint"@ && "Vector"@ != "Boolean"@ && "Vector"@
            != "Bytes"@ && "Vector"@ != "Tuple"@,
        "Struct"@ != "Field"@ && "Struct"@ != "Uint"@ && "Struct"@ != "Boolean"@ && "Struct"@
            != "Bytes"@ && "Struct"@ != "Tuple"@ && "Struct"@ != "Vector"@,
        "Enum"@ != "Field"@ && "Enum"@ != "Uint"@ && "Enum"@ != "Boolean"@ && "Enum"@ != "Bytes"@
            && "Enum"@ != "Tuple"@ && "Enum"@ != "Vector"@ && "Enum"@ != "Struct"@,
{
    reveal_strlit("Field");
    reveal_strlit("Uint");
    reveal_strlit("Boolean");
    reveal_strlit("Bytes");
    reveal_strlit("Tuple");
    reveal_strlit("Vector");
    reveal_strlit("Struct");
    reveal_strlit("Enum");
    assert("Field"@[0] == 'F' && "Bytes"@[0] == 'B' && "Tuple"@[0] == 'T');
    assert("Vector"@[0] == 'V' && "Struct"@[0] == 'S');
    assert("Uint"@[0] == 'U' && "Enum"@[0] == 'E');
    assert("Boolean"@.len() == 7);
}

} // verus!
