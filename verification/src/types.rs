use vstd::prelude::*;
use vstd::string::StringExecFns;

use crate::values::{dec_nat, i64_to_dec, leaf_literal, quote_string, usize_to_dec};

verus! {

/// A generic document tree: the dynamically typed input of the pipeline.
///
/// A mapping keeps its entries in document order; its keys are arbitrary
/// nodes, because the upstream document format allows non-string keys (the
/// builder rejects them).  A real number is carried as the exact numeric
/// text of the document, so that the emitted literal reproduces it.
/// `Unsupported` stands for every node kind outside the type system
/// (null, alias, binary, and the like).
#[derive(Debug)]
pub enum Yaml {
    String(String),
    Real(String),
    Integer(i64),
    Boolean(bool),
    Array(Vec<Yaml>),
    Hash(Vec<(Yaml, Yaml)>),
    Unsupported,
}

/// The mathematical model of a [`Yaml`] tree.
pub enum YamlV {
    Str(Seq<char>),
    Real(Seq<char>),
    Int(int),
    Bool(bool),
    Arr(Seq<YamlV>),
    Hash(Seq<(YamlV, YamlV)>),
    Unsupported,
}

pub open spec fn yaml_view(y: Yaml) -> YamlV
    decreases y,
{
    match y {
        Yaml::String(s) => YamlV::Str(s@),
        Yaml::Real(r) => YamlV::Real(r@),
        Yaml::Integer(i) => YamlV::Int(i as int),
        Yaml::Boolean(b) => YamlV::Bool(b),
        Yaml::Array(items) => YamlV::Arr(yaml_views(items@)),
        Yaml::Hash(entries) => YamlV::Hash(yaml_entry_views(entries@)),
        Yaml::Unsupported => YamlV::Unsupported,
    }
}

pub open spec fn yaml_views(items: Seq<Yaml>) -> Seq<YamlV>
    decreases items,
{
    if items.len() == 0 {
        Seq::empty()
    } else {
        yaml_views(items.drop_last()).push(yaml_view(items.last()))
    }
}

pub open spec fn yaml_entry_views(entries: Seq<(Yaml, Yaml)>) -> Seq<(YamlV, YamlV)>
    decreases entries,
{
    if entries.len() == 0 {
        Seq::empty()
    } else {
        yaml_entry_views(entries.drop_last()).push(
            (yaml_view(entries.last().0), yaml_view(entries.last().1)),
        )
    }
}

/// Each node of the view sequence is the view of the node at the same index.
pub proof fn lemma_yaml_views_index(items: Seq<Yaml>)
    ensures
        yaml_views(items).len() == items.len(),
        forall|i: int| 0 <= i < items.len() ==> yaml_views(items)[i] == yaml_view(#[trigger] items[i]),
    decreases items,
{
    if items.len() > 0 {
        lemma_yaml_views_index(items.drop_last());
        assert forall|i: int| 0 <= i < items.len() implies yaml_views(items)[i] == yaml_view(
            #[trigger] items[i],
        ) by {
            if i < items.len() - 1 {
                assert(items.drop_last()[i] == items[i]);
            }
        }
    }
}

/// Each entry of the view sequence is the pair of views of the entry at the same index.
pub proof fn lemma_yaml_entry_views_index(entries: Seq<(Yaml, Yaml)>)
    ensures
        yaml_entry_views(entries).len() == entries.len(),
        forall|i: int|
            0 <= i < entries.len() ==> yaml_entry_views(entries)[i] == (
            yaml_view(#[trigger] entries[i].0),
            yaml_view(entries[i].1),
            ),
    decreases entries,
{
    if entries.len() > 0 {
        lemma_yaml_entry_views_index(entries.drop_last());
        assert forall|i: int|
            0 <= i < entries.len() implies yaml_entry_views(entries)[i] == (
        yaml_view(#[trigger] entries[i].0),
        yaml_view(entries[i].1),
        ) by {
            if i < entries.len() - 1 {
                assert(entries.drop_last()[i] == entries[i]);
            }
        }
    }
}

impl View for Yaml {
    type V = YamlV;

    open spec fn view(&self) -> YamlV {
        yaml_view(*self)
    }
}

/// An inferred static type.
///
/// `Record` is a named product type: its fields keep the key order of the
/// mapping they were inferred from.  `List` is a fixed-length homogeneous
/// sequence type; the length is part of the type because the target
/// representation is a fixed-size array.  `Empty` is the element type of a
/// sequence with no element to infer from.
#[derive(Debug)]
pub enum Type {
    Empty,
    String,
    Real,
    Integer,
    Boolean,
    Record { name: String, fields: Vec<(String, Type)> },
    List(Box<Type>, usize),
}

/// The mathematical model of a [`Type`].
#[verifier::ext_equal]
pub enum TypeV {
    Empty,
    String,
    Real,
    Integer,
    Boolean,
    Record { name: Seq<char>, fields: Seq<(Seq<char>, TypeV)> },
    List(Box<TypeV>, nat),
}

pub open spec fn type_view(t: Type) -> TypeV
    decreases t,
{
    match t {
        Type::Empty => TypeV::Empty,
        Type::String => TypeV::String,
        Type::Real => TypeV::Real,
        Type::Integer => TypeV::Integer,
        Type::Boolean => TypeV::Boolean,
        Type::Record { name, fields } => TypeV::Record {
            name: name@,
            fields: field_views(fields@),
        },
        Type::List(elem, len) => TypeV::List(Box::new(type_view(*elem)), len as nat),
    }
}

pub open spec fn field_views(fields: Seq<(String, Type)>) -> Seq<(Seq<char>, TypeV)>
    decreases fields,
{
    if fields.len() == 0 {
        Seq::empty()
    } else {
        field_views(fields.drop_last()).push(
            (fields.last().0@, type_view(fields.last().1)),
        )
    }
}

/// Each field of the view sequence is the view of the field at the same index.
pub proof fn lemma_field_views_index(fields: Seq<(String, Type)>)
    ensures
        field_views(fields).len() == fields.len(),
        forall|i: int|
            0 <= i < fields.len() ==> field_views(fields)[i] == (
            #[trigger] fields[i].0@,
            type_view(fields[i].1),
            ),
    decreases fields,
{
    if fields.len() > 0 {
        lemma_field_views_index(fields.drop_last());
        assert forall|i: int|
            0 <= i < fields.len() implies field_views(fields)[i] == (
        #[trigger] fields[i].0@,
        type_view(fields[i].1),
        ) by {
            if i < fields.len() - 1 {
                assert(fields.drop_last()[i] == fields[i]);
            }
        }
    }
}

impl View for Type {
    type V = TypeV;

    open spec fn view(&self) -> TypeV {
        type_view(*self)
    }
}

/// The target-language syntax that refers to a type: primitives map to their
/// target names, a record is referred to by its synthesized name, and a list
/// maps to a fixed-size array of its element type.
pub open spec fn type_ref(t: TypeV) -> Seq<char>
    decreases t,
{
    match t {
        TypeV::Empty => "()"@,
        TypeV::String => "&'static str"@,
        TypeV::Real => "f64"@,
        TypeV::Integer => "i64"@,
        TypeV::Boolean => "bool"@,
        TypeV::Record { name, .. } => name,
        TypeV::List(elem, len) => "["@ + type_ref(*elem) + "; "@ + dec_nat(len) + "]"@,
    }
}

impl Type {
    /// The target-language syntax referring to this type.
    pub fn to_syn_type(&self) -> (r: String)
        ensures
            r@ == type_ref(self@),
        decreases self,
    {
        match self {
            Type::Empty => "()".to_owned(),
            Type::String => "&'static str".to_owned(),
            Type::Real => "f64".to_owned(),
            Type::Integer => "i64".to_owned(),
            Type::Boolean => "bool".to_owned(),
            Type::Record { name, .. } => name.clone(),
            Type::List(elem, len) => {
                let mut s = "[".to_owned();
                s.append(elem.to_syn_type().as_str());
                s.append("; ");
                s.append(usize_to_dec(*len).as_str());
                s.append("]");
                s
            },
        }
    }
}

/// The typed syntax tree: the document tree with every node carrying the key
/// it was found under and, where types are synthesized, the inferred type.
///
/// A `HashTable` node is a record instance: its `name` is the name
/// synthesized from the key path leading to it, and its children are the
/// record's fields in document order.  An `Array` node carries its full
/// inferred `List` type in `types`.
#[derive(Debug)]
pub enum Ast {
    Int { key: String, value: i64 },
    Bool { key: String, value: bool },
    String { key: String, value: String },
    Real { key: String, value: String },
    HashTable { key: String, name: String, children: Vec<Ast> },
    Array { key: String, types: Type, children: Vec<Ast> },
}

/// The mathematical model of an [`Ast`].
#[verifier::ext_equal]
pub enum AstV {
    Int { key: Seq<char>, value: int },
    Bool { key: Seq<char>, value: bool },
    Str { key: Seq<char>, value: Seq<char> },
    Real { key: Seq<char>, value: Seq<char> },
    Record { key: Seq<char>, name: Seq<char>, children: Seq<AstV> },
    List { key: Seq<char>, types: TypeV, children: Seq<AstV> },
}

pub open spec fn ast_view(a: Ast) -> AstV
    decreases a,
{
    match a {
        Ast::Int { key, value } => AstV::Int { key: key@, value: value as int },
        Ast::Bool { key, value } => AstV::Bool { key: key@, value },
        Ast::String { key, value } => AstV::Str { key: key@, value: value@ },
        Ast::Real { key, value } => AstV::Real { key: key@, value: value@ },
        Ast::HashTable { key, name, children } => AstV::Record {
            key: key@,
            name: name@,
            children: ast_views(children@),
        },
        Ast::Array { key, types, children } => AstV::List {
            key: key@,
            types: type_view(types),
            children: ast_views(children@),
        },
    }
}

pub open spec fn ast_views(nodes: Seq<Ast>) -> Seq<AstV>
    decreases nodes,
{
    if nodes.len() == 0 {
        Seq::empty()
    } else {
        ast_views(nodes.drop_last()).push(ast_view(nodes.last()))
    }
}

/// Each node of the view sequence is the view of the node at the same index.
pub proof fn lemma_ast_views_index(nodes: Seq<Ast>)
    ensures
        ast_views(nodes).len() == nodes.len(),
        forall|i: int| 0 <= i < nodes.len() ==> ast_views(nodes)[i] == ast_view(#[trigger] nodes[i]),
    decreases nodes,
{
    if nodes.len() > 0 {
        lemma_ast_views_index(nodes.drop_last());
        assert forall|i: int| 0 <= i < nodes.len() implies ast_views(nodes)[i] == ast_view(
            #[trigger] nodes[i],
        ) by {
            if i < nodes.len() - 1 {
                assert(nodes.drop_last()[i] == nodes[i]);
            }
        }
    }
}

impl View for Ast {
    type V = AstV;

    open spec fn view(&self) -> AstV {
        ast_view(*self)
    }
}

/// Why inference failed.  Every failure is unrecoverable: the pipeline is an
/// all-or-nothing transform, and each error names the key path at which it was
/// detected.
///
/// `MissingOrUnreadableInput` is never produced by the pipeline itself: it is
/// offered so that the surrounding tooling can map a failed document read onto
/// the same fatal path as the inference errors.
#[derive(Debug)]
pub enum Error {
    UnsupportedScalarKind { path: String },
    HeterogeneousArray { path: String, expected: Type, found: Type },
    ReservedIdentifierConflict { path: String, name: String },
    NonMappingRoot,
    MissingOrUnreadableInput { path: String },
}

/// The mathematical model of an [`Error`].
#[verifier::ext_equal]
pub enum ErrorV {
    UnsupportedScalarKind { path: Seq<char> },
    HeterogeneousArray { path: Seq<char>, expected: TypeV, found: TypeV },
    ReservedIdentifierConflict { path: Seq<char>, name: Seq<char> },
    NonMappingRoot,
    MissingOrUnreadableInput { path: Seq<char> },
}

pub open spec fn error_view(e: Error) -> ErrorV {
    match e {
        Error::UnsupportedScalarKind { path } => ErrorV::UnsupportedScalarKind { path: path@ },
        Error::HeterogeneousArray { path, expected, found } => ErrorV::HeterogeneousArray {
            path: path@,
            expected: type_view(expected),
            found: type_view(found),
        },
        Error::ReservedIdentifierConflict { path, name } => ErrorV::ReservedIdentifierConflict {
            path: path@,
            name: name@,
        },
        Error::NonMappingRoot => ErrorV::NonMappingRoot,
        Error::MissingOrUnreadableInput { path } => ErrorV::MissingOrUnreadableInput { path: path@ },
    }
}

impl View for Error {
    type V = ErrorV;

    open spec fn view(&self) -> ErrorV {
        error_view(*self)
    }
}

/// The key a node was parsed under.
pub open spec fn ast_key(a: AstV) -> Seq<char> {
    match a {
        AstV::Int { key, .. } => key,
        AstV::Bool { key, .. } => key,
        AstV::Str { key, .. } => key,
        AstV::Real { key, .. } => key,
        AstV::Record { key, .. } => key,
        AstV::List { key, .. } => key,
    }
}

/// The inferred static type of a node.  A record's type lists one field per
/// child, in child order, each field carrying the child's key and type.
pub open spec fn ast_type(a: AstV) -> TypeV
    decreases a,
{
    match a {
        AstV::Int { .. } => TypeV::Integer,
        AstV::Bool { .. } => TypeV::Boolean,
        AstV::Str { .. } => TypeV::String,
        AstV::Real { .. } => TypeV::Real,
        AstV::Record { name, children, .. } => TypeV::Record {
            name,
            fields: field_types(children),
        },
        AstV::List { types, .. } => types,
    }
}

/// The field list of a record with the given children: one (key, type) pair
/// per child, in order.
pub open spec fn field_types(children: Seq<AstV>) -> Seq<(Seq<char>, TypeV)>
    decreases children,
{
    if children.len() == 0 {
        Seq::empty()
    } else {
        field_types(children.drop_last()).push(
            (ast_key(children.last()), ast_type(children.last())),
        )
    }
}

/// Each field of the field list belongs to the child at the same index.
pub proof fn lemma_field_types_index(children: Seq<AstV>)
    ensures
        field_types(children).len() == children.len(),
        forall|i: int|
            0 <= i < children.len() ==> field_types(children)[i] == (
            ast_key(#[trigger] children[i]),
            ast_type(children[i]),
            ),
    decreases children,
{
    if children.len() > 0 {
        lemma_field_types_index(children.drop_last());
        assert forall|i: int|
            0 <= i < children.len() implies field_types(children)[i] == (
        ast_key(#[trigger] children[i]),
        ast_type(children[i]),
        ) by {
            if i < children.len() - 1 {
                assert(children.drop_last()[i] == children[i]);
            }
        }
    }
}

/// An exact copy of a type.
#[verifier::loop_isolation(false)]
pub fn clone_type(t: &Type) -> (r: Type)
    ensures
        r@ == t@,
    decreases t,
{
    match t {
        Type::Empty => Type::Empty,
        Type::String => Type::String,
        Type::Real => Type::Real,
        Type::Integer => Type::Integer,
        Type::Boolean => Type::Boolean,
        Type::Record { name, fields } => {
            let mut copied: Vec<(String, Type)> = Vec::new();
            let mut i: usize = 0;
            while i < fields.len()
                invariant
                    i <= fields.len(),
                    field_views(copied@) == field_views(fields@.take(i as int)),
                decreases fields.len() - i,
            {
                let entry = (fields[i].0.clone(), clone_type(&fields[i].1));
                let ghost prev = copied@;
                copied.push(entry);
                proof {
                    assert(copied@.drop_last() =~= prev);
                    assert(fields@.take(i + 1 as int).drop_last() =~= fields@.take(i as int));
                    assert(fields@.take(i + 1 as int).last() == fields@[i as int]);
                }
                i += 1;
            }
            proof {
                assert(fields@.take(fields@.len() as int) =~= fields@);
            }
            Type::Record { name: name.clone(), fields: copied }
        },
        Type::List(elem, len) => Type::List(Box::new(clone_type(elem)), *len),
    }
}

/// Structural type equality: two types are equal exactly when their
/// mathematical models are.
#[verifier::loop_isolation(false)]
pub fn type_eq(a: &Type, b: &Type) -> (r: bool)
    ensures
        r == (a@ == b@),
    decreases a,
{
    match (a, b) {
        (Type::Empty, Type::Empty) => true,
        (Type::String, Type::String) => true,
        (Type::Real, Type::Real) => true,
        (Type::Integer, Type::Integer) => true,
        (Type::Boolean, Type::Boolean) => true,
        (
            Type::Record { name: an, fields: af },
            Type::Record { name: bn, fields: bf },
        ) => {
            proof {
                lemma_field_views_index(af@);
                lemma_field_views_index(bf@);
            }
            if !(*an == *bn) {
                false
            } else if af.len() != bf.len() {
                false
            } else {
                let mut i: usize = 0;
                let mut same: bool = true;
                while i < af.len()
                    invariant
                        i <= af.len(),
                        af.len() == bf.len(),
                        an@ == bn@,
                        field_views(af@).len() == af@.len(),
                        field_views(bf@).len() == bf@.len(),
                        forall|j: int|
                            0 <= j < af@.len() ==> #[trigger] field_views(af@)[j] == (
                            af@[j].0@,
                            type_view(af@[j].1),
                            ),
                        forall|j: int|
                            0 <= j < bf@.len() ==> #[trigger] field_views(bf@)[j] == (
                            bf@[j].0@,
                            type_view(bf@[j].1),
                            ),
                        same ==> forall|j: int|
                            0 <= j < i ==> #[trigger] field_views(af@)[j] == field_views(bf@)[j],
                        !same ==> field_views(af@) != field_views(bf@),
                    decreases af.len() - i,
                {
                    if same {
                        if !(af[i].0 == bf[i].0) {
                            same = false;
                        } else if !type_eq(&af[i].1, &bf[i].1) {
                            same = false;
                        }
                    }
                    i += 1;
                }
                proof {
                    if same {
                        assert(field_views(af@) =~= field_views(bf@));
                        assert(a@ =~= b@);
                    }
                }
                same
            }
        },
        (Type::List(ae, al), Type::List(be, bl)) => *al == *bl && type_eq(ae, be),
        _ => false,
    }
}

impl Ast {
    /// The key this node was parsed under.
    pub fn get_key(&self) -> (r: String)
        ensures
            r@ == ast_key(self@),
    {
        match self {
            Ast::Int { key, .. } => key.clone(),
            Ast::Bool { key, .. } => key.clone(),
            Ast::String { key, .. } => key.clone(),
            Ast::Real { key, .. } => key.clone(),
            Ast::HashTable { key, .. } => key.clone(),
            Ast::Array { key, .. } => key.clone(),
        }
    }

    /// The inferred static type of this node.
    #[verifier::loop_isolation(false)]
    pub fn get_type(&self) -> (r: Type)
        ensures
            r@ == ast_type(self@),
        decreases self,
    {
        match self {
            Ast::Int { .. } => Type::Integer,
            Ast::Bool { .. } => Type::Boolean,
            Ast::String { .. } => Type::String,
            Ast::Real { .. } => Type::Real,
            Ast::HashTable { name, children, .. } => {
                let ghost cv = ast_views(children@);
                proof {
                    lemma_ast_views_index(children@);
                }
                let mut fields: Vec<(String, Type)> = Vec::new();
                let mut i: usize = 0;
                while i < children.len()
                    invariant
                        i <= children.len(),
                        cv == ast_views(children@),
                        cv.len() == children@.len(),
                        forall|j: int|
                            0 <= j < children@.len() ==> cv[j] == ast_view(
                                #[trigger] children@[j],
                            ),
                        field_views(fields@) == field_types(cv.take(i as int)),
                    decreases children.len() - i,
                {
                    let child = &children[i];
                    let entry = (child.get_key(), child.get_type());
                    let ghost prev = fields@;
                    fields.push(entry);
                    proof {
                        assert(fields@.drop_last() =~= prev);
                        assert(cv.take(i + 1 as int).drop_last() =~= cv.take(i as int));
                        assert(cv.take(i + 1 as int).last() == cv[i as int]);
                    }
                    i += 1;
                }
                proof {
                    assert(cv.take(cv.len() as int) =~= cv);
                }
                Type::Record { name: name.clone(), fields }
            },
            Ast::Array { types, .. } => clone_type(types),
        }
    }

    /// The synthesized type name of a record node.
    pub fn get_type_name(&self) -> (r: String)
        requires
            self@ is Record,
        ensures
            r@ == self@->name,
    {
        match self {
            Ast::HashTable { name, .. } => name.clone(),
            _ => vstd::pervasive::unreached(),
        }
    }

    /// The literal text of a terminal node's value.
    pub fn get_value(&self) -> (r: String)
        requires
            self@ is Int || self@ is Bool || self@ is Str || self@ is Real,
        ensures
            r@ == leaf_literal(self@),
    {
        match self {
            Ast::Int { value, .. } => i64_to_dec(*value),
            Ast::Bool { value, .. } => if *value {
                "true".to_owned()
            } else {
                "false".to_owned()
            },
            Ast::String { value, .. } => quote_string(value.as_str()),
            Ast::Real { value, .. } => value.clone(),
            _ => vstd::pervasive::unreached(),
        }
    }
}

/// The view of a whole inference result.
pub open spec fn result_view(r: Result<Ast, Error>) -> Result<AstV, ErrorV> {
    match r {
        Ok(a) => Ok(ast_view(a)),
        Err(e) => Err(error_view(e)),
    }
}

} // verus!
