use vstd::prelude::*;

use crate::code_generation::{const_decl, decls, value_expr};
use crate::semantic_analysis::{
    build_elems, build_fields, build_node, build_root, normalize, reserved_word,
};
use crate::types::{ast_key, ast_type, lemma_field_types_index, AstV, ErrorV, TypeV, YamlV};

verus! {

/// The document that a typed syntax tree carries: the same shape, with the
/// inferred types stripped away.
pub open spec fn ast_to_yaml(a: AstV) -> YamlV
    decreases a,
{
    match a {
        AstV::Int { value, .. } => YamlV::Int(value),
        AstV::Bool { value, .. } => YamlV::Bool(value),
        AstV::Str { value, .. } => YamlV::Str(value),
        AstV::Real { value, .. } => YamlV::Real(value),
        AstV::Record { children, .. } => YamlV::Hash(entries_of(children)),
        AstV::List { children, .. } => YamlV::Arr(elems_of(children)),
    }
}

pub open spec fn entries_of(cs: Seq<AstV>) -> Seq<(YamlV, YamlV)>
    decreases cs,
{
    if cs.len() == 0 {
        Seq::empty()
    } else {
        entries_of(cs.drop_last()).push(
            (YamlV::Str(ast_key(cs.last())), ast_to_yaml(cs.last())),
        )
    }
}

pub open spec fn elems_of(cs: Seq<AstV>) -> Seq<YamlV>
    decreases cs,
{
    if cs.len() == 0 {
        Seq::empty()
    } else {
        elems_of(cs.drop_last()).push(ast_to_yaml(cs.last()))
    }
}

/// Round trip: a typed syntax tree that inference accepts carries exactly
/// the document it was built from — field by field, element by element — and
/// keeps the key it was found under.  The value literal is emitted from that
/// tree node by node, so the emitted value reproduces the document's data
/// and shape.
pub proof fn lemma_round_trip(path: Seq<char>, key: Seq<char>, y: YamlV, a: AstV)
    requires
        build_node(path, key, y) == Ok::<AstV, ErrorV>(a),
    ensures
        ast_to_yaml(a) == y,
        ast_key(a) == key,
    decreases y,
{
    match y {
        YamlV::Hash(entries) => {
            let r = build_fields(normalize(path, key), entries);
            lemma_round_trip_fields(normalize(path, key), entries, r->Ok_0);
        },
        YamlV::Arr(items) => {
            let r = build_elems(normalize(path, key), items);
            lemma_round_trip_elems(normalize(path, key), items, r->Ok_0);
        },
        _ => {},
    }
}

/// Round trip for a mapping's entries: the accepted children carry exactly
/// the entries they were built from, keys included.
pub proof fn lemma_round_trip_fields(p: Seq<char>, entries: Seq<(YamlV, YamlV)>, cs: Seq<AstV>)
    requires
        build_fields(p, entries) == Ok::<Seq<AstV>, ErrorV>(cs),
    ensures
        entries_of(cs) == entries,
    decreases entries,
{
    if entries.len() == 0 {
        assert(entries_of(cs) =~= entries);
    } else {
        let built = build_fields(p, entries.drop_last())->Ok_0;
        let entry = entries.last();
        let k = entry.0->Str_0;
        let a = build_node(p, k, entry.1)->Ok_0;
        assert(cs == built.push(a));
        assert(cs.drop_last() =~= built);
        lemma_round_trip_fields(p, entries.drop_last(), built);
        lemma_round_trip(p, k, entry.1, a);
        assert(entries_of(cs) =~= entries);
    }
}

/// Round trip for a sequence's elements: the accepted children carry exactly
/// the elements they were built from, in order.
pub proof fn lemma_round_trip_elems(p: Seq<char>, items: Seq<YamlV>, cs: Seq<AstV>)
    requires
        build_elems(p, items) == Ok::<Seq<AstV>, ErrorV>(cs),
    ensures
        elems_of(cs) == items,
    decreases items,
{
    if items.len() == 0 {
        assert(elems_of(cs) =~= items);
    } else {
        let built = build_elems(p, items.drop_last())->Ok_0;
        let a = build_node(p, Seq::empty(), items.last())->Ok_0;
        assert(cs == built.push(a));
        assert(cs.drop_last() =~= built);
        lemma_round_trip_elems(p, items.drop_last(), built);
        lemma_round_trip(p, Seq::empty(), items.last(), a);
        assert(elems_of(cs) =~= items);
    }
}

/// Field-order correspondence: in a record node, the field names of the
/// declared record type equal, in order, the keys of the children — and the
/// value literal emits exactly those children, in that order.
pub proof fn lemma_field_order(a: AstV)
    requires
        a is Record,
    ensures
        ast_type(a)->fields.len() == a->Record_children.len(),
        forall|i: int|
            0 <= i < a->Record_children.len() ==> ast_type(a)->fields[i].0 == ast_key(
                #[trigger] a->Record_children[i],
            ),
{
    lemma_field_types_index(a->Record_children);
}

/// Naming determinism: inference and emission are functions of the root name
/// and the document alone, so two runs on the same pair yield the same typed
/// tree — type names and constant name included — and the same emitted text.
pub proof fn lemma_pipeline_deterministic(name: Seq<char>, y: YamlV, a1: AstV, a2: AstV)
    requires
        build_root(name, y) == Ok::<AstV, ErrorV>(a1),
        build_root(name, y) == Ok::<AstV, ErrorV>(a2),
    ensures
        a1 == a2,
        decls(a1) + const_decl(a1) == decls(a2) + const_decl(a2),
{
}

/// A sequence whose elements all build, with every element's inferred type
/// equal to the first element's, unifies: it builds, one child per element,
/// and the children are exactly the elements' nodes.
pub proof fn lemma_homogeneous_array_accepted(p: Seq<char>, items: Seq<YamlV>)
    requires
        forall|i: int|
            0 <= i < items.len() ==> (#[trigger] build_node(p, Seq::empty(), items[i])) is Ok,
        forall|i: int|
            0 <= i < items.len() ==> ast_type(
                (#[trigger] build_node(p, Seq::empty(), items[i]))->Ok_0,
            ) == ast_type(build_node(p, Seq::empty(), items[0])->Ok_0),
    ensures
        build_elems(p, items) is Ok,
        build_elems(p, items)->Ok_0.len() == items.len(),
        forall|i: int|
            0 <= i < items.len() ==> #[trigger] build_elems(p, items)->Ok_0[i] == build_node(
                p,
                Seq::empty(),
                items[i],
            )->Ok_0,
    decreases items,
{
    if items.len() > 0 {
        assert forall|i: int| 0 <= i < items.len() - 1 implies items.drop_last()[i] == items[i] by {}
        lemma_homogeneous_array_accepted(p, items.drop_last());
        let built = build_elems(p, items.drop_last())->Ok_0;
        let a = build_node(p, Seq::empty(), items.last())->Ok_0;
        if built.len() > 0 {
            assert(built[0] == build_node(p, Seq::empty(), items[0])->Ok_0);
            assert(ast_type(a) == ast_type(built[0]));
        }
        assert(build_elems(p, items) == Ok::<Seq<AstV>, ErrorV>(built.push(a)));
    }
}

/// A sequence whose elements all build, but where some element's inferred
/// type differs from the first element's, is rejected as heterogeneous.
pub proof fn lemma_heterogeneous_array_rejected(p: Seq<char>, items: Seq<YamlV>)
    requires
        forall|i: int|
            0 <= i < items.len() ==> (#[trigger] build_node(p, Seq::empty(), items[i])) is Ok,
        exists|i: int|
            0 <= i < items.len() && ast_type(
                (#[trigger] build_node(p, Seq::empty(), items[i]))->Ok_0,
            ) != ast_type(build_node(p, Seq::empty(), items[0])->Ok_0),
    ensures
        build_elems(p, items) is Err,
        build_elems(p, items)->Err_0 is HeterogeneousArray,
    decreases items,
{
    assert(items.len() > 0);
    assert forall|i: int| 0 <= i < items.len() - 1 implies items.drop_last()[i] == items[i] by {}
    if exists|i: int|
        0 <= i < items.len() - 1 && ast_type(
            (#[trigger] build_node(p, Seq::empty(), items[i]))->Ok_0,
        ) != ast_type(build_node(p, Seq::empty(), items[0])->Ok_0) {
        lemma_heterogeneous_array_rejected(p, items.drop_last());
    } else {
        // only the last element's type differs from the first's
        lemma_homogeneous_array_accepted(p, items.drop_last());
        let built = build_elems(p, items.drop_last())->Ok_0;
        let a = build_node(p, Seq::empty(), items.last())->Ok_0;
        assert(ast_type(a) != ast_type(build_node(p, Seq::empty(), items[0])->Ok_0));
        assert(built.len() == items.len() - 1 > 0);
        assert(built[0] == build_node(p, Seq::empty(), items[0])->Ok_0);
    }
}

/// An empty sequence always builds: it infers the list type with the empty
/// element type and length zero, and its value literal is the empty array
/// literal.
pub proof fn lemma_empty_array(path: Seq<char>, key: Seq<char>)
    ensures
        build_node(path, key, YamlV::Arr(Seq::empty())) == Ok::<AstV, ErrorV>(
            AstV::List {
                key,
                types: TypeV::List(Box::new(TypeV::Empty), 0),
                children: Seq::empty(),
            },
        ),
        value_expr(
            AstV::List { key, types: TypeV::List(Box::new(TypeV::Empty), 0), children: Seq::empty() },
        ) == "[]"@,
{
    reveal_strlit("[");
    reveal_strlit("]");
    reveal_strlit("[]");
    assert(value_expr(
        AstV::List { key, types: TypeV::List(Box::new(TypeV::Empty), 0), children: Seq::empty() },
    ) =~= "[]"@);
}

/// Sibling independence: a mapping's entries are inferred one by one and a
/// field never constrains a sibling, so a mapping builds exactly when each
/// of its entries does — in particular, an empty-array field never causes a
/// mismatch against a sibling field of an unrelated type.
pub proof fn lemma_mapping_fields_independent(p: Seq<char>, entries: Seq<(YamlV, YamlV)>)
    requires
        forall|i: int|
            0 <= i < entries.len() ==> (#[trigger] entries[i].0) is Str && entries[i].0->Str_0
                != reserved_word() && build_node(p, entries[i].0->Str_0, entries[i].1) is Ok,
    ensures
        build_fields(p, entries) is Ok,
        build_fields(p, entries)->Ok_0.len() == entries.len(),
        forall|i: int|
            0 <= i < entries.len() ==> #[trigger] build_fields(p, entries)->Ok_0[i] == build_node(
                p,
                entries[i].0->Str_0,
                entries[i].1,
            )->Ok_0,
    decreases entries,
{
    if entries.len() > 0 {
        assert forall|i: int|
            0 <= i < entries.len() - 1 implies entries.drop_last()[i] == entries[i] by {}
        lemma_mapping_fields_independent(p, entries.drop_last());
        let built = build_fields(p, entries.drop_last())->Ok_0;
        let a = build_node(p, entries.last().0->Str_0, entries.last().1)->Ok_0;
        assert(build_fields(p, entries) == Ok::<Seq<AstV>, ErrorV>(built.push(a)));
    }
}

} // verus!
