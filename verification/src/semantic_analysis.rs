use vstd::prelude::*;
use vstd::string::StrSliceExecFns;
use vstd::string::StringExecFns;

use crate::types::{
    ast_type, ast_views, lemma_ast_views_index, lemma_yaml_entry_views_index,
    lemma_yaml_views_index, result_view, type_eq, yaml_entry_views, yaml_views, Ast, AstV, Error,
    ErrorV, Type, TypeV, Yaml, YamlV,
};
use crate::utils::is_terminal;

verus! {

/// The Unicode uppercase mapping of one character.  It is a function of the
/// character alone; it is given a name rather than a definition because only
/// the standard library knows it.
pub uninterp spec fn upper_char(c: char) -> Seq<char>;

/// Relies on `char::to_uppercase`: yields the Unicode uppercase mapping of
/// the character, which depends on the character alone.
#[verifier::external_body]
fn char_to_uppercase(c: char) -> (r: String)
    ensures
        r@ == upper_char(c),
{
    c.to_uppercase().collect()
}

/// A key with its first character uppercased and the rest unchanged.
pub open spec fn cap_first(s: Seq<char>) -> Seq<char> {
    if s.len() == 0 {
        s
    } else {
        upper_char(s[0]) + s.drop_first()
    }
}

/// Uppercase the first character of a key, leaving the rest unchanged.
pub fn capitalise_first(s: &str) -> (r: String)
    ensures
        r@ == cap_first(s@),
{
    let n = s.unicode_len();
    if n == 0 {
        let r = String::new();
        proof {
            assert(r@ =~= s@);
        }
        r
    } else {
        let first = s.get_char(0);
        let mut r = char_to_uppercase(first);
        r.append(s.substring_char(1, n));
        proof {
            assert(s@.subrange(1, n as int) =~= s@.drop_first());
        }
        r
    }
}

/// The derived-name accumulator: entering a node whose key is `key` extends
/// the path by the capitalized key.
pub open spec fn normalize(path: Seq<char>, key: Seq<char>) -> Seq<char> {
    path + cap_first(key)
}

/// The field name that the target representation reserves: a mapping key
/// equal to it cannot become a field.
pub open spec fn reserved_word() -> Seq<char> {
    "type"@
}

/// What inference makes of one document node found under `key`, with `path`
/// the derived-name accumulator of its parent.
///
/// Scalars become terminal nodes.  A mapping becomes a record whose children
/// are its entries in order and whose type name is the extended path; an
/// entry is rejected if its key is not a string or is the reserved word, and
/// entries are examined left to right, each key before its value.  A sequence
/// becomes a fixed-length list; its elements are inferred under the same
/// extended path with an empty key, and every element's type must equal the
/// first element's.  The first failure, in traversal order, is the result.
pub open spec fn build_node(path: Seq<char>, key: Seq<char>, y: YamlV) -> Result<AstV, ErrorV>
    decreases y,
{
    let p = normalize(path, key);
    match y {
        YamlV::Str(s) => Ok(AstV::Str { key, value: s }),
        YamlV::Real(r) => Ok(AstV::Real { key, value: r }),
        YamlV::Int(i) => Ok(AstV::Int { key, value: i }),
        YamlV::Bool(b) => Ok(AstV::Bool { key, value: b }),
        YamlV::Unsupported => Err(ErrorV::UnsupportedScalarKind { path: p }),
        YamlV::Hash(entries) => match build_fields(p, entries) {
            Ok(children) => Ok(AstV::Record { key, name: p, children }),
            Err(e) => Err(e),
        },
        YamlV::Arr(items) => match build_elems(p, items) {
            Ok(children) => Ok(
                AstV::List {
                    key,
                    types: TypeV::List(
                        Box::new(
                            if children.len() == 0 {
                                TypeV::Empty
                            } else {
                                ast_type(children[0])
                            },
                        ),
                        children.len(),
                    ),
                    children,
                },
            ),
            Err(e) => Err(e),
        },
    }
}

/// The children of a record at path `p`, built from the mapping's entries in
/// order; or the first failure.
pub open spec fn build_fields(p: Seq<char>, entries: Seq<(YamlV, YamlV)>) -> Result<
    Seq<AstV>,
    ErrorV,
>
    decreases entries,
{
    if entries.len() == 0 {
        Ok(Seq::empty())
    } else {
        match build_fields(p, entries.drop_last()) {
            Err(e) => Err(e),
            Ok(built) => {
                let entry = entries.last();
                match entry.0 {
                    YamlV::Str(k) => if k == reserved_word() {
                        Err(ErrorV::ReservedIdentifierConflict { path: p, name: k })
                    } else {
                        match build_node(p, k, entry.1) {
                            Ok(a) => Ok(built.push(a)),
                            Err(e) => Err(e),
                        }
                    },
                    _ => Err(ErrorV::UnsupportedScalarKind { path: p }),
                }
            },
        }
    }
}

/// The elements of a list at path `p`, built in order, each checked against
/// the first element's type; or the first failure.
pub open spec fn build_elems(p: Seq<char>, items: Seq<YamlV>) -> Result<Seq<AstV>, ErrorV>
    decreases items,
{
    if items.len() == 0 {
        Ok(Seq::empty())
    } else {
        match build_elems(p, items.drop_last()) {
            Err(e) => Err(e),
            Ok(built) => match build_node(p, Seq::empty(), items.last()) {
                Err(e) => Err(e),
                Ok(a) => if built.len() == 0 || ast_type(a) == ast_type(built[0]) {
                    Ok(built.push(a))
                } else {
                    Err(
                        ErrorV::HeterogeneousArray {
                            path: p,
                            expected: ast_type(built[0]),
                            found: ast_type(a),
                        },
                    )
                },
            },
        }
    }
}

/// What inference makes of a whole document: the root must be a mapping, and
/// is then built under the root name with an empty path.
pub open spec fn build_root(name: Seq<char>, y: YamlV) -> Result<AstV, ErrorV> {
    if y is Hash {
        build_node(Seq::empty(), name, y)
    } else {
        Err(ErrorV::NonMappingRoot)
    }
}

/// Once a prefix of the entries fails, the whole mapping fails the same way.
pub proof fn lemma_build_fields_err_prefix(p: Seq<char>, entries: Seq<(YamlV, YamlV)>, n: int)
    requires
        0 <= n <= entries.len(),
        build_fields(p, entries.take(n)) is Err,
    ensures
        build_fields(p, entries) == build_fields(p, entries.take(n)),
    decreases entries.len(),
{
    if n == entries.len() {
        assert(entries.take(n) =~= entries);
    } else {
        assert(entries.drop_last().take(n) =~= entries.take(n));
        lemma_build_fields_err_prefix(p, entries.drop_last(), n);
    }
}

/// Once a prefix of the elements fails, the whole sequence fails the same way.
pub proof fn lemma_build_elems_err_prefix(p: Seq<char>, items: Seq<YamlV>, n: int)
    requires
        0 <= n <= items.len(),
        build_elems(p, items.take(n)) is Err,
    ensures
        build_elems(p, items) == build_elems(p, items.take(n)),
    decreases items.len(),
{
    if n == items.len() {
        assert(items.take(n) =~= items);
    } else {
        assert(items.drop_last().take(n) =~= items.take(n));
        lemma_build_elems_err_prefix(p, items.drop_last(), n);
    }
}

/// Infer the typed syntax tree of one document node.
///
/// `path` is the derived-name accumulator of the parent and `key` the key the
/// node was found under; the result is exactly what [`build_node`] states.
pub fn parse(path: &str, key: &str, value: &Yaml) -> (r: Result<Ast, Error>)
    ensures
        result_view(r) == build_node(path@, key@, value@),
    decreases value,
{
    let mut p = path.to_owned();
    p.append(capitalise_first(key).as_str());
    match value {
        Yaml::Hash(entries) => parse_hashtable(p, key, entries),
        Yaml::Array(items) => parse_array(p, key, items),
        Yaml::Unsupported => Err(Error::UnsupportedScalarKind { path: p }),
        _ => Ok(parse_terminal(key, value)),
    }
}

/// Infer a record node from a mapping's entries.
///
/// `p` is the already-extended path, which becomes the record's type name.
/// Entries are taken in order; an entry whose key is not a string or is the
/// reserved word is rejected before its value is examined.
#[verifier::loop_isolation(false)]
fn parse_hashtable(p: String, key: &str, entries: &Vec<(Yaml, Yaml)>) -> (r: Result<Ast, Error>)
    ensures
        result_view(r) == (match build_fields(p@, yaml_entry_views(entries@)) {
            Ok(children) => Ok::<AstV, ErrorV>(
                AstV::Record { key: key@, name: p@, children },
            ),
            Err(e) => Err::<AstV, ErrorV>(e),
        }),
    decreases entries,
{
    let ghost pg = p@;
    let ghost ev = yaml_entry_views(entries@);
    proof {
        lemma_yaml_entry_views_index(entries@);
    }
    let mut children: Vec<Ast> = Vec::new();
    let mut i: usize = 0;
    while i < entries.len()
        invariant
            i <= entries.len(),
            build_fields(p@, ev.take(i as int)) == Ok::<Seq<AstV>, ErrorV>(ast_views(children@)),
        decreases entries.len() - i,
    {
        proof {
            assert(ev.take(i + 1 as int).drop_last() =~= ev.take(i as int));
            assert(ev.take(i + 1 as int).last() == ev[i as int]);
        }
        match &entries[i].0 {
            Yaml::String(ks) => {
                if *ks == "type".to_owned() {
                    let e = Error::ReservedIdentifierConflict { path: p, name: ks.clone() };
                    proof {
                        lemma_build_fields_err_prefix(pg, ev, i + 1 as int);
                    }
                    return Err(e);
                }
                let child = parse(p.as_str(), ks.as_str(), &entries[i].1);
                match child {
                    Ok(a) => {
                        let ghost prev = children@;
                        children.push(a);
                        proof {
                            assert(children@.drop_last() =~= prev);
                        }
                    },
                    Err(e) => {
                        proof {
                            lemma_build_fields_err_prefix(pg, ev, i + 1 as int);
                        }
                        return Err(e);
                    },
                }
            },
            _ => {
                let e = Error::UnsupportedScalarKind { path: p };
                proof {
                    lemma_build_fields_err_prefix(pg, ev, i + 1 as int);
                }
                return Err(e);
            },
        }
        i += 1;
    }
    proof {
        assert(ev.take(entries@.len() as int) =~= ev);
    }
    Ok(Ast::HashTable { key: key.to_owned(), name: p, children })
}

/// Infer a list node from a sequence's elements.
///
/// `p` is the already-extended path; elements are inferred under it with an
/// empty key, so they do not extend the naming path.  Every element's type
/// must equal the first element's; an empty sequence infers the empty
/// element type with length zero.
#[verifier::loop_isolation(false)]
fn parse_array(p: String, key: &str, items: &Vec<Yaml>) -> (r: Result<Ast, Error>)
    ensures
        result_view(r) == (match build_elems(p@, yaml_views(items@)) {
            Ok(children) => Ok::<AstV, ErrorV>(
                AstV::List {
                    key: key@,
                    types: TypeV::List(
                        Box::new(
                            if children.len() == 0 {
                                TypeV::Empty
                            } else {
                                ast_type(children[0])
                            },
                        ),
                        children.len(),
                    ),
                    children,
                },
            ),
            Err(e) => Err::<AstV, ErrorV>(e),
        }),
    decreases items,
{
    let ghost pg = p@;
    let ghost iv = yaml_views(items@);
    proof {
        lemma_yaml_views_index(items@);
        reveal_strlit("");
        assert(""@ =~= Seq::<char>::empty());
    }
    let mut children: Vec<Ast> = Vec::new();
    let mut i: usize = 0;
    while i < items.len()
        invariant
            i <= items.len(),
            children@.len() == i,
            build_elems(p@, iv.take(i as int)) == Ok::<Seq<AstV>, ErrorV>(ast_views(children@)),
        decreases items.len() - i,
    {
        proof {
            assert(iv.take(i + 1 as int).drop_last() =~= iv.take(i as int));
            assert(iv.take(i + 1 as int).last() == iv[i as int]);
            lemma_ast_views_index(children@);
        }
        let child = parse(p.as_str(), "", &items[i]);
        match child {
            Err(e) => {
                proof {
                    lemma_build_elems_err_prefix(pg, iv, i + 1 as int);
                }
                return Err(e);
            },
            Ok(a) => {
                if children.len() > 0 {
                    let t0 = children[0].get_type();
                    let ta = a.get_type();
                    if !type_eq(&ta, &t0) {
                        let e = Error::HeterogeneousArray { path: p, expected: t0, found: ta };
                        proof {
                            lemma_build_elems_err_prefix(pg, iv, i + 1 as int);
                        }
                        return Err(e);
                    }
                }
                let ghost prev = children@;
                children.push(a);
                proof {
                    assert(children@.drop_last() =~= prev);
                }
            },
        }
        i += 1;
    }
    proof {
        assert(iv.take(items@.len() as int) =~= iv);
        lemma_ast_views_index(children@);
    }
    let types: Type = if children.len() == 0 {
        Type::List(Box::new(Type::Empty), 0)
    } else {
        Type::List(Box::new(children[0].get_type()), children.len())
    };
    Ok(Ast::Array { key: key.to_owned(), types, children })
}

/// Infer a terminal node from a supported scalar, keeping its key and value.
fn parse_terminal(key: &str, value: &Yaml) -> (r: Ast)
    requires
        is_terminal(value@),
    ensures
        r@ == (match value@ {
            YamlV::Str(s) => AstV::Str { key: key@, value: s },
            YamlV::Real(t) => AstV::Real { key: key@, value: t },
            YamlV::Int(i) => AstV::Int { key: key@, value: i },
            YamlV::Bool(b) => AstV::Bool { key: key@, value: b },
            _ => r@,
        }),
{
    match value {
        Yaml::String(s) => Ast::String { key: key.to_owned(), value: s.clone() },
        Yaml::Real(t) => Ast::Real { key: key.to_owned(), value: t.clone() },
        Yaml::Integer(i) => Ast::Int { key: key.to_owned(), value: *i },
        Yaml::Boolean(b) => Ast::Bool { key: key.to_owned(), value: *b },
        _ => vstd::pervasive::unreached(),
    }
}

} // verus!
