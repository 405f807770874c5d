use convert_case::{Case, Casing};
use vstd::prelude::*;
use vstd::string::StringExecFns;

use crate::types::{
    ast_key, ast_type, ast_views, lemma_ast_views_index, type_ref, Ast, AstV,
};
use crate::values::leaf_literal;

verus! {

/// A braced group: empty braces for empty contents, else the contents
/// surrounded by spaced braces.
pub open spec fn brace(inner: Seq<char>) -> Seq<char> {
    if inner.len() == 0 {
        "{}"@
    } else {
        "{ "@ + inner + " }"@
    }
}

/// One field of a struct declaration: the field name and its type reference.
pub open spec fn decl_field(c: AstV) -> Seq<char> {
    "pub "@ + ast_key(c) + ": "@ + type_ref(ast_type(c))
}

/// The comma-separated field list of a struct declaration, in child order.
pub open spec fn decl_fields(cs: Seq<AstV>) -> Seq<char>
    decreases cs,
{
    if cs.len() == 0 {
        Seq::empty()
    } else if cs.len() == 1 {
        decl_field(cs.last())
    } else {
        decl_fields(cs.drop_last()) + ", "@ + decl_field(cs.last())
    }
}

/// The struct declaration of a record node: its synthesized name and one
/// field per child, in child order.
pub open spec fn struct_decl(a: AstV) -> Seq<char> {
    match a {
        AstV::Record { name, children, .. } => "pub struct "@ + name + " "@ + brace(
            decl_fields(children),
        ) + "\n"@,
        _ => Seq::empty(),
    }
}

/// Every struct declaration reachable from a node: a record emits its own
/// declaration first, then its children's, in child order; a list emits the
/// declarations of its first element (all elements share one type); other
/// nodes emit nothing.  Each record of the tree is emitted exactly once
/// because each occurs at exactly one position.
pub open spec fn decls(a: AstV) -> Seq<char>
    decreases a,
{
    match a {
        AstV::Record { children, .. } => struct_decl(a) + child_decls(children),
        AstV::List { children, .. } => if children.len() > 0 {
            decls(children[0])
        } else {
            Seq::empty()
        },
        _ => Seq::empty(),
    }
}

pub open spec fn child_decls(cs: Seq<AstV>) -> Seq<char>
    decreases cs,
{
    if cs.len() == 0 {
        Seq::empty()
    } else {
        child_decls(cs.drop_last()) + decls(cs.last())
    }
}

/// The comma-separated field list of a record literal, in child order: each
/// field is its name, a colon, and its value expression.
pub open spec fn value_fields(cs: Seq<AstV>) -> Seq<char>
    decreases cs,
{
    if cs.len() == 0 {
        Seq::empty()
    } else if cs.len() == 1 {
        ast_key(cs.last()) + ": "@ + value_expr(cs.last())
    } else {
        value_fields(cs.drop_last()) + ", "@ + ast_key(cs.last()) + ": "@ + value_expr(cs.last())
    }
}

/// The comma-separated element list of an array literal, in element order.
pub open spec fn value_elems(cs: Seq<AstV>) -> Seq<char>
    decreases cs,
{
    if cs.len() == 0 {
        Seq::empty()
    } else if cs.len() == 1 {
        value_expr(cs.last())
    } else {
        value_elems(cs.drop_last()) + ", "@ + value_expr(cs.last())
    }
}

/// The literal expression of a node's value: scalars emit their literal
/// text, a record emits a struct literal whose fields follow child order,
/// and a list emits a fixed-size array literal of its elements in order.
pub open spec fn value_expr(a: AstV) -> Seq<char>
    decreases a,
{
    match a {
        AstV::Record { name, children, .. } => name + " "@ + brace(value_fields(children)),
        AstV::List { children, .. } => "["@ + value_elems(children) + "]"@,
        _ => leaf_literal(a),
    }
}

/// The uppercased form of the root name, as the case convention of the
/// target defines it.  It is a function of the characters alone; it is given
/// a name rather than a definition because only the case-conversion library
/// knows it.
pub uninterp spec fn upper_case(s: Seq<char>) -> Seq<char>;

/// Relies on `convert_case::Casing::to_case` with `Case::Upper`: yields the
/// uppercased form of the string, which depends on the characters alone.
#[verifier::external_body]
fn to_upper_case(s: &str) -> (r: String)
    ensures
        r@ == upper_case(s@),
{
    s.to_case(Case::Upper)
}

/// The constant declaration of the root instance: the uppercased root key as
/// the constant's name, the root record's type name, and the root's literal
/// value.
pub open spec fn const_decl(a: AstV) -> Seq<char> {
    match a {
        AstV::Record { key, name, .. } => "pub const "@ + upper_case(key) + ": "@ + name + " = "@
            + value_expr(a) + ";\n"@,
        _ => Seq::empty(),
    }
}

/// A braced group around the given contents.
pub fn braced(inner: String) -> (r: String)
    ensures
        r@ == brace(inner@),
{
    if inner.as_str().is_empty() {
        "{}".to_owned()
    } else {
        let mut s = "{ ".to_owned();
        s.append(inner.as_str());
        s.append(" }");
        s
    }
}

/// Emit every struct declaration reachable from this node.
#[verifier::loop_isolation(false)]
pub fn recurse_types(ast: &Ast) -> (r: String)
    ensures
        r@ == decls(ast@),
    decreases ast,
{
    match ast {
        Ast::HashTable { name, children, .. } => {
            let ghost cv = ast_views(children@);
            proof {
                lemma_ast_views_index(children@);
            }
            let mut fields = String::new();
            let mut i: usize = 0;
            while i < children.len()
                invariant
                    i <= children.len(),
                    fields@ == decl_fields(cv.take(i as int)),
                decreases children.len() - i,
            {
                proof {
                    assert(cv.take(i + 1 as int).drop_last() =~= cv.take(i as int));
                    assert(cv.take(i + 1 as int).last() == cv[i as int]);
                }
                if i > 0 {
                    fields.append(", ");
                }
                fields.append("pub ");
                fields.append(children[i].get_key().as_str());
                fields.append(": ");
                fields.append(children[i].get_type().to_syn_type().as_str());
                proof {
                    assert(fields@ =~= decl_fields(cv.take(i + 1 as int)));
                }
                i += 1;
            }
            proof {
                assert(cv.take(children@.len() as int) =~= cv);
            }
            let mut out = "pub struct ".to_owned();
            out.append(name.as_str());
            out.append(" ");
            out.append(braced(fields).as_str());
            out.append("\n");
            proof {
                assert(out@ =~= struct_decl(ast@));
            }
            let mut i: usize = 0;
            while i < children.len()
                invariant
                    i <= children.len(),
                    out@ == struct_decl(ast@) + child_decls(cv.take(i as int)),
                decreases children.len() - i,
            {
                proof {
                    assert(cv.take(i + 1 as int).drop_last() =~= cv.take(i as int));
                    assert(cv.take(i + 1 as int).last() == cv[i as int]);
                }
                out.append(recurse_types(&children[i]).as_str());
                proof {
                    assert(out@ =~= struct_decl(ast@) + child_decls(cv.take(i + 1 as int)));
                }
                i += 1;
            }
            proof {
                assert(cv.take(children@.len() as int) =~= cv);
            }
            out
        },
        Ast::Array { children, .. } => {
            proof {
                lemma_ast_views_index(children@);
            }
            if children.len() > 0 {
                recurse_types(&children[0])
            } else {
                String::new()
            }
        },
        _ => String::new(),
    }
}

/// Emit the struct declarations of a whole typed syntax tree.
pub fn create_types(ast: &Ast) -> (r: String)
    ensures
        r@ == decls(ast@),
{
    recurse_types(ast)
}

/// Emit the literal expression of a node's value.
#[verifier::loop_isolation(false)]
pub fn recurse_struct(ast: &Ast) -> (r: String)
    ensures
        r@ == value_expr(ast@),
    decreases ast,
{
    match ast {
        Ast::HashTable { name, children, .. } => {
            let ghost cv = ast_views(children@);
            proof {
                lemma_ast_views_index(children@);
            }
            let mut fields = String::new();
            let mut i: usize = 0;
            while i < children.len()
                invariant
                    i <= children.len(),
                    fields@ == value_fields(cv.take(i as int)),
                decreases children.len() - i,
            {
                proof {
                    assert(cv.take(i + 1 as int).drop_last() =~= cv.take(i as int));
                    assert(cv.take(i + 1 as int).last() == cv[i as int]);
                }
                if i > 0 {
                    fields.append(", ");
                }
                fields.append(children[i].get_key().as_str());
                fields.append(": ");
                fields.append(recurse_struct(&children[i]).as_str());
                proof {
                    assert(fields@ =~= value_fields(cv.take(i + 1 as int)));
                }
                i += 1;
            }
            proof {
                assert(cv.take(children@.len() as int) =~= cv);
            }
            let mut out = name.clone();
            out.append(" ");
            out.append(braced(fields).as_str());
            proof {
                assert(out@ =~= value_expr(ast@));
            }
            out
        },
        Ast::Array { children, .. } => {
            let ghost cv = ast_views(children@);
            proof {
                lemma_ast_views_index(children@);
            }
            let mut elems = String::new();
            let mut i: usize = 0;
            while i < children.len()
                invariant
                    i <= children.len(),
                    elems@ == value_elems(cv.take(i as int)),
                decreases children.len() - i,
            {
                proof {
                    assert(cv.take(i + 1 as int).drop_last() =~= cv.take(i as int));
                    assert(cv.take(i + 1 as int).last() == cv[i as int]);
                }
                if i > 0 {
                    elems.append(", ");
                }
                elems.append(recurse_struct(&children[i]).as_str());
                proof {
                    assert(elems@ =~= value_elems(cv.take(i + 1 as int)));
                }
                i += 1;
            }
            proof {
                assert(cv.take(children@.len() as int) =~= cv);
            }
            let mut out = "[".to_owned();
            out.append(elems.as_str());
            out.append("]");
            proof {
                assert(out@ =~= value_expr(ast@));
            }
            out
        },
        _ => ast.get_value(),
    }
}

/// Emit the constant declaration of the root instance.
pub fn create_struct(ast: &Ast) -> (r: String)
    requires
        ast@ is Record,
    ensures
        r@ == const_decl(ast@),
{
    let mut out = "pub const ".to_owned();
    out.append(to_upper_case(ast.get_key().as_str()).as_str());
    out.append(": ");
    out.append(ast.get_type_name().as_str());
    out.append(" = ");
    out.append(recurse_struct(ast).as_str());
    out.append(";\n");
    proof {
        assert(out@ =~= const_decl(ast@));
    }
    out
}

impl Ast {
    /// Emit the generated code of a whole typed syntax tree: every struct
    /// declaration, followed by the constant declaration of the root
    /// instance.
    pub fn to_rust(&self) -> (r: String)
        requires
            self@ is Record,
        ensures
            r@ == decls(self@) + const_decl(self@),
    {
        let mut out = create_types(self);
        out.append(create_struct(self).as_str());
        out
    }
}

} // verus!
