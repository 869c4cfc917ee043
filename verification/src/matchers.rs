//! The shapes that both passes look for: free references, `require` and
//! `import` calls, static member accesses, `module.exports`.

use crate::tables::{is_word, IdentId, IdentKey, KeySet};
use crate::tree::{copy_marks, lemma_children, Kind, Node, Tree};
use vstd::prelude::*;

verus! {

/// The mark that no context carries.
pub open spec fn root_mark() -> u32 {
    0
}

/// The identity of the identifier that a node holds.
pub open spec fn key_of(t: Tree) -> IdentKey {
    IdentKey { sym: t.sym, ctxt: t.ctxt }
}

/// Whether the node's identifier is bound by none of the declarations.
pub open spec fn is_free(t: Tree, decls: Set<IdentKey>) -> bool {
    !decls.contains(key_of(t))
}

/// Whether a context carries the mark. The marks are read from the innermost
/// outwards, up to the first root mark.
pub open spec fn is_marked(ctxt: Seq<u32>, mark: u32) -> bool
    decreases ctxt.len(),
{
    if ctxt.len() == 0 {
        false
    } else if ctxt.last() == root_mark() {
        false
    } else if ctxt.last() == mark {
        true
    } else {
        is_marked(ctxt.drop_last(), mark)
    }
}

/// Whether the node is a member access with its two children.
pub open spec fn is_member(t: Tree) -> bool {
    (t.kind == Kind::Member || t.kind == Kind::Index) && t.children.len() == 2
}

/// The key of a member access, where it is known statically: the property's name
/// in `obj.name`, the string in `obj["name"]`.
pub open spec fn static_key(t: Tree) -> Option<Seq<char>> {
    if !is_member(t) {
        None
    } else if t.children[1].kind == Kind::Ident && t.kind == Kind::Member {
        Some(t.children[1].sym)
    } else if t.children[1].kind == Kind::Str {
        Some(t.children[1].sym)
    } else {
        None
    }
}

/// Whether the node is `module.exports` or `module["exports"]`, with `module` free.
pub open spec fn is_module_exports(t: Tree, decls: Set<IdentKey>) -> bool {
    &&& static_key(t) == Some("exports"@)
    &&& t.children[0].kind == Kind::Ident
    &&& t.children[0].sym == "module"@
    &&& is_free(t.children[0], decls)
}

/// Whether the node is `exports`, free.
pub open spec fn is_free_exports(t: Tree, decls: Set<IdentKey>) -> bool {
    t.kind == Kind::Ident && t.sym == "exports"@ && is_free(t, decls)
}

/// The expression of an argument: what is spread, for a spread argument.
pub open spec fn unspread(t: Tree) -> Tree {
    if t.kind == Kind::Spread && t.children.len() == 1 {
        t.children[0]
    } else {
        t
    }
}

/// The string literal that a call has as its sole argument, if it has one.
pub open spec fn first_string_argument(t: Tree) -> Option<Seq<char>> {
    if t.children.len() == 2 && unspread(t.children[1]).kind == Kind::Str {
        Some(unspread(t.children[1]).sym)
    } else {
        None
    }
}

/// The source of a call `require(source)`: the callee is the free, unmarked
/// identifier `require` and the sole argument is a string literal.
pub open spec fn require_source(t: Tree, decls: Set<IdentKey>, ignore_mark: u32) -> Option<
    Seq<char>,
> {
    if t.kind == Kind::Call && t.children.len() >= 1 && t.children[0].kind == Kind::Ident
        && t.children[0].sym == "require"@ && is_free(t.children[0], decls) && !is_marked(
        t.children[0].ctxt,
        ignore_mark,
    ) {
        first_string_argument(t)
    } else {
        None
    }
}

/// The source of a call `import(source)`: the callee is the unmarked identifier
/// `import` and the sole argument is a string literal.
pub open spec fn import_source(t: Tree, ignore_mark: u32) -> Option<Seq<char>> {
    if t.kind == Kind::Call && t.children.len() >= 1 && t.children[0].kind == Kind::Ident
        && t.children[0].sym == "import"@ && !is_marked(t.children[0].ctxt, ignore_mark) {
        first_string_argument(t)
    } else {
        None
    }
}

/// Whether some property of an object pattern, from number `i` on, binds the free
/// name `sym`.
pub open spec fn props_bind(t: Tree, i: int, sym: Seq<char>, decls: Set<IdentKey>) -> bool
    decreases t, t.children.len() - i,
{
    if 0 <= i < t.children.len() {
        let p = t.children[i];
        let here = if p.kind == Kind::KeyValuePat && p.children.len() == 2 {
            binds(p.children[1], sym, decls)
        } else if p.kind == Kind::AssignPatProp {
            p.sym == sym && is_free(p, decls)
        } else if p.kind == Kind::RestPatProp && p.children.len() >= 1 {
            binds(p.children[0], sym, decls)
        } else {
            false
        };
        here || props_bind(t, i + 1, sym, decls)
    } else {
        false
    }
}

/// Whether some element of an array pattern, from number `i` on, binds the free
/// name `sym`.
pub open spec fn elems_bind(t: Tree, i: int, sym: Seq<char>, decls: Set<IdentKey>) -> bool
    decreases t, t.children.len() - i,
{
    if 0 <= i < t.children.len() {
        binds(t.children[i], sym, decls) || elems_bind(t, i + 1, sym, decls)
    } else {
        false
    }
}

/// Whether a pattern binds the free name `sym`: as an identifier, in a property
/// of an object pattern, in an element of an array pattern, under a default, or
/// under a rest.
pub open spec fn binds(t: Tree, sym: Seq<char>, decls: Set<IdentKey>) -> bool
    decreases t, t.children.len() + 1,
{
    if t.kind == Kind::BindingIdent {
        t.sym == sym && is_free(t, decls)
    } else if t.kind == Kind::ObjectPat {
        props_bind(t, 0, sym, decls)
    } else if t.kind == Kind::ArrayPat {
        elems_bind(t, 0, sym, decls)
    } else if (t.kind == Kind::AssignPat || t.kind == Kind::RestPat) && t.children.len() >= 1 {
        binds(t.children[0], sym, decls)
    } else {
        false
    }
}

/// The identity of the identifier that a node holds.
pub fn ident_id(node: &Node) -> (id: IdentId)
    ensures
        id@ == key_of(node@),
{
    IdentId { sym: node.sym.clone(), ctxt: copy_marks(&node.ctxt) }
}

/// Whether the node's identifier is bound by none of the declarations.
pub fn check_free(node: &Node, decls: &KeySet<IdentId>) -> (b: bool)
    ensures
        b == is_free(node@, decls@),
{
    let id = ident_id(node);
    !decls.contains(&id)
}

/// Whether a context carries the mark.
pub fn check_marked(ctxt: &Vec<u32>, mark: u32) -> (b: bool)
    ensures
        b == is_marked(ctxt@, mark),
{
    let mut i: usize = ctxt.len();
    assert(ctxt@.subrange(0, i as int) =~= ctxt@);
    while i > 0
        invariant
            i <= ctxt.len(),
            is_marked(ctxt@, mark) == is_marked(ctxt@.subrange(0, i as int), mark),
        decreases i,
    {
        let m = ctxt[i - 1];
        let ghost rest = ctxt@.subrange(0, i as int);
        assert(rest.last() == m);
        assert(rest.drop_last() =~= ctxt@.subrange(0, i - 1));
        if m == 0 {
            return false;
        }
        if m == mark {
            return true;
        }
        i -= 1;
    }
    false
}

/// Whether the node is a member access with its two children.
pub fn check_member(node: &Node) -> (b: bool)
    ensures
        b == is_member(node@),
{
    proof {
        lemma_children(node);
    }
    (node.kind == Kind::Member || node.kind == Kind::Index) && node.children.len() == 2
}

/// The key of a member access, where it is known statically.
pub fn find_static_key(node: &Node) -> (r: Option<String>)
    ensures
        r.deep_view() == static_key(node@),
{
    proof {
        lemma_children(node);
    }
    if !check_member(node) {
        None
    } else if node.children[1].kind == Kind::Ident && node.kind == Kind::Member {
        Some(node.children[1].sym.clone())
    } else if node.children[1].kind == Kind::Str {
        Some(node.children[1].sym.clone())
    } else {
        None
    }
}

/// Whether a member access has the given static key.
pub fn has_static_key(node: &Node, word: &str) -> (b: bool)
    ensures
        b == (static_key(node@) == Some(word@)),
{
    match find_static_key(node) {
        Some(k) => is_word(&k, word),
        None => false,
    }
}

/// Whether the node is `module.exports`, with `module` free.
pub fn check_module_exports(node: &Node, decls: &KeySet<IdentId>) -> (b: bool)
    ensures
        b == is_module_exports(node@, decls@),
{
    proof {
        lemma_children(node);
    }
    if !has_static_key(node, "exports") {
        return false;
    }
    let obj = &node.children[0];
    obj.kind == Kind::Ident && is_word(&obj.sym, "module") && check_free(obj, decls)
}

/// Whether the node is `exports`, free.
pub fn check_free_exports(node: &Node, decls: &KeySet<IdentId>) -> (b: bool)
    ensures
        b == is_free_exports(node@, decls@),
{
    node.kind == Kind::Ident && is_word(&node.sym, "exports") && check_free(node, decls)
}

/// The expression of an argument: what is spread, for a spread argument.
pub fn strip_spread(node: &Node) -> (inner: &Node)
    ensures
        inner@ == unspread(node@),
{
    proof {
        lemma_children(node);
    }
    if node.kind == Kind::Spread && node.children.len() == 1 {
        &node.children[0]
    } else {
        node
    }
}

/// The string literal that a call has as its sole argument, if it has one.
fn find_first_string_argument(node: &Node) -> (r: Option<String>)
    ensures
        r.deep_view() == first_string_argument(node@),
{
    proof {
        lemma_children(node);
    }
    if node.children.len() == 2 {
        let arg = strip_spread(&node.children[1]);
        if arg.kind == Kind::Str {
            return Some(arg.sym.clone());
        }
    }
    None
}

/// The source of a call `require(source)`, if the node is one.
pub fn match_require(node: &Node, decls: &KeySet<IdentId>, ignore_mark: u32) -> (r: Option<
    String,
>)
    ensures
        r.deep_view() == require_source(node@, decls@, ignore_mark),
{
    proof {
        lemma_children(node);
    }
    if node.kind == Kind::Call && node.children.len() >= 1 {
        let callee = &node.children[0];
        if callee.kind == Kind::Ident && is_word(&callee.sym, "require") && check_free(
            callee,
            decls,
        ) && !check_marked(&callee.ctxt, ignore_mark) {
            return find_first_string_argument(node);
        }
    }
    None
}

/// The source of a call `import(source)`, if the node is one.
pub fn match_import(node: &Node, ignore_mark: u32) -> (r: Option<String>)
    ensures
        r.deep_view() == import_source(node@, ignore_mark),
{
    proof {
        lemma_children(node);
    }
    if node.kind == Kind::Call && node.children.len() >= 1 {
        let callee = &node.children[0];
        if callee.kind == Kind::Ident && is_word(&callee.sym, "import") && !check_marked(
            &callee.ctxt,
            ignore_mark,
        ) {
            return find_first_string_argument(node);
        }
    }
    None
}

/// Whether a pattern binds the free name `sym`.
pub fn has_binding_identifier(node: &Node, sym: &str, decls: &KeySet<IdentId>) -> (b: bool)
    ensures
        b == binds(node@, sym@, decls@),
    decreases node,
{
    proof {
        lemma_children(node);
    }
    if node.kind == Kind::BindingIdent {
        is_word(&node.sym, sym) && check_free(node, decls)
    } else if node.kind == Kind::ObjectPat {
        let mut i: usize = 0;
        while i < node.children.len()
            invariant
                i <= node.children.len(),
                node@.children.len() == node.children.len(),
                forall|j: int|
                    0 <= j < node.children.len() ==> node@.children[j] == (
                    #[trigger] node.children[j])@,
                node@.kind == Kind::ObjectPat,
                props_bind(node@, 0, sym@, decls@) == props_bind(node@, i as int, sym@, decls@),
            decreases node.children.len() - i,
        {
            let p = &node.children[i];
            proof {
                lemma_children(p);
            }
            let here = if p.kind == Kind::KeyValuePat && p.children.len() == 2 {
                has_binding_identifier(&p.children[1], sym, decls)
            } else if p.kind == Kind::AssignPatProp {
                is_word(&p.sym, sym) && check_free(p, decls)
            } else if p.kind == Kind::RestPatProp && p.children.len() >= 1 {
                has_binding_identifier(&p.children[0], sym, decls)
            } else {
                false
            };
            if here {
                return true;
            }
            i += 1;
        }
        false
    } else if node.kind == Kind::ArrayPat {
        let mut i: usize = 0;
        while i < node.children.len()
            invariant
                i <= node.children.len(),
                node@.children.len() == node.children.len(),
                forall|j: int|
                    0 <= j < node.children.len() ==> node@.children[j] == (
                    #[trigger] node.children[j])@,
                node@.kind == Kind::ArrayPat,
                elems_bind(node@, 0, sym@, decls@) == elems_bind(node@, i as int, sym@, decls@),
            decreases node.children.len() - i,
        {
            if has_binding_identifier(&node.children[i], sym, decls) {
                return true;
            }
            i += 1;
        }
        false
    } else if (node.kind == Kind::AssignPat || node.kind == Kind::RestPat) && node.children.len()
        >= 1 {
        has_binding_identifier(&node.children[0], sym, decls)
    } else {
        false
    }
}

} // verus!
