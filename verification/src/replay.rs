//! A second walk over a module finds what the first walk found: the proof.
//!
//! The walk from the state `a` of a first run is followed step by step by the
//! walk from a state `b` of a second run that began with the tables `f` that
//! the first run ended with. Both take the same steps, because a step is
//! chosen by the tree, the declarations and the place in the walk alone. Of
//! every entry of every table, `b` holds what `a` holds, or it still holds
//! what `f` held; both come to the same when `a` has become `f`.

use crate::analysis::{
    add_key_import, add_pat_imports, add_prop_imports, call_effects, callback_param,
    export_declarators, export_spec, export_specs, exported_name, import_spec, import_specs,
    is_bare_require, is_free_eval, is_import_then, is_module_decl, lemma_visit, prop_key, visit,
    visit_arrow, visit_assign, visit_call, visit_export_decl, visit_export_default_decl, visit_from,
    visit_item, visit_items, visit_member, visit_module, visit_return, visit_scope,
    visit_var_declarator, CollectView, HoistError,
};
use crate::matchers::{import_source, is_member, key_of, require_source, static_key, unspread};
use crate::names::star;
use crate::tables::IdentKey;
use crate::tree::{Kind, Span, Tree};
use vstd::prelude::*;

verus! {

/// The value of a key in a map, if it has one.
pub open spec fn lookup<K, V>(m: Map<K, V>, k: K) -> Option<V> {
    if m.contains_key(k) {
        Some(m[k])
    } else {
        None
    }
}

/// Whether two states have the same declarations and are at the same place in
/// the walk.
pub open spec fn same_place(a: CollectView, b: CollectView) -> bool {
    &&& a.decls == b.decls
    &&& a.ignore_mark == b.ignore_mark
    &&& a.in_module_this == b.in_module_this
    &&& a.in_top_level == b.in_top_level
    &&& a.in_export_decl == b.in_export_decl
    &&& a.in_function == b.in_function
}

/// Whether two states hold the same tables and flags.
pub open spec fn same_tables(a: CollectView, b: CollectView) -> bool {
    &&& a.imports == b.imports
    &&& a.exports == b.exports
    &&& a.non_static_access == b.non_static_access
    &&& a.non_static_requires == b.non_static_requires
    &&& a.wrapped_requires == b.wrapped_requires
    &&& a.static_cjs_exports == b.static_cjs_exports
    &&& a.has_cjs_exports == b.has_cjs_exports
    &&& a.should_wrap == b.should_wrap
    &&& a.is_esm == b.is_esm
    &&& a.error == b.error
}

/// Whether a walk has kept the declarations and has come back to the place
/// where it began: inside or outside a function, at the top level or below it,
/// and outside the pattern of an exported declaration if it began outside one.
pub open spec fn stays(a: CollectView, next: CollectView) -> bool {
    &&& next.decls == a.decls
    &&& next.ignore_mark == a.ignore_mark
    &&& next.in_module_this == a.in_module_this
    &&& next.in_top_level == a.in_top_level
    &&& next.in_function == a.in_function
    &&& !a.in_export_decl ==> !next.in_export_decl
}

/// Whether every entry of the tables of `b` is that of `a` or that of `f`.
#[verifier::opaque]
pub open spec fn tables_follow(f: CollectView, a: CollectView, b: CollectView) -> bool {
    &&& forall|k: IdentKey| #[trigger]
        lookup(b.imports, k) == lookup(a.imports, k) || lookup(b.imports, k) == lookup(
            f.imports,
            k,
        )
    &&& forall|k: IdentKey| #[trigger]
        lookup(b.exports, k) == lookup(a.exports, k) || (f.exports.contains_key(k) && lookup(
            b.exports,
            k,
        ) == lookup(f.exports, k))
    &&& forall|k: IdentKey| #[trigger]
        b.non_static_access.contains(k) == a.non_static_access.contains(k)
            || b.non_static_access.contains(k) == f.non_static_access.contains(k)
    &&& forall|s: Seq<char>| #[trigger]
        b.non_static_requires.contains(s) == a.non_static_requires.contains(s)
            || b.non_static_requires.contains(s) == f.non_static_requires.contains(s)
    &&& forall|s: Seq<char>| #[trigger]
        b.wrapped_requires.contains(s) == a.wrapped_requires.contains(s)
            || b.wrapped_requires.contains(s) == f.wrapped_requires.contains(s)
    &&& b.static_cjs_exports == a.static_cjs_exports || b.static_cjs_exports == f.static_cjs_exports
    &&& b.has_cjs_exports == a.has_cjs_exports || b.has_cjs_exports == f.has_cjs_exports
    &&& b.should_wrap == a.should_wrap || b.should_wrap == f.should_wrap
    &&& b.is_esm == a.is_esm || b.is_esm == f.is_esm
    &&& b.error == a.error || (f.error is Some && b.error == f.error)
}

/// Whether the state `b` of a second run follows the state `a` of the first run,
/// which ends with the tables `f`.
pub open spec fn follows(f: CollectView, a: CollectView, b: CollectView) -> bool {
    same_place(a, b) && tables_follow(f, a, b)
}

/// A change of place that both runs make keeps the second run behind the first.
pub proof fn lemma_move(f: CollectView, a: CollectView, b: CollectView, a2: CollectView, b2: CollectView)
    requires
        follows(f, a, b),
        same_tables(a, a2),
        same_tables(b, b2),
        same_place(a2, b2),
    ensures
        follows(f, a2, b2),
{
    reveal(tables_follow);
    assert forall|k: IdentKey| #[trigger]
        lookup(b2.imports, k) == lookup(a2.imports, k) || lookup(b2.imports, k) == lookup(
            f.imports,
            k,
        ) by {
        assert(lookup(b.imports, k) == lookup(a.imports, k) || lookup(b.imports, k) == lookup(
            f.imports,
            k,
        ));
    }
    assert forall|k: IdentKey| #[trigger]
        lookup(b2.exports, k) == lookup(a2.exports, k) || (f.exports.contains_key(k) && lookup(
            b2.exports,
            k,
        ) == lookup(f.exports, k)) by {
        assert(lookup(b.exports, k) == lookup(a.exports, k) || (f.exports.contains_key(k)
            && lookup(b.exports, k) == lookup(f.exports, k)));
    }
}

/// The second run follows the first through a record of an import.
pub proof fn lemma_add_import(
    f: CollectView,
    a: CollectView,
    b: CollectView,
    id: IdentKey,
    source: Seq<char>,
    local: Seq<char>,
    is_async: bool,
    loc: Span,
)
    requires
        follows(f, a, b),
    ensures
        follows(
            f,
            a.add_import(id, source, local, is_async, loc),
            b.add_import(id, source, local, is_async, loc),
        ),
{
    reveal(tables_follow);
    let a2 = a.add_import(id, source, local, is_async, loc);
    let b2 = b.add_import(id, source, local, is_async, loc);
    assert forall|k: IdentKey| #[trigger]
        lookup(b2.imports, k) == lookup(a2.imports, k) || lookup(b2.imports, k) == lookup(
            f.imports,
            k,
        ) by {
        assert(lookup(b.imports, k) == lookup(a.imports, k) || lookup(b.imports, k) == lookup(
            f.imports,
            k,
        ));
    }
    assert forall|k: IdentKey| #[trigger]
        lookup(b2.exports, k) == lookup(a2.exports, k) || (f.exports.contains_key(k) && lookup(
            b2.exports,
            k,
        ) == lookup(f.exports, k)) by {
        assert(lookup(b.exports, k) == lookup(a.exports, k) || (f.exports.contains_key(k)
            && lookup(b.exports, k) == lookup(f.exports, k)));
    }
}

/// The second run follows the first through a record of an export.
pub proof fn lemma_export(f: CollectView, a: CollectView, b: CollectView, id: IdentKey, name: Seq<char>)
    requires
        follows(f, a, b),
    ensures
        follows(f, a.export(id, name), b.export(id, name)),
        follows(f, a.export_if_absent(id, name), b.export_if_absent(id, name)),
{
    reveal(tables_follow);
    let a2 = a.export(id, name);
    let b2 = b.export(id, name);
    let a3 = a.export_if_absent(id, name);
    let b3 = b.export_if_absent(id, name);
    assert forall|k: IdentKey| #[trigger]
        lookup(b2.imports, k) == lookup(a2.imports, k) || lookup(b2.imports, k) == lookup(
            f.imports,
            k,
        ) by {
        assert(lookup(b.imports, k) == lookup(a.imports, k) || lookup(b.imports, k) == lookup(
            f.imports,
            k,
        ));
    }
    assert forall|k: IdentKey| #[trigger]
        lookup(b3.imports, k) == lookup(a3.imports, k) || lookup(b3.imports, k) == lookup(
            f.imports,
            k,
        ) by {
        assert(lookup(b.imports, k) == lookup(a.imports, k) || lookup(b.imports, k) == lookup(
            f.imports,
            k,
        ));
    }
    assert forall|k: IdentKey| #[trigger]
        lookup(b2.exports, k) == lookup(a2.exports, k) || (f.exports.contains_key(k) && lookup(
            b2.exports,
            k,
        ) == lookup(f.exports, k)) by {
        assert(lookup(b.exports, k) == lookup(a.exports, k) || (f.exports.contains_key(k)
            && lookup(b.exports, k) == lookup(f.exports, k)));
    }
    assert forall|k: IdentKey| #[trigger]
        lookup(b3.exports, k) == lookup(a3.exports, k) || (f.exports.contains_key(k) && lookup(
            b3.exports,
            k,
        ) == lookup(f.exports, k)) by {
        assert(lookup(b.exports, k) == lookup(a.exports, k) || (f.exports.contains_key(k)
            && lookup(b.exports, k) == lookup(f.exports, k)));
    }
}

/// The second run follows the first through a change that leaves the two maps
/// as they are.
proof fn lemma_maps_stay(f: CollectView, a: CollectView, b: CollectView, a2: CollectView, b2: CollectView)
    requires
        follows(f, a, b),
        a2.imports == a.imports,
        a2.exports == a.exports,
        b2.imports == b.imports,
        b2.exports == b.exports,
    ensures
        forall|k: IdentKey| #[trigger]
            lookup(b2.imports, k) == lookup(a2.imports, k) || lookup(b2.imports, k) == lookup(
                f.imports,
                k,
            ),
        forall|k: IdentKey| #[trigger]
            lookup(b2.exports, k) == lookup(a2.exports, k) || (f.exports.contains_key(k) && lookup(
                b2.exports,
                k,
            ) == lookup(f.exports, k)),
{
    reveal(tables_follow);
    assert forall|k: IdentKey| #[trigger]
        lookup(b2.imports, k) == lookup(a2.imports, k) || lookup(b2.imports, k) == lookup(
            f.imports,
            k,
        ) by {
        assert(lookup(b.imports, k) == lookup(a.imports, k) || lookup(b.imports, k) == lookup(
            f.imports,
            k,
        ));
    }
    assert forall|k: IdentKey| #[trigger]
        lookup(b2.exports, k) == lookup(a2.exports, k) || (f.exports.contains_key(k) && lookup(
            b2.exports,
            k,
        ) == lookup(f.exports, k)) by {
        assert(lookup(b.exports, k) == lookup(a.exports, k) || (f.exports.contains_key(k)
            && lookup(b.exports, k) == lookup(f.exports, k)));
    }
}

/// The second run follows the first through a record in one of the sets.
pub proof fn lemma_sets(f: CollectView, a: CollectView, b: CollectView, id: IdentKey, source: Seq<char>)
    requires
        follows(f, a, b),
    ensures
        follows(f, a.access(id), b.access(id)),
        follows(f, a.non_static(source), b.non_static(source)),
        follows(f, a.wrapped(source), b.wrapped(source)),
{
    lemma_maps_stay(f, a, b, a.access(id), b.access(id));
    lemma_maps_stay(f, a, b, a.non_static(source), b.non_static(source));
    lemma_maps_stay(f, a, b, a.wrapped(source), b.wrapped(source));
    reveal(tables_follow);
}

/// The second run follows the first through a change of the flags.
pub proof fn lemma_flags(f: CollectView, a: CollectView, b: CollectView, is_static: bool, e: HoistError)
    requires
        follows(f, a, b),
    ensures
        follows(f, a.cjs_export(is_static), b.cjs_export(is_static)),
        follows(f, a.wrap(), b.wrap()),
        follows(f, a.rebind_exports(), b.rebind_exports()),
        follows(f, a.fail(e), b.fail(e)),
        follows(f, CollectView { is_esm: true, ..a }, CollectView { is_esm: true, ..b }),
        follows(f, a.this_reference(), b.this_reference()),
{
    lemma_maps_stay(f, a, b, a.cjs_export(is_static), b.cjs_export(is_static));
    lemma_maps_stay(f, a, b, a.wrap(), b.wrap());
    lemma_maps_stay(f, a, b, a.rebind_exports(), b.rebind_exports());
    lemma_maps_stay(f, a, b, a.fail(e), b.fail(e));
    lemma_maps_stay(f, a, b, CollectView { is_esm: true, ..a }, CollectView { is_esm: true, ..b });
    reveal(tables_follow);
}

/// The second run follows the first through a reference to an identifier.
pub proof fn lemma_reference(f: CollectView, a: CollectView, b: CollectView, t: Tree)
    requires
        follows(f, a, b),
    ensures
        follows(f, a.reference(t), b.reference(t)),
{
    let is_module = t.sym == "module"@;
    let a1 = CollectView {
        has_cjs_exports: true,
        static_cjs_exports: false,
        should_wrap: a.should_wrap || is_module,
        ..a
    };
    let b1 = CollectView {
        has_cjs_exports: true,
        static_cjs_exports: false,
        should_wrap: b.should_wrap || is_module,
        ..b
    };
    assert(follows(f, a1, b1)) by {
        lemma_maps_stay(f, a, b, a1, b1);
        reveal(tables_follow);
    }
    lemma_sets(f, a1, b1, key_of(t), t.sym);
    lemma_sets(f, a, b, key_of(t), t.sym);
}

/// The second run follows the first through the exports of a binding.
pub proof fn lemma_export_binding(f: CollectView, a: CollectView, b: CollectView, t: Tree)
    requires
        follows(f, a, b),
    ensures
        follows(f, a.export_binding(t), b.export_binding(t)),
{
    lemma_export(f, a, b, key_of(t), t.sym);
}

/// The second run follows the first into an import through a pattern.
pub proof fn lemma_enter_import(
    f: CollectView,
    a: CollectView,
    b: CollectView,
    source: Seq<char>,
    is_async: bool,
)
    requires
        follows(f, a, b),
    ensures
        follows(f, a.enter_import(source, is_async), b.enter_import(source, is_async)),
{
    let id = IdentKey { sym: source, ctxt: Seq::empty() };
    lemma_sets(f, a, b, id, source);
    lemma_sets(f, a.wrapped(source), b.wrapped(source), id, source);
}

/// The second run follows the first through one property of a pattern.
pub proof fn lemma_add_key_import(
    f: CollectView,
    a: CollectView,
    b: CollectView,
    key: Option<Seq<char>>,
    value: Tree,
    source: Seq<char>,
    is_async: bool,
)
    requires
        follows(f, a, b),
    ensures
        follows(
            f,
            add_key_import(a, key, value, source, is_async),
            add_key_import(b, key, value, source, is_async),
        ),
{
    lemma_sets(f, a, b, key_of(value), source);
    if key is Some {
        lemma_add_import(f, a, b, key_of(value), source, key->0, is_async, value.span);
    }
}

/// The second run follows the first through the properties of a pattern.
pub proof fn lemma_add_prop_imports(
    f: CollectView,
    a: CollectView,
    b: CollectView,
    pat: Tree,
    i: int,
    source: Seq<char>,
    is_async: bool,
)
    requires
        follows(f, a, b),
    ensures
        follows(
            f,
            add_prop_imports(a, pat, i, source, is_async),
            add_prop_imports(b, pat, i, source, is_async),
        ),
    decreases pat.children.len() - i,
{
    if 0 <= i < pat.children.len() {
        let p = pat.children[i];
        let a1 = if p.kind == Kind::KeyValuePat && p.children.len() == 2 {
            add_key_import(a, prop_key(p.children[0]), p.children[1], source, is_async)
        } else if p.kind == Kind::AssignPatProp {
            a.add_import(key_of(p), source, p.sym, is_async, p.span)
        } else {
            a.non_static(source)
        };
        let b1 = if p.kind == Kind::KeyValuePat && p.children.len() == 2 {
            add_key_import(b, prop_key(p.children[0]), p.children[1], source, is_async)
        } else if p.kind == Kind::AssignPatProp {
            b.add_import(key_of(p), source, p.sym, is_async, p.span)
        } else {
            b.non_static(source)
        };
        if p.kind == Kind::KeyValuePat && p.children.len() == 2 {
            lemma_add_key_import(f, a, b, prop_key(p.children[0]), p.children[1], source, is_async);
        } else if p.kind == Kind::AssignPatProp {
            lemma_add_import(f, a, b, key_of(p), source, p.sym, is_async, p.span);
        } else {
            lemma_sets(f, a, b, key_of(p), source);
        }
        lemma_add_prop_imports(f, a1, b1, pat, i + 1, source, is_async);
    }
}

/// The second run follows the first through a pattern that is bound to a source.
pub proof fn lemma_add_pat_imports(
    f: CollectView,
    a: CollectView,
    b: CollectView,
    pat: Tree,
    source: Seq<char>,
    is_async: bool,
)
    requires
        follows(f, a, b),
    ensures
        follows(
            f,
            add_pat_imports(a, pat, source, is_async),
            add_pat_imports(b, pat, source, is_async),
        ),
        stays(a, add_pat_imports(a, pat, source, is_async)),
{
    lemma_enter_import(f, a, b, source, is_async);
    let a1 = a.enter_import(source, is_async);
    let b1 = b.enter_import(source, is_async);
    lemma_add_import(f, a1, b1, key_of(pat), source, star(), is_async, pat.span);
    lemma_add_prop_imports(f, a1, b1, pat, 0, source, is_async);
    lemma_sets(f, a1, b1, key_of(pat), source);
    lemma_stays_prop_imports(a1, pat, 0, source, is_async);
}

/// The records of a pattern keep the declarations and the place.
pub proof fn lemma_stays_prop_imports(
    a: CollectView,
    pat: Tree,
    i: int,
    source: Seq<char>,
    is_async: bool,
)
    ensures
        stays(a, add_prop_imports(a, pat, i, source, is_async)),
        same_place(a, add_prop_imports(a, pat, i, source, is_async)),
    decreases pat.children.len() - i,
{
    if 0 <= i < pat.children.len() {
        let p = pat.children[i];
        let a1 = if p.kind == Kind::KeyValuePat && p.children.len() == 2 {
            add_key_import(a, prop_key(p.children[0]), p.children[1], source, is_async)
        } else if p.kind == Kind::AssignPatProp {
            a.add_import(key_of(p), source, p.sym, is_async, p.span)
        } else {
            a.non_static(source)
        };
        lemma_stays_prop_imports(a1, pat, i + 1, source, is_async);
    }
}

/// The second run follows the first through the specifiers of an import.
pub proof fn lemma_import_specs(f: CollectView, a: CollectView, b: CollectView, t: Tree, i: int)
    requires
        follows(f, a, b),
    ensures
        follows(f, import_specs(a, t, i), import_specs(b, t, i)),
        stays(a, import_specs(a, t, i)),
    decreases t.children.len() - i,
{
    if 0 <= i < t.children.len() {
        let sp = t.children[i];
        if sp.kind == Kind::ImportNamed && sp.children.len() == 2 {
            let local = sp.children[0];
            let imported = if sp.children[1].kind == Kind::Absent {
                local.sym
            } else {
                sp.children[1].sym
            };
            lemma_add_import(f, a, b, key_of(local), t.sym, imported, false, sp.span);
        } else if sp.kind == Kind::ImportDefault && sp.children.len() == 1 {
            lemma_add_import(f, a, b, key_of(sp.children[0]), t.sym, "default"@, false, sp.span);
        } else if sp.kind == Kind::ImportNamespace && sp.children.len() == 1 {
            lemma_add_import(f, a, b, key_of(sp.children[0]), t.sym, star(), false, sp.span);
        }
        lemma_import_specs(f, import_spec(a, t.sym, sp), import_spec(b, t.sym, sp), t, i + 1);
    }
}

/// The second run follows the first through the specifiers of an export list.
pub proof fn lemma_export_specs(f: CollectView, a: CollectView, b: CollectView, t: Tree, i: int)
    requires
        follows(f, a, b),
    ensures
        follows(f, export_specs(a, t, i), export_specs(b, t, i)),
        stays(a, export_specs(a, t, i)),
    decreases t.children.len() - i,
{
    if 0 <= i < t.children.len() {
        let sp = t.children[i];
        if sp.kind == Kind::ExportSpec && sp.children.len() == 2 {
            lemma_export(f, a, b, key_of(sp.children[0]), exported_name(sp));
        } else if sp.kind == Kind::ExportSpecDefault && sp.children.len() == 1 {
            lemma_export(f, a, b, key_of(sp.children[0]), "default"@);
        } else if sp.kind == Kind::ExportSpecNamespace && sp.children.len() == 1 {
            lemma_export(f, a, b, key_of(sp.children[0]), star());
        }
        lemma_export_specs(f, export_spec(a, sp), export_spec(b, sp), t, i + 1);
    }
}

/// The second run follows the first through what a call records.
pub proof fn lemma_call_effects(f: CollectView, a: CollectView, b: CollectView, t: Tree)
    requires
        follows(f, a, b),
    ensures
        follows(f, call_effects(a, t), call_effects(b, t)),
        stays(a, call_effects(a, t)),
{
    let id = key_of(t);
    let a1 = match require_source(t, a.decls, a.ignore_mark) {
        Some(s) => a.wrapped(s),
        None => a,
    };
    let b1 = match require_source(t, b.decls, b.ignore_mark) {
        Some(s) => b.wrapped(s),
        None => b,
    };
    match require_source(t, a.decls, a.ignore_mark) {
        Some(s) => {
            lemma_sets(f, a, b, id, s);
        },
        None => {},
    }
    match import_source(t, a.ignore_mark) {
        Some(s) => {
            lemma_sets(f, a1, b1, id, s);
            lemma_sets(f, a1.non_static(s), b1.non_static(s), id, s);
        },
        None => {},
    }
}

/// The second run follows the first through the children of a node.
pub proof fn lemma_visit_from(f: CollectView, a: CollectView, b: CollectView, t: Tree, i: int)
    requires
        follows(f, a, b),
    ensures
        follows(f, visit_from(a, t, i), visit_from(b, t, i)),
        stays(a, visit_from(a, t, i)),
    decreases t, t.children.len() - i,
{
    if 0 <= i < t.children.len() {
        lemma_walk(f, a, b, t.children[i]);
        lemma_visit_from(f, visit(a, t.children[i]), visit(b, t.children[i]), t, i + 1);
    }
}

/// The second run follows the first through a function or a class.
pub proof fn lemma_visit_scope(f: CollectView, a: CollectView, b: CollectView, t: Tree)
    requires
        follows(f, a, b),
    ensures
        follows(f, visit_scope(a, t), visit_scope(b, t)),
        stays(a, visit_scope(a, t)),
    decreases t, t.children.len() + 1,
{
    let a1 = CollectView { in_module_this: false, in_function: true, ..a };
    let b1 = CollectView { in_module_this: false, in_function: true, ..b };
    lemma_move(f, a, b, a1, b1);
    lemma_visit_from(f, a1, b1, t, 0);
    let a2 = visit_from(a1, t, 0);
    let b2 = visit_from(b1, t, 0);
    let a3 = CollectView { in_module_this: a.in_module_this, in_function: a.in_function, ..a2 };
    let b3 = CollectView { in_module_this: b.in_module_this, in_function: b.in_function, ..b2 };
    lemma_move(f, a2, b2, a3, b3);
    assert(visit_scope(a, t) == a3);
    assert(visit_scope(b, t) == b3);
}

/// The second run follows the first through an arrow function.
pub proof fn lemma_visit_arrow(f: CollectView, a: CollectView, b: CollectView, t: Tree)
    requires
        follows(f, a, b),
    ensures
        follows(f, visit_arrow(a, t), visit_arrow(b, t)),
        stays(a, visit_arrow(a, t)),
    decreases t, t.children.len() + 1,
{
    let a1 = CollectView { in_function: true, ..a };
    let b1 = CollectView { in_function: true, ..b };
    lemma_move(f, a, b, a1, b1);
    lemma_visit_from(f, a1, b1, t, 0);
    let a2 = visit_from(a1, t, 0);
    let b2 = visit_from(b1, t, 0);
    let a3 = CollectView { in_function: a.in_function, ..a2 };
    let b3 = CollectView { in_function: b.in_function, ..b2 };
    lemma_move(f, a2, b2, a3, b3);
    assert(visit_arrow(a, t) == a3);
    assert(visit_arrow(b, t) == b3);
}

/// The second run follows the first through a `return`.
pub proof fn lemma_visit_return(f: CollectView, a: CollectView, b: CollectView, t: Tree)
    requires
        follows(f, a, b),
    ensures
        follows(f, visit_return(a, t), visit_return(b, t)),
        stays(a, visit_return(a, t)),
    decreases t, t.children.len() + 1,
{
    lemma_flags(f, a, b, true, HoistError::UnknownExport);
    if a.in_function {
        lemma_visit_from(f, a, b, t, 0);
    } else {
        lemma_visit_from(f, a.wrap(), b.wrap(), t, 0);
    }
}

/// The second run follows the first through a member access.
pub proof fn lemma_visit_member(f: CollectView, a: CollectView, b: CollectView, t: Tree)
    requires
        follows(f, a, b),
    ensures
        follows(f, visit_member(a, t), visit_member(b, t)),
        stays(a, visit_member(a, t)),
    decreases t, t.children.len() + 1,
{
    lemma_visit_from(f, a, b, t, 0);
    if is_member(t) {
        lemma_walk(f, a, b, t.children[0]);
        lemma_walk(f, visit(a, t.children[0]), visit(b, t.children[0]), t.children[1]);
        let is_static = static_key(t) is Some;
        let obj = t.children[0];
        lemma_flags(f, a, b, false, HoistError::UnknownExport);
        lemma_flags(f, a, b, is_static, HoistError::UnknownExport);
        lemma_sets(f, a, b, key_of(obj), obj.sym);
        lemma_sets(f, a.cjs_export(is_static), b.cjs_export(is_static), key_of(obj), obj.sym);
    }
}

/// The second run follows the first through an assignment.
pub proof fn lemma_visit_assign(f: CollectView, a: CollectView, b: CollectView, t: Tree)
    requires
        follows(f, a, b),
    ensures
        follows(f, visit_assign(a, t), visit_assign(b, t)),
        stays(a, visit_assign(a, t)),
    decreases t, t.children.len() + 1,
{
    lemma_visit_from(f, a, b, t, 0);
    lemma_flags(f, visit_from(a, t, 0), visit_from(b, t, 0), true, HoistError::UnknownExport);
}

/// The second run follows the first through a variable declarator.
pub proof fn lemma_visit_var_declarator(f: CollectView, a: CollectView, b: CollectView, t: Tree)
    requires
        follows(f, a, b),
    ensures
        follows(f, visit_var_declarator(a, t), visit_var_declarator(b, t)),
        stays(a, visit_var_declarator(a, t)),
    decreases t, t.children.len() + 1,
{
    lemma_visit_from(f, a, b, t, 0);
    if t.children.len() == 2 {
        let name = t.children[0];
        let init = t.children[1];
        if require_source(init, a.decls, a.ignore_mark) is Some {
            lemma_add_pat_imports(
                f,
                a,
                b,
                name,
                require_source(init, a.decls, a.ignore_mark)->0,
                false,
            );
        } else if is_member(init) && require_source(init.children[0], a.decls, a.ignore_mark) is Some {
            let source = require_source(init.children[0], a.decls, a.ignore_mark)->0;
            lemma_enter_import(f, a, b, source, false);
            lemma_add_key_import(
                f,
                a.enter_import(source, false),
                b.enter_import(source, false),
                static_key(init),
                name,
                source,
                false,
            );
        } else if init.kind == Kind::Await && init.children.len() == 1 && import_source(
            init.children[0],
            a.ignore_mark,
        ) is Some {
            lemma_add_pat_imports(
                f,
                a,
                b,
                name,
                import_source(init.children[0], a.ignore_mark)->0,
                true,
            );
        }
    }
}

/// The second run follows the first through a call.
pub proof fn lemma_visit_call(f: CollectView, a: CollectView, b: CollectView, t: Tree)
    requires
        follows(f, a, b),
    ensures
        follows(f, visit_call(a, t), visit_call(b, t)),
        stays(a, visit_call(a, t)),
    decreases t, t.children.len() + 1,
{
    lemma_call_effects(f, a, b, t);
    let a1 = call_effects(a, t);
    let b1 = call_effects(b, t);
    if is_import_then(t, a.ignore_mark) {
        let source = import_source(t.children[0].children[0], a.ignore_mark)->0;
        let callback = unspread(t.children[1]);
        let a2 = match callback_param(callback) {
            Some(p) => add_pat_imports(a1, p, source, true),
            None => a1.non_static(source).wrapped(source),
        };
        let b2 = match callback_param(callback) {
            Some(p) => add_pat_imports(b1, p, source, true),
            None => b1.non_static(source).wrapped(source),
        };
        match callback_param(callback) {
            Some(p) => {
                lemma_add_pat_imports(f, a1, b1, p, source, true);
            },
            None => {
                lemma_sets(f, a1, b1, key_of(t), source);
                lemma_sets(f, a1.non_static(source), b1.non_static(source), key_of(t), source);
            },
        }
        lemma_walk(f, a2, b2, callback);
    } else if is_free_eval(t, a.decls) {
        lemma_flags(f, a1, b1, true, HoistError::UnknownExport);
        lemma_visit_from(f, a1.wrap(), b1.wrap(), t, 0);
    } else {
        lemma_visit_from(f, a1, b1, t, 0);
    }
}

/// The second run follows the first through the declarators of an exported
/// declaration.
pub proof fn lemma_export_declarators(f: CollectView, a: CollectView, b: CollectView, d: Tree, i: int)
    requires
        follows(f, a, b),
    ensures
        follows(f, export_declarators(a, d, i), export_declarators(b, d, i)),
        stays(a, export_declarators(a, d, i)),
    decreases d, d.children.len() - i,
{
    if 0 <= i < d.children.len() {
        let v = d.children[i];
        if v.kind == Kind::VarDeclarator && v.children.len() == 2 {
            let a1 = CollectView { in_export_decl: true, ..a };
            let b1 = CollectView { in_export_decl: true, ..b };
            lemma_move(f, a, b, a1, b1);
            lemma_walk(f, a1, b1, v.children[0]);
            let a2 = visit(a1, v.children[0]);
            let b2 = visit(b1, v.children[0]);
            let a3 = CollectView { in_export_decl: false, ..a2 };
            let b3 = CollectView { in_export_decl: false, ..b2 };
            lemma_move(f, a2, b2, a3, b3);
            lemma_walk(f, a3, b3, v.children[1]);
            lemma_export_declarators(
                f,
                visit(a3, v.children[1]),
                visit(b3, v.children[1]),
                d,
                i + 1,
            );
        } else {
            lemma_export_declarators(f, a, b, d, i + 1);
        }
    }
}

/// The second run follows the first through an exported declaration.
pub proof fn lemma_visit_export_decl(f: CollectView, a: CollectView, b: CollectView, t: Tree)
    requires
        follows(f, a, b),
    ensures
        follows(f, visit_export_decl(a, t), visit_export_decl(b, t)),
        stays(a, visit_export_decl(a, t)),
        follows(f, visit_export_default_decl(a, t), visit_export_default_decl(b, t)),
        stays(a, visit_export_default_decl(a, t)),
    decreases t, t.children.len() + 1,
{
    lemma_visit_from(f, a, b, t, 0);
    if t.children.len() == 1 {
        let d = t.children[0];
        if (d.kind == Kind::ClassDecl || d.kind == Kind::FnDecl) && d.children.len() >= 1 {
            lemma_export(f, a, b, key_of(d.children[0]), d.children[0].sym);
            lemma_visit_from(
                f,
                a.export(key_of(d.children[0]), d.children[0].sym),
                b.export(key_of(d.children[0]), d.children[0].sym),
                t,
                0,
            );
        } else if d.kind == Kind::VarDecl {
            lemma_export_declarators(f, a, b, d, 0);
            lemma_visit_from(f, export_declarators(a, d, 0), export_declarators(b, d, 0), t, 0);
        }
        if (d.kind == Kind::ClassExpr || d.kind == Kind::FnExpr) && d.children.len() == 2 {
            if d.children[0].kind != Kind::Absent {
                lemma_export(f, a, b, key_of(d.children[0]), "default"@);
                lemma_visit_from(
                    f,
                    a.export(key_of(d.children[0]), "default"@),
                    b.export(key_of(d.children[0]), "default"@),
                    t,
                    0,
                );
            }
        } else {
            lemma_flags(f, a, b, true, HoistError::UnsupportedDefaultExport);
            lemma_visit_from(
                f,
                a.fail(HoistError::UnsupportedDefaultExport),
                b.fail(HoistError::UnsupportedDefaultExport),
                t,
                0,
            );
        }
    }
}

/// The second run follows the first through a node.
pub proof fn lemma_walk(f: CollectView, a: CollectView, b: CollectView, t: Tree)
    requires
        follows(f, a, b),
    ensures
        follows(f, visit(a, t), visit(b, t)),
        stays(a, visit(a, t)),
    decreases t, t.children.len() + 2,
{
    lemma_visit(a, t);
    lemma_visit(b, t);
    match t.kind {
        Kind::Function | Kind::Class | Kind::Getter | Kind::Setter => {
            lemma_visit_scope(f, a, b, t);
        },
        Kind::Arrow => {
            lemma_visit_arrow(f, a, b, t);
        },
        Kind::Import => {
            lemma_import_specs(f, a, b, t, 0);
        },
        Kind::ExportNamed => {
            lemma_export_specs(f, a, b, t, 0);
        },
        Kind::ExportFrom => {},
        Kind::ExportDecl | Kind::ExportDefaultDecl => {
            lemma_visit_export_decl(f, a, b, t);
        },
        Kind::Return => {
            lemma_visit_return(f, a, b, t);
        },
        Kind::BindingIdent | Kind::AssignPatProp => {
            lemma_export_binding(f, a, b, t);
            lemma_visit_from(f, a.export_binding(t), b.export_binding(t), t, 0);
        },
        Kind::Member | Kind::Index => {
            lemma_visit_member(f, a, b, t);
        },
        Kind::Ident => {
            lemma_reference(f, a, b, t);
        },
        Kind::This => {
            lemma_flags(f, a, b, false, HoistError::UnknownExport);
        },
        Kind::Assign => {
            lemma_visit_assign(f, a, b, t);
        },
        Kind::VarDeclarator => {
            lemma_visit_var_declarator(f, a, b, t);
        },
        Kind::Call => {
            lemma_visit_call(f, a, b, t);
        },
        _ => {
            lemma_visit_from(f, a, b, t, 0);
        },
    }
}

/// The second run follows the first into a module with module declarations.
pub proof fn lemma_esm(f: CollectView, a: CollectView, b: CollectView)
    requires
        follows(f, a, b),
    ensures
        follows(f, CollectView { is_esm: true, ..a }, CollectView { is_esm: true, ..b }),
{
    lemma_maps_stay(f, a, b, CollectView { is_esm: true, ..a }, CollectView { is_esm: true, ..b });
    reveal(tables_follow);
}

/// The second run follows the first through an item that is walked below the
/// top level.
pub proof fn lemma_visit_below(f: CollectView, a: CollectView, b: CollectView, t: Tree)
    requires
        follows(f, a, b),
    ensures
        follows(
            f,
            CollectView { in_top_level: true, ..visit(CollectView { in_top_level: false, ..a }, t) },
            CollectView { in_top_level: true, ..visit(CollectView { in_top_level: false, ..b }, t) },
        ),
        a.in_top_level ==> stays(
            a,
            CollectView { in_top_level: true, ..visit(CollectView { in_top_level: false, ..a }, t) },
        ),
{
    let a2 = CollectView { in_top_level: false, ..a };
    let b2 = CollectView { in_top_level: false, ..b };
    lemma_move(f, a, b, a2, b2);
    lemma_walk(f, a2, b2, t);
    let a3 = visit(a2, t);
    let b3 = visit(b2, t);
    lemma_move(
        f,
        a3,
        b3,
        CollectView { in_top_level: true, ..a3 },
        CollectView { in_top_level: true, ..b3 },
    );
}

/// The second run follows the first through one item of the module body.
pub proof fn lemma_visit_item(f: CollectView, a: CollectView, b: CollectView, t: Tree)
    requires
        follows(f, a, b),
    ensures
        follows(f, visit_item(a, t), visit_item(b, t)),
        a.in_top_level ==> stays(a, visit_item(a, t)),
{
    let a1 = if is_module_decl(t.kind) {
        CollectView { is_esm: true, ..a }
    } else {
        a
    };
    let b1 = if is_module_decl(t.kind) {
        CollectView { is_esm: true, ..b }
    } else {
        b
    };
    lemma_esm(f, a, b);
    assert(follows(f, a1, b1));
    if t.kind == Kind::VarDecl {
        lemma_visit_from(f, a1, b1, t, 0);
    } else if is_bare_require(t, a.decls, a.ignore_mark) {
    } else {
        lemma_visit_below(f, a1, b1, t);
    }
}

/// The second run follows the first through the items of the module body.
pub proof fn lemma_visit_items(f: CollectView, a: CollectView, b: CollectView, t: Tree, i: int)
    requires
        follows(f, a, b),
    ensures
        follows(f, visit_items(a, t, i), visit_items(b, t, i)),
        a.in_top_level ==> stays(a, visit_items(a, t, i)),
    decreases t.children.len() - i,
{
    if 0 <= i < t.children.len() {
        lemma_visit_item(f, a, b, t.children[i]);
        lemma_visit_items(f, visit_item(a, t.children[i]), visit_item(b, t.children[i]), t, i + 1);
    }
}

/// When the first run has ended with `f`, a state that follows it holds the
/// tables of `f`.
pub proof fn lemma_caught_up(f: CollectView, a: CollectView, b: CollectView)
    requires
        follows(f, a, b),
        same_tables(a, f),
    ensures
        same_tables(b, f),
{
    reveal(tables_follow);
    assert forall|k: IdentKey| lookup(b.imports, k) == lookup(f.imports, k) by {
        assert(lookup(b.imports, k) == lookup(a.imports, k) || lookup(b.imports, k) == lookup(
            f.imports,
            k,
        ));
    }
    assert forall|k: IdentKey| lookup(b.exports, k) == lookup(f.exports, k) by {
        assert(lookup(b.exports, k) == lookup(a.exports, k) || (f.exports.contains_key(k)
            && lookup(b.exports, k) == lookup(f.exports, k)));
    }
    assert forall|k: IdentKey| b.imports.contains_key(k) == f.imports.contains_key(k) by {
        assert(lookup(b.imports, k) == lookup(f.imports, k));
    }
    assert forall|k: IdentKey| b.imports.contains_key(k) implies b.imports[k] == f.imports[k] by {
        assert(lookup(b.imports, k) == lookup(f.imports, k));
    }
    assert(b.imports =~= f.imports);
    assert forall|k: IdentKey| b.exports.contains_key(k) == f.exports.contains_key(k) by {
        assert(lookup(b.exports, k) == lookup(f.exports, k));
    }
    assert forall|k: IdentKey| b.exports.contains_key(k) implies b.exports[k] == f.exports[k] by {
        assert(lookup(b.exports, k) == lookup(f.exports, k));
    }
    assert(b.exports =~= f.exports);
    assert(b.non_static_access =~= f.non_static_access);
    assert(b.non_static_requires =~= f.non_static_requires);
    assert(b.wrapped_requires =~= f.wrapped_requires);
}

/// A second walk over a module, from what the first walk found, finds the same.
pub proof fn lemma_second_walk(t: Tree, decls: Set<IdentKey>, ignore_mark: u32)
    ensures
        visit_module(crate::analysis::analyze(t, decls, ignore_mark), t) == crate::analysis::analyze(
            t,
            decls,
            ignore_mark,
        ),
{
    let c = CollectView::start(decls, ignore_mark);
    let f = visit_module(c, t);
    let a0 = CollectView { in_module_this: true, in_top_level: true, in_function: false, ..c };
    let a1 = visit_items(a0, t, 0);
    assert(f == CollectView { in_module_this: false, ..a1 });
    // The first run against itself gives where it ends.
    assert(follows(a0, a0, a0)) by {
        reveal(tables_follow);
    }
    lemma_visit_items(a0, a0, a0, t, 0);
    let b0 = CollectView { in_module_this: true, in_top_level: true, in_function: false, ..f };
    assert(follows(f, a0, b0)) by {
        reveal(tables_follow);
        assert forall|k: IdentKey| #[trigger]
            lookup(b0.exports, k) == lookup(a0.exports, k) || (f.exports.contains_key(k) && lookup(
                b0.exports,
                k,
            ) == lookup(f.exports, k)) by {}
    }
    lemma_visit_items(f, a0, b0, t, 0);
    let b1 = visit_items(b0, t, 0);
    lemma_caught_up(f, a1, b1);
    assert(visit_module(f, t) == CollectView { in_module_this: false, ..b1 });
}

} // verus!
