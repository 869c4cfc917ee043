//! What holds of the pass on every module.

use crate::analysis::{analyze, visit_module, CollectView};
use crate::matchers::{import_source, is_free, require_source};
use crate::names::{
    async_name, export_name, global_name, import_name, is_generated, lemma_generated_holds_id, star,
};
use crate::replay::lemma_second_walk;
use crate::rewriting::{
    bare_import, fold, fold_call, fold_item, fold_statement, has_name, hoisted, leaf_tree,
    lemma_fresh_narrow, lemma_no_dollar_names, names_fresh, names_in, names_plain, rename,
    ExportedSymbolView, HoistView,
};
use crate::tables::{IdentId, KeySet};
use crate::tree::{Kind, Node, Span, Tree};
use vstd::prelude::*;

verus! {

/// The pass is a function of its inputs: two runs on the same module, with the
/// same module id, the same declarations and the same marks, give the same
/// tree and the same tables. The digests in the generated names are part of
/// that function.
pub proof fn hoist_is_a_function(
    a: Node,
    b: Node,
    id_a: &str,
    id_b: &str,
    decls_a: KeySet<IdentId>,
    decls_b: KeySet<IdentId>,
    ignore_mark: u32,
    global_mark: u32,
)
    requires
        a@ == b@,
        id_a@ == id_b@,
        decls_a@ == decls_b@,
    ensures
        hoisted(a@, id_a@, decls_a@, ignore_mark, global_mark) == hoisted(
            b@,
            id_b@,
            decls_b@,
            ignore_mark,
            global_mark,
        ),
{
}

/// The analysis is a function of its inputs: two runs on the same module with
/// the same declarations and the same mark give the same tables and flags.
pub proof fn analysis_is_a_function(
    a: Node,
    b: Node,
    decls_a: KeySet<IdentId>,
    decls_b: KeySet<IdentId>,
    ignore_mark: u32,
)
    requires
        a@ == b@,
        decls_a@ == decls_b@,
    ensures
        analyze(a@, decls_a@, ignore_mark) == analyze(b@, decls_b@, ignore_mark),
{
}

/// A second walk over a module, from the tables and flags that the first walk
/// found, finds the same tables and flags.
pub proof fn analysis_is_idempotent(module: Node, decls: KeySet<IdentId>, ignore_mark: u32)
    ensures
        visit_module(analyze(module@, decls@, ignore_mark), module@) == analyze(
            module@,
            decls@,
            ignore_mark,
        ),
{
    lemma_second_walk(module@, decls@, ignore_mark);
}

/// A free reference to `module` makes the module wrapped on account of its
/// exports: it has CommonJS exports, and they are not static.
pub proof fn module_reference_wraps(c: CollectView, t: Tree)
    requires
        t.sym == "module"@,
        is_free(t, c.decls),
    ensures
        c.reference(t).wrapped_for_exports(),
{
}

/// A new binding of `exports` makes the module wrapped on account of its
/// exports: it has CommonJS exports, and they are not static.
pub proof fn rebinding_exports_wraps(c: CollectView)
    ensures
        c.rebind_exports().wrapped_for_exports(),
{
}

/// A module that is wrapped on account of its exports stays so in everything
/// that follows in the walk.
pub proof fn wrapped_for_exports_lasts(c: CollectView, next: CollectView)
    requires
        c.wrapped_for_exports(),
        c.grows(next),
    ensures
        next.wrapped_for_exports(),
{
}

/// What follows what follows a state follows that state.
pub proof fn grows_is_transitive(a: CollectView, b: CollectView, c: CollectView)
    requires
        a.grows(b),
        b.grows(c),
    ensures
        a.grows(c),
{
}

/// A name that the rewrite generates is `$`, then the module's id, then `$`
/// and the rest of its schema.
pub proof fn generated_names_hold_the_module_id(module_id: Seq<char>, name: Seq<char>)
    requires
        is_generated(module_id, name),
    ensures
        name.len() >= module_id.len() + 2,
        name[0] == '$',
        name.subrange(1, module_id.len() as int + 1) == module_id,
        name[module_id.len() as int + 1] == '$',
{
    lemma_generated_holds_id(module_id, name);
}

/// An import declaration, a re-export list and a re-export of everything each
/// give one bare import of their source for the top of the module.
pub proof fn declarations_lift_their_import(h: HoistView, t: Tree)
    requires
        t.kind == Kind::Import || t.kind == Kind::ExportFrom || t.kind == Kind::ExportAll,
    ensures
        fold_item(h, t).hoisted == seq![bare_import(h.module_id, t.sym)],
{
}

/// A call `require(s)` becomes the name of the namespace import of `s`, and
/// the bare import of `s` joins the queue of the statement.
pub proof fn replaced_require_queues_its_import(h: HoistView, t: Tree)
    requires
        require_source(t, h.collect.decls, h.collect.ignore_mark) is Some,
    ensures
        ({
            let s = require_source(t, h.collect.decls, h.collect.ignore_mark)->0;
            let f = fold_call(h, t);
            &&& f.tree == leaf_tree(Kind::Ident, import_name(h.module_id, s, star()), t.span)
            &&& f.state.requires_in_stmt == h.requires_in_stmt.push(bare_import(h.module_id, s))
            &&& f.state.imported_symbols.contains_key(import_name(h.module_id, s, star()))
            &&& !h.imported_symbols.contains_key(import_name(h.module_id, s, star()))
                ==> f.state.imported_symbols[import_name(h.module_id, s, star())].source == s
        }),
{
}

/// A call `import(s)` that is no `require` becomes the name of the dynamic
/// import of `s`, and the bare import of `s` joins the queue of the statement.
pub proof fn replaced_import_queues_its_import(h: HoistView, t: Tree)
    requires
        require_source(t, h.collect.decls, h.collect.ignore_mark) is None,
        import_source(t, h.collect.ignore_mark) is Some,
    ensures
        ({
            let s = import_source(t, h.collect.ignore_mark)->0;
            let f = fold_call(h, t);
            &&& f.tree == leaf_tree(Kind::Ident, async_name(h.module_id, s), t.span)
            &&& f.state.requires_in_stmt == h.requires_in_stmt.push(bare_import(h.module_id, s))
            &&& f.state.dynamic_imports.contains_key(async_name(h.module_id, s))
            &&& f.state.dynamic_imports[async_name(h.module_id, s)] == s
        }),
{
}

/// A statement comes after the bare imports that are queued when it has been
/// rewritten, and leaves the queue empty. By `queue_kept`, which every rewrite
/// of an expression ensures, no import is dropped from the queue on the way.
pub proof fn queued_imports_precede_their_statement(h: HoistView, t: Tree)
    ensures
        fold_statement(h, t).items == fold(h, t).state.requires_in_stmt.push(fold(h, t).tree),
        fold_statement(h, t).state.requires_in_stmt.len() == 0,
{
}

/// Where no identifier of a module begins with `$`, every identifier of its
/// rewrite that begins with `$` is a generated name or the replacement of
/// `global`.
pub proof fn plain_modules_get_fresh_names(module: Tree, out: Tree, module_id: Seq<char>)
    requires
        names_plain(module, Set::empty()),
        names_fresh(out, module_id, names_in(module)),
    ensures
        names_fresh(out, module_id, Set::empty()),
{
    assert forall|n: Seq<char>| names_in(module).contains(n) implies !crate::names::begins_with_dollar(
        n,
    ) by {
        assert(has_name(module, n));
        lemma_no_dollar_names(module, n);
    }
    lemma_fresh_narrow(out, module_id, names_in(module));
}

/// Every name that the rewrite gives to an identifier is a generated name or
/// the replacement of `global`.
pub proof fn new_names_are_generated(h: HoistView, t: Tree)
    requires
        rename(h, t).name is Some,
    ensures
        is_generated(h.module_id, rename(h, t).name->0) || rename(h, t).name->0 == global_name(),
{
}

/// The name of the export `e` is `$M$exports` for `*` and `$M$export$e` for any
/// other name. Asking for it leaves the export with a symbol: the one that it
/// had, or else that name at the place asked for. No other export changes.
pub proof fn an_export_keeps_its_first_symbol(h: HoistView, exported: Seq<char>, loc: Span)
    ensures
        h.export_ident(exported, loc).name == export_name(h.module_id, exported),
        h.export_ident(exported, loc).state.exported_symbols.contains_key(exported),
        h.exported_symbols.contains_key(exported) ==> h.export_ident(exported, loc).state == h,
        !h.exported_symbols.contains_key(exported) ==> h.export_ident(
            exported,
            loc,
        ).state.exported_symbols[exported] == (ExportedSymbolView {
            symbol: export_name(h.module_id, exported),
            loc,
        }),
        forall|e: Seq<char>|
            e != exported ==> (#[trigger] h.export_ident(
                exported,
                loc,
            ).state.exported_symbols.contains_key(e) <==> h.exported_symbols.contains_key(e)),
        forall|e: Seq<char>|
            e != exported && h.exported_symbols.contains_key(e) ==> #[trigger] h.export_ident(
                exported,
                loc,
            ).state.exported_symbols[e] == h.exported_symbols[e],
{
}

/// The place of an imported symbol is that of its first record.
pub proof fn the_first_place_of_an_import_stays(
    h: HoistView,
    name: Seq<char>,
    source: Seq<char>,
    local: Seq<char>,
    first: Span,
    later: Span,
)
    requires
        !h.imported_symbols.contains_key(name),
    ensures
        h.import_symbol(name, source, local, first).import_symbol(
            name,
            source,
            local,
            later,
        ).imported_symbols[name].loc == first,
{
}

} // verus!
