//! What the rewrite computes, as a function of the module's tree and of what
//! the analysis found.

use crate::analysis::{exported_name, CollectView, HoistError};
use crate::matchers::{
    import_source, is_free, is_free_exports, is_member, is_module_exports, key_of, require_source,
    static_key,
};
use crate::names::{
    async_name, async_symbol_name, begins_with_dollar, export_name, global_name, import_name,
    is_fresh, is_generated, star, var_name,
};
use crate::tables::IdentKey;
use crate::tree::{dummy_span, Kind, Span, Tree};
use vstd::prelude::*;

verus! {

/// Where a generated import name comes from.
pub struct ImportedSymbolView {
    pub source: Seq<char>,
    pub local: Seq<char>,
    pub loc: Span,
}

/// The symbol that stands for an exported name.
pub struct ExportedSymbolView {
    pub symbol: Seq<char>,
    pub loc: Span,
}

/// One re-export: `exported` is `local` of `source`.
pub struct ReExportView {
    pub exported: Seq<char>,
    pub source: Seq<char>,
    pub local: Seq<char>,
    pub loc: Span,
}

/// The mathematical value of the rewrite's state.
pub struct HoistView {
    pub module_id: Seq<char>,
    pub collect: CollectView,
    pub global_mark: u32,
    pub requires_in_stmt: Seq<Tree>,
    pub export_decls: Seq<Seq<char>>,
    pub imported_symbols: Map<Seq<char>, ImportedSymbolView>,
    pub exported_symbols: Map<Seq<char>, ExportedSymbolView>,
    pub re_exports: Seq<ReExportView>,
    pub self_references: Set<Seq<char>>,
    pub dynamic_imports: Map<Seq<char>, Seq<char>>,
    pub in_function_scope: bool,
    pub error: Option<HoistError>,
}

/// The mathematical value of what the pass reports of a module.
pub struct HoistResultView {
    pub imported_symbols: Map<Seq<char>, ImportedSymbolView>,
    pub exported_symbols: Map<Seq<char>, ExportedSymbolView>,
    pub re_exports: Seq<ReExportView>,
    pub self_references: Set<Seq<char>>,
    pub wrapped_requires: Set<Seq<char>>,
    pub dynamic_imports: Map<Seq<char>, Seq<char>>,
    pub static_cjs_exports: bool,
    pub has_cjs_exports: bool,
    pub should_wrap: bool,
}

/// A state together with the tree that a rewrite step gives.
pub struct Folded {
    pub state: HoistView,
    pub tree: Tree,
}

/// A state together with the trees that a rewrite step gives.
pub struct FoldedList {
    pub state: HoistView,
    pub trees: Seq<Tree>,
}

/// A state together with a generated name.
pub struct Named {
    pub state: HoistView,
    pub name: Seq<char>,
}

/// A state together with the new name of an identifier, if it gets one.
pub struct Renamed {
    pub state: HoistView,
    pub name: Option<Seq<char>>,
}

/// What one item of the module body gives: statements for the top of the
/// module, and statements for the item's own place.
pub struct ItemFold {
    pub state: HoistView,
    pub hoisted: Seq<Tree>,
    pub items: Seq<Tree>,
}

/// What the declarators of a top-level declaration have given so far:
/// finished statements, and the declarators of the statement in the making.
pub struct SplitFold {
    pub state: HoistView,
    pub items: Seq<Tree>,
    pub decls: Seq<Tree>,
}

/// The keyword `var` as the tag of a variable declaration.
pub open spec fn var_tag() -> u64 {
    0
}

/// A synthesized leaf.
pub open spec fn leaf_tree(kind: Kind, sym: Seq<char>, span: Span) -> Tree {
    Tree { kind, sym, ctxt: Seq::empty(), span, tag: 0, children: Seq::empty() }
}

/// A synthesized node with children.
pub open spec fn branch_tree(kind: Kind, span: Span, tag: u64, children: Seq<Tree>) -> Tree {
    Tree { kind, sym: Seq::empty(), ctxt: Seq::empty(), span, tag, children }
}

/// The bare import `import "M:source"`.
pub open spec fn bare_import(m: Seq<char>, source: Seq<char>) -> Tree {
    leaf_tree(Kind::Import, crate::names::import_source(m, source), dummy_span())
}

/// The place of a child that is not there.
pub open spec fn absent_tree() -> Tree {
    leaf_tree(Kind::Absent, Seq::empty(), dummy_span())
}

/// `var name = init;`, or `var name;` where `init` is absent.
pub open spec fn var_decl(span: Span, name: Tree, init: Tree) -> Tree {
    branch_tree(
        Kind::VarDecl,
        span,
        var_tag(),
        seq![branch_tree(Kind::VarDeclarator, span, 0, seq![name, init])],
    )
}

/// The node with a new name, if it gets one, and with other children. A node
/// that gets a new name loses its lexical-scope context.
pub open spec fn renamed(t: Tree, name: Option<Seq<char>>, children: Seq<Tree>) -> Tree {
    match name {
        Some(n) => Tree { sym: n, ctxt: Seq::empty(), children, ..t },
        None => Tree { children, ..t },
    }
}

/// Whether a node of this kind holds an identifier of its own.
pub open spec fn holds_ident(kind: Kind) -> bool {
    kind == Kind::Ident || kind == Kind::Name || kind == Kind::BindingIdent || kind
        == Kind::Shorthand || kind == Kind::AssignPatProp
}

/// Whether every identifier of a tree that begins with `$` is one of `kept`.
pub open spec fn names_plain(t: Tree, kept: Set<Seq<char>>) -> bool
    decreases t,
{
    &&& holds_ident(t.kind) ==> !begins_with_dollar(t.sym) || kept.contains(t.sym)
    &&& forall|i: int| 0 <= i < t.children.len() ==> names_plain(#[trigger] t.children[i], kept)
}

/// Whether every identifier of a tree is free of clashes or one of `kept`: it
/// does not begin with `$`, or the rewrite generated it for the module `m`, or
/// it is the replacement of `global`, or it is one of `kept`.
pub open spec fn names_fresh(t: Tree, m: Seq<char>, kept: Set<Seq<char>>) -> bool
    decreases t,
{
    &&& holds_ident(t.kind) ==> is_fresh(m, t.sym) || kept.contains(t.sym)
    &&& forall|i: int|
        0 <= i < t.children.len() ==> names_fresh(#[trigger] t.children[i], m, kept)
}

/// Whether every identifier of every tree of a list is free of clashes or one
/// of `kept`.
pub open spec fn all_fresh(list: Seq<Tree>, m: Seq<char>, kept: Set<Seq<char>>) -> bool {
    forall|i: int| 0 <= i < list.len() ==> names_fresh(#[trigger] list[i], m, kept)
}

/// A tree whose identifiers that begin with `$` are among `kept` has only
/// identifiers that are free of clashes or among `kept`.
pub proof fn lemma_plain_is_fresh(t: Tree, m: Seq<char>, kept: Set<Seq<char>>)
    requires
        names_plain(t, kept),
    ensures
        names_fresh(t, m, kept),
    decreases t,
{
    assert forall|i: int| 0 <= i < t.children.len() implies names_fresh(
        #[trigger] t.children[i],
        m,
        kept,
    ) by {
        lemma_plain_is_fresh(t.children[i], m, kept);
    }
}

/// Whether a tree holds an identifier of this name.
pub open spec fn has_name(t: Tree, name: Seq<char>) -> bool
    decreases t,
{
    ||| holds_ident(t.kind) && t.sym == name
    ||| exists|i: int| 0 <= i < t.children.len() && has_name(#[trigger] t.children[i], name)
}

/// The names of the identifiers of a tree.
pub open spec fn names_in(t: Tree) -> Set<Seq<char>> {
    Set::new(|name: Seq<char>| has_name(t, name))
}

/// What holds of the names of a tree with regard to a set holds with regard to
/// every larger set.
pub proof fn lemma_names_grow(t: Tree, a: Set<Seq<char>>, b: Set<Seq<char>>)
    requires
        names_plain(t, a),
        forall|n: Seq<char>| a.contains(n) ==> b.contains(n),
    ensures
        names_plain(t, b),
    decreases t,
{
    assert forall|i: int| 0 <= i < t.children.len() implies names_plain(
        #[trigger] t.children[i],
        b,
    ) by {
        lemma_names_grow(t.children[i], a, b);
    }
}

/// Every identifier of a tree is among the names of the tree.
pub proof fn lemma_names_in(t: Tree)
    ensures
        names_plain(t, names_in(t)),
    decreases t,
{
    assert forall|i: int| 0 <= i < t.children.len() implies names_plain(
        #[trigger] t.children[i],
        names_in(t),
    ) by {
        lemma_names_in(t.children[i]);
        assert forall|n: Seq<char>| names_in(t.children[i]).contains(n) implies names_in(
            t,
        ).contains(n) by {
            assert(has_name(t.children[i], n));
        }
        lemma_names_grow(t.children[i], names_in(t.children[i]), names_in(t));
    }
    if holds_ident(t.kind) {
        assert(has_name(t, t.sym));
    }
}

/// Where none of the kept names begins with `$`, they may as well be left out.
pub proof fn lemma_fresh_narrow(t: Tree, m: Seq<char>, kept: Set<Seq<char>>)
    requires
        names_fresh(t, m, kept),
        forall|n: Seq<char>| kept.contains(n) ==> !begins_with_dollar(n),
    ensures
        names_fresh(t, m, Set::empty()),
    decreases t,
{
    assert forall|i: int| 0 <= i < t.children.len() implies names_fresh(
        #[trigger] t.children[i],
        m,
        Set::empty(),
    ) by {
        lemma_fresh_narrow(t.children[i], m, kept);
    }
}

/// A tree without an identifier that begins with `$` has no name that does.
pub proof fn lemma_no_dollar_names(t: Tree, name: Seq<char>)
    requires
        names_plain(t, Set::empty()),
        has_name(t, name),
    ensures
        !begins_with_dollar(name),
    decreases t,
{
    if !(holds_ident(t.kind) && t.sym == name) {
        let i = choose|i: int| 0 <= i < t.children.len() && has_name(#[trigger] t.children[i], name);
        lemma_no_dollar_names(t.children[i], name);
    }
}

/// Whether a tree is a leaf that holds no identifier.
pub open spec fn is_bare(t: Tree) -> bool {
    !holds_ident(t.kind) && t.children.len() == 0
}

/// Whether a source is that of a binding that the analysis found.
pub open spec fn bound_source(c: CollectView, source: Seq<char>) -> bool {
    exists|id: IdentKey| #[trigger] c.imports.contains_key(id) && c.imports[id].source == source
}

/// Whether a list of statements holds the bare import `import "M:source"`.
pub open spec fn has_import(list: Seq<Tree>, m: Seq<char>, source: Seq<char>) -> bool {
    exists|i: int| 0 <= i < list.len() && #[trigger] list[i] == bare_import(m, source)
}

/// Whether an item is a module declaration that names a source: an import, a
/// re-export list or a re-export of everything.
pub open spec fn names_source(t: Tree) -> bool {
    t.kind == Kind::Import || t.kind == Kind::ExportFrom || t.kind == Kind::ExportAll
}

/// Whether a list of statements holds the bare import of the source of every
/// module declaration among the first `n` items of a module.
pub open spec fn declared_lifted(module: Tree, n: int, m: Seq<char>, list: Seq<Tree>) -> bool {
    forall|j: int|
        0 <= j < n && j < module.children.len() && names_source(#[trigger] module.children[j])
            ==> has_import(list, m, module.children[j].sym)
}

/// Statements that hold a bare import still do so with more statements before
/// them and after them.
pub proof fn lemma_import_stays(
    front: Seq<Tree>,
    list: Seq<Tree>,
    more: Seq<Tree>,
    m: Seq<char>,
    source: Seq<char>,
)
    requires
        has_import(list, m, source),
    ensures
        has_import(front + list + more, m, source),
{
    let i = choose|i: int| 0 <= i < list.len() && #[trigger] list[i] == bare_import(m, source);
    assert((front + list + more)[front.len() + i] == list[i]);
}

/// What the rewrite of an item from `h0` to `h1` keeps, with the statements
/// `before` it and `after` it: if no import was queued and the statements held
/// the bare imports that `lifted` asks for, it is so afterwards.
pub open spec fn lifted_onto(h0: HoistView, before: Seq<Tree>, h1: HoistView, after: Seq<Tree>) -> bool {
    h0.requires_in_stmt.len() == 0 && h0.lifted(before) ==> h1.requires_in_stmt.len() == 0
        && h1.lifted(after)
}

/// Statements that hold the bare import of every dynamic import still do so
/// with more statements before them and after them.
pub proof fn lemma_lifted_grows(h: HoistView, front: Seq<Tree>, list: Seq<Tree>, more: Seq<Tree>)
    requires
        h.lifted(list),
    ensures
        h.lifted(front + list + more),
{
    let all = front + list + more;
    assert forall|k: Seq<char>| #[trigger] h.dynamic_imports.contains_key(k) implies has_import(
        all,
        h.module_id,
        h.dynamic_imports[k],
    ) by {
        let i = choose|i: int|
            0 <= i < list.len() && #[trigger] list[i] == bare_import(
                h.module_id,
                h.dynamic_imports[k],
            );
        assert(all[front.len() + i] == list[i]);
    }
    assert forall|n: Seq<char>| #[trigger] h.imported_symbols.contains_key(n) implies has_import(
        all,
        h.module_id,
        h.imported_symbols[n].source,
    ) || bound_source(h.collect, h.imported_symbols[n].source) by {
        if has_import(list, h.module_id, h.imported_symbols[n].source) {
            let i = choose|i: int|
                0 <= i < list.len() && #[trigger] list[i] == bare_import(
                    h.module_id,
                    h.imported_symbols[n].source,
                );
            assert(all[front.len() + i] == list[i]);
        }
    }
}

/// Where statements hold the bare import of every dynamic import, and the
/// queue is kept from there on, they hold them all with the queue after them.
pub proof fn lemma_flush_lifts(h0: HoistView, h1: HoistView, before: Seq<Tree>)
    requires
        h0.lifted(before),
        h0.queue_kept(h1),
        h0.same_env(h1),
    ensures
        h1.flush().lifted(before + h1.requires_in_stmt),
{
    let all = before + h1.requires_in_stmt;
    assert forall|n: Seq<char>| #[trigger] h1.imported_symbols.contains_key(n) implies has_import(
        all,
        h1.module_id,
        h1.imported_symbols[n].source,
    ) || bound_source(h1.collect, h1.imported_symbols[n].source) by {
        let source = h1.imported_symbols[n].source;
        if bound_source(h1.collect, source) {
        } else if h0.imported_symbols.contains_key(n) && h0.imported_symbols[n]
            == h1.imported_symbols[n] {
            let i = choose|i: int|
                0 <= i < before.len() && #[trigger] before[i] == bare_import(h0.module_id, source);
            assert(all[i] == before[i]);
        } else {
            let i = choose|i: int|
                0 <= i < h1.requires_in_stmt.len() && #[trigger] h1.requires_in_stmt[i]
                    == bare_import(h1.module_id, source);
            assert(all[before.len() + i] == h1.requires_in_stmt[i]);
        }
    }
    assert forall|k: Seq<char>| #[trigger] h1.dynamic_imports.contains_key(k) implies has_import(
        all,
        h1.module_id,
        h1.dynamic_imports[k],
    ) by {
        if h0.dynamic_imports.contains_key(k) && h0.dynamic_imports[k] == h1.dynamic_imports[k] {
            let i = choose|i: int|
                0 <= i < before.len() && #[trigger] before[i] == bare_import(
                    h0.module_id,
                    h0.dynamic_imports[k],
                );
            assert(all[i] == before[i]);
        } else {
            let i = choose|i: int|
                0 <= i < h1.requires_in_stmt.len() && #[trigger] h1.requires_in_stmt[i]
                    == bare_import(h1.module_id, h1.dynamic_imports[k]);
            assert(all[before.len() + i] == h1.requires_in_stmt[i]);
        }
    }
}

/// What is kept of the queue from one state to a second, and from that to a
/// third, is kept from the first to the third.
pub proof fn lemma_queue_chain(a: HoistView, b: HoistView, c: HoistView)
    requires
        a.queue_kept(b),
        b.queue_kept(c),
        b.same_env(c),
    ensures
        a.queue_kept(c),
{
    assert forall|n: Seq<char>| #[trigger] c.imported_symbols.contains_key(n) implies (
    a.imported_symbols.contains_key(n) && a.imported_symbols[n] == c.imported_symbols[n])
        || c.queued(c.imported_symbols[n].source) || bound_source(
        c.collect,
        c.imported_symbols[n].source,
    ) by {
        let source = c.imported_symbols[n].source;
        if b.imported_symbols.contains_key(n) && b.imported_symbols[n] == c.imported_symbols[n]
            && b.queued(source) {
            let i = choose|i: int|
                0 <= i < b.requires_in_stmt.len() && #[trigger] b.requires_in_stmt[i]
                    == bare_import(b.module_id, source);
            assert(c.requires_in_stmt[i] == b.requires_in_stmt[i]);
        }
    }
    assert forall|k: Seq<char>| #[trigger] c.dynamic_imports.contains_key(k) implies (
    a.dynamic_imports.contains_key(k) && a.dynamic_imports[k] == c.dynamic_imports[k]) || c.queued(
        c.dynamic_imports[k],
    ) by {
        if b.dynamic_imports.contains_key(k) && b.dynamic_imports[k] == c.dynamic_imports[k] && !(
        a.dynamic_imports.contains_key(k) && a.dynamic_imports[k] == b.dynamic_imports[k]) {
            let i = choose|i: int|
                0 <= i < b.requires_in_stmt.len() && #[trigger] b.requires_in_stmt[i]
                    == bare_import(b.module_id, b.dynamic_imports[k]);
            assert(c.requires_in_stmt[i] == b.requires_in_stmt[i]);
        }
    }
}

/// A state that queues the bare import of a source has it in its queue.
pub proof fn lemma_queued(h: HoistView, source: Seq<char>)
    ensures
        h.queue_import(source).queued(source),
        h.queue_kept(h.queue_import(source)),
{
    let n = h.queue_import(source);
    assert(n.requires_in_stmt[h.requires_in_stmt.len() as int] == bare_import(
        n.module_id,
        source,
    ));
    assert forall|k: Seq<char>| #[trigger] n.dynamic_imports.contains_key(k) implies (
    h.dynamic_imports.contains_key(k) && h.dynamic_imports[k] == n.dynamic_imports[k]) by {}
    assert forall|k: Seq<char>| #[trigger] n.imported_symbols.contains_key(k) implies (
    h.imported_symbols.contains_key(k) && h.imported_symbols[k] == n.imported_symbols[k]) by {}
}

/// What a rewrite step from `h0` to `h1` that turns `t` into `r` keeps: if the
/// state was tidy and the identifiers of `t` that begin with `$` are among
/// `kept`, the state is tidy and every identifier of `r` is free of clashes or
/// among `kept`.
pub open spec fn fresh_fold(
    h0: HoistView,
    t: Tree,
    h1: HoistView,
    r: Tree,
    kept: Set<Seq<char>>,
) -> bool {
    h0.tidy() && names_plain(t, kept) ==> h1.tidy() && names_fresh(r, h0.module_id, kept)
}

/// The same for a step that turns `t` into statements at the end of a list.
pub open spec fn fresh_onto(
    h0: HoistView,
    t: Tree,
    before: Seq<Tree>,
    h1: HoistView,
    after: Seq<Tree>,
    kept: Set<Seq<char>>,
) -> bool {
    h0.tidy() && names_plain(t, kept) && all_fresh(before, h0.module_id, kept) ==> h1.tidy()
        && all_fresh(after, h0.module_id, kept)
}

impl HoistView {
    /// Whether the queued imports are leaves without an identifier, and every
    /// export symbol that needs a declaration is a generated name.
    pub open spec fn tidy(self) -> bool {
        &&& forall|i: int|
            0 <= i < self.requires_in_stmt.len() ==> is_bare(#[trigger] self.requires_in_stmt[i])
        &&& forall|i: int|
            0 <= i < self.export_decls.len() ==> is_generated(
                self.module_id,
                #[trigger] self.export_decls[i],
            )
    }

    /// The state before the rewrite.
    pub open spec fn start(module_id: Seq<char>, collect: CollectView, global_mark: u32) -> HoistView {
        HoistView {
            module_id,
            collect,
            global_mark,
            requires_in_stmt: Seq::empty(),
            export_decls: Seq::empty(),
            imported_symbols: Map::empty(),
            exported_symbols: Map::empty(),
            re_exports: Seq::empty(),
            self_references: Set::empty(),
            dynamic_imports: Map::empty(),
            in_function_scope: false,
            error: None,
        }
    }

    /// Records where a generated import name comes from, unless the name has a
    /// record: the place that stays is that of the first occurrence.
    pub open spec fn import_symbol(
        self,
        name: Seq<char>,
        source: Seq<char>,
        local: Seq<char>,
        loc: Span,
    ) -> HoistView {
        if self.imported_symbols.contains_key(name) {
            self
        } else {
            HoistView {
                imported_symbols: self.imported_symbols.insert(
                    name,
                    ImportedSymbolView { source, local, loc },
                ),
                ..self
            }
        }
    }

    /// Records the symbol of an exported name, unless the name has one.
    pub open spec fn export_symbol(self, exported: Seq<char>, symbol: Seq<char>, loc: Span) -> HoistView {
        if self.exported_symbols.contains_key(exported) {
            self
        } else {
            HoistView {
                exported_symbols: self.exported_symbols.insert(
                    exported,
                    ExportedSymbolView { symbol, loc },
                ),
                ..self
            }
        }
    }

    /// Records that the module reads one of its own exports.
    pub open spec fn refer_self(self, name: Seq<char>) -> HoistView {
        HoistView { self_references: self.self_references.insert(name), ..self }
    }

    /// Records a dynamic import.
    pub open spec fn dynamic_import(self, name: Seq<char>, source: Seq<char>) -> HoistView {
        HoistView { dynamic_imports: self.dynamic_imports.insert(name, source), ..self }
    }

    /// Records a re-export.
    pub open spec fn re_export(
        self,
        exported: Seq<char>,
        source: Seq<char>,
        local: Seq<char>,
        loc: Span,
    ) -> HoistView {
        HoistView {
            re_exports: self.re_exports.push(ReExportView { exported, source, local, loc }),
            ..self
        }
    }

    /// Records an export symbol that needs a declaration at the top of the module.
    pub open spec fn declare_export(self, symbol: Seq<char>) -> HoistView {
        if self.export_decls.contains(symbol) {
            self
        } else {
            HoistView { export_decls: self.export_decls.push(symbol), ..self }
        }
    }

    /// Queues the bare import of a source for the statement that is being rewritten.
    pub open spec fn queue_import(self, source: Seq<char>) -> HoistView {
        HoistView {
            requires_in_stmt: self.requires_in_stmt.push(bare_import(self.module_id, source)),
            ..self
        }
    }

    /// Empties the queue of bare imports.
    pub open spec fn flush(self) -> HoistView {
        HoistView { requires_in_stmt: Seq::empty(), ..self }
    }

    /// Records a reason for which the module cannot be hoisted, unless one is recorded.
    pub open spec fn fail(self, e: HoistError) -> HoistView {
        if self.error is None {
            HoistView { error: Some(e), ..self }
        } else {
            self
        }
    }

    /// Whether every export that the module reads from itself has a symbol.
    pub open spec fn self_references_exported(self) -> bool {
        forall|n: Seq<char>| #[trigger]
            self.self_references.contains(n) ==> self.exported_symbols.contains_key(n)
    }

    /// Whether every dynamic import is recorded under the name `$M$importAsync$H(s)`
    /// of its source `s`.
    pub open spec fn dynamic_imports_named(self) -> bool {
        forall|k: Seq<char>| #[trigger]
            self.dynamic_imports.contains_key(k) ==> k == async_name(
                self.module_id,
                self.dynamic_imports[k],
            )
    }

    /// Whether the symbol of every exported name `e` is `$M$export$e`, and that of
    /// `*` is `$M$exports`.
    pub open spec fn exports_named(self) -> bool {
        forall|e: Seq<char>| #[trigger]
            self.exported_symbols.contains_key(e) ==> self.exported_symbols[e].symbol
                == export_name(self.module_id, e)
    }

    /// Whether two states belong to the same module and the same analysis.
    pub open spec fn same_env(self, next: HoistView) -> bool {
        next.module_id == self.module_id && next.collect == self.collect && next.global_mark
            == self.global_mark
    }

    /// Whether the bare import of a source is in the queue.
    pub open spec fn queued(self, source: Seq<char>) -> bool {
        exists|i: int|
            0 <= i < self.requires_in_stmt.len() && #[trigger] self.requires_in_stmt[i]
                == bare_import(self.module_id, source)
    }

    /// Whether the bare import of the source of every dynamic import that
    /// `next` has and `self` has not is in the queue of `next`, and that of the
    /// source of every such imported symbol, unless it is the source of a
    /// binding that the analysis found.
    pub open spec fn lifts(self, next: HoistView) -> bool {
        &&& forall|k: Seq<char>| #[trigger]
            next.dynamic_imports.contains_key(k) ==> (self.dynamic_imports.contains_key(k)
                && self.dynamic_imports[k] == next.dynamic_imports[k]) || next.queued(
                next.dynamic_imports[k],
            )
        &&& forall|n: Seq<char>| #[trigger]
            next.imported_symbols.contains_key(n) ==> (self.imported_symbols.contains_key(n)
                && self.imported_symbols[n] == next.imported_symbols[n]) || next.queued(
                next.imported_symbols[n].source,
            ) || bound_source(next.collect, next.imported_symbols[n].source)
    }

    /// Whether a list of statements holds the bare import of the source of
    /// every dynamic import, and of the source of every imported symbol that is
    /// not the source of a binding that the analysis found.
    pub open spec fn lifted(self, list: Seq<Tree>) -> bool {
        &&& forall|k: Seq<char>| #[trigger]
            self.dynamic_imports.contains_key(k) ==> has_import(
                list,
                self.module_id,
                self.dynamic_imports[k],
            )
        &&& forall|n: Seq<char>| #[trigger]
            self.imported_symbols.contains_key(n) ==> has_import(
                list,
                self.module_id,
                self.imported_symbols[n].source,
            ) || bound_source(self.collect, self.imported_symbols[n].source)
    }

    /// Whether `next` still has every import that is queued in `self`, at the
    /// same place of the queue, and has queued the bare imports of what it has
    /// recorded since.
    pub open spec fn queue_kept(self, next: HoistView) -> bool {
        &&& self.requires_in_stmt.len() <= next.requires_in_stmt.len()
        &&& forall|i: int|
            0 <= i < self.requires_in_stmt.len() ==> #[trigger] next.requires_in_stmt[i]
                == self.requires_in_stmt[i]
        &&& self.lifts(next)
    }

    /// Whether `next` may follow `self` in a rewrite: it belongs to the same
    /// module, it keeps what holds of the self-references and of the dynamic
    /// imports, and in a wrapped module it records no self-reference.
    pub open spec fn steps(self, next: HoistView) -> bool {
        &&& self.same_env(next)
        &&& self.self_references_exported() ==> next.self_references_exported()
        &&& self.dynamic_imports_named() ==> next.dynamic_imports_named()
        &&& self.collect.should_wrap ==> next.self_references == self.self_references
    }

    /// Whether `next` may follow `self` and, in a module that is not wrapped,
    /// keeps the symbols of the exported names as they are named.
    pub open spec fn keeps(self, next: HoistView) -> bool {
        &&& self.steps(next)
        &&& self.exports_named() && !self.collect.should_wrap ==> next.exports_named()
    }

    /// The name of an import, recorded with its origin unless it has a record.
    pub open spec fn import_ident(self, source: Seq<char>, local: Seq<char>, loc: Span) -> Named {
        let name = import_name(self.module_id, source, local);
        Named { state: self.import_symbol(name, source, local, loc), name }
    }

    /// The name of an export, recorded as the symbol of the exported name unless
    /// that has one.
    pub open spec fn export_ident(self, exported: Seq<char>, loc: Span) -> Named {
        let name = export_name(self.module_id, exported);
        Named { state: self.export_symbol(exported, name, loc), name }
    }

    /// The name that replaces a read of the export `key` of the module itself.
    pub open spec fn own_export(self, key: Seq<char>, loc: Span) -> Named {
        self.refer_self(key).export_ident(key, loc)
    }
}

/// The new name of an identifier that is no static import: an exported binding
/// gets its export name, the free name `exports` the name of the exports object,
/// the free name `global` its replacement, and a top-level binding its variable
/// name. In a wrapped module only `global` is renamed, and an exported binding
/// is recorded under its own name.
pub open spec fn rename_local(h: HoistView, t: Tree) -> Renamed {
    let c = h.collect;
    let id = key_of(t);
    if c.exports.contains_key(id) {
        if c.should_wrap {
            Renamed { state: h.export_symbol(c.exports[id], t.sym, t.span), name: None }
        } else {
            let n = h.export_ident(c.exports[id], t.span);
            Renamed { state: n.state, name: Some(n.name) }
        }
    } else if t.sym == "exports"@ && is_free(t, c.decls) && !c.should_wrap {
        let n = h.own_export(star(), t.span);
        Renamed { state: n.state, name: Some(n.name) }
    } else if t.sym == "global"@ && is_free(t, c.decls) {
        Renamed { state: h, name: Some(global_name()) }
    } else if t.ctxt == seq![h.global_mark] && c.decls.contains(id) && !c.should_wrap {
        Renamed { state: h, name: Some(var_name(h.module_id, t.sym)) }
    } else {
        Renamed { state: h, name: None }
    }
}

/// Whether an identifier is bound to an import whose source is analyzable.
pub open spec fn is_static_import(c: CollectView, t: Tree) -> bool {
    c.imports.contains_key(key_of(t)) && !c.non_static_requires.contains(
        c.imports[key_of(t)].source,
    )
}

/// The new name of an identifier. A binding of a static import gets its import
/// name. A binding of a dynamic import keeps its name, and what it stands for is
/// recorded under the name of the dynamic import.
pub open spec fn rename(h: HoistView, t: Tree) -> Renamed {
    let c = h.collect;
    let id = key_of(t);
    let imp = c.imports[id];
    if is_static_import(c, t) && !imp.is_async {
        let n = h.import_ident(imp.source, imp.local, imp.loc);
        Renamed { state: n.state, name: Some(n.name) }
    } else if is_static_import(c, t) && imp.local != star() {
        rename_local(
            h.import_symbol(
                async_symbol_name(h.module_id, imp.source, imp.local),
                imp.source,
                imp.local,
                imp.loc,
            ),
            t,
        )
    } else if is_static_import(c, t) && c.non_static_access.contains(id) {
        rename_local(
            h.import_symbol(async_name(h.module_id, imp.source), imp.source, star(), imp.loc),
            t,
        )
    } else {
        rename_local(h, t)
    }
}

/// The identifier that replaces an expression.
pub open spec fn replaced(n: Named, span: Span) -> Folded {
    Folded { state: n.state, tree: leaf_tree(Kind::Ident, n.name, span) }
}

/// Whether an identifier is bound to the whole namespace of an analyzable source
/// and is used with static keys only.
pub open spec fn is_namespace(c: CollectView, t: Tree) -> bool {
    is_static_import(c, t) && c.imports[key_of(t)].local == star() && !c.non_static_access.contains(
        key_of(t),
    )
}

/// Whether the exports of the module can be replaced one by one.
pub open spec fn flat_exports(c: CollectView) -> bool {
    c.static_cjs_exports && !c.should_wrap
}

/// Whether a node is the exports object: `module.exports`, or the free name
/// `exports`.
pub open spec fn is_exports_object(t: Tree, decls: Set<crate::tables::IdentKey>) -> bool {
    (is_member(t) && is_module_exports(t, decls)) || is_free_exports(t, decls)
}

/// The rewrite of the children of a node, from number `i` on.
pub open spec fn fold_list(h: HoistView, t: Tree, i: int) -> FoldedList
    decreases t, t.children.len() - i,
{
    if 0 <= i < t.children.len() {
        let a = fold(h, t.children[i]);
        let b = fold_list(a.state, t, i + 1);
        FoldedList { state: b.state, trees: seq![a.tree] + b.trees }
    } else {
        FoldedList { state: h, trees: Seq::empty() }
    }
}

/// The rewrite of a node that is not replaced: its identifier, if it holds one,
/// is renamed, and its children are rewritten in order.
pub open spec fn fold_generic(h: HoistView, t: Tree) -> Folded
    decreases t, t.children.len() + 1,
{
    let r = if holds_ident(t.kind) {
        rename(h, t)
    } else {
        Renamed { state: h, name: None }
    };
    let l = fold_list(r.state, t, 0);
    Folded { state: l.state, tree: renamed(t, r.name, l.trees) }
}

/// The rewrite of a function, a class, a getter or a setter: inside, `this` is
/// not the exports object.
pub open spec fn fold_scope(h: HoistView, t: Tree) -> Folded
    decreases t, t.children.len() + 2,
{
    let f = fold_generic(HoistView { in_function_scope: true, ..h }, t);
    Folded { state: HoistView { in_function_scope: h.in_function_scope, ..f.state }, tree: f.tree }
}

/// The rewrite of the property of a member access: an expression in brackets
/// is rewritten, a name after a dot is no reference and stays as it is.
pub open spec fn fold_property(h: HoistView, m: Tree) -> Folded
    decreases m, 0nat,
{
    if m.kind == Kind::Index && m.children.len() == 2 {
        fold(h, m.children[1])
    } else if m.children.len() == 2 {
        Folded { state: h, tree: m.children[1] }
    } else {
        Folded { state: h, tree: m }
    }
}

/// The rewrite of a member access that is not replaced: its object is
/// rewritten, and then its property.
pub open spec fn fold_access(h: HoistView, t: Tree) -> Folded
    decreases t, t.children.len() + 2,
{
    if is_member(t) {
        let o = fold(h, t.children[0]);
        let p = fold_property(o.state, t);
        Folded { state: p.state, tree: Tree { children: seq![o.tree, p.tree], ..t } }
    } else {
        fold_generic(h, t)
    }
}

/// The rewrite of `obj.key` where `obj` is an identifier: a member of a
/// namespace import becomes the import of `key`, a member of a dynamic
/// namespace import records the import of `key`, and a member of the free name
/// `exports` becomes the export `key`.
pub open spec fn fold_member_of_ident(h: HoistView, t: Tree, key: Seq<char>) -> Folded
    decreases t, t.children.len() + 3,
{
    let c = h.collect;
    let obj = t.children[0];
    let imp = c.imports[key_of(obj)];
    if is_namespace(c, obj) && !imp.is_async {
        replaced(h.import_ident(imp.source, key, t.span), t.span)
    } else {
        let h1 = if is_namespace(c, obj) {
            h.import_symbol(async_symbol_name(h.module_id, imp.source, key), imp.source, key, t.span)
        } else {
            h
        };
        if obj.sym == "exports"@ && is_free(obj, c.decls) && flat_exports(c) {
            replaced(h1.own_export(key, t.span), t.span)
        } else {
            fold_access(h1, t)
        }
    }
}

/// The rewrite of a member access.
pub open spec fn fold_member(h: HoistView, t: Tree) -> Folded
    decreases t, t.children.len() + 4,
{
    let c = h.collect;
    if !is_member(t) {
        fold_generic(h, t)
    } else if !c.should_wrap && is_module_exports(t, c.decls) {
        replaced(h.own_export(star(), t.span), t.span)
    } else if static_key(t) is None {
        fold_access(h, t)
    } else {
        let key = static_key(t)->0;
        let obj = t.children[0];
        if obj.kind == Kind::Ident {
            fold_member_of_ident(h, t, key)
        } else if obj.kind == Kind::Call && require_source(obj, c.decls, c.ignore_mark) is Some {
            let source = require_source(obj, c.decls, c.ignore_mark)->0;
            replaced(h.queue_import(source).import_ident(source, key, t.span), t.span)
        } else if is_member(obj) && flat_exports(c) && is_module_exports(obj, c.decls) {
            replaced(h.own_export(key, t.span), t.span)
        } else if obj.kind == Kind::This && flat_exports(c) && !h.in_function_scope && !c.is_esm {
            replaced(h.own_export(key, t.span), t.span)
        } else {
            fold_access(h, t)
        }
    }
}

/// The rewrite of a call: `require(s)` becomes the namespace import of `s`,
/// `import(s)` the dynamic import of `s`, and both queue the bare import of `s`.
pub open spec fn fold_call(h: HoistView, t: Tree) -> Folded
    decreases t, t.children.len() + 2,
{
    let c = h.collect;
    if require_source(t, c.decls, c.ignore_mark) is Some {
        let source = require_source(t, c.decls, c.ignore_mark)->0;
        replaced(h.queue_import(source).import_ident(source, star(), t.span), t.span)
    } else if import_source(t, c.ignore_mark) is Some {
        let source = import_source(t, c.ignore_mark)->0;
        let name = async_name(h.module_id, source);
        let h1 = h.queue_import(source).dynamic_import(name, source);
        let h2 = if c.non_static_requires.contains(source) || c.should_wrap {
            h1.import_symbol(name, source, star(), t.span)
        } else {
            h1
        };
        replaced(Named { state: h2, name }, t.span)
    } else {
        fold_generic(h, t)
    }
}

/// The rewrite of `this` outside every function, in a module that is not
/// wrapped: `undefined` where the module has module declarations, and the
/// exports object where it has none.
pub open spec fn fold_this(h: HoistView, t: Tree) -> Folded
    decreases t, t.children.len() + 2,
{
    if !h.in_function_scope && !h.collect.should_wrap && h.collect.is_esm {
        Folded { state: h, tree: leaf_tree(Kind::Ident, "undefined"@, dummy_span()) }
    } else if !h.in_function_scope && !h.collect.should_wrap {
        replaced(h.own_export(star(), t.span), t.span)
    } else {
        fold_generic(h, t)
    }
}

/// The rewrite of `typeof arg`: `typeof require`, with `require` free, is the
/// string `"function"`.
pub open spec fn fold_typeof(h: HoistView, t: Tree) -> Folded
    decreases t, t.children.len() + 2,
{
    if t.children.len() == 1 && t.children[0].kind == Kind::Ident && t.children[0].sym
        == "require"@ && is_free(t.children[0], h.collect.decls) {
        Folded { state: h, tree: leaf_tree(Kind::Str, "function"@, t.span) }
    } else {
        fold_generic(h, t)
    }
}

/// The rewrite of the expressions of a comma expression, from number `i` on:
/// every `require(s)` but the last expression is put under a `!`.
pub open spec fn fold_sequence_list(h: HoistView, t: Tree, i: int) -> FoldedList
    decreases t, t.children.len() - i,
{
    if 0 <= i < t.children.len() {
        let e = t.children[i];
        let a = fold(h, e);
        let kept = if i != t.children.len() - 1 && require_source(
            e,
            h.collect.decls,
            h.collect.ignore_mark,
        ) is Some {
            branch_tree(Kind::Not, dummy_span(), 0, seq![a.tree])
        } else {
            a.tree
        };
        let b = fold_sequence_list(a.state, t, i + 1);
        FoldedList { state: b.state, trees: seq![kept] + b.trees }
    } else {
        FoldedList { state: h, trees: Seq::empty() }
    }
}

/// The rewrite of a comma expression.
pub open spec fn fold_sequence(h: HoistView, t: Tree) -> Folded
    decreases t, t.children.len() + 1,
{
    let l = fold_sequence_list(h, t, 0);
    Folded { state: l.state, tree: Tree { children: l.trees, ..t } }
}

/// The rewrite of an assignment whose target is replaced by the binding `name`.
pub open spec fn fold_assign_to(n: Named, t: Tree) -> Folded
    decreases t, 0nat,
{
    if t.children.len() == 2 {
        let r = fold(n.state, t.children[1]);
        Folded {
            state: r.state,
            tree: Tree {
                children: seq![leaf_tree(Kind::BindingIdent, n.name, t.children[0].span), r.tree],
                ..t
            },
        }
    } else {
        Folded { state: n.state, tree: t }
    }
}

/// The rewrite of an assignment to a member of the exports object, in a module
/// whose exports are not static: the object becomes the name of the exports
/// object, and the property stays.
pub open spec fn fold_assign_dynamic(h: HoistView, t: Tree) -> Folded
    decreases t, 0nat,
{
    if t.children.len() == 2 && t.children[0].children.len() == 2 {
        let m = t.children[0];
        let n = h.export_ident(star(), m.span);
        let p = fold_property(n.state, m);
        let r = fold(p.state, t.children[1]);
        Folded {
            state: r.state,
            tree: Tree {
                children: seq![
                    Tree { children: seq![leaf_tree(Kind::Ident, n.name, m.span), p.tree], ..m },
                    r.tree,
                ],
                ..t
            },
        }
    } else {
        Folded { state: h, tree: t }
    }
}

/// The rewrite of an assignment. In a module that is not wrapped,
/// `module.exports = v` assigns to the name of the exports object, and
/// `exports.k = v` assigns to the export `k`, which gets a declaration at the top
/// of the module.
pub open spec fn fold_assign(h: HoistView, t: Tree) -> Folded
    decreases t, t.children.len() + 2,
{
    let c = h.collect;
    if c.should_wrap || t.children.len() != 2 || !is_member(t.children[0]) {
        fold_generic(h, t)
    } else {
        let m = t.children[0];
        if is_module_exports(m, c.decls) {
            fold_assign_to(h.export_ident(star(), m.span), t)
        } else if !is_exports_object(m.children[0], c.decls) {
            fold_generic(h, t)
        } else if !c.static_cjs_exports {
            fold_assign_dynamic(h, t)
        } else if static_key(m) is None {
            fold_generic(h.fail(HoistError::DynamicExportWrite), t)
        } else {
            let n = h.export_ident(static_key(m)->0, m.span);
            fold_assign_to(Named { state: n.state.declare_export(n.name), name: n.name }, t)
        }
    }
}

/// The rewrite of a property of an object literal. In a module that is not
/// wrapped, `{ x }` becomes `{ x: <name of x> }`, so that a new name of `x`
/// leaves the key as it was. Of any other property the key is kept, if it is a
/// name, and the rest is rewritten.
pub open spec fn fold_prop(h: HoistView, t: Tree) -> Folded
    decreases t, t.children.len() + 2,
{
    if h.collect.should_wrap || t.kind != Kind::Shorthand {
        fold_generic(h, t)
    } else {
        let r = rename(h, t);
        Folded {
            state: r.state,
            tree: branch_tree(
                Kind::KeyValue,
                dummy_span(),
                0,
                seq![
                    leaf_tree(Kind::Key, t.sym, dummy_span()),
                    renamed(Tree { kind: Kind::Ident, ..t }, r.name, Seq::empty()),
                ],
            ),
        }
    }
}

/// The rewrite of `{ key }` or `{ key = value }` in an object pattern. In a
/// module that is not wrapped it becomes `{ key: <name of key> }`, with the
/// default value if there is one.
pub open spec fn fold_assign_pat_prop(h: HoistView, t: Tree) -> Folded
    decreases t, t.children.len() + 2,
{
    if h.collect.should_wrap || t.kind != Kind::AssignPatProp || t.children.len() != 1 {
        fold_generic(h, t)
    } else {
        let r = rename(h, t);
        let key = leaf_tree(Kind::Key, t.sym, dummy_span());
        let binding = renamed(Tree { kind: Kind::BindingIdent, ..t }, r.name, Seq::empty());
        if t.children[0].kind == Kind::Absent {
            Folded {
                state: r.state,
                tree: branch_tree(Kind::KeyValuePat, dummy_span(), 0, seq![key, binding]),
            }
        } else {
            let v = fold(r.state, t.children[0]);
            Folded {
                state: v.state,
                tree: branch_tree(
                    Kind::KeyValuePat,
                    dummy_span(),
                    0,
                    seq![key, branch_tree(Kind::AssignPat, dummy_span(), 0, seq![binding, v.tree])],
                ),
            }
        }
    }
}

/// One specifier of `export { .. } from source`.
pub open spec fn re_export_spec(h: HoistView, source: Seq<char>, sp: Tree) -> HoistView {
    if sp.kind == Kind::ExportSpec && sp.children.len() == 2 {
        h.re_export(exported_name(sp), source, sp.children[0].sym, sp.span)
    } else if sp.kind == Kind::ExportSpecDefault && sp.children.len() == 1 {
        h.re_export(sp.children[0].sym, source, "default"@, sp.children[0].span)
    } else if sp.kind == Kind::ExportSpecNamespace && sp.children.len() == 1 {
        h.re_export(sp.children[0].sym, source, star(), sp.span)
    } else {
        h
    }
}

/// The specifiers of `export { .. } from source`, from number `i` on.
pub open spec fn re_export_specs(h: HoistView, t: Tree, i: int) -> HoistView
    decreases t.children.len() - i,
{
    if 0 <= i < t.children.len() {
        re_export_specs(re_export_spec(h, t.sym, t.children[i]), t, i + 1)
    } else {
        h
    }
}

/// One specifier of `export { .. }`: a binding of an import is re-exported; any
/// other binding is exported under the symbol of the name that the analysis
/// recorded for it, which in a wrapped module is that name itself.
pub open spec fn export_list_spec(h: HoistView, sp: Tree) -> HoistView {
    let c = h.collect;
    if sp.kind == Kind::ExportSpec && sp.children.len() == 2 {
        let id = key_of(sp.children[0]);
        if c.imports.contains_key(id) {
            h.re_export(exported_name(sp), c.imports[id].source, c.imports[id].local, sp.span)
        } else if !c.exports.contains_key(id) {
            h.fail(HoistError::UnknownExport)
        } else if c.should_wrap {
            h.export_symbol(exported_name(sp), sp.children[0].sym, sp.span)
        } else {
            let n = h.export_ident(c.exports[id], dummy_span());
            n.state.export_symbol(exported_name(sp), n.name, sp.span)
        }
    } else {
        h
    }
}

/// Whether a specifier of `export { .. }` exports its binding under the name
/// that the analysis recorded for the binding.
pub open spec fn is_plain_export(c: CollectView, sp: Tree) -> bool {
    (sp.kind == Kind::ExportSpec && sp.children.len() == 2 && !c.imports.contains_key(
        key_of(sp.children[0]),
    ) && c.exports.contains_key(key_of(sp.children[0]))) ==> exported_name(sp) == c.exports[key_of(
        sp.children[0],
    )]
}

/// Whether every specifier of an item that is `export { .. }` is plain.
pub open spec fn is_plain_item(c: CollectView, t: Tree) -> bool {
    t.kind == Kind::ExportNamed ==> forall|j: int|
        0 <= j < t.children.len() ==> is_plain_export(c, #[trigger] t.children[j])
}

/// Whether every export list of a module exports each binding under the name
/// that the analysis recorded for it: no binding is exported under two names.
pub open spec fn has_plain_exports(c: CollectView, module: Tree) -> bool {
    forall|i: int| 0 <= i < module.children.len() ==> is_plain_item(c, #[trigger] module.children[i])
}

/// The specifiers of `export { .. }`, from number `i` on.
pub open spec fn export_list(h: HoistView, t: Tree, i: int) -> HoistView
    decreases t.children.len() - i,
{
    if 0 <= i < t.children.len() {
        export_list(export_list_spec(h, t.children[i]), t, i + 1)
    } else {
        h
    }
}

/// The source of a declarator `v = require(s)` or `v = require(s).k` whose
/// source is analyzable: such a declarator is replaced by a bare import.
pub open spec fn stripped_require(c: CollectView, v: Tree) -> Option<Seq<char>> {
    if v.children.len() != 2 {
        None
    } else {
        let init = v.children[1];
        let direct = require_source(init, c.decls, c.ignore_mark);
        if direct is Some && !c.non_static_requires.contains(direct->0) {
            direct
        } else if is_member(init) {
            let inner = require_source(init.children[0], c.decls, c.ignore_mark);
            if inner is Some && !c.non_static_requires.contains(inner->0) {
                inner
            } else {
                None
            }
        } else {
            None
        }
    }
}

/// The declaration with these declarators, if there are any.
pub open spec fn flush_decls(var: Tree, decls: Seq<Tree>) -> Seq<Tree> {
    if decls.len() > 0 {
        seq![Tree { children: decls, ..var }]
    } else {
        Seq::empty()
    }
}

/// The declarators of a top-level variable declaration, from number `i` on. A
/// declarator that is a stripped `require` ends the statement in the making and
/// gives a bare import. A declarator whose rewrite queued imports ends the
/// statement in the making and gives those imports before itself.
pub open spec fn split_from(s: SplitFold, var: Tree, i: int) -> SplitFold
    decreases var, var.children.len() - i,
{
    if 0 <= i < var.children.len() {
        let v = var.children[i];
        let h = s.state;
        if stripped_require(h.collect, v) is Some {
            split_from(
                SplitFold {
                    state: h,
                    items: s.items + flush_decls(var, s.decls) + seq![
                        bare_import(h.module_id, stripped_require(h.collect, v)->0),
                    ],
                    decls: Seq::empty(),
                },
                var,
                i + 1,
            )
        } else {
            let d = fold(h, v);
            if d.state.requires_in_stmt.len() > 0 {
                split_from(
                    SplitFold {
                        state: d.state.flush(),
                        items: s.items + flush_decls(var, s.decls) + d.state.requires_in_stmt,
                        decls: seq![d.tree],
                    },
                    var,
                    i + 1,
                )
            } else {
                split_from(
                    SplitFold { state: d.state, items: s.items, decls: s.decls.push(d.tree) },
                    var,
                    i + 1,
                )
            }
        }
    } else {
        SplitFold { state: s.state, items: s.items + flush_decls(var, s.decls), decls: Seq::empty() }
    }
}

/// The rewrite of a statement: the imports that it queued come before it.
pub open spec fn fold_statement(h: HoistView, t: Tree) -> ItemFold
    decreases t, t.children.len() + 6,
{
    let d = fold(h, t);
    ItemFold {
        state: d.state.flush(),
        hoisted: Seq::empty(),
        items: d.state.requires_in_stmt.push(d.tree),
    }
}

/// The rewrite of `export default <expr>`: `var $M$export$default = <expr>;`
/// after the imports that the expression queued.
pub open spec fn fold_default_expr(h: HoistView, t: Tree) -> ItemFold
    decreases t, t.children.len() + 7,
{
    if t.children.len() == 1 {
        let n = h.export_ident("default"@, t.span);
        let e = fold(n.state, t.children[0]);
        ItemFold {
            state: e.state.flush(),
            hoisted: Seq::empty(),
            items: e.state.requires_in_stmt.push(
                var_decl(dummy_span(), leaf_tree(Kind::BindingIdent, n.name, t.span), e.tree),
            ),
        }
    } else {
        fold_statement(h, t)
    }
}

/// Whether a default export declares a function or a class.
pub open spec fn is_default_decl(t: Tree) -> bool {
    t.children.len() == 1 && (t.children[0].kind == Kind::FnExpr || t.children[0].kind
        == Kind::ClassExpr) && t.children[0].children.len() == 2
}

/// The rewrite of `export default function/class`: a declaration under the
/// name `$M$export$default`, after the imports that its body queued. Any other
/// declaration cannot be hoisted.
pub open spec fn fold_default_decl(h: HoistView, t: Tree) -> ItemFold
    decreases t, t.children.len() + 7,
{
    if is_default_decl(t) {
        let d = t.children[0];
        let n = h.export_ident("default"@, dummy_span());
        let b = fold(n.state, d.children[1]);
        ItemFold {
            state: b.state.flush(),
            hoisted: Seq::empty(),
            items: b.state.requires_in_stmt.push(
                branch_tree(
                    if d.kind == Kind::FnExpr {
                        Kind::FnDecl
                    } else {
                        Kind::ClassDecl
                    },
                    d.span,
                    0,
                    seq![leaf_tree(Kind::Name, n.name, dummy_span()), b.tree],
                ),
            ),
        }
    } else {
        fold_statement(h.fail(HoistError::UnsupportedDefaultExport), t)
    }
}

/// The rewrite of one item of the module body.
pub open spec fn fold_item(h: HoistView, t: Tree) -> ItemFold
    decreases t, t.children.len() + 8,
{
    let import = seq![bare_import(h.module_id, t.sym)];
    match t.kind {
        Kind::Import => ItemFold { state: h, hoisted: import, items: Seq::empty() },
        Kind::ExportFrom => ItemFold {
            state: re_export_specs(h, t, 0),
            hoisted: import,
            items: Seq::empty(),
        },
        Kind::ExportNamed => ItemFold {
            state: export_list(h, t, 0),
            hoisted: Seq::empty(),
            items: Seq::empty(),
        },
        Kind::ExportAll => ItemFold {
            state: h.re_export(star(), t.sym, star(), t.span),
            hoisted: import,
            items: Seq::empty(),
        },
        Kind::ExportDefaultExpr => fold_default_expr(h, t),
        Kind::ExportDefaultDecl => fold_default_decl(h, t),
        Kind::ExportDecl => if t.children.len() == 1 {
            fold_statement(h, t.children[0])
        } else {
            fold_statement(h, t)
        },
        Kind::VarDecl => {
            let s = split_from(
                SplitFold { state: h, items: Seq::empty(), decls: Seq::empty() },
                t,
                0,
            );
            ItemFold { state: s.state, hoisted: Seq::empty(), items: s.items }
        },
        _ => fold_statement(h, t),
    }
}

/// The rewrite of the items of the module body, from number `i` on, after what
/// the items before them have given.
pub open spec fn fold_items(f: ItemFold, t: Tree, i: int) -> ItemFold
    decreases t, t.children.len() - i,
{
    if 0 <= i < t.children.len() {
        let r = fold_item(f.state, t.children[i]);
        fold_items(
            ItemFold { state: r.state, hoisted: f.hoisted + r.hoisted, items: f.items + r.items },
            t,
            i + 1,
        )
    } else {
        f
    }
}

/// `var name;` for each export symbol that needs a declaration.
pub open spec fn export_var_decls(names: Seq<Seq<char>>, span: Span) -> Seq<Tree> {
    Seq::new(
        names.len(),
        |i: int| var_decl(span, leaf_tree(Kind::BindingIdent, names[i], dummy_span()), absent_tree()),
    )
}

/// The rewrite of a module: the bare imports of its import and re-export
/// declarations, then the declarations of its export symbols, then its rewritten
/// items.
pub open spec fn fold_module(h: HoistView, t: Tree) -> Folded
    decreases t, t.children.len() + 1,
{
    let r = fold_items(ItemFold { state: h, hoisted: Seq::empty(), items: Seq::empty() }, t, 0);
    Folded {
        state: r.state,
        tree: Tree {
            children: r.hoisted + export_var_decls(r.state.export_decls, t.span) + r.items,
            ..t
        },
    }
}

/// The rewrite of a node, by the node's kind.
#[verifier::opaque]
pub open spec fn fold(h: HoistView, t: Tree) -> Folded
    decreases t, t.children.len() + 5,
{
    match t.kind {
        Kind::Function | Kind::Class | Kind::Getter | Kind::Setter => fold_scope(h, t),
        Kind::Member | Kind::Index => fold_member(h, t),
        Kind::Call => fold_call(h, t),
        Kind::This => fold_this(h, t),
        Kind::TypeOf => fold_typeof(h, t),
        Kind::Sequence => fold_sequence(h, t),
        Kind::Assign => fold_assign(h, t),
        Kind::Shorthand | Kind::KeyValue | Kind::Method => fold_prop(
            h,
            t,
        ),
        Kind::AssignPatProp => fold_assign_pat_prop(h, t),
        _ => fold_generic(h, t),
    }
}

impl HoistResultView {
    /// Whether every export that the module reads from itself has a symbol.
    pub open spec fn self_references_exported(self) -> bool {
        forall|n: Seq<char>| #[trigger]
            self.self_references.contains(n) ==> self.exported_symbols.contains_key(n)
    }

    /// Whether every dynamic import is recorded under the name `$M$importAsync$H(s)`
    /// of its source `s`.
    pub open spec fn dynamic_imports_named(self, module_id: Seq<char>) -> bool {
        forall|k: Seq<char>| #[trigger]
            self.dynamic_imports.contains_key(k) ==> k == async_name(
                module_id,
                self.dynamic_imports[k],
            )
    }

    /// Whether the symbol of every exported name `e` is `$M$export$e`, and that of
    /// `*` is `$M$exports`.
    pub open spec fn exports_named(self, module_id: Seq<char>) -> bool {
        forall|e: Seq<char>| #[trigger]
            self.exported_symbols.contains_key(e) ==> self.exported_symbols[e].symbol
                == export_name(module_id, e)
    }
}

/// What the pass reports at the end of the rewrite: the tables of the rewrite,
/// and the flags and the wrapped sources of the analysis.
pub open spec fn result_of(h: HoistView) -> HoistResultView {
    HoistResultView {
        imported_symbols: h.imported_symbols,
        exported_symbols: h.exported_symbols,
        re_exports: h.re_exports,
        self_references: h.self_references,
        wrapped_requires: h.collect.wrapped_requires,
        dynamic_imports: h.dynamic_imports,
        static_cjs_exports: h.collect.static_cjs_exports,
        has_cjs_exports: h.collect.has_cjs_exports,
        should_wrap: h.collect.should_wrap,
    }
}

/// The whole pass: the analysis of the module, then the rewrite of the module
/// with what the analysis found. A module that cannot be hoisted gives the
/// first reason that the analysis found, or else the first that the rewrite
/// found.
pub open spec fn hoisted(
    module: Tree,
    module_id: Seq<char>,
    decls: Set<crate::tables::IdentKey>,
    ignore_mark: u32,
    global_mark: u32,
) -> Result<(Tree, HoistResultView), HoistError> {
    let c = crate::analysis::analyze(module, decls, ignore_mark);
    let f = fold_module(HoistView::start(module_id, c, global_mark), module);
    if c.error is Some {
        Err(c.error->0)
    } else if f.state.error is Some {
        Err(f.state.error->0)
    } else {
        Ok((f.tree, result_of(f.state)))
    }
}

/// Whether a node can be rewritten: the rewrite meets nothing for which the
/// module cannot be hoisted.
pub open spec fn can_fold(h: HoistView, t: Tree) -> bool {
    fold(h, t).state.error == h.error
}

/// Whether a module can be rewritten: the rewrite meets no default export of a
/// declaration that is neither a function nor a class, no assignment to a
/// computed member of the exports object where the analysis found the exports
/// static, and no export of a binding that the analysis has not recorded.
pub open spec fn can_fold_module(h: HoistView, t: Tree) -> bool {
    fold_module(h, t).state.error == h.error
}

/// The rewrite of a node, by the node's kind.
pub proof fn lemma_fold(h: HoistView, t: Tree)
    ensures
        fold(h, t) == match t.kind {
            Kind::Function | Kind::Class | Kind::Getter | Kind::Setter => fold_scope(h, t),
            Kind::Member | Kind::Index => fold_member(h, t),
            Kind::Call => fold_call(h, t),
            Kind::This => fold_this(h, t),
            Kind::TypeOf => fold_typeof(h, t),
            Kind::Sequence => fold_sequence(h, t),
            Kind::Assign => fold_assign(h, t),
            Kind::Shorthand | Kind::KeyValue | Kind::Method => fold_prop(
                h,
                t,
            ),
            Kind::AssignPatProp => fold_assign_pat_prop(h, t),
            _ => fold_generic(h, t),
        },
{
    reveal(fold);
}

} // verus!
