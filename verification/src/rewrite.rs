//! The rewrite: one fold over the module that renames its bindings to flat
//! names and lifts its dependencies to bare imports.

use crate::analysis::HoistError;
use crate::collect::Collect;
use crate::matchers::{
    check_free, check_free_exports, check_member, check_module_exports, find_static_key, ident_id,
    match_import, match_require,
};
use crate::names::{
    global_name, is_fresh, is_generated, make_async_name, make_async_symbol_name, make_export_name,
    make_import_name, make_import_source, make_var_name,
};
use crate::rewriting::{
    all_fresh, bare_import, bound_source, branch_tree, can_fold, can_fold_module, declared_lifted,
    export_list, export_list_spec, export_var_decls, flush_decls, fold, fold_access, fold_assign,
    fold_assign_dynamic, fold_assign_pat_prop, fold_assign_to, fold_call, fold_default_decl,
    fold_default_expr, fold_generic, fold_item, fold_items, fold_list, fold_member,
    fold_member_of_ident, fold_module, fold_prop, fold_property, fold_scope, fold_sequence,
    fold_sequence_list, fold_statement, fold_this, fold_typeof, fresh_fold, fresh_onto, has_import,
    has_plain_exports, is_plain_export, is_plain_item, leaf_tree, lemma_flush_lifts, lemma_fold,
    lemma_import_stays, lemma_lifted_grows, lemma_names_in, lemma_plain_is_fresh, lemma_queue_chain,
    lemma_queued, lifted_onto, names_fresh, names_in, names_plain, names_source, re_export_spec,
    re_export_specs, rename, rename_local, renamed, result_of, split_from, stripped_require,
    var_decl, ExportedSymbolView, HoistResultView, HoistView, ImportedSymbolView, ItemFold, Named,
    ReExportView, SplitFold,
};
use crate::tables::{is_word, KeySet, Table};
use crate::tree::{copy_marks, lemma_children, trees, Kind, Node, Span, Tree};
use vstd::prelude::*;

verus! {

/// Where a generated import name comes from.
#[derive(Debug)]
pub struct ImportedSymbol {
    /// The module that the symbol is imported from.
    pub source: String,
    /// The name that is imported; `*` is the whole namespace.
    pub local: String,
    /// Where the symbol first stands.
    pub loc: Span,
}

impl View for ImportedSymbol {
    type V = ImportedSymbolView;

    open spec fn view(&self) -> ImportedSymbolView {
        ImportedSymbolView { source: self.source@, local: self.local@, loc: self.loc }
    }
}

/// The symbol that stands for an exported name.
#[derive(Debug)]
pub struct ExportedSymbol {
    /// The symbol in the rewritten module.
    pub symbol: String,
    /// Where the export stands.
    pub loc: Span,
}

impl View for ExportedSymbol {
    type V = ExportedSymbolView;

    open spec fn view(&self) -> ExportedSymbolView {
        ExportedSymbolView { symbol: self.symbol@, loc: self.loc }
    }
}

/// One re-export: `exported` is `local` of `source`.
#[derive(Debug)]
pub struct ReExport {
    pub exported: String,
    pub source: String,
    pub local: String,
    pub loc: Span,
}

impl View for ReExport {
    type V = ReExportView;

    open spec fn view(&self) -> ReExportView {
        ReExportView {
            exported: self.exported@,
            source: self.source@,
            local: self.local@,
            loc: self.loc,
        }
    }
}

/// The values of a list of re-exports.
pub open spec fn re_export_views(list: Seq<ReExport>) -> Seq<ReExportView> {
    Seq::new(list.len(), |i: int| list[i]@)
}

/// What the pass reports of a module.
#[derive(Debug)]
pub struct HoistResult {
    /// Where each generated import name comes from.
    pub imported_symbols: Table<String, ImportedSymbol>,
    /// The symbol of each exported name.
    pub exported_symbols: Table<String, ExportedSymbol>,
    /// The re-exports, in the order of the module.
    pub re_exports: Vec<ReExport>,
    /// The exports that the module reads from itself.
    pub self_references: KeySet<String>,
    /// The sources that are required where the order of evaluation counts.
    pub wrapped_requires: KeySet<String>,
    /// The source of each dynamic import.
    pub dynamic_imports: Table<String, String>,
    /// Whether every CommonJS export has a static key.
    pub static_cjs_exports: bool,
    /// Whether the module has CommonJS exports.
    pub has_cjs_exports: bool,
    /// Whether the module has to be wrapped in a function.
    pub should_wrap: bool,
}

impl View for HoistResult {
    type V = HoistResultView;

    open spec fn view(&self) -> HoistResultView {
        HoistResultView {
            imported_symbols: self.imported_symbols@,
            exported_symbols: self.exported_symbols@,
            re_exports: re_export_views(self.re_exports@),
            self_references: self.self_references@,
            wrapped_requires: self.wrapped_requires@,
            dynamic_imports: self.dynamic_imports@,
            static_cjs_exports: self.static_cjs_exports,
            has_cjs_exports: self.has_cjs_exports,
            should_wrap: self.should_wrap,
        }
    }
}

impl Default for HoistResult {
    fn default() -> (r: HoistResult)
        ensures
            r@.imported_symbols == Map::<Seq<char>, ImportedSymbolView>::empty(),
            r@.exported_symbols == Map::<Seq<char>, ExportedSymbolView>::empty(),
            r@.re_exports == Seq::<ReExportView>::empty(),
            r@.self_references == Set::<Seq<char>>::empty(),
            r@.wrapped_requires == Set::<Seq<char>>::empty(),
            r@.dynamic_imports == Map::<Seq<char>, Seq<char>>::empty(),
            !r@.static_cjs_exports,
            !r@.has_cjs_exports,
            !r@.should_wrap,
    {
        let r = HoistResult {
            imported_symbols: Table::new(),
            exported_symbols: Table::new(),
            re_exports: Vec::new(),
            self_references: KeySet::new(),
            wrapped_requires: KeySet::new(),
            dynamic_imports: Table::new(),
            static_cjs_exports: false,
            has_cjs_exports: false,
            should_wrap: false,
        };
        assert(r@.re_exports =~= Seq::<ReExportView>::empty());
        r
    }
}

/// The state of the rewrite.
pub struct Hoist<'a> {
    /// The id from which every generated name is derived.
    pub module_id: &'a str,
    /// What the analysis found.
    pub collect: &'a Collect,
    /// The mark of the module's top-level scope.
    pub global_mark: u32,
    /// The bare imports queued for the statement that is being rewritten.
    pub requires_in_stmt: Vec<Node>,
    /// The export symbols that need a declaration at the top of the module.
    pub export_decls: KeySet<String>,
    /// Where each generated import name comes from.
    pub imported_symbols: Table<String, ImportedSymbol>,
    /// The symbol of each exported name.
    pub exported_symbols: Table<String, ExportedSymbol>,
    /// The re-exports, in the order of the module.
    pub re_exports: Vec<ReExport>,
    /// The exports that the module reads from itself.
    pub self_references: KeySet<String>,
    /// The source of each dynamic import.
    pub dynamic_imports: Table<String, String>,
    /// Whether the fold is inside a function or a class.
    pub in_function_scope: bool,
    /// The first reason found for which the module cannot be hoisted.
    pub error: Option<HoistError>,
}

impl<'a> View for Hoist<'a> {
    type V = HoistView;

    open spec fn view(&self) -> HoistView {
        HoistView {
            module_id: self.module_id@,
            collect: self.collect@,
            global_mark: self.global_mark,
            requires_in_stmt: trees(self.requires_in_stmt@),
            export_decls: self.export_decls.order(),
            imported_symbols: self.imported_symbols@,
            exported_symbols: self.exported_symbols@,
            re_exports: re_export_views(self.re_exports@),
            self_references: self.self_references@,
            dynamic_imports: self.dynamic_imports@,
            in_function_scope: self.in_function_scope,
            error: self.error,
        }
    }
}

/// A list with one more node has one more tree.
pub proof fn lemma_trees_push(list: Seq<Node>, node: Node)
    ensures
        trees(list.push(node)) == trees(list).push(node@),
{
    assert(trees(list.push(node)) =~= trees(list).push(node@));
}

/// The trees of two lists, one after the other.
pub proof fn lemma_trees_add(a: Seq<Node>, b: Seq<Node>)
    ensures
        trees(a + b) == trees(a) + trees(b),
{
    assert(trees(a + b) =~= trees(a) + trees(b));
}

/// Moves the nodes of `from` to the end of `to`.
fn append_nodes(to: &mut Vec<Node>, from: &mut Vec<Node>)
    ensures
        trees(final(to)@) == trees(old(to)@) + trees(old(from)@),
        final(from)@.len() == 0,
{
    proof {
        lemma_trees_add(to@, from@);
    }
    to.append(from);
}

/// The node with a new name, if it gets one, and with other children.
fn rebuild(node: &Node, kind: Kind, name: Option<String>, children: Vec<Node>) -> (r: Node)
    ensures
        r@ == renamed(Tree { kind, ..node@ }, name.deep_view(), trees(children@)),
{
    let r = match name {
        Some(n) => Node {
            kind,
            sym: n,
            ctxt: Vec::new(),
            span: node.span,
            tag: node.tag,
            children,
        },
        None => Node {
            kind,
            sym: node.sym.clone(),
            ctxt: copy_marks(&node.ctxt),
            span: node.span,
            tag: node.tag,
            children,
        },
    };
    proof {
        lemma_children(&r);
    }
    r
}

/// A list of one node.
fn one(a: Node) -> (v: Vec<Node>)
    ensures
        trees(v@) == seq![a@],
{
    let mut v: Vec<Node> = Vec::new();
    v.push(a);
    assert(trees(v@) =~= seq![a@]);
    v
}

/// A list of two nodes.
fn two(a: Node, b: Node) -> (v: Vec<Node>)
    ensures
        trees(v@) == seq![a@, b@],
{
    let mut v: Vec<Node> = Vec::new();
    v.push(a);
    v.push(b);
    assert(trees(v@) =~= seq![a@, b@]);
    v
}

/// The bare import `import "M:source"`.
fn make_bare_import(module_id: &str, source: &str) -> (r: Node)
    ensures
        r@ == bare_import(module_id@, source@),
{
    let text = make_import_source(module_id, source);
    Node::leaf(Kind::Import, text.as_str(), Vec::new(), Span::dummy())
}

/// `var name = init;`, or `var name;` where `init` is absent.
fn make_var_decl(span: Span, name: Node, init: Node) -> (r: Node)
    ensures
        r@ == var_decl(span, name@, init@),
{
    let declarator = Node::branch(Kind::VarDeclarator, span, 0, two(name, init));
    Node::branch(Kind::VarDecl, span, 0, one(declarator))
}

/// The identifier that replaces an expression.
fn make_ident(name: String, span: Span) -> (r: Node)
    ensures
        r@ == leaf_tree(Kind::Ident, name@, span),
{
    Node::leaf(Kind::Ident, name.as_str(), Vec::new(), span)
}

impl<'a> Hoist<'a> {
    /// The rewrite before its fold.
    pub fn new(module_id: &'a str, collect: &'a Collect, global_mark: u32) -> (h: Hoist<'a>)
        ensures
            h@ == HoistView::start(module_id@, collect@, global_mark),
    {
        let h = Hoist {
            module_id,
            collect,
            global_mark,
            requires_in_stmt: Vec::new(),
            export_decls: KeySet::new(),
            imported_symbols: Table::new(),
            exported_symbols: Table::new(),
            re_exports: Vec::new(),
            self_references: KeySet::new(),
            dynamic_imports: Table::new(),
            in_function_scope: false,
            error: None,
        };
        proof {
            assert(h@.requires_in_stmt =~= Seq::empty());
            assert(h@.re_exports =~= Seq::empty());
        }
        h
    }

    /// What the pass reports at the end of the rewrite.
    pub fn get_result(self) -> (r: HoistResult)
        ensures
            r@ == result_of(self@),
    {
        HoistResult {
            imported_symbols: self.imported_symbols,
            exported_symbols: self.exported_symbols,
            re_exports: self.re_exports,
            self_references: self.self_references,
            dynamic_imports: self.dynamic_imports,
            wrapped_requires: self.collect.wrapped_requires.copy(),
            static_cjs_exports: self.collect.static_cjs_exports,
            has_cjs_exports: self.collect.has_cjs_exports,
            should_wrap: self.collect.should_wrap,
        }
    }

    fn import_symbol(&mut self, name: String, source: &String, local: String, loc: Span)
        ensures
            final(self)@ == old(self)@.import_symbol(name@, source@, local@, loc),
    {
        self.imported_symbols.insert_if_absent(
            name,
            ImportedSymbol { source: source.clone(), local, loc },
        );
    }

    fn export_symbol(&mut self, exported: String, symbol: String, loc: Span)
        ensures
            final(self)@ == old(self)@.export_symbol(exported@, symbol@, loc),
    {
        self.exported_symbols.insert_if_absent(exported, ExportedSymbol { symbol, loc });
    }

    fn refer_self(&mut self, name: String)
        ensures
            final(self)@ == old(self)@.refer_self(name@),
    {
        self.self_references.insert(name);
    }

    fn dynamic_import(&mut self, name: String, source: String)
        ensures
            final(self)@ == old(self)@.dynamic_import(name@, source@),
    {
        self.dynamic_imports.insert(name, source);
    }

    fn re_export(&mut self, exported: String, source: String, local: String, loc: Span)
        ensures
            final(self)@ == old(self)@.re_export(exported@, source@, local@, loc),
    {
        let e = ReExport { exported, source, local, loc };
        proof {
            assert(re_export_views(self.re_exports@.push(e)) =~= re_export_views(
                self.re_exports@,
            ).push(e@));
        }
        self.re_exports.push(e);
    }

    fn declare_export(&mut self, symbol: String)
        ensures
            final(self)@ == old(self)@.declare_export(symbol@),
    {
        proof {
            self.export_decls.lemma_members();
        }
        self.export_decls.insert(symbol);
    }

    /// Queues the bare import of a source for the statement that is being rewritten.
    fn add_require(&mut self, source: &String)
        ensures
            final(self)@ == old(self)@.queue_import(source@),
    {
        let import = make_bare_import(self.module_id, source.as_str());
        proof {
            lemma_trees_push(self.requires_in_stmt@, import);
        }
        self.requires_in_stmt.push(import);
    }

    fn fail(&mut self, e: HoistError)
        ensures
            final(self)@ == old(self)@.fail(e),
    {
        if self.error.is_none() {
            self.error = Some(e);
        }
    }

    /// The name of an import, recorded with its origin unless it has a record.
    fn get_import_ident(&mut self, source: &String, local: &String, loc: Span) -> (name: String)
        ensures
            final(self)@ == old(self)@.import_ident(source@, local@, loc).state,
            name@ == old(self)@.import_ident(source@, local@, loc).name,
            old(self)@.queued(source@) || bound_source(old(self)@.collect, source@) ==> old(
                self,
            )@.queue_kept(final(self)@),
            old(self)@.tidy() ==> final(self)@.tidy(),
            is_generated(old(self)@.module_id, name@),
            old(self)@.keeps(final(self)@),
    {
        let name = make_import_name(self.module_id, source.as_str(), local.as_str());
        self.import_symbol(name.clone(), source, local.clone(), loc);
        name
    }

    /// The name of an export, recorded as the symbol of the exported name unless
    /// that has one.
    fn get_export_ident(&mut self, exported: &String, loc: Span) -> (name: String)
        ensures
            final(self)@ == old(self)@.export_ident(exported@, loc).state,
            name@ == old(self)@.export_ident(exported@, loc).name,
            old(self)@.queue_kept(final(self)@),
            old(self)@.tidy() ==> final(self)@.tidy(),
            is_generated(old(self)@.module_id, name@),
            old(self)@.keeps(final(self)@),
    {
        let name = make_export_name(self.module_id, exported.as_str());
        self.export_symbol(exported.clone(), name.clone(), loc);
        name
    }

    /// The name that replaces a read of the export `key` of the module itself.
    fn own_export(&mut self, key: &String, loc: Span) -> (name: String)
        requires
            !old(self)@.collect.should_wrap,
        ensures
            final(self)@ == old(self)@.own_export(key@, loc).state,
            name@ == old(self)@.own_export(key@, loc).name,
            old(self)@.queue_kept(final(self)@),
            old(self)@.tidy() ==> final(self)@.tidy(),
            is_generated(old(self)@.module_id, name@),
            old(self)@.keeps(final(self)@),
    {
        self.refer_self(key.clone());
        self.get_export_ident(key, loc)
    }

    fn rename_local(&mut self, node: &Node) -> (name: Option<String>)
        ensures
            final(self)@ == rename_local(old(self)@, node@).state,
            name.deep_view() == rename_local(old(self)@, node@).name,
            old(self)@.queue_kept(final(self)@),
            old(self)@.tidy() ==> final(self)@.tidy(),
            name matches Some(n) ==> is_generated(old(self)@.module_id, n@) || n@ == global_name(),
            old(self)@.keeps(final(self)@),
    {
        let c = self.collect;
        let id = ident_id(node);
        match c.exports.get(&id) {
            Some(exported) => {
                if c.should_wrap {
                    self.export_symbol(exported.clone(), node.sym.clone(), node.span);
                    None
                } else {
                    Some(self.get_export_ident(exported, node.span))
                }
            },
            None => {
                if is_word(&node.sym, "exports") && check_free(node, &c.decls) && !c.should_wrap {
                    let star = String::from_str("*");
                    Some(self.own_export(&star, node.span))
                } else if is_word(&node.sym, "global") && check_free(node, &c.decls) {
                    Some(String::from_str("$parcel$global"))
                } else if is_global(&node.ctxt, self.global_mark) && c.decls.contains(&id)
                    && !c.should_wrap {
                    Some(make_var_name(self.module_id, node.sym.as_str()))
                } else {
                    None
                }
            },
        }
    }

    /// The new name of an identifier, if it gets one.
    fn rename(&mut self, node: &Node) -> (name: Option<String>)
        ensures
            final(self)@ == rename(old(self)@, node@).state,
            name.deep_view() == rename(old(self)@, node@).name,
            old(self)@.queue_kept(final(self)@),
            old(self)@.tidy() ==> final(self)@.tidy(),
            name matches Some(n) ==> is_generated(old(self)@.module_id, n@) || n@ == global_name(),
            old(self)@.keeps(final(self)@),
    {
        let c = self.collect;
        let id = ident_id(node);
        match c.imports.get(&id) {
            Some(imp) => {
                if !c.non_static_requires.contains(&imp.source) {
                    if !imp.is_async {
                        return Some(self.get_import_ident(&imp.source, &imp.local, imp.loc));
                    }
                    if !is_word(&imp.local, "*") {
                        let name = make_async_symbol_name(
                            self.module_id,
                            imp.source.as_str(),
                            imp.local.as_str(),
                        );
                        self.import_symbol(name, &imp.source, imp.local.clone(), imp.loc);
                    } else if c.non_static_access.contains(&id) {
                        let name = make_async_name(self.module_id, imp.source.as_str());
                        self.import_symbol(name, &imp.source, String::from_str("*"), imp.loc);
                    }
                }
            },
            None => {},
        }
        self.rename_local(node)
    }
}

/// Whether a context is that of the module's top-level scope.
fn is_global(ctxt: &Vec<u32>, global_mark: u32) -> (b: bool)
    ensures
        b == (ctxt@ == seq![global_mark]),
{
    if ctxt.len() == 1 && ctxt[0] == global_mark {
        assert(ctxt@ =~= seq![global_mark]);
        true
    } else {
        if ctxt.len() == 1 {
            assert(ctxt@[0] != seq![global_mark][0]);
        }
        false
    }
}

impl<'a> Hoist<'a> {
    /// Rewrites the children of a node, in order.
    fn fold_children(&mut self, node: &Node, Ghost(kept): Ghost<Set<Seq<char>>>) -> (out: Vec<Node>)
        ensures
            final(self)@ == fold_list(old(self)@, node@, 0).state,
            trees(out@) == fold_list(old(self)@, node@, 0).trees,
            old(self)@.queue_kept(final(self)@),
            old(self)@.tidy() && names_plain(node@, kept) ==> final(self)@.tidy() && all_fresh(trees(out@), old(self)@.module_id, kept),
            old(self)@.keeps(final(self)@),
        decreases node, 0nat,
    {
        let ghost h0 = self@;
        let ghost t = node@;
        proof {
            lemma_children(node);
        }
        let mut out: Vec<Node> = Vec::new();
        let mut i: usize = 0;
        assert(trees(out@) + fold_list(self@, t, 0).trees =~= fold_list(h0, t, 0).trees);
        while i < node.children.len()
            invariant
                h0.keeps(self@),
                h0.queue_kept(self@),
                h0.tidy() && names_plain(t, kept) ==> self@.tidy() && all_fresh(trees(out@), h0.module_id, kept),
                i <= node.children.len(),
                t == node@,
                t.children.len() == node.children.len(),
                forall|j: int|
                    0 <= j < node.children.len() ==> t.children[j] == (#[trigger] node.children[j])@,
                fold_list(self@, t, i as int).state == fold_list(h0, t, 0).state,
                trees(out@) + fold_list(self@, t, i as int).trees == fold_list(h0, t, 0).trees,
            decreases node.children.len() - i,
        {
            let ghost before = trees(out@);
            let ghost mid = self@;
            let child = self.fold_any(&node.children[i], Ghost(kept));
            proof {
                lemma_queue_chain(h0, mid, self@);
                lemma_trees_push(out@, child);
                assert(names_plain(t, kept) ==> names_plain(t.children[i as int], kept));
                let rest = fold_list(self@, t, i + 1).trees;
                assert(before.push(child@) + rest =~= before + (seq![child@] + rest));
            }
            out.push(child);
            i += 1;
        }
        assert(trees(out@) + Seq::<Tree>::empty() =~= trees(out@));
        out
    }

    /// Rewrites a node that is not replaced.
    fn fold_generic(&mut self, node: &Node, Ghost(kept): Ghost<Set<Seq<char>>>) -> (r: Node)
        ensures
            final(self)@ == fold_generic(old(self)@, node@).state,
            r@ == fold_generic(old(self)@, node@).tree,
            old(self)@.queue_kept(final(self)@),
            fresh_fold(old(self)@, node@, final(self)@, r@, kept),
            old(self)@.keeps(final(self)@),
        decreases node, 1nat,
    {
        let name = if holds_ident_kind(node.kind) {
            self.rename(node)
        } else {
            None
        };
        let children = self.fold_children(node, Ghost(kept));
        rebuild(node, node.kind, name, children)
    }

    /// Rewrites a function or a class.
    fn fold_scope(&mut self, node: &Node, Ghost(kept): Ghost<Set<Seq<char>>>) -> (r: Node)
        ensures
            final(self)@ == fold_scope(old(self)@, node@).state,
            r@ == fold_scope(old(self)@, node@).tree,
            old(self)@.queue_kept(final(self)@),
            fresh_fold(old(self)@, node@, final(self)@, r@, kept),
            old(self)@.keeps(final(self)@),
        decreases node, 2nat,
    {
        let in_function_scope = self.in_function_scope;
        self.in_function_scope = true;
        let r = self.fold_generic(node, Ghost(kept));
        self.in_function_scope = in_function_scope;
        r
    }

    /// Rewrites the property of a member access: an expression in brackets is
    /// rewritten, a name after a dot is copied.
    fn fold_property(&mut self, member: &Node, Ghost(kept): Ghost<Set<Seq<char>>>) -> (r: Node)
        requires
            member.children.len() == 2,
        ensures
            final(self)@ == fold_property(old(self)@, member@).state,
            r@ == fold_property(old(self)@, member@).tree,
            old(self)@.queue_kept(final(self)@),
            old(self)@.tidy() && names_plain(member@, kept) ==> final(self)@.tidy() && names_fresh(
                r@,
                old(self)@.module_id, kept,
            ),
            old(self)@.keeps(final(self)@),
        decreases member, 0nat,
    {
        proof {
            lemma_children(member);
            assert(names_plain(member@, kept) ==> names_plain(member@.children[1], kept));
        }
        if member.kind == Kind::Index {
            self.fold_any(&member.children[1], Ghost(kept))
        } else {
            let copy = member.children[1].deep_clone();
            proof {
                if names_plain(member@, kept) {
                    lemma_plain_is_fresh(copy@, self@.module_id, kept);
                }
            }
            copy
        }
    }

    /// Rewrites a member access that is not replaced.
    fn fold_access(&mut self, node: &Node, Ghost(kept): Ghost<Set<Seq<char>>>) -> (r: Node)
        ensures
            final(self)@ == fold_access(old(self)@, node@).state,
            r@ == fold_access(old(self)@, node@).tree,
            old(self)@.queue_kept(final(self)@),
            fresh_fold(old(self)@, node@, final(self)@, r@, kept),
            old(self)@.keeps(final(self)@),
        decreases node, 2nat,
    {
        proof {
            lemma_children(node);
        }
        if !check_member(node) {
            return self.fold_generic(node, Ghost(kept));
        }
        let ghost m = self@.module_id;
        let ghost ok = self@.tidy() && names_plain(node@, kept);
        proof {
            assert(names_plain(node@, kept) ==> names_plain(node@.children[0], kept));
        }
        let ghost h0 = self@;
        let obj = self.fold_any(&node.children[0], Ghost(kept));
        let ghost mid = self@;
        let prop = self.fold_property(node, Ghost(kept));
        proof {
            lemma_queue_chain(h0, mid, self@);
            assert(ok ==> names_fresh(obj@, m, kept));
            assert(ok ==> names_fresh(prop@, m, kept));
        }
        let r = node.with_children(two(obj, prop));
        proof {
            assert(ok ==> names_fresh(r@, m, kept));
        }
        r
    }

    fn fold_member_of_ident(&mut self, node: &Node, key: &String, Ghost(kept): Ghost<Set<Seq<char>>>) -> (r: Node)
        requires
            node.children.len() == 2,
        ensures
            final(self)@ == fold_member_of_ident(old(self)@, node@, key@).state,
            r@ == fold_member_of_ident(old(self)@, node@, key@).tree,
            old(self)@.queue_kept(final(self)@),
            fresh_fold(old(self)@, node@, final(self)@, r@, kept),
            old(self)@.keeps(final(self)@),
        decreases node, 3nat,
    {
        proof {
            lemma_children(node);
        }
        let c = self.collect;
        let obj = &node.children[0];
        let id = ident_id(obj);
        match c.imports.get(&id) {
            Some(imp) => {
                if is_word(&imp.local, "*") && !c.non_static_access.contains(&id)
                    && !c.non_static_requires.contains(&imp.source) {
                    if imp.is_async {
                        let name = make_async_symbol_name(
                            self.module_id,
                            imp.source.as_str(),
                            key.as_str(),
                        );
                        self.import_symbol(name, &imp.source, key.clone(), node.span);
                    } else {
                        let name = self.get_import_ident(&imp.source, key, node.span);
                        return make_ident(name, node.span);
                    }
                }
            },
            None => {},
        }
        if is_word(&obj.sym, "exports") && check_free(obj, &c.decls) && c.static_cjs_exports
            && !c.should_wrap {
            let name = self.own_export(key, node.span);
            make_ident(name, node.span)
        } else {
            self.fold_access(node, Ghost(kept))
        }
    }

    /// Rewrites a member access.
    fn fold_member(&mut self, node: &Node, Ghost(kept): Ghost<Set<Seq<char>>>) -> (r: Node)
        ensures
            final(self)@ == fold_member(old(self)@, node@).state,
            r@ == fold_member(old(self)@, node@).tree,
            old(self)@.queue_kept(final(self)@),
            fresh_fold(old(self)@, node@, final(self)@, r@, kept),
            old(self)@.keeps(final(self)@),
        decreases node, 4nat,
    {
        proof {
            lemma_children(node);
        }
        let c = self.collect;
        if !check_member(node) {
            return self.fold_generic(node, Ghost(kept));
        }
        if !c.should_wrap && check_module_exports(node, &c.decls) {
            let star = String::from_str("*");
            let name = self.own_export(&star, node.span);
            return make_ident(name, node.span);
        }
        let key = match find_static_key(node) {
            Some(key) => key,
            None => {
                return self.fold_access(node, Ghost(kept));
            },
        };
        let obj = &node.children[0];
        if obj.kind == Kind::Ident {
            return self.fold_member_of_ident(node, &key, Ghost(kept));
        }
        if obj.kind == Kind::Call {
            if let Some(source) = match_require(obj, &c.decls, c.ignore_mark) {
                let ghost h0 = self@;
                self.add_require(&source);
                let ghost h1 = self@;
                let name = self.get_import_ident(&source, &key, node.span);
                proof {
                    lemma_queued(h0, source@);
                    lemma_queue_chain(h0, h1, self@);
                }
                return make_ident(name, node.span);
            }
        }
        let flat = c.static_cjs_exports && !c.should_wrap;
        if check_member(obj) && flat && check_module_exports(obj, &c.decls) {
            let name = self.own_export(&key, node.span);
            return make_ident(name, node.span);
        }
        if obj.kind == Kind::This && flat && !self.in_function_scope && !c.is_esm {
            let name = self.own_export(&key, node.span);
            return make_ident(name, node.span);
        }
        self.fold_access(node, Ghost(kept))
    }

    /// Rewrites a call.
    fn fold_call(&mut self, node: &Node, Ghost(kept): Ghost<Set<Seq<char>>>) -> (r: Node)
        ensures
            final(self)@ == fold_call(old(self)@, node@).state,
            r@ == fold_call(old(self)@, node@).tree,
            old(self)@.queue_kept(final(self)@),
            fresh_fold(old(self)@, node@, final(self)@, r@, kept),
            old(self)@.keeps(final(self)@),
        decreases node, 2nat,
    {
        let c = self.collect;
        if let Some(source) = match_require(node, &c.decls, c.ignore_mark) {
            let ghost h0 = self@;
            self.add_require(&source);
            let ghost h1 = self@;
            let star = String::from_str("*");
            let name = self.get_import_ident(&source, &star, node.span);
            proof {
                lemma_queued(h0, source@);
                lemma_queue_chain(h0, h1, self@);
            }
            return make_ident(name, node.span);
        }
        if let Some(source) = match_import(node, c.ignore_mark) {
            proof {
                lemma_queued(self@, source@);
            }
            self.add_require(&source);
            let name = make_async_name(self.module_id, source.as_str());
            self.dynamic_import(name.clone(), source.clone());
            if c.non_static_requires.contains(&source) || c.should_wrap {
                self.import_symbol(name.clone(), &source, String::from_str("*"), node.span);
            }
            return make_ident(name, node.span);
        }
        self.fold_generic(node, Ghost(kept))
    }

    /// Rewrites `this`.
    fn fold_this(&mut self, node: &Node, Ghost(kept): Ghost<Set<Seq<char>>>) -> (r: Node)
        ensures
            final(self)@ == fold_this(old(self)@, node@).state,
            r@ == fold_this(old(self)@, node@).tree,
            old(self)@.queue_kept(final(self)@),
            fresh_fold(old(self)@, node@, final(self)@, r@, kept),
            old(self)@.keeps(final(self)@),
        decreases node, 2nat,
    {
        proof {
            reveal_strlit("undefined");
        }
        if !self.in_function_scope && !self.collect.should_wrap && self.collect.is_esm {
            make_ident(String::from_str("undefined"), Span::dummy())
        } else if !self.in_function_scope && !self.collect.should_wrap {
            let star = String::from_str("*");
            let name = self.own_export(&star, node.span);
            make_ident(name, node.span)
        } else {
            self.fold_generic(node, Ghost(kept))
        }
    }

    /// Rewrites `typeof arg`.
    fn fold_typeof(&mut self, node: &Node, Ghost(kept): Ghost<Set<Seq<char>>>) -> (r: Node)
        ensures
            final(self)@ == fold_typeof(old(self)@, node@).state,
            r@ == fold_typeof(old(self)@, node@).tree,
            old(self)@.queue_kept(final(self)@),
            fresh_fold(old(self)@, node@, final(self)@, r@, kept),
            old(self)@.keeps(final(self)@),
        decreases node, 2nat,
    {
        proof {
            lemma_children(node);
        }
        if node.children.len() == 1 {
            let arg = &node.children[0];
            if arg.kind == Kind::Ident && is_word(&arg.sym, "require") && check_free(
                arg,
                &self.collect.decls,
            ) {
                return Node::leaf(Kind::Str, "function", Vec::new(), node.span);
            }
        }
        self.fold_generic(node, Ghost(kept))
    }

    /// Rewrites a comma expression.
    fn fold_sequence(&mut self, node: &Node, Ghost(kept): Ghost<Set<Seq<char>>>) -> (r: Node)
        ensures
            final(self)@ == fold_sequence(old(self)@, node@).state,
            r@ == fold_sequence(old(self)@, node@).tree,
            old(self)@.queue_kept(final(self)@),
            fresh_fold(old(self)@, node@, final(self)@, r@, kept),
            old(self)@.keeps(final(self)@),
        decreases node, 1nat,
    {
        let ghost h0 = self@;
        let ghost t = node@;
        proof {
            lemma_children(node);
        }
        let mut out: Vec<Node> = Vec::new();
        let mut i: usize = 0;
        assert(trees(out@) + fold_sequence_list(self@, t, 0).trees =~= fold_sequence_list(
            h0,
            t,
            0,
        ).trees);
        while i < node.children.len()
            invariant
                h0.keeps(self@),
                h0.queue_kept(self@),
                h0.tidy() && names_plain(t, kept) ==> self@.tidy() && all_fresh(trees(out@), h0.module_id, kept),
                i <= node.children.len(),
                t == node@,
                t.children.len() == node.children.len(),
                forall|j: int|
                    0 <= j < node.children.len() ==> t.children[j] == (#[trigger] node.children[j])@,
                fold_sequence_list(self@, t, i as int).state == fold_sequence_list(h0, t, 0).state,
                trees(out@) + fold_sequence_list(self@, t, i as int).trees == fold_sequence_list(
                    h0,
                    t,
                    0,
                ).trees,
            decreases node.children.len() - i,
        {
            let ghost before = trees(out@);
            let e = &node.children[i];
            let c = self.collect;
            let guard = i != node.children.len() - 1 && match_require(
                e,
                &c.decls,
                c.ignore_mark,
            ).is_some();
            let ghost mid = self@;
            let folded = self.fold_any(e, Ghost(kept));
            proof {
                lemma_queue_chain(h0, mid, self@);
            }
            let item = if guard {
                Node::branch(Kind::Not, Span::dummy(), 0, one(folded))
            } else {
                folded
            };
            proof {
                lemma_trees_push(out@, item);
                assert(names_plain(t, kept) ==> names_plain(t.children[i as int], kept));
                let rest = fold_sequence_list(self@, t, i + 1).trees;
                assert(before.push(item@) + rest =~= before + (seq![item@] + rest));
            }
            out.push(item);
            i += 1;
        }
        assert(trees(out@) + Seq::<Tree>::empty() =~= trees(out@));
        node.with_children(out)
    }

    /// Rewrites an assignment whose target is replaced by the binding `name`.
    fn fold_assign_to(&mut self, name: String, node: &Node, Ghost(kept): Ghost<Set<Seq<char>>>) -> (r: Node)
        requires
            node.children.len() == 2,
        ensures
            final(self)@ == fold_assign_to(Named { state: old(self)@, name: name@ }, node@).state,
            r@ == fold_assign_to(Named { state: old(self)@, name: name@ }, node@).tree,
            old(self)@.queue_kept(final(self)@),
            is_fresh(old(self)@.module_id, name@) ==> fresh_fold(old(self)@, node@, final(self)@, r@, kept),
            old(self)@.keeps(final(self)@),
        decreases node, 0nat,
    {
        proof {
            lemma_children(node);
            assert(names_plain(node@, kept) ==> names_plain(node@.children[1], kept));
        }
        let ghost m = self@.module_id;
        let ghost ok = is_fresh(m, name@) && self@.tidy() && names_plain(node@, kept);
        let left = Node::leaf(Kind::BindingIdent, name.as_str(), Vec::new(), node.children[0].span);
        let right = self.fold_any(&node.children[1], Ghost(kept));
        proof {
            assert(ok ==> names_fresh(left@, m, kept));
            assert(ok ==> names_fresh(right@, m, kept));
        }
        let r = node.with_children(two(left, right));
        proof {
            assert(ok ==> names_fresh(r@, m, kept));
        }
        r
    }

    /// Rewrites an assignment to a member of the exports object, in a module
    /// whose exports are not static.
    fn fold_assign_dynamic(&mut self, node: &Node, Ghost(kept): Ghost<Set<Seq<char>>>) -> (r: Node)
        requires
            node.children.len() == 2,
            node.children[0].children.len() == 2,
        ensures
            final(self)@ == fold_assign_dynamic(old(self)@, node@).state,
            r@ == fold_assign_dynamic(old(self)@, node@).tree,
            old(self)@.queue_kept(final(self)@),
            fresh_fold(old(self)@, node@, final(self)@, r@, kept),
            old(self)@.keeps(final(self)@),
        decreases node, 0nat,
    {
        proof {
            lemma_children(node);
            lemma_children(&node.children[0]);
        }
        let member = &node.children[0];
        proof {
            assert(names_plain(node@, kept) ==> names_plain(node@.children[0], kept) && names_plain(
                node@.children[1], kept,
            ));
            assert(names_plain(member@, kept) ==> names_plain(member@.children[1], kept));
            assert(names_plain(node@, kept) ==> names_plain(member@, kept));
        }
        let ghost m = self@.module_id;
        let ghost ok = self@.tidy() && names_plain(node@, kept);
        let star = String::from_str("*");
        let ghost h0 = self@;
        let name = self.get_export_ident(&star, member.span);
        let obj = make_ident(name, member.span);
        let ghost h1 = self@;
        let prop = self.fold_property(member, Ghost(kept));
        proof {
            lemma_queue_chain(h0, h1, self@);
            assert(ok ==> names_fresh(obj@, m, kept));
            assert(ok ==> names_fresh(prop@, m, kept));
        }
        let left = member.with_children(two(obj, prop));
        let ghost h2 = self@;
        let right = self.fold_any(&node.children[1], Ghost(kept));
        proof {
            lemma_queue_chain(h0, h2, self@);
            assert(ok ==> names_fresh(left@, m, kept));
            assert(ok ==> names_fresh(right@, m, kept));
        }
        let r = node.with_children(two(left, right));
        proof {
            assert(ok ==> names_fresh(r@, m, kept));
        }
        r
    }

    /// Rewrites an assignment.
    fn fold_assign(&mut self, node: &Node, Ghost(kept): Ghost<Set<Seq<char>>>) -> (r: Node)
        ensures
            final(self)@ == fold_assign(old(self)@, node@).state,
            r@ == fold_assign(old(self)@, node@).tree,
            old(self)@.queue_kept(final(self)@),
            fresh_fold(old(self)@, node@, final(self)@, r@, kept),
            old(self)@.keeps(final(self)@),
        decreases node, 2nat,
    {
        proof {
            lemma_children(node);
        }
        let c = self.collect;
        if c.should_wrap || node.children.len() != 2 || !check_member(&node.children[0]) {
            return self.fold_generic(node, Ghost(kept));
        }
        let member = &node.children[0];
        proof {
            lemma_children(member);
        }
        if check_module_exports(member, &c.decls) {
            let star = String::from_str("*");
            let name = self.get_export_ident(&star, member.span);
            return self.fold_assign_to(name, node, Ghost(kept));
        }
        let obj = &member.children[0];
        let is_exports_object = (check_member(obj) && check_module_exports(obj, &c.decls))
            || check_free_exports(obj, &c.decls);
        if !is_exports_object {
            return self.fold_generic(node, Ghost(kept));
        }
        if !c.static_cjs_exports {
            return self.fold_assign_dynamic(node, Ghost(kept));
        }
        match find_static_key(member) {
            None => {
                self.fail(HoistError::DynamicExportWrite);
                self.fold_generic(node, Ghost(kept))
            },
            Some(key) => {
                let name = self.get_export_ident(&key, member.span);
                self.declare_export(name.clone());
                self.fold_assign_to(name, node, Ghost(kept))
            },
        }
    }

    /// Rewrites a property of an object literal.
    fn fold_prop(&mut self, node: &Node, Ghost(kept): Ghost<Set<Seq<char>>>) -> (r: Node)
        ensures
            final(self)@ == fold_prop(old(self)@, node@).state,
            r@ == fold_prop(old(self)@, node@).tree,
            old(self)@.queue_kept(final(self)@),
            fresh_fold(old(self)@, node@, final(self)@, r@, kept),
            old(self)@.keeps(final(self)@),
        decreases node, 2nat,
    {
        proof {
            lemma_children(node);
        }
        if self.collect.should_wrap || node.kind != Kind::Shorthand {
            return self.fold_generic(node, Ghost(kept));
        }
        let ghost m = self@.module_id;
        let ghost ok = self@.tidy() && names_plain(node@, kept);
        let name = self.rename(node);
        let key = Node::leaf(Kind::Key, node.sym.as_str(), Vec::new(), Span::dummy());
        let value = rebuild(node, Kind::Ident, name, Vec::new());
        proof {
            assert(trees(Seq::<Node>::empty()) =~= Seq::<Tree>::empty());
            assert(ok ==> names_fresh(key@, m, kept));
            assert(ok ==> names_fresh(value@, m, kept));
        }
        let r = Node::branch(Kind::KeyValue, Span::dummy(), 0, two(key, value));
        proof {
            assert(ok ==> names_fresh(r@, m, kept));
        }
        r
    }

    /// Rewrites `{ key }` or `{ key = value }` in an object pattern.
    fn fold_assign_pat_prop(&mut self, node: &Node, Ghost(kept): Ghost<Set<Seq<char>>>) -> (r: Node)
        ensures
            final(self)@ == fold_assign_pat_prop(old(self)@, node@).state,
            r@ == fold_assign_pat_prop(old(self)@, node@).tree,
            old(self)@.queue_kept(final(self)@),
            fresh_fold(old(self)@, node@, final(self)@, r@, kept),
            old(self)@.keeps(final(self)@),
        decreases node, 2nat,
    {
        proof {
            lemma_children(node);
        }
        if self.collect.should_wrap || node.kind != Kind::AssignPatProp || node.children.len() != 1 {
            return self.fold_generic(node, Ghost(kept));
        }
        let ghost m = self@.module_id;
        let ghost ok = self@.tidy() && names_plain(node@, kept);
        let name = self.rename(node);
        proof {
            assert(ok ==> names_plain(node@.children[0], kept));
        }
        let key = Node::leaf(Kind::Key, node.sym.as_str(), Vec::new(), Span::dummy());
        let binding = rebuild(node, Kind::BindingIdent, name, Vec::new());
        proof {
            assert(trees(Seq::<Node>::empty()) =~= Seq::<Tree>::empty());
            assert(ok ==> names_fresh(key@, m, kept));
            assert(ok ==> names_fresh(binding@, m, kept));
        }
        if node.children[0].kind == Kind::Absent {
            let r = Node::branch(Kind::KeyValuePat, Span::dummy(), 0, two(key, binding));
            proof {
                assert(ok ==> names_fresh(r@, m, kept));
            }
            r
        } else {
            let value = self.fold_any(&node.children[0], Ghost(kept));
            proof {
                assert(ok ==> names_fresh(value@, m, kept));
            }
            let pattern = Node::branch(Kind::AssignPat, Span::dummy(), 0, two(binding, value));
            proof {
                assert(ok ==> names_fresh(pattern@, m, kept));
            }
            let r = Node::branch(Kind::KeyValuePat, Span::dummy(), 0, two(key, pattern));
            proof {
                assert(ok ==> names_fresh(r@, m, kept));
            }
            r
        }
    }

    /// Rewrites a node, and records the first reason for which it cannot go on.
    #[verifier::rlimit(50)]
    fn fold_any(&mut self, node: &Node, Ghost(kept): Ghost<Set<Seq<char>>>) -> (r: Node)
        ensures
            final(self)@ == fold(old(self)@, node@).state,
            r@ == fold(old(self)@, node@).tree,
            old(self)@.queue_kept(final(self)@),
            fresh_fold(old(self)@, node@, final(self)@, r@, kept),
            old(self)@.keeps(final(self)@),
        decreases node, 5nat,
    {
        proof {
            lemma_fold(self@, node@);
        }
        match node.kind {
            Kind::Function | Kind::Class | Kind::Getter | Kind::Setter => self.fold_scope(node, Ghost(kept)),
            Kind::Member | Kind::Index => self.fold_member(node, Ghost(kept)),
            Kind::Call => self.fold_call(node, Ghost(kept)),
            Kind::This => self.fold_this(node, Ghost(kept)),
            Kind::TypeOf => self.fold_typeof(node, Ghost(kept)),
            Kind::Sequence => self.fold_sequence(node, Ghost(kept)),
            Kind::Assign => self.fold_assign(node, Ghost(kept)),
            Kind::Shorthand | Kind::KeyValue | Kind::Method => self.fold_prop(
                node, Ghost(kept),
            ),
            Kind::AssignPatProp => self.fold_assign_pat_prop(node, Ghost(kept)),
            _ => self.fold_generic(node, Ghost(kept)),
        }
    }
}

/// Whether a node of this kind holds an identifier of its own.
fn holds_ident_kind(kind: Kind) -> (b: bool)
    ensures
        b == crate::rewriting::holds_ident(kind),
{
    kind == Kind::Ident || kind == Kind::Name || kind == Kind::BindingIdent || kind
        == Kind::Shorthand || kind == Kind::AssignPatProp
}

impl<'a> Hoist<'a> {
    /// Moves the queued imports to the end of a list of statements.
    fn flush_requires(&mut self, items: &mut Vec<Node>, Ghost(kept): Ghost<Set<Seq<char>>>)
        ensures
            final(self)@ == old(self)@.flush(),
            trees(final(items)@) == trees(old(items)@) + old(self)@.requires_in_stmt,
            old(self)@.tidy() && all_fresh(trees(old(items)@), old(self)@.module_id, kept) ==> final(self)@.tidy() && all_fresh(trees(final(items)@), old(self)@.module_id, kept),
            old(self)@.keeps(final(self)@),
    {
        let ghost queue = self@.requires_in_stmt;
        let ghost before = trees(items@);
        let ghost m = self@.module_id;
        let ghost was_tidy = self@.tidy();
        append_nodes(items, &mut self.requires_in_stmt);
        proof {
            assert(trees(self.requires_in_stmt@) =~= Seq::<Tree>::empty());
            if was_tidy && all_fresh(before, m, kept) {
                assert forall|i: int| 0 <= i < (before + queue).len() implies names_fresh(
                    #[trigger] (before + queue)[i],
                    m,
                    kept,
                ) by {
                    if i < before.len() {
                        assert((before + queue)[i] == before[i]);
                    } else {
                        assert((before + queue)[i] == queue[i - before.len()]);
                        assert(crate::rewriting::is_bare(queue[i - before.len()]));
                    }
                }
            }
        }
    }

    fn re_export_spec(&mut self, source: &String, sp: &Node)
        ensures
            final(self)@ == re_export_spec(old(self)@, source@, sp@),
            final(self)@.requires_in_stmt == old(self)@.requires_in_stmt,
            final(self)@.dynamic_imports == old(self)@.dynamic_imports,
            final(self)@.imported_symbols == old(self)@.imported_symbols,
            old(self)@.tidy() ==> final(self)@.tidy(),
            old(self)@.keeps(final(self)@),
    {
        proof {
            lemma_children(sp);
        }
        if sp.kind == Kind::ExportSpec && sp.children.len() == 2 {
            let exported = if sp.children[1].kind == Kind::Absent {
                sp.children[0].sym.clone()
            } else {
                sp.children[1].sym.clone()
            };
            self.re_export(exported, source.clone(), sp.children[0].sym.clone(), sp.span);
        } else if sp.kind == Kind::ExportSpecDefault && sp.children.len() == 1 {
            self.re_export(
                sp.children[0].sym.clone(),
                source.clone(),
                String::from_str("default"),
                sp.children[0].span,
            );
        } else if sp.kind == Kind::ExportSpecNamespace && sp.children.len() == 1 {
            self.re_export(sp.children[0].sym.clone(), source.clone(), String::from_str("*"), sp.span);
        }
    }

    fn re_export_specs(&mut self, node: &Node)
        ensures
            final(self)@ == re_export_specs(old(self)@, node@, 0),
            final(self)@.requires_in_stmt == old(self)@.requires_in_stmt,
            final(self)@.dynamic_imports == old(self)@.dynamic_imports,
            final(self)@.imported_symbols == old(self)@.imported_symbols,
            old(self)@.tidy() ==> final(self)@.tidy(),
            old(self)@.keeps(final(self)@),
    {
        let ghost h0 = self@;
        proof {
            lemma_children(node);
        }
        let mut i: usize = 0;
        while i < node.children.len()
            invariant
                self@.requires_in_stmt == h0.requires_in_stmt,
                self@.dynamic_imports == h0.dynamic_imports,
                self@.imported_symbols == h0.imported_symbols,
                h0.tidy() ==> self@.tidy(),
                h0.keeps(self@),
                i <= node.children.len(),
                node@.children.len() == node.children.len(),
                forall|j: int|
                    0 <= j < node.children.len() ==> node@.children[j] == (
                    #[trigger] node.children[j])@,
                re_export_specs(self@, node@, i as int) == re_export_specs(h0, node@, 0),
            decreases node.children.len() - i,
        {
            self.re_export_spec(&node.sym, &node.children[i]);
            i += 1;
        }
    }

    fn export_list_spec(&mut self, sp: &Node)
        ensures
            final(self)@ == export_list_spec(old(self)@, sp@),
            final(self)@.requires_in_stmt == old(self)@.requires_in_stmt,
            final(self)@.dynamic_imports == old(self)@.dynamic_imports,
            final(self)@.imported_symbols == old(self)@.imported_symbols,
            old(self)@.tidy() ==> final(self)@.tidy(),
            old(self)@.steps(final(self)@),
            is_plain_export(old(self)@.collect, sp@) ==> old(self)@.keeps(final(self)@),
    {
        proof {
            lemma_children(sp);
        }
        let c = self.collect;
        if sp.kind == Kind::ExportSpec && sp.children.len() == 2 {
            let orig = &sp.children[0];
            let exported = if sp.children[1].kind == Kind::Absent {
                orig.sym.clone()
            } else {
                sp.children[1].sym.clone()
            };
            let id = ident_id(orig);
            match c.imports.get(&id) {
                Some(imp) => {
                    self.re_export(exported, imp.source.clone(), imp.local.clone(), sp.span);
                },
                None => {
                    match c.exports.get(&id) {
                        None => {
                            self.fail(HoistError::UnknownExport);
                        },
                        Some(orig_exported) => {
                            let symbol = if c.should_wrap {
                                orig.sym.clone()
                            } else {
                                self.get_export_ident(orig_exported, Span::dummy())
                            };
                            self.export_symbol(exported, symbol, sp.span);
                        },
                    }
                },
            }
        }
    }

    fn export_list(&mut self, node: &Node)
        ensures
            final(self)@ == export_list(old(self)@, node@, 0),
            final(self)@.requires_in_stmt == old(self)@.requires_in_stmt,
            final(self)@.dynamic_imports == old(self)@.dynamic_imports,
            final(self)@.imported_symbols == old(self)@.imported_symbols,
            old(self)@.tidy() ==> final(self)@.tidy(),
            old(self)@.steps(final(self)@),
            is_plain_item(old(self)@.collect, Tree { kind: Kind::ExportNamed, ..node@ }) ==> old(self)@.keeps(final(self)@),
    {
        let ghost h0 = self@;
        proof {
            lemma_children(node);
        }
        let mut i: usize = 0;
        while i < node.children.len()
            invariant
                self@.requires_in_stmt == h0.requires_in_stmt,
                self@.dynamic_imports == h0.dynamic_imports,
                self@.imported_symbols == h0.imported_symbols,
                h0.tidy() ==> self@.tidy(),
                h0.steps(self@),
                is_plain_item(h0.collect, Tree { kind: Kind::ExportNamed, ..node@ }) ==> h0.keeps(self@),
                i <= node.children.len(),
                node@.children.len() == node.children.len(),
                forall|j: int|
                    0 <= j < node.children.len() ==> node@.children[j] == (
                    #[trigger] node.children[j])@,
                export_list(self@, node@, i as int) == export_list(h0, node@, 0),
            decreases node.children.len() - i,
        {
            self.export_list_spec(&node.children[i]);
            i += 1;
        }
    }

    /// The source of a declarator that is replaced by a bare import.
    fn find_stripped_require(&self, v: &Node) -> (r: Option<String>)
        ensures
            r.deep_view() == stripped_require(self@.collect, v@),
    {
        proof {
            lemma_children(v);
        }
        let c = self.collect;
        if v.children.len() != 2 {
            return None;
        }
        let init = &v.children[1];
        proof {
            lemma_children(init);
        }
        if let Some(source) = match_require(init, &c.decls, c.ignore_mark) {
            if !c.non_static_requires.contains(&source) {
                return Some(source);
            }
        }
        if check_member(init) {
            if let Some(source) = match_require(&init.children[0], &c.decls, c.ignore_mark) {
                if !c.non_static_requires.contains(&source) {
                    return Some(source);
                }
            }
        }
        None
    }

    /// Rewrites a top-level variable declaration into statements.
    fn fold_var_decl(&mut self, var: &Node, items: &mut Vec<Node>, Ghost(kept): Ghost<Set<Seq<char>>>)
        ensures
            final(self)@ == split_from(
                SplitFold { state: old(self)@, items: Seq::empty(), decls: Seq::empty() },
                var@,
                0,
            ).state,
            trees(final(items)@) == trees(old(items)@) + split_from(
                SplitFold { state: old(self)@, items: Seq::empty(), decls: Seq::empty() },
                var@,
                0,
            ).items,
            old(self)@.requires_in_stmt.len() == 0 ==> final(self)@.requires_in_stmt.len() == 0,
            lifted_onto(old(self)@, trees(old(items)@), final(self)@, trees(final(items)@)),
            fresh_onto(old(self)@, var@, trees(old(items)@), final(self)@, trees(final(items)@), kept),
            old(self)@.keeps(final(self)@),
        decreases var, 5nat,
    {
        let ghost t = var@;
        let ghost s0 = SplitFold { state: self@, items: Seq::empty(), decls: Seq::empty() };
        proof {
            lemma_children(var);
        }
        let ghost before = trees(items@);
        let mut acc: Vec<Node> = Vec::new();
        let mut decls: Vec<Node> = Vec::new();
        let mut i: usize = 0;
        assert(trees(acc@) =~= Seq::<Tree>::empty());
        assert(trees(decls@) =~= Seq::<Tree>::empty());
        assert(before + trees(acc@) =~= before);
        while i < var.children.len()
            invariant
                s0.state.keeps(self@),
                lifted_onto(s0.state, before, self@, before + trees(acc@)),
                s0.state.requires_in_stmt.len() == 0 ==> self@.requires_in_stmt.len() == 0,
                s0.state.tidy() && names_plain(t, kept) ==> self@.tidy() && all_fresh(
                    trees(acc@),
                    s0.state.module_id, kept,
            ) && all_fresh(trees(decls@), s0.state.module_id, kept),
                i <= var.children.len(),
                t == var@,
                t.children.len() == var.children.len(),
                forall|j: int|
                    0 <= j < var.children.len() ==> t.children[j] == (#[trigger] var.children[j])@,
                split_from(
                    SplitFold { state: self@, items: trees(acc@), decls: trees(decls@) },
                    t,
                    i as int,
                ) == split_from(s0, t, 0),
            decreases var.children.len() - i,
        {
            let v = &var.children[i];
            proof {
                assert(names_plain(t, kept) ==> names_plain(t.children[i as int], kept));
            }
            let ghost ok = s0.state.requires_in_stmt.len() == 0 && s0.state.lifted(before);
            let ghost a0 = trees(acc@);
            let ghost h1 = self@;
            match self.find_stripped_require(v) {
                Some(source) => {
                    flush_declarators(var, &mut decls, &mut acc);
                    let import = make_bare_import(self.module_id, source.as_str());
                    proof {
                        lemma_trees_push(acc@, import);
                        assert(trees(acc@).push(import@) =~= trees(acc@) + seq![import@]);
                    }
                    acc.push(import);
                    proof {
                        if ok {
                            let more = trees(acc@).subrange(a0.len() as int, trees(acc@).len() as int);
                            lemma_lifted_grows(self@, Seq::empty(), before + a0, more);
                            assert(Seq::<Tree>::empty() + (before + a0) + more =~= before + trees(
                                acc@,
                            ));
                        }
                    }
                },
                None => {
                    let d = self.fold_any(v, Ghost(kept));
                    let ghost h2 = self@;
                    if self.requires_in_stmt.len() > 0 {
                        flush_declarators(var, &mut decls, &mut acc);
                        let ghost a1 = trees(acc@);
                        self.flush_requires(&mut acc, Ghost(kept));
                        decls.push(d);
                        proof {
                            assert(trees(decls@) =~= seq![d@]);
                            assert(trees(decls@)[0] == d@);
                            if ok {
                                let more = a1.subrange(a0.len() as int, a1.len() as int);
                                lemma_lifted_grows(h1, Seq::empty(), before + a0, more);
                                assert(Seq::<Tree>::empty() + (before + a0) + more =~= before + a1);
                                lemma_flush_lifts(h1, h2, before + a1);
                                assert(before + a1 + h2.requires_in_stmt =~= before + trees(acc@));
                            }
                        }
                    } else {
                        proof {
                            lemma_trees_push(decls@, d);
                            if ok {
                                assert forall|k: Seq<char>| #[trigger]
                                    h2.dynamic_imports.contains_key(k) implies has_import(
                                    before + a0,
                                    h2.module_id,
                                    h2.dynamic_imports[k],
                                ) by {
                                    assert(!h2.queued(h2.dynamic_imports[k]));
                                }
                            }
                        }
                        decls.push(d);
                    }
                },
            }
            i += 1;
        }
        let ghost a0 = trees(acc@);
        flush_declarators(var, &mut decls, &mut acc);
        proof {
            lemma_trees_add(items@, acc@);
            if old(self)@.requires_in_stmt.len() == 0 && old(self)@.lifted(before) {
                let more = trees(acc@).subrange(a0.len() as int, trees(acc@).len() as int);
                lemma_lifted_grows(self@, Seq::empty(), before + a0, more);
                assert(Seq::<Tree>::empty() + (before + a0) + more =~= before + trees(acc@));
            }
        }
        items.append(&mut acc);
    }

    /// Rewrites a statement; the imports that it queued come before it.
    fn fold_statement(&mut self, node: &Node, items: &mut Vec<Node>, Ghost(kept): Ghost<Set<Seq<char>>>)
        ensures
            final(self)@ == fold_statement(old(self)@, node@).state,
            trees(final(items)@) == trees(old(items)@) + fold_statement(old(self)@, node@).items,
            lifted_onto(old(self)@, trees(old(items)@), final(self)@, trees(final(items)@)),
            fresh_onto(old(self)@, node@, trees(old(items)@), final(self)@, trees(final(items)@), kept),
            old(self)@.keeps(final(self)@),
        decreases node, 6nat,
    {
        let ghost h0 = self@;
        let d = self.fold_any(node, Ghost(kept));
        let ghost h1 = self@;
        let ghost queued = self@.requires_in_stmt;
        let ghost before = trees(items@);
        self.flush_requires(items, Ghost(kept));
        proof {
            lemma_trees_push(items@, d);
            assert((before + queued).push(d@) =~= before + queued.push(d@));
            if h0.lifted(before) {
                lemma_flush_lifts(h0, h1, before);
                lemma_lifted_grows(self@, Seq::empty(), before + queued, seq![d@]);
                assert(Seq::<Tree>::empty() + (before + queued) + seq![d@] =~= before + queued.push(
                    d@,
                ));
            }
        }
        items.push(d);
    }

    /// Rewrites `export default <expr>`.
    fn fold_default_expr(&mut self, node: &Node, items: &mut Vec<Node>, Ghost(kept): Ghost<Set<Seq<char>>>)
        ensures
            final(self)@ == fold_default_expr(old(self)@, node@).state,
            trees(final(items)@) == trees(old(items)@) + fold_default_expr(
                old(self)@,
                node@,
            ).items,
            lifted_onto(old(self)@, trees(old(items)@), final(self)@, trees(final(items)@)),
            fresh_onto(old(self)@, node@, trees(old(items)@), final(self)@, trees(final(items)@), kept),
            old(self)@.keeps(final(self)@),
        decreases node, 7nat,
    {
        proof {
            lemma_children(node);
        }
        if node.children.len() != 1 {
            self.fold_statement(node, items, Ghost(kept));
            return ;
        }
        let ghost m = self@.module_id;
        let ghost ok = self@.tidy() && names_plain(node@, kept) && all_fresh(trees(items@), m, kept);
        proof {
            assert(names_plain(node@, kept) ==> names_plain(node@.children[0], kept));
        }
        let ghost h0 = self@;
        let name = self.get_export_ident(&String::from_str("default"), node.span);
        let ghost hn = self@;
        let init = self.fold_any(&node.children[0], Ghost(kept));
        let ghost h1 = self@;
        let ghost queued = self@.requires_in_stmt;
        let ghost before = trees(items@);
        self.flush_requires(items, Ghost(kept));
        let binding = Node::leaf(Kind::BindingIdent, name.as_str(), Vec::new(), node.span);
        proof {
            assert(ok ==> names_fresh(binding@, m, kept));
            assert(ok ==> names_fresh(init@, m, kept));
        }
        let ghost declarator = crate::rewriting::branch_tree(
            Kind::VarDeclarator,
            crate::tree::dummy_span(),
            0,
            seq![binding@, init@],
        );
        let decl = make_var_decl(Span::dummy(), binding, init);
        proof {
            assert(ok ==> names_fresh(declarator, m, kept));
            assert(decl@.children[0] == declarator);
            assert(ok ==> names_fresh(decl@, m, kept));
            lemma_trees_push(items@, decl);
            assert((before + queued).push(decl@) =~= before + queued.push(decl@));
            if h0.lifted(before) {
                lemma_queue_chain(h0, hn, h1);
                lemma_flush_lifts(h0, h1, before);
                lemma_lifted_grows(self@, Seq::empty(), before + queued, seq![decl@]);
                assert(Seq::<Tree>::empty() + (before + queued) + seq![decl@] =~= before
                    + queued.push(decl@));
            }
        }
        items.push(decl);
    }

    /// Rewrites `export default function/class`.
    fn fold_default_decl(&mut self, node: &Node, items: &mut Vec<Node>, Ghost(kept): Ghost<Set<Seq<char>>>)
        ensures
            final(self)@ == fold_default_decl(old(self)@, node@).state,
            trees(final(items)@) == trees(old(items)@) + fold_default_decl(
                old(self)@,
                node@,
            ).items,
            lifted_onto(old(self)@, trees(old(items)@), final(self)@, trees(final(items)@)),
            fresh_onto(old(self)@, node@, trees(old(items)@), final(self)@, trees(final(items)@), kept),
            old(self)@.keeps(final(self)@),
        decreases node, 7nat,
    {
        proof {
            lemma_children(node);
        }
        if node.children.len() == 1 {
            let d = &node.children[0];
            proof {
                lemma_children(d);
            }
            if (d.kind == Kind::FnExpr || d.kind == Kind::ClassExpr) && d.children.len() == 2 {
                let ghost m = self@.module_id;
                let ghost ok = self@.tidy() && names_plain(node@, kept) && all_fresh(trees(items@), m, kept);
                proof {
                    assert(names_plain(node@, kept) ==> names_plain(node@.children[0], kept));
                    assert(names_plain(d@, kept) ==> names_plain(d@.children[1], kept));
                }
                let ghost h0 = self@;
                let name = self.get_export_ident(&String::from_str("default"), Span::dummy());
                let ghost hn = self@;
                let body = self.fold_any(&d.children[1], Ghost(kept));
                let ghost h1 = self@;
                let ghost queued = self@.requires_in_stmt;
                let ghost before = trees(items@);
                self.flush_requires(items, Ghost(kept));
                let ident = Node::leaf(Kind::Name, name.as_str(), Vec::new(), Span::dummy());
                let kind = if d.kind == Kind::FnExpr {
                    Kind::FnDecl
                } else {
                    Kind::ClassDecl
                };
                proof {
                    assert(ok ==> names_fresh(ident@, m, kept));
                    assert(ok ==> names_fresh(body@, m, kept));
                }
                let decl = Node::branch(kind, d.span, 0, two(ident, body));
                proof {
                    assert(ok ==> names_fresh(decl@, m, kept));
                    lemma_trees_push(items@, decl);
                    assert((before + queued).push(decl@) =~= before + queued.push(decl@));
                    if h0.lifted(before) {
                        lemma_queue_chain(h0, hn, h1);
                        lemma_flush_lifts(h0, h1, before);
                        lemma_lifted_grows(self@, Seq::empty(), before + queued, seq![decl@]);
                        assert(Seq::<Tree>::empty() + (before + queued) + seq![decl@] =~= before
                            + queued.push(decl@));
                    }
                }
                items.push(decl);
                return ;
            }
        }
        self.fail(HoistError::UnsupportedDefaultExport);
        self.fold_statement(node, items, Ghost(kept));
    }

    /// Rewrites one item of the module body.
    fn fold_item(&mut self, node: &Node, hoisted: &mut Vec<Node>, items: &mut Vec<Node>, Ghost(kept): Ghost<Set<Seq<char>>>)
        ensures
            final(self)@ == fold_item(old(self)@, node@).state,
            trees(final(hoisted)@) == trees(old(hoisted)@) + fold_item(old(self)@, node@).hoisted,
            trees(final(items)@) == trees(old(items)@) + fold_item(old(self)@, node@).items,
            old(self)@.requires_in_stmt.len() == 0 ==> final(self)@.requires_in_stmt.len() == 0,
            lifted_onto(old(self)@, trees(old(items)@), final(self)@, trees(final(items)@)),
            fresh_onto(old(self)@, node@, trees(old(items)@), final(self)@, trees(final(items)@), kept),
            old(self)@.tidy() && all_fresh(trees(old(hoisted)@), old(self)@.module_id, kept) ==> all_fresh(trees(final(hoisted)@), old(self)@.module_id, kept),
            old(self)@.steps(final(self)@),
            is_plain_item(old(self)@.collect, node@) ==> old(self)@.keeps(final(self)@),
        decreases node, 8nat,
    {
        proof {
            lemma_children(node);
            assert(trees(hoisted@) + Seq::<Tree>::empty() =~= trees(hoisted@));
            assert(trees(items@) + Seq::<Tree>::empty() =~= trees(items@));
        }
        match node.kind {
            Kind::Import | Kind::ExportFrom | Kind::ExportAll => {
                let import = make_bare_import(self.module_id, node.sym.as_str());
                proof {
                    lemma_trees_push(hoisted@, import);
                    assert(trees(hoisted@).push(import@) =~= trees(hoisted@) + seq![import@]);
                }
                hoisted.push(import);
                if node.kind == Kind::ExportFrom {
                    self.re_export_specs(node);
                } else if node.kind == Kind::ExportAll {
                    self.re_export(
                        String::from_str("*"),
                        node.sym.clone(),
                        String::from_str("*"),
                        node.span,
                    );
                }
            },
            Kind::ExportNamed => {
                self.export_list(node);
            },
            Kind::ExportDefaultExpr => {
                self.fold_default_expr(node, items, Ghost(kept));
            },
            Kind::ExportDefaultDecl => {
                self.fold_default_decl(node, items, Ghost(kept));
            },
            Kind::ExportDecl => {
                if node.children.len() == 1 {
                    self.fold_statement(&node.children[0], items, Ghost(kept));
                } else {
                    self.fold_statement(node, items, Ghost(kept));
                }
            },
            Kind::VarDecl => {
                self.fold_var_decl(node, items, Ghost(kept));
            },
            _ => {
                self.fold_statement(node, items, Ghost(kept));
            },
        }
    }

    /// Rewrites a module, and records the first reason for which it cannot go on.
    fn fold_module_any(&mut self, node: &Node, Ghost(kept): Ghost<Set<Seq<char>>>) -> (r: Node)
        ensures
            final(self)@ == fold_module(old(self)@, node@).state,
            r@ == fold_module(old(self)@, node@).tree,
            old(self)@.requires_in_stmt.len() == 0 ==> final(self)@.requires_in_stmt.len() == 0,
            lifted_onto(old(self)@, Seq::empty(), final(self)@, r@.children),
            declared_lifted(node@, node@.children.len() as int, old(self)@.module_id, r@.children),
            fresh_fold(old(self)@, node@, final(self)@, r@, kept),
            old(self)@.steps(final(self)@),
            has_plain_exports(old(self)@.collect, node@) ==> old(self)@.keeps(final(self)@),
        decreases node, 3nat,
    {
        let ghost t = node@;
        let ghost f0 = ItemFold { state: self@, hoisted: Seq::empty(), items: Seq::empty() };
        proof {
            lemma_children(node);
        }
        let mut hoisted: Vec<Node> = Vec::new();
        let mut items: Vec<Node> = Vec::new();
        assert(trees(hoisted@) =~= Seq::<Tree>::empty());
        assert(trees(items@) =~= Seq::<Tree>::empty());
        let mut i: usize = 0;
        let ghost m = self@.module_id;
        let ghost ok = self@.tidy() && names_plain(t, kept);
        while i < node.children.len()
            invariant
                f0.state.requires_in_stmt.len() == 0 ==> self@.requires_in_stmt.len() == 0,
                lifted_onto(f0.state, Seq::empty(), self@, trees(items@)),
                declared_lifted(t, i as int, m, trees(hoisted@)),
                ok ==> self@.tidy() && all_fresh(trees(hoisted@), m, kept) && all_fresh(trees(items@), m, kept),
                ok == (f0.state.tidy() && names_plain(t, kept)),
                m == f0.state.module_id,
                f0.state.steps(self@),
                has_plain_exports(f0.state.collect, t) ==> f0.state.keeps(self@),
                i <= node.children.len(),
                t == node@,
                t.children.len() == node.children.len(),
                forall|j: int|
                    0 <= j < node.children.len() ==> t.children[j] == (#[trigger] node.children[j])@,
                fold_items(
                    ItemFold { state: self@, hoisted: trees(hoisted@), items: trees(items@) },
                    t,
                    i as int,
                ) == fold_items(f0, t, 0),
            decreases node.children.len() - i,
        {
            proof {
                assert(names_plain(t, kept) ==> names_plain(t.children[i as int], kept));
            }
            let ghost top = trees(hoisted@);
            let ghost h = self@;
            self.fold_item(&node.children[i], &mut hoisted, &mut items, Ghost(kept));
            proof {
                let more = fold_item(h, t.children[i as int]).hoisted;
                assert(Seq::<Tree>::empty() + top + more =~= trees(hoisted@));
                assert forall|j: int|
                    0 <= j < i + 1 && names_source(#[trigger] t.children[j]) implies has_import(
                    trees(hoisted@),
                    m,
                    t.children[j].sym,
                ) by {
                    if j < i {
                        lemma_import_stays(Seq::empty(), top, more, m, t.children[j].sym);
                    } else {
                        assert(more[0] == bare_import(m, t.children[j].sym));
                        assert(trees(hoisted@)[top.len() as int] == more[0]);
                    }
                }
            }
            i += 1;
        }
        let ghost names = self@.export_decls;
        let ghost top = trees(hoisted@);
        let mut k: usize = 0;
        while k < self.export_decls.len()
            invariant
                f0.state.requires_in_stmt.len() == 0 ==> self@.requires_in_stmt.len() == 0,
                lifted_onto(f0.state, Seq::empty(), self@, trees(items@)),
                declared_lifted(t, t.children.len() as int, m, top),
                ok ==> self@.tidy() && all_fresh(trees(hoisted@), m, kept) && all_fresh(trees(items@), m, kept),
                m == self@.module_id,
                f0.state.steps(self@),
                has_plain_exports(f0.state.collect, t) ==> f0.state.keeps(self@),
                k <= names.len(),
                names == self@.export_decls,
                trees(hoisted@) == top + export_var_decls(names, node.span).subrange(0, k as int),
            decreases names.len() - k,
        {
            let name = self.export_decls.key_at(k);
            let binding = Node::leaf(Kind::BindingIdent, name.as_str(), Vec::new(), Span::dummy());
            let absent = Node::leaf(Kind::Absent, "", Vec::new(), Span::dummy());
            let ghost declarator = crate::rewriting::branch_tree(
                Kind::VarDeclarator,
                node.span,
                0,
                seq![binding@, absent@],
            );
            proof {
                assert(ok ==> is_generated(m, names[k as int]));
                assert(ok ==> names_fresh(binding@, m, kept));
                assert(names_fresh(absent@, m, kept));
                assert(ok ==> names_fresh(declarator, m, kept));
            }
            let decl = make_var_decl(node.span, binding, absent);
            proof {
                assert(decl@.children[0] == declarator);
                assert(ok ==> names_fresh(decl@, m, kept));
                reveal_strlit("");
                assert(""@ =~= Seq::<char>::empty());
                lemma_trees_push(hoisted@, decl);
                let all = export_var_decls(names, node.span);
                assert(all[k as int] == decl@);
                assert((top + all.subrange(0, k as int)).push(decl@) =~= top + all.subrange(
                    0,
                    k + 1,
                ));
            }
            hoisted.push(decl);
            k += 1;
        }
        proof {
            let all = export_var_decls(names, node.span);
            assert(all.subrange(0, k as int) =~= all);
            lemma_trees_add(hoisted@, items@);
            assert forall|j: int|
                0 <= j < t.children.len() && names_source(#[trigger] t.children[j]) implies has_import(
                trees(hoisted@) + trees(items@),
                m,
                t.children[j].sym,
            ) by {
                lemma_import_stays(Seq::empty(), top, all + trees(items@), m, t.children[j].sym);
                assert(Seq::<Tree>::empty() + top + (all + trees(items@)) =~= trees(hoisted@)
                    + trees(items@));
            }
            if f0.state.requires_in_stmt.len() == 0 && f0.state.lifted(Seq::empty()) {
                lemma_lifted_grows(self@, trees(hoisted@), trees(items@), Seq::empty());
                assert(trees(hoisted@) + trees(items@) + Seq::<Tree>::empty() =~= trees(hoisted@)
                    + trees(items@));
            }
        }
        hoisted.append(&mut items);
        let r = node.with_children(hoisted);
        proof {
            assert(ok ==> all_fresh(r@.children, m, kept));
            assert(ok ==> names_fresh(r@, m, kept));
        }
        r
    }
}

/// Ends the declaration in the making: its declarators, if there are any,
/// become a statement.
fn flush_declarators(var: &Node, decls: &mut Vec<Node>, acc: &mut Vec<Node>)
    ensures
        forall|m: Seq<char>, kept: Set<Seq<char>>|
            (crate::rewriting::holds_ident(var@.kind) ==> is_fresh(m, var@.sym) || kept.contains(var@.sym)) && all_fresh(
                trees(old(acc)@),
                m, kept,
            ) && all_fresh(trees(old(decls)@), m, kept) ==> #[trigger] all_fresh(trees(final(acc)@), m, kept),
        trees(final(acc)@) == trees(old(acc)@) + flush_decls(var@, trees(old(decls)@)),
        trees(final(decls)@) == Seq::<Tree>::empty(),
{
    if decls.len() > 0 {
        let mut taken: Vec<Node> = Vec::new();
        core::mem::swap(decls, &mut taken);
        let stmt = var.with_children(taken);
        proof {
            assert forall|m: Seq<char>, kept: Set<Seq<char>>|
                (crate::rewriting::holds_ident(var@.kind) ==> is_fresh(m, var@.sym) || kept.contains(var@.sym)) && all_fresh(
                    trees(old(decls)@),
                    m, kept,
            ) implies names_fresh(stmt@, m, kept) by {}
            lemma_trees_push(acc@, stmt);
            assert(trees(acc@).push(stmt@) =~= trees(acc@) + seq![stmt@]);
        }
        acc.push(stmt);
    } else {
        assert(trees(acc@) + Seq::<Tree>::empty() =~= trees(acc@));
    }
    assert(trees(decls@) =~= Seq::<Tree>::empty());
}

impl<'a> Hoist<'a> {
    /// Rewrites a node of a module that can be hoisted. No import leaves the
    /// queue, the state stays in step with the module and the analysis, and a
    /// node without an identifier that begins with `$` gets only identifiers that
    /// are free of clashes.
    pub fn fold(&mut self, node: &Node) -> (r: Node)
        requires
            can_fold(old(self)@, node@),
        ensures
            final(self)@ == fold(old(self)@, node@).state,
            r@ == fold(old(self)@, node@).tree,
            final(self)@.error == old(self)@.error,
            old(self)@.queue_kept(final(self)@),
            fresh_fold(old(self)@, node@, final(self)@, r@, names_in(node@)),
            old(self)@.tidy() ==> names_fresh(r@, old(self)@.module_id, names_in(node@)),
            old(self)@.keeps(final(self)@),
    {
        proof {
            lemma_names_in(node@);
        }
        self.fold_any(node, Ghost(names_in(node@)))
    }

    /// Rewrites a module that can be hoisted. The state stays in step with the
    /// module and the analysis; where no binding is exported under two names,
    /// the exported symbols stay named after their exports; every import that
    /// an item queued stands before it, so that the queue is empty at the end
    /// and the module holds the bare import of every dynamic import; and a
    /// module without an identifier that begins with `$` gets only identifiers that are
    /// free of clashes.
    pub fn fold_module(&mut self, node: &Node) -> (r: Node)
        requires
            can_fold_module(old(self)@, node@),
        ensures
            final(self)@ == fold_module(old(self)@, node@).state,
            r@ == fold_module(old(self)@, node@).tree,
            final(self)@.error == old(self)@.error,
            old(self)@.requires_in_stmt.len() == 0 ==> final(self)@.requires_in_stmt.len() == 0,
            lifted_onto(old(self)@, Seq::empty(), final(self)@, r@.children),
            declared_lifted(node@, node@.children.len() as int, old(self)@.module_id, r@.children),
            fresh_fold(old(self)@, node@, final(self)@, r@, names_in(node@)),
            old(self)@.tidy() ==> names_fresh(r@, old(self)@.module_id, names_in(node@)),
            old(self)@.steps(final(self)@),
            has_plain_exports(old(self)@.collect, node@) ==> old(self)@.keeps(final(self)@),
    {
        proof {
            lemma_names_in(node@);
        }
        self.fold_module_any(node, Ghost(names_in(node@)))
    }

    /// Rewrites a module, or gives the first reason for which it cannot be
    /// hoisted: the reason that the state held before, or else the first that the
    /// rewrite finds.
    pub fn try_fold_module(&mut self, node: &Node) -> (r: Result<Node, HoistError>)
        ensures
            final(self)@ == fold_module(old(self)@, node@).state,
            match r {
                Ok(m) => final(self)@.error is None && m@ == fold_module(old(self)@, node@).tree,
                Err(e) => final(self)@.error == Some(e),
            },
            old(self)@.requires_in_stmt.len() == 0 ==> final(self)@.requires_in_stmt.len() == 0,
            r matches Ok(m) ==> lifted_onto(old(self)@, Seq::empty(), final(self)@, m@.children),
            r matches Ok(m) ==> declared_lifted(
                node@,
                node@.children.len() as int,
                old(self)@.module_id,
                m@.children,
            ),
            r matches Ok(m) ==> (old(self)@.tidy() ==> names_fresh(
                m@,
                old(self)@.module_id,
                names_in(node@),
            )),
            old(self)@.steps(final(self)@),
            has_plain_exports(old(self)@.collect, node@) ==> old(self)@.keeps(final(self)@),
    {
        proof {
            lemma_names_in(node@);
        }
        let m = self.fold_module_any(node, Ghost(names_in(node@)));
        match self.error {
            Some(e) => Err(e),
            None => Ok(m),
        }
    }
}

} // verus!
