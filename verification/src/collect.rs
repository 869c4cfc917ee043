//! The analysis: one walk over the module that records its imports and exports
//! and decides how its CommonJS exports may be treated.

use crate::analysis::{
    add_key_import, add_pat_imports, add_prop_imports, call_effects, callback_param, can_visit,
    can_visit_module, export_declarators, export_spec, export_specs, first_param, import_spec,
    import_specs, is_bare_require, is_import_then, is_module_decl, lemma_visit, visit, visit_arrow,
    visit_assign, visit_call, visit_export_decl, visit_export_default_decl, visit_from, visit_item,
    visit_items, visit_member, visit_module, visit_return, visit_scope, visit_var_declarator,
    CollectView, HoistError, Import,
};
use crate::matchers::{
    check_free, check_member, check_module_exports, find_static_key, has_binding_identifier,
    has_static_key, ident_id, key_of, match_import, match_require, require_source, strip_spread,
};
use crate::tables::{is_word, IdentId, KeySet, Table};
use crate::tree::{lemma_children, Kind, Node, Span};
use vstd::prelude::*;

verus! {

/// The state of the analysis.
#[derive(Debug)]
pub struct Collect {
    /// The bindings that the module declares.
    pub decls: KeySet<IdentId>,
    /// The mark of identifiers that are not to be read as `require` or `import`.
    pub ignore_mark: u32,
    /// Whether every CommonJS export seen so far has a static key.
    pub static_cjs_exports: bool,
    /// Whether a CommonJS export was seen.
    pub has_cjs_exports: bool,
    /// Whether the module holds a module declaration.
    pub is_esm: bool,
    /// Whether the module has to be wrapped in a function.
    pub should_wrap: bool,
    /// What each imported local binding stands for.
    pub imports: Table<IdentId, Import>,
    /// The name under which each exported binding is exported.
    pub exports: Table<IdentId, String>,
    /// The identifiers that are used as values or with computed keys.
    pub non_static_access: KeySet<IdentId>,
    /// The sources whose namespace object is needed as a whole.
    pub non_static_requires: KeySet<String>,
    /// The sources that are required where the order of evaluation counts.
    pub wrapped_requires: KeySet<String>,
    /// Whether `this` is the exports object here.
    pub in_module_this: bool,
    /// Whether the walk is at a statement of the module body.
    pub in_top_level: bool,
    /// Whether the walk is in the pattern of an exported variable declaration.
    pub in_export_decl: bool,
    /// Whether the walk is inside a function or a class.
    pub in_function: bool,
    /// The first reason found for which the module cannot be hoisted.
    pub error: Option<HoistError>,
}

impl View for Collect {
    type V = CollectView;

    open spec fn view(&self) -> CollectView {
        CollectView {
            decls: self.decls@,
            ignore_mark: self.ignore_mark,
            static_cjs_exports: self.static_cjs_exports,
            has_cjs_exports: self.has_cjs_exports,
            is_esm: self.is_esm,
            should_wrap: self.should_wrap,
            imports: self.imports@,
            exports: self.exports@,
            non_static_access: self.non_static_access@,
            non_static_requires: self.non_static_requires@,
            wrapped_requires: self.wrapped_requires@,
            in_module_this: self.in_module_this,
            in_top_level: self.in_top_level,
            in_export_decl: self.in_export_decl,
            in_function: self.in_function,
            error: self.error,
        }
    }
}

/// The pattern of the first parameter of a function or an arrow function.
fn find_first_param(f: &Node) -> (r: Option<&Node>)
    ensures
        match r {
            Some(p) => first_param(f@) == Some(p@),
            None => first_param(f@) is None,
        },
{
    proof {
        lemma_children(f);
    }
    if (f.kind == Kind::Function || f.kind == Kind::Arrow) && f.children.len() >= 1 {
        let params = &f.children[0];
        proof {
            lemma_children(params);
        }
        if params.kind == Kind::Params && params.children.len() >= 1 {
            return Some(&params.children[0]);
        }
    }
    None
}

/// The pattern of the first parameter of a callback, if it is a function with a
/// parameter.
fn find_callback_param(cb: &Node) -> (r: Option<&Node>)
    ensures
        match r {
            Some(p) => callback_param(cb@) == Some(p@),
            None => callback_param(cb@) is None,
        },
{
    proof {
        lemma_children(cb);
    }
    if cb.kind == Kind::FnExpr && cb.children.len() == 2 {
        find_first_param(&cb.children[1])
    } else if cb.kind == Kind::Arrow {
        find_first_param(cb)
    } else {
        None
    }
}

/// Whether a kind is that of a module declaration.
pub fn check_module_decl(kind: Kind) -> (b: bool)
    ensures
        b == is_module_decl(kind),
{
    kind == Kind::Import || kind == Kind::ExportNamed || kind == Kind::ExportFrom || kind
        == Kind::ExportAll || kind == Kind::ExportDefaultExpr || kind == Kind::ExportDefaultDecl
        || kind == Kind::ExportDecl || kind == Kind::OtherModuleDecl
}

impl Collect {
    /// The analysis before its walk.
    pub fn new(decls: KeySet<IdentId>, ignore_mark: u32) -> (c: Collect)
        ensures
            c@ == CollectView::start(decls@, ignore_mark),
    {
        Collect {
            decls,
            ignore_mark,
            static_cjs_exports: true,
            has_cjs_exports: false,
            is_esm: false,
            should_wrap: false,
            imports: Table::new(),
            exports: Table::new(),
            non_static_access: KeySet::new(),
            non_static_requires: KeySet::new(),
            wrapped_requires: KeySet::new(),
            in_module_this: true,
            in_top_level: true,
            in_export_decl: false,
            in_function: false,
            error: None,
        }
    }

    /// The source of a call `require(source)`, if the node is one.
    pub fn match_require(&self, node: &Node) -> (r: Option<String>)
        ensures
            r.deep_view() == require_source(node@, self@.decls, self@.ignore_mark),
    {
        match_require(node, &self.decls, self.ignore_mark)
    }

    fn add_import(&mut self, binding: &Node, source: &String, local: String, is_async: bool, loc: Span)
        ensures
            final(self)@ == old(self)@.add_import(key_of(binding@), source@, local@, is_async, loc),
    {
        self.imports.insert(ident_id(binding), Import { source: source.clone(), local, is_async, loc });
    }

    fn export(&mut self, binding: &Node, name: String)
        ensures
            final(self)@ == old(self)@.export(key_of(binding@), name@),
    {
        self.exports.insert(ident_id(binding), name);
    }

    fn export_if_absent(&mut self, binding: &Node, name: String)
        ensures
            final(self)@ == old(self)@.export_if_absent(key_of(binding@), name@),
    {
        self.exports.insert_if_absent(ident_id(binding), name);
    }

    fn access(&mut self, ident: &Node)
        ensures
            final(self)@ == old(self)@.access(key_of(ident@)),
    {
        self.non_static_access.insert(ident_id(ident));
    }

    fn non_static(&mut self, source: &String)
        ensures
            final(self)@ == old(self)@.non_static(source@),
    {
        self.non_static_requires.insert(source.clone());
    }

    fn wrapped(&mut self, source: &String)
        ensures
            final(self)@ == old(self)@.wrapped(source@),
    {
        self.wrapped_requires.insert(source.clone());
    }

    fn cjs_export(&mut self, is_static: bool)
        ensures
            final(self)@ == old(self)@.cjs_export(is_static),
    {
        self.has_cjs_exports = true;
        if !is_static {
            self.static_cjs_exports = false;
        }
    }

    fn fail(&mut self, e: HoistError)
        ensures
            final(self)@ == old(self)@.fail(e),
    {
        if self.error.is_none() {
            self.error = Some(e);
        }
    }

    fn reference(&mut self, ident: &Node)
        ensures
            final(self)@ == old(self)@.reference(ident@),
            old(self)@.grows(final(self)@),
    {
        let is_module = is_word(&ident.sym, "module");
        let is_exports = is_word(&ident.sym, "exports");
        if (is_module || is_exports) && check_free(ident, &self.decls) {
            self.has_cjs_exports = true;
            self.static_cjs_exports = false;
            if is_module {
                self.should_wrap = true;
            }
        }
        if !is_word(&ident.sym, "import") {
            self.access(ident);
        }
    }

    fn export_binding(&mut self, binding: &Node)
        ensures
            final(self)@ == old(self)@.export_binding(binding@),
            old(self)@.grows(final(self)@),
    {
        if self.in_export_decl {
            self.export(binding, binding.sym.clone());
        }
    }

    fn enter_import(&mut self, source: &String, is_async: bool)
        ensures
            final(self)@ == old(self)@.enter_import(source@, is_async),
            old(self)@.grows(final(self)@),
    {
        if !self.in_top_level {
            self.wrapped(source);
            if !is_async {
                self.non_static(source);
            }
        }
    }

    fn add_key_import(&mut self, key: Option<String>, value: &Node, source: &String, is_async: bool)
        ensures
            final(self)@ == add_key_import(old(self)@, key.deep_view(), value@, source@, is_async),
            old(self)@.grows(final(self)@),
    {
        match key {
            Some(local) => {
                if value.kind == Kind::BindingIdent {
                    self.add_import(value, source, local, is_async, value.span);
                } else {
                    self.non_static(source);
                }
            },
            None => {
                self.non_static(source);
            },
        }
    }

    fn add_pat_imports(&mut self, pat: &Node, source: &String, is_async: bool)
        ensures
            final(self)@ == add_pat_imports(old(self)@, pat@, source@, is_async),
            old(self)@.grows(final(self)@),
    {
        self.enter_import(source, is_async);
        if pat.kind == Kind::BindingIdent {
            self.add_import(pat, source, String::from_str("*"), is_async, pat.span);
        } else if pat.kind == Kind::ObjectPat {
            let ghost c0 = self@;
            proof {
                lemma_children(pat);
            }
            let mut i: usize = 0;
            while i < pat.children.len()
                invariant
                c0.grows(self@),
                    i <= pat.children.len(),
                    pat@.children.len() == pat.children.len(),
                    forall|j: int|
                        0 <= j < pat.children.len() ==> pat@.children[j] == (
                        #[trigger] pat.children[j])@,
                    add_prop_imports(self@, pat@, i as int, source@, is_async) == add_prop_imports(
                        c0,
                        pat@,
                        0,
                        source@,
                        is_async,
                    ),
                decreases pat.children.len() - i,
            {
                let p = &pat.children[i];
                proof {
                    lemma_children(p);
                }
                if p.kind == Kind::KeyValuePat && p.children.len() == 2 {
                    let k = &p.children[0];
                    let key = if k.kind == Kind::Key || k.kind == Kind::Str {
                        Some(k.sym.clone())
                    } else {
                        None
                    };
                    self.add_key_import(key, &p.children[1], source, is_async);
                } else if p.kind == Kind::AssignPatProp {
                    self.add_import(p, source, p.sym.clone(), is_async, p.span);
                } else {
                    self.non_static(source);
                }
                i += 1;
            }
        } else {
            self.non_static(source);
        }
    }

    fn import_spec(&mut self, source: &String, sp: &Node)
        ensures
            final(self)@ == import_spec(old(self)@, source@, sp@),
            old(self)@.grows(final(self)@),
    {
        proof {
            lemma_children(sp);
        }
        if sp.kind == Kind::ImportNamed && sp.children.len() == 2 {
            let local = &sp.children[0];
            let imported = if sp.children[1].kind == Kind::Absent {
                local.sym.clone()
            } else {
                sp.children[1].sym.clone()
            };
            self.add_import(local, source, imported, false, sp.span);
        } else if sp.kind == Kind::ImportDefault && sp.children.len() == 1 {
            self.add_import(&sp.children[0], source, String::from_str("default"), false, sp.span);
        } else if sp.kind == Kind::ImportNamespace && sp.children.len() == 1 {
            self.add_import(&sp.children[0], source, String::from_str("*"), false, sp.span);
        }
    }

    fn visit_import(&mut self, node: &Node)
        ensures
            final(self)@ == import_specs(old(self)@, node@, 0),
            old(self)@.grows(final(self)@),
    {
        let ghost c0 = self@;
        proof {
            lemma_children(node);
        }
        let mut i: usize = 0;
        while i < node.children.len()
            invariant
                c0.grows(self@),
                i <= node.children.len(),
                node@.children.len() == node.children.len(),
                forall|j: int|
                    0 <= j < node.children.len() ==> node@.children[j] == (
                    #[trigger] node.children[j])@,
                import_specs(self@, node@, i as int) == import_specs(c0, node@, 0),
            decreases node.children.len() - i,
        {
            self.import_spec(&node.sym, &node.children[i]);
            i += 1;
        }
    }

    fn export_spec(&mut self, sp: &Node)
        ensures
            final(self)@ == export_spec(old(self)@, sp@),
            old(self)@.grows(final(self)@),
    {
        proof {
            lemma_children(sp);
        }
        if sp.kind == Kind::ExportSpec && sp.children.len() == 2 {
            let name = if sp.children[1].kind == Kind::Absent {
                sp.children[0].sym.clone()
            } else {
                sp.children[1].sym.clone()
            };
            self.export_if_absent(&sp.children[0], name);
        } else if sp.kind == Kind::ExportSpecDefault && sp.children.len() == 1 {
            self.export_if_absent(&sp.children[0], String::from_str("default"));
        } else if sp.kind == Kind::ExportSpecNamespace && sp.children.len() == 1 {
            self.export_if_absent(&sp.children[0], String::from_str("*"));
        }
    }

    fn visit_named_export(&mut self, node: &Node)
        ensures
            final(self)@ == export_specs(old(self)@, node@, 0),
            old(self)@.grows(final(self)@),
    {
        let ghost c0 = self@;
        proof {
            lemma_children(node);
        }
        let mut i: usize = 0;
        while i < node.children.len()
            invariant
                c0.grows(self@),
                i <= node.children.len(),
                node@.children.len() == node.children.len(),
                forall|j: int|
                    0 <= j < node.children.len() ==> node@.children[j] == (
                    #[trigger] node.children[j])@,
                export_specs(self@, node@, i as int) == export_specs(c0, node@, 0),
            decreases node.children.len() - i,
        {
            self.export_spec(&node.children[i]);
            i += 1;
        }
    }

    fn visit_children(&mut self, node: &Node)
        ensures
            final(self)@ == visit_from(old(self)@, node@, 0),
            old(self)@.grows(final(self)@),
        decreases node, 0nat,
    {
        let ghost c0 = self@;
        proof {
            lemma_children(node);
        }
        let mut i: usize = 0;
        while i < node.children.len()
            invariant
                c0.grows(self@),
                i <= node.children.len(),
                node@.children.len() == node.children.len(),
                forall|j: int|
                    0 <= j < node.children.len() ==> node@.children[j] == (
                    #[trigger] node.children[j])@,
                visit_from(self@, node@, i as int) == visit_from(c0, node@, 0),
            decreases node.children.len() - i,
        {
            self.visit_any(&node.children[i]);
            i += 1;
        }
    }

    fn visit_scope(&mut self, node: &Node)
        ensures
            final(self)@ == visit_scope(old(self)@, node@),
            old(self)@.grows(final(self)@),
        decreases node, 1nat,
    {
        let in_module_this = self.in_module_this;
        let in_function = self.in_function;
        self.in_module_this = false;
        self.in_function = true;
        self.visit_children(node);
        self.in_module_this = in_module_this;
        self.in_function = in_function;
    }

    fn visit_arrow(&mut self, node: &Node)
        ensures
            final(self)@ == visit_arrow(old(self)@, node@),
            old(self)@.grows(final(self)@),
        decreases node, 1nat,
    {
        let in_function = self.in_function;
        self.in_function = true;
        self.visit_children(node);
        self.in_function = in_function;
    }

    fn visit_return(&mut self, node: &Node)
        ensures
            final(self)@ == visit_return(old(self)@, node@),
            old(self)@.grows(final(self)@),
        decreases node, 1nat,
    {
        if !self.in_function {
            self.should_wrap = true;
        }
        self.visit_children(node);
    }

    fn visit_member(&mut self, node: &Node)
        ensures
            final(self)@ == visit_member(old(self)@, node@),
            old(self)@.grows(final(self)@),
        decreases node, 1nat,
    {
        proof {
            lemma_children(node);
        }
        if !check_member(node) {
            self.visit_children(node);
            return ;
        }
        if check_module_exports(node, &self.decls) {
            self.cjs_export(false);
            return ;
        }
        let is_static = find_static_key(node).is_some();
        let obj = &node.children[0];
        if check_member(obj) && check_module_exports(obj, &self.decls) {
            self.cjs_export(is_static);
        } else if obj.kind == Kind::Ident {
            if is_word(&obj.sym, "exports") && check_free(obj, &self.decls) {
                self.cjs_export(is_static);
            }
            if !is_static && !is_word(&obj.sym, "import") {
                self.access(obj);
            }
        } else if obj.kind == Kind::This {
            if self.in_module_this {
                self.cjs_export(is_static);
            }
        } else {
            self.visit_any(&node.children[0]);
            if node.kind == Kind::Index {
                self.visit_any(&node.children[1]);
            }
        }
    }

    fn visit_assign(&mut self, node: &Node)
        ensures
            final(self)@ == visit_assign(old(self)@, node@),
            old(self)@.grows(final(self)@),
        decreases node, 1nat,
    {
        proof {
            lemma_children(node);
        }
        let rebinds = node.children.len() == 2 && has_binding_identifier(
            &node.children[0],
            "exports",
            &self.decls,
        );
        self.visit_children(node);
        if rebinds {
            self.static_cjs_exports = false;
            self.has_cjs_exports = true;
            self.should_wrap = true;
        }
    }

    fn visit_var_declarator(&mut self, node: &Node)
        ensures
            final(self)@ == visit_var_declarator(old(self)@, node@),
            old(self)@.grows(final(self)@),
        decreases node, 1nat,
    {
        proof {
            lemma_children(node);
        }
        if node.children.len() == 2 {
            let name = &node.children[0];
            let init = &node.children[1];
            proof {
                lemma_children(init);
            }
            if let Some(source) = self.match_require(init) {
                self.add_pat_imports(name, &source, false);
                return ;
            }
            if check_member(init) {
                if let Some(source) = self.match_require(&init.children[0]) {
                    let key = find_static_key(init);
                    self.enter_import(&source, false);
                    self.add_key_import(key, name, &source, false);
                    return ;
                }
            }
            if init.kind == Kind::Await && init.children.len() == 1 {
                if let Some(source) = match_import(&init.children[0], self.ignore_mark) {
                    self.add_pat_imports(name, &source, true);
                    return ;
                }
            }
        }
        self.visit_children(node);
    }

    fn call_effects(&mut self, node: &Node)
        ensures
            final(self)@ == call_effects(old(self)@, node@),
            old(self)@.grows(final(self)@),
    {
        if let Some(source) = self.match_require(node) {
            self.wrapped(&source);
        }
        if let Some(source) = match_import(node, self.ignore_mark) {
            self.non_static(&source);
            self.wrapped(&source);
        }
    }

    fn visit_call(&mut self, node: &Node)
        ensures
            final(self)@ == visit_call(old(self)@, node@),
            old(self)@.grows(final(self)@),
        decreases node, 1nat,
    {
        proof {
            lemma_children(node);
        }
        let ghost c0 = self@;
        self.call_effects(node);
        if node.kind == Kind::Call && node.children.len() >= 2 {
            let callee = &node.children[0];
            proof {
                lemma_children(callee);
            }
            if check_member(callee) {
                if let Some(source) = match_import(&callee.children[0], self.ignore_mark) {
                    if has_static_key(callee, "then") {
                        assert(is_import_then(node@, c0.ignore_mark));
                        let arg = &node.children[1];
                        proof {
                            lemma_children(arg);
                        }
                        match find_callback_param(strip_spread(arg)) {
                            Some(p) => {
                                self.add_pat_imports(p, &source, true);
                            },
                            None => {
                                self.non_static(&source);
                                self.wrapped(&source);
                            },
                        }
                        if arg.kind == Kind::Spread && arg.children.len() == 1 {
                            self.visit_any(&arg.children[0]);
                        } else {
                            self.visit_any(arg);
                        }
                        return ;
                    }
                }
            }
        }
        assert(!is_import_then(node@, c0.ignore_mark));
        if node.children.len() >= 1 {
            let callee = &node.children[0];
            if callee.kind == Kind::Ident && is_word(&callee.sym, "eval") && check_free(
                callee,
                &self.decls,
            ) {
                self.should_wrap = true;
            }
        }
        self.visit_children(node);
    }

    fn export_declarators(&mut self, decl: &Node)
        ensures
            final(self)@ == export_declarators(old(self)@, decl@, 0),
            old(self)@.grows(final(self)@),
        decreases decl, 0nat,
    {
        let ghost c0 = self@;
        proof {
            lemma_children(decl);
        }
        let mut i: usize = 0;
        while i < decl.children.len()
            invariant
                c0.grows(self@),
                i <= decl.children.len(),
                decl@.children.len() == decl.children.len(),
                forall|j: int|
                    0 <= j < decl.children.len() ==> decl@.children[j] == (
                    #[trigger] decl.children[j])@,
                export_declarators(self@, decl@, i as int) == export_declarators(c0, decl@, 0),
            decreases decl.children.len() - i,
        {
            let v = &decl.children[i];
            proof {
                lemma_children(v);
            }
            if v.kind == Kind::VarDeclarator && v.children.len() == 2 {
                self.in_export_decl = true;
                self.visit_any(&v.children[0]);
                self.in_export_decl = false;
                self.visit_any(&v.children[1]);
            }
            i += 1;
        }
    }

    fn visit_export_decl(&mut self, node: &Node)
        ensures
            final(self)@ == visit_export_decl(old(self)@, node@),
            old(self)@.grows(final(self)@),
        decreases node, 1nat,
    {
        proof {
            lemma_children(node);
        }
        if node.children.len() == 1 {
            let d = &node.children[0];
            proof {
                lemma_children(d);
            }
            if (d.kind == Kind::ClassDecl || d.kind == Kind::FnDecl) && d.children.len() >= 1 {
                self.export(&d.children[0], d.children[0].sym.clone());
            } else if d.kind == Kind::VarDecl {
                self.export_declarators(d);
            }
        }
        self.visit_children(node);
    }

    fn visit_export_default_decl(&mut self, node: &Node)
        ensures
            final(self)@ == visit_export_default_decl(old(self)@, node@),
            old(self)@.grows(final(self)@),
        decreases node, 1nat,
    {
        proof {
            lemma_children(node);
        }
        if node.children.len() == 1 {
            let d = &node.children[0];
            proof {
                lemma_children(d);
            }
            if (d.kind == Kind::ClassExpr || d.kind == Kind::FnExpr) && d.children.len() == 2 {
                if d.children[0].kind != Kind::Absent {
                    self.export(&d.children[0], String::from_str("default"));
                }
            } else {
                self.fail(HoistError::UnsupportedDefaultExport);
            }
        }
        self.visit_children(node);
    }

    fn check_bare_require(&self, node: &Node) -> (b: bool)
        ensures
            b == is_bare_require(node@, self@.decls, self@.ignore_mark),
    {
        proof {
            lemma_children(node);
        }
        node.kind == Kind::ExprStmt && node.children.len() == 1 && self.match_require(
            &node.children[0],
        ).is_some()
    }

    fn visit_item(&mut self, node: &Node)
        ensures
            final(self)@ == visit_item(old(self)@, node@),
            old(self)@.grows(final(self)@),
        decreases node, 6nat,
    {
        if check_module_decl(node.kind) {
            self.is_esm = true;
        }
        if node.kind == Kind::VarDecl {
            self.visit_children(node);
        } else if !self.check_bare_require(node) {
            self.in_top_level = false;
            self.visit_any(node);
            self.in_top_level = true;
        }
    }

    /// Walks a module, and records the first reason for which it cannot go on.
    fn visit_module_any(&mut self, node: &Node)
        ensures
            final(self)@ == visit_module(old(self)@, node@),
            old(self)@.grows(final(self)@),
        decreases node, 4nat,
    {
        self.in_module_this = true;
        self.in_top_level = true;
        self.in_function = false;
        let ghost c0 = self@;
        proof {
            lemma_children(node);
        }
        let mut i: usize = 0;
        while i < node.children.len()
            invariant
                c0.grows(self@),
                i <= node.children.len(),
                node@.children.len() == node.children.len(),
                forall|j: int|
                    0 <= j < node.children.len() ==> node@.children[j] == (
                    #[trigger] node.children[j])@,
                visit_items(self@, node@, i as int) == visit_items(c0, node@, 0),
            decreases node.children.len() - i,
        {
            self.visit_item(&node.children[i]);
            i += 1;
        }
        self.in_module_this = false;
    }

    /// Walks a node, and records the first reason for which it cannot go on.
    fn visit_any(&mut self, node: &Node)
        ensures
            final(self)@ == visit(old(self)@, node@),
            old(self)@.grows(final(self)@),
        decreases node, 5nat,
    {
        proof {
            lemma_visit(self@, node@);
        }
        match node.kind {
            Kind::Function | Kind::Class | Kind::Getter | Kind::Setter => self.visit_scope(node),
            Kind::Arrow => self.visit_arrow(node),
            Kind::Import => self.visit_import(node),
            Kind::ExportNamed => self.visit_named_export(node),
            Kind::ExportFrom => {},
            Kind::ExportDecl => self.visit_export_decl(node),
            Kind::ExportDefaultDecl => self.visit_export_default_decl(node),
            Kind::Return => self.visit_return(node),
            Kind::BindingIdent | Kind::AssignPatProp => {
                self.export_binding(node);
                self.visit_children(node);
            },
            Kind::Member | Kind::Index => self.visit_member(node),
            Kind::Ident => self.reference(node),
            Kind::This => {
                if self.in_module_this {
                    self.cjs_export(false);
                }
            },
            Kind::Assign => self.visit_assign(node),
            Kind::VarDeclarator => self.visit_var_declarator(node),
            Kind::Call => self.visit_call(node),
            _ => self.visit_children(node),
        }
    }

    /// Walks a node of a module that can be hoisted, and records what the
    /// analysis finds of it and of everything below it. No flag moves back.
    pub fn visit(&mut self, node: &Node)
        requires
            can_visit(old(self)@, node@),
        ensures
            final(self)@ == visit(old(self)@, node@),
            final(self)@.error == old(self)@.error,
            old(self)@.grows(final(self)@),
    {
        self.visit_any(node)
    }

    /// Walks a module that can be hoisted and records what the analysis finds.
    /// No flag moves back.
    pub fn visit_module(&mut self, node: &Node)
        requires
            can_visit_module(old(self)@, node@),
        ensures
            final(self)@ == visit_module(old(self)@, node@),
            final(self)@.error == old(self)@.error,
            old(self)@.grows(final(self)@),
    {
        self.visit_module_any(node)
    }

    /// Walks a module and records what the analysis finds, or gives the first
    /// reason for which the module cannot be hoisted: the reason that the state
    /// held before, or else the first that the walk finds.
    pub fn try_visit_module(&mut self, node: &Node) -> (r: Result<(), HoistError>)
        ensures
            final(self)@ == visit_module(old(self)@, node@),
            match r {
                Ok(_) => final(self)@.error is None,
                Err(e) => final(self)@.error == Some(e),
            },
            old(self)@.grows(final(self)@),
    {
        self.visit_module_any(node);
        match self.error {
            Some(e) => Err(e),
            None => Ok(()),
        }
    }
}

} // verus!
