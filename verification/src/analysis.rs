//! What the analysis computes, as a function of the module's tree.

use crate::matchers::{
    binds, import_source, is_free, is_member, is_module_exports, key_of, require_source, static_key,
    unspread,
};
use crate::names::star;
use crate::tables::IdentKey;
use crate::tree::{Kind, Span, Tree};
use vstd::prelude::*;

verus! {

/// Why a module cannot be hoisted.
#[derive(Clone, Copy, Debug, PartialEq, Eq, Structural)]
pub enum HoistError {
    /// `export default` of a declaration that is neither a function nor a class.
    UnsupportedDefaultExport,
    /// An assignment to a computed member of the exports object, in a module
    /// whose exports the analysis found static.
    DynamicExportWrite,
    /// An export list names a binding that the analysis has not recorded.
    UnknownExport,
}

/// What a local binding imports.
#[derive(Debug)]
pub struct Import {
    /// The module that it is imported from.
    pub source: String,
    /// The name that is imported; `*` is the whole namespace.
    pub local: String,
    /// Whether the import is a dynamic one.
    pub is_async: bool,
    /// Where the binding stands.
    pub loc: Span,
}

/// The mathematical value of an [`Import`].
pub struct ImportView {
    pub source: Seq<char>,
    pub local: Seq<char>,
    pub is_async: bool,
    pub loc: Span,
}

impl View for Import {
    type V = ImportView;

    open spec fn view(&self) -> ImportView {
        ImportView { source: self.source@, local: self.local@, is_async: self.is_async, loc: self.loc }
    }
}

/// The mathematical value of a [`Collect`].
pub struct CollectView {
    pub decls: Set<IdentKey>,
    pub ignore_mark: u32,
    pub static_cjs_exports: bool,
    pub has_cjs_exports: bool,
    pub is_esm: bool,
    pub should_wrap: bool,
    pub imports: Map<IdentKey, ImportView>,
    pub exports: Map<IdentKey, Seq<char>>,
    pub non_static_access: Set<IdentKey>,
    pub non_static_requires: Set<Seq<char>>,
    pub wrapped_requires: Set<Seq<char>>,
    pub in_module_this: bool,
    pub in_top_level: bool,
    pub in_export_decl: bool,
    pub in_function: bool,
    pub error: Option<HoistError>,
}

impl CollectView {
    /// The state before the walk.
    pub open spec fn start(decls: Set<IdentKey>, ignore_mark: u32) -> CollectView {
        CollectView {
            decls,
            ignore_mark,
            static_cjs_exports: true,
            has_cjs_exports: false,
            is_esm: false,
            should_wrap: false,
            imports: Map::empty(),
            exports: Map::empty(),
            non_static_access: Set::empty(),
            non_static_requires: Set::empty(),
            wrapped_requires: Set::empty(),
            in_module_this: true,
            in_top_level: true,
            in_export_decl: false,
            in_function: false,
            error: None,
        }
    }

    /// Records what a local binding imports; a later record replaces an earlier one.
    pub open spec fn add_import(
        self,
        id: IdentKey,
        source: Seq<char>,
        local: Seq<char>,
        is_async: bool,
        loc: Span,
    ) -> CollectView {
        CollectView { imports: self.imports.insert(id, ImportView { source, local, is_async, loc }), ..self }
    }

    /// Records the exported name of a binding; a later record replaces an earlier one.
    pub open spec fn export(self, id: IdentKey, name: Seq<char>) -> CollectView {
        CollectView { exports: self.exports.insert(id, name), ..self }
    }

    /// Records the exported name of a binding unless it has one.
    pub open spec fn export_if_absent(self, id: IdentKey, name: Seq<char>) -> CollectView {
        if self.exports.contains_key(id) {
            self
        } else {
            self.export(id, name)
        }
    }

    /// Records that an identifier is used as a value or with a computed key.
    pub open spec fn access(self, id: IdentKey) -> CollectView {
        CollectView { non_static_access: self.non_static_access.insert(id), ..self }
    }

    /// Records that the namespace object of a source is needed as a whole.
    pub open spec fn non_static(self, source: Seq<char>) -> CollectView {
        CollectView { non_static_requires: self.non_static_requires.insert(source), ..self }
    }

    /// Records that a source is required where the order of evaluation counts.
    pub open spec fn wrapped(self, source: Seq<char>) -> CollectView {
        CollectView { wrapped_requires: self.wrapped_requires.insert(source), ..self }
    }

    /// Records a CommonJS export, with a static key or not.
    pub open spec fn cjs_export(self, is_static: bool) -> CollectView {
        CollectView {
            has_cjs_exports: true,
            static_cjs_exports: self.static_cjs_exports && is_static,
            ..self
        }
    }

    /// Records that the module has to be wrapped.
    pub open spec fn wrap(self) -> CollectView {
        CollectView { should_wrap: true, ..self }
    }

    /// Records that `exports` is bound anew: the exports are not static and the
    /// module has to be wrapped.
    pub open spec fn rebind_exports(self) -> CollectView {
        CollectView { static_cjs_exports: false, has_cjs_exports: true, should_wrap: true, ..self }
    }

    /// Records a reason for which the module cannot be hoisted, unless one is recorded.
    pub open spec fn fail(self, e: HoistError) -> CollectView {
        if self.error is None {
            CollectView { error: Some(e), ..self }
        } else {
            self
        }
    }

    /// Whether `next` may follow `self` in a walk: the declarations are the same,
    /// and no flag has moved back. A module that has to be wrapped stays so, a
    /// module with CommonJS exports keeps them, exports that are not static do not
    /// become static, and a reason not to hoist stays the reason.
    pub open spec fn grows(self, next: CollectView) -> bool {
        &&& next.decls == self.decls
        &&& next.ignore_mark == self.ignore_mark
        &&& self.should_wrap ==> next.should_wrap
        &&& self.has_cjs_exports ==> next.has_cjs_exports
        &&& !self.static_cjs_exports ==> !next.static_cjs_exports
        &&& self.is_esm ==> next.is_esm
        &&& self.error is Some ==> next.error == self.error
    }

    /// Whether the module has to be wrapped on account of its exports: then it
    /// has CommonJS exports, and they are not static.
    pub open spec fn wrapped_for_exports(self) -> bool {
        self.should_wrap && self.has_cjs_exports && !self.static_cjs_exports
    }

    /// An identifier used as an expression: a free `module` or `exports` makes the
    /// exports non-static, a free `module` makes the module wrapped, and every
    /// identifier but `import` counts as used as a value.
    pub open spec fn reference(self, t: Tree) -> CollectView {
        let is_module = t.sym == "module"@;
        let is_exports = t.sym == "exports"@;
        let c = if (is_module || is_exports) && is_free(t, self.decls) {
            CollectView {
                has_cjs_exports: true,
                static_cjs_exports: false,
                should_wrap: self.should_wrap || is_module,
                ..self
            }
        } else {
            self
        };
        if t.sym != "import"@ {
            c.access(key_of(t))
        } else {
            c
        }
    }

    /// `this` where it is the exports object makes the exports non-static.
    pub open spec fn this_reference(self) -> CollectView {
        if self.in_module_this {
            self.cjs_export(false)
        } else {
            self
        }
    }

    /// A binding in the pattern of an exported variable declaration is exported
    /// under its own name. Its default value, if it has one, is walked after.
    pub open spec fn export_binding(self, t: Tree) -> CollectView {
        if self.in_export_decl {
            self.export(key_of(t), t.sym)
        } else {
            self
        }
    }

    /// What every import through a pattern records first: below the top level the
    /// source is wrapped, and a `require` there needs the whole namespace.
    pub open spec fn enter_import(self, source: Seq<char>, is_async: bool) -> CollectView {
        if self.in_top_level {
            self
        } else if is_async {
            self.wrapped(source)
        } else {
            self.wrapped(source).non_static(source)
        }
    }
}

/// Whether a kind is that of a module declaration.
pub open spec fn is_module_decl(kind: Kind) -> bool {
    kind == Kind::Import || kind == Kind::ExportNamed || kind == Kind::ExportFrom || kind
        == Kind::ExportAll || kind == Kind::ExportDefaultExpr || kind == Kind::ExportDefaultDecl
        || kind == Kind::ExportDecl || kind == Kind::OtherModuleDecl
}

/// The name of a key in an object pattern, where it is static.
pub open spec fn prop_key(t: Tree) -> Option<Seq<char>> {
    if t.kind == Kind::Key || t.kind == Kind::Str {
        Some(t.sym)
    } else {
        None
    }
}

/// One property `key: value` of a pattern that destructures `source`: with a
/// static key and an identifier as value it is an import of that key, else the
/// whole namespace is needed.
pub open spec fn add_key_import(
    c: CollectView,
    key: Option<Seq<char>>,
    value: Tree,
    source: Seq<char>,
    is_async: bool,
) -> CollectView {
    match key {
        Some(local) => if value.kind == Kind::BindingIdent {
            c.add_import(key_of(value), source, local, is_async, value.span)
        } else {
            c.non_static(source)
        },
        None => c.non_static(source),
    }
}

/// The properties of an object pattern that destructures `source`, from number `i` on.
pub open spec fn add_prop_imports(
    c: CollectView,
    pat: Tree,
    i: int,
    source: Seq<char>,
    is_async: bool,
) -> CollectView
    decreases pat.children.len() - i,
{
    if 0 <= i < pat.children.len() {
        let p = pat.children[i];
        let c1 = if p.kind == Kind::KeyValuePat && p.children.len() == 2 {
            add_key_import(c, prop_key(p.children[0]), p.children[1], source, is_async)
        } else if p.kind == Kind::AssignPatProp {
            c.add_import(key_of(p), source, p.sym, is_async, p.span)
        } else {
            c.non_static(source)
        };
        add_prop_imports(c1, pat, i + 1, source, is_async)
    } else {
        c
    }
}

/// A pattern that is bound to the namespace of `source`: an identifier stands
/// for the whole namespace, an object pattern for one import for each property,
/// and any other pattern needs the whole namespace.
pub open spec fn add_pat_imports(c: CollectView, pat: Tree, source: Seq<char>, is_async: bool) -> CollectView {
    let c1 = c.enter_import(source, is_async);
    if pat.kind == Kind::BindingIdent {
        c1.add_import(key_of(pat), source, star(), is_async, pat.span)
    } else if pat.kind == Kind::ObjectPat {
        add_prop_imports(c1, pat, 0, source, is_async)
    } else {
        c1.non_static(source)
    }
}

/// One specifier of an import declaration.
pub open spec fn import_spec(c: CollectView, source: Seq<char>, sp: Tree) -> CollectView {
    if sp.kind == Kind::ImportNamed && sp.children.len() == 2 {
        let local = sp.children[0];
        let imported = if sp.children[1].kind == Kind::Absent {
            local.sym
        } else {
            sp.children[1].sym
        };
        c.add_import(key_of(local), source, imported, false, sp.span)
    } else if sp.kind == Kind::ImportDefault && sp.children.len() == 1 {
        c.add_import(key_of(sp.children[0]), source, "default"@, false, sp.span)
    } else if sp.kind == Kind::ImportNamespace && sp.children.len() == 1 {
        c.add_import(key_of(sp.children[0]), source, star(), false, sp.span)
    } else {
        c
    }
}

/// The specifiers of an import declaration, from number `i` on.
pub open spec fn import_specs(c: CollectView, t: Tree, i: int) -> CollectView
    decreases t.children.len() - i,
{
    if 0 <= i < t.children.len() {
        import_specs(import_spec(c, t.sym, t.children[i]), t, i + 1)
    } else {
        c
    }
}

/// The name under which a specifier of an export list exports its binding.
pub open spec fn exported_name(sp: Tree) -> Seq<char> {
    if sp.children[1].kind == Kind::Absent {
        sp.children[0].sym
    } else {
        sp.children[1].sym
    }
}

/// One specifier of an export list without a source.
pub open spec fn export_spec(c: CollectView, sp: Tree) -> CollectView {
    if sp.kind == Kind::ExportSpec && sp.children.len() == 2 {
        c.export_if_absent(key_of(sp.children[0]), exported_name(sp))
    } else if sp.kind == Kind::ExportSpecDefault && sp.children.len() == 1 {
        c.export_if_absent(key_of(sp.children[0]), "default"@)
    } else if sp.kind == Kind::ExportSpecNamespace && sp.children.len() == 1 {
        c.export_if_absent(key_of(sp.children[0]), star())
    } else {
        c
    }
}

/// The specifiers of an export list without a source, from number `i` on.
pub open spec fn export_specs(c: CollectView, t: Tree, i: int) -> CollectView
    decreases t.children.len() - i,
{
    if 0 <= i < t.children.len() {
        export_specs(export_spec(c, t.children[i]), t, i + 1)
    } else {
        c
    }
}

/// The pattern of the first parameter of a callback, if it is a function with a
/// parameter.
pub open spec fn callback_param(cb: Tree) -> Option<Tree> {
    if cb.kind == Kind::FnExpr && cb.children.len() == 2 {
        first_param(cb.children[1])
    } else if cb.kind == Kind::Arrow {
        first_param(cb)
    } else {
        None
    }
}

/// The pattern of the first parameter of a function or an arrow function.
pub open spec fn first_param(f: Tree) -> Option<Tree> {
    if (f.kind == Kind::Function || f.kind == Kind::Arrow) && f.children.len() >= 1
        && f.children[0].kind == Kind::Params && f.children[0].children.len() >= 1 {
        Some(f.children[0].children[0])
    } else {
        None
    }
}

/// The walk over the children of a node, from number `i` on.
pub open spec fn visit_from(c: CollectView, t: Tree, i: int) -> CollectView
    decreases t, t.children.len() - i,
{
    if 0 <= i < t.children.len() {
        visit_from(visit(c, t.children[i]), t, i + 1)
    } else {
        c
    }
}

/// The walk over a function, a class, a getter or a setter: inside, `this` is
/// not the exports object.
pub open spec fn visit_scope(c: CollectView, t: Tree) -> CollectView
    decreases t, t.children.len() + 1,
{
    let inner = visit_from(CollectView { in_module_this: false, in_function: true, ..c }, t, 0);
    CollectView { in_module_this: c.in_module_this, in_function: c.in_function, ..inner }
}

/// The walk over an arrow function, which leaves `this` as it is.
pub open spec fn visit_arrow(c: CollectView, t: Tree) -> CollectView
    decreases t, t.children.len() + 1,
{
    let inner = visit_from(CollectView { in_function: true, ..c }, t, 0);
    CollectView { in_function: c.in_function, ..inner }
}

/// The walk over a `return`: outside every function it makes the module wrapped.
pub open spec fn visit_return(c: CollectView, t: Tree) -> CollectView
    decreases t, t.children.len() + 1,
{
    visit_from(
        if c.in_function {
            c
        } else {
            c.wrap()
        },
        t,
        0,
    )
}

/// The walk over a member access that says nothing of the exports: its object
/// is walked, and its property where it is an expression in brackets. A name
/// after a dot is no reference.
pub open spec fn visit_access(c: CollectView, t: Tree) -> CollectView
    decreases t, 0nat,
{
    if t.children.len() == 2 {
        let c1 = visit(c, t.children[0]);
        if t.kind == Kind::Index {
            visit(c1, t.children[1])
        } else {
            c1
        }
    } else {
        c
    }
}

/// The walk over a member access.
pub open spec fn visit_member(c: CollectView, t: Tree) -> CollectView
    decreases t, t.children.len() + 1,
{
    if !is_member(t) {
        visit_from(c, t, 0)
    } else if is_module_exports(t, c.decls) {
        c.cjs_export(false)
    } else {
        let is_static = static_key(t) is Some;
        let obj = t.children[0];
        if is_member(obj) && is_module_exports(obj, c.decls) {
            c.cjs_export(is_static)
        } else if obj.kind == Kind::Ident {
            let c1 = if obj.sym == "exports"@ && is_free(obj, c.decls) {
                c.cjs_export(is_static)
            } else {
                c
            };
            if !is_static && obj.sym != "import"@ {
                c1.access(key_of(obj))
            } else {
                c1
            }
        } else if obj.kind == Kind::This {
            if c.in_module_this {
                c.cjs_export(is_static)
            } else {
                c
            }
        } else {
            visit_access(c, t)
        }
    }
}

/// The walk over an assignment: its children, and then a pattern on the left
/// that binds the free name `exports`.
pub open spec fn visit_assign(c: CollectView, t: Tree) -> CollectView
    decreases t, t.children.len() + 1,
{
    let c1 = visit_from(c, t, 0);
    if t.children.len() == 2 && binds(t.children[0], "exports"@, c.decls) {
        c1.rebind_exports()
    } else {
        c1
    }
}

/// The walk over a variable declarator: `v = require(s)`, `v = require(s).k` and
/// `v = await import(s)` record imports and are not walked further.
pub open spec fn visit_var_declarator(c: CollectView, t: Tree) -> CollectView
    decreases t, t.children.len() + 1,
{
    if t.children.len() == 2 {
        let name = t.children[0];
        let init = t.children[1];
        if require_source(init, c.decls, c.ignore_mark) is Some {
            add_pat_imports(c, name, require_source(init, c.decls, c.ignore_mark)->0, false)
        } else if is_member(init) && require_source(init.children[0], c.decls, c.ignore_mark) is Some {
            let source = require_source(init.children[0], c.decls, c.ignore_mark)->0;
            add_key_import(c.enter_import(source, false), static_key(init), name, source, false)
        } else if init.kind == Kind::Await && init.children.len() == 1 && import_source(
            init.children[0],
            c.ignore_mark,
        ) is Some {
            add_pat_imports(c, name, import_source(init.children[0], c.ignore_mark)->0, true)
        } else {
            visit_from(c, t, 0)
        }
    } else {
        visit_from(c, t, 0)
    }
}

/// Whether a call is `import(s).then(callback)`.
pub open spec fn is_import_then(t: Tree, ignore_mark: u32) -> bool {
    &&& t.kind == Kind::Call
    &&& t.children.len() >= 2
    &&& is_member(t.children[0])
    &&& import_source(t.children[0].children[0], ignore_mark) is Some
    &&& static_key(t.children[0]) == Some("then"@)
}

/// What a call records before its children are walked.
pub open spec fn call_effects(c: CollectView, t: Tree) -> CollectView {
    let c1 = match require_source(t, c.decls, c.ignore_mark) {
        Some(s) => c.wrapped(s),
        None => c,
    };
    match import_source(t, c.ignore_mark) {
        Some(s) => c1.non_static(s).wrapped(s),
        None => c1,
    }
}

/// Whether a call is a call of the free name `eval`.
pub open spec fn is_free_eval(t: Tree, decls: Set<IdentKey>) -> bool {
    t.children.len() >= 1 && t.children[0].kind == Kind::Ident && t.children[0].sym == "eval"@
        && is_free(t.children[0], decls)
}

/// The walk over a call.
pub open spec fn visit_call(c: CollectView, t: Tree) -> CollectView
    decreases t, t.children.len() + 1,
{
    let c1 = call_effects(c, t);
    if is_import_then(t, c.ignore_mark) {
        let source = import_source(t.children[0].children[0], c.ignore_mark)->0;
        let callback = unspread(t.children[1]);
        let c2 = match callback_param(callback) {
            Some(p) => add_pat_imports(c1, p, source, true),
            None => c1.non_static(source).wrapped(source),
        };
        visit(c2, callback)
    } else if is_free_eval(t, c.decls) {
        visit_from(c1.wrap(), t, 0)
    } else {
        visit_from(c1, t, 0)
    }
}

/// The declarators of an exported variable declaration, from number `i` on: the
/// bindings of each pattern are exported, and each initializer is walked.
pub open spec fn export_declarators(c: CollectView, d: Tree, i: int) -> CollectView
    decreases d, d.children.len() - i,
{
    if 0 <= i < d.children.len() {
        let v = d.children[i];
        let c1 = if v.kind == Kind::VarDeclarator && v.children.len() == 2 {
            let a = visit(CollectView { in_export_decl: true, ..c }, v.children[0]);
            visit(CollectView { in_export_decl: false, ..a }, v.children[1])
        } else {
            c
        };
        export_declarators(c1, d, i + 1)
    } else {
        c
    }
}

/// The walk over an exported declaration: what it declares is exported under
/// its own name, and then the declaration is walked.
pub open spec fn visit_export_decl(c: CollectView, t: Tree) -> CollectView
    decreases t, t.children.len() + 1,
{
    if t.children.len() == 1 {
        let d = t.children[0];
        let c1 = if (d.kind == Kind::ClassDecl || d.kind == Kind::FnDecl) && d.children.len() >= 1 {
            c.export(key_of(d.children[0]), d.children[0].sym)
        } else if d.kind == Kind::VarDecl {
            export_declarators(c, d, 0)
        } else {
            c
        };
        visit_from(c1, t, 0)
    } else {
        visit_from(c, t, 0)
    }
}

/// The walk over a default export of a function or a class: its name, if it has
/// one, is exported as `default`. Any other declaration cannot be hoisted.
pub open spec fn visit_export_default_decl(c: CollectView, t: Tree) -> CollectView
    decreases t, t.children.len() + 1,
{
    if t.children.len() == 1 {
        let d = t.children[0];
        let c1 = if (d.kind == Kind::ClassExpr || d.kind == Kind::FnExpr) && d.children.len() == 2 {
            if d.children[0].kind == Kind::Absent {
                c
            } else {
                c.export(key_of(d.children[0]), "default"@)
            }
        } else {
            c.fail(HoistError::UnsupportedDefaultExport)
        };
        visit_from(c1, t, 0)
    } else {
        visit_from(c, t, 0)
    }
}

/// Whether a statement is a bare `require(s);`.
pub open spec fn is_bare_require(t: Tree, decls: Set<IdentKey>, ignore_mark: u32) -> bool {
    t.kind == Kind::ExprStmt && t.children.len() == 1 && require_source(
        t.children[0],
        decls,
        ignore_mark,
    ) is Some
}

/// The walk over one item of the module body. A variable declaration is walked
/// at the top level; a statement that is a bare `require(s)` is not walked; every
/// other item is walked below the top level.
pub open spec fn visit_item(c: CollectView, t: Tree) -> CollectView
    decreases t, t.children.len() + 3,
{
    let c1 = if is_module_decl(t.kind) {
        CollectView { is_esm: true, ..c }
    } else {
        c
    };
    if t.kind == Kind::VarDecl {
        visit_from(c1, t, 0)
    } else if is_bare_require(t, c.decls, c.ignore_mark) {
        c1
    } else {
        let inner = visit(CollectView { in_top_level: false, ..c1 }, t);
        CollectView { in_top_level: true, ..inner }
    }
}

/// The walk over the items of the module body, from number `i` on.
pub open spec fn visit_items(c: CollectView, t: Tree, i: int) -> CollectView
    decreases t, t.children.len() - i,
{
    if 0 <= i < t.children.len() {
        visit_items(visit_item(c, t.children[i]), t, i + 1)
    } else {
        c
    }
}

/// The walk over a module.
pub open spec fn visit_module(c: CollectView, t: Tree) -> CollectView
    decreases t, t.children.len() + 1,
{
    let inner = visit_items(
        CollectView { in_module_this: true, in_top_level: true, in_function: false, ..c },
        t,
        0,
    );
    CollectView { in_module_this: false, ..inner }
}

/// The walk over a node: what the analysis records of the node and of
/// everything below it.
#[verifier::opaque]
pub open spec fn visit(c: CollectView, t: Tree) -> CollectView
    decreases t, t.children.len() + 2,
{
    match t.kind {
        Kind::Function | Kind::Class | Kind::Getter | Kind::Setter => visit_scope(c, t),
        Kind::Arrow => visit_arrow(c, t),
        Kind::Import => import_specs(c, t, 0),
        Kind::ExportNamed => export_specs(c, t, 0),
        Kind::ExportFrom => c,
        Kind::ExportDecl => visit_export_decl(c, t),
        Kind::ExportDefaultDecl => visit_export_default_decl(c, t),
        Kind::Return => visit_return(c, t),
        Kind::BindingIdent | Kind::AssignPatProp => visit_from(c.export_binding(t), t, 0),
        Kind::Member | Kind::Index => visit_member(c, t),
        Kind::Ident => c.reference(t),
        Kind::This => c.this_reference(),
        Kind::Assign => visit_assign(c, t),
        Kind::VarDeclarator => visit_var_declarator(c, t),
        Kind::Call => visit_call(c, t),
        _ => visit_from(c, t, 0),
    }
}

/// The walk over a node, by the node's kind.
pub proof fn lemma_visit(c: CollectView, t: Tree)
    ensures
        visit(c, t) == match t.kind {
            Kind::Function | Kind::Class | Kind::Getter | Kind::Setter => visit_scope(c, t),
            Kind::Arrow => visit_arrow(c, t),
            Kind::Import => import_specs(c, t, 0),
            Kind::ExportNamed => export_specs(c, t, 0),
            Kind::ExportFrom => c,
            Kind::ExportDecl => visit_export_decl(c, t),
            Kind::ExportDefaultDecl => visit_export_default_decl(c, t),
            Kind::Return => visit_return(c, t),
            Kind::BindingIdent | Kind::AssignPatProp => visit_from(c.export_binding(t), t, 0),
            Kind::Member | Kind::Index => visit_member(c, t),
            Kind::Ident => c.reference(t),
            Kind::This => c.this_reference(),
            Kind::Assign => visit_assign(c, t),
            Kind::VarDeclarator => visit_var_declarator(c, t),
            Kind::Call => visit_call(c, t),
            _ => visit_from(c, t, 0),
        },
{
    reveal(visit);
}

/// Whether a node can be analyzed: the walk meets nothing for which the module
/// cannot be hoisted.
pub open spec fn can_visit(c: CollectView, t: Tree) -> bool {
    visit(c, t).error == c.error
}

/// Whether a module can be analyzed: the walk meets no default export of a
/// declaration that is neither a function nor a class.
pub open spec fn can_visit_module(c: CollectView, t: Tree) -> bool {
    visit_module(c, t).error == c.error
}

/// What the analysis of a whole module finds.
pub open spec fn analyze(module: Tree, decls: Set<IdentKey>, ignore_mark: u32) -> CollectView {
    visit_module(CollectView::start(decls, ignore_mark), module)
}

} // verus!
