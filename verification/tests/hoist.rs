use scope_hoist::analysis::HoistError;
use scope_hoist::collect::Collect;
use scope_hoist::hoist;
use scope_hoist::matchers::{check_marked, has_binding_identifier, match_import, match_require};
use scope_hoist::rewrite::{Hoist, HoistResult};
use scope_hoist::tables::{IdentId, KeySet, Table};
use scope_hoist::tree::{Kind, Node, Span};
use std::collections::{HashMap, HashSet};
use swc_atoms::JsWord;
use swc_common::comments::SingleThreadedComments;
use swc_common::sync::Lrc;
use swc_common::{BytePos, FileName, Globals, Mark, SourceMap, Spanned, SyntaxContext, DUMMY_SP, GLOBALS};
use swc_ecmascript::ast;
use swc_ecmascript::codegen::text_writer::JsWriter;
use swc_ecmascript::parser::lexer::Lexer;
use swc_ecmascript::parser::{EsConfig, Parser, StringInput, Syntax};
use swc_ecmascript::transforms::helpers::{Helpers, HELPERS};
use swc_ecmascript::transforms::resolver_with_mark;
use swc_ecmascript::visit::{FoldWith, VisitMut, VisitMutWith};

// ---------------------------------------------------------------------------
// Between the trees of the parser and the trees of the pass.
// ---------------------------------------------------------------------------

/// The part of a syntax node that the pass does not read: the node with its
/// children taken out.
#[derive(Clone)]
enum Shell {
    Module(ast::Module),
    ModuleDecl(ast::ModuleDecl),
    Stmt(ast::Stmt),
    Decl(ast::Decl),
    VarDecl(ast::VarDecl),
    VarDeclarator(ast::VarDeclarator),
    Block(ast::BlockStmt),
    Expr(ast::Expr),
    Pat(ast::Pat),
    Prop(ast::Prop),
    PropName(ast::PropName),
    PatProp(ast::ObjectPatProp),
    Spread(ast::SpreadElement),
    Function(ast::Function),
    Class(ast::Class),
    Ident(ast::Ident),
    Super(ast::Super),
}

/// Turns syntax trees into the trees of the pass and back. The tag of a node
/// is the place of its shell, counted from one.
struct Codec {
    shells: Vec<Shell>,
}

fn span_of(span: swc_common::Span) -> Span {
    Span { lo: span.lo.0, hi: span.hi.0 }
}

/// The marks of a context, the outermost first.
fn marks_of(ctxt: SyntaxContext) -> Vec<u32> {
    let mut ctxt = ctxt;
    let mut marks = vec![];
    loop {
        let mark = ctxt.remove_mark();
        if mark == Mark::root() {
            break;
        }
        marks.push(mark.as_u32());
    }
    marks.reverse();
    marks
}

/// The context that carries the marks.
fn ctxt_of(marks: &[u32]) -> SyntaxContext {
    let mut ctxt = SyntaxContext::empty();
    for mark in marks {
        if *mark != 0 {
            ctxt = ctxt.apply_mark(Mark::from_u32(*mark));
        }
    }
    ctxt
}

fn swc_span(node: &Node) -> swc_common::Span {
    swc_common::Span::new(BytePos(node.span.lo), BytePos(node.span.hi), ctxt_of(&node.ctxt))
}

fn absent() -> Node {
    Node { kind: Kind::Absent, sym: String::new(), ctxt: vec![], span: Span { lo: 0, hi: 0 }, tag: 0, children: vec![] }
}

fn no_ident() -> ast::Ident {
    ast::Ident::new(JsWord::from(""), DUMMY_SP)
}

fn no_expr() -> ast::Expr {
    ast::Expr::Invalid(ast::Invalid { span: DUMMY_SP })
}

fn no_pat() -> ast::Pat {
    ast::Pat::Invalid(ast::Invalid { span: DUMMY_SP })
}

/// The mark of a place whose child is kept elsewhere.
fn held() -> swc_common::Span {
    swc_common::Span::new(BytePos(u32::MAX), BytePos(u32::MAX), SyntaxContext::empty())
}

fn held_expr() -> ast::Expr {
    ast::Expr::Invalid(ast::Invalid { span: held() })
}

fn held_pat() -> ast::Pat {
    ast::Pat::Invalid(ast::Invalid { span: held() })
}

fn is_held(span: swc_common::Span) -> bool {
    span.lo.0 == u32::MAX && span.hi.0 == u32::MAX
}

fn no_stmt() -> ast::Stmt {
    ast::Stmt::Empty(ast::EmptyStmt { span: DUMMY_SP })
}

fn no_var_decl() -> ast::VarDecl {
    ast::VarDecl { span: DUMMY_SP, kind: ast::VarDeclKind::Var, declare: false, decls: vec![] }
}

fn no_block() -> ast::BlockStmt {
    ast::BlockStmt { span: DUMMY_SP, stmts: vec![] }
}

fn no_function() -> ast::Function {
    ast::Function {
        params: vec![],
        decorators: vec![],
        span: DUMMY_SP,
        body: None,
        is_generator: false,
        is_async: false,
        type_params: None,
        return_type: None,
    }
}

fn no_class() -> ast::Class {
    ast::Class {
        span: DUMMY_SP,
        decorators: vec![],
        body: vec![],
        super_class: None,
        is_abstract: false,
        type_params: None,
        super_type_params: None,
        implements: vec![],
    }
}

fn synthesized_str(value: &str, span: swc_common::Span) -> ast::Str {
    ast::Str { span, value: JsWord::from(value), has_escape: false, kind: ast::StrKind::Synthesized }
}

/// Takes the children out of a shell, in the order in which a walk visits them.
struct Taker<'a> {
    codec: &'a mut Codec,
    children: Vec<Node>,
}

impl<'a> VisitMut for Taker<'a> {
    fn visit_mut_expr(&mut self, n: &mut ast::Expr) {
        if let ast::Expr::Invalid(ast::Invalid { span }) = n {
            if is_held(*span) {
                return;
            }
        }
        let taken = std::mem::replace(n, no_expr());
        let child = self.codec.encode_expr(taken);
        self.children.push(child);
    }

    fn visit_mut_pat(&mut self, n: &mut ast::Pat) {
        if let ast::Pat::Invalid(ast::Invalid { span }) = n {
            if is_held(*span) {
                return;
            }
        }
        let taken = std::mem::replace(n, no_pat());
        let child = self.codec.encode_pat(taken);
        self.children.push(child);
    }

    fn visit_mut_stmt(&mut self, n: &mut ast::Stmt) {
        let taken = std::mem::replace(n, no_stmt());
        let child = self.codec.encode_stmt(taken);
        self.children.push(child);
    }

    fn visit_mut_module_item(&mut self, n: &mut ast::ModuleItem) {
        let taken = std::mem::replace(n, ast::ModuleItem::Stmt(no_stmt()));
        let child = self.codec.encode_module_item(taken);
        self.children.push(child);
    }

    fn visit_mut_decl(&mut self, n: &mut ast::Decl) {
        let taken = std::mem::replace(n, ast::Decl::Var(no_var_decl()));
        let child = self.codec.encode_decl(taken);
        self.children.push(child);
    }

    fn visit_mut_var_decl(&mut self, n: &mut ast::VarDecl) {
        let taken = std::mem::replace(n, no_var_decl());
        let child = self.codec.encode_var_decl(taken);
        self.children.push(child);
    }

    fn visit_mut_block_stmt(&mut self, n: &mut ast::BlockStmt) {
        let taken = std::mem::replace(n, no_block());
        let child = self.codec.encode_block(taken);
        self.children.push(child);
    }

    fn visit_mut_function(&mut self, n: &mut ast::Function) {
        let taken = std::mem::replace(n, no_function());
        let child = self.codec.encode_function(taken);
        self.children.push(child);
    }

    fn visit_mut_class(&mut self, n: &mut ast::Class) {
        let taken = std::mem::replace(n, no_class());
        let child = self.codec.encode_class(taken);
        self.children.push(child);
    }

    fn visit_mut_prop(&mut self, n: &mut ast::Prop) {
        let taken = std::mem::replace(n, ast::Prop::Shorthand(no_ident()));
        let child = self.codec.encode_prop(taken);
        self.children.push(child);
    }

    fn visit_mut_prop_name(&mut self, n: &mut ast::PropName) {
        let taken = std::mem::replace(n, ast::PropName::Ident(no_ident()));
        let child = self.codec.encode_prop_name(taken);
        self.children.push(child);
    }

    fn visit_mut_object_pat_prop(&mut self, n: &mut ast::ObjectPatProp) {
        let taken = std::mem::replace(n, ast::ObjectPatProp::Assign(ast::AssignPatProp { span: DUMMY_SP, key: no_ident(), value: None }));
        let child = self.codec.encode_object_pat_prop(taken);
        self.children.push(child);
    }

    fn visit_mut_ident(&mut self, n: &mut ast::Ident) {
        let taken = std::mem::replace(n, no_ident());
        let child = self.codec.encode_ident(Kind::Key, taken);
        self.children.push(child);
    }

    fn visit_mut_super(&mut self, n: &mut ast::Super) {
        let child = self.codec.leaf(Kind::Other, "", n.span, Shell::Super(n.clone()));
        self.children.push(child);
    }
}

/// Puts children back into a shell, in the order in which they were taken.
struct Giver<'a> {
    codec: &'a Codec,
    children: std::vec::IntoIter<Node>,
}

impl<'a> Giver<'a> {
    fn next(&mut self) -> Node {
        self.children.next().unwrap_or_else(absent)
    }
}

impl<'a> VisitMut for Giver<'a> {
    fn visit_mut_expr(&mut self, n: &mut ast::Expr) {
        if let ast::Expr::Invalid(ast::Invalid { span }) = n {
            if is_held(*span) {
                return;
            }
        }
        let child = self.next();
        *n = self.codec.decode_expr(child);
    }

    fn visit_mut_pat(&mut self, n: &mut ast::Pat) {
        if let ast::Pat::Invalid(ast::Invalid { span }) = n {
            if is_held(*span) {
                return;
            }
        }
        let child = self.next();
        *n = self.codec.decode_pat(child);
    }

    fn visit_mut_stmt(&mut self, n: &mut ast::Stmt) {
        let child = self.next();
        *n = self.codec.decode_stmt(child);
    }

    fn visit_mut_module_item(&mut self, n: &mut ast::ModuleItem) {
        let child = self.next();
        *n = self.codec.decode_module_item(child);
    }

    fn visit_mut_decl(&mut self, n: &mut ast::Decl) {
        let child = self.next();
        *n = self.codec.decode_decl(child);
    }

    fn visit_mut_var_decl(&mut self, n: &mut ast::VarDecl) {
        let child = self.next();
        *n = self.codec.decode_var_decl(child);
    }

    fn visit_mut_block_stmt(&mut self, n: &mut ast::BlockStmt) {
        let child = self.next();
        *n = self.codec.decode_block(child);
    }

    fn visit_mut_function(&mut self, n: &mut ast::Function) {
        let child = self.next();
        *n = self.codec.decode_function(child);
    }

    fn visit_mut_class(&mut self, n: &mut ast::Class) {
        let child = self.next();
        *n = self.codec.decode_class(child);
    }

    fn visit_mut_prop(&mut self, n: &mut ast::Prop) {
        let child = self.next();
        *n = self.codec.decode_prop(child);
    }

    fn visit_mut_prop_name(&mut self, n: &mut ast::PropName) {
        let child = self.next();
        *n = self.codec.decode_prop_name(child);
    }

    fn visit_mut_object_pat_prop(&mut self, n: &mut ast::ObjectPatProp) {
        let child = self.next();
        *n = self.codec.decode_object_pat_prop(child);
    }

    fn visit_mut_ident(&mut self, n: &mut ast::Ident) {
        let child = self.next();
        *n = self.codec.decode_ident(&child);
    }

    fn visit_mut_super(&mut self, n: &mut ast::Super) {
        let child = self.next();
        n.span = swc_span(&child);
    }
}

impl Codec {
    fn new() -> Codec {
        Codec { shells: vec![] }
    }

    fn node(&mut self, kind: Kind, sym: &str, span: swc_common::Span, shell: Shell, children: Vec<Node>) -> Node {
        self.shells.push(shell);
        Node {
            kind,
            sym: sym.to_string(),
            ctxt: marks_of(span.ctxt()),
            span: span_of(span),
            tag: self.shells.len() as u64,
            children,
        }
    }

    fn leaf(&mut self, kind: Kind, sym: &str, span: swc_common::Span, shell: Shell) -> Node {
        self.node(kind, sym, span, shell, vec![])
    }

    fn bare(&self, kind: Kind, span: swc_common::Span, children: Vec<Node>) -> Node {
        Node { kind, sym: String::new(), ctxt: marks_of(span.ctxt()), span: span_of(span), tag: 0, children }
    }

    fn shell(&self, node: &Node) -> Option<&Shell> {
        if node.tag == 0 {
            None
        } else {
            self.shells.get(node.tag as usize - 1)
        }
    }

    // ----------------------------------------------------------------------
    // From the syntax tree to the tree of the pass.
    // ----------------------------------------------------------------------

    fn encode_module(&mut self, module: ast::Module) -> Node {
        let mut module = module;
        let body = std::mem::replace(&mut module.body, vec![]);
        let children = body.into_iter().map(|item| self.encode_module_item(item)).collect();
        let span = module.span;
        self.node(Kind::Module, "", span, Shell::Module(module), children)
    }

    fn encode_module_item(&mut self, item: ast::ModuleItem) -> Node {
        match item {
            ast::ModuleItem::Stmt(stmt) => self.encode_stmt(stmt),
            ast::ModuleItem::ModuleDecl(decl) => self.encode_module_decl(decl),
        }
    }

    fn encode_name(&mut self, ident: ast::Ident) -> Node {
        self.encode_ident(Kind::Name, ident)
    }

    fn encode_opt_name(&mut self, ident: Option<ast::Ident>) -> Node {
        match ident {
            Some(ident) => self.encode_name(ident),
            None => absent(),
        }
    }

    fn encode_ident(&mut self, kind: Kind, ident: ast::Ident) -> Node {
        let sym = ident.sym.to_string();
        let span = ident.span;
        self.leaf(kind, &sym, span, Shell::Ident(ident))
    }

    fn encode_module_decl(&mut self, decl: ast::ModuleDecl) -> Node {
        match decl {
            ast::ModuleDecl::Import(mut import) => {
                let specifiers = std::mem::replace(&mut import.specifiers, vec![]);
                let mut children = vec![];
                for s in specifiers {
                    children.push(match s {
                        ast::ImportSpecifier::Named(named) => {
                            let local = self.encode_name(named.local);
                            let imported = self.encode_opt_name(named.imported);
                            self.bare(Kind::ImportNamed, named.span, vec![local, imported])
                        }
                        ast::ImportSpecifier::Default(default) => {
                            let local = self.encode_name(default.local);
                            self.bare(Kind::ImportDefault, default.span, vec![local])
                        }
                        ast::ImportSpecifier::Namespace(namespace) => {
                            let local = self.encode_name(namespace.local);
                            self.bare(Kind::ImportNamespace, namespace.span, vec![local])
                        }
                    });
                }
                let source = import.src.value.to_string();
                let span = import.span;
                self.node(Kind::Import, &source, span, Shell::ModuleDecl(ast::ModuleDecl::Import(import)), children)
            }
            ast::ModuleDecl::ExportNamed(mut export) => {
                let specifiers = std::mem::replace(&mut export.specifiers, vec![]);
                let mut children = vec![];
                for s in specifiers {
                    children.push(match s {
                        ast::ExportSpecifier::Named(named) => {
                            let orig = self.encode_name(named.orig);
                            let exported = self.encode_opt_name(named.exported);
                            self.bare(Kind::ExportSpec, named.span, vec![orig, exported])
                        }
                        ast::ExportSpecifier::Default(default) => {
                            let span = default.exported.span;
                            let exported = self.encode_name(default.exported);
                            self.bare(Kind::ExportSpecDefault, span, vec![exported])
                        }
                        ast::ExportSpecifier::Namespace(namespace) => {
                            let name = self.encode_name(namespace.name);
                            self.bare(Kind::ExportSpecNamespace, namespace.span, vec![name])
                        }
                    });
                }
                let (kind, source) = match &export.src {
                    Some(src) => (Kind::ExportFrom, src.value.to_string()),
                    None => (Kind::ExportNamed, String::new()),
                };
                let span = export.span;
                self.node(kind, &source, span, Shell::ModuleDecl(ast::ModuleDecl::ExportNamed(export)), children)
            }
            ast::ModuleDecl::ExportAll(export) => {
                let source = export.src.value.to_string();
                let span = export.span;
                self.leaf(Kind::ExportAll, &source, span, Shell::ModuleDecl(ast::ModuleDecl::ExportAll(export)))
            }
            ast::ModuleDecl::ExportDefaultExpr(export) => {
                let expr = self.encode_expr(*export.expr);
                self.bare(Kind::ExportDefaultExpr, export.span, vec![expr])
            }
            ast::ModuleDecl::ExportDefaultDecl(export) => {
                let child = match export.decl {
                    ast::DefaultDecl::Class(class) => self.encode_class_expr(class),
                    ast::DefaultDecl::Fn(func) => self.encode_fn_expr(func),
                    ast::DefaultDecl::TsInterfaceDecl(decl) => {
                        self.encode_decl(ast::Decl::TsInterface(decl))
                    }
                };
                self.bare(Kind::ExportDefaultDecl, export.span, vec![child])
            }
            ast::ModuleDecl::ExportDecl(export) => {
                let decl = self.encode_decl(export.decl);
                self.bare(Kind::ExportDecl, export.span, vec![decl])
            }
            other => {
                let span = other.span();
                let mut taker = Taker { codec: self, children: vec![] };
                let mut shell = other;
                shell.visit_mut_children_with(&mut taker);
                let children = taker.children;
                self.node(Kind::OtherModuleDecl, "", span, Shell::ModuleDecl(shell), children)
            }
        }
    }

    fn encode_fn_expr(&mut self, func: ast::FnExpr) -> Node {
        let span = func.function.span;
        let name = self.encode_opt_name(func.ident);
        let function = self.encode_function(func.function);
        self.bare(Kind::FnExpr, span, vec![name, function])
    }

    fn encode_class_expr(&mut self, class: ast::ClassExpr) -> Node {
        let span = class.class.span;
        let name = self.encode_opt_name(class.ident);
        let class = self.encode_class(class.class);
        self.bare(Kind::ClassExpr, span, vec![name, class])
    }

    fn encode_stmt(&mut self, stmt: ast::Stmt) -> Node {
        match stmt {
            ast::Stmt::Decl(decl) => self.encode_decl(decl),
            ast::Stmt::Expr(stmt) => {
                let expr = self.encode_expr(*stmt.expr);
                self.bare(Kind::ExprStmt, stmt.span, vec![expr])
            }
            ast::Stmt::Return(stmt) => {
                let arg = match stmt.arg {
                    Some(arg) => self.encode_expr(*arg),
                    None => absent(),
                };
                self.bare(Kind::Return, stmt.span, vec![arg])
            }
            other => {
                let span = other.span();
                let mut taker = Taker { codec: self, children: vec![] };
                let mut shell = other;
                shell.visit_mut_children_with(&mut taker);
                let children = taker.children;
                self.node(Kind::Other, "", span, Shell::Stmt(shell), children)
            }
        }
    }

    fn encode_decl(&mut self, decl: ast::Decl) -> Node {
        match decl {
            ast::Decl::Var(var) => self.encode_var_decl(var),
            ast::Decl::Fn(func) => {
                let span = func.function.span;
                let name = self.encode_name(func.ident);
                let function = self.encode_function(func.function);
                self.bare(Kind::FnDecl, span, vec![name, function])
            }
            ast::Decl::Class(class) => {
                let span = class.class.span;
                let name = self.encode_name(class.ident);
                let body = self.encode_class(class.class);
                self.bare(Kind::ClassDecl, span, vec![name, body])
            }
            other => {
                let span = other.span();
                let mut taker = Taker { codec: self, children: vec![] };
                let mut shell = other;
                shell.visit_mut_children_with(&mut taker);
                let children = taker.children;
                self.node(Kind::Other, "", span, Shell::Decl(shell), children)
            }
        }
    }

    fn encode_var_decl(&mut self, var: ast::VarDecl) -> Node {
        let mut var = var;
        let decls = std::mem::replace(&mut var.decls, vec![]);
        let mut children = vec![];
        for d in decls {
            let mut d = d;
            let name = self.encode_pat(std::mem::replace(&mut d.name, no_pat()));
            let init = match d.init.take() {
                Some(init) => self.encode_expr(*init),
                None => absent(),
            };
            let span = d.span;
            children.push(self.node(Kind::VarDeclarator, "", span, Shell::VarDeclarator(d), vec![name, init]));
        }
        let span = var.span;
        self.node(Kind::VarDecl, "", span, Shell::VarDecl(var), children)
    }

    fn encode_block(&mut self, block: ast::BlockStmt) -> Node {
        let mut block = block;
        let stmts = std::mem::replace(&mut block.stmts, vec![]);
        let children = stmts.into_iter().map(|s| self.encode_stmt(s)).collect();
        let span = block.span;
        self.node(Kind::Other, "", span, Shell::Block(block), children)
    }

    fn encode_opt_block(&mut self, block: Option<ast::BlockStmt>) -> Node {
        match block {
            Some(block) => self.encode_block(block),
            None => absent(),
        }
    }

    fn encode_params(&mut self, span: swc_common::Span, params: Vec<ast::Pat>) -> Node {
        let children = params.into_iter().map(|p| self.encode_pat(p)).collect();
        self.bare(Kind::Params, span, children)
    }

    fn encode_function(&mut self, function: ast::Function) -> Node {
        let mut function = function;
        let mut pats = vec![];
        for param in function.params.iter_mut() {
            pats.push(std::mem::replace(&mut param.pat, held_pat()));
        }
        let span = function.span;
        let params = self.encode_params(span, pats);
        let body = self.encode_opt_block(function.body.take());
        let mut taker = Taker { codec: self, children: vec![params, body] };
        let mut shell = function;
                shell.visit_mut_children_with(&mut taker);
        let children = taker.children;
        self.node(Kind::Function, "", span, Shell::Function(shell), children)
    }

    fn encode_class(&mut self, class: ast::Class) -> Node {
        let span = class.span;
        let mut taker = Taker { codec: self, children: vec![] };
        let mut shell = class;
                shell.visit_mut_children_with(&mut taker);
        let children = taker.children;
        self.node(Kind::Class, "", span, Shell::Class(shell), children)
    }

    fn encode_expr_or_super(&mut self, e: ast::ExprOrSuper) -> Node {
        match e {
            ast::ExprOrSuper::Expr(e) => self.encode_expr(*e),
            ast::ExprOrSuper::Super(s) => self.leaf(Kind::Other, "", s.span, Shell::Super(s)),
        }
    }

    fn encode_expr(&mut self, expr: ast::Expr) -> Node {
        match expr {
            ast::Expr::Ident(ident) => self.encode_ident(Kind::Ident, ident),
            ast::Expr::Lit(ast::Lit::Str(s)) => {
                let value = s.value.to_string();
                let span = s.span;
                self.leaf(Kind::Str, &value, span, Shell::Expr(ast::Expr::Lit(ast::Lit::Str(s))))
            }
            ast::Expr::This(this) => self.bare(Kind::This, this.span, vec![]),
            ast::Expr::Member(member) => {
                let kind = if member.computed { Kind::Index } else { Kind::Member };
                let obj = self.encode_expr_or_super(member.obj);
                let prop = self.encode_expr(*member.prop);
                self.bare(kind, member.span, vec![obj, prop])
            }
            ast::Expr::Unary(unary) if unary.op == ast::UnaryOp::TypeOf || unary.op == ast::UnaryOp::Bang => {
                let kind = if unary.op == ast::UnaryOp::TypeOf { Kind::TypeOf } else { Kind::Not };
                let arg = self.encode_expr(*unary.arg);
                self.bare(kind, unary.span, vec![arg])
            }
            ast::Expr::Seq(seq) => {
                let children = seq.exprs.into_iter().map(|e| self.encode_expr(*e)).collect();
                self.bare(Kind::Sequence, seq.span, children)
            }
            ast::Expr::Assign(mut assign) => {
                let left = match std::mem::replace(&mut assign.left, ast::PatOrExpr::Pat(Box::new(no_pat()))) {
                    ast::PatOrExpr::Expr(e) => self.encode_expr(*e),
                    ast::PatOrExpr::Pat(p) => self.encode_pat(*p),
                };
                let right = self.encode_expr(std::mem::replace(&mut *assign.right, no_expr()));
                let span = assign.span;
                self.node(Kind::Assign, "", span, Shell::Expr(ast::Expr::Assign(assign)), vec![left, right])
            }
            ast::Expr::Await(expr) => {
                let arg = self.encode_expr(*expr.arg);
                self.bare(Kind::Await, expr.span, vec![arg])
            }
            ast::Expr::Fn(func) => self.encode_fn_expr(func),
            ast::Expr::Class(class) => self.encode_class_expr(class),
            ast::Expr::Arrow(mut arrow) => {
                let pats = std::mem::replace(&mut arrow.params, vec![]);
                let span = arrow.span;
                let params = self.encode_params(span, pats);
                let empty = ast::BlockStmtOrExpr::Expr(Box::new(held_expr()));
                let body = match std::mem::replace(&mut arrow.body, empty) {
                    ast::BlockStmtOrExpr::BlockStmt(block) => self.encode_block(block),
                    ast::BlockStmtOrExpr::Expr(e) => self.encode_expr(*e),
                };
                let mut taker = Taker { codec: self, children: vec![params, body] };
                let mut shell = ast::Expr::Arrow(arrow);
                shell.visit_mut_children_with(&mut taker);
                let children = taker.children;
                self.node(Kind::Arrow, "", span, Shell::Expr(shell), children)
            }
            ast::Expr::Object(object) => {
                let mut children = vec![];
                for p in object.props {
                    children.push(match p {
                        ast::PropOrSpread::Prop(p) => self.encode_prop(*p),
                        ast::PropOrSpread::Spread(mut spread) => {
                            let expr = self.encode_expr(std::mem::replace(&mut *spread.expr, no_expr()));
                            let span = spread.dot3_token;
                            self.node(Kind::Spread, "", span, Shell::Spread(spread), vec![expr])
                        }
                    });
                }
                self.bare(Kind::Object, object.span, children)
            }
            ast::Expr::Call(call) => {
                let span = call.span;
                let mut taker = Taker { codec: self, children: vec![] };
                let mut shell = ast::Expr::Call(call);
                shell.visit_mut_children_with(&mut taker);
                let children = taker.children;
                self.node(Kind::Call, "", span, Shell::Expr(shell), children)
            }
            other => {
                let span = other.span();
                let mut taker = Taker { codec: self, children: vec![] };
                let mut shell = other;
                shell.visit_mut_children_with(&mut taker);
                let children = taker.children;
                self.node(Kind::Other, "", span, Shell::Expr(shell), children)
            }
        }
    }

    fn encode_prop(&mut self, prop: ast::Prop) -> Node {
        match prop {
            ast::Prop::Shorthand(ident) => {
                let sym = ident.sym.to_string();
                let span = ident.span;
                self.leaf(Kind::Shorthand, &sym, span, Shell::Ident(ident))
            }
            ast::Prop::KeyValue(kv) => {
                let key = self.encode_prop_name(kv.key);
                let value = self.encode_expr(*kv.value);
                let span = swc_common::Span::new(BytePos(key.span.lo), BytePos(value.span.hi), SyntaxContext::empty());
                self.bare(Kind::KeyValue, span, vec![key, value])
            }
            ast::Prop::Getter(mut getter) => {
                let key = self.encode_prop_name(std::mem::replace(&mut getter.key, ast::PropName::Ident(no_ident())));
                let body = self.encode_opt_block(getter.body.take());
                let span = getter.span;
                self.node(Kind::Getter, "", span, Shell::Prop(ast::Prop::Getter(getter)), vec![key, body])
            }
            ast::Prop::Setter(mut setter) => {
                let key = self.encode_prop_name(std::mem::replace(&mut setter.key, ast::PropName::Ident(no_ident())));
                let param = self.encode_pat(std::mem::replace(&mut setter.param, no_pat()));
                let body = self.encode_opt_block(setter.body.take());
                let span = setter.span;
                self.node(Kind::Setter, "", span, Shell::Prop(ast::Prop::Setter(setter)), vec![key, param, body])
            }
            ast::Prop::Method(method) => {
                let span = method.function.span;
                let key = self.encode_prop_name(method.key);
                let function = self.encode_function(method.function);
                self.bare(Kind::Method, span, vec![key, function])
            }
            other => {
                let span = other.span();
                let mut taker = Taker { codec: self, children: vec![] };
                let mut shell = other;
                shell.visit_mut_children_with(&mut taker);
                let children = taker.children;
                self.node(Kind::Other, "", span, Shell::Prop(shell), children)
            }
        }
    }

    fn encode_prop_name(&mut self, name: ast::PropName) -> Node {
        match name {
            ast::PropName::Ident(ident) => self.encode_ident(Kind::Key, ident),
            ast::PropName::Str(s) => {
                let value = s.value.to_string();
                let span = s.span;
                self.leaf(Kind::Str, &value, span, Shell::PropName(ast::PropName::Str(s)))
            }
            ast::PropName::Computed(computed) => {
                let expr = self.encode_expr(*computed.expr);
                self.bare(Kind::Computed, computed.span, vec![expr])
            }
            other => {
                let span = other.span();
                self.leaf(Kind::Other, "", span, Shell::PropName(other))
            }
        }
    }

    fn encode_pat(&mut self, pat: ast::Pat) -> Node {
        match pat {
            ast::Pat::Ident(binding) => {
                let sym = binding.id.sym.to_string();
                let span = binding.id.span;
                self.leaf(Kind::BindingIdent, &sym, span, Shell::Pat(ast::Pat::Ident(binding)))
            }
            ast::Pat::Expr(expr) => self.encode_expr(*expr),
            ast::Pat::Object(mut object) => {
                let props = std::mem::replace(&mut object.props, vec![]);
                let children = props.into_iter().map(|p| self.encode_object_pat_prop(p)).collect();
                let span = object.span;
                self.node(Kind::ObjectPat, "", span, Shell::Pat(ast::Pat::Object(object)), children)
            }
            other => {
                let kind = match &other {
                    ast::Pat::Array(_) => Kind::ArrayPat,
                    ast::Pat::Assign(_) => Kind::AssignPat,
                    ast::Pat::Rest(_) => Kind::RestPat,
                    _ => Kind::Other,
                };
                let span = other.span();
                let mut taker = Taker { codec: self, children: vec![] };
                let mut shell = other;
                shell.visit_mut_children_with(&mut taker);
                let children = taker.children;
                self.node(kind, "", span, Shell::Pat(shell), children)
            }
        }
    }

    fn encode_object_pat_prop(&mut self, prop: ast::ObjectPatProp) -> Node {
        match prop {
            ast::ObjectPatProp::KeyValue(kv) => {
                let key = self.encode_prop_name(kv.key);
                let value = self.encode_pat(*kv.value);
                let span = swc_common::Span::new(BytePos(key.span.lo), BytePos(value.span.hi), SyntaxContext::empty());
                self.bare(Kind::KeyValuePat, span, vec![key, value])
            }
            ast::ObjectPatProp::Assign(mut assign) => {
                let value = match assign.value.take() {
                    Some(value) => self.encode_expr(*value),
                    None => absent(),
                };
                let sym = assign.key.sym.to_string();
                let span = assign.key.span;
                self.node(Kind::AssignPatProp, &sym, span, Shell::PatProp(ast::ObjectPatProp::Assign(assign)), vec![value])
            }
            ast::ObjectPatProp::Rest(rest) => {
                let span = rest.span;
                let mut taker = Taker { codec: self, children: vec![] };
                let mut shell = ast::ObjectPatProp::Rest(rest);
                shell.visit_mut_children_with(&mut taker);
                let children = taker.children;
                self.node(Kind::RestPatProp, "", span, Shell::PatProp(shell), children)
            }
        }
    }

    // ----------------------------------------------------------------------
    // From the tree of the pass to the syntax tree.
    // ----------------------------------------------------------------------

    fn fill<T>(&self, shell: T, children: Vec<Node>) -> T
    where
        T: for<'b> VisitMutWith<Giver<'b>>,
    {
        let mut shell = shell;
        let mut giver = Giver { codec: self, children: children.into_iter() };
        shell.visit_mut_children_with(&mut giver);
        shell
    }

    fn decode_module(&self, node: Node) -> ast::Module {
        let (span, shebang) = match self.shell(&node) {
            Some(Shell::Module(m)) => (m.span, m.shebang.clone()),
            _ => (swc_span(&node), None),
        };
        let body = node.children.into_iter().map(|item| self.decode_module_item(item)).collect();
        ast::Module { span, body, shebang }
    }

    fn decode_ident(&self, node: &Node) -> ast::Ident {
        let optional = match self.shell(node) {
            Some(Shell::Ident(ident)) => ident.optional,
            _ => false,
        };
        ast::Ident { span: swc_span(node), sym: JsWord::from(node.sym.as_str()), optional }
    }

    fn decode_opt_ident(&self, node: &Node) -> Option<ast::Ident> {
        if node.kind == Kind::Absent {
            None
        } else {
            Some(self.decode_ident(node))
        }
    }

    fn decode_str(&self, node: &Node) -> ast::Str {
        match self.shell(node) {
            Some(Shell::Expr(ast::Expr::Lit(ast::Lit::Str(s)))) | Some(Shell::PropName(ast::PropName::Str(s))) => {
                s.clone()
            }
            _ => synthesized_str(&node.sym, swc_span(node)),
        }
    }

    fn decode_import_specifier(&self, node: &Node) -> Option<ast::ImportSpecifier> {
        let span = swc_span(node);
        match node.kind {
            Kind::ImportNamed if node.children.len() == 2 => {
                Some(ast::ImportSpecifier::Named(ast::ImportNamedSpecifier {
                    span,
                    local: self.decode_ident(&node.children[0]),
                    imported: self.decode_opt_ident(&node.children[1]),
                }))
            }
            Kind::ImportDefault if node.children.len() == 1 => {
                Some(ast::ImportSpecifier::Default(ast::ImportDefaultSpecifier {
                    span,
                    local: self.decode_ident(&node.children[0]),
                }))
            }
            Kind::ImportNamespace if node.children.len() == 1 => {
                Some(ast::ImportSpecifier::Namespace(ast::ImportStarAsSpecifier {
                    span,
                    local: self.decode_ident(&node.children[0]),
                }))
            }
            _ => None,
        }
    }

    fn decode_export_specifier(&self, node: &Node) -> Option<ast::ExportSpecifier> {
        let span = swc_span(node);
        match node.kind {
            Kind::ExportSpec if node.children.len() == 2 => {
                Some(ast::ExportSpecifier::Named(ast::ExportNamedSpecifier {
                    span,
                    orig: self.decode_ident(&node.children[0]),
                    exported: self.decode_opt_ident(&node.children[1]),
                }))
            }
            Kind::ExportSpecDefault if node.children.len() == 1 => {
                Some(ast::ExportSpecifier::Default(ast::ExportDefaultSpecifier {
                    exported: self.decode_ident(&node.children[0]),
                }))
            }
            Kind::ExportSpecNamespace if node.children.len() == 1 => {
                Some(ast::ExportSpecifier::Namespace(ast::ExportNamespaceSpecifier {
                    span,
                    name: self.decode_ident(&node.children[0]),
                }))
            }
            _ => None,
        }
    }

    fn decode_fn_expr(&self, node: Node) -> ast::FnExpr {
        let mut children = node.children.into_iter();
        let name = children.next().unwrap_or_else(absent);
        let function = children.next().unwrap_or_else(absent);
        ast::FnExpr { ident: self.decode_opt_ident(&name), function: self.decode_function(function) }
    }

    fn decode_class_expr(&self, node: Node) -> ast::ClassExpr {
        let mut children = node.children.into_iter();
        let name = children.next().unwrap_or_else(absent);
        let class = children.next().unwrap_or_else(absent);
        ast::ClassExpr { ident: self.decode_opt_ident(&name), class: self.decode_class(class) }
    }

    fn decode_module_item(&self, node: Node) -> ast::ModuleItem {
        let mut node = node;
        let span = swc_span(&node);
        let decl = match node.kind {
            Kind::Import => match self.shell(&node).cloned() {
                Some(Shell::ModuleDecl(ast::ModuleDecl::Import(mut import))) => {
                    import.specifiers =
                        node.children.iter().filter_map(|s| self.decode_import_specifier(s)).collect();
                    ast::ModuleDecl::Import(import)
                }
                _ => ast::ModuleDecl::Import(ast::ImportDecl {
                    span,
                    specifiers: vec![],
                    src: synthesized_str(&node.sym, DUMMY_SP),
                    type_only: false,
                    asserts: None,
                }),
            },
            Kind::ExportNamed | Kind::ExportFrom | Kind::ExportAll | Kind::OtherModuleDecl => {
                match self.shell(&node).cloned() {
                    Some(Shell::ModuleDecl(ast::ModuleDecl::ExportNamed(mut export))) => {
                        export.specifiers =
                            node.children.iter().filter_map(|s| self.decode_export_specifier(s)).collect();
                        ast::ModuleDecl::ExportNamed(export)
                    }
                    Some(Shell::ModuleDecl(shell)) => self.fill(shell, node.children),
                    _ => return ast::ModuleItem::Stmt(no_stmt()),
                }
            }
            Kind::ExportDefaultExpr if node.children.len() == 1 => {
                let expr = Box::new(self.decode_expr(node.children.remove(0)));
                ast::ModuleDecl::ExportDefaultExpr(ast::ExportDefaultExpr { span, expr })
            }
            Kind::ExportDefaultDecl if node.children.len() == 1 => {
                let child = node.children.remove(0);
                let decl = match child.kind {
                    Kind::FnExpr => ast::DefaultDecl::Fn(self.decode_fn_expr(child)),
                    Kind::ClassExpr => ast::DefaultDecl::Class(self.decode_class_expr(child)),
                    _ => match self.decode_decl(child) {
                        ast::Decl::TsInterface(decl) => ast::DefaultDecl::TsInterfaceDecl(decl),
                        other => return ast::ModuleItem::Stmt(ast::Stmt::Decl(other)),
                    },
                };
                ast::ModuleDecl::ExportDefaultDecl(ast::ExportDefaultDecl { span, decl })
            }
            Kind::ExportDecl if node.children.len() == 1 => {
                let decl = self.decode_decl(node.children.remove(0));
                ast::ModuleDecl::ExportDecl(ast::ExportDecl { span, decl })
            }
            _ => return ast::ModuleItem::Stmt(self.decode_stmt(node)),
        };
        ast::ModuleItem::ModuleDecl(decl)
    }

    fn decode_stmt(&self, node: Node) -> ast::Stmt {
        let mut node = node;
        match node.kind {
            Kind::VarDecl | Kind::FnDecl | Kind::ClassDecl => ast::Stmt::Decl(self.decode_decl(node)),
            Kind::ExprStmt if node.children.len() == 1 => {
                let span = swc_span(&node);
                let expr = Box::new(self.decode_expr(node.children.remove(0)));
                ast::Stmt::Expr(ast::ExprStmt { span, expr })
            }
            Kind::Return if node.children.len() == 1 => {
                let span = swc_span(&node);
                let arg = self.decode_opt_expr(node.children.remove(0));
                ast::Stmt::Return(ast::ReturnStmt { span, arg })
            }
            _ => match self.shell(&node).cloned() {
                Some(Shell::Stmt(shell)) => self.fill(shell, node.children),
                Some(Shell::Decl(_)) => ast::Stmt::Decl(self.decode_decl(node)),
                Some(Shell::Block(_)) => ast::Stmt::Block(self.decode_block(node)),
                _ => no_stmt(),
            },
        }
    }

    fn decode_decl(&self, node: Node) -> ast::Decl {
        let mut node = node;
        match node.kind {
            Kind::FnDecl if node.children.len() == 2 => {
                let function = self.decode_function(node.children.remove(1));
                let ident = self.decode_ident(&node.children[0]);
                ast::Decl::Fn(ast::FnDecl { ident, declare: false, function })
            }
            Kind::ClassDecl if node.children.len() == 2 => {
                let class = self.decode_class(node.children.remove(1));
                let ident = self.decode_ident(&node.children[0]);
                ast::Decl::Class(ast::ClassDecl { ident, declare: false, class })
            }
            Kind::VarDecl => ast::Decl::Var(self.decode_var_decl(node)),
            _ => match self.shell(&node).cloned() {
                Some(Shell::Decl(shell)) => self.fill(shell, node.children),
                _ => ast::Decl::Var(no_var_decl()),
            },
        }
    }

    fn decode_var_decl(&self, node: Node) -> ast::VarDecl {
        let (kind, declare) = match self.shell(&node) {
            Some(Shell::VarDecl(var)) => (var.kind, var.declare),
            _ => (ast::VarDeclKind::Var, false),
        };
        let span = swc_span(&node);
        let mut decls = vec![];
        for mut d in node.children {
            if d.children.len() != 2 {
                continue;
            }
            let definite = match self.shell(&d) {
                Some(Shell::VarDeclarator(shell)) => shell.definite,
                _ => false,
            };
            let init = self.decode_opt_expr(d.children.remove(1));
            let name = self.decode_pat(d.children.remove(0));
            decls.push(ast::VarDeclarator { span: swc_span(&d), name, init, definite });
        }
        ast::VarDecl { span, kind, declare, decls }
    }

    fn decode_block(&self, node: Node) -> ast::BlockStmt {
        let span = swc_span(&node);
        let stmts = node.children.into_iter().map(|s| self.decode_stmt(s)).collect();
        ast::BlockStmt { span, stmts }
    }

    fn decode_opt_block(&self, node: Node) -> Option<ast::BlockStmt> {
        if node.kind == Kind::Absent {
            None
        } else {
            Some(self.decode_block(node))
        }
    }

    fn decode_function(&self, node: Node) -> ast::Function {
        let shell = match self.shell(&node).cloned() {
            Some(Shell::Function(shell)) => shell,
            _ => no_function(),
        };
        let mut children = node.children.into_iter();
        let params = children.next().unwrap_or_else(absent);
        let body = children.next().unwrap_or_else(absent);
        let rest: Vec<Node> = children.collect();
        let mut function = self.fill(shell, rest);
        let mut pats = params.children.into_iter();
        for param in function.params.iter_mut() {
            if let Some(pat) = pats.next() {
                param.pat = self.decode_pat(pat);
            }
        }
        function.body = self.decode_opt_block(body);
        function
    }

    fn decode_class(&self, node: Node) -> ast::Class {
        match self.shell(&node).cloned() {
            Some(Shell::Class(shell)) => self.fill(shell, node.children),
            _ => no_class(),
        }
    }

    fn decode_opt_expr(&self, node: Node) -> Option<Box<ast::Expr>> {
        if node.kind == Kind::Absent {
            None
        } else {
            Some(Box::new(self.decode_expr(node)))
        }
    }

    fn decode_expr_or_super(&self, node: Node) -> ast::ExprOrSuper {
        match self.shell(&node) {
            Some(Shell::Super(_)) if node.kind == Kind::Other => {
                ast::ExprOrSuper::Super(ast::Super { span: swc_span(&node) })
            }
            _ => ast::ExprOrSuper::Expr(Box::new(self.decode_expr(node))),
        }
    }

    fn decode_expr(&self, node: Node) -> ast::Expr {
        let mut node = node;
        let span = swc_span(&node);
        match node.kind {
            Kind::Ident | Kind::Name | Kind::BindingIdent | Kind::Shorthand | Kind::AssignPatProp => {
                ast::Expr::Ident(self.decode_ident(&node))
            }
            Kind::Str => ast::Expr::Lit(ast::Lit::Str(self.decode_str(&node))),
            Kind::This => ast::Expr::This(ast::ThisExpr { span }),
            Kind::Member | Kind::Index if node.children.len() == 2 => {
                let prop = Box::new(self.decode_expr(node.children.remove(1)));
                let obj = self.decode_expr_or_super(node.children.remove(0));
                ast::Expr::Member(ast::MemberExpr { span, obj, prop, computed: node.kind == Kind::Index })
            }
            Kind::TypeOf | Kind::Not if node.children.len() == 1 => {
                let op = if node.kind == Kind::TypeOf { ast::UnaryOp::TypeOf } else { ast::UnaryOp::Bang };
                let arg = Box::new(self.decode_expr(node.children.remove(0)));
                ast::Expr::Unary(ast::UnaryExpr { span, op, arg })
            }
            Kind::Sequence => {
                let exprs = node.children.into_iter().map(|e| Box::new(self.decode_expr(e))).collect();
                ast::Expr::Seq(ast::SeqExpr { span, exprs })
            }
            Kind::Assign if node.children.len() == 2 => {
                let op = match self.shell(&node) {
                    Some(Shell::Expr(ast::Expr::Assign(assign))) => assign.op,
                    _ => ast::AssignOp::Assign,
                };
                let right = Box::new(self.decode_expr(node.children.remove(1)));
                let left = ast::PatOrExpr::Pat(Box::new(self.decode_pat(node.children.remove(0))));
                ast::Expr::Assign(ast::AssignExpr { span, op, left, right })
            }
            Kind::Await if node.children.len() == 1 => {
                let arg = Box::new(self.decode_expr(node.children.remove(0)));
                ast::Expr::Await(ast::AwaitExpr { span, arg })
            }
            Kind::FnExpr if node.children.len() == 2 => ast::Expr::Fn(self.decode_fn_expr(node)),
            Kind::ClassExpr if node.children.len() == 2 => ast::Expr::Class(self.decode_class_expr(node)),
            Kind::Arrow if node.children.len() >= 2 => {
                let shell = match self.shell(&node).cloned() {
                    Some(Shell::Expr(shell)) => shell,
                    _ => no_expr(),
                };
                let mut children = node.children.into_iter();
                let params = children.next().unwrap_or_else(absent);
                let body = children.next().unwrap_or_else(absent);
                let filled = self.fill(shell, children.collect());
                match filled {
                    ast::Expr::Arrow(mut arrow) => {
                        arrow.params = params.children.into_iter().map(|p| self.decode_pat(p)).collect();
                        arrow.body = match self.shell(&body) {
                            Some(Shell::Block(_)) if body.kind == Kind::Other => {
                                ast::BlockStmtOrExpr::BlockStmt(self.decode_block(body))
                            }
                            _ => ast::BlockStmtOrExpr::Expr(Box::new(self.decode_expr(body))),
                        };
                        ast::Expr::Arrow(arrow)
                    }
                    other => other,
                }
            }
            Kind::Object => {
                let mut props = vec![];
                for p in node.children {
                    props.push(self.decode_prop_or_spread(p));
                }
                ast::Expr::Object(ast::ObjectLit { span, props })
            }
            _ => match self.shell(&node).cloned() {
                Some(Shell::Expr(shell)) => self.fill(shell, node.children),
                _ => no_expr(),
            },
        }
    }

    fn decode_prop_or_spread(&self, node: Node) -> ast::PropOrSpread {
        let mut node = node;
        if node.kind == Kind::Spread && node.children.len() == 1 {
            let dot3_token = match self.shell(&node) {
                Some(Shell::Spread(spread)) => spread.dot3_token,
                _ => DUMMY_SP,
            };
            let expr = Box::new(self.decode_expr(node.children.remove(0)));
            ast::PropOrSpread::Spread(ast::SpreadElement { dot3_token, expr })
        } else {
            ast::PropOrSpread::Prop(Box::new(self.decode_prop(node)))
        }
    }

    fn decode_prop(&self, node: Node) -> ast::Prop {
        let mut node = node;
        let span = swc_span(&node);
        match node.kind {
            Kind::Shorthand | Kind::Ident | Kind::Name => ast::Prop::Shorthand(self.decode_ident(&node)),
            Kind::KeyValue if node.children.len() == 2 => {
                let value = Box::new(self.decode_expr(node.children.remove(1)));
                let key = self.decode_prop_name(node.children.remove(0));
                ast::Prop::KeyValue(ast::KeyValueProp { key, value })
            }
            Kind::Getter if node.children.len() == 2 => {
                let type_ann = match self.shell(&node) {
                    Some(Shell::Prop(ast::Prop::Getter(getter))) => getter.type_ann.clone(),
                    _ => None,
                };
                let body = self.decode_opt_block(node.children.remove(1));
                let key = self.decode_prop_name(node.children.remove(0));
                ast::Prop::Getter(ast::GetterProp { span, key, type_ann, body })
            }
            Kind::Setter if node.children.len() == 3 => {
                let body = self.decode_opt_block(node.children.remove(2));
                let param = self.decode_pat(node.children.remove(1));
                let key = self.decode_prop_name(node.children.remove(0));
                ast::Prop::Setter(ast::SetterProp { span, key, param, body })
            }
            Kind::Method if node.children.len() == 2 => {
                let function = self.decode_function(node.children.remove(1));
                let key = self.decode_prop_name(node.children.remove(0));
                ast::Prop::Method(ast::MethodProp { key, function })
            }
            _ => match self.shell(&node).cloned() {
                Some(Shell::Prop(shell)) => self.fill(shell, node.children),
                _ => ast::Prop::Shorthand(no_ident()),
            },
        }
    }

    fn decode_prop_name(&self, node: Node) -> ast::PropName {
        let mut node = node;
        match node.kind {
            Kind::Key | Kind::Name | Kind::Ident | Kind::BindingIdent => {
                ast::PropName::Ident(self.decode_ident(&node))
            }
            Kind::Str => ast::PropName::Str(self.decode_str(&node)),
            Kind::Computed if node.children.len() == 1 => {
                let span = swc_span(&node);
                let expr = Box::new(self.decode_expr(node.children.remove(0)));
                ast::PropName::Computed(ast::ComputedPropName { span, expr })
            }
            _ => match self.shell(&node).cloned() {
                Some(Shell::PropName(shell)) => shell,
                _ => ast::PropName::Ident(no_ident()),
            },
        }
    }

    fn decode_pat(&self, node: Node) -> ast::Pat {
        let mut node = node;
        let span = swc_span(&node);
        match node.kind {
            Kind::BindingIdent => {
                let type_ann = match self.shell(&node) {
                    Some(Shell::Pat(ast::Pat::Ident(binding))) => binding.type_ann.clone(),
                    _ => None,
                };
                ast::Pat::Ident(ast::BindingIdent { id: self.decode_ident(&node), type_ann })
            }
            Kind::ObjectPat => {
                let (optional, type_ann) = match self.shell(&node) {
                    Some(Shell::Pat(ast::Pat::Object(object))) => (object.optional, object.type_ann.clone()),
                    _ => (false, None),
                };
                let props = node.children.into_iter().map(|p| self.decode_object_pat_prop(p)).collect();
                ast::Pat::Object(ast::ObjectPat { span, props, optional, type_ann })
            }
            Kind::AssignPat if node.tag == 0 && node.children.len() == 2 => {
                let right = Box::new(self.decode_expr(node.children.remove(1)));
                let left = Box::new(self.decode_pat(node.children.remove(0)));
                ast::Pat::Assign(ast::AssignPat { span, left, right, type_ann: None })
            }
            _ => match self.shell(&node).cloned() {
                Some(Shell::Pat(shell)) => self.fill(shell, node.children),
                _ => ast::Pat::Expr(Box::new(self.decode_expr(node))),
            },
        }
    }

    fn decode_object_pat_prop(&self, node: Node) -> ast::ObjectPatProp {
        let mut node = node;
        match node.kind {
            Kind::KeyValuePat if node.children.len() == 2 => {
                let value = Box::new(self.decode_pat(node.children.remove(1)));
                let key = self.decode_prop_name(node.children.remove(0));
                ast::ObjectPatProp::KeyValue(ast::KeyValuePatProp { key, value })
            }
            Kind::AssignPatProp if node.children.len() == 1 => {
                let span = match self.shell(&node) {
                    Some(Shell::PatProp(ast::ObjectPatProp::Assign(assign))) => assign.span,
                    _ => swc_span(&node),
                };
                let key = self.decode_ident(&node);
                let value = self.decode_opt_expr(node.children.remove(0));
                ast::ObjectPatProp::Assign(ast::AssignPatProp { span, key, value })
            }
            _ => match self.shell(&node).cloned() {
                Some(Shell::PatProp(shell)) => self.fill(shell, node.children),
                _ => ast::ObjectPatProp::Assign(ast::AssignPatProp {
                    span: swc_span(&node),
                    key: self.decode_ident(&node),
                    value: None,
                }),
            },
        }
    }
}

// ---------------------------------------------------------------------------
// Reading a module, rewriting it, and printing it.
// ---------------------------------------------------------------------------

const TOP: u32 = 1;
const IGNORE: u32 = 1000;

/// What is needed to turn the tree of the pass back into text.
struct Session {
    globals: Globals,
    source_map: Lrc<SourceMap>,
    comments: SingleThreadedComments,
    codec: Codec,
    top: u32,
    ignore: u32,
}

fn node(kind: Kind, sym: &str, ctxt: Vec<u32>, span: Span, tag: u64, children: Vec<Node>) -> Node {
    Node { kind, sym: sym.to_string(), ctxt, span, tag, children }
}

/// The bindings that a module declares: the names of its declarators, of its
/// parameters, of its functions and classes, and of its imports.
fn collect_decls(n: &Node, in_binding: bool, decls: &mut KeySet<IdentId>) {
    let declare = |n: &Node, decls: &mut KeySet<IdentId>| {
        decls.insert(IdentId::new(&n.sym, n.ctxt.clone()));
    };
    match n.kind {
        Kind::BindingIdent | Kind::AssignPatProp => {
            if in_binding {
                declare(n, decls);
            }
            for c in &n.children {
                collect_decls(c, false, decls);
            }
        }
        Kind::VarDeclarator => {
            collect_decls(&n.children[0], true, decls);
            collect_decls(&n.children[1], false, decls);
        }
        Kind::Params => {
            for c in &n.children {
                collect_decls(c, true, decls);
            }
        }
        Kind::FnDecl | Kind::ClassDecl => {
            declare(&n.children[0], decls);
            collect_decls(&n.children[1], false, decls);
        }
        Kind::ImportNamed | Kind::ImportDefault | Kind::ImportNamespace => {
            declare(&n.children[0], decls);
        }
        Kind::Assign => {
            collect_decls(&n.children[0], false, decls);
            collect_decls(&n.children[1], false, decls);
        }
        _ => {
            for c in &n.children {
                collect_decls(c, in_binding, decls);
            }
        }
    }
}

fn read(code: &str) -> (Node, KeySet<IdentId>, Session) {
    let source_map = Lrc::new(SourceMap::default());
    let source_file = source_map.new_source_file(FileName::Anon, code.into());

    let comments = SingleThreadedComments::default();
    let mut esconfig = EsConfig::default();
    esconfig.dynamic_import = true;
    let lexer = Lexer::new(
        Syntax::Es(esconfig),
        Default::default(),
        StringInput::from(&*source_file),
        Some(&comments),
    );

    let mut parser = Parser::new_from(lexer);
    let module = match parser.parse_module() {
        Ok(module) => module,
        Err(err) => panic!("{:?}", err),
    };
    let globals = Globals::new();
    let mut codec = Codec::new();
    let (tree, top, ignore) = GLOBALS.set(&globals, || {
        HELPERS.set(&Helpers::new(false), || {
            let global_mark = Mark::fresh(Mark::root());
            let module = module.fold_with(&mut resolver_with_mark(global_mark));
            let ignore_mark = Mark::fresh(Mark::root());
            (codec.encode_module(module), global_mark.as_u32(), ignore_mark.as_u32())
        })
    });
    let mut decls = KeySet::new();
    collect_decls(&tree, false, &mut decls);
    (tree, decls, Session { globals, source_map, comments, codec, top, ignore })
}

fn emit(session: &Session, tree: Node) -> String {
    let program = GLOBALS.set(&session.globals, || session.codec.decode_module(tree));
    let mut src_map_buf = vec![];
    let mut buf = vec![];
    {
        let writer = Box::new(JsWriter::new(session.source_map.clone(), "\n", &mut buf, Some(&mut src_map_buf)));
        let config = swc_ecmascript::codegen::Config { minify: false };
        let mut emitter = swc_ecmascript::codegen::Emitter {
            cfg: config,
            comments: Some(&session.comments),
            cm: session.source_map.clone(),
            wr: writer,
        };

        emitter.emit_module(&program).unwrap();
    }

    return String::from_utf8(buf).unwrap();
}

fn parse(code: &str) -> (Collect, String, HoistResult) {
    let (module, decls, session) = read(code);
    let mut collect = Collect::new(decls, session.ignore);
    collect.visit_module(&module);
    let (module, res) = {
        let mut hoist = Hoist::new("abc", &collect, session.top);
        let module = hoist.fold_module(&module);
        assert_eq!(hoist.error, None);
        (module, hoist.get_result())
    };
    let code = emit(&session, module);
    (collect, code, res)
}

/// The text without its first line break and without the indentation that all
/// its lines share.
fn dedent(text: &str) -> String {
    let text = text.strip_prefix('\n').unwrap_or(text);
    let indent = text
        .lines()
        .filter(|l| !l.trim().is_empty())
        .map(|l| l.len() - l.trim_start().len())
        .min()
        .unwrap_or(0);
    let mut out = String::new();
    for line in text.split_inclusive('\n') {
        if line.trim().is_empty() {
            if line.ends_with('\n') {
                out.push('\n');
            }
        } else {
            out += &line[indent..];
        }
    }
    out
}

fn imports(collect: &Collect) -> HashMap<String, (String, String, bool)> {
    let mut map = HashMap::new();
    for i in 0..collect.imports.len() {
        let e = collect.imports.entry_at(i);
        map.insert(e.0.sym.clone(), (e.1.source.clone(), e.1.local.clone(), e.1.is_async));
    }
    map
}

fn imported_symbols(res: &HoistResult) -> HashMap<String, (String, String)> {
    let mut map = HashMap::new();
    for i in 0..res.imported_symbols.len() {
        let e = res.imported_symbols.entry_at(i);
        map.insert(e.0.clone(), (e.1.source.clone(), e.1.local.clone()));
    }
    map
}

fn dynamic_imports(res: &HoistResult) -> HashMap<String, String> {
    let mut map = HashMap::new();
    for i in 0..res.dynamic_imports.len() {
        let e = res.dynamic_imports.entry_at(i);
        map.insert(e.0.clone(), e.1.clone());
    }
    map
}

fn id_names(set: &KeySet<IdentId>) -> HashSet<String> {
    (0..set.len()).map(|i| set.key_at(i).sym.clone()).collect()
}

fn words(set: &KeySet<String>) -> HashSet<String> {
    (0..set.len()).map(|i| set.key_at(i).clone()).collect()
}

fn w(s: &str) -> String {
    s.to_string()
}

fn map1<V>(key: &str, value: V) -> HashMap<String, V> {
    let mut m = HashMap::new();
    m.insert(key.to_string(), value);
    m
}

fn set(keys: &[&str]) -> HashSet<String> {
    keys.iter().map(|k| k.to_string()).collect()
}

// ---------------------------------------------------------------------------
// The analysis.
// ---------------------------------------------------------------------------

#[test]
fn esm() {
    let (collect, _code, _hoist) = parse(
        r#"
    import {foo as bar} from 'other';
    export {bar as test};
    "#,
    );
    assert_eq!(imports(&collect), map1("bar", (w("other"), w("foo"), false)));
}

#[test]
fn cjs_namespace() {
    let (collect, _code, _hoist) = parse(
        r#"
    const x = require('other');
    console.log(x.foo);
    "#,
    );
    assert_eq!(imports(&collect), map1("x", (w("other"), w("*"), false)));
    assert_eq!(collect.non_static_access.len(), 0);
}

#[test]
fn cjs_namespace_non_static() {
    let (collect, _code, _hoist) = parse(
        r#"
    const x = require('other');
    console.log(x[foo]);
    "#,
    );
    assert_eq!(imports(&collect), map1("x", (w("other"), w("*"), false)));
    assert_eq!(id_names(&collect.non_static_access), set(&["x"]));

    let (collect, _code, _hoist) = parse(
        r#"
    const x = require('other');
    console.log(x);
    "#,
    );
    assert_eq!(imports(&collect), map1("x", (w("other"), w("*"), false)));
    assert_eq!(id_names(&collect.non_static_access), set(&["x"]));
}

#[test]
fn cjs_destructure() {
    let (collect, _code, _hoist) = parse(
        r#"
    const {foo: bar} = require('other');
    exports.test = bar;
    "#,
    );
    assert_eq!(imports(&collect), map1("bar", (w("other"), w("foo"), false)));
    assert_eq!(collect.static_cjs_exports, true);
}

#[test]
fn cjs_reassign() {
    let (collect, _code, _hoist) = parse(
        r#"
    exports = 2;
    "#,
    );
    assert_eq!(collect.should_wrap, true);
}

#[test]
fn cjs_non_static_exports() {
    let (collect, _code, _hoist) = parse(
        r#"
    exports[test] = 2;
    "#,
    );
    assert_eq!(collect.static_cjs_exports, false);

    let (collect, _code, _hoist) = parse(
        r#"
    module.exports[test] = 2;
    "#,
    );
    assert_eq!(collect.static_cjs_exports, false);

    let (collect, _code, _hoist) = parse(
        r#"
    this[test] = 2;
    "#,
    );
    assert_eq!(collect.static_cjs_exports, false);

    let (collect, _code, _hoist) = parse(
        r#"
    module.exports[test] = 2;
    "#,
    );
    assert_eq!(collect.static_cjs_exports, false);

    let (collect, _code, _hoist) = parse(
        r#"
    alert(exports)
    "#,
    );
    assert_eq!(collect.static_cjs_exports, false);

    let (collect, _code, _hoist) = parse(
        r#"
    alert(module.exports)
    "#,
    );
    assert_eq!(collect.static_cjs_exports, false);

    let (collect, _code, _hoist) = parse(
        r#"
    alert(this)
    "#,
    );
    assert_eq!(collect.static_cjs_exports, false);

    let (collect, _code, _hoist) = parse(
        r#"
    exports.foo = 2;
    "#,
    );
    assert_eq!(collect.static_cjs_exports, true);

    let (collect, _code, _hoist) = parse(
        r#"
    module.exports.foo = 2;
    "#,
    );
    assert_eq!(collect.static_cjs_exports, true);

    let (collect, _code, _hoist) = parse(
        r#"
    this.foo = 2;
    "#,
    );
    assert_eq!(collect.static_cjs_exports, true);

    let (collect, _code, _hoist) = parse(
        r#"
    var exports = {};
    exports[foo] = 2;
    "#,
    );
    assert_eq!(collect.static_cjs_exports, true);

    let (collect, _code, _hoist) = parse(
        r#"
    var module = {exports: {}};
    module.exports[foo] = 2;
    "#,
    );
    assert_eq!(collect.static_cjs_exports, true);

    let (collect, _code, _hoist) = parse(
        r#"
    test(function(exports) { return Object.keys(exports) })
    "#,
    );
    assert_eq!(collect.static_cjs_exports, true);

    let (collect, _code, _hoist) = parse(
        r#"
    test(exports => Object.keys(exports))
    "#,
    );
    assert_eq!(collect.static_cjs_exports, true);
}

#[test]
fn dynamic_import() {
    let (collect, _code, _hoist) = parse(
        r#"
    async function test() {
      const x = await import('other');
      x.foo;
    }
    "#,
    );
    assert_eq!(imports(&collect), map1("x", (w("other"), w("*"), true)));
    assert_eq!(id_names(&collect.non_static_access), set(&[]));
    assert_eq!(words(&collect.non_static_requires), set(&[]));
    assert_eq!(words(&collect.wrapped_requires), set(&["other"]));

    let (collect, _code, _hoist) = parse(
        r#"
    async function test() {
      const x = await import('other');
      x[foo];
    }
    "#,
    );
    assert_eq!(imports(&collect), map1("x", (w("other"), w("*"), true)));
    assert_eq!(id_names(&collect.non_static_access), set(&["x"]));
    assert_eq!(words(&collect.non_static_requires), set(&[]));
    assert_eq!(words(&collect.wrapped_requires), set(&["other"]));

    let (collect, _code, _hoist) = parse(
        r#"
    async function test() {
      const {foo} = await import('other');
    }
    "#,
    );
    assert_eq!(imports(&collect), map1("foo", (w("other"), w("foo"), true)));
    assert_eq!(words(&collect.non_static_requires), set(&[]));
    assert_eq!(words(&collect.wrapped_requires), set(&["other"]));

    let (collect, _code, _hoist) = parse(
        r#"
    async function test() {
      const {foo: bar} = await import('other');
    }
    "#,
    );
    assert_eq!(imports(&collect), map1("bar", (w("other"), w("foo"), true)));
    assert_eq!(words(&collect.non_static_requires), set(&[]));
    assert_eq!(words(&collect.wrapped_requires), set(&["other"]));

    let (collect, _code, _hoist) = parse(
        r#"
    import('other').then(x => x.foo);
    "#,
    );
    assert_eq!(imports(&collect), map1("x", (w("other"), w("*"), true)));
    assert_eq!(id_names(&collect.non_static_access), set(&[]));
    assert_eq!(words(&collect.non_static_requires), set(&[]));
    assert_eq!(words(&collect.wrapped_requires), set(&["other"]));

    let (collect, _code, _hoist) = parse(
        r#"
    import('other').then(x => x);
    "#,
    );
    assert_eq!(imports(&collect), map1("x", (w("other"), w("*"), true)));
    assert_eq!(id_names(&collect.non_static_access), set(&["x"]));
    assert_eq!(words(&collect.non_static_requires), set(&[]));
    assert_eq!(words(&collect.wrapped_requires), set(&["other"]));

    let (collect, _code, _hoist) = parse(
        r#"
    import('other').then(({foo}) => foo);
    "#,
    );
    assert_eq!(imports(&collect), map1("foo", (w("other"), w("foo"), true)));
    assert_eq!(words(&collect.non_static_requires), set(&[]));
    assert_eq!(words(&collect.wrapped_requires), set(&["other"]));

    let (collect, _code, _hoist) = parse(
        r#"
    import('other').then(({foo: bar}) => bar);
    "#,
    );
    assert_eq!(imports(&collect), map1("bar", (w("other"), w("foo"), true)));
    assert_eq!(words(&collect.non_static_requires), set(&[]));
    assert_eq!(words(&collect.wrapped_requires), set(&["other"]));

    let (collect, _code, _hoist) = parse(
        r#"
    import('other').then(function (x) { return x.foo });
    "#,
    );
    assert_eq!(imports(&collect), map1("x", (w("other"), w("*"), true)));
    assert_eq!(id_names(&collect.non_static_access), set(&[]));
    assert_eq!(words(&collect.non_static_requires), set(&[]));
    assert_eq!(words(&collect.wrapped_requires), set(&["other"]));

    let (collect, _code, _hoist) = parse(
        r#"
    import('other').then(function (x) { return x });
    "#,
    );
    assert_eq!(imports(&collect), map1("x", (w("other"), w("*"), true)));
    assert_eq!(id_names(&collect.non_static_access), set(&["x"]));
    assert_eq!(words(&collect.non_static_requires), set(&[]));
    assert_eq!(words(&collect.wrapped_requires), set(&["other"]));

    let (collect, _code, _hoist) = parse(
        r#"
    import('other').then(function ({foo}) {});
    "#,
    );
    assert_eq!(imports(&collect), map1("foo", (w("other"), w("foo"), true)));
    assert_eq!(words(&collect.non_static_requires), set(&[]));
    assert_eq!(words(&collect.wrapped_requires), set(&["other"]));

    let (collect, _code, _hoist) = parse(
        r#"
    import('other').then(function ({foo: bar}) {});
    "#,
    );
    assert_eq!(imports(&collect), map1("bar", (w("other"), w("foo"), true)));
    assert_eq!(words(&collect.non_static_requires), set(&[]));
    assert_eq!(words(&collect.wrapped_requires), set(&["other"]));

    let (collect, _code, _hoist) = parse(
        r#"
    import('other');
    "#,
    );
    assert_eq!(imports(&collect), HashMap::new());
    assert_eq!(words(&collect.non_static_requires), set(&["other"]));
    assert_eq!(words(&collect.wrapped_requires), set(&["other"]));

    let (collect, _code, _hoist) = parse(
        r#"
    let other = import('other');
    "#,
    );
    assert_eq!(imports(&collect), HashMap::new());
    assert_eq!(words(&collect.non_static_requires), set(&["other"]));
    assert_eq!(words(&collect.wrapped_requires), set(&["other"]));

    let (collect, _code, _hoist) = parse(
        r#"
    async function test() {
      let {...other} = await import('other');
    }
    "#,
    );
    assert_eq!(imports(&collect), HashMap::new());
    assert_eq!(words(&collect.non_static_requires), set(&["other"]));
    assert_eq!(words(&collect.wrapped_requires), set(&["other"]));
}

// ---------------------------------------------------------------------------
// The rewrite.
// ---------------------------------------------------------------------------

#[test]
fn fold_import() {
    let (_collect, code, _hoist) = parse(
        r#"
    import {foo as bar} from 'other';
    let test = {bar: 3};
    console.log(bar, test.bar);
    "#,
    );

    assert_eq!(
        code,
        dedent(
            r#"
    import   "abc:other";
    let $abc$var$test = {
        bar: 3
    };
    console.log($abc$import$558d6cfb8af8a010$ba02ad2230917043, $abc$var$test.bar);
    "#
        )
    );

    let (_collect, code, _hoist) = parse(
        r#"
    import * as foo from 'other';
    console.log(foo.bar);
    "#,
    );

    assert_eq!(
        code,
        dedent(
            r#"
    import   "abc:other";
    console.log($abc$import$558d6cfb8af8a010$3705fc5f2281438d);
    "#
        )
    );

    let (_collect, code, _hoist) = parse(
        r#"
    import other from 'other';
    console.log(other, other.bar);
    "#,
    );

    assert_eq!(
        code,
        dedent(
            r#"
    import   "abc:other";
    console.log($abc$import$558d6cfb8af8a010$9099ad97b570f7c, $abc$import$558d6cfb8af8a010$9099ad97b570f7c.bar);
    "#
        )
    );
}

#[test]
fn fold_import_hoist() {
    let (_collect, code, _hoist) = parse(
        r#"
    import foo from 'other';
    console.log(foo);
    import bar from 'bar';
    console.log(bar);
    "#,
    );

    assert_eq!(
        code,
        dedent(
            r#"
    import   "abc:other";
    import   "abc:bar";
    console.log($abc$import$558d6cfb8af8a010$9099ad97b570f7c);
    console.log($abc$import$3705fc5f2281438d$9099ad97b570f7c);
    "#
        )
    );

    let (_collect, code, _hoist) = parse(
        r#"
    import foo from 'other';
    console.log(foo);
    const x = require('x');
    console.log(x);
    import bar from 'bar';
    console.log(bar);
    "#,
    );

    assert_eq!(
        code,
        dedent(
            r#"
    import   "abc:other";
    import   "abc:bar";
    console.log($abc$import$558d6cfb8af8a010$9099ad97b570f7c);
    import   "abc:x";
    console.log($abc$import$10b1f2ceae7ab64e);
    console.log($abc$import$3705fc5f2281438d$9099ad97b570f7c);
    "#
        )
    );
}

#[test]
fn fold_static_require() {
    let (_collect, code, _hoist) = parse(
        r#"
    const x = 4, {bar} = require('other'), baz = 3;
    console.log(bar);
    "#,
    );

    assert_eq!(
        code,
        dedent(
            r#"
    const $abc$var$x = 4;
    import   "abc:other";
    const $abc$var$baz = 3;
    console.log($abc$import$558d6cfb8af8a010$3705fc5f2281438d);
    "#
        )
    );

    let (_collect, code, _hoist) = parse(
        r#"
    const x = 3, foo = require('other'), bar = 2;
    console.log(foo.bar);
    "#,
    );

    assert_eq!(
        code,
        dedent(
            r#"
    const $abc$var$x = 3;
    import   "abc:other";
    const $abc$var$bar = 2;
    console.log($abc$import$558d6cfb8af8a010$3705fc5f2281438d);
    "#
        )
    );
}

#[test]
fn fold_non_static_require() {
    let (_collect, code, _hoist) = parse(
        r#"
    const {foo, ...bar} = require('other');
    console.log(foo, bar);
    "#,
    );

    assert_eq!(
        code,
        dedent(
            r#"
    import   "abc:other";
    const { foo: $abc$var$foo , ...$abc$var$bar } = $abc$import$558d6cfb8af8a010;
    console.log($abc$var$foo, $abc$var$bar);
    "#
        )
    );

    let (_collect, code, _hoist) = parse(
        r#"
    const {x: {y: z}} = require('x');
    console.log(z);
    "#,
    );

    assert_eq!(
        code,
        dedent(
            r#"
    import   "abc:x";
    const { x: { y: $abc$var$z  }  } = $abc$import$10b1f2ceae7ab64e;
    console.log($abc$var$z);
    "#
        )
    );

    let (_collect, code, _hoist) = parse(
        r#"
    const foo = require('other');
    console.log(foo[bar]);
    "#,
    );

    assert_eq!(
        code,
        dedent(
            r#"
    import   "abc:other";
    console.log($abc$import$558d6cfb8af8a010[bar]);
    "#
        )
    );

    let (_collect, code, _hoist) = parse(
        r#"
    const foo = require('other');
    console.log(foo[bar], foo.baz);
    "#,
    );

    assert_eq!(
        code,
        dedent(
            r#"
    import   "abc:other";
    console.log($abc$import$558d6cfb8af8a010[bar], $abc$import$558d6cfb8af8a010.baz);
    "#
        )
    );
}

#[test]
fn fold_require_member() {
    let (_collect, code, _hoist) = parse(
        r#"
    const foo = require('other').foo;
    console.log(foo);
    "#,
    );

    assert_eq!(
        code,
        dedent(
            r#"
    import   "abc:other";
    console.log($abc$import$558d6cfb8af8a010$ba02ad2230917043);
    "#
        )
    );

    let (_collect, code, _hoist) = parse(
        r#"
    const foo = require('other')[bar];
    console.log(foo);
    "#,
    );

    assert_eq!(
        code,
        dedent(
            r#"
    import   "abc:other";
    const $abc$var$foo = $abc$import$558d6cfb8af8a010[bar];
    console.log($abc$var$foo);
    "#
        )
    );

    let (_collect, code, _hoist) = parse(
        r#"
    const {foo} = require('other').foo;
    console.log(foo);
    "#,
    );

    assert_eq!(
        code,
        dedent(
            r#"
    import   "abc:other";
    const { foo: $abc$var$foo  } = $abc$import$558d6cfb8af8a010$ba02ad2230917043;
    console.log($abc$var$foo);
    "#
        )
    );
}

#[test]
fn fold_require_wrapped() {
    let (_collect, code, _hoist) = parse(
        r#"
    function x() {
      const foo = require('other');
      console.log(foo.bar);
    }
    require('bar');
    "#,
    );

    assert_eq!(
        code,
        dedent(
            r#"
    import   "abc:other";
    function $abc$var$x() {
        const foo = $abc$import$558d6cfb8af8a010;
        console.log(foo.bar);
    }
    import   "abc:bar";
    $abc$import$3705fc5f2281438d;
    "#
        )
    );

    let (_collect, code, _hoist) = parse(
        r#"
    function x() {
      const foo = require('other').foo;
      console.log(foo);
    }
    "#,
    );

    assert_eq!(
        code,
        dedent(
            r#"
    import   "abc:other";
    function $abc$var$x() {
        const foo = $abc$import$558d6cfb8af8a010$ba02ad2230917043;
        console.log(foo);
    }
    "#
        )
    );

    let (_collect, code, _hoist) = parse(
        r#"
    function x() {
      console.log(require('other').foo);
    }
    "#,
    );

    assert_eq!(
        code,
        dedent(
            r#"
    import   "abc:other";
    function $abc$var$x() {
        console.log($abc$import$558d6cfb8af8a010$ba02ad2230917043);
    }
    "#
        )
    );

    let (_collect, code, _hoist) = parse(
        r#"
    function x() {
      const foo = require('other')[test];
      console.log(foo);
    }
    "#,
    );

    assert_eq!(
        code,
        dedent(
            r#"
    import   "abc:other";
    function $abc$var$x() {
        const foo = $abc$import$558d6cfb8af8a010[test];
        console.log(foo);
    }
    "#
        )
    );

    let (_collect, code, _hoist) = parse(
        r#"
    function x() {
      const {foo} = require('other');
      console.log(foo);
    }
    "#,
    );

    assert_eq!(
        code,
        dedent(
            r#"
    import   "abc:other";
    function $abc$var$x() {
        const { foo: foo  } = $abc$import$558d6cfb8af8a010;
        console.log(foo);
    }
    "#
        )
    );

    let (_collect, code, _hoist) = parse(
        r#"
    let x = require('a') + require('b');
    "#,
    );

    assert_eq!(
        code,
        dedent(
            r#"
    import   "abc:a";
    import   "abc:b";
    let $abc$var$x = $abc$import$7ac649919d1c80a6 + $abc$import$a91ade93898ecc38;
    "#
        )
    );

    let (_collect, code, _hoist) = parse(
        r#"
    let x = (require('a'), require('b'));
    "#,
    );

    assert_eq!(
        code,
        dedent(
            r#"
    import   "abc:a";
    import   "abc:b";
    let $abc$var$x = (!$abc$import$7ac649919d1c80a6, $abc$import$a91ade93898ecc38);
    "#
        )
    );

    let (_collect, code, _hoist) = parse(
        r#"
    let x = require('a') || require('b');
    "#,
    );

    assert_eq!(
        code,
        dedent(
            r#"
    import   "abc:a";
    import   "abc:b";
    let $abc$var$x = $abc$import$7ac649919d1c80a6 || $abc$import$a91ade93898ecc38;
    "#
        )
    );

    let (_collect, code, _hoist) = parse(
        r#"
    let x = condition ? require('a') : require('b');
    "#,
    );

    assert_eq!(
        code,
        dedent(
            r#"
    import   "abc:a";
    import   "abc:b";
    let $abc$var$x = condition ? $abc$import$7ac649919d1c80a6 : $abc$import$a91ade93898ecc38;
    "#
        )
    );

    let (_collect, code, _hoist) = parse(
        r#"
    if (condition) require('a');
    "#,
    );

    assert_eq!(
        code,
        dedent(
            r#"
    import   "abc:a";
    if (condition) $abc$import$7ac649919d1c80a6;
    "#
        )
    );

    let (_collect, code, _hoist) = parse(
        r#"
    for (let x = require('y'); x < 5; x++) {}
    "#,
    );

    assert_eq!(
        code,
        dedent(
            r#"
    import   "abc:y";
    for(let x = $abc$import$57bbd0ca114c72e; x < 5; x++){
    }
    "#
        )
    );
}

#[test]
fn fold_export() {
    let (_collect, code, _hoist) = parse(
        r#"
    let x = 3;
    let y = 4;
    let z = 6;
    export {x, y};
    "#,
    );

    assert_eq!(
        code,
        dedent(
            r#"
    let $abc$export$x = 3;
    let $abc$export$y = 4;
    let $abc$var$z = 6;
    "#
        )
    );

    let (_collect, code, _hoist) = parse(
        r#"
    export default 3;
    "#,
    );

    assert_eq!(
        code,
        dedent(
            r#"
    var $abc$export$default = 3;
    "#
        )
    );

    let (_collect, code, _hoist) = parse(
        r#"
    let x = 3;
    export default x;
    "#,
    );

    assert_eq!(
        code,
        dedent(
            r#"
    let $abc$var$x = 3;
    var $abc$export$default = $abc$var$x;
    "#
        )
    );

    let (_collect, code, _hoist) = parse(
        r#"
    export default function () {}
    "#,
    );

    assert_eq!(
        code,
        dedent(
            r#"
    function $abc$export$default() {
    }
    "#
        )
    );

    let (_collect, code, _hoist) = parse(
        r#"
    export default class {}
    "#,
    );

    assert_eq!(
        code,
        dedent(
            r#"
    class $abc$export$default {
    }
    "#
        )
    );

    let (_collect, code, _hoist) = parse(
        r#"
    export var x = 2, y = 3;
    "#,
    );

    assert_eq!(
        code,
        dedent(
            r#"
    var $abc$export$x = 2, $abc$export$y = 3;
    "#
        )
    );

    let (_collect, code, _hoist) = parse(
        r#"
    export var {x, ...y} = something;
    export var [p, ...q] = something;
    export var {x = 3} = something;
    "#,
    );

    assert_eq!(
        code,
        dedent(
            r#"
    var { x: $abc$export$x , ...$abc$export$y } = something;
    var [$abc$export$p, ...$abc$export$q] = something;
    var { x: $abc$export$x = 3  } = something;
    "#
        )
    );

    let (_collect, code, _hoist) = parse(
        r#"
    export function test() {}
    "#,
    );

    assert_eq!(
        code,
        dedent(
            r#"
    function $abc$export$test() {
    }
    "#
        )
    );

    let (_collect, code, _hoist) = parse(
        r#"
    export class Test {}
    "#,
    );

    assert_eq!(
        code,
        dedent(
            r#"
    class $abc$export$Test {
    }
    "#
        )
    );

    let (_collect, code, _hoist) = parse(
        r#"
    export {foo} from 'bar';
    "#,
    );

    assert_eq!(
        code,
        dedent(
            r#"
    import   "abc:bar";
    "#
        )
    );

    let (_collect, code, _hoist) = parse(
        r#"
    export * from 'bar';
    "#,
    );

    assert_eq!(
        code,
        dedent(
            r#"
    import   "abc:bar";
    "#
        )
    );
}

#[test]
fn fold_cjs_export() {
    let (_collect, code, _hoist) = parse(
        r#"
    exports.foo = 2;
    "#,
    );

    assert_eq!(
        code,
        dedent(
            r#"
    var $abc$export$foo;
    $abc$export$foo = 2;
    "#
        )
    );

    let (_collect, code, _hoist) = parse(
        r#"
    exports['foo'] = 2;
    "#,
    );

    assert_eq!(
        code,
        dedent(
            r#"
    var $abc$export$foo;
    $abc$export$foo = 2;
    "#
        )
    );

    let (_collect, code, _hoist) = parse(
        r#"
    function init() {
      exports.foo = 2;
    }
    "#,
    );

    assert_eq!(
        code,
        dedent(
            r#"
    var $abc$export$foo;
    function $abc$var$init() {
        $abc$export$foo = 2;
    }
    "#
        )
    );

    let (_collect, code, _hoist) = parse(
        r#"
    module.exports.foo = 2;
    "#,
    );

    assert_eq!(
        code,
        dedent(
            r#"
    var $abc$export$foo;
    $abc$export$foo = 2;
    "#
        )
    );

    let (_collect, code, _hoist) = parse(
        r#"
    module.exports['foo'] = 2;
    "#,
    );

    assert_eq!(
        code,
        dedent(
            r#"
    var $abc$export$foo;
    $abc$export$foo = 2;
    "#
        )
    );

    let (_collect, code, _hoist) = parse(
        r#"
    exports.foo = 2;
    console.log(exports.foo)
    "#,
    );

    assert_eq!(
        code,
        dedent(
            r#"
    var $abc$export$foo;
    $abc$export$foo = 2;
    console.log($abc$export$foo);
    "#
        )
    );

    let (_collect, code, _hoist) = parse(
        r#"
    module.exports.foo = 2;
    console.log(module.exports.foo)
    "#,
    );

    assert_eq!(
        code,
        dedent(
            r#"
    var $abc$export$foo;
    $abc$export$foo = 2;
    console.log($abc$export$foo);
    "#
        )
    );
}

#[test]
fn fold_cjs_export_non_static() {
    let (_collect, code, _hoist) = parse(
        r#"
    exports[foo] = 2;
    exports.bar = 3;
    "#,
    );

    assert_eq!(
        code,
        dedent(
            r#"
    $abc$exports[foo] = 2;
    $abc$exports.bar = 3;
    "#
        )
    );

    let (_collect, code, _hoist) = parse(
        r#"
    module.exports[foo] = 2;
    module.exports.bar = 3;
    "#,
    );

    assert_eq!(
        code,
        dedent(
            r#"
    $abc$exports[foo] = 2;
    $abc$exports.bar = 3;
    "#
        )
    );

    let (_collect, code, _hoist) = parse(
        r#"
    exports.foo = 2;
    sideEffects(exports);
    "#,
    );

    assert_eq!(
        code,
        dedent(
            r#"
    $abc$exports.foo = 2;
    sideEffects($abc$exports);
    "#
        )
    );

    let (_collect, code, _hoist) = parse(
        r#"
    exports.foo = 2;
    sideEffects(module.exports);
    "#,
    );

    assert_eq!(
        code,
        dedent(
            r#"
    $abc$exports.foo = 2;
    sideEffects($abc$exports);
    "#
        )
    );

    let (_collect, code, _hoist) = parse(
        r#"
    exports[foo] = 2;
    console.log(exports[foo]);
    "#,
    );

    assert_eq!(
        code,
        dedent(
            r#"
    $abc$exports[foo] = 2;
    console.log($abc$exports[foo]);
    "#
        )
    );

    let (_collect, code, _hoist) = parse(
        r#"
    exports[foo] = 2;
    console.log(exports.foo);
    "#,
    );

    assert_eq!(
        code,
        dedent(
            r#"
    $abc$exports[foo] = 2;
    console.log($abc$exports.foo);
    "#
        )
    );

    let (_collect, code, _hoist) = parse(
        r#"
    module.exports[foo] = 2;
    console.log(module.exports[foo]);
    "#,
    );

    assert_eq!(
        code,
        dedent(
            r#"
    $abc$exports[foo] = 2;
    console.log($abc$exports[foo]);
    "#
        )
    );

    let (_collect, code, _hoist) = parse(
        r#"
    module.exports[foo] = 2;
    console.log(module.exports.foo);
    "#,
    );

    assert_eq!(
        code,
        dedent(
            r#"
    $abc$exports[foo] = 2;
    console.log($abc$exports.foo);
    "#
        )
    );
}

#[test]
fn fold_dynamic_import() {
    let named = map1("$abc$importAsync$558d6cfb8af8a010$ba02ad2230917043", (w("other"), w("foo")));
    let whole = map1("$abc$importAsync$558d6cfb8af8a010", (w("other"), w("*")));
    let dynamic = map1("$abc$importAsync$558d6cfb8af8a010", w("other"));

    let (_collect, code, hoist) = parse(
        r#"
    async function test() {
      const x = await import('other');
      console.log(x.foo);
    }
    "#,
    );
    assert_eq!(imported_symbols(&hoist), named);
    assert_eq!(dynamic_imports(&hoist), dynamic);
    assert_eq!(
        code,
        dedent(
            r#"
    import   "abc:other";
    async function $abc$var$test() {
        const x = await $abc$importAsync$558d6cfb8af8a010;
        console.log(x.foo);
    }
    "#
        )
    );

    let (_collect, code, hoist) = parse(
        r#"
    async function test() {
      const x = await import('other');
      console.log(x[foo]);
    }
    "#,
    );
    assert_eq!(imported_symbols(&hoist), whole);
    assert_eq!(dynamic_imports(&hoist), dynamic);
    assert_eq!(
        code,
        dedent(
            r#"
    import   "abc:other";
    async function $abc$var$test() {
        const x = await $abc$importAsync$558d6cfb8af8a010;
        console.log(x[foo]);
    }
    "#
        )
    );

    let (_collect, code, hoist) = parse(
        r#"
    async function test() {
      const {foo} = await import('other');
      console.log(foo);
    }
    "#,
    );
    assert_eq!(imported_symbols(&hoist), named);
    assert_eq!(dynamic_imports(&hoist), dynamic);
    assert_eq!(
        code,
        dedent(
            r#"
    import   "abc:other";
    async function $abc$var$test() {
        const { foo: foo  } = await $abc$importAsync$558d6cfb8af8a010;
        console.log(foo);
    }
    "#
        )
    );

    let (_collect, code, hoist) = parse(
        r#"
    async function test() {
      const {foo: bar} = await import('other');
      console.log(bar);
    }
    "#,
    );
    assert_eq!(imported_symbols(&hoist), named);
    assert_eq!(dynamic_imports(&hoist), dynamic);
    assert_eq!(
        code,
        dedent(
            r#"
    import   "abc:other";
    async function $abc$var$test() {
        const { foo: bar  } = await $abc$importAsync$558d6cfb8af8a010;
        console.log(bar);
    }
    "#
        )
    );

    let (_collect, code, hoist) = parse(
        r#"
    import('other').then(x => x.foo);
    "#,
    );
    assert_eq!(imported_symbols(&hoist), named);
    assert_eq!(dynamic_imports(&hoist), dynamic);
    assert_eq!(
        code,
        dedent(
            r#"
    import   "abc:other";
    $abc$importAsync$558d6cfb8af8a010.then((x)=>x.foo
    );
    "#
        )
    );

    let (_collect, code, hoist) = parse(
        r#"
    import('other').then(x => x);
    "#,
    );
    assert_eq!(imported_symbols(&hoist), whole);
    assert_eq!(dynamic_imports(&hoist), dynamic);
    assert_eq!(
        code,
        dedent(
            r#"
    import   "abc:other";
    $abc$importAsync$558d6cfb8af8a010.then((x)=>x
    );
    "#
        )
    );

    let (_collect, code, hoist) = parse(
        r#"
    import('other').then(({foo}) => foo);
    "#,
    );
    assert_eq!(imported_symbols(&hoist), named);
    assert_eq!(dynamic_imports(&hoist), dynamic);
    assert_eq!(
        code,
        dedent(
            r#"
    import   "abc:other";
    $abc$importAsync$558d6cfb8af8a010.then(({ foo: foo  })=>foo
    );
    "#
        )
    );

    let (_collect, code, hoist) = parse(
        r#"
    import('other').then(({foo: bar}) => bar);
    "#,
    );
    assert_eq!(imported_symbols(&hoist), named);
    assert_eq!(dynamic_imports(&hoist), dynamic);
    assert_eq!(
        code,
        dedent(
            r#"
    import   "abc:other";
    $abc$importAsync$558d6cfb8af8a010.then(({ foo: bar  })=>bar
    );
    "#
        )
    );

    let (_collect, code, hoist) = parse(
        r#"
    import('other').then(function (x) { return x.foo });
    "#,
    );
    assert_eq!(imported_symbols(&hoist), named);
    assert_eq!(dynamic_imports(&hoist), dynamic);
    assert_eq!(
        code,
        dedent(
            r#"
    import   "abc:other";
    $abc$importAsync$558d6cfb8af8a010.then(function(x) {
        return x.foo;
    });
    "#
        )
    );

    let (_collect, code, hoist) = parse(
        r#"
    import('other').then(function (x) { return x });
    "#,
    );
    assert_eq!(imported_symbols(&hoist), whole);
    assert_eq!(dynamic_imports(&hoist), dynamic);
    assert_eq!(
        code,
        dedent(
            r#"
    import   "abc:other";
    $abc$importAsync$558d6cfb8af8a010.then(function(x) {
        return x;
    });
    "#
        )
    );

    let (_collect, code, hoist) = parse(
        r#"
    import('other').then(function ({foo}) {});
    "#,
    );
    assert_eq!(imported_symbols(&hoist), named);
    assert_eq!(dynamic_imports(&hoist), dynamic);
    assert_eq!(
        code,
        dedent(
            r#"
    import   "abc:other";
    $abc$importAsync$558d6cfb8af8a010.then(function({ foo: foo  }) {
    });
    "#
        )
    );

    let (_collect, code, hoist) = parse(
        r#"
    import('other').then(function ({foo: bar}) {});
    "#,
    );
    assert_eq!(imported_symbols(&hoist), named);
    assert_eq!(dynamic_imports(&hoist), dynamic);
    assert_eq!(
        code,
        dedent(
            r#"
    import   "abc:other";
    $abc$importAsync$558d6cfb8af8a010.then(function({ foo: bar  }) {
    });
    "#
        )
    );
}

// ---------------------------------------------------------------------------
// Further cases.
// ---------------------------------------------------------------------------

fn rewrite(code: &str) -> (Node, HoistResult, Session) {
    let (module, decls, session) = read(code);
    match hoist(module, "abc", decls, session.ignore, session.top) {
        Ok((module, res)) => (module, res, session),
        Err(e) => panic!("{:?}", e),
    }
}

fn exported_symbols(res: &HoistResult) -> HashMap<String, String> {
    let mut map = HashMap::new();
    for i in 0..res.exported_symbols.len() {
        let e = res.exported_symbols.entry_at(i);
        map.insert(e.0.clone(), e.1.symbol.clone());
    }
    map
}

fn re_exports(res: &HoistResult) -> Vec<(String, String, String)> {
    res.re_exports.iter().map(|r| (r.exported.clone(), r.source.clone(), r.local.clone())).collect()
}

fn identifiers(n: &Node, out: &mut Vec<String>) {
    match n.kind {
        Kind::Ident | Kind::Name | Kind::BindingIdent | Kind::Shorthand | Kind::AssignPatProp => {
            out.push(n.sym.clone())
        }
        _ => {}
    }
    for c in &n.children {
        identifiers(c, out);
    }
}

fn is_hex(s: &str) -> bool {
    !s.is_empty() && !s.starts_with('0') && s.chars().all(|c| c.is_ascii_digit() || ('a'..='f').contains(&c))
}

fn matches_schema(name: &str) -> bool {
    let rest = match name.strip_prefix("$abc$") {
        Some(rest) => rest,
        None => return false,
    };
    if rest == "exports" {
        return true;
    }
    if let Some(v) = rest.strip_prefix("var$").or(rest.strip_prefix("export$")) {
        return !v.is_empty();
    }
    if let Some(h) = rest.strip_prefix("importAsync$") {
        return is_hex(h);
    }
    if let Some(h) = rest.strip_prefix("import$") {
        return h.split('$').count() <= 2 && h.split('$').all(is_hex);
    }
    false
}

#[test]
fn names_in_the_output_are_fresh() {
    let (module, _res, _session) = rewrite(
        r#"
    import {foo as bar} from 'other';
    import * as ns from 'space';
    const x = require('x'), {y, ...rest} = require('y');
    export let z = global.value;
    exports.own = ns.member + bar;
    async function f(a) {
      const later = await import('later');
      return g(x, y, rest, z, a, later, exports, module.exports, this);
    }
    export default f;
    "#,
    );
    let mut names = vec![];
    identifiers(&module, &mut names);
    assert!(names.iter().any(|n| n == "$parcel$global"));
    assert!(names.iter().any(|n| n.starts_with("$abc$import$")));
    assert!(names.iter().any(|n| n.starts_with("$abc$importAsync$")));
    assert!(names.iter().any(|n| n.starts_with("$abc$export$")));
    assert!(names.iter().any(|n| n.starts_with("$abc$var$")));
    for n in names {
        assert!(!n.starts_with('$') || n == "$parcel$global" || matches_schema(&n), "{}", n);
    }
}

#[test]
fn a_rewritten_identifier_loses_its_context() {
    let (module, _res, session) = rewrite("let x = 3; console.log(x);");
    let binding = &module.children[0].children[0].children[0];
    assert_eq!(binding.sym, "$abc$var$x");
    assert_eq!(binding.ctxt, Vec::<u32>::new());
    let callee = &module.children[1].children[0].children[0].children[0];
    assert_eq!(callee.sym, "console");
    assert_eq!(callee.ctxt, vec![session.top]);
}

#[test]
fn two_runs_give_the_same_output() {
    let code = r#"
    import {foo as bar} from 'other';
    const x = require('x');
    exports.a = bar(x, import('lazy'));
    "#;
    let (_c1, code1, res1) = parse(code);
    let (_c2, code2, res2) = parse(code);
    assert_eq!(code1, code2);
    assert_eq!(imported_symbols(&res1), imported_symbols(&res2));
    assert_eq!(exported_symbols(&res1), exported_symbols(&res2));
    assert_eq!(dynamic_imports(&res1), dynamic_imports(&res2));
    assert_eq!(words(&res1.self_references), words(&res2.self_references));
}

#[test]
fn a_second_walk_changes_nothing() {
    let (module, decls, _session) = read(
        r#"
    import {foo as bar} from 'other';
    const x = require('x');
    export {bar as baz};
    export var v = 1;
    function f() { return require('inner')[x] }
    exports.a = module;
    "#,
    );
    let mut collect = Collect::new(decls, IGNORE);
    collect.visit_module(&module);
    let first = format!("{:?}", collect);
    collect.visit_module(&module);
    assert_eq!(format!("{:?}", collect), first);
}

#[test]
fn wrapping_on_account_of_exports() {
    let (collect, _code, _hoist) = parse("console.log(module);");
    assert!(collect.should_wrap && collect.has_cjs_exports && !collect.static_cjs_exports);

    let (collect, _code, _hoist) = parse("exports = 2;");
    assert!(collect.should_wrap && collect.has_cjs_exports && !collect.static_cjs_exports);

    let (collect, _code, _hoist) = parse("let exports; exports = 2;");
    assert!(!collect.should_wrap && !collect.has_cjs_exports && collect.static_cjs_exports);
}

#[test]
fn wrapping_on_other_accounts() {
    let stmt = node(
        Kind::Return,
        "",
        vec![],
        Span { lo: 0, hi: 9 },
        0,
        vec![node(Kind::Other, "2", vec![], Span { lo: 7, hi: 8 }, 0, vec![])],
    );
    let module = node(Kind::Module, "", vec![], Span { lo: 0, hi: 9 }, 0, vec![stmt]);
    let mut collect = Collect::new(KeySet::new(), IGNORE);
    collect.visit_module(&module);
    assert!(collect.should_wrap && !collect.has_cjs_exports && collect.static_cjs_exports);

    let (collect, _code, _hoist) = parse("function f() { return 2 }");
    assert!(!collect.should_wrap);

    let (collect, _code, _hoist) = parse("eval('x');");
    assert!(collect.should_wrap && !collect.has_cjs_exports && collect.static_cjs_exports);

    let (collect, _code, _hoist) = parse("function f(eval) { eval('x') }");
    assert!(!collect.should_wrap);
}

#[test]
fn a_wrapped_module_keeps_its_names() {
    let (_collect, code, res) = parse(
        r#"
    exports = 2;
    let x = 3;
    export {x};
    console.log(x, exports, module.exports, this);
    "#,
    );
    assert_eq!(
        code,
        dedent(
            r#"
    exports = 2;
    let x = 3;
    console.log(x, exports, module.exports, this);
    "#
        )
    );
    assert_eq!(exported_symbols(&res), map1("x", w("x")));
    assert_eq!(res.self_references.len(), 0);
    assert_eq!(res.should_wrap, true);
}

#[test]
fn self_references_have_exported_symbols() {
    let (_collect, _code, res) = parse(
        r#"
    exports.foo = 2;
    console.log(exports.foo, module.exports.bar);
    "#,
    );
    assert_eq!(words(&res.self_references), set(&["foo", "bar"]));
    let exported = exported_symbols(&res);
    assert_eq!(exported.get("foo"), Some(&w("$abc$export$foo")));
    assert_eq!(exported.get("bar"), Some(&w("$abc$export$bar")));

    let (_collect, code, res) = parse("sideEffects(exports, this);");
    assert_eq!(code, "sideEffects($abc$exports, $abc$exports);\n");
    assert_eq!(words(&res.self_references), set(&["*"]));
    assert_eq!(exported_symbols(&res), map1("*", w("$abc$exports")));
}

#[test]
fn exported_names_map_to_their_export_symbols() {
    let (_collect, _code, res) = parse(
        r#"
    export let a = 1;
    export function b() {}
    export default 3;
    module.exports = a;
    "#,
    );
    let mut expected = HashMap::new();
    expected.insert(w("a"), w("$abc$export$a"));
    expected.insert(w("b"), w("$abc$export$b"));
    expected.insert(w("default"), w("$abc$export$default"));
    expected.insert(w("*"), w("$abc$exports"));
    assert_eq!(exported_symbols(&res), expected);
}

#[test]
fn a_binding_exported_under_two_names_keeps_one_symbol() {
    let (_collect, code, res) = parse(
        r#"
    let x = 1;
    export {x as y, x as z};
    "#,
    );
    assert_eq!(code, "let $abc$export$y = 1;\n");
    let mut expected = HashMap::new();
    expected.insert(w("y"), w("$abc$export$y"));
    expected.insert(w("z"), w("$abc$export$y"));
    assert_eq!(exported_symbols(&res), expected);
}

#[test]
fn dynamic_imports_are_named_after_their_source() {
    let (_collect, _code, res) = parse(
        r#"
    import('a');
    function f() { return import('b') }
    "#,
    );
    let mut expected = HashMap::new();
    expected.insert(w("$abc$importAsync$7ac649919d1c80a6"), w("a"));
    expected.insert(w("$abc$importAsync$a91ade93898ecc38"), w("b"));
    assert_eq!(dynamic_imports(&res), expected);
    let mut symbols = HashMap::new();
    symbols.insert(w("$abc$importAsync$7ac649919d1c80a6"), (w("a"), w("*")));
    symbols.insert(w("$abc$importAsync$a91ade93898ecc38"), (w("b"), w("*")));
    assert_eq!(imported_symbols(&res), symbols);
}

#[test]
fn re_exports_keep_their_order() {
    let (_collect, code, res) = parse(
        r#"
    import {a as b} from 'first';
    export {x, y as z} from 'second';
    export * from 'third';
    export {b as c};
    "#,
    );
    assert_eq!(
        code,
        dedent(
            r#"
    import   "abc:first";
    import   "abc:second";
    import   "abc:third";
    "#
        )
    );
    assert_eq!(
        re_exports(&res),
        vec![
            (w("x"), w("second"), w("x")),
            (w("z"), w("second"), w("y")),
            (w("*"), w("third"), w("*")),
            (w("c"), w("first"), w("a")),
        ]
    );
}

#[test]
fn sources_keep_their_relative_prefix() {
    let (_collect, code, _res) = parse("import a from './dir/../other.js';");
    assert_eq!(code, "import   \"abc:./dir/../other.js\";\n");
}

#[test]
fn typeof_require_is_function() {
    let (_collect, code, _res) = parse("console.log(typeof require, typeof other);");
    assert_eq!(code, "console.log(\"function\", typeof other);\n");

    let (_collect, code, _res) = parse("function f(require) { return typeof require }");
    assert_eq!(
        code,
        dedent(
            r#"
    function $abc$var$f(require) {
        return typeof require;
    }
    "#
        )
    );
}

#[test]
fn this_outside_functions() {
    let (_collect, code, _res) = parse("import a from 'a'; console.log(this);");
    assert_eq!(code, "import   \"abc:a\";\nconsole.log(undefined);\n");

    let (_collect, code, _res) = parse("function f() { return this }");
    assert_eq!(
        code,
        dedent(
            r#"
    function $abc$var$f() {
        return this;
    }
    "#
        )
    );

    let (_collect, code, res) = parse("this.foo = 2; console.log(this.foo);");
    assert_eq!(code, "$abc$export$foo = 2;\nconsole.log($abc$export$foo);\n");
    assert_eq!(words(&res.self_references), set(&["foo"]));
}

#[test]
fn free_global_is_replaced() {
    let (_collect, code, _res) = parse("console.log(global); function f(global) { return global }");
    assert_eq!(
        code,
        dedent(
            r#"
    console.log($parcel$global);
    function $abc$var$f(global) {
        return global;
    }
    "#
        )
    );
}

#[test]
fn shorthand_properties_are_expanded() {
    let (_collect, code, _res) = parse("let x = 1; let y = {x};");
    assert_eq!(
        code,
        dedent(
            r#"
    let $abc$var$x = 1;
    let $abc$var$y = {
        x: $abc$var$x
    };
    "#
        )
    );

    let (_collect, code, _res) = parse("exports = 2; let x = 1; let y = {x};");
    assert_eq!(
        code,
        dedent(
            r#"
    exports = 2;
    let x = 1;
    let y = {
        x
    };
    "#
        )
    );
}

#[test]
fn a_required_member_that_is_called() {
    let (_collect, code, res) = parse("require('other').foo();");
    assert_eq!(
        code,
        dedent(
            r#"
    import   "abc:other";
    $abc$import$558d6cfb8af8a010$ba02ad2230917043();
    "#
        )
    );
    assert_eq!(
        imported_symbols(&res),
        map1("$abc$import$558d6cfb8af8a010$ba02ad2230917043", (w("other"), w("foo")))
    );
}

#[test]
fn a_default_export_that_requires() {
    let (_collect, code, _res) = parse("export default require('a').b;");
    assert_eq!(
        code,
        dedent(
            r#"
    import   "abc:a";
    var $abc$export$default = $abc$import$7ac649919d1c80a6$a91ade93898ecc38;
    "#
        )
    );
}

#[test]
fn imports_queued_in_an_exported_declaration_come_before_it() {
    let (_collect, code, res) = parse("export function f() { return require('a') }");
    assert_eq!(
        code,
        dedent(
            r#"
    import   "abc:a";
    function $abc$export$f() {
        return $abc$import$7ac649919d1c80a6;
    }
    "#
        )
    );
    assert_eq!(imported_symbols(&res), map1("$abc$import$7ac649919d1c80a6", (w("a"), w("*"))));

    let (_collect, code, _res) = parse(
        r#"
    export function f() { return require('a') }
    g();
    "#,
    );
    assert_eq!(
        code,
        dedent(
            r#"
    import   "abc:a";
    function $abc$export$f() {
        return $abc$import$7ac649919d1c80a6;
    }
    g();
    "#
        )
    );

    let (_collect, code, _res) = parse("export default function () { return require('a') }");
    assert_eq!(
        code,
        dedent(
            r#"
    import   "abc:a";
    function $abc$export$default() {
        return $abc$import$7ac649919d1c80a6;
    }
    "#
        )
    );
}

#[test]
fn an_ignored_require_is_no_require() {
    let mut decls = KeySet::new();
    decls.insert(IdentId::new("declared", vec![TOP]));
    let call = |ctxt: Vec<u32>| {
        node(
            Kind::Call,
            "",
            vec![],
            Span { lo: 0, hi: 12 },
            0,
            vec![
                node(Kind::Ident, "require", ctxt, Span { lo: 0, hi: 7 }, 0, vec![]),
                node(Kind::Str, "a", vec![], Span { lo: 8, hi: 11 }, 0, vec![]),
            ],
        )
    };
    assert_eq!(match_require(&call(vec![TOP]), &decls, IGNORE), Some(w("a")));
    assert_eq!(match_require(&call(vec![TOP, IGNORE]), &decls, IGNORE), None);
    assert_eq!(match_require(&call(vec![IGNORE, TOP]), &decls, IGNORE), None);
    assert_eq!(match_require(&call(vec![IGNORE, 0, TOP]), &decls, IGNORE), Some(w("a")));
    assert_eq!(match_import(&call(vec![TOP]), IGNORE), None);

    let collect = Collect::new(decls, IGNORE);
    assert_eq!(collect.match_require(&call(vec![])), Some(w("a")));
    assert_eq!(collect.match_require(&call(vec![IGNORE])), None);

    assert!(check_marked(&vec![3, 5, 7], 5));
    assert!(!check_marked(&vec![3, 5, 7], 0));
    assert!(!check_marked(&vec![3, 0, 7], 3));
    assert!(!check_marked(&vec![], 3));
}

#[test]
fn a_declared_require_is_no_require() {
    let (collect, code, _res) = parse("function f(require) { const x = require('a'); return x }");
    assert_eq!(imports(&collect), HashMap::new());
    assert_eq!(
        code,
        dedent(
            r#"
    function $abc$var$f(require) {
        const x = require('a');
        return x;
    }
    "#
        )
    );
}

#[test]
fn a_spread_argument_is_read_through() {
    let (module, decls, _session) = read("require('a');");
    let mut call = module.children[0].children[0].deep_clone();
    let arg = call.children.pop().unwrap();
    call.children.push(node(Kind::Spread, "", vec![], arg.span, 0, vec![arg]));
    assert_eq!(match_require(&call, &decls, IGNORE), Some(w("a")));
}

#[test]
fn patterns_that_bind_a_name() {
    let decls = KeySet::new();
    let (module, _, _session) = read("var [a, {b: [exports], c}, ...d] = x; var {e, ...f} = y;");
    let first = &module.children[0].children[0].children[0];
    let second = &module.children[1].children[0].children[0];
    assert!(has_binding_identifier(first, "exports", &decls));
    assert!(has_binding_identifier(first, "a", &decls));
    assert!(has_binding_identifier(first, "c", &decls));
    assert!(has_binding_identifier(first, "d", &decls));
    assert!(!has_binding_identifier(first, "b", &decls));
    assert!(has_binding_identifier(second, "e", &decls));
    assert!(has_binding_identifier(second, "f", &decls));

    let mut declared = KeySet::new();
    declared.insert(IdentId::new("e", second.children[0].ctxt.clone()));
    assert!(!has_binding_identifier(second, "e", &declared));
}

#[test]
fn an_unsupported_default_export_is_an_error() {
    let interface = node(Kind::Other, "", vec![], Span { lo: 15, hi: 30 }, 0, vec![]);
    let item = node(Kind::ExportDefaultDecl, "", vec![], Span { lo: 0, hi: 30 }, 0, vec![interface]);
    let module = node(Kind::Module, "", vec![], Span { lo: 0, hi: 30 }, 0, vec![item]);
    let r = hoist(module.deep_clone(), "abc", KeySet::new(), IGNORE, TOP);
    assert!(matches!(r, Err(HoistError::UnsupportedDefaultExport)));

    let collect = Collect::new(KeySet::new(), IGNORE);
    let mut h = Hoist::new("abc", &collect, TOP);
    assert!(matches!(h.try_fold_module(&module), Err(HoistError::UnsupportedDefaultExport)));
    assert_eq!(h.error, Some(HoistError::UnsupportedDefaultExport));

    let mut collect = Collect::new(KeySet::new(), IGNORE);
    assert!(matches!(collect.try_visit_module(&module), Err(HoistError::UnsupportedDefaultExport)));
    assert_eq!(collect.error, Some(HoistError::UnsupportedDefaultExport));
    let (module, decls, session) = read("export default function f() {}");
    let mut collect = Collect::new(decls, session.ignore);
    assert!(collect.try_visit_module(&module).is_ok());
    assert_eq!(collect.is_esm, true);
}

#[test]
fn a_dynamic_export_write_that_the_analysis_has_not_seen_is_an_error() {
    let (module, decls, session) = read("import('x').then(cb, exports[k] = 1);");
    let r = hoist(module, "abc", decls, session.ignore, session.top);
    assert!(matches!(r, Err(HoistError::DynamicExportWrite)));

    let (module, decls, session) = read("import('x').then(cb, exports.k = 1);");
    assert!(hoist(module, "abc", decls, session.ignore, session.top).is_ok());

    let (collect, code, _res) = parse("var {a = (exports[k] = 1)} = o;");
    assert!(!collect.static_cjs_exports && collect.has_cjs_exports);
    assert_eq!(code, "var { a: $abc$var$a = ($abc$exports[k] = 1)  } = o;\n");
}

#[test]
fn an_export_that_the_analysis_has_not_seen_is_an_error() {
    let (module, decls, session) = read("let x = 1; export {x};");
    let collect = Collect::new(decls, session.ignore);
    let mut h = Hoist::new("abc", &collect, session.top);
    assert!(matches!(h.try_fold_module(&module), Err(HoistError::UnknownExport)));
    assert_eq!(h.error, Some(HoistError::UnknownExport));
}

#[test]
fn the_first_error_stays() {
    let (module, decls, session) = read("let x = 1; export {x}; var {a = (exports[k] = 1)} = o;");
    let collect = Collect::new(decls, session.ignore);
    let mut h = Hoist::new("abc", &collect, session.top);
    assert!(matches!(h.try_fold_module(&module), Err(HoistError::UnknownExport)));
    assert_eq!(h.error, Some(HoistError::UnknownExport));
}

#[test]
fn the_result_before_any_rewrite_is_empty() {
    let res = HoistResult::default();
    assert_eq!(res.imported_symbols.len(), 0);
    assert_eq!(res.exported_symbols.len(), 0);
    assert_eq!(res.re_exports.len(), 0);
    assert_eq!(res.self_references.len(), 0);
    assert_eq!(res.wrapped_requires.len(), 0);
    assert_eq!(res.dynamic_imports.len(), 0);
    assert!(!res.static_cjs_exports && !res.has_cjs_exports && !res.should_wrap);
}

#[test]
fn the_result_carries_the_flags_of_the_analysis() {
    let (_module, res, _session) = rewrite("function f() { require('a') } exports.x = 1;");
    assert_eq!(words(&res.wrapped_requires), set(&["a"]));
    assert!(res.static_cjs_exports && res.has_cjs_exports && !res.should_wrap);
}

#[test]
fn tables_keep_the_first_place_of_a_key() {
    let mut t: Table<String, String> = Table::new();
    assert_eq!(t.len(), 0);
    assert!(t.get(&w("a")).is_none());
    t.insert(w("a"), w("1"));
    t.insert(w("b"), w("2"));
    t.insert(w("a"), w("3"));
    t.insert_if_absent(w("b"), w("4"));
    t.insert_if_absent(w("c"), w("5"));
    assert_eq!(t.len(), 3);
    assert_eq!(t.get(&w("a")), Some(&w("3")));
    assert_eq!(t.get(&w("b")), Some(&w("2")));
    assert_eq!(t.get(&w("c")), Some(&w("5")));
    assert!(t.contains_key(&w("c")) && !t.contains_key(&w("d")));
    let keys: Vec<String> = (0..t.len()).map(|i| t.entry_at(i).0.clone()).collect();
    assert_eq!(keys, vec![w("a"), w("b"), w("c")]);

    let mut s: KeySet<IdentId> = KeySet::new();
    s.insert(IdentId::new("x", vec![1]));
    s.insert(IdentId::new("x", vec![2]));
    s.insert(IdentId::new("x", vec![1]));
    assert_eq!(s.len(), 2);
    assert!(s.contains(&IdentId::new("x", vec![2])));
    assert!(!s.contains(&IdentId::new("x", vec![])));
    assert!(!s.contains(&IdentId::new("y", vec![1])));
    let copy = s.copy();
    assert_eq!(copy.len(), 2);
    assert_eq!(copy.key_at(1).ctxt, vec![2]);
}

#[test]
fn trees_are_copied_whole() {
    let (module, _, _session) = read("let x = {a: f(1, 'two')};");
    let copy = module.deep_clone();
    assert_eq!(format!("{:?}", copy), format!("{:?}", module));
    let other = module.with_children(vec![]);
    assert_eq!(other.kind, Kind::Module);
    assert_eq!(other.span, module.span);
    assert_eq!(other.children.len(), 0);
    let leaf = Node::leaf(Kind::Ident, "x", vec![TOP], Span { lo: 1, hi: 2 });
    assert_eq!((leaf.sym.as_str(), leaf.tag, leaf.children.len()), ("x", 0, 0));
    let branch = Node::branch(Kind::Not, Span::dummy(), 7, vec![leaf]);
    assert_eq!((branch.sym.as_str(), branch.tag, branch.children.len()), ("", 7, 1));
    assert_eq!(Span::dummy(), Span { lo: 0, hi: 0 });
}

fn print(session: &Session, program: &ast::Module) -> String {
    let mut buf = vec![];
    {
        let writer = Box::new(JsWriter::new(session.source_map.clone(), "\n", &mut buf, None));
        let mut emitter = swc_ecmascript::codegen::Emitter {
            cfg: swc_ecmascript::codegen::Config { minify: false },
            comments: Some(&session.comments),
            cm: session.source_map.clone(),
            wr: writer,
        };
        emitter.emit_module(program).unwrap();
    }
    String::from_utf8(buf).unwrap()
}

const EVERYTHING: &str = r#"
    import def, {named as alias} from 'lib';
    import * as space from 'space';
    class Base { constructor(a, ...rest) { this.a = a; } static make() { return new Base(1, 2); } get size() { return this.a; } set size(v) { this.a = v; } }
    class Derived extends Base { method(x = 1, {y, z: [w]}, ...more) { super.method(x); return `${y}-${w}`; } }
    label: for (let i = 0, j = 10; i < j; i++, j--) { if (i % 2) continue label; else break label; }
    for (const key in obj) { delete obj[key]; }
    for (const item of list) { void item; }
    while (cond()) { do { step(); } while (again()); }
    switch (value) { case 1: one(); break; case two: { inner(); } default: other(); }
    try { risky(); } catch (e) { handle(e); } finally { done(); }
    try { risky(); } catch { handle(); }
    const object = { plain: 1, 'quoted': 2, [computed]: 3, 4: four, short, method() { return 1; }, get g() { return 2; }, set s(v) {}, ...spread };
    const array = [1, , 'two', ...list, [nested], -x, +y, !z, ~w, typeof v];
    const fn = async function* named(a, b) { yield a; yield* b; await c; };
    const arrow = async (a, {b}, [c], ...d) => { return a ? b : c && d || e ?? f; };
    const call = new Thing(...args)(first, ...second).chain?.(x)[index];
    tagged`template ${value} text`;
    x = y += z -= 1, a *= 2;
    let regex = /ab+c/gi, big = 10n, neg = -1.5e3, yes = true, no = false, nothing = null;
    if (a) b(); else if (c) d(); else { e(); }
    throw new Error('message');
    debugger;
    ;
    export { object as thing, array };
    export default class extends Base {}
"#;

#[test]
fn syntax_that_the_pass_does_not_read_is_kept() {
    let source_map = Lrc::new(SourceMap::default());
    let source_file = source_map.new_source_file(FileName::Anon, EVERYTHING.into());
    let comments = SingleThreadedComments::default();
    let mut esconfig = EsConfig::default();
    esconfig.dynamic_import = true;
    esconfig.optional_chaining = true;
    esconfig.nullish_coalescing = true;
    let lexer = Lexer::new(
        Syntax::Es(esconfig),
        swc_ecmascript::parser::JscTarget::Es2020,
        StringInput::from(&*source_file),
        Some(&comments),
    );
    let mut parser = Parser::new_from(lexer);
    let module = match parser.parse_module() {
        Ok(module) => module,
        Err(err) => panic!("{:?}", err),
    };
    let mut session =
        Session { globals: Globals::new(), source_map, comments, codec: Codec::new(), top: 0, ignore: 0 };
    let before = print(&session, &module);
    let mut codec = Codec::new();
    let tree = GLOBALS.set(&session.globals, || codec.encode_module(module));
    session.codec = codec;
    let copy = tree.deep_clone();
    let decoded = GLOBALS.set(&session.globals, || session.codec.decode_module(copy));
    assert_eq!(print(&session, &decoded), before);

    // Rewriting such a module loses no statement either.
    let mut decls = KeySet::new();
    collect_decls(&tree, false, &mut decls);
    let items = tree.children.len();
    let (rewritten, res) = match hoist(tree, "abc", decls, IGNORE, TOP) {
        Ok(r) => r,
        Err(e) => panic!("{:?}", e),
    };
    assert_eq!(rewritten.children.len(), items - 1);
    assert_eq!(re_exports(&res), vec![]);
    let text = emit(&session, rewritten);
    assert!(text.starts_with("import   \"abc:lib\";\nimport   \"abc:space\";\n"), "{}", text);
    assert!(text.contains("class $abc$export$default extends Base {"), "{}", text);
}

#[test]
fn a_property_name_is_no_reference() {
    let (collect, code, res) = parse(
        r#"
    x.global;
    x.exports;
    x().module;
    new.target;
    class A { exports() {} global() {} }
    out: for (;;) { break out; }
    "#,
    );
    assert_eq!(
        code,
        dedent(
            r#"
    x.global;
    x.exports;
    x().module;
    new.target;
    class $abc$var$A {
        exports() {
        }
        global() {
        }
    }
    out: for(;;){
        break out;
    }
    "#
        )
    );
    assert_eq!(res.self_references.len(), 0);
    assert_eq!(res.exported_symbols.len(), 0);
    assert!(!collect.should_wrap && !collect.has_cjs_exports && collect.static_cjs_exports);
    assert_eq!(id_names(&collect.non_static_access), set(&["x"]));

    let (_collect, code, _res) = parse("x[global]; x[exports];");
    assert_eq!(code, "x[$parcel$global];\nx[$abc$exports];\n");

    let (_collect, code, _res) = parse("exports = 2; let o = {global: 1, exports: 2};");
    assert_eq!(code, "exports = 2;\nlet o = {\n    global: 1,\n    exports: 2\n};\n");
}

#[test]
fn a_require_has_one_argument() {
    let (module, decls, session) = read("require('a', x); require(); import('b', y);");
    let call = |i: usize| &module.children[i].children[0];
    assert_eq!(match_require(call(0), &decls, session.ignore), None);
    assert_eq!(match_require(call(1), &decls, session.ignore), None);
    assert_eq!(match_import(call(2), session.ignore), None);

    let (collect, code, res) = parse("let a = require('a', x);");
    assert_eq!(imports(&collect), HashMap::new());
    assert_eq!(code, "let $abc$var$a = require('a', x);\n");
    assert_eq!(res.imported_symbols.len(), 0);
}

#[test]
fn a_pattern_that_binds_exports_under_a_default_or_a_rest() {
    for code in ["[exports = 1] = a;", "[...exports] = a;", "({a: exports = 1} = o);", "({...exports} = o);"] {
        let (collect, _code, _res) = parse(code);
        assert!(collect.should_wrap && collect.has_cjs_exports && !collect.static_cjs_exports, "{}", code);
    }
    for code in ["[other = exports.a] = a;", "var exports; [exports = 1] = a;"] {
        let (collect, _code, _res) = parse(code);
        assert!(!collect.should_wrap, "{}", code);
    }
}

#[test]
fn the_place_of_an_imported_symbol_is_its_first() {
    let (module, decls, session) = read("const ns = require('other');\nns.a;\nns.a;\n");
    let first = module.children[1].children[0].span;
    let second = module.children[2].children[0].span;
    assert!(first.lo < second.lo);
    let (_module, res) = match hoist(module, "abc", decls, session.ignore, session.top) {
        Ok(r) => r,
        Err(e) => panic!("{:?}", e),
    };
    assert_eq!(res.imported_symbols.len(), 1);
    let e = res.imported_symbols.entry_at(0);
    assert_eq!((e.1.source.as_str(), e.1.local.as_str()), ("other", "a"));
    assert_eq!(e.1.loc, first);
}

#[test]
fn the_default_of_a_shorthand_pattern_is_analyzed() {
    let (collect, code, _res) = parse("var {a = require('x')} = o;");
    assert_eq!(words(&collect.wrapped_requires), set(&["x"]));
    assert_eq!(
        code,
        dedent(
            r#"
    import   "abc:x";
    var { a: $abc$var$a = $abc$import$10b1f2ceae7ab64e  } = o;
    "#
        )
    );
}

#[test]
fn a_wrapped_module_reads_none_of_its_exports() {
    let (_collect, _code, res) = parse("eval('x'); exports.a = 1; f(exports.a, module.exports, this.b);");
    assert!(res.should_wrap);
    assert_eq!(res.self_references.len(), 0);
}

#[test]
fn names_that_begin_with_a_dollar_are_made_or_kept() {
    let code = "let $x = 1; $(y, $x); function f($) { return $.z + $q }";
    let (module, _decls, _session) = read(code);
    let mut before = vec![];
    identifiers(&module, &mut before);
    let (rewritten, _res, session) = rewrite(code);
    let mut after = vec![];
    identifiers(&rewritten, &mut after);
    assert!(after.iter().any(|n| n == "$abc$var$$x"));
    assert!(!after.iter().any(|n| n == "$x"));
    for n in &after {
        assert!(
            !n.starts_with('$') || n == "$parcel$global" || matches_schema(n) || before.contains(n),
            "{}",
            n
        );
    }
    assert_eq!(
        emit(&session, rewritten),
        "let $abc$var$$x = 1;\n$(y, $abc$var$$x);\nfunction $abc$var$f($) {\n    return $.z + $q;\n}\n"
    );
}

#[test]
fn a_computed_key_is_rewritten_and_a_plain_key_is_kept() {
    let (_collect, code, _res) = parse("let x = 1; let y = {[x]: 1, x: 2, x() {}, get x() { return x; }};");
    assert_eq!(
        code,
        dedent(
            r#"
    let $abc$var$x = 1;
    let $abc$var$y = {
        [$abc$var$x]: 1,
        x: 2,
        x () {
        },
        get x () {
            return $abc$var$x;
        }
    };
    "#
        )
    );
}

#[test]
fn this_in_a_getter_or_a_setter_is_not_the_exports_object() {
    let (collect, code, res) = parse("let o = { get a() { return this.b; }, set a(v) { this.b = v; } }; this.c = o;");
    assert_eq!(
        code,
        dedent(
            r#"
    let $abc$var$o = {
        get a () {
            return this.b;
        },
        set a (v){
            this.b = v;
        }
    };
    $abc$export$c = $abc$var$o;
    "#
        )
    );
    assert_eq!(collect.static_cjs_exports, true);
    assert_eq!(exported_symbols(&res), map1("c", w("$abc$export$c")));
}

#[test]
fn a_wrapped_module_exports_the_names_of_its_bindings() {
    let (_collect, code, res) = parse("exports = 2; let x = 3; export {x as y};");
    assert_eq!(
        code,
        dedent(
            r#"
    exports = 2;
    let x = 3;
    "#
        )
    );
    assert_eq!(res.should_wrap, true);
    assert_eq!(exported_symbols(&res), map1("y", w("x")));
}

#[test]
fn every_dependency_has_a_bare_import() {
    let (_collect, code, res) = parse(
        r#"
    import {x} from 'a';
    export * from 'b';
    export {y} from 'c';
    function f() { return import('d'); }
    g(x, require('e'), require('f').h);
    "#,
    );
    for source in ["a", "b", "c", "d", "e", "f"] {
        let import = format!("import   \"abc:{}\";\n", source);
        assert_eq!(code.matches(import.as_str()).count(), 1, "{}", source);
    }
    let sources: HashSet<String> = dynamic_imports(&res).values().cloned().collect();
    assert_eq!(sources, set(&["d"]));
    let sources: HashSet<String> = imported_symbols(&res).values().map(|s| s.0.clone()).collect();
    assert_eq!(sources, set(&["a", "d", "e", "f"]));
    let top = "import   \"abc:a\";\nimport   \"abc:b\";\nimport   \"abc:c\";\n";
    assert!(code.starts_with(top));
    let call = code.find("\ng(").unwrap();
    assert!(code.find("import   \"abc:e\";\nimport   \"abc:f\";\n").unwrap() < call);
}
