//! The syntax tree that the pass reads and rewrites.
//!
//! A module is a tree of [`Node`]s. Every node has a [`Kind`], and the kinds that
//! the pass interprets fix the number and the meaning of the children. All other
//! syntax is carried as [`Kind::Other`]: the pass walks its children in order and
//! copies everything else.

use vstd::prelude::*;

verus! {

/// A half-open range of byte offsets in the source text.
#[derive(Clone, Copy, Debug, PartialEq, Eq, Structural)]
pub struct Span {
    pub lo: u32,
    pub hi: u32,
}

/// The span of every node that the pass synthesizes.
pub open spec fn dummy_span() -> Span {
    Span { lo: 0, hi: 0 }
}

impl Span {
    /// The span of a synthesized node.
    pub fn dummy() -> (s: Span)
        ensures
            s == dummy_span(),
    {
        Span { lo: 0, hi: 0 }
    }
}

/// What a node is. The comment on each kind gives its children, in order.
#[derive(Clone, Copy, Debug, PartialEq, Eq, Structural)]
pub enum Kind {
    /// The whole module; children: the module items.
    Module,
    /// `import .. from sym`; children: the specifiers.
    Import,
    /// `import { imported as local }`; children: local name, imported name or absent.
    ImportNamed,
    /// `import local`; children: local name.
    ImportDefault,
    /// `import * as local`; children: local name.
    ImportNamespace,
    /// `export { .. }`; children: the specifiers.
    ExportNamed,
    /// `export { .. } from sym`; children: the specifiers.
    ExportFrom,
    /// `orig as exported` in an export list; children: the binding's name, exported name or absent.
    ExportSpec,
    /// `default as exported` in a re-export list; children: exported name.
    ExportSpecDefault,
    /// `* as name` in a re-export list; children: name.
    ExportSpecNamespace,
    /// `export * from sym`; no children.
    ExportAll,
    /// `export default <expr>`; children: the expression.
    ExportDefaultExpr,
    /// `export default function/class`; children: a `FnExpr` or a `ClassExpr`.
    ExportDefaultDecl,
    /// `export <declaration>`; children: the declaration.
    ExportDecl,
    /// Any other module declaration; children are walked in order.
    OtherModuleDecl,
    /// `var`/`let`/`const`; children: the declarators.
    VarDecl,
    /// One declarator; children: the pattern, the initializer or absent.
    VarDeclarator,
    /// A function declaration; children: name, `Function`.
    FnDecl,
    /// A class declaration; children: name, `Class`.
    ClassDecl,
    /// An expression statement; children: the expression.
    ExprStmt,
    /// `return`; children: the argument or absent.
    Return,
    /// A function's parameters and body; children: `Params`, then the body and whatever else.
    Function,
    /// A parameter list; children: one pattern for each parameter.
    Params,
    /// An arrow function; children: `Params`, then the body.
    Arrow,
    /// A class body with its heritage; children are walked in order.
    Class,
    /// An identifier used as an expression.
    Ident,
    /// A string literal; `sym` is its value.
    Str,
    /// `this`.
    This,
    /// `obj.prop`; children: object, property.
    Member,
    /// `obj[prop]`; children: object, property.
    Index,
    /// A call; children: callee, then the arguments.
    Call,
    /// `...expr` in an argument list, an array or an object; children: the expression.
    Spread,
    /// `typeof arg`; children: the argument.
    TypeOf,
    /// `!arg`; children: the argument.
    Not,
    /// A comma expression; children: the expressions.
    Sequence,
    /// An assignment; children: target, value.
    Assign,
    /// `await arg`; children: the argument.
    Await,
    /// A function expression; children: name or absent, `Function`.
    FnExpr,
    /// A class expression; children: name or absent, `Class`.
    ClassExpr,
    /// An object literal; children: the properties.
    Object,
    /// `{ x }` in an object literal; a leaf that holds the identifier.
    Shorthand,
    /// `{ key: value }` in an object literal; children: key, value.
    KeyValue,
    /// A getter in an object literal; children: key, body or absent.
    Getter,
    /// A setter in an object literal; children: key, parameter, body or absent.
    Setter,
    /// A method in an object literal; children: key, `Function`.
    Method,
    /// An identifier that names what a declaration or a specifier stands for: the
    /// name of a function or a class, a name in an import or export specifier.
    Name,
    /// A name that is neither a reference nor a binding: a property key, a
    /// label. The pass copies it.
    Key,
    /// A computed property name; children: the expression.
    Computed,
    /// An identifier that a pattern binds.
    BindingIdent,
    /// An object pattern; children: its properties.
    ObjectPat,
    /// `{ key: value }` in an object pattern; children: key, value pattern.
    KeyValuePat,
    /// `{ key }` or `{ key = value }` in an object pattern; a node that holds the
    /// identifier; children: the default value or absent.
    AssignPatProp,
    /// `{ ...arg }` in an object pattern; children: the pattern.
    RestPatProp,
    /// An array pattern; children: the element patterns.
    ArrayPat,
    /// A pattern with a default; children: pattern, default value.
    AssignPat,
    /// `...arg` in an array pattern or a parameter list; children: the pattern.
    RestPat,
    /// The place of an optional child that is not there.
    Absent,
    /// Syntax that the pass does not interpret; children are walked in order.
    Other,
}

/// One node of the syntax tree.
#[derive(Debug)]
pub struct Node {
    pub kind: Kind,
    /// The symbol of an identifier, the value of a string literal, the source of an
    /// import or a re-export; empty elsewhere.
    pub sym: String,
    /// The marks of the node's lexical-scope context, the outermost first.
    pub ctxt: Vec<u32>,
    pub span: Span,
    /// A label that the pass copies and never reads. Synthesized nodes carry 0,
    /// which on a variable declaration stands for `var`.
    pub tag: u64,
    pub children: Vec<Node>,
}

/// The mathematical value of a [`Node`].
pub struct Tree {
    pub kind: Kind,
    pub sym: Seq<char>,
    pub ctxt: Seq<u32>,
    pub span: Span,
    pub tag: u64,
    pub children: Seq<Tree>,
}

/// The value of a node: its own fields, and the values of its children.
pub open spec fn tree_of(node: Node) -> Tree
    decreases node,
{
    Tree {
        kind: node.kind,
        sym: node.sym@,
        ctxt: node.ctxt@,
        span: node.span,
        tag: node.tag,
        children: Seq::new(
            node.children.len() as nat,
            |i: int|
                if 0 <= i < node.children.len() {
                    tree_of(node.children[i])
                } else {
                    arbitrary()
                },
        ),
    }
}

impl View for Node {
    type V = Tree;

    open spec fn view(&self) -> Tree {
        tree_of(*self)
    }
}

/// The values of a list of nodes.
pub open spec fn trees(nodes: Seq<Node>) -> Seq<Tree> {
    Seq::new(nodes.len(), |i: int| nodes[i]@)
}

/// A node's children are the values of its child nodes.
pub proof fn lemma_children(node: &Node)
    ensures
        node@.children == trees(node.children@),
        node@.children.len() == node.children.len(),
        forall|i: int| 0 <= i < node.children.len() ==> node@.children[i] == (#[trigger] node.children[i])@,
{
    assert(node@.children =~= trees(node.children@));
}

/// A copy of a list of marks.
pub fn copy_marks(marks: &Vec<u32>) -> (out: Vec<u32>)
    ensures
        out@ == marks@,
{
    let mut out: Vec<u32> = Vec::new();
    let mut i: usize = 0;
    while i < marks.len()
        invariant
            i <= marks.len(),
            out@ == marks@.subrange(0, i as int),
        decreases marks.len() - i,
    {
        out.push(marks[i]);
        assert(out@ =~= marks@.subrange(0, i + 1));
        i += 1;
    }
    assert(out@ =~= marks@);
    out
}

impl Node {
    /// A node without children.
    pub fn leaf(kind: Kind, sym: &str, ctxt: Vec<u32>, span: Span) -> (node: Node)
        ensures
            node@ == (Tree { kind, sym: sym@, ctxt: ctxt@, span, tag: 0, children: Seq::empty() }),
    {
        let node = Node { kind, sym: String::from_str(sym), ctxt, span, tag: 0, children: Vec::new() };
        proof {
            lemma_children(&node);
            assert(node@.children =~= Seq::empty());
        }
        node
    }

    /// A node that holds no symbol.
    pub fn branch(kind: Kind, span: Span, tag: u64, children: Vec<Node>) -> (node: Node)
        ensures
            node@ == (Tree {
                kind,
                sym: Seq::empty(),
                ctxt: Seq::empty(),
                span,
                tag,
                children: trees(children@),
            }),
    {
        let node = Node { kind, sym: String::new(), ctxt: Vec::new(), span, tag, children };
        proof {
            lemma_children(&node);
        }
        node
    }

    /// The node with other children in place of its own.
    pub fn with_children(&self, children: Vec<Node>) -> (node: Node)
        ensures
            node@ == (Tree { children: trees(children@), ..self@ }),
    {
        let node = Node {
            kind: self.kind,
            sym: self.sym.clone(),
            ctxt: copy_marks(&self.ctxt),
            span: self.span,
            tag: self.tag,
            children,
        };
        proof {
            lemma_children(&node);
        }
        node
    }

    /// A copy of the node and of everything below it.
    pub fn deep_clone(&self) -> (node: Node)
        ensures
            node@ == self@,
        decreases self,
    {
        let mut children: Vec<Node> = Vec::new();
        let mut i: usize = 0;
        while i < self.children.len()
            invariant
                i <= self.children.len(),
                children.len() == i,
                forall|j: int| 0 <= j < i ==> (#[trigger] children[j])@ == self.children[j]@,
            decreases self.children.len() - i,
        {
            let child = self.children[i].deep_clone();
            children.push(child);
            i += 1;
        }
        let node = self.with_children(children);
        proof {
            lemma_children(self);
            assert(node@.children =~= self@.children);
        }
        node
    }
}

} // verus!
