//! Scope hoisting for one ECMAScript module: an analysis that classifies the
//! module's imports and exports, and a rewrite that renames every top-level
//! binding to a flat, module-unique symbol and lifts the module's dependencies
//! to bare imports.

pub mod analysis;
pub mod collect;
pub mod laws;
pub mod matchers;
pub mod names;
pub mod replay;
pub mod rewrite;
pub mod rewriting;
pub mod tables;
pub mod tree;

pub use crate::analysis::HoistError;
pub use crate::collect::Collect;
pub use crate::rewrite::{Hoist, HoistResult};

use crate::analysis::analyze;
use crate::rewriting::{
    bound_source, declared_lifted, fold_module, has_import, has_plain_exports, hoisted, names_fresh,
    names_in, HoistView,
};
use crate::tables::{IdentId, KeySet};
use crate::tree::Node;
use vstd::prelude::*;

verus! {

/// Analyzes a module and rewrites it for concatenation with other modules:
/// every top-level binding, import reference and export gets a flat name
/// derived from `module_id`, and every dependency becomes a bare import.
///
/// `decls` holds the bindings that the module declares, `ignore_mark` marks the
/// identifiers that are not to be read as `require` or `import`, and
/// `global_mark` is the mark of the module's top-level scope.
///
/// The result is that of the analysis followed by the rewrite, or the first
/// reason for which the module cannot be hoisted: a default export of a
/// declaration that is neither a function nor a class, or an assignment to a
/// computed member of the exports object that the analysis has not seen. Of a
/// result it holds besides:
/// - every import that the rewrite of an item queued stands before that item,
///   so that no queued import is left over at the end;
/// - the rewritten module holds the bare import `import "M:s"` of the source
///   `s` of every import declaration and every re-export of the module;
/// - it holds the bare import of the source of every dynamic import, and of
///   the source of every imported symbol unless that is the source of a
///   binding that the analysis found;
/// - every identifier of the rewritten module that begins with `$` is a
///   generated name, or the replacement of `global`, or the name of an
///   identifier of the module as it was;
/// - every export that the module reads from itself has an exported symbol, and
///   a wrapped module reads none;
/// - every dynamic import is recorded under the name `$M$importAsync$H(s)` of
///   its source `s`;
/// - where the module is not wrapped and exports no binding under two names,
///   the symbol of every exported name `e` is `$M$export$e`, and that of `*` is
///   `$M$exports`.
pub fn hoist(
    module: Node,
    module_id: &str,
    decls: KeySet<IdentId>,
    ignore_mark: u32,
    global_mark: u32,
) -> (r: Result<(Node, HoistResult), HoistError>)
    ensures
        match r {
            Ok((m, result)) => hoisted(module@, module_id@, decls@, ignore_mark, global_mark) == Ok::<
                _,
                HoistError,
            >((m@, result@)),
            Err(e) => hoisted(module@, module_id@, decls@, ignore_mark, global_mark) == Err::<
                (crate::tree::Tree, crate::rewriting::HoistResultView),
                _,
            >(e),
        },
        r is Ok ==> fold_module(
            HoistView::start(module_id@, analyze(module@, decls@, ignore_mark), global_mark),
            module@,
        ).state.requires_in_stmt.len() == 0,
        r matches Ok((m, result)) ==> forall|k: Seq<char>| #[trigger]
            result@.dynamic_imports.contains_key(k) ==> has_import(
                m@.children,
                module_id@,
                result@.dynamic_imports[k],
            ),
        r matches Ok((m, result)) ==> forall|n: Seq<char>| #[trigger]
            result@.imported_symbols.contains_key(n) ==> has_import(
                m@.children,
                module_id@,
                result@.imported_symbols[n].source,
            ) || bound_source(
                analyze(module@, decls@, ignore_mark),
                result@.imported_symbols[n].source,
            ),
        r matches Ok((m, _)) ==> declared_lifted(
            module@,
            module@.children.len() as int,
            module_id@,
            m@.children,
        ),
        r matches Ok((m, _)) ==> names_fresh(m@, module_id@, names_in(module@)),
        r matches Ok((_, result)) ==> {
            &&& result@.self_references_exported()
            &&& result@.should_wrap ==> result@.self_references == Set::<Seq<char>>::empty()
            &&& result@.dynamic_imports_named(module_id@)
            &&& !result@.should_wrap && has_plain_exports(
                analyze(module@, decls@, ignore_mark),
                module@,
            ) ==> result@.exports_named(module_id@)
        },
{
    let mut collect = Collect::new(decls, ignore_mark);
    if let Err(e) = collect.try_visit_module(&module) {
        return Err(e);
    }
    let mut hoist = Hoist::new(module_id, &collect, global_mark);
    match hoist.try_fold_module(&module) {
        Ok(folded) => Ok((folded, hoist.get_result())),
        Err(e) => Err(e),
    }
}

} // verus!
