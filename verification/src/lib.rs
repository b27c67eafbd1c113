//! Building blocks of the Spore type checker, with machine-checked
//! contracts: effect algebra, cost analysis, platform contracts, types,
//! scopes and unification, typing rules of patterns and expression forms,
//! error-set and effect checks, imports, module interfaces and the prelude,
//! and hole dependency planning. The driver that walks a whole module is not part
//! of this library.

pub mod text;
pub mod names;
pub mod effect_set;
pub mod name_map;
pub mod ast;
pub mod ast_eq;
pub mod cost;
pub mod platform;
pub mod hir;
pub mod hole;
pub mod types;
pub mod env;
pub mod module;
pub mod laws;
pub mod error;
pub mod budget;
pub mod lower;
pub mod check;
pub mod pattern;
pub mod expr;
pub mod suggest;
pub mod method;
pub mod bounds;
pub mod module_lookup;
pub mod signature;
pub mod spawns;
pub mod typing;
pub mod prelude_interface;
pub mod import;
pub mod exports;

use vstd::prelude::*;
pub use crate::exports::build_module_interface;
use crate::text::chars_of;
use crate::ast::Module;
use crate::hir::HirModule;
use crate::lower::{Lowering, module_lowerable, items_ok, st_decls, empty_scope};

verus! {

/// `name` is a hole name made up by the checker: `_hole` followed by one or
/// more ASCII digits.
pub open spec fn synthetic_hole_name(s: Seq<char>) -> bool {
    &&& s.len() > 5
    &&& s.take(5) == seq!['_', 'h', 'o', 'l', 'e']
    &&& forall|i: int| 5 <= i < s.len() ==> '0' <= #[trigger] s[i] && s[i] <= '9'
}

/// Whether `name` is a hole name made up by the checker for an unnamed hole.
pub fn is_synthetic_hole_name(name: &str) -> (b: bool)
    ensures
        b == synthetic_hole_name(name@),
{
    let cs = chars_of(name);
    if cs.len() <= 5 {
        return false;
    }
    if !(cs[0] == '_' && cs[1] == 'h' && cs[2] == 'o' && cs[3] == 'l' && cs[4] == 'e') {
        assert(name@.take(5)[0] == cs@[0] && name@.take(5)[1] == cs@[1] && name@.take(5)[2] == cs@[2]
            && name@.take(5)[3] == cs@[3] && name@.take(5)[4] == cs@[4]);
        return false;
    }
    assert(name@.take(5) =~= seq!['_', 'h', 'o', 'l', 'e']);
    let mut i: usize = 5;
    while i < cs.len()
        invariant
            5 <= i <= cs@.len(),
            cs@ == name@,
            forall|k: int| 5 <= k < i ==> '0' <= #[trigger] cs@[k] && cs@[k] <= '9',
        decreases cs.len() - i,
    {
        let c = cs[i];
        if !('0' <= c && c <= '9') {
            return false;
        }
        i = i + 1;
    }
    true
}

/// Lowers a parsed module to HIR with a fresh lowering state.
pub fn lower(module: &Module) -> (r: HirModule)
    requires
        module_lowerable(*module),
    ensures
        items_ok(st_decls(empty_scope(), module.items@), module.items@, r.items@),
{
    let mut lowering = Lowering::new();
    lowering.lower_module(module)
}

} // verus!
