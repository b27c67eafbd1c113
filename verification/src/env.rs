//! Type environment — maps names to types during type checking.

use vstd::prelude::*;
use crate::effect_set::EffectSet;
use crate::name_map::NameMap;
use crate::types::Ty;

verus! {

/// The binding `name` has in a chain of scopes: that of the innermost scope
/// that binds it.
pub open spec fn lookup_in(scopes: Seq<Map<Seq<char>, Ty>>, name: Seq<char>) -> Option<Ty>
    decreases scopes.len(),
{
    if scopes.len() == 0 {
        None
    } else if scopes.last().contains_key(name) {
        Some(scopes.last()[name])
    } else {
        lookup_in(scopes.drop_last(), name)
    }
}

/// All bindings visible in a chain of scopes, inner scopes shadowing outer.
pub open spec fn visible(scopes: Seq<Map<Seq<char>, Ty>>) -> Map<Seq<char>, Ty>
    decreases scopes.len(),
{
    if scopes.len() == 0 {
        Map::empty()
    } else {
        visible(scopes.drop_last()).union_prefer_right(scopes.last())
    }
}

/// A scoped type environment (symbol table).
///
/// Uses a stack of scopes for lexical scoping: `let` introduces a new
/// binding in the current scope, blocks push/pop scopes.
#[derive(Debug)]
pub struct Env {
    scopes: Vec<NameMap<Ty>>,
}

impl View for Env {
    type V = Seq<Map<Seq<char>, Ty>>;

    closed spec fn view(&self) -> Seq<Map<Seq<char>, Ty>> {
        self.scopes@.map_values(|s: NameMap<Ty>| s@)
    }
}

impl Default for Env {
    fn default() -> (r: Self)
        ensures
            r@ == seq![Map::<Seq<char>, Ty>::empty()],
    {
        Self::new()
    }
}

impl Env {
    /// An environment with one empty (global) scope.
    pub fn new() -> (r: Self)
        ensures
            r@ == seq![Map::<Seq<char>, Ty>::empty()],
    {
        let mut scopes: Vec<NameMap<Ty>> = Vec::new();
        scopes.push(NameMap::new());
        let r = Env { scopes };
        assert(r@ =~= seq![Map::<Seq<char>, Ty>::empty()]);
        r
    }

    /// Push a new scope (entering a block / function body).
    pub fn push_scope(&mut self)
        ensures
            final(self)@ == old(self)@.push(Map::empty()),
    {
        self.scopes.push(NameMap::new());
        assert(self@ =~= old(self)@.push(Map::empty()));
    }

    /// Pop the current scope (leaving a block / function body); with no
    /// scope left, nothing changes.
    pub fn pop_scope(&mut self)
        ensures
            final(self)@ == (if old(self)@.len() > 0 {
                old(self)@.drop_last()
            } else {
                old(self)@
            }),
    {
        let _ = self.scopes.pop();
        assert(self@ =~= (if old(self)@.len() > 0 {
            old(self)@.drop_last()
        } else {
            old(self)@
        }));
    }

    /// Define a name in the current (innermost) scope.
    pub fn define(&mut self, name: String, ty: Ty)
        requires
            old(self)@.len() > 0,
        ensures
            final(self)@ == old(self)@.update(
                old(self)@.len() - 1,
                old(self)@.last().insert(name@, ty),
            ),
    {
        let last = self.scopes.len() - 1;
        let mut scope = NameMap::new();
        std::mem::swap(&mut scope, &mut self.scopes[last]);
        scope.insert(name, ty);
        self.scopes.set(last, scope);
        assert(self@ =~= old(self)@.update(
            old(self)@.len() - 1,
            old(self)@.last().insert(name@, ty),
        ));
    }

    /// Look up a name, searching from innermost scope outward.
    pub fn lookup(&self, name: &str) -> (r: Option<&Ty>)
        ensures
            match r {
                Some(t) => lookup_in(self@, name@) == Some(*t),
                None => lookup_in(self@, name@) is None,
            },
    {
        let mut i = self.scopes.len();
        assert(self@.take(i as int) =~= self@);
        while i > 0
            invariant
                i <= self.scopes@.len(),
                lookup_in(self@, name@) == lookup_in(self@.take(i as int), name@),
            decreases i,
        {
            let scope = &self.scopes[i - 1];
            assert(self@.take(i as int).last() == scope@);
            assert(self@.take(i as int).drop_last() =~= self@.take(i - 1));
            match scope.get(name) {
                Some(t) => {
                    return Some(t);
                },
                None => {},
            }
            i = i - 1;
        }
        assert(self@.take(0) =~= Seq::<Map<Seq<char>, Ty>>::empty());
        None
    }

    /// All bindings visible in the current scope chain (innermost wins), in
    /// increasing name order.
    pub fn all_bindings(&self) -> (r: NameMap<&Ty>)
        ensures
            r@.dom() == visible(self@).dom(),
            forall|k: Seq<char>| #[trigger] r@.contains_key(k) ==> *r@[k] == visible(self@)[k],
    {
        let mut result: NameMap<&Ty> = NameMap::new();
        let mut i: usize = 0;
        while i < self.scopes.len()
            invariant
                i <= self.scopes@.len(),
                result@.dom() == visible(self@.take(i as int)).dom(),
                forall|k: Seq<char>| #[trigger] result@.contains_key(k) ==> *result@[k] == visible(self@.take(i as int))[k],
            decreases self.scopes.len() - i,
        {
            let scope = &self.scopes[i];
            let ghost before = visible(self@.take(i as int));
            let ghost sv = scope@;
            assert(self@.take(i + 1).drop_last() =~= self@.take(i as int));
            assert(self@.take(i + 1).last() == sv);
            let n = scope.len();
            let mut j: usize = 0;
            while j < n
                invariant
                    n == scope.key_seq().len(),
                    sv == scope@,
                    sv.dom() == scope.key_seq().to_set(),
                    j <= n,
                    result@.dom() == before.dom().union(scope.key_seq().take(j as int).to_set()),
                    forall|k: Seq<char>| #[trigger] result@.contains_key(k) ==> *result@[k] == (if scope.key_seq().take(j as int).contains(k) {
                        sv[k]
                    } else {
                        before[k]
                    }),
                decreases n - j,
            {
                let key = scope.key_at(j).clone();
                let val = scope.value_at(j);
                let ghost kv = key@;
                let ghost old_dom = result@.dom();
                result.insert(key, val);
                assert(scope.key_seq().take(j + 1) =~= scope.key_seq().take(j as int).push(kv));
                assert(result@.dom() =~= before.dom().union(scope.key_seq().take(j + 1).to_set())) by {
                    scope.key_seq().take(j as int).lemma_push_to_set_commute(kv);
                }
                assert forall|k: Seq<char>| #[trigger] result@.contains_key(k) implies *result@[k] == (if scope.key_seq().take(j + 1).contains(k) {
                    sv[k]
                } else {
                    before[k]
                }) by {
                    if k != kv {
                        if scope.key_seq().take(j + 1).contains(k) {
                            let q = choose|q: int| 0 <= q < j + 1 && #[trigger] scope.key_seq().take(j + 1)[q] == k;
                            assert(scope.key_seq().take(j as int)[q] == k);
                        }
                        if scope.key_seq().take(j as int).contains(k) {
                            let q = choose|q: int| 0 <= q < j && #[trigger] scope.key_seq().take(j as int)[q] == k;
                            assert(scope.key_seq().take(j + 1)[q] == k);
                        }
                    } else {
                        assert(scope.key_seq().take(j + 1)[j as int] == k);
                    }
                }
                j = j + 1;
            }
            assert(scope.key_seq().take(n as int) =~= scope.key_seq());
            assert(result@.dom() =~= visible(self@.take(i + 1)).dom());
            i = i + 1;
        }
        assert(self@.take(self.scopes@.len() as int) =~= self@);
        result
    }
}

/// Registered signature information for a named handler.
#[derive(Debug)]
pub struct HandlerInfo {
    pub handled_effects: EffectSet,
    pub uses_effects: EffectSet,
    /// Payload fields inferred from handler method access through `self`.
    pub fields: Vec<(String, Ty)>,
    /// Effect name → the handler's methods for it: (name, parameters, return type).
    pub methods: NameMap<Vec<(String, Vec<Ty>, Ty)>>,
}

/// Registered signature information for a method declared in an impl block.
#[derive(Debug)]
pub struct MethodInfo {
    /// Type receiving the implementation, such as `Option[T]` or `Point`.
    pub owner: Ty,
    /// Trait name for trait implementations; absent for inherent methods.
    pub trait_name: Option<String>,
    /// Ordered type parameters introduced by the impl block and method.
    pub type_params: Vec<String>,
    /// Inline bounds attached to the registered type parameters.
    pub generic_bounds: Vec<(String, String)>,
    /// Full method parameter list. Receiver methods retain `self` as the first item.
    pub params: Vec<Ty>,
    pub return_type: Ty,
    pub required_effects: EffectSet,
    pub has_receiver: bool,
}

/// Method signature after owner and generic parameters have been instantiated.
#[derive(Debug)]
pub struct InstantiatedMethod {
    pub params: Vec<Ty>,
    pub return_type: Ty,
    pub required_effects: EffectSet,
    pub generic_bounds: Vec<(String, String)>,
    pub type_mapping: NameMap<Ty>,
}

/// The declarations known to the checker: plain aliases by name, generic
/// aliases with their ordered type parameters and template, sum types with
/// their variants, structs with their fields, the type parameters of
/// generic sum types and structs, function signatures and generic bounds,
/// the methods of impl blocks, traits, and trait implementations.
#[derive(Debug)]
pub struct TypeRegistry {
    /// Type aliases: name → resolved type (refined aliases included).
    pub type_aliases: NameMap<Ty>,
    /// Generic type aliases: name → (ordered type parameters, template).
    pub generic_type_aliases: NameMap<(Vec<String>, Ty)>,
    /// Sum types: name → variants (name, field types).
    pub types: NameMap<Vec<(String, Vec<Ty>)>>,
    /// Type parameters of generic sum types.
    pub type_type_params: NameMap<Vec<String>>,
    /// Structs: name → fields (name, type), in declaration order.
    pub structs: NameMap<Vec<(String, Ty)>>,
    /// Type parameters of generic structs.
    pub struct_type_params: NameMap<Vec<String>>,
    /// Functions: name → (parameter types, result type, required effects).
    pub functions: NameMap<(Vec<Ty>, Ty, EffectSet)>,
    /// Methods declared in impl blocks: name → each declaration, in order.
    pub methods: NameMap<Vec<MethodInfo>>,
    /// Generic bounds of functions: name → (type parameter, trait) pairs.
    pub fn_generic_bounds: NameMap<Vec<(String, String)>>,
    /// Traits: name → (type parameters, methods (name, parameter types,
    /// result type)).
    pub interfaces: NameMap<(Vec<String>, Vec<(String, Vec<Ty>, Ty)>)>,
    /// Trait implementations: trait → implementing type name → methods.
    pub impls: NameMap<NameMap<Vec<(String, Vec<Ty>, Ty)>>>,
    /// Declared error sets of functions.
    pub fn_errors: NameMap<EffectSet>,
    /// Type parameters of generic functions.
    pub fn_type_params: NameMap<Vec<String>>,
    /// Named handlers.
    pub handlers: NameMap<HandlerInfo>,
}

impl TypeRegistry {
    pub fn new() -> (r: Self)
        ensures
            r.type_aliases@ == Map::<Seq<char>, Ty>::empty(),
            r.generic_type_aliases@ == Map::<Seq<char>, (Vec<String>, Ty)>::empty(),
            r.types@ == Map::<Seq<char>, Vec<(String, Vec<Ty>)>>::empty(),
            r.type_type_params@ == Map::<Seq<char>, Vec<String>>::empty(),
            r.structs@ == Map::<Seq<char>, Vec<(String, Ty)>>::empty(),
            r.struct_type_params@ == Map::<Seq<char>, Vec<String>>::empty(),
            r.functions@ == Map::<Seq<char>, (Vec<Ty>, Ty, EffectSet)>::empty(),
            r.methods@ == Map::<Seq<char>, Vec<MethodInfo>>::empty(),
            r.fn_generic_bounds@ == Map::<Seq<char>, Vec<(String, String)>>::empty(),
            r.interfaces@ == Map::<Seq<char>, (Vec<String>, Vec<(String, Vec<Ty>, Ty)>)>::empty(),
            r.impls@ == Map::<Seq<char>, NameMap<Vec<(String, Vec<Ty>, Ty)>>>::empty(),
            r.fn_errors@ == Map::<Seq<char>, EffectSet>::empty(),
            r.fn_type_params@ == Map::<Seq<char>, Vec<String>>::empty(),
            r.handlers@ == Map::<Seq<char>, HandlerInfo>::empty(),
    {
        TypeRegistry {
            type_aliases: NameMap::new(),
            generic_type_aliases: NameMap::new(),
            types: NameMap::new(),
            type_type_params: NameMap::new(),
            structs: NameMap::new(),
            struct_type_params: NameMap::new(),
            functions: NameMap::new(),
            methods: NameMap::new(),
            fn_generic_bounds: NameMap::new(),
            interfaces: NameMap::new(),
            impls: NameMap::new(),
            fn_errors: NameMap::new(),
            fn_type_params: NameMap::new(),
            handlers: NameMap::new(),
        }
    }
}

impl Default for TypeRegistry {
    fn default() -> (r: Self)
        ensures
            r.type_aliases@ == Map::<Seq<char>, Ty>::empty(),
            r.generic_type_aliases@ == Map::<Seq<char>, (Vec<String>, Ty)>::empty(),
            r.types@ == Map::<Seq<char>, Vec<(String, Vec<Ty>)>>::empty(),
            r.type_type_params@ == Map::<Seq<char>, Vec<String>>::empty(),
            r.structs@ == Map::<Seq<char>, Vec<(String, Ty)>>::empty(),
            r.struct_type_params@ == Map::<Seq<char>, Vec<String>>::empty(),
            r.functions@ == Map::<Seq<char>, (Vec<Ty>, Ty, EffectSet)>::empty(),
            r.methods@ == Map::<Seq<char>, Vec<MethodInfo>>::empty(),
            r.fn_generic_bounds@ == Map::<Seq<char>, Vec<(String, String)>>::empty(),
            r.interfaces@ == Map::<Seq<char>, (Vec<String>, Vec<(String, Vec<Ty>, Ty)>)>::empty(),
            r.impls@ == Map::<Seq<char>, NameMap<Vec<(String, Vec<Ty>, Ty)>>>::empty(),
    {
        Self::new()
    }
}

} // verus!
