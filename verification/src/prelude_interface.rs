//! The interface of the standard library's prelude, built from the items
//! of its source: written types resolve without aliases or holes counting
//! as variables; type parameters become type variables by position.

use vstd::prelude::*;
use crate::ast::{
    share_predicate, CapabilityDef, FieldDef, FnDef, Item, Module, StructDef, TypeDef, TypeExpr,
    VariantDef,
};
use crate::check::{mapping_views, named_view};
use crate::effect_set::EffectSet;
use crate::exports::{
    IfaceV, bounds_view, empty_iface, fn_bounds, fn_type_params, iface_view, param_types, variants_view,
};
use crate::lower::uses_names;
use crate::module::{
    ModuleInterface, ModuleRegistry, PreludeOptions, SymbolVisibility, builtin_functions, cap_views,
    signature_views, symbol_visibility_of, with_builtins,
};
use crate::name_map::NameMap;
use crate::names::{clone_names, lemma_sorted_unique, sorted, sorted_listing, views};
use crate::text::{str_eq, string_of};
use crate::types::{Ty, TyV, clone_ty, fields_view, lemma_fields_view, lemma_tys_view, ty_view, tys_view};

verus! {

// ---------------------------------------------------------------------------
// Written types
// ---------------------------------------------------------------------------

/// A written type of the prelude, with the type parameters mapped by `m`:
/// primitives by their names, then a type parameter, then a named type; a
/// hole stands for a type of its name (`_` when it has none); `()` is
/// `Unit`; a function type declares no effects.
pub open spec fn prelude_type(m: Map<Seq<char>, TyV>, te: TypeExpr) -> TyV
    decreases te,
{
    match te {
        TypeExpr::Named(n) => named_view(m, n@),
        TypeExpr::Hole(h) => match h {
            Some(n) => TyV::Named(n@),
            None => TyV::Named("_"@),
        },
        TypeExpr::Generic(n, args) => TyV::App(n@, prelude_types(m, args@)),
        TypeExpr::Tuple(ts) => if ts@.len() == 0 {
            TyV::Unit
        } else {
            TyV::Tuple(prelude_types(m, ts@))
        },
        TypeExpr::Function(ps, r, _) => TyV::Fn(prelude_types(m, ps@), Box::new(prelude_type(m, *r)), Seq::empty()),
        TypeExpr::Refinement(b, var, p) => TyV::Refined(Box::new(prelude_type(m, *b)), var@, *p),
        TypeExpr::Record(fs) => TyV::Record(prelude_record(m, fs@)),
    }
}

/// Written types of the prelude, in order.
pub open spec fn prelude_types(m: Map<Seq<char>, TyV>, tes: Seq<TypeExpr>) -> Seq<TyV>
    decreases tes,
{
    if tes.len() == 0 {
        Seq::empty()
    } else {
        prelude_types(m, tes.drop_last()).push(prelude_type(m, tes.last()))
    }
}

/// The fields of a written record type, in order.
pub open spec fn prelude_record(m: Map<Seq<char>, TyV>, fs: Seq<(String, TypeExpr)>) -> Seq<(Seq<char>, TyV)>
    decreases fs,
{
    if fs.len() == 0 {
        Seq::empty()
    } else {
        prelude_record(m, fs.drop_last()).push((fs.last().0@, prelude_type(m, fs.last().1)))
    }
}

/// Each name mapped to the type variable of its position; a later
/// position of the same name wins.
pub open spec fn index_map(ps: Seq<Seq<char>>) -> Map<Seq<char>, TyV>
    decreases ps.len(),
{
    if ps.len() == 0 {
        Map::empty()
    } else {
        index_map(ps.drop_last()).insert(ps.last(), TyV::Var((ps.len() - 1) as u32))
    }
}

fn prelude_ty(te: &TypeExpr, mapping: &NameMap<Ty>) -> (r: Ty)
    ensures
        ty_view(r) == prelude_type(mapping_views(mapping@), *te),
    decreases te,
{
    let ghost m = mapping_views(mapping@);
    match te {
        TypeExpr::Named(name) => {
            let n = name.as_str();
            if str_eq(n, "I32") {
                Ty::I32
            } else if str_eq(n, "I8") {
                Ty::I8
            } else if str_eq(n, "I16") {
                Ty::I16
            } else if str_eq(n, "I64") {
                Ty::I64
            } else if str_eq(n, "U8") {
                Ty::U8
            } else if str_eq(n, "U16") {
                Ty::U16
            } else if str_eq(n, "U32") {
                Ty::U32
            } else if str_eq(n, "U64") {
                Ty::U64
            } else if str_eq(n, "F32") {
                Ty::F32
            } else if str_eq(n, "F64") {
                Ty::F64
            } else if str_eq(n, "Bool") {
                Ty::Bool
            } else if str_eq(n, "Str") {
                Ty::Str
            } else if str_eq(n, "Never") {
                Ty::Never
            } else {
                match mapping.get(n) {
                    Some(t) => clone_ty(t),
                    None => Ty::Named(name.clone()),
                }
            }
        },
        TypeExpr::Hole(h) => match h {
            Some(n) => Ty::Named(n.clone()),
            None => Ty::Named(string_of("_")),
        },
        TypeExpr::Generic(name, args) => Ty::App(name.clone(), prelude_tys(args, mapping)),
        TypeExpr::Tuple(ts) => if ts.len() == 0 {
            Ty::Unit
        } else {
            Ty::Tuple(prelude_tys(ts, mapping))
        },
        TypeExpr::Function(ps, r, _) => {
            let params = prelude_tys(ps, mapping);
            let ret = prelude_ty(r, mapping);
            let caps = EffectSet::new();
            Ty::Fn(params, Box::new(ret), caps)
        },
        TypeExpr::Refinement(b, var, p) => {
            let base = prelude_ty(b, mapping);
            Ty::Refined(Box::new(base), var.clone(), share_predicate(p))
        },
        TypeExpr::Record(fs) => {
            let mut out: Vec<(String, Ty)> = Vec::new();
            let mut i: usize = 0;
            assert(fs@.take(0) =~= Seq::<(String, TypeExpr)>::empty());
            assert(fields_view(out@) =~= Seq::<(Seq<char>, TyV)>::empty());
            #[verifier::loop_isolation(false)]
            while i < fs.len()
                invariant
                    i <= fs@.len(),
                    m == mapping_views(mapping@),
                    fields_view(out@) == prelude_record(m, fs@.take(i as int)),
                decreases fs.len() - i,
            {
                proof {
                    assert(decreases_to!(*te => fs@[i as int].1));
                }
                let t = prelude_ty(&fs[i].1, mapping);
                let ghost prev = out@;
                out.push((fs[i].0.clone(), t));
                proof {
                    lemma_fields_view(out@);
                    assert(out@.drop_last() =~= prev);
                    assert(fs@.take(i + 1).drop_last() =~= fs@.take(i as int));
                }
                i = i + 1;
            }
            assert(fs@.take(fs.len() as int) =~= fs@);
            Ty::Record(out)
        },
    }
}

fn prelude_tys(tes: &Vec<TypeExpr>, mapping: &NameMap<Ty>) -> (r: Vec<Ty>)
    ensures
        tys_view(r@) == prelude_types(mapping_views(mapping@), tes@),
    decreases tes@,
{
    let ghost m = mapping_views(mapping@);
    let mut out: Vec<Ty> = Vec::new();
    let mut i: usize = 0;
    assert(tes@.take(0) =~= Seq::<TypeExpr>::empty());
    assert(tys_view(out@) =~= Seq::<TyV>::empty());
    while i < tes.len()
        invariant
            i <= tes@.len(),
            m == mapping_views(mapping@),
            tys_view(out@) == prelude_types(m, tes@.take(i as int)),
        decreases tes.len() - i,
    {
        let t = prelude_ty(&tes[i], mapping);
        let ghost prev = out@;
        out.push(t);
        proof {
            lemma_tys_view(out@);
            assert(out@.drop_last() =~= prev);
            assert(tes@.take(i + 1).drop_last() =~= tes@.take(i as int));
        }
        i = i + 1;
    }
    assert(tes@.take(tes.len() as int) =~= tes@);
    out
}

/// Maps each name to the type variable of its position.
fn index_mapping(names: &Vec<String>) -> (r: NameMap<Ty>)
    ensures
        mapping_views(r@) == index_map(views(names@)),
{
    let mut m: NameMap<Ty> = NameMap::new();
    let mut i: usize = 0;
    assert(views(names@).take(0) =~= Seq::<Seq<char>>::empty());
    assert(mapping_views(m@) =~= Map::<Seq<char>, TyV>::empty());
    while i < names.len()
        invariant
            i <= names@.len(),
            mapping_views(m@) == index_map(views(names@).take(i as int)),
        decreases names.len() - i,
    {
        let ghost before = m@;
        m.insert(names[i].clone(), Ty::Var(i as u32));
        proof {
            let ps = views(names@).take(i + 1);
            assert(ps.drop_last() =~= views(names@).take(i as int));
            assert(ps.last() == names@[i as int]@);
            assert(mapping_views(m@) =~= mapping_views(before).insert(names@[i as int]@, TyV::Var(i as u32)));
        }
        i = i + 1;
    }
    assert(views(names@).take(names.len() as int) =~= views(names@));
    m
}


// ---------------------------------------------------------------------------
// What the items add
// ---------------------------------------------------------------------------

/// The prelude interface as values: the interface, and each function's
/// declared errors.
pub struct PreludeV {
    pub iface: IfaceV,
    pub errors: Map<Seq<char>, Set<Seq<char>>>,
}

/// The errors a list of written error types names: the plain names.
pub open spec fn named_errors(es: Seq<TypeExpr>) -> Set<Seq<char>>
    decreases es.len(),
{
    if es.len() == 0 {
        Set::empty()
    } else {
        let rest = named_errors(es.drop_last());
        match es.last() {
            TypeExpr::Named(n) => rest.insert(n@),
            _ => rest,
        }
    }
}

/// A prelude function's signature: parameter types, then the return type
/// (`()` when none is written), with its type parameters, those its bounds
/// name included, as variables in increasing name order.
pub open spec fn prelude_sig(f: FnDef) -> (Seq<TyV>, TyV) {
    let m = index_map(fn_type_params(f));
    (
        prelude_types(m, param_types(f.params@)),
        match f.return_type {
            Some(t) => prelude_type(m, t),
            None => TyV::Unit,
        },
    )
}

/// What a function adds: its signature, declared effects, declared errors
/// (when it declares any), type parameters and bounds (when it has any),
/// and visibility.
pub open spec fn prelude_fn_step(st: PreludeV, f: FnDef) -> PreludeV {
    let n = f.name@;
    let tps = fn_type_params(f);
    let bs = fn_bounds(f);
    PreludeV {
        iface: IfaceV {
            functions: st.iface.functions.insert(n, prelude_sig(f)),
            function_caps: st.iface.function_caps.insert(n, uses_names(f.uses_clause)),
            function_type_params: if tps.len() > 0 {
                st.iface.function_type_params.insert(n, tps)
            } else {
                st.iface.function_type_params
            },
            function_where_bounds: if bs.len() > 0 {
                st.iface.function_where_bounds.insert(n, bs)
            } else {
                st.iface.function_where_bounds
            },
            visibilities: st.iface.visibilities.insert(n, symbol_visibility_of(f.visibility)),
            ..st.iface
        },
        errors: if f.errors@.len() > 0 {
            st.errors.insert(n, named_errors(f.errors@))
        } else {
            st.errors
        },
    }
}

/// A struct's fields, their types resolved with no type parameters.
pub open spec fn prelude_fields(fs: Seq<FieldDef>) -> Seq<(Seq<char>, TyV)> {
    fs.map_values(|fd: FieldDef| (fd.name@, prelude_type(Map::empty(), fd.ty)))
}

/// A sum type's variants, their field types resolved with its type
/// parameters as variables by position.
pub open spec fn prelude_variants(m: Map<Seq<char>, TyV>, vs: Seq<VariantDef>) -> Seq<(Seq<char>, Seq<TyV>)> {
    vs.map_values(|v: VariantDef| (v.name@, prelude_types(m, v.fields@)))
}

/// What an item adds: functions, structs and sum types their declarations,
/// capabilities their names; each its visibility. Other items add nothing.
pub open spec fn prelude_step(st: PreludeV, it: Item) -> PreludeV {
    match it {
        Item::Function(f) => prelude_fn_step(st, f),
        Item::StructDef(d) => PreludeV {
            iface: IfaceV {
                structs: st.iface.structs.insert(d.name@, prelude_fields(d.fields@)),
                struct_type_params: if d.type_params@.len() > 0 {
                    st.iface.struct_type_params.insert(d.name@, views(d.type_params@))
                } else {
                    st.iface.struct_type_params
                },
                visibilities: st.iface.visibilities.insert(d.name@, symbol_visibility_of(d.visibility)),
                ..st.iface
            },
            ..st
        },
        Item::TypeDef(d) => PreludeV {
            iface: IfaceV {
                types: st.iface.types.insert(
                    d.name@,
                    prelude_variants(index_map(views(d.type_params@)), d.variants@),
                ),
                visibilities: st.iface.visibilities.insert(d.name@, symbol_visibility_of(d.visibility)),
                ..st.iface
            },
            ..st
        },
        Item::CapabilityDef(c) => PreludeV {
            iface: IfaceV {
                capabilities: st.iface.capabilities.insert(c.name@),
                visibilities: st.iface.visibilities.insert(c.name@, symbol_visibility_of(c.visibility)),
                ..st.iface
            },
            ..st
        },
        _ => st,
    }
}

/// The prelude interface built from the items in order.
pub open spec fn prelude_items(its: Seq<Item>) -> PreludeV
    decreases its.len(),
{
    if its.len() == 0 {
        PreludeV { iface: empty_iface(), errors: Map::empty() }
    } else {
        prelude_step(prelude_items(its.drop_last()), its.last())
    }
}

/// What the interface's error sets hold.
pub open spec fn error_views(m: Map<Seq<char>, EffectSet>) -> Map<Seq<char>, Set<Seq<char>>> {
    m.map_values(|e: EffectSet| e@)
}

/// The builder leaves the path and the handlers alone.
pub open spec fn prelude_frame(a: ModuleInterface, b: ModuleInterface) -> bool {
    &&& b.path == a.path
    &&& b.handlers == a.handlers
}

/// The named error types among `es`.
fn collect_named_errors(es: &Vec<TypeExpr>) -> (r: EffectSet)
    ensures
        r@ == named_errors(es@),
{
    let mut out = EffectSet::new();
    let mut i: usize = 0;
    assert(es@.take(0) =~= Seq::<TypeExpr>::empty());
    while i < es.len()
        invariant
            i <= es@.len(),
            out@ == named_errors(es@.take(i as int)),
        decreases es.len() - i,
    {
        assert(es@.take(i + 1).drop_last() =~= es@.take(i as int));
        assert(es@.take(i + 1).last() == es@[i as int]);
        match &es[i] {
            TypeExpr::Named(n) => {
                out.insert(n.clone());
            },
            _ => {},
        }
        i = i + 1;
    }
    assert(es@.take(es.len() as int) =~= es@);
    out
}

/// A function's type parameters with those its bounds name, in increasing
/// order, each once.
fn function_type_params(f: &FnDef) -> (r: Vec<String>)
    ensures
        views(r@) == fn_type_params(*f),
{
    let mut params = EffectSet::from_names(clone_names(f.type_params.as_slice()));
    let ghost vars = f.where_clause@.map_values(|c: crate::ast::TypeConstraint| c.type_var@);
    let mut i: usize = 0;
    assert(vars.take(0).to_set() =~= Set::<Seq<char>>::empty());
    assert(params@ =~= views(f.type_params@).to_set() + vars.take(0).to_set());
    while i < f.where_clause.len()
        invariant
            i <= f.where_clause@.len(),
            vars == f.where_clause@.map_values(|c: crate::ast::TypeConstraint| c.type_var@),
            params@ == views(f.type_params@).to_set() + vars.take(i as int).to_set(),
        decreases f.where_clause.len() - i,
    {
        params.insert(f.where_clause[i].type_var.clone());
        assert(vars.take(i + 1) =~= vars.take(i as int).push(vars[i as int]));
        proof {
            vars.take(i as int).lemma_push_to_set_commute(vars[i as int]);
        }
        assert(params@ =~= views(f.type_params@).to_set() + vars.take(i + 1).to_set());
        i = i + 1;
    }
    assert(vars.take(f.where_clause.len() as int) =~= vars);
    let listed = clone_names(params.iter());
    proof {
        assert(sorted(views(listed@)) && views(listed@).to_set() == params@);
        assert(sorted(sorted_listing(params@)) && sorted_listing(params@).to_set() == params@);
        lemma_sorted_unique(views(listed@), sorted_listing(params@));
    }
    listed
}

/// A function's bounds, in order.
fn function_bounds(f: &FnDef) -> (r: Vec<(String, String)>)
    ensures
        bounds_view(r@) == fn_bounds(*f),
{
    let mut bounds: Vec<(String, String)> = Vec::new();
    let mut j: usize = 0;
    while j < f.where_clause.len()
        invariant
            j <= f.where_clause@.len(),
            bounds@.len() == j,
            forall|k: int|
                0 <= k < j ==> (#[trigger] bounds@[k]).0@ == f.where_clause@[k].type_var@
                    && bounds@[k].1@ == f.where_clause@[k].bound@,
        decreases f.where_clause.len() - j,
    {
        let c = &f.where_clause[j];
        bounds.push((c.type_var.clone(), c.bound.clone()));
        j = j + 1;
    }
    assert(bounds_view(bounds@) =~= fn_bounds(*f));
    bounds
}

fn add_prelude_function(iface: &mut ModuleInterface, f: &FnDef)
    ensures
        ({
            let st = prelude_fn_step(
                PreludeV { iface: iface_view(*old(iface)), errors: error_views(old(iface).function_errors@) },
                *f,
            );
            &&& iface_view(*final(iface)) == st.iface
            &&& error_views(final(iface).function_errors@) == st.errors
        }),
        prelude_frame(*old(iface), *final(iface)),
{
    let ghost st = iface_view(*iface);
    let ghost errs0 = error_views(iface.function_errors@);
    let ghost n = f.name@;
    let tps = function_type_params(f);
    let mapping = index_mapping(&tps);
    let mut ps: Vec<Ty> = Vec::new();
    let ghost pts = param_types(f.params@);
    let ghost m = index_map(fn_type_params(*f));
    let mut i: usize = 0;
    assert(pts.take(0) =~= Seq::<TypeExpr>::empty());
    assert(tys_view(ps@) =~= Seq::<TyV>::empty());
    while i < f.params.len()
        invariant
            i <= f.params@.len(),
            pts == param_types(f.params@),
            mapping_views(mapping@) == m,
            tys_view(ps@) == prelude_types(m, pts.take(i as int)),
        decreases f.params.len() - i,
    {
        let t = prelude_ty(&f.params[i].ty, &mapping);
        let ghost prev = ps@;
        ps.push(t);
        proof {
            lemma_tys_view(ps@);
            assert(ps@.drop_last() =~= prev);
            assert(pts.take(i + 1).drop_last() =~= pts.take(i as int));
            assert(pts.take(i + 1).last() == f.params@[i as int].ty);
        }
        i = i + 1;
    }
    assert(pts.take(f.params.len() as int) =~= pts);
    let r = match &f.return_type {
        Some(t) => prelude_ty(t, &mapping),
        None => Ty::Unit,
    };
    iface.functions.insert(f.name.clone(), (ps, r));
    let caps = match &f.uses_clause {
        Some(resources) => EffectSet::from_names(clone_names(resources.as_slice())),
        None => EffectSet::new(),
    };
    assert(caps@ == uses_names(f.uses_clause));
    iface.function_caps.insert(f.name.clone(), caps);
    if f.errors.len() > 0 {
        let errors = collect_named_errors(&f.errors);
        iface.function_errors.insert(f.name.clone(), errors);
    }
    let bounds = function_bounds(f);
    if bounds.len() > 0 {
        iface.function_where_bounds.insert(f.name.clone(), bounds);
    }
    if tps.len() > 0 {
        iface.function_type_params.insert(f.name.clone(), tps);
    }
    iface.set_visibility(f.name.as_str(), SymbolVisibility::from(&f.visibility));
    assert(iface_view(*iface).functions =~= st.functions.insert(n, prelude_sig(*f)));
    assert(iface_view(*iface).function_caps =~= st.function_caps.insert(n, uses_names(f.uses_clause)));
    assert(iface_view(*iface).function_type_params =~= if fn_type_params(*f).len() > 0 {
        st.function_type_params.insert(n, fn_type_params(*f))
    } else {
        st.function_type_params
    });
    assert(iface_view(*iface).function_where_bounds =~= if fn_bounds(*f).len() > 0 {
        st.function_where_bounds.insert(n, fn_bounds(*f))
    } else {
        st.function_where_bounds
    });
    assert(iface_view(*iface).types =~= st.types);
    assert(iface_view(*iface).structs =~= st.structs);
    assert(iface_view(*iface).struct_type_params =~= st.struct_type_params);
    assert(iface_view(*iface).capability_methods =~= st.capability_methods);
    assert(error_views(iface.function_errors@) =~= if f.errors@.len() > 0 {
        errs0.insert(n, named_errors(f.errors@))
    } else {
        errs0
    });
}

fn add_prelude_struct(iface: &mut ModuleInterface, d: &StructDef)
    ensures
        ({
            let st = prelude_step(
                PreludeV { iface: iface_view(*old(iface)), errors: error_views(old(iface).function_errors@) },
                Item::StructDef(*d),
            );
            &&& iface_view(*final(iface)) == st.iface
            &&& error_views(final(iface).function_errors@) == st.errors
        }),
        prelude_frame(*old(iface), *final(iface)),
{
    let ghost st = iface_view(*iface);
    let mapping: NameMap<Ty> = NameMap::new();
    assert(mapping_views(mapping@) =~= Map::<Seq<char>, TyV>::empty());
    let mut fields: Vec<(String, Ty)> = Vec::new();
    let mut i: usize = 0;
    while i < d.fields.len()
        invariant
            i <= d.fields@.len(),
            mapping_views(mapping@) == Map::<Seq<char>, TyV>::empty(),
            fields_view(fields@) == prelude_fields(d.fields@.take(i as int)),
        decreases d.fields.len() - i,
    {
        let t = prelude_ty(&d.fields[i].ty, &mapping);
        let ghost prev = fields@;
        fields.push((d.fields[i].name.clone(), t));
        proof {
            lemma_fields_view(fields@);
            assert(fields@.drop_last() =~= prev);
            assert(prelude_fields(d.fields@.take(i + 1)) =~= prelude_fields(d.fields@.take(i as int)).push(
                (d.fields@[i as int].name@, prelude_type(Map::empty(), d.fields@[i as int].ty)),
            ));
        }
        i = i + 1;
    }
    assert(d.fields@.take(d.fields.len() as int) =~= d.fields@);
    iface.structs.insert(d.name.clone(), fields);
    if d.type_params.len() > 0 {
        iface.struct_type_params.insert(d.name.clone(), clone_names(d.type_params.as_slice()));
    }
    iface.set_visibility(d.name.as_str(), SymbolVisibility::from(&d.visibility));
    assert(iface_view(*iface).structs =~= st.structs.insert(d.name@, prelude_fields(d.fields@)));
    assert(iface_view(*iface).struct_type_params =~= if d.type_params@.len() > 0 {
        st.struct_type_params.insert(d.name@, views(d.type_params@))
    } else {
        st.struct_type_params
    });
    assert(iface_view(*iface).functions =~= st.functions);
    assert(iface_view(*iface).function_caps =~= st.function_caps);
    assert(iface_view(*iface).function_type_params =~= st.function_type_params);
    assert(iface_view(*iface).function_where_bounds =~= st.function_where_bounds);
    assert(iface_view(*iface).types =~= st.types);
    assert(iface_view(*iface).capability_methods =~= st.capability_methods);
}

fn add_prelude_type(iface: &mut ModuleInterface, d: &TypeDef)
    ensures
        ({
            let st = prelude_step(
                PreludeV { iface: iface_view(*old(iface)), errors: error_views(old(iface).function_errors@) },
                Item::TypeDef(*d),
            );
            &&& iface_view(*final(iface)) == st.iface
            &&& error_views(final(iface).function_errors@) == st.errors
        }),
        prelude_frame(*old(iface), *final(iface)),
{
    let ghost st = iface_view(*iface);
    let mapping = index_mapping(&d.type_params);
    let ghost m = index_map(views(d.type_params@));
    let mut variants: Vec<(String, Vec<Ty>)> = Vec::new();
    let mut i: usize = 0;
    assert(variants_view(variants@) =~= prelude_variants(m, d.variants@.take(0)));
    while i < d.variants.len()
        invariant
            i <= d.variants@.len(),
            mapping_views(mapping@) == m,
            variants_view(variants@) == prelude_variants(m, d.variants@.take(i as int)),
        decreases d.variants.len() - i,
    {
        let ts = prelude_tys(&d.variants[i].fields, &mapping);
        let ghost prev = variants@;
        variants.push((d.variants[i].name.clone(), ts));
        assert(variants_view(variants@) =~= variants_view(prev).push((d.variants@[i as int].name@, tys_view(ts@))));
        assert(prelude_variants(m, d.variants@.take(i + 1)) =~= prelude_variants(m, d.variants@.take(i as int)).push(
            (d.variants@[i as int].name@, prelude_types(m, d.variants@[i as int].fields@)),
        ));
        i = i + 1;
    }
    assert(d.variants@.take(d.variants.len() as int) =~= d.variants@);
    iface.types.insert(d.name.clone(), variants);
    iface.set_visibility(d.name.as_str(), SymbolVisibility::from(&d.visibility));
    assert(iface_view(*iface).types =~= st.types.insert(d.name@, prelude_variants(m, d.variants@)));
    assert(iface_view(*iface).functions =~= st.functions);
    assert(iface_view(*iface).function_caps =~= st.function_caps);
    assert(iface_view(*iface).function_type_params =~= st.function_type_params);
    assert(iface_view(*iface).function_where_bounds =~= st.function_where_bounds);
    assert(iface_view(*iface).structs =~= st.structs);
    assert(iface_view(*iface).struct_type_params =~= st.struct_type_params);
    assert(iface_view(*iface).capability_methods =~= st.capability_methods);
}

fn add_prelude_capability(iface: &mut ModuleInterface, c: &CapabilityDef)
    ensures
        ({
            let st = prelude_step(
                PreludeV { iface: iface_view(*old(iface)), errors: error_views(old(iface).function_errors@) },
                Item::CapabilityDef(*c),
            );
            &&& iface_view(*final(iface)) == st.iface
            &&& error_views(final(iface).function_errors@) == st.errors
        }),
        prelude_frame(*old(iface), *final(iface)),
{
    let ghost st = iface_view(*iface);
    iface.capabilities.insert(c.name.clone());
    iface.set_visibility(c.name.as_str(), SymbolVisibility::from(&c.visibility));
    assert(iface_view(*iface).functions =~= st.functions);
    assert(iface_view(*iface).function_caps =~= st.function_caps);
    assert(iface_view(*iface).function_type_params =~= st.function_type_params);
    assert(iface_view(*iface).function_where_bounds =~= st.function_where_bounds);
    assert(iface_view(*iface).types =~= st.types);
    assert(iface_view(*iface).structs =~= st.structs);
    assert(iface_view(*iface).struct_type_params =~= st.struct_type_params);
    assert(iface_view(*iface).capability_methods =~= st.capability_methods);
}

/// Builds the interface of the standard library's prelude, `Std.Prelude`,
/// from the items of its source: each function's signature (its type
/// parameters, with those its bounds name, become type variables in
/// increasing name order), declared effects, declared errors, type
/// parameters and bounds; each struct's fields and type parameters; each
/// sum type's variants (its type parameters become variables by position);
/// each capability's name; and everyone's visibility.
pub fn build_prelude_interface(prelude: &Module) -> (r: ModuleInterface)
    ensures
        views(r.path@) == seq!["Std"@, "Prelude"@],
        iface_view(r) == prelude_items(prelude.items@).iface,
        error_views(r.function_errors@) == prelude_items(prelude.items@).errors,
        r.handlers@ == Map::<Seq<char>, crate::env::HandlerInfo>::empty(),
{
    let path: Vec<String> = vec![string_of("Std"), string_of("Prelude")];
    assert(views(path@) =~= seq!["Std"@, "Prelude"@]);
    let mut iface = ModuleInterface::new(path);
    let ghost p = iface.path;
    let items = &prelude.items;
    let mut i: usize = 0;
    assert(items@.take(0) =~= Seq::<Item>::empty());
    assert(iface_view(iface) == empty_iface()) by {
        assert(iface_view(iface).functions =~= Map::empty());
        assert(iface_view(iface).function_caps =~= Map::empty());
        assert(iface_view(iface).function_type_params =~= Map::empty());
        assert(iface_view(iface).function_where_bounds =~= Map::empty());
        assert(iface_view(iface).types =~= Map::empty());
        assert(iface_view(iface).structs =~= Map::empty());
        assert(iface_view(iface).struct_type_params =~= Map::empty());
        assert(iface_view(iface).capability_methods =~= Map::empty());
    }
    assert(error_views(iface.function_errors@) =~= Map::<Seq<char>, Set<Seq<char>>>::empty());
    while i < items.len()
        invariant
            i <= items@.len(),
            iface.path == p,
            views(p@) == seq!["Std"@, "Prelude"@],
            iface.handlers@ == Map::<Seq<char>, crate::env::HandlerInfo>::empty(),
            iface_view(iface) == prelude_items(items@.take(i as int)).iface,
            error_views(iface.function_errors@) == prelude_items(items@.take(i as int)).errors,
        decreases items.len() - i,
    {
        assert(items@.take(i + 1).drop_last() =~= items@.take(i as int));
        assert(items@.take(i + 1).last() == items@[i as int]);
        let ghost before = PreludeV { iface: iface_view(iface), errors: error_views(iface.function_errors@) };
        match &items[i] {
            Item::Function(f) => add_prelude_function(&mut iface, f),
            Item::StructDef(d) => add_prelude_struct(&mut iface, d),
            Item::TypeDef(d) => add_prelude_type(&mut iface, d),
            Item::CapabilityDef(c) => add_prelude_capability(&mut iface, c),
            _ => {},
        }
        i = i + 1;
    }
    assert(items@.take(items.len() as int) =~= items@);
    iface
}


impl ModuleRegistry {
    /// Registers the prelude built from the items of its source, with the
    /// built-in functions added as `register_prelude_from` says: `Std.Prelude`
    /// holds the source's declarations, the builtins (the console ones when
    /// asked for, each requiring `Console`), and `List` as a type.
    pub fn register_prelude_module(&mut self, prelude: &Module, options: PreludeOptions)
        ensures
            final(self).modules_view().dom() == old(self).modules_view().dom().insert("Std.Prelude"@),
            forall|k: Seq<char>|
                k != "Std.Prelude"@ && #[trigger] old(self).modules_view().contains_key(k)
                    ==> final(self).modules_view()[k] == old(self).modules_view()[k],
            ({
                let b = prelude_items(prelude.items@);
                let m = final(self).modules_view()["Std.Prelude"@];
                let v = iface_view(m);
                &&& views(m.path@) == seq!["Std"@, "Prelude"@]
                &&& m.functions@.dom() == b.iface.functions.dom() + builtin_functions(options.include_console)
                &&& signature_views(m.functions@) == with_builtins(b.iface.functions, options.include_console)
                &&& cap_views(m.function_caps@) == if options.include_console {
                    b.iface.function_caps.insert("print"@, set!["Console"@]).insert(
                        "println"@,
                        set!["Console"@],
                    ).insert("read_line"@, set!["Console"@])
                } else {
                    b.iface.function_caps
                }
                &&& m.types@.dom() == b.iface.types.dom().insert("List"@)
                &&& forall|k: Seq<char>| #[trigger] b.iface.types.contains_key(k) ==> v.types[k] == b.iface.types[k]
                &&& !b.iface.types.contains_key("List"@) ==> m.types@["List"@]@.len() == 0
                &&& error_views(m.function_errors@) == b.errors
                &&& v.function_type_params == b.iface.function_type_params
                &&& v.function_where_bounds == b.iface.function_where_bounds
                &&& v.structs == b.iface.structs
                &&& v.struct_type_params == b.iface.struct_type_params
                &&& v.capabilities == b.iface.capabilities
                &&& v.capability_methods == b.iface.capability_methods
                &&& v.visibilities == b.iface.visibilities
                &&& m.handlers@ == Map::<Seq<char>, crate::env::HandlerInfo>::empty()
            }),
            final(self).imports() == old(self).imports(),
    {
        let base = build_prelude_interface(prelude);
        let ghost bv = base;
        proof {
            reveal_strlit("Std");
            reveal_strlit("Prelude");
            reveal_strlit("Std.Prelude");
            reveal_strlit(".");
            reveal_with_fuel(crate::names::join_with, 3);
            assert(views(bv.path@).drop_last() =~= seq!["Std"@]);
            assert(bv.qualified() =~= "Std.Prelude"@);
        }
        self.register_prelude_from(base, options);
        proof {
            let m = self.modules_view()["Std.Prelude"@];
            assert(signature_views(bv.functions@) == iface_view(bv).functions);
            assert(cap_views(bv.function_caps@) == iface_view(bv).function_caps);
            assert(m.types@.dom() == bv.types@.dom().insert("List"@));
            assert forall|k: Seq<char>| #[trigger] iface_view(bv).types.contains_key(k) implies iface_view(m).types[k]
                == iface_view(bv).types[k] by {
                assert(bv.types@.contains_key(k));
                assert(m.types@[k] == bv.types@[k]);
            }
        }
    }
}

} // verus!
