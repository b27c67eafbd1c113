//! The interface a parsed module presents to its importers: the resolved
//! signatures of its functions, structs, sum types, traits and effects,
//! and the visibility of each.

use vstd::prelude::*;
use crate::ast::{EffectDef, FnDef, Item, Module, Param, StructDef, TypeDef, TypeExpr, CapabilityDef};
use crate::check::{Checker, resolve_spec, resolve_list, resolve_fields, alias_views, generic_alias_views, frame};
use crate::effect_set::{EffectSet, EffectHierarchy, expansion, is_walk};
use crate::lower::uses_names;
use crate::module::{ModuleInterface, SymbolVisibility, symbol_visibility_of};
use crate::name_map::NameMap;
use crate::names::{views, sorted, sorted_listing, clone_names, lemma_sorted_unique};
use crate::text::{chars_of, push_char, string_of};
use crate::types::{Ty, TyV, ty_view, tys_view, fields_view, lemma_tys_view};

verus! {

// ---------------------------------------------------------------------------
// The module path
// ---------------------------------------------------------------------------

/// The parts of `s` between the dots, in order.
pub open spec fn split_dots(s: Seq<char>) -> Seq<Seq<char>>
    decreases s.len(),
{
    if s.len() == 0 {
        seq![Seq::empty()]
    } else if s.last() == '.' {
        split_dots(s.drop_last()).push(Seq::empty())
    } else {
        let p = split_dots(s.drop_last());
        p.update(p.len() - 1, p.last().push(s.last()))
    }
}

/// The path of a module name: none for the empty name, else its
/// dot-separated parts.
pub open spec fn path_of(name: Seq<char>) -> Seq<Seq<char>> {
    if name.len() == 0 {
        Seq::empty()
    } else {
        split_dots(name)
    }
}

proof fn lemma_split_nonempty(s: Seq<char>)
    ensures
        split_dots(s).len() >= 1,
    decreases s.len(),
{
    if s.len() > 0 {
        lemma_split_nonempty(s.drop_last());
    }
}

/// The path of a module name.
fn split_name(name: &str) -> (r: Vec<String>)
    ensures
        views(r@) == path_of(name@),
{
    let cs = chars_of(name);
    let mut parts: Vec<String> = Vec::new();
    if cs.len() == 0 {
        assert(views(parts@) =~= Seq::<Seq<char>>::empty());
        return parts;
    }
    let mut cur = String::new();
    let mut i: usize = 0;
    assert(cur@ =~= Seq::<char>::empty());
    assert(views(parts@) =~= Seq::<Seq<char>>::empty());
    assert(cs@.take(0) =~= Seq::<char>::empty());
    assert(views(parts@).push(cur@) =~= split_dots(cs@.take(0)));
    while i < cs.len()
        invariant
            i <= cs@.len(),
            cs@ == name@,
            views(parts@).push(cur@) == split_dots(cs@.take(i as int)),
        decreases cs.len() - i,
    {
        let c = cs[i];
        assert(cs@.take(i + 1).drop_last() =~= cs@.take(i as int));
        assert(cs@.take(i + 1).last() == c);
        proof {
            lemma_split_nonempty(cs@.take(i as int));
        }
        if c == '.' {
            let ghost before = views(parts@).push(cur@);
            parts.push(cur);
            cur = String::new();
            assert(cur@ =~= Seq::<char>::empty());
            assert(views(parts@) =~= before);
            assert(views(parts@).push(cur@) =~= before.push(Seq::empty()));
        } else {
            let ghost before = views(parts@).push(cur@);
            let ghost old_parts = views(parts@);
            push_char(&mut cur, c);
            assert(views(parts@).push(cur@) =~= before.update(
                before.len() - 1,
                before.last().push(c),
            ));
        }
        i = i + 1;
    }
    assert(cs@.take(cs.len() as int) =~= cs@);
    let ghost before = views(parts@).push(cur@);
    parts.push(cur);
    assert(views(parts@) =~= before);
    parts
}

// ---------------------------------------------------------------------------
// What the interface holds, as values
// ---------------------------------------------------------------------------

/// The interface as mathematical values.
pub struct IfaceV {
    pub functions: Map<Seq<char>, (Seq<TyV>, TyV)>,
    pub function_caps: Map<Seq<char>, Set<Seq<char>>>,
    pub function_type_params: Map<Seq<char>, Seq<Seq<char>>>,
    pub function_where_bounds: Map<Seq<char>, Seq<(Seq<char>, Seq<char>)>>,
    pub types: Map<Seq<char>, Seq<(Seq<char>, Seq<TyV>)>>,
    pub structs: Map<Seq<char>, Seq<(Seq<char>, TyV)>>,
    pub struct_type_params: Map<Seq<char>, Seq<Seq<char>>>,
    pub capabilities: Set<Seq<char>>,
    pub capability_methods: Map<Seq<char>, (Seq<Seq<char>>, Seq<(Seq<char>, Seq<TyV>, TyV)>)>,
    pub visibilities: Map<Seq<char>, SymbolVisibility>,
}

pub open spec fn methods_view(ms: Seq<(String, Vec<Ty>, Ty)>) -> Seq<(Seq<char>, Seq<TyV>, TyV)> {
    ms.map_values(|m: (String, Vec<Ty>, Ty)| (m.0@, tys_view(m.1@), ty_view(m.2)))
}

pub open spec fn variants_view(vs: Seq<(String, Vec<Ty>)>) -> Seq<(Seq<char>, Seq<TyV>)> {
    vs.map_values(|v: (String, Vec<Ty>)| (v.0@, tys_view(v.1@)))
}

pub open spec fn bounds_view(bs: Seq<(String, String)>) -> Seq<(Seq<char>, Seq<char>)> {
    bs.map_values(|b: (String, String)| (b.0@, b.1@))
}

/// The values an interface holds.
pub open spec fn iface_view(m: ModuleInterface) -> IfaceV {
    IfaceV {
        functions: m.functions@.map_values(|p: (Vec<Ty>, Ty)| (tys_view(p.0@), ty_view(p.1))),
        function_caps: m.function_caps@.map_values(|e: EffectSet| e@),
        function_type_params: m.function_type_params@.map_values(|v: Vec<String>| views(v@)),
        function_where_bounds: m.function_where_bounds@.map_values(
            |v: Vec<(String, String)>| bounds_view(v@),
        ),
        types: m.types@.map_values(|v: Vec<(String, Vec<Ty>)>| variants_view(v@)),
        structs: m.structs@.map_values(|v: Vec<(String, Ty)>| fields_view(v@)),
        struct_type_params: m.struct_type_params@.map_values(|v: Vec<String>| views(v@)),
        capabilities: m.capabilities@,
        capability_methods: m.capability_methods@.map_values(
            |p: (Vec<String>, Vec<(String, Vec<Ty>, Ty)>)| (views(p.0@), methods_view(p.1@)),
        ),
        visibilities: m.visibilities@,
    }
}

/// The interface of a module that declares nothing.
pub open spec fn empty_iface() -> IfaceV {
    IfaceV {
        functions: Map::empty(),
        function_caps: Map::empty(),
        function_type_params: Map::empty(),
        function_where_bounds: Map::empty(),
        types: Map::empty(),
        structs: Map::empty(),
        struct_type_params: Map::empty(),
        capabilities: Set::empty(),
        capability_methods: Map::empty(),
        visibilities: Map::empty(),
    }
}

/// The written types of a parameter list.
pub open spec fn param_types(ps: Seq<Param>) -> Seq<TypeExpr> {
    ps.map_values(|p: Param| p.ty)
}

/// A signature resolved from counter `v` with no aliases known: parameter
/// types, then the return type (`()` when none is written); and the
/// counter after.
pub open spec fn sig_spec(v: u32, f: FnDef) -> ((Seq<TyV>, TyV), u32) {
    let (ps, v1, _) = resolve_list(Map::empty(), Map::empty(), v, param_types(f.params@));
    match f.return_type {
        Some(t) => {
            let (r, v2, _) = resolve_spec(Map::empty(), Map::empty(), v1, t);
            ((ps, r), v2)
        },
        None => ((ps, TyV::Unit), v1),
    }
}

/// The signatures of methods or operations, in order.
pub open spec fn sigs_spec(v: u32, fs: Seq<FnDef>) -> (Seq<(Seq<char>, Seq<TyV>, TyV)>, u32)
    decreases fs.len(),
{
    if fs.len() == 0 {
        (Seq::empty(), v)
    } else {
        let (xs, v1) = sigs_spec(v, fs.drop_last());
        let (sig, v2) = sig_spec(v1, fs.last());
        (xs.push((fs.last().name@, sig.0, sig.1)), v2)
    }
}

/// A struct's fields resolved in order.
pub open spec fn struct_fields_spec(v: u32, fs: Seq<crate::ast::FieldDef>) -> (Seq<(Seq<char>, TyV)>, u32)
    decreases fs.len(),
{
    if fs.len() == 0 {
        (Seq::empty(), v)
    } else {
        let (xs, v1) = struct_fields_spec(v, fs.drop_last());
        let (t, v2, _) = resolve_spec(Map::empty(), Map::empty(), v1, fs.last().ty);
        (xs.push((fs.last().name@, t)), v2)
    }
}

/// A sum type's variants with their field types resolved in order.
pub open spec fn variants_spec(v: u32, vs: Seq<crate::ast::VariantDef>) -> (Seq<(Seq<char>, Seq<TyV>)>, u32)
    decreases vs.len(),
{
    if vs.len() == 0 {
        (Seq::empty(), v)
    } else {
        let (xs, v1) = variants_spec(v, vs.drop_last());
        let (ts, v2, _) = resolve_list(Map::empty(), Map::empty(), v1, vs.last().fields@);
        (xs.push((vs.last().name@, ts)), v2)
    }
}

/// A function's type parameters, with those its `where` clause bounds,
/// in increasing order without repeats.
pub open spec fn fn_type_params(f: FnDef) -> Seq<Seq<char>> {
    sorted_listing(
        views(f.type_params@).to_set() + f.where_clause@.map_values(
            |c: crate::ast::TypeConstraint| c.type_var@,
        ).to_set(),
    )
}

/// A function's `where` bounds, in order.
pub open spec fn fn_bounds(f: FnDef) -> Seq<(Seq<char>, Seq<char>)> {
    f.where_clause@.map_values(|c: crate::ast::TypeConstraint| (c.type_var@, c.bound@))
}

/// What a function adds: its signature, declared effects, type parameters
/// and bounds (when it has any), and visibility.
pub open spec fn fn_step(st: IfaceV, v: u32, f: FnDef) -> (IfaceV, u32) {
    let (sig, v1) = sig_spec(v, f);
    let n = f.name@;
    let tps = fn_type_params(f);
    let bs = fn_bounds(f);
    (
        IfaceV {
            functions: st.functions.insert(n, sig),
            function_caps: st.function_caps.insert(n, uses_names(f.uses_clause)),
            function_type_params: if tps.len() > 0 {
                st.function_type_params.insert(n, tps)
            } else {
                st.function_type_params
            },
            function_where_bounds: if bs.len() > 0 {
                st.function_where_bounds.insert(n, bs)
            } else {
                st.function_where_bounds
            },
            visibilities: st.visibilities.insert(n, symbol_visibility_of(f.visibility)),
            ..st
        },
        v1,
    )
}

/// What a struct adds: its fields, type parameters (when it has any) and
/// visibility.
pub open spec fn struct_step(st: IfaceV, v: u32, d: StructDef) -> (IfaceV, u32) {
    let (fs, v1) = struct_fields_spec(v, d.fields@);
    (
        IfaceV {
            structs: st.structs.insert(d.name@, fs),
            struct_type_params: if d.type_params@.len() > 0 {
                st.struct_type_params.insert(d.name@, views(d.type_params@))
            } else {
                st.struct_type_params
            },
            visibilities: st.visibilities.insert(d.name@, symbol_visibility_of(d.visibility)),
            ..st
        },
        v1,
    )
}

/// What a sum type adds: its variants and visibility.
pub open spec fn type_step(st: IfaceV, v: u32, d: TypeDef) -> (IfaceV, u32) {
    let (vs, v1) = variants_spec(v, d.variants@);
    (
        IfaceV {
            types: st.types.insert(d.name@, vs),
            visibilities: st.visibilities.insert(d.name@, symbol_visibility_of(d.visibility)),
            ..st
        },
        v1,
    )
}

/// What a trait or an effect adds: its name as an interface, its type
/// parameters and member signatures, and its visibility.
pub open spec fn member_step(
    st: IfaceV,
    v: u32,
    n: Seq<char>,
    vis: crate::ast::Visibility,
    tps: Seq<Seq<char>>,
    fs: Seq<FnDef>,
) -> (IfaceV, u32) {
    let (ms, v1) = sigs_spec(v, fs);
    (
        IfaceV {
            capabilities: st.capabilities.insert(n),
            capability_methods: st.capability_methods.insert(n, (tps, ms)),
            visibilities: st.visibilities.insert(n, symbol_visibility_of(vis)),
            ..st
        },
        v1,
    )
}

/// What an item adds; capabilities, constants and implementations add
/// nothing.
pub open spec fn item_step(st: IfaceV, v: u32, it: Item) -> (IfaceV, u32) {
    match it {
        Item::Function(f) => fn_step(st, v, f),
        Item::StructDef(d) => struct_step(st, v, d),
        Item::TypeDef(d) => type_step(st, v, d),
        Item::TraitDef(c) => member_step(st, v, c.name@, c.visibility, views(c.type_params@), c.methods@),
        Item::EffectDef(e) => member_step(st, v, e.name@, e.visibility, views(e.type_params@), e.operations@),
        _ => (st, v),
    }
}

/// The interface built from the items in order, and the type-variable
/// counter after.
pub open spec fn items_iface(its: Seq<Item>) -> (IfaceV, u32)
    decreases its.len(),
{
    if its.len() == 0 {
        (empty_iface(), 0)
    } else {
        let (st, v) = items_iface(its.drop_last());
        item_step(st, v, its.last())
    }
}

// ---------------------------------------------------------------------------
// Building the interface
// ---------------------------------------------------------------------------

/// The checker knows no aliases.
pub open spec fn no_aliases(c: Checker) -> bool {
    &&& c.registry.type_aliases@ == Map::<Seq<char>, Ty>::empty()
    &&& c.registry.generic_type_aliases@ == Map::<Seq<char>, (Vec<String>, Ty)>::empty()
}

/// What the builder leaves alone.
pub open spec fn iface_frame(a: ModuleInterface, b: ModuleInterface) -> bool {
    &&& b.path == a.path
    &&& b.function_errors == a.function_errors
    &&& b.handlers == a.handlers
}

/// Resolves a written type with no aliases known.
fn resolve_plain(checker: &mut Checker, te: &TypeExpr) -> (r: Ty)
    requires
        no_aliases(*old(checker)),
    ensures
        ({
            let (t, v, _) = resolve_spec(Map::empty(), Map::empty(), old(checker).next_var(), *te);
            ty_view(r) == t && final(checker).next_var() == v
        }),
        no_aliases(*final(checker)),
{
    assert(alias_views(checker.registry) =~= Map::<Seq<char>, TyV>::empty());
    assert(generic_alias_views(checker.registry) =~= Map::<Seq<char>, (Seq<Seq<char>>, TyV)>::empty());
    checker.resolve_type(te)
}

/// Resolves a signature: parameter types, then the return type (`()` when
/// none is written).
fn resolve_sig(checker: &mut Checker, f: &FnDef) -> (r: (Vec<Ty>, Ty))
    requires
        no_aliases(*old(checker)),
    ensures
        tys_view(r.0@) == sig_spec(old(checker).next_var(), *f).0.0,
        ty_view(r.1) == sig_spec(old(checker).next_var(), *f).0.1,
        final(checker).next_var() == sig_spec(old(checker).next_var(), *f).1,
        no_aliases(*final(checker)),
{
    let ghost v0 = checker.next_var();
    let ghost pts = param_types(f.params@);
    let mut ps: Vec<Ty> = Vec::new();
    let mut i: usize = 0;
    assert(pts.take(0) =~= Seq::<TypeExpr>::empty());
    assert(tys_view(ps@) =~= Seq::<TyV>::empty());
    while i < f.params.len()
        invariant
            i <= f.params@.len(),
            pts == param_types(f.params@),
            no_aliases(*checker),
            ({
                let (xs, v, _) = resolve_list(Map::empty(), Map::empty(), v0, pts.take(i as int));
                tys_view(ps@) == xs && checker.next_var() == v
            }),
        decreases f.params.len() - i,
    {
        let t = resolve_plain(checker, &f.params[i].ty);
        let ghost prev = ps@;
        ps.push(t);
        assert(ps@.drop_last() =~= prev);
        assert(pts.take(i + 1).drop_last() =~= pts.take(i as int));
        assert(pts.take(i + 1).last() == f.params@[i as int].ty);
        i = i + 1;
    }
    assert(pts.take(f.params.len() as int) =~= pts);
    let r = match &f.return_type {
        Some(t) => resolve_plain(checker, t),
        None => Ty::Unit,
    };
    (ps, r)
}

/// Resolves member signatures in order.
fn resolve_sigs(checker: &mut Checker, fs: &Vec<FnDef>) -> (r: Vec<(String, Vec<Ty>, Ty)>)
    requires
        no_aliases(*old(checker)),
    ensures
        methods_view(r@) == sigs_spec(old(checker).next_var(), fs@).0,
        final(checker).next_var() == sigs_spec(old(checker).next_var(), fs@).1,
        no_aliases(*final(checker)),
{
    let ghost v0 = checker.next_var();
    let mut out: Vec<(String, Vec<Ty>, Ty)> = Vec::new();
    let mut i: usize = 0;
    assert(fs@.take(0) =~= Seq::<FnDef>::empty());
    assert(methods_view(out@) =~= Seq::<(Seq<char>, Seq<TyV>, TyV)>::empty());
    while i < fs.len()
        invariant
            i <= fs@.len(),
            no_aliases(*checker),
            methods_view(out@) == sigs_spec(v0, fs@.take(i as int)).0,
            checker.next_var() == sigs_spec(v0, fs@.take(i as int)).1,
        decreases fs.len() - i,
    {
        let (ps, r) = resolve_sig(checker, &fs[i]);
        let ghost prev = out@;
        out.push((fs[i].name.clone(), ps, r));
        assert(fs@.take(i + 1).drop_last() =~= fs@.take(i as int));
        assert(methods_view(out@) =~= methods_view(prev).push(
            (fs@[i as int].name@, sig_spec(sigs_spec(v0, fs@.take(i as int)).1, fs@[i as int]).0.0,
             sig_spec(sigs_spec(v0, fs@.take(i as int)).1, fs@[i as int]).0.1),
        ));
        i = i + 1;
    }
    assert(fs@.take(fs.len() as int) =~= fs@);
    out
}

/// An empty surface hierarchy leaves every set as it is.
proof fn lemma_expand_without_surfaces(s: Set<Seq<char>>)
    ensures
        expansion(Map::empty(), s) == s,
{
    let g = Map::<Seq<char>, Set<Seq<char>>>::empty();
    assert forall|x: Seq<char>| expansion(g, s).contains(x) implies s.contains(x) by {
        let p = choose|p: Seq<Seq<char>>| #[trigger] is_walk(g, p) && s.contains(p[0]) && p.last() == x;
        if p.len() > 1 {
            assert(g.contains_key(p[0]));
        }
        assert(p[0] == x);
    }
    assert forall|x: Seq<char>| s.contains(x) implies expansion(g, s).contains(x) by {
        let p = seq![x];
        assert(is_walk(g, p));
    }
    assert(expansion(g, s) =~= s);
}

fn add_function(
    iface: &mut ModuleInterface,
    checker: &mut Checker,
    hierarchy: &EffectHierarchy,
    f: &FnDef,
)
    requires
        no_aliases(*old(checker)),
        hierarchy@ == Map::<Seq<char>, Set<Seq<char>>>::empty(),
    ensures
        (iface_view(*final(iface)), final(checker).next_var()) == fn_step(
            iface_view(*old(iface)),
            old(checker).next_var(),
            *f,
        ),
        no_aliases(*final(checker)),
        iface_frame(*old(iface), *final(iface)),
{
    let (ps, r) = resolve_sig(checker, f);
    let ghost st = iface_view(*iface);
    let ghost n = f.name@;
    iface.functions.insert(f.name.clone(), (ps, r));
    let caps = match &f.uses_clause {
        Some(resources) => {
            let raw = EffectSet::from_names(clone_names(resources.as_slice()));
            hierarchy.expand(&raw)
        },
        None => EffectSet::new(),
    };
    proof {
        lemma_expand_without_surfaces(caps@);
        lemma_expand_without_surfaces(uses_names(f.uses_clause));
    }
    assert(caps@ == uses_names(f.uses_clause));
    iface.function_caps.insert(f.name.clone(), caps);
    // Type parameters, with those the bounds name, in increasing order.
    let mut params = EffectSet::from_names(clone_names(f.type_params.as_slice()));
    let ghost vars = f.where_clause@.map_values(|c: crate::ast::TypeConstraint| c.type_var@);
    let mut i: usize = 0;
    assert(vars.take(0).to_set() =~= Set::<Seq<char>>::empty());
    assert(params@ =~= views(f.type_params@).to_set() + vars.take(0).to_set());
    while i < f.where_clause.len()
        invariant
            i <= f.where_clause@.len(),
            vars == f.where_clause@.map_values(|c: crate::ast::TypeConstraint| c.type_var@),
            params@ == views(f.type_params@).to_set() + vars.take(i as int).to_set(),
        decreases f.where_clause.len() - i,
    {
        params.insert(f.where_clause[i].type_var.clone());
        assert(vars.take(i + 1) =~= vars.take(i as int).push(vars[i as int]));
        proof {
            vars.take(i as int).lemma_push_to_set_commute(vars[i as int]);
        }
        assert(params@ =~= views(f.type_params@).to_set() + vars.take(i + 1).to_set());
        i = i + 1;
    }
    assert(vars.take(f.where_clause.len() as int) =~= vars);
    let listed = clone_names(params.iter());
    proof {
        assert(sorted(views(listed@)) && views(listed@).to_set() == params@);
        assert(sorted(sorted_listing(params@)) && sorted_listing(params@).to_set() == params@);
        lemma_sorted_unique(views(listed@), sorted_listing(params@));
    }
    if listed.len() > 0 {
        iface.function_type_params.insert(f.name.clone(), listed);
    }
    // Bounds, in order.
    let mut bounds: Vec<(String, String)> = Vec::new();
    let mut j: usize = 0;
    while j < f.where_clause.len()
        invariant
            j <= f.where_clause@.len(),
            bounds@.len() == j,
            forall|k: int|
                0 <= k < j ==> (#[trigger] bounds@[k]).0@ == f.where_clause@[k].type_var@
                    && bounds@[k].1@ == f.where_clause@[k].bound@,
        decreases f.where_clause.len() - j,
    {
        let c = &f.where_clause[j];
        bounds.push((c.type_var.clone(), c.bound.clone()));
        j = j + 1;
    }
    assert(bounds_view(bounds@) =~= fn_bounds(*f));
    if bounds.len() > 0 {
        iface.function_where_bounds.insert(f.name.clone(), bounds);
    }
    iface.set_visibility(f.name.as_str(), SymbolVisibility::from(&f.visibility));
    assert(iface_view(*iface).functions =~= st.functions.insert(n, sig_spec(old(checker).next_var(), *f).0));
    assert(iface_view(*iface).function_caps =~= st.function_caps.insert(n, uses_names(f.uses_clause)));
    assert(iface_view(*iface).function_type_params =~= if fn_type_params(*f).len() > 0 {
        st.function_type_params.insert(n, fn_type_params(*f))
    } else {
        st.function_type_params
    });
    assert(iface_view(*iface).function_where_bounds =~= if fn_bounds(*f).len() > 0 {
        st.function_where_bounds.insert(n, fn_bounds(*f))
    } else {
        st.function_where_bounds
    });
    assert(iface_view(*iface).types =~= st.types);
    assert(iface_view(*iface).structs =~= st.structs);
    assert(iface_view(*iface).struct_type_params =~= st.struct_type_params);
    assert(iface_view(*iface).capability_methods =~= st.capability_methods);
}

fn add_struct(iface: &mut ModuleInterface, checker: &mut Checker, d: &StructDef)
    requires
        no_aliases(*old(checker)),
    ensures
        (iface_view(*final(iface)), final(checker).next_var()) == struct_step(
            iface_view(*old(iface)),
            old(checker).next_var(),
            *d,
        ),
        no_aliases(*final(checker)),
        iface_frame(*old(iface), *final(iface)),
{
    let ghost v0 = checker.next_var();
    let ghost st = iface_view(*iface);
    let mut fields: Vec<(String, Ty)> = Vec::new();
    let mut i: usize = 0;
    assert(d.fields@.take(0) =~= Seq::<crate::ast::FieldDef>::empty());
    assert(fields_view(fields@) =~= Seq::<(Seq<char>, TyV)>::empty());
    while i < d.fields.len()
        invariant
            i <= d.fields@.len(),
            no_aliases(*checker),
            fields_view(fields@) == struct_fields_spec(v0, d.fields@.take(i as int)).0,
            checker.next_var() == struct_fields_spec(v0, d.fields@.take(i as int)).1,
        decreases d.fields.len() - i,
    {
        let t = resolve_plain(checker, &d.fields[i].ty);
        let ghost prev = fields@;
        fields.push((d.fields[i].name.clone(), t));
        assert(fields@.drop_last() =~= prev);
        assert(d.fields@.take(i + 1).drop_last() =~= d.fields@.take(i as int));
        i = i + 1;
    }
    assert(d.fields@.take(d.fields.len() as int) =~= d.fields@);
    iface.structs.insert(d.name.clone(), fields);
    if d.type_params.len() > 0 {
        iface.struct_type_params.insert(d.name.clone(), clone_names(d.type_params.as_slice()));
    }
    iface.set_visibility(d.name.as_str(), SymbolVisibility::from(&d.visibility));
    assert(iface_view(*iface).structs =~= st.structs.insert(d.name@, struct_fields_spec(v0, d.fields@).0));
    assert(iface_view(*iface).struct_type_params =~= if d.type_params@.len() > 0 {
        st.struct_type_params.insert(d.name@, views(d.type_params@))
    } else {
        st.struct_type_params
    });
    assert(iface_view(*iface).functions =~= st.functions);
    assert(iface_view(*iface).function_caps =~= st.function_caps);
    assert(iface_view(*iface).function_type_params =~= st.function_type_params);
    assert(iface_view(*iface).function_where_bounds =~= st.function_where_bounds);
    assert(iface_view(*iface).types =~= st.types);
    assert(iface_view(*iface).capability_methods =~= st.capability_methods);
}

fn add_type(iface: &mut ModuleInterface, checker: &mut Checker, d: &TypeDef)
    requires
        no_aliases(*old(checker)),
    ensures
        (iface_view(*final(iface)), final(checker).next_var()) == type_step(
            iface_view(*old(iface)),
            old(checker).next_var(),
            *d,
        ),
        no_aliases(*final(checker)),
        iface_frame(*old(iface), *final(iface)),
{
    let ghost v0 = checker.next_var();
    let ghost st = iface_view(*iface);
    let mut variants: Vec<(String, Vec<Ty>)> = Vec::new();
    let mut i: usize = 0;
    assert(d.variants@.take(0) =~= Seq::<crate::ast::VariantDef>::empty());
    assert(variants_view(variants@) =~= Seq::<(Seq<char>, Seq<TyV>)>::empty());
    while i < d.variants.len()
        invariant
            i <= d.variants@.len(),
            no_aliases(*checker),
            variants_view(variants@) == variants_spec(v0, d.variants@.take(i as int)).0,
            checker.next_var() == variants_spec(v0, d.variants@.take(i as int)).1,
        decreases d.variants.len() - i,
    {
        let v = &d.variants[i];
        let ghost vs = variants_spec(v0, d.variants@.take(i as int));
        let mut ts: Vec<Ty> = Vec::new();
        let mut j: usize = 0;
        assert(v.fields@.take(0) =~= Seq::<TypeExpr>::empty());
        assert(tys_view(ts@) =~= Seq::<TyV>::empty());
        while j < v.fields.len()
            invariant
                j <= v.fields@.len(),
                no_aliases(*checker),
                ({
                    let (xs, w, _) = resolve_list(Map::empty(), Map::empty(), vs.1, v.fields@.take(j as int));
                    tys_view(ts@) == xs && checker.next_var() == w
                }),
            decreases v.fields.len() - j,
        {
            let t = resolve_plain(checker, &v.fields[j]);
            let ghost prev = ts@;
            ts.push(t);
            assert(ts@.drop_last() =~= prev);
            assert(v.fields@.take(j + 1).drop_last() =~= v.fields@.take(j as int));
            j = j + 1;
        }
        assert(v.fields@.take(v.fields.len() as int) =~= v.fields@);
        let ghost prev = variants@;
        variants.push((v.name.clone(), ts));
        assert(d.variants@.take(i + 1).drop_last() =~= d.variants@.take(i as int));
        assert(variants_view(variants@) =~= variants_view(prev).push(
            (v.name@, resolve_list(Map::empty(), Map::empty(), vs.1, v.fields@).0),
        ));
        i = i + 1;
    }
    assert(d.variants@.take(d.variants.len() as int) =~= d.variants@);
    iface.types.insert(d.name.clone(), variants);
    iface.set_visibility(d.name.as_str(), SymbolVisibility::from(&d.visibility));
    assert(iface_view(*iface).types =~= st.types.insert(d.name@, variants_spec(v0, d.variants@).0));
    assert(iface_view(*iface).functions =~= st.functions);
    assert(iface_view(*iface).function_caps =~= st.function_caps);
    assert(iface_view(*iface).function_type_params =~= st.function_type_params);
    assert(iface_view(*iface).function_where_bounds =~= st.function_where_bounds);
    assert(iface_view(*iface).structs =~= st.structs);
    assert(iface_view(*iface).struct_type_params =~= st.struct_type_params);
    assert(iface_view(*iface).capability_methods =~= st.capability_methods);
}

fn add_members(
    iface: &mut ModuleInterface,
    checker: &mut Checker,
    name: &String,
    vis: &crate::ast::Visibility,
    type_params: &Vec<String>,
    members: &Vec<FnDef>,
)
    requires
        no_aliases(*old(checker)),
    ensures
        (iface_view(*final(iface)), final(checker).next_var()) == member_step(
            iface_view(*old(iface)),
            old(checker).next_var(),
            name@,
            *vis,
            views(type_params@),
            members@,
        ),
        no_aliases(*final(checker)),
        iface_frame(*old(iface), *final(iface)),
{
    let ghost st = iface_view(*iface);
    iface.capabilities.insert(name.clone());
    let sigs = resolve_sigs(checker, members);
    iface.capability_methods.insert(name.clone(), (clone_names(type_params.as_slice()), sigs));
    iface.set_visibility(name.as_str(), SymbolVisibility::from(vis));
    assert(iface_view(*iface).capability_methods =~= st.capability_methods.insert(
        name@,
        (views(type_params@), sigs_spec(old(checker).next_var(), members@).0),
    ));
    assert(iface_view(*iface).functions =~= st.functions);
    assert(iface_view(*iface).function_caps =~= st.function_caps);
    assert(iface_view(*iface).function_type_params =~= st.function_type_params);
    assert(iface_view(*iface).function_where_bounds =~= st.function_where_bounds);
    assert(iface_view(*iface).types =~= st.types);
    assert(iface_view(*iface).structs =~= st.structs);
    assert(iface_view(*iface).struct_type_params =~= st.struct_type_params);
}

/// Builds the interface a module presents to importers: its path from its
/// dotted name; each function's resolved signature, declared effects, type
/// parameters and bounds; each struct's fields and type parameters; each
/// sum type's variants; each trait and effect as an interface with its
/// member signatures; and everyone's visibility. Written types resolve with
/// no aliases known, each hole taking the next type variable in source
/// order.
pub fn build_module_interface(module: &Module) -> (r: ModuleInterface)
    ensures
        views(r.path@) == path_of(module.name@),
        iface_view(r) == items_iface(module.items@).0,
        r.function_errors@ == Map::<Seq<char>, EffectSet>::empty(),
        r.handlers@ == Map::<Seq<char>, crate::env::HandlerInfo>::empty(),
{
    let path = split_name(module.name.as_str());
    let mut iface = ModuleInterface::new(path);
    let mut checker = Checker::new();
    let hierarchy = EffectHierarchy::new();
    let ghost p = views(iface.path@);
    let items = &module.items;
    let mut i: usize = 0;
    assert(items@.take(0) =~= Seq::<Item>::empty());
    assert(iface_view(iface) == empty_iface()) by {
        assert(iface_view(iface).functions =~= Map::empty());
        assert(iface_view(iface).function_caps =~= Map::empty());
        assert(iface_view(iface).function_type_params =~= Map::empty());
        assert(iface_view(iface).function_where_bounds =~= Map::empty());
        assert(iface_view(iface).types =~= Map::empty());
        assert(iface_view(iface).structs =~= Map::empty());
        assert(iface_view(iface).struct_type_params =~= Map::empty());
        assert(iface_view(iface).capability_methods =~= Map::empty());
    }
    while i < items.len()
        invariant
            i <= items@.len(),
            no_aliases(checker),
            hierarchy@ == Map::<Seq<char>, Set<Seq<char>>>::empty(),
            views(iface.path@) == path_of(module.name@),
            iface.function_errors@ == Map::<Seq<char>, EffectSet>::empty(),
            iface.handlers@ == Map::<Seq<char>, crate::env::HandlerInfo>::empty(),
            (iface_view(iface), checker.next_var()) == items_iface(items@.take(i as int)),
        decreases items.len() - i,
    {
        assert(items@.take(i + 1).drop_last() =~= items@.take(i as int));
        match &items[i] {
            Item::Function(f) => add_function(&mut iface, &mut checker, &hierarchy, f),
            Item::StructDef(d) => add_struct(&mut iface, &mut checker, d),
            Item::TypeDef(d) => add_type(&mut iface, &mut checker, d),
            Item::TraitDef(c) => add_members(
                &mut iface,
                &mut checker,
                &c.name,
                &c.visibility,
                &c.type_params,
                &c.methods,
            ),
            Item::EffectDef(e) => add_members(
                &mut iface,
                &mut checker,
                &e.name,
                &e.visibility,
                &e.type_params,
                &e.operations,
            ),
            _ => {},
        }
        i = i + 1;
    }
    assert(items@.take(items.len() as int) =~= items@);
    iface
}

} // verus!
