//! Bringing the symbols an import resolved into the checker's declarations:
//! functions with their effects, errors, type parameters and bounds;
//! types; structs; handlers; and interfaces. A name that another import
//! already brought in with a different declaration is reported as
//! ambiguous and left as it was.

use vstd::prelude::*;
use crate::check::{Checker, Diags, keeps_errors};
use crate::effect_set::EffectSet;
use crate::env::{HandlerInfo, TypeRegistry};
use crate::error::{ErrorCode, diags};
use crate::exports::{bounds_view, iface_view, methods_view, variants_view};
use crate::method::{bound_views, clone_bounds};
use crate::module::{ImportedSymbol, ModuleInterface};
use crate::name_map::NameMap;
use crate::names::{clone_names, lemma_sorted_unique, views};
use crate::prelude_interface::error_views;
use crate::text::string_of;
use crate::types::{
    Ty, TyV, clone_fields, clone_ty, clone_tys, fields_view, names_eq, tys_eq, ty_eq, ty_same,
    tys_same, ty_view, tys_view,
};

verus! {

// ---------------------------------------------------------------------------
// The declarations as values
// ---------------------------------------------------------------------------

/// A handler's declaration as values.
pub struct HandlerV {
    pub handled: Set<Seq<char>>,
    pub uses: Set<Seq<char>>,
    pub fields: Seq<(Seq<char>, TyV)>,
    pub methods: Map<Seq<char>, Seq<(Seq<char>, Seq<TyV>, TyV)>>,
}

pub open spec fn handler_view(h: HandlerInfo) -> HandlerV {
    HandlerV {
        handled: h.handled_effects@,
        uses: h.uses_effects@,
        fields: fields_view(h.fields@),
        methods: h.methods@.map_values(|ms: Vec<(String, Vec<Ty>, Ty)>| methods_view(ms@)),
    }
}

/// The checker's declarations that an import fills, as values.
pub struct RegV {
    pub functions: Map<Seq<char>, (Seq<TyV>, TyV, Set<Seq<char>>)>,
    pub fn_errors: Map<Seq<char>, Set<Seq<char>>>,
    pub fn_type_params: Map<Seq<char>, Seq<Seq<char>>>,
    pub fn_bounds: Map<Seq<char>, Seq<(Seq<char>, Seq<char>)>>,
    pub types: Map<Seq<char>, Seq<(Seq<char>, Seq<TyV>)>>,
    pub structs: Map<Seq<char>, Seq<(Seq<char>, TyV)>>,
    pub struct_type_params: Map<Seq<char>, Seq<Seq<char>>>,
    pub handlers: Map<Seq<char>, HandlerV>,
    pub interfaces: Map<Seq<char>, (Seq<Seq<char>>, Seq<(Seq<char>, Seq<TyV>, TyV)>)>,
}

pub open spec fn reg_view(r: TypeRegistry) -> RegV {
    RegV {
        functions: r.functions@.map_values(
            |p: (Vec<Ty>, Ty, EffectSet)| (tys_view(p.0@), ty_view(p.1), p.2@),
        ),
        fn_errors: r.fn_errors@.map_values(|e: EffectSet| e@),
        fn_type_params: r.fn_type_params@.map_values(|v: Vec<String>| views(v@)),
        fn_bounds: r.fn_generic_bounds@.map_values(|v: Vec<(String, String)>| bounds_view(v@)),
        types: r.types@.map_values(|v: Vec<(String, Vec<Ty>)>| variants_view(v@)),
        structs: r.structs@.map_values(|v: Vec<(String, Ty)>| fields_view(v@)),
        struct_type_params: r.struct_type_params@.map_values(|v: Vec<String>| views(v@)),
        handlers: r.handlers@.map_values(|h: HandlerInfo| handler_view(h)),
        interfaces: r.interfaces@.map_values(
            |p: (Vec<String>, Vec<(String, Vec<Ty>, Ty)>)| (views(p.0@), methods_view(p.1@)),
        ),
    }
}

/// Two field lists agree: the same names, in order, with the same types.
pub open spec fn fields_same(a: Seq<(Seq<char>, TyV)>, b: Seq<(Seq<char>, TyV)>) -> bool {
    a.len() == b.len() && forall|i: int| 0 <= i < a.len() ==> (#[trigger] a[i]).0 == b[i].0 && ty_same(a[i].1, b[i].1)
}

/// Two signature lists agree: the same names, in order, with the same
/// parameter and result types.
pub open spec fn sigs_same(a: Seq<(Seq<char>, Seq<TyV>, TyV)>, b: Seq<(Seq<char>, Seq<TyV>, TyV)>) -> bool {
    a.len() == b.len() && forall|i: int|
        0 <= i < a.len() ==> (#[trigger] a[i]).0 == b[i].0 && tys_same(a[i].1, b[i].1) && ty_same(a[i].2, b[i].2)
}

/// Two handlers agree in everything they declare.
pub open spec fn handler_same(a: HandlerV, b: HandlerV) -> bool {
    &&& a.handled == b.handled
    &&& a.uses == b.uses
    &&& fields_same(a.fields, b.fields)
    &&& a.methods.dom() == b.methods.dom()
    &&& forall|k: Seq<char>| #[trigger] a.methods.contains_key(k) ==> sigs_same(a.methods[k], b.methods[k])
}

/// The message for a name two imports declare differently.
pub open spec fn ambiguous_message(n: Seq<char>) -> Seq<char> {
    "ambiguous import: `"@ + n + "` is exported by multiple imported modules"@
}

pub open spec fn set_or_empty(m: Map<Seq<char>, Set<Seq<char>>>, n: Seq<char>) -> Set<Seq<char>> {
    if m.contains_key(n) {
        m[n]
    } else {
        Set::empty()
    }
}

pub open spec fn names_or_empty(m: Map<Seq<char>, Seq<Seq<char>>>, n: Seq<char>) -> Seq<Seq<char>> {
    if m.contains_key(n) {
        m[n]
    } else {
        Seq::empty()
    }
}

pub open spec fn bounds_or_empty(
    m: Map<Seq<char>, Seq<(Seq<char>, Seq<char>)>>,
    n: Seq<char>,
) -> Seq<(Seq<char>, Seq<char>)> {
    if m.contains_key(n) {
        m[n]
    } else {
        Seq::empty()
    }
}

/// What importing the function `n` of module `m` does to the
/// declarations `g` and the diagnostics `d`: nothing when `m` has no such
/// function; a diagnostic when a function of that name is already declared
/// with another signature, effects, errors, type parameters or bounds;
/// otherwise the function is declared with them (errors, type parameters
/// and bounds only where there are any).
pub open spec fn import_function(g: RegV, d: Diags, m: ModuleInterface, n: Seq<char>) -> (RegV, Diags) {
    let iv = iface_view(m);
    if !iv.functions.contains_key(n) {
        (g, d)
    } else {
        let ps = iv.functions[n].0;
        let r = iv.functions[n].1;
        let req = set_or_empty(iv.function_caps, n);
        let errs = set_or_empty(error_views(m.function_errors@), n);
        let tps = names_or_empty(iv.function_type_params, n);
        let wb = bounds_or_empty(iv.function_where_bounds, n);
        let same = tys_same(g.functions[n].0, ps) && ty_same(g.functions[n].1, r) && g.functions[n].2 == req
            && set_or_empty(g.fn_errors, n) == errs && names_or_empty(g.fn_type_params, n) == tps
            && bounds_or_empty(g.fn_bounds, n) == wb;
        if g.functions.contains_key(n) && !same {
            (g, d.push((ErrorCode::M0303, ambiguous_message(n))))
        } else {
            (
                RegV {
                    functions: g.functions.insert(n, (ps, r, req)),
                    fn_errors: if errs.len() > 0 {
                        g.fn_errors.insert(n, errs)
                    } else {
                        g.fn_errors
                    },
                    fn_type_params: if tps.len() > 0 {
                        g.fn_type_params.insert(n, tps)
                    } else {
                        g.fn_type_params
                    },
                    fn_bounds: if wb.len() > 0 {
                        g.fn_bounds.insert(n, wb)
                    } else {
                        g.fn_bounds
                    },
                    ..g
                },
                d,
            )
        }
    }
}

/// What importing the symbol `n` of kind `k` from module `m` does.
pub open spec fn import_symbol(g: RegV, d: Diags, m: ModuleInterface, n: Seq<char>, k: ImportedSymbol) -> (RegV, Diags) {
    let iv = iface_view(m);
    match k {
        ImportedSymbol::Function => import_function(g, d, m, n),
        ImportedSymbol::Type => if iv.types.contains_key(n) {
            (RegV { types: g.types.insert(n, iv.types[n]), ..g }, d)
        } else {
            (g, d)
        },
        ImportedSymbol::Struct => {
            let g1 = if iv.structs.contains_key(n) {
                RegV { structs: g.structs.insert(n, iv.structs[n]), ..g }
            } else {
                g
            };
            let g2 = if iv.struct_type_params.contains_key(n) {
                RegV { struct_type_params: g1.struct_type_params.insert(n, iv.struct_type_params[n]), ..g1 }
            } else {
                g1
            };
            (g2, d)
        },
        ImportedSymbol::Handler => if m.handlers@.contains_key(n) {
            let h = handler_view(m.handlers@[n]);
            if g.handlers.contains_key(n) && !handler_same(g.handlers[n], h) {
                (g, d.push((ErrorCode::M0303, ambiguous_message(n))))
            } else {
                (RegV { handlers: g.handlers.insert(n, h), ..g }, d)
            }
        } else {
            (g, d)
        },
        ImportedSymbol::Interface => if iv.capabilities.contains(n) {
            let ms = if iv.capability_methods.contains_key(n) {
                iv.capability_methods[n]
            } else {
                (Seq::empty(), Seq::empty())
            };
            if g.interfaces.contains_key(n) && !(g.interfaces[n].0 == ms.0 && sigs_same(g.interfaces[n].1, ms.1)) {
                (g, d.push((ErrorCode::M0303, ambiguous_message(n))))
            } else {
                (RegV { interfaces: g.interfaces.insert(n, ms), ..g }, d)
            }
        } else {
            (g, d)
        },
    }
}

/// Importing the resolved symbols in order.
pub open spec fn import_all(
    g: RegV,
    d: Diags,
    m: ModuleInterface,
    rs: Seq<(String, ImportedSymbol)>,
) -> (RegV, Diags)
    decreases rs.len(),
{
    if rs.len() == 0 {
        (g, d)
    } else {
        let (g1, d1) = import_all(g, d, m, rs.drop_last());
        import_symbol(g1, d1, m, rs.last().0@, rs.last().1)
    }
}


// ---------------------------------------------------------------------------
// Comparing and copying declarations
// ---------------------------------------------------------------------------

/// Whether two effect sets hold the same members.
fn set_eq(a: &EffectSet, b: &EffectSet) -> (r: bool)
    ensures
        r == (a@ == b@),
{
    let xs = a.iter();
    let ys = b.iter();
    let r = names_eq(xs, ys);
    proof {
        if a@ == b@ {
            lemma_sorted_unique(views(xs@), views(ys@));
        }
    }
    r
}

/// Whether two bound lists are the same, pair by pair.
fn bounds_eq(a: &Vec<(String, String)>, b: &Vec<(String, String)>) -> (r: bool)
    ensures
        r == (bounds_view(a@) == bounds_view(b@)),
{
    if a.len() != b.len() {
        assert(bounds_view(a@).len() != bounds_view(b@).len());
        return false;
    }
    let mut i: usize = 0;
    while i < a.len()
        invariant
            i <= a@.len(),
            a@.len() == b@.len(),
            forall|k: int| 0 <= k < i ==> #[trigger] bounds_view(a@)[k] == bounds_view(b@)[k],
        decreases a.len() - i,
    {
        if !crate::text::str_eq(a[i].0.as_str(), b[i].0.as_str()) || !crate::text::str_eq(
            a[i].1.as_str(),
            b[i].1.as_str(),
        ) {
            assert(bounds_view(a@)[i as int] != bounds_view(b@)[i as int]);
            return false;
        }
        i = i + 1;
    }
    assert(bounds_view(a@) =~= bounds_view(b@));
    true
}

/// Whether two field lists agree, as `fields_same` says.
fn fields_eq(a: &Vec<(String, Ty)>, b: &Vec<(String, Ty)>) -> (r: bool)
    ensures
        r == fields_same(fields_view(a@), fields_view(b@)),
{
    proof {
        crate::types::lemma_fields_view(a@);
        crate::types::lemma_fields_view(b@);
    }
    if a.len() != b.len() {
        return false;
    }
    let mut i: usize = 0;
    while i < a.len()
        invariant
            i <= a@.len(),
            a@.len() == b@.len(),
            fields_view(a@).len() == a@.len(),
            fields_view(b@).len() == b@.len(),
            forall|k: int| 0 <= k < a@.len() ==> #[trigger] fields_view(a@)[k] == (a@[k].0@, ty_view(a@[k].1)),
            forall|k: int| 0 <= k < b@.len() ==> #[trigger] fields_view(b@)[k] == (b@[k].0@, ty_view(b@[k].1)),
            forall|k: int| 0 <= k < i ==> (#[trigger] fields_view(a@)[k]).0 == fields_view(b@)[k].0
                && ty_same(fields_view(a@)[k].1, fields_view(b@)[k].1),
        decreases a.len() - i,
    {
        if !crate::text::str_eq(a[i].0.as_str(), b[i].0.as_str()) || !ty_eq(&a[i].1, &b[i].1) {
            assert(fields_view(a@)[i as int] == (a@[i as int].0@, ty_view(a@[i as int].1)));
            return false;
        }
        i = i + 1;
    }
    true
}

/// Whether two signature lists agree, as `sigs_same` says.
fn sigs_eq(a: &Vec<(String, Vec<Ty>, Ty)>, b: &Vec<(String, Vec<Ty>, Ty)>) -> (r: bool)
    ensures
        r == sigs_same(methods_view(a@), methods_view(b@)),
{
    if a.len() != b.len() {
        return false;
    }
    let mut i: usize = 0;
    while i < a.len()
        invariant
            i <= a@.len(),
            a@.len() == b@.len(),
            forall|k: int| 0 <= k < i ==> (#[trigger] methods_view(a@)[k]).0 == methods_view(b@)[k].0
                && tys_same(methods_view(a@)[k].1, methods_view(b@)[k].1)
                && ty_same(methods_view(a@)[k].2, methods_view(b@)[k].2),
        decreases a.len() - i,
    {
        let x = &a[i];
        let y = &b[i];
        assert(methods_view(a@)[i as int] == (x.0@, tys_view(x.1@), ty_view(x.2)));
        assert(methods_view(b@)[i as int] == (y.0@, tys_view(y.1@), ty_view(y.2)));
        if !crate::text::str_eq(x.0.as_str(), y.0.as_str()) || !tys_eq(x.1.as_slice(), y.1.as_slice())
            || !ty_eq(&x.2, &y.2) {
            return false;
        }
        i = i + 1;
    }
    true
}

/// Whether two handlers agree, as `handler_same` says.
fn handler_eq(a: &HandlerInfo, b: &HandlerInfo) -> (r: bool)
    ensures
        r == handler_same(handler_view(*a), handler_view(*b)),
{
    let ghost av = handler_view(*a);
    let ghost bv = handler_view(*b);
    if !set_eq(&a.handled_effects, &b.handled_effects) || !set_eq(&a.uses_effects, &b.uses_effects)
        || !fields_eq(&a.fields, &b.fields) {
        return false;
    }
    let ka = a.methods.keys();
    let kb = b.methods.keys();
    assert(av.methods.dom() =~= a.methods@.dom());
    assert(bv.methods.dom() =~= b.methods@.dom());
    if !names_eq(ka.as_slice(), kb.as_slice()) {
        proof {
            if av.methods.dom() == bv.methods.dom() {
                lemma_sorted_unique(views(ka@), views(kb@));
            }
        }
        return false;
    }
    assert(av.methods.dom() =~= bv.methods.dom());
    let mut i: usize = 0;
    while i < ka.len()
        invariant
            i <= ka@.len(),
            views(ka@) == a.methods.key_seq(),
            views(ka@) == views(kb@),
            views(kb@) == b.methods.key_seq(),
            av == handler_view(*a),
            bv == handler_view(*b),
            av.methods.dom() == bv.methods.dom(),
            av.methods.dom() == views(ka@).to_set(),
            forall|k: int| 0 <= k < i ==> sigs_same(av.methods[#[trigger] views(ka@)[k]], bv.methods[views(ka@)[k]]),
        decreases ka.len() - i,
    {
        let x = a.methods.value_at(i);
        let y = b.methods.value_at(i);
        assert(views(ka@)[i as int] == a.methods.key_seq()[i as int]);
        if !sigs_eq(x, y) {
            assert(av.methods.contains_key(views(ka@)[i as int]));
            return false;
        }
        i = i + 1;
    }
    assert forall|k: Seq<char>| #[trigger] av.methods.contains_key(k) implies sigs_same(av.methods[k], bv.methods[k]) by {
        assert(views(ka@).to_set().contains(k));
        let j = choose|j: int| 0 <= j < views(ka@).len() && views(ka@)[j] == k;
    }
    true
}

/// A copy of a signature list.
fn clone_sigs(ms: &Vec<(String, Vec<Ty>, Ty)>) -> (r: Vec<(String, Vec<Ty>, Ty)>)
    ensures
        methods_view(r@) == methods_view(ms@),
{
    let mut out: Vec<(String, Vec<Ty>, Ty)> = Vec::new();
    let mut i: usize = 0;
    while i < ms.len()
        invariant
            i <= ms@.len(),
            out@.len() == i,
            methods_view(out@) == methods_view(ms@.take(i as int)),
        decreases ms.len() - i,
    {
        let m = &ms[i];
        let ghost prev = out@;
        let name = string_of(m.0.as_str());
        out.push((name, clone_tys(&m.1), clone_ty(&m.2)));
        assert forall|k: int| 0 <= k < i + 1 implies #[trigger] methods_view(out@)[k] == methods_view(
            ms@.take(i + 1),
        )[k] by {
            assert(ms@.take(i + 1)[k] == ms@[k]);
            if k < i {
                assert(out@[k] == prev[k]);
                assert(methods_view(prev)[k] == methods_view(ms@.take(i as int))[k]);
                assert(ms@.take(i as int)[k] == ms@[k]);
            }
        }
        assert(methods_view(out@) =~= methods_view(ms@.take(i + 1)));
        i = i + 1;
    }
    assert(ms@.take(ms.len() as int) =~= ms@);
    out
}

/// A copy of a variant list.
fn clone_variants(vs: &Vec<(String, Vec<Ty>)>) -> (r: Vec<(String, Vec<Ty>)>)
    ensures
        variants_view(r@) == variants_view(vs@),
{
    let mut out: Vec<(String, Vec<Ty>)> = Vec::new();
    let mut i: usize = 0;
    while i < vs.len()
        invariant
            i <= vs@.len(),
            out@.len() == i,
            variants_view(out@) == variants_view(vs@.take(i as int)),
        decreases vs.len() - i,
    {
        let v = &vs[i];
        let ghost prev = out@;
        let name = string_of(v.0.as_str());
        out.push((name, clone_tys(&v.1)));
        assert forall|k: int| 0 <= k < i + 1 implies #[trigger] variants_view(out@)[k] == variants_view(
            vs@.take(i + 1),
        )[k] by {
            assert(vs@.take(i + 1)[k] == vs@[k]);
            if k < i {
                assert(out@[k] == prev[k]);
                assert(variants_view(prev)[k] == variants_view(vs@.take(i as int))[k]);
                assert(vs@.take(i as int)[k] == vs@[k]);
            }
        }
        assert(variants_view(out@) =~= variants_view(vs@.take(i + 1)));
        i = i + 1;
    }
    assert(vs@.take(vs.len() as int) =~= vs@);
    out
}

/// A copy of a handler's declaration.
fn clone_handler(h: &HandlerInfo) -> (r: HandlerInfo)
    ensures
        handler_view(r) == handler_view(*h),
{
    let mut methods: NameMap<Vec<(String, Vec<Ty>, Ty)>> = NameMap::new();
    let n = h.methods.len();
    let mut i: usize = 0;
    while i < n
        invariant
            i <= n,
            n == h.methods.key_seq().len(),
            h.methods@.dom() == h.methods.key_seq().to_set(),
            methods@.dom() == h.methods.key_seq().take(i as int).to_set(),
            forall|k: Seq<char>| #[trigger] methods@.contains_key(k) ==> methods_view(methods@[k]@)
                == methods_view(h.methods@[k]@),
        decreases n - i,
    {
        let k = h.methods.key_at(i);
        let v = h.methods.value_at(i);
        let ghost before = methods@;
        methods.insert(k.clone(), clone_sigs(v));
        proof {
            h.methods.key_seq().take(i as int).lemma_push_to_set_commute(h.methods.key_seq()[i as int]);
            assert(h.methods.key_seq().take(i + 1) =~= h.methods.key_seq().take(i as int).push(
                h.methods.key_seq()[i as int],
            ));
        }
        i = i + 1;
    }
    assert(h.methods.key_seq().take(n as int) =~= h.methods.key_seq());
    let r = HandlerInfo {
        handled_effects: h.handled_effects.clone(),
        uses_effects: h.uses_effects.clone(),
        fields: clone_fields(&h.fields),
        methods,
    };
    assert(handler_view(r).methods =~= handler_view(*h).methods);
    r
}


// ---------------------------------------------------------------------------
// Importing
// ---------------------------------------------------------------------------

/// What importing leaves alone: everything but the declarations and the
/// diagnostics.
pub open spec fn import_frame(a: Checker, b: Checker) -> bool {
    &&& b.substitution == a.substitution
    &&& b.current_effects == a.current_effects
    &&& b.current_errors == a.current_errors
    &&& b.current_function == a.current_function
    &&& b.observed() == a.observed()
    &&& b.next_var() == a.next_var()
}

impl Checker {
    /// Reports that two imports declare `name` differently.
    fn report_ambiguous(&mut self, name: &String)
        ensures
            reg_view(final(self).registry) == reg_view(old(self).registry),
            diags(final(self).errors@) == diags(old(self).errors@).push((ErrorCode::M0303, ambiguous_message(name@))),
            keeps_errors(old(self).errors@, final(self).errors@),
            import_frame(*old(self), *final(self)),
    {
        let mut message = string_of("ambiguous import: `");
        message.append(name.as_str());
        message.append("` is exported by multiple imported modules");
        self.err(ErrorCode::M0303, message);
    }

    fn import_function_symbol(&mut self, module: &ModuleInterface, name: &String)
        ensures
            ({
                let (g, d) = import_function(reg_view(old(self).registry), diags(old(self).errors@), *module, name@);
                &&& reg_view(final(self).registry) == g
                &&& diags(final(self).errors@) == d
            }),
            keeps_errors(old(self).errors@, final(self).errors@),
            import_frame(*old(self), *final(self)),
    {
        let ghost g = reg_view(self.registry);
        let ghost iv = iface_view(*module);
        let ghost n = name@;
        match module.functions.get(name.as_str()) {
            None => {
                assert(!iv.functions.contains_key(n));
            },
            Some(sig) => {
                let req = match module.function_caps.get(name.as_str()) {
                    Some(e) => e.clone(),
                    None => EffectSet::new(),
                };
                let errors = match module.function_errors.get(name.as_str()) {
                    Some(e) => e.clone(),
                    None => EffectSet::new(),
                };
                let tps = match module.function_type_params.get(name.as_str()) {
                    Some(v) => clone_names(v.as_slice()),
                    None => Vec::new(),
                };
                let wb = match module.function_where_bounds.get(name.as_str()) {
                    Some(v) => clone_bounds(v),
                    None => Vec::new(),
                };
                assert(req@ == set_or_empty(iv.function_caps, n));
                assert(errors@ == set_or_empty(error_views(module.function_errors@), n));
                assert(views(tps@) == names_or_empty(iv.function_type_params, n));
                assert(bounds_view(wb@) == bound_views(wb@));
                assert(bounds_view(wb@) == bounds_or_empty(iv.function_where_bounds, n)) by {
                    if module.function_where_bounds@.contains_key(n) {
                        assert(bound_views(module.function_where_bounds@[n]@) == bounds_view(module.function_where_bounds@[n]@));
                    } else {
                        assert(bounds_view(wb@) =~= Seq::<(Seq<char>, Seq<char>)>::empty());
                    }
                }
                let mut clash = false;
                match self.registry.functions.get(name.as_str()) {
                    Some(existing) => {
                        let ee = match self.registry.fn_errors.get(name.as_str()) {
                            Some(e) => e.clone(),
                            None => EffectSet::new(),
                        };
                        let et = match self.registry.fn_type_params.get(name.as_str()) {
                            Some(v) => clone_names(v.as_slice()),
                            None => Vec::new(),
                        };
                        let eb = match self.registry.fn_generic_bounds.get(name.as_str()) {
                            Some(v) => clone_bounds(v),
                            None => Vec::new(),
                        };
                        assert(ee@ == set_or_empty(g.fn_errors, n));
                        assert(views(et@) == names_or_empty(g.fn_type_params, n));
                        assert(bounds_view(eb@) == bounds_or_empty(g.fn_bounds, n)) by {
                            if self.registry.fn_generic_bounds@.contains_key(n) {
                                assert(bound_views(self.registry.fn_generic_bounds@[n]@) == bounds_view(
                                    self.registry.fn_generic_bounds@[n]@,
                                ));
                                assert(bound_views(eb@) == bounds_view(eb@));
                            } else {
                                assert(bounds_view(eb@) =~= Seq::<(Seq<char>, Seq<char>)>::empty());
                            }
                        }
                        let same = tys_eq(existing.0.as_slice(), sig.0.as_slice()) && ty_eq(&existing.1, &sig.1)
                            && set_eq(&existing.2, &req) && set_eq(&ee, &errors) && names_eq(
                            et.as_slice(),
                            tps.as_slice(),
                        ) && bounds_eq(&eb, &wb);
                        clash = !same;
                    },
                    None => {},
                }
                if clash {
                    self.report_ambiguous(name);
                    return;
                }
                let entry = (clone_tys(&sig.0), clone_ty(&sig.1), req);
                self.registry.functions.insert(name.clone(), entry);
                if errors.len() > 0 {
                    self.registry.fn_errors.insert(name.clone(), errors);
                }
                if tps.len() > 0 {
                    self.registry.fn_type_params.insert(name.clone(), tps);
                }
                if wb.len() > 0 {
                    self.registry.fn_generic_bounds.insert(name.clone(), wb);
                }
                let ghost r = reg_view(self.registry);
                assert(r.functions =~= g.functions.insert(n, (iv.functions[n].0, iv.functions[n].1, set_or_empty(iv.function_caps, n))));
                assert(r.fn_errors =~= if set_or_empty(error_views(module.function_errors@), n).len() > 0 {
                    g.fn_errors.insert(n, set_or_empty(error_views(module.function_errors@), n))
                } else {
                    g.fn_errors
                });
                assert(r.fn_type_params =~= if names_or_empty(iv.function_type_params, n).len() > 0 {
                    g.fn_type_params.insert(n, names_or_empty(iv.function_type_params, n))
                } else {
                    g.fn_type_params
                });
                assert(r.fn_bounds =~= if bounds_or_empty(iv.function_where_bounds, n).len() > 0 {
                    g.fn_bounds.insert(n, bounds_or_empty(iv.function_where_bounds, n))
                } else {
                    g.fn_bounds
                });
                assert(r.types =~= g.types);
                assert(r.structs =~= g.structs);
                assert(r.struct_type_params =~= g.struct_type_params);
                assert(r.handlers =~= g.handlers);
                assert(r.interfaces =~= g.interfaces);
            },
        }
    }
}


impl Checker {
    fn import_one_symbol(&mut self, module: &ModuleInterface, name: &String, kind: ImportedSymbol)
        ensures
            ({
                let (g, d) = import_symbol(reg_view(old(self).registry), diags(old(self).errors@), *module, name@, kind);
                &&& reg_view(final(self).registry) == g
                &&& diags(final(self).errors@) == d
            }),
            keeps_errors(old(self).errors@, final(self).errors@),
            import_frame(*old(self), *final(self)),
    {
        let ghost g = reg_view(self.registry);
        let ghost iv = iface_view(*module);
        let ghost n = name@;
        match kind {
            ImportedSymbol::Function => self.import_function_symbol(module, name),
            ImportedSymbol::Type => {
                match module.types.get(name.as_str()) {
                    Some(variants) => {
                        let copy = clone_variants(variants);
                        self.registry.types.insert(name.clone(), copy);
                        let ghost r = reg_view(self.registry);
                        assert(r.types =~= g.types.insert(n, iv.types[n]));
                        assert(r.functions =~= g.functions);
                        assert(r.fn_errors =~= g.fn_errors);
                        assert(r.fn_type_params =~= g.fn_type_params);
                        assert(r.fn_bounds =~= g.fn_bounds);
                        assert(r.structs =~= g.structs);
                        assert(r.struct_type_params =~= g.struct_type_params);
                        assert(r.handlers =~= g.handlers);
                        assert(r.interfaces =~= g.interfaces);
                    },
                    None => {},
                }
            },
            ImportedSymbol::Struct => {
                let ghost g1 = if iv.structs.contains_key(n) {
                    RegV { structs: g.structs.insert(n, iv.structs[n]), ..g }
                } else {
                    g
                };
                match module.structs.get(name.as_str()) {
                    Some(fields) => {
                        let copy = clone_fields(fields);
                        self.registry.structs.insert(name.clone(), copy);
                    },
                    None => {},
                }
                assert(reg_view(self.registry).structs =~= g1.structs);
                match module.struct_type_params.get(name.as_str()) {
                    Some(params) => {
                        let copy = clone_names(params.as_slice());
                        self.registry.struct_type_params.insert(name.clone(), copy);
                    },
                    None => {},
                }
                let ghost r = reg_view(self.registry);
                assert(r.struct_type_params =~= if iv.struct_type_params.contains_key(n) {
                    g1.struct_type_params.insert(n, iv.struct_type_params[n])
                } else {
                    g1.struct_type_params
                });
                assert(r.structs =~= g1.structs);
                assert(r.types =~= g.types);
                assert(r.functions =~= g.functions);
                assert(r.fn_errors =~= g.fn_errors);
                assert(r.fn_type_params =~= g.fn_type_params);
                assert(r.fn_bounds =~= g.fn_bounds);
                assert(r.handlers =~= g.handlers);
                assert(r.interfaces =~= g.interfaces);
            },
            ImportedSymbol::Handler => {
                match module.handlers.get(name.as_str()) {
                    Some(handler) => {
                        let clash = match self.registry.handlers.get(name.as_str()) {
                            Some(existing) => !handler_eq(existing, handler),
                            None => false,
                        };
                        if clash {
                            self.report_ambiguous(name);
                            return;
                        }
                        let copy = clone_handler(handler);
                        self.registry.handlers.insert(name.clone(), copy);
                        let ghost r = reg_view(self.registry);
                        assert(r.handlers =~= g.handlers.insert(n, handler_view(module.handlers@[n])));
                        assert(r.types =~= g.types);
                        assert(r.functions =~= g.functions);
                        assert(r.fn_errors =~= g.fn_errors);
                        assert(r.fn_type_params =~= g.fn_type_params);
                        assert(r.fn_bounds =~= g.fn_bounds);
                        assert(r.structs =~= g.structs);
                        assert(r.struct_type_params =~= g.struct_type_params);
                        assert(r.interfaces =~= g.interfaces);
                    },
                    None => {},
                }
            },
            ImportedSymbol::Interface => {
                if module.capabilities.contains(name.as_str()) {
                    let methods: (Vec<String>, Vec<(String, Vec<Ty>, Ty)>) = match module.capability_methods.get(
                        name.as_str(),
                    ) {
                        Some(m) => (clone_names(m.0.as_slice()), clone_sigs(&m.1)),
                        None => (Vec::new(), Vec::new()),
                    };
                    let ghost ms = if iv.capability_methods.contains_key(n) {
                        iv.capability_methods[n]
                    } else {
                        (Seq::<Seq<char>>::empty(), Seq::<(Seq<char>, Seq<TyV>, TyV)>::empty())
                    };
                    assert(views(methods.0@) == ms.0);
                    assert(methods_view(methods.1@) == ms.1);
                    let clash = match self.registry.interfaces.get(name.as_str()) {
                        Some(existing) => !(names_eq(existing.0.as_slice(), methods.0.as_slice()) && sigs_eq(
                            &existing.1,
                            &methods.1,
                        )),
                        None => false,
                    };
                    if clash {
                        self.report_ambiguous(name);
                        return;
                    }
                    self.registry.interfaces.insert(name.clone(), methods);
                    let ghost r = reg_view(self.registry);
                    assert(r.interfaces =~= g.interfaces.insert(n, ms));
                    assert(r.types =~= g.types);
                    assert(r.functions =~= g.functions);
                    assert(r.fn_errors =~= g.fn_errors);
                    assert(r.fn_type_params =~= g.fn_type_params);
                    assert(r.fn_bounds =~= g.fn_bounds);
                    assert(r.structs =~= g.structs);
                    assert(r.struct_type_params =~= g.struct_type_params);
                    assert(r.handlers =~= g.handlers);
                }
            },
        }
    }

    /// Imports the symbols that resolving an import of `module` gave, in
    /// order, as `import_all` says. The symbols keep their own names
    /// (`alias` does not prefix them).
    pub fn import_resolved_symbols(
        &mut self,
        module: &ModuleInterface,
        resolved: &[(String, ImportedSymbol)],
        alias: &str,
    )
        ensures
            ({
                let (g, d) = import_all(reg_view(old(self).registry), diags(old(self).errors@), *module, resolved@);
                &&& reg_view(final(self).registry) == g
                &&& diags(final(self).errors@) == d
            }),
            keeps_errors(old(self).errors@, final(self).errors@),
            import_frame(*old(self), *final(self)),
    {
        let ghost g0 = reg_view(self.registry);
        let ghost d0 = diags(self.errors@);
        let ghost s0 = *self;
        let mut i: usize = 0;
        assert(resolved@.take(0) =~= Seq::<(String, ImportedSymbol)>::empty());
        while i < resolved.len()
            invariant
                i <= resolved@.len(),
                keeps_errors(s0.errors@, self.errors@),
                import_frame(s0, *self),
                ({
                    let (g, d) = import_all(g0, d0, *module, resolved@.take(i as int));
                    &&& reg_view(self.registry) == g
                    &&& diags(self.errors@) == d
                }),
            decreases resolved.len() - i,
        {
            assert(resolved@.take(i + 1).drop_last() =~= resolved@.take(i as int));
            assert(resolved@.take(i + 1).last() == resolved@[i as int]);
            let (name, kind) = &resolved[i];
            self.import_one_symbol(module, name, *kind);
            i = i + 1;
        }
        assert(resolved@.take(resolved.len() as int) =~= resolved@);
    }
}

} // verus!
