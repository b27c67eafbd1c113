//! Type checking of match patterns: the types a pattern's parts must have,
//! the names it binds, and the diagnostics for patterns that cannot match.

use vstd::prelude::*;
use crate::ast::Pattern;
use crate::check::{
    Checker, Diags, advance, next_id, apply_list, find_field, find_field_in, inst_fields, inst_list,
    inst_view, mapping_views, sig_map, unify_depth, unify_spec, zip_map,
};
use crate::env::TypeRegistry;
use crate::error::{ErrorCode, diags};
use crate::name_map::NameMap;
use crate::effect_set::EffectSet;
use crate::names::{
    clone_names, join_strings, join_with, lemma_sorted_unique, sorted, sorted_listing, views,
};
use crate::text::{decimal, push_decimal, str_eq, string_of};
use crate::types::{
    Ty, TyV, clone_fields, clone_ty, fields_view, is_integer_ty, lemma_fields_view, lemma_text_view,
    lemma_tys_view, ty_view, tys_view, tyv_text,
};

verus! {

// ---------------------------------------------------------------------------
// The state a pattern check threads
// ---------------------------------------------------------------------------

/// What checking a pattern changes: the substitution, the variable counter
/// and the diagnostics.
pub struct Inference {
    pub s: Map<u32, TyV>,
    pub v: u32,
    pub d: Diags,
}

/// The part of a checker that checking a pattern changes.
pub open spec fn inference(c: Checker) -> Inference {
    Inference { s: c.substitution@, v: c.next_var(), d: diags(c.errors@) }
}

/// `b` is `a` with at most the substitution, the counter and the
/// diagnostics changed.
pub open spec fn pattern_frame(a: Checker, b: Checker) -> bool {
    &&& b.registry == a.registry
    &&& b.current_effects == a.current_effects
    &&& b.current_function == a.current_function
    &&& b.observed() == a.observed()
}

/// Unifying `e` with `a` in context `ctx`.
pub open spec fn unify_in(st: Inference, e: TyV, a: TyV, ctx: Seq<char>) -> Inference {
    let (s, d) = unify_spec(unify_depth(), st.s, e, a, ctx);
    Inference { s, v: st.v, d: st.d + d }
}

/// Reporting one diagnostic.
pub open spec fn report(st: Inference, code: ErrorCode, msg: Seq<char>) -> Inference {
    Inference { s: st.s, v: st.v, d: st.d.push((code, msg)) }
}

/// Handing out `k` fresh variables.
pub open spec fn take_vars(st: Inference, k: nat) -> Inference {
    Inference { s: st.s, v: advance(st.v, k), d: st.d }
}

// ---------------------------------------------------------------------------
// Variants
// ---------------------------------------------------------------------------

/// The field types of the first variant named `n` at position `j` or later.
pub open spec fn variant_from(vs: Seq<(String, Vec<Ty>)>, n: Seq<char>, j: nat) -> Option<Seq<TyV>>
    decreases vs.len() - j,
{
    if j >= vs.len() {
        None
    } else if vs[j as int].0@ == n {
        Some(tys_view(vs[j as int].1@))
    } else {
        variant_from(vs, n, j + 1)
    }
}

/// The field types of the variant `n` of the sum type `t`, if both exist.
pub open spec fn type_variant(reg: TypeRegistry, t: Seq<char>, n: Seq<char>) -> Option<Seq<TyV>> {
    if reg.types@.contains_key(t) {
        variant_from(reg.types@[t]@, n, 0)
    } else {
        None
    }
}

/// The declared type parameters of `t` in a table of them.
pub open spec fn params_of(m: Map<Seq<char>, Vec<String>>, t: Seq<char>) -> Option<Seq<Seq<char>>> {
    if m.contains_key(t) {
        Some(views(m[t]@))
    } else {
        None
    }
}

/// The first sum type, in increasing name order from position `i`, with a
/// variant named `n`.
pub open spec fn first_type_from(reg: TypeRegistry, n: Seq<char>, i: nat) -> Option<Seq<char>>
    decreases reg.types.key_seq().len() - i,
{
    let keys = reg.types.key_seq();
    if i >= keys.len() {
        None
    } else if type_variant(reg, keys[i as int], n) is Some {
        Some(keys[i as int])
    } else {
        first_type_from(reg, n, i + 1)
    }
}

/// The named types of a list of type parameters.
pub open spec fn param_types(ps: Seq<Seq<char>>) -> Seq<TyV> {
    ps.map_values(|p: Seq<char>| TyV::Named(p))
}

/// The context in which a variant pattern unifies its type.
pub open spec fn pattern_context(n: Seq<char>) -> Seq<char> {
    "pattern `"@ + n + "`"@
}

/// The field types that the variant named `n` gives to a value of type `t`.
///
/// A named or applied type with such a variant gives that variant's fields;
/// an applied generic type with as many arguments as parameters gives them
/// instantiated. Otherwise the first sum type, in name order, that has
/// such a variant is taken: its type (with fresh variables for its
/// parameters, which are applied to the fields) is unified with `t`. A
/// named type's own variant unifies that name with `t` too.
pub open spec fn variant_spec(
    reg: TypeRegistry,
    st: Inference,
    n: Seq<char>,
    t: TyV,
) -> (Inference, Option<Seq<TyV>>) {
    let ctx = pattern_context(n);
    let direct = match t {
        TyV::Named(tn) => type_variant(reg, tn, n),
        TyV::App(tn, _) => type_variant(reg, tn, n),
        _ => None,
    };
    if direct is Some {
        match t {
            TyV::App(tn, args) => {
                let ps = params_of(reg.type_type_params@, tn);
                if ps is Some && ps->0.len() == args.len() {
                    (st, Some(inst_list(zip_map(ps->0, args), direct->0)))
                } else {
                    (st, direct)
                }
            },
            _ => (unify_in(st, TyV::Named(t->Named_0), t, ctx), direct),
        }
    } else {
        match first_type_from(reg, n, 0) {
            None => (st, None),
            Some(tn) => {
                let ft = type_variant(reg, tn, n)->0;
                let ps = params_of(reg.type_type_params@, tn);
                if ps is Some && ps->0.len() > 0 {
                    let m = sig_map(ps->0, st.v);
                    let st1 = take_vars(st, ps->0.len());
                    let st2 = unify_in(st1, inst_view(m, TyV::App(tn, param_types(ps->0))), t, ctx);
                    (st2, Some(apply_list(st2.s, st2.s.dom().len(), inst_list(m, ft))))
                } else {
                    (unify_in(st, TyV::Named(tn), t, ctx), Some(ft))
                }
            },
        }
    }
}

// ---------------------------------------------------------------------------
// Structs
// ---------------------------------------------------------------------------

/// The fields that a struct pattern for struct `n` (declared with fields
/// `def`) checks against a value of type `t`, and the type it unifies with
/// `t`: an application of `n` to as many arguments as it has parameters
/// gives the fields instantiated with them, and itself; a generic struct
/// otherwise gets fresh variables for its parameters; a struct without
/// parameters gives its fields and its name.
pub open spec fn struct_fields_spec(
    reg: TypeRegistry,
    st: Inference,
    n: Seq<char>,
    def: Seq<(Seq<char>, TyV)>,
    t: TyV,
) -> (Inference, Seq<(Seq<char>, TyV)>, TyV) {
    let ps = params_of(reg.struct_type_params@, n);
    if t is App && t->App_0 == n && ps is Some && ps->0.len() == t->App_1.len() {
        (st, inst_fields(zip_map(ps->0, t->App_1), def), t)
    } else if ps is Some && ps->0.len() > 0 {
        let m = sig_map(ps->0, st.v);
        (
            take_vars(st, ps->0.len()),
            inst_fields(m, def),
            inst_view(m, TyV::App(n, param_types(ps->0))),
        )
    } else {
        (st, def, TyV::Named(n))
    }
}

// ---------------------------------------------------------------------------
// Patterns
// ---------------------------------------------------------------------------

/// The eight integer types.
pub open spec fn is_integer_v(t: TyV) -> bool {
    t is I8 || t is I16 || t is I32 || t is I64 || t is U8 || t is U16 || t is U32 || t is U64
}

/// The message for a literal pattern of kind `kind` against type `t`.
pub open spec fn literal_message(kind: Seq<char>, t: TyV) -> Seq<char> {
    kind + " pattern cannot match type `"@ + tyv_text(t) + "`"@
}

/// The message for a variant pattern with the wrong number of fields.
pub open spec fn arity_message(n: Seq<char>, expected: nat, got: nat) -> Seq<char> {
    "variant `"@ + n + "` expects "@ + decimal(expected) + " fields, got "@ + decimal(got)
}

/// The names a list of bindings binds.
pub open spec fn binding_names(bs: Seq<(Seq<char>, TyV)>) -> Set<Seq<char>> {
    bs.map_values(|b: (Seq<char>, TyV)| b.0).to_set()
}

/// The text that `{:?}` gives for a string: the string in double quotes,
/// with the characters that `str::escape_debug` escapes escaped.
pub uninterp spec fn str_debug(s: Seq<char>) -> Seq<char>;

/// The text that `{:?}` gives for an ordered set of names: each name's
/// debug text, in increasing order, between braces.
pub open spec fn name_set_text(ns: Set<Seq<char>>) -> Seq<char> {
    "{"@ + join_with(sorted_listing(ns).map_values(|n: Seq<char>| str_debug(n)), ", "@) + "}"@
}

/// The message for or-pattern alternatives that bind different names.
pub open spec fn or_message(expected: Set<Seq<char>>, found: Set<Seq<char>>) -> Seq<char> {
    "or-pattern alternatives must bind the same names: expected "@ + name_set_text(expected)
        + ", found "@ + name_set_text(found)
}

/// The context in which an or-pattern unifies the types of a binding.
pub open spec fn or_binding_context(n: Seq<char>) -> Seq<char> {
    "or-pattern binding `"@ + n + "` type mismatch across alternatives"@
}

/// Checking pattern `p` against a value of type `t`: the state after, and
/// the bindings it introduces (name and type), in order.
///
/// A wildcard binds nothing; a variable binds its name, unless it names a
/// variant without fields. Literals must match an integer, string or
/// boolean type (or the error type). A variant pattern checks its
/// sub-patterns against the variant's fields, reporting a wrong count; an
/// unknown variant is reported. A struct pattern unifies the struct's type
/// with `t` and checks each field pattern against the field of its name,
/// reporting unknown structs and fields. Each alternative of an or-pattern
/// must bind the same names as the first, whose bindings are kept and
/// unified with the others position by position. A list pattern unifies
/// `List[?]` with `t`, checks each element against the fresh element type,
/// and binds the rest name to `t`.
pub open spec fn pattern_spec(
    reg: TypeRegistry,
    st: Inference,
    p: Pattern,
    t: TyV,
) -> (Inference, Seq<(Seq<char>, TyV)>)
    decreases p, 0nat,
{
    let none = Seq::<(Seq<char>, TyV)>::empty();
    match p {
        Pattern::Wildcard => (st, none),
        Pattern::Var(n) => {
            let (st1, f) = variant_spec(reg, st, n@, t);
            if f is Some && f->0.len() == 0 {
                (st1, none)
            } else {
                (st1, seq![(n@, t)])
            }
        },
        Pattern::IntLit(_) => if !is_integer_v(t) && !(t is Error) {
            (report(st, ErrorCode::E0011, literal_message("integer"@, t)), none)
        } else {
            (st, none)
        },
        Pattern::StrLit(_) => if !(t is Str) && !(t is Error) {
            (report(st, ErrorCode::E0011, literal_message("string"@, t)), none)
        } else {
            (st, none)
        },
        Pattern::BoolLit(_) => if !(t is Bool) && !(t is Error) {
            (report(st, ErrorCode::E0011, literal_message("boolean"@, t)), none)
        } else {
            (st, none)
        },
        Pattern::Constructor(n, ps) => {
            let (st1, f) = variant_spec(reg, st, n@, t);
            match f {
                Some(ft) => {
                    let st2 = if ps@.len() != ft.len() {
                        report(st1, ErrorCode::E0007, arity_message(n@, ft.len(), ps@.len()))
                    } else {
                        st1
                    };
                    let k = if ps@.len() < ft.len() {
                        ps@.len()
                    } else {
                        ft.len()
                    };
                    sub_patterns_spec(reg, st2, ps@, ft, k)
                },
                None => if !(t is Error) {
                    (report(st1, ErrorCode::E0006, "unknown variant `"@ + n@ + "`"@), none)
                } else {
                    (st1, none)
                },
            }
        },
        Pattern::Struct(n, fps) => if reg.structs@.contains_key(n@) {
            let (st1, fields, expected) = struct_fields_spec(
                reg,
                st,
                n@,
                fields_view(reg.structs@[n@]@),
                t,
            );
            let st2 = unify_in(st1, expected, t, "struct pattern `"@ + n@ + "`"@);
            field_patterns_spec(reg, st2, n@, fields, fps@, fps@.len())
        } else if !(t is Error) {
            (report(st, ErrorCode::E0005, "unknown struct `"@ + n@ + "` in pattern"@), none)
        } else {
            (st, none)
        },
        Pattern::Or(ps) => if ps@.len() == 0 {
            (st, none)
        } else {
            let (st1, first) = pattern_spec(reg, st, ps@[0], t);
            (or_alternatives_spec(reg, st1, ps@, ps@.len(), t, first), first)
        },
        Pattern::List(ps, rest) => {
            let elem = TyV::Var(st.v);
            let st1 = take_vars(st, 1);
            let st2 = unify_in(st1, TyV::App("List"@, seq![elem]), t, "list pattern"@);
            let (st3, b) = list_elements_spec(reg, st2, ps@, elem, ps@.len());
            match rest {
                Some(r) => (st3, b.push((r@, t))),
                None => (st3, b),
            }
        },
    }
}

/// Checking the first `n` patterns against the types at the same positions,
/// in order.
pub open spec fn sub_patterns_spec(
    reg: TypeRegistry,
    st: Inference,
    ps: Seq<Pattern>,
    tys: Seq<TyV>,
    n: nat,
) -> (Inference, Seq<(Seq<char>, TyV)>)
    decreases ps, n,
{
    if n == 0 || n > ps.len() || n > tys.len() {
        (st, Seq::empty())
    } else {
        let (st1, b1) = sub_patterns_spec(reg, st, ps, tys, (n - 1) as nat);
        let (st2, b2) = pattern_spec(reg, st1, ps[n - 1], tys[n - 1]);
        (st2, b1 + b2)
    }
}

/// Checking the first `n` field patterns of a struct pattern for struct
/// `sname`, each against the first field of its name; a field the struct
/// lacks is reported.
pub open spec fn field_patterns_spec(
    reg: TypeRegistry,
    st: Inference,
    sname: Seq<char>,
    fields: Seq<(Seq<char>, TyV)>,
    fps: Seq<(String, Pattern)>,
    n: nat,
) -> (Inference, Seq<(Seq<char>, TyV)>)
    decreases fps, n,
{
    if n == 0 || n > fps.len() {
        (st, Seq::empty())
    } else {
        let (st1, b1) = field_patterns_spec(reg, st, sname, fields, fps, (n - 1) as nat);
        match find_field(fields, fps[n - 1].0@) {
            Some(fty) => {
                let (st2, b2) = pattern_spec(reg, st1, fps[n - 1].1, fty);
                (st2, b1 + b2)
            },
            None => (
                report(
                    st1,
                    ErrorCode::E0015,
                    "struct `"@ + sname + "` has no field `"@ + fps[n - 1].0@ + "`"@,
                ),
                b1,
            ),
        }
    }
}

/// Checking the alternatives at positions `1..n` of an or-pattern against
/// type `t`, each compared with the bindings `first` of the first one.
pub open spec fn or_alternatives_spec(
    reg: TypeRegistry,
    st: Inference,
    ps: Seq<Pattern>,
    n: nat,
    t: TyV,
    first: Seq<(Seq<char>, TyV)>,
) -> Inference
    decreases ps, n,
{
    if n <= 1 || n > ps.len() {
        st
    } else {
        let st1 = or_alternatives_spec(reg, st, ps, (n - 1) as nat, t, first);
        let (st2, alt) = pattern_spec(reg, st1, ps[n - 1], t);
        if binding_names(first) != binding_names(alt) {
            report(st2, ErrorCode::E0504, or_message(binding_names(first), binding_names(alt)))
        } else {
            let k = if first.len() < alt.len() {
                first.len()
            } else {
                alt.len()
            };
            unify_bindings_spec(st2, first, alt, k)
        }
    }
}

/// Unifying the types of the first `n` bindings of two alternatives,
/// position by position.
pub open spec fn unify_bindings_spec(
    st: Inference,
    xs: Seq<(Seq<char>, TyV)>,
    ys: Seq<(Seq<char>, TyV)>,
    n: nat,
) -> Inference
    decreases n,
{
    if n == 0 || n > xs.len() || n > ys.len() {
        st
    } else {
        unify_in(
            unify_bindings_spec(st, xs, ys, (n - 1) as nat),
            xs[n - 1].1,
            ys[n - 1].1,
            or_binding_context(xs[n - 1].0),
        )
    }
}

/// Checking the first `n` element patterns of a list pattern against the
/// element type.
pub open spec fn list_elements_spec(
    reg: TypeRegistry,
    st: Inference,
    ps: Seq<Pattern>,
    elem: TyV,
    n: nat,
) -> (Inference, Seq<(Seq<char>, TyV)>)
    decreases ps, n,
{
    if n == 0 || n > ps.len() {
        (st, Seq::empty())
    } else {
        let (st1, b1) = list_elements_spec(reg, st, ps, elem, (n - 1) as nat);
        let (st2, b2) = pattern_spec(reg, st1, ps[n - 1], elem);
        (st2, b1 + b2)
    }
}

/// `{:?}` of a string, by `<str as core::fmt::Debug>::fmt`: the text is
/// named, not stated; it is a function of the string alone.
#[verifier::external_body]
fn debug_text(s: &str) -> (r: String)
    ensures
        r@ == str_debug(s@),
{
    format!("{:?}", s)
}

/// The text `{:?}` gives for the set of names `set`.
fn name_set_text_of(set: &EffectSet) -> (r: String)
    ensures
        r@ == name_set_text(set@),
{
    let listing = set.iter();
    proof {
        set.lemma_finite();
        assert(sorted(sorted_listing(set@)) && sorted_listing(set@).to_set() == set@);
        lemma_sorted_unique(views(listing@), sorted_listing(set@));
    }
    let mut parts: Vec<String> = Vec::new();
    let mut i: usize = 0;
    while i < listing.len()
        invariant
            i <= listing@.len(),
            parts@.len() == i,
            forall|k: int| 0 <= k < i ==> (#[trigger] parts@[k])@ == str_debug(listing@[k]@),
        decreases listing.len() - i,
    {
        parts.push(debug_text(listing[i].as_str()));
        i = i + 1;
    }
    assert(views(parts@) =~= sorted_listing(set@).map_values(|n: Seq<char>| str_debug(n)));
    let mut r = string_of("{");
    let joined = join_strings(parts.as_slice(), ", ");
    r.append(joined.as_str());
    r.append("}");
    r
}

/// Copies of the field types of the variant `name` of the sum type `t`.
fn lookup_variant(reg: &TypeRegistry, t: &str, name: &str) -> (r: Option<Vec<Ty>>)
    ensures
        match r {
            Some(v) => type_variant(*reg, t@, name@) == Some(tys_view(v@)),
            None => type_variant(*reg, t@, name@) is None,
        },
{
    let variants = match reg.types.get(t) {
        Some(vs) => vs,
        None => return None,
    };
    let mut j: usize = 0;
    while j < variants.len()
        invariant
            j <= variants@.len(),
            reg.types@.contains_key(t@),
            *variants == reg.types@[t@],
            variant_from(variants@, name@, 0) == variant_from(variants@, name@, j as nat),
        decreases variants.len() - j,
    {
        if str_eq(variants[j].0.as_str(), name) {
            let mut out: Vec<Ty> = Vec::new();
            let fields = &variants[j].1;
            let mut k: usize = 0;
            while k < fields.len()
                invariant
                    k <= fields@.len(),
                    tys_view(out@) == tys_view(fields@.take(k as int)),
                decreases fields.len() - k,
            {
                let ghost prev = out@;
                out.push(clone_ty(&fields[k]));
                assert(out@.drop_last() =~= prev);
                assert(fields@.take(k + 1).drop_last() =~= fields@.take(k as int));
                k = k + 1;
            }
            assert(fields@.take(fields.len() as int) =~= fields@);
            return Some(out);
        }
        j = j + 1;
    }
    None
}

/// The first sum type, in increasing name order, with a variant named
/// `name`.
fn first_type_with_variant(reg: &TypeRegistry, name: &str) -> (r: Option<String>)
    ensures
        match r {
            Some(t) => first_type_from(*reg, name@, 0) == Some(t@),
            None => first_type_from(*reg, name@, 0) is None,
        },
{
    let n = reg.types.len();
    let mut i: usize = 0;
    while i < n
        invariant
            i <= n,
            n == reg.types.key_seq().len(),
            first_type_from(*reg, name@, 0) == first_type_from(*reg, name@, i as nat),
        decreases n - i,
    {
        let t = reg.types.key_at(i);
        match lookup_variant(reg, t.as_str(), name) {
            Some(_) => return Some(t.clone()),
            None => {},
        }
        i = i + 1;
    }
    None
}

/// Each name paired with the type at the same position; a later pair for
/// the same name replaces an earlier one.
fn zip_mapping(ps: &Vec<String>, xs: &Vec<Ty>) -> (m: NameMap<Ty>)
    requires
        ps@.len() == xs@.len(),
    ensures
        mapping_views(m@) == zip_map(views(ps@), tys_view(xs@)),
{
    proof { lemma_tys_view(xs@); }
    let mut m: NameMap<Ty> = NameMap::new();
    let mut i: usize = 0;
    assert(mapping_views(m@) =~= zip_map(views(ps@).take(0), tys_view(xs@).take(0)));
    while i < ps.len()
        invariant
            i <= ps@.len(),
            ps@.len() == xs@.len(),
            tys_view(xs@).len() == xs@.len(),
            forall|k: int| 0 <= k < xs@.len() ==> #[trigger] tys_view(xs@)[k] == ty_view(xs@[k]),
            mapping_views(m@) == zip_map(views(ps@).take(i as int), tys_view(xs@).take(i as int)),
        decreases ps.len() - i,
    {
        let t = clone_ty(&xs[i]);
        let ghost before = m@;
        m.insert(ps[i].clone(), t);
        assert(views(ps@).take(i + 1).drop_last() =~= views(ps@).take(i as int));
        assert(tys_view(xs@).take(i + 1).drop_last() =~= tys_view(xs@).take(i as int));
        assert(mapping_views(m@) =~= mapping_views(before).insert(ps@[i as int]@, ty_view(t)));
        i = i + 1;
    }
    assert(views(ps@).take(ps.len() as int) =~= views(ps@));
    assert(tys_view(xs@).take(xs.len() as int) =~= tys_view(xs@));
    m
}

/// The named types of a list of type parameters.
fn named_types(ps: &Vec<String>) -> (r: Vec<Ty>)
    ensures
        tys_view(r@) == param_types(views(ps@)),
{
    let mut r: Vec<Ty> = Vec::new();
    let mut i: usize = 0;
    while i < ps.len()
        invariant
            i <= ps@.len(),
            r@.len() == i,
            forall|k: int| 0 <= k < i ==> ty_view(#[trigger] r@[k]) == TyV::Named(ps@[k]@),
        decreases ps.len() - i,
    {
        r.push(Ty::Named(ps[i].clone()));
        i = i + 1;
    }
    proof { lemma_tys_view(r@); }
    assert(tys_view(r@) =~= param_types(views(ps@)));
    r
}

/// The text `pattern `n``.
fn pattern_context_text(n: &str) -> (r: String)
    ensures
        r@ == pattern_context(n@),
{
    let mut r = string_of("pattern `");
    r.append(n);
    r.append("`");
    r
}

impl Checker {
    /// Each type with the current substitution applied.
    fn apply_subst_all(&self, ts: &Vec<Ty>) -> (r: Vec<Ty>)
        ensures
            tys_view(r@) == apply_list(
                self.substitution@,
                self.substitution@.dom().len(),
                tys_view(ts@),
            ),
    {
        let ghost s = self.substitution@;
        let mut r: Vec<Ty> = Vec::new();
        let mut i: usize = 0;
        assert(tys_view(ts@.take(0)) =~= Seq::<TyV>::empty());
        assert(tys_view(r@) =~= Seq::<TyV>::empty());
        while i < ts.len()
            invariant
                i <= ts@.len(),
                s == self.substitution@,
                tys_view(r@) == apply_list(s, s.dom().len(), tys_view(ts@.take(i as int))),
            decreases ts.len() - i,
        {
            let t = self.apply_subst(&ts[i]);
            let ghost prev = r@;
            r.push(t);
            assert(r@.drop_last() =~= prev);
            assert(ts@.take(i + 1).drop_last() =~= ts@.take(i as int));
            assert(tys_view(ts@.take(i + 1)).drop_last() =~= tys_view(ts@.take(i as int)));
            i = i + 1;
        }
        assert(ts@.take(ts.len() as int) =~= ts@);
        r
    }

    /// The field types that the variant `name` gives to a value of type
    /// `scrutinee_ty`, unifying the variant's type with it where the
    /// variant is found by name alone.
    fn variant_pattern_field_types(&mut self, name: &str, scrutinee_ty: &Ty) -> (r: Option<Vec<Ty>>)
        ensures
            ({
                let (st, f) = variant_spec(
                    old(self).registry,
                    inference(*old(self)),
                    name@,
                    ty_view(*scrutinee_ty),
                );
                &&& inference(*final(self)) == st
                &&& match r {
                    Some(v) => f == Some(tys_view(v@)),
                    None => f is None,
                }
            }),
            pattern_frame(*old(self), *final(self)),
    {
        let ctx = pattern_context_text(name);
        match scrutinee_ty {
            Ty::Named(tn) => {
                match lookup_variant(&self.registry, tn.as_str(), name) {
                    Some(fts) => {
                        let expected = Ty::Named(tn.clone());
                        self.unify(&expected, scrutinee_ty, ctx.as_str());
                        return Some(fts);
                    },
                    None => {},
                }
            },
            Ty::App(tn, args) => {
                match lookup_variant(&self.registry, tn.as_str(), name) {
                    Some(fts) => {
                        proof { lemma_tys_view(args@); }
                        assert(ty_view(*scrutinee_ty) == TyV::App(tn@, tys_view(args@)));
                        match self.registry.type_type_params.get(tn.as_str()) {
                            Some(tps) => {
                                if tps.len() == args.len() {
                                    assert(ty_view(*scrutinee_ty) == TyV::App(tn@, tys_view(args@)));
                                    assert(type_variant(self.registry, tn@, name@) == Some(tys_view(fts@)));
                                    assert(params_of(self.registry.type_type_params@, tn@) == Some(views(tps@)));
                                    proof { lemma_tys_view(args@); }
                                    let mapping = zip_mapping(tps, args);
                                    return Some(self.instantiate_tys(fts.as_slice(), &mapping));
                                }
                            },
                            None => {},
                        }
                        return Some(fts);
                    },
                    None => {},
                }
            },
            _ => {},
        }
        let tn = match first_type_with_variant(&self.registry, name) {
            Some(t) => t,
            None => return None,
        };
        let fts = match lookup_variant(&self.registry, tn.as_str(), name) {
            Some(f) => f,
            None => {
                proof {
                    assert(false) by {
                        lemma_first_type_has_variant(self.registry, name@, 0);
                    }
                }
                return None;
            },
        };
        let tps = match self.registry.type_type_params.get(tn.as_str()) {
            Some(ps) => clone_names(ps.as_slice()),
            None => Vec::new(),
        };
        if tps.len() > 0 {
            let ret_ty = Ty::App(tn.clone(), named_types(&tps));
            let (inst_fields, inst_ret, _) = self.instantiate_sig(tps.as_slice(), fts.as_slice(), &ret_ty);
            self.unify(&inst_ret, scrutinee_ty, ctx.as_str());
            Some(self.apply_subst_all(&inst_fields))
        } else {
            let expected = Ty::Named(tn);
            self.unify(&expected, scrutinee_ty, ctx.as_str());
            Some(fts)
        }
    }
}

impl Checker {
    /// Each field's type instantiated with `mapping`.
    fn instantiate_fields(&self, fs: &Vec<(String, Ty)>, mapping: &NameMap<Ty>) -> (r: Vec<(String, Ty)>)
        ensures
            fields_view(r@) == inst_fields(mapping_views(mapping@), fields_view(fs@)),
    {
        let ghost m = mapping_views(mapping@);
        let mut out: Vec<(String, Ty)> = Vec::new();
        let mut i: usize = 0;
        assert(fs@.take(0) =~= Seq::<(String, Ty)>::empty());
        assert(fields_view(out@) =~= Seq::<(Seq<char>, TyV)>::empty());
        assert(fields_view(fs@.take(0)) =~= Seq::<(Seq<char>, TyV)>::empty());
        while i < fs.len()
            invariant
                i <= fs@.len(),
                m == mapping_views(mapping@),
                fields_view(out@) == inst_fields(m, fields_view(fs@.take(i as int))),
            decreases fs.len() - i,
        {
            let t = self.instantiate_ty(&fs[i].1, mapping);
            let ghost prev = out@;
            out.push((fs[i].0.clone(), t));
            assert(out@.drop_last() =~= prev);
            assert(fs@.take(i + 1).drop_last() =~= fs@.take(i as int));
            assert(fields_view(fs@.take(i + 1)).drop_last() =~= fields_view(fs@.take(i as int)));
            i = i + 1;
        }
        assert(fs@.take(fs.len() as int) =~= fs@);
        out
    }

    /// The fields of struct `name` instantiated with `args`, when the
    /// struct has as many type parameters.
    fn apply_struct_args(&self, name: &str, field_defs: &Vec<(String, Ty)>, args: &Vec<Ty>) -> (r:
        Option<Vec<(String, Ty)>>)
        ensures
            ({
                let ps = params_of(self.registry.struct_type_params@, name@);
                match r {
                    Some(fs) => ps is Some && ps->0.len() == args@.len() && fields_view(fs@)
                        == inst_fields(zip_map(ps->0, tys_view(args@)), fields_view(field_defs@)),
                    None => !(ps is Some && ps->0.len() == args@.len()),
                }
            }),
    {
        let tps = match self.registry.struct_type_params.get(name) {
            Some(ps) => ps,
            None => return None,
        };
        if tps.len() != args.len() {
            return None;
        }
        let mapping = zip_mapping(tps, args);
        Some(self.instantiate_fields(field_defs, &mapping))
    }

    /// The fields of struct `name` with fresh variables for its type
    /// parameters, and its type; a struct without parameters keeps its
    /// fields and is named.
    fn instantiate_struct_fields(&mut self, name: &str, field_defs: &Vec<(String, Ty)>) -> (r: (
        Vec<(String, Ty)>,
        Ty,
    ))
        ensures
            ({
                let ps = params_of(old(self).registry.struct_type_params@, name@);
                if ps is Some && ps->0.len() > 0 {
                    let m = sig_map(ps->0, old(self).next_var());
                    &&& inference(*final(self)) == take_vars(inference(*old(self)), ps->0.len())
                    &&& fields_view(r.0@) == inst_fields(m, fields_view(field_defs@))
                    &&& ty_view(r.1) == inst_view(m, TyV::App(name@, param_types(ps->0)))
                } else {
                    &&& inference(*final(self)) == inference(*old(self))
                    &&& fields_view(r.0@) == fields_view(field_defs@)
                    &&& ty_view(r.1) == TyV::Named(name@)
                }
            }),
            pattern_frame(*old(self), *final(self)),
    {
        let tps = match self.registry.struct_type_params.get(name) {
            Some(ps) => clone_names(ps.as_slice()),
            None => Vec::new(),
        };
        if tps.len() > 0 {
            let ret_ty = Ty::App(string_of(name), named_types(&tps));
            let no_fields: Vec<Ty> = Vec::new();
            let (_, inst_ret, mapping) = self.instantiate_sig(tps.as_slice(), no_fields.as_slice(), &ret_ty);
            let fields = self.instantiate_fields(field_defs, &mapping);
            (fields, inst_ret)
        } else {
            (clone_fields(field_defs), Ty::Named(string_of(name)))
        }
    }

    /// The fields a struct pattern for `name` checks against a value of
    /// type `ty`, and the type to unify with `ty`.
    pub(crate) fn struct_fields_for_type(&mut self, name: &str, field_defs: &Vec<(String, Ty)>, ty: &Ty) -> (r: (
        Vec<(String, Ty)>,
        Ty,
    ))
        ensures
            ({
                let (st, fs, e) = struct_fields_spec(
                    old(self).registry,
                    inference(*old(self)),
                    name@,
                    fields_view(field_defs@),
                    ty_view(*ty),
                );
                &&& inference(*final(self)) == st
                &&& fields_view(r.0@) == fs
                &&& ty_view(r.1) == e
            }),
            pattern_frame(*old(self), *final(self)),
    {
        match ty {
            Ty::App(actual, args) => {
                proof { lemma_tys_view(args@); }
                if str_eq(actual.as_str(), name) {
                    match self.apply_struct_args(name, field_defs, args) {
                        Some(fields) => return (fields, clone_ty(ty)),
                        None => {},
                    }
                }
            },
            _ => {},
        }
        self.instantiate_struct_fields(name, field_defs)
    }
}

/// What a type's kind says of its value.
pub proof fn lemma_kind_view(t: Ty)
    ensures
        is_integer_ty(t) == is_integer_v(ty_view(t)),
        crate::types::is_numeric_ty(t) == (is_integer_v(ty_view(t)) || ty_view(t) is F32 || ty_view(t) is F64),
        (t is Str) == (ty_view(t) is Str),
        (t is Bool) == (ty_view(t) is Bool),
        (t is Error) == (ty_view(t) is Error),
{
}

/// Bindings appended to bindings.
fn extend_bindings(out: &mut Vec<(String, Ty)>, bs: Vec<(String, Ty)>)
    ensures
        fields_view(final(out)@) == fields_view(old(out)@) + fields_view(bs@),
{
    let mut bs = bs;
    let ghost a = out@;
    let ghost b = bs@;
    out.append(&mut bs);
    proof {
        lemma_fields_view(a);
        lemma_fields_view(b);
        lemma_fields_view(out@);
        assert(fields_view(out@) =~= fields_view(a) + fields_view(b));
    }
}

/// The names of a list of bindings, in order.
fn binding_name_list(bs: &Vec<(String, Ty)>) -> (r: Vec<String>)
    ensures
        views(r@) == fields_view(bs@).map_values(|b: (Seq<char>, TyV)| b.0),
{
    proof { lemma_fields_view(bs@); }
    let mut r: Vec<String> = Vec::new();
    let mut i: usize = 0;
    while i < bs.len()
        invariant
            i <= bs@.len(),
            r@.len() == i,
            forall|k: int| 0 <= k < i ==> (#[trigger] r@[k])@ == bs@[k].0@,
        decreases bs.len() - i,
    {
        r.push(bs[i].0.clone());
        i = i + 1;
    }
    assert(views(r@) =~= fields_view(bs@).map_values(|b: (Seq<char>, TyV)| b.0));
    r
}

/// The message for a literal pattern of kind `kind` against `t`.
fn literal_message_text(kind: &str, t: &Ty) -> (r: String)
    ensures
        r@ == literal_message(kind@, ty_view(*t)),
{
    proof { lemma_text_view(*t); }
    let mut r = string_of(kind);
    r.append(" pattern cannot match type `");
    let text = t.to_string();
    r.append(text.as_str());
    r.append("`");
    r
}

/// The message for or-pattern alternatives that bind different names.
fn or_message_text(expected: &EffectSet, found: &EffectSet) -> (r: String)
    ensures
        r@ == or_message(expected@, found@),
{
    let mut r = string_of("or-pattern alternatives must bind the same names: expected ");
    let a = name_set_text_of(expected);
    r.append(a.as_str());
    r.append(", found ");
    let b = name_set_text_of(found);
    r.append(b.as_str());
    r
}

impl Checker {
    /// Type-checks a pattern against the type of the value it matches, and
    /// returns the bindings it introduces (name, type), in order.
    pub fn check_pattern(&mut self, pattern: &Pattern, scrutinee_ty: &Ty) -> (r: Vec<(String, Ty)>)
        ensures
            ({
                let (st, b) = pattern_spec(
                    old(self).registry,
                    inference(*old(self)),
                    *pattern,
                    ty_view(*scrutinee_ty),
                );
                &&& inference(*final(self)) == st
                &&& fields_view(r@) == b
            }),
            pattern_frame(*old(self), *final(self)),
        decreases pattern, 2nat,
    {
        proof { lemma_kind_view(*scrutinee_ty); }
        match pattern {
            Pattern::Wildcard => {
                let r: Vec<(String, Ty)> = Vec::new();
                assert(fields_view(r@) =~= Seq::<(Seq<char>, TyV)>::empty());
                r
            },
            Pattern::Var(name) => {
                let f = self.variant_pattern_field_types(name.as_str(), scrutinee_ty);
                let unit = match &f {
                    Some(v) => {
                        proof { lemma_tys_view(v@); }
                        v.len() == 0
                    },
                    None => false,
                };
                let mut r: Vec<(String, Ty)> = Vec::new();
                if !unit {
                    r.push((name.clone(), clone_ty(scrutinee_ty)));
                }
                proof { lemma_fields_view(r@); }
                assert(fields_view(r@) =~= pattern_spec(
                    old(self).registry,
                    inference(*old(self)),
                    *pattern,
                    ty_view(*scrutinee_ty),
                ).1);
                r
            },
            Pattern::IntLit(_) => {
                if !scrutinee_ty.is_integer() && !scrutinee_ty.is_error() {
                    let message = literal_message_text("integer", scrutinee_ty);
                    self.err(ErrorCode::E0011, message);
                }
                let r: Vec<(String, Ty)> = Vec::new();
                assert(fields_view(r@) =~= Seq::<(Seq<char>, TyV)>::empty());
                r
            },
            Pattern::StrLit(_) => {
                if !matches!(scrutinee_ty, Ty::Str) && !scrutinee_ty.is_error() {
                    let message = literal_message_text("string", scrutinee_ty);
                    self.err(ErrorCode::E0011, message);
                }
                let r: Vec<(String, Ty)> = Vec::new();
                assert(fields_view(r@) =~= Seq::<(Seq<char>, TyV)>::empty());
                r
            },
            Pattern::BoolLit(_) => {
                if !matches!(scrutinee_ty, Ty::Bool) && !scrutinee_ty.is_error() {
                    let message = literal_message_text("boolean", scrutinee_ty);
                    self.err(ErrorCode::E0011, message);
                }
                let r: Vec<(String, Ty)> = Vec::new();
                assert(fields_view(r@) =~= Seq::<(Seq<char>, TyV)>::empty());
                r
            },
            Pattern::Constructor(name, sub_pats) => self.check_constructor_pattern(
                name,
                sub_pats,
                scrutinee_ty,
            ),
            Pattern::Struct(name, field_pats) => self.check_struct_pattern(
                name,
                field_pats,
                scrutinee_ty,
            ),
            Pattern::Or(pats) => self.check_or_pattern(pats, scrutinee_ty),
            Pattern::List(elems, rest) => self.check_list_pattern(elems, rest, scrutinee_ty),
        }
    }
}

impl Checker {
    /// A variant pattern: its sub-patterns against the variant's fields.
    fn check_constructor_pattern(&mut self, name: &String, sub_pats: &Vec<Pattern>, t: &Ty) -> (r: Vec<
        (String, Ty),
    >)
        ensures
            ({
                let (st, b) = pattern_spec(
                    old(self).registry,
                    inference(*old(self)),
                    Pattern::Constructor(*name, *sub_pats),
                    ty_view(*t),
                );
                &&& inference(*final(self)) == st
                &&& fields_view(r@) == b
            }),
            pattern_frame(*old(self), *final(self)),
        decreases sub_pats@, 1nat,
    {
        proof { lemma_kind_view(*t); }
        match self.variant_pattern_field_types(name.as_str(), t) {
            Some(field_tys) => {
                proof { lemma_tys_view(field_tys@); }
                if sub_pats.len() != field_tys.len() {
                    let mut message = string_of("variant `");
                    message.append(name.as_str());
                    message.append("` expects ");
                    push_decimal(&mut message, field_tys.len() as u64);
                    message.append(" fields, got ");
                    push_decimal(&mut message, sub_pats.len() as u64);
                    self.err(ErrorCode::E0007, message);
                }
                self.check_sub_patterns(sub_pats, &field_tys)
            },
            None => {
                if !t.is_error() {
                    let mut message = string_of("unknown variant `");
                    message.append(name.as_str());
                    message.append("`");
                    self.err(ErrorCode::E0006, message);
                }
                let r: Vec<(String, Ty)> = Vec::new();
                assert(fields_view(r@) =~= Seq::<(Seq<char>, TyV)>::empty());
                r
            },
        }
    }

    /// Each pattern against the type at its position, as far as both go.
    fn check_sub_patterns(&mut self, ps: &Vec<Pattern>, tys: &Vec<Ty>) -> (r: Vec<(String, Ty)>)
        ensures
            ({
                let k = if ps@.len() < tys@.len() {
                    ps@.len()
                } else {
                    tys@.len()
                };
                let (st, b) = sub_patterns_spec(
                    old(self).registry,
                    inference(*old(self)),
                    ps@,
                    tys_view(tys@),
                    k,
                );
                &&& inference(*final(self)) == st
                &&& fields_view(r@) == b
            }),
            pattern_frame(*old(self), *final(self)),
        decreases ps@, 0nat,
    {
        proof { lemma_tys_view(tys@); }
        let k = if ps.len() < tys.len() {
            ps.len()
        } else {
            tys.len()
        };
        let ghost reg = self.registry;
        let ghost st0 = inference(*self);
        let mut out: Vec<(String, Ty)> = Vec::new();
        let mut i: usize = 0;
        assert(fields_view(out@) =~= Seq::<(Seq<char>, TyV)>::empty());
        while i < k
            invariant
                i <= k,
                k <= ps@.len(),
                k <= tys@.len(),
                reg == old(self).registry,
                st0 == inference(*old(self)),
                tys_view(tys@).len() == tys@.len(),
                forall|j: int| 0 <= j < tys@.len() ==> #[trigger] tys_view(tys@)[j] == ty_view(tys@[j]),
                pattern_frame(*old(self), *self),
                inference(*self) == sub_patterns_spec(reg, st0, ps@, tys_view(tys@), i as nat).0,
                fields_view(out@) == sub_patterns_spec(reg, st0, ps@, tys_view(tys@), i as nat).1,
            decreases k - i,
        {
            let bs = self.check_pattern(&ps[i], &tys[i]);
            extend_bindings(&mut out, bs);
            i = i + 1;
        }
        out
    }

    /// A struct pattern: the struct's type unified with `t`, then each
    /// field pattern against its field.
    fn check_struct_pattern(
        &mut self,
        name: &String,
        field_pats: &Vec<(String, Pattern)>,
        t: &Ty,
    ) -> (r: Vec<(String, Ty)>)
        ensures
            ({
                let (st, b) = pattern_spec(
                    old(self).registry,
                    inference(*old(self)),
                    Pattern::Struct(*name, *field_pats),
                    ty_view(*t),
                );
                &&& inference(*final(self)) == st
                &&& fields_view(r@) == b
            }),
            pattern_frame(*old(self), *final(self)),
        decreases field_pats@, 1nat,
    {
        proof { lemma_kind_view(*t); }
        let def = match self.registry.structs.get(name.as_str()) {
            Some(d) => clone_fields(d),
            None => {
                if !t.is_error() {
                    let mut message = string_of("unknown struct `");
                    message.append(name.as_str());
                    message.append("` in pattern");
                    self.err(ErrorCode::E0005, message);
                }
                let r: Vec<(String, Ty)> = Vec::new();
                assert(fields_view(r@) =~= Seq::<(Seq<char>, TyV)>::empty());
                return r;
            },
        };
        let (fields, expected) = self.struct_fields_for_type(name.as_str(), &def, t);
        let mut ctx = string_of("struct pattern `");
        ctx.append(name.as_str());
        ctx.append("`");
        self.unify(&expected, t, ctx.as_str());
        self.check_field_patterns(name, &fields, field_pats)
    }

    /// Each field pattern against the first field of its name; a field the
    /// struct lacks is reported.
    fn check_field_patterns(
        &mut self,
        sname: &String,
        fields: &Vec<(String, Ty)>,
        field_pats: &Vec<(String, Pattern)>,
    ) -> (r: Vec<(String, Ty)>)
        ensures
            ({
                let (st, b) = field_patterns_spec(
                    old(self).registry,
                    inference(*old(self)),
                    sname@,
                    fields_view(fields@),
                    field_pats@,
                    field_pats@.len(),
                );
                &&& inference(*final(self)) == st
                &&& fields_view(r@) == b
            }),
            pattern_frame(*old(self), *final(self)),
        decreases field_pats@, 0nat,
    {
        proof { lemma_fields_view(fields@); }
        let ghost reg = self.registry;
        let ghost st0 = inference(*self);
        let mut out: Vec<(String, Ty)> = Vec::new();
        let mut i: usize = 0;
        assert(fields_view(out@) =~= Seq::<(Seq<char>, TyV)>::empty());
        while i < field_pats.len()
            invariant
                i <= field_pats@.len(),
                reg == old(self).registry,
                st0 == inference(*old(self)),
                pattern_frame(*old(self), *self),
                inference(*self) == field_patterns_spec(
                    reg,
                    st0,
                    sname@,
                    fields_view(fields@),
                    field_pats@,
                    i as nat,
                ).0,
                fields_view(out@) == field_patterns_spec(
                    reg,
                    st0,
                    sname@,
                    fields_view(fields@),
                    field_pats@,
                    i as nat,
                ).1,
            decreases field_pats.len() - i,
        {
            let fp = &field_pats[i];
            proof { lemma_fields_view(fields@); }
            match find_field_in(fields.as_slice(), fp.0.as_str()) {
                Some(j) => {
                    proof { assert(decreases_to!(field_pats@ => field_pats@[i as int].1)); }
                    let bs = self.check_pattern(&fp.1, &fields[j].1);
                    extend_bindings(&mut out, bs);
                },
                None => {
                    let mut message = string_of("struct `");
                    message.append(sname.as_str());
                    message.append("` has no field `");
                    message.append(fp.0.as_str());
                    message.append("`");
                    self.err(ErrorCode::E0015, message);
                },
            }
            i = i + 1;
        }
        out
    }

    /// An or-pattern: the bindings of the first alternative, checked against
    /// those of each other one.
    fn check_or_pattern(&mut self, pats: &Vec<Pattern>, t: &Ty) -> (r: Vec<(String, Ty)>)
        ensures
            ({
                let (st, b) = pattern_spec(
                    old(self).registry,
                    inference(*old(self)),
                    Pattern::Or(*pats),
                    ty_view(*t),
                );
                &&& inference(*final(self)) == st
                &&& fields_view(r@) == b
            }),
            pattern_frame(*old(self), *final(self)),
        decreases pats@, 1nat,
    {
        if pats.len() == 0 {
            let r: Vec<(String, Ty)> = Vec::new();
            assert(fields_view(r@) =~= Seq::<(Seq<char>, TyV)>::empty());
            return r;
        }
        let first = self.check_pattern(&pats[0], t);
        self.check_or_alternatives(pats, t, &first);
        first
    }

    /// Each alternative after the first: the names it binds must be those
    /// the first binds; their types are then unified position by position.
    fn check_or_alternatives(&mut self, pats: &Vec<Pattern>, t: &Ty, first: &Vec<(String, Ty)>)
        ensures
            inference(*final(self)) == or_alternatives_spec(
                old(self).registry,
                inference(*old(self)),
                pats@,
                pats@.len(),
                ty_view(*t),
                fields_view(first@),
            ),
            pattern_frame(*old(self), *final(self)),
        decreases pats@, 0nat,
    {
        let ghost reg = self.registry;
        let ghost st0 = inference(*self);
        let first_names = EffectSet::from_names(binding_name_list(first));
        if pats.len() <= 1 {
            return;
        }
        let mut i: usize = 1;
        while i < pats.len()
            invariant
                1 <= i <= pats@.len(),
                reg == old(self).registry,
                st0 == inference(*old(self)),
                first_names@ == binding_names(fields_view(first@)),
                pattern_frame(*old(self), *self),
                inference(*self) == or_alternatives_spec(
                    reg,
                    st0,
                    pats@,
                    i as nat,
                    ty_view(*t),
                    fields_view(first@),
                ),
            decreases pats.len() - i,
        {
            let ghost st1 = inference(*self);
            let alt = self.check_pattern(&pats[i], t);
            let ghost st2 = inference(*self);
            let alt_names = EffectSet::from_names(binding_name_list(&alt));
            assert(alt_names@ == binding_names(fields_view(alt@)));
            assert((st2, fields_view(alt@)) == pattern_spec(reg, st1, pats@[i as int], ty_view(*t)));
            if !(first_names.is_subset_of(&alt_names) && alt_names.is_subset_of(&first_names)) {
                let message = or_message_text(&first_names, &alt_names);
                self.err(ErrorCode::E0504, message);
                assert(binding_names(fields_view(first@)) != binding_names(fields_view(alt@)));
            } else {
                assert(first_names@ =~= alt_names@);
                proof {
                    lemma_fields_view(first@);
                    lemma_fields_view(alt@);
                }
                self.unify_bindings(first, &alt);
            }
            assert(inference(*self) == or_alternatives_spec(reg, st0, pats@, (i + 1) as nat, ty_view(*t), fields_view(first@)));
            i = i + 1;
        }
    }

    /// Unifies the types of two lists of bindings position by position, as
    /// far as both go.
    fn unify_bindings(&mut self, xs: &Vec<(String, Ty)>, ys: &Vec<(String, Ty)>)
        ensures
            ({
                let k = if xs@.len() < ys@.len() {
                    xs@.len()
                } else {
                    ys@.len()
                };
                inference(*final(self)) == unify_bindings_spec(
                    inference(*old(self)),
                    fields_view(xs@),
                    fields_view(ys@),
                    k,
                )
            }),
            pattern_frame(*old(self), *final(self)),
            final(self).next_var() == old(self).next_var(),
    {
        proof {
            lemma_fields_view(xs@);
            lemma_fields_view(ys@);
        }
        let k = if xs.len() < ys.len() {
            xs.len()
        } else {
            ys.len()
        };
        let ghost st0 = inference(*self);
        let mut i: usize = 0;
        while i < k
            invariant
                i <= k,
                k <= xs@.len(),
                k <= ys@.len(),
                st0 == inference(*old(self)),
                fields_view(xs@).len() == xs@.len(),
                fields_view(ys@).len() == ys@.len(),
                forall|j: int|
                    0 <= j < xs@.len() ==> #[trigger] fields_view(xs@)[j] == (
                        xs@[j].0@,
                        ty_view(xs@[j].1),
                    ),
                forall|j: int|
                    0 <= j < ys@.len() ==> #[trigger] fields_view(ys@)[j] == (
                        ys@[j].0@,
                        ty_view(ys@[j].1),
                    ),
                pattern_frame(*old(self), *self),
                self.next_var() == old(self).next_var(),
                inference(*self) == unify_bindings_spec(
                    st0,
                    fields_view(xs@),
                    fields_view(ys@),
                    i as nat,
                ),
            decreases k - i,
        {
            let mut ctx = string_of("or-pattern binding `");
            ctx.append(xs[i].0.as_str());
            ctx.append("` type mismatch across alternatives");
            assert(fields_view(xs@)[i as int] == (xs@[i as int].0@, ty_view(xs@[i as int].1)));
            assert(fields_view(ys@)[i as int] == (ys@[i as int].0@, ty_view(ys@[i as int].1)));
            self.unify(&xs[i].1, &ys[i].1, ctx.as_str());
            i = i + 1;
        }
    }

    /// A list pattern: `List[?]` unified with `t`, each element checked
    /// against the fresh element type, and the rest bound to `t`.
    fn check_list_pattern(&mut self, elems: &Vec<Pattern>, rest: &Option<String>, t: &Ty) -> (r: Vec<
        (String, Ty),
    >)
        ensures
            ({
                let (st, b) = pattern_spec(
                    old(self).registry,
                    inference(*old(self)),
                    Pattern::List(*elems, *rest),
                    ty_view(*t),
                );
                &&& inference(*final(self)) == st
                &&& fields_view(r@) == b
            }),
            pattern_frame(*old(self), *final(self)),
        decreases elems@, 1nat,
    {
        let elem_ty = self.fresh_var();
        assert(advance(old(self).next_var(), 1) == next_id(old(self).next_var())) by {
            reveal_with_fuel(advance, 2);
        }
        let mut args: Vec<Ty> = Vec::new();
        args.push(clone_ty(&elem_ty));
        let list_ty = Ty::App(string_of("List"), args);
        proof { lemma_tys_view(args@); }
        assert(tys_view(args@) =~= seq![ty_view(elem_ty)]);
        self.unify(&list_ty, t, "list pattern");
        let mut bindings = self.check_list_elements(elems, &elem_ty);
        match rest {
            Some(r) => {
                let ghost prev = bindings@;
                bindings.push((r.clone(), clone_ty(t)));
                assert(bindings@.drop_last() =~= prev);
            },
            None => {},
        }
        bindings
    }

    /// Each element pattern against the element type.
    fn check_list_elements(&mut self, ps: &Vec<Pattern>, elem: &Ty) -> (r: Vec<(String, Ty)>)
        ensures
            ({
                let (st, b) = list_elements_spec(
                    old(self).registry,
                    inference(*old(self)),
                    ps@,
                    ty_view(*elem),
                    ps@.len(),
                );
                &&& inference(*final(self)) == st
                &&& fields_view(r@) == b
            }),
            pattern_frame(*old(self), *final(self)),
        decreases ps@, 0nat,
    {
        let ghost reg = self.registry;
        let ghost st0 = inference(*self);
        let mut out: Vec<(String, Ty)> = Vec::new();
        let mut i: usize = 0;
        assert(fields_view(out@) =~= Seq::<(Seq<char>, TyV)>::empty());
        while i < ps.len()
            invariant
                i <= ps@.len(),
                reg == old(self).registry,
                st0 == inference(*old(self)),
                pattern_frame(*old(self), *self),
                inference(*self) == list_elements_spec(reg, st0, ps@, ty_view(*elem), i as nat).0,
                fields_view(out@) == list_elements_spec(reg, st0, ps@, ty_view(*elem), i as nat).1,
            decreases ps.len() - i,
        {
            let bs = self.check_pattern(&ps[i], elem);
            extend_bindings(&mut out, bs);
            i = i + 1;
        }
        out
    }
}

/// The type found by name has the variant.
proof fn lemma_first_type_has_variant(reg: TypeRegistry, n: Seq<char>, i: nat)
    ensures
        first_type_from(reg, n, i) matches Some(t) ==> type_variant(reg, t, n) is Some,
    decreases reg.types.key_seq().len() - i,
{
    if i < reg.types.key_seq().len() && type_variant(reg, reg.types.key_seq()[i as int], n) is None {
        lemma_first_type_has_variant(reg, n, i + 1);
    }
}

} // verus!
