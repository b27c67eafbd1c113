//! What the checker offers for a hole: the registered functions whose
//! result has the hole's type, and the type variables a hole's type
//! mentions.

use vstd::prelude::*;
use std::collections::HashSet;
use crate::check::Checker;
use crate::env::TypeRegistry;
use crate::method::contains_name;
use crate::names::{lemma_sorted_unique, sorted, sorted_listing, views};
use crate::text::{str_eq, str_lt};
use crate::types::{Ty, TyV, fields_view, ty_eq, ty_same, ty_view, tys_view};

verus! {

// ---------------------------------------------------------------------------
// Suggestions
// ---------------------------------------------------------------------------

/// The registered functions other than `current` whose result type is
/// `expected`, restricted to `allow` when given.
pub open spec fn suggestion_set(
    reg: TypeRegistry,
    current: Seq<char>,
    expected: TyV,
    allow: Option<Seq<Seq<char>>>,
) -> Set<Seq<char>> {
    Set::new(
        |n: Seq<char>|
            reg.functions@.contains_key(n) && ty_same(ty_view(reg.functions@[n].1), expected) && n
                != current && (allow is None || allow->0.contains(n)),
    )
}

impl Checker {
    /// The registered functions, other than the one being checked, whose
    /// result type is `expected`, in increasing name order; only those in
    /// `allow_list` when one is given, and none for the error type or a hole.
    pub fn find_suggestions(&self, expected: &Ty, allow_list: Option<&[String]>) -> (r: Vec<String>)
        ensures
            if ty_view(*expected) is Error || ty_view(*expected) is Hole {
                r@.len() == 0
            } else {
                views(r@) == sorted_listing(
                    suggestion_set(
                        self.registry,
                        self.current_function@,
                        ty_view(*expected),
                        match allow_list {
                            Some(l) => Some(views(l@)),
                            None => None,
                        },
                    ),
                )
            },
    {
        if expected.is_error() || matches!(expected, Ty::Hole(_)) {
            return Vec::new();
        }
        let ghost allow = match allow_list {
            Some(l) => Some(views(l@)),
            None => None::<Seq<Seq<char>>>,
        };
        let ghost st = suggestion_set(self.registry, self.current_function@, ty_view(*expected), allow);
        let functions = &self.registry.functions;
        let n = functions.len();
        let ghost ks = functions.key_seq();
        let mut out: Vec<String> = Vec::new();
        let mut i: usize = 0;
        while i < n
            invariant
                n == ks.len(),
                *functions == self.registry.functions,
                ks == functions.key_seq(),
                sorted(ks),
                functions@.dom() == ks.to_set(),
                i <= n,
                st == suggestion_set(self.registry, self.current_function@, ty_view(*expected), allow),
                allow == match allow_list {
                    Some(l) => Some(views(l@)),
                    None => None::<Seq<Seq<char>>>,
                },
                forall|p: int| 0 <= p < out@.len() ==> exists|k: int| 0 <= k < i && #[trigger] out@[p]@ == ks[k],
                forall|a: int, b: int| 0 <= a < b < out@.len() ==> str_lt(#[trigger] out@[a]@, #[trigger] out@[b]@),
                forall|p: int| 0 <= p < out@.len() ==> st.contains(#[trigger] out@[p]@),
                forall|k: int| 0 <= k < i && st.contains(#[trigger] ks[k]) ==> views(out@).contains(ks[k]),
            decreases n - i,
        {
            let name = functions.key_at(i);
            let entry = functions.value_at(i);
            let allowed = match allow_list {
                Some(l) => contains_name(l, name.as_str()),
                None => true,
            };
            let keep = ty_eq(&entry.1, expected) && !str_eq(name.as_str(), self.current_function.as_str())
                && allowed;
            proof {
                assert(ks.to_set().contains(ks[i as int]));
                assert(name@ == ks[i as int]);
                assert(allowed == (allow is None || allow->0.contains(name@)));
                assert(keep == (ty_same(ty_view(functions@[ks[i as int]].1), ty_view(*expected))
                    && ks[i as int] != self.current_function@ && (allow is None || allow->0.contains(ks[i as int]))));
                assert(st.contains(ks[i as int]) == keep);
            }
            if keep {
                let ghost prev = out@;
                out.push(name.clone());
                proof {
                    assert(st.contains(ks[i as int]));
                    assert forall|a: int, b: int| 0 <= a < b < out@.len() implies str_lt(
                        #[trigger] out@[a]@,
                        #[trigger] out@[b]@,
                    ) by {
                        if b == out@.len() - 1 {
                            let k = choose|k: int| 0 <= k < i && #[trigger] prev[a]@ == ks[k];
                            assert(out@[a] == prev[a]);
                        } else {
                            assert(out@[a] == prev[a] && out@[b] == prev[b]);
                        }
                    }
                    assert forall|p: int| 0 <= p < out@.len() implies exists|k: int|
                        0 <= k < i + 1 && #[trigger] out@[p]@ == ks[k] by {
                        if p < prev.len() {
                            assert(out@[p] == prev[p]);
                            let k = choose|k: int| 0 <= k < i && #[trigger] prev[p]@ == ks[k];
                        } else {
                            assert(out@[p]@ == ks[i as int]);
                        }
                    }
                    assert forall|k: int| 0 <= k < i + 1 && st.contains(#[trigger] ks[k]) implies views(
                        out@,
                    ).contains(ks[k]) by {
                        if k < i {
                            let p = choose|p: int| 0 <= p < views(prev).len() && views(prev)[p] == ks[k];
                            assert(views(out@)[p] == ks[k]);
                        } else {
                            assert(views(out@)[out@.len() - 1] == ks[k]);
                        }
                    }
                }
            } else {
                assert(!st.contains(ks[i as int]));
            }
            i = i + 1;
        }
        proof {
            assert(sorted(views(out@))) by {
                assert forall|a: int, b: int| 0 <= a < b < views(out@).len() implies str_lt(
                    #[trigger] views(out@)[a],
                    #[trigger] views(out@)[b],
                ) by {
                    assert(str_lt(out@[a]@, out@[b]@));
                }
            }
            assert(views(out@).to_set() =~= st) by {
                assert forall|x: Seq<char>| st.contains(x) implies views(out@).to_set().contains(x) by {
                    assert(functions@.dom().contains(x));
                    let k = choose|k: int| 0 <= k < n && ks[k] == x;
                }
                assert forall|x: Seq<char>| views(out@).to_set().contains(x) implies st.contains(x) by {
                    let p = choose|p: int| 0 <= p < views(out@).len() && views(out@)[p] == x;
                    assert(st.contains(out@[p]@));
                }
            }
            assert(sorted(sorted_listing(st)) && sorted_listing(st).to_set() == st);
            lemma_sorted_unique(views(out@), sorted_listing(st));
        }
        out
    }
}

// ---------------------------------------------------------------------------
// Type variables of a hole's type
// ---------------------------------------------------------------------------

broadcast use vstd::std_specs::hash::group_hash_axioms;

/// The type variables of `t` and, following each variable's binding in `s`
/// at most `fuel` deep, those of the types they are bound to.
pub open spec fn type_vars(s: Map<u32, TyV>, fuel: nat, t: TyV) -> Set<u32>
    decreases fuel, t,
{
    match t {
        TyV::Var(id) => if s.contains_key(id) && fuel > 0 {
            set![id] + type_vars(s, (fuel - 1) as nat, s[id])
        } else {
            set![id]
        },
        TyV::App(_, xs) => type_vars_list(s, fuel, xs),
        TyV::Tuple(xs) => type_vars_list(s, fuel, xs),
        TyV::Fn(ps, r, _) => type_vars_list(s, fuel, ps) + type_vars(s, fuel, *r),
        TyV::Outcome(a, b) => type_vars(s, fuel, *a) + type_vars(s, fuel, *b),
        TyV::Record(fs) => type_vars_fields(s, fuel, fs),
        TyV::Refined(b, _, _) => type_vars(s, fuel, *b),
        _ => Set::empty(),
    }
}

pub open spec fn type_vars_list(s: Map<u32, TyV>, fuel: nat, xs: Seq<TyV>) -> Set<u32>
    decreases fuel, xs,
{
    if xs.len() == 0 {
        Set::empty()
    } else {
        type_vars_list(s, fuel, xs.drop_last()) + type_vars(s, fuel, xs.last())
    }
}

pub open spec fn type_vars_fields(s: Map<u32, TyV>, fuel: nat, fs: Seq<(Seq<char>, TyV)>) -> Set<u32>
    decreases fuel, fs,
{
    if fs.len() == 0 {
        Set::empty()
    } else {
        type_vars_fields(s, fuel, fs.drop_last()) + type_vars(s, fuel, fs.last().1)
    }
}

impl Checker {
    /// The type variables a type mentions, and those of the types they are
    /// bound to, following each chain of bindings for at most as many steps
    /// as there are bindings (unification makes no longer chains).
    pub fn collect_type_vars(&self, ty: &Ty) -> (r: HashSet<u32>)
        ensures
            r@ == type_vars(self.substitution@, self.substitution@.dom().len(), ty_view(*ty)),
    {
        let mut vars: HashSet<u32> = HashSet::new();
        let fuel = self.substitution.len();
        self.collect_vars_into(ty, fuel, &mut vars);
        assert(vars@ =~= type_vars(self.substitution@, self.substitution@.dom().len(), ty_view(*ty)));
        vars
    }

    fn collect_vars_into(&self, ty: &Ty, fuel: usize, vars: &mut HashSet<u32>)
        ensures
            final(vars)@ == old(vars)@ + type_vars(self.substitution@, fuel as nat, ty_view(*ty)),
        decreases fuel, ty,
    {
        let ghost s = self.substitution@;
        match ty {
            Ty::Var(id) => {
                vars.insert(*id);
                if fuel > 0 {
                    match self.substitution.get(id) {
                        Some(t) => self.collect_vars_into(t, fuel - 1, vars),
                        None => {},
                    }
                }
                assert(vars@ =~= old(vars)@ + type_vars(s, fuel as nat, ty_view(*ty)));
            },
            Ty::App(_, args) => self.collect_list_into(args.as_slice(), fuel, vars),
            Ty::Tuple(ts) => self.collect_list_into(ts.as_slice(), fuel, vars),
            Ty::Fn(params, ret, _) => {
                self.collect_list_into(params.as_slice(), fuel, vars);
                self.collect_vars_into(ret, fuel, vars);
                assert(vars@ =~= old(vars)@ + type_vars(s, fuel as nat, ty_view(*ty)));
            },
            Ty::Outcome(a, b) => {
                self.collect_vars_into(a, fuel, vars);
                self.collect_vars_into(b, fuel, vars);
                assert(vars@ =~= old(vars)@ + type_vars(s, fuel as nat, ty_view(*ty)));
            },
            Ty::Record(fields) => {
                let mut i: usize = 0;
                assert(fields_view(fields@.take(0)) =~= Seq::<(Seq<char>, TyV)>::empty());
                assert(vars@ =~= old(vars)@ + type_vars_fields(s, fuel as nat, fields_view(fields@.take(0))));
                #[verifier::loop_isolation(false)]
                while i < fields.len()
                    invariant
                        i <= fields@.len(),
                        vars@ == old(vars)@ + type_vars_fields(s, fuel as nat, fields_view(fields@.take(i as int))),
                    decreases fields.len() - i,
                {
                    proof {
                        assert(decreases_to!(*ty => fields@[i as int].1));
                    }
                    self.collect_vars_into(&fields[i].1, fuel, vars);
                    assert(fields@.take(i + 1).drop_last() =~= fields@.take(i as int));
                    assert(fields_view(fields@.take(i + 1)).drop_last() =~= fields_view(fields@.take(i as int)));
                    assert(vars@ =~= old(vars)@ + type_vars_fields(s, fuel as nat, fields_view(fields@.take(i + 1))));
                    i = i + 1;
                }
                assert(fields@.take(fields.len() as int) =~= fields@);
            },
            Ty::Refined(base, _, _) => self.collect_vars_into(base, fuel, vars),
            _ => {
                assert(vars@ =~= old(vars)@ + type_vars(s, fuel as nat, ty_view(*ty)));
            },
        }
    }

    fn collect_list_into(&self, ts: &[Ty], fuel: usize, vars: &mut HashSet<u32>)
        ensures
            final(vars)@ == old(vars)@ + type_vars_list(self.substitution@, fuel as nat, tys_view(ts@)),
        decreases fuel, ts@,
    {
        let ghost s = self.substitution@;
        let mut i: usize = 0;
        assert(tys_view(ts@.take(0)) =~= Seq::<TyV>::empty());
        assert(vars@ =~= old(vars)@ + type_vars_list(s, fuel as nat, tys_view(ts@.take(0))));
        while i < ts.len()
            invariant
                i <= ts@.len(),
                s == self.substitution@,
                vars@ == old(vars)@ + type_vars_list(s, fuel as nat, tys_view(ts@.take(i as int))),
            decreases ts.len() - i,
        {
            self.collect_vars_into(&ts[i], fuel, vars);
            assert(ts@.take(i + 1).drop_last() =~= ts@.take(i as int));
            assert(tys_view(ts@.take(i + 1)).drop_last() =~= tys_view(ts@.take(i as int)));
            assert(vars@ =~= old(vars)@ + type_vars_list(s, fuel as nat, tys_view(ts@.take(i + 1))));
            i = i + 1;
        }
        assert(ts@.take(ts.len() as int) =~= ts@);
    }
}

} // verus!
