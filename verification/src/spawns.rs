//! Counting the `spawn` expressions an expression holds.

use vstd::prelude::*;
use crate::ast::{Expr, HandleBinding, MatchArm, SelectArm, Stmt, StrPart};
use crate::check::Checker;

verus! {

/// The number of `spawn` expressions in `e`, nested ones included (the lane
/// count of a parallel scope aside).
pub open spec fn spawns(e: Expr) -> nat
    decreases e,
{
    match e {
        Expr::Spawn(x) => 1 + spawns(*x),
        Expr::Call(f, args) => spawns(*f) + spawns_list(args@),
        Expr::Lambda(_, b) => spawns(*b),
        Expr::Await(b) => spawns(*b),
        Expr::Try(b) => spawns(*b),
        Expr::Throw(b) => spawns(*b),
        Expr::UnaryOp(_, b) => spawns(*b),
        Expr::Return(r) => match r {
            Some(b) => spawns(*b),
            None => 0,
        },
        Expr::BinOp(l, _, r) => spawns(*l) + spawns(*r),
        Expr::Pipe(l, r) => spawns(*l) + spawns(*r),
        Expr::FieldAccess(b, _) => spawns(*b),
        Expr::If(c, t, el) => spawns(*c) + spawns(*t) + match el {
            Some(x) => spawns(*x),
            None => 0,
        },
        Expr::Match(s, arms) => spawns(*s) + spawns_arms(arms@),
        Expr::Block(stmts, tail) => spawns_stmts(stmts@) + match tail {
            Some(x) => spawns(*x),
            None => 0,
        },
        Expr::StructLit(_, fs) => spawns_fields(fs@),
        Expr::List(es) => spawns_list(es@),
        Expr::FString(ps) => spawns_parts(ps@),
        Expr::TString(ps) => spawns_parts(ps@),
        Expr::ParallelScope { body, .. } => spawns(*body),
        Expr::Select(arms) => spawns_select(arms@),
        Expr::Handle { body, handlers } => spawns(*body) + spawns_handlers(handlers@),
        Expr::Perform { args, .. } => spawns_list(args@),
        Expr::ChannelNew { buffer, .. } => spawns(*buffer),
        _ => 0,
    }
}

pub open spec fn spawns_list(es: Seq<Expr>) -> nat
    decreases es,
{
    if es.len() == 0 {
        0
    } else {
        spawns_list(es.drop_last()) + spawns(es.last())
    }
}

pub open spec fn spawns_fields(fs: Seq<(String, Expr)>) -> nat
    decreases fs,
{
    if fs.len() == 0 {
        0
    } else {
        spawns_fields(fs.drop_last()) + spawns(fs.last().1)
    }
}

pub open spec fn spawns_arms(arms: Seq<MatchArm>) -> nat
    decreases arms,
{
    if arms.len() == 0 {
        0
    } else {
        spawns_arms(arms.drop_last()) + match arms.last().guard {
            Some(g) => spawns(g),
            None => 0,
        } + spawns(arms.last().body)
    }
}

pub open spec fn spawns_stmts(sts: Seq<Stmt>) -> nat
    decreases sts,
{
    if sts.len() == 0 {
        0
    } else {
        spawns_stmts(sts.drop_last()) + match sts.last() {
            Stmt::Let(_, _, v) => spawns(v),
            Stmt::Expr(x) => spawns(x),
        }
    }
}

pub open spec fn spawns_parts(ps: Seq<StrPart>) -> nat
    decreases ps,
{
    if ps.len() == 0 {
        0
    } else {
        spawns_parts(ps.drop_last()) + match ps.last() {
            StrPart::Literal(_) => 0,
            StrPart::Expr(x) => spawns(x),
        }
    }
}

pub open spec fn spawns_select(arms: Seq<SelectArm>) -> nat
    decreases arms,
{
    if arms.len() == 0 {
        0
    } else {
        spawns_select(arms.drop_last()) + match arms.last() {
            SelectArm::Recv { source, body, .. } => spawns(source) + spawns(body),
            SelectArm::Timeout { duration, body } => spawns(duration) + spawns(body),
        }
    }
}

pub open spec fn spawns_handlers(hs: Seq<HandleBinding>) -> nat
    decreases hs,
{
    if hs.len() == 0 {
        0
    } else {
        spawns_handlers(hs.drop_last()) + match hs.last() {
            HandleBinding::Use(payload) => spawns_fields(payload@),
            HandleBinding::On(body) => spawns(body),
        }
    }
}

impl Checker {
    /// The number of `spawn` expressions in `expr`, nested ones included.
    pub fn count_spawns(expr: &Expr) -> (r: usize)
        requires
            spawns(*expr) <= usize::MAX,
        ensures
            r == spawns(*expr),
        decreases expr,
    {
        match expr {
            Expr::Spawn(inner) => 1 + Self::count_spawns(inner),
            Expr::Call(callee, args) => Self::count_spawns(callee) + Self::count_list(args),
            Expr::Lambda(_, b) => Self::count_spawns(b),
            Expr::Await(b) => Self::count_spawns(b),
            Expr::Try(b) => Self::count_spawns(b),
            Expr::Throw(b) => Self::count_spawns(b),
            Expr::UnaryOp(_, b) => Self::count_spawns(b),
            Expr::Return(r) => match r {
                Some(b) => Self::count_spawns(b),
                None => 0,
            },
            Expr::BinOp(l, _, r) => Self::count_spawns(l) + Self::count_spawns(r),
            Expr::Pipe(l, r) => Self::count_spawns(l) + Self::count_spawns(r),
            Expr::FieldAccess(b, _) => Self::count_spawns(b),
            Expr::If(c, t, el) => {
                let e = match el {
                    Some(x) => Self::count_spawns(x),
                    None => 0,
                };
                Self::count_spawns(c) + Self::count_spawns(t) + e
            },
            Expr::Match(s, arms) => Self::count_spawns(s) + Self::count_arms(arms),
            Expr::Block(stmts, tail) => {
                let t = match tail {
                    Some(x) => Self::count_spawns(x),
                    None => 0,
                };
                Self::count_stmts(stmts) + t
            },
            Expr::StructLit(_, fs) => Self::count_fields(fs),
            Expr::List(es) => Self::count_list(es),
            Expr::FString(ps) => Self::count_parts(ps),
            Expr::TString(ps) => Self::count_parts(ps),
            Expr::ParallelScope { body, .. } => Self::count_spawns(body),
            Expr::Select(arms) => Self::count_select(arms),
            Expr::Handle { body, handlers } => Self::count_spawns(body) + Self::count_handlers(handlers),
            Expr::Perform { args, .. } => Self::count_list(args),
            Expr::ChannelNew { buffer, .. } => Self::count_spawns(buffer),
            _ => 0,
        }
    }

    fn count_list(es: &Vec<Expr>) -> (r: usize)
        requires
            spawns_list(es@) <= usize::MAX,
        ensures
            r == spawns_list(es@),
        decreases es@,
    {
        let mut total: usize = 0;
        let mut i: usize = 0;
        assert(es@.take(0) =~= Seq::<Expr>::empty());
        while i < es.len()
            invariant
                i <= es@.len(),
                spawns_list(es@) <= usize::MAX,
                total == spawns_list(es@.take(i as int)),
            decreases es.len() - i,
        {
            assert(es@.take(i + 1).drop_last() =~= es@.take(i as int));
            proof { lemma_list_prefix(es@, i + 1); }
            total = total + Self::count_spawns(&es[i]);
            i = i + 1;
        }
        assert(es@.take(es.len() as int) =~= es@);
        total
    }

    fn count_fields(fs: &Vec<(String, Expr)>) -> (r: usize)
        requires
            spawns_fields(fs@) <= usize::MAX,
        ensures
            r == spawns_fields(fs@),
        decreases fs@,
    {
        let mut total: usize = 0;
        let mut i: usize = 0;
        assert(fs@.take(0) =~= Seq::<(String, Expr)>::empty());
        while i < fs.len()
            invariant
                i <= fs@.len(),
                spawns_fields(fs@) <= usize::MAX,
                total == spawns_fields(fs@.take(i as int)),
            decreases fs.len() - i,
        {
            assert(fs@.take(i + 1).drop_last() =~= fs@.take(i as int));
            proof {
                lemma_fields_prefix(fs@, i + 1);
                assert(decreases_to!(fs@ => fs@[i as int].1));
            }
            total = total + Self::count_spawns(&fs[i].1);
            i = i + 1;
        }
        assert(fs@.take(fs.len() as int) =~= fs@);
        total
    }

    fn count_arms(arms: &Vec<MatchArm>) -> (r: usize)
        requires
            spawns_arms(arms@) <= usize::MAX,
        ensures
            r == spawns_arms(arms@),
        decreases arms@,
    {
        let mut total: usize = 0;
        let mut i: usize = 0;
        assert(arms@.take(0) =~= Seq::<MatchArm>::empty());
        while i < arms.len()
            invariant
                i <= arms@.len(),
                spawns_arms(arms@) <= usize::MAX,
                total == spawns_arms(arms@.take(i as int)),
            decreases arms.len() - i,
        {
            assert(arms@.take(i + 1).drop_last() =~= arms@.take(i as int));
            proof {
                lemma_arms_prefix(arms@, i + 1);
                assert(decreases_to!(arms@ => arms@[i as int].body));
            }
            let g = match &arms[i].guard {
                Some(x) => {
                    proof { assert(decreases_to!(arms@ => arms@[i as int].guard->0)); }
                    Self::count_spawns(x)
                },
                None => 0,
            };
            let b = Self::count_spawns(&arms[i].body);
            total = total + g + b;
            i = i + 1;
        }
        assert(arms@.take(arms.len() as int) =~= arms@);
        total
    }

    fn count_stmts(sts: &Vec<Stmt>) -> (r: usize)
        requires
            spawns_stmts(sts@) <= usize::MAX,
        ensures
            r == spawns_stmts(sts@),
        decreases sts@,
    {
        let mut total: usize = 0;
        let mut i: usize = 0;
        assert(sts@.take(0) =~= Seq::<Stmt>::empty());
        while i < sts.len()
            invariant
                i <= sts@.len(),
                spawns_stmts(sts@) <= usize::MAX,
                total == spawns_stmts(sts@.take(i as int)),
            decreases sts.len() - i,
        {
            assert(sts@.take(i + 1).drop_last() =~= sts@.take(i as int));
            proof { lemma_stmts_prefix(sts@, i + 1); }
            let c = match &sts[i] {
                Stmt::Let(_, _, v) => {
                    proof { assert(decreases_to!(sts@ => sts@[i as int])); }
                    Self::count_spawns(v)
                },
                Stmt::Expr(x) => {
                    proof { assert(decreases_to!(sts@ => sts@[i as int])); }
                    Self::count_spawns(x)
                },
            };
            total = total + c;
            i = i + 1;
        }
        assert(sts@.take(sts.len() as int) =~= sts@);
        total
    }

    fn count_parts(ps: &Vec<StrPart>) -> (r: usize)
        requires
            spawns_parts(ps@) <= usize::MAX,
        ensures
            r == spawns_parts(ps@),
        decreases ps@,
    {
        let mut total: usize = 0;
        let mut i: usize = 0;
        assert(ps@.take(0) =~= Seq::<StrPart>::empty());
        while i < ps.len()
            invariant
                i <= ps@.len(),
                spawns_parts(ps@) <= usize::MAX,
                total == spawns_parts(ps@.take(i as int)),
            decreases ps.len() - i,
        {
            assert(ps@.take(i + 1).drop_last() =~= ps@.take(i as int));
            proof { lemma_parts_prefix(ps@, i + 1); }
            let c = match &ps[i] {
                StrPart::Literal(_) => 0,
                StrPart::Expr(x) => {
                    proof { assert(decreases_to!(ps@ => ps@[i as int])); }
                    Self::count_spawns(x)
                },
            };
            total = total + c;
            i = i + 1;
        }
        assert(ps@.take(ps.len() as int) =~= ps@);
        total
    }

    fn count_select(arms: &Vec<SelectArm>) -> (r: usize)
        requires
            spawns_select(arms@) <= usize::MAX,
        ensures
            r == spawns_select(arms@),
        decreases arms@,
    {
        let mut total: usize = 0;
        let mut i: usize = 0;
        assert(arms@.take(0) =~= Seq::<SelectArm>::empty());
        while i < arms.len()
            invariant
                i <= arms@.len(),
                spawns_select(arms@) <= usize::MAX,
                total == spawns_select(arms@.take(i as int)),
            decreases arms.len() - i,
        {
            assert(arms@.take(i + 1).drop_last() =~= arms@.take(i as int));
            proof {
                lemma_select_prefix(arms@, i + 1);
                assert(decreases_to!(arms@ => arms@[i as int]));
            }
            let c = match &arms[i] {
                SelectArm::Recv { source, body, .. } => Self::count_spawns(source) + Self::count_spawns(body),
                SelectArm::Timeout { duration, body } => Self::count_spawns(duration) + Self::count_spawns(body),
            };
            total = total + c;
            i = i + 1;
        }
        assert(arms@.take(arms.len() as int) =~= arms@);
        total
    }

    fn count_handlers(hs: &Vec<HandleBinding>) -> (r: usize)
        requires
            spawns_handlers(hs@) <= usize::MAX,
        ensures
            r == spawns_handlers(hs@),
        decreases hs@,
    {
        let mut total: usize = 0;
        let mut i: usize = 0;
        assert(hs@.take(0) =~= Seq::<HandleBinding>::empty());
        while i < hs.len()
            invariant
                i <= hs@.len(),
                spawns_handlers(hs@) <= usize::MAX,
                total == spawns_handlers(hs@.take(i as int)),
            decreases hs.len() - i,
        {
            assert(hs@.take(i + 1).drop_last() =~= hs@.take(i as int));
            proof {
                lemma_handlers_prefix(hs@, i + 1);
                assert(decreases_to!(hs@ => hs@[i as int]));
            }
            let c = match &hs[i] {
                HandleBinding::Use(payload) => Self::count_fields(payload),
                HandleBinding::On(body) => Self::count_spawns(body),
            };
            total = total + c;
            i = i + 1;
        }
        assert(hs@.take(hs.len() as int) =~= hs@);
        total
    }
}

/// A prefix counts no more than the whole list.
proof fn lemma_list_prefix(es: Seq<Expr>, k: int)
    requires
        0 <= k <= es.len(),
    ensures
        spawns_list(es.take(k)) <= spawns_list(es),
    decreases es.len() - k,
{
    if k < es.len() {
        lemma_list_prefix(es, k + 1);
        assert(es.take(k + 1).drop_last() =~= es.take(k));
    } else {
        assert(es.take(k) =~= es);
    }
}

proof fn lemma_fields_prefix(fs: Seq<(String, Expr)>, k: int)
    requires
        0 <= k <= fs.len(),
    ensures
        spawns_fields(fs.take(k)) <= spawns_fields(fs),
    decreases fs.len() - k,
{
    if k < fs.len() {
        lemma_fields_prefix(fs, k + 1);
        assert(fs.take(k + 1).drop_last() =~= fs.take(k));
    } else {
        assert(fs.take(k) =~= fs);
    }
}

proof fn lemma_arms_prefix(arms: Seq<MatchArm>, k: int)
    requires
        0 <= k <= arms.len(),
    ensures
        spawns_arms(arms.take(k)) <= spawns_arms(arms),
    decreases arms.len() - k,
{
    if k < arms.len() {
        lemma_arms_prefix(arms, k + 1);
        assert(arms.take(k + 1).drop_last() =~= arms.take(k));
    } else {
        assert(arms.take(k) =~= arms);
    }
}

proof fn lemma_stmts_prefix(sts: Seq<Stmt>, k: int)
    requires
        0 <= k <= sts.len(),
    ensures
        spawns_stmts(sts.take(k)) <= spawns_stmts(sts),
    decreases sts.len() - k,
{
    if k < sts.len() {
        lemma_stmts_prefix(sts, k + 1);
        assert(sts.take(k + 1).drop_last() =~= sts.take(k));
    } else {
        assert(sts.take(k) =~= sts);
    }
}

proof fn lemma_parts_prefix(ps: Seq<StrPart>, k: int)
    requires
        0 <= k <= ps.len(),
    ensures
        spawns_parts(ps.take(k)) <= spawns_parts(ps),
    decreases ps.len() - k,
{
    if k < ps.len() {
        lemma_parts_prefix(ps, k + 1);
        assert(ps.take(k + 1).drop_last() =~= ps.take(k));
    } else {
        assert(ps.take(k) =~= ps);
    }
}

proof fn lemma_select_prefix(arms: Seq<SelectArm>, k: int)
    requires
        0 <= k <= arms.len(),
    ensures
        spawns_select(arms.take(k)) <= spawns_select(arms),
    decreases arms.len() - k,
{
    if k < arms.len() {
        lemma_select_prefix(arms, k + 1);
        assert(arms.take(k + 1).drop_last() =~= arms.take(k));
    } else {
        assert(arms.take(k) =~= arms);
    }
}

proof fn lemma_handlers_prefix(hs: Seq<HandleBinding>, k: int)
    requires
        0 <= k <= hs.len(),
    ensures
        spawns_handlers(hs.take(k)) <= spawns_handlers(hs),
    decreases hs.len() - k,
{
    if k < hs.len() {
        lemma_handlers_prefix(hs, k + 1);
        assert(hs.take(k + 1).drop_last() =~= hs.take(k));
    } else {
        assert(hs.take(k) =~= hs);
    }
}

} // verus!
