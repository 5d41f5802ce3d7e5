use vstd::prelude::*;
use vstd::string::StringExecFns;

use crate::parser::expr::typed::{ecases_v, efields_v, ev, lemma_expr_views, Expr, ExprV};
use crate::parser::types::{lemma_fields_seq, lemma_types_seq, otv, tv, Type, TypeV};

verus! {

/// A name between double quotes.
pub open spec fn quoted(n: Seq<char>) -> Seq<char> {
    "\""@ + n + "\""@
}

pub open spec fn digit_text(d: int) -> Seq<char> {
    if d == 0 {
        "0"@
    } else if d == 1 {
        "1"@
    } else if d == 2 {
        "2"@
    } else if d == 3 {
        "3"@
    } else if d == 4 {
        "4"@
    } else if d == 5 {
        "5"@
    } else if d == 6 {
        "6"@
    } else if d == 7 {
        "7"@
    } else if d == 8 {
        "8"@
    } else {
        "9"@
    }
}

/// The decimal digits of a natural number.
pub open spec fn nat_text(n: nat) -> Seq<char>
    decreases n,
{
    if n < 10 {
        digit_text(n as int)
    } else {
        nat_text(n / 10) + digit_text((n % 10) as int)
    }
}

/// An integer in decimal, with a minus sign when negative.
pub open spec fn int_text(i: int) -> Seq<char> {
    if i < 0 {
        "-"@ + nat_text((-i) as nat)
    } else {
        nat_text(i as nat)
    }
}

/// The text of a type, as its variants and fields are written in Rust.
pub open spec fn type_text(t: TypeV) -> Seq<char>
    decreases t,
{
    match t {
        TypeV::Namely(n) => "NamelyType("@ + quoted(n) + ")"@,
        TypeV::Closure(a, b) => "ClosureType("@ + type_text(*a) + ", "@ + type_text(*b) + ")"@,
        TypeV::Sum(ms) => "SumType(["@ + types_text(ms) + "])"@,
        TypeV::Prod(fs) => "ProdType(["@ + fields_text(fs) + "])"@,
    }
}

/// Types separated by commas.
pub open spec fn types_text(ms: Seq<TypeV>) -> Seq<char>
    decreases ms,
{
    if ms.len() == 0 {
        Seq::empty()
    } else {
        proof {
            assert(decreases_to!(ms => ms[ms.len() - 1]));
        }
        let last = type_text(ms[ms.len() - 1]);
        if ms.len() == 1 {
            last
        } else {
            types_text(ms.drop_last()) + ", "@ + last
        }
    }
}

/// Named fields of a product type separated by commas.
pub open spec fn fields_text(fs: Seq<(Seq<char>, TypeV)>) -> Seq<char>
    decreases fs,
{
    if fs.len() == 0 {
        Seq::empty()
    } else {
        proof {
            assert(decreases_to!(fs => fs[fs.len() - 1]));
        }
        let f = fs[fs.len() - 1];
        let last = "("@ + quoted(f.0) + ", "@ + type_text(f.1) + ")"@;
        if fs.len() == 1 {
            last
        } else {
            fields_text(fs.drop_last()) + ", "@ + last
        }
    }
}

/// A type annotation: a colon and the type, or nothing.
pub open spec fn annot_text(t: Option<TypeV>) -> Seq<char> {
    match t {
        Some(t) => ":"@ + type_text(t),
        None => Seq::empty(),
    }
}

/// An optional type as Rust writes an `Option`.
pub open spec fn opt_type_text(t: Option<TypeV>) -> Seq<char> {
    match t {
        Some(t) => "Some("@ + type_text(t) + ")"@,
        None => "None"@,
    }
}

/// The text of an expression: every composite expression is put between
/// parentheses and followed by its annotation.
pub open spec fn expr_text(e: ExprV) -> Seq<char>
    decreases e,
{
    match e {
        ExprV::Unit(t) => "()"@ + annot_text(t),
        ExprV::Int(t, i) => int_text(i as int) + annot_text(t),
        ExprV::EnvRef(t, n) => n + annot_text(t),
        ExprV::Apply(t, l, r) => match t {
            Some(t) => "(("@ + expr_text(*l) + " "@ + expr_text(*r) + "):"@ + type_text(t) + ")"@,
            None => "("@ + expr_text(*l) + " "@ + expr_text(*r) + ")"@,
        },
        ExprV::Cond(t, b, x, y) => "(if "@ + expr_text(*b) + " then "@ + expr_text(*x) + " else "@ + expr_text(*y)
            + ")"@ + annot_text(t),
        ExprV::Closure(t, n, it, o) => "("@ + (match n {
            Some(n) => n,
            None => "_"@,
        }) + annot_text(it) + " -> "@ + expr_text(*o) + ")"@ + annot_text(t),
        ExprV::Struct(t, fs) => "{ ["@ + sfields_text(fs) + "]"@ + annot_text(t) + " }"@,
        ExprV::Discard(t) => "_"@ + annot_text(t),
        ExprV::Match(t, x, cs) => "(match "@ + expr_text(*x) + " with ["@ + cases_text(cs) + "])"@ + annot_text(t),
        ExprV::Let(t, _, n, at, ae, b) => "(let "@ + n + annot_text(at) + " = "@ + expr_text(*ae) + " in "@
            + expr_text(*b) + ")"@ + annot_text(t),
    }
}

/// The fields of a structure separated by commas.
pub open spec fn sfields_text(fs: Seq<(Seq<char>, Option<TypeV>, ExprV)>) -> Seq<char>
    decreases fs,
{
    if fs.len() == 0 {
        Seq::empty()
    } else {
        proof {
            assert(decreases_to!(fs => fs[fs.len() - 1]));
        }
        let f = fs[fs.len() - 1];
        let last = "("@ + quoted(f.0) + ", "@ + opt_type_text(f.1) + ", "@ + expr_text(f.2) + ")"@;
        if fs.len() == 1 {
            last
        } else {
            sfields_text(fs.drop_last()) + ", "@ + last
        }
    }
}

/// The cases of a match separated by commas.
pub open spec fn cases_text(cs: Seq<(ExprV, ExprV)>) -> Seq<char>
    decreases cs,
{
    if cs.len() == 0 {
        Seq::empty()
    } else {
        proof {
            assert(decreases_to!(cs => cs[cs.len() - 1]));
        }
        let c = cs[cs.len() - 1];
        let last = "("@ + expr_text(c.0) + ", "@ + expr_text(c.1) + ")"@;
        if cs.len() == 1 {
            last
        } else {
            cases_text(cs.drop_last()) + ", "@ + last
        }
    }
}

/// Appends `s` to `out`.
fn put(out: &mut String, s: &str)
    ensures
        final(out)@ == old(out)@ + s@,
{
    out.append(s);
}

fn put_digit(out: &mut String, d: u64)
    requires
        d < 10,
    ensures
        final(out)@ == old(out)@ + digit_text(d as int),
{
    let s = if d == 0 {
        "0"
    } else if d == 1 {
        "1"
    } else if d == 2 {
        "2"
    } else if d == 3 {
        "3"
    } else if d == 4 {
        "4"
    } else if d == 5 {
        "5"
    } else if d == 6 {
        "6"
    } else if d == 7 {
        "7"
    } else if d == 8 {
        "8"
    } else {
        "9"
    };
    put(out, s);
}

fn put_nat(out: &mut String, n: u64)
    ensures
        final(out)@ == old(out)@ + nat_text(n as nat),
    decreases n,
{
    if n < 10 {
        put_digit(out, n);
    } else {
        let ghost o = out@;
        put_nat(out, n / 10);
        let ghost mid = out@;
        put_digit(out, n % 10);
        proof {
            assert(o + nat_text((n / 10) as nat) + digit_text((n % 10) as int) =~= o + nat_text(n as nat));
        }
    }
}

fn put_int(out: &mut String, i: i64)
    ensures
        final(out)@ == old(out)@ + int_text(i as int),
{
    if i < 0 {
        let ghost o = out@;
        put(out, "-");
        let m: u64 = (0i128 - (i as i128)) as u64;
        put_nat(out, m);
        proof {
            assert(o + "-"@ + nat_text(m as nat) =~= o + int_text(i as int));
        }
    } else {
        put_nat(out, i as u64);
    }
}

fn put_quoted(out: &mut String, n: &String)
    ensures
        final(out)@ == old(out)@ + quoted(n@),
{
    let ghost o = out@;
    put(out, "\"");
    put(out, n.as_str());
    put(out, "\"");
    proof {
        assert(o + "\""@ + n@ + "\""@ =~= o + quoted(n@));
    }
}

/// Appends the text of a type.
fn put_type(out: &mut String, t: &Type)
    ensures
        final(out)@ == old(out)@ + type_text(t@),
    decreases t,
{
    let ghost o = out@;
    match t {
        Type::NamelyType(n) => {
            put(out, "NamelyType(");
            put_quoted(out, n);
            put(out, ")");
            proof {
                assert(out@ =~= o + type_text(t@));
            }
        },
        Type::ClosureType(a, b) => {
            proof {
                assert(decreases_to!(*t => (*t)->ClosureType_0));
                assert(decreases_to!(*t => (*t)->ClosureType_1));
            }
            put(out, "ClosureType(");
            put_type(out, a);
            put(out, ", ");
            put_type(out, b);
            put(out, ")");
            proof {
                assert(out@ =~= o + type_text(t@));
            }
        },
        Type::SumType(ms) => {
            proof {
                lemma_types_seq(*ms);
            }
            put(out, "SumType([");
            let ghost o1 = out@;
            let ghost all = t@->Sum_0;
            let mut k: usize = 0;
            while k < ms.len()
                invariant
                    *t == Type::SumType(*ms),
                    all == t@->Sum_0,
                    all.len() == ms.len(),
                    forall|j: int| 0 <= j < ms.len() ==> all[j] == tv(#[trigger] ms@[j]),
                    k <= ms.len(),
                    out@ == o1 + types_text(all.subrange(0, k as int)),
                decreases ms.len() - k,
            {
                proof {
                    assert(decreases_to!(*t => (*t)->SumType_0));
                    vstd::std_specs::vec::axiom_vec_index_decreases(*ms, k as int);
                    assert(all.subrange(0, k + 1).drop_last() =~= all.subrange(0, k as int));
                }
                let ghost before = out@;
                if k > 0 {
                    put(out, ", ");
                }
                put_type(out, &ms[k]);
                proof {
                    assert(all.subrange(0, k + 1)[k as int] == tv(ms@[k as int]));
                    assert(out@ =~= o1 + types_text(all.subrange(0, k + 1)));
                }
                k = k + 1;
            }
            put(out, "])");
            proof {
                assert(all.subrange(0, ms.len() as int) =~= all);
                assert(out@ =~= o + type_text(t@));
            }
        },
        Type::ProdType(fs) => {
            proof {
                lemma_fields_seq(*fs);
            }
            put(out, "ProdType([");
            let ghost o1 = out@;
            let ghost all = t@->Prod_0;
            let mut k: usize = 0;
            while k < fs.len()
                invariant
                    *t == Type::ProdType(*fs),
                    all == t@->Prod_0,
                    all.len() == fs.len(),
                    forall|j: int| 0 <= j < fs.len() ==> all[j] == (fs@[j].0@, tv(#[trigger] fs@[j].1)),
                    k <= fs.len(),
                    out@ == o1 + fields_text(all.subrange(0, k as int)),
                decreases fs.len() - k,
            {
                proof {
                    assert(decreases_to!(*t => (*t)->ProdType_0));
                    vstd::std_specs::vec::axiom_vec_index_decreases(*fs, k as int);
                    assert(decreases_to!(fs@[k as int] => fs@[k as int].1));
                    assert(all.subrange(0, k + 1).drop_last() =~= all.subrange(0, k as int));
                }
                if k > 0 {
                    put(out, ", ");
                }
                put(out, "(");
                put_quoted(out, &fs[k].0);
                put(out, ", ");
                put_type(out, &fs[k].1);
                put(out, ")");
                proof {
                    assert(all.subrange(0, k + 1)[k as int] == (fs@[k as int].0@, tv(fs@[k as int].1)));
                    assert(out@ =~= o1 + fields_text(all.subrange(0, k + 1)));
                }
                k = k + 1;
            }
            put(out, "])");
            proof {
                assert(all.subrange(0, fs.len() as int) =~= all);
                assert(out@ =~= o + type_text(t@));
            }
        },
    }
}

fn put_annot(out: &mut String, t: &Option<Type>)
    ensures
        final(out)@ == old(out)@ + annot_text(otv(*t)),
{
    match t {
        Some(t) => {
            let ghost o = out@;
            put(out, ":");
            put_type(out, t);
            proof {
                assert(out@ =~= o + annot_text(Some(t@)));
            }
        },
        None => {
            proof {
                assert(out@ =~= out@ + Seq::<char>::empty());
            }
        },
    }
}

fn put_opt_type(out: &mut String, t: &Option<Type>)
    ensures
        final(out)@ == old(out)@ + opt_type_text(otv(*t)),
{
    match t {
        Some(t) => {
            let ghost o = out@;
            put(out, "Some(");
            put_type(out, t);
            put(out, ")");
            proof {
                assert(out@ =~= o + opt_type_text(Some(t@)));
            }
        },
        None => put(out, "None"),
    }
}

/// Appends the text of a structure expression.
fn put_struct(out: &mut String, e: &Expr)
    requires
        *e is Struct,
    ensures
        final(out)@ == old(out)@ + expr_text(e@),
    decreases e, 0int,
{
    let ghost o = out@;
    proof {
        lemma_expr_views(*e);
    }
    match e {
        Expr::Struct(t, fs) => {
            put(out, "{ [");
            let ghost o1 = out@;
            let ghost all = efields_v(fs@);
            let mut k: usize = 0;
            while k < fs.len()
                invariant
                    *e == Expr::Struct(*t, *fs),
                    all == efields_v(fs@),
                    k <= fs.len(),
                    out@ == o1 + sfields_text(all.subrange(0, k as int)),
                decreases fs.len() - k,
            {
                proof {
                    assert(decreases_to!(*e => (*e)->Struct_1));
                    vstd::std_specs::vec::axiom_vec_index_decreases(*fs, k as int);
                    assert(decreases_to!(fs@[k as int] => fs@[k as int].2));
                    assert(all.subrange(0, k + 1).drop_last() =~= all.subrange(0, k as int));
                }
                if k > 0 {
                    put(out, ", ");
                }
                put(out, "(");
                put_quoted(out, &fs[k].0);
                put(out, ", ");
                put_opt_type(out, &fs[k].1);
                put(out, ", ");
                put_expr(out, &fs[k].2);
                put(out, ")");
                proof {
                    assert(all.subrange(0, k + 1)[k as int] == (fs@[k as int].0@, otv(fs@[k as int].1), ev(fs@[k as int].2)));
                    assert(out@ =~= o1 + sfields_text(all.subrange(0, k + 1)));
                }
                k = k + 1;
            }
            put(out, "]");
            put_annot(out, t);
            put(out, " }");
            proof {
                assert(all.subrange(0, fs.len() as int) =~= all);
                assert(out@ =~= o + expr_text(e@));
            }
        },
        _ => {},
    }
}

/// Appends the text of a match expression.
fn put_match(out: &mut String, e: &Expr)
    requires
        *e is Match,
    ensures
        final(out)@ == old(out)@ + expr_text(e@),
    decreases e, 0int,
{
    let ghost o = out@;
    proof {
        lemma_expr_views(*e);
    }
    match e {
        Expr::Match(t, x, cs) => {
            proof {
                assert(decreases_to!(*e => (*e)->Match_1));
            }
            put(out, "(match ");
            put_expr(out, x);
            put(out, " with [");
            let ghost o1 = out@;
            let ghost all = ecases_v(cs@);
            let mut k: usize = 0;
            while k < cs.len()
                invariant
                    *e == Expr::Match(*t, *x, *cs),
                    all == ecases_v(cs@),
                    k <= cs.len(),
                    out@ == o1 + cases_text(all.subrange(0, k as int)),
                decreases cs.len() - k,
            {
                proof {
                    assert(decreases_to!(*e => (*e)->Match_2));
                    vstd::std_specs::vec::axiom_vec_index_decreases(*cs, k as int);
                    assert(decreases_to!(cs@[k as int] => cs@[k as int].0));
                    assert(decreases_to!(cs@[k as int] => cs@[k as int].1));
                    assert(all.subrange(0, k + 1).drop_last() =~= all.subrange(0, k as int));
                }
                if k > 0 {
                    put(out, ", ");
                }
                put(out, "(");
                put_expr(out, &cs[k].0);
                put(out, ", ");
                put_expr(out, &cs[k].1);
                put(out, ")");
                proof {
                    assert(all.subrange(0, k + 1)[k as int] == (ev(cs@[k as int].0), ev(cs@[k as int].1)));
                    assert(out@ =~= o1 + cases_text(all.subrange(0, k + 1)));
                }
                k = k + 1;
            }
            put(out, "])");
            put_annot(out, t);
            proof {
                assert(all.subrange(0, cs.len() as int) =~= all);
                assert(out@ =~= o + expr_text(e@));
            }
        },
        _ => {},
    }
}

/// Appends the text of an application.
fn put_apply(out: &mut String, e: &Expr)
    requires
        *e is Apply,
    ensures
        final(out)@ == old(out)@ + expr_text(e@),
    decreases e, 0int,
{
    let ghost o = out@;
    match e {
        Expr::Apply(t, l, r) => {
            proof {
                assert(decreases_to!(*e => (*e)->Apply_1));
                assert(decreases_to!(*e => (*e)->Apply_2));
            }
            match t {
                Some(ty) => {
                    put(out, "((");
                    put_expr(out, l);
                    put(out, " ");
                    put_expr(out, r);
                    put(out, "):");
                    put_type(out, ty);
                    put(out, ")");
                },
                None => {
                    put(out, "(");
                    put_expr(out, l);
                    put(out, " ");
                    put_expr(out, r);
                    put(out, ")");
                },
            }
            proof {
                assert(out@ =~= o + expr_text(e@));
            }
        },
        _ => {},
    }
}

/// Appends the text of a conditional.
fn put_cond(out: &mut String, e: &Expr)
    requires
        *e is Cond,
    ensures
        final(out)@ == old(out)@ + expr_text(e@),
    decreases e, 0int,
{
    let ghost o = out@;
    match e {
        Expr::Cond(t, b, x, y) => {
            proof {
                assert(decreases_to!(*e => (*e)->Cond_1));
                assert(decreases_to!(*e => (*e)->Cond_2));
                assert(decreases_to!(*e => (*e)->Cond_3));
            }
            put(out, "(if ");
            put_expr(out, b);
            put(out, " then ");
            put_expr(out, x);
            put(out, " else ");
            put_expr(out, y);
            put(out, ")");
            put_annot(out, t);
            proof {
                assert(out@ =~= o + expr_text(e@));
            }
        },
        _ => {},
    }
}

/// Appends the text of a closure.
fn put_closure(out: &mut String, e: &Expr)
    requires
        *e is Closure,
    ensures
        final(out)@ == old(out)@ + expr_text(e@),
    decreases e, 0int,
{
    let ghost o = out@;
    match e {
        Expr::Closure(t, n, it, body) => {
            proof {
                assert(decreases_to!(*e => (*e)->Closure_3));
            }
            put(out, "(");
            match n {
                Some(n) => put(out, n.as_str()),
                None => put(out, "_"),
            }
            put_annot(out, it);
            put(out, " -> ");
            put_expr(out, body);
            put(out, ")");
            put_annot(out, t);
            proof {
                assert(out@ =~= o + expr_text(e@));
            }
        },
        _ => {},
    }
}

/// Appends the text of a `let` binding.
fn put_let(out: &mut String, e: &Expr)
    requires
        *e is Let,
    ensures
        final(out)@ == old(out)@ + expr_text(e@),
    decreases e, 0int,
{
    let ghost o = out@;
    match e {
        Expr::Let(t, _, n, at, ae, b) => {
            proof {
                assert(decreases_to!(*e => (*e)->Let_4));
                assert(decreases_to!(*e => (*e)->Let_5));
            }
            put(out, "(let ");
            put(out, n.as_str());
            put_annot(out, at);
            put(out, " = ");
            put_expr(out, ae);
            put(out, " in ");
            put_expr(out, b);
            put(out, ")");
            put_annot(out, t);
            proof {
                assert(out@ =~= o + expr_text(e@));
            }
        },
        _ => {},
    }
}

/// Appends the text of an expression.
fn put_expr(out: &mut String, e: &Expr)
    ensures
        final(out)@ == old(out)@ + expr_text(e@),
    decreases e, 1int,
{
    let ghost o = out@;
    match e {
        Expr::Unit(t) => {
            put(out, "()");
            put_annot(out, t);
            proof {
                assert(out@ =~= o + expr_text(e@));
            }
        },
        Expr::Int(t, i) => {
            put_int(out, *i);
            put_annot(out, t);
            proof {
                assert(out@ =~= o + expr_text(e@));
            }
        },
        Expr::EnvRef(t, n) => {
            put(out, n.as_str());
            put_annot(out, t);
            proof {
                assert(out@ =~= o + expr_text(e@));
            }
        },
        Expr::Discard(t) => {
            put(out, "_");
            put_annot(out, t);
            proof {
                assert(out@ =~= o + expr_text(e@));
            }
        },
        Expr::Apply(..) => put_apply(out, e),
        Expr::Cond(..) => put_cond(out, e),
        Expr::Closure(..) => put_closure(out, e),
        Expr::Struct(..) => put_struct(out, e),
        Expr::Match(..) => put_match(out, e),
        Expr::Let(..) => put_let(out, e),
    }
}

/// The expression without its own annotation.
pub open spec fn drop_annot(e: ExprV) -> ExprV {
    match e {
        ExprV::Unit(_) => ExprV::Unit(None),
        ExprV::Int(_, i) => ExprV::Int(None, i),
        ExprV::EnvRef(_, n) => ExprV::EnvRef(None, n),
        ExprV::Closure(_, n, it, o) => ExprV::Closure(None, n, it, o),
        ExprV::Struct(_, v) => ExprV::Struct(None, v),
        ExprV::Discard(_) => ExprV::Discard(None),
        ExprV::Cond(_, x, y, z) => ExprV::Cond(None, x, y, z),
        ExprV::Match(_, x, v) => ExprV::Match(None, x, v),
        ExprV::Apply(_, l, r) => ExprV::Apply(None, l, r),
        ExprV::Let(_, r, n, at, ae, b) => ExprV::Let(None, r, n, at, ae, b),
    }
}

/// What the text of a structure ends with after its annotation.
pub open spec fn closing(e: ExprV) -> Seq<char> {
    if e is Struct {
        " }"@
    } else {
        Seq::empty()
    }
}

/// Every annotation is printed: the text of an expression annotated with
/// `t` is the text of the same expression without annotation, with `:`
/// and the text of `t` put before the closing ` }` of a structure or at
/// the end of any other expression; an annotated application is also put
/// in parentheses of its own.
pub proof fn law_annotation_printed(e: ExprV, t: TypeV)
    ensures
        ({
            let base = expr_text(drop_annot(e));
            let k = closing(e).len() as int;
            let typed = crate::parser::expr::annotation::set_annot(e, t);
            &&& e is Apply ==> expr_text(typed) == "("@ + base + ":"@ + type_text(t) + ")"@
            &&& !(e is Apply) ==> {
                &&& k <= base.len()
                &&& base.subrange(base.len() - k, base.len() as int) == closing(e)
                &&& expr_text(typed) == base.subrange(0, base.len() - k) + ":"@ + type_text(t) + closing(e)
            }
        }),
{
    reveal_strlit(" }");
    reveal_strlit("(");
    reveal_strlit("((");
    reveal_strlit("):");
    reveal_strlit(")");
    reveal_strlit(":");
    let base = expr_text(drop_annot(e));
    let k = closing(e).len() as int;
    let typed = crate::parser::expr::annotation::set_annot(e, t);
    let a = ":"@ + type_text(t);
    assert(annot_text(None) == Seq::<char>::empty());
    assert(annot_text(Some(t)) == a);
    match e {
        ExprV::Apply(_, l, r) => {
            assert(expr_text(typed) =~= "("@ + base + ":"@ + type_text(t) + ")"@);
        },
        ExprV::Struct(_, fs) => {
            let head = "{ ["@ + sfields_text(fs) + "]"@;
            assert(base =~= head + " }"@);
            assert(base.subrange(base.len() - k, base.len() as int) =~= " }"@);
            assert(base.subrange(0, base.len() - k) =~= head);
            assert(expr_text(typed) =~= head + a + " }"@);
            assert(head + a + " }"@ =~= head + ":"@ + type_text(t) + closing(e));
        },
        _ => {
            assert(k == 0);
            assert(base.subrange(base.len() - k, base.len() as int) =~= Seq::<char>::empty());
            assert(base.subrange(0, base.len() - k) =~= base);
            assert(expr_text(typed) =~= base + a);
            assert(base + a =~= base + ":"@ + type_text(t) + Seq::<char>::empty());
        },
    }
}

/// The annotation of a closure's parameter is printed right after the
/// parameter's name: `:` and the text of the type.
pub proof fn law_parameter_annotation_printed(t: Option<TypeV>, n: Seq<char>, it: TypeV, o: ExprV)
    ensures
        ({
            let k = 1 + n.len() as int;
            let with = expr_text(ExprV::Closure(t, Some(n), Some(it), Box::new(o)));
            let without = expr_text(ExprV::Closure(t, Some(n), None, Box::new(o)));
            &&& k <= without.len()
            &&& with == without.subrange(0, k) + ":"@ + type_text(it) + without.subrange(k, without.len() as int)
        }),
{
    reveal_strlit("(");
    let k = 1 + n.len() as int;
    let a = ":"@ + type_text(it);
    let rest = " -> "@ + expr_text(o) + ")"@ + annot_text(t);
    let head = "("@ + n;
    let without = expr_text(ExprV::Closure(t, Some(n), None, Box::new(o)));
    let with = expr_text(ExprV::Closure(t, Some(n), Some(it), Box::new(o)));
    assert(without == head + Seq::<char>::empty() + rest);
    assert(with == head + a + rest);
    assert(without =~= head + rest);
    assert(without.subrange(0, k) =~= head);
    assert(without.subrange(k, without.len() as int) =~= rest);
}

/// The annotation of a `let`'s bound name is printed right after the
/// name: `:` and the text of the type.
pub proof fn law_bound_annotation_printed(t: Option<TypeV>, rec: bool, n: Seq<char>, it: TypeV, ae: ExprV, o: ExprV)
    ensures
        ({
            let k = 5 + n.len() as int;
            let with = expr_text(ExprV::Let(t, rec, n, Some(it), Box::new(ae), Box::new(o)));
            let without = expr_text(ExprV::Let(t, rec, n, None, Box::new(ae), Box::new(o)));
            &&& k <= without.len()
            &&& with == without.subrange(0, k) + ":"@ + type_text(it) + without.subrange(k, without.len() as int)
        }),
{
    reveal_strlit("(let ");
    let k = 5 + n.len() as int;
    let a = ":"@ + type_text(it);
    let rest = " = "@ + expr_text(ae) + " in "@ + expr_text(o) + ")"@ + annot_text(t);
    let head = "(let "@ + n;
    let without = expr_text(ExprV::Let(t, rec, n, None, Box::new(ae), Box::new(o)));
    let with = expr_text(ExprV::Let(t, rec, n, Some(it), Box::new(ae), Box::new(o)));
    assert(without == head + Seq::<char>::empty() + rest);
    assert(with == head + a + rest);
    assert(without =~= head + rest);
    assert(without.subrange(0, k) =~= head);
    assert(without.subrange(k, without.len() as int) =~= rest);
}

impl Expr {
    /// The text of the expression; see `expr_text`.
    pub fn to_text(&self) -> (r: String)
        ensures
            r@ == expr_text(self@),
    {
        let mut out = String::new();
        put_expr(&mut out, self);
        proof {
            assert(out@ =~= expr_text(self@));
        }
        out
    }
}

impl Type {
    /// The text of the type; see `type_text`.
    pub fn to_text(&self) -> (r: String)
        ensures
            r@ == type_text(self@),
    {
        let mut out = String::new();
        put_type(&mut out, self);
        proof {
            assert(out@ =~= type_text(self@));
        }
        out
    }
}

} // verus!
