use vstd::prelude::*;

use crate::parser::keyword::Keyword;

verus! {

pub type OptBoxPat = Option<Box<Pat>>;

/// The symbols on the stack of the expression parser: marks and keywords
/// moved in from the token stream, finished expressions and types, and
/// the partial constructs between them.
#[derive(Debug, PartialEq)]
pub enum Pat {
    Start,
    End,
    Fail,
    Mark(char),
    Kw(Keyword),
    // expressions
    Unit(OptBoxPat),
    Int(OptBoxPat, i64),
    LetName(OptBoxPat, String),
    Apply(OptBoxPat, Box<Pat>, Box<Pat>),
    Cond(OptBoxPat, Box<Pat>, Box<Pat>, Box<Pat>),
    Arrow,
    ClosureInput(Option<String>, OptBoxPat),
    Closure(OptBoxPat, Option<String>, OptBoxPat, Box<Pat>),
    Assign(bool, String, OptBoxPat, Box<Pat>),
    AssignSeq(Vec<(bool, String, OptBoxPat, Pat)>),
    Struct(OptBoxPat, Vec<(String, OptBoxPat, Pat)>),
    Discard(OptBoxPat),
    MatchHead(Box<Pat>),
    CaseHead(Box<Pat>),
    Case(Box<Pat>, Box<Pat>),
    CaseSeq(Vec<(Pat, Pat)>),
    Match(OptBoxPat, Box<Pat>, Vec<(Pat, Pat)>),
    Let(OptBoxPat, bool, String, OptBoxPat, Box<Pat>, Box<Pat>),
    // type annotations
    TypedExprHead(Box<Pat>),
    TypeName(String),
    TypeApply(Box<Pat>, Box<Pat>),
    ClosureTypeHead(Box<Pat>),
    ClosureType(Box<Pat>, Box<Pat>),
    /// The alternatives of a sum type, kept as a set: each once, in the
    /// order of the types they stand for.
    SumType(Vec<Pat>),
    TypedLetNameSeq(Vec<(String, Pat)>),
    ProdType(Vec<(String, Pat)>),
}

pub type OptPatV = Option<Box<PatV>>;

/// The mathematical value of a `Pat`.
pub enum PatV {
    Start,
    End,
    Fail,
    Mark(char),
    Kw(Keyword),
    Unit(OptPatV),
    Int(OptPatV, i64),
    LetName(OptPatV, Seq<char>),
    Apply(OptPatV, Box<PatV>, Box<PatV>),
    Cond(OptPatV, Box<PatV>, Box<PatV>, Box<PatV>),
    Arrow,
    ClosureInput(Option<Seq<char>>, OptPatV),
    Closure(OptPatV, Option<Seq<char>>, OptPatV, Box<PatV>),
    Assign(bool, Seq<char>, OptPatV, Box<PatV>),
    AssignSeq(Seq<(bool, Seq<char>, OptPatV, PatV)>),
    Struct(OptPatV, Seq<(Seq<char>, OptPatV, PatV)>),
    Discard(OptPatV),
    MatchHead(Box<PatV>),
    CaseHead(Box<PatV>),
    Case(Box<PatV>, Box<PatV>),
    CaseSeq(Seq<(PatV, PatV)>),
    Match(OptPatV, Box<PatV>, Seq<(PatV, PatV)>),
    Let(OptPatV, bool, Seq<char>, OptPatV, Box<PatV>, Box<PatV>),
    TypedExprHead(Box<PatV>),
    TypeName(Seq<char>),
    TypeApply(Box<PatV>, Box<PatV>),
    ClosureTypeHead(Box<PatV>),
    ClosureType(Box<PatV>, Box<PatV>),
    SumType(Seq<PatV>),
    TypedLetNameSeq(Seq<(Seq<char>, PatV)>),
    ProdType(Seq<(Seq<char>, PatV)>),
}

pub open spec fn opt_str_view(o: Option<String>) -> Option<Seq<char>> {
    match o {
        Some(s) => Some(s@),
        None => None,
    }
}

pub open spec fn ov(o: OptBoxPat) -> OptPatV
    decreases o,
{
    match o {
        Some(b) => Some(Box::new(pv(*b))),
        None => None,
    }
}

pub open spec fn pv(p: Pat) -> PatV
    decreases p,
{
    match p {
        Pat::Start => PatV::Start,
        Pat::End => PatV::End,
        Pat::Fail => PatV::Fail,
        Pat::Mark(c) => PatV::Mark(c),
        Pat::Kw(k) => PatV::Kw(k),
        Pat::Unit(t) => PatV::Unit(ov(t)),
        Pat::Int(t, i) => PatV::Int(ov(t), i),
        Pat::LetName(t, n) => PatV::LetName(ov(t), n@),
        Pat::Apply(t, l, r) => PatV::Apply(ov(t), Box::new(pv(*l)), Box::new(pv(*r))),
        Pat::Cond(t, a, b, c) => PatV::Cond(ov(t), Box::new(pv(*a)), Box::new(pv(*b)), Box::new(pv(*c))),
        Pat::Arrow => PatV::Arrow,
        Pat::ClosureInput(n, t) => PatV::ClosureInput(opt_str_view(n), ov(t)),
        Pat::Closure(t, n, it, b) => PatV::Closure(ov(t), opt_str_view(n), ov(it), Box::new(pv(*b))),
        Pat::Assign(r, n, t, e) => PatV::Assign(r, n@, ov(t), Box::new(pv(*e))),
        Pat::AssignSeq(v) => PatV::AssignSeq(
            Seq::new(
                v.len() as nat,
                |i: int|
                    if 0 <= i < v.len() {
                        (v[i].0, v[i].1@, ov(v[i].2), pv(v[i].3))
                    } else {
                        (false, Seq::empty(), None, PatV::Fail)
                    },
            ),
        ),
        Pat::Struct(t, v) => PatV::Struct(
            ov(t),
            Seq::new(
                v.len() as nat,
                |i: int|
                    if 0 <= i < v.len() {
                        (v[i].0@, ov(v[i].1), pv(v[i].2))
                    } else {
                        (Seq::empty(), None, PatV::Fail)
                    },
            ),
        ),
        Pat::Discard(t) => PatV::Discard(ov(t)),
        Pat::MatchHead(e) => PatV::MatchHead(Box::new(pv(*e))),
        Pat::CaseHead(e) => PatV::CaseHead(Box::new(pv(*e))),
        Pat::Case(a, b) => PatV::Case(Box::new(pv(*a)), Box::new(pv(*b))),
        Pat::CaseSeq(v) => PatV::CaseSeq(
            Seq::new(
                v.len() as nat,
                |i: int| if 0 <= i < v.len() { (pv(v[i].0), pv(v[i].1)) } else { (PatV::Fail, PatV::Fail) },
            ),
        ),
        Pat::Match(t, e, v) => PatV::Match(
            ov(t),
            Box::new(pv(*e)),
            Seq::new(
                v.len() as nat,
                |i: int| if 0 <= i < v.len() { (pv(v[i].0), pv(v[i].1)) } else { (PatV::Fail, PatV::Fail) },
            ),
        ),
        Pat::Let(t, r, n, at, ae, e) => PatV::Let(
            ov(t),
            r,
            n@,
            ov(at),
            Box::new(pv(*ae)),
            Box::new(pv(*e)),
        ),
        Pat::TypedExprHead(e) => PatV::TypedExprHead(Box::new(pv(*e))),
        Pat::TypeName(n) => PatV::TypeName(n@),
        Pat::TypeApply(a, b) => PatV::TypeApply(Box::new(pv(*a)), Box::new(pv(*b))),
        Pat::ClosureTypeHead(t) => PatV::ClosureTypeHead(Box::new(pv(*t))),
        Pat::ClosureType(i, o) => PatV::ClosureType(Box::new(pv(*i)), Box::new(pv(*o))),
        Pat::SumType(v) => PatV::SumType(
            Seq::new(v.len() as nat, |i: int| if 0 <= i < v.len() { pv(v[i]) } else { PatV::Fail }),
        ),
        Pat::TypedLetNameSeq(v) => PatV::TypedLetNameSeq(
            Seq::new(
                v.len() as nat,
                |i: int| if 0 <= i < v.len() { (v[i].0@, pv(v[i].1)) } else { (Seq::empty(), PatV::Fail) },
            ),
        ),
        Pat::ProdType(v) => PatV::ProdType(
            Seq::new(
                v.len() as nat,
                |i: int| if 0 <= i < v.len() { (v[i].0@, pv(v[i].1)) } else { (Seq::empty(), PatV::Fail) },
            ),
        ),
    }
}

impl View for Pat {
    type V = PatV;

    open spec fn view(&self) -> PatV {
        pv(*self)
    }
}

/// Patterns that stand for a finished expression.
pub open spec fn is_expr_v(p: PatV) -> bool {
    match p {
        PatV::Unit(..) | PatV::Int(..) | PatV::LetName(..) | PatV::Apply(..) | PatV::Cond(..)
        | PatV::Closure(..) | PatV::Struct(..) | PatV::Discard(..) | PatV::Match(..) | PatV::Let(..) => true,
        _ => false,
    }
}

/// Patterns that stand for a finished type.
pub open spec fn is_type_v(p: PatV) -> bool {
    match p {
        PatV::TypeName(..) | PatV::TypeApply(..) | PatV::ClosureType(..) | PatV::SumType(..) | PatV::ProdType(..) => true,
        _ => false,
    }
}

/// An expression pattern with its type annotation replaced by `t`.
pub open spec fn with_type_v(p: PatV, t: PatV) -> Option<PatV> {
    let a = Some(Box::new(t));
    match p {
        PatV::Discard(_) => Some(PatV::Discard(a)),
        PatV::Unit(_) => Some(PatV::Unit(a)),
        PatV::Int(_, i) => Some(PatV::Int(a, i)),
        PatV::LetName(_, n) => Some(PatV::LetName(a, n)),
        PatV::Apply(_, l, r) => Some(PatV::Apply(a, l, r)),
        PatV::Cond(_, e, x, y) => Some(PatV::Cond(a, e, x, y)),
        PatV::Closure(_, n, it, o) => Some(PatV::Closure(a, n, it, o)),
        PatV::Struct(_, v) => Some(PatV::Struct(a, v)),
        PatV::Match(_, e, v) => Some(PatV::Match(a, e, v)),
        PatV::Let(_, r, n, at, ae, e) => Some(PatV::Let(a, r, n, at, ae, e)),
        _ => None,
    }
}

impl Pat {
    pub fn is_expr(&self) -> (r: bool)
        ensures
            r == is_expr_v(self@),
    {
        match self {
            Pat::Unit(..) | Pat::Int(..) | Pat::LetName(..) | Pat::Apply(..) | Pat::Cond(..)
            | Pat::Closure(..) | Pat::Struct(..) | Pat::Discard(..) | Pat::Match(..) | Pat::Let(..) => true,
            _ => false,
        }
    }

    /// Annotates an expression pattern with a type; `None` for a pattern
    /// that is no expression.
    pub fn with_type(self, ty: Pat) -> (r: Option<Self>)
        ensures
            match r {
                Some(e) => with_type_v(self@, ty@) == Some(e@),
                None => with_type_v(self@, ty@) is None,
            },
    {
        let ghost sv = self@;
        let ghost tyv = ty@;
        let a = Some(Box::new(ty));
        assert(ov(a) == Some(Box::new(tyv)));
        match self {
            Pat::Discard(_) => Some(Pat::Discard(a)),
            Pat::Unit(_) => Some(Pat::Unit(a)),
            Pat::Int(_, i) => Some(Pat::Int(a, i)),
            Pat::LetName(_, n) => Some(Pat::LetName(a, n)),
            Pat::Apply(_, l, r) => Some(Pat::Apply(a, l, r)),
            Pat::Cond(_, e, x, y) => Some(Pat::Cond(a, e, x, y)),
            Pat::Closure(_, n, it, o) => Some(Pat::Closure(a, n, it, o)),
            Pat::Struct(_, v) => {
                let r = Pat::Struct(a, v);
                assert(r@->Struct_1 =~= sv->Struct_1);
                Some(r)
            },
            Pat::Match(_, e, v) => {
                let r = Pat::Match(a, e, v);
                assert(r@->Match_2 =~= sv->Match_2);
                Some(r)
            },
            Pat::Let(_, r, n, at, ae, e) => Some(Pat::Let(a, r, n, at, ae, e)),
            _ => None,
        }
    }

    pub fn is_type(&self) -> (r: bool)
        ensures
            r == is_type_v(self@),
    {
        match self {
            Pat::TypeName(..) | Pat::TypeApply(..) | Pat::ClosureType(..) | Pat::SumType(..) | Pat::ProdType(..) => true,
            _ => false,
        }
    }
}

impl From<Keyword> for Pat {
    fn from(kw: Keyword) -> (r: Self) {
        Pat::Kw(kw)
    }
}

impl vstd::std_specs::convert::FromSpecImpl<Keyword> for Pat {
    open spec fn obeys_from_spec() -> bool {
        true
    }

    open spec fn from_spec(kw: Keyword) -> Pat {
        Pat::Kw(kw)
    }
}

/// A pattern accepts a type annotation exactly when it is an expression.
pub proof fn law_with_type_accepts_expressions(p: PatV, t: PatV)
    ensures
        with_type_v(p, t) is Some <==> is_expr_v(p),
        with_type_v(p, t) matches Some(e) ==> is_expr_v(e),
{
}

} // verus!
