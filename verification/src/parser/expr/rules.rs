use vstd::prelude::*;

use crate::parser::expr::pat::{is_expr_v, is_type_v, with_type_v, OptPatV, PatV};
use crate::parser::expr::psum::{insert_pat, union_pats};
use crate::parser::keyword::Keyword;
use crate::parser::preprocess::OutV;

verus! {

/// The `k`-th symbol from the top of the stack (`k` = 1 is the top).
pub open spec fn at(s: Seq<PatV>, k: int) -> PatV {
    s[s.len() - k]
}

/// The stack with its top `k` symbols replaced by `p`.
pub open spec fn red(s: Seq<PatV>, k: int, p: PatV) -> Seq<PatV> {
    s.subrange(0, s.len() - k).push(p)
}

/// A token after which an expression may be closed.
pub open spec fn expr_end(f: Option<OutV>) -> bool {
    match f {
        None => true,
        Some(OutV::Symbol(c)) => c == ')' || c == '}' || c == ',' || c == '|',
        Some(OutV::Kw(_)) => true,
        _ => false,
    }
}

/// A token after which a type annotation may be closed.
pub open spec fn type_end(f: Option<OutV>) -> bool {
    match f {
        None => true,
        Some(OutV::Symbol(c)) => c == ')' || c == '}' || c == ',' || c == '=',
        Some(OutV::Kw(_)) => true,
        _ => false,
    }
}

pub open spec fn is_sym(f: Option<OutV>, c: char) -> bool {
    f == Some(OutV::Symbol(c))
}

/// A value name that carries a type annotation.
pub open spec fn typed_name(p: PatV) -> bool {
    (p is LetName) && (p->LetName_0 is Some)
}

pub open spec fn mk(c: char) -> PatV {
    PatV::Mark(c)
}

pub open spec fn kw(k: Keyword) -> PatV {
    PatV::Kw(k)
}

/// The outcome of one reduction attempt: either the parser stops here with
/// the given stack, or the stack was reduced and reduction goes on.
pub enum Step {
    Stop(Seq<PatV>),
    Again(Seq<PatV>),
}

/// A chain of `let` bindings around `body`; the first binding is the
/// outermost one.
pub open spec fn let_chain(v: Seq<(bool, Seq<char>, OptPatV, PatV)>, body: PatV) -> PatV
    decreases v.len(),
{
    if v.len() == 0 {
        body
    } else {
        let x = v.last();
        let_chain(v.drop_last(), PatV::Let(None, x.0, x.1, x.2, Box::new(x.3), Box::new(body)))
    }
}

pub open spec fn drop_rec(v: Seq<(bool, Seq<char>, OptPatV, PatV)>) -> Seq<(Seq<char>, OptPatV, PatV)> {
    Seq::new(v.len(), |i: int| (v[i].1, v[i].2, v[i].3))
}

pub open spec fn boxed(o: OptPatV) -> PatV {
    match o {
        Some(b) => *b,
        None => PatV::Fail,
    }
}

/// Success, parentheses, conditionals and closures.
pub open spec fn rules_a(s: Seq<PatV>, f: Option<OutV>) -> Option<Step> {
    let n = s.len();
    if n == 3 && s[0] is Start && s[2] is End && f is None {
        // Start p End -> p
        Some(Step::Stop(seq![s[1]]))
    } else if n >= 3 && at(s, 3) == mk('(') && is_expr_v(at(s, 2)) && at(s, 1) == mk(')') {
        // `(` Expr `)` -> Expr
        Some(Step::Again(red(s, 3, at(s, 2))))
    } else if n >= 6 && at(s, 6) == kw(Keyword::If) && is_expr_v(at(s, 5)) && at(s, 4) == kw(Keyword::Then)
        && is_expr_v(at(s, 3)) && at(s, 2) == kw(Keyword::Else) && is_expr_v(at(s, 1)) && expr_end(f) {
        // KwIf Expr KwThen Expr KwElse Expr :ExprEnd -> Cond
        Some(Step::Again(red(s, 6, PatV::Cond(None, Box::new(at(s, 5)), Box::new(at(s, 3)), Box::new(at(s, 1))))))
    } else if n >= 2 && at(s, 2) == mk('-') && at(s, 1) == mk('>') {
        // `-` `>` -> Arrow
        Some(Step::Again(red(s, 2, PatV::Arrow)))
    } else if n >= 2 && at(s, 2) is Discard && at(s, 1) is Arrow {
        // Discard Arrow -> ClosureInput
        Some(Step::Again(red(s, 2, PatV::ClosureInput(None, at(s, 2)->Discard_0))))
    } else if n >= 2 && at(s, 2) is LetName && at(s, 1) is Arrow {
        // LetName Arrow -> ClosureInput
        Some(Step::Again(red(s, 2, PatV::ClosureInput(Some(at(s, 2)->LetName_1), at(s, 2)->LetName_0))))
    } else if n >= 2 && at(s, 2) is ClosureInput && is_expr_v(at(s, 1)) && expr_end(f) {
        // ClosureInput Expr :ExprEnd -> Closure
        Some(Step::Again(red(s, 2, PatV::Closure(None, at(s, 2)->ClosureInput_0, at(s, 2)->ClosureInput_1, Box::new(at(s, 1))))))
    } else {
        None
    }
}

/// Field assignments and structures.
pub open spec fn rules_b(s: Seq<PatV>, f: Option<OutV>) -> Option<Step> {
    let n = s.len();
    if n >= 4 && at(s, 4) is LetName && at(s, 3) == mk('=') && is_expr_v(at(s, 2)) && at(s, 1) == mk(',') {
        // LetName `=` Expr `,` -> Assign
        Some(Step::Again(red(s, 4, PatV::Assign(false, at(s, 4)->LetName_1, at(s, 4)->LetName_0, Box::new(at(s, 2))))))
    } else if n >= 3 && at(s, 3) is LetName && at(s, 2) == mk('=') && is_expr_v(at(s, 1)) && is_sym(f, '}') {
        // LetName `=` Expr :`}` -> Assign
        Some(Step::Again(red(s, 3, PatV::Assign(false, at(s, 3)->LetName_1, at(s, 3)->LetName_0, Box::new(at(s, 1))))))
    } else if n >= 2 && at(s, 2) is Assign && at(s, 1) is Assign {
        // Assign Assign -> AssignSeq
        let a = at(s, 2);
        let b = at(s, 1);
        Some(Step::Again(red(s, 2, PatV::AssignSeq(seq![
            (a->Assign_0, a->Assign_1, a->Assign_2, *a->Assign_3),
            (b->Assign_0, b->Assign_1, b->Assign_2, *b->Assign_3),
        ]))))
    } else if n >= 2 && at(s, 2) is AssignSeq && at(s, 1) is Assign {
        // AssignSeq Assign -> AssignSeq
        let b = at(s, 1);
        Some(Step::Again(red(s, 2, PatV::AssignSeq(
            at(s, 2)->AssignSeq_0.push((b->Assign_0, b->Assign_1, b->Assign_2, *b->Assign_3)),
        ))))
    } else if n >= 3 && at(s, 3) == mk('{') && at(s, 2) is AssignSeq && at(s, 1) == mk('}') {
        // `{` AssignSeq `}` -> Struct
        Some(Step::Again(red(s, 3, PatV::Struct(None, drop_rec(at(s, 2)->AssignSeq_0)))))
    } else if n >= 3 && at(s, 3) == mk('{') && at(s, 2) is Assign && at(s, 1) == mk('}') {
        // `{` Assign `}` -> Struct
        let a = at(s, 2);
        Some(Step::Again(red(s, 3, PatV::Struct(None, seq![(a->Assign_1, a->Assign_2, *a->Assign_3)]))))
    } else {
        None
    }
}

/// Pattern matching.
pub open spec fn rules_c(s: Seq<PatV>, f: Option<OutV>) -> Option<Step> {
    let n = s.len();
    if n >= 3 && at(s, 3) == kw(Keyword::Match) && is_expr_v(at(s, 2)) && at(s, 1) == kw(Keyword::With) {
        // KwMatch Expr KwWith -> MatchHead
        Some(Step::Again(red(s, 3, PatV::MatchHead(Box::new(at(s, 2))))))
    } else if n >= 2 && at(s, 2) == mk('|') && is_expr_v(at(s, 1)) && is_sym(f, '-') {
        // `|` Expr :`-` -> CaseHead
        Some(Step::Again(red(s, 2, PatV::CaseHead(Box::new(at(s, 1))))))
    } else if n >= 3 && at(s, 3) is CaseHead && at(s, 2) is Arrow && is_expr_v(at(s, 1)) && expr_end(f) {
        // CaseHead Arrow Expr :ExprEnd -> Case
        Some(Step::Again(red(s, 3, PatV::Case(at(s, 3)->CaseHead_0, Box::new(at(s, 1))))))
    } else if n >= 2 && at(s, 2) is Case && at(s, 1) is Case {
        // Case Case -> CaseSeq
        let a = at(s, 2);
        let b = at(s, 1);
        Some(Step::Again(red(s, 2, PatV::CaseSeq(seq![(*a->Case_0, *a->Case_1), (*b->Case_0, *b->Case_1)]))))
    } else if n >= 2 && at(s, 2) is CaseSeq && at(s, 1) is Case {
        // CaseSeq Case -> CaseSeq
        let b = at(s, 1);
        Some(Step::Again(red(s, 2, PatV::CaseSeq(at(s, 2)->CaseSeq_0.push((*b->Case_0, *b->Case_1))))))
    } else if n >= 2 && at(s, 2) is MatchHead && at(s, 1) is Case && !is_sym(f, '|') {
        // MatchHead Case :!`|` -> Match
        let b = at(s, 1);
        Some(Step::Again(red(s, 2, PatV::Match(None, at(s, 2)->MatchHead_0, seq![(*b->Case_0, *b->Case_1)]))))
    } else if n >= 2 && at(s, 2) is MatchHead && at(s, 1) is CaseSeq && !is_sym(f, '|') {
        // MatchHead CaseSeq :!`|` -> Match
        Some(Step::Again(red(s, 2, PatV::Match(None, at(s, 2)->MatchHead_0, at(s, 1)->CaseSeq_0))))
    } else {
        None
    }
}

/// Application, `let` bindings and the head of a type annotation.
pub open spec fn rules_d(s: Seq<PatV>, f: Option<OutV>) -> Option<Step> {
    let n = s.len();
    if n >= 2 && is_expr_v(at(s, 2)) && is_expr_v(at(s, 1)) {
        // Expr Expr -> Apply
        Some(Step::Again(red(s, 2, PatV::Apply(None, Box::new(at(s, 2)), Box::new(at(s, 1))))))
    } else if n >= 3 && at(s, 3) is LetName && at(s, 2) == mk('=') && is_expr_v(at(s, 1)) && f == Some(
        OutV::Kw(Keyword::In),
    ) {
        // LetName `=` Expr :KwIn -> Assign
        Some(Step::Again(red(s, 3, PatV::Assign(false, at(s, 3)->LetName_1, at(s, 3)->LetName_0, Box::new(at(s, 1))))))
    } else if n >= 4 && at(s, 4) == kw(Keyword::Let) && at(s, 3) is AssignSeq && at(s, 2) == kw(Keyword::In)
        && is_expr_v(at(s, 1)) && expr_end(f) {
        // KwLet AssignSeq KwIn Expr :ExprEnd -> Let
        Some(Step::Again(red(s, 4, let_chain(at(s, 3)->AssignSeq_0, at(s, 1)))))
    } else if n >= 4 && at(s, 4) == kw(Keyword::Let) && at(s, 3) is Assign && at(s, 2) == kw(Keyword::In)
        && is_expr_v(at(s, 1)) && expr_end(f) {
        // KwLet Assign KwIn Expr :ExprEnd -> Let
        let a = at(s, 3);
        Some(Step::Again(red(s, 4, PatV::Let(None, a->Assign_0, a->Assign_1, a->Assign_2, a->Assign_3, Box::new(at(s, 1))))))
    } else if n >= 2 && is_expr_v(at(s, 2)) && at(s, 1) == mk(':') {
        // Expr `:` -> TypedExprHead
        Some(Step::Again(red(s, 2, PatV::TypedExprHead(Box::new(at(s, 2))))))
    } else if n >= 2 && at(s, 2) is TypedExprHead && is_type_v(at(s, 1)) && type_end(f) {
        // TypedExprHead Type :TypeEnd -> Expr
        match with_type_v(*at(s, 2)->TypedExprHead_0, at(s, 1)) {
            Some(e) => Some(Step::Again(red(s, 2, e))),
            None => Some(Step::Stop(seq![PatV::Fail])),
        }
    } else {
        None
    }
}

/// Closure types and sum types.
pub open spec fn rules_e(s: Seq<PatV>, f: Option<OutV>) -> Option<Step> {
    let n = s.len();
    if n >= 3 && at(s, 3) == mk('(') && is_type_v(at(s, 2)) && at(s, 1) == mk(')') {
        // `(` Type `)` -> Type
        Some(Step::Again(red(s, 3, at(s, 2))))
    } else if n >= 2 && is_type_v(at(s, 2)) && at(s, 1) is Arrow {
        // Type Arrow -> ClosureTypeHead
        Some(Step::Again(red(s, 2, PatV::ClosureTypeHead(Box::new(at(s, 2))))))
    } else if n >= 2 && at(s, 2) is ClosureTypeHead && is_type_v(at(s, 1)) && type_end(f) {
        // ClosureTypeHead Type :TypeEnd -> ClosureType
        Some(Step::Again(red(s, 2, PatV::ClosureType(at(s, 2)->ClosureTypeHead_0, Box::new(at(s, 1))))))
    } else if n >= 3 && at(s, 3) is SumType && at(s, 2) == mk('|') && at(s, 1) is SumType {
        // SumType `|` SumType -> SumType   (union of the alternatives)
        Some(Step::Again(red(s, 3, PatV::SumType(union_pats(at(s, 3)->SumType_0, at(s, 1)->SumType_0)))))
    } else if n >= 3 && is_type_v(at(s, 3)) && at(s, 2) == mk('|') && at(s, 1) is SumType {
        // Type `|` SumType -> SumType
        Some(Step::Again(red(s, 3, PatV::SumType(insert_pat(at(s, 1)->SumType_0, at(s, 3))))))
    } else if n >= 3 && at(s, 3) is SumType && at(s, 2) == mk('|') && is_type_v(at(s, 1)) {
        // SumType `|` Type -> SumType
        Some(Step::Again(red(s, 3, PatV::SumType(insert_pat(at(s, 3)->SumType_0, at(s, 1))))))
    } else if n >= 3 && is_type_v(at(s, 3)) && at(s, 2) == mk('|') && is_type_v(at(s, 1)) {
        // Type `|` Type -> SumType
        Some(Step::Again(red(s, 3, PatV::SumType(insert_pat(seq![at(s, 3)], at(s, 1))))))
    } else {
        None
    }
}

/// Product types.
pub open spec fn rules_f(s: Seq<PatV>, f: Option<OutV>) -> Option<Step> {
    let n = s.len();
    if n >= 3 && typed_name(at(s, 3)) && at(s, 2) == mk(',') && typed_name(at(s, 1)) && (is_sym(f, '}') || is_sym(f, ',')) {
        // LetName `,` LetName :`}`|`,` -> TypedLetNameSeq   (typed names)
        let a = at(s, 3);
        let b = at(s, 1);
        Some(Step::Again(red(s, 3, PatV::TypedLetNameSeq(seq![
            (a->LetName_1, boxed(a->LetName_0)),
            (b->LetName_1, boxed(b->LetName_0)),
        ]))))
    } else if n >= 3 && at(s, 3) is TypedLetNameSeq && at(s, 2) == mk(',') && typed_name(at(s, 1)) && (is_sym(f, '}') || is_sym(f, ',')) {
        // TypedLetNameSeq `,` LetName :`}`|`,` -> TypedLetNameSeq
        let b = at(s, 1);
        Some(Step::Again(red(s, 3, PatV::TypedLetNameSeq(
            at(s, 3)->TypedLetNameSeq_0.push((b->LetName_1, boxed(b->LetName_0))),
        ))))
    } else if n >= 3 && at(s, 3) == mk('{') && at(s, 2) is TypedLetNameSeq && at(s, 1) == mk('}') {
        // `{` TypedLetNameSeq `}` -> ProdType
        Some(Step::Again(red(s, 3, PatV::ProdType(at(s, 2)->TypedLetNameSeq_0))))
    } else if n >= 4 && at(s, 4) == mk('{') && at(s, 3) is TypedLetNameSeq && at(s, 2) == mk(',') && at(s, 1)
        == mk('}') {
        // `{` TypedLetNameSeq `,` `}` -> ProdType
        Some(Step::Again(red(s, 4, PatV::ProdType(at(s, 3)->TypedLetNameSeq_0))))
    } else if n >= 3 && at(s, 3) == mk('{') && typed_name(at(s, 2)) && at(s, 1) == mk('}') {
        // `{` LetName `}` -> ProdType   (typed name)
        let a = at(s, 2);
        Some(Step::Again(red(s, 3, PatV::ProdType(seq![(a->LetName_1, boxed(a->LetName_0))]))))
    } else if n >= 4 && at(s, 4) == mk('{') && typed_name(at(s, 3)) && at(s, 2) == mk(',')
        && at(s, 1) == mk('}') {
        // `{` LetName `,` `}` -> ProdType   (typed name)
        let a = at(s, 3);
        Some(Step::Again(red(s, 4, PatV::ProdType(seq![(a->LetName_1, boxed(a->LetName_0))]))))
    } else {
        None
    }
}

/// What happens when no production applies: a failure stays a failure, an
/// unreduced end of input fails, and otherwise the next token is moved in.
pub open spec fn rules_rest(s: Seq<PatV>) -> Step {
    let n = s.len();
    if n >= 1 && at(s, 1) is Fail {
        Step::Stop(seq![PatV::Fail])
    } else if n >= 1 && at(s, 1) is End {
        Step::Stop(seq![PatV::Fail])
    } else {
        Step::Stop(s)
    }
}

/// One reduction of the expression grammar: the productions are tried in
/// order on the top of the stack `s`, with the lookahead token `f`.
pub open spec fn reduce_step(s: Seq<PatV>, f: Option<OutV>) -> Step {
    if let Some(r) = rules_a(s, f) {
        r
    } else if let Some(r) = rules_b(s, f) {
        r
    } else if let Some(r) = rules_c(s, f) {
        r
    } else if let Some(r) = rules_d(s, f) {
        r
    } else if let Some(r) = rules_e(s, f) {
        r
    } else if let Some(r) = rules_f(s, f) {
        r
    } else {
        rules_rest(s)
    }
}

/// Parentheses around an expression on top of the stack vanish, whatever
/// lies below them and whatever follows.
pub proof fn law_parens_around_expression(s: Seq<PatV>, e: PatV, f: Option<OutV>)
    requires
        is_expr_v(e),
    ensures
        reduce_step(s.push(mk('(')).push(e).push(mk(')')), f) == Step::Again(s.push(e)),
{
    let t = s.push(mk('(')).push(e).push(mk(')'));
    assert(red(t, 3, e) =~= s.push(e));
}

/// Parentheses around a type on top of the stack vanish, whatever lies
/// below them and whatever follows.
pub proof fn law_parens_around_type(s: Seq<PatV>, ty: PatV, f: Option<OutV>)
    requires
        is_type_v(ty),
    ensures
        reduce_step(s.push(mk('(')).push(ty).push(mk(')')), f) == Step::Again(s.push(ty)),
{
    let t = s.push(mk('(')).push(ty).push(mk(')'));
    assert(red(t, 3, ty) =~= s.push(ty));
}

/// In a chain of `let` bindings the first binding is the outermost one.
pub proof fn law_let_chain_first_outermost(v: Seq<(bool, Seq<char>, OptPatV, PatV)>, body: PatV)
    requires
        v.len() > 0,
    ensures
        let_chain(v, body) == PatV::Let(None, v[0].0, v[0].1, v[0].2, Box::new(v[0].3), Box::new(let_chain(v.drop_first(), body))),
    decreases v.len(),
{
    if v.len() > 1 {
        let x = v.last();
        let inner = PatV::Let(None, x.0, x.1, x.2, Box::new(x.3), Box::new(body));
        law_let_chain_first_outermost(v.drop_last(), inner);
        assert(v.drop_last().drop_first() =~= v.drop_first().drop_last());
        assert(v.drop_first().last() == x);
        assert(let_chain(v.drop_first(), body) == let_chain(v.drop_first().drop_last(), inner));
        assert(v.drop_last()[0] == v[0]);
        assert(let_chain(v, body) == let_chain(v.drop_last(), inner));
    } else {
        let x = v.last();
        let inner = PatV::Let(None, x.0, x.1, x.2, Box::new(x.3), Box::new(body));
        assert(v.drop_first() =~= Seq::<(bool, Seq<char>, OptPatV, PatV)>::empty());
        assert(v.drop_last() =~= Seq::<(bool, Seq<char>, OptPatV, PatV)>::empty());
        assert(let_chain(v.drop_last(), inner) == inner);
        assert(let_chain(v.drop_first(), body) == body);
        assert(x == v[0]);
    }
}

/// Reduction repeated until it stops.
pub open spec fn spec_reduce_stack(s: Seq<PatV>, f: Option<OutV>) -> Seq<PatV>
    decreases s.len(),
{
    match reduce_step(s, f) {
        Step::Stop(r) => r,
        Step::Again(r) => if r.len() < s.len() {
            spec_reduce_stack(r, f)
        } else {
            r
        },
    }
}

} // verus!
