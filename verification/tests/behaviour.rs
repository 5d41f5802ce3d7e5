use catly::parser::ast::{parse_ast, parse_to_defines, split_to_top_levels};
use catly::parser::define::{parse_define, Define};
use catly::parser::expr::follow_pat::{parse_follow_pat, FollowPat};
use catly::parser::expr::pat::Pat;
use catly::parser::expr::reduce::reduce_stack;
use catly::parser::expr::typed::{parse_expr, Expr};
use catly::parser::infra::option::Ext as OptionExt;
use catly::parser::infra::vec::Ext as VecOwnExt;
use catly::parser::infra::{
    str_get_head_tail, str_get_head_tail_follow, vec_get_head_tail, vec_get_head_tail_follow, BoxExt, Either, VecExt,
};
use catly::parser::infra::slice::slice_get_head_tail;
use catly::parser::keyword::Keyword;
use catly::parser::preprocess::{preprocess, Out};
use catly::parser::types::{parse_type, Type};

fn tokens(s: &str) -> Vec<Out> {
    preprocess(s).unwrap()
}

fn expr(s: &str) -> Option<Expr> {
    parse_expr(tokens(s))
}

fn first(s: &str) -> Option<catly::parser::expr::Expr> {
    catly::parser::expr::parse_expr(tokens(s))
}

fn ty(s: &str) -> Option<Type> {
    parse_type(tokens(s))
}

fn namely(n: &str) -> Type {
    Type::NamelyType(n.to_string())
}

#[test]
fn lexer_drops_blanks_and_comments() {
    assert_eq!(preprocess("# a comment\n  1 # another\n"), Some(vec![Out::IntValue(1)]));
    assert_eq!(
        preprocess("f () _ a:Int"),
        Some(vec![
            Out::LetName("f".to_string()),
            Out::UnitValue,
            Out::DiscardValue,
            Out::LetName("a".to_string()),
            Out::Symbol(':'),
            Out::TypeName("Int".to_string()),
        ])
    );
}

#[test]
fn lexer_rejects_bad_numbers() {
    assert_eq!(preprocess("99999999999999999999"), None);
    assert_eq!(preprocess("12ab"), None);
    assert_eq!(preprocess("9223372036854775807"), Some(vec![Out::IntValue(9223372036854775807)]));
}

#[test]
fn lexer_reads_keywords() {
    assert_eq!(preprocess("let in"), Some(vec![Out::Kw(Keyword::Let), Out::Kw(Keyword::In)]));
}

#[test]
fn expressions_that_do_not_parse() {
    assert_eq!(expr("("), None);
    assert_eq!(expr("1 +"), None);
    assert_eq!(expr("if a then b"), None);
    assert_eq!(expr("a: b"), None);
    assert_eq!(expr(""), None);
}

#[test]
fn parentheses_vanish() {
    assert_eq!(expr("((x))"), expr("x"));
    assert_eq!(expr("(f) (x)"), expr("f x"));
    assert_eq!(ty("((Int))"), ty("Int"));
}

#[test]
fn closure_with_placeholder_parameter() {
    assert_eq!(expr("_ -> 1"), Some(Expr::Closure(None, None, None, Box::new(Expr::Int(None, 1)))));
    assert_eq!(first("_ -> 1"), None);
    assert_eq!(first("a: Int"), None);
    assert_eq!(
        first("a -> 1"),
        Some(catly::parser::expr::Expr::Closure(None, "a".to_string(), None, Box::new(catly::parser::expr::Expr::Int(None, 1))))
    );
}

#[test]
fn sum_patterns_are_sets() {
    let a = || Pat::TypeName("A".to_string());
    let b = || Pat::TypeName("B".to_string());
    let bar = || Pat::Mark('|');
    assert_eq!(
        reduce_stack(vec![Pat::Start, a(), bar(), a()], &None),
        vec![Pat::Start, Pat::SumType(vec![a()])]
    );
    assert_eq!(
        reduce_stack(vec![Pat::Start, b(), bar(), a()], &None),
        vec![Pat::Start, Pat::SumType(vec![a(), b()])]
    );
    assert_eq!(
        reduce_stack(vec![Pat::Start, Pat::SumType(vec![a(), b()]), bar(), Pat::SumType(vec![b()])], &None),
        vec![Pat::Start, Pat::SumType(vec![a(), b()])]
    );
    assert_eq!(
        reduce_stack(vec![Pat::Start, Pat::SumType(vec![b()]), bar(), a()], &None),
        vec![Pat::Start, Pat::SumType(vec![a(), b()])]
    );
    assert_eq!(ty("A | A"), Some(Type::sum_of(vec![namely("A")])));
    assert_eq!(ty("C | A | B | A"), ty("A | B | C"));
    assert_eq!(ty("(B | A) | A | C"), ty("B | A | A | C"));
}

#[test]
fn sum_types_are_sets() {
    let ab = Type::sum_of(vec![namely("A"), namely("B")]);
    assert_eq!(ty("A | B | A"), Some(ab));
    assert_eq!(ty("A | B"), ty("B | A"));
    assert_eq!(ty("(A | B) | C"), ty("C | (B | A)"));
    assert_eq!(Type::sum_of(vec![namely("B"), namely("A")]), Type::sum_of(vec![namely("A"), namely("B"), namely("A")]));
}

#[test]
fn types_parse() {
    assert_eq!(
        ty("Int -> Unit -> Int"),
        Some(Type::ClosureType(
            Box::new(namely("Int")),
            Box::new(Type::ClosureType(Box::new(namely("Unit")), Box::new(namely("Int")))),
        ))
    );
    assert_eq!(ty("{ x: Int }"), Some(Type::ProdType(vec![("x".to_string(), namely("Int"))])));
    assert_eq!(ty("{ x: Int, }"), Some(Type::ProdType(vec![("x".to_string(), namely("Int"))])));
    assert_eq!(ty("x"), None);
    assert_eq!(ty(""), None);
}

#[test]
fn fallback_types() {
    let int = namely("Int");
    let unit = namely("Unit");
    let e = Expr::Int(None, 1);
    let typed = e.with_fallback_type(&int);
    assert_eq!(typed, Expr::Int(Some(int.clone()), 1));
    assert_eq!(typed.with_fallback_type(&unit), typed);
    assert_eq!(e.with_opt_fallback_type(&None), e);
    assert_eq!(e.with_opt_fallback_type(&Some(unit.clone())), Expr::Int(Some(unit.clone()), 1));
    assert!(e.is_no_type_annot());
    assert!(!typed.is_no_type_annot());
    assert_eq!(e.get_type_annot(), None);
    assert_eq!(typed.get_type_annot(), Some(&int));
    assert_eq!(typed.unwrap_type_annot(), &int);
    let s = Expr::Struct(None, vec![("a".to_string(), None, Expr::Unit(None))]);
    assert_eq!(
        s.with_fallback_type(&unit),
        Expr::Struct(Some(unit.clone()), vec![("a".to_string(), None, Expr::Unit(None))])
    );
}

#[test]
fn fully_typed_expressions() {
    let int = namely("Int");
    assert!(Expr::Int(Some(int.clone()), 1).is_fully_typed());
    assert!(!Expr::Int(None, 1).is_fully_typed());
    let app = Expr::Apply(
        Some(int.clone()),
        Box::new(Expr::EnvRef(Some(int.clone()), "f".to_string())),
        Box::new(Expr::Int(None, 1)),
    );
    assert!(!app.is_fully_typed());
    let s = Expr::Struct(Some(int.clone()), vec![("a".to_string(), Some(int.clone()), Expr::Unit(Some(int.clone())))]);
    assert!(s.is_fully_typed());
    let s2 = Expr::Struct(Some(int.clone()), vec![("a".to_string(), None, Expr::Unit(Some(int.clone())))]);
    assert!(!s2.is_fully_typed());
    let c = Expr::Closure(Some(int.clone()), None, None, Box::new(Expr::Int(Some(int.clone()), 1)));
    assert!(!c.is_fully_typed());
}

#[test]
fn patterns_take_annotations() {
    let t = Pat::TypeName("Int".to_string());
    assert_eq!(
        Pat::Int(None, 1).with_type(Pat::TypeName("Int".to_string())),
        Some(Pat::Int(Some(Box::new(t)), 1))
    );
    assert_eq!(Pat::Mark('(').with_type(Pat::TypeName("Int".to_string())), None);
    assert!(Pat::Unit(None).is_expr());
    assert!(!Pat::TypeName("A".to_string()).is_expr());
    assert!(Pat::TypeName("A".to_string()).is_type());
    assert_eq!(Pat::from(Keyword::If), Pat::Kw(Keyword::If));
}

#[test]
fn definitions_that_do_not_parse() {
    assert_eq!(parse_define(tokens("def a")), None);
    assert_eq!(parse_define(tokens("type A =")), None);
    assert_eq!(parse_define(tokens("def a: = b")), None);
    assert_eq!(parse_define(tokens("def a = (")), None);
    assert_eq!(parse_define(tokens("a = 1")), None);
}

#[test]
fn definition_with_sum_annotation() {
    assert_eq!(
        parse_define(tokens("def a: B | A = 1")),
        Some(Define::ExprDef(
            "a".to_string(),
            Some(Type::sum_of(vec![namely("A"), namely("B")])),
            Expr::Int(None, 1),
        ))
    );
}

#[test]
fn split_keeps_every_token() {
    let toks = tokens("x def a = 1 type B = C");
    let groups = split_to_top_levels(toks.clone());
    assert_eq!(
        groups,
        vec![
            vec![Out::LetName("x".to_string())],
            vec![Out::Kw(Keyword::Def), Out::LetName("a".to_string()), Out::Symbol('='), Out::IntValue(1)],
            vec![Out::Kw(Keyword::Type), Out::TypeName("B".to_string()), Out::Symbol('='), Out::TypeName("C".to_string())],
        ]
    );
    let joined: Vec<Out> = groups.into_iter().flatten().collect();
    assert_eq!(joined, toks);
    assert_eq!(split_to_top_levels(vec![]), Vec::<Vec<Out>>::new());
}

#[test]
fn split_drops_blank_before_definition() {
    let blank = Out::Symbol(' ');
    let def = Out::Kw(Keyword::Def);
    let ty = Out::Kw(Keyword::Type);
    let a = Out::LetName("a".to_string());
    let toks = vec![
        def.clone(), a.clone(), blank.clone(),
        ty.clone(), blank.clone(), blank.clone(),
        def.clone(), a.clone(),
    ];
    assert_eq!(
        split_to_top_levels(toks),
        vec![
            vec![def.clone(), a.clone()],
            vec![ty.clone(), blank.clone()],
            vec![def.clone(), a.clone()],
        ]
    );
    assert_eq!(split_to_top_levels(vec![blank.clone(), def.clone()]), vec![vec![], vec![def.clone()]]);
    assert_eq!(split_to_top_levels(vec![a.clone(), blank.clone()]), vec![vec![a.clone(), blank.clone()]]);
}

#[test]
fn programs_parse_all_or_nothing() {
    assert_eq!(parse_ast(tokens("def a = 1 def b = (")), None);
    assert_eq!(parse_ast(tokens("")), Some(vec![]));
    assert_eq!(parse_to_defines(vec![tokens("def a = 1"), tokens("x")]), None);
    assert_eq!(
        parse_to_defines(vec![tokens("type A = B")]),
        Some(vec![Define::TypeDef("A".to_string(), namely("B"))])
    );
}

#[test]
fn follow_patterns() {
    assert_eq!(parse_follow_pat(None), FollowPat::End);
    assert_eq!(parse_follow_pat(Some(Either::L(' '))), FollowPat::Blank);
    assert_eq!(parse_follow_pat(Some(Either::L('7'))), FollowPat::Digit('7'));
    assert_eq!(parse_follow_pat(Some(Either::L('q'))), FollowPat::Letter('q'));
    assert_eq!(parse_follow_pat(Some(Either::L('Q'))), FollowPat::Letter('Q'));
    assert_eq!(parse_follow_pat(Some(Either::L('('))), FollowPat::Mark('('));
    assert_eq!(parse_follow_pat(Some(Either::R(Keyword::Let))), FollowPat::Keyword(Keyword::Let));
    assert!(!FollowPat::Blank.not_blank());
    assert!(FollowPat::End.not_blank());
}

#[test]
fn end_patterns() {
    assert!(None::<Out>.is_end_pat());
    assert!(Some(Out::Symbol(')')).is_end_pat());
    assert!(Some(Out::Kw(Keyword::In)).is_end_pat());
    assert!(!Some(Out::Symbol('=')).is_end_pat());
    assert!(!Some(Out::IntValue(1)).is_end_pat());
}

#[test]
fn top_level_keywords() {
    assert!(Keyword::Type.is_top_level());
    assert!(Keyword::Def.is_top_level());
    assert!(!Keyword::Let.is_top_level());
}

#[test]
fn heads_and_tails() {
    assert_eq!(vec_get_head_tail(vec![1, 2, 3]), (Some(1), vec![2, 3]));
    assert_eq!(vec_get_head_tail(Vec::<i32>::new()), (None, vec![]));
    assert_eq!(vec_get_head_tail_follow(vec![1, 2, 3]), (Some(1), vec![2, 3], Some(2)));
    assert_eq!(vec_get_head_tail_follow(vec![1]), (Some(1), vec![], None));
    assert_eq!(str_get_head_tail("ab"), (Some('a'), "b"));
    assert_eq!(str_get_head_tail(""), (None, ""));
    assert_eq!(str_get_head_tail_follow("abc"), (Some('a'), "bc", Some('b')));
    assert_eq!(str_get_head_tail_follow("a"), (Some('a'), "", None));
    let xs = [5, 6];
    assert_eq!(slice_get_head_tail(&xs), (Some(&5), &xs[1..]));
}

#[test]
fn vector_helpers() {
    let v = vec![1, 2, 3];
    assert_eq!(v.reduce_to_new(2, 9), vec![1, 9]);
    assert_eq!(VecExt::push_to_new(&v, 4), vec![1, 2, 3, 4]);
    let mut w = vec![1, 2, 3];
    w.reduce(3, 7);
    assert_eq!(w, vec![7]);
    assert_eq!(*5.boxed(), 5);
}

#[test]
fn expression_text() {
    let int = namely("Int");
    let f = || Box::new(Expr::EnvRef(None, "f".to_string()));
    let one = || Box::new(Expr::Int(None, 1));
    assert_eq!(Expr::Int(None, 123).to_text(), "123");
    assert_eq!(Expr::Int(Some(int.clone()), -5).to_text(), "-5:NamelyType(\"Int\")");
    assert_eq!(Expr::Int(None, i64::MIN).to_text(), "-9223372036854775808");
    assert_eq!(Expr::Apply(None, f(), one()).to_text(), "(f 1)");
    assert_eq!(Expr::Apply(Some(int.clone()), f(), one()).to_text(), "((f 1):NamelyType(\"Int\"))");
    assert_eq!(
        Expr::Closure(None, Some("a".to_string()), Some(int.clone()), one()).to_text(),
        "(a:NamelyType(\"Int\") -> 1)"
    );
    assert_eq!(Expr::Closure(None, None, None, Box::new(Expr::Unit(None))).to_text(), "(_ -> ())");
    assert_eq!(
        Expr::Struct(None, vec![("a".to_string(), None, Expr::Int(None, 1)), ("b".to_string(), Some(int.clone()), Expr::Discard(None))]).to_text(),
        "{ [(\"a\", None, 1), (\"b\", Some(NamelyType(\"Int\")), _)] }"
    );
    assert_eq!(
        Expr::Match(None, f(), vec![(Expr::Int(None, 1), Expr::Int(None, 2)), (Expr::Discard(None), Expr::Unit(None))]).to_text(),
        "(match f with [(1, 2), (_, ())])"
    );
    assert_eq!(
        Expr::Let(None, false, "a".to_string(), None, one(), Box::new(Expr::EnvRef(None, "a".to_string()))).to_text(),
        "(let a = 1 in a)"
    );
    assert_eq!(Expr::Cond(None, f(), one(), one()).to_text(), "(if f then 1 else 1)");
    assert_eq!(expr("f (g 2)").unwrap().to_text(), "(f (g 2))");
}

#[test]
fn type_text() {
    assert_eq!(
        Type::sum_of(vec![namely("B"), namely("A")]).to_text(),
        "SumType([NamelyType(\"A\"), NamelyType(\"B\")])"
    );
    assert_eq!(
        Type::ProdType(vec![("x".to_string(), namely("Int"))]).to_text(),
        "ProdType([(\"x\", NamelyType(\"Int\"))])"
    );
    assert_eq!(
        Type::ClosureType(Box::new(namely("A")), Box::new(namely("B"))).to_text(),
        "ClosureType(NamelyType(\"A\"), NamelyType(\"B\"))"
    );
}

#[test]
fn nested_let_sugar() {
    assert_eq!(expr("let a = 1, b = 2 in ()"), expr("let a = 1 in let b = 2 in ()"));
    assert_eq!(expr("let a = 1, b = 2,in ()"), expr("let a = 1 in let b = 2 in ()"));
    assert!(expr("let a = 1 in a").is_some());
    for body in ["f a (if b then 1 else 2)", "match a with | 1 -> b | _ -> ()", "", "x ) y"] {
        assert_eq!(
            expr(&format!("let a = x, b = () in {}", body)),
            expr(&format!("let a = x in let b = () in {}", body))
        );
    }
}

#[test]
fn let_sugar_with_many_bindings() {
    assert_eq!(
        expr("let a = 1, b = (f x), c = (let d = 2 in d) in add a b"),
        expr("let a = 1 in let b = (f x) in let c = (let d = 2 in d) in add a b")
    );
    assert_eq!(
        expr("let a = (x: Int), b = _, c = () in c"),
        expr("let a = (x: Int) in let b = _ in let c = () in c")
    );
    assert!(expr("let a = 1, b = (f x), c = (let d = 2 in d) in add a b").is_some());
}

#[test]
fn curried_closures_with_grouped_values() {
    assert_eq!(expr("a -> b -> f (g a) (h b) 1"), expr("a -> (b -> f (g a) (h b) 1)"));
    assert_eq!(expr("a -> b -> (a -> a) b"), expr("a -> (b -> (a -> a) b)"));
    assert!(expr("a -> b -> f (g a) (h b) 1").is_some());
    // a body that ends in a conditional closes the closures early
    assert_ne!(expr("a -> b -> x if c then d else e"), expr("a -> (b -> x if c then d else e)"));
}

#[test]
fn application_groups_left() {
    let r = Expr::Apply(
        None,
        Box::new(Expr::Apply(
            None,
            Box::new(Expr::Apply(
                None,
                Box::new(Expr::EnvRef(None, "f".to_string())),
                Box::new(Expr::EnvRef(None, "x".to_string())),
            )),
            Box::new(Expr::Int(None, 1)),
        )),
        Box::new(Expr::Unit(None)),
    );
    assert_eq!(expr("f x 1 ()"), Some(r));
    assert_eq!(expr("(f x) 1 ()"), expr("f x 1 ()"));
    assert_eq!(expr("(f x 1) ()"), expr("f x 1 ()"));
    assert_eq!(expr("a -> b -> f x 1"), expr("a -> (b -> (f x 1))"));
}

#[test]
fn curried_closures() {
    assert_eq!(expr("a -> b -> add a b"), expr("a -> (b -> (add a) b)"));
    assert_eq!(
        expr("(_ -> 1) 0"),
        Some(Expr::Apply(
            None,
            Box::new(Expr::Closure(None, None, None, Box::new(Expr::Int(None, 1)))),
            Box::new(Expr::Int(None, 0)),
        ))
    );
    assert_eq!(
        expr("(x: Int) -> ()"),
        Some(Expr::Closure(None, Some("x".to_string()), Some(namely("Int")), Box::new(Expr::Unit(None))))
    );
}

#[test]
fn structure_trailing_comma() {
    assert_eq!(expr("{ a = 1, b = 2, c = 3,}"), expr("{ a = 1, b = 2, c = 3 }"));
    assert!(expr("{ a = 1 }").is_some());
}

#[test]
fn pattern_matching_examples() {
    assert!(expr("match x with | 1 -> add x 1 | 2 -> 1 | _ -> 0").is_some());
    assert!(expr("match x with | { a = 1, b = 1 } -> a | { a = 2, b = 2 } -> b | { a = _, b = 3 } -> 0 | y -> add y 1").is_some());
    assert!(expr("match b with | (_: True) -> 123 | (_: False) -> 456").is_some());
    assert!(expr("if eq 1 2 then 3 else 4").is_some());
}

#[test]
fn standard_library_parses() {
    let lib = "
def neg: Int -> Int = _ # compiler built-in
def add: Int -> Int -> Int = _
def sub: Int -> Int -> Int = _
def mul: Int -> Int -> Int = _
def div: Int -> Int -> Int = _
def mod: Int -> Int -> Int = _
def rem: Int -> Int -> Int = _

def gt: Int -> Int -> Bool = _
def eq: Int -> Int -> Bool = _
def lt: Int -> Int -> Bool = _

def not: Bool -> Bool = _
def and: Bool -> Bool -> Bool = _
def or: Bool -> Bool -> Bool = _

type True = Int
type False = Int
type Bool = True | False

def true = 1: True
def false = 0: False

type EmptyList = Unit
type IntCons = { head: Int, tail: IntList }
type IntList = IntCons | EmptyList

def emptyList = (): EmptyList
def intCons = h -> t -> { head = h, tail = t } : IntCons

type Fraction = { n: Int, d: Int }

def gcd = a -> b ->
    if eq b 0 then
        a
    else
        gcd b (rem a b)

def fraction = n -> d ->
    if gt n 1000 then
        let
            g = gcd n d
        in
            { n = div n g, d = div d g }: Fraction
    else
        { n = n, d = d }: Fraction

def int2F = i ->
    fraction i 1
";
    let defs = parse_ast(tokens(lib)).unwrap();
    assert_eq!(defs.len(), 27);
    assert_eq!(defs[15], Define::TypeDef("Bool".to_string(), Type::sum_of(vec![namely("True"), namely("False")])));
}

#[test]
fn names_by_first_letter() {
    assert_eq!(preprocess("helloWorld"), Some(vec![Out::LetName("helloWorld".to_string())]));
    assert_eq!(preprocess("HelloWorld"), Some(vec![Out::TypeName("HelloWorld".to_string())]));
    assert_eq!(preprocess("a1b2c3"), Some(vec![Out::LetName("a1b2c3".to_string())]));
    assert_eq!(preprocess("match"), Some(vec![Out::Kw(Keyword::Match)]));
}

#[test]
fn comment_runs_to_end_of_text() {
    assert_eq!(preprocess("# no line break after this"), Some(vec![]));
    assert_eq!(preprocess("1 # tail"), Some(vec![Out::IntValue(1)]));
}

#[test]
fn hash_without_space_is_no_comment() {
    assert_eq!(
        preprocess("#abc"),
        Some(vec![Out::Symbol('#'), Out::LetName("abc".to_string())])
    );
    assert_eq!(preprocess("1 #"), Some(vec![Out::IntValue(1), Out::Symbol('#')]));
    assert_eq!(preprocess("#\n2"), Some(vec![Out::Symbol('#'), Out::IntValue(2)]));
    assert_eq!(expr("1 #x"), None);
}

#[test]
fn parenthesised_tokens_parse_alike() {
    for s in ["a -> add a 1", "let a = 1 in a", "match x with | 1 -> 2 | _ -> 3", "{ a = 1 }: A", "f x y"] {
        let inner = tokens(s);
        let mut wrapped = vec![Out::Symbol('(')];
        wrapped.extend(inner.clone());
        wrapped.push(Out::Symbol(')'));
        assert!(parse_expr(inner.clone()).is_some());
        assert_eq!(parse_expr(wrapped), parse_expr(inner));
    }
    for s in ["Int -> Int", "A | B", "{ x: Int, y: Unit }"] {
        let inner = tokens(s);
        let mut wrapped = vec![Out::Symbol('(')];
        wrapped.extend(inner.clone());
        wrapped.push(Out::Symbol(')'));
        assert!(parse_type(inner.clone()).is_some());
        assert_eq!(parse_type(wrapped), parse_type(inner));
    }
}

#[test]
fn definitions_do_not_nest() {
    assert_eq!(parse_ast(tokens("def i =\n  def j = 1\n  j")), None);
    assert_eq!(
        parse_ast(tokens("def j = 1 def i = j")),
        Some(vec![
            Define::ExprDef("j".to_string(), None, Expr::Int(None, 1)),
            Define::ExprDef("i".to_string(), None, Expr::EnvRef(None, "j".to_string())),
        ])
    );
}
