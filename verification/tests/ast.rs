use catly::parser::ast::parse_ast;
use catly::parser::define::Define;
#[allow(unused_imports)]
use catly::parser::expr::typed::Expr;
use catly::parser::preprocess::preprocess;
#[allow(unused_imports)]
use catly::parser::types::Type;

fn f(seq: &str) -> Option<Vec<Define>> {
    let tokens = preprocess(seq)?;
    parse_ast(tokens)
}

fn namely_type(n: &str) -> Type {
    Type::NamelyType(n.to_string())
}

fn int_type() -> Type {
    namely_type("Int")
}

fn unit_type() -> Type {
    namely_type("Unit")
}

#[allow(dead_code)]
fn closure_type(i: Type, o: Type) -> Type {
    Type::ClosureType(Box::new(i), Box::new(o))
}

#[allow(dead_code)]
fn sum_type(members: Vec<Type>) -> Type {
    Type::sum_of(members)
}

#[allow(dead_code)]
fn prod_type(fields: Vec<(String, Type)>) -> Type {
    Type::ProdType(fields)
}

#[allow(dead_code)]
trait Wrap: Sized {
    fn rc(self) -> Box<Self> {
        Box::new(self)
    }

    fn wrap_rc(self) -> Box<Self> {
        Box::new(self)
    }

    fn boxed(self) -> Box<Self> {
        Box::new(self)
    }

    fn wrap_some(self) -> Option<Self> {
        Some(self)
    }

    fn some(self) -> Option<Self> {
        Some(self)
    }
}

impl<T> Wrap for T {}


#[test]
fn part1_test_part1() {
    let t1 = Define::TypeDef("A".to_string(), namely_type("B"));
    let d1 =
        Define::ExprDef("a".to_string(), None, Expr::Int(None, 1));
    let d11 = Define::ExprDef(
        "a1".to_string(),
        sum_type(vec![
            namely_type("A"),
            namely_type("B"),
            namely_type("C"),
        ])
        .wrap_some(),
        Expr::Int(None, 1)
    );
    let t2 = Define::TypeDef("C".to_string(), namely_type("D"));
    let d2 = Define::ExprDef("b".to_string(), None, Expr::Unit(None));
    let d22 = Define::ExprDef(
        "b1".to_string(),
        prod_type(vec![
            ("x".to_string(), int_type()),
            ("y".to_string(), unit_type()),
        ])
        .wrap_some(),
        Expr::Unit(None)
    );
    let r = vec![t1, d1, d11, t2, d2, d22];
    let r = Some(r);

    let seq = "type A = B
         def a = 1
         def a1: A | B | C = 1
         type C = D
         def b = ()
         def b1: { x: Int, y: Unit } = ()";
    assert_eq!(f(seq), r);
}


#[test]
fn part2_test_part2() {
    let t1 = Define::TypeDef("Foo".to_string(), prod_type(vec![
        ("abc".to_string(), namely_type("A")),
        ("uuu".to_string(), namely_type("IntList")),
        ("intList".to_string(), prod_type(vec![
            ("x".to_string(), namely_type("X")),
            ("y".to_string(), namely_type("Y")),
        ])),
    ]));
    let d1 = Define::ExprDef(
        "bar".to_string(),
        None,
        Expr::Match(
            None,
            Expr::EnvRef(None, "x".to_string()).rc(),
            vec![
                (Expr::Int(None, 1), Expr::Cond(None, Expr::EnvRef(None, "a".to_string()).rc(), Expr::EnvRef(None, "b".to_string()).rc(), Expr::EnvRef(None, "c".to_string()).rc())),
                (Expr::EnvRef(None, "v".to_string()), Expr::Closure(None, "a".to_string().some(), None, Expr::Closure(None, "b".to_string().some(), None, Expr::Apply(None, Expr::Apply(None, Expr::EnvRef(None, "add".to_string()).rc(), Expr::EnvRef(None, "a".to_string()).rc()).rc(), Expr::EnvRef(None, "b".to_string()).rc()).rc()).rc())),
                (Expr::Struct(None, vec![("a".to_string(), None, Expr::Discard(None)), ("b".to_string(), None, Expr::Struct(None, vec![("foo".to_string(), None, Expr::Discard(None)), ("bar".to_string(), None, Expr::Discard(None))])), ("c".to_string(), None, Expr::Int(None, 3))]), Expr::Struct(None, vec![("x".to_string(), None, Expr::Int(None, 123)), ("y".to_string(), None, Expr::EnvRef(None, "c".to_string()))])),
                (
                    Expr::Discard(None),
                    Expr::Match(
                        None,
                        Expr::EnvRef(None, "y".to_string()).rc(),
                        vec![
                            (Expr::Int(None, 1), Expr::Unit(None)),
                            (
                                Expr::Unit(None),
                                Expr::Closure(
                                    None,
                                    "a".to_string().some(),
                                    None,
                                    Expr::Closure(
                                        None,
                                        "b".to_string().some(),
                                        None,
                                        Expr::Match(
                                            None,
                                            Expr::EnvRef(None, "z".to_string()).rc(),
                                            vec![(Expr::Discard(None), Expr::Int(None, 114514)), (Expr::EnvRef(None, "a".to_string()), Expr::Closure(None, "x".to_string().some(), None, Expr::Closure(None, "y".to_string().some(), None, Expr::Apply(None, Expr::Apply(None, Expr::EnvRef(None, "add".to_string()).rc(), Expr::Unit(None).rc()).rc(), Expr::EnvRef(None, "y".to_string()).rc()).rc()).rc()))],
                                        )
                                        .rc(),
                                    )
                                    .rc(),
                                ),
                            ),
                            (Expr::Discard(None), Expr::EnvRef(None, "baz".to_string())),
                        ],
                    ),
                ),
            ],
        ),
    );
    let t2 = Define::TypeDef("Love".to_string(), sum_type(vec![
        namely_type("A"),
        unit_type(),
        namely_type("C"),
        int_type(),
    ]));
    let i1 = Define::ExprDef(
        "i".to_string(),
        int_type().some(),
        Expr::Int(int_type().some(), 0)
    );
    let d2 = Define::ExprDef(
        "main".to_string(),
        closure_type(unit_type(), unit_type()).some(),
        Expr::Let(
            None,
            false,
            "a".to_string(),
            None,
            Expr::Int(None, 123).rc(),
            Expr::Let(
                None,
                false,
                "b".to_string(),
                None,
                Expr::Let(
                    None,
                    false,
                    "x".to_string(),
                    None,
                    Expr::Closure(
                        None,
                        "i".to_string().some(),
                        None,
                        Expr::Closure(
                            None,
                            "j".to_string().some(),
                            None,
                            Expr::EnvRef(None, "k".to_string()).rc()
                        )
                        .rc()
                    )
                    .rc(),
                    Expr::Let(
                        None,
                        false,
                        "y".to_string(),
                        None,
                        Expr::EnvRef(None, "a".to_string()).rc(),
                        Expr::Let(
                            None,
                            false,
                            "z".to_string(),
                            None,
                            Expr::Unit(None).rc(),
                            Expr::EnvRef(None, "a".to_string()).rc()
                        )
                        .rc()
                    )
                    .rc()
                )
                .rc(),
                Expr::Let(
                    None,
                    false,
                    "d".to_string(),
                    None,
                    Expr::Apply(
                        None,
                        Expr::EnvRef(None, "neg".to_string()).rc(),
                        Expr::Int(None, 1).rc()
                    )
                    .rc(),
                    Expr::Let(
                        None,
                        false,
                        "e".to_string(),
                        None,
                        Expr::Int(None, 6).rc(),
                        Expr::Let(
                            None,
                            false,
                            "k".to_string(),
                            None,
                            Expr::Unit(None).rc(),
                            Expr::Let(
                                None,
                                false,
                                "m".to_string(),
                                None,
                                Expr::Unit(None).rc(),
                                Expr::Let(
                                    None,
                                    false,
                                    "n".to_string(),
                                    None,
                                    Expr::Int(None, 4).rc(),
                                    Expr::Apply(
                                        None,
                                        Expr::Apply(
                                            None,
                                            Expr::EnvRef(
                                                None,
                                                "add".to_string()
                                            )
                                            .rc(),
                                            Expr::Unit(None).rc()
                                        )
                                        .rc(),
                                        Expr::Int(None, 456).rc()
                                    )
                                    .rc()
                                )
                                .rc()
                            )
                            .rc()
                        )
                        .rc()
                    )
                    .rc()
                )
                .rc()
            )
            .rc()
        )
    );
    let r = vec![t1, d1, t2, i1, d2];
    let r = Some(r);

    let seq =
        "type Foo = { abc: A, uuu: IntList, intList: { x: X, y: Y } }
         def bar =
             match x with
             | 1 -> if a then b else c
             | v -> (a -> b -> add a b)
             | { a = _, b = { foo = _, bar = _ }, c = 3 } ->
                 { x = 123, y = c }
             | _ ->
                 match y with
                 | 1 -> ()
                 | () ->
                     (a -> b ->
                         match z with
                         | _ -> 114514
                         | a -> (x -> y -> add () y))
                 | _ -> baz
         type Love = A | Unit | C | Int
         def i: Int = 0: Int
         def main: Unit -> Unit =
             let a = 123,
                 b =
                     let x = i -> j -> k,
                         y = a
                     in
                     let z = ()
                     in a,
                 d = neg 1
             in
                 let e = 6,
                     k = ()
                 in
                 let m = (),
                     n = 4
                 in
                 add () 456";
    assert_eq!(f(seq), r);
}


#[test]
fn test_parse_ast_part3() {
    let seq = "\
def fib: Int -> Int =
n ->
  match n with
  | 0 -> 0
  | 1 -> 1
  | _ -> add (fib (sub n 1)) (fib (sub n 2))

type True = Unit
def true = 1: True
type False = Unit
def false = 0: False
type Bool = True | False

type EmptyList = Unit
def emptyList = (): EmptyList
type IntCons = { head: Int, tail: IntCons }
def intCons = h -> t -> { head = h, tail = t }
type IntList = IntCons | EmptyList

def map: (Int -> Int) -> IntList -> IntList =
f -> list ->
  match list with
  | ({ head = _, tail = _ }: IntCons) ->
      ({ head = f head, tail = map f tail }: IntCons)
  | (emptyList: EmptyList) -> emptyList

def find: Int -> IntList -> Bool =
n -> list ->
  match list with
  | ({ head = _, tail = _ }: IntCons) ->
      if eq head n then
        true
      else
        find n tail
  | (emptyList: EmptyList) -> false

def filter: (Int -> Bool) -> IntList -> IntList =
p -> list ->
  match list with
  | ({ head = _, tail = _ }: IntCons) ->
      if p head then
        { head = head, tail = filter p tail }
      else
        filter p tail
  | (emptyList: EmptyList) -> emptyList\
";

    assert!(f(seq).is_some());
}
