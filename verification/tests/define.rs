use catly::parser::define::{parse_define, Define};
use catly::parser::expr::typed::Expr;
use catly::parser::preprocess::preprocess;
use catly::parser::types::Type;

fn f(seq: &str) -> Option<Define> {
    let tokens = preprocess(seq)?;
    parse_define(tokens)
}

fn namely_type(n: &str) -> Type {
    Type::NamelyType(n.to_string())
}

fn int_type() -> Type {
    namely_type("Int")
}

fn unit_type() -> Type {
    namely_type("Unit")
}

#[allow(dead_code)]
fn closure_type(i: Type, o: Type) -> Type {
    Type::ClosureType(Box::new(i), Box::new(o))
}

#[allow(dead_code)]
fn sum_type(members: Vec<Type>) -> Type {
    Type::sum_of(members)
}

#[allow(dead_code)]
fn prod_type(fields: Vec<(String, Type)>) -> Type {
    Type::ProdType(fields)
}

#[allow(dead_code)]
trait Wrap: Sized {
    fn rc(self) -> Box<Self> {
        Box::new(self)
    }

    fn wrap_rc(self) -> Box<Self> {
        Box::new(self)
    }

    fn boxed(self) -> Box<Self> {
        Box::new(self)
    }

    fn wrap_some(self) -> Option<Self> {
        Some(self)
    }

    fn some(self) -> Option<Self> {
        Some(self)
    }
}

impl<T> Wrap for T {}


#[test]
fn expr_def_test_part1() {
    let r = Define::ExprDef(
        "a".to_string(),
        None,
        Expr::EnvRef(None, "b".to_string())
    );
    let r = Some(r);

    let seq = "def a = b";
    assert_eq!(f(seq), r)
}

#[test]
fn expr_def_test_part2() {
    let r = Define::ExprDef(
        "a".to_string(),
        int_type().wrap_some(),
        Expr::EnvRef(None, "b".to_string())
    );
    let r = Some(r);

    let seq = "def a: Int = b";
    assert_eq!(f(seq), r)
}

#[test]
fn expr_def_test_part3() {
    let r = Define::ExprDef(
        "a".to_string(),
        closure_type(int_type(), int_type()).wrap_some(),
        Expr::EnvRef(None, "b".to_string())
    );
    let r = Some(r);

    let seq = "def a: Int -> Int = b";
    assert_eq!(f(seq), r)
}

#[test]
fn expr_def_test_part4() {
    let e = Expr::Let(
        None,
        false,
        "a".to_string(),
        None,
        Expr::Int(None, 123).rc(),
        Expr::Let(
            None,
            false,
            "b".to_string(),
            None,
            Expr::Let(
                None,
                false,
                "x".to_string(),
                None,
                Expr::Closure(
                    None,
                    "i".to_string().wrap_some(),
                    None,
                    Expr::Closure(
                        None,
                        "j".to_string().wrap_some(),
                        None,
                        Expr::EnvRef(None, "k".to_string()).rc()
                    )
                    .rc()
                )
                .rc(),
                Expr::Let(
                    None,
                    false,
                    "y".to_string(),
                    None,
                    Expr::EnvRef(None, "a".to_string()).rc(),
                    Expr::Let(
                        None,
                        false,
                        "z".to_string(),
                        None,
                        Expr::Unit(None).rc(),
                        Expr::EnvRef(None, "a".to_string()).rc()
                    )
                    .rc()
                )
                .rc()
            )
            .rc(),
            Expr::Let(
                None,
                false,
                "d".to_string(),
                None,
                Expr::Apply(
                    None,
                    Expr::EnvRef(None, "neg".to_string()).rc(),
                    Expr::Int(None, 1).rc()
                )
                .rc(),
                Expr::Let(
                    None,
                    false,
                    "e".to_string(),
                    None,
                    Expr::Int(None, 6).rc(),
                    Expr::Let(
                        None,
                        false,
                        "k".to_string(),
                        None,
                        Expr::Unit(None).rc(),
                        Expr::Let(
                            None,
                            false,
                            "m".to_string(),
                            None,
                            Expr::Unit(None).rc(),
                            Expr::Let(
                                None,
                                false,
                                "n".to_string(),
                                None,
                                Expr::Int(None, 4).rc(),
                                Expr::Apply(
                                    None,
                                    Expr::Apply(
                                        None,
                                        Expr::EnvRef(
                                            None,
                                            "add".to_string()
                                        )
                                        .rc(),
                                        Expr::Unit(None).rc()
                                    )
                                    .rc(),
                                    Expr::Int(None, 456).rc()
                                )
                                .rc()
                            )
                            .rc()
                        )
                        .rc()
                    )
                    .rc()
                )
                .rc()
            )
            .rc()
        )
        .rc()
    );

    let r = Define::ExprDef("a".to_string(), None, e);
    let r = Some(r);

    let seq = "def a = \
            let a = 123, \
                b = \
                let x = i -> j -> k, \
                    y = a \
                in let z = () in a, \
                d = neg 1 \
            in \
            let e = 6, k = () in \
            let m = (), n = 4 in \
            add () 456";

    assert_eq!(f(seq), r)
}


#[test]
fn type_def_test_part1() {
    let r = Define::TypeDef("A".to_string(), namely_type("B"));
    let r = Some(r);

    let seq = "type A = B";
    assert_eq!(f(seq), r)
}

#[test]
fn type_def_test_part2() {
    let t = prod_type(vec![
        ("abc".to_string(), namely_type("A")),
        ("uuu".to_string(), unit_type()),
        ("intList".to_string(), namely_type("IntList")),
    ]);

    let r = Define::TypeDef("A".to_string(), t);
    let r = Some(r);

    let seq = "type A = { abc: A, uuu: Unit, intList: IntList }";
    assert_eq!(f(seq), r)
}
