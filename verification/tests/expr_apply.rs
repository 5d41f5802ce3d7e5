use catly::parser::expr::typed::{parse_expr, Expr, OptExpr};
use catly::parser::preprocess::preprocess;
use catly::parser::types::Type;

fn f(seq: &str) -> OptExpr {
    let tokens = preprocess(seq)?;
    parse_expr(tokens)
}

fn namely_type(n: &str) -> Type {
    Type::NamelyType(n.to_string())
}

fn int_type() -> Type {
    namely_type("Int")
}

fn unit_type() -> Type {
    namely_type("Unit")
}

#[allow(dead_code)]
fn closure_type(i: Type, o: Type) -> Type {
    Type::ClosureType(Box::new(i), Box::new(o))
}

#[allow(dead_code)]
fn sum_type(members: Vec<Type>) -> Type {
    Type::sum_of(members)
}

#[allow(dead_code)]
fn prod_type(fields: Vec<(String, Type)>) -> Type {
    Type::ProdType(fields)
}

#[allow(dead_code)]
trait Wrap: Sized {
    fn rc(self) -> Box<Self> {
        Box::new(self)
    }

    fn wrap_rc(self) -> Box<Self> {
        Box::new(self)
    }

    fn boxed(self) -> Box<Self> {
        Box::new(self)
    }

    fn wrap_some(self) -> Option<Self> {
        Some(self)
    }

    fn some(self) -> Option<Self> {
        Some(self)
    }
}

impl<T> Wrap for T {}


#[test]
fn apply_test_part1() {
    // Apply(Unit, Int)
    let r = Expr::Apply(
        None,
        Expr::Unit(None).wrap_rc(),
        Expr::Int(None, 123).wrap_rc()
    );
    let r = Some(r);

    assert_eq!(f("() 123"), r);
    assert_eq!(f("(()) (123)"), r);
    assert_eq!(f("((())) ((123))"), r);
    assert_eq!(f("(((())) ((123)))"), r);
    assert_eq!(f("((((())) ((123))))"), r);
}

#[test]
fn apply_test_part2() {
    // Apply(EnvRef, Int)
    let r = Expr::Apply(
        None,
        Expr::EnvRef(None, "abc".to_string()).wrap_rc(),
        Expr::Int(None, 123).wrap_rc()
    );
    let r = Some(r);

    assert_eq!(f("abc 123"), r);
    assert_eq!(f("(abc) (123)"), r);
    assert_eq!(f("((abc)) ((123))"), r);
    assert_eq!(f("(((abc)) ((123)))"), r);
    assert_eq!(f("((((abc)) ((123))))"), r);
}

#[test]
fn apply_test_part3() {
    // Apply(EnvRef, Unit)
    let r = Expr::Apply(
        None,
        Expr::EnvRef(None, "abc".to_string()).wrap_rc(),
        Expr::Unit(None).wrap_rc()
    );
    let r = Some(r);

    assert_eq!(f("abc ()"), r);
    assert_eq!(f("(abc) (())"), r);
    assert_eq!(f("((abc)) ((()))"), r);
    assert_eq!(f("(((abc)) ((())))"), r);
    assert_eq!(f("((((abc)) ((()))))"), r);
}

#[test]
fn apply_test_part4() {
    // Apply(EnvRef, Apply(EnvRef, Unit))
    let r = Expr::Apply(
        None,
        Expr::EnvRef(None, "abc".to_string()).wrap_rc(),
        Expr::Apply(
            None,
            Expr::EnvRef(None, "abc".to_string()).wrap_rc(),
            Expr::Unit(None).wrap_rc()
        )
        .wrap_rc()
    );
    let r = Some(r);

    assert_eq!(f("abc (abc ())"), r);
    assert_eq!(f("(abc) ((abc ()))"), r);
    assert_eq!(f("((abc)) (((abc ())))"), r);
    assert_eq!(f("(((abc)) (((abc ()))))"), r);
    assert_eq!(f("((((abc)) (((abc ())))))"), r);
}

#[test]
fn apply_test_part5() {
    // Apply(EnvRef, Apply(EnvRef, Apply(EnvRef, Unit)))
    let r = Expr::Apply(
        None,
        Expr::EnvRef(None, "abc".to_string()).wrap_rc(),
        Expr::Apply(
            None,
            Expr::EnvRef(None, "abc".to_string()).wrap_rc(),
            Expr::Apply(
                None,
                Expr::EnvRef(None, "abc".to_string()).wrap_rc(),
                Expr::Unit(None).wrap_rc()
            )
            .wrap_rc()
        )
        .wrap_rc()
    );
    let r = Some(r);

    assert_eq!(f("abc (abc (abc ()))"), r);
    assert_eq!(f("(abc) ((abc (abc ())))"), r);
    assert_eq!(f("((abc)) (((abc (abc ()))))"), r);
    assert_eq!(f("(((abc)) (((abc (abc ())))))"), r);
    assert_eq!(f("((((abc)) (((abc (abc ()))))))"), r);
}

#[test]
fn test_part6() {
    // Apply(EnvRef, Apply(EnvRef, Unit))
    let r = Expr::Apply(
        None,
        Expr::Apply(
            None,
            Expr::EnvRef(None, "abc".to_string()).wrap_rc(),
            Expr::Int(None, 123).wrap_rc()
        )
        .wrap_rc(),
        Expr::Apply(
            None,
            Expr::Apply(
                None,
                Expr::EnvRef(None, "add".to_string()).wrap_rc(),
                Expr::Int(None, 123).wrap_rc()
            )
            .wrap_rc(),
            Expr::Int(None, 456).wrap_rc()
        )
        .wrap_rc()
    );
    let r = Some(r);

    assert_eq!(f("abc 123 (add 123 456)"), r);
    assert_eq!(f("abc ((123)) (((add 123 456)))"), r);
    assert_eq!(
        f("(((abc (((123))) (((add (((123))) (((456)))))))))"),
        r
    );
}

#[test]
fn test_part7() {
    // Apply(EnvRef, Apply(EnvRef, Unit))
    let r = Expr::Apply(
        None,
        Expr::Apply(
            None,
            Expr::EnvRef(None, "abc".to_string()).wrap_rc(),
            Expr::Apply(
                None,
                Expr::Apply(
                    None,
                    Expr::EnvRef(None, "add".to_string()).wrap_rc(),
                    Expr::Int(None, 123).wrap_rc()
                )
                .wrap_rc(),
                Expr::Int(None, 456).wrap_rc()
            )
            .wrap_rc()
        )
        .wrap_rc(),
        Expr::Int(None, 123).wrap_rc()
    );
    let r = Some(r);

    assert_eq!(f("abc (add 123 456) 123"), r);
    assert_eq!(f("abc (((add 123 456))) ((123))"), r);
    assert_eq!(
        f("(((abc (((add (((123))) (((456)))))) (((123))))))"),
        r
    );
}

#[test]
fn test_part8() {
    let r = Expr::Apply(
        int_type().wrap_some(),
        Expr::Apply(
            int_type().wrap_some(),
            Expr::EnvRef(None, "abc".to_string()).wrap_rc(),
            Expr::Apply(
                int_type().wrap_some(),
                Expr::Apply(
                    int_type().wrap_some(),
                    Expr::EnvRef(None, "add".to_string()).wrap_rc(),
                    Expr::Int(int_type().wrap_some(), 123).wrap_rc()
                )
                .wrap_rc(),
                Expr::Int(int_type().wrap_some(), 456).wrap_rc()
            )
            .wrap_rc()
        )
        .wrap_rc(),
        Expr::Int(int_type().wrap_some(), 123).wrap_rc()
    );
    let r = Some(r);

    let seq = "(\
    (\
    (abc ((((add (123: Int)): Int) (456: Int)): Int)): Int\
    ) \
    (123: Int)\
    ): Int";
    assert_eq!(f(seq), r);
}

#[test]
fn test_part9() {
    let r = Expr::Apply(
        int_type().wrap_some(),
        Expr::Apply(
            None,
            Expr::EnvRef(None, "abc".to_string()).wrap_rc(),
            Expr::Apply(
                None,
                Expr::Apply(
                    None,
                    Expr::EnvRef(None, "add".to_string()).wrap_rc(),
                    Expr::Int(int_type().wrap_some(), 123).wrap_rc()
                )
                .wrap_rc(),
                Expr::Int(int_type().wrap_some(), 456).wrap_rc()
            )
            .wrap_rc()
        )
        .wrap_rc(),
        Expr::Int(int_type().wrap_some(), 123).wrap_rc()
    );
    let r = Some(r);

    let seq = "(abc (add (123: Int) (456: Int)) (123: Int)): Int";
    assert_eq!(f(seq), r);
}
