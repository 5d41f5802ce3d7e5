use catly::parser::expr::typed::{parse_expr, Expr, OptExpr};
use catly::parser::preprocess::preprocess;
use catly::parser::types::Type;

fn f(seq: &str) -> OptExpr {
    let tokens = preprocess(seq)?;
    parse_expr(tokens)
}

fn namely_type(n: &str) -> Type {
    Type::NamelyType(n.to_string())
}

fn int_type() -> Type {
    namely_type("Int")
}

fn unit_type() -> Type {
    namely_type("Unit")
}

#[allow(dead_code)]
fn closure_type(i: Type, o: Type) -> Type {
    Type::ClosureType(Box::new(i), Box::new(o))
}

#[allow(dead_code)]
fn sum_type(members: Vec<Type>) -> Type {
    Type::sum_of(members)
}

#[allow(dead_code)]
fn prod_type(fields: Vec<(String, Type)>) -> Type {
    Type::ProdType(fields)
}

#[allow(dead_code)]
trait Wrap: Sized {
    fn rc(self) -> Box<Self> {
        Box::new(self)
    }

    fn wrap_rc(self) -> Box<Self> {
        Box::new(self)
    }

    fn boxed(self) -> Box<Self> {
        Box::new(self)
    }

    fn wrap_some(self) -> Option<Self> {
        Some(self)
    }

    fn some(self) -> Option<Self> {
        Some(self)
    }
}

impl<T> Wrap for T {}


#[test]
fn int_test_part1() {
    let r = Expr::Int(None, 123);
    let r = Some(r);

    assert_eq!(f("123"), r);
    assert_eq!(f("(123)"), r);
    assert_eq!(f("(((123)))"), r);
}

#[test]
fn int_test_part2() {
    let r = Expr::Int(int_type().wrap_some(), 123);
    let r = Some(r);

    assert_eq!(f("123: Int"), r);
    assert_eq!(f("(123: Int)"), r);
    assert_eq!(f("(((123: Int)))"), r);
    assert_eq!(f("123: Int"), r);
    assert_eq!(f("(123: (Int))"), r);
    assert_eq!(f("(((123: (((Int))))))"), r);
}

#[test]
fn int_test_part3() {
    let r = Expr::Int(
        sum_type(vec![int_type(), unit_type()]).wrap_some(),
        123
    );
    let r = Some(r);

    assert_eq!(f("123: Int | Unit"), r);
    assert_eq!(f("(123: Int | Unit)"), r);
    assert_eq!(f("(((123: Int | Unit)))"), r);
    assert_eq!(f("123: Int | Unit"), r);
    assert_eq!(f("(123: (Int | Unit))"), r);
    assert_eq!(f("(((123: (((Int | Unit))))))"), r);
}

#[test]
fn int_test_part4() {
    let r = Expr::Int(
        sum_type(vec![int_type(), unit_type(), namely_type("A")])
            .wrap_some(),
        123
    );
    let r = Some(r);

    assert_eq!(f("123: Int | Unit | A"), r);
    assert_eq!(f("(123: Int | Unit | A)"), r);
    assert_eq!(f("(((123: Int | Unit | A)))"), r);
    assert_eq!(f("123: Int | Unit | A"), r);
    assert_eq!(f("(123: (Int | Unit | A))"), r);
    assert_eq!(f("(((123: (((Int | Unit | A))))))"), r);
}
