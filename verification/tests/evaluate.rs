use qalqulator::approx::Approx;
use qalqulator::ast::{Ast, BinaryOp, Node, UnaryOp};
use qalqulator::error::Error;
use qalqulator::eval::{eval, Env, Number};
use qalqulator::rational::Rational;
use qalqulator::run;

fn exact(n: i128, d: i128) -> Number {
    Number::Rational(Rational::new(n, d))
}

fn double(a: &Approx) -> f64 {
    match a {
        Approx::Ratio(r) => r.numerator() as f64 / r.denominator() as f64,
        Approx::Neg(value) => -double(value),
        Approx::Binary { op, lhs, rhs } => {
            let (l, r) = (double(lhs), double(rhs));
            match op {
                BinaryOp::Add => l + r,
                BinaryOp::Sub => l - r,
                BinaryOp::Mul => l * r,
                BinaryOp::Div => l / r,
                BinaryOp::Modulo => l % r,
                BinaryOp::Power => l.powf(r),
            }
        }
    }
}

fn approximate(n: &Number) -> f64 {
    match n {
        Number::FloatingPoint(a) => double(a),
        Number::Rational(_) => panic!("an exact value: {:?}", n),
    }
}

#[test]
fn precedence_of_sum_and_product() {
    let mut env = Env::new();
    assert_eq!(run("2 + 3 * 4", &mut env), Ok(exact(14, 1)));
}

#[test]
fn precedence_of_product_and_power() {
    let mut env = Env::new();
    assert_eq!(run("2 * 3 ^ 2", &mut env), Ok(exact(18, 1)));
}

#[test]
fn power_groups_to_the_right() {
    let mut env = Env::new();
    assert_eq!(run("2 ^ 3 ^ 2", &mut env), Ok(exact(512, 1)));
}

#[test]
fn sum_and_product_group_to_the_left() {
    let mut env = Env::new();
    assert_eq!(run("10 - 3 - 2", &mut env), Ok(exact(5, 1)));
    assert_eq!(run("24 / 4 / 2", &mut env), Ok(exact(3, 1)));
    assert_eq!(run("2 - 3 + 4", &mut env), Ok(exact(3, 1)));
}

#[test]
fn negation_binds_stronger_than_power() {
    let mut env = Env::new();
    assert_eq!(run("-2 ^ 2", &mut env), Ok(exact(4, 1)));
    assert_eq!(run("2 ^ -2", &mut env), Ok(exact(1, 4)));
    assert_eq!(run("--3", &mut env), Ok(exact(3, 1)));
    assert_eq!(run("2 - -3", &mut env), Ok(exact(5, 1)));
}

#[test]
fn brackets_group() {
    let mut env = Env::new();
    assert_eq!(run("(2 + 3) * 4", &mut env), Ok(exact(20, 1)));
    assert_eq!(run("((7))", &mut env), Ok(exact(7, 1)));
    assert_eq!(run("2 * (3 + (4 - 1))", &mut env), Ok(exact(12, 1)));
}

#[test]
fn implicit_multiplication() {
    let mut env = Env::new();
    assert_eq!(run("x = 3", &mut env), Ok(exact(3, 1)));
    assert_eq!(run("2x", &mut env), Ok(exact(6, 1)));
    assert_eq!(run("2(x + 1)", &mut env), Ok(exact(8, 1)));
    assert_eq!(run("(x)(x)", &mut env), Ok(exact(9, 1)));
    assert_eq!(run("2 x ^ 2", &mut env), Ok(exact(18, 1)));
    assert_eq!(run("1 + 2x", &mut env), Ok(exact(7, 1)));
    assert_eq!(run("12 / 2x", &mut env), Ok(exact(18, 1)));
}

#[test]
fn binding_returns_value() {
    let mut env = Env::new();
    assert_eq!(run("x = 5", &mut env), Ok(exact(5, 1)));
    assert_eq!(run("x + 1", &mut env), Ok(exact(6, 1)));
    assert_eq!(env.get("x"), Some(exact(5, 1)));
    assert_eq!(env.len(), 1);
}

#[test]
fn rebinding_overwrites() {
    let mut env = Env::new();
    assert_eq!(run("x = 5", &mut env), Ok(exact(5, 1)));
    assert_eq!(run("x = x * 2", &mut env), Ok(exact(10, 1)));
    assert_eq!(env.get("x"), Some(exact(10, 1)));
    assert_eq!(env.len(), 1);
}

#[test]
fn decimal_literals_are_exact() {
    let mut env = Env::new();
    assert_eq!(run("0.1 + 0.2", &mut env), Ok(exact(3, 10)));
    assert_eq!(run("1.50", &mut env), Ok(exact(3, 2)));
    assert_eq!(run("1_000.000_5", &mut env), Ok(exact(2000001, 2000)));
}

#[test]
fn conversion_forces_approximation() {
    let mut env = Env::new();
    let third = Rational::new(1, 3);
    let zero = Rational::new(0, 1);
    let r = run("~(1/3) + 0", &mut env).unwrap();
    assert_eq!(
        r,
        Number::FloatingPoint(Approx::Binary {
            op: BinaryOp::Add,
            lhs: Box::new(Approx::Ratio(third)),
            rhs: Box::new(Approx::Ratio(zero)),
        })
    );
    assert_eq!(approximate(&r), 1.0 / 3.0);
}

#[test]
fn approximation_is_kept_by_every_operator() {
    let mut env = Env::new();
    assert_eq!(run("a = ~(1/2)", &mut env).map(|n| approximate(&n)), Ok(0.5));
    assert_eq!(run("a + 1", &mut env).map(|n| approximate(&n)), Ok(1.5));
    assert_eq!(run("1 - a", &mut env).map(|n| approximate(&n)), Ok(0.5));
    assert_eq!(run("a * a", &mut env).map(|n| approximate(&n)), Ok(0.25));
    assert_eq!(run("1 / a", &mut env).map(|n| approximate(&n)), Ok(2.0));
    assert_eq!(run("5 % a", &mut env).map(|n| approximate(&n)), Ok(0.0));
    assert_eq!(run("4 ^ a", &mut env).map(|n| approximate(&n)), Ok(2.0));
    assert_eq!(run("a ^ 2", &mut env).map(|n| approximate(&n)), Ok(0.25));
    assert_eq!(run("-a", &mut env).map(|n| approximate(&n)), Ok(-0.5));
    assert_eq!(run("~(a)", &mut env).map(|n| approximate(&n)), Ok(0.5));
    assert_eq!(run("1 / ~(0)", &mut env).map(|n| approximate(&n)), Ok(f64::INFINITY));
}

#[test]
fn unknown_identifier() {
    let mut env = Env::new();
    assert_eq!(run("y + 1", &mut env), Err(Error::UnknownVariable("y".to_string())));
    assert_eq!(env.len(), 0);
    assert_eq!(env.get("y"), None);
}

#[test]
fn failed_binding_leaves_the_session_as_it_was() {
    let mut env = Env::new();
    assert_eq!(run("x = 1", &mut env), Ok(exact(1, 1)));
    assert_eq!(run("x = y", &mut env), Err(Error::UnknownVariable("y".to_string())));
    assert_eq!(run("x = 1 / 0", &mut env), Err(Error::DivisionByZero));
    assert_eq!(run("z = 2 ^ 200", &mut env), Err(Error::Overflow));
    assert_eq!(run("x = (", &mut env), Err(Error::Syntax("x = (".to_string())));
    assert_eq!(env.get("x"), Some(exact(1, 1)));
    assert_eq!(env.len(), 1);
}

#[test]
fn integer_power_is_exact() {
    let mut env = Env::new();
    assert_eq!(run("(1/2) ^ 3", &mut env), Ok(exact(1, 8)));
    assert_eq!(run("(2/3) ^ -2", &mut env), Ok(exact(9, 4)));
}

#[test]
fn fractional_power_is_approximate() {
    let mut env = Env::new();
    let r = run("2 ^ (1/2)", &mut env).unwrap();
    let v = approximate(&r);
    assert!((v - 1.4142).abs() < 0.0001);
    assert_eq!(v, 2.0_f64.powf(0.5));
}

#[test]
fn division_by_zero_and_overflow() {
    let mut env = Env::new();
    assert_eq!(run("1 / 0", &mut env), Err(Error::DivisionByZero));
    assert_eq!(run("1 % 0", &mut env), Err(Error::DivisionByZero));
    assert_eq!(run("0 ^ -1", &mut env), Err(Error::DivisionByZero));
    assert_eq!(
        run("170141183460469231731687303715884105727 + 1", &mut env),
        Err(Error::Overflow)
    );
    assert_eq!(
        run("170141183460469231731687303715884105727 + 0", &mut env),
        Ok(exact(i128::MAX, 1))
    );
}

#[test]
fn modulo_of_fractions() {
    let mut env = Env::new();
    assert_eq!(run("7 % 3", &mut env), Ok(exact(1, 1)));
    assert_eq!(run("3.5 % 1", &mut env), Ok(exact(1, 2)));
    assert_eq!(run("-7 % 3", &mut env), Ok(exact(-1, 1)));
}

#[test]
fn rational_text_evaluates_to_the_rational() {
    let mut env = Env::new();
    for r in [
        Rational::new(1, 2),
        Rational::new(-3, 4),
        Rational::new(5, 1),
        Rational::new(-5, 1),
        Rational::new(0, 1),
        Rational::new(i128::MAX, 3),
        Rational::new(-i128::MAX, 1),
    ] {
        assert_eq!(run(&r.to_string(), &mut env), Ok(Number::Rational(r)));
    }
}

#[test]
fn eval_of_a_tree_built_by_hand() {
    let mut env = Env::new();
    let tree = Ast {
        root: Node::Binding {
            name: "k".to_string(),
            value: Box::new(Node::BinaryOp {
                op: BinaryOp::Sub,
                lhs: Box::new(Node::Number(Rational::new(1, 2))),
                rhs: Box::new(Node::UnaryOp {
                    op: UnaryOp::Neg,
                    value: Box::new(Node::Number(Rational::new(1, 3))),
                }),
            }),
        },
    };
    assert_eq!(eval(tree, &mut env), Ok(exact(5, 6)));
    assert_eq!(env.get("k"), Some(exact(5, 6)));
}

#[test]
fn bindings_inside_a_tree_are_seen_by_what_follows() {
    let mut env = Env::new();
    let bind = |name: &str, n: i128| Node::Binding {
        name: name.to_string(),
        value: Box::new(Node::Number(Rational::new(n, 1))),
    };
    let tree = Ast {
        root: Node::BinaryOp {
            op: BinaryOp::Add,
            lhs: Box::new(bind("a", 2)),
            rhs: Box::new(Node::BinaryOp {
                op: BinaryOp::Mul,
                lhs: Box::new(bind("a", 3)),
                rhs: Box::new(Node::Identifier("a".to_string())),
            }),
        },
    };
    assert_eq!(eval(tree, &mut env), Ok(exact(11, 1)));
    assert_eq!(env.get("a"), Some(exact(3, 1)));
    assert_eq!(env.len(), 1);
}

#[test]
fn bindings_inside_a_failing_tree_are_dropped() {
    let mut env = Env::new();
    let tree = Ast {
        root: Node::BinaryOp {
            op: BinaryOp::Add,
            lhs: Box::new(Node::Binding {
                name: "a".to_string(),
                value: Box::new(Node::Number(Rational::new(2, 1))),
            }),
            rhs: Box::new(Node::Identifier("b".to_string())),
        },
    };
    assert_eq!(eval(tree, &mut env), Err(Error::UnknownVariable("b".to_string())));
    assert_eq!(env.len(), 0);
}

#[test]
fn number_operators() {
    let half = exact(1, 2);
    let approx_half = Number::FloatingPoint(Approx::Ratio(Rational::new(1, 2)));
    assert_eq!(Number::unary(UnaryOp::Neg, half.clone()), exact(-1, 2));
    assert_eq!(
        Number::unary(UnaryOp::Neg, approx_half.clone()),
        Number::FloatingPoint(Approx::Neg(Box::new(Approx::Ratio(Rational::new(1, 2)))))
    );
    assert_eq!(Number::binary(BinaryOp::Add, half.clone(), half.clone()), Ok(exact(1, 1)));
    assert_eq!(
        Number::binary(BinaryOp::Mul, approx_half.clone(), half.clone()),
        Ok(Number::FloatingPoint(Approx::Binary {
            op: BinaryOp::Mul,
            lhs: Box::new(Approx::Ratio(Rational::new(1, 2))),
            rhs: Box::new(Approx::Ratio(Rational::new(1, 2))),
        }))
    );
    assert_eq!(half.clone().approx(), Approx::Ratio(Rational::new(1, 2)));
    assert_eq!(approx_half.clone(), approx_half);
}
