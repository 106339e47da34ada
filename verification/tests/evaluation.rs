// The expression trees the library builds are evaluated here the way the
// calculator evaluates them: IEEE-754 double precision, division by zero
// included, and values with no fractional part printed without a decimal
// point.

use kalc::{parse_expression, ASTNode, Op};

fn chars(s: &str) -> Vec<char> {
    s.chars().collect()
}

fn eval(ast: &ASTNode) -> f64 {
    match ast {
        ASTNode::Number(lit) => lit.iter().collect::<String>().parse::<f64>().unwrap(),
        ASTNode::BinaryOp { left, op, right } => {
            let l = eval(left);
            let r = eval(right);
            match op {
                Op::Mul => l * r,
                Op::Add => l + r,
                Op::Sub => l - r,
                Op::Div => l / r,
            }
        }
    }
}

fn run(s: &str) -> f64 {
    eval(&parse_expression(&chars(s)).unwrap())
}

fn format_value(num: f64) -> String {
    if num.fract() == 0.0 {
        format!("{:.0}", num)
    } else {
        format!("{}", num)
    }
}

#[test]
fn single_number_evaluates_to_its_value() {
    assert_eq!(run("42"), 42.0);
    assert_eq!(run("7"), 7.0);
}

#[test]
fn subtraction_is_left_associative() {
    assert_eq!(run("10-2-3"), 5.0);
}

#[test]
fn multiplication_before_addition() {
    assert_eq!(run("2+3x4"), 14.0);
    assert_eq!(run("2x3+4"), 10.0);
}

#[test]
fn decimal_literals_multiply() {
    assert!((run("3.14x2.5") - 7.85).abs() < 1e-9);
}

#[test]
fn division_by_zero_is_positive_infinity() {
    let v = run("5/0");
    assert_eq!(v, f64::INFINITY);
    assert_eq!(format_value(v), "inf");
}

#[test]
fn end_to_end_with_spaces() {
    assert_eq!(format_value(run("2 + 3 x 4")), "14");
    assert_eq!(format_value(run("5 + 3 / 2")), "6.5");
}

#[test]
fn integral_values_print_without_decimal_point() {
    assert_eq!(format_value(7.0), "7");
    assert_eq!(format_value(7.5), "7.5");
}
