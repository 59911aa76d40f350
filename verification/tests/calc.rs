use leap::calc::{compile, BinOp, CalcError, Expr};

fn num(start: usize, end: usize) -> Box<Expr> {
    Box::new(Expr::Num { start, end })
}

fn bin(op: BinOp, a: Box<Expr>, b: Box<Expr>) -> Box<Expr> {
    Box::new(Expr::Bin(op, a, b))
}

#[test]
fn parse_precedence_and_parens() {
    // 2 + 3 * 4: the product binds tighter.
    assert_eq!(compile("2 + 3 * 4"), Ok(*bin(BinOp::Add, num(0, 1), bin(BinOp::Mul, num(4, 5), num(8, 9)))));
    // 12 * (3 + 4): the brackets group the sum.
    assert_eq!(compile("12 * (3 + 4)"), Ok(*bin(BinOp::Mul, num(0, 2), bin(BinOp::Add, num(6, 7), num(10, 11)))));
    // Left-associative: 8 - 2 - 1 is (8 - 2) - 1.
    assert_eq!(compile("8-2-1"), Ok(*bin(BinOp::Sub, bin(BinOp::Sub, num(0, 1), num(2, 3)), num(4, 5))));
}

#[test]
fn parse_division_modulo_decimals() {
    assert_eq!(compile("10 / 4"), Ok(*bin(BinOp::Div, num(0, 2), num(5, 6))));
    assert_eq!(compile("10 % 3"), Ok(*bin(BinOp::Rem, num(0, 2), num(5, 6))));
    assert_eq!(compile("0.1 + .2"), Ok(*bin(BinOp::Add, num(0, 3), num(6, 8))));
    assert_eq!(compile("6 × 7 ÷ 2"), Ok(*bin(BinOp::Div, bin(BinOp::Mul, num(0, 1), num(4, 5)), num(8, 9))));
}

#[test]
fn parse_unary_signs() {
    assert_eq!(compile("-3 + 5"), Ok(*bin(BinOp::Add, Box::new(Expr::Neg(num(1, 2))), num(5, 6))));
    assert_eq!(compile("2 * -3"), Ok(*bin(BinOp::Mul, num(0, 1), Box::new(Expr::Neg(num(5, 6))))));
    // Unary plus is the value itself.
    assert_eq!(compile("+7"), Ok(Expr::Num { start: 1, end: 2 }));
}

#[test]
fn reading_errors_come_first() {
    assert_eq!(compile("abc"), Err(CalcError::UnexpectedChar('a')));
    assert_eq!(compile("1 + 1.2.3"), Err(CalcError::BadNumber { start: 4, end: 9 }));
    assert_eq!(compile("."), Err(CalcError::BadNumber { start: 0, end: 1 }));
    // A bad char after a syntax error is still reported: reading comes first.
    assert_eq!(compile("2 + $"), Err(CalcError::UnexpectedChar('$')));
}

#[test]
fn syntax_errors_sit_where_reading_stopped() {
    assert_eq!(compile(""), Ok(Expr::Fail(CalcError::UnexpectedEnd)));
    assert_eq!(compile("2 +"), Ok(*bin(BinOp::Add, num(0, 1), Box::new(Expr::Fail(CalcError::UnexpectedEnd)))));
    assert_eq!(compile("(1 + 2"), Ok(Expr::Unclosed(bin(BinOp::Add, num(1, 2), num(5, 6)))));
    assert_eq!(compile("2 3"), Ok(Expr::Trailing(num(0, 1))));
    assert_eq!(compile("* 2"), Ok(Expr::Fail(CalcError::ExpectedNumber)));
    assert_eq!(compile("(1 2)"), Ok(Expr::Unclosed(num(1, 2))));
}

#[test]
fn a_division_before_a_syntax_error_is_evaluated_first() {
    // "1/0 +" is read up to the missing operand: the division stays in the
    // tree ahead of the failure, so evaluating reports it first.
    assert_eq!(
        compile("1/0 +"),
        Ok(*bin(BinOp::Add, bin(BinOp::Div, num(0, 1), num(2, 3)), Box::new(Expr::Fail(CalcError::UnexpectedEnd))))
    );
}

#[test]
fn every_kind_of_white_space_is_ignored() {
    assert_eq!(compile("1 +\n2"), Ok(*bin(BinOp::Add, num(0, 1), num(4, 5))));
    assert_eq!(compile("\r\n3\u{a0}*\u{2003}4\t"), Ok(*bin(BinOp::Mul, num(2, 3), num(6, 7))));
    assert_eq!(compile(" \n "), Ok(Expr::Fail(CalcError::UnexpectedEnd)));
}
