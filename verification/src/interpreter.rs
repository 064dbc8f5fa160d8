use vstd::prelude::*;

use crate::error::{ParserError, ParserErrorView, RuntimeError, RuntimeErrorView};
use crate::lexer::{Token, TokenType, TokenView};
use crate::text::concat;

verus! {

/// A runtime value. `N` is the type of numbers: the evaluator decides here
/// what every operator does with the kinds of its operands, and leaves only
/// arithmetic on numbers to the number type.
#[derive(Debug, Clone, PartialEq)]
pub enum LoxValue<N> {
    Number(N),
    String(String),
    Bool(bool),
    Nil,
}

/// What a value is.
pub enum ValueView<N> {
    Number(N),
    Str(Seq<char>),
    Bool(bool),
    Nil,
}

impl<N> View for LoxValue<N> {
    type V = ValueView<N>;

    open spec fn view(&self) -> ValueView<N> {
        match self {
            LoxValue::Number(n) => ValueView::Number(*n),
            LoxValue::String(s) => ValueView::Str(s@),
            LoxValue::Bool(b) => ValueView::Bool(*b),
            LoxValue::Nil => ValueView::Nil,
        }
    }
}

/// `false` and `nil` are false; every other value is true.
pub open spec fn truthy<N>(v: ValueView<N>) -> bool {
    match v {
        ValueView::Bool(b) => b,
        ValueView::Nil => false,
        _ => true,
    }
}

/// Whether two values are equal, where that does not compare two numbers
/// (`None` when both are numbers): values of different kinds are unequal,
/// `nil` equals `nil`, and strings and booleans are equal by content.
pub open spec fn equal_values<N>(a: ValueView<N>, b: ValueView<N>) -> Option<bool> {
    match (a, b) {
        (ValueView::Number(_), ValueView::Number(_)) => None,
        (ValueView::Str(x), ValueView::Str(y)) => Some(x == y),
        (ValueView::Bool(x), ValueView::Bool(y)) => Some(x == y),
        (ValueView::Nil, ValueView::Nil) => Some(true),
        _ => Some(false),
    }
}

/// Whether two values are of the same kind.
pub open spec fn same_kind<N>(a: ValueView<N>, b: ValueView<N>) -> bool {
    match (a, b) {
        (ValueView::Number(_), ValueView::Number(_)) => true,
        (ValueView::Str(_), ValueView::Str(_)) => true,
        (ValueView::Bool(_), ValueView::Bool(_)) => true,
        (ValueView::Nil, ValueView::Nil) => true,
        _ => false,
    }
}

/// Equality of values is symmetric; values of different kinds are never
/// equal (so `nil` is not `false`, and no number equals a string); `nil`
/// equals `nil`; two strings or two booleans are equal exactly when they are
/// the same; and only two numbers are left to the number type.
pub proof fn law_equality_of_values<N>(a: ValueView<N>, b: ValueView<N>)
    ensures
        equal_values(a, b) == equal_values(b, a),
        !same_kind(a, b) ==> equal_values(a, b) == Some(false),
        equal_values(a, b) == Some(true) ==> same_kind(a, b),
        equal_values(ValueView::<N>::Nil, ValueView::<N>::Nil) == Some(true),
        equal_values(a, b) is None <==> (a is Number && b is Number),
        same_kind(a, b) && !(a is Number) && !(a is Nil) ==> equal_values(a, b) == Some(a == b),
{
}

/// Whether `value` counts as true.
pub fn is_truthy<N>(value: &LoxValue<N>) -> (r: bool)
    ensures
        r == truthy(value@),
{
    match value {
        LoxValue::Bool(b) => *b,
        LoxValue::Nil => false,
        _ => true,
    }
}

/// Whether `a` equals `b`; `None` when both are numbers, whose comparison
/// belongs to the number type.
pub fn is_equal<N>(a: &LoxValue<N>, b: &LoxValue<N>) -> (r: Option<bool>)
    ensures
        r == equal_values(a@, b@),
{
    match (a, b) {
        (LoxValue::Number(_), LoxValue::Number(_)) => None,
        (LoxValue::String(x), LoxValue::String(y)) => Some(*x == *y),
        (LoxValue::Bool(x), LoxValue::Bool(y)) => Some(*x == *y),
        (LoxValue::Nil, LoxValue::Nil) => Some(true),
        _ => Some(false),
    }
}

/// An operation on two numbers.
#[derive(Debug, Clone, Copy, PartialEq, Eq, Structural)]
pub enum NumberOp {
    Add,
    Subtract,
    Multiply,
    Divide,
    Greater,
    GreaterEqual,
    Less,
    LessEqual,
    Equal,
}

/// What a binary operator gives: an operation on two numbers, or a value.
#[derive(Debug)]
pub enum BinaryStep<N> {
    Numbers(NumberOp, N, N),
    Value(LoxValue<N>),
}

pub enum BinaryStepView<N> {
    Numbers(NumberOp, N, N),
    Value(ValueView<N>),
}

impl<N> View for BinaryStep<N> {
    type V = BinaryStepView<N>;

    open spec fn view(&self) -> BinaryStepView<N> {
        match self {
            BinaryStep::Numbers(op, a, b) => BinaryStepView::Numbers(*op, *a, *b),
            BinaryStep::Value(v) => BinaryStepView::Value(v@),
        }
    }
}

/// What a unary operator gives: the negation of a number, or a value.
#[derive(Debug)]
pub enum UnaryStep<N> {
    Negate(N),
    Value(LoxValue<N>),
}

pub enum UnaryStepView<N> {
    Negate(N),
    Value(ValueView<N>),
}

impl<N> View for UnaryStep<N> {
    type V = UnaryStepView<N>;

    open spec fn view(&self) -> UnaryStepView<N> {
        match self {
            UnaryStep::Negate(a) => UnaryStepView::Negate(*a),
            UnaryStep::Value(v) => UnaryStepView::Value(v@),
        }
    }
}

/// A type error on line `line`.
pub open spec fn type_error(line: nat, msg: Seq<char>) -> RuntimeErrorView {
    RuntimeErrorView::TypeError { line, msg }
}

/// The operation on two numbers that `op` names, for the operators that take
/// only numbers.
pub open spec fn numeric_op(op: TokenType) -> Option<NumberOp> {
    match op {
        TokenType::Minus => Some(NumberOp::Subtract),
        TokenType::Star => Some(NumberOp::Multiply),
        TokenType::Slash => Some(NumberOp::Divide),
        TokenType::Greater => Some(NumberOp::Greater),
        TokenType::GreaterEqual => Some(NumberOp::GreaterEqual),
        TokenType::Less => Some(NumberOp::Less),
        TokenType::LessEqual => Some(NumberOp::LessEqual),
        _ => None,
    }
}

/// What the binary operator `op` (on line `line`) does with `left` and
/// `right`:
/// - `+` adds two numbers or joins two strings;
/// - `-`, `*`, `/`, `>`, `>=`, `<`, `<=` take two numbers;
/// - `==` and `!=` both give whether the operands are equal;
/// - anything else, or operands of the wrong kinds, is a type error.
pub open spec fn binary_outcome<N>(
    op: TokenType,
    line: nat,
    left: ValueView<N>,
    right: ValueView<N>,
) -> Result<BinaryStepView<N>, RuntimeErrorView> {
    if op == TokenType::Plus {
        match (left, right) {
            (ValueView::Number(a), ValueView::Number(b)) => Ok(
                BinaryStepView::Numbers(NumberOp::Add, a, b),
            ),
            (ValueView::Str(a), ValueView::Str(b)) => Ok(
                BinaryStepView::Value(ValueView::Str(a + b)),
            ),
            _ => Err(type_error(line, "Operands must be two numbers or two strings."@)),
        }
    } else if op == TokenType::EqualEqual || op == TokenType::BangEqual {
        match (left, right) {
            (ValueView::Number(a), ValueView::Number(b)) => Ok(
                BinaryStepView::Numbers(NumberOp::Equal, a, b),
            ),
            _ => Ok(BinaryStepView::Value(ValueView::Bool(equal_values(left, right)->0))),
        }
    } else {
        match numeric_op(op) {
            Some(o) => match (left, right) {
                (ValueView::Number(a), ValueView::Number(b)) => Ok(
                    BinaryStepView::Numbers(o, a, b),
                ),
                _ => Err(type_error(line, "Operands must be numbers."@)),
            },
            None => Err(type_error(line, "Unsupported operator."@)),
        }
    }
}

/// What the unary operator `op` (on line `line`) does with `operand`: `-`
/// negates a number, `!` gives the opposite of a boolean; anything else is a
/// type error.
pub open spec fn unary_outcome<N>(op: TokenType, line: nat, operand: ValueView<N>) -> Result<
    UnaryStepView<N>,
    RuntimeErrorView,
> {
    if op == TokenType::Minus {
        match operand {
            ValueView::Number(a) => Ok(UnaryStepView::Negate(a)),
            _ => Err(type_error(line, "Operand must be a number."@)),
        }
    } else if op == TokenType::Bang {
        match operand {
            ValueView::Bool(_) => Ok(UnaryStepView::Value(ValueView::Bool(!truthy(operand)))),
            _ => Err(type_error(line, "Operand must be a boolean."@)),
        }
    } else {
        Err(type_error(line, "Unexpected token."@))
    }
}

/// The views of a step's result or error.
pub open spec fn result_view<T: View>(r: Result<T, RuntimeError>) -> Result<T::V, RuntimeErrorView> {
    match r {
        Ok(s) => Ok(s@),
        Err(e) => Err(e@),
    }
}

fn type_error_at(operator: &Token, msg: &str) -> (e: RuntimeError)
    ensures
        e@ == type_error(operator@.line, msg@),
{
    RuntimeError::TypeError { line: operator.line(), msg: msg.to_owned() }
}

/// What a binary operator does with its evaluated operands; the operator's
/// line goes into a type error.
pub fn binary_step<N: Copy>(operator: &Token, left: &LoxValue<N>, right: &LoxValue<N>) -> (r:
    Result<BinaryStep<N>, RuntimeError>)
    ensures
        result_view(r) == binary_outcome(operator@.token_type, operator@.line, left@, right@),
{
    let op = operator.token_type();
    if op == TokenType::Plus {
        match (left, right) {
            (LoxValue::Number(a), LoxValue::Number(b)) => Ok(
                BinaryStep::Numbers(NumberOp::Add, *a, *b),
            ),
            (LoxValue::String(a), LoxValue::String(b)) => Ok(
                BinaryStep::Value(LoxValue::String(concat(a.clone(), b.as_str()))),
            ),
            _ => Err(type_error_at(operator, "Operands must be two numbers or two strings.")),
        }
    } else if op == TokenType::EqualEqual || op == TokenType::BangEqual {
        match (left, right) {
            (LoxValue::Number(a), LoxValue::Number(b)) => Ok(
                BinaryStep::Numbers(NumberOp::Equal, *a, *b),
            ),
            _ => {
                let same = match is_equal(left, right) {
                    Some(e) => e,
                    None => false,
                };
                Ok(BinaryStep::Value(LoxValue::Bool(same)))
            },
        }
    } else {
        let numeric = match op {
            TokenType::Minus => Some(NumberOp::Subtract),
            TokenType::Star => Some(NumberOp::Multiply),
            TokenType::Slash => Some(NumberOp::Divide),
            TokenType::Greater => Some(NumberOp::Greater),
            TokenType::GreaterEqual => Some(NumberOp::GreaterEqual),
            TokenType::Less => Some(NumberOp::Less),
            TokenType::LessEqual => Some(NumberOp::LessEqual),
            _ => None,
        };
        match numeric {
            Some(o) => match (left, right) {
                (LoxValue::Number(a), LoxValue::Number(b)) => Ok(BinaryStep::Numbers(o, *a, *b)),
                _ => Err(type_error_at(operator, "Operands must be numbers.")),
            },
            None => Err(type_error_at(operator, "Unsupported operator.")),
        }
    }
}

/// What a unary operator does with its evaluated operand; the operator's line
/// goes into a type error.
pub fn unary_step<N: Copy>(operator: &Token, operand: &LoxValue<N>) -> (r: Result<
    UnaryStep<N>,
    RuntimeError,
>)
    ensures
        result_view(r) == unary_outcome(operator@.token_type, operator@.line, operand@),
{
    let op = operator.token_type();
    if op == TokenType::Minus {
        match operand {
            LoxValue::Number(a) => Ok(UnaryStep::Negate(*a)),
            _ => Err(type_error_at(operator, "Operand must be a number.")),
        }
    } else if op == TokenType::Bang {
        match operand {
            LoxValue::Bool(_) => Ok(UnaryStep::Value(LoxValue::Bool(!is_truthy(operand)))),
            _ => Err(type_error_at(operator, "Operand must be a boolean.")),
        }
    } else {
        Err(type_error_at(operator, "Unexpected token."))
    }
}

// Constant expressions: literals joined by operators, evaluated without
// variables.

/// What a unary operator gives in a constant expression: the negation of a
/// number, or a string to print (the expression is then `nil`).
#[derive(Debug)]
pub enum ConstantUnaryStep<N> {
    Negate(N),
    Print(String),
}

pub enum ConstantUnaryStepView<N> {
    Negate(N),
    Print(Seq<char>),
}

impl<N> View for ConstantUnaryStep<N> {
    type V = ConstantUnaryStepView<N>;

    open spec fn view(&self) -> ConstantUnaryStepView<N> {
        match self {
            ConstantUnaryStep::Negate(a) => ConstantUnaryStepView::Negate(*a),
            ConstantUnaryStep::Print(s) => ConstantUnaryStepView::Print(s@),
        }
    }
}

/// The arithmetic operation that `op` names in a constant expression.
pub open spec fn arithmetic_op(op: TokenType) -> Option<NumberOp> {
    match op {
        TokenType::Plus => Some(NumberOp::Add),
        TokenType::Minus => Some(NumberOp::Subtract),
        TokenType::Star => Some(NumberOp::Multiply),
        TokenType::Slash => Some(NumberOp::Divide),
        _ => None,
    }
}

/// An "invalid operand" error at the operator `op`.
pub open spec fn invalid_operand(op: TokenView, msg: Seq<char>) -> ParserErrorView {
    ParserErrorView::InvalidOperand { line: op.line, token: op, msg }
}

/// What the binary operator `op` does in a constant expression: `+`, `-`,
/// `*` and `/` on two numbers, `+` on two strings; anything else is an
/// invalid operand.
pub open spec fn constant_binary_outcome<N>(
    op: TokenView,
    left: ValueView<N>,
    right: ValueView<N>,
) -> Result<BinaryStepView<N>, ParserErrorView> {
    match (left, right) {
        (ValueView::Number(a), ValueView::Number(b)) => match arithmetic_op(op.token_type) {
            Some(o) => Ok(BinaryStepView::Numbers(o, a, b)),
            None => Err(invalid_operand(op, "Invalid operand for binary operator"@)),
        },
        (ValueView::Str(a), ValueView::Str(b)) => if op.token_type == TokenType::Plus {
            Ok(BinaryStepView::Value(ValueView::Str(a + b)))
        } else {
            Err(invalid_operand(op, "Invalid operand for binary operator"@))
        },
        _ => Err(invalid_operand(op, "Invalid operand for binary operator"@)),
    }
}

/// What the unary operator `op` does in a constant expression: `-` negates a
/// number, `print` prints a string; anything else is an invalid operand.
pub open spec fn constant_unary_outcome<N>(op: TokenView, operand: ValueView<N>) -> Result<
    ConstantUnaryStepView<N>,
    ParserErrorView,
> {
    if op.token_type == TokenType::Minus {
        match operand {
            ValueView::Number(a) => Ok(ConstantUnaryStepView::Negate(a)),
            _ => Err(invalid_operand(op, "Invalid operand for unary operator"@)),
        }
    } else if op.token_type == TokenType::Print {
        match operand {
            ValueView::Str(s) => Ok(ConstantUnaryStepView::Print(s)),
            _ => Err(invalid_operand(op, "Invalid operand for print operator"@)),
        }
    } else {
        Err(invalid_operand(op, "Invalid operand for unary operator"@))
    }
}

/// The views of a constant step's result or error.
pub open spec fn constant_result_view<T: View>(r: Result<T, ParserError>) -> Result<
    T::V,
    ParserErrorView,
> {
    match r {
        Ok(s) => Ok(s@),
        Err(e) => Err(e@),
    }
}

fn invalid_operand_at(operator: &Token, msg: &str) -> (e: ParserError)
    ensures
        e@ == invalid_operand(operator@, msg@),
{
    ParserError::InvalidOperand {
        line: operator.line(),
        token: operator.duplicate(),
        msg: msg.to_owned(),
    }
}

/// What a binary operator does with its evaluated operands in a constant
/// expression.
pub fn constant_binary_step<N: Copy>(
    operator: &Token,
    left: &LoxValue<N>,
    right: &LoxValue<N>,
) -> (r: Result<BinaryStep<N>, ParserError>)
    ensures
        constant_result_view(r) == constant_binary_outcome(operator@, left@, right@),
{
    let op = operator.token_type();
    match (left, right) {
        (LoxValue::Number(a), LoxValue::Number(b)) => {
            let arithmetic = match op {
                TokenType::Plus => Some(NumberOp::Add),
                TokenType::Minus => Some(NumberOp::Subtract),
                TokenType::Star => Some(NumberOp::Multiply),
                TokenType::Slash => Some(NumberOp::Divide),
                _ => None,
            };
            match arithmetic {
                Some(o) => Ok(BinaryStep::Numbers(o, *a, *b)),
                None => Err(invalid_operand_at(operator, "Invalid operand for binary operator")),
            }
        },
        (LoxValue::String(a), LoxValue::String(b)) => if op == TokenType::Plus {
            Ok(BinaryStep::Value(LoxValue::String(concat(a.clone(), b.as_str()))))
        } else {
            Err(invalid_operand_at(operator, "Invalid operand for binary operator"))
        },
        _ => Err(invalid_operand_at(operator, "Invalid operand for binary operator")),
    }
}

/// What a unary operator does with its evaluated operand in a constant
/// expression.
pub fn constant_unary_step<N: Copy>(operator: &Token, operand: &LoxValue<N>) -> (r: Result<
    ConstantUnaryStep<N>,
    ParserError,
>)
    ensures
        constant_result_view(r) == constant_unary_outcome(operator@, operand@),
{
    let op = operator.token_type();
    if op == TokenType::Minus {
        match operand {
            LoxValue::Number(a) => Ok(ConstantUnaryStep::Negate(*a)),
            _ => Err(invalid_operand_at(operator, "Invalid operand for unary operator")),
        }
    } else if op == TokenType::Print {
        match operand {
            LoxValue::String(s) => Ok(ConstantUnaryStep::Print(s.clone())),
            _ => Err(invalid_operand_at(operator, "Invalid operand for print operator")),
        }
    } else {
        Err(invalid_operand_at(operator, "Invalid operand for unary operator"))
    }
}

/// What each binary operator does with two numbers `a` and `b`: `+` adds,
/// `-` subtracts, `*` multiplies and `/` divides `a` by `b`; `>`, `>=`, `<`
/// and `<=` compare `a` with `b`; `==` and `!=` both test them for equality.
/// The left operand always comes first. `+` on two strings joins them, left
/// text first.
pub proof fn law_binary_operators_on_operands<N>(line: nat, a: N, b: N, x: Seq<char>, y: Seq<char>)
    ensures
        binary_outcome(TokenType::Plus, line, ValueView::Number(a), ValueView::Number(b)) == Ok::<
            BinaryStepView<N>,
            RuntimeErrorView,
        >(BinaryStepView::Numbers(NumberOp::Add, a, b)),
        binary_outcome(TokenType::Minus, line, ValueView::Number(a), ValueView::Number(b)) == Ok::<
            BinaryStepView<N>,
            RuntimeErrorView,
        >(BinaryStepView::Numbers(NumberOp::Subtract, a, b)),
        binary_outcome(TokenType::Star, line, ValueView::Number(a), ValueView::Number(b)) == Ok::<
            BinaryStepView<N>,
            RuntimeErrorView,
        >(BinaryStepView::Numbers(NumberOp::Multiply, a, b)),
        binary_outcome(TokenType::Slash, line, ValueView::Number(a), ValueView::Number(b)) == Ok::<
            BinaryStepView<N>,
            RuntimeErrorView,
        >(BinaryStepView::Numbers(NumberOp::Divide, a, b)),
        binary_outcome(TokenType::Greater, line, ValueView::Number(a), ValueView::Number(b)) == Ok::<
            BinaryStepView<N>,
            RuntimeErrorView,
        >(BinaryStepView::Numbers(NumberOp::Greater, a, b)),
        binary_outcome(TokenType::GreaterEqual, line, ValueView::Number(a), ValueView::Number(b))
            == Ok::<BinaryStepView<N>, RuntimeErrorView>(
            BinaryStepView::Numbers(NumberOp::GreaterEqual, a, b),
        ),
        binary_outcome(TokenType::Less, line, ValueView::Number(a), ValueView::Number(b)) == Ok::<
            BinaryStepView<N>,
            RuntimeErrorView,
        >(BinaryStepView::Numbers(NumberOp::Less, a, b)),
        binary_outcome(TokenType::LessEqual, line, ValueView::Number(a), ValueView::Number(b))
            == Ok::<BinaryStepView<N>, RuntimeErrorView>(
            BinaryStepView::Numbers(NumberOp::LessEqual, a, b),
        ),
        binary_outcome(TokenType::EqualEqual, line, ValueView::Number(a), ValueView::Number(b))
            == Ok::<BinaryStepView<N>, RuntimeErrorView>(
            BinaryStepView::Numbers(NumberOp::Equal, a, b),
        ),
        binary_outcome(TokenType::BangEqual, line, ValueView::Number(a), ValueView::Number(b))
            == Ok::<BinaryStepView<N>, RuntimeErrorView>(
            BinaryStepView::Numbers(NumberOp::Equal, a, b),
        ),
        binary_outcome(TokenType::Plus, line, ValueView::<N>::Str(x), ValueView::<N>::Str(y))
            == Ok::<BinaryStepView<N>, RuntimeErrorView>(
            BinaryStepView::Value(ValueView::Str(x + y)),
        ),
{
}

/// `==` and `!=` on two values that are not both numbers give whether the
/// two values are the same: same kind and same content (so two strings are
/// equal exactly when their texts are, and `nil` is not `false`).
pub proof fn law_equality_operators<N>(op: TokenType, line: nat, l: ValueView<N>, r: ValueView<N>)
    requires
        op == TokenType::EqualEqual || op == TokenType::BangEqual,
        !(l is Number && r is Number),
    ensures
        binary_outcome(op, line, l, r) == Ok::<BinaryStepView<N>, RuntimeErrorView>(
            BinaryStepView::Value(ValueView::Bool(l == r)),
        ),
{
}

/// Operators that take only numbers refuse any other operand with a type
/// error on the operator's line; `+` refuses anything but two numbers or two
/// strings.
pub proof fn law_binary_type_errors<N>(op: TokenType, line: nat, l: ValueView<N>, r: ValueView<N>)
    ensures
        (op == TokenType::Minus || op == TokenType::Star || op == TokenType::Slash || op
            == TokenType::Greater || op == TokenType::GreaterEqual || op == TokenType::Less || op
            == TokenType::LessEqual) && !(l is Number && r is Number) ==> binary_outcome(
            op,
            line,
            l,
            r,
        ) == Err::<BinaryStepView<N>, RuntimeErrorView>(
            RuntimeErrorView::TypeError { line, msg: "Operands must be numbers."@ },
        ),
        op == TokenType::Plus && !(l is Number && r is Number) && !(l is Str && r is Str)
            ==> binary_outcome(op, line, l, r) is Err,
{
}

/// `!` gives the opposite of a boolean, and `-` the negation of a number;
/// each refuses any other operand with a type error on the operator's line.
pub proof fn law_unary_operators<N>(line: nat, b: bool, a: N, v: ValueView<N>)
    ensures
        unary_outcome(TokenType::Bang, line, ValueView::<N>::Bool(b)) == Ok::<
            UnaryStepView<N>,
            RuntimeErrorView,
        >(UnaryStepView::Value(ValueView::Bool(!b))),
        unary_outcome(TokenType::Minus, line, ValueView::Number(a)) == Ok::<
            UnaryStepView<N>,
            RuntimeErrorView,
        >(UnaryStepView::Negate(a)),
        !(v is Bool) ==> unary_outcome(TokenType::Bang, line, v) is Err,
        !(v is Number) ==> unary_outcome(TokenType::Minus, line, v) is Err,
{
}

/// In a constant expression, `+`, `-`, `*` and `/` on two numbers add,
/// subtract, multiply and divide, left operand first; `+` joins two strings,
/// left text first; no other operator applies to two numbers. `-` negates a
/// number and `print` prints a string.
pub proof fn law_constant_operators<N>(op: TokenView, a: N, b: N, x: Seq<char>, y: Seq<char>)
    ensures
        op.token_type == TokenType::Plus ==> constant_binary_outcome(
            op,
            ValueView::Number(a),
            ValueView::Number(b),
        ) == Ok::<BinaryStepView<N>, ParserErrorView>(BinaryStepView::Numbers(NumberOp::Add, a, b)),
        op.token_type == TokenType::Minus ==> constant_binary_outcome(
            op,
            ValueView::Number(a),
            ValueView::Number(b),
        ) == Ok::<BinaryStepView<N>, ParserErrorView>(
            BinaryStepView::Numbers(NumberOp::Subtract, a, b),
        ),
        op.token_type == TokenType::Star ==> constant_binary_outcome(
            op,
            ValueView::Number(a),
            ValueView::Number(b),
        ) == Ok::<BinaryStepView<N>, ParserErrorView>(
            BinaryStepView::Numbers(NumberOp::Multiply, a, b),
        ),
        op.token_type == TokenType::Slash ==> constant_binary_outcome(
            op,
            ValueView::Number(a),
            ValueView::Number(b),
        ) == Ok::<BinaryStepView<N>, ParserErrorView>(
            BinaryStepView::Numbers(NumberOp::Divide, a, b),
        ),
        !(op.token_type == TokenType::Plus || op.token_type == TokenType::Minus || op.token_type
            == TokenType::Star || op.token_type == TokenType::Slash) ==> constant_binary_outcome(
            op,
            ValueView::Number(a),
            ValueView::Number(b),
        ) is Err,
        op.token_type == TokenType::Plus ==> constant_binary_outcome(
            op,
            ValueView::<N>::Str(x),
            ValueView::<N>::Str(y),
        ) == Ok::<BinaryStepView<N>, ParserErrorView>(BinaryStepView::Value(ValueView::Str(x + y))),
        op.token_type == TokenType::Minus ==> constant_unary_outcome(op, ValueView::Number(a))
            == Ok::<ConstantUnaryStepView<N>, ParserErrorView>(ConstantUnaryStepView::Negate(a)),
        op.token_type == TokenType::Print ==> constant_unary_outcome(op, ValueView::<N>::Str(x))
            == Ok::<ConstantUnaryStepView<N>, ParserErrorView>(ConstantUnaryStepView::Print(x)),
{
}

/// `nil` and `false` are the only false values: `true` is true, and every
/// number and every string, empty or not, is true.
pub proof fn law_truthiness<N>(b: bool, a: N, x: Seq<char>)
    ensures
        !truthy(ValueView::<N>::Nil),
        truthy(ValueView::<N>::Bool(b)) == b,
        truthy(ValueView::<N>::Number(a)),
        truthy(ValueView::<N>::Str(x)),
{
}

} // verus!

