use vstd::prelude::*;

use crate::lexer::{Token, TokenView};

verus! {

/// A literal value. A number is kept as the text it was written with, which
/// the parser has checked to be a valid floating-point numeral.
#[derive(Debug, Clone)]
pub enum LiteralValue {
    Number(String),
    String(String),
    Bool(bool),
    Nil,
}

/// An expression of the language.
#[derive(Debug)]
pub enum Expression {
    Literal { value: LiteralValue },
    Grouped(Box<Expression>),
    Binary { left: Box<Expression>, operator: Token, right: Box<Expression> },
    Unary { operator: Token, right: Box<Expression> },
    Variable(String),
    Assign { name: String, value: Box<Expression> },
}

/// A statement of the language.
#[derive(Debug)]
pub enum Statement {
    Expr(Expression),
    Print(Expression),
    Variable { name: String, initializer: Option<Expression> },
    Block(Vec<Statement>),
}

pub enum LiteralView {
    Number(Seq<char>),
    Str(Seq<char>),
    Bool(bool),
    Nil,
}

pub enum ExprView {
    Literal(LiteralView),
    Grouped(Box<ExprView>),
    Binary(Box<ExprView>, TokenView, Box<ExprView>),
    Unary(TokenView, Box<ExprView>),
    Variable(Seq<char>),
    Assign(Seq<char>, Box<ExprView>),
}

pub enum StmtView {
    Expr(ExprView),
    Print(ExprView),
    Variable(Seq<char>, Option<ExprView>),
    Block(Seq<StmtView>),
}

impl View for LiteralValue {
    type V = LiteralView;

    open spec fn view(&self) -> LiteralView {
        match self {
            LiteralValue::Number(s) => LiteralView::Number(s@),
            LiteralValue::String(s) => LiteralView::Str(s@),
            LiteralValue::Bool(b) => LiteralView::Bool(*b),
            LiteralValue::Nil => LiteralView::Nil,
        }
    }
}

pub open spec fn expr_view(e: Expression) -> ExprView
    decreases e,
{
    match e {
        Expression::Literal { value } => ExprView::Literal(value@),
        Expression::Grouped(inner) => ExprView::Grouped(Box::new(expr_view(*inner))),
        Expression::Binary { left, operator, right } => ExprView::Binary(
            Box::new(expr_view(*left)),
            operator@,
            Box::new(expr_view(*right)),
        ),
        Expression::Unary { operator, right } => ExprView::Unary(
            operator@,
            Box::new(expr_view(*right)),
        ),
        Expression::Variable(name) => ExprView::Variable(name@),
        Expression::Assign { name, value } => ExprView::Assign(
            name@,
            Box::new(expr_view(*value)),
        ),
    }
}

impl View for Expression {
    type V = ExprView;

    open spec fn view(&self) -> ExprView {
        expr_view(*self)
    }
}

pub open spec fn stmt_view(s: Statement) -> StmtView
    decreases s,
{
    match s {
        Statement::Expr(e) => StmtView::Expr(e@),
        Statement::Print(e) => StmtView::Print(e@),
        Statement::Variable { name, initializer } => StmtView::Variable(
            name@,
            match initializer {
                Some(e) => Some(e@),
                None => None,
            },
        ),
        Statement::Block(body) => StmtView::Block(
            Seq::new(
                body@.len(),
                |i: int|
                    if 0 <= i < body@.len() {
                        stmt_view(body@[i])
                    } else {
                        StmtView::Block(Seq::empty())
                    },
            ),
        ),
    }
}

impl View for Statement {
    type V = StmtView;

    open spec fn view(&self) -> StmtView {
        stmt_view(*self)
    }
}

/// The views of a list of statements.
pub open spec fn stmt_views(s: Seq<Statement>) -> Seq<StmtView> {
    s.map_values(|x: Statement| x@)
}


/// A copy of a literal.
fn copy_literal(value: &LiteralValue) -> (r: LiteralValue)
    ensures
        r@ == value@,
{
    match value {
        LiteralValue::Number(s) => LiteralValue::Number(s.clone()),
        LiteralValue::String(s) => LiteralValue::String(s.clone()),
        LiteralValue::Bool(b) => LiteralValue::Bool(*b),
        LiteralValue::Nil => LiteralValue::Nil,
    }
}

impl Clone for Expression {
    /// A copy of the whole expression tree.
    fn clone(&self) -> (r: Self)
        ensures
            r@ == self@,
        decreases self,
    {
        match self {
            Expression::Literal { value } => Expression::Literal { value: copy_literal(value) },
            Expression::Grouped(inner) => Expression::Grouped(Box::new((**inner).clone())),
            Expression::Binary { left, operator, right } => Expression::Binary {
                left: Box::new((**left).clone()),
                operator: operator.duplicate(),
                right: Box::new((**right).clone()),
            },
            Expression::Unary { operator, right } => Expression::Unary {
                operator: operator.duplicate(),
                right: Box::new((**right).clone()),
            },
            Expression::Variable(name) => Expression::Variable(name.clone()),
            Expression::Assign { name, value } => Expression::Assign {
                name: name.clone(),
                value: Box::new((**value).clone()),
            },
        }
    }
}


impl Clone for Statement {
    /// A copy of the statement, with every nested statement and expression.
    fn clone(&self) -> (r: Self)
        ensures
            r@ == self@,
        decreases self,
    {
        match self {
            Statement::Expr(e) => Statement::Expr(e.clone()),
            Statement::Print(e) => Statement::Print(e.clone()),
            Statement::Variable { name, initializer } => Statement::Variable {
                name: name.clone(),
                initializer: match initializer {
                    Some(e) => Some(e.clone()),
                    None => None,
                },
            },
            Statement::Block(body) => {
                let mut out: Vec<Statement> = Vec::new();
                let mut i: usize = 0;
                while i < body.len()
                    invariant
                        *self == Statement::Block(*body),
                        i <= body@.len(),
                        out@.len() == i,
                        forall|j: int| 0 <= j < i ==> (#[trigger] out@[j])@ == body@[j]@,
                    decreases body@.len() - i,
                {
                    proof {
                        assert(decreases_to!(*self => (*self)->Block_0));
                        assert(decreases_to!(*body => body@));
                        assert(decreases_to!(body@ => body@[i as int]));
                    }
                    let c = body[i].clone();
                    out.push(c);
                    i = i + 1;
                }
                proof {
                    lemma_block_view(out);
                    lemma_block_view(*body);
                    assert(stmt_views(out@) =~= stmt_views(body@));
                }
                Statement::Block(out)
            },
        }
    }
}

} // verus!

verus! {

/// The view of a block is the block of its statements' views.
pub proof fn lemma_block_view(b: Vec<Statement>)
    ensures
        stmt_view(Statement::Block(b)) == StmtView::Block(stmt_views(b@)),
{
    let v = stmt_view(Statement::Block(b));
    assert(v->Block_0 =~= stmt_views(b@));
}

} // verus!
