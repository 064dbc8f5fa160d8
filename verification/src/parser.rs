use vstd::prelude::*;

use crate::ast::{
    ExprView, Expression, LiteralValue, LiteralView, Statement, StmtView, stmt_views,
};
use crate::error::{ParserError, ParserErrorView};
use crate::lexer::{Token, TokenType, TokenView, chars_of, token_views};
use crate::number::{float_text, is_float_text};
use crate::text::concat;

verus! {

/// The outcome of a parsing rule at a position: a result and the position
/// after it, an error and the position where it was found, or an input on
/// which the rule is undefined (it reads past the tokens, or calls itself
/// forever without consuming a token).
pub enum Parsed<T> {
    Done(T, nat),
    Failed(ParserErrorView, nat),
    Abort,
}

/// Whether the parser has reached the end: past the last token, or at an
/// end-of-file token.
pub open spec fn at_end_of(ts: Seq<TokenView>, p: nat) -> bool {
    p >= ts.len() || ts[p as int].token_type == TokenType::Eof
}

/// Whether the token at `p` has type `t` (never at the end).
pub open spec fn check_at(ts: Seq<TokenView>, p: nat, t: TokenType) -> bool {
    !at_end_of(ts, p) && ts[p as int].token_type == t
}

/// Moves past the token at `p` unless at the end, and returns the position and
/// the token before it; `None` when there is no token before it.
pub open spec fn advance_at(ts: Seq<TokenView>, p: nat) -> Option<(nat, TokenView)> {
    let q: nat = if at_end_of(ts, p) {
        p
    } else {
        p + 1
    };
    if 1 <= q <= ts.len() {
        Some((q, ts[q - 1]))
    } else {
        None
    }
}

/// The token at `p` if it has type `t`, else an "unexpected token" error.
pub open spec fn consume_at(ts: Seq<TokenView>, p: nat, t: TokenType, msg: Seq<char>) -> Parsed<
    TokenView,
> {
    if check_at(ts, p, t) {
        Parsed::Done(ts[p as int], p + 1)
    } else if p < ts.len() {
        Parsed::Failed(
            ParserErrorView::UnexpectedToken { line: ts[p as int].line, token: ts[p as int], msg },
            p,
        )
    } else {
        Parsed::Abort
    }
}

pub open spec fn binary(left: ExprView, op: TokenView, right: ExprView) -> ExprView {
    ExprView::Binary(Box::new(left), op, Box::new(right))
}

/// The group around the expression parsed by `inner`, closed by a `)`
/// where there is one.
pub open spec fn grouped(ts: Seq<TokenView>, inner: Parsed<ExprView>) -> Parsed<ExprView> {
    match inner {
        Parsed::Done(e, r) => match consume_at(
            ts,
            r,
            TokenType::RightParen,
            "Expect ')' after expression."@,
        ) {
            Parsed::Done(_, s) => Parsed::Done(ExprView::Grouped(Box::new(e)), s),
            Parsed::Failed(_, s) => Parsed::Done(ExprView::Grouped(Box::new(e)), s),
            Parsed::Abort => Parsed::Abort,
        },
        Parsed::Failed(e, r) => Parsed::Failed(e, r),
        Parsed::Abort => Parsed::Abort,
    }
}

/// `primary := NUMBER | STRING | "false" | "true" | "nil" | "(" expression ")" | IDENTIFIER`;
/// a missing `)` is not reported.
pub open spec fn primary_at(ts: Seq<TokenView>, p: nat) -> Parsed<ExprView>
    decreases ts.len() - p, 1nat,
{
    match advance_at(ts, p) {
        None => Parsed::Abort,
        Some((q, tok)) => match tok.token_type {
            TokenType::Number => if float_text(tok.lexeme) {
                Parsed::Done(ExprView::Literal(LiteralView::Number(tok.lexeme)), q)
            } else {
                Parsed::Abort
            },
            TokenType::String => Parsed::Done(ExprView::Literal(LiteralView::Str(tok.lexeme)), q),
            TokenType::False => Parsed::Done(ExprView::Literal(LiteralView::Bool(false)), q),
            TokenType::True => Parsed::Done(ExprView::Literal(LiteralView::Bool(true)), q),
            TokenType::Nil => Parsed::Done(ExprView::Literal(LiteralView::Nil), q),
            TokenType::LeftParen => if p < q {
                grouped(ts, expression_at(ts, q))
            } else {
                Parsed::Abort
            },
            TokenType::Identifier => Parsed::Done(ExprView::Variable(tok.lexeme), q),
            _ => Parsed::Failed(
                ParserErrorView::ExpectedExpression {
                    line: tok.line,
                    token: tok,
                    msg: "Expect expression."@,
                },
                q,
            ),
        },
    }
}

/// `unary := ("-" | "!") unary | primary`.
pub open spec fn unary_at(ts: Seq<TokenView>, p: nat) -> Parsed<ExprView>
    decreases ts.len() - p, 2nat,
{
    if check_at(ts, p, TokenType::Minus) || check_at(ts, p, TokenType::Bang) {
        match unary_at(ts, p + 1) {
            Parsed::Done(r, q) => Parsed::Done(ExprView::Unary(ts[p as int], Box::new(r)), q),
            Parsed::Failed(e, q) => Parsed::Failed(e, q),
            Parsed::Abort => Parsed::Abort,
        }
    } else {
        primary_at(ts, p)
    }
}

/// The `("/" | "*") unary` repetitions after `left`.
pub open spec fn factor_rest(ts: Seq<TokenView>, left: ExprView, p: nat) -> Parsed<ExprView>
    decreases ts.len() - p, 3nat,
{
    if check_at(ts, p, TokenType::Slash) || check_at(ts, p, TokenType::Star) {
        match unary_at(ts, p + 1) {
            Parsed::Done(r, q) => if p < q <= ts.len() {
                factor_rest(ts, binary(left, ts[p as int], r), q)
            } else {
                Parsed::Abort
            },
            Parsed::Failed(e, q) => Parsed::Failed(e, q),
            Parsed::Abort => Parsed::Abort,
        }
    } else {
        Parsed::Done(left, p)
    }
}

/// `factor := unary (("/" | "*") unary)*`, left-associative.
pub open spec fn factor_at(ts: Seq<TokenView>, p: nat) -> Parsed<ExprView>
    decreases ts.len() - p, 4nat,
{
    match unary_at(ts, p) {
        Parsed::Done(e, q) => if p <= q <= ts.len() {
            factor_rest(ts, e, q)
        } else {
            Parsed::Abort
        },
        Parsed::Failed(e, q) => Parsed::Failed(e, q),
        Parsed::Abort => Parsed::Abort,
    }
}

/// The `("-" | "+") factor` repetitions after `left`.
pub open spec fn term_rest(ts: Seq<TokenView>, left: ExprView, p: nat) -> Parsed<ExprView>
    decreases ts.len() - p, 5nat,
{
    if check_at(ts, p, TokenType::Minus) || check_at(ts, p, TokenType::Plus) {
        match factor_at(ts, p + 1) {
            Parsed::Done(r, q) => if p < q <= ts.len() {
                term_rest(ts, binary(left, ts[p as int], r), q)
            } else {
                Parsed::Abort
            },
            Parsed::Failed(e, q) => Parsed::Failed(e, q),
            Parsed::Abort => Parsed::Abort,
        }
    } else {
        Parsed::Done(left, p)
    }
}

/// `term := factor (("-" | "+") factor)*`, left-associative.
pub open spec fn term_at(ts: Seq<TokenView>, p: nat) -> Parsed<ExprView>
    decreases ts.len() - p, 6nat,
{
    match factor_at(ts, p) {
        Parsed::Done(e, q) => if p <= q <= ts.len() {
            term_rest(ts, e, q)
        } else {
            Parsed::Abort
        },
        Parsed::Failed(e, q) => Parsed::Failed(e, q),
        Parsed::Abort => Parsed::Abort,
    }
}

pub open spec fn comparison_operator(ts: Seq<TokenView>, p: nat) -> bool {
    ||| check_at(ts, p, TokenType::Greater)
    ||| check_at(ts, p, TokenType::GreaterEqual)
    ||| check_at(ts, p, TokenType::Less)
    ||| check_at(ts, p, TokenType::LessEqual)
}

/// The `(">" | ">=" | "<" | "<=") term` repetitions after `left`.
pub open spec fn comparison_rest(ts: Seq<TokenView>, left: ExprView, p: nat) -> Parsed<ExprView>
    decreases ts.len() - p, 7nat,
{
    if comparison_operator(ts, p) {
        match term_at(ts, p + 1) {
            Parsed::Done(r, q) => if p < q <= ts.len() {
                comparison_rest(ts, binary(left, ts[p as int], r), q)
            } else {
                Parsed::Abort
            },
            Parsed::Failed(e, q) => Parsed::Failed(e, q),
            Parsed::Abort => Parsed::Abort,
        }
    } else {
        Parsed::Done(left, p)
    }
}

/// `comparison := term ((">" | ">=" | "<" | "<=") term)*`, left-associative.
pub open spec fn comparison_at(ts: Seq<TokenView>, p: nat) -> Parsed<ExprView>
    decreases ts.len() - p, 8nat,
{
    match term_at(ts, p) {
        Parsed::Done(e, q) => if p <= q <= ts.len() {
            comparison_rest(ts, e, q)
        } else {
            Parsed::Abort
        },
        Parsed::Failed(e, q) => Parsed::Failed(e, q),
        Parsed::Abort => Parsed::Abort,
    }
}

/// The `("!=" | "==") comparison` repetitions after `left`.
pub open spec fn equality_rest(ts: Seq<TokenView>, left: ExprView, p: nat) -> Parsed<ExprView>
    decreases ts.len() - p, 9nat,
{
    if check_at(ts, p, TokenType::BangEqual) || check_at(ts, p, TokenType::EqualEqual) {
        match comparison_at(ts, p + 1) {
            Parsed::Done(r, q) => if p < q <= ts.len() {
                equality_rest(ts, binary(left, ts[p as int], r), q)
            } else {
                Parsed::Abort
            },
            Parsed::Failed(e, q) => Parsed::Failed(e, q),
            Parsed::Abort => Parsed::Abort,
        }
    } else {
        Parsed::Done(left, p)
    }
}

/// `equality := comparison (("!=" | "==") comparison)*`, left-associative.
pub open spec fn equality_at(ts: Seq<TokenView>, p: nat) -> Parsed<ExprView>
    decreases ts.len() - p, 10nat,
{
    match comparison_at(ts, p) {
        Parsed::Done(e, q) => if p <= q <= ts.len() {
            equality_rest(ts, e, q)
        } else {
            Parsed::Abort
        },
        Parsed::Failed(e, q) => Parsed::Failed(e, q),
        Parsed::Abort => Parsed::Abort,
    }
}

/// `expression := equality`.
pub open spec fn expression_at(ts: Seq<TokenView>, p: nat) -> Parsed<ExprView>
    decreases ts.len() - p, 11nat,
{
    equality_at(ts, p)
}

/// `assignment := equality ("=" assignment)?`, where the left side must be a variable.
pub open spec fn assignment_at(ts: Seq<TokenView>, p: nat) -> Parsed<ExprView>
    decreases ts.len() - p,
{
    match equality_at(ts, p) {
        Parsed::Done(e, q) => if check_at(ts, q, TokenType::Equal) {
            let equals = ts[q as int];
            if p <= q {
                match assignment_at(ts, q + 1) {
                    Parsed::Done(v, r) => match e {
                        ExprView::Variable(name) => Parsed::Done(
                            ExprView::Assign(name, Box::new(v)),
                            r,
                        ),
                        _ => Parsed::Failed(
                            ParserErrorView::InvalidAssignmentTarget {
                                line: equals.line,
                                token: equals,
                                msg: "Invalid assignment target."@,
                            },
                            r,
                        ),
                    },
                    Parsed::Failed(x, r) => Parsed::Failed(x, r),
                    Parsed::Abort => Parsed::Abort,
                }
            } else {
                Parsed::Abort
            }
        } else {
            Parsed::Done(e, q)
        },
        Parsed::Failed(x, q) => Parsed::Failed(x, q),
        Parsed::Abort => Parsed::Abort,
    }
}

/// The statement `value` after the expression parsed by `inner` and a `;`.
pub open spec fn with_semicolon(
    ts: Seq<TokenView>,
    inner: Parsed<ExprView>,
    msg: Seq<char>,
    make: spec_fn(ExprView) -> StmtView,
) -> Parsed<StmtView> {
    match inner {
        Parsed::Done(e, r) => match consume_at(ts, r, TokenType::Semicolon, msg) {
            Parsed::Done(_, s) => Parsed::Done(make(e), s),
            Parsed::Failed(x, s) => Parsed::Failed(x, s),
            Parsed::Abort => Parsed::Abort,
        },
        Parsed::Failed(x, r) => Parsed::Failed(x, r),
        Parsed::Abort => Parsed::Abort,
    }
}

/// `printStmt := "print" expression ";"`.
pub open spec fn print_statement_at(ts: Seq<TokenView>, p: nat) -> Parsed<StmtView> {
    match advance_at(ts, p) {
        None => Parsed::Abort,
        Some((q, _)) => with_semicolon(
            ts,
            expression_at(ts, q),
            "Expect ';' after value."@,
            |e: ExprView| StmtView::Print(e),
        ),
    }
}

/// `exprStmt := expression ";"`.
pub open spec fn expression_statement_at(ts: Seq<TokenView>, p: nat) -> Parsed<StmtView> {
    with_semicolon(
        ts,
        expression_at(ts, p),
        "Expect ';' after expression."@,
        |e: ExprView| StmtView::Expr(e),
    )
}

/// `varDecl := IDENTIFIER "=" expression ";"`, read from the current token on.
pub open spec fn var_declaration_at(ts: Seq<TokenView>, p: nat) -> Parsed<StmtView> {
    match consume_at(ts, p, TokenType::Identifier, "Expect variable name."@) {
        Parsed::Done(name, q) => match consume_at(
            ts,
            q,
            TokenType::Equal,
            "Expect '=' after variable name."@,
        ) {
            Parsed::Done(_, r) => with_semicolon(
                ts,
                expression_at(ts, r),
                "Expect ';' after variable declaration."@,
                |e: ExprView| StmtView::Variable(name.lexeme, Some(e)),
            ),
            Parsed::Failed(x, r) => Parsed::Failed(x, r),
            Parsed::Abort => Parsed::Abort,
        },
        Parsed::Failed(x, q) => Parsed::Failed(x, q),
        Parsed::Abort => Parsed::Abort,
    }
}

/// Token types that begin a statement, where error recovery stops.
pub open spec fn statement_start(t: TokenType) -> bool {
    t == TokenType::Class || t == TokenType::Fun || t == TokenType::Var || t == TokenType::For
        || t == TokenType::If || t == TokenType::While || t == TokenType::Print || t
        == TokenType::Return
}

/// Skips tokens up to the end, a token after a `;`, or a token that begins a statement.
pub open spec fn sync_from(ts: Seq<TokenView>, p: nat) -> Option<nat>
    decreases ts.len() - p,
{
    if at_end_of(ts, p) {
        Some(p)
    } else if p == 0 {
        None
    } else if ts[p - 1].token_type == TokenType::Semicolon {
        Some(p)
    } else if statement_start(ts[p as int].token_type) {
        Some(p)
    } else {
        sync_from(ts, p + 1)
    }
}

/// Error recovery: moves past one token, then as `sync_from`.
pub open spec fn synchronize_at(ts: Seq<TokenView>, p: nat) -> Option<nat> {
    match advance_at(ts, p) {
        None => None,
        Some((q, _)) => sync_from(ts, q),
    }
}

/// `declaration := "var" varDecl`; anything else is reported after error recovery.
pub open spec fn declaration_at(ts: Seq<TokenView>, p: nat) -> Parsed<StmtView> {
    if p >= ts.len() {
        Parsed::Abort
    } else if ts[p as int].token_type == TokenType::Var {
        var_declaration_at(ts, p)
    } else {
        match synchronize_at(ts, p) {
            None => Parsed::Abort,
            Some(q) => if q < ts.len() {
                Parsed::Failed(
                    ParserErrorView::UnexpectedToken {
                        line: ts[q as int].line,
                        token: ts[q as int],
                        msg: "Expected 'var' keyword, found "@ + ts[q as int].lexeme,
                    },
                    q,
                )
            } else {
                Parsed::Abort
            },
        }
    }
}

/// The declarations of a block from `p` on, after the ones in `acc`, and its `}`.
pub open spec fn block_rest(ts: Seq<TokenView>, acc: Seq<StmtView>, p: nat) -> Parsed<
    Seq<StmtView>,
>
    decreases ts.len() - p,
{
    if !check_at(ts, p, TokenType::RightBrace) && !at_end_of(ts, p) {
        match declaration_at(ts, p) {
            Parsed::Done(s, q) => if p < q <= ts.len() {
                block_rest(ts, acc.push(s), q)
            } else {
                Parsed::Abort
            },
            Parsed::Failed(x, q) => Parsed::Failed(x, q),
            Parsed::Abort => Parsed::Abort,
        }
    } else {
        match consume_at(ts, p, TokenType::RightBrace, "Expect '}' after block."@) {
            Parsed::Done(_, q) => Parsed::Done(acc, q),
            Parsed::Failed(x, q) => Parsed::Failed(x, q),
            Parsed::Abort => Parsed::Abort,
        }
    }
}

/// `block := "{" declaration* "}"`.
pub open spec fn block_at(ts: Seq<TokenView>, p: nat) -> Parsed<Seq<StmtView>> {
    match advance_at(ts, p) {
        None => Parsed::Abort,
        Some((q, _)) => block_rest(ts, Seq::empty(), q),
    }
}

/// `statement := printStmt | block | exprStmt`, chosen by the current token.
pub open spec fn statement_at(ts: Seq<TokenView>, p: nat) -> Parsed<StmtView> {
    if p >= ts.len() {
        Parsed::Abort
    } else if ts[p as int].token_type == TokenType::Print {
        print_statement_at(ts, p)
    } else if ts[p as int].token_type == TokenType::LeftBrace {
        match block_at(ts, p) {
            Parsed::Done(b, q) => Parsed::Done(StmtView::Block(b), q),
            Parsed::Failed(x, q) => Parsed::Failed(x, q),
            Parsed::Abort => Parsed::Abort,
        }
    } else {
        expression_statement_at(ts, p)
    }
}

/// The statements from `p` to the end, after the ones in `acc`; the first
/// error stops parsing.
pub open spec fn program_from(ts: Seq<TokenView>, acc: Seq<StmtView>, p: nat) -> Parsed<
    Seq<StmtView>,
>
    decreases ts.len() - p,
{
    if at_end_of(ts, p) {
        Parsed::Done(acc, p)
    } else {
        match statement_at(ts, p) {
            Parsed::Done(s, q) => if p < q <= ts.len() {
                program_from(ts, acc.push(s), q)
            } else {
                Parsed::Abort
            },
            Parsed::Failed(x, q) => Parsed::Failed(x, q),
            Parsed::Abort => Parsed::Abort,
        }
    }
}

} // verus!

verus! {

/// How an executable rule's result and final position correspond to a rule's outcome.
pub open spec fn outcome<T: View>(spec: Parsed<T::V>, r: Option<Result<T, ParserError>>, pos: nat) -> bool {
    match spec {
        Parsed::Done(v, q) => r matches Some(Ok(x)) && x@ == v && pos == q,
        Parsed::Failed(e, q) => r matches Some(Err(x)) && x@ == e && pos == q,
        Parsed::Abort => r is None,
    }
}

/// As `outcome`, for a list of statements.
pub open spec fn list_outcome(
    spec: Parsed<Seq<StmtView>>,
    r: Option<Result<Vec<Statement>, ParserError>>,
    pos: nat,
) -> bool {
    match spec {
        Parsed::Done(v, q) => r matches Some(Ok(x)) && stmt_views(x@) == v && pos == q,
        Parsed::Failed(e, q) => r matches Some(Err(x)) && x@ == e && pos == q,
        Parsed::Abort => r is None,
    }
}

/// Recursive descent parser for the Lox language.
pub struct Parser {
    tokens: Vec<Token>,
    current: usize,
    errors: Vec<ParserError>,
}

impl Parser {
    /// The tokens being parsed.
    pub closed spec fn token_list(&self) -> Seq<TokenView> {
        token_views(self.tokens@)
    }

    /// The position of the current token.
    pub closed spec fn position(&self) -> nat {
        self.current as nat
    }

    /// The errors recorded so far.
    pub closed spec fn error_list(&self) -> Seq<ParserErrorView> {
        self.errors@.map_values(|e: ParserError| e@)
    }

    /// The position is within the tokens, and no error has been recorded:
    /// parsing reports an error only through its result.
    pub closed spec fn wf(&self) -> bool {
        &&& self.current <= self.tokens.len()
        &&& self.errors@.len() == 0
    }

    /// A parser at the first of `tokens` (of no tokens when there are none).
    pub fn new(tokens: Option<Vec<Token>>) -> (p: Self)
        ensures
            p.wf(),
            p.token_list() == (match tokens {
                Some(t) => token_views(t@),
                None => Seq::<TokenView>::empty(),
            }),
            p.position() == 0,
            p.error_list() == Seq::<ParserErrorView>::empty(),
    {
        let tokens = match tokens {
            Some(t) => t,
            None => Vec::new(),
        };
        let p = Parser { tokens, current: 0, errors: Vec::new() };
        assert(p.error_list() =~= Seq::<ParserErrorView>::empty());
        assert(tokens@.len() == 0 ==> p.token_list() =~= Seq::<TokenView>::empty());
        p
    }

    /// The errors recorded so far.
    pub fn get_errors(&self) -> (r: &Vec<ParserError>)
        ensures
            r@.map_values(|e: ParserError| e@) == self.error_list(),
            self.wf() ==> r@.len() == 0,
    {
        &self.errors
    }

    fn is_at_end(&self) -> (r: bool)
        requires
            self.wf(),
        ensures
            r == at_end_of(self.token_list(), self.position()),
    {
        self.current >= self.tokens.len() || self.peek().token_type() == TokenType::Eof
    }

    fn peek(&self) -> (r: &Token)
        requires
            self.current < self.tokens.len(),
        ensures
            r@ == self.token_list()[self.position() as int],
    {
        &self.tokens[self.current]
    }

    /// The token before the current one, if there is one.
    fn previous(&self) -> (r: Option<&Token>)
        requires
            self.wf(),
        ensures
            match r {
                Some(t) => 1 <= self.position() && t@ == self.token_list()[self.position() - 1],
                None => self.position() == 0,
            },
    {
        if self.current >= 1 {
            Some(&self.tokens[self.current - 1])
        } else {
            None
        }
    }

    /// Moves past the current token unless at the end, and returns the token
    /// before the new position; `None` when there is none.
    fn advance(&mut self) -> (r: Option<Token>)
        requires
            old(self).wf(),
        ensures
            final(self).wf(),
            final(self).token_list() == old(self).token_list(),
            final(self).error_list() == old(self).error_list(),
            old(self).position() <= final(self).position(),
            match advance_at(old(self).token_list(), old(self).position()) {
                Some((q, t)) => r matches Some(x) && x@ == t && final(self).position() == q,
                None => r is None,
            },
    {
        if !self.is_at_end() {
            self.current = self.current + 1;
        }
        match self.previous() {
            Some(t) => Some(t.duplicate()),
            None => None,
        }
    }

    /// Records an "unexpected token" error at the current token.
    fn error(&mut self, message: &str)
        requires
            old(self).wf(),
            old(self).position() < old(self).token_list().len(),
        ensures
            final(self).token_list() == old(self).token_list(),
            final(self).position() == old(self).position(),
            final(self).error_list() == old(self).error_list().push(
                ParserErrorView::UnexpectedToken {
                    line: old(self).token_list()[old(self).position() as int].line,
                    token: old(self).token_list()[old(self).position() as int],
                    msg: message@,
                },
            ),
    {
        let ghost prev = self.errors@;
        let e = ParserError::UnexpectedToken {
            line: self.peek().line(),
            token: self.peek().duplicate(),
            msg: message.to_owned(),
        };
        self.errors.push(e);
        assert(self.error_list() =~= prev.map_values(|e: ParserError| e@).push(e@));
    }

    fn check(&self, token_type: TokenType) -> (r: bool)
        requires
            self.wf(),
        ensures
            r == check_at(self.token_list(), self.position(), token_type),
    {
        if self.is_at_end() {
            false
        } else {
            self.peek().token_type() == token_type
        }
    }

    /// Moves past the current token if it has one of the given types.
    fn match_token(&mut self, types: &[TokenType]) -> (r: bool)
        requires
            old(self).wf(),
        ensures
            final(self).wf(),
            final(self).token_list() == old(self).token_list(),
            final(self).error_list() == old(self).error_list(),
            r == exists|i: int|
                0 <= i < types@.len() && check_at(
                    old(self).token_list(),
                    old(self).position(),
                    #[trigger] types@[i],
                ),
            final(self).position() == if r {
                old(self).position() + 1
            } else {
                old(self).position()
            },
    {
        let mut i: usize = 0;
        while i < types.len()
            invariant
                *self == *old(self),
                self.wf(),
                i <= types@.len(),
                forall|j: int|
                    0 <= j < i ==> !check_at(self.token_list(), self.position(), #[trigger] types@[j]),
            decreases types.len() - i,
        {
            if self.check(types[i]) {
                let _ = self.advance();
                return true;
            }
            i = i + 1;
        }
        false
    }

    /// The current token if it has type `token_type`, else an "unexpected token" error.
    fn consume(&mut self, token_type: TokenType, message: &str) -> (r: Option<Result<Token, ParserError>>)
        requires
            old(self).wf(),
        ensures
            final(self).wf(),
            final(self).token_list() == old(self).token_list(),
            final(self).error_list() == old(self).error_list(),
            old(self).position() <= final(self).position(),
            outcome(
                consume_at(old(self).token_list(), old(self).position(), token_type, message@),
                r,
                final(self).position(),
            ),
    {
        if self.check(token_type) {
            match self.advance() {
                Some(t) => Some(Ok(t)),
                None => None,
            }
        } else if self.current < self.tokens.len() {
            Some(
                Err(
                    ParserError::UnexpectedToken {
                        line: self.peek().line(),
                        token: self.peek().duplicate(),
                        msg: message.to_owned(),
                    },
                ),
            )
        } else {
            None
        }
    }
}

} // verus!

verus! {

impl Parser {
    fn primary(&mut self) -> (r: Option<Result<Expression, ParserError>>)
        requires
            old(self).wf(),
        ensures
            final(self).wf(),
            final(self).token_list() == old(self).token_list(),
            final(self).error_list() == old(self).error_list(),
            old(self).position() <= final(self).position(),
            outcome(primary_at(old(self).token_list(), old(self).position()), r, final(self).position()),
        decreases old(self).token_list().len() - old(self).position(), 1nat,
    {
        let start = self.current;
        let token = match self.advance() {
            Some(t) => t,
            None => {
                return None;
            },
        };
        match token.token_type() {
            TokenType::Number => {
                let text = chars_of(token.lexeme());
                if !is_float_text(text.as_slice()) {
                    return None;
                }
                Some(
                    Ok(Expression::Literal { value: LiteralValue::Number(token.lexeme().to_owned()) }),
                )
            },
            TokenType::String => Some(
                Ok(Expression::Literal { value: LiteralValue::String(token.lexeme().to_owned()) }),
            ),
            TokenType::False => Some(Ok(Expression::Literal { value: LiteralValue::Bool(false) })),
            TokenType::True => Some(Ok(Expression::Literal { value: LiteralValue::Bool(true) })),
            TokenType::Nil => Some(Ok(Expression::Literal { value: LiteralValue::Nil })),
            TokenType::LeftParen => {
                if self.current == start {
                    // No token was consumed: the rule would call itself forever.
                    return None;
                }
                let expr = match self.expression() {
                    Some(Ok(e)) => e,
                    Some(Err(e)) => {
                        return Some(Err(e));
                    },
                    None => {
                        return None;
                    },
                };
                match self.consume(TokenType::RightParen, "Expect ')' after expression.") {
                    None => {
                        return None;
                    },
                    Some(_) => {},
                }
                Some(Ok(Expression::Grouped(Box::new(expr))))
            },
            TokenType::Identifier => {
                let name = match self.previous() {
                    Some(t) => t.duplicate(),
                    None => {
                        return None;
                    },
                };
                Some(Ok(Expression::Variable(name.lexeme().to_owned())))
            },
            _ => Some(
                Err(
                    ParserError::ExpectedExpression {
                        line: token.line(),
                        token: token.duplicate(),
                        msg: "Expect expression.".to_owned(),
                    },
                ),
            ),
        }
    }

    fn unary(&mut self) -> (r: Option<Result<Expression, ParserError>>)
        requires
            old(self).wf(),
        ensures
            final(self).wf(),
            final(self).token_list() == old(self).token_list(),
            final(self).error_list() == old(self).error_list(),
            old(self).position() <= final(self).position(),
            outcome(unary_at(old(self).token_list(), old(self).position()), r, final(self).position()),
        decreases old(self).token_list().len() - old(self).position(), 2nat,
    {
        let ghost ts = self.token_list();
        let ghost p = self.position();
        let types = [TokenType::Minus, TokenType::Bang];
        assert(types@ == seq![TokenType::Minus, TokenType::Bang]);
        if self.match_token(&types) {
            assert(check_at(ts, p, TokenType::Minus) || check_at(ts, p, TokenType::Bang));
            let operator = match self.previous() {
                Some(t) => t.duplicate(),
                None => {
                    return None;
                },
            };
            let right = match self.unary() {
                Some(Ok(e)) => e,
                Some(Err(e)) => {
                    return Some(Err(e));
                },
                None => {
                    return None;
                },
            };
            Some(Ok(Expression::Unary { operator, right: Box::new(right) }))
        } else {
            assert(!check_at(ts, p, types@[0]));
            assert(!check_at(ts, p, types@[1]));
            self.primary()
        }
    }
}

} // verus!

verus! {

impl Parser {
    #[verifier::rlimit(40)]
    fn factor(&mut self) -> (r: Option<Result<Expression, ParserError>>)
        requires
            old(self).wf(),
        ensures
            final(self).wf(),
            final(self).token_list() == old(self).token_list(),
            final(self).error_list() == old(self).error_list(),
            old(self).position() <= final(self).position(),
            outcome(factor_at(old(self).token_list(), old(self).position()), r, final(self).position()),
        decreases old(self).token_list().len() - old(self).position(), 4nat,
    {
        let ghost ts = self.token_list();
        let ghost p0 = self.position();
        let mut expr = match self.unary() {
            Some(Ok(e)) => e,
            Some(Err(e)) => {
                return Some(Err(e));
            },
            None => {
                return None;
            },
        };
        let types = [TokenType::Slash, TokenType::Star];
        assert(types@ == seq![TokenType::Slash, TokenType::Star]);
        loop
            invariant
                self.wf(),
                self.token_list() == ts,
                ts == old(self).token_list(),
                p0 == old(self).position(),
                self.error_list() == old(self).error_list(),
                p0 <= self.position(),
                types@ == seq![TokenType::Slash, TokenType::Star],
                factor_at(ts, p0) == factor_rest(ts, expr@, self.position()),
            ensures
                self.wf(),
                self.token_list() == ts,
                self.error_list() == old(self).error_list(),
                p0 <= self.position(),
                factor_at(ts, p0) == Parsed::Done(expr@, self.position()),
            decreases ts.len() - self.position(),
        {
            let ghost q = self.position();
            let ghost left = expr@;
            if !self.match_token(&types) {
                assert(!check_at(ts, q, types@[0]));
                assert(!check_at(ts, q, types@[1]));
                break;
            }
            assert(check_at(ts, q, TokenType::Slash) || check_at(ts, q, TokenType::Star));
            let operator = match self.previous() {
                Some(t) => t.duplicate(),
                None => {
                    return None;
                },
            };
            let right = match self.unary() {
                Some(Ok(e)) => e,
                Some(Err(e)) => {
                    return Some(Err(e));
                },
                None => {
                    return None;
                },
            };
            let ghost op = operator@;
            let ghost rv = right@;
            expr = Expression::Binary { left: Box::new(expr), operator, right: Box::new(right) };
            assert(expr@ == binary(left, op, rv));
        }
        Some(Ok(expr))
    }

    fn term(&mut self) -> (r: Option<Result<Expression, ParserError>>)
        requires
            old(self).wf(),
        ensures
            final(self).wf(),
            final(self).token_list() == old(self).token_list(),
            final(self).error_list() == old(self).error_list(),
            old(self).position() <= final(self).position(),
            outcome(term_at(old(self).token_list(), old(self).position()), r, final(self).position()),
        decreases old(self).token_list().len() - old(self).position(), 6nat,
    {
        let ghost ts = self.token_list();
        let ghost p0 = self.position();
        let mut expr = match self.factor() {
            Some(Ok(e)) => e,
            Some(Err(e)) => {
                return Some(Err(e));
            },
            None => {
                return None;
            },
        };
        let types = [TokenType::Minus, TokenType::Plus];
        assert(types@ == seq![TokenType::Minus, TokenType::Plus]);
        loop
            invariant
                self.wf(),
                self.token_list() == ts,
                ts == old(self).token_list(),
                p0 == old(self).position(),
                self.error_list() == old(self).error_list(),
                p0 <= self.position(),
                types@ == seq![TokenType::Minus, TokenType::Plus],
                term_at(ts, p0) == term_rest(ts, expr@, self.position()),
            ensures
                self.wf(),
                self.token_list() == ts,
                self.error_list() == old(self).error_list(),
                p0 <= self.position(),
                term_at(ts, p0) == Parsed::Done(expr@, self.position()),
            decreases ts.len() - self.position(),
        {
            let ghost q = self.position();
            let ghost left = expr@;
            if !self.match_token(&types) {
                assert(!check_at(ts, q, types@[0]));
                assert(!check_at(ts, q, types@[1]));
                break;
            }
            assert(check_at(ts, q, TokenType::Minus) || check_at(ts, q, TokenType::Plus));
            let operator = match self.previous() {
                Some(t) => t.duplicate(),
                None => {
                    return None;
                },
            };
            let right = match self.factor() {
                Some(Ok(e)) => e,
                Some(Err(e)) => {
                    return Some(Err(e));
                },
                None => {
                    return None;
                },
            };
            let ghost op = operator@;
            let ghost rv = right@;
            expr = Expression::Binary { left: Box::new(expr), operator, right: Box::new(right) };
            assert(expr@ == binary(left, op, rv));
        }
        Some(Ok(expr))
    }

    fn comparison(&mut self) -> (r: Option<Result<Expression, ParserError>>)
        requires
            old(self).wf(),
        ensures
            final(self).wf(),
            final(self).token_list() == old(self).token_list(),
            final(self).error_list() == old(self).error_list(),
            old(self).position() <= final(self).position(),
            outcome(comparison_at(old(self).token_list(), old(self).position()), r, final(self).position()),
        decreases old(self).token_list().len() - old(self).position(), 8nat,
    {
        let ghost ts = self.token_list();
        let ghost p0 = self.position();
        let mut expr = match self.term() {
            Some(Ok(e)) => e,
            Some(Err(e)) => {
                return Some(Err(e));
            },
            None => {
                return None;
            },
        };
        let types = [TokenType::Greater, TokenType::GreaterEqual, TokenType::Less, TokenType::LessEqual];
        assert(types@ == seq![TokenType::Greater, TokenType::GreaterEqual, TokenType::Less, TokenType::LessEqual]);
        loop
            invariant
                self.wf(),
                self.token_list() == ts,
                ts == old(self).token_list(),
                p0 == old(self).position(),
                self.error_list() == old(self).error_list(),
                p0 <= self.position(),
                types@ == seq![TokenType::Greater, TokenType::GreaterEqual, TokenType::Less, TokenType::LessEqual],
                comparison_at(ts, p0) == comparison_rest(ts, expr@, self.position()),
            ensures
                self.wf(),
                self.token_list() == ts,
                self.error_list() == old(self).error_list(),
                p0 <= self.position(),
                comparison_at(ts, p0) == Parsed::Done(expr@, self.position()),
            decreases ts.len() - self.position(),
        {
            let ghost q = self.position();
            let ghost left = expr@;
            if !self.match_token(&types) {
                assert(!check_at(ts, q, types@[0]));
                assert(!check_at(ts, q, types@[1]));
                assert(!check_at(ts, q, types@[2]));
                assert(!check_at(ts, q, types@[3]));
                break;
            }
            assert(check_at(ts, q, TokenType::Greater) || check_at(ts, q, TokenType::GreaterEqual) || check_at(ts, q, TokenType::Less) || check_at(ts, q, TokenType::LessEqual));
            let operator = match self.previous() {
                Some(t) => t.duplicate(),
                None => {
                    return None;
                },
            };
            let right = match self.term() {
                Some(Ok(e)) => e,
                Some(Err(e)) => {
                    return Some(Err(e));
                },
                None => {
                    return None;
                },
            };
            let ghost op = operator@;
            let ghost rv = right@;
            expr = Expression::Binary { left: Box::new(expr), operator, right: Box::new(right) };
            assert(expr@ == binary(left, op, rv));
        }
        Some(Ok(expr))
    }

    fn equality(&mut self) -> (r: Option<Result<Expression, ParserError>>)
        requires
            old(self).wf(),
        ensures
            final(self).wf(),
            final(self).token_list() == old(self).token_list(),
            final(self).error_list() == old(self).error_list(),
            old(self).position() <= final(self).position(),
            outcome(equality_at(old(self).token_list(), old(self).position()), r, final(self).position()),
        decreases old(self).token_list().len() - old(self).position(), 10nat,
    {
        let ghost ts = self.token_list();
        let ghost p0 = self.position();
        let mut expr = match self.comparison() {
            Some(Ok(e)) => e,
            Some(Err(e)) => {
                return Some(Err(e));
            },
            None => {
                return None;
            },
        };
        let types = [TokenType::BangEqual, TokenType::EqualEqual];
        assert(types@ == seq![TokenType::BangEqual, TokenType::EqualEqual]);
        loop
            invariant
                self.wf(),
                self.token_list() == ts,
                ts == old(self).token_list(),
                p0 == old(self).position(),
                self.error_list() == old(self).error_list(),
                p0 <= self.position(),
                types@ == seq![TokenType::BangEqual, TokenType::EqualEqual],
                equality_at(ts, p0) == equality_rest(ts, expr@, self.position()),
            ensures
                self.wf(),
                self.token_list() == ts,
                self.error_list() == old(self).error_list(),
                p0 <= self.position(),
                equality_at(ts, p0) == Parsed::Done(expr@, self.position()),
            decreases ts.len() - self.position(),
        {
            let ghost q = self.position();
            let ghost left = expr@;
            if !self.match_token(&types) {
                assert(!check_at(ts, q, types@[0]));
                assert(!check_at(ts, q, types@[1]));
                break;
            }
            assert(check_at(ts, q, TokenType::BangEqual) || check_at(ts, q, TokenType::EqualEqual));
            let operator = match self.previous() {
                Some(t) => t.duplicate(),
                None => {
                    return None;
                },
            };
            let right = match self.comparison() {
                Some(Ok(e)) => e,
                Some(Err(e)) => {
                    return Some(Err(e));
                },
                None => {
                    return None;
                },
            };
            let ghost op = operator@;
            let ghost rv = right@;
            expr = Expression::Binary { left: Box::new(expr), operator, right: Box::new(right) };
            assert(expr@ == binary(left, op, rv));
        }
        Some(Ok(expr))
    }

    fn expression(&mut self) -> (r: Option<Result<Expression, ParserError>>)
        requires
            old(self).wf(),
        ensures
            final(self).wf(),
            final(self).token_list() == old(self).token_list(),
            final(self).error_list() == old(self).error_list(),
            old(self).position() <= final(self).position(),
            outcome(expression_at(old(self).token_list(), old(self).position()), r, final(self).position()),
        decreases old(self).token_list().len() - old(self).position(), 11nat,
    {
        let expr = self.equality()?;
        Some(expr)
    }
}

} // verus!

verus! {

/// The common postcondition of the statement rules.
pub open spec fn rule_post<T: View>(
    before: Parser,
    after: Parser,
    spec: Parsed<T::V>,
    r: Option<Result<T, ParserError>>,
) -> bool {
    &&& after.wf()
    &&& after.token_list() == before.token_list()
    &&& after.error_list() == before.error_list()
    &&& before.position() <= after.position()
    &&& outcome(spec, r, after.position())
}

impl Parser {
    #[verifier::rlimit(40)]
    fn assignment(&mut self) -> (r: Option<Result<Expression, ParserError>>)
        requires
            old(self).wf(),
        ensures
            rule_post(*old(self), *final(self), assignment_at(old(self).token_list(), old(self).position()), r),
        decreases old(self).token_list().len() - old(self).position(),
    {
        let ghost ts = self.token_list();
        let expr = match self.equality() {
            Some(Ok(e)) => e,
            Some(Err(e)) => {
                return Some(Err(e));
            },
            None => {
                return None;
            },
        };
        let types = [TokenType::Equal];
        assert(types@ == seq![TokenType::Equal]);
        let ghost q = self.position();
        if self.match_token(&types) {
            assert(check_at(ts, q, TokenType::Equal));
            let equals = match self.previous() {
                Some(t) => t.duplicate(),
                None => {
                    return None;
                },
            };
            let value = match self.assignment() {
                Some(Ok(v)) => v,
                Some(Err(e)) => {
                    return Some(Err(e));
                },
                None => {
                    return None;
                },
            };
            match expr {
                Expression::Variable(name) => Some(
                    Ok(Expression::Assign { name, value: Box::new(value) }),
                ),
                _ => Some(
                    Err(
                        ParserError::InvalidAssignmentTarget {
                            line: equals.line(),
                            token: equals,
                            msg: "Invalid assignment target.".to_owned(),
                        },
                    ),
                ),
            }
        } else {
            assert(!check_at(ts, q, types@[0]));
            Some(Ok(expr))
        }
    }

    fn print_statement(&mut self) -> (r: Option<Result<Statement, ParserError>>)
        requires
            old(self).wf(),
        ensures
            rule_post(*old(self), *final(self), print_statement_at(old(self).token_list(), old(self).position()), r),
    {
        if self.advance().is_none() {
            return None;
        }
        let value = match self.expression() {
            Some(Ok(e)) => e,
            Some(Err(e)) => {
                return Some(Err(e));
            },
            None => {
                return None;
            },
        };
        match self.consume(TokenType::Semicolon, "Expect ';' after value.") {
            Some(Ok(_)) => {},
            Some(Err(e)) => {
                return Some(Err(e));
            },
            None => {
                return None;
            },
        }
        Some(Ok(Statement::Print(value)))
    }

    fn expression_statement(&mut self) -> (r: Option<Result<Statement, ParserError>>)
        requires
            old(self).wf(),
        ensures
            rule_post(*old(self), *final(self), expression_statement_at(old(self).token_list(), old(self).position()), r),
    {
        let expr = match self.expression() {
            Some(Ok(e)) => e,
            Some(Err(e)) => {
                return Some(Err(e));
            },
            None => {
                return None;
            },
        };
        match self.consume(TokenType::Semicolon, "Expect ';' after expression.") {
            Some(Ok(_)) => {},
            Some(Err(e)) => {
                return Some(Err(e));
            },
            None => {
                return None;
            },
        }
        Some(Ok(Statement::Expr(expr)))
    }

    fn var_declaration(&mut self) -> (r: Option<Result<Statement, ParserError>>)
        requires
            old(self).wf(),
        ensures
            rule_post(*old(self), *final(self), var_declaration_at(old(self).token_list(), old(self).position()), r),
    {
        let name = match self.consume(TokenType::Identifier, "Expect variable name.") {
            Some(Ok(t)) => t,
            Some(Err(e)) => {
                return Some(Err(e));
            },
            None => {
                return None;
            },
        };
        let name_string = name.lexeme().to_owned();
        match self.consume(TokenType::Equal, "Expect '=' after variable name.") {
            Some(Ok(_)) => {},
            Some(Err(e)) => {
                return Some(Err(e));
            },
            None => {
                return None;
            },
        }
        let initializer = match self.expression() {
            Some(Ok(e)) => e,
            Some(Err(e)) => {
                return Some(Err(e));
            },
            None => {
                return None;
            },
        };
        match self.consume(TokenType::Semicolon, "Expect ';' after variable declaration.") {
            Some(Ok(_)) => {},
            Some(Err(e)) => {
                return Some(Err(e));
            },
            None => {
                return None;
            },
        }
        Some(Ok(Statement::Variable { name: name_string, initializer: Some(initializer) }))
    }

    /// Error recovery; `false` where it is undefined.
    fn synchronize(&mut self) -> (r: bool)
        requires
            old(self).wf(),
        ensures
            final(self).wf(),
            final(self).token_list() == old(self).token_list(),
            final(self).error_list() == old(self).error_list(),
            old(self).position() <= final(self).position(),
            match synchronize_at(old(self).token_list(), old(self).position()) {
                Some(q) => r && final(self).position() == q,
                None => !r,
            },
    {
        let ghost ts = self.token_list();
        if self.advance().is_none() {
            return false;
        }
        let ghost q0 = self.position();
        while !self.is_at_end()
            invariant
                self.wf(),
                self.token_list() == ts,
                ts == old(self).token_list(),
                self.error_list() == old(self).error_list(),
                old(self).position() <= self.position(),
                synchronize_at(ts, old(self).position()) == sync_from(ts, self.position()),
            decreases ts.len() - self.position(),
        {
            match self.previous() {
                None => {
                    return false;
                },
                Some(t) => {
                    if t.token_type() == TokenType::Semicolon {
                        return true;
                    }
                },
            }
            match self.peek().token_type() {
                TokenType::Class
                | TokenType::Fun
                | TokenType::Var
                | TokenType::For
                | TokenType::If
                | TokenType::While
                | TokenType::Print
                | TokenType::Return => {
                    return true;
                },
                _ => {
                    let _ = self.advance();
                },
            }
        }
        true
    }

    fn declaration(&mut self) -> (r: Option<Result<Statement, ParserError>>)
        requires
            old(self).wf(),
        ensures
            rule_post(*old(self), *final(self), declaration_at(old(self).token_list(), old(self).position()), r),
    {
        if self.current >= self.tokens.len() {
            return None;
        }
        match self.peek().token_type() {
            TokenType::Var => self.var_declaration(),
            _ => {
                if !self.synchronize() {
                    return None;
                }
                if self.current >= self.tokens.len() {
                    return None;
                }
                let msg = concat("Expected 'var' keyword, found ".to_owned(), self.peek().lexeme());
                Some(
                    Err(
                        ParserError::UnexpectedToken {
                            line: self.peek().line(),
                            token: self.peek().duplicate(),
                            msg,
                        },
                    ),
                )
            },
        }
    }

    fn block(&mut self) -> (r: Option<Result<Vec<Statement>, ParserError>>)
        requires
            old(self).wf(),
        ensures
            final(self).wf(),
            final(self).token_list() == old(self).token_list(),
            final(self).error_list() == old(self).error_list(),
            old(self).position() <= final(self).position(),
            list_outcome(block_at(old(self).token_list(), old(self).position()), r, final(self).position()),
    {
        let ghost ts = self.token_list();
        let mut statements: Vec<Statement> = Vec::new();
        if self.advance().is_none() {
            return None;
        }
        assert(stmt_views(statements@) =~= Seq::<StmtView>::empty());
        while !self.check(TokenType::RightBrace) && !self.is_at_end()
            invariant
                self.wf(),
                self.token_list() == ts,
                ts == old(self).token_list(),
                self.error_list() == old(self).error_list(),
                old(self).position() <= self.position(),
                block_at(ts, old(self).position()) == block_rest(
                    ts,
                    stmt_views(statements@),
                    self.position(),
                ),
            decreases ts.len() - self.position(),
        {
            let p = self.current;
            let s = match self.declaration() {
                Some(Ok(s)) => s,
                Some(Err(e)) => {
                    return Some(Err(e));
                },
                None => {
                    return None;
                },
            };
            if self.current <= p {
                return None;
            }
            let ghost prev = statements@;
            statements.push(s);
            assert(stmt_views(statements@) =~= stmt_views(prev).push(s@));
        }
        match self.consume(TokenType::RightBrace, "Expect '}' after block.") {
            Some(Ok(_)) => {},
            Some(Err(e)) => {
                return Some(Err(e));
            },
            None => {
                return None;
            },
        }
        Some(Ok(statements))
    }

    fn statement(&mut self) -> (r: Option<Result<Statement, ParserError>>)
        requires
            old(self).wf(),
        ensures
            rule_post(*old(self), *final(self), statement_at(old(self).token_list(), old(self).position()), r),
    {
        if self.current >= self.tokens.len() {
            return None;
        }
        match self.peek().token_type() {
            TokenType::Print => self.print_statement(),
            TokenType::LeftBrace => match self.block() {
                Some(Ok(b)) => {
                    proof {
                        crate::ast::lemma_block_view(b);
                    }
                    let s = Statement::Block(b);
                    Some(Ok(s))
                },
                Some(Err(e)) => Some(Err(e)),
                None => None,
            },
            _ => self.expression_statement(),
        }
    }

    /// Parses statements up to the end of the tokens; `None` where parsing is
    /// undefined (see `Parsed::Abort`).
    pub fn try_parse(&mut self) -> (r: Option<Result<Vec<Statement>, ParserError>>)
        requires
            old(self).wf(),
        ensures
            final(self).wf(),
            final(self).token_list() == old(self).token_list(),
            final(self).error_list() == old(self).error_list(),
            list_outcome(
                program_from(old(self).token_list(), Seq::empty(), old(self).position()),
                r,
                final(self).position(),
            ),
    {
        let ghost ts = self.token_list();
        let mut statements: Vec<Statement> = Vec::new();
        assert(stmt_views(statements@) =~= Seq::<StmtView>::empty());
        while !self.is_at_end()
            invariant
                self.wf(),
                self.token_list() == ts,
                ts == old(self).token_list(),
                self.error_list() == old(self).error_list(),
                program_from(ts, Seq::empty(), old(self).position()) == program_from(
                    ts,
                    stmt_views(statements@),
                    self.position(),
                ),
            decreases ts.len() - self.position(),
        {
            let p = self.current;
            let s = match self.statement() {
                Some(Ok(s)) => s,
                Some(Err(e)) => {
                    return Some(Err(e));
                },
                None => {
                    return None;
                },
            };
            if self.current <= p {
                return None;
            }
            let ghost prev = statements@;
            statements.push(s);
            assert(stmt_views(statements@) =~= stmt_views(prev).push(s@));
        }
        Some(Ok(statements))
    }

    /// Parses statements up to the end of the tokens, or reports the first error.
    pub fn parse(&mut self) -> (r: Result<Vec<Statement>, ParserError>)
        requires
            old(self).wf(),
            !(program_from(old(self).token_list(), Seq::empty(), old(self).position()) is Abort),
        ensures
            final(self).wf(),
            final(self).token_list() == old(self).token_list(),
            final(self).error_list() == old(self).error_list(),
            list_outcome(
                program_from(old(self).token_list(), Seq::empty(), old(self).position()),
                Some(r),
                final(self).position(),
            ),
    {
        match self.try_parse() {
            Some(r) => r,
            None => Ok(Vec::new()),
        }
    }
}

} // verus!

verus! {

/// A successful parse reads up to the end of the tokens, and keeps the
/// statements parsed before it in front of the ones it adds.
pub proof fn law_parse_reaches_end(ts: Seq<TokenView>, acc: Seq<StmtView>, p: nat)
    ensures
        program_from(ts, acc, p) matches Parsed::Done(v, q) ==> {
            &&& at_end_of(ts, q)
            &&& acc.len() <= v.len()
            &&& v.subrange(0, acc.len() as int) == acc
        },
    decreases ts.len() - p,
{
    if !at_end_of(ts, p) {
        match statement_at(ts, p) {
            Parsed::Done(s, q) => {
                if p < q <= ts.len() {
                    law_parse_reaches_end(ts, acc.push(s), q);
                    match program_from(ts, acc.push(s), q) {
                        Parsed::Done(v, _) => {
                            assert(v.subrange(0, acc.len() as int) =~= acc.push(s).subrange(
                                0,
                                acc.len() as int,
                            ));
                        },
                        _ => {},
                    }
                }
            },
            _ => {},
        }
    } else {
        assert(acc.subrange(0, acc.len() as int) =~= acc);
    }
}


/// The line and token that an error names, for the kinds of error that name one.
pub open spec fn error_token(e: ParserErrorView) -> Option<(nat, TokenView)> {
    match e {
        ParserErrorView::ExpectedExpression { line, token, .. } => Some((line, token)),
        ParserErrorView::InvalidOperand { line, token, .. } => Some((line, token)),
        ParserErrorView::UnexpectedToken { line, token, .. } => Some((line, token)),
        ParserErrorView::InvalidAssignmentTarget { line, token, .. } => Some((line, token)),
        _ => None,
    }
}

/// The error names a token of `ts` and gives that token's line.
pub open spec fn names_input_token(ts: Seq<TokenView>, e: ParserErrorView) -> bool {
    match error_token(e) {
        Some((line, token)) => ts.contains(token) && line == token.line,
        None => false,
    }
}

/// An outcome that is an error names a token of `ts`.
pub open spec fn failure_names_input<T>(ts: Seq<TokenView>, r: Parsed<T>) -> bool {
    r matches Parsed::Failed(e, _) ==> names_input_token(ts, e)
}

proof fn lemma_token_in(ts: Seq<TokenView>, k: int)
    requires
        0 <= k < ts.len(),
    ensures
        ts.contains(ts[k]),
{
}

proof fn lemma_consume_names(ts: Seq<TokenView>, p: nat, t: TokenType, msg: Seq<char>)
    ensures
        failure_names_input(ts, consume_at(ts, p, t, msg)),
{
    if !check_at(ts, p, t) && p < ts.len() {
        lemma_token_in(ts, p as int);
    }
}

proof fn lemma_primary_names(ts: Seq<TokenView>, p: nat)
    ensures
        failure_names_input(ts, primary_at(ts, p)),
    decreases ts.len() - p, 1nat,
{
    match advance_at(ts, p) {
        None => {},
        Some((q, tok)) => {
            if tok.token_type == TokenType::LeftParen {
                if p < q {
                    lemma_expression_names(ts, q);
                }
            } else {
                lemma_token_in(ts, q - 1);
            }
        },
    }
}

proof fn lemma_unary_names(ts: Seq<TokenView>, p: nat)
    ensures
        failure_names_input(ts, unary_at(ts, p)),
    decreases ts.len() - p, 2nat,
{
    if check_at(ts, p, TokenType::Minus) || check_at(ts, p, TokenType::Bang) {
        lemma_unary_names(ts, p + 1);
    } else {
        lemma_primary_names(ts, p);
    }
}

proof fn lemma_factor_rest_names(ts: Seq<TokenView>, left: ExprView, p: nat)
    ensures
        failure_names_input(ts, factor_rest(ts, left, p)),
    decreases ts.len() - p, 3nat,
{
    if check_at(ts, p, TokenType::Slash) || check_at(ts, p, TokenType::Star) {
        lemma_unary_names(ts, p + 1);
        match unary_at(ts, p + 1) {
            Parsed::Done(r, q) => if p < q <= ts.len() {
                lemma_factor_rest_names(ts, binary(left, ts[p as int], r), q);
            },
            _ => {},
        }
    }
}

proof fn lemma_factor_names(ts: Seq<TokenView>, p: nat)
    ensures
        failure_names_input(ts, factor_at(ts, p)),
    decreases ts.len() - p, 4nat,
{
    lemma_unary_names(ts, p);
    match unary_at(ts, p) {
        Parsed::Done(e, q) => if p <= q <= ts.len() {
            lemma_factor_rest_names(ts, e, q);
        },
        _ => {},
    }
}

proof fn lemma_term_rest_names(ts: Seq<TokenView>, left: ExprView, p: nat)
    ensures
        failure_names_input(ts, term_rest(ts, left, p)),
    decreases ts.len() - p, 5nat,
{
    if check_at(ts, p, TokenType::Minus) || check_at(ts, p, TokenType::Plus) {
        lemma_factor_names(ts, p + 1);
        match factor_at(ts, p + 1) {
            Parsed::Done(r, q) => if p < q <= ts.len() {
                lemma_term_rest_names(ts, binary(left, ts[p as int], r), q);
            },
            _ => {},
        }
    }
}

proof fn lemma_term_names(ts: Seq<TokenView>, p: nat)
    ensures
        failure_names_input(ts, term_at(ts, p)),
    decreases ts.len() - p, 6nat,
{
    lemma_factor_names(ts, p);
    match factor_at(ts, p) {
        Parsed::Done(e, q) => if p <= q <= ts.len() {
            lemma_term_rest_names(ts, e, q);
        },
        _ => {},
    }
}

proof fn lemma_comparison_rest_names(ts: Seq<TokenView>, left: ExprView, p: nat)
    ensures
        failure_names_input(ts, comparison_rest(ts, left, p)),
    decreases ts.len() - p, 7nat,
{
    if comparison_operator(ts, p) {
        lemma_term_names(ts, p + 1);
        match term_at(ts, p + 1) {
            Parsed::Done(r, q) => if p < q <= ts.len() {
                lemma_comparison_rest_names(ts, binary(left, ts[p as int], r), q);
            },
            _ => {},
        }
    }
}

proof fn lemma_comparison_names(ts: Seq<TokenView>, p: nat)
    ensures
        failure_names_input(ts, comparison_at(ts, p)),
    decreases ts.len() - p, 8nat,
{
    lemma_term_names(ts, p);
    match term_at(ts, p) {
        Parsed::Done(e, q) => if p <= q <= ts.len() {
            lemma_comparison_rest_names(ts, e, q);
        },
        _ => {},
    }
}

proof fn lemma_equality_rest_names(ts: Seq<TokenView>, left: ExprView, p: nat)
    ensures
        failure_names_input(ts, equality_rest(ts, left, p)),
    decreases ts.len() - p, 9nat,
{
    if check_at(ts, p, TokenType::BangEqual) || check_at(ts, p, TokenType::EqualEqual) {
        lemma_comparison_names(ts, p + 1);
        match comparison_at(ts, p + 1) {
            Parsed::Done(r, q) => if p < q <= ts.len() {
                lemma_equality_rest_names(ts, binary(left, ts[p as int], r), q);
            },
            _ => {},
        }
    }
}

proof fn lemma_equality_names(ts: Seq<TokenView>, p: nat)
    ensures
        failure_names_input(ts, equality_at(ts, p)),
    decreases ts.len() - p, 10nat,
{
    lemma_comparison_names(ts, p);
    match comparison_at(ts, p) {
        Parsed::Done(e, q) => if p <= q <= ts.len() {
            lemma_equality_rest_names(ts, e, q);
        },
        _ => {},
    }
}

proof fn lemma_expression_names(ts: Seq<TokenView>, p: nat)
    ensures
        failure_names_input(ts, expression_at(ts, p)),
    decreases ts.len() - p, 11nat,
{
    lemma_equality_names(ts, p);
}

proof fn lemma_assignment_names(ts: Seq<TokenView>, p: nat)
    ensures
        failure_names_input(ts, assignment_at(ts, p)),
    decreases ts.len() - p,
{
    lemma_equality_names(ts, p);
    match equality_at(ts, p) {
        Parsed::Done(e, q) => if check_at(ts, q, TokenType::Equal) && p <= q {
            lemma_token_in(ts, q as int);
            lemma_assignment_names(ts, q + 1);
        },
        _ => {},
    }
}

proof fn lemma_with_semicolon_names(
    ts: Seq<TokenView>,
    inner: Parsed<ExprView>,
    msg: Seq<char>,
    make: spec_fn(ExprView) -> StmtView,
)
    requires
        failure_names_input(ts, inner),
    ensures
        failure_names_input(ts, with_semicolon(ts, inner, msg, make)),
{
    if let Parsed::Done(_, r) = inner {
        lemma_consume_names(ts, r, TokenType::Semicolon, msg);
    }
}

proof fn lemma_declaration_names(ts: Seq<TokenView>, p: nat)
    ensures
        failure_names_input(ts, declaration_at(ts, p)),
{
    if p < ts.len() {
        if ts[p as int].token_type == TokenType::Var {
            lemma_consume_names(ts, p, TokenType::Identifier, "Expect variable name."@);
            if let Parsed::Done(_, q) = consume_at(
                ts,
                p,
                TokenType::Identifier,
                "Expect variable name."@,
            ) {
                lemma_consume_names(ts, q, TokenType::Equal, "Expect '=' after variable name."@);
                if let Parsed::Done(_, r) = consume_at(
                    ts,
                    q,
                    TokenType::Equal,
                    "Expect '=' after variable name."@,
                ) {
                    lemma_expression_names(ts, r);
                    let name = ts[p as int].lexeme;
                    lemma_with_semicolon_names(
                        ts,
                        expression_at(ts, r),
                        "Expect ';' after variable declaration."@,
                        |e: ExprView| StmtView::Variable(name, Some(e)),
                    );
                }
            }
        } else if let Some(q) = synchronize_at(ts, p) {
            if q < ts.len() {
                lemma_token_in(ts, q as int);
            }
        }
    }
}

proof fn lemma_block_rest_names(ts: Seq<TokenView>, acc: Seq<StmtView>, p: nat)
    ensures
        failure_names_input(ts, block_rest(ts, acc, p)),
    decreases ts.len() - p,
{
    if !check_at(ts, p, TokenType::RightBrace) && !at_end_of(ts, p) {
        lemma_declaration_names(ts, p);
        if let Parsed::Done(s, q) = declaration_at(ts, p) {
            if p < q <= ts.len() {
                lemma_block_rest_names(ts, acc.push(s), q);
            }
        }
    } else {
        lemma_consume_names(ts, p, TokenType::RightBrace, "Expect '}' after block."@);
    }
}

proof fn lemma_statement_names(ts: Seq<TokenView>, p: nat)
    ensures
        failure_names_input(ts, statement_at(ts, p)),
{
    if p < ts.len() {
        if ts[p as int].token_type == TokenType::Print {
            if let Some((q, _)) = advance_at(ts, p) {
                lemma_expression_names(ts, q);
                lemma_with_semicolon_names(
                    ts,
                    expression_at(ts, q),
                    "Expect ';' after value."@,
                    |e: ExprView| StmtView::Print(e),
                );
            }
        } else if ts[p as int].token_type == TokenType::LeftBrace {
            if let Some((q, _)) = advance_at(ts, p) {
                lemma_block_rest_names(ts, Seq::empty(), q);
            }
        } else {
            lemma_expression_names(ts, p);
            lemma_with_semicolon_names(
                ts,
                expression_at(ts, p),
                "Expect ';' after expression."@,
                |e: ExprView| StmtView::Expr(e),
            );
        }
    }
}

/// Every error that parsing reports names one of the tokens it was given,
/// and carries that token's line.
pub proof fn law_parse_errors_name_input_tokens(ts: Seq<TokenView>, acc: Seq<StmtView>, p: nat)
    ensures
        program_from(ts, acc, p) matches Parsed::Failed(e, _) ==> names_input_token(ts, e),
    decreases ts.len() - p,
{
    if !at_end_of(ts, p) {
        lemma_statement_names(ts, p);
        if let Parsed::Done(s, q) = statement_at(ts, p) {
            if p < q <= ts.len() {
                law_parse_errors_name_input_tokens(ts, acc.push(s), q);
            }
        }
    }
}


/// A well-formed parser has recorded no error; as `new` gives a well-formed
/// parser and `parse` and `try_parse` keep it so, no run of them, however
/// many, records one.
pub proof fn law_parser_records_no_errors(p: Parser)
    requires
        p.wf(),
    ensures
        p.error_list().len() == 0,
{
}

/// Tokens as the scanner ends them: the last is an end-of-file token.
pub open spec fn eof_ended(ts: Seq<TokenView>) -> bool {
    ts.len() >= 1 && ts[ts.len() - 1].token_type == TokenType::Eof
}

/// A token that is a number has text that `f64` parsing accepts.
pub open spec fn number_text_ok(t: TokenView) -> bool {
    t.token_type == TokenType::Number ==> float_text(t.lexeme)
}

/// Every number token's text is one that `f64` parsing accepts.
pub open spec fn numbers_parse(ts: Seq<TokenView>) -> bool {
    forall|i: int| 0 <= i < ts.len() ==> #[trigger] number_text_ok(ts[i])
}

/// A `(` directly followed by an end-of-file token.
pub open spec fn paren_at_end(ts: Seq<TokenView>) -> bool {
    exists|k: int|
        0 <= k && k + 1 < ts.len() && (#[trigger] ts[k]).token_type == TokenType::LeftParen
            && ts[k + 1].token_type == TokenType::Eof
}

/// An outcome from `p` on such tokens: a result ends at a later token before
/// the end, past the first; an undefined outcome comes from a `(` at the end.
pub open spec fn defined_from<T>(ts: Seq<TokenView>, p: nat, r: Parsed<T>) -> bool {
    match r {
        Parsed::Done(_, q) => p <= q < ts.len() && 1 <= q,
        Parsed::Failed(_, _) => true,
        Parsed::Abort => paren_at_end(ts),
    }
}

/// A position a rule may start from: within the tokens, and past the first
/// when it is at the end.
pub open spec fn start_ok(ts: Seq<TokenView>, p: nat) -> bool {
    p < ts.len() && (1 <= p || !at_end_of(ts, p))
}

proof fn lemma_paren_witness(ts: Seq<TokenView>, k: int)
    requires
        0 <= k,
        k + 1 < ts.len(),
        ts[k].token_type == TokenType::LeftParen,
        ts[k + 1].token_type == TokenType::Eof,
    ensures
        paren_at_end(ts),
{
}

proof fn lemma_grouped_defined(ts: Seq<TokenView>, q: nat, inner: Parsed<ExprView>)
    requires
        eof_ended(ts),
        defined_from(ts, q, inner),
    ensures
        defined_from(ts, q, grouped(ts, inner)),
{
    if let Parsed::Done(e, r) = inner {
        if check_at(ts, r, TokenType::RightParen) {
            assert(r + 1 < ts.len());
        }
    }
}

proof fn lemma_primary_other_defined(ts: Seq<TokenView>, p: nat, q: nat)
    requires
        eof_ended(ts),
        start_ok(ts, p),
        advance_at(ts, p) == Some((q, ts[q - 1])),
        ts[q - 1].token_type != TokenType::LeftParen,
        number_text_ok(ts[q - 1]),
    ensures
        defined_from(ts, p, primary_at(ts, p)),
{
}

proof fn lemma_primary_defined(ts: Seq<TokenView>, p: nat)
    requires
        eof_ended(ts),
        numbers_parse(ts),
        start_ok(ts, p),
    ensures
        defined_from(ts, p, primary_at(ts, p)),
    decreases ts.len() - p, 1nat,
{
    if let Some((q, tok)) = advance_at(ts, p) {
        assert(tok == ts[q - 1]);
        if tok.token_type == TokenType::LeftParen {
            if p < q {
                lemma_expression_defined(ts, q);
                lemma_grouped_defined(ts, q, expression_at(ts, q));
            } else {
                lemma_paren_witness(ts, q - 1);
            }
        } else {
            assert(number_text_ok(ts[q - 1]));
            lemma_primary_other_defined(ts, p, q);
        }
    }
}

proof fn lemma_unary_defined(ts: Seq<TokenView>, p: nat)
    requires
        eof_ended(ts),
        numbers_parse(ts),
        start_ok(ts, p),
    ensures
        defined_from(ts, p, unary_at(ts, p)),
    decreases ts.len() - p, 2nat,
{
    if check_at(ts, p, TokenType::Minus) || check_at(ts, p, TokenType::Bang) {
        lemma_unary_defined(ts, p + 1);
    } else {
        lemma_primary_defined(ts, p);
    }
}

proof fn lemma_factor_rest_defined(ts: Seq<TokenView>, left: ExprView, p: nat)
    requires
        eof_ended(ts),
        numbers_parse(ts),
        1 <= p < ts.len(),
    ensures
        defined_from(ts, p, factor_rest(ts, left, p)),
    decreases ts.len() - p, 3nat,
{
    if check_at(ts, p, TokenType::Slash) || check_at(ts, p, TokenType::Star) {
        lemma_unary_defined(ts, p + 1);
        if let Parsed::Done(r, q) = unary_at(ts, p + 1) {
            lemma_factor_rest_defined(ts, binary(left, ts[p as int], r), q);
        }
    }
}

proof fn lemma_factor_defined(ts: Seq<TokenView>, p: nat)
    requires
        eof_ended(ts),
        numbers_parse(ts),
        start_ok(ts, p),
    ensures
        defined_from(ts, p, factor_at(ts, p)),
    decreases ts.len() - p, 4nat,
{
    lemma_unary_defined(ts, p);
    if let Parsed::Done(e, q) = unary_at(ts, p) {
        lemma_factor_rest_defined(ts, e, q);
    }
}

proof fn lemma_term_rest_defined(ts: Seq<TokenView>, left: ExprView, p: nat)
    requires
        eof_ended(ts),
        numbers_parse(ts),
        1 <= p < ts.len(),
    ensures
        defined_from(ts, p, term_rest(ts, left, p)),
    decreases ts.len() - p, 5nat,
{
    if check_at(ts, p, TokenType::Minus) || check_at(ts, p, TokenType::Plus) {
        lemma_factor_defined(ts, p + 1);
        if let Parsed::Done(r, q) = factor_at(ts, p + 1) {
            lemma_term_rest_defined(ts, binary(left, ts[p as int], r), q);
        }
    }
}

proof fn lemma_term_defined(ts: Seq<TokenView>, p: nat)
    requires
        eof_ended(ts),
        numbers_parse(ts),
        start_ok(ts, p),
    ensures
        defined_from(ts, p, term_at(ts, p)),
    decreases ts.len() - p, 6nat,
{
    lemma_factor_defined(ts, p);
    if let Parsed::Done(e, q) = factor_at(ts, p) {
        lemma_term_rest_defined(ts, e, q);
    }
}

proof fn lemma_comparison_rest_defined(ts: Seq<TokenView>, left: ExprView, p: nat)
    requires
        eof_ended(ts),
        numbers_parse(ts),
        1 <= p < ts.len(),
    ensures
        defined_from(ts, p, comparison_rest(ts, left, p)),
    decreases ts.len() - p, 7nat,
{
    if comparison_operator(ts, p) {
        lemma_term_defined(ts, p + 1);
        if let Parsed::Done(r, q) = term_at(ts, p + 1) {
            lemma_comparison_rest_defined(ts, binary(left, ts[p as int], r), q);
        }
    }
}

proof fn lemma_comparison_defined(ts: Seq<TokenView>, p: nat)
    requires
        eof_ended(ts),
        numbers_parse(ts),
        start_ok(ts, p),
    ensures
        defined_from(ts, p, comparison_at(ts, p)),
    decreases ts.len() - p, 8nat,
{
    lemma_term_defined(ts, p);
    if let Parsed::Done(e, q) = term_at(ts, p) {
        lemma_comparison_rest_defined(ts, e, q);
    }
}

proof fn lemma_equality_rest_defined(ts: Seq<TokenView>, left: ExprView, p: nat)
    requires
        eof_ended(ts),
        numbers_parse(ts),
        1 <= p < ts.len(),
    ensures
        defined_from(ts, p, equality_rest(ts, left, p)),
    decreases ts.len() - p, 9nat,
{
    if check_at(ts, p, TokenType::BangEqual) || check_at(ts, p, TokenType::EqualEqual) {
        lemma_comparison_defined(ts, p + 1);
        if let Parsed::Done(r, q) = comparison_at(ts, p + 1) {
            lemma_equality_rest_defined(ts, binary(left, ts[p as int], r), q);
        }
    }
}

proof fn lemma_equality_defined(ts: Seq<TokenView>, p: nat)
    requires
        eof_ended(ts),
        numbers_parse(ts),
        start_ok(ts, p),
    ensures
        defined_from(ts, p, equality_at(ts, p)),
    decreases ts.len() - p, 10nat,
{
    lemma_comparison_defined(ts, p);
    if let Parsed::Done(e, q) = comparison_at(ts, p) {
        lemma_equality_rest_defined(ts, e, q);
    }
}

proof fn lemma_expression_defined(ts: Seq<TokenView>, p: nat)
    requires
        eof_ended(ts),
        numbers_parse(ts),
        start_ok(ts, p),
    ensures
        defined_from(ts, p, expression_at(ts, p)),
    decreases ts.len() - p, 11nat,
{
    lemma_equality_defined(ts, p);
}

/// A statement ended by a `;` after a defined expression ends after it.
proof fn lemma_with_semicolon_defined(
    ts: Seq<TokenView>,
    p: nat,
    inner: Parsed<ExprView>,
    msg: Seq<char>,
    make: spec_fn(ExprView) -> StmtView,
)
    requires
        eof_ended(ts),
        defined_from(ts, p, inner),
    ensures
        defined_from(ts, p, with_semicolon(ts, inner, msg, make)),
        with_semicolon(ts, inner, msg, make) matches Parsed::Done(_, q) ==> p < q,
{
}

proof fn lemma_sync_defined(ts: Seq<TokenView>, p: nat)
    requires
        eof_ended(ts),
        1 <= p < ts.len(),
    ensures
        sync_from(ts, p) matches Some(q) && q < ts.len(),
    decreases ts.len() - p,
{
    if !at_end_of(ts, p) && ts[p - 1].token_type != TokenType::Semicolon && !statement_start(
        ts[p as int].token_type,
    ) {
        lemma_sync_defined(ts, p + 1);
    }
}

proof fn lemma_block_rest_defined(ts: Seq<TokenView>, acc: Seq<StmtView>, p: nat)
    requires
        eof_ended(ts),
        1 <= p < ts.len(),
    ensures
        defined_from(ts, p, block_rest(ts, acc, p)),
        block_rest(ts, acc, p) matches Parsed::Done(_, q) ==> p < q,
{
    if !check_at(ts, p, TokenType::RightBrace) && !at_end_of(ts, p) {
        if ts[p as int].token_type != TokenType::Var {
            lemma_sync_defined(ts, p + 1);
        }
    }
}

proof fn lemma_statement_defined(ts: Seq<TokenView>, p: nat)
    requires
        eof_ended(ts),
        numbers_parse(ts),
        p < ts.len(),
        !at_end_of(ts, p),
    ensures
        defined_from(ts, p, statement_at(ts, p)),
        statement_at(ts, p) matches Parsed::Done(_, q) ==> p < q,
{
    if ts[p as int].token_type == TokenType::Print {
        lemma_expression_defined(ts, p + 1);
        lemma_with_semicolon_defined(
            ts,
            p,
            expression_at(ts, p + 1),
            "Expect ';' after value."@,
            |e: ExprView| StmtView::Print(e),
        );
    } else if ts[p as int].token_type == TokenType::LeftBrace {
        lemma_block_rest_defined(ts, Seq::empty(), p + 1);
    } else {
        lemma_expression_defined(ts, p);
        lemma_with_semicolon_defined(
            ts,
            p,
            expression_at(ts, p),
            "Expect ';' after expression."@,
            |e: ExprView| StmtView::Expr(e),
        );
    }
}

/// On tokens that end with an end-of-file token and whose numbers are text
/// that `f64` parsing accepts, parsing is undefined only where a `(` is
/// directly followed by the end of the tokens; on any other such tokens
/// `parse` may be called.
pub proof fn law_parse_defined(ts: Seq<TokenView>, acc: Seq<StmtView>, p: nat)
    requires
        eof_ended(ts),
        numbers_parse(ts),
        p < ts.len(),
    ensures
        program_from(ts, acc, p) is Abort ==> paren_at_end(ts),
    decreases ts.len() - p,
{
    if !at_end_of(ts, p) {
        lemma_statement_defined(ts, p);
        if let Parsed::Done(s, q) = statement_at(ts, p) {
            law_parse_defined(ts, acc.push(s), q);
        }
    }
}


/// A result of a rule starting at `p` ends at a position from `p` to the end.
pub open spec fn advances<T>(ts: Seq<TokenView>, p: nat, r: Parsed<T>) -> bool {
    r matches Parsed::Done(_, q) ==> p <= q <= ts.len()
}

proof fn lemma_consume_advances(ts: Seq<TokenView>, p: nat, t: TokenType, msg: Seq<char>)
    ensures
        advances(ts, p, consume_at(ts, p, t, msg)),
{
}

proof fn lemma_grouped_advances(ts: Seq<TokenView>, q: nat, inner: Parsed<ExprView>)
    requires
        advances(ts, q, inner),
    ensures
        advances(ts, q, grouped(ts, inner)),
{
}

proof fn lemma_primary_advances(ts: Seq<TokenView>, p: nat)
    ensures
        advances(ts, p, primary_at(ts, p)),
    decreases ts.len() - p, 1nat,
{
    if let Some((q, tok)) = advance_at(ts, p) {
        if tok.token_type == TokenType::LeftParen && p < q {
            lemma_expression_advances(ts, q);
            lemma_grouped_advances(ts, q, expression_at(ts, q));
        }
    }
}

proof fn lemma_unary_advances(ts: Seq<TokenView>, p: nat)
    ensures
        advances(ts, p, unary_at(ts, p)),
    decreases ts.len() - p, 2nat,
{
    if check_at(ts, p, TokenType::Minus) || check_at(ts, p, TokenType::Bang) {
        lemma_unary_advances(ts, p + 1);
    } else {
        lemma_primary_advances(ts, p);
    }
}

proof fn lemma_factor_rest_advances(ts: Seq<TokenView>, left: ExprView, p: nat)
    requires
        p <= ts.len(),
    ensures
        advances(ts, p, factor_rest(ts, left, p)),
    decreases ts.len() - p, 3nat,
{
    if check_at(ts, p, TokenType::Slash) || check_at(ts, p, TokenType::Star) {
        lemma_unary_advances(ts, p + 1);
        if let Parsed::Done(r, q) = unary_at(ts, p + 1) {
            if p < q <= ts.len() {
                lemma_factor_rest_advances(ts, binary(left, ts[p as int], r), q);
            }
        }
    }
}

proof fn lemma_factor_advances(ts: Seq<TokenView>, p: nat)
    ensures
        advances(ts, p, factor_at(ts, p)),
    decreases ts.len() - p, 4nat,
{
    lemma_unary_advances(ts, p);
    if let Parsed::Done(e, q) = unary_at(ts, p) {
        if p <= q <= ts.len() {
            lemma_factor_rest_advances(ts, e, q);
        }
    }
}

proof fn lemma_term_rest_advances(ts: Seq<TokenView>, left: ExprView, p: nat)
    requires
        p <= ts.len(),
    ensures
        advances(ts, p, term_rest(ts, left, p)),
    decreases ts.len() - p, 5nat,
{
    if check_at(ts, p, TokenType::Minus) || check_at(ts, p, TokenType::Plus) {
        lemma_factor_advances(ts, p + 1);
        if let Parsed::Done(r, q) = factor_at(ts, p + 1) {
            if p < q <= ts.len() {
                lemma_term_rest_advances(ts, binary(left, ts[p as int], r), q);
            }
        }
    }
}

proof fn lemma_term_advances(ts: Seq<TokenView>, p: nat)
    ensures
        advances(ts, p, term_at(ts, p)),
    decreases ts.len() - p, 6nat,
{
    lemma_factor_advances(ts, p);
    if let Parsed::Done(e, q) = factor_at(ts, p) {
        if p <= q <= ts.len() {
            lemma_term_rest_advances(ts, e, q);
        }
    }
}

proof fn lemma_comparison_rest_advances(ts: Seq<TokenView>, left: ExprView, p: nat)
    requires
        p <= ts.len(),
    ensures
        advances(ts, p, comparison_rest(ts, left, p)),
    decreases ts.len() - p, 7nat,
{
    if comparison_operator(ts, p) {
        lemma_term_advances(ts, p + 1);
        if let Parsed::Done(r, q) = term_at(ts, p + 1) {
            if p < q <= ts.len() {
                lemma_comparison_rest_advances(ts, binary(left, ts[p as int], r), q);
            }
        }
    }
}

proof fn lemma_comparison_advances(ts: Seq<TokenView>, p: nat)
    ensures
        advances(ts, p, comparison_at(ts, p)),
    decreases ts.len() - p, 8nat,
{
    lemma_term_advances(ts, p);
    if let Parsed::Done(e, q) = term_at(ts, p) {
        if p <= q <= ts.len() {
            lemma_comparison_rest_advances(ts, e, q);
        }
    }
}

proof fn lemma_equality_rest_advances(ts: Seq<TokenView>, left: ExprView, p: nat)
    requires
        p <= ts.len(),
    ensures
        advances(ts, p, equality_rest(ts, left, p)),
    decreases ts.len() - p, 9nat,
{
    if check_at(ts, p, TokenType::BangEqual) || check_at(ts, p, TokenType::EqualEqual) {
        lemma_comparison_advances(ts, p + 1);
        if let Parsed::Done(r, q) = comparison_at(ts, p + 1) {
            if p < q <= ts.len() {
                lemma_equality_rest_advances(ts, binary(left, ts[p as int], r), q);
            }
        }
    }
}

proof fn lemma_equality_advances(ts: Seq<TokenView>, p: nat)
    ensures
        advances(ts, p, equality_at(ts, p)),
    decreases ts.len() - p, 10nat,
{
    lemma_comparison_advances(ts, p);
    if let Parsed::Done(e, q) = comparison_at(ts, p) {
        if p <= q <= ts.len() {
            lemma_equality_rest_advances(ts, e, q);
        }
    }
}

proof fn lemma_expression_advances(ts: Seq<TokenView>, p: nat)
    ensures
        advances(ts, p, expression_at(ts, p)),
    decreases ts.len() - p, 11nat,
{
    lemma_equality_advances(ts, p);
}

/// `*` or `/`.
pub open spec fn is_factor_operator(t: TokenType) -> bool {
    t == TokenType::Star || t == TokenType::Slash
}

/// `+` or `-`.
pub open spec fn is_term_operator(t: TokenType) -> bool {
    t == TokenType::Plus || t == TokenType::Minus
}

/// `>`, `>=`, `<` or `<=`.
pub open spec fn is_comparison_operator(t: TokenType) -> bool {
    t == TokenType::Greater || t == TokenType::GreaterEqual || t == TokenType::Less || t
        == TokenType::LessEqual
}

/// `==` or `!=`.
pub open spec fn is_equality_operator(t: TokenType) -> bool {
    t == TokenType::EqualEqual || t == TokenType::BangEqual
}

/// Whether the token at `p` is an operator of the given class (never at the end).
pub open spec fn operator_at(ts: Seq<TokenView>, p: nat, class: spec_fn(TokenType) -> bool) -> bool {
    !at_end_of(ts, p) && class(ts[p as int].token_type)
}

/// `*` and `/` join two operands in order: where the operand parsed from `p`
/// ends at such an operator, the next operand follows it, and no such
/// operator follows that, the result is the operator applied to the first
/// operand on the left and the second on the right.
pub proof fn law_factor_operands_in_order(
    ts: Seq<TokenView>,
    p: nat,
    a: ExprView,
    q: nat,
    b: ExprView,
    r: nat,
)
    requires
        unary_at(ts, p) == Parsed::Done(a, q),
        operator_at(ts, q, |t: TokenType| is_factor_operator(t)),
        unary_at(ts, q + 1) == Parsed::Done(b, r),
        !operator_at(ts, r, |t: TokenType| is_factor_operator(t)),
    ensures
        factor_at(ts, p) == Parsed::Done(
            ExprView::Binary(Box::new(a), ts[q as int], Box::new(b)),
            r,
        ),
{
    lemma_unary_advances(ts, p);
    lemma_unary_advances(ts, q + 1);
    let ab = ExprView::Binary(Box::new(a), ts[q as int], Box::new(b));
    assert(binary(a, ts[q as int], b) == ab);
    assert(factor_rest(ts, ab, r) == Parsed::Done(ab, r));
    assert(factor_rest(ts, a, q) == factor_rest(ts, ab, r));
}

/// `*` and `/` group to the left: `a op1 b op2 c`, with no such operator after
/// `c`, is `(a op1 b) op2 c`.
pub proof fn law_factor_left_associative(
    ts: Seq<TokenView>,
    p: nat,
    a: ExprView,
    q: nat,
    b: ExprView,
    r: nat,
    c: ExprView,
    s: nat,
)
    requires
        unary_at(ts, p) == Parsed::Done(a, q),
        operator_at(ts, q, |t: TokenType| is_factor_operator(t)),
        unary_at(ts, q + 1) == Parsed::Done(b, r),
        operator_at(ts, r, |t: TokenType| is_factor_operator(t)),
        unary_at(ts, r + 1) == Parsed::Done(c, s),
        !operator_at(ts, s, |t: TokenType| is_factor_operator(t)),
    ensures
        factor_at(ts, p) == Parsed::Done(
            ExprView::Binary(
                Box::new(ExprView::Binary(Box::new(a), ts[q as int], Box::new(b))),
                ts[r as int],
                Box::new(c),
            ),
            s,
        ),
{
    lemma_unary_advances(ts, p);
    lemma_unary_advances(ts, q + 1);
    lemma_unary_advances(ts, r + 1);
    let ab = ExprView::Binary(Box::new(a), ts[q as int], Box::new(b));
    let abc = ExprView::Binary(Box::new(ab), ts[r as int], Box::new(c));
    assert(binary(a, ts[q as int], b) == ab);
    assert(binary(ab, ts[r as int], c) == abc);
    assert(factor_rest(ts, abc, s) == Parsed::Done(abc, s));
    assert(factor_rest(ts, ab, r) == factor_rest(ts, abc, s));
    assert(factor_rest(ts, a, q) == factor_rest(ts, ab, r));
}

/// `+` and `-` join two operands in order: where the operand parsed from `p`
/// ends at such an operator, the next operand follows it, and no such
/// operator follows that, the result is the operator applied to the first
/// operand on the left and the second on the right.
pub proof fn law_term_operands_in_order(
    ts: Seq<TokenView>,
    p: nat,
    a: ExprView,
    q: nat,
    b: ExprView,
    r: nat,
)
    requires
        factor_at(ts, p) == Parsed::Done(a, q),
        operator_at(ts, q, |t: TokenType| is_term_operator(t)),
        factor_at(ts, q + 1) == Parsed::Done(b, r),
        !operator_at(ts, r, |t: TokenType| is_term_operator(t)),
    ensures
        term_at(ts, p) == Parsed::Done(
            ExprView::Binary(Box::new(a), ts[q as int], Box::new(b)),
            r,
        ),
{
    lemma_factor_advances(ts, p);
    lemma_factor_advances(ts, q + 1);
    let ab = ExprView::Binary(Box::new(a), ts[q as int], Box::new(b));
    assert(binary(a, ts[q as int], b) == ab);
    assert(term_rest(ts, ab, r) == Parsed::Done(ab, r));
    assert(term_rest(ts, a, q) == term_rest(ts, ab, r));
}

/// `+` and `-` group to the left: `a op1 b op2 c`, with no such operator after
/// `c`, is `(a op1 b) op2 c`.
pub proof fn law_term_left_associative(
    ts: Seq<TokenView>,
    p: nat,
    a: ExprView,
    q: nat,
    b: ExprView,
    r: nat,
    c: ExprView,
    s: nat,
)
    requires
        factor_at(ts, p) == Parsed::Done(a, q),
        operator_at(ts, q, |t: TokenType| is_term_operator(t)),
        factor_at(ts, q + 1) == Parsed::Done(b, r),
        operator_at(ts, r, |t: TokenType| is_term_operator(t)),
        factor_at(ts, r + 1) == Parsed::Done(c, s),
        !operator_at(ts, s, |t: TokenType| is_term_operator(t)),
    ensures
        term_at(ts, p) == Parsed::Done(
            ExprView::Binary(
                Box::new(ExprView::Binary(Box::new(a), ts[q as int], Box::new(b))),
                ts[r as int],
                Box::new(c),
            ),
            s,
        ),
{
    lemma_factor_advances(ts, p);
    lemma_factor_advances(ts, q + 1);
    lemma_factor_advances(ts, r + 1);
    let ab = ExprView::Binary(Box::new(a), ts[q as int], Box::new(b));
    let abc = ExprView::Binary(Box::new(ab), ts[r as int], Box::new(c));
    assert(binary(a, ts[q as int], b) == ab);
    assert(binary(ab, ts[r as int], c) == abc);
    assert(term_rest(ts, abc, s) == Parsed::Done(abc, s));
    assert(term_rest(ts, ab, r) == term_rest(ts, abc, s));
    assert(term_rest(ts, a, q) == term_rest(ts, ab, r));
}

/// `>`, `>=`, `<` and `<=` join two operands in order: where the operand parsed from `p`
/// ends at such an operator, the next operand follows it, and no such
/// operator follows that, the result is the operator applied to the first
/// operand on the left and the second on the right.
pub proof fn law_comparison_operands_in_order(
    ts: Seq<TokenView>,
    p: nat,
    a: ExprView,
    q: nat,
    b: ExprView,
    r: nat,
)
    requires
        term_at(ts, p) == Parsed::Done(a, q),
        operator_at(ts, q, |t: TokenType| is_comparison_operator(t)),
        term_at(ts, q + 1) == Parsed::Done(b, r),
        !operator_at(ts, r, |t: TokenType| is_comparison_operator(t)),
    ensures
        comparison_at(ts, p) == Parsed::Done(
            ExprView::Binary(Box::new(a), ts[q as int], Box::new(b)),
            r,
        ),
{
    lemma_term_advances(ts, p);
    lemma_term_advances(ts, q + 1);
    let ab = ExprView::Binary(Box::new(a), ts[q as int], Box::new(b));
    assert(binary(a, ts[q as int], b) == ab);
    assert(comparison_rest(ts, ab, r) == Parsed::Done(ab, r));
    assert(comparison_rest(ts, a, q) == comparison_rest(ts, ab, r));
}

/// `>`, `>=`, `<` and `<=` group to the left: `a op1 b op2 c`, with no such operator after
/// `c`, is `(a op1 b) op2 c`.
pub proof fn law_comparison_left_associative(
    ts: Seq<TokenView>,
    p: nat,
    a: ExprView,
    q: nat,
    b: ExprView,
    r: nat,
    c: ExprView,
    s: nat,
)
    requires
        term_at(ts, p) == Parsed::Done(a, q),
        operator_at(ts, q, |t: TokenType| is_comparison_operator(t)),
        term_at(ts, q + 1) == Parsed::Done(b, r),
        operator_at(ts, r, |t: TokenType| is_comparison_operator(t)),
        term_at(ts, r + 1) == Parsed::Done(c, s),
        !operator_at(ts, s, |t: TokenType| is_comparison_operator(t)),
    ensures
        comparison_at(ts, p) == Parsed::Done(
            ExprView::Binary(
                Box::new(ExprView::Binary(Box::new(a), ts[q as int], Box::new(b))),
                ts[r as int],
                Box::new(c),
            ),
            s,
        ),
{
    lemma_term_advances(ts, p);
    lemma_term_advances(ts, q + 1);
    lemma_term_advances(ts, r + 1);
    let ab = ExprView::Binary(Box::new(a), ts[q as int], Box::new(b));
    let abc = ExprView::Binary(Box::new(ab), ts[r as int], Box::new(c));
    assert(binary(a, ts[q as int], b) == ab);
    assert(binary(ab, ts[r as int], c) == abc);
    assert(comparison_rest(ts, abc, s) == Parsed::Done(abc, s));
    assert(comparison_rest(ts, ab, r) == comparison_rest(ts, abc, s));
    assert(comparison_rest(ts, a, q) == comparison_rest(ts, ab, r));
}

/// `==` and `!=` join two operands in order: where the operand parsed from `p`
/// ends at such an operator, the next operand follows it, and no such
/// operator follows that, the result is the operator applied to the first
/// operand on the left and the second on the right.
pub proof fn law_equality_operands_in_order(
    ts: Seq<TokenView>,
    p: nat,
    a: ExprView,
    q: nat,
    b: ExprView,
    r: nat,
)
    requires
        comparison_at(ts, p) == Parsed::Done(a, q),
        operator_at(ts, q, |t: TokenType| is_equality_operator(t)),
        comparison_at(ts, q + 1) == Parsed::Done(b, r),
        !operator_at(ts, r, |t: TokenType| is_equality_operator(t)),
    ensures
        equality_at(ts, p) == Parsed::Done(
            ExprView::Binary(Box::new(a), ts[q as int], Box::new(b)),
            r,
        ),
{
    lemma_comparison_advances(ts, p);
    lemma_comparison_advances(ts, q + 1);
    let ab = ExprView::Binary(Box::new(a), ts[q as int], Box::new(b));
    assert(binary(a, ts[q as int], b) == ab);
    assert(equality_rest(ts, ab, r) == Parsed::Done(ab, r));
    assert(equality_rest(ts, a, q) == equality_rest(ts, ab, r));
}

/// `==` and `!=` group to the left: `a op1 b op2 c`, with no such operator after
/// `c`, is `(a op1 b) op2 c`.
pub proof fn law_equality_left_associative(
    ts: Seq<TokenView>,
    p: nat,
    a: ExprView,
    q: nat,
    b: ExprView,
    r: nat,
    c: ExprView,
    s: nat,
)
    requires
        comparison_at(ts, p) == Parsed::Done(a, q),
        operator_at(ts, q, |t: TokenType| is_equality_operator(t)),
        comparison_at(ts, q + 1) == Parsed::Done(b, r),
        operator_at(ts, r, |t: TokenType| is_equality_operator(t)),
        comparison_at(ts, r + 1) == Parsed::Done(c, s),
        !operator_at(ts, s, |t: TokenType| is_equality_operator(t)),
    ensures
        equality_at(ts, p) == Parsed::Done(
            ExprView::Binary(
                Box::new(ExprView::Binary(Box::new(a), ts[q as int], Box::new(b))),
                ts[r as int],
                Box::new(c),
            ),
            s,
        ),
{
    lemma_comparison_advances(ts, p);
    lemma_comparison_advances(ts, q + 1);
    lemma_comparison_advances(ts, r + 1);
    let ab = ExprView::Binary(Box::new(a), ts[q as int], Box::new(b));
    let abc = ExprView::Binary(Box::new(ab), ts[r as int], Box::new(c));
    assert(binary(a, ts[q as int], b) == ab);
    assert(binary(ab, ts[r as int], c) == abc);
    assert(equality_rest(ts, abc, s) == Parsed::Done(abc, s));
    assert(equality_rest(ts, ab, r) == equality_rest(ts, abc, s));
    assert(equality_rest(ts, a, q) == equality_rest(ts, ab, r));
}


/// What a single token at `p` parses to as a primary expression: a number,
/// string, `true`, `false` or `nil` token is that literal, with the token's
/// text; a name is a variable of that name; a `(`, an expression and a `)`
/// are that expression grouped; any other token is an "expected expression"
/// error naming it.
pub proof fn law_primary_tokens(ts: Seq<TokenView>, p: nat)
    requires
        p < ts.len(),
        !at_end_of(ts, p),
    ensures
        ({
            let t = ts[p as int];
            &&& t.token_type == TokenType::Number && float_text(t.lexeme) ==> primary_at(ts, p)
                == Parsed::Done(ExprView::Literal(LiteralView::Number(t.lexeme)), p + 1)
            &&& t.token_type == TokenType::String ==> primary_at(ts, p) == Parsed::Done(
                ExprView::Literal(LiteralView::Str(t.lexeme)),
                p + 1,
            )
            &&& t.token_type == TokenType::True ==> primary_at(ts, p) == Parsed::Done(
                ExprView::Literal(LiteralView::Bool(true)),
                p + 1,
            )
            &&& t.token_type == TokenType::False ==> primary_at(ts, p) == Parsed::Done(
                ExprView::Literal(LiteralView::Bool(false)),
                p + 1,
            )
            &&& t.token_type == TokenType::Nil ==> primary_at(ts, p) == Parsed::Done(
                ExprView::Literal(LiteralView::Nil),
                p + 1,
            )
            &&& t.token_type == TokenType::Identifier ==> primary_at(ts, p) == Parsed::Done(
                ExprView::Variable(t.lexeme),
                p + 1,
            )
            &&& !(t.token_type == TokenType::Number || t.token_type == TokenType::String
                || t.token_type == TokenType::True || t.token_type == TokenType::False
                || t.token_type == TokenType::Nil || t.token_type == TokenType::Identifier
                || t.token_type == TokenType::LeftParen) ==> primary_at(ts, p) == Parsed::<
                ExprView,
            >::Failed(
                ParserErrorView::ExpectedExpression {
                    line: t.line,
                    token: t,
                    msg: "Expect expression."@,
                },
                p + 1,
            )
        }),
{
}

/// A `(`, an expression and a `)` parse to the expression, grouped.
pub proof fn law_primary_group(ts: Seq<TokenView>, p: nat, e: ExprView, q: nat)
    requires
        check_at(ts, p, TokenType::LeftParen),
        expression_at(ts, p + 1) == Parsed::Done(e, q),
        check_at(ts, q, TokenType::RightParen),
    ensures
        primary_at(ts, p) == Parsed::Done(ExprView::Grouped(Box::new(e)), q + 1),
{
}

/// A `-` or `!` followed by an operand parses to that operator applied to
/// the operand.
pub proof fn law_unary_prefix(ts: Seq<TokenView>, p: nat, e: ExprView, q: nat)
    requires
        check_at(ts, p, TokenType::Minus) || check_at(ts, p, TokenType::Bang),
        unary_at(ts, p + 1) == Parsed::Done(e, q),
    ensures
        unary_at(ts, p) == Parsed::Done(ExprView::Unary(ts[p as int], Box::new(e)), q),
{
}

/// `print`, an expression and a `;` parse to a print statement of that
/// expression; an expression and a `;`, not starting with `print` or `{`, to
/// an expression statement of it.
pub proof fn law_simple_statements(ts: Seq<TokenView>, p: nat, e: ExprView, q: nat)
    requires
        p < ts.len(),
        check_at(ts, q, TokenType::Semicolon),
    ensures
        ts[p as int].token_type == TokenType::Print && expression_at(ts, p + 1) == Parsed::Done(
            e,
            q,
        ) ==> statement_at(ts, p) == Parsed::Done(StmtView::Print(e), q + 1),
        ts[p as int].token_type != TokenType::Print && ts[p as int].token_type
            != TokenType::LeftBrace && expression_at(ts, p) == Parsed::Done(e, q) ==> statement_at(
            ts,
            p,
        ) == Parsed::Done(StmtView::Expr(e), q + 1),
{
}


/// Where error recovery may stop: at the end, just after a `;`, or at a
/// `class`, `fun`, `var`, `for`, `if`, `while`, `print` or `return`.
pub open spec fn recovery_point(ts: Seq<TokenView>, k: nat) -> bool {
    ||| at_end_of(ts, k)
    ||| (1 <= k && ts[k - 1].token_type == TokenType::Semicolon)
    ||| {
        let t = ts[k as int].token_type;
        t == TokenType::Class || t == TokenType::Fun || t == TokenType::Var || t == TokenType::For
            || t == TokenType::If || t == TokenType::While || t == TokenType::Print || t
            == TokenType::Return
    }
}

/// Error recovery from `p` stops at the first recovery point at or after `p`:
/// it skips no such point.
pub proof fn law_recovery_stops_at_first_point(ts: Seq<TokenView>, p: nat)
    requires
        1 <= p,
    ensures
        sync_from(ts, p) matches Some(q) && p <= q && recovery_point(ts, q) && forall|k: nat|
            p <= k < q ==> !#[trigger] recovery_point(ts, k),
    decreases ts.len() - p,
{
    if !at_end_of(ts, p) && ts[p - 1].token_type != TokenType::Semicolon && !statement_start(
        ts[p as int].token_type,
    ) {
        law_recovery_stops_at_first_point(ts, p + 1);
        assert(!recovery_point(ts, p));
    }
}

} // verus!
