use vstd::prelude::*;

use crate::ast::{assignment_views, def_views, order_by_views, string_views, ColumnsSelect,
    ColumnsSelectV, ComparisonOp, CreateTable, CreateTableV, Delete, DeleteV, Expr, ExprV,
    InsertInto, InsertIntoV, OrderByClause, OrderByV, Select, SelectV, SortDirection, Statement,
    StatementV, Update, UpdateV};
use crate::data_type::DataType;
use crate::table::{ColumnDef, ColumnDefV};
use crate::tokenizer::{token_stream_wf, token_views, Token, TokenV};
use crate::value::{str_eq, Value, ValueV};
use vstd::string::StringExecFns;

verus! {

// ---------------------------------------------------------------------
// The grammar, as mathematical functions of the token stream.
// Each production returns the parsed node and the position of the first
// token after it, or an error.
// ---------------------------------------------------------------------

/// The value a literal token stands for, `None` on any other token.
pub open spec fn spec_token_value(t: TokenV) -> Option<ValueV> {
    match t {
        TokenV::Number(n) => Some(ValueV::Int(n)),
        TokenV::FloatNumber(d) => Some(ValueV::Float(d)),
        TokenV::True => Some(ValueV::Bool(true)),
        TokenV::False => Some(ValueV::Bool(false)),
        TokenV::StrLit(s) => Some(ValueV::Text(s)),
        _ => None,
    }
}

/// The data type a type keyword stands for, `None` on any other token.
pub open spec fn spec_token_data_type(t: TokenV) -> Option<DataType> {
    match t {
        TokenV::Int => Some(DataType::Int),
        TokenV::Text => Some(DataType::Text),
        TokenV::Float => Some(DataType::Float),
        TokenV::Bool => Some(DataType::Bool),
        _ => None,
    }
}

/// One or more `name TYPE` column definitions, comma-separated and closed
/// by `)`.
pub open spec fn spec_parse_col_defs(ts: Seq<TokenV>, pos: nat, acc: Seq<ColumnDefV>) -> Result<
    (Seq<ColumnDefV>, nat),
    (),
>
    decreases ts.len() - pos,
{
    if pos >= ts.len() {
        Err(())
    } else {
        match ts[pos as int] {
            TokenV::Ident(name) => {
                let p1 = pos + 1;
                if p1 >= ts.len() {
                    Err(())
                } else {
                    match spec_token_data_type(ts[p1 as int]) {
                        None => Err(()),
                        Some(dt) => {
                            let acc2 = acc.push(ColumnDefV { name, data_type: dt });
                            let p2 = p1 + 1;
                            if p2 >= ts.len() {
                                Err(())
                            } else if ts[p2 as int] is RightParen {
                                Ok((acc2, p2 + 1))
                            } else if ts[p2 as int] is Comma {
                                spec_parse_col_defs(ts, p2 + 1, acc2)
                            } else {
                                Err(())
                            }
                        },
                    }
                }
            },
            _ => Err(()),
        }
    }
}

/// A `CREATE TABLE name ( ... )` statement.
pub open spec fn spec_parse_create(ts: Seq<TokenV>, pos: nat) -> Result<(StatementV, nat), ()> {
    if !(pos < ts.len() && ts[pos as int] is Create) {
        Err(())
    } else if !(pos + 1 < ts.len() && ts[pos as int + 1] is Table) {
        Err(())
    } else if pos + 2 >= ts.len() {
        Err(())
    } else {
        match ts[pos as int + 2] {
            TokenV::Ident(name) => {
                if !(pos + 3 < ts.len() && ts[pos as int + 3] is LeftParen) {
                    Err(())
                } else {
                    match spec_parse_col_defs(ts, pos + 4, Seq::empty()) {
                        Err(_) => Err(()),
                        Ok((cols, p)) => Ok(
                            (
                                StatementV::CreateTable(
                                    CreateTableV { name, columns: cols },
                                ),
                                p,
                            ),
                        ),
                    }
                }
            },
            _ => Err(()),
        }
    }
}

/// One or more column names, comma-separated and closed by `)`.
pub open spec fn spec_parse_name_list(ts: Seq<TokenV>, pos: nat, acc: Seq<Seq<char>>) -> Result<
    (Seq<Seq<char>>, nat),
    (),
>
    decreases ts.len() - pos,
{
    if pos >= ts.len() {
        Err(())
    } else {
        match ts[pos as int] {
            TokenV::Ident(name) => {
                let acc2 = acc.push(name);
                let p = pos + 1;
                if p >= ts.len() {
                    Err(())
                } else if ts[p as int] is Comma {
                    spec_parse_name_list(ts, p + 1, acc2)
                } else if ts[p as int] is RightParen {
                    Ok((acc2, p + 1))
                } else {
                    Err(())
                }
            },
            _ => Err(()),
        }
    }
}

/// One or more literal values, comma-separated and closed by `)`.
pub open spec fn spec_parse_value_list(ts: Seq<TokenV>, pos: nat, acc: Seq<ValueV>) -> Result<
    (Seq<ValueV>, nat),
    (),
>
    decreases ts.len() - pos,
{
    if pos >= ts.len() {
        Err(())
    } else {
        match spec_token_value(ts[pos as int]) {
            None => Err(()),
            Some(v) => {
                let acc2 = acc.push(v);
                let p = pos + 1;
                if p >= ts.len() {
                    Err(())
                } else if ts[p as int] is Comma {
                    spec_parse_value_list(ts, p + 1, acc2)
                } else if ts[p as int] is RightParen {
                    Ok((acc2, p + 1))
                } else {
                    Err(())
                }
            },
        }
    }
}

/// An `INSERT INTO name [( columns )] VALUES ( literals )` statement.
pub open spec fn spec_parse_insert(ts: Seq<TokenV>, pos: nat) -> Result<(StatementV, nat), ()> {
    if !(pos < ts.len() && ts[pos as int] is Insert) {
        Err(())
    } else if !(pos + 1 < ts.len() && ts[pos as int + 1] is Into) {
        Err(())
    } else if pos + 2 >= ts.len() {
        Err(())
    } else {
        match ts[pos as int + 2] {
            TokenV::Ident(table) => {
                let after_name = pos + 3;
                let cols_step: Result<(Option<Seq<Seq<char>>>, nat), ()> = if after_name
                    < ts.len() && ts[after_name as int] is LeftParen {
                    match spec_parse_name_list(ts, after_name + 1, Seq::empty()) {
                        Err(_) => Err(()),
                        Ok((cols, p)) => Ok((Some(cols), p)),
                    }
                } else {
                    Ok((None, after_name))
                };
                match cols_step {
                    Err(_) => Err(()),
                    Ok((columns, p)) => {
                        if !(p < ts.len() && ts[p as int] is Values) {
                            Err(())
                        } else if !(p + 1 < ts.len() && ts[p as int + 1] is LeftParen) {
                            Err(())
                        } else {
                            match spec_parse_value_list(ts, p + 2, Seq::empty()) {
                                Err(_) => Err(()),
                                Ok((values, p2)) => Ok(
                                    (
                                        StatementV::InsertInto(
                                            InsertIntoV { table, columns, values },
                                        ),
                                        p2,
                                    ),
                                ),
                            }
                        }
                    },
                }
            },
            _ => Err(()),
        }
    }
}

/// The projection of a `SELECT`: `*`, or one or more column names.
pub open spec fn spec_parse_sel_cols_loop(ts: Seq<TokenV>, pos: nat, acc: Seq<Seq<char>>) -> Result<
    (Seq<Seq<char>>, nat),
    (),
>
    decreases ts.len() - pos,
{
    if pos >= ts.len() {
        Err(())
    } else {
        match ts[pos as int] {
            TokenV::Ident(name) => {
                let acc2 = acc.push(name);
                let p = pos + 1;
                if p < ts.len() && ts[p as int] is Comma {
                    spec_parse_sel_cols_loop(ts, p + 1, acc2)
                } else {
                    Ok((acc2, p))
                }
            },
            _ => Err(()),
        }
    }
}

/// The projection of a `SELECT`.
pub open spec fn spec_parse_sel_cols(ts: Seq<TokenV>, pos: nat) -> Result<
    (ColumnsSelectV, nat),
    (),
> {
    if pos >= ts.len() {
        Err(())
    } else if ts[pos as int] is Star {
        Ok((ColumnsSelectV::Star, pos + 1))
    } else if ts[pos as int] is Ident {
        match spec_parse_sel_cols_loop(ts, pos, Seq::empty()) {
            Err(_) => Err(()),
            Ok((cols, p)) => Ok((ColumnsSelectV::ColumnsNames(cols), p)),
        }
    } else {
        Err(())
    }
}

/// One `column (> | < | =) literal` comparison.
pub open spec fn spec_parse_cmp(ts: Seq<TokenV>, pos: nat) -> Result<(ExprV, nat), ()> {
    if pos >= ts.len() {
        Err(())
    } else {
        match ts[pos as int] {
            TokenV::Ident(column) => {
                let p1 = pos + 1;
                if p1 >= ts.len() {
                    Err(())
                } else {
                    let op: Option<ComparisonOp> = match ts[p1 as int] {
                        TokenV::Greater => Some(ComparisonOp::Gt),
                        TokenV::Lower => Some(ComparisonOp::Lt),
                        TokenV::Equal => Some(ComparisonOp::Eq),
                        _ => None,
                    };
                    match op {
                        None => Err(()),
                        Some(op) => {
                            let p2 = p1 + 1;
                            if p2 >= ts.len() {
                                Err(())
                            } else {
                                match spec_token_value(ts[p2 as int]) {
                                    None => Err(()),
                                    Some(value) => Ok(
                                        (ExprV::Comparison { column, op, value }, p2 + 1),
                                    ),
                                }
                            }
                        },
                    }
                }
            },
            _ => Err(()),
        }
    }
}

/// A left-associative chain of `AND`ed comparisons, continued from `e`.
pub open spec fn spec_parse_and_rest(ts: Seq<TokenV>, pos: nat, e: ExprV) -> Result<
    (ExprV, nat),
    (),
>
    decreases ts.len() - pos,
{
    if pos < ts.len() && ts[pos as int] is And {
        match spec_parse_cmp(ts, pos + 1) {
            Err(_) => Err(()),
            Ok((r, p2)) => {
                if pos < p2 <= ts.len() {
                    spec_parse_and_rest(
                        ts,
                        p2,
                        ExprV::And { left: Box::new(e), right: Box::new(r) },
                    )
                } else {
                    Err(())
                }
            },
        }
    } else {
        Ok((e, pos))
    }
}

/// An `AND` expression.
pub open spec fn spec_parse_and(ts: Seq<TokenV>, pos: nat) -> Result<(ExprV, nat), ()> {
    match spec_parse_cmp(ts, pos) {
        Err(_) => Err(()),
        Ok((e, p)) => spec_parse_and_rest(ts, p, e),
    }
}

/// A left-associative chain of `OR`ed `AND` expressions, continued from `e`.
pub open spec fn spec_parse_or_rest(ts: Seq<TokenV>, pos: nat, e: ExprV) -> Result<
    (ExprV, nat),
    (),
>
    decreases ts.len() - pos,
{
    if pos < ts.len() && ts[pos as int] is Or {
        match spec_parse_and(ts, pos + 1) {
            Err(_) => Err(()),
            Ok((r, p2)) => {
                if pos < p2 <= ts.len() {
                    spec_parse_or_rest(ts, p2, ExprV::Or { left: Box::new(e), right: Box::new(r) })
                } else {
                    Err(())
                }
            },
        }
    } else {
        Ok((e, pos))
    }
}

/// A whole `WHERE` expression: `OR` over `AND` over comparisons.
pub open spec fn spec_parse_expr(ts: Seq<TokenV>, pos: nat) -> Result<(ExprV, nat), ()> {
    match spec_parse_and(ts, pos) {
        Err(_) => Err(()),
        Ok((e, p)) => spec_parse_or_rest(ts, p, e),
    }
}

/// One or more `ORDER BY` keys, each an identifier with an optional
/// direction, comma-separated.
pub open spec fn spec_parse_order_by(ts: Seq<TokenV>, pos: nat, acc: Seq<OrderByV>) -> Result<
    (Seq<OrderByV>, nat),
    (),
>
    decreases ts.len() - pos,
{
    if pos >= ts.len() {
        Err(())
    } else {
        match ts[pos as int] {
            TokenV::Ident(column) => {
                let p = pos + 1;
                let dir_step: (SortDirection, nat) = if p < ts.len() && ts[p as int] is Asc {
                    (SortDirection::Asc, p + 1)
                } else if p < ts.len() && ts[p as int] is Desc {
                    (SortDirection::Desc, p + 1)
                } else {
                    (SortDirection::Asc, p)
                };
                let acc2 = acc.push(OrderByV { column, direction: dir_step.0 });
                let p2 = dir_step.1;
                if p2 < ts.len() && ts[p2 as int] is Comma {
                    spec_parse_order_by(ts, p2 + 1, acc2)
                } else {
                    Ok((acc2, p2))
                }
            },
            _ => Err(()),
        }
    }
}

/// The optional `WHERE` clause of a `SELECT`.
pub open spec fn spec_parse_where_step(ts: Seq<TokenV>, pos: nat) -> Result<
    (Option<ExprV>, nat),
    (),
> {
    if pos < ts.len() && ts[pos as int] is Where {
        match spec_parse_expr(ts, pos + 1) {
            Err(_) => Err(()),
            Ok((e, p)) => Ok((Some(e), p)),
        }
    } else {
        Ok((None, pos))
    }
}

/// The optional `ORDER BY` clause of a `SELECT`.
pub open spec fn spec_parse_order_step(ts: Seq<TokenV>, pos: nat) -> Result<
    (Option<Seq<OrderByV>>, nat),
    (),
> {
    if pos < ts.len() && ts[pos as int] is Order {
        if !(pos + 1 < ts.len() && ts[pos as int + 1] is By) {
            Err(())
        } else {
            match spec_parse_order_by(ts, pos + 2, Seq::empty()) {
                Err(_) => Err(()),
                Ok((keys, p)) => Ok((Some(keys), p)),
            }
        }
    } else {
        Ok((None, pos))
    }
}

/// The optional `LIMIT` clause of a `SELECT`: a non-negative count.
pub open spec fn spec_parse_limit_step(ts: Seq<TokenV>, pos: nat) -> Result<
    (Option<usize>, nat),
    (),
> {
    if pos < ts.len() && ts[pos as int] is Limit {
        if pos + 1 >= ts.len() {
            Err(())
        } else {
            match ts[pos as int + 1] {
                TokenV::Number(n) => if n < 0 || n > usize::MAX {
                    Err(())
                } else {
                    Ok((Some(n as usize), pos + 2))
                },
                _ => Err(()),
            }
        }
    } else {
        Ok((None, pos))
    }
}

/// A `SELECT` statement: projection, source table, then the optional
/// `WHERE`, `ORDER BY` and `LIMIT` clauses, in that order.
pub open spec fn spec_parse_select(ts: Seq<TokenV>, pos: nat) -> Result<(StatementV, nat), ()> {
    if !(pos < ts.len() && ts[pos as int] is Select) {
        Err(())
    } else {
        match spec_parse_sel_cols(ts, pos + 1) {
            Err(_) => Err(()),
            Ok((columns, p)) => {
                if !(p < ts.len() && ts[p as int] is From) {
                    Err(())
                } else if p + 1 >= ts.len() {
                    Err(())
                } else {
                    match ts[p as int + 1] {
                        TokenV::Ident(table) => {
                            match spec_parse_where_step(ts, p + 2) {
                                Err(_) => Err(()),
                                Ok((where_clause, p3)) => {
                                    match spec_parse_order_step(ts, p3) {
                                        Err(_) => Err(()),
                                        Ok((order_by, p4)) => {
                                            match spec_parse_limit_step(ts, p4) {
                                                Err(_) => Err(()),
                                                Ok((limit, p5)) => Ok(
                                                    (
                                                        StatementV::Select(
                                                            SelectV {
                                                                columns,
                                                                table,
                                                                where_clause,
                                                                order_by,
                                                                limit,
                                                            },
                                                        ),
                                                        p5,
                                                    ),
                                                ),
                                            }
                                        },
                                    }
                                },
                            }
                        },
                        _ => Err(()),
                    }
                }
            },
        }
    }
}

/// One or more `column = literal` assignments, comma-separated.
pub open spec fn spec_parse_assignments(
    ts: Seq<TokenV>,
    pos: nat,
    acc: Seq<(Seq<char>, ValueV)>,
) -> Result<(Seq<(Seq<char>, ValueV)>, nat), ()>
    decreases ts.len() - pos,
{
    if pos >= ts.len() {
        Err(())
    } else {
        match ts[pos as int] {
            TokenV::Ident(column) => {
                if !(pos + 1 < ts.len() && ts[pos as int + 1] is Equal) {
                    Err(())
                } else if pos + 2 >= ts.len() {
                    Err(())
                } else {
                    match spec_token_value(ts[pos as int + 2]) {
                        None => Err(()),
                        Some(v) => {
                            let acc2 = acc.push((column, v));
                            let p = pos + 3;
                            if p < ts.len() && ts[p as int] is Comma {
                                spec_parse_assignments(ts, p + 1, acc2)
                            } else {
                                Ok((acc2, p))
                            }
                        },
                    }
                }
            },
            _ => Err(()),
        }
    }
}

/// An `UPDATE name SET assignments WHERE expr` statement.
pub open spec fn spec_parse_update(ts: Seq<TokenV>, pos: nat) -> Result<(StatementV, nat), ()> {
    if !(pos < ts.len() && ts[pos as int] is Update) {
        Err(())
    } else if pos + 1 >= ts.len() {
        Err(())
    } else {
        match ts[pos as int + 1] {
            TokenV::Ident(table) => {
                if !(pos + 2 < ts.len() && ts[pos as int + 2] is SetKw) {
                    Err(())
                } else {
                    match spec_parse_assignments(ts, pos + 3, Seq::empty()) {
                        Err(_) => Err(()),
                        Ok((assignments, p)) => {
                            if !(p < ts.len() && ts[p as int] is Where) {
                                Err(())
                            } else {
                                match spec_parse_expr(ts, p + 1) {
                                    Err(_) => Err(()),
                                    Ok((e, p2)) => Ok(
                                        (
                                            StatementV::Update(
                                                UpdateV {
                                                    table,
                                                    assignments,
                                                    where_clause: e,
                                                },
                                            ),
                                            p2,
                                        ),
                                    ),
                                }
                            }
                        },
                    }
                }
            },
            _ => Err(()),
        }
    }
}

/// A `DELETE FROM name WHERE expr` statement.
pub open spec fn spec_parse_delete(ts: Seq<TokenV>, pos: nat) -> Result<(StatementV, nat), ()> {
    if !(pos < ts.len() && ts[pos as int] is Delete) {
        Err(())
    } else if !(pos + 1 < ts.len() && ts[pos as int + 1] is From) {
        Err(())
    } else if pos + 2 >= ts.len() {
        Err(())
    } else {
        match ts[pos as int + 2] {
            TokenV::Ident(table) => {
                if !(pos + 3 < ts.len() && ts[pos as int + 3] is Where) {
                    Err(())
                } else {
                    match spec_parse_expr(ts, pos + 4) {
                        Err(_) => Err(()),
                        Ok((e, p)) => Ok(
                            (StatementV::Delete(DeleteV { table, where_clause: e }), p),
                        ),
                    }
                }
            },
            _ => Err(()),
        }
    }
}

/// A whole statement read from position `pos`: one production by the
/// leading keyword, an optional semicolon, then nothing but end-of-input.
pub open spec fn spec_parse_at(ts: Seq<TokenV>, pos: nat) -> Result<StatementV, ()> {
    if pos >= ts.len() {
        Err(())
    } else {
        let step: Result<(StatementV, nat), ()> = match ts[pos as int] {
            TokenV::Create => spec_parse_create(ts, pos),
            TokenV::Insert => spec_parse_insert(ts, pos),
            TokenV::Select => spec_parse_select(ts, pos),
            TokenV::Update => spec_parse_update(ts, pos),
            TokenV::Delete => spec_parse_delete(ts, pos),
            _ => Err(()),
        };
        match step {
            Err(_) => Err(()),
            Ok((st, p)) => {
                let p2: nat = if p < ts.len() && ts[p as int] is Semicolon {
                    p + 1
                } else {
                    p
                };
                if p2 < ts.len() && ts[p2 as int] is Eof {
                    Ok(st)
                } else {
                    Err(())
                }
            },
        }
    }
}

/// The statement a token stream parses to.
pub open spec fn spec_parse(ts: Seq<TokenV>) -> Result<StatementV, ()> {
    spec_parse_at(ts, 0)
}

// ---------------------------------------------------------------------
// The parser itself.
// ---------------------------------------------------------------------

/// Structural equality of two tokens.
fn token_eq(a: &Token, b: &Token) -> (r: bool)
    ensures
        r == (a@ == b@),
{
    match (a, b) {
        (Token::Create, Token::Create) => true,
        (Token::Table, Token::Table) => true,
        (Token::Insert, Token::Insert) => true,
        (Token::Into, Token::Into) => true,
        (Token::Values, Token::Values) => true,
        (Token::Select, Token::Select) => true,
        (Token::From, Token::From) => true,
        (Token::Where, Token::Where) => true,
        (Token::And, Token::And) => true,
        (Token::Or, Token::Or) => true,
        (Token::Limit, Token::Limit) => true,
        (Token::Order, Token::Order) => true,
        (Token::By, Token::By) => true,
        (Token::Asc, Token::Asc) => true,
        (Token::Desc, Token::Desc) => true,
        (Token::Update, Token::Update) => true,
        (Token::SetKw, Token::SetKw) => true,
        (Token::Delete, Token::Delete) => true,
        (Token::Int, Token::Int) => true,
        (Token::Text, Token::Text) => true,
        (Token::Float, Token::Float) => true,
        (Token::Bool, Token::Bool) => true,
        (Token::Ident(x), Token::Ident(y)) => str_eq(x.as_str(), y.as_str()),
        (Token::Number(x), Token::Number(y)) => x == y,
        (Token::String(x), Token::String(y)) => str_eq(x.as_str(), y.as_str()),
        (Token::FloatNumber(x), Token::FloatNumber(y)) => x == y,
        (Token::True, Token::True) => true,
        (Token::False, Token::False) => true,
        (Token::LeftParen, Token::LeftParen) => true,
        (Token::RightParen, Token::RightParen) => true,
        (Token::Comma, Token::Comma) => true,
        (Token::Semicolon, Token::Semicolon) => true,
        (Token::Star, Token::Star) => true,
        (Token::Greater, Token::Greater) => true,
        (Token::Lower, Token::Lower) => true,
        (Token::Equal, Token::Equal) => true,
        (Token::Eof, Token::Eof) => true,
        _ => false,
    }
}

/// A recursive-descent parser that turns a token stream into a
/// [`Statement`].
pub struct Parser {
    /// The token stream read.
    tokens: Vec<Token>,
    /// The current position in the stream.
    position: usize,
}

impl Parser {
    /// The token stream's models.
    pub closed spec fn toks(self) -> Seq<TokenV> {
        token_views(self.tokens@)
    }

    /// The cursor.
    pub closed spec fn pos(self) -> nat {
        self.position as nat
    }

    /// The cursor always rests on a token of a well-formed stream.
    pub open spec fn wf(self) -> bool {
        &&& self.pos() < self.toks().len()
        &&& token_stream_wf(self.toks())
    }

    /// Creates a parser over a scanned token stream.
    pub fn new(tokens: Vec<Token>) -> (r: Parser)
        requires
            token_stream_wf(token_views(tokens@)),
        ensures
            r.toks() == token_views(tokens@),
            r.pos() == 0,
            r.wf(),
    {
        Parser { tokens, position: 0 }
    }

    /// The token under the cursor.
    fn current_token(&self) -> (r: &Token)
        requires
            self.wf(),
        ensures
            r@ == self.toks()[self.pos() as int],
    {
        &self.tokens[self.position]
    }

    /// Moves the cursor forward, never past the last token.
    fn advance(&mut self)
        requires
            old(self).wf(),
        ensures
            final(self).toks() == old(self).toks(),
            final(self).wf(),
            final(self).pos() == if old(self).pos() + 1 < old(self).toks().len() {
                old(self).pos() + 1
            } else {
                old(self).pos()
            },
    {
        if self.position < self.tokens.len() - 1 {
            self.position = self.position + 1;
        }
    }

    /// True when the cursor rests on the end-of-input marker.
    fn is_at_end(&self) -> (r: bool)
        requires
            self.wf(),
        ensures
            r == (self.toks()[self.pos() as int] is Eof),
    {
        matches!(self.current_token(), Token::Eof)
    }

    /// Checks that the current token is `expected` and steps over it.
    fn consume(&mut self, expected: Token) -> (r: Result<(), String>)
        requires
            old(self).wf(),
            !(expected@ is Eof),
        ensures
            final(self).toks() == old(self).toks(),
            final(self).wf(),
            match r {
                Ok(_) => old(self).toks()[old(self).pos() as int] == expected@ && final(self).pos()
                    == old(self).pos() + 1,
                Err(_) => old(self).toks()[old(self).pos() as int] != expected@ && final(self).pos()
                    == old(self).pos(),
            },
    {
        if token_eq(self.current_token(), &expected) {
            self.advance();
            Ok(())
        } else {
            Err(String::from_str("the statement holds an unexpected token"))
        }
    }

    /// Reads an identifier token and returns its name.
    fn consume_ident(&mut self) -> (r: Result<String, String>)
        requires
            old(self).wf(),
        ensures
            final(self).toks() == old(self).toks(),
            final(self).wf(),
            match r {
                Ok(name) => old(self).toks()[old(self).pos() as int] == TokenV::Ident(name@)
                    && final(self).pos() == old(self).pos() + 1,
                Err(_) => !(old(self).toks()[old(self).pos() as int] is Ident)
                    && final(self).pos() == old(self).pos(),
            },
    {
        let name: Option<String> = match self.current_token() {
            Token::Ident(s) => Some(s.clone()),
            _ => None,
        };
        match name {
            Some(name) => {
                self.advance();
                Ok(name)
            },
            None => Err(String::from_str("an identifier was expected")),
        }
    }

    /// Reads a literal token and turns it into a [`Value`].
    fn consume_value(&mut self) -> (r: Result<Value, String>)
        requires
            old(self).wf(),
        ensures
            final(self).toks() == old(self).toks(),
            final(self).wf(),
            match r {
                Ok(v) => spec_token_value(old(self).toks()[old(self).pos() as int]) == Some(v@)
                    && final(self).pos() == old(self).pos() + 1,
                Err(_) => spec_token_value(old(self).toks()[old(self).pos() as int]) is None
                    && final(self).pos() == old(self).pos(),
            },
    {
        let value: Option<Value> = match self.current_token() {
            Token::Number(n) => Some(Value::Int(*n)),
            Token::FloatNumber(d) => Some(Value::Float(*d)),
            Token::True => Some(Value::Bool(true)),
            Token::False => Some(Value::Bool(false)),
            Token::String(s) => Some(Value::Text(s.clone())),
            _ => None,
        };
        match value {
            Some(v) => {
                self.advance();
                Ok(v)
            },
            None => Err(String::from_str("a literal value was expected")),
        }
    }

    /// Reads a type keyword and turns it into a [`DataType`].
    fn consume_data_type(&mut self) -> (r: Result<DataType, String>)
        requires
            old(self).wf(),
        ensures
            final(self).toks() == old(self).toks(),
            final(self).wf(),
            match r {
                Ok(dt) => spec_token_data_type(old(self).toks()[old(self).pos() as int]) == Some(
                    dt,
                ) && final(self).pos() == old(self).pos() + 1,
                Err(_) => spec_token_data_type(old(self).toks()[old(self).pos() as int]) is None
                    && final(self).pos() == old(self).pos(),
            },
    {
        let dt: Option<DataType> = match self.current_token() {
            Token::Int => Some(DataType::Int),
            Token::Text => Some(DataType::Text),
            Token::Bool => Some(DataType::Bool),
            Token::Float => Some(DataType::Float),
            _ => None,
        };
        match dt {
            Some(dt) => {
                self.advance();
                Ok(dt)
            },
            None => Err(String::from_str("a data type was expected")),
        }
    }

    /// Parses the token stream into one [`Statement`], requiring the whole
    /// input to be consumed (a trailing semicolon is allowed).
    #[verifier::rlimit(100)]
    pub fn parse(&mut self) -> (r: Result<Statement, String>)
        requires
            old(self).wf(),
        ensures
            final(self).wf(),
            final(self).toks() == old(self).toks(),
            match r {
                Ok(st) => spec_parse_at(old(self).toks(), old(self).pos()) == Ok::<_, ()>(st@),
                Err(_) => spec_parse_at(old(self).toks(), old(self).pos()) is Err,
            },
    {
        let step = if matches!(self.current_token(), Token::Create) {
            self.parse_create_table()
        } else if matches!(self.current_token(), Token::Insert) {
            self.parse_insert()
        } else if matches!(self.current_token(), Token::Select) {
            self.parse_select()
        } else if matches!(self.current_token(), Token::Update) {
            self.parse_update()
        } else if matches!(self.current_token(), Token::Delete) {
            self.parse_delete()
        } else {
            Err(String::from_str("the statement begins with an unexpected token"))
        };
        let statement = match step {
            Ok(st) => st,
            Err(e) => {
                return Err(e);
            },
        };
        if matches!(self.current_token(), Token::Semicolon) {
            self.advance();
        }
        if !self.is_at_end() {
            return Err(String::from_str("unexpected tokens after the statement"));
        }
        Ok(statement)
    }

    /// Parses one `name TYPE` column definition.
    fn parse_column_def(&mut self) -> (r: Result<ColumnDef, String>)
        requires
            old(self).wf(),
        ensures
            final(self).toks() == old(self).toks(),
            final(self).wf(),
            match r {
                Ok(def) => {
                    &&& old(self).toks()[old(self).pos() as int] == TokenV::Ident(def@.name)
                    &&& old(self).pos() + 1 < old(self).toks().len()
                    &&& spec_token_data_type(old(self).toks()[old(self).pos() as int + 1]) == Some(
                        def@.data_type,
                    )
                    &&& final(self).pos() == old(self).pos() + 2
                },
                Err(_) => !(old(self).toks()[old(self).pos() as int] is Ident) || (old(
                    self,
                ).pos() + 1 < old(self).toks().len() && spec_token_data_type(
                    old(self).toks()[old(self).pos() as int + 1],
                ) is None),
            },
    {
        let name = match self.consume_ident() {
            Ok(n) => n,
            Err(e) => {
                return Err(e);
            },
        };
        let data_type = match self.consume_data_type() {
            Ok(dt) => dt,
            Err(e) => {
                return Err(e);
            },
        };
        Ok(ColumnDef { name, data_type })
    }

    /// Parses a full `CREATE TABLE` statement.
    #[verifier::loop_isolation(false)]
    fn parse_create_table(&mut self) -> (r: Result<Statement, String>)
        requires
            old(self).wf(),
        ensures
            final(self).wf(),
            final(self).toks() == old(self).toks(),
            match r {
                Ok(st) => spec_parse_create(old(self).toks(), old(self).pos()) == Ok::<_, ()>(
                    (st@, final(self).pos()),
                ),
                Err(_) => spec_parse_create(old(self).toks(), old(self).pos()) is Err,
            },
    {
        match self.consume(Token::Create) {
            Ok(_) => (),
            Err(e) => {
                return Err(e);
            },
        }
        match self.consume(Token::Table) {
            Ok(_) => (),
            Err(e) => {
                return Err(e);
            },
        }
        let name = match self.consume_ident() {
            Ok(n) => n,
            Err(e) => {
                return Err(e);
            },
        };
        match self.consume(Token::LeftParen) {
            Ok(_) => (),
            Err(e) => {
                return Err(e);
            },
        }

        let ghost ts = self.toks();
        let ghost p_start = self.pos();
        let mut columns: Vec<ColumnDef> = Vec::new();
        proof {
            assert(def_views(columns@) =~= Seq::<ColumnDefV>::empty());
        }
        loop
            invariant
                self.wf(),
                self.toks() == ts,
                spec_parse_col_defs(ts, p_start, Seq::empty()) == spec_parse_col_defs(
                    ts,
                    self.pos(),
                    def_views(columns@),
                ),
            decreases ts.len() - self.pos(),
        {
            let ghost p_iter = self.pos();
            let def = match self.parse_column_def() {
                Ok(d) => d,
                Err(e) => {
                    return Err(e);
                },
            };
            let ghost prev = columns@;
            columns.push(def);
            proof {
                assert(def_views(columns@) =~= def_views(prev).push(def@));
            }
            if matches!(self.current_token(), Token::RightParen) {
                self.advance();
                break ;
            } else if matches!(self.current_token(), Token::Comma) {
                self.advance();
            } else {
                return Err(String::from_str("a ',' or ')' was expected"));
            }
        }
        Ok(Statement::CreateTable(CreateTable { name, columns }))
    }

    /// Parses a full `INSERT INTO` statement.
    #[verifier::loop_isolation(false)]
    #[verifier::rlimit(100)]
    fn parse_insert(&mut self) -> (r: Result<Statement, String>)
        requires
            old(self).wf(),
        ensures
            final(self).wf(),
            final(self).toks() == old(self).toks(),
            match r {
                Ok(st) => spec_parse_insert(old(self).toks(), old(self).pos()) == Ok::<_, ()>(
                    (st@, final(self).pos()),
                ),
                Err(_) => spec_parse_insert(old(self).toks(), old(self).pos()) is Err,
            },
    {
        match self.consume(Token::Insert) {
            Ok(_) => (),
            Err(e) => {
                return Err(e);
            },
        }
        match self.consume(Token::Into) {
            Ok(_) => (),
            Err(e) => {
                return Err(e);
            },
        }
        let name = match self.consume_ident() {
            Ok(n) => n,
            Err(e) => {
                return Err(e);
            },
        };

        let ghost ts = self.toks();
        let columns: Option<Vec<String>> = if matches!(self.current_token(), Token::LeftParen) {
            self.advance();
            let ghost p_start = self.pos();
            let mut cols: Vec<String> = Vec::new();
            proof {
                assert(string_views(cols@) =~= Seq::<Seq<char>>::empty());
            }
            loop
                invariant
                    self.wf(),
                    self.toks() == ts,
                    spec_parse_name_list(ts, p_start, Seq::empty()) == spec_parse_name_list(
                        ts,
                        self.pos(),
                        string_views(cols@),
                    ),
                decreases ts.len() - self.pos(),
            {
                let col = match self.consume_ident() {
                    Ok(n) => n,
                    Err(e) => {
                        return Err(e);
                    },
                };
                let ghost prev = cols@;
                cols.push(col);
                proof {
                    assert(string_views(cols@) =~= string_views(prev).push(col@));
                }
                if matches!(self.current_token(), Token::Comma) {
                    self.advance();
                } else if matches!(self.current_token(), Token::RightParen) {
                    self.advance();
                    break ;
                } else {
                    return Err(String::from_str("a ',' or ')' was expected"));
                }
            }
            Some(cols)
        } else {
            None
        };

        match self.consume(Token::Values) {
            Ok(_) => (),
            Err(e) => {
                return Err(e);
            },
        }
        match self.consume(Token::LeftParen) {
            Ok(_) => (),
            Err(e) => {
                return Err(e);
            },
        }

        let ghost p_vals = self.pos();
        let mut values: Vec<Value> = Vec::new();
        proof {
            assert(crate::value::views_of(values@) =~= Seq::<ValueV>::empty());
        }
        loop
            invariant
                self.wf(),
                self.toks() == ts,
                spec_parse_value_list(ts, p_vals, Seq::empty()) == spec_parse_value_list(
                    ts,
                    self.pos(),
                    crate::value::views_of(values@),
                ),
            decreases ts.len() - self.pos(),
        {
            let v = match self.consume_value() {
                Ok(v) => v,
                Err(e) => {
                    return Err(e);
                },
            };
            let ghost prev = values@;
            values.push(v);
            proof {
                assert(crate::value::views_of(values@) =~= crate::value::views_of(prev).push(v@));
            }
            if matches!(self.current_token(), Token::Comma) {
                self.advance();
            } else if matches!(self.current_token(), Token::RightParen) {
                self.advance();
                break ;
            } else {
                return Err(String::from_str("a ',' or ')' was expected"));
            }
        }

        Ok(Statement::InsertInto(InsertInto { table: name, columns, values }))
    }

    /// Parses the projection of a `SELECT`: `*` or a column-name list.
    #[verifier::loop_isolation(false)]
    fn parse_columns(&mut self) -> (r: Result<ColumnsSelect, String>)
        requires
            old(self).wf(),
        ensures
            final(self).wf(),
            final(self).toks() == old(self).toks(),
            match r {
                Ok(cols) => spec_parse_sel_cols(old(self).toks(), old(self).pos()) == Ok::<_, ()>(
                    (cols@, final(self).pos()),
                ),
                Err(_) => spec_parse_sel_cols(old(self).toks(), old(self).pos()) is Err,
            },
    {
        if matches!(self.current_token(), Token::Star) {
            self.advance();
            return Ok(ColumnsSelect::Star);
        }
        if !matches!(self.current_token(), Token::Ident(_)) {
            return Err(String::from_str("a '*' or a column name was expected"));
        }

        let ghost ts = self.toks();
        let ghost p_start = self.pos();
        let mut cols: Vec<String> = Vec::new();
        proof {
            assert(string_views(cols@) =~= Seq::<Seq<char>>::empty());
        }
        loop
            invariant
                self.wf(),
                self.toks() == ts,
                spec_parse_sel_cols_loop(ts, p_start, Seq::empty()) == spec_parse_sel_cols_loop(
                    ts,
                    self.pos(),
                    string_views(cols@),
                ),
            decreases ts.len() - self.pos(),
        {
            let col = match self.consume_ident() {
                Ok(n) => n,
                Err(e) => {
                    return Err(e);
                },
            };
            let ghost prev = cols@;
            cols.push(col);
            proof {
                assert(string_views(cols@) =~= string_views(prev).push(col@));
            }
            if matches!(self.current_token(), Token::Comma) {
                self.advance();
            } else {
                break ;
            }
        }
        Ok(ColumnsSelect::ColumnsNames(cols))
    }

    /// Parses a full `SELECT` statement.
    fn parse_select(&mut self) -> (r: Result<Statement, String>)
        requires
            old(self).wf(),
        ensures
            final(self).wf(),
            final(self).toks() == old(self).toks(),
            match r {
                Ok(st) => spec_parse_select(old(self).toks(), old(self).pos()) == Ok::<_, ()>(
                    (st@, final(self).pos()),
                ),
                Err(_) => spec_parse_select(old(self).toks(), old(self).pos()) is Err,
            },
    {
        match self.consume(Token::Select) {
            Ok(_) => (),
            Err(e) => {
                return Err(e);
            },
        }
        let columns = match self.parse_columns() {
            Ok(c) => c,
            Err(e) => {
                return Err(e);
            },
        };
        match self.consume(Token::From) {
            Ok(_) => (),
            Err(e) => {
                return Err(e);
            },
        }
        let table = match self.consume_ident() {
            Ok(n) => n,
            Err(e) => {
                return Err(e);
            },
        };
        let where_clause = match self.parse_where_step() {
            Ok(w) => w,
            Err(e) => {
                return Err(e);
            },
        };
        let order_by = match self.parse_order_step() {
            Ok(o) => o,
            Err(e) => {
                return Err(e);
            },
        };
        let limit = match self.parse_limit_step() {
            Ok(l) => l,
            Err(e) => {
                return Err(e);
            },
        };
        Ok(Statement::Select(Select { columns, table, where_clause, order_by, limit }))
    }

    /// Parses the optional `WHERE` clause of a `SELECT`.
    fn parse_where_step(&mut self) -> (r: Result<Option<Expr>, String>)
        requires
            old(self).wf(),
        ensures
            final(self).wf(),
            final(self).toks() == old(self).toks(),
            match r {
                Ok(w) => spec_parse_where_step(old(self).toks(), old(self).pos()) == Ok::<_, ()>(
                    (
                        match w {
                            Some(e) => Some(e@),
                            None => None,
                        },
                        final(self).pos(),
                    ),
                ),
                Err(_) => spec_parse_where_step(old(self).toks(), old(self).pos()) is Err,
            },
    {
        if matches!(self.current_token(), Token::Where) {
            self.advance();
            match self.parse_expression() {
                Ok(e) => Ok(Some(e)),
                Err(e) => Err(e),
            }
        } else {
            Ok(None)
        }
    }

    /// Parses the optional `ORDER BY` clause of a `SELECT`.
    fn parse_order_step(&mut self) -> (r: Result<Option<Vec<OrderByClause>>, String>)
        requires
            old(self).wf(),
        ensures
            final(self).wf(),
            final(self).toks() == old(self).toks(),
            match r {
                Ok(o) => spec_parse_order_step(old(self).toks(), old(self).pos()) == Ok::<_, ()>(
                    (
                        match o {
                            Some(keys) => Some(order_by_views(keys@)),
                            None => None,
                        },
                        final(self).pos(),
                    ),
                ),
                Err(_) => spec_parse_order_step(old(self).toks(), old(self).pos()) is Err,
            },
    {
        if matches!(self.current_token(), Token::Order) {
            self.advance();
            match self.consume(Token::By) {
                Ok(_) => (),
                Err(e) => {
                    return Err(e);
                },
            }
            match self.parse_order_by() {
                Ok(keys) => Ok(Some(keys)),
                Err(e) => Err(e),
            }
        } else {
            Ok(None)
        }
    }

    /// Parses the optional `LIMIT` clause of a `SELECT`.
    fn parse_limit_step(&mut self) -> (r: Result<Option<usize>, String>)
        requires
            old(self).wf(),
        ensures
            final(self).wf(),
            final(self).toks() == old(self).toks(),
            match r {
                Ok(l) => spec_parse_limit_step(old(self).toks(), old(self).pos()) == Ok::<_, ()>(
                    (l, final(self).pos()),
                ),
                Err(_) => spec_parse_limit_step(old(self).toks(), old(self).pos()) is Err,
            },
    {
        if matches!(self.current_token(), Token::Limit) {
            self.advance();
            let n: Option<i64> = match self.current_token() {
                Token::Number(n) => Some(*n),
                _ => None,
            };
            match n {
                Some(n) => {
                    if n < 0 {
                        return Err(String::from_str("LIMIT requires a non-negative number"));
                    }
                    if (n as u64) > (usize::MAX as u64) {
                        return Err(String::from_str("LIMIT requires a non-negative number"));
                    }
                    self.advance();
                    Ok(Some(n as usize))
                },
                None => Err(String::from_str("LIMIT requires a number")),
            }
        } else {
            Ok(None)
        }
    }

    /// Parses a `WHERE` expression.
    fn parse_expression(&mut self) -> (r: Result<Expr, String>)
        requires
            old(self).wf(),
        ensures
            final(self).wf(),
            final(self).toks() == old(self).toks(),
            match r {
                Ok(e) => spec_parse_expr(old(self).toks(), old(self).pos()) == Ok::<_, ()>(
                    (e@, final(self).pos()),
                ) && old(self).pos() < final(self).pos(),
                Err(_) => spec_parse_expr(old(self).toks(), old(self).pos()) is Err,
            },
    {
        self.parse_or_expr()
    }

    /// Parses a left-associative chain of `OR`ed `AND` expressions.
    #[verifier::loop_isolation(false)]
    fn parse_or_expr(&mut self) -> (r: Result<Expr, String>)
        requires
            old(self).wf(),
        ensures
            final(self).wf(),
            final(self).toks() == old(self).toks(),
            match r {
                Ok(e) => spec_parse_expr(old(self).toks(), old(self).pos()) == Ok::<_, ()>(
                    (e@, final(self).pos()),
                ) && old(self).pos() < final(self).pos(),
                Err(_) => spec_parse_expr(old(self).toks(), old(self).pos()) is Err,
            },
    {
        let ghost ts = self.toks();
        let mut expr = match self.parse_and_expr() {
            Ok(e) => e,
            Err(e) => {
                return Err(e);
            },
        };
        while matches!(self.current_token(), Token::Or)
            invariant
                self.wf(),
                self.toks() == ts,
                old(self).pos() < self.pos(),
                spec_parse_expr(ts, old(self).pos()) == spec_parse_or_rest(
                    ts,
                    self.pos(),
                    expr@,
                ),
            decreases ts.len() - self.pos(),
        {
            self.advance();
            let right = match self.parse_and_expr() {
                Ok(e) => e,
                Err(e) => {
                    return Err(e);
                },
            };
            expr = Expr::Or { left: Box::new(expr), right: Box::new(right) };
        }
        Ok(expr)
    }

    /// Parses a left-associative chain of `AND`ed comparisons.
    #[verifier::loop_isolation(false)]
    fn parse_and_expr(&mut self) -> (r: Result<Expr, String>)
        requires
            old(self).wf(),
        ensures
            final(self).wf(),
            final(self).toks() == old(self).toks(),
            match r {
                Ok(e) => spec_parse_and(old(self).toks(), old(self).pos()) == Ok::<_, ()>(
                    (e@, final(self).pos()),
                ) && old(self).pos() < final(self).pos(),
                Err(_) => spec_parse_and(old(self).toks(), old(self).pos()) is Err,
            },
    {
        let ghost ts = self.toks();
        let mut expr = match self.parse_op_expr() {
            Ok(e) => e,
            Err(e) => {
                return Err(e);
            },
        };
        while matches!(self.current_token(), Token::And)
            invariant
                self.wf(),
                self.toks() == ts,
                old(self).pos() < self.pos(),
                spec_parse_and(ts, old(self).pos()) == spec_parse_and_rest(
                    ts,
                    self.pos(),
                    expr@,
                ),
            decreases ts.len() - self.pos(),
        {
            self.advance();
            let right = match self.parse_op_expr() {
                Ok(e) => e,
                Err(e) => {
                    return Err(e);
                },
            };
            expr = Expr::And { left: Box::new(expr), right: Box::new(right) };
        }
        Ok(expr)
    }

    /// Parses one `column OPERATOR literal` comparison.
    fn parse_op_expr(&mut self) -> (r: Result<Expr, String>)
        requires
            old(self).wf(),
        ensures
            final(self).wf(),
            final(self).toks() == old(self).toks(),
            match r {
                Ok(e) => spec_parse_cmp(old(self).toks(), old(self).pos()) == Ok::<_, ()>(
                    (e@, final(self).pos()),
                ) && old(self).pos() < final(self).pos(),
                Err(_) => spec_parse_cmp(old(self).toks(), old(self).pos()) is Err,
            },
    {
        let column = match self.consume_ident() {
            Ok(n) => n,
            Err(e) => {
                return Err(e);
            },
        };
        let op: Option<ComparisonOp> = match self.current_token() {
            Token::Lower => Some(ComparisonOp::Lt),
            Token::Greater => Some(ComparisonOp::Gt),
            Token::Equal => Some(ComparisonOp::Eq),
            _ => None,
        };
        let op = match op {
            Some(op) => op,
            None => {
                return Err(String::from_str("this token is not a valid operator"));
            },
        };
        self.advance();
        let value = match self.consume_value() {
            Ok(v) => v,
            Err(e) => {
                return Err(e);
            },
        };
        Ok(Expr::Comparison { column, op, value })
    }

    /// Parses the keys of an `ORDER BY` clause; a key without a direction
    /// sorts ascending.
    #[verifier::loop_isolation(false)]
    fn parse_order_by(&mut self) -> (r: Result<Vec<OrderByClause>, String>)
        requires
            old(self).wf(),
        ensures
            final(self).wf(),
            final(self).toks() == old(self).toks(),
            match r {
                Ok(keys) => spec_parse_order_by(old(self).toks(), old(self).pos(), Seq::empty())
                    == Ok::<_, ()>((order_by_views(keys@), final(self).pos())),
                Err(_) => spec_parse_order_by(old(self).toks(), old(self).pos(), Seq::empty())
                    is Err,
            },
    {
        let ghost ts = self.toks();
        let ghost p_start = self.pos();
        let mut clauses: Vec<OrderByClause> = Vec::new();
        proof {
            assert(order_by_views(clauses@) =~= Seq::<OrderByV>::empty());
        }
        loop
            invariant
                self.wf(),
                self.toks() == ts,
                spec_parse_order_by(ts, p_start, Seq::empty()) == spec_parse_order_by(
                    ts,
                    self.pos(),
                    order_by_views(clauses@),
                ),
            decreases ts.len() - self.pos(),
        {
            let column = match self.consume_ident() {
                Ok(n) => n,
                Err(e) => {
                    return Err(e);
                },
            };
            let direction = if matches!(self.current_token(), Token::Asc) {
                self.advance();
                SortDirection::Asc
            } else if matches!(self.current_token(), Token::Desc) {
                self.advance();
                SortDirection::Desc
            } else {
                SortDirection::Asc
            };
            let ghost prev = clauses@;
            let clause = OrderByClause { column, direction };
            let ghost cv = clause@;
            clauses.push(clause);
            proof {
                assert(order_by_views(clauses@) =~= order_by_views(prev).push(cv));
            }
            if matches!(self.current_token(), Token::Comma) {
                self.advance();
            } else {
                break ;
            }
        }
        Ok(clauses)
    }

    /// Parses a full `UPDATE` statement; the `WHERE` clause is required.
    #[verifier::loop_isolation(false)]
    #[verifier::rlimit(100)]
    fn parse_update(&mut self) -> (r: Result<Statement, String>)
        requires
            old(self).wf(),
        ensures
            final(self).wf(),
            final(self).toks() == old(self).toks(),
            match r {
                Ok(st) => spec_parse_update(old(self).toks(), old(self).pos()) == Ok::<_, ()>(
                    (st@, final(self).pos()),
                ),
                Err(_) => spec_parse_update(old(self).toks(), old(self).pos()) is Err,
            },
    {
        match self.consume(Token::Update) {
            Ok(_) => (),
            Err(e) => {
                return Err(e);
            },
        }
        let table = match self.consume_ident() {
            Ok(n) => n,
            Err(e) => {
                return Err(e);
            },
        };
        match self.consume(Token::SetKw) {
            Ok(_) => (),
            Err(e) => {
                return Err(e);
            },
        }

        let ghost ts = self.toks();
        let ghost p_start = self.pos();
        let mut assignments: Vec<(String, Value)> = Vec::new();
        proof {
            assert(assignment_views(assignments@) =~= Seq::<(Seq<char>, ValueV)>::empty());
        }
        loop
            invariant
                self.wf(),
                self.toks() == ts,
                spec_parse_assignments(ts, p_start, Seq::empty()) == spec_parse_assignments(
                    ts,
                    self.pos(),
                    assignment_views(assignments@),
                ),
            decreases ts.len() - self.pos(),
        {
            let column = match self.consume_ident() {
                Ok(n) => n,
                Err(e) => {
                    return Err(e);
                },
            };
            match self.consume(Token::Equal) {
                Ok(_) => (),
                Err(e) => {
                    return Err(e);
                },
            }
            let value = match self.consume_value() {
                Ok(v) => v,
                Err(e) => {
                    return Err(e);
                },
            };
            let ghost prev = assignments@;
            let ghost cv = (column@, value@);
            assignments.push((column, value));
            proof {
                assert(assignment_views(assignments@) =~= assignment_views(prev).push(cv));
            }
            if matches!(self.current_token(), Token::Comma) {
                self.advance();
            } else {
                break ;
            }
        }

        match self.consume(Token::Where) {
            Ok(_) => (),
            Err(e) => {
                return Err(e);
            },
        }
        let where_clause = match self.parse_expression() {
            Ok(e) => e,
            Err(e) => {
                return Err(e);
            },
        };
        Ok(Statement::Update(Update { table, assignments, where_clause }))
    }

    /// Parses a full `DELETE` statement; the `WHERE` clause is required.
    fn parse_delete(&mut self) -> (r: Result<Statement, String>)
        requires
            old(self).wf(),
        ensures
            final(self).wf(),
            final(self).toks() == old(self).toks(),
            match r {
                Ok(st) => spec_parse_delete(old(self).toks(), old(self).pos()) == Ok::<_, ()>(
                    (st@, final(self).pos()),
                ),
                Err(_) => spec_parse_delete(old(self).toks(), old(self).pos()) is Err,
            },
    {
        match self.consume(Token::Delete) {
            Ok(_) => (),
            Err(e) => {
                return Err(e);
            },
        }
        match self.consume(Token::From) {
            Ok(_) => (),
            Err(e) => {
                return Err(e);
            },
        }
        let table = match self.consume_ident() {
            Ok(n) => n,
            Err(e) => {
                return Err(e);
            },
        };
        match self.consume(Token::Where) {
            Ok(_) => (),
            Err(e) => {
                return Err(e);
            },
        }
        let where_clause = match self.parse_expression() {
            Ok(e) => e,
            Err(e) => {
                return Err(e);
            },
        };
        Ok(Statement::Delete(Delete { table, where_clause }))
    }
}

// ---------------------------------------------------------------------
// Parsed statements of a well-formed token stream carry only comparable
// decimal literals.
// ---------------------------------------------------------------------

proof fn lemma_value_list_wf(ts: Seq<TokenV>, pos: nat, acc: Seq<ValueV>)
    requires
        token_stream_wf(ts),
        crate::value::all_wf(acc),
    ensures
        spec_parse_value_list(ts, pos, acc) matches Ok(r) ==> crate::value::all_wf(r.0),
    decreases ts.len() - pos,
{
    if pos < ts.len() {
        match spec_token_value(ts[pos as int]) {
            None => {},
            Some(v) => {
                assert(v.wf());
                let acc2 = acc.push(v);
                assert forall|i: int| 0 <= i < acc2.len() implies acc2[i].wf() by {
                    if i < acc.len() {
                        assert(acc[i].wf());
                    }
                }
                let p = pos + 1;
                if p < ts.len() && ts[p as int] is Comma {
                    lemma_value_list_wf(ts, p + 1, acc2);
                }
            },
        }
    }
}

proof fn lemma_cmp_wf(ts: Seq<TokenV>, pos: nat)
    requires
        token_stream_wf(ts),
    ensures
        spec_parse_cmp(ts, pos) matches Ok(r) ==> crate::ast::expr_wf(r.0),
{
}

proof fn lemma_and_rest_wf(ts: Seq<TokenV>, pos: nat, e: ExprV)
    requires
        token_stream_wf(ts),
        crate::ast::expr_wf(e),
    ensures
        spec_parse_and_rest(ts, pos, e) matches Ok(r) ==> crate::ast::expr_wf(r.0),
    decreases ts.len() - pos,
{
    if pos < ts.len() && ts[pos as int] is And {
        lemma_cmp_wf(ts, pos + 1);
        match spec_parse_cmp(ts, pos + 1) {
            Err(_) => {},
            Ok((r, p2)) => {
                if pos < p2 <= ts.len() {
                    lemma_and_rest_wf(
                        ts,
                        p2,
                        ExprV::And { left: Box::new(e), right: Box::new(r) },
                    );
                }
            },
        }
    }
}

proof fn lemma_and_wf(ts: Seq<TokenV>, pos: nat)
    requires
        token_stream_wf(ts),
    ensures
        spec_parse_and(ts, pos) matches Ok(r) ==> crate::ast::expr_wf(r.0),
{
    lemma_cmp_wf(ts, pos);
    match spec_parse_cmp(ts, pos) {
        Err(_) => {},
        Ok((e, p)) => {
            lemma_and_rest_wf(ts, p, e);
        },
    }
}

proof fn lemma_or_rest_wf(ts: Seq<TokenV>, pos: nat, e: ExprV)
    requires
        token_stream_wf(ts),
        crate::ast::expr_wf(e),
    ensures
        spec_parse_or_rest(ts, pos, e) matches Ok(r) ==> crate::ast::expr_wf(r.0),
    decreases ts.len() - pos,
{
    if pos < ts.len() && ts[pos as int] is Or {
        lemma_and_wf(ts, pos + 1);
        match spec_parse_and(ts, pos + 1) {
            Err(_) => {},
            Ok((r, p2)) => {
                if pos < p2 <= ts.len() {
                    lemma_or_rest_wf(ts, p2, ExprV::Or { left: Box::new(e), right: Box::new(r) });
                }
            },
        }
    }
}

/// A parsed `WHERE` expression of a well-formed stream is well formed.
pub proof fn lemma_expr_wf(ts: Seq<TokenV>, pos: nat)
    requires
        token_stream_wf(ts),
    ensures
        spec_parse_expr(ts, pos) matches Ok(r) ==> crate::ast::expr_wf(r.0),
{
    lemma_and_wf(ts, pos);
    match spec_parse_and(ts, pos) {
        Err(_) => {},
        Ok((e, p)) => {
            lemma_or_rest_wf(ts, p, e);
        },
    }
}

proof fn lemma_assignments_wf(ts: Seq<TokenV>, pos: nat, acc: Seq<(Seq<char>, ValueV)>)
    requires
        token_stream_wf(ts),
        forall|k: int| 0 <= k < acc.len() ==> (#[trigger] acc[k]).1.wf(),
    ensures
        spec_parse_assignments(ts, pos, acc) matches Ok(r) ==> forall|k: int|
            0 <= k < r.0.len() ==> (#[trigger] r.0[k]).1.wf(),
    decreases ts.len() - pos,
{
    if pos < ts.len() {
        match ts[pos as int] {
            TokenV::Ident(_) => {
                if pos + 1 < ts.len() && ts[pos as int + 1] is Equal && pos + 2 < ts.len() {
                    match spec_token_value(ts[pos as int + 2]) {
                        None => {},
                        Some(v) => {
                            let column = ts[pos as int]->Ident_0;
                            let acc2 = acc.push((column, v));
                            assert forall|k: int| 0 <= k < acc2.len() implies acc2[k].1.wf() by {
                                if k < acc.len() {
                                    assert(acc[k].1.wf());
                                }
                            }
                            let p = pos + 3;
                            if p < ts.len() && ts[p as int] is Comma {
                                lemma_assignments_wf(ts, p + 1, acc2);
                            }
                        },
                    }
                }
            },
            _ => {},
        }
    }
}

/// A statement parsed from a well-formed token stream carries only
/// comparable decimal literals.
pub proof fn lemma_parse_wf(ts: Seq<TokenV>, pos: nat)
    requires
        token_stream_wf(ts),
    ensures
        spec_parse_at(ts, pos) matches Ok(st) ==> crate::ast::stmt_wf(st),
{
    assert forall|p: nat, acc: Seq<ValueV>|
        crate::value::all_wf(acc) implies (match #[trigger] spec_parse_value_list(ts, p, acc) {
        Ok(r2) => crate::value::all_wf(r2.0),
        Err(_) => true,
    }) by {
        lemma_value_list_wf(ts, p, acc);
    }
    assert forall|p: nat| true implies (match #[trigger] spec_parse_expr(ts, p) {
        Ok(r2) => crate::ast::expr_wf(r2.0),
        Err(_) => true,
    }) by {
        lemma_expr_wf(ts, p);
    }
    assert forall|p: nat| true implies (match #[trigger] spec_parse_assignments(
        ts,
        p,
        Seq::empty(),
    ) {
        Ok(r2) => forall|k: int| 0 <= k < r2.0.len() ==> (#[trigger] r2.0[k]).1.wf(),
        Err(_) => true,
    }) by {
        lemma_assignments_wf(ts, p, Seq::empty());
    }
    assert(crate::value::all_wf(Seq::<ValueV>::empty()));
}

} // verus!
