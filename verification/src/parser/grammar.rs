//! The grammar: what the syntax trees of a token sequence are.
//!
//! ```text
//! program    := statement*
//! statement  := "{" statement* "}"
//!             | "return" expr ";"
//!             | "if" "(" expr ")" statement ("else" statement)?
//!             | "while" "(" expr ")" statement
//!             | "for" "(" expr? ";" expr? ";" expr? ")" statement
//!             | expr ";"
//! expr       := assign
//! assign     := equality ("=" assign)?
//! equality   := relational (("==" | "!=") relational)*
//! relational := additive (("<" | "<=" | ">" | ">=") additive)*
//! additive   := term (("+" | "-") term)*
//! term       := unary (("*" | "/") unary)*
//! unary      := ("+" | "-")? primary
//! primary    := number | identifier | "(" expr ")"
//! ```
//!
//! Each rule is a spec function of the token sequence, a position in it and
//! the symbol table so far. It gives the tree, the number of tokens that the
//! phrase takes and the table after it; or the first error.
use super::node::SpecNode;
use crate::tokenizer::token::SpecToken;
use vstd::prelude::*;

verus! {

/// The symbol table: the names of the variables in the order in which they
/// first occurred. The variable at index `k` lives `8 * k` bytes below the
/// frame base.
pub type Table = Seq<Seq<char>>;

/// A phrase that a rule has recognised.
pub struct Parsed {
    /// The tree of the phrase.
    pub node: SpecNode,
    /// The number of tokens that the phrase takes.
    pub used: nat,
    /// The symbol table after the phrase.
    pub table: Table,
}

/// An optional phrase with the mark that closes it: a clause of a `for`
/// header.
pub struct ParsedClause {
    pub node: Option<Box<SpecNode>>,
    pub used: nat,
    pub table: Table,
}

/// A sequence of statements.
pub struct ParsedList {
    pub nodes: Seq<SpecNode>,
    pub used: nat,
    pub table: Table,
}

/// Why a token sequence has no syntax tree: the model of the parser's error.
pub enum SpecError {
    /// At the given position one of the listed tokens was needed, and
    /// another token, or the end of the input, was found.
    Expected(Seq<SpecToken>, int),
    /// The `=` at the given position follows an expression that is not a
    /// variable.
    AssignTarget(int),
    /// The identifier at the given position would be one variable more than
    /// offsets can be given to.
    TooManyVariables(int),
}

/// The size of a variable's slot in bytes.
pub const SLOT: usize = 8;

/// The token at `pos`, if there is one.
pub open spec fn peek(ts: Seq<SpecToken>, pos: int) -> Option<SpecToken> {
    if 0 <= pos < ts.len() {
        Some(ts[pos])
    } else {
        None
    }
}

/// Whether `after` holds the names of `before` at the same places: the
/// variables known before have kept their offsets.
pub open spec fn extends(after: Table, before: Table) -> bool {
    &&& before.len() <= after.len()
    &&& forall|k: int| 0 <= k < before.len() ==> after[k] == before[k]
}

/// The number of tokens from `pos` on.
pub open spec fn remaining(ts: Seq<SpecToken>, pos: int) -> nat {
    if pos <= ts.len() {
        (ts.len() - pos) as nat
    } else {
        0
    }
}

/// The offset of `name` and the table that holds it: the offset it has, or
/// the next free one.
pub open spec fn register(table: Table, name: Seq<char>) -> Option<(usize, Table)> {
    if table.contains(name) {
        Some(((SLOT * table.index_of(name)) as usize, table))
    } else if SLOT * table.len() <= usize::MAX {
        Some(((SLOT * table.len()) as usize, table.push(name)))
    } else {
        None
    }
}

/// The phrase `p` followed by `n` more tokens, with the tree `node`.
pub open spec fn extend(p: Parsed, n: nat, node: SpecNode) -> Parsed {
    Parsed { node, used: p.used + n, table: p.table }
}

/// The binary operators by the level at which they bind: 0 for `*` `/`,
/// 1 for `+` `-`, 2 for the order comparisons, 3 for `==` `!=`. A lower
/// level binds tighter.
pub open spec fn binds_at(t: SpecToken, level: nat) -> bool {
    match t {
        SpecToken::Multiple | SpecToken::Devide => level == 0,
        SpecToken::Plus | SpecToken::Minus => level == 1,
        SpecToken::Less | SpecToken::LessEqual | SpecToken::More | SpecToken::MoreEqual => level
            == 2,
        SpecToken::Equal | SpecToken::NotEqual => level == 3,
        _ => false,
    }
}

/// The loosest level of binary operators.
pub open spec fn top_level() -> nat {
    3
}

/// The tree of `left op right`, where `left` and `right` stand in this
/// order in the source.
///
/// `>` and `>=` become `<` and `<=` with the operands exchanged; every
/// other operator keeps its operands in the order of the source.
pub open spec fn binary(op: SpecToken, left: SpecNode, right: SpecNode) -> SpecNode {
    match op {
        SpecToken::Multiple => SpecNode::Multiple(Box::new(left), Box::new(right)),
        SpecToken::Devide => SpecNode::Devide(Box::new(left), Box::new(right)),
        SpecToken::Plus => SpecNode::Plus(Box::new(left), Box::new(right)),
        SpecToken::Minus => SpecNode::Minus(Box::new(left), Box::new(right)),
        SpecToken::Less => SpecNode::Less(Box::new(left), Box::new(right)),
        SpecToken::More => SpecNode::Less(Box::new(right), Box::new(left)),
        SpecToken::LessEqual => SpecNode::LessEqual(Box::new(left), Box::new(right)),
        SpecToken::MoreEqual => SpecNode::LessEqual(Box::new(right), Box::new(left)),
        SpecToken::Equal => SpecNode::Equal(Box::new(left), Box::new(right)),
        SpecToken::NotEqual => SpecNode::UnEqual(Box::new(left), Box::new(right)),
        _ => left,
    }
}

/// `0 - operand`, the tree of a negation.
pub open spec fn negation(operand: SpecNode) -> SpecNode {
    SpecNode::Minus(Box::new(SpecNode::Number(0)), Box::new(operand))
}

/// primary := number | identifier | "(" expr ")"
///
/// An identifier gets the offset that the table holds for it, or the next
/// free one.
#[verifier::opaque]
pub open spec fn primary(ts: Seq<SpecToken>, pos: int, table: Table) -> Result<Parsed, SpecError>
    decreases remaining(ts, pos), 1nat,
{
    match peek(ts, pos) {
        Some(SpecToken::Identity(name)) => match register(table, name) {
            Some((offset, after)) => Ok(
                Parsed { node: SpecNode::LocalVariable(name, offset), used: 1, table: after },
            ),
            None => Err(SpecError::TooManyVariables(pos)),
        },
        Some(SpecToken::Number(n)) => Ok(Parsed { node: SpecNode::Number(n), used: 1, table }),
        _ => in_paren(ts, pos, table),
    }
}

/// "(" expr ")"
#[verifier::opaque]
pub open spec fn in_paren(ts: Seq<SpecToken>, pos: int, table: Table) -> Result<Parsed, SpecError>
    decreases remaining(ts, pos), 0nat,
{
    if peek(ts, pos) == Some(SpecToken::LeftParen) {
        match expr(ts, pos + 1, table) {
            Err(e) => Err(e),
            Ok(p) => {
                if peek(ts, pos + 1 + p.used) == Some(SpecToken::RightParen) {
                    Ok(extend(p, 2, p.node))
                } else {
                    Err(SpecError::Expected(seq![SpecToken::RightParen], pos + 1 + p.used))
                }
            },
        }
    } else {
        Err(SpecError::Expected(seq![SpecToken::LeftParen], pos))
    }
}

/// unary := ("+" | "-")? primary
///
/// `+` leaves its operand as it is. `-` before a number is the negated
/// number where that fits, and `0 - operand` otherwise.
#[verifier::opaque]
pub open spec fn unary(ts: Seq<SpecToken>, pos: int, table: Table) -> Result<Parsed, SpecError>
    decreases remaining(ts, pos), 2nat,
{
    match peek(ts, pos) {
        Some(SpecToken::Plus) => match primary(ts, pos + 1, table) {
            Err(e) => Err(e),
            Ok(p) => Ok(extend(p, 1, p.node)),
        },
        Some(SpecToken::Minus) => match peek(ts, pos + 1) {
            Some(SpecToken::Number(n)) if n > isize::MIN => Ok(
                Parsed { node: SpecNode::Number((-n) as isize), used: 2, table },
            ),
            _ => match primary(ts, pos + 1, table) {
                Err(e) => Err(e),
                Ok(p) => Ok(extend(p, 1, negation(p.node))),
            },
        },
        _ => primary(ts, pos, table),
    }
}

/// An operand of the operators of `level`: a unary expression below the
/// tightest level, a chain of the next tighter level elsewhere.
#[verifier::opaque]
pub open spec fn operand(ts: Seq<SpecToken>, pos: int, table: Table, level: nat) -> Result<
    Parsed,
    SpecError,
>
    decreases remaining(ts, pos), 3 + 2 * level, 0nat,
{
    if level == 0 {
        unary(ts, pos, table)
    } else {
        chain(ts, pos, table, (level - 1) as nat)
    }
}

/// operand (op operand)*, for the operators `op` of `level`, grouped to the
/// left.
#[verifier::opaque]
pub open spec fn chain(ts: Seq<SpecToken>, pos: int, table: Table, level: nat) -> Result<
    Parsed,
    SpecError,
>
    decreases remaining(ts, pos), 3 + 2 * level, 2nat,
{
    match operand(ts, pos, table, level) {
        Err(e) => Err(e),
        Ok(p) => match chain_rest(ts, pos + p.used, p.table, level, p.node) {
            Err(e) => Err(e),
            Ok(r) => Ok(extend(r, p.used, r.node)),
        },
    }
}

/// (op operand)*, after the operand `left`.
#[verifier::opaque]
pub open spec fn chain_rest(
    ts: Seq<SpecToken>,
    pos: int,
    table: Table,
    level: nat,
    left: SpecNode,
) -> Result<Parsed, SpecError>
    decreases remaining(ts, pos), 3 + 2 * level, 1nat,
{
    match peek(ts, pos) {
        Some(op) if binds_at(op, level) => match operand(ts, pos + 1, table, level) {
            Err(e) => Err(e),
            Ok(p) => match chain_rest(
                ts,
                pos + 1 + p.used,
                p.table,
                level,
                binary(op, left, p.node),
            ) {
                Err(e) => Err(e),
                Ok(r) => Ok(extend(r, 1 + p.used, r.node)),
            },
        },
        _ => Ok(Parsed { node: left, used: 0, table }),
    }
}

/// assign := equality ("=" assign)?
///
/// The left side of `=` must be a variable.
#[verifier::opaque]
pub open spec fn assign(ts: Seq<SpecToken>, pos: int, table: Table) -> Result<Parsed, SpecError>
    decreases remaining(ts, pos), 20nat,
{
    match chain(ts, pos, table, top_level()) {
        Err(e) => Err(e),
        Ok(p) => {
            if peek(ts, pos + p.used) == Some(SpecToken::Assign) {
                if p.node is LocalVariable {
                    match assign(ts, pos + p.used + 1, p.table) {
                        Err(e) => Err(e),
                        Ok(r) => Ok(
                            extend(
                                r,
                                p.used + 1,
                                SpecNode::Assign(Box::new(p.node), Box::new(r.node)),
                            ),
                        ),
                    }
                } else {
                    Err(SpecError::AssignTarget(pos + p.used))
                }
            } else {
                Ok(p)
            }
        },
    }
}

/// expr := assign
#[verifier::opaque]
pub open spec fn expr(ts: Seq<SpecToken>, pos: int, table: Table) -> Result<Parsed, SpecError>
    decreases remaining(ts, pos), 21nat,
{
    assign(ts, pos, table)
}

/// expr `close`: an expression and the token that must follow it.
#[verifier::opaque]
pub open spec fn closed_expr(
    ts: Seq<SpecToken>,
    pos: int,
    table: Table,
    close: SpecToken,
) -> Result<Parsed, SpecError>
    decreases remaining(ts, pos), 22nat,
{
    match expr(ts, pos, table) {
        Err(e) => Err(e),
        Ok(p) => {
            if peek(ts, pos + p.used) == Some(close) {
                Ok(extend(p, 1, p.node))
            } else {
                Err(SpecError::Expected(seq![close], pos + p.used))
            }
        },
    }
}

/// expr? `close`: a clause of a `for` header, which may be empty.
#[verifier::opaque]
pub open spec fn clause(ts: Seq<SpecToken>, pos: int, table: Table, close: SpecToken) -> Result<
    ParsedClause,
    SpecError,
>
    decreases remaining(ts, pos), 23nat,
{
    if peek(ts, pos) == Some(close) {
        Ok(ParsedClause { node: None, used: 1, table })
    } else {
        match closed_expr(ts, pos, table, close) {
            Err(e) => Err(e),
            Ok(p) => Ok(ParsedClause { node: Some(Box::new(p.node)), used: p.used, table: p.table }),
        }
    }
}

/// The phrase of `r` with `n` more tokens before it.
pub open spec fn longer(r: Result<Parsed, SpecError>, n: nat) -> Result<Parsed, SpecError> {
    match r {
        Ok(p) => Ok(extend(p, n, p.node)),
        Err(e) => Err(e),
    }
}

/// The statement that starts at `pos`.
#[verifier::opaque]
pub open spec fn statement(ts: Seq<SpecToken>, pos: int, table: Table) -> Result<Parsed, SpecError>
    decreases remaining(ts, pos), 30nat,
{
    match peek(ts, pos) {
        Some(SpecToken::LeftBlock) => longer(block(ts, pos + 1, table), 1),
        Some(SpecToken::Return) => longer(return_rest(ts, pos + 1, table), 1),
        Some(SpecToken::If) => longer(if_rest(ts, pos + 1, table), 1),
        Some(SpecToken::For) => longer(for_rest(ts, pos + 1, table), 1),
        Some(SpecToken::While) => longer(while_rest(ts, pos + 1, table), 1),
        _ => closed_expr(ts, pos, table, SpecToken::EndExpr),
    }
}

/// What [`statement`] is by the token at `pos`.
pub proof fn lemma_statement_cases(ts: Seq<SpecToken>, pos: int, table: Table)
    ensures
        statement(ts, pos, table) == match peek(ts, pos) {
            Some(SpecToken::LeftBlock) => longer(block(ts, pos + 1, table), 1),
            Some(SpecToken::Return) => longer(return_rest(ts, pos + 1, table), 1),
            Some(SpecToken::If) => longer(if_rest(ts, pos + 1, table), 1),
            Some(SpecToken::For) => longer(for_rest(ts, pos + 1, table), 1),
            Some(SpecToken::While) => longer(while_rest(ts, pos + 1, table), 1),
            _ => closed_expr(ts, pos, table, SpecToken::EndExpr),
        },
{
    reveal(statement);
    reveal(block);
    reveal(return_rest);
    reveal(if_rest);
    reveal(for_rest);
    reveal(while_rest);
    reveal(closed_expr);
}

/// expr ";", after `return`.
#[verifier::opaque]
pub open spec fn return_rest(ts: Seq<SpecToken>, pos: int, table: Table) -> Result<
    Parsed,
    SpecError,
>
    decreases remaining(ts, pos), 29nat,
{
    match closed_expr(ts, pos, table, SpecToken::EndExpr) {
        Err(e) => Err(e),
        Ok(p) => Ok(extend(p, 0, SpecNode::Return(Box::new(p.node)))),
    }
}

/// "(" expr ")" statement ("else" statement)?, after `if`.
#[verifier::opaque]
pub open spec fn if_rest(ts: Seq<SpecToken>, pos: int, table: Table) -> Result<Parsed, SpecError>
    decreases remaining(ts, pos), 33nat,
{
    match in_paren(ts, pos, table) {
        Err(e) => Err(e),
        Ok(c) => match statement(ts, pos + c.used, c.table) {
            Err(e) => Err(e),
            Ok(t) => {
                let at = pos + c.used + t.used;
                if peek(ts, at) == Some(SpecToken::Else) {
                    match statement(ts, at + 1, t.table) {
                        Err(e) => Err(e),
                        Ok(e) => Ok(
                            extend(
                                e,
                                c.used + t.used + 1,
                                SpecNode::If(
                                    Box::new(c.node),
                                    Box::new(t.node),
                                    Some(Box::new(e.node)),
                                ),
                            ),
                        ),
                    }
                } else {
                    Ok(extend(t, c.used, SpecNode::If(Box::new(c.node), Box::new(t.node), None)))
                }
            },
        },
    }
}

/// What [`if_rest`] is by its parts.
pub proof fn lemma_if_cases(ts: Seq<SpecToken>, pos: int, table: Table)
    ensures
        if_rest(ts, pos, table) == match in_paren(ts, pos, table) {
            Err(e) => Err(e),
            Ok(c) => match statement(ts, pos + c.used, c.table) {
                Err(e) => Err(e),
                Ok(t) => {
                    let at = pos + c.used + t.used;
                    if peek(ts, at) == Some(SpecToken::Else) {
                        match statement(ts, at + 1, t.table) {
                            Err(e) => Err(e),
                            Ok(e) => Ok(
                                extend(
                                    e,
                                    c.used + t.used + 1,
                                    SpecNode::If(
                                        Box::new(c.node),
                                        Box::new(t.node),
                                        Some(Box::new(e.node)),
                                    ),
                                ),
                            ),
                        }
                    } else {
                        Ok(
                            extend(
                                t,
                                c.used,
                                SpecNode::If(Box::new(c.node), Box::new(t.node), None),
                            ),
                        )
                    }
                },
            },
        },
{
    reveal(if_rest);
    reveal(in_paren);
    reveal(statement);
}

/// "(" expr ")" statement, after `while`.
#[verifier::opaque]
pub open spec fn while_rest(ts: Seq<SpecToken>, pos: int, table: Table) -> Result<
    Parsed,
    SpecError,
>
    decreases remaining(ts, pos), 33nat,
{
    match in_paren(ts, pos, table) {
        Err(e) => Err(e),
        Ok(c) => match statement(ts, pos + c.used, c.table) {
            Err(e) => Err(e),
            Ok(b) => Ok(extend(b, c.used, SpecNode::While(Box::new(c.node), Box::new(b.node)))),
        },
    }
}

/// "(" expr? ";" expr? ";" expr? ")" statement, after `for`.
#[verifier::opaque]
pub open spec fn for_rest(ts: Seq<SpecToken>, pos: int, table: Table) -> Result<Parsed, SpecError>
    decreases remaining(ts, pos), 33nat,
{
    if peek(ts, pos) == Some(SpecToken::LeftParen) {
        match clause(ts, pos + 1, table, SpecToken::EndExpr) {
            Err(e) => Err(e),
            Ok(init) => match clause(ts, pos + 1 + init.used, init.table, SpecToken::EndExpr) {
                Err(e) => Err(e),
                Ok(test) => match clause(
                    ts,
                    pos + 1 + init.used + test.used,
                    test.table,
                    SpecToken::RightParen,
                ) {
                    Err(e) => Err(e),
                    Ok(step) => match statement(
                        ts,
                        pos + 1 + init.used + test.used + step.used,
                        step.table,
                    ) {
                        Err(e) => Err(e),
                        Ok(b) => Ok(
                            extend(
                                b,
                                1 + init.used + test.used + step.used,
                                SpecNode::For(init.node, test.node, step.node, Box::new(b.node)),
                            ),
                        ),
                    },
                },
            },
        }
    } else {
        Err(SpecError::Expected(seq![SpecToken::LeftParen], pos))
    }
}

/// statement* "}", after `{`: the block.
#[verifier::opaque]
pub open spec fn block(ts: Seq<SpecToken>, pos: int, table: Table) -> Result<Parsed, SpecError>
    decreases remaining(ts, pos), 32nat,
{
    match block_items(ts, pos, table) {
        Err(e) => Err(e),
        Ok(l) => Ok(Parsed { node: SpecNode::Block(l.nodes), used: l.used, table: l.table }),
    }
}

/// statement* "}", after `{`: the statements. The count of tokens includes
/// the `}`.
///
/// The test that a statement has taken a token is what makes the
/// definition well-founded; with a table that can be used it never fails,
/// since every statement takes at least one token.
#[verifier::opaque]
pub open spec fn block_items(ts: Seq<SpecToken>, pos: int, table: Table) -> Result<
    ParsedList,
    SpecError,
>
    decreases remaining(ts, pos), 31nat,
{
    match peek(ts, pos) {
        Some(SpecToken::RightBlock) => Ok(ParsedList { nodes: Seq::empty(), used: 1, table }),
        Some(_) => match statement(ts, pos, table) {
            Err(e) => Err(e),
            Ok(p) => {
                if p.used > 0 {
                    match block_items(ts, pos + p.used, p.table) {
                        Err(e) => Err(e),
                        Ok(l) => Ok(
                            ParsedList {
                                nodes: seq![p.node] + l.nodes,
                                used: p.used + l.used,
                                table: l.table,
                            },
                        ),
                    }
                } else {
                    Err(SpecError::Expected(seq![SpecToken::RightBlock], pos))
                }
            },
        },
        None => Err(SpecError::Expected(seq![SpecToken::RightBlock], pos)),
    }
}

/// statement*, to the end of the input.
///
/// The test that a statement has taken a token is what makes the
/// definition well-founded; with a table that can be used it never fails,
/// since every statement takes at least one token.
#[verifier::opaque]
pub open spec fn statements(ts: Seq<SpecToken>, pos: int, table: Table) -> Result<
    ParsedList,
    SpecError,
>
    decreases remaining(ts, pos),
{
    if !(0 <= pos < ts.len()) {
        Ok(ParsedList { nodes: Seq::empty(), used: 0, table })
    } else {
        match statement(ts, pos, table) {
            Err(e) => Err(e),
            Ok(p) => {
                if p.used > 0 {
                    match statements(ts, pos + p.used, p.table) {
                        Err(e) => Err(e),
                        Ok(l) => Ok(
                            ParsedList {
                                nodes: seq![p.node] + l.nodes,
                                used: p.used + l.used,
                                table: l.table,
                            },
                        ),
                    }
                } else {
                    Err(SpecError::Expected(seq![SpecToken::EndExpr], pos))
                }
            },
        }
    }
}

/// program := statement*
///
/// The trees of the statements of a whole token sequence and the symbol
/// table after them, from the table `table` on.
pub open spec fn program(ts: Seq<SpecToken>, table: Table) -> Result<ParsedList, SpecError> {
    statements(ts, 0, table)
}

} // verus!
