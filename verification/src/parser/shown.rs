//! Precedence and grouping, stated from the side of the trees: every
//! expression is the parse of its tokens written with the fewest parentheses.
use super::grammar::Parsed;
use super::grammar::SpecError;
use super::grammar::Table;
use super::grammar::assign;
use super::grammar::binary;
use super::grammar::binds_at;
use super::grammar::chain;
use super::grammar::chain_rest;
use super::grammar::expr;
use super::grammar::in_paren;
use super::grammar::longer;
use super::grammar::operand;
use super::grammar::peek;
use super::grammar::primary;
use super::grammar::register;
use super::grammar::unary;
use super::laws::agrees;
use super::laws::usable;
use super::node::SpecNode;
use super::node::expression;
use crate::tokenizer::token::SpecToken;
use vstd::prelude::*;

verus! {

/// The level at which an expression binds: -1 for a number or a variable,
/// the level of its operator for an operation, and one above the loosest
/// operator for an assignment.
pub open spec fn rank(e: SpecNode) -> int {
    match e {
        SpecNode::Multiple(_, _) | SpecNode::Devide(_, _) => 0,
        SpecNode::Plus(_, _) | SpecNode::Minus(_, _) => 1,
        SpecNode::Less(_, _) | SpecNode::LessEqual(_, _) => 2,
        SpecNode::Equal(_, _) | SpecNode::UnEqual(_, _) => 3,
        SpecNode::Assign(_, _) => 4,
        _ => -1,
    }
}

/// The operator of an operation as a token.
pub open spec fn operator(e: SpecNode) -> SpecToken {
    match e {
        SpecNode::Multiple(_, _) => SpecToken::Multiple,
        SpecNode::Devide(_, _) => SpecToken::Devide,
        SpecNode::Plus(_, _) => SpecToken::Plus,
        SpecNode::Minus(_, _) => SpecToken::Minus,
        SpecNode::Less(_, _) => SpecToken::Less,
        SpecNode::LessEqual(_, _) => SpecToken::LessEqual,
        SpecNode::Equal(_, _) => SpecToken::Equal,
        SpecNode::UnEqual(_, _) => SpecToken::NotEqual,
        _ => SpecToken::Assign,
    }
}

/// The tokens of an expression without parentheses around the whole of it.
///
/// The operand before an operator may be an operation of the same level,
/// since operations group to the left; the operand after it must bind
/// tighter. The value of an assignment may be an assignment.
pub open spec fn bare(e: SpecNode) -> Seq<SpecToken>
    decreases e, 0nat,
{
    match e {
        SpecNode::Number(v) => seq![SpecToken::Number(v)],
        SpecNode::LocalVariable(name, _) => seq![SpecToken::Identity(name)],
        SpecNode::Equal(l, r) => shown(*l, 3) + seq![SpecToken::Equal] + shown(*r, 2),
        SpecNode::UnEqual(l, r) => shown(*l, 3) + seq![SpecToken::NotEqual] + shown(*r, 2),
        SpecNode::Less(l, r) => shown(*l, 2) + seq![SpecToken::Less] + shown(*r, 1),
        SpecNode::LessEqual(l, r) => shown(*l, 2) + seq![SpecToken::LessEqual] + shown(*r, 1),
        SpecNode::Plus(l, r) => shown(*l, 1) + seq![SpecToken::Plus] + shown(*r, 0),
        SpecNode::Minus(l, r) => shown(*l, 1) + seq![SpecToken::Minus] + shown(*r, 0),
        SpecNode::Multiple(l, r) => shown(*l, 0) + seq![SpecToken::Multiple] + shown(*r, -1),
        SpecNode::Devide(l, r) => shown(*l, 0) + seq![SpecToken::Devide] + shown(*r, -1),
        SpecNode::Assign(l, r) => shown(*l, -1) + seq![SpecToken::Assign] + shown(*r, 4),
        _ => Seq::empty(),
    }
}

/// The tokens of an expression where operators up to `level` may stand
/// without parentheses: the expression as it is where it binds at `level` or
/// tighter, and in parentheses elsewhere.
pub open spec fn shown(e: SpecNode, level: int) -> Seq<SpecToken>
    decreases e, 1nat,
{
    if rank(e) <= level {
        bare(e)
    } else {
        seq![SpecToken::LeftParen] + bare(e) + seq![SpecToken::RightParen]
    }
}

/// Whether the tokens `s` stand in `ts` from `pos` on.
pub open spec fn stands(ts: Seq<SpecToken>, pos: int, s: Seq<SpecToken>) -> bool {
    &&& 0 <= pos
    &&& pos + s.len() <= ts.len()
    &&& forall|i: int| 0 <= i < s.len() ==> #[trigger] ts[pos + i] == s[i]
}

/// Whether a token could go on with an operand of the operators of `level`:
/// it is an operator of a tighter level.
pub open spec fn tighter(t: Option<SpecToken>, level: int) -> bool {
    match t {
        Some(t) => (binds_at(t, 0) && 0 < level) || (binds_at(t, 1) && 1 < level) || (binds_at(
            t,
            2,
        ) && 2 < level) || (binds_at(t, 3) && 3 < level),
        None => false,
    }
}

/// The phrase of `e` in `used` tokens, with the table as it was.
pub open spec fn found(e: SpecNode, used: nat, table: Table) -> Result<Parsed, SpecError> {
    Ok(Parsed { node: e, used, table })
}

/// Tokens that stand in the input, in two parts.
proof fn lemma_stands_parts(ts: Seq<SpecToken>, pos: int, a: Seq<SpecToken>, b: Seq<SpecToken>)
    requires
        stands(ts, pos, a + b),
    ensures
        stands(ts, pos, a),
        stands(ts, pos + a.len(), b),
{
    assert forall|i: int| 0 <= i < a.len() implies #[trigger] ts[pos + i] == a[i] by {
        assert((a + b)[i] == a[i]);
    }
    assert forall|i: int| 0 <= i < b.len() implies #[trigger] ts[pos + a.len() + i] == b[i] by {
        assert((a + b)[a.len() + i] == b[i]);
        assert(ts[pos + (a.len() + i)] == (a + b)[a.len() + i]);
    }
}

/// The three parts of the tokens of an operation or an assignment.
proof fn lemma_stands_operation(
    ts: Seq<SpecToken>,
    pos: int,
    a: Seq<SpecToken>,
    op: SpecToken,
    b: Seq<SpecToken>,
)
    requires
        stands(ts, pos, a + seq![op] + b),
    ensures
        stands(ts, pos, a),
        peek(ts, pos + a.len()) == Some(op),
        stands(ts, pos + a.len() + 1, b),
        (a + seq![op] + b).len() == a.len() + 1 + b.len(),
{
    lemma_stands_parts(ts, pos, a + seq![op], b);
    lemma_stands_parts(ts, pos, a, seq![op]);
    assert(ts[pos + a.len() + 0] == seq![op][0]);
}

/// Where no operator of `level` follows the operand `left`, the rest of the
/// chain is empty.
proof fn lemma_chain_ends(ts: Seq<SpecToken>, pos: int, table: Table, level: nat, left: SpecNode)
    requires
        !(peek(ts, pos) matches Some(t) && binds_at(t, level)),
    ensures
        chain_rest(ts, pos, table, level, left) == found(left, 0, table),
{
    reveal(chain_rest);
}

/// What a chain is by its first operand.
proof fn lemma_chain_starts(ts: Seq<SpecToken>, pos: int, table: Table, level: nat, p: Parsed)
    requires
        operand(ts, pos, table, level) == Ok::<Parsed, SpecError>(p),
    ensures
        chain(ts, pos, table, level) == longer(
            chain_rest(ts, pos + p.used, p.table, level, p.node),
            p.used,
        ),
{
    reveal(chain);
    reveal(operand);
    reveal(chain_rest);
}

/// What the rest of a chain is by its first operator and operand.
proof fn lemma_chain_goes_on(
    ts: Seq<SpecToken>,
    pos: int,
    table: Table,
    level: nat,
    left: SpecNode,
    op: SpecToken,
    p: Parsed,
)
    requires
        peek(ts, pos) == Some(op),
        binds_at(op, level),
        operand(ts, pos + 1, table, level) == Ok::<Parsed, SpecError>(p),
    ensures
        chain_rest(ts, pos, table, level, left) == longer(
            chain_rest(ts, pos + 1 + p.used, p.table, level, binary(op, left, p.node)),
            1 + p.used,
        ),
{
    reveal(chain_rest);
    reveal(operand);
}

/// What an operand is.
proof fn lemma_operand_is(ts: Seq<SpecToken>, pos: int, table: Table, level: nat)
    ensures
        operand(ts, pos, table, level) == if level == 0 {
            unary(ts, pos, table)
        } else {
            chain(ts, pos, table, (level - 1) as nat)
        },
{
    reveal(operand);
    reveal(unary);
    reveal(chain);
}

/// The measure of the induction for a chain: how far the level is from the
/// one of the expression, or more than that where parentheses are needed.
pub open spec fn distance(e: SpecNode, level: nat) -> nat {
    if rank(e) <= level {
        (level - rank(e)) as nat
    } else {
        20 + level
    }
}

/// A chain of the operators of `level` reads the tokens of an expression as
/// its first operand, where no tighter operator follows them.
proof fn lemma_chain_shown(e: SpecNode, level: nat, ts: Seq<SpecToken>, pos: int, table: Table)
    requires
        expression(e),
        agrees(e, table),
        usable(table),
        level <= 3,
        stands(ts, pos, shown(e, level as int)),
        !tighter(peek(ts, pos + shown(e, level as int).len()), level as int),
    ensures
        chain(ts, pos, table, level) == longer(
            chain_rest(ts, pos + shown(e, level as int).len(), table, level, e),
            shown(e, level as int).len(),
        ),
    decreases e, distance(e, level),
{
    let s = shown(e, level as int);
    let end = pos + s.len();
    if rank(e) == level {
        // an operation of this level: first operand, operator, second operand
        let (a, b) = match e {
            SpecNode::Equal(l, r)
            | SpecNode::UnEqual(l, r)
            | SpecNode::Less(l, r)
            | SpecNode::LessEqual(l, r)
            | SpecNode::Plus(l, r)
            | SpecNode::Minus(l, r)
            | SpecNode::Multiple(l, r)
            | SpecNode::Devide(l, r) => (*l, *r),
            _ => (e, e),
        };
        let op = operator(e);
        let sa = shown(a, level as int);
        let sb = shown(b, level - 1);
        assert(s == sa + seq![op] + sb);
        assert(binds_at(op, level));
        assert(binary(op, a, b) == e);
        lemma_stands_operation(ts, pos, sa, op, sb);
        let mid = pos + sa.len();
        lemma_chain_shown(a, level, ts, pos, table);
        lemma_operand_is(ts, mid + 1, table, level);
        if level == 0 {
            lemma_unary_shown(b, ts, mid + 1, table);
        } else {
            lemma_chain_shown(b, (level - 1) as nat, ts, mid + 1, table);
            lemma_chain_ends(ts, end, table, (level - 1) as nat, b);
        }
        lemma_chain_goes_on(ts, mid, table, level, a, op, Parsed { node: b, used: sb.len(), table });
    } else {
        // the tokens are those of an operand
        assert(s == shown(e, level - 1));
        lemma_operand_is(ts, pos, table, level);
        if level == 0 {
            lemma_unary_shown(e, ts, pos, table);
        } else {
            lemma_chain_shown(e, (level - 1) as nat, ts, pos, table);
            lemma_chain_ends(ts, end, table, (level - 1) as nat, e);
        }
        lemma_chain_starts(ts, pos, table, level, Parsed { node: e, used: s.len(), table });
    }
}

/// A unary expression reads the tokens of a number, of a variable, or of an
/// expression in parentheses.
proof fn lemma_unary_shown(e: SpecNode, ts: Seq<SpecToken>, pos: int, table: Table)
    requires
        expression(e),
        agrees(e, table),
        usable(table),
        stands(ts, pos, shown(e, -1)),
    ensures
        unary(ts, pos, table) == found(e, shown(e, -1).len(), table),
    decreases e, (if rank(e) == -1 { 0nat } else { 15nat }),
{
    reveal(unary);
    reveal(primary);
    reveal(in_paren);
    let s = shown(e, -1);
    assert(ts[pos + 0] == s[0]);
    match e {
        SpecNode::Number(v) => {},
        SpecNode::LocalVariable(name, offset) => {
            assert(register(table, name) == Some((offset, table)));
        },
        _ => {
            reveal(expr);
            reveal(assign);
            let inner = bare(e);
            assert(s == seq![SpecToken::LeftParen] + inner + seq![SpecToken::RightParen]);
            lemma_stands_operation(
                ts,
                pos,
                seq![SpecToken::LeftParen] + inner,
                SpecToken::RightParen,
                Seq::empty(),
            );
            assert(s =~= seq![SpecToken::LeftParen] + inner + seq![SpecToken::RightParen]
                + Seq::<SpecToken>::empty());
            lemma_stands_parts(ts, pos, seq![SpecToken::LeftParen], inner);
            assert(inner == shown(e, 4));
            lemma_assign_shown(e, ts, pos + 1, table);
        },
    }
}

/// An assignment expression reads the tokens of an expression, where no
/// operator and no `=` follows them.
proof fn lemma_assign_shown(e: SpecNode, ts: Seq<SpecToken>, pos: int, table: Table)
    requires
        expression(e),
        agrees(e, table),
        usable(table),
        stands(ts, pos, shown(e, 4)),
        !tighter(peek(ts, pos + shown(e, 4).len()), 4),
        peek(ts, pos + shown(e, 4).len()) != Some(SpecToken::Assign),
    ensures
        assign(ts, pos, table) == found(e, shown(e, 4).len(), table),
    decreases e, 10nat,
{
    reveal(assign);
    reveal(chain);
    let s = shown(e, 4);
    match e {
        SpecNode::Assign(l, r) => {
            let t = *l;
            let v = *r;
            let st = shown(t, -1);
            let sv = shown(v, 4);
            assert(s == st + seq![SpecToken::Assign] + sv);
            lemma_stands_operation(ts, pos, st, SpecToken::Assign, sv);
            assert(st == shown(t, 3));
            assert(st.len() == 1);
            lemma_chain_shown(t, 3, ts, pos, table);
            lemma_chain_ends(ts, pos + 1, table, 3, t);
            lemma_assign_shown(v, ts, pos + 2, table);
        },
        _ => {
            assert(s == shown(e, 3));
            lemma_chain_shown(e, 3, ts, pos, table);
            lemma_chain_ends(ts, pos + s.len(), table, 3, e);
        },
    }
}

/// Precedence and grouping: every expression is the parse of its tokens
/// written with the fewest parentheses.
///
/// The tokens of an operation are those of its operands with the operator
/// between them. An operand stands in parentheses only where it binds
/// looser than the operator, or, after the operator, as loose: operators of
/// one level group to the left, `*` and `/` bind tighter than `+` and `-`,
/// these tighter than the order comparisons, and these tighter than `==` and
/// `!=`. Where such tokens stand in the input, and no operator and no `=`
/// follows them, the expression rule reads all of them and gives the
/// expression back, with the table as it was.
pub proof fn theorem_parse_of_shown(e: SpecNode, ts: Seq<SpecToken>, pos: int, table: Table)
    requires
        expression(e),
        agrees(e, table),
        usable(table),
        stands(ts, pos, shown(e, 4)),
        !tighter(peek(ts, pos + shown(e, 4).len()), 4),
        peek(ts, pos + shown(e, 4).len()) != Some(SpecToken::Assign),
    ensures
        expr(ts, pos, table) == found(e, shown(e, 4).len(), table),
{
    reveal(expr);
    reveal(assign);
    lemma_assign_shown(e, ts, pos, table);
}

} // verus!
