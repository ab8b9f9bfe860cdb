//! What holds of every parse: the symbol table grows by the identifiers in
//! the order in which they first occur, and every variable of a tree has the
//! offset of its name in the table.
use super::grammar::Parsed;
use super::grammar::ParsedClause;
use super::grammar::ParsedList;
use super::grammar::SLOT;
use super::grammar::SpecError;
use super::grammar::Table;
use super::grammar::assign;
use super::grammar::block;
use super::grammar::block_items;
use super::grammar::chain;
use super::grammar::chain_rest;
use super::grammar::clause;
use super::grammar::closed_expr;
use super::grammar::expr;
use super::grammar::extends;
use super::grammar::for_rest;
use super::grammar::if_rest;
use super::grammar::in_paren;
use super::grammar::operand;
use super::grammar::peek;
use super::grammar::primary;
use super::grammar::program;
use super::grammar::register;
use super::grammar::remaining;
use super::grammar::return_rest;
use super::grammar::statement;
use super::grammar::statements;
use super::grammar::unary;
use super::grammar::while_rest;
use super::node::SpecNode;
use crate::tokenizer::token::SpecToken;
use vstd::prelude::*;

verus! {

/// The table after one more token: an identifier that the table does not
/// hold is added at the end, where it can still be given an offset.
pub open spec fn note(table: Table, token: SpecToken) -> Table {
    match token {
        SpecToken::Identity(name) => match register(table, name) {
            Some((_, after)) => after,
            None => table,
        },
        _ => table,
    }
}

/// The table after the tokens `ts`: their identifiers in the order in which
/// they first occur, after the names that `table` holds.
pub open spec fn names_after(table: Table, ts: Seq<SpecToken>) -> Table
    decreases ts.len(),
{
    if ts.len() == 0 {
        table
    } else {
        note(names_after(table, ts.drop_last()), ts.last())
    }
}

/// Whether a tree can have come from the parser with `table`: every variable
/// in it has the offset of its name in `table`, 8 times the index of the
/// name; and every assignment in it has a variable as its target.
pub open spec fn agrees(n: SpecNode, table: Table) -> bool
    decreases n,
{
    match n {
        SpecNode::Number(_) => true,
        SpecNode::LocalVariable(name, offset) => table.contains(name) && offset == SLOT
            * table.index_of(name),
        SpecNode::Equal(l, r)
        | SpecNode::UnEqual(l, r)
        | SpecNode::Less(l, r)
        | SpecNode::LessEqual(l, r)
        | SpecNode::Plus(l, r)
        | SpecNode::Minus(l, r)
        | SpecNode::Multiple(l, r)
        | SpecNode::Devide(l, r)
        | SpecNode::While(l, r) => agrees(*l, table) && agrees(*r, table),
        SpecNode::Assign(l, r) => *l is LocalVariable && agrees(*l, table) && agrees(*r, table),
        SpecNode::Return(v) => agrees(*v, table),
        SpecNode::Block(nodes) => all_agree(nodes, table),
        SpecNode::If(c, t, e) => agrees(*c, table) && agrees(*t, table) && option_agrees(e, table),
        SpecNode::For(a, b, c, body) => option_agrees(a, table) && option_agrees(b, table)
            && option_agrees(c, table) && agrees(*body, table),
    }
}

/// Whether a tree, where there is one, agrees with `table`.
pub open spec fn option_agrees(n: Option<Box<SpecNode>>, table: Table) -> bool
    decreases n,
{
    match n {
        Some(n) => agrees(*n, table),
        None => true,
    }
}

/// Whether every tree of a sequence agrees with `table`.
pub open spec fn all_agree(nodes: Seq<SpecNode>, table: Table) -> bool
    decreases nodes,
{
    if nodes.len() == 0 {
        true
    } else {
        agrees(nodes[0], table) && all_agree(nodes.subrange(1, nodes.len() as int), table)
    }
}

/// Whether a table can be used: it holds no name twice, and every name in
/// it has an offset.
pub open spec fn usable(table: Table) -> bool {
    table.no_duplicates() && SLOT * (table.len() - 1) <= usize::MAX
}

/// One more token adds at most one name at the end, and no name twice.
pub proof fn lemma_note(table: Table, token: SpecToken)
    requires
        usable(table),
    ensures
        usable(note(table, token)),
        extends(note(table, token), table),
{
}

/// A name that the table holds keeps its offset: it gets 8 times its index
/// again, and the table stays as it was.
pub proof fn theorem_known_name(table: Table, name: Seq<char>)
    requires
        usable(table),
        table.contains(name),
    ensures
        register(table, name) == Some((((SLOT * table.index_of(name)) as usize), table)),
        SLOT * table.index_of(name) <= usize::MAX,
{
}

/// A name keeps its offset in every later table: where a table that holds
/// no name twice extends one that holds the name, the name gets the same
/// offset from both.
pub proof fn theorem_known_name_later(table: Table, later: Table, name: Seq<char>)
    requires
        usable(table),
        usable(later),
        extends(later, table),
        table.contains(name),
    ensures
        later.contains(name),
        register(later, name) matches Some((offset, after)) && after == later && Some(
            (offset, table),
        ) == register(table, name),
{
    let k = table.index_of(name);
    assert(later[k] == name);
}

/// Offsets are stable: after more tokens the table still holds the names
/// that it held before at the same places, so that every variable known
/// before has kept its offset; and it can still be used.
pub proof fn theorem_offsets_stable(table: Table, ts: Seq<SpecToken>)
    requires
        usable(table),
    ensures
        usable(names_after(table, ts)),
        extends(names_after(table, ts), table),
    decreases ts.len(),
{
    if ts.len() > 0 {
        theorem_offsets_stable(table, ts.drop_last());
        lemma_note(names_after(table, ts.drop_last()), ts.last());
    }
}

/// The table after the tokens from `a` to `c` is the table after those from
/// `b` to `c`, from the table after those from `a` to `b`.
pub proof fn lemma_names_split(table: Table, ts: Seq<SpecToken>, a: int, b: int, c: int)
    requires
        0 <= a <= b <= c <= ts.len(),
    ensures
        names_after(table, ts.subrange(a, c)) == names_after(
            names_after(table, ts.subrange(a, b)),
            ts.subrange(b, c),
        ),
    decreases c - b,
{
    if b == c {
        assert(ts.subrange(b, c) =~= Seq::<SpecToken>::empty());
    } else {
        lemma_names_split(table, ts, a, b, c - 1);
        assert(ts.subrange(a, c).drop_last() =~= ts.subrange(a, c - 1));
        assert(ts.subrange(b, c).drop_last() =~= ts.subrange(b, c - 1));
    }
}

/// The table after one token.
pub proof fn lemma_names_one(table: Table, ts: Seq<SpecToken>, a: int)
    requires
        0 <= a < ts.len(),
    ensures
        names_after(table, ts.subrange(a, a + 1)) == note(table, ts[a]),
{
    let one = ts.subrange(a, a + 1);
    assert(one.drop_last() =~= Seq::<SpecToken>::empty());
    reveal_with_fuel(names_after, 2);
}

/// The table after no token.
pub proof fn lemma_names_none(table: Table, ts: Seq<SpecToken>, a: int)
    requires
        0 <= a <= ts.len(),
    ensures
        names_after(table, ts.subrange(a, a)) == table,
{
}

/// A tree that agrees with a table agrees with every table that extends it
/// and holds no name twice.
pub proof fn lemma_agrees_later(n: SpecNode, table: Table, later: Table)
    requires
        agrees(n, table),
        extends(later, table),
        later.no_duplicates(),
    ensures
        agrees(n, later),
    decreases n,
{
    match n {
        SpecNode::Number(_) => {},
        SpecNode::LocalVariable(name, offset) => {
            let k = table.index_of(name);
            assert(later[k] == name);
        },
        SpecNode::Equal(l, r)
        | SpecNode::UnEqual(l, r)
        | SpecNode::Less(l, r)
        | SpecNode::LessEqual(l, r)
        | SpecNode::Plus(l, r)
        | SpecNode::Minus(l, r)
        | SpecNode::Multiple(l, r)
        | SpecNode::Devide(l, r)
        | SpecNode::Assign(l, r)
        | SpecNode::While(l, r) => {
            lemma_agrees_later(*l, table, later);
            lemma_agrees_later(*r, table, later);
        },
        SpecNode::Return(v) => {
            lemma_agrees_later(*v, table, later);
        },
        SpecNode::Block(nodes) => {
            lemma_all_agree_later(nodes, table, later);
        },
        SpecNode::If(c, t, e) => {
            lemma_agrees_later(*c, table, later);
            lemma_agrees_later(*t, table, later);
            lemma_option_agrees_later(e, table, later);
        },
        SpecNode::For(a, b, c, body) => {
            lemma_option_agrees_later(a, table, later);
            lemma_option_agrees_later(b, table, later);
            lemma_option_agrees_later(c, table, later);
            lemma_agrees_later(*body, table, later);
        },
    }
}

pub proof fn lemma_option_agrees_later(n: Option<Box<SpecNode>>, table: Table, later: Table)
    requires
        option_agrees(n, table),
        extends(later, table),
        later.no_duplicates(),
    ensures
        option_agrees(n, later),
    decreases n,
{
    if let Some(n) = n {
        lemma_agrees_later(*n, table, later);
    }
}

pub proof fn lemma_all_agree_later(nodes: Seq<SpecNode>, table: Table, later: Table)
    requires
        all_agree(nodes, table),
        extends(later, table),
        later.no_duplicates(),
    ensures
        all_agree(nodes, later),
    decreases nodes,
{
    if nodes.len() > 0 {
        lemma_agrees_later(nodes[0], table, later);
        lemma_all_agree_later(nodes.subrange(1, nodes.len() as int), table, later);
    }
}

/// Whether a rule may start at `pos` with `table`.
pub open spec fn start(ts: Seq<SpecToken>, pos: int, table: Table) -> bool {
    0 <= pos <= ts.len() && usable(table)
}

/// Whether the tokens from `pos` on, `used` of them, lead from `table` to
/// `after`: they lie in the input, and `after` is the table after them.
pub open spec fn leads(ts: Seq<SpecToken>, pos: int, table: Table, used: nat, after: Table) -> bool {
    &&& pos + used <= ts.len()
    &&& after == names_after(table, ts.subrange(pos, pos + used))
    &&& usable(after)
    &&& extends(after, table)
}

/// What holds of a phrase that a rule has recognised from `pos` with
/// `table`: its tokens lie in the input; its table is the table after them;
/// and its tree agrees with its table.
pub open spec fn sound(ts: Seq<SpecToken>, pos: int, table: Table, p: Parsed) -> bool {
    leads(ts, pos, table, p.used, p.table) && agrees(p.node, p.table)
}

/// What holds of a clause that a rule has recognised.
pub open spec fn sound_clause(ts: Seq<SpecToken>, pos: int, table: Table, p: ParsedClause) -> bool {
    leads(ts, pos, table, p.used, p.table) && option_agrees(p.node, p.table) && p.used >= 1
}

/// What holds of a sequence of statements that a rule has recognised.
pub open spec fn sound_list(ts: Seq<SpecToken>, pos: int, table: Table, p: ParsedList) -> bool {
    leads(ts, pos, table, p.used, p.table) && all_agree(p.nodes, p.table)
}

/// Tokens that lead from one table to a second, and the tokens after them
/// that lead from the second to a third, lead from the first to the third.
pub proof fn lemma_leads_on(
    ts: Seq<SpecToken>,
    pos: int,
    table: Table,
    used: nat,
    middle: Table,
    more: nat,
    after: Table,
)
    requires
        0 <= pos,
        leads(ts, pos, table, used, middle),
        leads(ts, pos + used, middle, more, after),
    ensures
        leads(ts, pos, table, used + more, after),
{
    lemma_names_split(table, ts, pos, pos + used, pos + used + more);
}

/// A token that is no identifier leads from a table to itself.
pub proof fn lemma_leads_mark(ts: Seq<SpecToken>, pos: int, table: Table)
    requires
        start(ts, pos, table),
        pos < ts.len(),
        !(ts[pos] is Identity),
    ensures
        leads(ts, pos, table, 1, table),
{
    lemma_names_one(table, ts, pos);
}

/// No token leads from a table to itself.
pub proof fn lemma_leads_nothing(ts: Seq<SpecToken>, pos: int, table: Table)
    requires
        start(ts, pos, table),
    ensures
        leads(ts, pos, table, 0, table),
{
    lemma_names_none(table, ts, pos);
}

/// A phrase with one mark before it.
proof fn lemma_after_mark(ts: Seq<SpecToken>, pos: int, table: Table, p: Parsed)
    requires
        start(ts, pos, table),
        pos < ts.len(),
        !(ts[pos] is Identity),
        sound(ts, pos + 1, table, p),
    ensures
        leads(ts, pos, table, 1 + p.used, p.table),
{
    lemma_leads_mark(ts, pos, table);
    lemma_leads_on(ts, pos, table, 1, table, p.used, p.table);
}

/// A phrase with one mark after it.
proof fn lemma_before_mark(ts: Seq<SpecToken>, pos: int, table: Table, p: Parsed)
    requires
        start(ts, pos, table),
        sound(ts, pos, table, p),
        pos + p.used < ts.len(),
        !(ts[pos + p.used] is Identity),
    ensures
        leads(ts, pos, table, p.used + 1, p.table),
{
    lemma_leads_mark(ts, pos + p.used, p.table);
    lemma_leads_on(ts, pos, table, p.used, p.table, 1, p.table);
}

/// primary: what it recognises is sound.
pub proof fn lemma_primary(ts: Seq<SpecToken>, pos: int, table: Table)
    requires
        start(ts, pos, table),
    ensures
        primary(ts, pos, table) matches Ok(p) ==> sound(ts, pos, table, p) && p.used >= 1,
    decreases remaining(ts, pos), 1nat,
{
    reveal(primary);
    reveal(in_paren);
    match peek(ts, pos) {
        Some(SpecToken::Identity(name)) => {
            lemma_names_one(table, ts, pos);
            lemma_note(table, ts[pos]);
            if let Some((offset, after)) = register(table, name) {
                if !table.contains(name) {
                    assert(after[table.len() as int] == name);
                    assert(after.index_of(name) == table.len());
                }
            }
        },
        Some(SpecToken::Number(_)) => {
            lemma_leads_mark(ts, pos, table);
        },
        _ => {
            lemma_in_paren(ts, pos, table);
        },
    }
}

/// "(" expr ")": what it recognises is sound.
pub proof fn lemma_in_paren(ts: Seq<SpecToken>, pos: int, table: Table)
    requires
        start(ts, pos, table),
    ensures
        in_paren(ts, pos, table) matches Ok(p) ==> sound(ts, pos, table, p) && p.used >= 1,
    decreases remaining(ts, pos), 0nat,
{
    reveal(in_paren);
    reveal(expr);
    if peek(ts, pos) == Some(SpecToken::LeftParen) {
        lemma_expr(ts, pos + 1, table);
        if let Ok(p) = expr(ts, pos + 1, table) {
            if peek(ts, pos + 1 + p.used) == Some(SpecToken::RightParen) {
                lemma_after_mark(ts, pos, table, p);
                lemma_leads_mark(ts, pos + 1 + p.used, p.table);
                lemma_leads_on(ts, pos, table, 1 + p.used, p.table, 1, p.table);
            }
        }
    }
}

/// unary: what it recognises is sound.
pub proof fn lemma_unary(ts: Seq<SpecToken>, pos: int, table: Table)
    requires
        start(ts, pos, table),
    ensures
        unary(ts, pos, table) matches Ok(p) ==> sound(ts, pos, table, p) && p.used >= 1,
    decreases remaining(ts, pos), 2nat,
{
    reveal(unary);
    reveal(primary);
    match peek(ts, pos) {
        Some(SpecToken::Plus) => {
            lemma_primary(ts, pos + 1, table);
            if let Ok(p) = primary(ts, pos + 1, table) {
                lemma_after_mark(ts, pos, table, p);
            }
        },
        Some(SpecToken::Minus) => {
            match peek(ts, pos + 1) {
                Some(SpecToken::Number(n)) if n > isize::MIN => {
                    lemma_leads_mark(ts, pos, table);
                    lemma_leads_mark(ts, pos + 1, table);
                    lemma_leads_on(ts, pos, table, 1, table, 1, table);
                },
                _ => {
                    lemma_primary(ts, pos + 1, table);
                    if let Ok(p) = primary(ts, pos + 1, table) {
                        lemma_after_mark(ts, pos, table, p);
                        assert(agrees(SpecNode::Number(0), p.table));
                    }
                },
            }
        },
        _ => {
            lemma_primary(ts, pos, table);
        },
    }
}

/// An operand: what it recognises is sound.
pub proof fn lemma_operand(ts: Seq<SpecToken>, pos: int, table: Table, level: nat)
    requires
        start(ts, pos, table),
    ensures
        operand(ts, pos, table, level) matches Ok(p) ==> sound(ts, pos, table, p) && p.used >= 1,
    decreases remaining(ts, pos), 3 + 2 * level, 0nat,
{
    reveal(operand);
    reveal(unary);
    reveal(chain);
    if level == 0 {
        lemma_unary(ts, pos, table);
    } else {
        lemma_chain(ts, pos, table, (level - 1) as nat);
    }
}

/// A chain of operations: what it recognises is sound.
pub proof fn lemma_chain(ts: Seq<SpecToken>, pos: int, table: Table, level: nat)
    requires
        start(ts, pos, table),
    ensures
        chain(ts, pos, table, level) matches Ok(p) ==> sound(ts, pos, table, p) && p.used >= 1,
    decreases remaining(ts, pos), 3 + 2 * level, 2nat,
{
    reveal(chain);
    reveal(operand);
    reveal(chain_rest);
    lemma_operand(ts, pos, table, level);
    if let Ok(p) = operand(ts, pos, table, level) {
        lemma_chain_rest(ts, pos + p.used, p.table, level, p.node);
        if let Ok(r) = chain_rest(ts, pos + p.used, p.table, level, p.node) {
            lemma_leads_on(ts, pos, table, p.used, p.table, r.used, r.table);
        }
    }
}

/// The rest of a chain of operations: what it recognises is sound.
pub proof fn lemma_chain_rest(
    ts: Seq<SpecToken>,
    pos: int,
    table: Table,
    level: nat,
    left: SpecNode,
)
    requires
        start(ts, pos, table),
        agrees(left, table),
    ensures
        chain_rest(ts, pos, table, level, left) matches Ok(p) ==> sound(ts, pos, table, p),
    decreases remaining(ts, pos), 3 + 2 * level, 1nat,
{
    reveal(chain_rest);
    reveal(operand);
    match peek(ts, pos) {
        Some(op) if super::grammar::binds_at(op, level) => {
            lemma_operand(ts, pos + 1, table, level);
            if let Ok(p) = operand(ts, pos + 1, table, level) {
                lemma_after_mark(ts, pos, table, p);
                lemma_agrees_later(left, table, p.table);
                let both = super::grammar::binary(op, left, p.node);
                assert(agrees(both, p.table));
                lemma_chain_rest(ts, pos + 1 + p.used, p.table, level, both);
                if let Ok(r) = chain_rest(ts, pos + 1 + p.used, p.table, level, both) {
                    lemma_leads_on(ts, pos, table, 1 + p.used, p.table, r.used, r.table);
                }
            }
        },
        _ => {
            lemma_leads_nothing(ts, pos, table);
        },
    }
}

/// assign: what it recognises is sound.
pub proof fn lemma_assign(ts: Seq<SpecToken>, pos: int, table: Table)
    requires
        start(ts, pos, table),
    ensures
        assign(ts, pos, table) matches Ok(p) ==> sound(ts, pos, table, p) && p.used >= 1,
    decreases remaining(ts, pos), 20nat,
{
    reveal(assign);
    reveal(chain);
    lemma_chain(ts, pos, table, super::grammar::top_level());
    if let Ok(p) = chain(ts, pos, table, super::grammar::top_level()) {
        if peek(ts, pos + p.used) == Some(SpecToken::Assign) && p.node is LocalVariable {
            lemma_before_mark(ts, pos, table, p);
            lemma_assign(ts, pos + p.used + 1, p.table);
            if let Ok(r) = assign(ts, pos + p.used + 1, p.table) {
                lemma_leads_on(ts, pos, table, p.used + 1, p.table, r.used, r.table);
                lemma_agrees_later(p.node, p.table, r.table);
            }
        }
    }
}

/// expr: what it recognises is sound.
pub proof fn lemma_expr(ts: Seq<SpecToken>, pos: int, table: Table)
    requires
        start(ts, pos, table),
    ensures
        expr(ts, pos, table) matches Ok(p) ==> sound(ts, pos, table, p) && p.used >= 1,
    decreases remaining(ts, pos), 21nat,
{
    reveal(expr);
    reveal(assign);
    lemma_assign(ts, pos, table);
}

/// expr `close`: what it recognises is sound.
pub proof fn lemma_closed_expr(ts: Seq<SpecToken>, pos: int, table: Table, close: SpecToken)
    requires
        start(ts, pos, table),
        !(close is Identity),
    ensures
        closed_expr(ts, pos, table, close) matches Ok(p) ==> sound(ts, pos, table, p) && p.used
            >= 1,
    decreases remaining(ts, pos), 22nat,
{
    reveal(closed_expr);
    reveal(expr);
    lemma_expr(ts, pos, table);
    if let Ok(p) = expr(ts, pos, table) {
        if peek(ts, pos + p.used) == Some(close) {
            lemma_before_mark(ts, pos, table, p);
        }
    }
}

/// A clause of a `for` header: what it recognises is sound.
pub proof fn lemma_clause(ts: Seq<SpecToken>, pos: int, table: Table, close: SpecToken)
    requires
        start(ts, pos, table),
        !(close is Identity),
    ensures
        clause(ts, pos, table, close) matches Ok(p) ==> sound_clause(ts, pos, table, p),
    decreases remaining(ts, pos), 23nat,
{
    reveal(clause);
    reveal(closed_expr);
    if peek(ts, pos) == Some(close) {
        lemma_leads_mark(ts, pos, table);
    } else {
        lemma_closed_expr(ts, pos, table, close);
    }
}

/// A statement: what it recognises is sound.
pub proof fn lemma_statement(ts: Seq<SpecToken>, pos: int, table: Table)
    requires
        start(ts, pos, table),
    ensures
        statement(ts, pos, table) matches Ok(p) ==> sound(ts, pos, table, p) && p.used >= 1,
    decreases remaining(ts, pos), 30nat,
{
    super::grammar::lemma_statement_cases(ts, pos, table);
    match peek(ts, pos) {
        Some(SpecToken::LeftBlock) => {
            lemma_block(ts, pos + 1, table);
            if let Ok(p) = block(ts, pos + 1, table) {
                lemma_after_mark(ts, pos, table, p);
            }
        },
        Some(SpecToken::Return) => {
            lemma_return_rest(ts, pos + 1, table);
            if let Ok(p) = return_rest(ts, pos + 1, table) {
                lemma_after_mark(ts, pos, table, p);
            }
        },
        Some(SpecToken::If) => {
            lemma_if_rest(ts, pos + 1, table);
            if let Ok(p) = if_rest(ts, pos + 1, table) {
                lemma_after_mark(ts, pos, table, p);
            }
        },
        Some(SpecToken::For) => {
            lemma_for_rest(ts, pos + 1, table);
            if let Ok(p) = for_rest(ts, pos + 1, table) {
                lemma_after_mark(ts, pos, table, p);
            }
        },
        Some(SpecToken::While) => {
            lemma_while_rest(ts, pos + 1, table);
            if let Ok(p) = while_rest(ts, pos + 1, table) {
                lemma_after_mark(ts, pos, table, p);
            }
        },
        _ => {
            lemma_closed_expr(ts, pos, table, SpecToken::EndExpr);
        },
    }
}

/// The rest of a `return`: what it recognises is sound.
pub proof fn lemma_return_rest(ts: Seq<SpecToken>, pos: int, table: Table)
    requires
        start(ts, pos, table),
    ensures
        return_rest(ts, pos, table) matches Ok(p) ==> sound(ts, pos, table, p),
    decreases remaining(ts, pos), 29nat,
{
    reveal(return_rest);
    reveal(closed_expr);
    lemma_closed_expr(ts, pos, table, SpecToken::EndExpr);
}

/// A condition, a statement after it, and an alternative after an `else`
/// after that.
proof fn lemma_if_parts(
    ts: Seq<SpecToken>,
    pos: int,
    table: Table,
    c: Parsed,
    t: Parsed,
    e: Option<Parsed>,
)
    requires
        start(ts, pos, table),
        sound(ts, pos, table, c),
        sound(ts, pos + c.used, c.table, t),
        match e {
            Some(e) => peek(ts, pos + c.used + t.used) == Some(SpecToken::Else) && sound(
                ts,
                pos + c.used + t.used + 1,
                t.table,
                e,
            ),
            None => true,
        },
    ensures
        match e {
            Some(e) => leads(ts, pos, table, c.used + t.used + 1 + e.used, e.table) && agrees(
                c.node,
                e.table,
            ) && agrees(t.node, e.table),
            None => leads(ts, pos, table, c.used + t.used, t.table) && agrees(c.node, t.table),
        },
{
    lemma_leads_on(ts, pos, table, c.used, c.table, t.used, t.table);
    lemma_agrees_later(c.node, c.table, t.table);
    if let Some(e) = e {
        let at = pos + c.used + t.used;
        lemma_leads_mark(ts, at, t.table);
        lemma_leads_on(ts, pos, table, c.used + t.used, t.table, 1, t.table);
        lemma_leads_on(ts, pos, table, c.used + t.used + 1, t.table, e.used, e.table);
        lemma_agrees_later(c.node, t.table, e.table);
        lemma_agrees_later(t.node, t.table, e.table);
    }
}

/// The rest of an `if`: what it recognises is sound.
pub proof fn lemma_if_rest(ts: Seq<SpecToken>, pos: int, table: Table)
    requires
        start(ts, pos, table),
    ensures
        if_rest(ts, pos, table) matches Ok(p) ==> sound(ts, pos, table, p),
    decreases remaining(ts, pos), 33nat,
{
    super::grammar::lemma_if_cases(ts, pos, table);
    lemma_in_paren(ts, pos, table);
    if let Ok(c) = in_paren(ts, pos, table) {
        lemma_statement(ts, pos + c.used, c.table);
        if let Ok(t) = statement(ts, pos + c.used, c.table) {
            let at = pos + c.used + t.used;
            if peek(ts, at) == Some(SpecToken::Else) {
                lemma_statement(ts, at + 1, t.table);
                if let Ok(e) = statement(ts, at + 1, t.table) {
                    lemma_if_parts(ts, pos, table, c, t, Some(e));
                    assert(option_agrees(Some(Box::new(e.node)), e.table));
                }
            } else {
                lemma_if_parts(ts, pos, table, c, t, None);
                assert(option_agrees(None, t.table));
            }
        }
    }
}

/// The rest of a `while`: what it recognises is sound.
pub proof fn lemma_while_rest(ts: Seq<SpecToken>, pos: int, table: Table)
    requires
        start(ts, pos, table),
    ensures
        while_rest(ts, pos, table) matches Ok(p) ==> sound(ts, pos, table, p),
    decreases remaining(ts, pos), 33nat,
{
    reveal(while_rest);
    reveal(in_paren);
    reveal(statement);
    lemma_in_paren(ts, pos, table);
    if let Ok(c) = in_paren(ts, pos, table) {
        lemma_statement(ts, pos + c.used, c.table);
        if let Ok(b) = statement(ts, pos + c.used, c.table) {
            lemma_leads_on(ts, pos, table, c.used, c.table, b.used, b.table);
            lemma_agrees_later(c.node, c.table, b.table);
        }
    }
}

/// The rest of a `for`: what it recognises is sound.
pub proof fn lemma_for_rest(ts: Seq<SpecToken>, pos: int, table: Table)
    requires
        start(ts, pos, table),
    ensures
        for_rest(ts, pos, table) matches Ok(p) ==> sound(ts, pos, table, p),
    decreases remaining(ts, pos), 33nat,
{
    reveal(for_rest);
    reveal(clause);
    reveal(statement);
    if peek(ts, pos) == Some(SpecToken::LeftParen) {
        lemma_leads_mark(ts, pos, table);
        lemma_clause(ts, pos + 1, table, SpecToken::EndExpr);
        if let Ok(init) = clause(ts, pos + 1, table, SpecToken::EndExpr) {
            let at1 = pos + 1 + init.used;
            lemma_leads_on(ts, pos, table, 1, table, init.used, init.table);
            lemma_clause(ts, at1, init.table, SpecToken::EndExpr);
            if let Ok(test) = clause(ts, at1, init.table, SpecToken::EndExpr) {
                let at2 = at1 + test.used;
                lemma_leads_on(ts, pos, table, 1 + init.used, init.table, test.used, test.table);
                lemma_clause(ts, at2, test.table, SpecToken::RightParen);
                if let Ok(step) = clause(ts, at2, test.table, SpecToken::RightParen) {
                    let at3 = at2 + step.used;
                    lemma_leads_on(
                        ts,
                        pos,
                        table,
                        1 + init.used + test.used,
                        test.table,
                        step.used,
                        step.table,
                    );
                    lemma_statement(ts, at3, step.table);
                    if let Ok(b) = statement(ts, at3, step.table) {
                        lemma_leads_on(
                            ts,
                            pos,
                            table,
                            1 + init.used + test.used + step.used,
                            step.table,
                            b.used,
                            b.table,
                        );
                        lemma_option_agrees_later(init.node, init.table, test.table);
                        lemma_option_agrees_later(init.node, test.table, step.table);
                        lemma_option_agrees_later(init.node, step.table, b.table);
                        lemma_option_agrees_later(test.node, test.table, step.table);
                        lemma_option_agrees_later(test.node, step.table, b.table);
                        lemma_option_agrees_later(step.node, step.table, b.table);
                    }
                }
            }
        }
    }
}

/// A block: what it recognises is sound.
pub proof fn lemma_block(ts: Seq<SpecToken>, pos: int, table: Table)
    requires
        start(ts, pos, table),
    ensures
        block(ts, pos, table) matches Ok(p) ==> sound(ts, pos, table, p),
    decreases remaining(ts, pos), 32nat,
{
    reveal(block);
    reveal(block_items);
    lemma_block_items(ts, pos, table);
}

/// The statements of a block: what it recognises is sound.
pub proof fn lemma_block_items(ts: Seq<SpecToken>, pos: int, table: Table)
    requires
        start(ts, pos, table),
    ensures
        block_items(ts, pos, table) matches Ok(p) ==> sound_list(ts, pos, table, p),
    decreases remaining(ts, pos), 31nat,
{
    reveal(block_items);
    reveal(statement);
    match peek(ts, pos) {
        Some(SpecToken::RightBlock) => {
            lemma_leads_mark(ts, pos, table);
        },
        Some(_) => {
            lemma_statement(ts, pos, table);
            if let Ok(p) = statement(ts, pos, table) {
                lemma_block_items(ts, pos + p.used, p.table);
                if let Ok(l) = block_items(ts, pos + p.used, p.table) {
                    lemma_leads_on(ts, pos, table, p.used, p.table, l.used, l.table);
                    lemma_agrees_later(p.node, p.table, l.table);
                    let all = seq![p.node] + l.nodes;
                    assert(all.subrange(1, all.len() as int) =~= l.nodes);
                }
            }
        },
        None => {},
    }
}

/// The statements of a program: what it recognises is sound.
pub proof fn lemma_statements(ts: Seq<SpecToken>, pos: int, table: Table)
    requires
        start(ts, pos, table),
    ensures
        statements(ts, pos, table) matches Ok(p) ==> sound_list(ts, pos, table, p) && pos + p.used
            == ts.len(),
    decreases remaining(ts, pos),
{
    reveal(statements);
    if pos < ts.len() {
        lemma_statement(ts, pos, table);
        if let Ok(p) = statement(ts, pos, table) {
            lemma_statements(ts, pos + p.used, p.table);
            if let Ok(l) = statements(ts, pos + p.used, p.table) {
                lemma_leads_on(ts, pos, table, p.used, p.table, l.used, l.table);
                lemma_agrees_later(p.node, p.table, l.table);
                let all = seq![p.node] + l.nodes;
                assert(all.subrange(1, all.len() as int) =~= l.nodes);
            }
        }
    } else {
        lemma_leads_nothing(ts, pos, table);
    }
}

/// Offsets follow the order of first use, and they are stable.
///
/// Where a token sequence parses from a table that can be used, the
/// table after it holds the names of the table before at the same places,
/// followed by the identifiers of the sequence in the order in which they
/// first occur; and every variable in the trees has 8 times the index of
/// its name in that table as its offset.
pub proof fn theorem_offsets(ts: Seq<SpecToken>, table: Table)
    requires
        usable(table),
    ensures
        program(ts, table) matches Ok(p) ==> {
            &&& p.table == names_after(table, ts)
            &&& extends(p.table, table)
            &&& usable(p.table)
            &&& all_agree(p.nodes, p.table)
        },
{
    lemma_statements(ts, 0, table);
    if let Ok(p) = program(ts, table) {
        assert(ts.subrange(0, ts.len() as int) =~= ts);
    }
}

/// An opening parenthesis without its closing one is an error: where an
/// expression stands after `(` and no `)` follows it, the phrase fails there.
pub proof fn theorem_unmatched_parenthesis(ts: Seq<SpecToken>, pos: int, table: Table)
    requires
        peek(ts, pos) == Some(SpecToken::LeftParen),
        expr(ts, pos + 1, table) is Ok,
        peek(ts, pos + 1 + expr(ts, pos + 1, table)->Ok_0.used) != Some(SpecToken::RightParen),
    ensures
        in_paren(ts, pos, table) == Err::<Parsed, SpecError>(
            SpecError::Expected(
                seq![SpecToken::RightParen],
                pos + 1 + expr(ts, pos + 1, table)->Ok_0.used,
            ),
        ),
{
    reveal(in_paren);
    reveal(expr);
}

/// A statement without its semicolon is an error: where an expression
/// stands at the start of a statement and no `;` follows it, the statement
/// fails there.
pub proof fn theorem_missing_semicolon(ts: Seq<SpecToken>, pos: int, table: Table)
    requires
        !(peek(ts, pos) matches Some(t) && (t is LeftBlock || t is Return || t is If || t is For
            || t is While)),
        expr(ts, pos, table) is Ok,
        peek(ts, pos + expr(ts, pos, table)->Ok_0.used) != Some(SpecToken::EndExpr),
    ensures
        statement(ts, pos, table) == Err::<Parsed, SpecError>(
            SpecError::Expected(seq![SpecToken::EndExpr], pos + expr(ts, pos, table)->Ok_0.used),
        ),
{
    super::grammar::lemma_statement_cases(ts, pos, table);
    reveal(closed_expr);
    reveal(expr);
}

/// An assignment to what is no variable is an error: where `=` follows an
/// expression that is no variable, the assignment fails at the `=`.
pub proof fn theorem_assignment_target(ts: Seq<SpecToken>, pos: int, table: Table)
    requires
        chain(ts, pos, table, super::grammar::top_level()) matches Ok(p) && !(p.node
            is LocalVariable) && peek(ts, pos + p.used) == Some(SpecToken::Assign),
    ensures
        chain(ts, pos, table, super::grammar::top_level()) matches Ok(p) && assign(ts, pos, table)
            == Err::<Parsed, SpecError>(SpecError::AssignTarget(pos + p.used)),
{
    reveal(assign);
    reveal(chain);
}

/// The first statement that fails makes the program fail with its error.
pub proof fn theorem_first_error(ts: Seq<SpecToken>, pos: int, table: Table)
    requires
        0 <= pos < ts.len(),
        statement(ts, pos, table) is Err,
    ensures
        statements(ts, pos, table) == Err::<ParsedList, SpecError>(
            statement(ts, pos, table)->Err_0,
        ),
{
    reveal(statements);
    reveal(statement);
}

} // verus!
