//! What holds of the whole pipeline.
use crate::SpecCompileError;
use crate::codegen::lower;
use crate::compiled;
use crate::compiled_code;
use crate::machine::correct::entry_frame;
use crate::machine::correct::theorem_expression_statement;
use crate::machine::correct::theorem_expression_statements;
use crate::machine::model::Outcome;
use crate::machine::model::State;
use crate::machine::model::least;
use crate::machine::model::run;
use crate::machine::value::expressions;
use crate::machine::value::fits;
use crate::machine::value::in_frame;
use crate::machine::value::last_value;
use crate::machine::value::value;
use crate::parser::grammar::Table;
use crate::parser::grammar;
use crate::parser::laws::agrees;
use crate::parser::laws::all_agree;
use crate::parser::laws::option_agrees;
use crate::parser::laws::theorem_offsets;
use crate::parser::node::SpecNode;
use crate::parser::node::expression;
use crate::parser::node::size;
use crate::parser::node::total_size;
use crate::tokenizer::rules::lex;
use vstd::prelude::*;

verus! {

/// The number of variables that the frame has room for.
pub open spec fn slots() -> nat {
    26
}

/// The variables of a tree that agrees with a table of at most 26 names lie
/// in the frame.
pub proof fn lemma_agrees_fits(e: SpecNode, table: Table)
    requires
        agrees(e, table),
        table.len() <= slots(),
    ensures
        fits(e),
    decreases e,
{
    match e {
        SpecNode::LocalVariable(name, offset) => {
            let k = table.index_of(name);
            assert(0 <= k < table.len());
            assert(in_frame(offset as int));
        },
        SpecNode::Equal(l, r)
        | SpecNode::UnEqual(l, r)
        | SpecNode::Less(l, r)
        | SpecNode::LessEqual(l, r)
        | SpecNode::Plus(l, r)
        | SpecNode::Minus(l, r)
        | SpecNode::Multiple(l, r)
        | SpecNode::Devide(l, r)
        | SpecNode::Assign(l, r) => {
            lemma_agrees_fits(*l, table);
            lemma_agrees_fits(*r, table);
        },
        _ => {},
    }
}

/// A program that is one expression statement returns the value of its
/// expression.
///
/// The source text has the tokens of one statement, which is an expression,
/// with at most 26 variables. The machine starts at the first line of the
/// compiled program in any state with room below the stack pointer for the
/// frame and for one word for each node of the expression. No division in
/// the expression traps. Then the program, run for as many steps as it has
/// lines, returns the value of the expression: the operations applied to
/// 64-bit words as the grammar groups them, by precedence and to the left,
/// the left operand of each evaluated before the right one, but for `>` and
/// `>=`, whose operands the parser exchanges.
pub proof fn theorem_expression_program(source: Seq<u8>, s: State)
    requires
        lex(source) matches Ok(ts) && grammar::program(ts, Seq::empty()) matches Ok(p) && {
            &&& p.nodes.len() == 1
            &&& expression(p.nodes[0])
            &&& p.table.len() <= slots()
            &&& least() <= s.rsp - 8 - lower::FRAME - 8 * size(p.nodes[0])
            &&& value(p.nodes[0], entry_frame(s)) is Some
        },
        s.valid(),
    ensures
        compiled_code(source) matches Ok(code) && lex(source) matches Ok(ts) && grammar::program(
            ts,
            Seq::empty(),
        ) matches Ok(p) && value(p.nodes[0], entry_frame(s)) matches Some(v) && run(
            code,
            0,
            s,
            code.len(),
        ) == Outcome::Returned(v.value),
{
    let ts = lex(source)->Ok_0;
    let p = grammar::program(ts, Seq::empty())->Ok_0;
    let e = p.nodes[0];
    theorem_offsets(ts, Seq::empty());
    lemma_agrees_fits(e, p.table);
    assert(p.nodes =~= seq![e]);
    theorem_expression_statement(e, s);
}

/// The variables of trees that agree with a table of at most 26 names lie
/// in the frame.
pub proof fn lemma_all_agree_fit(es: Seq<SpecNode>, table: Table)
    requires
        all_agree(es, table),
        table.len() <= slots(),
        forall|k: int| 0 <= k < es.len() ==> expression(#[trigger] es[k]),
    ensures
        expressions(es),
    decreases es.len(),
{
    if es.len() > 0 {
        let rest = es.subrange(1, es.len() as int);
        lemma_agrees_fits(es[0], table);
        assert forall|k: int| 0 <= k < rest.len() implies expression(#[trigger] rest[k]) by {
            assert(rest[k] == es[k + 1]);
        }
        lemma_all_agree_fit(rest, table);
        assert forall|k: int| 0 <= k < es.len() implies expression(#[trigger] es[k]) && fits(
            es[k],
        ) by {
            if k > 0 {
                assert(es[k] == rest[k - 1]);
            }
        }
    }
}

/// A program of expression statements returns the value of its last
/// statement.
///
/// The source text has the tokens of statements that are expressions, with
/// at most 26 variables. The machine starts at the first line of the
/// compiled program in any state with room below the stack pointer for the
/// frame and for one word for each node of the program. No division traps.
/// Then the program, run for as many steps as it has lines, returns the
/// value of the last statement, each statement evaluated from the variables
/// that the one before it left; a program without a statement returns what
/// `rax` held.
pub proof fn theorem_straight_program(source: Seq<u8>, s: State)
    requires
        lex(source) matches Ok(ts) && grammar::program(ts, Seq::empty()) matches Ok(p) && {
            &&& forall|k: int| 0 <= k < p.nodes.len() ==> expression(#[trigger] p.nodes[k])
            &&& p.table.len() <= slots()
            &&& least() <= s.rsp - 8 - lower::FRAME - 8 * total_size(p.nodes)
            &&& last_value(p.nodes, entry_frame(s), s.rax) is Some
        },
        s.valid(),
    ensures
        compiled_code(source) matches Ok(code) && lex(source) matches Ok(ts) && grammar::program(
            ts,
            Seq::empty(),
        ) matches Ok(p) && last_value(p.nodes, entry_frame(s), s.rax) matches Some(v) && run(
            code,
            0,
            s,
            code.len(),
        ) == Outcome::Returned(v.value),
{
    let ts = lex(source)->Ok_0;
    let p = grammar::program(ts, Seq::empty())->Ok_0;
    theorem_offsets(ts, Seq::empty());
    lemma_all_agree_fit(p.nodes, p.table);
    theorem_expression_statements(p.nodes, s);
}

/// Compiling is repeatable: what a source text compiles to is a function of
/// the text alone.
pub proof fn theorem_repeatable(first: Seq<u8>, second: Seq<u8>)
    requires
        first == second,
    ensures
        compiled(first) == compiled(second),
{
}

/// A text that has no tokens or no syntax trees has no output: where the
/// scanner or the parser fails, the compilation fails with that error.
pub proof fn theorem_no_partial_output(source: Seq<u8>)
    ensures
        lex(source) matches Err(e) ==> compiled(source) == Err::<Seq<Seq<char>>, SpecCompileError>(
            SpecCompileError::Lex(e),
        ),
        lex(source) matches Ok(ts) ==> (grammar::program(ts, Seq::empty()) matches Err(e)
            ==> compiled(source) == Err::<Seq<Seq<char>>, SpecCompileError>(
            SpecCompileError::Parse(e),
        )),
{
}

/// A tree from the parser has code unless the label indices run out: its
/// lowering never fails for an assignment target.
pub proof fn lemma_parsed_lowers(n: SpecNode, table: Table, next: usize)
    requires
        agrees(n, table),
    ensures
        lower::lower(n, next) != Err::<lower::Lowered, lower::Error>(lower::Error::AssignTarget),
    decreases n, 1nat,
{
    match n {
        SpecNode::Number(_) | SpecNode::LocalVariable(_, _) => {},
        SpecNode::Equal(l, r)
        | SpecNode::UnEqual(l, r)
        | SpecNode::Less(l, r)
        | SpecNode::LessEqual(l, r)
        | SpecNode::Plus(l, r)
        | SpecNode::Minus(l, r)
        | SpecNode::Multiple(l, r)
        | SpecNode::Devide(l, r) => {
            lemma_parsed_lowers(*l, table, next);
            if let Ok(a) = lower::lower(*l, next) {
                lemma_parsed_lowers(*r, table, a.next);
            }
        },
        SpecNode::Assign(_, v) | SpecNode::Return(v) => {
            lemma_parsed_lowers(*v, table, next);
        },
        SpecNode::Block(nodes) => {
            lemma_all_parsed_lower(nodes, table, next, Seq::empty());
        },
        SpecNode::If(c, t, e) => {
            if next < usize::MAX {
                lemma_parsed_lowers(*c, table, (next + 1) as usize);
                if let Ok(c) = lower::lower(*c, (next + 1) as usize) {
                    lemma_parsed_lowers(*t, table, c.next);
                    if let Ok(t) = lower::lower(*t, c.next) {
                        lemma_option_parsed_lowers(e, table, t.next);
                    }
                }
            }
        },
        SpecNode::While(c, b) => {
            if next < usize::MAX {
                lemma_parsed_lowers(*c, table, (next + 1) as usize);
                if let Ok(c) = lower::lower(*c, (next + 1) as usize) {
                    lemma_parsed_lowers(*b, table, c.next);
                }
            }
        },
        SpecNode::For(a, b, c, body) => {
            if next < usize::MAX {
                lemma_option_parsed_lowers(a, table, (next + 1) as usize);
                if let Ok(a) = lower::lower_option(a, (next + 1) as usize) {
                    lemma_option_parsed_lowers(b, table, a.next);
                    if let Ok(b) = lower::lower_option(b, a.next) {
                        lemma_option_parsed_lowers(c, table, b.next);
                        if let Ok(c) = lower::lower_option(c, b.next) {
                            lemma_parsed_lowers(*body, table, c.next);
                        }
                    }
                }
            }
        },
    }
}

proof fn lemma_option_parsed_lowers(n: Option<Box<SpecNode>>, table: Table, next: usize)
    requires
        option_agrees(n, table),
    ensures
        lower::lower_option(n, next) != Err::<lower::Lowered, lower::Error>(
            lower::Error::AssignTarget,
        ),
    decreases n, 0nat,
{
    if let Some(n) = n {
        lemma_parsed_lowers(*n, table, next);
    }
}

proof fn lemma_all_parsed_lower(
    nodes: Seq<SpecNode>,
    table: Table,
    next: usize,
    after: Seq<crate::codegen::Instr>,
)
    requires
        all_agree(nodes, table),
    ensures
        lower::lower_all(nodes, next, after) != Err::<lower::Lowered, lower::Error>(
            lower::Error::AssignTarget,
        ),
    decreases nodes, 0nat,
{
    if nodes.len() > 0 {
        lemma_parsed_lowers(nodes[0], table, next);
        if let Ok(first) = lower::lower(nodes[0], next) {
            lemma_all_parsed_lower(nodes.subrange(1, nodes.len() as int), table, first.next, after);
        }
    }
}

/// What the parser accepts has code: a text that has tokens and syntax trees
/// fails to compile only where the label indices run out.
pub proof fn theorem_no_generation_gap(source: Seq<u8>)
    ensures
        compiled_code(source) != Err::<Seq<crate::codegen::Instr>, SpecCompileError>(
            SpecCompileError::Generate(lower::Error::AssignTarget),
        ),
{
    if let Ok(ts) = lex(source) {
        if let Ok(p) = grammar::program(ts, Seq::empty()) {
            theorem_offsets(ts, Seq::empty());
            lemma_all_parsed_lower(p.nodes, p.table, 0, seq![crate::codegen::Instr::PopRax]);
        }
    }
}

} // verus!
