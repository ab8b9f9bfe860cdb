//! What holds of every lowering: no two control constructs share a label.
use super::instr::Instr;
use super::instr::Label;
use super::instr::LabelKind;
use super::instr::label_text;
use super::lower::address;
use super::lower::branch_if_zero;
use super::lower::epilogue;
use super::lower::label;
use super::lower::leave;
use super::lower::lower;
use super::lower::lower_all;
use super::lower::lower_option;
use super::lower::operation;
use super::lower::preamble;
use super::lower::program;
use super::lower::prologue;
use super::lower::store;
use crate::parser::node::SpecNode;
use crate::text::digits;
use crate::text::lemma_digits_denote;
use vstd::prelude::*;

verus! {

/// The labels with an index from `low` up to, but not including, `high`.
pub open spec fn range(low: int, high: int) -> Set<Label> {
    Set::new(|l: Label| low <= l.index < high)
}

/// Whether the code places only labels of `within`, and none of them twice.
pub open spec fn places(code: Seq<Instr>, within: Set<Label>) -> bool {
    &&& forall|k: int|
        0 <= k < code.len() ==> (#[trigger] code[k] matches Instr::Place(l) ==> within.contains(l))
    &&& forall|j: int, k: int|
        0 <= j < k < code.len() && code[j] is Place ==> #[trigger] code[j] != #[trigger] code[k]
}

/// Whether the code places no label.
pub open spec fn unlabelled(code: Seq<Instr>) -> bool {
    forall|k: int| 0 <= k < code.len() ==> !(#[trigger] code[k] is Place)
}

/// Code that places labels of one set, followed by code that places labels
/// of a set apart from it.
pub proof fn lemma_places_append(a: Seq<Instr>, sa: Set<Label>, b: Seq<Instr>, sb: Set<Label>)
    requires
        places(a, sa),
        places(b, sb),
        sa.disjoint(sb),
    ensures
        places(a + b, sa.union(sb)),
{
    let code = a + b;
    assert forall|k: int| 0 <= k < code.len() implies (#[trigger] code[k] matches Instr::Place(
        l,
    ) ==> sa.union(sb).contains(l)) by {
        if k < a.len() {
            assert(code[k] == a[k]);
        } else {
            assert(code[k] == b[k - a.len()]);
        }
    }
    assert forall|j: int, k: int|
        0 <= j < k < code.len() && code[j] is Place implies #[trigger] code[j] != #[trigger] code[k] by {
        if k < a.len() {
            assert(code[j] == a[j] && code[k] == a[k]);
        } else if j >= a.len() {
            assert(code[j] == b[j - a.len()] && code[k] == b[k - a.len()]);
        } else {
            assert(code[j] == a[j] && code[k] == b[k - a.len()]);
            let l = a[j]->Place_0;
            assert(sa.contains(l));
            assert(!sb.contains(l));
        }
    }
}

/// Code that places labels of a set places labels of every set that holds
/// it.
pub proof fn lemma_places_wider(code: Seq<Instr>, within: Set<Label>, wider: Set<Label>)
    requires
        places(code, within),
        within.subset_of(wider),
    ensures
        places(code, wider),
{
}

/// Code without a label places labels of the empty set.
pub proof fn lemma_places_none(code: Seq<Instr>)
    requires
        unlabelled(code),
    ensures
        places(code, Set::empty()),
{
}

/// Code that places labels, with code without a label before or after it.
pub proof fn lemma_places_around(before: Seq<Instr>, code: Seq<Instr>, after: Seq<Instr>, within: Set<Label>)
    requires
        places(code, within),
        unlabelled(before),
        unlabelled(after),
    ensures
        places(before + code + after, within),
{
    lemma_places_none(before);
    lemma_places_none(after);
    lemma_places_append(before, Set::empty(), code, within);
    lemma_places_append(before + code, Set::<Label>::empty().union(within), after, Set::empty());
    lemma_places_wider(
        before + code + after,
        Set::<Label>::empty().union(within).union(Set::empty()),
        within,
    );
}

/// Two codes with labels of two ranges of indices, the second range after
/// the first.
pub proof fn lemma_places_ranges(a: Seq<Instr>, b: Seq<Instr>, low: int, middle: int, high: int)
    requires
        low <= middle <= high,
        places(a, range(low, middle)),
        places(b, range(middle, high)),
    ensures
        places(a + b, range(low, high)),
{
    lemma_places_append(a, range(low, middle), b, range(middle, high));
    lemma_places_wider(a + b, range(low, middle).union(range(middle, high)), range(low, high));
}

/// No two control constructs share a label: the code of a tree places only
/// labels with an index from the next free one on and below the one that
/// is free after it, and it places no label twice.
pub proof fn theorem_labels(n: SpecNode, next: usize)
    ensures
        lower(n, next) matches Ok(l) ==> next <= l.next && places(
            l.code,
            range(next as int, l.next as int),
        ),
    decreases n, 1nat,
{
    if let Ok(whole) = lower(n, next) {
        match n {
            SpecNode::Number(_) | SpecNode::LocalVariable(_, _) => {
                lemma_places_none(whole.code);
                lemma_places_wider(whole.code, Set::empty(), range(next as int, next as int));
            },
            SpecNode::Equal(l, r)
            | SpecNode::UnEqual(l, r)
            | SpecNode::Less(l, r)
            | SpecNode::LessEqual(l, r)
            | SpecNode::Plus(l, r)
            | SpecNode::Minus(l, r)
            | SpecNode::Multiple(l, r)
            | SpecNode::Devide(l, r) => {
                theorem_labels(*l, next);
                let a = lower(*l, next)->Ok_0;
                theorem_labels(*r, a.next);
                let b = lower(*r, a.next)->Ok_0;
                lemma_places_ranges(a.code, b.code, next as int, a.next as int, b.next as int);
                lemma_places_around(
                    Seq::empty(),
                    a.code + b.code,
                    operation(n),
                    range(next as int, b.next as int),
                );
                assert(whole.code =~= Seq::<Instr>::empty() + (a.code + b.code) + operation(n));
            },
            SpecNode::Assign(target, value) => {
                let offset = target->LocalVariable_1;
                theorem_labels(*value, next);
                let v = lower(*value, next)->Ok_0;
                lemma_places_around(
                    address(offset),
                    v.code,
                    store(),
                    range(next as int, v.next as int),
                );
            },
            SpecNode::Return(v) => {
                theorem_labels(*v, next);
                let v = lower(*v, next)->Ok_0;
                lemma_places_around(
                    Seq::empty(),
                    v.code,
                    leave(),
                    range(next as int, v.next as int),
                );
                assert(whole.code =~= Seq::<Instr>::empty() + v.code + leave());
            },
            SpecNode::Block(nodes) => {
                theorem_labels_all(nodes, next, Seq::empty());
            },
            SpecNode::If(condition, then, otherwise) => {
                let first = (next + 1) as usize;
                let end = label(LabelKind::End, next);
                let other = label(LabelKind::Else, next);
                theorem_labels(*condition, first);
                let c = lower(*condition, first)->Ok_0;
                theorem_labels(*then, c.next);
                let t = lower(*then, c.next)->Ok_0;
                lemma_places_around(
                    Seq::empty(),
                    c.code,
                    branch_if_zero(if otherwise is Some {
                        other
                    } else {
                        end
                    }),
                    range(first as int, c.next as int),
                );
                let head = Seq::<Instr>::empty() + c.code + branch_if_zero(
                    if otherwise is Some {
                        other
                    } else {
                        end
                    },
                );
                lemma_places_ranges(head, t.code, first as int, c.next as int, t.next as int);
                let inner = range(first as int, t.next as int);
                match otherwise {
                    Some(otherwise) => {
                        theorem_labels(*otherwise, t.next);
                        let o = lower(*otherwise, t.next)->Ok_0;
                        let turn = seq![Instr::Jump(end), Instr::Place(other)];
                        let close = seq![Instr::Place(end)];
                        assert(places(turn, set![other]));
                        assert(places(close, set![end]));
                        lemma_places_append(head + t.code, inner, turn, set![other]);
                        let s1 = inner.union(set![other]);
                        lemma_places_append(
                            head + t.code + turn,
                            s1,
                            o.code,
                            range(t.next as int, o.next as int),
                        );
                        let s2 = s1.union(range(t.next as int, o.next as int));
                        lemma_places_append(head + t.code + turn + o.code, s2, close, set![end]);
                        lemma_places_wider(
                            head + t.code + turn + o.code + close,
                            s2.union(set![end]),
                            range(next as int, o.next as int),
                        );
                        assert(whole.code =~= head + t.code + turn + o.code + close);
                    },
                    None => {
                        let close = seq![Instr::Place(end)];
                        assert(places(close, set![end]));
                        lemma_places_append(head + t.code, inner, close, set![end]);
                        lemma_places_wider(
                            head + t.code + close,
                            inner.union(set![end]),
                            range(next as int, t.next as int),
                        );
                        assert(whole.code =~= head + t.code + close);
                    },
                }
            },
            SpecNode::While(condition, body) => {
                let first = (next + 1) as usize;
                let begin = label(LabelKind::Begin, next);
                let end = label(LabelKind::End, next);
                theorem_labels(*condition, first);
                let c = lower(*condition, first)->Ok_0;
                theorem_labels(*body, c.next);
                let b = lower(*body, c.next)->Ok_0;
                let open = seq![Instr::Place(begin)];
                let close = seq![Instr::Jump(begin), Instr::Place(end)];
                assert(places(open, set![begin]));
                assert(places(close, set![end]));
                lemma_places_around(
                    Seq::empty(),
                    c.code,
                    branch_if_zero(end),
                    range(first as int, c.next as int),
                );
                let head = Seq::<Instr>::empty() + c.code + branch_if_zero(end);
                lemma_places_ranges(head, b.code, first as int, c.next as int, b.next as int);
                let inner = range(first as int, b.next as int);
                lemma_places_append(open, set![begin], head + b.code, inner);
                lemma_places_append(
                    open + (head + b.code),
                    set![begin].union(inner),
                    close,
                    set![end],
                );
                lemma_places_wider(
                    open + (head + b.code) + close,
                    set![begin].union(inner).union(set![end]),
                    range(next as int, b.next as int),
                );
                assert(whole.code =~= open + (head + b.code) + close);
            },
            SpecNode::For(init, test, step, body) => {
                let first = (next + 1) as usize;
                let begin = label(LabelKind::Begin, next);
                let end = label(LabelKind::End, next);
                theorem_labels_option(init, first);
                let i = lower_option(init, first)->Ok_0;
                theorem_labels_option(test, i.next);
                let t = lower_option(test, i.next)->Ok_0;
                theorem_labels_option(step, t.next);
                let s = lower_option(step, t.next)->Ok_0;
                theorem_labels(*body, s.next);
                let b = lower(*body, s.next)->Ok_0;
                let open = seq![Instr::Place(begin)];
                let close = seq![Instr::Jump(begin), Instr::Place(end)];
                let branch = if test is Some {
                    branch_if_zero(end)
                } else {
                    Seq::empty()
                };
                assert(places(open, set![begin]));
                assert(places(close, set![end]));
                lemma_places_around(
                    Seq::empty(),
                    t.code,
                    branch,
                    range(i.next as int, t.next as int),
                );
                let tested = Seq::<Instr>::empty() + t.code + branch;
                lemma_places_ranges(tested, s.code, i.next as int, t.next as int, s.next as int);
                lemma_places_ranges(
                    tested + s.code,
                    b.code,
                    i.next as int,
                    s.next as int,
                    b.next as int,
                );
                let rest = tested + s.code + b.code;
                lemma_places_append(
                    i.code,
                    range(first as int, i.next as int),
                    open,
                    set![begin],
                );
                let s1 = range(first as int, i.next as int).union(set![begin]);
                lemma_places_append(i.code + open, s1, rest, range(i.next as int, b.next as int));
                let s2 = s1.union(range(i.next as int, b.next as int));
                lemma_places_append(i.code + open + rest, s2, close, set![end]);
                lemma_places_wider(
                    i.code + open + rest + close,
                    s2.union(set![end]),
                    range(next as int, b.next as int),
                );
                assert(whole.code =~= i.code + open + rest + close);
            },
        }
    }
}

/// The code of an optional tree places labels as the code of a tree does.
pub proof fn theorem_labels_option(n: Option<Box<SpecNode>>, next: usize)
    ensures
        lower_option(n, next) matches Ok(l) ==> next <= l.next && places(
            l.code,
            range(next as int, l.next as int),
        ),
    decreases n, 0nat,
{
    match n {
        Some(n) => {
            theorem_labels(*n, next);
        },
        None => {
            lemma_places_none(Seq::empty());
            lemma_places_wider(Seq::empty(), Set::empty(), range(next as int, next as int));
        },
    }
}

/// The code of a sequence of trees, each followed by code without a label,
/// places labels as the code of a tree does.
pub proof fn theorem_labels_all(nodes: Seq<SpecNode>, next: usize, after: Seq<Instr>)
    requires
        unlabelled(after),
    ensures
        lower_all(nodes, next, after) matches Ok(l) ==> next <= l.next && places(
            l.code,
            range(next as int, l.next as int),
        ),
    decreases nodes, 0nat,
{
    if let Ok(whole) = lower_all(nodes, next, after) {
        if nodes.len() == 0 {
            lemma_places_none(whole.code);
            lemma_places_wider(whole.code, Set::empty(), range(next as int, next as int));
        } else {
            theorem_labels(nodes[0], next);
            let first = lower(nodes[0], next)->Ok_0;
            let others = nodes.subrange(1, nodes.len() as int);
            theorem_labels_all(others, first.next, after);
            let rest = lower_all(others, first.next, after)->Ok_0;
            lemma_places_around(
                Seq::empty(),
                first.code,
                after,
                range(next as int, first.next as int),
            );
            lemma_places_ranges(
                Seq::<Instr>::empty() + first.code + after,
                rest.code,
                next as int,
                first.next as int,
                rest.next as int,
            );
            assert(whole.code =~= Seq::<Instr>::empty() + first.code + after + rest.code);
        }
    }
}

/// A whole program places no label twice.
pub proof fn theorem_program_labels(nodes: Seq<SpecNode>, next: usize)
    ensures
        program(nodes, next) matches Ok(l) ==> next <= l.next && places(
            l.code,
            range(next as int, l.next as int),
        ),
{
    if let Ok(whole) = program(nodes, next) {
        theorem_labels_all(nodes, next, seq![Instr::PopRax]);
        let body = lower_all(nodes, next, seq![Instr::PopRax])->Ok_0;
        lemma_places_around(
            preamble() + prologue(),
            body.code,
            epilogue(),
            range(next as int, body.next as int),
        );
    }
}

/// No two labels share their text: labels with the same name are the same
/// label.
pub proof fn theorem_label_text(a: Label, b: Label)
    requires
        label_text(a) == label_text(b),
    ensures
        a == b,
{
    reveal_strlit(".Lelse");
    reveal_strlit(".Lend");
    reveal_strlit(".Lbegin");
    let x = digits(a.index as nat);
    let y = digits(b.index as nat);
    lemma_digits_denote(a.index as nat);
    lemma_digits_denote(b.index as nat);
    let ta = label_text(a);
    let tb = label_text(b);
    // the third and the fourth character tell the kinds apart
    assert(ta[2] == tb[2]);
    assert(ta[3] == tb[3]);
    assert(a.kind == b.kind);
    let head = match a.kind {
        LabelKind::Else => ".Lelse"@,
        LabelKind::End => ".Lend"@,
        LabelKind::Begin => ".Lbegin"@,
    };
    assert(ta == head + x);
    assert(tb == head + y);
    assert(x =~= ta.subrange(head.len() as int, ta.len() as int));
    assert(y =~= tb.subrange(head.len() as int, tb.len() as int));
}

/// The label that an instruction names, if it names one.
pub open spec fn label_of(i: Instr) -> Option<Label> {
    match i {
        Instr::JumpEqual(l) | Instr::Jump(l) | Instr::Place(l) => Some(l),
        _ => None,
    }
}

/// Whether the code names only labels with an index from `low` up to, but
/// not including, `high`.
pub open spec fn names(code: Seq<Instr>, low: int, high: int) -> bool {
    forall|k: int|
        0 <= k < code.len() ==> (#[trigger] label_of(code[k]) matches Some(l) ==> low <= l.index
            < high)
}

/// Code that names labels of a range of indices, followed by code that
/// names labels of the same range.
pub proof fn lemma_names_append(a: Seq<Instr>, b: Seq<Instr>, low: int, high: int)
    requires
        names(a, low, high),
        names(b, low, high),
    ensures
        names(a + b, low, high),
{
    let code = a + b;
    assert forall|k: int| 0 <= k < code.len() implies (#[trigger] label_of(code[k]) matches Some(
        l,
    ) ==> low <= l.index < high) by {
        if k < a.len() {
            assert(code[k] == a[k]);
        } else {
            assert(code[k] == b[k - a.len()]);
        }
    }
}

/// Code that names labels of a range names labels of every wider range.
pub proof fn lemma_names_wider(code: Seq<Instr>, low: int, high: int, lower: int, higher: int)
    requires
        names(code, low, high),
        lower <= low,
        high <= higher,
    ensures
        names(code, lower, higher),
{
}

/// Two codes one after the other, each with the labels of a part of a
/// range.
proof fn lemma_names_both(
    a: Seq<Instr>,
    al: int,
    ah: int,
    b: Seq<Instr>,
    bl: int,
    bh: int,
    low: int,
    high: int,
)
    requires
        names(a, al, ah),
        names(b, bl, bh),
        low <= al,
        low <= bl,
        ah <= high,
        bh <= high,
    ensures
        names(a + b, low, high),
{
    lemma_names_wider(a, al, ah, low, high);
    lemma_names_wider(b, bl, bh, low, high);
    lemma_names_append(a, b, low, high);
}

/// Jumps stay inside their construct: the code of a tree names only labels
/// with an index from the next free one on and below the one that is free
/// after it.
pub proof fn theorem_names(n: SpecNode, next: usize)
    ensures
        lower(n, next) matches Ok(l) ==> next <= l.next && names(
            l.code,
            next as int,
            l.next as int,
        ),
    decreases n, 1nat,
{
    if let Ok(whole) = lower(n, next) {
        let low = next as int;
        let high = whole.next as int;
        match n {
            SpecNode::Number(_) | SpecNode::LocalVariable(_, _) => {},
            SpecNode::Equal(l, r)
            | SpecNode::UnEqual(l, r)
            | SpecNode::Less(l, r)
            | SpecNode::LessEqual(l, r)
            | SpecNode::Plus(l, r)
            | SpecNode::Minus(l, r)
            | SpecNode::Multiple(l, r)
            | SpecNode::Devide(l, r) => {
                theorem_names(*l, next);
                let a = lower(*l, next)->Ok_0;
                theorem_names(*r, a.next);
                let b = lower(*r, a.next)->Ok_0;
                lemma_names_both(
                    a.code,
                    low,
                    a.next as int,
                    b.code,
                    a.next as int,
                    high,
                    low,
                    high,
                );
                assert(names(operation(n), low, high));
                lemma_names_append(a.code + b.code, operation(n), low, high);
            },
            SpecNode::Assign(target, value) => {
                let offset = target->LocalVariable_1;
                theorem_names(*value, next);
                let v = lower(*value, next)->Ok_0;
                assert(names(address(offset), low, high));
                assert(names(store(), low, high));
                lemma_names_append(address(offset), v.code, low, high);
                lemma_names_append(address(offset) + v.code, store(), low, high);
            },
            SpecNode::Return(v) => {
                theorem_names(*v, next);
                let v = lower(*v, next)->Ok_0;
                assert(names(leave(), low, high));
                lemma_names_append(v.code, leave(), low, high);
            },
            SpecNode::Block(nodes) => {
                theorem_names_all(nodes, next, Seq::empty());
            },
            SpecNode::If(condition, then, otherwise) => {
                let first = (next + 1) as usize;
                let end = label(LabelKind::End, next);
                let other = label(LabelKind::Else, next);
                theorem_names(*condition, first);
                let c = lower(*condition, first)->Ok_0;
                theorem_names(*then, c.next);
                let t = lower(*then, c.next)->Ok_0;
                if let Some(otherwise) = otherwise {
                    theorem_names(*otherwise, t.next);
                }
                let branch = branch_if_zero(if otherwise is Some {
                    other
                } else {
                    end
                });
                assert(names(branch, low, high));
                lemma_names_both(c.code, first as int, c.next as int, branch, low, high, low, high);
                lemma_names_both(
                    c.code + branch,
                    low,
                    high,
                    t.code,
                    c.next as int,
                    t.next as int,
                    low,
                    high,
                );
                match otherwise {
                    Some(otherwise) => {
                        let o = lower(*otherwise, t.next)->Ok_0;
                        let turn = seq![Instr::Jump(end), Instr::Place(other)];
                        let close = seq![Instr::Place(end)];
                        assert(names(turn, low, high));
                        assert(names(close, low, high));
                        lemma_names_append(c.code + branch + t.code, turn, low, high);
                        lemma_names_both(
                            c.code + branch + t.code + turn,
                            low,
                            high,
                            o.code,
                            t.next as int,
                            o.next as int,
                            low,
                            high,
                        );
                        lemma_names_append(
                            c.code + branch + t.code + turn + o.code,
                            close,
                            low,
                            high,
                        );
                    },
                    None => {
                        let close = seq![Instr::Place(end)];
                        assert(names(close, low, high));
                        lemma_names_append(c.code + branch + t.code, close, low, high);
                    },
                }
            },
            SpecNode::While(condition, body) => {
                let first = (next + 1) as usize;
                let begin = label(LabelKind::Begin, next);
                let end = label(LabelKind::End, next);
                theorem_names(*condition, first);
                let c = lower(*condition, first)->Ok_0;
                theorem_names(*body, c.next);
                let b = lower(*body, c.next)->Ok_0;
                let open = seq![Instr::Place(begin)];
                let close = seq![Instr::Jump(begin), Instr::Place(end)];
                assert(names(open, low, high));
                assert(names(close, low, high));
                assert(names(branch_if_zero(end), low, high));
                lemma_names_both(open, low, high, c.code, first as int, c.next as int, low, high);
                lemma_names_append(open + c.code, branch_if_zero(end), low, high);
                lemma_names_both(
                    open + c.code + branch_if_zero(end),
                    low,
                    high,
                    b.code,
                    c.next as int,
                    b.next as int,
                    low,
                    high,
                );
                lemma_names_append(open + c.code + branch_if_zero(end) + b.code, close, low, high);
            },
            SpecNode::For(init, test, step, body) => {
                let first = (next + 1) as usize;
                let begin = label(LabelKind::Begin, next);
                let end = label(LabelKind::End, next);
                theorem_names_option(init, first);
                let i = lower_option(init, first)->Ok_0;
                theorem_names_option(test, i.next);
                let t = lower_option(test, i.next)->Ok_0;
                theorem_names_option(step, t.next);
                let s = lower_option(step, t.next)->Ok_0;
                theorem_names(*body, s.next);
                let b = lower(*body, s.next)->Ok_0;
                let open = seq![Instr::Place(begin)];
                let close = seq![Instr::Jump(begin), Instr::Place(end)];
                let branch = if test is Some {
                    branch_if_zero(end)
                } else {
                    Seq::empty()
                };
                assert(names(open, low, high));
                assert(names(close, low, high));
                assert(names(branch, low, high));
                lemma_names_both(i.code, first as int, i.next as int, open, low, high, low, high);
                lemma_names_both(
                    i.code + open,
                    low,
                    high,
                    t.code,
                    i.next as int,
                    t.next as int,
                    low,
                    high,
                );
                lemma_names_append(i.code + open + t.code, branch, low, high);
                lemma_names_both(
                    i.code + open + t.code + branch,
                    low,
                    high,
                    s.code,
                    t.next as int,
                    s.next as int,
                    low,
                    high,
                );
                lemma_names_both(
                    i.code + open + t.code + branch + s.code,
                    low,
                    high,
                    b.code,
                    s.next as int,
                    b.next as int,
                    low,
                    high,
                );
                lemma_names_append(
                    i.code + open + t.code + branch + s.code + b.code,
                    close,
                    low,
                    high,
                );
            },
        }
    }
}

/// The code of an optional tree names labels as the code of a tree does.
pub proof fn theorem_names_option(n: Option<Box<SpecNode>>, next: usize)
    ensures
        lower_option(n, next) matches Ok(l) ==> next <= l.next && names(
            l.code,
            next as int,
            l.next as int,
        ),
    decreases n, 0nat,
{
    if let Some(n) = n {
        theorem_names(*n, next);
    }
}

/// The code of a sequence of trees, each followed by code without a label,
/// names labels as the code of a tree does.
pub proof fn theorem_names_all(nodes: Seq<SpecNode>, next: usize, after: Seq<Instr>)
    requires
        forall|k: int| 0 <= k < after.len() ==> label_of(#[trigger] after[k]) is None,
    ensures
        lower_all(nodes, next, after) matches Ok(l) ==> next <= l.next && names(
            l.code,
            next as int,
            l.next as int,
        ),
    decreases nodes, 0nat,
{
    if let Ok(whole) = lower_all(nodes, next, after) {
        if nodes.len() > 0 {
            let low = next as int;
            let high = whole.next as int;
            theorem_names(nodes[0], next);
            let first = lower(nodes[0], next)->Ok_0;
            let others = nodes.subrange(1, nodes.len() as int);
            theorem_names_all(others, first.next, after);
            let rest = lower_all(others, first.next, after)->Ok_0;
            assert(names(after, low, high));
            lemma_names_both(first.code, low, first.next as int, after, low, high, low, high);
            lemma_names_both(
                first.code + after,
                low,
                high,
                rest.code,
                first.next as int,
                high,
                low,
                high,
            );
        }
    }
}

/// A `for` loop without a test has no branch of its own: no instruction of
/// its code leaves the loop for its end where a condition is zero.
pub proof fn theorem_for_without_test(
    init: Option<Box<SpecNode>>,
    step: Option<Box<SpecNode>>,
    body: SpecNode,
    next: usize,
)
    ensures
        lower(SpecNode::For(init, None, step, Box::new(body)), next) matches Ok(l) ==> forall|
            k: int,
        |
            0 <= k < l.code.len() ==> #[trigger] l.code[k] != Instr::JumpEqual(
                label(LabelKind::End, next),
            ),
{
    let n = SpecNode::For(init, None, step, Box::new(body));
    if let Ok(l) = lower(n, next) {
        let first = (next + 1) as usize;
        let begin = label(LabelKind::Begin, next);
        let end = label(LabelKind::End, next);
        theorem_names_option(init, first);
        let i = lower_option(init, first)->Ok_0;
        let t = lower_option(None, i.next)->Ok_0;
        theorem_names_option(step, t.next);
        let s = lower_option(step, t.next)->Ok_0;
        theorem_names(body, s.next);
        let b = lower(body, s.next)->Ok_0;
        let open = seq![Instr::Place(begin)];
        let close = seq![Instr::Jump(begin), Instr::Place(end)];
        let inner = i.code + open + s.code + b.code;
        assert(l.code =~= inner + close);
        assert forall|k: int| 0 <= k < l.code.len() implies #[trigger] l.code[k]
            != Instr::JumpEqual(end) by {
            if k < i.code.len() {
                assert(l.code[k] == i.code[k]);
                assert(label_of(i.code[k]) matches Some(x) ==> x.index >= first);
            } else if k < i.code.len() + 1 {
                assert(l.code[k] == open[0]);
            } else if k < i.code.len() + 1 + s.code.len() {
                let j = k - i.code.len() - 1;
                assert(l.code[k] == s.code[j]);
                assert(label_of(s.code[j]) matches Some(x) ==> x.index >= first);
            } else if k < inner.len() {
                let j = k - i.code.len() - 1 - s.code.len();
                assert(l.code[k] == b.code[j]);
                assert(label_of(b.code[j]) matches Some(x) ==> x.index >= first);
            } else {
                assert(l.code[k] == close[k - inner.len()]);
            }
        }
    }
}

} // verus!
