//! Syntax trees and their mathematical model.
use vstd::prelude::*;

verus! {

/// A node of the syntax tree. Each node owns its children.
///
/// A comparison with `>` or `>=` in the source is held as `Less` or
/// `LessEqual` with its operands exchanged.
#[derive(PartialEq, Eq, Debug)]
pub enum Node {
    /// An integer literal.
    Number(isize),
    /// A local variable: its name, and its offset below the frame base.
    LocalVariable(String, usize),
    /// left == right
    Equal(Box<Node>, Box<Node>),
    /// left != right
    UnEqual(Box<Node>, Box<Node>),
    /// left < right
    Less(Box<Node>, Box<Node>),
    /// left <= right
    LessEqual(Box<Node>, Box<Node>),
    /// left + right
    Plus(Box<Node>, Box<Node>),
    /// left - right
    Minus(Box<Node>, Box<Node>),
    /// left * right
    Multiple(Box<Node>, Box<Node>),
    /// left / right
    Devide(Box<Node>, Box<Node>),
    /// target = value
    Assign(Box<Node>, Box<Node>),
    /// return value
    Return(Box<Node>),
    /// { statement* }
    Block(Vec<Node>),
    /// if (condition) then else otherwise
    If(Box<Node>, Box<Node>, Option<Box<Node>>),
    /// for (init; test; step) body
    For(Option<Box<Node>>, Option<Box<Node>>, Option<Box<Node>>, Box<Node>),
    /// while (condition) body
    While(Box<Node>, Box<Node>),
}

/// The mathematical model of a [`Node`]: the same tree, with names as
/// sequences of characters and a block as a sequence of trees.
pub enum SpecNode {
    Number(isize),
    LocalVariable(Seq<char>, usize),
    Equal(Box<SpecNode>, Box<SpecNode>),
    UnEqual(Box<SpecNode>, Box<SpecNode>),
    Less(Box<SpecNode>, Box<SpecNode>),
    LessEqual(Box<SpecNode>, Box<SpecNode>),
    Plus(Box<SpecNode>, Box<SpecNode>),
    Minus(Box<SpecNode>, Box<SpecNode>),
    Multiple(Box<SpecNode>, Box<SpecNode>),
    Devide(Box<SpecNode>, Box<SpecNode>),
    Assign(Box<SpecNode>, Box<SpecNode>),
    Return(Box<SpecNode>),
    Block(Seq<SpecNode>),
    If(Box<SpecNode>, Box<SpecNode>, Option<Box<SpecNode>>),
    For(Option<Box<SpecNode>>, Option<Box<SpecNode>>, Option<Box<SpecNode>>, Box<SpecNode>),
    While(Box<SpecNode>, Box<SpecNode>),
}

/// The model of a tree.
pub open spec fn model(n: Node) -> SpecNode
    decreases n,
{
    match n {
        Node::Number(v) => SpecNode::Number(v),
        Node::LocalVariable(name, offset) => SpecNode::LocalVariable(name@, offset),
        Node::Equal(l, r) => SpecNode::Equal(Box::new(model(*l)), Box::new(model(*r))),
        Node::UnEqual(l, r) => SpecNode::UnEqual(Box::new(model(*l)), Box::new(model(*r))),
        Node::Less(l, r) => SpecNode::Less(Box::new(model(*l)), Box::new(model(*r))),
        Node::LessEqual(l, r) => SpecNode::LessEqual(Box::new(model(*l)), Box::new(model(*r))),
        Node::Plus(l, r) => SpecNode::Plus(Box::new(model(*l)), Box::new(model(*r))),
        Node::Minus(l, r) => SpecNode::Minus(Box::new(model(*l)), Box::new(model(*r))),
        Node::Multiple(l, r) => SpecNode::Multiple(Box::new(model(*l)), Box::new(model(*r))),
        Node::Devide(l, r) => SpecNode::Devide(Box::new(model(*l)), Box::new(model(*r))),
        Node::Assign(l, r) => SpecNode::Assign(Box::new(model(*l)), Box::new(model(*r))),
        Node::Return(v) => SpecNode::Return(Box::new(model(*v))),
        Node::Block(nodes) => SpecNode::Block(
            Seq::new(
                nodes@.len(),
                |i: int|
                    if 0 <= i < nodes@.len() {
                        model(nodes@[i])
                    } else {
                        SpecNode::Block(Seq::empty())
                    },
            ),
        ),
        Node::If(c, t, e) => SpecNode::If(
            Box::new(model(*c)),
            Box::new(model(*t)),
            match e {
                Some(e) => Some(Box::new(model(*e))),
                None => None,
            },
        ),
        Node::For(a, b, c, body) => SpecNode::For(
            match a {
                Some(a) => Some(Box::new(model(*a))),
                None => None,
            },
            match b {
                Some(b) => Some(Box::new(model(*b))),
                None => None,
            },
            match c {
                Some(c) => Some(Box::new(model(*c))),
                None => None,
            },
            Box::new(model(*body)),
        ),
        Node::While(c, body) => SpecNode::While(Box::new(model(*c)), Box::new(model(*body))),
    }
}

impl View for Node {
    type V = SpecNode;

    open spec fn view(&self) -> SpecNode {
        model(*self)
    }
}

impl DeepView for Node {
    type V = SpecNode;

    open spec fn deep_view(&self) -> SpecNode {
        model(*self)
    }
}

/// Whether a tree is an expression: a number, a variable, an operation on
/// expressions, or an assignment of an expression to a variable.
pub open spec fn expression(e: SpecNode) -> bool
    decreases e,
{
    match e {
        SpecNode::Number(_) => true,
        SpecNode::LocalVariable(_, _) => true,
        SpecNode::Equal(l, r)
        | SpecNode::UnEqual(l, r)
        | SpecNode::Less(l, r)
        | SpecNode::LessEqual(l, r)
        | SpecNode::Plus(l, r)
        | SpecNode::Minus(l, r)
        | SpecNode::Multiple(l, r)
        | SpecNode::Devide(l, r) => expression(*l) && expression(*r),
        SpecNode::Assign(target, v) => *target is LocalVariable && expression(*v),
        _ => false,
    }
}

/// The number of nodes of a tree.
pub open spec fn size(n: SpecNode) -> nat
    decreases n,
{
    match n {
        SpecNode::Number(_) => 1,
        SpecNode::LocalVariable(_, _) => 1,
        SpecNode::Equal(l, r)
        | SpecNode::UnEqual(l, r)
        | SpecNode::Less(l, r)
        | SpecNode::LessEqual(l, r)
        | SpecNode::Plus(l, r)
        | SpecNode::Minus(l, r)
        | SpecNode::Multiple(l, r)
        | SpecNode::Devide(l, r)
        | SpecNode::Assign(l, r)
        | SpecNode::While(l, r) => 1 + size(*l) + size(*r),
        SpecNode::Return(v) => 1 + size(*v),
        SpecNode::Block(nodes) => 1 + total_size(nodes),
        SpecNode::If(c, t, e) => 1 + size(*c) + size(*t) + option_size(e),
        SpecNode::For(a, b, c, body) => 1 + option_size(a) + option_size(b) + option_size(c)
            + size(*body),
    }
}

/// The number of nodes of an optional tree.
pub open spec fn option_size(n: Option<Box<SpecNode>>) -> nat
    decreases n,
{
    match n {
        Some(n) => size(*n),
        None => 0,
    }
}

/// The number of nodes of a sequence of trees.
pub open spec fn total_size(nodes: Seq<SpecNode>) -> nat
    decreases nodes,
{
    if nodes.len() == 0 {
        0
    } else {
        size(nodes[0]) + total_size(nodes.subrange(1, nodes.len() as int))
    }
}

/// A sequence of trees has at least the nodes of each of them.
pub proof fn lemma_item_size(nodes: Seq<SpecNode>, i: int)
    requires
        0 <= i < nodes.len(),
    ensures
        size(nodes[i]) <= total_size(nodes),
    decreases nodes.len(),
{
    if i > 0 {
        lemma_item_size(nodes.subrange(1, nodes.len() as int), i - 1);
    }
}

/// The model of an optional boxed tree.
pub open spec fn boxed_model(n: Option<Box<Node>>) -> Option<Box<SpecNode>> {
    match n {
        Some(n) => Some(Box::new(n@)),
        None => None,
    }
}

/// The model of an optional tree.
pub open spec fn option_model(n: Option<Node>) -> Option<Box<SpecNode>> {
    match n {
        Some(n) => Some(Box::new(n@)),
        None => None,
    }
}

/// A block's model holds the models of its statements.
pub proof fn lemma_block_model(nodes: Vec<Node>)
    ensures
        Node::Block(nodes)@ == SpecNode::Block(nodes.deep_view()),
{
    assert(Node::Block(nodes)@->Block_0 =~= nodes.deep_view());
}

fn boxed(n: Option<Node>) -> (r: Option<Box<Node>>)
    ensures
        match n {
            Some(n) => r == Some(Box::new(n)),
            None => r is None,
        },
{
    match n {
        Some(n) => Some(Box::new(n)),
        None => None,
    }
}

impl Node {
    pub fn number(n: isize) -> (r: Self)
        ensures
            r@ == SpecNode::Number(n),
    {
        Node::Number(n)
    }

    pub fn local_variable(n: &str, offset: usize) -> (r: Self)
        ensures
            r@ == SpecNode::LocalVariable(n@, offset),
    {
        Node::LocalVariable(n.to_owned(), offset)
    }

    pub fn equal(left: Self, right: Self) -> (r: Self)
        ensures
            r@ == SpecNode::Equal(Box::new(left@), Box::new(right@)),
    {
        Node::Equal(Box::new(left), Box::new(right))
    }

    pub fn unequal(left: Self, right: Self) -> (r: Self)
        ensures
            r@ == SpecNode::UnEqual(Box::new(left@), Box::new(right@)),
    {
        Node::UnEqual(Box::new(left), Box::new(right))
    }

    pub fn less(left: Self, right: Self) -> (r: Self)
        ensures
            r@ == SpecNode::Less(Box::new(left@), Box::new(right@)),
    {
        Node::Less(Box::new(left), Box::new(right))
    }

    pub fn less_equal(left: Self, right: Self) -> (r: Self)
        ensures
            r@ == SpecNode::LessEqual(Box::new(left@), Box::new(right@)),
    {
        Node::LessEqual(Box::new(left), Box::new(right))
    }

    pub fn plus(left: Self, right: Self) -> (r: Self)
        ensures
            r@ == SpecNode::Plus(Box::new(left@), Box::new(right@)),
    {
        Node::Plus(Box::new(left), Box::new(right))
    }

    pub fn minus(left: Self, right: Self) -> (r: Self)
        ensures
            r@ == SpecNode::Minus(Box::new(left@), Box::new(right@)),
    {
        Node::Minus(Box::new(left), Box::new(right))
    }

    pub fn multiple(left: Self, right: Self) -> (r: Self)
        ensures
            r@ == SpecNode::Multiple(Box::new(left@), Box::new(right@)),
    {
        Node::Multiple(Box::new(left), Box::new(right))
    }

    pub fn devide(left: Self, right: Self) -> (r: Self)
        ensures
            r@ == SpecNode::Devide(Box::new(left@), Box::new(right@)),
    {
        Node::Devide(Box::new(left), Box::new(right))
    }

    pub fn assign(left: Self, right: Self) -> (r: Self)
        ensures
            r@ == SpecNode::Assign(Box::new(left@), Box::new(right@)),
    {
        Node::Assign(Box::new(left), Box::new(right))
    }

    pub fn return_n(node: Self) -> (r: Self)
        ensures
            r@ == SpecNode::Return(Box::new(node@)),
    {
        Node::Return(Box::new(node))
    }

    pub fn block(nodes: Vec<Self>) -> (r: Self)
        ensures
            r@ == SpecNode::Block(nodes.deep_view()),
    {
        proof {
            lemma_block_model(nodes);
        }
        Node::Block(nodes)
    }

    pub fn if_n(condition: Self, true_action: Self, false_action: Option<Self>) -> (r: Self)
        ensures
            r@ == SpecNode::If(
                Box::new(condition@),
                Box::new(true_action@),
                option_model(false_action),
            ),
    {
        Node::If(Box::new(condition), Box::new(true_action), boxed(false_action))
    }

    pub fn for_n(
        condition1: Option<Self>,
        condition2: Option<Self>,
        condition3: Option<Self>,
        node: Self,
    ) -> (r: Self)
        ensures
            r@ == SpecNode::For(
                option_model(condition1),
                option_model(condition2),
                option_model(condition3),
                Box::new(node@),
            ),
    {
        Node::For(boxed(condition1), boxed(condition2), boxed(condition3), Box::new(node))
    }

    pub fn while_n(condition: Self, node: Self) -> (r: Self)
        ensures
            r@ == SpecNode::While(Box::new(condition@), Box::new(node@)),
    {
        Node::While(Box::new(condition), Box::new(node))
    }
}

fn duplicate_option(n: &Option<Box<Node>>) -> (r: Option<Box<Node>>)
    ensures
        match n {
            Some(n) => r matches Some(c) && c@ == n@,
            None => r is None,
        },
    decreases n, 0int,
{
    match n {
        Some(n) => Some(Box::new(duplicate(n))),
        None => None,
    }
}

fn duplicate(n: &Node) -> (r: Node)
    ensures
        r@ == n@,
    decreases n, 1int,
{
    match n {
        Node::Number(v) => Node::Number(*v),
        Node::LocalVariable(name, offset) => Node::LocalVariable(name.clone(), *offset),
        Node::Equal(l, r) => Node::Equal(Box::new(duplicate(l)), Box::new(duplicate(r))),
        Node::UnEqual(l, r) => Node::UnEqual(Box::new(duplicate(l)), Box::new(duplicate(r))),
        Node::Less(l, r) => Node::Less(Box::new(duplicate(l)), Box::new(duplicate(r))),
        Node::LessEqual(l, r) => Node::LessEqual(Box::new(duplicate(l)), Box::new(duplicate(r))),
        Node::Plus(l, r) => Node::Plus(Box::new(duplicate(l)), Box::new(duplicate(r))),
        Node::Minus(l, r) => Node::Minus(Box::new(duplicate(l)), Box::new(duplicate(r))),
        Node::Multiple(l, r) => Node::Multiple(Box::new(duplicate(l)), Box::new(duplicate(r))),
        Node::Devide(l, r) => Node::Devide(Box::new(duplicate(l)), Box::new(duplicate(r))),
        Node::Assign(l, r) => Node::Assign(Box::new(duplicate(l)), Box::new(duplicate(r))),
        Node::Return(v) => Node::Return(Box::new(duplicate(v))),
        Node::Block(nodes) => {
            let mut out: Vec<Node> = Vec::new();
            let mut i: usize = 0;
            while i < nodes.len()
                invariant
                    i <= nodes@.len(),
                    out@.len() == i,
                    forall|j: int| 0 <= j < i ==> out@[j]@ == nodes@[j]@,
                    n is Block && n->Block_0 == *nodes,
                decreases nodes@.len() - i,
            {
                proof {
                    vstd::std_specs::vec::axiom_vec_index_decreases(*nodes, i as int);
                }
                let c = duplicate(&nodes[i]);
                out.push(c);
                i += 1;
            }
            let r = Node::Block(out);
            assert(r@->Block_0 =~= n@->Block_0);
            r
        },
        Node::If(c, t, e) => Node::If(
            Box::new(duplicate(c)),
            Box::new(duplicate(t)),
            duplicate_option(e),
        ),
        Node::For(a, b, c, body) => Node::For(
            duplicate_option(a),
            duplicate_option(b),
            duplicate_option(c),
            Box::new(duplicate(body)),
        ),
        Node::While(c, body) => Node::While(Box::new(duplicate(c)), Box::new(duplicate(body))),
    }
}

impl Clone for Node {
    /// A copy of the tree, with the same model.
    fn clone(&self) -> (r: Self)
        ensures
            r@ == self@,
    {
        duplicate(self)
    }
}

} // verus!
