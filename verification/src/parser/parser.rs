//! The recursive-descent parser, proved against the grammar.
use super::grammar::Parsed;
use super::grammar::ParsedClause;
use super::grammar::ParsedList;
use super::grammar::SLOT;
use super::grammar::SpecError;
use super::grammar::Table;
use super::grammar::assign;
use super::grammar::block;
use super::grammar::block_items;
use super::grammar::chain;
use super::grammar::chain_rest;
use super::grammar::clause;
use super::grammar::closed_expr;
use super::grammar::expr;
use super::grammar::extends;
use super::grammar::for_rest;
use super::grammar::if_rest;
use super::grammar::in_paren;
use super::grammar::lemma_statement_cases;
use super::grammar::operand;
use super::grammar::peek;
use super::grammar::primary;
use super::grammar::program;
use super::grammar::register;
use super::grammar::return_rest;
use super::grammar::statement;
use super::grammar::statements;
use super::grammar::unary;
use super::grammar::while_rest;
use super::laws::all_agree;
use super::laws::names_after;
use super::laws::theorem_offsets;
use super::laws::usable;
use super::node::Node;
use super::node::SpecNode;
use crate::tokenizer::token::SpecToken;
use crate::tokenizer::token::Token;
use vstd::hash_map::StringHashMap;
use vstd::prelude::*;
use vstd::slice::slice_subrange;

verus! {

/// Why a token sequence has no syntax tree.
#[derive(Clone, Debug, PartialEq, Eq)]
pub enum Error {
    /// At the given position one of the listed tokens was needed, and
    /// another token, or the end of the input, was found. A listed number
    /// or identifier stands for any number or identifier.
    Expected(Vec<Token>, usize),
    /// The `=` at the given position follows an expression that is not a
    /// variable.
    AssignTarget(usize),
    /// The identifier at the given position would be one variable more than
    /// offsets can be given to.
    TooManyVariables(usize),
}

impl View for Error {
    type V = SpecError;

    open spec fn view(&self) -> SpecError {
        match self {
            Error::Expected(tokens, at) => SpecError::Expected(tokens.deep_view(), *at as int),
            Error::AssignTarget(at) => SpecError::AssignTarget(*at as int),
            Error::TooManyVariables(at) => SpecError::TooManyVariables(*at as int),
        }
    }
}

/// A parser: the symbol table of one compilation.
///
/// Its model is the sequence of the variables' names in the order in which
/// they first occurred.
pub struct Parser {
    id_jar: StringHashMap<usize>,
    names: Ghost<Table>,
}

impl View for Parser {
    type V = Table;

    closed spec fn view(&self) -> Table {
        self.names@
    }
}

/// Whether a result is the phrase that a rule gives from `pos` on, with the
/// table `after`; or the rule's error.
pub open spec fn parsed_matches(
    r: Result<(Node, usize), Error>,
    rule: Result<Parsed, SpecError>,
    pos: usize,
    after: Table,
) -> bool {
    match rule {
        Ok(p) => r matches Ok((node, end)) && node@ == p.node && end == pos + p.used && after
            == p.table,
        Err(e) => r matches Err(err) && err@ == e,
    }
}

/// Whether a result is the clause that a rule gives from `pos` on.
pub open spec fn clause_matches(
    r: Result<(Option<Node>, usize), Error>,
    rule: Result<ParsedClause, SpecError>,
    pos: usize,
    after: Table,
) -> bool {
    match rule {
        Ok(p) => r matches Ok((node, end)) && super::node::option_model(node) == p.node && end
            == pos + p.used && after == p.table,
        Err(e) => r matches Err(err) && err@ == e,
    }
}

fn expected(token: Token, at: usize) -> (e: Error)
    ensures
        e@ == SpecError::Expected(seq![token@], at as int),
{
    let tokens: Vec<Token> = vec![token];
    assert(tokens.deep_view() =~= seq![token@]);
    Error::Expected(tokens, at)
}

impl Parser {
    /// The invariant of the symbol table: no name occurs twice, and the
    /// name at index `k` has the offset `8 * k`.
    #[verifier::opaque]
    pub closed spec fn wf(&self) -> bool {
        &&& self.names@.no_duplicates()
        &&& self.id_jar@.dom() =~= self.names@.to_set()
        &&& forall|k: int|
            0 <= k < self.names@.len() ==> #[trigger] self.id_jar@[self.names@[k]] == SLOT * k
    }

    /// A well-formed parser has a table that can be used.
    pub proof fn lemma_wf_usable(&self)
        requires
            self.wf(),
        ensures
            usable(self@),
    {
        reveal(Parser::wf);
        let names = self.names@;
        if names.len() > 0 {
            let last = names.len() - 1;
            assert(self.id_jar@[names[last]] == SLOT * last);
        }
    }

    /// A parser that knows no variable.
    pub fn new() -> (p: Self)
        ensures
            p.wf(),
            p@ == Table::empty(),
    {
        let p = Self { id_jar: StringHashMap::new(), names: Ghost(Seq::empty()) };
        proof {
            reveal(Parser::wf);
            assert(p.id_jar@.dom() =~= p.names@.to_set());
        }
        p
    }

    /// The offset of the variable `key`: the one it has, or else the next
    /// free one, which it then keeps.
    fn make_offset(&mut self, key: &str) -> (r: Option<usize>)
        requires
            old(self).wf(),
        ensures
            final(self).wf(),
            extends(final(self)@, old(self)@),
            match register(old(self)@, key@) {
                Some((offset, after)) => r == Some(offset) && final(self)@ == after,
                None => r is None && final(self)@ == old(self)@,
            },
    {
        let ghost names = self.names@;
        proof {
            reveal(Parser::wf);
        }
        match self.id_jar.get(key) {
            Some(offset) => {
                proof {
                    let k = names.index_of(key@);
                    assert(names.contains(key@));
                    assert(names[k] == key@);
                }
                Some(*offset)
            },
            None => {
                let count: usize = self.id_jar.len();
                proof {
                    names.unique_seq_to_set();
                    assert(!names.contains(key@));
                }
                if count > usize::MAX / SLOT {
                    return None;
                }
                let offset: usize = count * SLOT;
                self.id_jar.insert(key.to_owned(), offset);
                self.names = Ghost(names.push(key@));
                proof {
                    let after = names.push(key@);
                    assert(after.no_duplicates());
                    assert(self.id_jar@.dom() =~= after.to_set()) by {
                        assert forall|n: Seq<char>| after.to_set().contains(n) implies (n == key@
                            || names.to_set().contains(n)) by {
                            let k = choose|k: int| 0 <= k < after.len() && after[k] == n;
                            if k < names.len() {
                                assert(names[k] == n);
                            }
                        }
                        assert forall|n: Seq<char>|
                            (n == key@ || names.to_set().contains(n)) implies after.to_set().contains(
                            n,
                        ) by {
                            if n == key@ {
                                assert(after[names.len() as int] == n);
                            } else {
                                let k = choose|k: int| 0 <= k < names.len() && names[k] == n;
                                assert(after[k] == n);
                            }
                        }
                    }
                    assert forall|k: int| 0 <= k < after.len() implies #[trigger] self.id_jar@[after[k]]
                        == SLOT * k by {
                        if k < names.len() {
                            assert(after[k] == names[k]);
                            assert(names.contains(names[k]));
                        }
                    }
                }
                Some(offset)
            },
        }
    }

    /// identifier
    fn identity(&mut self, tokens: &[Token], pos: usize) -> (r: Result<(Node, usize), Error>)
        requires
            old(self).wf(),
            pos <= tokens@.len(),
        ensures
            final(self).wf(),
            extends(final(self)@, old(self)@),
            match peek(tokens.deep_view(), pos as int) {
                Some(SpecToken::Identity(_)) => parsed_matches(
                    r,
                    primary(tokens.deep_view(), pos as int, old(self)@),
                    pos,
                    final(self)@,
                ),
                _ => r matches Err(e) && e@ == SpecError::Expected(
                    seq![SpecToken::Identity(""@)],
                    pos as int,
                ),
            },
            r matches Ok((_, end)) ==> pos < end <= tokens@.len(),
    {
        proof {
            reveal(primary);
        }
        match at(tokens, pos) {
            Some(Token::Identity(head)) => match self.make_offset(head.as_str()) {
                Some(offset) => Ok((Node::LocalVariable(head.clone(), offset), pos + 1)),
                None => Err(Error::TooManyVariables(pos)),
            },
            _ => Err(expected(Token::identity(""), pos)),
        }
    }

    /// number
    fn number(&mut self, tokens: &[Token], pos: usize) -> (r: Result<(Node, usize), Error>)
        requires
            pos <= tokens@.len(),
        ensures
            *final(self) == *old(self),
            match peek(tokens.deep_view(), pos as int) {
                Some(SpecToken::Number(_)) => parsed_matches(
                    r,
                    primary(tokens.deep_view(), pos as int, old(self)@),
                    pos,
                    final(self)@,
                ),
                _ => r matches Err(e) && e@ == SpecError::Expected(
                    seq![SpecToken::Number(0)],
                    pos as int,
                ),
            },
            r matches Ok((_, end)) ==> pos < end <= tokens@.len(),
    {
        proof {
            reveal(primary);
        }
        match at(tokens, pos) {
            Some(Token::Number(head)) => Ok((Node::number(*head), pos + 1)),
            _ => Err(expected(Token::number(0), pos)),
        }
    }

    /// "(" expr ")"
    fn in_paren(&mut self, tokens: &[Token], pos: usize) -> (r: Result<(Node, usize), Error>)
        requires
            old(self).wf(),
            pos <= tokens@.len(),
        ensures
            final(self).wf(),
            extends(final(self)@, old(self)@),
            parsed_matches(
                r,
                in_paren(tokens.deep_view(), pos as int, old(self)@),
                pos,
                final(self)@,
            ),
            r matches Ok((_, end)) ==> pos < end <= tokens@.len(),
        decreases tokens@.len() - pos, 0int,
    {
        proof {
            reveal(in_paren);
            reveal(expr);
        }
        match at(tokens, pos) {
            Some(Token::LeftParen) => {
                let (node, end) = match self.expr(tokens, pos + 1) {
                    Ok(found) => found,
                    Err(e) => {
                        return Err(e);
                    },
                };
                match at(tokens, end) {
                    Some(Token::RightParen) => Ok((node, end + 1)),
                    _ => Err(expected(Token::RightParen, end)),
                }
            },
            _ => Err(expected(Token::LeftParen, pos)),
        }
    }

    /// primary := number | identifier | "(" expr ")"
    fn primary(&mut self, tokens: &[Token], pos: usize) -> (r: Result<(Node, usize), Error>)
        requires
            old(self).wf(),
            pos <= tokens@.len(),
        ensures
            final(self).wf(),
            extends(final(self)@, old(self)@),
            parsed_matches(
                r,
                primary(tokens.deep_view(), pos as int, old(self)@),
                pos,
                final(self)@,
            ),
            r matches Ok((_, end)) ==> pos < end <= tokens@.len(),
        decreases tokens@.len() - pos, 1int,
    {
        proof {
            reveal(primary);
            reveal(in_paren);
        }
        match at(tokens, pos) {
            Some(Token::Identity(_)) => self.identity(tokens, pos),
            Some(Token::Number(_)) => self.number(tokens, pos),
            _ => self.in_paren(tokens, pos),
        }
    }

    /// unary := ("+" | "-")? primary
    fn unary(&mut self, tokens: &[Token], pos: usize) -> (r: Result<(Node, usize), Error>)
        requires
            old(self).wf(),
            pos <= tokens@.len(),
        ensures
            final(self).wf(),
            extends(final(self)@, old(self)@),
            parsed_matches(
                r,
                unary(tokens.deep_view(), pos as int, old(self)@),
                pos,
                final(self)@,
            ),
            r matches Ok((_, end)) ==> pos < end <= tokens@.len(),
        decreases tokens@.len() - pos, 2int,
    {
        proof {
            reveal(unary);
            reveal(primary);
        }
        match at(tokens, pos) {
            Some(Token::Plus) => self.primary(tokens, pos + 1),
            Some(Token::Minus) => {
                match at(tokens, pos + 1) {
                    Some(Token::Number(n)) => {
                        if *n > isize::MIN {
                            return Ok((Node::number(-*n), pos + 2));
                        }
                    },
                    _ => {},
                }
                match self.primary(tokens, pos + 1) {
                    Ok((node, end)) => Ok((Node::minus(Node::number(0), node), end)),
                    Err(e) => Err(e),
                }
            },
            _ => self.primary(tokens, pos),
        }
    }

    /// ("*" unary | "/" unary)*
    fn _multiple(&mut self, tokens: &[Token], pos: usize, left: Node) -> (r: Result<
        (Node, usize),
        Error,
    >)
        requires
            old(self).wf(),
            pos <= tokens@.len(),
        ensures
            final(self).wf(),
            extends(final(self)@, old(self)@),
            parsed_matches(
                r,
                chain_rest(tokens.deep_view(), pos as int, old(self)@, 0, left@),
                pos,
                final(self)@,
            ),
            r matches Ok((_, end)) ==> pos <= end <= tokens@.len(),
        decreases tokens@.len() - pos, 3int,
    {
        proof {
            reveal(chain_rest);
            reveal(operand);
            reveal(unary);
            assert(operand(tokens.deep_view(), pos + 1, self@, 0) == unary(tokens.deep_view(), pos + 1, self@));
        }
        match at(tokens, pos) {
            Some(Token::Multiple) => {
                let (right, end) = match self.unary(tokens, pos + 1) {
                    Ok(found) => found,
                    Err(e) => {
                        return Err(e);
                    },
                };
                self._multiple(tokens, end, Node::multiple(left, right))
            },
            Some(Token::Devide) => {
                let (right, end) = match self.unary(tokens, pos + 1) {
                    Ok(found) => found,
                    Err(e) => {
                        return Err(e);
                    },
                };
                self._multiple(tokens, end, Node::devide(left, right))
            },
            _ => Ok((left, pos)),
        }
    }

    /// term := unary ("*" unary | "/" unary)*
    fn multiple(&mut self, tokens: &[Token], pos: usize) -> (r: Result<(Node, usize), Error>)
        requires
            old(self).wf(),
            pos <= tokens@.len(),
        ensures
            final(self).wf(),
            extends(final(self)@, old(self)@),
            parsed_matches(
                r,
                chain(tokens.deep_view(), pos as int, old(self)@, 0),
                pos,
                final(self)@,
            ),
            r matches Ok((_, end)) ==> pos < end <= tokens@.len(),
        decreases tokens@.len() - pos, 4int,
    {
        proof {
            reveal(chain);
            reveal(operand);
            reveal(chain_rest);
            reveal(unary);
        }
        let (left, end) = match self.unary(tokens, pos) {
            Ok(found) => found,
            Err(e) => {
                return Err(e);
            },
        };
        self._multiple(tokens, end, left)
    }

    /// ("+" term | "-" term)*
    fn _add(&mut self, tokens: &[Token], pos: usize, left: Node) -> (r: Result<
        (Node, usize),
        Error,
    >)
        requires
            old(self).wf(),
            pos <= tokens@.len(),
        ensures
            final(self).wf(),
            extends(final(self)@, old(self)@),
            parsed_matches(
                r,
                chain_rest(tokens.deep_view(), pos as int, old(self)@, 1, left@),
                pos,
                final(self)@,
            ),
            r matches Ok((_, end)) ==> pos <= end <= tokens@.len(),
        decreases tokens@.len() - pos, 5int,
    {
        proof {
            reveal(chain_rest);
            reveal(operand);
            reveal(chain);
            assert(operand(tokens.deep_view(), pos + 1, self@, 1) == chain(tokens.deep_view(), pos + 1, self@, 0));
        }
        match at(tokens, pos) {
            Some(Token::Plus) => {
                let (right, end) = match self.multiple(tokens, pos + 1) {
                    Ok(found) => found,
                    Err(e) => {
                        return Err(e);
                    },
                };
                self._add(tokens, end, Node::plus(left, right))
            },
            Some(Token::Minus) => {
                let (right, end) = match self.multiple(tokens, pos + 1) {
                    Ok(found) => found,
                    Err(e) => {
                        return Err(e);
                    },
                };
                self._add(tokens, end, Node::minus(left, right))
            },
            _ => Ok((left, pos)),
        }
    }

    /// additive := term ("+" term | "-" term)*
    fn add(&mut self, tokens: &[Token], pos: usize) -> (r: Result<(Node, usize), Error>)
        requires
            old(self).wf(),
            pos <= tokens@.len(),
        ensures
            final(self).wf(),
            extends(final(self)@, old(self)@),
            parsed_matches(
                r,
                chain(tokens.deep_view(), pos as int, old(self)@, 1),
                pos,
                final(self)@,
            ),
            r matches Ok((_, end)) ==> pos < end <= tokens@.len(),
        decreases tokens@.len() - pos, 6int,
    {
        proof {
            reveal(chain);
            reveal(operand);
            reveal(chain_rest);
        }
        let (left, end) = match self.multiple(tokens, pos) {
            Ok(found) => found,
            Err(e) => {
                return Err(e);
            },
        };
        self._add(tokens, end, left)
    }

    /// ("<" additive | "<=" additive | ">" additive | ">=" additive)*
    ///
    /// `>` and `>=` are held as `<` and `<=` with the operands exchanged.
    fn _relational(&mut self, tokens: &[Token], pos: usize, left: Node) -> (r: Result<
        (Node, usize),
        Error,
    >)
        requires
            old(self).wf(),
            pos <= tokens@.len(),
        ensures
            final(self).wf(),
            extends(final(self)@, old(self)@),
            parsed_matches(
                r,
                chain_rest(tokens.deep_view(), pos as int, old(self)@, 2, left@),
                pos,
                final(self)@,
            ),
            r matches Ok((_, end)) ==> pos <= end <= tokens@.len(),
        decreases tokens@.len() - pos, 7int,
    {
        proof {
            reveal(chain_rest);
            reveal(operand);
            reveal(chain);
            assert(operand(tokens.deep_view(), pos + 1, self@, 2) == chain(tokens.deep_view(), pos + 1, self@, 1));
        }
        match at(tokens, pos) {
            Some(Token::More) => {
                let (right, end) = match self.add(tokens, pos + 1) {
                    Ok(found) => found,
                    Err(e) => {
                        return Err(e);
                    },
                };
                self._relational(tokens, end, Node::less(right, left))
            },
            Some(Token::Less) => {
                let (right, end) = match self.add(tokens, pos + 1) {
                    Ok(found) => found,
                    Err(e) => {
                        return Err(e);
                    },
                };
                self._relational(tokens, end, Node::less(left, right))
            },
            Some(Token::MoreEqual) => {
                let (right, end) = match self.add(tokens, pos + 1) {
                    Ok(found) => found,
                    Err(e) => {
                        return Err(e);
                    },
                };
                self._relational(tokens, end, Node::less_equal(right, left))
            },
            Some(Token::LessEqual) => {
                let (right, end) = match self.add(tokens, pos + 1) {
                    Ok(found) => found,
                    Err(e) => {
                        return Err(e);
                    },
                };
                self._relational(tokens, end, Node::less_equal(left, right))
            },
            _ => Ok((left, pos)),
        }
    }

    /// relational := additive ("<" additive | "<=" additive | ">" additive | ">=" additive)*
    fn relational(&mut self, tokens: &[Token], pos: usize) -> (r: Result<(Node, usize), Error>)
        requires
            old(self).wf(),
            pos <= tokens@.len(),
        ensures
            final(self).wf(),
            extends(final(self)@, old(self)@),
            parsed_matches(
                r,
                chain(tokens.deep_view(), pos as int, old(self)@, 2),
                pos,
                final(self)@,
            ),
            r matches Ok((_, end)) ==> pos < end <= tokens@.len(),
        decreases tokens@.len() - pos, 8int,
    {
        proof {
            reveal(chain);
            reveal(operand);
            reveal(chain_rest);
        }
        let (left, end) = match self.add(tokens, pos) {
            Ok(found) => found,
            Err(e) => {
                return Err(e);
            },
        };
        self._relational(tokens, end, left)
    }

    /// ("==" relational | "!=" relational)*
    fn _equality(&mut self, tokens: &[Token], pos: usize, left: Node) -> (r: Result<
        (Node, usize),
        Error,
    >)
        requires
            old(self).wf(),
            pos <= tokens@.len(),
        ensures
            final(self).wf(),
            extends(final(self)@, old(self)@),
            parsed_matches(
                r,
                chain_rest(tokens.deep_view(), pos as int, old(self)@, 3, left@),
                pos,
                final(self)@,
            ),
            r matches Ok((_, end)) ==> pos <= end <= tokens@.len(),
        decreases tokens@.len() - pos, 9int,
    {
        proof {
            reveal(chain_rest);
            reveal(operand);
            reveal(chain);
            assert(operand(tokens.deep_view(), pos + 1, self@, 3) == chain(tokens.deep_view(), pos + 1, self@, 2));
        }
        match at(tokens, pos) {
            Some(Token::Equal) => {
                let (right, end) = match self.relational(tokens, pos + 1) {
                    Ok(found) => found,
                    Err(e) => {
                        return Err(e);
                    },
                };
                self._equality(tokens, end, Node::equal(left, right))
            },
            Some(Token::NotEqual) => {
                let (right, end) = match self.relational(tokens, pos + 1) {
                    Ok(found) => found,
                    Err(e) => {
                        return Err(e);
                    },
                };
                self._equality(tokens, end, Node::unequal(left, right))
            },
            _ => Ok((left, pos)),
        }
    }

    /// equality := relational ("==" relational | "!=" relational)*
    fn equality(&mut self, tokens: &[Token], pos: usize) -> (r: Result<(Node, usize), Error>)
        requires
            old(self).wf(),
            pos <= tokens@.len(),
        ensures
            final(self).wf(),
            extends(final(self)@, old(self)@),
            parsed_matches(
                r,
                chain(tokens.deep_view(), pos as int, old(self)@, 3),
                pos,
                final(self)@,
            ),
            r matches Ok((_, end)) ==> pos < end <= tokens@.len(),
        decreases tokens@.len() - pos, 10int,
    {
        proof {
            reveal(chain);
            reveal(operand);
            reveal(chain_rest);
        }
        let (left, end) = match self.relational(tokens, pos) {
            Ok(found) => found,
            Err(e) => {
                return Err(e);
            },
        };
        self._equality(tokens, end, left)
    }

    /// assign := equality ("=" assign)?
    fn assign(&mut self, tokens: &[Token], pos: usize) -> (r: Result<(Node, usize), Error>)
        requires
            old(self).wf(),
            pos <= tokens@.len(),
        ensures
            final(self).wf(),
            extends(final(self)@, old(self)@),
            parsed_matches(
                r,
                assign(tokens.deep_view(), pos as int, old(self)@),
                pos,
                final(self)@,
            ),
            r matches Ok((_, end)) ==> pos < end <= tokens@.len(),
        decreases tokens@.len() - pos, 20int,
    {
        proof {
            reveal(assign);
            reveal(chain);
        }
        let (left, end) = match self.equality(tokens, pos) {
            Ok(found) => found,
            Err(e) => {
                return Err(e);
            },
        };
        match at(tokens, end) {
            Some(Token::Assign) => match left {
                Node::LocalVariable(id, offset) => {
                    match self.assign(tokens, end + 1) {
                        Ok((right, end)) => Ok(
                            (Node::assign(Node::LocalVariable(id, offset), right), end),
                        ),
                        Err(e) => Err(e),
                    }
                },
                _ => Err(Error::AssignTarget(end)),
            },
            _ => Ok((left, end)),
        }
    }

    /// expr := assign
    fn expr(&mut self, tokens: &[Token], pos: usize) -> (r: Result<(Node, usize), Error>)
        requires
            old(self).wf(),
            pos <= tokens@.len(),
        ensures
            final(self).wf(),
            extends(final(self)@, old(self)@),
            parsed_matches(
                r,
                expr(tokens.deep_view(), pos as int, old(self)@),
                pos,
                final(self)@,
            ),
            r matches Ok((_, end)) ==> pos < end <= tokens@.len(),
        decreases tokens@.len() - pos, 21int,
    {
        proof {
            reveal(expr);
            reveal(assign);
        }
        self.assign(tokens, pos)
    }

    /// expr ";", after `return`.
    fn return_n(&mut self, tokens: &[Token], pos: usize) -> (r: Result<(Node, usize), Error>)
        requires
            old(self).wf(),
            pos <= tokens@.len(),
        ensures
            final(self).wf(),
            extends(final(self)@, old(self)@),
            parsed_matches(
                r,
                return_rest(tokens.deep_view(), pos as int, old(self)@),
                pos,
                final(self)@,
            ),
            r matches Ok((_, end)) ==> pos < end <= tokens@.len(),
        decreases tokens@.len() - pos, 29int,
    {
        proof {
            reveal(return_rest);
            reveal(closed_expr);
        }
        match self.closed(tokens, pos) {
            Ok((node, end)) => Ok((Node::return_n(node), end)),
            Err(e) => Err(e),
        }
    }

    /// "(" expr ")" statement ("else" statement)?, after `if`.
    fn if_n(&mut self, tokens: &[Token], pos: usize) -> (r: Result<(Node, usize), Error>)
        requires
            old(self).wf(),
            pos <= tokens@.len(),
        ensures
            final(self).wf(),
            extends(final(self)@, old(self)@),
            parsed_matches(
                r,
                if_rest(tokens.deep_view(), pos as int, old(self)@),
                pos,
                final(self)@,
            ),
            r matches Ok((_, end)) ==> pos < end <= tokens@.len(),
        decreases tokens@.len() - pos, 33int,
    {
        proof {
            super::grammar::lemma_if_cases(tokens.deep_view(), pos as int, self@);
        }
        let (condition, end) = match self.in_paren(tokens, pos) {
            Ok(found) => found,
            Err(e) => {
                return Err(e);
            },
        };
        let (body, end) = match self.stmt(tokens, end) {
            Ok(found) => found,
            Err(e) => {
                return Err(e);
            },
        };
        match at(tokens, end) {
            Some(Token::Else) => match self.stmt(tokens, end + 1) {
                Ok((else_body, end)) => Ok((Node::if_n(condition, body, Some(else_body)), end)),
                Err(e) => Err(e),
            },
            _ => Ok((Node::if_n(condition, body, None), end)),
        }
    }

    /// expr? ";", a clause of a `for` header.
    fn for_condition(&mut self, tokens: &[Token], pos: usize) -> (r: Result<
        (Option<Node>, usize),
        Error,
    >)
        requires
            old(self).wf(),
            pos <= tokens@.len(),
        ensures
            final(self).wf(),
            extends(final(self)@, old(self)@),
            clause_matches(
                r,
                clause(tokens.deep_view(), pos as int, old(self)@, SpecToken::EndExpr),
                pos,
                final(self)@,
            ),
            r matches Ok((_, end)) ==> pos < end <= tokens@.len(),
        decreases tokens@.len() - pos, 23int,
    {
        proof {
            reveal(clause);
            reveal(closed_expr);
            reveal(expr);
        }
        match at(tokens, pos) {
            Some(Token::EndExpr) => Ok((None, pos + 1)),
            _ => {
                let (node, end) = match self.expr(tokens, pos) {
                    Ok(found) => found,
                    Err(e) => {
                        return Err(e);
                    },
                };
                match at(tokens, end) {
                    Some(Token::EndExpr) => Ok((Some(node), end + 1)),
                    _ => Err(expected(Token::EndExpr, end)),
                }
            },
        }
    }

    /// expr? ")", the last clause of a `for` header.
    fn for_condition_third(&mut self, tokens: &[Token], pos: usize) -> (r: Result<
        (Option<Node>, usize),
        Error,
    >)
        requires
            old(self).wf(),
            pos <= tokens@.len(),
        ensures
            final(self).wf(),
            extends(final(self)@, old(self)@),
            clause_matches(
                r,
                clause(tokens.deep_view(), pos as int, old(self)@, SpecToken::RightParen),
                pos,
                final(self)@,
            ),
            r matches Ok((_, end)) ==> pos < end <= tokens@.len(),
        decreases tokens@.len() - pos, 23int,
    {
        proof {
            reveal(clause);
            reveal(closed_expr);
            reveal(expr);
        }
        match at(tokens, pos) {
            Some(Token::RightParen) => Ok((None, pos + 1)),
            _ => {
                let (node, end) = match self.expr(tokens, pos) {
                    Ok(found) => found,
                    Err(e) => {
                        return Err(e);
                    },
                };
                match at(tokens, end) {
                    Some(Token::RightParen) => Ok((Some(node), end + 1)),
                    _ => Err(expected(Token::RightParen, end)),
                }
            },
        }
    }

    /// "(" expr? ";" expr? ";" expr? ")" statement, after `for`.
    fn for_n(&mut self, tokens: &[Token], pos: usize) -> (r: Result<(Node, usize), Error>)
        requires
            old(self).wf(),
            pos <= tokens@.len(),
        ensures
            final(self).wf(),
            extends(final(self)@, old(self)@),
            parsed_matches(
                r,
                for_rest(tokens.deep_view(), pos as int, old(self)@),
                pos,
                final(self)@,
            ),
            r matches Ok((_, end)) ==> pos < end <= tokens@.len(),
        decreases tokens@.len() - pos, 33int,
    {
        proof {
            reveal(for_rest);
            reveal(clause);
            reveal(statement);
        }
        match at(tokens, pos) {
            Some(Token::LeftParen) => {
                let (condition1, end) = match self.for_condition(tokens, pos + 1) {
                    Ok(found) => found,
                    Err(e) => {
                        return Err(e);
                    },
                };
                let (condition2, end) = match self.for_condition(tokens, end) {
                    Ok(found) => found,
                    Err(e) => {
                        return Err(e);
                    },
                };
                let (condition3, end) = match self.for_condition_third(tokens, end) {
                    Ok(found) => found,
                    Err(e) => {
                        return Err(e);
                    },
                };
                match self.stmt(tokens, end) {
                    Ok((body, end)) => Ok(
                        (Node::for_n(condition1, condition2, condition3, body), end),
                    ),
                    Err(e) => Err(e),
                }
            },
            _ => Err(expected(Token::LeftParen, pos)),
        }
    }

    /// "(" expr ")" statement, after `while`.
    fn while_n(&mut self, tokens: &[Token], pos: usize) -> (r: Result<(Node, usize), Error>)
        requires
            old(self).wf(),
            pos <= tokens@.len(),
        ensures
            final(self).wf(),
            extends(final(self)@, old(self)@),
            parsed_matches(
                r,
                while_rest(tokens.deep_view(), pos as int, old(self)@),
                pos,
                final(self)@,
            ),
            r matches Ok((_, end)) ==> pos < end <= tokens@.len(),
        decreases tokens@.len() - pos, 33int,
    {
        proof {
            reveal(while_rest);
            reveal(in_paren);
            reveal(statement);
        }
        let (condition, end) = match self.in_paren(tokens, pos) {
            Ok(found) => found,
            Err(e) => {
                return Err(e);
            },
        };
        match self.stmt(tokens, end) {
            Ok((body, end)) => Ok((Node::while_n(condition, body), end)),
            Err(e) => Err(e),
        }
    }

    /// statement* "}", after `{`.
    fn block(&mut self, tokens: &[Token], pos: usize) -> (r: Result<(Node, usize), Error>)
        requires
            old(self).wf(),
            pos <= tokens@.len(),
        ensures
            final(self).wf(),
            extends(final(self)@, old(self)@),
            parsed_matches(
                r,
                block(tokens.deep_view(), pos as int, old(self)@),
                pos,
                final(self)@,
            ),
            r matches Ok((_, end)) ==> pos < end <= tokens@.len(),
        decreases tokens@.len() - pos, 32int,
    {
        proof {
            reveal(block);
            reveal(block_items);
            reveal(statement);
        }
        let ghost ts = tokens.deep_view();
        let ghost table = self@;
        let mut nodes: Vec<Node> = Vec::new();
        let mut at_pos: usize = pos;
        proof {
            lemma_list_then_nothing(block_items(ts, pos as int, table));
            assert(nodes.deep_view() =~= Seq::<SpecNode>::empty());
        }
        loop
            invariant
                self.wf(),
                extends(self@, table),
                table == old(self)@,
                ts == tokens.deep_view(),
                pos <= at_pos <= tokens@.len(),
                block_items(ts, pos as int, table) == list_then(
                    nodes.deep_view(),
                    (at_pos - pos) as nat,
                    block_items(ts, at_pos as int, self@),
                ),
            decreases tokens@.len() - at_pos,
        {
            proof {
                reveal(block);
                reveal(block_items);
                reveal(statement);
            }
            match at(tokens, at_pos) {
                Some(Token::RightBlock) => {
                    proof {
                        assert(nodes.deep_view() + Seq::<SpecNode>::empty() =~= nodes.deep_view());
                    }
                    return Ok((Node::block(nodes), at_pos + 1));
                },
                Some(_) => match self.stmt(tokens, at_pos) {
                    Ok((node, end)) => {
                        let ghost before = nodes.deep_view();
                        proof {
                            lemma_list_then_one(
                                before,
                                (at_pos - pos) as nat,
                                node@,
                                (end - at_pos) as nat,
                                block_items(ts, end as int, self@),
                            );
                        }
                        nodes.push(node);
                        assert(nodes.deep_view() =~= before.push(node@));
                        at_pos = end;
                    },
                    Err(e) => {
                        return Err(e);
                    },
                },
                None => {
                    return Err(expected(Token::RightBlock, at_pos));
                },
            }
        }
    }

    /// expr ";"
    fn closed(&mut self, tokens: &[Token], pos: usize) -> (r: Result<(Node, usize), Error>)
        requires
            old(self).wf(),
            pos <= tokens@.len(),
        ensures
            final(self).wf(),
            extends(final(self)@, old(self)@),
            parsed_matches(
                r,
                closed_expr(tokens.deep_view(), pos as int, old(self)@, SpecToken::EndExpr),
                pos,
                final(self)@,
            ),
            r matches Ok((_, end)) ==> pos < end <= tokens@.len(),
        decreases tokens@.len() - pos, 22int,
    {
        proof {
            reveal(closed_expr);
            reveal(expr);
        }
        let (node, end) = match self.expr(tokens, pos) {
            Ok(found) => found,
            Err(e) => {
                return Err(e);
            },
        };
        match at(tokens, end) {
            Some(Token::EndExpr) => Ok((node, end + 1)),
            _ => Err(expected(Token::EndExpr, end)),
        }
    }

    /// The statement that starts at `pos`.
    fn stmt(&mut self, tokens: &[Token], pos: usize) -> (r: Result<(Node, usize), Error>)
        requires
            old(self).wf(),
            pos <= tokens@.len(),
        ensures
            final(self).wf(),
            extends(final(self)@, old(self)@),
            parsed_matches(
                r,
                statement(tokens.deep_view(), pos as int, old(self)@),
                pos,
                final(self)@,
            ),
            r matches Ok((_, end)) ==> pos < end <= tokens@.len(),
        decreases tokens@.len() - pos, 30int,
    {
        proof {
            lemma_statement_cases(tokens.deep_view(), pos as int, self@);
        }
        match at(tokens, pos) {
            Some(Token::LeftBlock) => self.block(tokens, pos + 1),
            Some(Token::Return) => self.return_n(tokens, pos + 1),
            Some(Token::If) => self.if_n(tokens, pos + 1),
            Some(Token::For) => self.for_n(tokens, pos + 1),
            Some(Token::While) => self.while_n(tokens, pos + 1),
            _ => self.closed(tokens, pos),
        }
    }

    /// program := statement*
    ///
    /// The trees of the statements of `tokens`, and what is left of
    /// `tokens`, which is nothing; or the first error. Variables get their
    /// offsets in the order in which they first occur, after those that the
    /// parser knew before, which keep theirs.
    pub fn program<'a>(&mut self, tokens: &'a [Token]) -> (r: Result<(Vec<Node>, &'a [Token]), Error>)
        requires
            old(self).wf(),
        ensures
            final(self).wf(),
            extends(final(self)@, old(self)@),
            match program(tokens.deep_view(), old(self)@) {
                Ok(p) => r matches Ok((nodes, rest)) && nodes.deep_view() == p.nodes
                    && rest@.len() == 0 && final(self)@ == p.table,
                Err(e) => r matches Err(err) && err@ == e,
            },
            r matches Ok((nodes, _)) ==> final(self)@ == names_after(
                old(self)@,
                tokens.deep_view(),
            ) && all_agree(nodes.deep_view(), final(self)@),
    {
        proof {
            self.lemma_wf_usable();
            theorem_offsets(tokens.deep_view(), self@);
        }
        proof {
            reveal(statements);
            reveal(statement);
        }
        let ghost ts = tokens.deep_view();
        let ghost table = self@;
        let mut stmts: Vec<Node> = Vec::new();
        let mut pos: usize = 0;
        proof {
            lemma_list_then_nothing(statements(ts, 0, table));
            assert(stmts.deep_view() =~= Seq::<SpecNode>::empty());
        }
        while pos < tokens.len()
            invariant
                self.wf(),
                extends(self@, table),
                table == old(self)@,
                ts == tokens.deep_view(),
                pos <= tokens@.len(),
                statements(ts, 0, table) == list_then(
                    stmts.deep_view(),
                    pos as nat,
                    statements(ts, pos as int, self@),
                ),
            decreases tokens@.len() - pos,
        {
            proof {
                reveal(statements);
                reveal(statement);
            }
            match self.stmt(tokens, pos) {
                Ok((node, end)) => {
                    let ghost before = stmts.deep_view();
                    proof {
                        lemma_list_then_one(
                            before,
                            pos as nat,
                            node@,
                            (end - pos) as nat,
                            statements(ts, end as int, self@),
                        );
                    }
                    stmts.push(node);
                    assert(stmts.deep_view() =~= before.push(node@));
                    pos = end;
                },
                Err(e) => {
                    return Err(e);
                },
            }
        }
        proof {
            assert(stmts.deep_view() + Seq::<SpecNode>::empty() =~= stmts.deep_view());
        }
        Ok((stmts, slice_subrange(tokens, pos, tokens.len())))
    }
}

/// The statements read so far, followed by what the rest of the input
/// gives.
pub open spec fn list_then(head: Seq<SpecNode>, used: nat, tail: Result<ParsedList, SpecError>) -> Result<
    ParsedList,
    SpecError,
> {
    match tail {
        Ok(l) => Ok(ParsedList { nodes: head + l.nodes, used: used + l.used, table: l.table }),
        Err(e) => Err(e),
    }
}

proof fn lemma_list_then_nothing(tail: Result<ParsedList, SpecError>)
    ensures
        list_then(Seq::empty(), 0, tail) == tail,
{
    if let Ok(l) = tail {
        assert(Seq::<SpecNode>::empty() + l.nodes =~= l.nodes);
    }
}

proof fn lemma_list_then_one(
    head: Seq<SpecNode>,
    used: nat,
    node: SpecNode,
    more: nat,
    tail: Result<ParsedList, SpecError>,
)
    ensures
        list_then(head, used, list_then(seq![node], more, tail)) == list_then(
            head.push(node),
            used + more,
            tail,
        ),
{
    if let Ok(l) = tail {
        assert(head + (seq![node] + l.nodes) =~= head.push(node) + l.nodes);
    }
}

/// The token at `pos`, if there is one.
fn at(tokens: &[Token], pos: usize) -> (r: Option<&Token>)
    ensures
        match peek(tokens.deep_view(), pos as int) {
            Some(t) => r matches Some(token) && token@ == t && pos < tokens@.len(),
            None => r is None && pos >= tokens@.len(),
        },
        tokens@.len() <= usize::MAX,
{
    if pos < tokens.len() {
        Some(&tokens[pos])
    } else {
        None
    }
}

} // verus!
