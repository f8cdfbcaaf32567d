//! Expression trees of the boolean filter language: the recursive-descent
//! parser over a token queue and the evaluator against a tag set.

use vstd::prelude::*;

use crate::lex::{
    flush_name, is_name_seq, is_op_char, lemma_lex_from_suffix, lemma_lex_tail_name,
    lemma_lex_until_op, lex_from, lex_spec, op_token_of, tokens_view, Token, TokenV,
};
use crate::strutil::{
    char_vecs_eq, char_vecs_view, chars_of, chars_to_string, dec_val, is_u64_digits, parse_u64,
    split_chars, split_seq, strs_view,
};
use std::collections::VecDeque;
use vstd::pervasive::unreached;

verus! {

/// The reason an expression failed to lex, parse or evaluate.
#[derive(Debug, Clone, Copy, PartialEq, Eq, Structural)]
pub enum ParseErrorKind {
    /// The recursion budget was exhausted.
    ExpressionTooDeep,
    /// The expression ended where a sub-expression was required.
    UnexpectedEnd,
    /// A closing bracket stood where a sub-expression was required.
    UnexpectedCloseBracket,
    /// A binary operator stood where a sub-expression was required.
    UnexpectedBinaryOperator,
    /// A bracketed group was not closed.
    ExpectedCloseBracket,
    /// A closed group was followed by something other than a binary
    /// operator or a closing bracket.
    InvalidTokenAfterGroup,
    /// `!` was followed by something that cannot be negated.
    ExpectedExpression,
    /// `!` was followed by another `!`.
    DoubleNegation,
    /// A negated name was followed by something other than a binary
    /// operator or a closing bracket.
    InvalidTokenAfterInvertedName,
    /// A name was followed by something other than a binary operator or a
    /// closing bracket.
    InvalidTokenAfterName,
    /// Tokens remained after a complete expression.
    TrailingTokens,
    /// A source-name filter that no recognized source name can satisfy.
    InvalidSourceFilter,
    /// A name contained more than one `$` count separator.
    BadCountFormat,
    /// The count after `$` was not an unsigned integer in range.
    BadCountNumber,
}

/// A lexing, parsing or evaluation error of the expression language.
#[derive(Debug, Clone, Copy, PartialEq, Eq, Structural)]
pub struct ParseError {
    pub kind: ParseErrorKind,
}

impl ParseError {
    /// Wraps an error kind.
    pub fn new(kind: ParseErrorKind) -> (r: Self)
        ensures
            r.kind == kind,
    {
        ParseError { kind }
    }
}

/// One node of a boolean expression tree.
#[derive(Debug, PartialEq, Eq)]
pub enum Node {
    Invert(Box<Node>),
    And { lhs: Box<Node>, rhs: Box<Node> },
    Or { lhs: Box<Node>, rhs: Box<Node> },
    Name(String),
}

/// Mathematical form of an expression tree, with names as character
/// sequences.
pub enum NodeV {
    Invert(Box<NodeV>),
    And { lhs: Box<NodeV>, rhs: Box<NodeV> },
    Or { lhs: Box<NodeV>, rhs: Box<NodeV> },
    Name(Seq<char>),
}

/// The mathematical tree of an expression node.
pub open spec fn node_view(n: Node) -> NodeV
    decreases n,
{
    match n {
        Node::Invert(x) => NodeV::Invert(Box::new(node_view(*x))),
        Node::And { lhs, rhs } => NodeV::And {
            lhs: Box::new(node_view(*lhs)),
            rhs: Box::new(node_view(*rhs)),
        },
        Node::Or { lhs, rhs } => NodeV::Or {
            lhs: Box::new(node_view(*lhs)),
            rhs: Box::new(node_view(*rhs)),
        },
        Node::Name(t) => NodeV::Name(t@),
    }
}

impl View for Node {
    type V = NodeV;

    open spec fn view(&self) -> NodeV {
        node_view(*self)
    }
}

impl Clone for Node {
    /// Deep copy; the mathematical tree is unchanged.
    fn clone(&self) -> (r: Self)
        ensures
            r@ == self@,
        decreases *self,
    {
        match self {
            Node::Invert(x) => Node::Invert(Box::new((&**x).clone())),
            Node::And { lhs, rhs } => Node::And {
                lhs: Box::new((&**lhs).clone()),
                rhs: Box::new((&**rhs).clone()),
            },
            Node::Or { lhs, rhs } => Node::Or {
                lhs: Box::new((&**lhs).clone()),
                rhs: Box::new((&**rhs).clone()),
            },
            Node::Name(t) => Node::Name(t.clone()),
        }
    }
}

/// Result of parsing a prefix of a token sequence: the tree and the
/// unconsumed tokens, or the failure kind.
pub enum ParseOutcome {
    Parsed { node: NodeV, rest: Seq<TokenV> },
    Failed { kind: ParseErrorKind },
}

/// Recursive-descent parse of one maximal sub-expression from the front of
/// `toks`, with recursion budget `depth`.
///
/// The grammar has no precedence: `and` and `or` are read left-to-right,
/// the left operand of a binary operator is always a single resolved unit
/// (a name, a negated name, or a bracketed group), and an unparenthesized
/// negation binds to the single adjacent name only. A negated bracketed
/// group, by contrast, extends over a trailing binary operator, so
/// `!(a) & b` denotes the negation of the whole conjunction.
pub open spec fn parse_spec(toks: Seq<TokenV>, depth: nat) -> ParseOutcome
    decreases depth,
{
    if depth == 0 {
        ParseOutcome::Failed { kind: ParseErrorKind::ExpressionTooDeep }
    } else if toks.len() == 0 {
        ParseOutcome::Failed { kind: ParseErrorKind::UnexpectedEnd }
    } else {
        match toks[0] {
            TokenV::CloseBracket => ParseOutcome::Failed {
                kind: ParseErrorKind::UnexpectedCloseBracket,
            },
            TokenV::And => ParseOutcome::Failed {
                kind: ParseErrorKind::UnexpectedBinaryOperator,
            },
            TokenV::Or => ParseOutcome::Failed {
                kind: ParseErrorKind::UnexpectedBinaryOperator,
            },
            TokenV::OpenBracket => {
                match parse_spec(toks.drop_first(), (depth - 1) as nat) {
                    ParseOutcome::Failed { kind } => ParseOutcome::Failed { kind },
                    ParseOutcome::Parsed { node, rest } => {
                        if rest.len() == 0 || !(rest[0] is CloseBracket) {
                            ParseOutcome::Failed { kind: ParseErrorKind::ExpectedCloseBracket }
                        } else {
                            let after = rest.drop_first();
                            if after.len() == 0 || after[0] is CloseBracket {
                                ParseOutcome::Parsed { node, rest: after }
                            } else if after[0] is And || after[0] is Or {
                                match parse_spec(after.drop_first(), (depth - 1) as nat) {
                                    ParseOutcome::Failed { kind } => ParseOutcome::Failed { kind },
                                    ParseOutcome::Parsed { node: rhs, rest: r2 } => {
                                        ParseOutcome::Parsed {
                                            node: binary_node(after[0], node, rhs),
                                            rest: r2,
                                        }
                                    },
                                }
                            } else {
                                ParseOutcome::Failed {
                                    kind: ParseErrorKind::InvalidTokenAfterGroup,
                                }
                            }
                        }
                    },
                }
            },
            TokenV::Invert => {
                let t = toks.drop_first();
                if t.len() == 0 {
                    ParseOutcome::Failed { kind: ParseErrorKind::UnexpectedEnd }
                } else {
                    match t[0] {
                        TokenV::OpenBracket => {
                            match parse_spec(t, (depth - 1) as nat) {
                                ParseOutcome::Failed { kind } => ParseOutcome::Failed { kind },
                                ParseOutcome::Parsed { node, rest } => ParseOutcome::Parsed {
                                    node: NodeV::Invert(Box::new(node)),
                                    rest,
                                },
                            }
                        },
                        TokenV::Name(text) => {
                            if t.len() >= 2 && (t[1] is And || t[1] is Or) {
                                let lhs = NodeV::Invert(Box::new(NodeV::Name(text)));
                                match parse_spec(t.skip(2), (depth - 1) as nat) {
                                    ParseOutcome::Failed { kind } => ParseOutcome::Failed { kind },
                                    ParseOutcome::Parsed { node: rhs, rest } => {
                                        ParseOutcome::Parsed {
                                            node: binary_node(t[1], lhs, rhs),
                                            rest,
                                        }
                                    },
                                }
                            } else if t.len() == 1 || t[1] is CloseBracket {
                                ParseOutcome::Parsed {
                                    node: NodeV::Invert(Box::new(NodeV::Name(text))),
                                    rest: t.drop_first(),
                                }
                            } else {
                                ParseOutcome::Failed {
                                    kind: ParseErrorKind::InvalidTokenAfterInvertedName,
                                }
                            }
                        },
                        TokenV::Invert => ParseOutcome::Failed {
                            kind: ParseErrorKind::DoubleNegation,
                        },
                        _ => ParseOutcome::Failed { kind: ParseErrorKind::ExpectedExpression },
                    }
                }
            },
            TokenV::Name(text) => {
                if toks.len() >= 2 && (toks[1] is And || toks[1] is Or) {
                    match parse_spec(toks.skip(2), (depth - 1) as nat) {
                        ParseOutcome::Failed { kind } => ParseOutcome::Failed { kind },
                        ParseOutcome::Parsed { node: rhs, rest } => ParseOutcome::Parsed {
                            node: binary_node(toks[1], NodeV::Name(text), rhs),
                            rest,
                        },
                    }
                } else if toks.len() == 1 || toks[1] is CloseBracket {
                    ParseOutcome::Parsed { node: NodeV::Name(text), rest: toks.drop_first() }
                } else {
                    ParseOutcome::Failed { kind: ParseErrorKind::InvalidTokenAfterName }
                }
            },
        }
    }
}

/// The conjunction or disjunction of two trees, chosen by the operator
/// token.
pub open spec fn binary_node(op: TokenV, lhs: NodeV, rhs: NodeV) -> NodeV
    recommends
        op is And || op is Or,
{
    if op is And {
        NodeV::And { lhs: Box::new(lhs), rhs: Box::new(rhs) }
    } else {
        NodeV::Or { lhs: Box::new(lhs), rhs: Box::new(rhs) }
    }
}

/// Wraps the front token of the queue in brackets, so that it reads as a
/// fully resolved single unit.
pub fn add_bracket(tokens: &mut VecDeque<Token>)
    requires
        old(tokens)@.len() > 0,
    ensures
        final(tokens)@ == seq![Token::OpenBracket, old(tokens)@[0], Token::CloseBracket] + old(
            tokens,
        )@.drop_first(),
{
    let elem = match tokens.pop_front() {
        Some(t) => t,
        None => unreached(),
    };
    tokens.push_front(Token::CloseBracket);
    tokens.push_front(elem);
    tokens.push_front(Token::OpenBracket);
    proof {
        assert(tokens@ =~= seq![Token::OpenBracket, old(tokens)@[0], Token::CloseBracket] + old(
            tokens,
        )@.drop_first());
    }
}

/// The number of tags equal to `text`.
pub open spec fn tag_count(tags: Seq<Seq<char>>, text: Seq<char>) -> nat
    decreases tags.len(),
{
    if tags.len() == 0 {
        0
    } else {
        tag_count(tags.drop_last(), text) + if tags.last() == text {
            1nat
        } else {
            0nat
        }
    }
}

/// Some tag equals `text`.
pub open spec fn tag_present(tags: Seq<Seq<char>>, text: Seq<char>) -> bool {
    exists|i: int| 0 <= i < tags.len() && tags[i] == text
}

/// Evaluation of a name leaf against the tag set. A name without `$` tests
/// membership; `text$N` tests that `text` occurs exactly `N` times, where
/// `N` must be a plain decimal number in range; any other number of
/// `$`-separated parts is an error.
pub open spec fn eval_name_spec(text: Seq<char>, tags: Seq<Seq<char>>) -> Result<
    bool,
    ParseErrorKind,
> {
    let parts = split_seq(text, '$');
    if parts.len() == 1 {
        Ok(tag_present(tags, text))
    } else if parts.len() == 2 {
        if is_u64_digits(parts[1]) {
            Ok(tag_count(tags, parts[0]) == dec_val(parts[1]))
        } else {
            Err(ParseErrorKind::BadCountNumber)
        }
    } else {
        Err(ParseErrorKind::BadCountFormat)
    }
}

/// Evaluation of a tree against the tag set. Conjunction and disjunction
/// evaluate the left side first and stop early when it decides; errors
/// propagate immediately along the paths actually taken.
pub open spec fn eval_spec(n: NodeV, tags: Seq<Seq<char>>) -> Result<bool, ParseErrorKind>
    decreases n,
{
    match n {
        NodeV::Invert(x) => match eval_spec(*x, tags) {
            Ok(b) => Ok(!b),
            Err(k) => Err(k),
        },
        NodeV::And { lhs, rhs } => match eval_spec(*lhs, tags) {
            Err(k) => Err(k),
            Ok(false) => Ok(false),
            Ok(true) => eval_spec(*rhs, tags),
        },
        NodeV::Or { lhs, rhs } => match eval_spec(*lhs, tags) {
            Err(k) => Err(k),
            Ok(true) => Ok(true),
            Ok(false) => eval_spec(*rhs, tags),
        },
        NodeV::Name(text) => eval_name_spec(text, tags),
    }
}

/// Every name leaf of the tree is a lexable name: non-empty, without
/// operator or whitespace characters.
pub open spec fn valid_names(n: NodeV) -> bool
    decreases n,
{
    match n {
        NodeV::Name(t) => is_name_seq(t),
        NodeV::Invert(x) => valid_names(*x),
        NodeV::And { lhs, rhs } => valid_names(*lhs) && valid_names(*rhs),
        NodeV::Or { lhs, rhs } => valid_names(*lhs) && valid_names(*rhs),
    }
}

/// The canonical text form of a tree: a name stands bare, a negation
/// brackets its operand, and both operands of a binary operator are
/// bracketed, so that the text reads back without ambiguity.
pub open spec fn render_node(n: NodeV) -> Seq<char>
    decreases n,
{
    match n {
        NodeV::Name(t) => t,
        NodeV::Invert(x) => seq!['!', '('] + render_node(*x) + seq![')'],
        NodeV::And { lhs, rhs } => seq!['('] + render_node(*lhs) + seq![')', '&', '(']
            + render_node(*rhs) + seq![')'],
        NodeV::Or { lhs, rhs } => seq!['('] + render_node(*lhs) + seq![')', '|', '(']
            + render_node(*rhs) + seq![')'],
    }
}

/// The token sequence of the canonical text form.
pub open spec fn tokens_of_node(n: NodeV) -> Seq<TokenV>
    decreases n,
{
    match n {
        NodeV::Name(t) => seq![TokenV::Name(t)],
        NodeV::Invert(x) => seq![TokenV::Invert, TokenV::OpenBracket] + tokens_of_node(*x) + seq![
            TokenV::CloseBracket,
        ],
        NodeV::And { lhs, rhs } => seq![TokenV::OpenBracket] + tokens_of_node(*lhs) + seq![
            TokenV::CloseBracket,
            TokenV::And,
            TokenV::OpenBracket,
        ] + tokens_of_node(*rhs) + seq![TokenV::CloseBracket],
        NodeV::Or { lhs, rhs } => seq![TokenV::OpenBracket] + tokens_of_node(*lhs) + seq![
            TokenV::CloseBracket,
            TokenV::Or,
            TokenV::OpenBracket,
        ] + tokens_of_node(*rhs) + seq![TokenV::CloseBracket],
    }
}

/// The recursion budget that parsing the canonical text form consumes.
pub open spec fn req_depth(n: NodeV) -> nat
    decreases n,
{
    match n {
        NodeV::Name(_) => 1,
        NodeV::Invert(x) => 2 + req_depth(*x),
        NodeV::And { lhs, rhs } => 1 + if req_depth(*lhs) >= 1 + req_depth(*rhs) {
            req_depth(*lhs)
        } else {
            1 + req_depth(*rhs)
        },
        NodeV::Or { lhs, rhs } => 1 + if req_depth(*lhs) >= 1 + req_depth(*rhs) {
            req_depth(*lhs)
        } else {
            1 + req_depth(*rhs)
        },
    }
}

/// The canonical text form lexes to the expected token sequence,
/// whatever operator-led text follows it.
proof fn lemma_lex_render(n: NodeV, rest: Seq<char>)
    requires
        valid_names(n),
        rest.len() == 0 || is_op_char(rest[0]),
    ensures
        lex_spec(render_node(n) + rest) == tokens_of_node(n) + lex_spec(rest),
    decreases n,
{
    let s = render_node(n) + rest;
    match n {
        NodeV::Name(t) => {
            assert(forall|m: int| 0 <= m < t.len() ==> s[m] == #[trigger] t[m]);
            if rest.len() == 0 {
                lemma_lex_tail_name(s, 0, Seq::empty());
                assert(Seq::<char>::empty() + s.skip(0) =~= t);
                assert(lex_spec(rest) =~= Seq::<TokenV>::empty());
                assert(lex_spec(s) =~= tokens_of_node(n) + lex_spec(rest));
            } else {
                assert(s[t.len() as int] == rest[0]);
                lemma_lex_until_op(s, 0, t.len() as int, Seq::empty());
                assert(Seq::<char>::empty() + s.subrange(0, t.len() as int) =~= t);
                assert(s.skip(t.len() as int) =~= rest.skip(0));
                lemma_lex_from_suffix(s, t.len() as int, rest, 0, Seq::empty());
                assert(lex_from(rest, 0, Seq::empty()) == crate::lex::flush_name(Seq::empty())
                    + seq![crate::lex::op_token_of(rest[0])] + lex_from(rest, 1, Seq::empty()));
                assert(s.skip(t.len() as int + 1) =~= rest.skip(1));
                lemma_lex_from_suffix(s, t.len() as int + 1, rest, 1, Seq::empty());
                assert(lex_spec(s) =~= tokens_of_node(n) + lex_spec(rest));
            }
        },
        NodeV::Invert(x) => {
            let r1 = render_node(*x);
            let inner_rest = seq![')'] + rest;
            assert(inner_rest[0] == ')');
            lemma_lex_render(*x, inner_rest);
            assert(s[0] == '!');
            assert(s[1] == '(');
            assert(s.skip(2) =~= (r1 + inner_rest).skip(0));
            lemma_lex_from_suffix(s, 2, r1 + inner_rest, 0, Seq::empty());
            assert(inner_rest.skip(1) =~= rest.skip(0));
            lemma_lex_from_suffix(inner_rest, 1, rest, 0, Seq::empty());
            assert(lex_spec(inner_rest) =~= seq![TokenV::CloseBracket] + lex_spec(rest));
            assert(flush_name(Seq::<char>::empty()) =~= Seq::<TokenV>::empty());
            assert(lex_spec(s) == flush_name(Seq::empty()) + seq![op_token_of('!')] + lex_from(
                s,
                1,
                Seq::empty(),
            ));
            assert(lex_from(s, 1, Seq::empty()) == flush_name(Seq::empty()) + seq![
                op_token_of('('),
            ] + lex_from(s, 2, Seq::empty()));
            assert(op_token_of('!') == TokenV::Invert);
            assert(op_token_of('(') == TokenV::OpenBracket);
            assert(lex_spec(s) =~= tokens_of_node(n) + lex_spec(rest));
        },
        NodeV::And { lhs, rhs } => {
            lemma_lex_render_binary(n, *lhs, *rhs, '&', TokenV::And, rest);
        },
        NodeV::Or { lhs, rhs } => {
            lemma_lex_render_binary(n, *lhs, *rhs, '|', TokenV::Or, rest);
        },
    }
}

/// The binary case of the lexing lemma, shared by conjunction and
/// disjunction.
#[verifier::rlimit(60)]
proof fn lemma_lex_render_binary(
    n: NodeV,
    lhs: NodeV,
    rhs: NodeV,
    opc: char,
    opt: TokenV,
    rest: Seq<char>,
)
    requires
        valid_names(lhs),
        valid_names(rhs),
        rest.len() == 0 || is_op_char(rest[0]),
        (opc == '&' && opt == TokenV::And && n == (NodeV::And {
            lhs: Box::new(lhs),
            rhs: Box::new(rhs),
        })) || (opc == '|' && opt == TokenV::Or && n == (NodeV::Or {
            lhs: Box::new(lhs),
            rhs: Box::new(rhs),
        })),
    ensures
        lex_spec(render_node(n) + rest) == tokens_of_node(n) + lex_spec(rest),
    decreases n, 0nat,
{
    let s = render_node(n) + rest;
    let rl = render_node(lhs);
    let rr = render_node(rhs);
    let rest2 = seq![')'] + rest;
    let rest1 = seq![')', opc, '('] + rr + rest2;
    assert(render_node(n) == seq!['('] + rl + seq![')', opc, '('] + rr + seq![')']);
    assert(rest1[0] == ')');
    assert(rest2[0] == ')');
    lemma_lex_render(lhs, rest1);
    lemma_lex_render(rhs, rest2);
    assert(s[0] == '(');
    assert(s.skip(1) =~= (rl + rest1).skip(0));
    lemma_lex_from_suffix(s, 1, rl + rest1, 0, Seq::empty());
    assert(rest1[1] == opc);
    assert(rest1[2] == '(');
    assert(rest1.skip(3) =~= (rr + rest2).skip(0));
    lemma_lex_from_suffix(rest1, 3, rr + rest2, 0, Seq::empty());
    assert(rest2.skip(1) =~= rest.skip(0));
    lemma_lex_from_suffix(rest2, 1, rest, 0, Seq::empty());
    assert(lex_spec(rest2) =~= seq![TokenV::CloseBracket] + lex_spec(rest));
    assert(flush_name(Seq::<char>::empty()) =~= Seq::<TokenV>::empty());
    assert(op_token_of(')') == TokenV::CloseBracket);
    assert(op_token_of(opc) == opt);
    assert(op_token_of('(') == TokenV::OpenBracket);
    assert(lex_spec(rest1) == flush_name(Seq::empty()) + seq![op_token_of(')')] + lex_from(
        rest1,
        1,
        Seq::empty(),
    ));
    assert(lex_from(rest1, 1, Seq::empty()) == flush_name(Seq::empty()) + seq![op_token_of(opc)]
        + lex_from(rest1, 2, Seq::empty()));
    assert(lex_from(rest1, 2, Seq::empty()) == flush_name(Seq::empty()) + seq![op_token_of('(')]
        + lex_from(rest1, 3, Seq::empty()));
    assert(lex_spec(rest1) =~= seq![TokenV::CloseBracket, opt, TokenV::OpenBracket] + lex_spec(
        rr + rest2,
    ));
    assert(lex_spec(s) == flush_name(Seq::empty()) + seq![op_token_of('(')] + lex_from(
        s,
        1,
        Seq::empty(),
    ));
    assert(lex_spec(s) =~= tokens_of_node(n) + lex_spec(rest));
}

/// The canonical text form of a tree lexes exactly to its token
/// sequence.
pub(crate) proof fn lemma_render_lexes(n: NodeV)
    requires
        valid_names(n),
    ensures
        lex_spec(render_node(n)) == tokens_of_node(n),
{
    lemma_lex_render(n, Seq::empty());
    assert(render_node(n) + Seq::<char>::empty() =~= render_node(n));
    assert(lex_spec(Seq::<char>::empty()) =~= Seq::<TokenV>::empty());
    assert(tokens_of_node(n) + Seq::<TokenV>::empty() =~= tokens_of_node(n));
}

/// The token sequence of a canonical form is never empty.
pub(crate) proof fn lemma_tokens_of_node_nonempty(n: NodeV)
    ensures
        tokens_of_node(n).len() > 0,
{
    match n {
        NodeV::Name(_) => {},
        NodeV::Invert(_) => {},
        NodeV::And { .. } => {},
        NodeV::Or { .. } => {},
    }
}

/// Parsing the token sequence of a canonical form, followed by nothing
/// or by a closing bracket, rebuilds exactly the tree and consumes
/// exactly its tokens.
pub(crate) proof fn lemma_parse_tokens(n: NodeV, rest: Seq<TokenV>, d: nat)
    requires
        d >= req_depth(n),
        rest.len() == 0 || rest[0] is CloseBracket,
    ensures
        parse_spec(tokens_of_node(n) + rest, d) == (ParseOutcome::Parsed { node: n, rest }),
    decreases n,
{
    let toks = tokens_of_node(n) + rest;
    match n {
        NodeV::Name(t) => {
            assert(toks[0] == TokenV::Name(t));
            assert(toks.drop_first() =~= rest);
            if rest.len() > 0 {
                assert(toks[1] == rest[0]);
            }
        },
        NodeV::Invert(x) => {
            let tx = tokens_of_node(*x);
            let t = toks.drop_first();
            assert(toks[0] == TokenV::Invert);
            assert(t =~= seq![TokenV::OpenBracket] + tx + (seq![TokenV::CloseBracket] + rest));
            assert(t[0] == TokenV::OpenBracket);
            assert(t.drop_first() =~= tx + (seq![TokenV::CloseBracket] + rest));
            lemma_parse_tokens(*x, seq![TokenV::CloseBracket] + rest, (d - 2) as nat);
            let after_inner = seq![TokenV::CloseBracket] + rest;
            assert(after_inner[0] is CloseBracket);
            assert(after_inner.drop_first() =~= rest);
            if rest.len() > 0 {
                assert(rest[0] is CloseBracket);
            }
            assert(parse_spec(t, (d - 1) as nat) == (ParseOutcome::Parsed { node: *x, rest }));
            assert(NodeV::Invert(Box::new(*x)) == n);
        },
        NodeV::And { lhs, rhs } => {
            lemma_parse_tokens_binary(n, *lhs, *rhs, TokenV::And, rest, d);
        },
        NodeV::Or { lhs, rhs } => {
            lemma_parse_tokens_binary(n, *lhs, *rhs, TokenV::Or, rest, d);
        },
    }
}

/// The binary case of the parsing lemma, shared by conjunction and
/// disjunction.
#[verifier::rlimit(60)]
proof fn lemma_parse_tokens_binary(
    n: NodeV,
    lhs: NodeV,
    rhs: NodeV,
    opt: TokenV,
    rest: Seq<TokenV>,
    d: nat,
)
    requires
        d >= req_depth(n),
        rest.len() == 0 || rest[0] is CloseBracket,
        (opt == TokenV::And && n == (NodeV::And { lhs: Box::new(lhs), rhs: Box::new(rhs) })) || (
        opt == TokenV::Or && n == (NodeV::Or { lhs: Box::new(lhs), rhs: Box::new(rhs) })),
    ensures
        parse_spec(tokens_of_node(n) + rest, d) == (ParseOutcome::Parsed { node: n, rest }),
    decreases n, 0nat,
{
    let toks = tokens_of_node(n) + rest;
    let tl = tokens_of_node(lhs);
    let tr = tokens_of_node(rhs);
    let mid = seq![TokenV::CloseBracket, opt, TokenV::OpenBracket];
    let rest2 = seq![TokenV::CloseBracket] + rest;
    let rest1 = mid + tr + seq![TokenV::CloseBracket] + rest;
    assert(tokens_of_node(n) =~= seq![TokenV::OpenBracket] + tl + mid + tr + seq![
        TokenV::CloseBracket,
    ]);
    assert(toks[0] == TokenV::OpenBracket);
    assert(toks.drop_first() =~= tl + rest1);
    assert(rest1[0] is CloseBracket);
    lemma_parse_tokens(lhs, rest1, (d - 1) as nat);
    assert(parse_spec(tl + rest1, (d - 1) as nat) == (ParseOutcome::Parsed {
        node: lhs,
        rest: rest1,
    }));
    let after = rest1.drop_first();
    assert(after =~= seq![opt, TokenV::OpenBracket] + tr + rest2);
    assert(after[0] == opt);
    assert(after.drop_first() =~= seq![TokenV::OpenBracket] + tr + rest2);
    let inner2 = after.drop_first();
    assert(inner2[0] == TokenV::OpenBracket);
    assert(inner2.drop_first() =~= tr + rest2);
    assert(rest2[0] is CloseBracket);
    lemma_parse_tokens(rhs, rest2, (d - 2) as nat);
    assert(parse_spec(tr + rest2, (d - 2) as nat) == (ParseOutcome::Parsed {
        node: rhs,
        rest: rest2,
    }));
    assert(rest2.drop_first() =~= rest);
    if rest.len() > 0 {
        assert(rest[0] is CloseBracket);
    }
    assert(parse_spec(inner2, (d - 1) as nat) == (ParseOutcome::Parsed { node: rhs, rest }));
    assert(binary_node(opt, lhs, rhs) == n);
}

/// A count-qualified name holds of exactly the tag sets in which the
/// name occurs exactly that often: `text$N` is true precisely when the
/// number of tags equal to `text` is `N`.
pub proof fn law_count_name(name: Seq<char>, k: nat, tags: Seq<Seq<char>>)
    requires
        forall|i: int| 0 <= i < name.len() ==> #[trigger] name[i] != '$',
        k <= u64::MAX,
    ensures
        eval_spec(NodeV::Name(name + seq!['$'] + crate::strutil::dec_of(k)), tags) == Ok::<
            bool,
            ParseErrorKind,
        >(tag_count(tags, name) == k),
{
    let digits = crate::strutil::dec_of(k);
    crate::strutil::lemma_dec_of_round_trip(k);
    assert(forall|i: int| 0 <= i < digits.len() ==> #[trigger] digits[i] != '$') by {
        assert(forall|i: int|
            0 <= i < digits.len() ==> crate::strutil::is_dec_digit(#[trigger] digits[i]));
    }
    crate::strutil::lemma_split_single_sep(name, '$', digits);
}

/// Evaluates a name leaf against the tag vectors.
fn eval_name(text: &String, tags: &Vec<Vec<char>>) -> (r: Result<bool, ParseError>)
    ensures
        match eval_name_spec(text@, char_vecs_view(tags@)) {
            Ok(b) => r == Ok::<bool, ParseError>(b),
            Err(k) => r matches Err(e) && e.kind == k,
        },
{
    let cs = chars_of(text.as_str());
    let parts = split_chars(&cs, '$');
    let ghost tagsv = char_vecs_view(tags@);
    if parts.len() == 1 {
        let mut i: usize = 0;
        while i < tags.len()
            invariant
                0 <= i <= tags@.len(),
                tagsv == char_vecs_view(tags@),
                cs@ == text@,
                split_seq(text@, '$').len() == 1,
                forall|j: int| 0 <= j < i ==> tagsv[j] != cs@,
            decreases tags@.len() - i,
        {
            if char_vecs_eq(&tags[i], &cs) {
                proof {
                    assert(tagsv[i as int] == cs@);
                }
                return Ok(true);
            }
            i = i + 1;
        }
        proof {
            assert(!tag_present(tagsv, text@));
        }
        Ok(false)
    } else if parts.len() == 2 {
        match parse_u64(&parts[1]) {
            None => Err(ParseError::new(ParseErrorKind::BadCountNumber)),
            Some(k) => {
                let ghost target = char_vecs_view(parts@)[0];
                let mut c: u64 = 0;
                let mut i: usize = 0;
                while i < tags.len()
                    invariant
                        0 <= i <= tags@.len(),
                        tagsv == char_vecs_view(tags@),
                        parts@.len() == 2,
                        char_vecs_view(parts@) == split_seq(text@, '$'),
                        is_u64_digits(parts@[1]@),
                        k == dec_val(parts@[1]@),
                        target == parts@[0]@,
                        c == tag_count(tagsv.take(i as int), target),
                        c <= i,
                    decreases tags@.len() - i,
                {
                    proof {
                        assert(tagsv.take(i as int + 1).drop_last() =~= tagsv.take(i as int));
                        assert(tagsv.take(i as int + 1).last() == tags@[i as int]@);
                    }
                    if char_vecs_eq(&tags[i], &parts[0]) {
                        c = c + 1;
                    }
                    i = i + 1;
                }
                proof {
                    assert(tagsv.take(tags@.len() as int) =~= tagsv);
                }
                Ok(c == k)
            },
        }
    } else {
        Err(ParseError::new(ParseErrorKind::BadCountFormat))
    }
}

impl Node {
    /// Evaluates the tree against tag vectors.
    fn matches_chars(&self, tags: &Vec<Vec<char>>) -> (r: Result<bool, ParseError>)
        ensures
            match eval_spec(self@, char_vecs_view(tags@)) {
                Ok(b) => r == Ok::<bool, ParseError>(b),
                Err(k) => r matches Err(e) && e.kind == k,
            },
        decreases *self,
    {
        match self {
            Node::Invert(x) => match (&**x).matches_chars(tags) {
                Ok(b) => Ok(!b),
                Err(e) => Err(e),
            },
            Node::And { lhs, rhs } => match (&**lhs).matches_chars(tags) {
                Err(e) => Err(e),
                Ok(false) => Ok(false),
                Ok(true) => (&**rhs).matches_chars(tags),
            },
            Node::Or { lhs, rhs } => match (&**lhs).matches_chars(tags) {
                Err(e) => Err(e),
                Ok(true) => Ok(true),
                Ok(false) => (&**rhs).matches_chars(tags),
            },
            Node::Name(text) => eval_name(text, tags),
        }
    }

    /// Appends the canonical text form of the tree.
    fn push_text(&self, out: &mut Vec<char>)
        ensures
            final(out)@ == old(out)@ + render_node(self@),
        decreases *self,
    {
        match self {
            Node::Name(t) => {
                let mut cs = chars_of(t.as_str());
                out.append(&mut cs);
                proof {
                    assert(out@ =~= old(out)@ + render_node(self@));
                }
            },
            Node::Invert(x) => {
                out.push('!');
                out.push('(');
                (&**x).push_text(out);
                out.push(')');
                proof {
                    assert(out@ =~= old(out)@ + render_node(self@));
                }
            },
            Node::And { lhs, rhs } => {
                out.push('(');
                (&**lhs).push_text(out);
                out.push(')');
                out.push('&');
                out.push('(');
                (&**rhs).push_text(out);
                out.push(')');
                proof {
                    assert(out@ =~= old(out)@ + render_node(self@));
                }
            },
            Node::Or { lhs, rhs } => {
                out.push('(');
                (&**lhs).push_text(out);
                out.push(')');
                out.push('|');
                out.push('(');
                (&**rhs).push_text(out);
                out.push(')');
                proof {
                    assert(out@ =~= old(out)@ + render_node(self@));
                }
            },
        }
    }

    /// The canonical text form of the tree: re-parsing it yields the
    /// same tree back.
    pub fn to_text(&self) -> (r: String)
        ensures
            r@ == render_node(self@),
    {
        let mut out: Vec<char> = Vec::new();
        self.push_text(&mut out);
        proof {
            assert(out@ =~= render_node(self@));
        }
        chars_to_string(&out)
    }

    /// Evaluates the tree against a set of tags, given as string slices.
    pub fn matches(&self, tags: &[&str]) -> (r: Result<bool, ParseError>)
        ensures
            match eval_spec(self@, strs_view(tags@)) {
                Ok(b) => r == Ok::<bool, ParseError>(b),
                Err(k) => r matches Err(e) && e.kind == k,
            },
    {
        let mut tv: Vec<Vec<char>> = Vec::new();
        let mut i: usize = 0;
        while i < tags.len()
            invariant
                0 <= i <= tags@.len(),
                tv@.len() == i,
                forall|j: int| 0 <= j < i ==> tv@[j]@ == tags@[j]@,
            decreases tags@.len() - i,
        {
            tv.push(chars_of(tags[i]));
            i = i + 1;
        }
        proof {
            assert(char_vecs_view(tv@) =~= strs_view(tags@));
        }
        self.matches_chars(&tv)
    }

    /// Parses one maximal sub-expression from the front of the token queue,
    /// consuming the tokens it covers. On failure the queue is left
    /// partially consumed and the partial tree is discarded.
    pub fn munch_tokens(tokens: &mut VecDeque<Token>, depth: u16) -> (r: Result<Node, ParseError>)
        ensures
            match parse_spec(tokens_view(old(tokens)@), depth as nat) {
                ParseOutcome::Parsed { node, rest } => {
                    &&& r matches Ok(n) && n@ == node
                    &&& tokens_view(final(tokens)@) == rest
                },
                ParseOutcome::Failed { kind } => r matches Err(e) && e.kind == kind,
            },
        decreases depth,
    {
        let ghost toks0 = tokens_view(tokens@);
        if depth == 0 {
            return Err(ParseError::new(ParseErrorKind::ExpressionTooDeep));
        }
        if tokens.len() == 0 {
            return Err(ParseError::new(ParseErrorKind::UnexpectedEnd));
        }
        let first = match tokens.pop_front() {
            Some(t) => t,
            None => {
                return Err(ParseError::new(ParseErrorKind::UnexpectedEnd));
            },
        };
        proof {
            assert(first@ == toks0[0]);
            assert(tokens_view(tokens@) =~= toks0.drop_first());
        }
        match first {
            Token::CloseBracket => Err(ParseError::new(ParseErrorKind::UnexpectedCloseBracket)),
            Token::And => Err(ParseError::new(ParseErrorKind::UnexpectedBinaryOperator)),
            Token::Or => Err(ParseError::new(ParseErrorKind::UnexpectedBinaryOperator)),
            Token::OpenBracket => {
                let inner = match Self::munch_tokens(tokens, depth - 1) {
                    Ok(n) => n,
                    Err(e) => {
                        return Err(e);
                    },
                };
                let ghost rest = tokens_view(tokens@);
                match tokens.pop_front() {
                    Some(Token::CloseBracket) => {},
                    _ => {
                        return Err(ParseError::new(ParseErrorKind::ExpectedCloseBracket));
                    },
                }
                proof {
                    assert(tokens_view(tokens@) =~= rest.drop_first());
                }
                let ghost after = tokens_view(tokens@);
                if tokens.len() == 0 {
                    return Ok(inner);
                }
                let is_and = matches!(&tokens[0], Token::And);
                let is_or = matches!(&tokens[0], Token::Or);
                let is_close = matches!(&tokens[0], Token::CloseBracket);
                proof {
                    assert(tokens@[0]@ == after[0]);
                }
                if is_close {
                    return Ok(inner);
                }
                if is_and || is_or {
                    let _ = tokens.pop_front();
                    proof {
                        assert(tokens_view(tokens@) =~= after.drop_first());
                    }
                    let rhs = match Self::munch_tokens(tokens, depth - 1) {
                        Ok(n) => n,
                        Err(e) => {
                            return Err(e);
                        },
                    };
                    if is_and {
                        return Ok(Node::And { lhs: Box::new(inner), rhs: Box::new(rhs) });
                    } else {
                        return Ok(Node::Or { lhs: Box::new(inner), rhs: Box::new(rhs) });
                    }
                }
                Err(ParseError::new(ParseErrorKind::InvalidTokenAfterGroup))
            },
            Token::Invert => {
                let ghost t = tokens_view(tokens@);
                if tokens.len() == 0 {
                    return Err(ParseError::new(ParseErrorKind::UnexpectedEnd));
                }
                let is_open = matches!(&tokens[0], Token::OpenBracket);
                let is_invert = matches!(&tokens[0], Token::Invert);
                let is_name = matches!(&tokens[0], Token::Name(_));
                proof {
                    assert(tokens@[0]@ == t[0]);
                }
                if is_open {
                    let inner = match Self::munch_tokens(tokens, depth - 1) {
                        Ok(n) => n,
                        Err(e) => {
                            return Err(e);
                        },
                    };
                    return Ok(Node::Invert(Box::new(inner)));
                }
                if is_invert {
                    return Err(ParseError::new(ParseErrorKind::DoubleNegation));
                }
                if !is_name {
                    return Err(ParseError::new(ParseErrorKind::ExpectedExpression));
                }
                let has_and = tokens.len() >= 2 && matches!(&tokens[1], Token::And);
                let has_or = tokens.len() >= 2 && matches!(&tokens[1], Token::Or);
                let only_name = tokens.len() == 1 || matches!(&tokens[1], Token::CloseBracket);
                proof {
                    if tokens@.len() >= 2 {
                        assert(tokens@[1]@ == t[1]);
                    }
                }
                let name = match tokens.pop_front() {
                    Some(Token::Name(text)) => text,
                    _ => {
                        return Err(ParseError::new(ParseErrorKind::ExpectedExpression));
                    },
                };
                proof {
                    assert(tokens_view(tokens@) =~= t.drop_first());
                }
                if has_and || has_or {
                    let _ = tokens.pop_front();
                    proof {
                        assert(tokens_view(tokens@) =~= t.skip(2));
                    }
                    let rhs = match Self::munch_tokens(tokens, depth - 1) {
                        Ok(n) => n,
                        Err(e) => {
                            return Err(e);
                        },
                    };
                    let lhs = Node::Invert(Box::new(Node::Name(name)));
                    proof {
                        assert(lhs@ == NodeV::Invert(Box::new(NodeV::Name(name@)))) by {
                            assert(node_view(Node::Name(name)) == NodeV::Name(name@));
                        }
                    }
                    if has_and {
                        return Ok(Node::And { lhs: Box::new(lhs), rhs: Box::new(rhs) });
                    } else {
                        return Ok(Node::Or { lhs: Box::new(lhs), rhs: Box::new(rhs) });
                    }
                }
                if only_name {
                    proof {
                        assert(node_view(Node::Name(name)) == NodeV::Name(name@));
                    }
                    return Ok(Node::Invert(Box::new(Node::Name(name))));
                }
                Err(ParseError::new(ParseErrorKind::InvalidTokenAfterInvertedName))
            },
            Token::Name(text) => {
                let has_and = tokens.len() >= 1 && matches!(&tokens[0], Token::And);
                let has_or = tokens.len() >= 1 && matches!(&tokens[0], Token::Or);
                let alone = tokens.len() == 0 || matches!(&tokens[0], Token::CloseBracket);
                proof {
                    if tokens@.len() >= 1 {
                        assert(tokens@[0]@ == toks0[1]);
                    }
                }
                if has_and || has_or {
                    let _ = tokens.pop_front();
                    proof {
                        assert(tokens_view(tokens@) =~= toks0.skip(2));
                    }
                    let rhs = match Self::munch_tokens(tokens, depth - 1) {
                        Ok(n) => n,
                        Err(e) => {
                            return Err(e);
                        },
                    };
                    let ghost textv = text@;
                    let lhs = Node::Name(text);
                    proof {
                        assert(lhs@ == NodeV::Name(textv));
                    }
                    if has_and {
                        return Ok(Node::And { lhs: Box::new(lhs), rhs: Box::new(rhs) });
                    } else {
                        return Ok(Node::Or { lhs: Box::new(lhs), rhs: Box::new(rhs) });
                    }
                }
                if alone {
                    return Ok(Node::Name(text));
                }
                Err(ParseError::new(ParseErrorKind::InvalidTokenAfterName))
            },
        }
    }
}

} // verus!
