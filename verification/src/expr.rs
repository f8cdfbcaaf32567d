//! The boolean filter expression: construction from text and evaluation
//! against tag sets.

use vstd::prelude::*;

use crate::ast::{eval_spec, parse_spec, Node, NodeV, ParseError, ParseErrorKind, ParseOutcome};
use crate::lex::{flush_name, lex, lex_from, lex_spec, tokens_view, Token, TokenV};
use crate::records::{domain_names, GeneRecord};
use crate::strutil::strs_view;
use std::collections::VecDeque;
use vstd::pervasive::unreached;

verus! {

/// Either no constraint, or a constraint tree.
#[derive(Debug, Clone, PartialEq, Eq)]
pub enum ExprData {
    Empty,
    HasNodes(Node),
}

/// A boolean filter over a set of tags. An empty expression matches any
/// input: it is the identity element for filtering.
#[derive(Debug, Clone, PartialEq, Eq)]
pub struct Expr(pub ExprData);

/// The recursion budget for parsing: expressions nested deeper than this
/// are rejected.
pub const MAX_RECURSION: u16 = 20;

/// The constraint tree of an expression, if it has one.
pub open spec fn expr_view(e: Expr) -> Option<NodeV> {
    match e.0 {
        ExprData::Empty => None,
        ExprData::HasNodes(n) => Some(n@),
    }
}

impl View for Expr {
    type V = Option<NodeV>;

    open spec fn view(&self) -> Option<NodeV> {
        expr_view(*self)
    }
}

/// The expression denoted by a source string: no tokens at all give the
/// empty expression; otherwise the tokens must parse completely as a
/// single expression.
pub open spec fn expr_from_spec(s: Seq<char>) -> Result<Option<NodeV>, ParseErrorKind> {
    let toks = lex_spec(s);
    if toks.len() == 0 {
        Ok(None)
    } else {
        match parse_spec(toks, MAX_RECURSION as nat) {
            ParseOutcome::Parsed { node, rest } => {
                if rest.len() == 0 {
                    Ok(Some(node))
                } else {
                    Err(ParseErrorKind::TrailingTokens)
                }
            },
            ParseOutcome::Failed { kind } => Err(kind),
        }
    }
}

/// Evaluation of an optional constraint: the empty expression matches
/// every tag set.
pub open spec fn expr_eval_spec(e: Option<NodeV>, tags: Seq<Seq<char>>) -> Result<
    bool,
    ParseErrorKind,
> {
    match e {
        None => Ok(true),
        Some(n) => eval_spec(n, tags),
    }
}

/// The empty expression is the identity element of filtering: a source
/// string with no tokens yields the empty expression, and the empty
/// expression matches every tag set.
pub proof fn law_empty_expression_matches(s: Seq<char>, tags: Seq<Seq<char>>)
    requires
        lex_spec(s).len() == 0,
    ensures
        expr_from_spec(s) == Ok::<Option<NodeV>, ParseErrorKind>(None),
        expr_eval_spec(None, tags) == Ok::<bool, ParseErrorKind>(true),
{
}

/// `a | b` and `a , b` denote structurally identical trees: replacing a
/// `|` by a `,` anywhere in the source changes neither the tokens nor
/// the parsed expression.
pub proof fn law_or_comma_same_expression(s: Seq<char>, i: int)
    requires
        0 <= i < s.len(),
        s[i] == '|',
    ensures
        expr_from_spec(s.update(i, ',')) == expr_from_spec(s),
{
    crate::lex::law_or_comma_synonyms(s, i);
}

/// An unparenthesized negation binds to the single adjacent name: for
/// any names `a` and `b`, the source `!a&b` denotes the conjunction of
/// the negated `a` with `b`.
pub proof fn law_negation_binds_to_name(a: Seq<char>, b: Seq<char>)
    requires
        crate::lex::is_name_seq(a),
        crate::lex::is_name_seq(b),
    ensures
        expr_from_spec(seq!['!'] + a + seq!['&'] + b) == Ok::<Option<NodeV>, ParseErrorKind>(
            Some(
                NodeV::And {
                    lhs: Box::new(NodeV::Invert(Box::new(NodeV::Name(a)))),
                    rhs: Box::new(NodeV::Name(b)),
                },
            ),
        ),
{
    let x = seq!['!'] + a + seq!['&'] + b;
    let toks = seq![TokenV::Invert, TokenV::Name(a), TokenV::And, TokenV::Name(b)];
    assert(lex_spec(x) == toks) by {
        let p = 1 + a.len() as int;
        assert(x.len() == 2 + a.len() + b.len());
        assert(x[0] == '!');
        assert(forall|m: int| 1 <= m < p ==> x[m] == #[trigger] a[m - 1]);
        assert(x[p] == '&');
        assert(forall|m: int| p < m < x.len() ==> x[m] == #[trigger] b[m - (p + 1)]);
        assert(lex_from(x, 0, Seq::empty()) == flush_name(Seq::empty()) + seq![
            crate::lex::op_token_of('!'),
        ] + lex_from(x, 1, Seq::empty()));
        assert(crate::lex::op_token_of('!') == TokenV::Invert);
        assert(flush_name(Seq::<char>::empty()) =~= Seq::<TokenV>::empty());
        crate::lex::lemma_lex_until_op(x, 1, p, Seq::empty());
        assert(Seq::<char>::empty() + x.subrange(1, p) =~= a);
        assert(flush_name(Seq::<char>::empty() + x.subrange(1, p)) == seq![TokenV::Name(a)]);
        assert(crate::lex::op_token_of(x[p]) == TokenV::And);
        crate::lex::lemma_lex_tail_name(x, p + 1, Seq::empty());
        assert(Seq::<char>::empty() + x.skip(p + 1) =~= b);
        assert(lex_from(x, p + 1, Seq::empty()) == seq![TokenV::Name(b)]);
        assert(lex_spec(x) =~= toks);
    }
    let inner = toks.skip(3);
    assert(inner =~= seq![TokenV::Name(b)]);
    assert(parse_spec(inner, (MAX_RECURSION - 1) as nat) == (ParseOutcome::Parsed {
        node: NodeV::Name(b),
        rest: inner.drop_first(),
    }));
    assert(inner.drop_first() =~= Seq::<TokenV>::empty());
    assert(toks.drop_first() =~= seq![TokenV::Name(a), TokenV::And, TokenV::Name(b)]);
    assert(toks.drop_first().skip(2) =~= inner);
}

/// Round trip: the canonical text form of a tree lexes and parses back
/// to the identical tree, provided the tree's nesting fits the
/// recursion budget.
pub proof fn law_render_round_trip(n: NodeV)
    requires
        crate::ast::valid_names(n),
        crate::ast::req_depth(n) <= MAX_RECURSION as nat,
    ensures
        expr_from_spec(crate::ast::render_node(n)) == Ok::<Option<NodeV>, ParseErrorKind>(Some(n)),
{
    crate::ast::lemma_render_lexes(n);
    crate::ast::lemma_tokens_of_node_nonempty(n);
    crate::ast::lemma_parse_tokens(n, Seq::empty(), MAX_RECURSION as nat);
    assert(crate::ast::tokens_of_node(n) + Seq::<TokenV>::empty() =~= crate::ast::tokens_of_node(
        n,
    ));
}

impl Expr {
    /// Parses an expression from text.
    pub fn from_string(s: &str) -> (r: Result<Self, ParseError>)
        ensures
            match expr_from_spec(s@) {
                Ok(ev) => r matches Ok(e) && e@ == ev,
                Err(k) => r matches Err(pe) && pe.kind == k,
            },
    {
        let ts = match lex(s) {
            Ok(ts) => ts,
            Err(_) => unreached(),
        };
        let mut ts = ts;
        let mut tokens: VecDeque<Token> = VecDeque::new();
        let ghost full = ts@;
        while ts.len() > 0
            invariant
                ts@.len() <= full.len(),
                tokens@ == full.skip(ts@.len() as int),
                ts@ == full.take(ts@.len() as int),
            decreases ts@.len(),
        {
            let ghost n = ts@.len() as int;
            let t = match ts.pop() {
                Some(t) => t,
                None => unreached(),
            };
            proof {
                assert(full.take(n).drop_last() =~= full.take(n - 1));
                assert(ts@ =~= full.take(n - 1));
                assert(t == full.take(n)[n - 1]);
                assert(t == full[n - 1]);
            }
            tokens.push_front(t);
            proof {
                assert(tokens@ =~= full.skip(n - 1));
            }
        }
        proof {
            assert(tokens@ =~= full);
            assert(tokens_view(tokens@) == lex_spec(s@));
        }
        if tokens.len() == 0 {
            return Ok(Expr(ExprData::Empty));
        }
        let ast = match Node::munch_tokens(&mut tokens, MAX_RECURSION) {
            Ok(n) => n,
            Err(e) => {
                return Err(e);
            },
        };
        if tokens.len() > 0 {
            return Err(ParseError::new(ParseErrorKind::TrailingTokens));
        }
        Ok(Expr(ExprData::HasNodes(ast)))
    }

    /// Evaluates the expression against a set of tags.
    pub fn matches(&self, tags: &[&str]) -> (r: Result<bool, ParseError>)
        ensures
            match expr_eval_spec(self@, strs_view(tags@)) {
                Ok(b) => r == Ok::<bool, ParseError>(b),
                Err(k) => r matches Err(e) && e.kind == k,
            },
    {
        match &self.0 {
            ExprData::Empty => Ok(true),
            ExprData::HasNodes(node) => node.matches(tags),
        }
    }

    /// The canonical text form of the expression: empty for the empty
    /// expression, and the bracketed rendering of the tree otherwise.
    pub fn to_text(&self) -> (r: String)
        ensures
            match self@ {
                None => r@ == Seq::<char>::empty(),
                Some(n) => r@ == crate::ast::render_node(n),
            },
    {
        match &self.0 {
            ExprData::Empty => String::new(),
            ExprData::HasNodes(n) => n.to_text(),
        }
    }

    /// Evaluates the expression against the set of annotation names of a
    /// parent record's children.
    pub fn matches_domains(&self, gene_record: &GeneRecord) -> (r: Result<bool, ParseError>)
        ensures
            match expr_eval_spec(self@, domain_names(gene_record@.domains)) {
                Ok(b) => r == Ok::<bool, ParseError>(b),
                Err(k) => r matches Err(e) && e.kind == k,
            },
    {
        let ds = gene_record.iter_domains();
        let mut tags: Vec<&str> = Vec::new();
        let mut i: usize = 0;
        while i < ds.len()
            invariant
                0 <= i <= ds@.len(),
                tags@.len() == i,
                forall|j: int| 0 <= j < i ==> tags@[j]@ == ds@[j]@.domain_name,
            decreases ds@.len() - i,
        {
            tags.push(ds[i].domain_name.as_str());
            i = i + 1;
        }
        proof {
            assert(strs_view(tags@) =~= domain_names(gene_record@.domains));
        }
        self.matches(tags.as_slice())
    }
}

} // verus!
