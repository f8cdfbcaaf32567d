//! Lexer of the boolean expression language: turns a source string into a
//! flat sequence of tokens.

use vstd::prelude::*;

use crate::ast::ParseError;
use crate::strutil::{chars_of, chars_to_string, is_space, is_space_char};

verus! {

/// One lexical unit of the boolean expression language.
#[derive(Debug, Clone, PartialEq, Eq)]
pub enum Token {
    OpenBracket,
    CloseBracket,
    Invert,
    And,
    Or,
    Name(String),
}

/// Mathematical form of a token, carrying a name as a character sequence.
pub enum TokenV {
    OpenBracket,
    CloseBracket,
    Invert,
    And,
    Or,
    Name(Seq<char>),
}

impl View for Token {
    type V = TokenV;

    open spec fn view(&self) -> TokenV {
        match self {
            Token::OpenBracket => TokenV::OpenBracket,
            Token::CloseBracket => TokenV::CloseBracket,
            Token::Invert => TokenV::Invert,
            Token::And => TokenV::And,
            Token::Or => TokenV::Or,
            Token::Name(s) => TokenV::Name(s@),
        }
    }
}

/// The token views of a token sequence.
pub open spec fn tokens_view(ts: Seq<Token>) -> Seq<TokenV> {
    ts.map_values(|t: Token| t@)
}

/// The single-character operators of the expression language.
pub open spec fn is_op_char(c: char) -> bool {
    c == '(' || c == ')' || c == '|' || c == ',' || c == '&' || c == '!'
}

/// The token denoted by an operator character; `|` and `,` are synonyms.
pub open spec fn op_token_of(c: char) -> TokenV
    recommends
        is_op_char(c),
{
    if c == '(' {
        TokenV::OpenBracket
    } else if c == ')' {
        TokenV::CloseBracket
    } else if c == '|' || c == ',' {
        TokenV::Or
    } else if c == '&' {
        TokenV::And
    } else {
        TokenV::Invert
    }
}

impl Token {
    /// The operator token for an operator character, if it is one.
    fn op_from_char(c: char) -> (r: Option<Token>)
        ensures
            r is Some <==> is_op_char(c),
            r is Some ==> r->0@ == op_token_of(c),
    {
        match c {
            '(' => Some(Token::OpenBracket),
            ')' => Some(Token::CloseBracket),
            '|' | ',' => Some(Token::Or),
            '&' => Some(Token::And),
            '!' => Some(Token::Invert),
            _ => None,
        }
    }
}

/// The pending name characters as a token sequence: one name token, or
/// nothing when no name characters are pending.
pub open spec fn flush_name(cur: Seq<char>) -> Seq<TokenV> {
    if cur.len() == 0 {
        seq![]
    } else {
        seq![TokenV::Name(cur)]
    }
}

/// Tokens lexed from position `i` of `s` onward, `cur` being the name
/// characters accumulated so far. An operator character closes the pending
/// name and stands as its own token; whitespace closes the pending name and
/// is consumed; any other character extends the pending name; the pending
/// name is flushed at the end of the input.
pub open spec fn lex_from(s: Seq<char>, i: int, cur: Seq<char>) -> Seq<TokenV>
    recommends
        0 <= i <= s.len(),
    decreases s.len() - i,
{
    if i < 0 || i >= s.len() {
        flush_name(cur)
    } else {
        let c = s[i];
        if is_op_char(c) {
            flush_name(cur) + seq![op_token_of(c)] + lex_from(s, i + 1, Seq::empty())
        } else if is_space_char(c) {
            flush_name(cur) + lex_from(s, i + 1, Seq::empty())
        } else {
            lex_from(s, i + 1, cur + seq![c])
        }
    }
}

/// The token sequence of a source string.
pub open spec fn lex_spec(s: Seq<char>) -> Seq<TokenV> {
    lex_from(s, 0, Seq::empty())
}

/// A non-empty run of characters that the lexer reads as one name.
pub open spec fn is_name_seq(s: Seq<char>) -> bool {
    s.len() > 0 && forall|i: int|
        0 <= i < s.len() ==> !is_op_char(#[trigger] s[i]) && !is_space_char(s[i])
}

/// Lexing from a position depends only on the characters from it on.
pub(crate) proof fn lemma_lex_from_suffix(s: Seq<char>, js: int, t: Seq<char>, jt: int, cur: Seq<char>)
    requires
        0 <= js <= s.len(),
        0 <= jt <= t.len(),
        s.skip(js) == t.skip(jt),
    ensures
        lex_from(s, js, cur) == lex_from(t, jt, cur),
    decreases s.len() - js,
{
    assert(s.skip(js).len() == t.skip(jt).len());
    assert(t.skip(jt).len() == t.len() - jt);
    assert(s.skip(js).len() == s.len() - js);
    if js < s.len() {
        assert(jt < t.len());
        assert(s[js] == s.skip(js)[0]);
        assert(t.skip(jt)[0] == t[jt]);
        assert(t[jt] == s[js]);
        assert(s.skip(js + 1) =~= s.skip(js).drop_first());
        assert(t.skip(jt + 1) =~= t.skip(jt).drop_first());
        let c = s[js];
        if is_op_char(c) {
            lemma_lex_from_suffix(s, js + 1, t, jt + 1, Seq::empty());
        } else if is_space_char(c) {
            lemma_lex_from_suffix(s, js + 1, t, jt + 1, Seq::empty());
        } else {
            lemma_lex_from_suffix(s, js + 1, t, jt + 1, cur + seq![c]);
        }
    }
}

/// Lexing a run of name characters up to an operator yields the pending
/// name followed by the operator's token.
pub(crate) proof fn lemma_lex_until_op(s: Seq<char>, j: int, p: int, cur: Seq<char>)
    requires
        0 <= j <= p < s.len(),
        is_op_char(s[p]),
        forall|m: int| j <= m < p ==> !is_op_char(#[trigger] s[m]) && !is_space_char(s[m]),
    ensures
        lex_from(s, j, cur) == flush_name(cur + s.subrange(j, p)) + seq![op_token_of(s[p])]
            + lex_from(s, p + 1, Seq::empty()),
    decreases p - j,
{
    if j == p {
        assert(cur + s.subrange(j, p) =~= cur);
    } else {
        lemma_lex_until_op(s, j + 1, p, cur + seq![s[j]]);
        assert((cur + seq![s[j]]) + s.subrange(j + 1, p) =~= cur + s.subrange(j, p));
    }
}

/// Lexing a trailing run of name characters yields one name token.
pub(crate) proof fn lemma_lex_tail_name(s: Seq<char>, j: int, cur: Seq<char>)
    requires
        0 <= j <= s.len(),
        forall|m: int| j <= m < s.len() ==> !is_op_char(#[trigger] s[m]) && !is_space_char(s[m]),
        cur.len() + (s.len() - j) > 0,
    ensures
        lex_from(s, j, cur) == seq![TokenV::Name(cur + s.skip(j))],
    decreases s.len() - j,
{
    if j == s.len() {
        assert(cur + s.skip(j) =~= cur);
    } else {
        lemma_lex_tail_name(s, j + 1, cur + seq![s[j]]);
        assert((cur + seq![s[j]]) + s.skip(j + 1) =~= cur + s.skip(j));
    }
}

proof fn lemma_lex_from_or_comma(s: Seq<char>, i: int, j: int, cur: Seq<char>)
    requires
        0 <= i < s.len(),
        s[i] == '|',
        0 <= j <= s.len(),
    ensures
        lex_from(s.update(i, ','), j, cur) == lex_from(s, j, cur),
    decreases s.len() - j,
{
    let t = s.update(i, ',');
    if j < s.len() {
        if j == i {
            lemma_lex_from_or_comma(s, i, j + 1, Seq::empty());
        } else {
            let c = s[j];
            assert(t[j] == c);
            if is_op_char(c) {
                lemma_lex_from_or_comma(s, i, j + 1, Seq::empty());
            } else if is_space_char(c) {
                lemma_lex_from_or_comma(s, i, j + 1, Seq::empty());
            } else {
                lemma_lex_from_or_comma(s, i, j + 1, cur + seq![c]);
            }
        }
    }
}

/// `|` and `,` are synonyms: replacing a `|` by a `,` anywhere in the
/// source leaves the token sequence unchanged.
pub proof fn law_or_comma_synonyms(s: Seq<char>, i: int)
    requires
        0 <= i < s.len(),
        s[i] == '|',
    ensures
        lex_spec(s.update(i, ',')) == lex_spec(s),
{
    lemma_lex_from_or_comma(s, i, 0, Seq::empty());
}

/// Lexes a source string into tokens. Lexing never fails; the fallible
/// signature is kept for forward compatibility of the interface.
pub fn lex(s: &str) -> (r: Result<Vec<Token>, ParseError>)
    ensures
        r is Ok,
        r matches Ok(ts) ==> tokens_view(ts@) == lex_spec(s@),
{
    let cs = chars_of(s);
    let mut tokens: Vec<Token> = Vec::new();
    let mut cur: Vec<char> = Vec::new();
    let mut i: usize = 0;
    proof {
        assert(tokens_view(tokens@) + lex_from(s@, 0, cur@) =~= lex_spec(s@));
    }
    while i < cs.len()
        invariant
            0 <= i <= cs@.len(),
            cs@ == s@,
            lex_spec(s@) == tokens_view(tokens@) + lex_from(s@, i as int, cur@),
        decreases cs@.len() - i,
    {
        let c = cs[i];
        let ghost pre_tokens = tokens@;
        let ghost pre_cur = cur@;
        match Token::op_from_char(c) {
            Some(op) => {
                if cur.len() > 0 {
                    tokens.push(Token::Name(chars_to_string(&cur)));
                    cur = Vec::new();
                }
                tokens.push(op);
                proof {
                    assert(cur@ =~= Seq::<char>::empty());
                    assert(tokens_view(tokens@) =~= tokens_view(pre_tokens) + flush_name(pre_cur)
                        + seq![op_token_of(s@[i as int])]);
                    assert(tokens_view(tokens@) + lex_from(s@, i as int + 1, cur@)
                        =~= tokens_view(pre_tokens) + lex_from(s@, i as int, pre_cur));
                }
            },
            None => {
                if is_space(c) {
                    if cur.len() > 0 {
                        tokens.push(Token::Name(chars_to_string(&cur)));
                        cur = Vec::new();
                    }
                    proof {
                        assert(cur@ =~= Seq::<char>::empty());
                        assert(tokens_view(tokens@) =~= tokens_view(pre_tokens) + flush_name(
                            pre_cur,
                        ));
                        assert(tokens_view(tokens@) + lex_from(s@, i as int + 1, cur@)
                            =~= tokens_view(pre_tokens) + lex_from(s@, i as int, pre_cur));
                    }
                } else {
                    cur.push(c);
                    proof {
                        assert(cur@ =~= pre_cur + seq![s@[i as int]]);
                        assert(tokens_view(tokens@) + lex_from(s@, i as int + 1, cur@)
                            =~= tokens_view(pre_tokens) + lex_from(s@, i as int, pre_cur));
                    }
                }
            },
        }
        i = i + 1;
    }
    let ghost pre_tokens = tokens@;
    let ghost pre_cur = cur@;
    if cur.len() > 0 {
        tokens.push(Token::Name(chars_to_string(&cur)));
    }
    proof {
        assert(tokens_view(tokens@) =~= tokens_view(pre_tokens) + flush_name(pre_cur));
    }
    Ok(tokens)
}

} // verus!
