//! Tokenizer for the `name = value` format: braces, equals signs, quoted
//! strings (with `\"` and `\\` escapes; any other backslash sequence passes
//! through literally) and bare tokens. Whitespace only separates tokens.

use vstd::prelude::*;

verus! {

/// Mathematical model of a token.
pub enum Tok {
    Open,
    Close,
    Eq,
    Quoted(Seq<char>),
    Bare(Seq<char>),
}

/// Kind and payload of an executable token.
pub enum TokenKind {
    Open,
    Close,
    Eq,
    Quoted(Vec<char>),
    Bare(Vec<char>),
}

/// An executable token with the character position where it started.
pub struct Token {
    pub kind: TokenKind,
    pub pos: usize,
}

impl Token {
    /// Model of this token.
    pub open spec fn tm(self) -> Tok {
        match self.kind {
            TokenKind::Open => Tok::Open,
            TokenKind::Close => Tok::Close,
            TokenKind::Eq => Tok::Eq,
            TokenKind::Quoted(c) => Tok::Quoted(c@),
            TokenKind::Bare(c) => Tok::Bare(c@),
        }
    }
}

/// Models of a token sequence.
pub open spec fn toks_model(ts: Seq<Token>) -> Seq<Tok> {
    Seq::new(ts.len(), |i: int| ts[i].tm())
}

/// Whitespace separates tokens and is otherwise insignificant.
pub open spec fn is_ws(c: char) -> bool {
    c == ' ' || c == '\t' || c == '\n' || c == '\r'
}

/// Characters that end a bare token.
pub open spec fn is_delim(c: char) -> bool {
    is_ws(c) || c == '{' || c == '}' || c == '=' || c == '"'
}

/// Index just past the bare token that starts at `i`: the first position at
/// or after `i` holding a delimiter, or the end of input.
pub open spec fn bare_end(s: Seq<char>, i: int) -> int
    decreases s.len() - i,
{
    if i >= s.len() {
        s.len() as int
    } else if is_delim(s[i]) {
        i
    } else {
        bare_end(s, i + 1)
    }
}

/// Bounds and content of a bare-token scan.
pub proof fn lemma_bare_end(s: Seq<char>, i: int)
    requires
        i <= s.len(),
    ensures
        i <= bare_end(s, i) <= s.len(),
        forall|t: int| i <= t < bare_end(s, i) ==> !is_delim(s[t]),
        bare_end(s, i) == s.len() || is_delim(s[bare_end(s, i)]),
    decreases s.len() - i,
{
    if i < s.len() && !is_delim(s[i]) {
        lemma_bare_end(s, i + 1);
    }
}

/// A run of non-delimiters from `i` to `j` exclusive, ended by a delimiter
/// or the end of input, pins `bare_end` down to `j`.
pub proof fn lemma_bare_end_is(s: Seq<char>, i: int, j: int)
    requires
        0 <= i <= j <= s.len(),
        forall|t: int| i <= t < j ==> !is_delim(s[t]),
        j == s.len() || is_delim(s[j]),
    ensures
        bare_end(s, i) == j,
    decreases j - i,
{
    if i < j {
        lemma_bare_end_is(s, i + 1, j);
    }
}

/// Content and end position of a quoted string whose opening quote stands
/// just before `i`: characters up to the closing quote, with `\"` and `\\`
/// collapsed to their second character and any other `\` kept literally.
/// `None` when the input ends before a closing quote.
pub open spec fn quoted_scan(s: Seq<char>, i: int) -> Option<(Seq<char>, int)>
    decreases s.len() - i,
{
    if i >= s.len() {
        None
    } else if s[i] == '"' {
        Some((Seq::empty(), i + 1))
    } else if s[i] == '\\' && i + 1 < s.len() && (s[i + 1] == '"' || s[i + 1] == '\\') {
        match quoted_scan(s, i + 2) {
            None => None,
            Some((c, j)) => Some((seq![s[i + 1]] + c, j)),
        }
    } else {
        match quoted_scan(s, i + 1) {
            None => None,
            Some((c, j)) => Some((seq![s[i]] + c, j)),
        }
    }
}

/// A successful quoted scan always advances and stays in bounds.
pub proof fn lemma_quoted_scan_bounds(s: Seq<char>, i: int)
    ensures
        match quoted_scan(s, i) {
            Some((c, j)) => i < j <= s.len(),
            None => true,
        },
    decreases s.len() - i,
{
    if i >= s.len() {
    } else if s[i] == '"' {
    } else if s[i] == '\\' && i + 1 < s.len() && (s[i + 1] == '"' || s[i + 1] == '\\') {
        lemma_quoted_scan_bounds(s, i + 2);
    } else {
        lemma_quoted_scan_bounds(s, i + 1);
    }
}

/// Token sequence of the input from position `i` on; `None` when a quoted
/// string is unterminated.
pub open spec fn tokenize_from(s: Seq<char>, i: int) -> Option<Seq<Tok>>
    decreases s.len() - i,
    via tokenize_from_decreases
{
    if i < 0 || i >= s.len() {
        Some(Seq::empty())
    } else if is_ws(s[i]) {
        tokenize_from(s, i + 1)
    } else if s[i] == '{' {
        cons_tok(Tok::Open, tokenize_from(s, i + 1))
    } else if s[i] == '}' {
        cons_tok(Tok::Close, tokenize_from(s, i + 1))
    } else if s[i] == '=' {
        cons_tok(Tok::Eq, tokenize_from(s, i + 1))
    } else if s[i] == '"' {
        match quoted_scan(s, i + 1) {
            None => None,
            Some((c, j)) => cons_tok(Tok::Quoted(c), tokenize_from(s, j)),
        }
    } else {
        let e = bare_end(s, i);
        cons_tok(Tok::Bare(s.subrange(i, e)), tokenize_from(s, e))
    }
}

#[via_fn]
proof fn tokenize_from_decreases(s: Seq<char>, i: int) {
    if 0 <= i < s.len() {
        if s[i] == '"' {
            lemma_quoted_scan_bounds(s, i + 1);
        } else if !is_ws(s[i]) && s[i] != '{' && s[i] != '}' && s[i] != '=' {
            lemma_bare_end(s, i);
            assert(bare_end(s, i) > i);
        }
    }
}

/// Prepend a token to a tokenization result.
pub open spec fn cons_tok(t: Tok, rest: Option<Seq<Tok>>) -> Option<Seq<Tok>> {
    match rest {
        None => None,
        Some(ts) => Some(seq![t] + ts),
    }
}

/// Tokens of a whole input.
pub open spec fn spec_tokenize(s: Seq<char>) -> Option<Seq<Tok>> {
    tokenize_from(s, 0)
}

/// Copy a range of a character buffer.
pub fn vec_range(s: &Vec<char>, from: usize, to: usize) -> (r: Vec<char>)
    requires
        from <= to <= s@.len(),
    ensures
        r@ == s@.subrange(from as int, to as int),
{
    let mut r: Vec<char> = Vec::new();
    let mut i: usize = from;
    while i < to
        invariant
            from <= i <= to <= s@.len(),
            r@ =~= s@.subrange(from as int, i as int),
        decreases to - i,
    {
        r.push(s[i]);
        assert(r@ =~= s@.subrange(from as int, i + 1 as int));
        i += 1;
    }
    r
}

/// Scan the inside of a quoted string, `start` standing just after the
/// opening quote. Returns the content and the position after the closing
/// quote, or `Err` when the input ends first.
#[verifier::loop_isolation(false)]
fn scan_quoted(s: &Vec<char>, start: usize) -> (r: Result<(Vec<char>, usize), ()>)
    requires
        start <= s@.len(),
    ensures
        match r {
            Ok((c, j)) => quoted_scan(s@, start as int) == Some((c@, j as int)) && start < j
                <= s@.len(),
            Err(_) => quoted_scan(s@, start as int) is None,
        },
{
    let n = s.len();
    let mut acc: Vec<char> = Vec::new();
    let mut i: usize = start;
    loop
        invariant
            start <= i <= n,
            n == s@.len(),
            quoted_scan(s@, start as int) == (match quoted_scan(s@, i as int) {
                None => None::<(Seq<char>, int)>,
                Some((c, j)) => Some((acc@ + c, j)),
            }),
        decreases n - i,
    {
        if i >= n {
            return Err(());
        }
        let c = s[i];
        if c == '"' {
            proof {
                lemma_quoted_scan_bounds(s@, start as int);
                assert(acc@ + Seq::<char>::empty() =~= acc@);
            }
            return Ok((acc, i + 1));
        }
        if c == '\\' && i + 1 < n && (s[i + 1] == '"' || s[i + 1] == '\\') {
            acc.push(s[i + 1]);
            proof {
                assert forall|cc: Seq<char>| true implies acc@ + cc =~= acc@.subrange(
                    0,
                    acc@.len() - 1,
                ) + (seq![s@[i + 1]] + cc) by {}
            }
            i += 2;
        } else {
            acc.push(c);
            proof {
                assert forall|cc: Seq<char>| true implies acc@ + cc =~= acc@.subrange(
                    0,
                    acc@.len() - 1,
                ) + (seq![s@[i as int]] + cc) by {}
            }
            i += 1;
        }
    }
}

/// Tokenize a whole character buffer; `Err` carries the position of the
/// opening quote of an unterminated string.
#[verifier::loop_isolation(false)]
pub fn tokenize(s: &Vec<char>) -> (r: Result<Vec<Token>, usize>)
    ensures
        match r {
            Ok(ts) => spec_tokenize(s@) == Some(toks_model(ts@)),
            Err(pos) => spec_tokenize(s@) is None && pos <= s@.len(),
        },
{
    let n = s.len();
    let mut acc: Vec<Token> = Vec::new();
    let mut i: usize = 0;
    loop
        invariant
            0 <= i <= n,
            n == s@.len(),
            spec_tokenize(s@) == (match tokenize_from(s@, i as int) {
                None => None::<Seq<Tok>>,
                Some(ts) => Some(toks_model(acc@) + ts),
            }),
        decreases n - i,
    {
        if i >= n {
            proof {
                assert(toks_model(acc@) + Seq::<Tok>::empty() =~= toks_model(acc@));
            }
            return Ok(acc);
        }
        let c = s[i];
        if c == ' ' || c == '\t' || c == '\n' || c == '\r' {
            i += 1;
        } else if c == '{' {
            acc.push(Token { kind: TokenKind::Open, pos: i });
            proof {
                lemma_model_push(acc@, Tok::Open);
            }
            i += 1;
        } else if c == '}' {
            acc.push(Token { kind: TokenKind::Close, pos: i });
            proof {
                lemma_model_push(acc@, Tok::Close);
            }
            i += 1;
        } else if c == '=' {
            acc.push(Token { kind: TokenKind::Eq, pos: i });
            proof {
                lemma_model_push(acc@, Tok::Eq);
            }
            i += 1;
        } else if c == '"' {
            match scan_quoted(s, i + 1) {
                Ok((content, j)) => {
                    let ghost cm = content@;
                    acc.push(Token { kind: TokenKind::Quoted(content), pos: i });
                    proof {
                        lemma_model_push(acc@, Tok::Quoted(cm));
                    }
                    i = j;
                },
                Err(_) => {
                    return Err(i);
                },
            }
        } else {
            let mut j: usize = i;
            while j < n && !(s[j] == ' ' || s[j] == '\t' || s[j] == '\n' || s[j] == '\r' || s[j]
                == '{' || s[j] == '}' || s[j] == '=' || s[j] == '"')
                invariant
                    i <= j <= n,
                    forall|t: int| i <= t < j ==> !is_delim(s@[t]),
                decreases n - j,
            {
                j += 1;
            }
            proof {
                lemma_bare_end_is(s@, i as int, j as int);
            }
            let content = vec_range(s, i, j);
            let ghost cm = content@;
            acc.push(Token { kind: TokenKind::Bare(content), pos: i });
            proof {
                lemma_model_push(acc@, Tok::Bare(cm));
            }
            i = j;
        }
    }
}

/// Pushing a token pushes its model.
proof fn lemma_model_push(ts: Seq<Token>, t: Tok)
    requires
        ts.len() > 0,
        ts[ts.len() - 1].tm() == t,
    ensures
        toks_model(ts) =~= toks_model(ts.subrange(0, ts.len() - 1)) + seq![t],
        forall|rest: Seq<Tok>| #![all_triggers] toks_model(ts) + rest =~= toks_model(
            ts.subrange(0, ts.len() - 1),
        ) + (seq![t] + rest),
{
    assert(toks_model(ts) =~= toks_model(ts.subrange(0, ts.len() - 1)) + seq![t]);
    assert forall|rest: Seq<Tok>| true implies toks_model(ts) + rest =~= toks_model(
        ts.subrange(0, ts.len() - 1),
    ) + (seq![t] + rest) by {
        assert(toks_model(ts) + rest =~= toks_model(ts.subrange(0, ts.len() - 1)) + (seq![t]
            + rest));
    }
}

} // verus!
