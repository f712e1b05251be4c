//! The tokenizer: a single left-to-right scan of one line that classifies
//! string contents (keys and values), structural punctuation, and bare
//! literals, unescaping `\"` inline and dropping whitespace outside strings.

use crate::text::{is_ws, spec_trim, str_chars, trim_chars, ws_char};
use vstd::prelude::*;

verus! {

/// The semantic classification of a token, used to select its display color.
#[derive(Clone, Copy, Debug, PartialEq, Eq, Structural)]
pub enum TokenRole {
    /// String contents in key position.
    Key,
    /// String contents in value position.
    StringValue,
    /// A bare token: number, boolean, null, or a malformed bareword.
    Literal,
    /// A single structural character: one of `{ } [ ] : ,`.
    Punctuation,
}

/// One token of a line: its text (with escapes already resolved and string
/// delimiters dropped) and its role.
#[derive(Clone, Debug)]
pub struct Token {
    pub text: Vec<char>,
    pub role: TokenRole,
}

/// The mathematical value of a [`Token`].
pub struct TokenV {
    pub text: Seq<char>,
    pub role: TokenRole,
}

impl View for Token {
    type V = TokenV;

    open spec fn view(&self) -> TokenV {
        TokenV { text: self.text@, role: self.role }
    }
}

/// The values of a token vector.
pub open spec fn tokens_view(ts: Seq<Token>) -> Seq<TokenV> {
    ts.map_values(|t: Token| t@)
}

/// Is `c` one of the six structural characters?
pub open spec fn is_structural(c: char) -> bool {
    c == '{' || c == '}' || c == '[' || c == ']' || c == ':' || c == ','
}

/// The tokenizer's scan state: tokens emitted so far, the growing buffer, the
/// string and key-position flags, and the previous character (for escapes).
pub struct TokSt {
    pub tokens: Seq<TokenV>,
    pub buf: Seq<char>,
    pub in_string: bool,
    pub is_key: bool,
    pub prev: char,
}

/// The scan starts outside any string, in key position.
pub open spec fn tok_init() -> TokSt {
    TokSt { tokens: Seq::empty(), buf: Seq::empty(), in_string: false, is_key: true, prev: '\0' }
}

/// Emit the buffer as a bare literal, if it is not empty.
pub open spec fn flushed(tokens: Seq<TokenV>, buf: Seq<char>) -> Seq<TokenV> {
    if buf.len() > 0 {
        tokens.push(TokenV { text: buf, role: TokenRole::Literal })
    } else {
        tokens
    }
}

/// One step of the scan on character `c`.
pub open spec fn tok_step(st: TokSt, c: char) -> TokSt {
    if c == '"' {
        if st.in_string && st.prev != '\\' {
            // An unescaped quote closes the string.
            TokSt {
                tokens: st.tokens.push(
                    TokenV {
                        text: st.buf,
                        role: if st.is_key {
                            TokenRole::Key
                        } else {
                            TokenRole::StringValue
                        },
                    },
                ),
                buf: Seq::empty(),
                in_string: false,
                is_key: st.is_key,
                prev: c,
            }
        } else if !st.in_string {
            // A quote opens a string; any pending bare token ends first.
            TokSt {
                tokens: flushed(st.tokens, st.buf),
                buf: Seq::empty(),
                in_string: true,
                is_key: st.is_key,
                prev: c,
            }
        } else {
            // An escaped quote: the backslash in the buffer becomes a quote.
            TokSt {
                tokens: st.tokens,
                buf: if st.buf.len() > 0 {
                    st.buf.drop_last().push('"')
                } else {
                    seq!['"']
                },
                in_string: true,
                is_key: st.is_key,
                prev: c,
            }
        }
    } else if st.in_string {
        TokSt { tokens: st.tokens, buf: st.buf.push(c), in_string: true, is_key: st.is_key, prev: c }
    } else if is_structural(c) {
        TokSt {
            tokens: flushed(st.tokens, st.buf).push(TokenV { text: seq![c], role: TokenRole::Punctuation }),
            buf: Seq::empty(),
            in_string: false,
            is_key: if c == ',' || c == '{' || c == '[' {
                true
            } else if c == ':' {
                false
            } else {
                st.is_key
            },
            prev: c,
        }
    } else if is_ws(c) {
        TokSt {
            tokens: flushed(st.tokens, st.buf),
            buf: Seq::empty(),
            in_string: false,
            is_key: st.is_key,
            prev: c,
        }
    } else {
        TokSt { tokens: st.tokens, buf: st.buf.push(c), in_string: false, is_key: st.is_key, prev: c }
    }
}

/// The scan state after the first `n` characters of `s`.
pub open spec fn tok_upto(s: Seq<char>, n: int) -> TokSt
    decreases n,
{
    if n <= 0 {
        tok_init()
    } else {
        tok_step(tok_upto(s, n - 1), s[n - 1])
    }
}

/// The tokens of one already-trimmed line: the full scan, with any remaining
/// buffer emitted as a final bare literal.
pub open spec fn spec_tokenize(s: Seq<char>) -> Seq<TokenV> {
    let st = tok_upto(s, s.len() as int);
    flushed(st.tokens, st.buf)
}

/// In any reachable scan state, a pending escape means the buffer holds the
/// backslash that was scanned just before.
proof fn lemma_tok_escape_buf(s: Seq<char>, n: int)
    requires
        0 <= n <= s.len(),
    ensures
        tok_upto(s, n).in_string && tok_upto(s, n).prev == '\\' ==> tok_upto(s, n).buf.len() > 0,
    decreases n,
{
    if n > 0 {
        lemma_tok_escape_buf(s, n - 1);
    }
}

/// Tokenize one already-trimmed line of characters.
pub fn tokenize_chars(t: &Vec<char>) -> (r: Vec<Token>)
    ensures
        tokens_view(r@) == spec_tokenize(t@),
{
    let n = t.len();
    let mut tokens: Vec<Token> = Vec::new();
    let mut buf: Vec<char> = Vec::new();
    let mut in_string: bool = false;
    let mut is_key: bool = true;
    let mut prev: char = '\0';
    let mut i: usize = 0;
    while i < n
        invariant
            i <= n,
            n == t@.len(),
            tokens_view(tokens@) == tok_upto(t@, i as int).tokens,
            buf@ == tok_upto(t@, i as int).buf,
            in_string == tok_upto(t@, i as int).in_string,
            is_key == tok_upto(t@, i as int).is_key,
            prev == tok_upto(t@, i as int).prev,
        decreases n - i,
    {
        let ghost st = tok_upto(t@, i as int);
        let ghost next = tok_step(st, t@[i as int]);
        proof {
            assert(tok_upto(t@, i + 1) == next);
        }
        let c = t[i];
        if c == '"' {
            if in_string && prev != '\\' {
                let role = if is_key {
                    TokenRole::Key
                } else {
                    TokenRole::StringValue
                };
                let text = buf;
                buf = Vec::new();
                tokens.push(Token { text, role });
                in_string = false;
                proof {
                    assert(tokens_view(tokens@) =~= next.tokens);
                }
            } else if !in_string {
                if buf.len() > 0 {
                    let text = buf;
                    buf = Vec::new();
                    tokens.push(Token { text, role: TokenRole::Literal });
                }
                in_string = true;
                proof {
                    assert(tokens_view(tokens@) =~= next.tokens);
                }
            } else {
                proof {
                    lemma_tok_escape_buf(t@, i as int);
                }
                buf.pop();
                buf.push('"');
                proof {
                    assert(buf@ =~= next.buf);
                }
            }
        } else if in_string {
            buf.push(c);
        } else if c == '{' || c == '}' || c == '[' || c == ']' || c == ':' || c == ',' {
            if buf.len() > 0 {
                let text = buf;
                buf = Vec::new();
                tokens.push(Token { text, role: TokenRole::Literal });
            }
            let mut tc: Vec<char> = Vec::new();
            tc.push(c);
            tokens.push(Token { text: tc, role: TokenRole::Punctuation });
            if c == ',' || c == '{' || c == '[' {
                is_key = true;
            } else if c == ':' {
                is_key = false;
            }
            proof {
                assert(tokens_view(tokens@) =~= next.tokens);
            }
        } else if ws_char(c) {
            if buf.len() > 0 {
                let text = buf;
                buf = Vec::new();
                tokens.push(Token { text, role: TokenRole::Literal });
            }
            proof {
                assert(tokens_view(tokens@) =~= next.tokens);
            }
        } else {
            buf.push(c);
        }
        prev = c;
        i += 1;
    }
    if buf.len() > 0 {
        let text = buf;
        tokens.push(Token { text, role: TokenRole::Literal });
    }
    proof {
        assert(tokens_view(tokens@) =~= spec_tokenize(t@));
    }
    tokens
}

/// The token texts of a line, concatenated in order.
pub open spec fn concat_texts(ts: Seq<TokenV>) -> Seq<char>
    decreases ts.len(),
{
    if ts.len() == 0 {
        Seq::empty()
    } else {
        concat_texts(ts.drop_last()) + ts.last().text
    }
}

proof fn lemma_concat_push(ts: Seq<TokenV>, t: TokenV)
    ensures
        concat_texts(ts.push(t)) == concat_texts(ts) + t.text,
{
    assert(ts.push(t).drop_last() =~= ts);
    assert(ts.push(t).last() == t);
}

/// The state of a reference scan that keeps no token boundaries: only the
/// meaningful characters of the line, in order.
pub struct PlainSt {
    pub out: Seq<char>,
    pub in_string: bool,
    pub prev: char,
}

/// The reference scan starts outside any string.
pub open spec fn plain_init() -> PlainSt {
    PlainSt { out: Seq::empty(), in_string: false, prev: '\0' }
}

/// One step of the reference scan: string delimiters and whitespace outside
/// strings are dropped, an escaped quote resolves to a quote, and every other
/// character is kept.
pub open spec fn plain_step(st: PlainSt, c: char) -> PlainSt {
    if c == '"' {
        if st.in_string && st.prev != '\\' {
            PlainSt { out: st.out, in_string: false, prev: c }
        } else if !st.in_string {
            PlainSt { out: st.out, in_string: true, prev: c }
        } else {
            PlainSt {
                out: if st.out.len() > 0 {
                    st.out.drop_last().push('"')
                } else {
                    seq!['"']
                },
                in_string: true,
                prev: c,
            }
        }
    } else if st.in_string {
        PlainSt { out: st.out.push(c), in_string: true, prev: c }
    } else if is_ws(c) {
        PlainSt { out: st.out, in_string: false, prev: c }
    } else {
        PlainSt { out: st.out.push(c), in_string: false, prev: c }
    }
}

/// The reference scan state after the first `n` characters of `s`.
pub open spec fn plain_upto(s: Seq<char>, n: int) -> PlainSt
    decreases n,
{
    if n <= 0 {
        plain_init()
    } else {
        plain_step(plain_upto(s, n - 1), s[n - 1])
    }
}

/// A line's meaningful content: its characters with whitespace outside
/// strings and string delimiters dropped and escaped quotes resolved.
pub open spec fn spec_meaningful(s: Seq<char>) -> Seq<char> {
    plain_upto(s, s.len() as int).out
}

proof fn lemma_tok_plain(s: Seq<char>, n: int)
    requires
        0 <= n <= s.len(),
    ensures
        ({
            let t = tok_upto(s, n);
            let p = plain_upto(s, n);
            &&& concat_texts(t.tokens) + t.buf == p.out
            &&& t.in_string == p.in_string
            &&& t.prev == p.prev
        }),
    decreases n,
{
    if n == 0 {
        assert(concat_texts(tok_init().tokens) + tok_init().buf =~= plain_init().out);
    } else {
        lemma_tok_plain(s, n - 1);
        lemma_tok_escape_buf(s, n - 1);
        let t = tok_upto(s, n - 1);
        let p = plain_upto(s, n - 1);
        let c = s[n - 1];
        let ca = concat_texts(t.tokens);
        if c == '"' {
            if t.in_string && t.prev != '\\' {
                lemma_concat_push(
                    t.tokens,
                    TokenV {
                        text: t.buf,
                        role: if t.is_key {
                            TokenRole::Key
                        } else {
                            TokenRole::StringValue
                        },
                    },
                );
                assert((ca + t.buf) + Seq::<char>::empty() =~= ca + t.buf);
            } else if !t.in_string {
                if t.buf.len() > 0 {
                    lemma_concat_push(t.tokens, TokenV { text: t.buf, role: TokenRole::Literal });
                }
                assert((ca + t.buf) + Seq::<char>::empty() =~= ca + t.buf);
                assert(ca + Seq::<char>::empty() =~= ca);
            } else {
                // Escaped quote: the backslash is the last buffer character,
                // which is also the last character of the reference output.
                assert(t.buf.len() > 0);
                assert(ca + t.buf.drop_last().push('"') =~= (ca + t.buf).drop_last().push('"'));
            }
        } else if t.in_string {
            assert(ca + t.buf.push(c) =~= (ca + t.buf).push(c));
        } else if is_structural(c) {
            if t.buf.len() > 0 {
                lemma_concat_push(t.tokens, TokenV { text: t.buf, role: TokenRole::Literal });
            }
            lemma_concat_push(flushed(t.tokens, t.buf), TokenV { text: seq![c], role: TokenRole::Punctuation });
            assert(concat_texts(flushed(t.tokens, t.buf)) + seq![c] + Seq::<char>::empty() =~= (ca
                + t.buf).push(c));
        } else if is_ws(c) {
            if t.buf.len() > 0 {
                lemma_concat_push(t.tokens, TokenV { text: t.buf, role: TokenRole::Literal });
            }
            assert(concat_texts(flushed(t.tokens, t.buf)) + Seq::<char>::empty() =~= ca + t.buf);
        } else {
            assert(ca + t.buf.push(c) =~= (ca + t.buf).push(c));
        }
    }
}

/// Token reconstruction: concatenating a line's token texts, in order, yields
/// exactly the line's meaningful content — whitespace outside strings and
/// string delimiters dropped, escaped quotes resolved, everything else kept.
pub proof fn lemma_token_reconstruction(line: Seq<char>)
    ensures
        concat_texts(spec_tokenize(line)) == spec_meaningful(line),
{
    lemma_tok_plain(line, line.len() as int);
    let t = tok_upto(line, line.len() as int);
    if t.buf.len() > 0 {
        lemma_concat_push(t.tokens, TokenV { text: t.buf, role: TokenRole::Literal });
    } else {
        assert(concat_texts(t.tokens) + t.buf =~= concat_texts(t.tokens));
    }
}

/// Tokenize one line of text: the line is trimmed, then scanned.
pub fn tokenize_line(line: &str) -> (r: Vec<Token>)
    ensures
        tokens_view(r@) == spec_tokenize(spec_trim(line@)),
{
    let chars = str_chars(line);
    let trimmed = trim_chars(&chars);
    tokenize_chars(&trimmed)
}

} // verus!
