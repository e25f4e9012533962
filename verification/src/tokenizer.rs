use vstd::prelude::*;
use crate::dec::{dec_of_digits, is_digit};
use crate::token::{Error, Token, nums_wf};

verus! {

/// Whitespace is skipped with no token emitted.
pub open spec fn is_ws(c: char) -> bool {
    c == ' ' || c == '\t' || c == '\n' || c == '\r'
}

/// The characters that end a numeric literal and stand for an operator or a
/// parenthesis; both ASCII parentheses and their CJK glyphs are recognized.
pub open spec fn is_op_char(c: char) -> bool {
    c == '+' || c == '-' || c == '*' || c == '/' || c == '%' || c == '(' || c == ')' || c
        == '\u{FF08}' || c == '\u{FF09}'
}

/// The token a single operator or parenthesis character stands for.
pub open spec fn op_token(c: char) -> Token {
    if c == '+' {
        Token::Add
    } else if c == '-' {
        Token::Subtract
    } else if c == '*' {
        Token::Multiply
    } else if c == '/' {
        Token::Divide
    } else if c == '%' {
        Token::Modulo
    } else if c == '(' || c == '\u{FF08}' {
        Token::LeftParen
    } else {
        Token::RightParen
    }
}

/// Flushing the literal accumulator: an empty accumulator emits nothing; a
/// non-empty one is parsed and emitted as a number, or rejects the input.
pub open spec fn spec_flush(acc: Seq<char>, out: Seq<Token>) -> Result<Seq<Token>, Error> {
    if acc.len() == 0 {
        Ok(out)
    } else {
        match dec_of_digits(acc) {
            Some(d) => Ok(out.push(Token::Number(d))),
            None => Err(Error::InvalidNumber),
        }
    }
}

/// The tokens of `s` from position `i` on, given the pending literal `acc`
/// and the tokens `out` already emitted. Digits and decimal points extend the
/// literal; an operator character first flushes it, and a `*` directly
/// followed by a second `*` is one power token; whitespace is skipped; any
/// other character is rejected, named in the error.
pub open spec fn spec_tokenize_from(
    s: Seq<char>,
    i: nat,
    acc: Seq<char>,
    out: Seq<Token>,
) -> Result<Seq<Token>, Error>
    decreases s.len() - i,
{
    if i >= s.len() {
        spec_flush(acc, out)
    } else {
        let c = s[i as int];
        if is_digit(c) || c == '.' {
            spec_tokenize_from(s, i + 1, acc.push(c), out)
        } else if is_op_char(c) {
            match spec_flush(acc, out) {
                Err(e) => Err(e),
                Ok(out2) => if c == '*' && i + 1 < s.len() && s[i as int + 1] == '*' {
                    spec_tokenize_from(s, i + 2, Seq::empty(), out2.push(Token::Power))
                } else {
                    spec_tokenize_from(s, i + 1, Seq::empty(), out2.push(op_token(c)))
                },
            }
        } else if is_ws(c) {
            spec_tokenize_from(s, i + 1, acc, out)
        } else {
            Err(Error::UnknownCharacter(c))
        }
    }
}

/// The token sequence of `s`, or the first error met scanning it.
pub open spec fn spec_tokenize(s: Seq<char>) -> Result<Seq<Token>, Error> {
    spec_tokenize_from(s, 0, Seq::empty(), Seq::empty())
}

/// Converts a raw expression into its token sequence, scanning left to right.
pub fn tokenize(expr: &str) -> (r: Result<Vec<Token>, Error>)
    ensures
        (r matches Ok(v) ==> spec_tokenize(expr@) == Ok::<Seq<Token>, Error>(v@)),
        (r matches Err(e) ==> spec_tokenize(expr@) == Err::<Seq<Token>, Error>(e)),
        (r matches Ok(v) ==> nums_wf(v@)),
{
    let len = expr.unicode_len();
    let mut i: usize = 0;
    let mut acc: Vec<char> = Vec::new();
    let mut out: Vec<Token> = Vec::new();
    while i < len
        invariant
            len == expr@.len(),
            i <= len,
            spec_tokenize_from(expr@, i as nat, acc@, out@) == spec_tokenize(expr@),
            forall|j: int| 0 <= j < acc@.len() ==> is_digit(#[trigger] acc@[j]) || acc@[j] == '.',
            nums_wf(out@),
        decreases len - i,
    {
        let c = expr.get_char(i);
        if ('0' <= c && c <= '9') || c == '.' {
            proof {
                assert(is_digit(c) || c == '.');
                assert(spec_tokenize_from(expr@, i as nat, acc@, out@) == spec_tokenize_from(
                    expr@,
                    i as nat + 1,
                    acc@.push(c),
                    out@,
                ));
            }
            acc.push(c);
            i = i + 1;
        } else if c == '+' || c == '-' || c == '*' || c == '/' || c == '%' || c == '(' || c == ')'
            || c == '\u{FF08}' || c == '\u{FF09}' {
            proof {
                assert(is_op_char(c));
            }
            let ghost i0 = i as nat;
            let ghost acc0 = acc@;
            let ghost out0 = out@;
            if acc.len() > 0 {
                match crate::dec::dec_parse(&acc) {
                    Some(d) => {
                        out.push(Token::Number(d));
                        acc = Vec::new();
                    },
                    None => {
                        proof {
                            assert(spec_tokenize_from(expr@, i as nat, acc@, out@)
                                == Err::<Seq<Token>, Error>(Error::InvalidNumber));
                        }
                        return Err(Error::InvalidNumber);
                    },
                }
            }
            proof {
                assert(acc@ =~= Seq::<char>::empty());
                assert(spec_flush(acc0, out0) == Ok::<Seq<Token>, Error>(out@));
            }
            if c == '*' && i + 1 < len && expr.get_char(i + 1) == '*' {
                proof {
                    assert(spec_tokenize_from(expr@, i0, acc0, out0) == spec_tokenize_from(
                        expr@,
                        i0 + 2,
                        Seq::empty(),
                        out@.push(Token::Power),
                    ));
                }
                out.push(Token::Power);
                i = i + 2;
            } else {
                let t = if c == '+' {
                    Token::Add
                } else if c == '-' {
                    Token::Subtract
                } else if c == '*' {
                    Token::Multiply
                } else if c == '/' {
                    Token::Divide
                } else if c == '%' {
                    Token::Modulo
                } else if c == '(' || c == '\u{FF08}' {
                    Token::LeftParen
                } else {
                    Token::RightParen
                };
                proof {
                    assert(t == op_token(c));
                    assert(spec_tokenize_from(expr@, i0, acc0, out0) == spec_tokenize_from(
                        expr@,
                        i0 + 1,
                        Seq::empty(),
                        out@.push(t),
                    ));
                }
                out.push(t);
                i = i + 1;
            }
        } else if c == ' ' || c == '\t' || c == '\n' || c == '\r' {
            proof {
                assert(is_ws(c));
                assert(spec_tokenize_from(expr@, i as nat, acc@, out@) == spec_tokenize_from(
                    expr@,
                    i as nat + 1,
                    acc@,
                    out@,
                ));
            }
            i = i + 1;
        } else {
            proof {
                assert(spec_tokenize_from(expr@, i as nat, acc@, out@) == Err::<
                    Seq<Token>,
                    Error,
                >(Error::UnknownCharacter(c)));
            }
            return Err(Error::UnknownCharacter(c));
        }
    }
    proof {
        assert(spec_tokenize_from(expr@, i as nat, acc@, out@) == spec_flush(acc@, out@));
    }
    if acc.len() > 0 {
        match crate::dec::dec_parse(&acc) {
            Some(d) => {
                out.push(Token::Number(d));
            },
            None => {
                return Err(Error::InvalidNumber);
            },
        }
    }
    Ok(out)
}

} // verus!
