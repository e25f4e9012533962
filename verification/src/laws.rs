use vstd::prelude::*;
use crate::dec::Dec;
use crate::token::{Error, Token};
use crate::tokenizer::{spec_tokenize, spec_tokenize_from};
use crate::postfix::{pop_higher, pop_to_lparen, spec_drain, spec_shunt_from, spec_to_postfix};
use crate::eval::{eval_from, rel_evaluate};

verus! {

/// The power operator occurs nowhere in `ts`.
pub open spec fn no_power(ts: Seq<Token>) -> bool {
    forall|i: int| 0 <= i < ts.len() ==> #[trigger] ts[i] != Token::Power
}

proof fn lemma_pop_to_lparen_no_power(st: Seq<Token>, out: Seq<Token>)
    requires
        no_power(st),
        no_power(out),
    ensures
        no_power(pop_to_lparen(st, out).0),
        no_power(pop_to_lparen(st, out).1),
    decreases st.len(),
{
    if st.len() == 0 {
    } else {
        assert(no_power(st.drop_last())) by {
            assert forall|i: int| 0 <= i < st.drop_last().len() implies #[trigger] st.drop_last()[i]
                != Token::Power by {
                assert(st.drop_last()[i] == st[i]);
            }
        }
        if st.last() == Token::LeftParen {
        } else {
            assert(no_power(out.push(st.last()))) by {
                assert forall|i: int| 0 <= i < out.push(st.last()).len() implies #[trigger] out.push(
                    st.last(),
                )[i] != Token::Power by {
                    if i < out.len() {
                        assert(out.push(st.last())[i] == out[i]);
                    }
                }
            }
            lemma_pop_to_lparen_no_power(st.drop_last(), out.push(st.last()));
        }
    }
}

proof fn lemma_pop_higher_no_power(st: Seq<Token>, out: Seq<Token>, p: u8)
    requires
        no_power(st),
        no_power(out),
    ensures
        no_power(pop_higher(st, out, p).0),
        no_power(pop_higher(st, out, p).1),
    decreases st.len(),
{
    if st.len() == 0 {
    } else if st.last() == Token::LeftParen || p > crate::token::spec_precedence(st.last()) {
    } else {
        assert(no_power(st.drop_last())) by {
            assert forall|i: int| 0 <= i < st.drop_last().len() implies #[trigger] st.drop_last()[i]
                != Token::Power by {
                assert(st.drop_last()[i] == st[i]);
            }
        }
        assert(no_power(out.push(st.last()))) by {
            assert forall|i: int| 0 <= i < out.push(st.last()).len() implies #[trigger] out.push(
                st.last(),
            )[i] != Token::Power by {
                if i < out.len() {
                    assert(out.push(st.last())[i] == out[i]);
                }
            }
        }
        lemma_pop_higher_no_power(st.drop_last(), out.push(st.last()), p);
    }
}

proof fn lemma_drain_no_power(st: Seq<Token>, out: Seq<Token>)
    requires
        no_power(st),
        no_power(out),
    ensures
        spec_drain(st, out) matches Ok(o) ==> no_power(o),
    decreases st.len(),
{
    if st.len() == 0 {
    } else if st.last() == Token::LeftParen {
    } else {
        assert(no_power(st.drop_last())) by {
            assert forall|i: int| 0 <= i < st.drop_last().len() implies #[trigger] st.drop_last()[i]
                != Token::Power by {
                assert(st.drop_last()[i] == st[i]);
            }
        }
        assert(no_power(out.push(st.last()))) by {
            assert forall|i: int| 0 <= i < out.push(st.last()).len() implies #[trigger] out.push(
                st.last(),
            )[i] != Token::Power by {
                if i < out.len() {
                    assert(out.push(st.last())[i] == out[i]);
                }
            }
        }
        lemma_drain_no_power(st.drop_last(), out.push(st.last()));
    }
}

proof fn lemma_shunt_no_power(toks: Seq<Token>, i: nat, out: Seq<Token>, st: Seq<Token>)
    requires
        i <= toks.len(),
        no_power(toks),
        no_power(out),
        no_power(st),
    ensures
        spec_shunt_from(toks, i, out, st) matches Ok(o) ==> no_power(o),
    decreases toks.len() - i,
{
    if i >= toks.len() {
        lemma_drain_no_power(st, out);
    } else {
        let t = toks[i as int];
        assert(t != Token::Power);
        match t {
            Token::Number(_) => {
                assert(no_power(out.push(t))) by {
                    assert forall|j: int| 0 <= j < out.push(t).len() implies #[trigger] out.push(
                        t,
                    )[j] != Token::Power by {
                        if j < out.len() {
                            assert(out.push(t)[j] == out[j]);
                        }
                    }
                }
                lemma_shunt_no_power(toks, i + 1, out.push(t), st);
            },
            Token::LeftParen => {
                assert(no_power(st.push(Token::LeftParen))) by {
                    assert forall|j: int| 0 <= j < st.push(Token::LeftParen).len() implies
                        #[trigger] st.push(Token::LeftParen)[j] != Token::Power by {
                        if j < st.len() {
                            assert(st.push(Token::LeftParen)[j] == st[j]);
                        }
                    }
                }
                lemma_shunt_no_power(toks, i + 1, out, st.push(Token::LeftParen));
            },
            Token::RightParen => {
                lemma_pop_to_lparen_no_power(st, out);
                lemma_shunt_no_power(toks, i + 1, pop_to_lparen(st, out).1, pop_to_lparen(st, out).0);
            },
            _ => {
                let p = crate::token::spec_precedence(t);
                lemma_pop_higher_no_power(st, out, p);
                let st2 = pop_higher(st, out, p).0;
                assert(no_power(st2.push(t))) by {
                    assert forall|j: int| 0 <= j < st2.push(t).len() implies #[trigger] st2.push(
                        t,
                    )[j] != Token::Power by {
                        if j < st2.len() {
                            assert(st2.push(t)[j] == st2[j]);
                        }
                    }
                }
                lemma_shunt_no_power(toks, i + 1, pop_higher(st, out, p).1, st2.push(t));
            },
        }
    }
}

proof fn lemma_eval_from_deterministic(
    toks: Seq<Token>,
    i: nat,
    stack: Seq<Dec>,
    r1: Result<Dec, Error>,
    r2: Result<Dec, Error>,
)
    requires
        i <= toks.len(),
        no_power(toks),
        eval_from(toks, i, stack, r1),
        eval_from(toks, i, stack, r2),
    ensures
        r1 == r2,
    decreases toks.len() - i,
{
    if i >= toks.len() {
    } else {
        let t = toks[i as int];
        assert(t != Token::Power);
        match t {
            Token::Number(d) => {
                lemma_eval_from_deterministic(toks, i + 1, stack.push(d), r1, r2);
            },
            Token::LeftParen => {
                assert(false);
            },
            Token::RightParen => {
                assert(false);
            },
            _ => {
                if stack.len() < 2 {
                } else {
                    let b = stack.last();
                    let a = stack[stack.len() - 2];
                    let rest = stack.drop_last().drop_last();
                    match t {
                        Token::Add => match crate::dec::add_of(a, b) {
                            Some(c) => {
                                lemma_eval_from_deterministic(toks, i + 1, rest.push(c), r1, r2);
                            },
                            None => {},
                        },
                        Token::Subtract => match crate::dec::sub_of(a, b) {
                            Some(c) => {
                                lemma_eval_from_deterministic(toks, i + 1, rest.push(c), r1, r2);
                            },
                            None => {},
                        },
                        Token::Multiply => match crate::dec::mul_of(a, b) {
                            Some(c) => {
                                lemma_eval_from_deterministic(toks, i + 1, rest.push(c), r1, r2);
                            },
                            None => {},
                        },
                        Token::Divide => if b.mant == 0 {
                        } else {
                            match crate::dec::div_of(a, b) {
                                Some(c) => {
                                    lemma_eval_from_deterministic(toks, i + 1, rest.push(c), r1, r2);
                                },
                                None => {},
                            }
                        },
                        Token::Modulo => if b.mant == 0 {
                        } else {
                            match crate::dec::rem_of(a, b) {
                                Some(c) => {
                                    lemma_eval_from_deterministic(toks, i + 1, rest.push(c), r1, r2);
                                },
                                None => {},
                            }
                        },
                        _ => {
                            assert(false);
                        },
                    }
                }
            },
        }
    }
}

/// A binary operator token: not a number and not a parenthesis.
pub open spec fn is_operator(t: Token) -> bool {
    &&& !(t matches Token::Number(_))
    &&& t != Token::LeftParen
    &&& t != Token::RightParen
}

/// Law: equal-precedence chains associate to the left, the power operator
/// included. For any two operators of equal precedence, `a o1 b o2 c`
/// converts to the postfix form that applies `o1` first.
pub proof fn lemma_equal_precedence_left_associative(a: Dec, b: Dec, c: Dec, o1: Token, o2: Token)
    requires
        is_operator(o1),
        is_operator(o2),
        crate::token::spec_precedence(o1) == crate::token::spec_precedence(o2),
    ensures
        spec_to_postfix(
            seq![Token::Number(a), o1, Token::Number(b), o2, Token::Number(c)],
        ) == Ok::<Seq<Token>, Error>(
            seq![Token::Number(a), Token::Number(b), o1, Token::Number(c), o2],
        ),
{
    let toks = seq![Token::Number(a), o1, Token::Number(b), o2, Token::Number(c)];
    let p = crate::token::spec_precedence(o1);
    let out1 = Seq::<Token>::empty().push(Token::Number(a));
    let st1 = Seq::<Token>::empty().push(o1);
    let out2 = out1.push(Token::Number(b));
    let out3 = out2.push(o1);
    let st3 = Seq::<Token>::empty().push(o2);
    let out4 = out3.push(Token::Number(c));
    assert(spec_shunt_from(toks, 0, Seq::empty(), Seq::empty()) == spec_shunt_from(
        toks,
        1,
        out1,
        Seq::empty(),
    ));
    assert(pop_higher(Seq::empty(), out1, p) == (Seq::<Token>::empty(), out1));
    assert(spec_shunt_from(toks, 1, out1, Seq::empty()) == spec_shunt_from(toks, 2, out1, st1));
    assert(spec_shunt_from(toks, 2, out1, st1) == spec_shunt_from(toks, 3, out2, st1));
    assert(st1.last() == o1 && st1.drop_last() =~= Seq::<Token>::empty());
    assert(pop_higher(st1, out2, p) == pop_higher(Seq::<Token>::empty(), out3, p));
    assert(pop_higher(st1, out2, p) == (Seq::<Token>::empty(), out3));
    assert(spec_shunt_from(toks, 3, out2, st1) == spec_shunt_from(toks, 4, out3, st3));
    assert(spec_shunt_from(toks, 4, out3, st3) == spec_shunt_from(toks, 5, out4, st3));
    assert(st3.last() == o2 && st3.drop_last() =~= Seq::<Token>::empty());
    assert(spec_drain(st3, out4) == spec_drain(Seq::<Token>::empty(), out4.push(o2)));
    assert(spec_shunt_from(toks, 5, out4, st3) == Ok::<Seq<Token>, Error>(out4.push(o2)));
    assert(out4.push(o2) =~= seq![
        Token::Number(a),
        Token::Number(b),
        o1,
        Token::Number(c),
        o2,
    ]);
}

/// Law: a tighter-binding operator on the right is applied first. For
/// operators with the precedence of `o2` strictly above that of `o1`,
/// `a o1 b o2 c` converts to the postfix form that applies `o2` first.
pub proof fn lemma_higher_precedence_binds_tighter(a: Dec, b: Dec, c: Dec, o1: Token, o2: Token)
    requires
        is_operator(o1),
        is_operator(o2),
        crate::token::spec_precedence(o2) > crate::token::spec_precedence(o1),
    ensures
        spec_to_postfix(
            seq![Token::Number(a), o1, Token::Number(b), o2, Token::Number(c)],
        ) == Ok::<Seq<Token>, Error>(
            seq![Token::Number(a), Token::Number(b), Token::Number(c), o2, o1],
        ),
{
    let toks = seq![Token::Number(a), o1, Token::Number(b), o2, Token::Number(c)];
    let p1 = crate::token::spec_precedence(o1);
    let p2 = crate::token::spec_precedence(o2);
    let out1 = Seq::<Token>::empty().push(Token::Number(a));
    let st1 = Seq::<Token>::empty().push(o1);
    let out2 = out1.push(Token::Number(b));
    let st2 = st1.push(o2);
    let out3 = out2.push(Token::Number(c));
    assert(spec_shunt_from(toks, 0, Seq::empty(), Seq::empty()) == spec_shunt_from(
        toks,
        1,
        out1,
        Seq::empty(),
    ));
    assert(pop_higher(Seq::empty(), out1, p1) == (Seq::<Token>::empty(), out1));
    assert(spec_shunt_from(toks, 1, out1, Seq::empty()) == spec_shunt_from(toks, 2, out1, st1));
    assert(spec_shunt_from(toks, 2, out1, st1) == spec_shunt_from(toks, 3, out2, st1));
    assert(st1.last() == o1);
    assert(pop_higher(st1, out2, p2) == (st1, out2));
    assert(spec_shunt_from(toks, 3, out2, st1) == spec_shunt_from(toks, 4, out2, st2));
    assert(spec_shunt_from(toks, 4, out2, st2) == spec_shunt_from(toks, 5, out3, st2));
    assert(st2.last() == o2 && st2.drop_last() =~= st1);
    assert(spec_drain(st2, out3) == spec_drain(st1, out3.push(o2)));
    assert(st1.drop_last() =~= Seq::<Token>::empty());
    assert(spec_drain(st1, out3.push(o2)) == spec_drain(
        Seq::<Token>::empty(),
        out3.push(o2).push(o1),
    ));
    assert(spec_shunt_from(toks, 5, out3, st2) == Ok::<Seq<Token>, Error>(out3.push(o2).push(o1)));
    assert(out3.push(o2).push(o1) =~= seq![
        Token::Number(a),
        Token::Number(b),
        Token::Number(c),
        o2,
        o1,
    ]);
}

/// The ASCII glyph of a parenthesis character: the CJK fullwidth brackets
/// map to `(` and `)`, every other character stands.
pub open spec fn ascii_bracket(c: char) -> char {
    if c == '\u{FF08}' {
        '('
    } else if c == '\u{FF09}' {
        ')'
    } else {
        c
    }
}

/// `s` with every CJK bracket replaced by its ASCII glyph.
pub open spec fn normalize_brackets(s: Seq<char>) -> Seq<char> {
    s.map_values(|c: char| ascii_bracket(c))
}

proof fn lemma_tokenize_from_brackets(s: Seq<char>, i: nat, acc: Seq<char>, out: Seq<Token>)
    requires
        i <= s.len(),
    ensures
        spec_tokenize_from(normalize_brackets(s), i, acc, out) == spec_tokenize_from(
            s,
            i,
            acc,
            out,
        ),
    decreases s.len() - i,
{
    let t = normalize_brackets(s);
    assert(t.len() == s.len());
    if i < s.len() {
        let c = s[i as int];
        let c2 = t[i as int];
        assert(c2 == ascii_bracket(c));
        if crate::dec::is_digit(c) || c == '.' {
            assert(c2 == c);
            lemma_tokenize_from_brackets(s, i + 1, acc.push(c), out);
        } else if crate::tokenizer::is_op_char(c) {
            assert(crate::tokenizer::is_op_char(c2));
            assert(crate::tokenizer::op_token(c2) == crate::tokenizer::op_token(c));
            match crate::tokenizer::spec_flush(acc, out) {
                Err(_) => {},
                Ok(out2) => {
                    if c == '*' && i + 1 < s.len() && s[i as int + 1] == '*' {
                        assert(c2 == '*' && t[i as int + 1] == '*');
                        lemma_tokenize_from_brackets(
                            s,
                            i + 2,
                            Seq::empty(),
                            out2.push(Token::Power),
                        );
                    } else {
                        if i + 1 < s.len() {
                            assert(t[i as int + 1] == ascii_bracket(s[i as int + 1]));
                            assert(t[i as int + 1] == '*' ==> s[i as int + 1] == '*');
                        }
                        assert(!(c2 == '*' && i + 1 < t.len() && t[i as int + 1] == '*'));
                        lemma_tokenize_from_brackets(
                            s,
                            i + 1,
                            Seq::empty(),
                            out2.push(crate::tokenizer::op_token(c)),
                        );
                    }
                },
            }
        } else if crate::tokenizer::is_ws(c) {
            assert(c2 == c);
            lemma_tokenize_from_brackets(s, i + 1, acc, out);
        } else {
            assert(c2 == c);
        }
    }
}

/// Law: CJK and ASCII brackets are interchangeable. Replacing every CJK
/// bracket of an expression by its ASCII glyph changes neither its token
/// sequence nor what evaluating it may return.
pub proof fn lemma_brackets_interchangeable(s: Seq<char>, r: Result<Dec, Error>)
    ensures
        spec_tokenize(normalize_brackets(s)) == spec_tokenize(s),
        rel_evaluate(normalize_brackets(s), r) == rel_evaluate(s, r),
{
    lemma_tokenize_from_brackets(s, 0, Seq::empty(), Seq::empty());
}

/// Law: evaluation has no hidden state. Every step of the pipeline is a
/// function of the expression alone, except the power operator, whose value
/// goes through machine floating point; so for an expression whose tokens
/// hold no power operator, any two results the pipeline admits are equal, and
/// evaluating the same text twice yields identical results.
pub proof fn lemma_evaluate_deterministic(
    s: Seq<char>,
    r1: Result<Dec, Error>,
    r2: Result<Dec, Error>,
)
    requires
        rel_evaluate(s, r1),
        rel_evaluate(s, r2),
        spec_tokenize(s) matches Ok(t) ==> no_power(t),
    ensures
        r1 == r2,
{
    match spec_tokenize(s) {
        Err(_) => {},
        Ok(t) => {
            match spec_to_postfix(t) {
                Err(_) => {},
                Ok(p) => {
                    assert(no_power(Seq::<Token>::empty()));
                    lemma_shunt_no_power(t, 0, Seq::empty(), Seq::empty());
                    lemma_eval_from_deterministic(p, 0, Seq::empty(), r1, r2);
                },
            }
        },
    }
}

} // verus!
