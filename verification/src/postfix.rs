use vstd::prelude::*;
use crate::token::{Error, Token, no_parens, nums_wf, spec_precedence};

verus! {

/// The operator stack never holds numbers or right parentheses: only binary
/// operators and pending left parentheses.
pub open spec fn stack_ok(st: Seq<Token>) -> bool {
    forall|i: int|
        0 <= i < st.len() ==> #[trigger] st[i] != Token::RightParen && !(st[i]
            matches Token::Number(_))
}

/// Popping for a right parenthesis: operators move to the output until a left
/// parenthesis is popped (and discarded) or the stack is exhausted; the new
/// stack and output are returned.
pub open spec fn pop_to_lparen(st: Seq<Token>, out: Seq<Token>) -> (Seq<Token>, Seq<Token>)
    decreases st.len(),
{
    if st.len() == 0 {
        (st, out)
    } else if st.last() == Token::LeftParen {
        (st.drop_last(), out)
    } else {
        pop_to_lparen(st.drop_last(), out.push(st.last()))
    }
}

/// Popping for an incoming operator of precedence `p`: operators of
/// precedence at least `p` move to the output; a left parenthesis or an
/// operator binding less tightly stops the popping.
pub open spec fn pop_higher(st: Seq<Token>, out: Seq<Token>, p: u8) -> (Seq<Token>, Seq<Token>)
    decreases st.len(),
{
    if st.len() == 0 {
        (st, out)
    } else if st.last() == Token::LeftParen || p > spec_precedence(st.last()) {
        (st, out)
    } else {
        pop_higher(st.drop_last(), out.push(st.last()), p)
    }
}

/// Draining the stack once the input is consumed: a remaining left
/// parenthesis was never closed and rejects the expression.
pub open spec fn spec_drain(st: Seq<Token>, out: Seq<Token>) -> Result<Seq<Token>, Error>
    decreases st.len(),
{
    if st.len() == 0 {
        Ok(out)
    } else if st.last() == Token::LeftParen {
        Err(Error::UnmatchedParentheses)
    } else {
        spec_drain(st.drop_last(), out.push(st.last()))
    }
}

/// One pass of the shunting-yard algorithm over `toks` from position `i`,
/// with output `out` and operator stack `st`.
pub open spec fn spec_shunt_from(
    toks: Seq<Token>,
    i: nat,
    out: Seq<Token>,
    st: Seq<Token>,
) -> Result<Seq<Token>, Error>
    decreases toks.len() - i,
{
    if i >= toks.len() {
        spec_drain(st, out)
    } else {
        match toks[i as int] {
            Token::Number(_) => spec_shunt_from(toks, i + 1, out.push(toks[i as int]), st),
            Token::LeftParen => spec_shunt_from(toks, i + 1, out, st.push(Token::LeftParen)),
            Token::RightParen => spec_shunt_from(
                toks,
                i + 1,
                pop_to_lparen(st, out).1,
                pop_to_lparen(st, out).0,
            ),
            _ => spec_shunt_from(
                toks,
                i + 1,
                pop_higher(st, out, spec_precedence(toks[i as int])).1,
                pop_higher(st, out, spec_precedence(toks[i as int])).0.push(toks[i as int]),
            ),
        }
    }
}

/// The postfix form of `toks`, or the error met converting it.
pub open spec fn spec_to_postfix(toks: Seq<Token>) -> Result<Seq<Token>, Error> {
    spec_shunt_from(toks, 0, Seq::empty(), Seq::empty())
}

/// Converts an infix token sequence to postfix by the shunting-yard
/// algorithm; equal precedences associate to the left, power included.
pub fn infix_to_postfix(infix: Vec<Token>) -> (r: Result<Vec<Token>, Error>)
    ensures
        (r matches Ok(v) ==> spec_to_postfix(infix@) == Ok::<Seq<Token>, Error>(v@)),
        (r matches Err(e) ==> spec_to_postfix(infix@) == Err::<Seq<Token>, Error>(e)),
        (r matches Ok(v) ==> no_parens(v@)),
        nums_wf(infix@) ==> (r matches Ok(v) ==> nums_wf(v@)),
{
    let n = infix.len();
    let mut output: Vec<Token> = Vec::new();
    let mut stack: Vec<Token> = Vec::new();
    let mut idx: usize = 0;
    while idx < n
        invariant
            n == infix@.len(),
            idx <= n,
            spec_shunt_from(infix@, idx as nat, output@, stack@) == spec_to_postfix(infix@),
            no_parens(output@),
            stack_ok(stack@),
            nums_wf(infix@) ==> nums_wf(output@),
        decreases n - idx,
    {
        let t = infix[idx];
        let ghost idx0 = idx as nat;
        let ghost out0 = output@;
        let ghost st0 = stack@;
        match t {
            Token::Number(_) => {
                proof {
                    assert(spec_shunt_from(infix@, idx0, out0, st0) == spec_shunt_from(
                        infix@,
                        idx0 + 1,
                        out0.push(t),
                        st0,
                    ));
                }
                output.push(t);
            },
            Token::LeftParen => {
                proof {
                    assert(spec_shunt_from(infix@, idx0, out0, st0) == spec_shunt_from(
                        infix@,
                        idx0 + 1,
                        out0,
                        st0.push(Token::LeftParen),
                    ));
                }
                stack.push(t);
            },
            Token::RightParen => {
                let mut finished = false;
                while !finished && stack.len() > 0
                    invariant
                        no_parens(output@),
                        stack_ok(stack@),
                        nums_wf(infix@) ==> nums_wf(output@),
                        finished ==> (stack@, output@) == pop_to_lparen(st0, out0),
                        !finished ==> pop_to_lparen(stack@, output@) == pop_to_lparen(st0, out0),
                    decreases stack@.len(), (if finished { 0int } else { 1int }),
                {
                    let ghost stp = stack@;
                    let ghost outp = output@;
                    let top = stack.pop().unwrap();
                    if matches!(top, Token::LeftParen) {
                        proof {
                            assert(pop_to_lparen(stp, outp) == (stack@, output@));
                        }
                        finished = true;
                    } else {
                        proof {
                            assert(pop_to_lparen(stp, outp) == pop_to_lparen(
                                stack@,
                                outp.push(top),
                            ));
                        }
                        output.push(top);
                    }
                }
                proof {
                    assert((stack@, output@) == pop_to_lparen(st0, out0));
                    assert(spec_shunt_from(infix@, idx0, out0, st0) == spec_shunt_from(
                        infix@,
                        idx0 + 1,
                        pop_to_lparen(st0, out0).1,
                        pop_to_lparen(st0, out0).0,
                    ));
                }
            },
            _ => {
                let p = t.precedence();
                let mut blocked = false;
                while !blocked && stack.len() > 0
                    invariant
                        p == spec_precedence(t),
                        no_parens(output@),
                        stack_ok(stack@),
                        nums_wf(infix@) ==> nums_wf(output@),
                        blocked ==> (stack@, output@) == pop_higher(st0, out0, p),
                        !blocked ==> pop_higher(stack@, output@, p) == pop_higher(st0, out0, p),
                    decreases stack@.len(), (if blocked { 0int } else { 1int }),
                {
                    let top = stack[stack.len() - 1];
                    if matches!(top, Token::LeftParen) || p > top.precedence() {
                        proof {
                            assert(pop_higher(stack@, output@, p) == (stack@, output@));
                        }
                        blocked = true;
                    } else {
                        let ghost stp = stack@;
                        let ghost outp = output@;
                        let popped = stack.pop().unwrap();
                        proof {
                            assert(pop_higher(stp, outp, p) == pop_higher(
                                stack@,
                                outp.push(popped),
                                p,
                            ));
                        }
                        output.push(popped);
                    }
                }
                proof {
                    assert((stack@, output@) == pop_higher(st0, out0, p));
                    assert(spec_shunt_from(infix@, idx0, out0, st0) == spec_shunt_from(
                        infix@,
                        idx0 + 1,
                        pop_higher(st0, out0, p).1,
                        pop_higher(st0, out0, p).0.push(t),
                    ));
                }
                stack.push(t);
            },
        }
        idx = idx + 1;
    }
    proof {
        assert(spec_drain(stack@, output@) == spec_to_postfix(infix@));
    }
    let ghost st1 = stack@;
    let ghost out1 = output@;
    while stack.len() > 0
        invariant
            no_parens(output@),
            stack_ok(stack@),
            nums_wf(infix@) ==> nums_wf(output@),
            spec_drain(stack@, output@) == spec_drain(st1, out1),
            spec_drain(st1, out1) == spec_to_postfix(infix@),
        decreases stack@.len(),
    {
        let ghost stp = stack@;
        let ghost outp = output@;
        let op = stack.pop().unwrap();
        if matches!(op, Token::LeftParen) {
            proof {
                assert(spec_drain(stp, outp) == Err::<Seq<Token>, Error>(
                    Error::UnmatchedParentheses,
                ));
            }
            return Err(Error::UnmatchedParentheses);
        }
        proof {
            assert(spec_drain(stp, outp) == spec_drain(stack@, outp.push(op)));
        }
        output.push(op);
    }
    proof {
        assert(spec_to_postfix(infix@) == Ok::<Seq<Token>, Error>(output@));
    }
    Ok(output)
}

} // verus!
