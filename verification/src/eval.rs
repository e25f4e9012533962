use vstd::prelude::*;
use crate::dec::{Dec, add_of, dec_wf, div_of, mul_of, rem_of, sub_of};
use crate::token::{Error, Token, no_parens, nums_wf};
use crate::tokenizer::spec_tokenize;
use crate::postfix::spec_to_postfix;

verus! {

/// An admissible outcome of the power step: its operands go through machine
/// floating point, so only well-formedness is known of a successful result.
pub open spec fn pow_outcome(o: Option<Dec>) -> bool {
    o matches Some(c) ==> dec_wf(c)
}

/// The postfix evaluator's value-stack discipline, as a relation between a
/// postfix sequence (from position `i`, with value stack `stack`) and a
/// result `r`. A number is pushed; an operator pops its right then its left
/// operand, failing on underflow; a zero right operand of division or
/// remainder, an overflow, or a failed power conversion is the matching
/// error. Every step but power determines `r` uniquely; the power step admits
/// every well-formed floating-point outcome. Parentheses never reach a
/// well-formed postfix sequence, and no result is related to one.
pub open spec fn eval_from(toks: Seq<Token>, i: nat, stack: Seq<Dec>, r: Result<Dec, Error>) -> bool
    decreases toks.len() - i,
{
    if i >= toks.len() {
        if stack.len() == 0 {
            r == Err::<Dec, Error>(Error::InvalidExpression)
        } else {
            r == Ok::<Dec, Error>(stack.last())
        }
    } else {
        match toks[i as int] {
            Token::Number(d) => eval_from(toks, i + 1, stack.push(d), r),
            Token::LeftParen => false,
            Token::RightParen => false,
            _ => {
                if stack.len() < 2 {
                    r == Err::<Dec, Error>(Error::InvalidExpression)
                } else {
                    let b = stack.last();
                    let a = stack[stack.len() - 2];
                    let rest = stack.drop_last().drop_last();
                    match toks[i as int] {
                        Token::Add => match add_of(a, b) {
                            Some(c) => eval_from(toks, i + 1, rest.push(c), r),
                            None => r == Err::<Dec, Error>(Error::Overflow),
                        },
                        Token::Subtract => match sub_of(a, b) {
                            Some(c) => eval_from(toks, i + 1, rest.push(c), r),
                            None => r == Err::<Dec, Error>(Error::Overflow),
                        },
                        Token::Multiply => match mul_of(a, b) {
                            Some(c) => eval_from(toks, i + 1, rest.push(c), r),
                            None => r == Err::<Dec, Error>(Error::Overflow),
                        },
                        Token::Divide => if b.mant == 0 {
                            r == Err::<Dec, Error>(Error::DivisionByZero)
                        } else {
                            match div_of(a, b) {
                                Some(c) => eval_from(toks, i + 1, rest.push(c), r),
                                None => r == Err::<Dec, Error>(Error::Overflow),
                            }
                        },
                        Token::Modulo => if b.mant == 0 {
                            r == Err::<Dec, Error>(Error::ModuloByZero)
                        } else {
                            match rem_of(a, b) {
                                Some(c) => eval_from(toks, i + 1, rest.push(c), r),
                                None => r == Err::<Dec, Error>(Error::Overflow),
                            }
                        },
                        _ => exists|o: Option<Dec>|
                            pow_outcome(o) && match o {
                                Some(c) => eval_from(toks, i + 1, rest.push(c), r),
                                None => r == Err::<Dec, Error>(Error::PowerConversionFailed),
                            },
                    }
                }
            },
        }
    }
}

/// What evaluating a whole expression may return: the first error of
/// tokenizing or converting, or a result the evaluator's stack discipline
/// relates to the postfix form.
pub open spec fn rel_evaluate(s: Seq<char>, r: Result<Dec, Error>) -> bool {
    match spec_tokenize(s) {
        Err(e) => r == Err::<Dec, Error>(e),
        Ok(toks) => match spec_to_postfix(toks) {
            Err(e) => r == Err::<Dec, Error>(e),
            Ok(p) => eval_from(p, 0, Seq::empty(), r),
        },
    }
}

/// Every result the stack discipline admits from state `(i, stack)` it also
/// admits from the initial state.
spec fn reaches(toks: Seq<Token>, i: nat, stack: Seq<Dec>) -> bool {
    forall|res: Result<Dec, Error>|
        #[trigger] eval_from(toks, i, stack, res) ==> eval_from(toks, 0, Seq::empty(), res)
}

/// Computes the value of a postfix token sequence with a value stack. Only
/// the top of a leftover multi-element stack is returned, as the stack
/// discipline states.
pub fn evaluate_postfix(postfix: Vec<Token>) -> (r: Result<Dec, Error>)
    requires
        nums_wf(postfix@),
        no_parens(postfix@),
    ensures
        eval_from(postfix@, 0, Seq::empty(), r),
        r matches Ok(d) ==> dec_wf(d),
{
    let n = postfix.len();
    let mut stack: Vec<Dec> = Vec::new();
    let mut i: usize = 0;
    while i < n
        invariant
            n == postfix@.len(),
            i <= n,
            nums_wf(postfix@),
            no_parens(postfix@),
            forall|j: int| 0 <= j < stack@.len() ==> dec_wf(#[trigger] stack@[j]),
            reaches(postfix@, i as nat, stack@),
        decreases n - i,
    {
        let t = postfix[i];
        let ghost i0 = i as nat;
        let ghost stack0 = stack@;
        match t {
            Token::Number(d) => {
                proof {
                    assert(reaches(postfix@, i0 + 1, stack0.push(d))) by {
                        assert forall|res: Result<Dec, Error>|
                            #[trigger] eval_from(postfix@, i0 + 1, stack0.push(d), res) implies
                            eval_from(postfix@, 0, Seq::empty(), res) by {
                            assert(eval_from(postfix@, i0, stack0, res) == eval_from(
                                postfix@,
                                i0 + 1,
                                stack0.push(d),
                                res,
                            ));
                            assert(eval_from(postfix@, i0, stack0, res) ==> eval_from(
                                postfix@,
                                0,
                                Seq::empty(),
                                res,
                            ));
                        }
                    }
                }
                stack.push(d);
            },
            Token::LeftParen => {
                proof {
                    assert(false);
                }
                return Err(Error::InvalidExpression);
            },
            Token::RightParen => {
                proof {
                    assert(false);
                }
                return Err(Error::InvalidExpression);
            },
            _ => {
                if stack.len() < 2 {
                    proof {
                        assert(eval_from(postfix@, i0, stack0, Err(Error::InvalidExpression)));
                    }
                    return Err(Error::InvalidExpression);
                }
                let b = stack.pop().unwrap();
                let a = stack.pop().unwrap();
                proof {
                    assert(stack@ =~= stack0.drop_last().drop_last());
                    assert(b == stack0.last());
                    assert(a == stack0[stack0.len() - 2]);
                }
                let ghost rest = stack@;
                let c: Dec;
                match t {
                    Token::Add => {
                        match crate::dec::dec_add(&a, &b) {
                            Some(v) => {
                                c = v;
                            },
                            None => {
                                proof {
                                    assert(eval_from(postfix@, i0, stack0, Err(Error::Overflow)));
                                }
                                return Err(Error::Overflow);
                            },
                        }
                    },
                    Token::Subtract => {
                        match crate::dec::dec_sub(&a, &b) {
                            Some(v) => {
                                c = v;
                            },
                            None => {
                                proof {
                                    assert(eval_from(postfix@, i0, stack0, Err(Error::Overflow)));
                                }
                                return Err(Error::Overflow);
                            },
                        }
                    },
                    Token::Multiply => {
                        match crate::dec::dec_mul(&a, &b) {
                            Some(v) => {
                                c = v;
                            },
                            None => {
                                proof {
                                    assert(eval_from(postfix@, i0, stack0, Err(Error::Overflow)));
                                }
                                return Err(Error::Overflow);
                            },
                        }
                    },
                    Token::Divide => {
                        if b.mant == 0 {
                            proof {
                                assert(eval_from(postfix@, i0, stack0, Err(Error::DivisionByZero)));
                            }
                            return Err(Error::DivisionByZero);
                        }
                        match crate::dec::dec_div(&a, &b) {
                            Some(v) => {
                                c = v;
                            },
                            None => {
                                proof {
                                    assert(eval_from(postfix@, i0, stack0, Err(Error::Overflow)));
                                }
                                return Err(Error::Overflow);
                            },
                        }
                    },
                    Token::Modulo => {
                        if b.mant == 0 {
                            proof {
                                assert(eval_from(postfix@, i0, stack0, Err(Error::ModuloByZero)));
                            }
                            return Err(Error::ModuloByZero);
                        }
                        match crate::dec::dec_rem(&a, &b) {
                            Some(v) => {
                                c = v;
                            },
                            None => {
                                proof {
                                    assert(eval_from(postfix@, i0, stack0, Err(Error::Overflow)));
                                }
                                return Err(Error::Overflow);
                            },
                        }
                    },
                    _ => {
                        match crate::dec::dec_pow(&a, &b) {
                            Some(v) => {
                                c = v;
                            },
                            None => {
                                proof {
                                    assert(pow_outcome(None::<Dec>));
                                    assert(eval_from(
                                        postfix@,
                                        i0,
                                        stack0,
                                        Err(Error::PowerConversionFailed),
                                    ));
                                }
                                return Err(Error::PowerConversionFailed);
                            },
                        }
                    },
                }
                proof {
                    assert(reaches(postfix@, i0 + 1, rest.push(c))) by {
                        assert forall|res: Result<Dec, Error>|
                            #[trigger] eval_from(postfix@, i0 + 1, rest.push(c), res) implies
                            eval_from(postfix@, 0, Seq::empty(), res) by {
                            if postfix@[i0 as int] == Token::Power {
                                assert(pow_outcome(Some(c)));
                                assert(exists|o: Option<Dec>|
                                    pow_outcome(o) && match o {
                                        Some(cc) => eval_from(postfix@, i0 + 1, rest.push(cc), res),
                                        None => res == Err::<Dec, Error>(
                                            Error::PowerConversionFailed,
                                        ),
                                    }) by {
                                    let o = Some(c);
                                    assert(pow_outcome(o) && match o {
                                        Some(cc) => eval_from(postfix@, i0 + 1, rest.push(cc), res),
                                        None => res == Err::<Dec, Error>(
                                            Error::PowerConversionFailed,
                                        ),
                                    });
                                }
                            }
                            assert(eval_from(postfix@, i0, stack0, res));
                            assert(eval_from(postfix@, i0, stack0, res) ==> eval_from(
                                postfix@,
                                0,
                                Seq::empty(),
                                res,
                            ));
                        }
                    }
                }
                stack.push(c);
            },
        }
        i = i + 1;
    }
    if stack.len() == 0 {
        proof {
            assert(eval_from(postfix@, i as nat, stack@, Err(Error::InvalidExpression)));
        }
        Err(Error::InvalidExpression)
    } else {
        let v = stack[stack.len() - 1];
        proof {
            assert(eval_from(postfix@, i as nat, stack@, Ok(v)));
        }
        Ok(v)
    }
}

/// Evaluates a raw infix expression: tokenize, convert to postfix, evaluate.
/// The first failing stage's error is returned unchanged.
pub fn evaluate_expression(expr: &str) -> (r: Result<Dec, Error>)
    ensures
        rel_evaluate(expr@, r),
        r matches Ok(d) ==> dec_wf(d),
{
    let tokens = match crate::tokenizer::tokenize(expr) {
        Ok(v) => v,
        Err(e) => {
            return Err(e);
        },
    };
    let postfix = match crate::postfix::infix_to_postfix(tokens) {
        Ok(v) => v,
        Err(e) => {
            return Err(e);
        },
    };
    evaluate_postfix(postfix)
}

} // verus!
