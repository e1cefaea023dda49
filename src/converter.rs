//! Infix to postfix conversion by the shunting-yard algorithm.
//!
//! The conversion is modelled as a machine whose state is an operator stack
//! and an output sequence; each token moves it one `step`, and what is left on
//! the stack is drained onto the output at the end.

use vstd::prelude::*;
use crate::registry::{
    is_close_paren, is_function, is_open_paren, is_operator, operator_info, Associativity,
    Registry,
};
use crate::text::{join, join_tokens, str_eq, token_views};

verus! {

/// Whether the operator `top` on the stack is emitted before the operator
/// `cur` is pushed: a left-associative `cur` yields to equal or higher
/// precedence, a right-associative one to strictly higher precedence only.
pub open spec fn must_yield(cur: Seq<char>, top: Seq<char>) -> bool {
    match (operator_info(cur), operator_info(top)) {
        (Some((ca, cp)), Some((_, tp))) => (ca == Associativity::Left && cp <= tp) || (ca
            == Associativity::Right && cp < tp),
        _ => false,
    }
}

/// Pops to the output every operator on top of the stack that `cur` yields to.
pub open spec fn yield_operators(cur: Seq<char>, stack: Seq<Seq<char>>, out: Seq<Seq<char>>) -> (
    Seq<Seq<char>>,
    Seq<Seq<char>>,
)
    decreases stack.len(),
{
    if stack.len() > 0 && must_yield(cur, stack.last()) {
        yield_operators(cur, stack.drop_last(), out.push(stack.last()))
    } else {
        (stack, out)
    }
}

/// Pops to the output everything above the nearest `(`, drops the `(`, and
/// then emits a function found right below it. `None` when no `(` is left.
pub open spec fn close_group(stack: Seq<Seq<char>>, out: Seq<Seq<char>>) -> Option<
    (Seq<Seq<char>>, Seq<Seq<char>>),
>
    decreases stack.len(),
{
    if stack.len() == 0 {
        None
    } else if is_open_paren(stack.last()) {
        let rest = stack.drop_last();
        if rest.len() > 0 && is_function(rest.last()) {
            Some((rest.drop_last(), out.push(rest.last())))
        } else {
            Some((rest, out))
        }
    } else {
        close_group(stack.drop_last(), out.push(stack.last()))
    }
}

/// One token's effect on the stack and the output.
pub open spec fn step(stack: Seq<Seq<char>>, out: Seq<Seq<char>>, t: Seq<char>) -> Option<
    (Seq<Seq<char>>, Seq<Seq<char>>),
> {
    if is_function(t) || is_open_paren(t) {
        Some((stack.push(t), out))
    } else if is_operator(t) {
        let (s, o) = yield_operators(t, stack, out);
        Some((s.push(t), o))
    } else if is_close_paren(t) {
        close_group(stack, out)
    } else {
        Some((stack, out.push(t)))
    }
}

/// The state after the tokens `ts`, one step each, from `stack` and `out`.
pub open spec fn run(stack: Seq<Seq<char>>, out: Seq<Seq<char>>, ts: Seq<Seq<char>>) -> Option<
    (Seq<Seq<char>>, Seq<Seq<char>>),
>
    decreases ts.len(),
{
    if ts.len() == 0 {
        Some((stack, out))
    } else {
        match step(stack, out, ts[0]) {
            Some((s, o)) => run(s, o, ts.drop_first()),
            None => None,
        }
    }
}

/// The output followed by the stack, top first.
pub open spec fn drain(stack: Seq<Seq<char>>, out: Seq<Seq<char>>) -> Seq<Seq<char>>
    decreases stack.len(),
{
    if stack.len() == 0 {
        out
    } else {
        drain(stack.drop_last(), out.push(stack.last()))
    }
}

/// The postfix form of the infix tokens `ts`; `None` where a `)` finds no `(`.
pub open spec fn postfix(ts: Seq<Seq<char>>) -> Option<Seq<Seq<char>>> {
    match run(seq![], seq![], ts) {
        Some((s, o)) => Some(drain(s, o)),
        None => None,
    }
}

/// `r` is what converting the tokens `ts` gives: their postfix form joined
/// by single spaces, or an error exactly where there is no postfix form.
pub open spec fn converts_to(ts: Seq<Seq<char>>, r: Result<String, String>) -> bool {
    match r {
        Ok(s) => postfix(ts) matches Some(p) && s@ == join_tokens(p),
        Err(_) => postfix(ts) is None,
    }
}

/// Running `a + b` is running `a`, then `b` from where `a` left off.
pub proof fn lemma_run_append(
    stack: Seq<Seq<char>>,
    out: Seq<Seq<char>>,
    a: Seq<Seq<char>>,
    b: Seq<Seq<char>>,
)
    ensures
        run(stack, out, a + b) == match run(stack, out, a) {
            Some((s, o)) => run(s, o, b),
            None => None,
        },
    decreases a.len(),
{
    if a.len() > 0 {
        assert((a + b).drop_first() =~= a.drop_first() + b);
        assert((a + b)[0] == a[0]);
        match step(stack, out, a[0]) {
            Some((s, o)) => lemma_run_append(s, o, a.drop_first(), b),
            None => {},
        }
    } else {
        assert(a + b =~= b);
    }
}

/// Running one more token is one more step.
proof fn lemma_run_push(stack: Seq<Seq<char>>, out: Seq<Seq<char>>, a: Seq<Seq<char>>, t: Seq<char>)
    ensures
        run(stack, out, a.push(t)) == match run(stack, out, a) {
            Some((s, o)) => step(s, o, t),
            None => None,
        },
{
    lemma_run_append(stack, out, a, seq![t]);
    assert(a.push(t) =~= a + seq![t]);
    match run(stack, out, a) {
        Some((s, o)) => {
            assert(seq![t].drop_first() =~= Seq::<Seq<char>>::empty());
            match step(s, o, t) {
                Some((s2, o2)) => {
                    assert(run(s2, o2, Seq::<Seq<char>>::empty()) == Some((s2, o2)));
                },
                None => {},
            }
        },
        None => {},
    }
}

/// Converts infix tokens to postfix order with the fixed operator and
/// function registries.
pub struct ReversePolishNotationConverter<'a> {
    registry: Registry<'a>,
}

impl<'a> ReversePolishNotationConverter<'a> {
    pub closed spec fn wf(&self) -> bool {
        self.registry.wf()
    }

    /// A converter over the six operators and four functions.
    pub fn new() -> (r: Self)
        ensures
            r.wf(),
    {
        ReversePolishNotationConverter { registry: Registry::new() }
    }

    /// The postfix form of `tokens`, its tokens joined by single spaces.
    /// Fails exactly when a `)` finds no `(` on the operator stack.
    pub fn convert(&self, tokens: Vec<&str>) -> (r: Result<String, String>)
        requires
            self.wf(),
        ensures
            converts_to(token_views(tokens@), r),
    {
        let ghost ts = token_views(tokens@);
        let mut stack: Vec<&str> = Vec::new();
        let mut output: Vec<&str> = Vec::new();
        proof {
            reveal_strlit("(");
            reveal_strlit(")");
            assert("("@ =~= seq!['(']);
            assert(")"@ =~= seq![')']);
            assert(ts.take(0) =~= Seq::<Seq<char>>::empty());
        }
        let n = tokens.len();
        let mut i: usize = 0;
        while i < n
            invariant
                self.wf(),
                n == tokens@.len(),
                ts == token_views(tokens@),
                i <= n,
                "("@ == seq!['('],
                ")"@ == seq![')'],
                run(seq![], seq![], ts.take(i as int)) == Some(
                    (token_views(stack@), token_views(output@)),
                ),
            decreases n - i,
        {
            let token = tokens[i];
            assert(token@ == ts[i as int]);
            let ghost s0 = token_views(stack@);
            let ghost o0 = token_views(output@);
            proof {
                lemma_run_push(seq![], seq![], ts.take(i as int), token@);
                assert(ts.take(i as int).push(token@) =~= ts.take(i + 1));
                lemma_run_append(seq![], seq![], ts.take(i + 1), ts.skip(i + 1));
                assert(ts.take(i + 1) + ts.skip(i + 1) =~= ts);
            }
            if self.registry.is_function(token) {
                stack.push(token);
                assert(token_views(stack@) =~= s0.push(token@));
            } else if let Some(cur) = self.registry.operator(token) {
                while stack.len() > 0
                    invariant
                        self.wf(),
                        cur.symbol@ == token@,
                        operator_info(token@) == Some((cur.associativity, cur.precedence as int)),
                        yield_operators(token@, s0, o0) == yield_operators(
                            token@,
                            token_views(stack@),
                            token_views(output@),
                        ),
                    ensures
                        yield_operators(token@, s0, o0) == (
                            token_views(stack@),
                            token_views(output@),
                        ),
                    decreases stack@.len(),
                {
                    let top = stack[stack.len() - 1];
                    let yields = match self.registry.operator(top) {
                        Some(top_op) => (cur.associativity == Associativity::Left
                            && cur.precedence <= top_op.precedence) || (cur.associativity
                            == Associativity::Right && cur.precedence < top_op.precedence),
                        None => false,
                    };
                    assert(token_views(stack@).last() == top@);
                    if !yields {
                        break;
                    }
                    let ghost sv = token_views(stack@);
                    let ghost ov = token_views(output@);
                    let popped = stack.pop().unwrap();
                    output.push(popped);
                    assert(token_views(stack@) =~= sv.drop_last());
                    assert(token_views(output@) =~= ov.push(sv.last()));
                }
                let ghost sv = token_views(stack@);
                stack.push(token);
                assert(token_views(stack@) =~= sv.push(token@));
            } else if str_eq(token, "(") {
                stack.push(token);
                assert(token_views(stack@) =~= s0.push(token@));
            } else if str_eq(token, ")") {
                loop
                    invariant_except_break
                        close_group(s0, o0) == close_group(
                            token_views(stack@),
                            token_views(output@),
                        ),
                    invariant
                        self.wf(),
                        "("@ == seq!['('],
                        ts == token_views(tokens@),
                        close_group(s0, o0) is None ==> postfix(ts) is None,
                    ensures
                        close_group(s0, o0) == Some((token_views(stack@), token_views(output@))),
                    decreases stack@.len(),
                {
                    let ghost sv = token_views(stack@);
                    let ghost ov = token_views(output@);
                    if stack.len() == 0 {
                        return Err("unmatched closing parenthesis".to_string());
                    }
                    let top = stack.pop().unwrap();
                    assert(token_views(stack@) =~= sv.drop_last());
                    if str_eq(top, "(") {
                        if stack.len() > 0 && self.registry.is_function(stack[stack.len() - 1]) {
                            let ghost sv2 = token_views(stack@);
                            let f = stack.pop().unwrap();
                            output.push(f);
                            assert(token_views(stack@) =~= sv2.drop_last());
                            assert(token_views(output@) =~= ov.push(sv2.last()));
                        }
                        break;
                    }
                    output.push(top);
                    assert(token_views(output@) =~= ov.push(sv.last()));
                }
            } else {
                output.push(token);
                assert(token_views(output@) =~= o0.push(token@));
            }
            i = i + 1;
        }
        proof {
            assert(ts.take(n as int) =~= ts);
        }
        let ghost s0 = token_views(stack@);
        let ghost o0 = token_views(output@);
        while stack.len() > 0
            invariant
                drain(s0, o0) == drain(token_views(stack@), token_views(output@)),
            decreases stack@.len(),
        {
            let ghost sv = token_views(stack@);
            let ghost ov = token_views(output@);
            let top = stack.pop().unwrap();
            output.push(top);
            assert(token_views(stack@) =~= sv.drop_last());
            assert(token_views(output@) =~= ov.push(sv.last()));
        }
        Ok(join(&output))
    }
}

} // verus!

verus! {

/// An expression tree over token text: a literal, a binary operator applied
/// to two operands, or a function applied to one argument.
pub enum Expr {
    Literal(Seq<char>),
    Binary(Seq<char>, Box<Expr>, Box<Expr>),
    Call(Seq<char>, Box<Expr>),
}

/// Literals are none of the symbols; operators and functions are registered.
pub open spec fn well_formed(e: Expr) -> bool
    decreases e,
{
    match e {
        Expr::Literal(t) => !is_operator(t) && !is_function(t) && !is_open_paren(t)
            && !is_close_paren(t),
        Expr::Binary(op, l, r) => is_operator(op) && well_formed(*l) && well_formed(*r),
        Expr::Call(f, a) => is_function(f) && well_formed(*a),
    }
}

/// The infix tokens of `e` with every binary application in its own
/// parentheses: `( l op r )` and `f ( a )`.
pub open spec fn parenthesized(e: Expr) -> Seq<Seq<char>>
    decreases e,
{
    match e {
        Expr::Literal(t) => seq![t],
        Expr::Binary(op, l, r) => seq![seq!['(']] + parenthesized(*l) + seq![op] + parenthesized(
            *r,
        ) + seq![seq![')']],
        Expr::Call(f, a) => seq![f, seq!['(']] + parenthesized(*a) + seq![seq![')']],
    }
}

/// The tokens of `e` in postfix order: operands first, then what applies to them.
pub open spec fn postorder(e: Expr) -> Seq<Seq<char>>
    decreases e,
{
    match e {
        Expr::Literal(t) => seq![t],
        Expr::Binary(op, l, r) => postorder(*l) + postorder(*r) + seq![op],
        Expr::Call(f, a) => postorder(*a) + seq![f],
    }
}

/// Running the tokens of a parenthesized expression from any stack whose top
/// is not a function leaves the stack as it was and appends the expression's
/// postorder to the output.
proof fn lemma_run_parenthesized(stack: Seq<Seq<char>>, out: Seq<Seq<char>>, e: Expr)
    requires
        well_formed(e),
        stack.len() == 0 || !is_function(stack.last()),
    ensures
        run(stack, out, parenthesized(e)) == Some((stack, out + postorder(e))),
    decreases e,
{
    let open = seq!['('];
    let close = seq![')'];
    assert(!is_function(open) && !is_operator(open) && !is_close_paren(open));
    assert(!is_function(close) && !is_operator(close) && !is_open_paren(close));
    match e {
        Expr::Literal(t) => {
            assert(run(stack, out.push(t), seq![t].drop_first()) == Some((stack, out.push(t)))) by {
                assert(seq![t].drop_first() =~= Seq::<Seq<char>>::empty());
            }
            assert(out.push(t) =~= out + postorder(e));
        },
        Expr::Binary(op, l, r) => {
            let s1 = stack.push(open);
            let s2 = s1.push(op);
            let o1 = out + postorder(*l);
            let o2 = o1 + postorder(*r);
            assert(!is_function(op));
            assert(!is_open_paren(op) && !is_close_paren(op));
            lemma_run_push(stack, out, Seq::<Seq<char>>::empty(), open);
            assert(Seq::<Seq<char>>::empty().push(open) =~= seq![open]);
            assert(run(stack, out, seq![open]) == Some((s1, out)));
            lemma_run_parenthesized(s1, out, *l);
            lemma_run_append(stack, out, seq![open], parenthesized(*l));
            let a = seq![open] + parenthesized(*l);
            assert(s1.drop_last() =~= stack);
            assert(yield_operators(op, s1, o1) == (s1, o1));
            lemma_run_push(stack, out, a, op);
            assert(run(stack, out, a.push(op)) == Some((s2, o1)));
            lemma_run_parenthesized(s2, o1, *r);
            lemma_run_append(stack, out, a.push(op), parenthesized(*r));
            let b = a.push(op) + parenthesized(*r);
            assert(s2.drop_last() =~= s1);
            assert(close_group(s2, o2) == close_group(s1, o2.push(op)));
            assert(close_group(s1, o2.push(op)) == Some((stack, o2.push(op))));
            lemma_run_push(stack, out, b, close);
            assert(b.push(close) =~= parenthesized(e));
            assert(o2.push(op) =~= out + postorder(e));
        },
        Expr::Call(f, a) => {
            let s1 = stack.push(f);
            let s2 = s1.push(open);
            lemma_run_push(stack, out, Seq::<Seq<char>>::empty(), f);
            assert(Seq::<Seq<char>>::empty().push(f) =~= seq![f]);
            lemma_run_push(stack, out, seq![f], open);
            assert(seq![f].push(open) =~= seq![f, open]);
            assert(run(stack, out, seq![f, open]) == Some((s2, out)));
            lemma_run_parenthesized(s2, out, *a);
            lemma_run_append(stack, out, seq![f, open], parenthesized(*a));
            let b = seq![f, open] + parenthesized(*a);
            let o1 = out + postorder(*a);
            assert(s2.drop_last() =~= s1);
            assert(s1.drop_last() =~= stack);
            assert(close_group(s2, o1) == Some((stack, o1.push(f))));
            lemma_run_push(stack, out, b, close);
            assert(b.push(close) =~= parenthesized(e));
            assert(o1.push(f) =~= out + postorder(e));
        },
    }
}

/// Converting a well-formed, fully parenthesized infix expression succeeds
/// and yields the expression's postfix order, so evaluating the postfix
/// output computes the expression itself.
pub proof fn lemma_postfix_of_parenthesized(e: Expr)
    requires
        well_formed(e),
    ensures
        postfix(parenthesized(e)) == Some(postorder(e)),
{
    lemma_run_parenthesized(seq![], seq![], e);
    assert(Seq::<Seq<char>>::empty() + postorder(e) =~= postorder(e));
}

/// Conversion is a function of the tokens' text alone: two conversions of
/// tokens with the same text both fail or both give the same string.
pub proof fn lemma_convert_deterministic(
    a: Seq<Seq<char>>,
    b: Seq<Seq<char>>,
    ra: Result<String, String>,
    rb: Result<String, String>,
)
    requires
        a == b,
        converts_to(a, ra),
        converts_to(b, rb),
    ensures
        ra is Ok <==> rb is Ok,
        ra matches Ok(sa) ==> rb matches Ok(sb) && sa@ == sb@,
{
}

} // verus!
