//! How conversion and evaluation fit together: the postfix text that the
//! converter writes for an expression splits back into its tokens, and the
//! evaluator reads them without running the operand stack short, ending with
//! exactly one value.

use vstd::prelude::*;
use crate::converter::{lemma_postfix_of_parenthesized, parenthesized, postfix, postorder, well_formed, Expr};
use crate::evaluator::{binary_operator_of, stack_height, unary_function_of};
use crate::text::{fields, join_tokens, split_spaces};

verus! {

/// A token that survives joining and splitting: not empty, with no space.
pub open spec fn plain_token(t: Seq<char>) -> bool {
    t.len() > 0 && forall|i: int| 0 <= i < t.len() ==> t[i] != ' '
}

pub open spec fn all_plain(ts: Seq<Seq<char>>) -> bool {
    forall|i: int| 0 <= i < ts.len() ==> plain_token(#[trigger] ts[i])
}

/// The evaluator reads `e` as it is meant: its literals are plain and read as
/// operands, its operators and functions are ones the evaluator applies.
pub open spec fn evaluable(e: Expr) -> bool
    decreases e,
{
    match e {
        Expr::Literal(t) => plain_token(t) && binary_operator_of(t) is None && unary_function_of(
            t,
        ) is None,
        Expr::Binary(op, l, r) => binary_operator_of(op) is Some && evaluable(*l) && evaluable(*r),
        Expr::Call(f, a) => unary_function_of(f) is Some && evaluable(*a),
    }
}

proof fn lemma_stack_height_append(h: int, a: Seq<Seq<char>>, b: Seq<Seq<char>>)
    ensures
        stack_height(h, a + b) == match stack_height(h, a) {
            Some(h2) => stack_height(h2, b),
            None => None,
        },
    decreases a.len(),
{
    if a.len() > 0 {
        assert((a + b).drop_first() =~= a.drop_first() + b);
        assert((a + b)[0] == a[0]);
        if binary_operator_of(a[0]) is Some {
            lemma_stack_height_append(h - 1, a.drop_first(), b);
        } else if unary_function_of(a[0]) is Some {
            lemma_stack_height_append(h, a.drop_first(), b);
        } else {
            lemma_stack_height_append(h + 1, a.drop_first(), b);
        }
    } else {
        assert(a + b =~= b);
    }
}

proof fn lemma_stack_height_single(h: int, t: Seq<char>)
    ensures
        stack_height(h, seq![t]) == if binary_operator_of(t) is Some {
            if h < 2 {
                None
            } else {
                Some(h - 1)
            }
        } else if unary_function_of(t) is Some {
            if h < 1 {
                None
            } else {
                Some(h)
            }
        } else {
            Some(h + 1)
        },
{
    let empty = Seq::<Seq<char>>::empty();
    assert(seq![t].drop_first() =~= empty);
    assert(stack_height(h - 1, empty) == Some(h - 1));
    assert(stack_height(h, empty) == Some(h));
    assert(stack_height(h + 1, empty) == Some(h + 1));
}

/// The postorder of an evaluable expression adds exactly one operand to any
/// stack, and all its tokens are plain.
proof fn lemma_postorder_height(h: int, e: Expr)
    requires
        evaluable(e),
        h >= 0,
    ensures
        stack_height(h, postorder(e)) == Some(h + 1),
        all_plain(postorder(e)),
    decreases e,
{
    match e {
        Expr::Literal(t) => {
            lemma_stack_height_single(h, t);
        },
        Expr::Binary(op, l, r) => {
            lemma_postorder_height(h, *l);
            lemma_postorder_height(h + 1, *r);
            lemma_stack_height_append(h, postorder(*l), postorder(*r));
            lemma_stack_height_append(h, postorder(*l) + postorder(*r), seq![op]);
            lemma_stack_height_single(h + 2, op);
            let ts = postorder(e);
            assert forall|i: int| 0 <= i < ts.len() implies plain_token(#[trigger] ts[i]) by {
                if i < postorder(*l).len() {
                    assert(ts[i] == postorder(*l)[i]);
                } else if i < postorder(*l).len() + postorder(*r).len() {
                    assert(ts[i] == postorder(*r)[i - postorder(*l).len()]);
                } else {
                    assert(ts[i] == op);
                }
            }
        },
        Expr::Call(f, a) => {
            lemma_postorder_height(h, *a);
            lemma_stack_height_append(h, postorder(*a), seq![f]);
            lemma_stack_height_single(h + 1, f);
            let ts = postorder(e);
            assert forall|i: int| 0 <= i < ts.len() implies plain_token(#[trigger] ts[i]) by {
                if i < postorder(*a).len() {
                    assert(ts[i] == postorder(*a)[i]);
                } else {
                    assert(ts[i] == f);
                }
            }
        },
    }
}

/// Appending characters other than spaces extends the last field.
proof fn lemma_fields_extend(p: Seq<char>, y: Seq<char>)
    requires
        forall|i: int| 0 <= i < y.len() ==> y[i] != ' ',
    ensures
        fields(p + y) == fields(p).update(fields(p).len() - 1, fields(p).last() + y),
    decreases y.len(),
{
    crate::text::lemma_fields_nonempty(p);
    if y.len() == 0 {
        assert(p + y =~= p);
        assert(fields(p).last() + y =~= fields(p).last());
        assert(fields(p).update(fields(p).len() - 1, fields(p).last()) =~= fields(p));
    } else {
        let y0 = y.drop_last();
        lemma_fields_extend(p, y0);
        assert((p + y).drop_last() =~= p + y0);
        assert((p + y).last() == y.last());
        assert((fields(p).last() + y0).push(y.last()) =~= fields(p).last() + y);
        assert(fields(p + y) =~= fields(p).update(fields(p).len() - 1, fields(p).last() + y));
    }
}

/// Splitting plain tokens joined by single spaces gives them back.
proof fn lemma_fields_join(ts: Seq<Seq<char>>)
    requires
        ts.len() >= 1,
        all_plain(ts),
    ensures
        fields(join_tokens(ts)) == ts,
        join_tokens(ts).len() > 0,
    decreases ts.len(),
{
    let last = ts.last();
    assert(plain_token(ts[ts.len() - 1]));
    if ts.len() == 1 {
        lemma_fields_extend(Seq::<char>::empty(), last);
        assert(Seq::<char>::empty() + last =~= last);
        assert(Seq::<char>::empty() + last =~= last);
        assert(fields(Seq::<char>::empty()).update(0, Seq::<char>::empty() + last) =~= ts);
    } else {
        let init = ts.drop_last();
        assert forall|i: int| 0 <= i < init.len() implies plain_token(#[trigger] init[i]) by {
            assert(init[i] == ts[i]);
        }
        lemma_fields_join(init);
        let j = join_tokens(init) + seq![' '];
        assert(j.drop_last() =~= join_tokens(init));
        assert(fields(j) == init.push(seq![]));
        lemma_fields_extend(j, last);
        assert(Seq::<char>::empty() + last =~= last);
        assert(init.push(seq![]).update(init.len() as int, last) =~= ts);
    }
}

/// Converting a well-formed, fully parenthesized expression that the
/// evaluator can read gives postfix text that splits back into exactly the
/// expression's postfix tokens, and reading them leaves exactly one operand
/// on the stack, never running it short.
pub proof fn lemma_convert_then_evaluate(e: Expr)
    requires
        well_formed(e),
        evaluable(e),
    ensures
        postfix(parenthesized(e)) == Some(postorder(e)),
        split_spaces(join_tokens(postorder(e))) == postorder(e),
        stack_height(0, postorder(e)) == Some(1int),
{
    lemma_postfix_of_parenthesized(e);
    lemma_postorder_height(0, e);
    let ts = postorder(e);
    assert(ts.len() >= 1) by {
        match e {
            Expr::Literal(t) => {},
            Expr::Binary(op, l, r) => {},
            Expr::Call(f, a) => {},
        }
    }
    lemma_fields_join(ts);
}

} // verus!
