//! Text helpers on token strings: equality, joining and splitting on spaces.

use vstd::prelude::*;
use vstd::string::StrSliceExecFns;
use vstd::string::StringExecFns;

verus! {

/// Whether two strings hold the same characters.
pub fn str_eq(a: &str, b: &str) -> (r: bool)
    ensures
        r == (a@ == b@),
{
    let n = a.unicode_len();
    let m = b.unicode_len();
    if n != m {
        return false;
    }
    let mut i: usize = 0;
    while i < n
        invariant
            n == a@.len(),
            m == b@.len(),
            n == m,
            i <= n,
            forall|j: int| 0 <= j < i ==> a@[j] == b@[j],
        decreases n - i,
    {
        if a.get_char(i) != b.get_char(i) {
            return false;
        }
        i = i + 1;
    }
    assert(a@ =~= b@);
    true
}

} // verus!

verus! {

/// The characters of each token.
pub open spec fn token_views(v: Seq<&str>) -> Seq<Seq<char>> {
    v.map_values(|t: &str| t@)
}

/// The tokens written one after another, a single space between neighbours.
pub open spec fn join_tokens(ts: Seq<Seq<char>>) -> Seq<char>
    decreases ts.len(),
{
    if ts.len() == 0 {
        seq![]
    } else if ts.len() == 1 {
        ts[0]
    } else {
        join_tokens(ts.drop_last()) + seq![' '] + ts.last()
    }
}

/// Joins the tokens with single spaces.
pub fn join(tokens: &Vec<&str>) -> (r: String)
    ensures
        r@ == join_tokens(token_views(tokens@)),
{
    let ghost ts = token_views(tokens@);
    let mut r = String::new();
    let mut i: usize = 0;
    proof {
        reveal_strlit(" ");
        assert(ts.take(0) =~= Seq::<Seq<char>>::empty());
    }
    while i < tokens.len()
        invariant
            ts == token_views(tokens@),
            i <= tokens@.len(),
            " "@ == seq![' '],
            r@ == join_tokens(ts.take(i as int)),
        decreases tokens@.len() - i,
    {
        if i > 0 {
            r.append(" ");
        }
        r.append(tokens[i]);
        assert(ts.take(i + 1).drop_last() =~= ts.take(i as int));
        if i == 0 {
            assert(r@ =~= ts.take(1)[0]);
        } else {
            assert(r@ =~= join_tokens(ts.take(i as int)) + seq![' '] + ts[i as int]);
        }
        i = i + 1;
    }
    assert(ts.take(tokens@.len() as int) =~= ts);
    r
}

} // verus!

verus! {

/// The pieces of `s` between single spaces; a string with no space is one
/// piece, and two spaces in a row leave an empty piece between them.
pub open spec fn fields(s: Seq<char>) -> Seq<Seq<char>>
    decreases s.len(),
{
    if s.len() == 0 {
        seq![seq![]]
    } else if s.last() == ' ' {
        fields(s.drop_last()).push(seq![])
    } else {
        let p = fields(s.drop_last());
        p.update(p.len() - 1, p.last().push(s.last()))
    }
}

pub proof fn lemma_fields_nonempty(s: Seq<char>)
    ensures
        fields(s).len() >= 1,
    decreases s.len(),
{
    if s.len() > 0 {
        lemma_fields_nonempty(s.drop_last());
    }
}

/// The tokens of a space-separated expression: none for the empty string,
/// else its `fields`.
pub open spec fn split_spaces(s: Seq<char>) -> Seq<Seq<char>> {
    if s.len() == 0 {
        seq![]
    } else {
        fields(s)
    }
}

/// Splits `s` at every single space.
pub fn split_spaces_exec(s: &str) -> (r: Vec<&str>)
    ensures
        token_views(r@) == split_spaces(s@),
{
    let n = s.unicode_len();
    let mut r: Vec<&str> = Vec::new();
    if n == 0 {
        assert(token_views(r@) =~= split_spaces(s@));
        return r;
    }
    let mut start: usize = 0;
    let mut i: usize = 0;
    assert(s@.take(0) =~= Seq::<char>::empty());
    while i < n
        invariant
            n == s@.len(),
            start <= i <= n,
            fields(s@.take(i as int)) == token_views(r@).push(s@.subrange(start as int, i as int)),
        decreases n - i,
    {
        let c = s.get_char(i);
        let ghost prev = s@.take(i as int);
        assert(s@.take(i + 1).drop_last() =~= prev);
        assert(s@.take(i + 1).last() == c);
        if c == ' ' {
            let piece = s.substring_char(start, i);
            let ghost rv = token_views(r@);
            r.push(piece);
            assert(token_views(r@) =~= rv.push(piece@));
            start = i + 1;
            assert(s@.subrange(start as int, i + 1) =~= Seq::<char>::empty());
            assert(fields(s@.take(i + 1)) =~= token_views(r@).push(s@.subrange(start as int, i + 1)));
        } else {
            assert(s@.subrange(start as int, i + 1) =~= s@.subrange(start as int, i as int).push(c));
            assert(fields(s@.take(i + 1)) =~= token_views(r@).push(s@.subrange(start as int, i + 1)));
        }
        i = i + 1;
    }
    let piece = s.substring_char(start, n);
    let ghost rv = token_views(r@);
    r.push(piece);
    assert(token_views(r@) =~= rv.push(piece@));
    assert(s@.take(n as int) =~= s@);
    r
}

} // verus!
