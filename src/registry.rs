//! The fixed operator and function registries.

use vstd::prelude::*;
use crate::text::str_eq;

verus! {

/// How operators of equal precedence group.
#[derive(PartialEq, Eq, Structural, Clone, Copy, Debug)]
pub enum Associativity {
    Left,
    Right,
}

/// A binary infix operator: its symbol, associativity and precedence
/// (higher binds tighter).
pub struct Operator<'a> {
    pub symbol: &'a str,
    pub associativity: Associativity,
    pub precedence: i8,
}

/// A unary prefix function, known by its symbol alone.
pub struct Function<'a> {
    pub symbol: &'a str,
}

/// Associativity and precedence of the operator written `t`, if `t` is one.
pub open spec fn operator_info(t: Seq<char>) -> Option<(Associativity, int)> {
    if t.len() != 1 {
        None
    } else if t[0] == '+' {
        Some((Associativity::Left, 0))
    } else if t[0] == '-' {
        Some((Associativity::Right, 0))
    } else if t[0] == '/' {
        Some((Associativity::Left, 5))
    } else if t[0] == '*' {
        Some((Associativity::Left, 5))
    } else if t[0] == '%' {
        Some((Associativity::Left, 5))
    } else if t[0] == '^' {
        Some((Associativity::Right, 10))
    } else {
        None
    }
}

pub open spec fn is_operator(t: Seq<char>) -> bool {
    operator_info(t) is Some
}

pub open spec fn is_function(t: Seq<char>) -> bool {
    t == seq!['s', 'i', 'n'] || t == seq!['c', 'o', 's'] || t == seq!['t', 'a', 'n']
        || t == seq!['c', 'o', 't', 'a', 'n']
}

pub open spec fn is_open_paren(t: Seq<char>) -> bool {
    t == seq!['(']
}

pub open spec fn is_close_paren(t: Seq<char>) -> bool {
    t == seq![')']
}

/// The registries hold exactly the fixed operators and functions.
pub struct Registry<'a> {
    pub operators: Vec<Operator<'a>>,
    pub functions: Vec<Function<'a>>,
}

impl<'a> Registry<'a> {
    pub open spec fn wf(&self) -> bool {
        &&& forall|i: int|
            0 <= i < self.operators@.len() ==> operator_info(#[trigger] self.operators@[i].symbol@)
                == Some((self.operators@[i].associativity, self.operators@[i].precedence as int))
        &&& forall|t: Seq<char>|
            #[trigger] is_operator(t) ==> exists|i: int|
                0 <= i < self.operators@.len() && #[trigger] self.operators@[i].symbol@ == t
        &&& forall|i: int|
            0 <= i < self.functions@.len() ==> is_function(#[trigger] self.functions@[i].symbol@)
        &&& forall|t: Seq<char>|
            #[trigger] is_function(t) ==> exists|i: int|
                0 <= i < self.functions@.len() && #[trigger] self.functions@[i].symbol@ == t
    }

    /// Builds the registries of the six operators and four functions.
    pub fn new() -> (r: Registry<'static>)
        ensures
            r.wf(),
    {
        let mut operators: Vec<Operator<'static>> = Vec::new();
        operators.push(Operator { symbol: "+", associativity: Associativity::Left, precedence: 0 });
        operators.push(Operator { symbol: "-", associativity: Associativity::Right, precedence: 0 });
        operators.push(Operator { symbol: "/", associativity: Associativity::Left, precedence: 5 });
        operators.push(Operator { symbol: "*", associativity: Associativity::Left, precedence: 5 });
        operators.push(Operator { symbol: "%", associativity: Associativity::Left, precedence: 5 });
        operators.push(Operator { symbol: "^", associativity: Associativity::Right, precedence: 10 });
        let mut functions: Vec<Function<'static>> = Vec::new();
        functions.push(Function { symbol: "sin" });
        functions.push(Function { symbol: "cos" });
        functions.push(Function { symbol: "tan" });
        functions.push(Function { symbol: "cotan" });
        proof {
            reveal_strlit("+");
            reveal_strlit("-");
            reveal_strlit("/");
            reveal_strlit("*");
            reveal_strlit("%");
            reveal_strlit("^");
            reveal_strlit("sin");
            reveal_strlit("cos");
            reveal_strlit("tan");
            reveal_strlit("cotan");
            assert("+"@ =~= seq!['+']);
            assert("-"@ =~= seq!['-']);
            assert("/"@ =~= seq!['/']);
            assert("*"@ =~= seq!['*']);
            assert("%"@ =~= seq!['%']);
            assert("^"@ =~= seq!['^']);
            assert("sin"@ =~= seq!['s', 'i', 'n']);
            assert("cos"@ =~= seq!['c', 'o', 's']);
            assert("tan"@ =~= seq!['t', 'a', 'n']);
            assert("cotan"@ =~= seq!['c', 'o', 't', 'a', 'n']);
        }
        let r = Registry { operators, functions };
        assert forall|t: Seq<char>| #[trigger] is_operator(t) implies exists|i: int|
            0 <= i < r.operators@.len() && #[trigger] r.operators@[i].symbol@ == t by {
            if t[0] == '+' {
                assert(r.operators@[0].symbol@ =~= t);
            } else if t[0] == '-' {
                assert(r.operators@[1].symbol@ =~= t);
            } else if t[0] == '/' {
                assert(r.operators@[2].symbol@ =~= t);
            } else if t[0] == '*' {
                assert(r.operators@[3].symbol@ =~= t);
            } else if t[0] == '%' {
                assert(r.operators@[4].symbol@ =~= t);
            } else {
                assert(r.operators@[5].symbol@ =~= t);
            }
        }
        assert forall|t: Seq<char>| #[trigger] is_function(t) implies exists|i: int|
            0 <= i < r.functions@.len() && #[trigger] r.functions@[i].symbol@ == t by {
            if t == seq!['s', 'i', 'n'] {
                assert(r.functions@[0].symbol@ == t);
            } else if t == seq!['c', 'o', 's'] {
                assert(r.functions@[1].symbol@ == t);
            } else if t == seq!['t', 'a', 'n'] {
                assert(r.functions@[2].symbol@ == t);
            } else {
                assert(r.functions@[3].symbol@ == t);
            }
        }
        assert forall|i: int| 0 <= i < r.operators@.len() implies operator_info(
            #[trigger] r.operators@[i].symbol@,
        ) == Some((r.operators@[i].associativity, r.operators@[i].precedence as int)) by {
            if i == 0 {
            } else if i == 1 {
            } else if i == 2 {
            } else if i == 3 {
            } else if i == 4 {
            } else {
            }
        }
        assert forall|i: int| 0 <= i < r.functions@.len() implies is_function(
            #[trigger] r.functions@[i].symbol@,
        ) by {
            if i == 0 {
            } else if i == 1 {
            } else if i == 2 {
            } else {
            }
        }
        r
    }

    /// Looks up the operator written `t`.
    pub fn operator(&self, t: &str) -> (r: Option<&Operator<'a>>)
        requires
            self.wf(),
        ensures
            r is None <==> !is_operator(t@),
            r matches Some(op) ==> op.symbol@ == t@ && operator_info(t@) == Some(
                (op.associativity, op.precedence as int),
            ),
    {
        let mut i: usize = 0;
        while i < self.operators.len()
            invariant
                self.wf(),
                i <= self.operators@.len(),
                forall|j: int| 0 <= j < i ==> self.operators@[j].symbol@ != t@,
            decreases self.operators@.len() - i,
        {
            if str_eq(self.operators[i].symbol, t) {
                return Some(&self.operators[i]);
            }
            i = i + 1;
        }
        proof {
            if is_operator(t@) {
                let k = choose|k: int| 0 <= k < self.operators@.len() && self.operators@[k].symbol@ == t@;
            }
        }
        None
    }

    /// Whether `t` is the symbol of a registered function.
    pub fn is_function(&self, t: &str) -> (r: bool)
        requires
            self.wf(),
        ensures
            r == is_function(t@),
    {
        let mut i: usize = 0;
        while i < self.functions.len()
            invariant
                self.wf(),
                i <= self.functions@.len(),
                forall|j: int| 0 <= j < i ==> self.functions@[j].symbol@ != t@,
            decreases self.functions@.len() - i,
        {
            if str_eq(self.functions[i].symbol, t) {
                return true;
            }
            i = i + 1;
        }
        proof {
            if is_function(t@) {
                let k = choose|k: int| 0 <= k < self.functions@.len() && self.functions@[k].symbol@ == t@;
            }
        }
        false
    }
}

} // verus!
