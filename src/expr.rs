//! The expression tree and its mathematical model.
use vstd::prelude::*;

verus! {

/// The mathematical model of an expression: a finite tree whose leaves are
/// symbol names.
pub enum Prop {
    Sym(Seq<char>),
    Not(Box<Prop>),
    And(Box<Prop>, Box<Prop>),
    Or(Box<Prop>, Box<Prop>),
}

/// A propositional formula.
#[derive(Debug, Hash)]
pub enum Expr {
    Not(Box<Expr>),
    And(Box<Expr>, Box<Expr>),
    Or(Box<Expr>, Box<Expr>),
    Sym(String),
}

impl View for Expr {
    type V = Prop;

    open spec fn view(&self) -> Prop
        decreases self,
    {
        match self {
            Expr::Sym(s) => Prop::Sym(s@),
            Expr::Not(e) => Prop::Not(Box::new((**e).view())),
            Expr::And(l, r) => Prop::And(Box::new((**l).view()), Box::new((**r).view())),
            Expr::Or(l, r) => Prop::Or(Box::new((**l).view()), Box::new((**r).view())),
        }
    }
}

/// Two formulas agree at their top node: same connective, and the same name
/// when both are symbols. Children are not compared.
pub open spec fn shallow_same(a: Prop, b: Prop) -> bool {
    match (a, b) {
        (Prop::Sym(x), Prop::Sym(y)) => x == y,
        (Prop::Not(_), Prop::Not(_)) => true,
        (Prop::And(_, _), Prop::And(_, _)) => true,
        (Prop::Or(_, _), Prop::Or(_, _)) => true,
        _ => false,
    }
}

/// The number of nodes of a formula.
pub open spec fn size(p: Prop) -> nat
    decreases p,
{
    match p {
        Prop::Sym(_) => 1,
        Prop::Not(e) => 1 + size(*e),
        Prop::And(l, r) => 1 + size(*l) + size(*r),
        Prop::Or(l, r) => 1 + size(*l) + size(*r),
    }
}

/// The human-readable rendering of a formula.
pub open spec fn text(p: Prop) -> Seq<char>
    decreases p,
{
    match p {
        Prop::Sym(n) => n,
        Prop::Not(e) => "¬"@ + text(*e),
        Prop::And(l, r) => "("@ + text(*l) + " ∧ "@ + text(*r) + ")"@,
        Prop::Or(l, r) => "("@ + text(*l) + " ∨ "@ + text(*r) + ")"@,
    }
}

impl Clone for Expr {
    /// A deep copy.
    fn clone(&self) -> (r: Self)
        ensures
            r@ == self@,
        decreases self,
    {
        match self {
            Expr::Sym(s) => Expr::Sym(s.clone()),
            Expr::Not(e) => Expr::Not(Box::new((**e).clone())),
            Expr::And(l, r) => Expr::And(Box::new((**l).clone()), Box::new((**r).clone())),
            Expr::Or(l, r) => Expr::Or(Box::new((**l).clone()), Box::new((**r).clone())),
        }
    }
}

impl PartialEq for Expr {
    /// Structural equality: equal at every node, names and child order included.
    fn eq(&self, o: &Expr) -> (r: bool)
        decreases self,
    {
        match (self, o) {
            (Expr::Sym(a), Expr::Sym(b)) => *a == *b,
            (Expr::Not(a), Expr::Not(b)) => (**a).eq(&**b),
            (Expr::And(al, ar), Expr::And(bl, br)) => (**al).eq(&**bl) && (**ar).eq(&**br),
            (Expr::Or(al, ar), Expr::Or(bl, br)) => (**al).eq(&**bl) && (**ar).eq(&**br),
            _ => false,
        }
    }
}

impl vstd::std_specs::cmp::PartialEqSpecImpl for Expr {
    open spec fn obeys_eq_spec() -> bool {
        true
    }

    open spec fn eq_spec(&self, o: &Expr) -> bool {
        self@ == o@
    }
}

impl Expr {
    /// Compares the top nodes only.
    pub fn shallow_eq(&self, rhs: &Expr) -> (r: bool)
        ensures
            r == shallow_same(self@, rhs@),
    {
        match (self, rhs) {
            (Expr::Sym(a), Expr::Sym(b)) => *a == *b,
            (Expr::Not(_), Expr::Not(_)) => true,
            (Expr::And(_, _), Expr::And(_, _)) => true,
            (Expr::Or(_, _), Expr::Or(_, _)) => true,
            _ => false,
        }
    }

    /// Renders the formula: a symbol as its name, a negation as `¬` before its
    /// operand, a conjunction or disjunction as `(l ∧ r)` or `(l ∨ r)`.
    pub fn to_text(&self) -> (r: String)
        ensures
            r@ == text(self@),
        decreases self,
    {
        match self {
            Expr::Sym(s) => s.clone(),
            Expr::Not(e) => {
                let mut out = String::from_str("¬");
                let inner = (**e).to_text();
                out.append(inner.as_str());
                out
            },
            Expr::And(l, r) => {
                let mut out = String::from_str("(");
                let a = (**l).to_text();
                let b = (**r).to_text();
                out.append(a.as_str());
                out.append(" ∧ ");
                out.append(b.as_str());
                out.append(")");
                out
            },
            Expr::Or(l, r) => {
                let mut out = String::from_str("(");
                let a = (**l).to_text();
                let b = (**r).to_text();
                out.append(a.as_str());
                out.append(" ∨ ");
                out.append(b.as_str());
                out.append(")");
                out
            },
        }
    }
}

} // verus!
