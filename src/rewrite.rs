//! Rewriting a formula with every match of a rule.
use vstd::prelude::*;
use crate::expr::{Expr, Prop, text};
use crate::matcher::{records, sites};
use crate::rule::{Match, Rule};

verus! {

/// Why a rule could not be applied.
#[derive(Debug)]
pub enum ApplyError {
    /// The rule's head occurs nowhere in the formula.
    NoMatch(Rule, Expr),
    /// The rule's tail names a symbol that its head never bound.
    UnboundVariable(String),
}

impl ApplyError {
    /// A message for people: the rule and formula of a failed search, or the
    /// name that was not bound.
    pub fn to_text(&self) -> (r: String)
        ensures
            r@ == match self {
                ApplyError::NoMatch(rule, e) => "Unable to find instances of rule [["@ + text(
                    rule.head@,
                ) + " => "@ + text(rule.tail@) + "]] in [["@ + text(e@) + "]]"@,
                ApplyError::UnboundVariable(n) => "Unknown binding: '"@ + n@ + "'"@,
            },
    {
        match self {
            ApplyError::NoMatch(rule, e) => {
                let mut out = String::from_str("Unable to find instances of rule [[");
                let a = rule.to_text();
                out.append(a.as_str());
                out.append("]] in [[");
                let b = e.to_text();
                out.append(b.as_str());
                out.append("]]");
                out
            },
            ApplyError::UnboundVariable(n) => {
                let mut out = String::from_str("Unknown binding: '");
                out.append(n.as_str());
                out.append("'");
                out
            },
        }
    }
}

/// The pattern `t` with each symbol replaced by its binding in `b`; the
/// first unbound symbol, in traversal order, when there is one.
pub open spec fn instantiate(t: Prop, b: Map<Seq<char>, Prop>) -> Result<Prop, Seq<char>>
    decreases t,
{
    match t {
        Prop::Sym(n) => if b.contains_key(n) {
            Ok(b[n])
        } else {
            Err(n)
        },
        Prop::Not(x) => match instantiate(*x, b) {
            Ok(p) => Ok(Prop::Not(Box::new(p))),
            Err(n) => Err(n),
        },
        Prop::And(l, r) => match instantiate(*l, b) {
            Ok(p) => match instantiate(*r, b) {
                Ok(q) => Ok(Prop::And(Box::new(p), Box::new(q))),
                Err(n) => Err(n),
            },
            Err(n) => Err(n),
        },
        Prop::Or(l, r) => match instantiate(*l, b) {
            Ok(p) => match instantiate(*r, b) {
                Ok(q) => Ok(Prop::Or(Box::new(p), Box::new(q))),
                Err(n) => Err(n),
            },
            Err(n) => Err(n),
        },
    }
}

/// `e` with every subtree equal to `at` (outside such subtrees) replaced by
/// the tail `t` instantiated with `b`.
pub open spec fn rewrite(e: Prop, at: Prop, t: Prop, b: Map<Seq<char>, Prop>) -> Result<
    Prop,
    Seq<char>,
>
    decreases e,
{
    if e == at {
        instantiate(t, b)
    } else {
        match e {
            Prop::Sym(n) => Ok(Prop::Sym(n)),
            Prop::Not(x) => match rewrite(*x, at, t, b) {
                Ok(p) => Ok(Prop::Not(Box::new(p))),
                Err(n) => Err(n),
            },
            Prop::And(l, r) => match rewrite(*l, at, t, b) {
                Ok(p) => match rewrite(*r, at, t, b) {
                    Ok(q) => Ok(Prop::And(Box::new(p), Box::new(q))),
                    Err(n) => Err(n),
                },
                Err(n) => Err(n),
            },
            Prop::Or(l, r) => match rewrite(*l, at, t, b) {
                Ok(p) => match rewrite(*r, at, t, b) {
                    Ok(q) => Ok(Prop::Or(Box::new(p), Box::new(q))),
                    Err(n) => Err(n),
                },
                Err(n) => Err(n),
            },
        }
    }
}

/// The rewrites at the places `ss` applied one after the other, each to the
/// result of the one before.
pub open spec fn rewrite_all(e: Prop, ss: Seq<(Prop, Map<Seq<char>, Prop>)>, t: Prop) -> Result<
    Prop,
    Seq<char>,
>
    decreases ss.len(),
{
    if ss.len() == 0 {
        Ok(e)
    } else {
        match rewrite_all(e, ss.drop_last(), t) {
            Ok(x) => rewrite(x, ss.last().0, t, ss.last().1),
            Err(n) => Err(n),
        }
    }
}

/// `r` is the outcome `g` describes: the formula, or the unbound name.
pub open spec fn yields(r: Result<Expr, ApplyError>, g: Result<Prop, Seq<char>>) -> bool {
    match g {
        Ok(p) => r is Ok && r->Ok_0@ == p,
        Err(n) => r is Err && r->Err_0 is UnboundVariable && r->Err_0->UnboundVariable_0@ == n,
    }
}

/// Once a step of the rewrite fails, the whole sequence fails with it.
proof fn lemma_failure_persists(e: Prop, ss: Seq<(Prop, Map<Seq<char>, Prop>)>, t: Prop, i: int)
    requires
        0 <= i <= ss.len(),
        rewrite_all(e, ss.take(i), t) is Err,
    ensures
        rewrite_all(e, ss, t) == rewrite_all(e, ss.take(i), t),
    decreases ss.len() - i,
{
    if i == ss.len() {
        assert(ss.take(i) =~= ss);
    } else {
        assert(ss.take(i + 1).drop_last() =~= ss.take(i));
        lemma_failure_persists(e, ss, t, i + 1);
    }
}

impl Expr {
    /// Applies every match of `rule`, in traversal order, each to the result
    /// of the one before. Fails with `NoMatch` when the head occurs nowhere,
    /// and with `UnboundVariable` when the tail names a symbol that a match
    /// being applied did not bind.
    pub fn apply_rule(&self, rule: &Rule) -> (r: Result<Expr, ApplyError>)
        ensures
            sites(rule.head@, self@).len() == 0 ==> {
                &&& r is Err
                &&& r->Err_0 is NoMatch
                &&& r->Err_0->NoMatch_0.head@ == rule.head@
                &&& r->Err_0->NoMatch_0.tail@ == rule.tail@
                &&& r->Err_0->NoMatch_1@ == self@
            },
            sites(rule.head@, self@).len() > 0 ==> yields(
                r,
                rewrite_all(self@, sites(rule.head@, self@), rule.tail@),
            ),
    {
        let matches = self.find_match(rule);
        if matches.len() == 0 {
            return Err(ApplyError::NoMatch(rule.clone(), self.clone()));
        }
        let ghost ss = sites(rule.head@, self@);
        let mut acc = self.clone();
        let mut i: usize = 0;
        proof {
            assert(ss.take(0) =~= Seq::<(Prop, Map<Seq<char>, Prop>)>::empty());
        }
        while i < matches.len()
            invariant
                i <= matches.len(),
                records(matches@, rule.head@, rule.tail@, ss),
                ss == sites(rule.head@, self@),
                rewrite_all(self@, ss.take(i as int), rule.tail@) == Ok::<Prop, Seq<char>>(acc@),
            decreases matches.len() - i,
        {
            let step = acc.apply_trav(&matches[i]);
            proof {
                assert(ss.take(i + 1).drop_last() =~= ss.take(i as int));
                assert(matches@[i as int].site() == ss[i as int]);
            }
            acc = match step {
                Ok(e) => e,
                Err(err) => {
                    proof {
                        lemma_failure_persists(self@, ss, rule.tail@, i + 1);
                    }
                    return Err(err);
                },
            };
            i = i + 1;
        }
        proof {
            assert(ss.take(i as int) =~= ss);
        }
        Ok(acc)
    }

    /// This formula with each subtree equal to the match's subtree replaced
    /// by the rule's tail, instantiated with the match's bindings.
    fn apply_trav(&self, mat: &Match) -> (r: Result<Expr, ApplyError>)
        ensures
            yields(r, rewrite(self@, mat.full_expr@, mat.rule.tail@, mat.binds@)),
        decreases self,
    {
        if mat.full_expr == *self {
            return mat.rule.tail.apply_impl(mat);
        }
        match self {
            Expr::Sym(s) => Ok(Expr::Sym(s.clone())),
            Expr::Not(e) => match (**e).apply_trav(mat) {
                Ok(x) => Ok(Expr::Not(Box::new(x))),
                Err(err) => Err(err),
            },
            Expr::And(l, r) => {
                let a = match (**l).apply_trav(mat) {
                    Ok(x) => x,
                    Err(err) => return Err(err),
                };
                let b = match (**r).apply_trav(mat) {
                    Ok(x) => x,
                    Err(err) => return Err(err),
                };
                Ok(Expr::And(Box::new(a), Box::new(b)))
            },
            Expr::Or(l, r) => {
                let a = match (**l).apply_trav(mat) {
                    Ok(x) => x,
                    Err(err) => return Err(err),
                };
                let b = match (**r).apply_trav(mat) {
                    Ok(x) => x,
                    Err(err) => return Err(err),
                };
                Ok(Expr::Or(Box::new(a), Box::new(b)))
            },
        }
    }

    /// This pattern with each symbol replaced by a copy of its binding in
    /// the match.
    fn apply_impl(&self, mat: &Match) -> (r: Result<Expr, ApplyError>)
        ensures
            yields(r, instantiate(self@, mat.binds@)),
        decreases self,
    {
        match self {
            Expr::Sym(s) => match mat.binds.get(s) {
                Some(e) => Ok(e.clone()),
                None => Err(ApplyError::UnboundVariable(s.clone())),
            },
            Expr::Not(e) => match (**e).apply_impl(mat) {
                Ok(x) => Ok(Expr::Not(Box::new(x))),
                Err(err) => Err(err),
            },
            Expr::And(l, r) => {
                let a = match (**l).apply_impl(mat) {
                    Ok(x) => x,
                    Err(err) => return Err(err),
                };
                let b = match (**r).apply_impl(mat) {
                    Ok(x) => x,
                    Err(err) => return Err(err),
                };
                Ok(Expr::And(Box::new(a), Box::new(b)))
            },
            Expr::Or(l, r) => {
                let a = match (**l).apply_impl(mat) {
                    Ok(x) => x,
                    Err(err) => return Err(err),
                };
                let b = match (**r).apply_impl(mat) {
                    Ok(x) => x,
                    Err(err) => return Err(err),
                };
                Ok(Expr::Or(Box::new(a), Box::new(b)))
            },
        }
    }
}

} // verus!
