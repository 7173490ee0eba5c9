//! Finding every place where a rule's head occurs in a formula.
use vstd::prelude::*;
use crate::expr::{Expr, Prop, shallow_same, size};
use crate::rule::{Bindings, Match, Rule};

verus! {

/// Matches pattern `pat` against `e`, extending `acc`: a symbol of the
/// pattern captures whatever stands in its place (unless it already captured
/// something), and every other node must have the same connective. `None`
/// when the shapes differ anywhere.
pub open spec fn bind(pat: Prop, e: Prop, acc: Map<Seq<char>, Prop>) -> Option<Map<Seq<char>, Prop>>
    decreases pat,
{
    match pat {
        Prop::Sym(n) => Some(
            if acc.contains_key(n) {
                acc
            } else {
                acc.insert(n, e)
            },
        ),
        Prop::Not(p) => match e {
            Prop::Not(x) => bind(*p, *x, acc),
            _ => None,
        },
        Prop::And(pl, pr) => match e {
            Prop::And(l, r) => match bind(*pl, *l, acc) {
                Some(m) => bind(*pr, *r, m),
                None => None,
            },
            _ => None,
        },
        Prop::Or(pl, pr) => match e {
            Prop::Or(l, r) => match bind(*pl, *l, acc) {
                Some(m) => bind(*pr, *r, m),
                None => None,
            },
            _ => None,
        },
    }
}

/// The symbol names that occur in a pattern.
pub open spec fn syms(p: Prop) -> Set<Seq<char>>
    decreases p,
{
    match p {
        Prop::Sym(n) => set![n],
        Prop::Not(x) => syms(*x),
        Prop::And(l, r) => syms(*l) + syms(*r),
        Prop::Or(l, r) => syms(*l) + syms(*r),
    }
}

/// `b` keeps every binding of `a`, and binds besides only symbols of `pat`.
pub open spec fn extends(a: Map<Seq<char>, Prop>, b: Map<Seq<char>, Prop>, pat: Prop) -> bool {
    &&& forall|k: Seq<char>| #[trigger] a.contains_key(k) ==> b.contains_key(k) && b[k] == a[k]
    &&& forall|k: Seq<char>| #[trigger] b.contains_key(k) ==> a.contains_key(k) || syms(pat).contains(k)
}

/// The bindings of `head` at the node `e`, if the head occurs there: the top
/// nodes must agree (a symbol head only occurs at the same symbol) and the
/// whole pattern must fit.
pub open spec fn match_at(head: Prop, e: Prop) -> Option<Map<Seq<char>, Prop>> {
    if shallow_same(head, e) {
        bind(head, e, Map::empty())
    } else {
        None
    }
}

/// Every place where `head` occurs in `e`, with its bindings: the node
/// itself first, then the places inside its left (or only) child, then those
/// inside its right child.
pub open spec fn sites(head: Prop, e: Prop) -> Seq<(Prop, Map<Seq<char>, Prop>)>
    decreases e,
{
    let here = match match_at(head, e) {
        Some(m) => seq![(e, m)],
        None => Seq::empty(),
    };
    match e {
        Prop::Sym(_) => here,
        Prop::Not(x) => here + sites(head, *x),
        Prop::And(l, r) => here + sites(head, *l) + sites(head, *r),
        Prop::Or(l, r) => here + sites(head, *l) + sites(head, *r),
    }
}

/// `ms` records the places `ss`, in order, each as a match of the rule with
/// head `head` and tail `tail`.
pub open spec fn records(
    ms: Seq<Match>,
    head: Prop,
    tail: Prop,
    ss: Seq<(Prop, Map<Seq<char>, Prop>)>,
) -> bool {
    &&& ms.len() == ss.len()
    &&& forall|i: int|
        0 <= i < ms.len() ==> {
            &&& (#[trigger] ms[i]).site() == ss[i]
            &&& ms[i].rule.head@ == head
            &&& ms[i].rule.tail@ == tail
        }
}

proof fn lemma_records_extend(
    a: Seq<Match>,
    b: Seq<Match>,
    c: Seq<Match>,
    head: Prop,
    tail: Prop,
    x: Seq<(Prop, Map<Seq<char>, Prop>)>,
    y: Seq<(Prop, Map<Seq<char>, Prop>)>,
)
    requires
        b.len() >= a.len(),
        c.len() >= b.len(),
        b.take(a.len() as int) == a,
        records(b.skip(a.len() as int), head, tail, x),
        c.take(b.len() as int) == b,
        records(c.skip(b.len() as int), head, tail, y),
    ensures
        c.len() >= a.len(),
        c.take(a.len() as int) == a,
        records(c.skip(a.len() as int), head, tail, x + y),
{
    assert(c.take(a.len() as int) =~= a) by {
        assert forall|i: int| 0 <= i < a.len() implies c[i] == a[i] by {
            assert(c[i] == c.take(b.len() as int)[i]);
            assert(b[i] == b.take(a.len() as int)[i]);
        }
    }
    let d = c.skip(a.len() as int);
    assert forall|i: int| 0 <= i < d.len() implies {
        &&& (#[trigger] d[i]).site() == (x + y)[i]
        &&& d[i].rule.head@ == head
        &&& d[i].rule.tail@ == tail
    } by {
        if i < x.len() {
            assert(d[i] == c[a.len() + i]);
            assert(c[a.len() + i] == c.take(b.len() as int)[a.len() + i]);
            assert(b[a.len() + i] == b.skip(a.len() as int)[i]);
        } else {
            assert(d[i] == c.skip(b.len() as int)[i - x.len()]);
        }
    }
}

/// A rule's head occurs in a formula at most once per node.
pub proof fn lemma_sites_bounded(head: Prop, e: Prop)
    ensures
        sites(head, e).len() <= size(e),
    decreases e,
{
    match e {
        Prop::Sym(_) => {},
        Prop::Not(x) => lemma_sites_bounded(head, *x),
        Prop::And(l, r) => {
            lemma_sites_bounded(head, *l);
            lemma_sites_bounded(head, *r);
        },
        Prop::Or(l, r) => {
            lemma_sites_bounded(head, *l);
            lemma_sites_bounded(head, *r);
        },
    }
}

/// Every place the matcher reports is a real occurrence: the head matches
/// the reported subtree with exactly the reported bindings.
pub proof fn lemma_sites_sound(head: Prop, e: Prop)
    ensures
        forall|i: int|
            0 <= i < sites(head, e).len() ==> match_at(head, (#[trigger] sites(head, e)[i]).0)
                == Some(sites(head, e)[i].1),
    decreases e,
{
    match e {
        Prop::Sym(_) => {},
        Prop::Not(x) => lemma_sites_sound(head, *x),
        Prop::And(l, r) => {
            lemma_sites_sound(head, *l);
            lemma_sites_sound(head, *r);
        },
        Prop::Or(l, r) => {
            lemma_sites_sound(head, *l);
            lemma_sites_sound(head, *r);
        },
    }
    let here = match match_at(head, e) {
        Some(m) => seq![(e, m)],
        None => Seq::<(Prop, Map<Seq<char>, Prop>)>::empty(),
    };
    assert forall|i: int| 0 <= i < sites(head, e).len() implies match_at(
        head,
        (#[trigger] sites(head, e)[i]).0,
    ) == Some(sites(head, e)[i].1) by {
        match e {
            Prop::Sym(_) => {},
            Prop::Not(x) => {
                if i >= here.len() {
                    assert(sites(head, e)[i] == sites(head, *x)[i - here.len()]);
                }
            },
            Prop::And(l, r) => {
                if i >= here.len() + sites(head, *l).len() {
                    assert(sites(head, e)[i] == sites(head, *r)[i - here.len() - sites(head, *l).len()]);
                } else if i >= here.len() {
                    assert(sites(head, e)[i] == sites(head, *l)[i - here.len()]);
                }
            },
            Prop::Or(l, r) => {
                if i >= here.len() + sites(head, *l).len() {
                    assert(sites(head, e)[i] == sites(head, *r)[i - here.len() - sites(head, *l).len()]);
                } else if i >= here.len() {
                    assert(sites(head, e)[i] == sites(head, *l)[i - here.len()]);
                }
            },
        }
    }
}

impl Expr {
    /// Every match of `rule` in this formula, in traversal order: a node
    /// before its children, a left child before a right one. Empty when the
    /// head occurs nowhere.
    pub fn find_match(&self, rule: &Rule) -> (r: Vec<Match>)
        ensures
            records(r@, rule.head@, rule.tail@, sites(rule.head@, self@)),
            r.len() <= size(self@),
    {
        let mut matches: Vec<Match> = Vec::new();
        let _ = self.find_trav(rule, &mut matches);
        proof {
            assert(matches@ =~= matches@.skip(0));
            lemma_sites_bounded(rule.head@, self@);
        }
        matches
    }

    /// Appends to `mats` every match of `rule` in this formula, in traversal
    /// order; `Some` when there was at least one.
    pub fn find_trav(&self, rule: &Rule, mats: &mut Vec<Match>) -> (r: Option<()>)
        ensures
            final(mats)@.len() == old(mats)@.len() + sites(rule.head@, self@).len(),
            final(mats)@.take(old(mats)@.len() as int) == old(mats)@,
            records(
                final(mats)@.skip(old(mats)@.len() as int),
                rule.head@,
                rule.tail@,
                sites(rule.head@, self@),
            ),
            r is Some <==> sites(rule.head@, self@).len() > 0,
        decreases self,
    {
        let ghost before = mats@;
        let mut found = false;
        if rule.head.shallow_eq(self) {
            let mut mat = Match::new(self.clone(), rule.clone());
            if self.find_impl(&rule.head, &mut mat.binds).is_some() {
                mats.push(mat);
                found = true;
            }
        }
        let ghost mid = mats@;
        let ghost here = match match_at(rule.head@, self@) {
            Some(m) => seq![(self@, m)],
            None => Seq::empty(),
        };
        proof {
            assert(mid.take(before.len() as int) =~= before);
            let d = mid.skip(before.len() as int);
            assert(records(d, rule.head@, rule.tail@, here)) by {
                if found {
                    assert(d[0] == mid[before.len() as int]);
                }
            }
            let e = mats@.skip(mats@.len() as int);
            assert(mats@.take(mats@.len() as int) =~= mats@);
            assert(records(e, rule.head@, rule.tail@, Seq::empty()));
        }
        let below = match self {
            Expr::Sym(_) => {
                proof {
                    let x: Seq<(Prop, Map<Seq<char>, Prop>)> = Seq::empty();
                    assert(here + x =~= here);
                }
                None
            },
            Expr::Not(e) => {
                let a = (**e).find_trav(rule, mats);
                proof {
                    lemma_records_extend(before, mid, mats@, rule.head@, rule.tail@, here, sites(rule.head@, (**e)@));
                }
                a
            },
            Expr::And(l, r) => {
                let a = (**l).find_trav(rule, mats);
                let ghost m2 = mats@;
                proof {
                    lemma_records_extend(before, mid, m2, rule.head@, rule.tail@, here, sites(rule.head@, (**l)@));
                }
                let b = (**r).find_trav(rule, mats);
                proof {
                    lemma_records_extend(before, m2, mats@, rule.head@, rule.tail@, here + sites(rule.head@, (**l)@), sites(rule.head@, (**r)@));
                }
                if a.is_some() {
                    a
                } else {
                    b
                }
            },
            Expr::Or(l, r) => {
                let a = (**l).find_trav(rule, mats);
                let ghost m2 = mats@;
                proof {
                    lemma_records_extend(before, mid, m2, rule.head@, rule.tail@, here, sites(rule.head@, (**l)@));
                }
                let b = (**r).find_trav(rule, mats);
                proof {
                    lemma_records_extend(before, m2, mats@, rule.head@, rule.tail@, here + sites(rule.head@, (**l)@), sites(rule.head@, (**r)@));
                }
                if a.is_some() {
                    a
                } else {
                    b
                }
            },
        };
        if found || below.is_some() {
            Some(())
        } else {
            None
        }
    }

    /// Matches the pattern `rule` against this formula, adding to
    /// `bindings` what its symbols capture; `None` when the shapes differ.
    pub fn find_impl(&self, rule: &Expr, bindings: &mut Bindings) -> (r: Option<()>)
        ensures
            match bind(rule@, self@, old(bindings)@) {
                Some(m) => r is Some && final(bindings)@ == m,
                None => r is None,
            },
            extends(old(bindings)@, final(bindings)@, rule@),
        decreases rule,
    {
        match (rule, self) {
            (Expr::Sym(name), _) => {
                bindings.insert_if_absent(name, self);
                Some(())
            },
            (Expr::Not(p), Expr::Not(e)) => (**e).find_impl(&**p, bindings),
            (Expr::And(pl, pr), Expr::And(l, r)) => {
                if (**l).find_impl(&**pl, bindings).is_none() {
                    return None;
                }
                (**r).find_impl(&**pr, bindings)
            },
            (Expr::Or(pl, pr), Expr::Or(l, r)) => {
                if (**l).find_impl(&**pl, bindings).is_none() {
                    return None;
                }
                (**r).find_impl(&**pr, bindings)
            },
            _ => None,
        }
    }
}

} // verus!
