//! Rewrite rules, the bindings a match captures, and the matches themselves.
use vstd::prelude::*;
use crate::expr::{Expr, Prop, text};

verus! {

/// A rewrite rule: wherever `head` is found, it may be replaced by `tail`
/// with the symbols of `head` standing for what they captured.
#[derive(Debug)]
pub struct Rule {
    pub head: Expr,
    pub tail: Expr,
}

impl Clone for Rule {
    fn clone(&self) -> (r: Self)
        ensures
            r.head@ == self.head@,
            r.tail@ == self.tail@,
    {
        Rule { head: self.head.clone(), tail: self.tail.clone() }
    }
}

impl Rule {
    /// Renders the rule as `head => tail`.
    pub fn to_text(&self) -> (r: String)
        ensures
            r@ == text(self.head@) + " => "@ + text(self.tail@),
    {
        let mut out = self.head.to_text();
        out.append(" => ");
        let t = self.tail.to_text();
        out.append(t.as_str());
        out
    }
}

/// The map that a list of name and value pairs stands for: the first pair
/// with a given name decides its value.
pub open spec fn bindings_of(s: Seq<(String, Expr)>) -> Map<Seq<char>, Prop>
    decreases s.len(),
{
    if s.len() == 0 {
        Map::empty()
    } else {
        let m = bindings_of(s.drop_last());
        let k = s.last().0@;
        if m.contains_key(k) {
            m
        } else {
            m.insert(k, s.last().1@)
        }
    }
}

proof fn lemma_bindings_domain(s: Seq<(String, Expr)>, k: Seq<char>)
    ensures
        bindings_of(s).contains_key(k) <==> exists|i: int| 0 <= i < s.len() && (#[trigger] s[i]).0@ == k,
    decreases s.len(),
{
    if s.len() > 0 {
        let t = s.drop_last();
        lemma_bindings_domain(t, k);
        if bindings_of(s).contains_key(k) && s.last().0@ != k {
            let i = choose|i: int| 0 <= i < t.len() && (#[trigger] t[i]).0@ == k;
            assert(s[i] == t[i]);
        }
        if exists|i: int| 0 <= i < s.len() && (#[trigger] s[i]).0@ == k {
            let i = choose|i: int| 0 <= i < s.len() && (#[trigger] s[i]).0@ == k;
            if i < t.len() {
                assert(t[i] == s[i]);
            }
        }
    }
}

proof fn lemma_bindings_first(s: Seq<(String, Expr)>, i: int)
    requires
        0 <= i < s.len(),
        forall|j: int| 0 <= j < i ==> (#[trigger] s[j]).0@ != s[i].0@,
    ensures
        bindings_of(s).contains_key(s[i].0@),
        bindings_of(s)[s[i].0@] == s[i].1@,
    decreases s.len(),
{
    let t = s.drop_last();
    let k = s[i].0@;
    if i < t.len() {
        assert forall|j: int| 0 <= j < i implies (#[trigger] t[j]).0@ != t[i].0@ by {
            assert(t[j] == s[j]);
        }
        lemma_bindings_first(t, i);
    } else {
        lemma_bindings_domain(t, k);
        if bindings_of(t).contains_key(k) {
            let j = choose|j: int| 0 <= j < t.len() && (#[trigger] t[j]).0@ == k;
            assert(s[j] == t[j]);
        }
    }
}

/// What the symbols of a pattern captured at one match site.
#[derive(Debug)]
pub struct Bindings {
    entries: Vec<(String, Expr)>,
}

/// `ps` lists the map `m`: each of its names once, with its value in `m`.
pub open spec fn lists(ps: Seq<(Seq<char>, Prop)>, m: Map<Seq<char>, Prop>) -> bool {
    &&& forall|i: int| 0 <= i < ps.len() ==> m.contains_key((#[trigger] ps[i]).0) && m[ps[i].0] == ps[i].1
    &&& forall|i: int, j: int| 0 <= i < j < ps.len() ==> (#[trigger] ps[i]).0 != (#[trigger] ps[j]).0
    &&& forall|k: Seq<char>| #[trigger] m.contains_key(k) ==> exists|i: int| 0 <= i < ps.len() && (#[trigger] ps[i]).0 == k
}

impl View for Bindings {
    type V = Map<Seq<char>, Prop>;

    closed spec fn view(&self) -> Map<Seq<char>, Prop> {
        bindings_of(self.entries@)
    }
}

impl Bindings {
    /// No name is bound twice.
    #[verifier::type_invariant]
    spec fn names_distinct(&self) -> bool {
        forall|i: int, j: int|
            0 <= i < j < self.entries@.len() ==> (#[trigger] self.entries@[i]).0@ != (
            #[trigger] self.entries@[j]).0@
    }

    /// No bindings.
    pub fn new() -> (r: Bindings)
        ensures
            r@ == Map::<Seq<char>, Prop>::empty(),
    {
        Bindings { entries: Vec::new() }
    }

    /// What `name` is bound to, if it is bound.
    pub fn get(&self, name: &String) -> (r: Option<&Expr>)
        ensures
            r is Some <==> self@.contains_key(name@),
            r is Some ==> r->0@ == self@[name@],
    {
        let mut i: usize = 0;
        while i < self.entries.len()
            invariant
                i <= self.entries.len(),
                forall|j: int| 0 <= j < i ==> (#[trigger] self.entries@[j]).0@ != name@,
            decreases self.entries.len() - i,
        {
            if self.entries[i].0 == *name {
                proof {
                    lemma_bindings_first(self.entries@, i as int);
                }
                return Some(&self.entries[i].1);
            }
            i = i + 1;
        }
        proof {
            lemma_bindings_domain(self.entries@, name@);
        }
        None
    }

    /// Binds `name` to a copy of `value` unless `name` is bound already.
    pub fn insert_if_absent(&mut self, name: &String, value: &Expr)
        ensures
            final(self)@ == if old(self)@.contains_key(name@) {
                old(self)@
            } else {
                old(self)@.insert(name@, value@)
            },
    {
        proof {
            use_type_invariant(&*self);
        }
        if self.get(name).is_none() {
            let ghost before = self.entries@;
            proof {
                lemma_bindings_domain(before, name@);
            }
            let pair = (name.clone(), value.clone());
            let ghost after = before.push(pair);
            assert(after.drop_last() =~= before);
            assert forall|i: int, j: int| 0 <= i < j < after.len() implies (#[trigger] after[i]).0@ != (
            #[trigger] after[j]).0@ by {
                assert(after[i] == before[i]);
                if j < before.len() {
                    assert(after[j] == before[j]);
                }
            }
            let mut taken = Bindings::new();
            std::mem::swap(self, &mut taken);
            let mut entries = taken.entries;
            entries.push(pair);
            *self = Bindings { entries };
        }
    }
}

/// One binding as a line of text: `    'name' -> value`.
pub open spec fn binding_line(b: (Seq<char>, Prop)) -> Seq<char> {
    "    '"@ + b.0 + "' -> "@ + text(b.1)
}

/// The lines of the bindings `s`, joined by line breaks.
pub open spec fn binding_lines(s: Seq<(Seq<char>, Prop)>) -> Seq<char>
    decreases s.len(),
{
    if s.len() == 0 {
        Seq::empty()
    } else if s.len() == 1 {
        binding_line(s[0])
    } else {
        binding_lines(s.drop_last()) + "\n"@ + binding_line(s.last())
    }
}

impl Bindings {
    proof fn lemma_pairs_list_map(&self)
        requires
            self.names_distinct(),
        ensures
            lists(self.pairs(), self@),
    {
        let es = self.entries@;
        let ps = self.pairs();
        assert forall|i: int| 0 <= i < ps.len() implies self@.contains_key((#[trigger] ps[i]).0)
            && self@[ps[i].0] == ps[i].1 by {
            assert forall|j: int| 0 <= j < i implies (#[trigger] es[j]).0@ != es[i].0@ by {}
            lemma_bindings_first(es, i);
        }
        assert forall|k: Seq<char>| #[trigger] self@.contains_key(k) implies exists|i: int|
            0 <= i < ps.len() && (#[trigger] ps[i]).0 == k by {
            lemma_bindings_domain(es, k);
            let i = choose|i: int| 0 <= i < es.len() && (#[trigger] es[i]).0@ == k;
            assert(ps[i].0 == k);
        }
    }

    /// The names and values, in the order in which they were bound.
    pub closed spec fn pairs(&self) -> Seq<(Seq<char>, Prop)> {
        self.entries@.map_values(|p: (String, Expr)| (p.0@, p.1@))
    }

    /// Renders one line per binding, in the order in which they were bound.
    pub fn to_text(&self) -> (r: String)
        ensures
            r@ == binding_lines(self.pairs()),
            lists(self.pairs(), self@),
    {
        proof {
            use_type_invariant(self);
            self.lemma_pairs_list_map();
        }
        let ghost ps = self.pairs();
        let mut out = String::new();
        let mut i: usize = 0;
        proof {
            assert(ps.take(0) =~= Seq::<(Seq<char>, Prop)>::empty());
        }
        while i < self.entries.len()
            invariant
                i <= self.entries.len(),
                ps == self.pairs(),
                out@ == binding_lines(ps.take(i as int)),
            decreases self.entries.len() - i,
        {
            if i > 0 {
                out.append("\n");
            }
            out.append("    '");
            out.append(self.entries[i].0.as_str());
            out.append("' -> ");
            let v = self.entries[i].1.to_text();
            out.append(v.as_str());
            proof {
                assert(ps.take(i + 1).drop_last() =~= ps.take(i as int));
                assert(ps.take(i + 1).last() == ps[i as int]);
                assert(ps.take(i + 1).len() == 1 ==> ps.take(i + 1)[0] == ps[i as int]);
            }
            i = i + 1;
        }
        proof {
            assert(ps.take(i as int) =~= ps);
        }
        out
    }
}

/// One place where a rule's head was found: the subtree found there, the
/// rule, and what the head's symbols captured.
#[derive(Debug)]
pub struct Match {
    pub binds: Bindings,
    pub full_expr: Expr,
    pub rule: Rule,
}

impl Match {
    /// A match of `rule` at `expr`, with nothing bound yet.
    pub fn new(expr: Expr, rule: Rule) -> (r: Match)
        ensures
            r.binds@ == Map::<Seq<char>, Prop>::empty(),
            r.full_expr == expr,
            r.rule == rule,
    {
        Match { binds: Bindings::new(), full_expr: expr, rule }
    }

    /// Renders the rule, the subtree found, and one line per binding.
    pub fn to_text(&self) -> (r: String)
        ensures
            r@ == text(self.rule.head@) + " => "@ + text(self.rule.tail@) + "\n"@ + text(
                self.full_expr@,
            ) + "\n"@ + binding_lines(self.binds.pairs()),
            lists(self.binds.pairs(), self.binds@),
    {
        let mut out = self.rule.to_text();
        out.append("\n");
        let e = self.full_expr.to_text();
        out.append(e.as_str());
        out.append("\n");
        let b = self.binds.to_text();
        out.append(b.as_str());
        out
    }

    /// The subtree found and what was captured there.
    pub open spec fn site(&self) -> (Prop, Map<Seq<char>, Prop>) {
        (self.full_expr@, self.binds@)
    }
}

} // verus!
