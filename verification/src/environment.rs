use std::fmt::Display;
use std::rc::Rc;
use vstd::laws_eq::obeys_concrete_eq;
use vstd::prelude::*;

use crate::util::share;

verus! {

/// An immutable association list: newer bindings shadow older ones.
#[derive(Debug, Clone, PartialEq)]
pub enum Env<K, V> {
    Empty,
    Node(K, V, Rc<Env<K, V>>),
}

impl<K, V> Env<K, V> {
    /// The bindings of the environment, newest first.
    pub open spec fn entries(self) -> Seq<(K, V)>
        decreases self,
    {
        match self {
            Env::Empty => Seq::empty(),
            Env::Node(k, v, next) => seq![(k, v)] + next.entries(),
        }
    }
}

/// The value bound to `var` by the newest binding of `var` in `entries`, if any.
pub open spec fn lookup<K, V>(entries: Seq<(K, V)>, var: K) -> Option<V>
    decreases entries.len(),
{
    if entries.len() == 0 {
        None
    } else if entries[0].0 == var {
        Some(entries[0].1)
    } else {
        lookup(entries.drop_first(), var)
    }
}

/// The message of the error that `find` reports for a missing variable,
/// given the text that `Display` produces for it.
pub open spec fn not_found_message(var_text: Seq<char>) -> Seq<char> {
    "Variable not found "@ + var_text
}

impl<K: Display + Clone + PartialEq, V: Clone> Env<K, V> {
    pub fn new() -> (res: Env<K, V>)
        ensures
            res.entries() == Seq::<(K, V)>::empty(),
    {
        Env::Empty
    }

    /// A copy of `self` that shares its tail with `self`.
    fn shallow_copy(&self) -> (res: Env<K, V>)
        ensures
            res.entries().len() == self.entries().len(),
            res.entries().skip(1) == self.entries().skip(1),
            self.entries().len() > 0 ==> cloned(self.entries()[0].0, res.entries()[0].0)
                && cloned(self.entries()[0].1, res.entries()[0].1),
    {
        match self {
            Env::Empty => Env::Empty,
            Env::Node(k, v, next) => {
                let res = Env::Node(k.clone(), v.clone(), share(next));
                proof {
                    assert(res.entries().skip(1) =~= next.entries());
                    assert(self.entries().skip(1) =~= next.entries());
                }
                res
            },
        }
    }

    /// Binds `var` to `val` in front of the bindings of `self`.
    pub fn push(&self, var: K, val: V) -> (res: Env<K, V>)
        ensures
            res.entries().len() == self.entries().len() + 1,
            res.entries()[0] == (var, val),
            forall|i: int|
                #![trigger res.entries()[i + 1]]
                0 <= i < self.entries().len() ==> cloned(self.entries()[i].0, res.entries()[i + 1].0)
                    && cloned(self.entries()[i].1, res.entries()[i + 1].1),
            self.entries().len() > 0 ==> res.entries().skip(2) == self.entries().skip(1),
    {
        let copy = self.shallow_copy();
        let res = Env::Node(var, val, Rc::new(copy));
        proof {
            assert(res.entries().skip(1) =~= copy.entries());
            if self.entries().len() > 0 {
                assert(res.entries().skip(2) =~= copy.entries().skip(1));
            }
            assert forall|i: int|
                #![trigger res.entries()[i + 1]]
                0 <= i < self.entries().len() implies cloned(self.entries()[i].0, res.entries()[i + 1].0)
                    && cloned(self.entries()[i].1, res.entries()[i + 1].1) by {
                assert(res.entries()[i + 1] == copy.entries()[i]);
                if i > 0 {
                    assert(copy.entries()[i] == copy.entries().skip(1)[i - 1]);
                    assert(self.entries()[i] == self.entries().skip(1)[i - 1]);
                }
            }
        }
        res
    }

    /// The value of the newest binding of `var`, or an error naming `var`.
    pub fn find(&self, var: K) -> (res: Result<V, String>)
        ensures
            obeys_concrete_eq::<K>() ==> match res {
                Ok(v) => lookup(self.entries(), var) matches Some(w) && cloned(w, v),
                Err(msg) => lookup(self.entries(), var) is None,
            },
            res matches Err(msg) ==> exists|text: String|
                vstd::string::to_string_from_display_ensures::<K>(&var, text)
                    && msg@ == not_found_message(text@),
        decreases self,
    {
        match self {
            Env::Empty => {
                let text = var.to_string();
                let msg = String::from_str("Variable not found ").concat(text.as_str());
                proof {
                    reveal(obeys_concrete_eq);
                }
                Err(msg)
            },
            Env::Node(x, val, next) => {
                if *x == var {
                    proof {
                        reveal(obeys_concrete_eq);
                    }
                    Ok(val.clone())
                } else {
                    let r = next.find(var);
                    proof {
                        reveal(obeys_concrete_eq);
                        assert(self.entries().drop_first() =~= next.entries());
                    }
                    r
                }
            },
        }
    }
}

/// Reading a variable right after binding it gives the bound value, and
/// binding one variable leaves the lookup of every other variable unchanged.
pub proof fn lemma_lookup_push<K, V>(entries: Seq<(K, V)>, var: K, val: V, other: K)
    ensures
        lookup(seq![(var, val)] + entries, var) == Some(val),
        other != var ==> lookup(seq![(var, val)] + entries, other) == lookup(entries, other),
{
    assert((seq![(var, val)] + entries).drop_first() =~= entries);
}

/// What `push` gives: the new binding in front of copies of the old ones.
/// Where cloning keys and values gives equal ones, finding the pushed
/// variable gives the pushed value, and every other variable is found as it
/// was before the push.
pub proof fn lemma_find_after_push<K: Clone, V: Clone>(before: Env<K, V>, after: Env<K, V>, var: K, val: V, other: K)
    requires
        forall|a: K, b: K| #[trigger] cloned(a, b) ==> a == b,
        forall|a: V, b: V| #[trigger] cloned(a, b) ==> a == b,
        after.entries().len() == before.entries().len() + 1,
        after.entries()[0] == (var, val),
        forall|i: int|
            #![trigger after.entries()[i + 1]]
            0 <= i < before.entries().len() ==> cloned(before.entries()[i].0, after.entries()[i + 1].0)
                && cloned(before.entries()[i].1, after.entries()[i + 1].1),
    ensures
        lookup(after.entries(), var) == Some(val),
        other != var ==> lookup(after.entries(), other) == lookup(before.entries(), other),
{
    assert forall|i: int| 0 <= i < before.entries().len() implies #[trigger] after.entries().drop_first()[i]
        == before.entries()[i] by {
        assert(after.entries().drop_first()[i] == after.entries()[i + 1]);
        assert(cloned(before.entries()[i].0, after.entries()[i + 1].0));
        assert(cloned(before.entries()[i].1, after.entries()[i + 1].1));
    }
    assert(after.entries().drop_first() =~= before.entries());
    assert(after.entries() =~= seq![(var, val)] + before.entries());
    lemma_lookup_push(before.entries(), var, val, other);
}

} // verus!
