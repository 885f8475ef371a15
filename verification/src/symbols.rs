use vstd::prelude::*;

use crate::llvm_utils::{int_text, string_of_i64};

verus! {

pub type Symbol = i64;

/// Interned names: the symbol of a name is its index in the table.
pub struct Interner {
    names: Vec<String>,
}

/// Interns `name` in the table `names`: the table afterwards and the symbol
/// of `name`, which is the index where it already stands, or a new index at
/// the end.
pub open spec fn intern(names: Seq<Seq<char>>, name: Seq<char>) -> (Seq<Seq<char>>, int) {
    if names.contains(name) {
        (names, names.index_of(name))
    } else {
        (names.push(name), names.len() as int)
    }
}

/// The name of `sym` in the table, or a placeholder naming the number.
pub open spec fn name_of(names: Seq<Seq<char>>, sym: int) -> Seq<char> {
    if 0 <= sym < names.len() {
        names[sym]
    } else {
        "<unknown symbol "@ + int_text(sym) + ">"@
    }
}

impl View for Interner {
    type V = Seq<Seq<char>>;

    closed spec fn view(&self) -> Seq<Seq<char>> {
        self.names@.map_values(|s: String| s@)
    }
}

impl Interner {
    /// No name occurs twice in the table.
    pub open spec fn wf(self) -> bool {
        self@.no_duplicates()
    }

    pub fn new() -> (res: Self)
        ensures
            res@ == Seq::<Seq<char>>::empty(),
            res.wf(),
    {
        let res = Interner { names: Vec::new() };
        proof {
            assert(res@ =~= Seq::<Seq<char>>::empty());
        }
        res
    }
}

/// The symbol of `name`, interning it if it is new.
pub fn new_symbol(interner: &mut Interner, name: &str) -> (sym: Symbol)
    requires
        old(interner).wf(),
        old(interner)@.len() < i64::MAX,
    ensures
        final(interner).wf(),
        (final(interner)@, sym as int) == intern(old(interner)@, name@),
{
    let key = String::from_str(name);
    let mut i: usize = 0;
    while i < interner.names.len()
        invariant
            i <= interner@.len(),
            interner@.len() == interner.names@.len(),
            interner.wf(),
            interner@ == old(interner)@,
            interner@.len() < i64::MAX,
            key@ == name@,
            forall|j: int| 0 <= j < i ==> interner@[j] != name@,
        decreases interner.names@.len() - i,
    {
        proof {
            assert(interner@[i as int] == interner.names@[i as int]@);
        }
        if interner.names[i] == key {
            proof {
                assert(interner@[i as int] == name@);
                assert(interner@.contains(name@));
                let k = interner@.index_of(name@);
                assert(interner@[k] == name@);
                assert(k == i as int);
                assert(interner@.len() < i64::MAX);
            }
            return i as i64;
        }
        i = i + 1;
    }
    let sym = interner.names.len() as i64;
    let ghost before = interner@;
    interner.names.push(key);
    proof {
        assert(interner@ =~= before.push(name@));
        assert(!before.contains(name@));
    }
    sym
}

/// The name of `sym`, or `<unknown symbol N>` for a number that names nothing.
pub fn string_of_symbol(interner: &Interner, sym: Symbol) -> (s: String)
    ensures
        s@ == name_of(interner@, sym as int),
{
    if 0 <= sym && (sym as u64) < (interner.names.len() as u64) {
        let s = interner.names[sym as usize].clone();
        proof {
            assert(interner@[sym as int] == interner.names@[sym as int]@);
        }
        s
    } else {
        let mut s = String::from_str("<unknown symbol ");
        s.append(string_of_i64(sym).as_str());
        s.append(">");
        s
    }
}

/// Reading back the name of a symbol gives the name it was made from;
/// interning a name twice gives the same symbol; distinct names get
/// distinct symbols; a new name gets the next number, the count of names
/// interned before it.
pub proof fn lemma_intern_laws(names: Seq<Seq<char>>, a: Seq<char>, b: Seq<char>)
    requires
        names.no_duplicates(),
    ensures
        !names.contains(a) ==> intern(names, a).1 == names.len() && intern(names, a).0.len() == names.len() + 1,
        name_of(intern(names, a).0, intern(names, a).1) == a,
        intern(intern(names, a).0, a) == intern(names, a),
        intern(names, a).0.no_duplicates(),
        a != b ==> intern(names, a).1 != intern(intern(names, a).0, b).1,
{
    let (n1, s1) = intern(names, a);
    lemma_intern_wf(names, a);
    lemma_intern_wf(n1, b);
    assert(n1.contains(a));
    let k = n1.index_of(a);
    assert(n1[k] == a);
    if n1.contains(b) && a != b {
        let m = n1.index_of(b);
        assert(n1[m] == b);
    }
}

/// Interning keeps the table free of duplicates, and the symbol of the name
/// indexes that name.
pub proof fn lemma_intern_wf(names: Seq<Seq<char>>, a: Seq<char>)
    requires
        names.no_duplicates(),
    ensures
        intern(names, a).0.no_duplicates(),
        intern(names, a).0.contains(a),
        0 <= intern(names, a).1 < intern(names, a).0.len(),
        intern(names, a).0[intern(names, a).1] == a,
        forall|i: int| 0 <= i < names.len() ==> intern(names, a).0[i] == names[i],
{
    let n1 = intern(names, a).0;
    if names.contains(a) {
        let k = names.index_of(a);
        assert(names[k] == a);
    } else {
        assert(n1[names.len() as int] == a);
        assert forall|i: int, j: int| 0 <= i < n1.len() && 0 <= j < n1.len() && i != j implies n1[i]
            != n1[j] by {
            if i < names.len() && j < names.len() {
            } else if i == names.len() {
                assert(n1[j] == names[j]);
            } else {
                assert(n1[i] == names[i]);
            }
        }
    }
}

} // verus!
