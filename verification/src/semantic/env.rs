//! The environments of the type checker: variable types and function
//! signatures, each viewed as a map from names to what is known of them.
//! A later binding of a name hides an earlier one.

use vstd::prelude::*;
use crate::ir::ast::{copy_type, Type};

verus! {

/// What the checker knows of variables: name to type.
pub type TypeEnv = Map<Seq<char>, Type>;

/// What the checker knows of functions: name to (parameter types, return type).
pub type SigEnv = Map<Seq<char>, (Seq<Type>, Type)>;

/// The map of a list of bindings, a later one winning over an earlier one.
pub open spec fn bindings_map(s: Seq<(String, Type)>) -> TypeEnv
    decreases s.len(),
{
    if s.len() == 0 {
        Map::empty()
    } else {
        bindings_map(s.drop_last()).insert(s.last().0@, s.last().1)
    }
}

/// The map of a list of signatures, a later one winning over an earlier one.
pub open spec fn signatures_map(s: Seq<(String, Vec<Type>, Type)>) -> SigEnv
    decreases s.len(),
{
    if s.len() == 0 {
        Map::empty()
    } else {
        signatures_map(s.drop_last()).insert(s.last().0@, (s.last().1@, s.last().2))
    }
}

/// Variable types, in the order in which they were bound.
pub struct VarEnv {
    bindings: Vec<(String, Type)>,
}

impl View for VarEnv {
    type V = TypeEnv;

    closed spec fn view(&self) -> TypeEnv {
        bindings_map(self.bindings@)
    }
}

proof fn lemma_bindings_suffix(s: Seq<(String, Type)>, i: int, k: Seq<char>)
    requires
        0 <= i <= s.len(),
        forall|j: int| i <= j < s.len() ==> #[trigger] s[j].0@ != k,
    ensures
        bindings_map(s).contains_key(k) == bindings_map(s.take(i)).contains_key(k),
        bindings_map(s).contains_key(k) ==> bindings_map(s)[k] == bindings_map(s.take(i))[k],
    decreases s.len() - i,
{
    if i < s.len() {
        lemma_bindings_suffix(s, i + 1, k);
        assert(s.take(i + 1).drop_last() =~= s.take(i));
    } else {
        assert(s.take(i) =~= s);
    }
}

impl VarEnv {
    pub fn new() -> (r: Self)
        ensures
            r@ == TypeEnv::empty(),
    {
        VarEnv { bindings: Vec::new() }
    }

    /// Forgets every binding.
    pub fn clear(&mut self)
        ensures
            final(self)@ == TypeEnv::empty(),
    {
        self.bindings = Vec::new();
    }

    /// Binds `name` to `ty`, hiding any earlier binding of `name`.
    pub fn insert(&mut self, name: &String, ty: &Type)
        ensures
            final(self)@ == old(self)@.insert(name@, *ty),
    {
        let ghost before = self.bindings@;
        self.bindings.push((name.clone(), copy_type(ty)));
        assert(self.bindings@.drop_last() =~= before);
    }

    /// The type bound to `name`, if any.
    pub fn get(&self, name: &String) -> (r: Option<Type>)
        ensures
            r == (if self@.contains_key(name@) { Some(self@[name@]) } else { None::<Type> }),
    {
        let ghost s = self.bindings@;
        let mut i = self.bindings.len();
        proof {
            assert(s.take(i as int) =~= s);
        }
        while i > 0
            invariant
                i <= s.len(),
                s == self.bindings@,
                forall|j: int| i <= j < s.len() ==> #[trigger] s[j].0@ != name@,
            decreases i,
        {
            if self.bindings[i - 1].0 == *name {
                proof {
                    lemma_bindings_suffix(s, i as int, name@);
                    assert(s.take(i as int).drop_last() =~= s.take(i - 1));
                }
                return Some(copy_type(&self.bindings[i - 1].1));
            }
            i = i - 1;
        }
        proof {
            lemma_bindings_suffix(s, 0, name@);
        }
        None
    }
}

/// Function signatures, in the order in which they were declared.
pub struct FunSigs {
    entries: Vec<(String, Vec<Type>, Type)>,
}

impl View for FunSigs {
    type V = SigEnv;

    closed spec fn view(&self) -> SigEnv {
        signatures_map(self.entries@)
    }
}

proof fn lemma_signatures_suffix(s: Seq<(String, Vec<Type>, Type)>, i: int, k: Seq<char>)
    requires
        0 <= i <= s.len(),
        forall|j: int| i <= j < s.len() ==> #[trigger] s[j].0@ != k,
    ensures
        signatures_map(s).contains_key(k) == signatures_map(s.take(i)).contains_key(k),
        signatures_map(s).contains_key(k) ==> signatures_map(s)[k] == signatures_map(s.take(i))[k],
    decreases s.len() - i,
{
    if i < s.len() {
        lemma_signatures_suffix(s, i + 1, k);
        assert(s.take(i + 1).drop_last() =~= s.take(i));
    } else {
        assert(s.take(i) =~= s);
    }
}

impl FunSigs {
    pub fn new() -> (r: Self)
        ensures
            r@ == SigEnv::empty(),
    {
        FunSigs { entries: Vec::new() }
    }

    /// Declares `name` with the given parameter types and return type,
    /// hiding any earlier declaration of `name`.
    pub fn insert(&mut self, name: String, params: Vec<Type>, ret: Type)
        ensures
            final(self)@ == old(self)@.insert(name@, (params@, ret)),
    {
        let ghost before = self.entries@;
        self.entries.push((name, params, ret));
        assert(self.entries@.drop_last() =~= before);
    }

    /// The parameter types of `name`, and its return type, if declared.
    pub fn get(&self, name: &String) -> (r: Option<(&Vec<Type>, &Type)>)
        ensures
            match r {
                Some((p, t)) => self@.contains_key(name@) && self@[name@] == (p@, *t),
                None => !self@.contains_key(name@),
            },
    {
        let ghost s = self.entries@;
        let mut i = self.entries.len();
        while i > 0
            invariant
                i <= s.len(),
                s == self.entries@,
                forall|j: int| i <= j < s.len() ==> #[trigger] s[j].0@ != name@,
            decreases i,
        {
            if self.entries[i - 1].0 == *name {
                proof {
                    lemma_signatures_suffix(s, i as int, name@);
                    assert(s.take(i as int).drop_last() =~= s.take(i - 1));
                }
                let e = &self.entries[i - 1];
                return Some((&e.1, &e.2));
            }
            i = i - 1;
        }
        proof {
            lemma_signatures_suffix(s, 0, name@);
        }
        None
    }
}

} // verus!
