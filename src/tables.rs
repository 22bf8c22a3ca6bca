use vstd::prelude::*;
use crate::constants::{Loc, Operator};

verus! {

/// A function definition. Inline functions keep their resolved body for
/// substitution; others are reached by a call.
#[derive(Debug, Clone)]
pub struct Function {
    pub loc: Loc,
    pub name: String,
    pub inline: bool,
    pub tokens: Option<Vec<Operator>>,
}

/// A constant definition.
#[derive(Debug, Clone)]
pub struct Constant {
    pub loc: Loc,
    pub name: String,
}

/// A memory definition; `id` is its index in the arena of memories.
#[derive(Debug, Clone)]
pub struct Memory {
    pub loc: Loc,
    pub name: String,
    pub id: usize,
}

pub open spec fn function_names(fs: Seq<Function>) -> Seq<Seq<char>> {
    fs.map_values(|f: Function| f.name@)
}

pub open spec fn constant_names(cs: Seq<Constant>) -> Seq<Seq<char>> {
    cs.map_values(|c: Constant| c.name@)
}

pub open spec fn memory_names(ms: Seq<Memory>) -> Seq<Seq<char>> {
    ms.map_values(|m: Memory| m.name@)
}

/// The first index at which `name` stands in `names`.
pub open spec fn first_index(names: Seq<Seq<char>>, name: Seq<char>) -> Option<int> {
    if exists|i: int| 0 <= i < names.len() && names[i] == name {
        Some(
            choose|i: int|
                0 <= i < names.len() && names[i] == name && forall|j: int|
                    0 <= j < i ==> names[j] != name,
        )
    } else {
        None
    }
}

/// Whether no name occurs twice.
pub open spec fn names_unique(names: Seq<Seq<char>>) -> bool {
    forall|i: int, j: int| 0 <= i < j < names.len() ==> names[i] != names[j]
}

pub proof fn lemma_first_index(names: Seq<Seq<char>>, name: Seq<char>, i: int)
    requires
        0 <= i < names.len(),
        names[i] == name,
        forall|j: int| 0 <= j < i ==> names[j] != name,
    ensures
        first_index(names, name) == Some(i),
{
    let k = choose|k: int|
        0 <= k < names.len() && names[k] == name && forall|j: int| 0 <= j < k ==> names[j] != name;
    assert(0 <= k < names.len() && names[k] == name);
    if k < i {
        assert(names[k] != name);
    } else if k > i {
        assert(names[i] != name);
    }
}

pub fn find_function(fs: &Vec<Function>, name: &String) -> (r: Option<usize>)
    ensures
        r matches Some(i) ==> Some(i as int) == first_index(function_names(fs@), name@) && i < fs@.len()
            && fs@[i as int].name@ == name@,
        r is None ==> first_index(function_names(fs@), name@) is None,
{
    let ghost names = function_names(fs@);
    let mut i: usize = 0;
    while i < fs.len()
        invariant
            i <= fs@.len(),
            names == function_names(fs@),
            forall|j: int| 0 <= j < i ==> names[j] != name@,
        decreases fs.len() - i,
    {
        if fs[i].name == *name {
            proof {
                lemma_first_index(names, name@, i as int);
            }
            return Some(i);
        }
        i = i + 1;
    }
    None
}

pub fn find_constant(cs: &Vec<Constant>, name: &String) -> (r: Option<usize>)
    ensures
        r matches Some(i) ==> Some(i as int) == first_index(constant_names(cs@), name@) && i < cs@.len()
            && cs@[i as int].name@ == name@,
        r is None ==> first_index(constant_names(cs@), name@) is None,
{
    let ghost names = constant_names(cs@);
    let mut i: usize = 0;
    while i < cs.len()
        invariant
            i <= cs@.len(),
            names == constant_names(cs@),
            forall|j: int| 0 <= j < i ==> names[j] != name@,
        decreases cs.len() - i,
    {
        if cs[i].name == *name {
            proof {
                lemma_first_index(names, name@, i as int);
            }
            return Some(i);
        }
        i = i + 1;
    }
    None
}

pub fn find_memory(ms: &Vec<Memory>, name: &String) -> (r: Option<usize>)
    ensures
        r matches Some(i) ==> Some(i as int) == first_index(memory_names(ms@), name@) && i < ms@.len()
            && ms@[i as int].name@ == name@,
        r is None ==> first_index(memory_names(ms@), name@) is None,
{
    let ghost names = memory_names(ms@);
    let mut i: usize = 0;
    while i < ms.len()
        invariant
            i <= ms@.len(),
            names == memory_names(ms@),
            forall|j: int| 0 <= j < i ==> names[j] != name@,
        decreases ms.len() - i,
    {
        if ms[i].name == *name {
            proof {
                lemma_first_index(names, name@, i as int);
            }
            return Some(i);
        }
        i = i + 1;
    }
    None
}

/// `a` and `b` hold the same definition.
pub open spec fn same_function(a: Function, b: Function) -> bool {
    &&& a.loc == b.loc
    &&& a.name == b.name
    &&& a.inline == b.inline
    &&& match (a.tokens, b.tokens) {
        (Some(x), Some(y)) => x@ == y@,
        (None, None) => true,
        _ => false,
    }
}

impl Function {
    pub fn duplicate(&self) -> (r: Self)
        ensures
            same_function(r, *self),
    {
        let tokens = match &self.tokens {
            Some(t) => {
                let c = crate::preprocessor::slice_ops(t, 0, t.len());
                assert(t@.subrange(0, t@.len() as int) =~= t@);
                Some(c)
            },
            None => None,
        };
        Function {
            loc: crate::constants::copy_loc(&self.loc),
            name: self.name.clone(),
            inline: self.inline,
            tokens,
        }
    }
}

impl Memory {
    pub fn duplicate(&self) -> (r: Self)
        ensures
            r == *self,
    {
        Memory { loc: crate::constants::copy_loc(&self.loc), name: self.name.clone(), id: self.id }
    }
}

impl Constant {
    pub fn duplicate(&self) -> (r: Self)
        ensures
            r == *self,
    {
        Constant { loc: crate::constants::copy_loc(&self.loc), name: self.name.clone() }
    }
}

} // verus!
