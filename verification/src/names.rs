//! Lists of names, compared by their characters.

use vstd::prelude::*;

verus! {

/// The names of a list of strings, each as its sequence of characters.
pub open spec fn names_of(v: Seq<String>) -> Seq<Seq<char>> {
    Seq::new(v.len(), |i: int| v[i]@)
}

/// Whether `name` occurs in `names`.
pub fn contains_name(names: &Vec<String>, name: &str) -> (r: bool)
    ensures
        r == names_of(names@).contains(name@),
{
    let key = name.to_owned();
    let mut i: usize = 0;
    while i < names.len()
        invariant
            i <= names.len(),
            key@ == name@,
            forall|j: int| 0 <= j < i ==> names_of(names@)[j] != name@,
        decreases names.len() - i,
    {
        if names[i] == key {
            assert(names_of(names@)[i as int] == name@);
            return true;
        }
        i += 1;
    }
    false
}

/// A copy of an optional text.
pub fn copy_text(text: &Option<String>) -> (r: Option<String>)
    ensures
        r == *text,
{
    match text {
        Some(s) => Some(s.clone()),
        None => None,
    }
}

/// A copy of a list of names.
pub fn copy_names(names: &Vec<String>) -> (r: Vec<String>)
    ensures
        r@ == names@,
{
    let mut r: Vec<String> = Vec::new();
    let mut i: usize = 0;
    while i < names.len()
        invariant
            i <= names.len(),
            r@ == names@.take(i as int),
        decreases names.len() - i,
    {
        r.push(names[i].clone());
        assert(r@ =~= names@.take(i + 1));
        i += 1;
    }
    assert(names@.take(i as int) =~= names@);
    r
}

/// The names of `names` that do not occur in `dropped`, in their order.
pub open spec fn names_without(names: Seq<Seq<char>>, dropped: Seq<Seq<char>>) -> Seq<Seq<char>>
    decreases names.len(),
{
    if names.len() == 0 {
        names
    } else {
        let front = names_without(names.drop_last(), dropped);
        if dropped.contains(names.last()) {
            front
        } else {
            front.push(names.last())
        }
    }
}

/// `names` followed by the names of `added` that it lacks, each once, in
/// their order.
pub open spec fn names_with(names: Seq<Seq<char>>, added: Seq<Seq<char>>) -> Seq<Seq<char>>
    decreases added.len(),
{
    if added.len() == 0 {
        names
    } else {
        let front = names_with(names, added.drop_last());
        if front.contains(added.last()) {
            front
        } else {
            front.push(added.last())
        }
    }
}

/// Takes from a list of names those that occur in `dropped`, then adds
/// those of `added` that are not there yet.
pub fn revise_names(names: &Vec<String>, added: &Vec<String>, dropped: &Vec<String>) -> (r: Vec<String>)
    ensures
        names_of(r@) == names_with(names_without(names_of(names@), names_of(dropped@)), names_of(added@)),
{
    let mut r: Vec<String> = Vec::new();
    let mut i: usize = 0;
    assert(names_of(names@).take(0) =~= Seq::<Seq<char>>::empty());
    assert(names_of(r@) =~= Seq::<Seq<char>>::empty());
    while i < names.len()
        invariant
            i <= names.len(),
            names_of(r@) == names_without(names_of(names@).take(i as int), names_of(dropped@)),
        decreases names.len() - i,
    {
        let ghost before = names_of(r@);
        proof {
            assert(names_of(names@).take(i + 1).drop_last() =~= names_of(names@).take(i as int));
            assert(names_of(names@).take(i + 1).last() == names@[i as int]@);
        }
        if !contains_name(dropped, names[i].as_str()) {
            r.push(names[i].clone());
            assert(names_of(r@) =~= before.push(names@[i as int]@));
        }
        i += 1;
    }
    assert(names_of(names@).take(i as int) =~= names_of(names@));
    let ghost kept = names_of(r@);
    let mut k: usize = 0;
    assert(names_of(added@).take(0) =~= Seq::<Seq<char>>::empty());
    while k < added.len()
        invariant
            k <= added.len(),
            names_of(r@) == names_with(kept, names_of(added@).take(k as int)),
        decreases added.len() - k,
    {
        let ghost before = names_of(r@);
        proof {
            assert(names_of(added@).take(k + 1).drop_last() =~= names_of(added@).take(k as int));
            assert(names_of(added@).take(k + 1).last() == added@[k as int]@);
        }
        if !contains_name(&r, added[k].as_str()) {
            r.push(added[k].clone());
            assert(names_of(r@) =~= before.push(added@[k as int]@));
        }
        k += 1;
    }
    assert(names_of(added@).take(k as int) =~= names_of(added@));
    r
}

} // verus!
