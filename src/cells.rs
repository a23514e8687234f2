//! Top-level cells: names that are defined but never referenced.
use vstd::prelude::*;

verus! {

/// The set of texts held by `v`.
pub open spec fn name_set(v: Seq<String>) -> Set<Seq<char>> {
    Set::new(|n: Seq<char>| exists|i: int| 0 <= i < v.len() && v[i]@ == n)
}

/// No text occurs twice in `v`.
pub open spec fn distinct_names(v: Seq<String>) -> bool {
    forall|i: int, j: int| 0 <= i < j < v.len() ==> v[i]@ != v[j]@
}

/// The top-level cells among `defined`, given the `referenced` names.
pub open spec fn top_cell_set(defined: Set<Seq<char>>, referenced: Set<Seq<char>>) -> Set<
    Seq<char>,
> {
    defined.difference(referenced)
}

/// Appending a string adds its text to the set of texts.
pub proof fn lemma_name_set_push(v: Seq<String>, s: String)
    ensures
        name_set(v.push(s)) == name_set(v).insert(s@),
{
    let w = v.push(s);
    assert(w[v.len() as int] == s);
    assert forall|n: Seq<char>| name_set(v).contains(n) implies name_set(w).contains(n) by {
        let k = choose|k: int| 0 <= k < v.len() && v[k]@ == n;
        assert(w[k] == v[k]);
    }
    assert forall|n: Seq<char>| name_set(w).contains(n) implies n == s@ || name_set(v).contains(
        n,
    ) by {
        let k = choose|k: int| 0 <= k < w.len() && w[k]@ == n;
        if k < v.len() {
            assert(v[k] == w[k]);
        }
    }
    assert(name_set(w) =~= name_set(v).insert(s@));
}

/// Tells whether `name` occurs in `v`.
pub fn contains_name(v: &Vec<String>, name: &String) -> (r: bool)
    ensures
        r == name_set(v@).contains(name@),
{
    let mut i: usize = 0;
    while i < v.len()
        invariant
            i <= v@.len(),
            forall|k: int| 0 <= k < i ==> v@[k]@ != name@,
        decreases v@.len() - i,
    {
        if v[i] == *name {
            assert(name_set(v@).contains(name@)) by {
                assert(v@[i as int]@ == name@);
            }
            return true;
        }
        i += 1;
    }
    false
}

/// The names of `defined` that `referenced` does not hold, each once, in the
/// order of their first occurrence in `defined`.
pub fn top_cell_names(defined: &Vec<String>, referenced: &Vec<String>) -> (r: Vec<String>)
    ensures
        name_set(r@) == top_cell_set(name_set(defined@), name_set(referenced@)),
        distinct_names(r@),
{
    let mut out: Vec<String> = Vec::new();
    let mut i: usize = 0;
    while i < defined.len()
        invariant
            i <= defined@.len(),
            distinct_names(out@),
            name_set(out@) == top_cell_set(
                name_set(defined@.subrange(0, i as int)),
                name_set(referenced@),
            ),
        decreases defined@.len() - i,
    {
        let name = &defined[i];
        let seen = contains_name(&out, name);
        let excluded = contains_name(referenced, name);
        if !seen && !excluded {
            proof {
                lemma_name_set_push(out@, *name);
            }
            out.push(name.clone());
        }
        let ghost prefix = defined@.subrange(0, i as int);
        proof {
            assert(defined@.subrange(0, i + 1) =~= prefix.push(*name));
            lemma_name_set_push(prefix, *name);
        }
        assert(name_set(out@) =~= top_cell_set(
            name_set(defined@.subrange(0, i + 1)),
            name_set(referenced@),
        ));
        i += 1;
    }
    assert(defined@.subrange(0, defined@.len() as int) =~= defined@);
    out
}

} // verus!
