use vstd::prelude::*;

verus! {

/// A file of the registry tree that holds a package: its name carries
/// no dot, unlike configuration files.
pub open spec fn spec_is_crate_entry(name: Seq<char>) -> bool {
    forall|i: int| 0 <= i < name.len() ==> name[i] != '.'
}

/// How many of the names are package files.
pub open spec fn spec_crate_count(names: Seq<String>) -> int
    decreases names.len(),
{
    if names.len() == 0 {
        0
    } else {
        spec_crate_count(names.drop_last()) + if spec_is_crate_entry(names.last()@) {
            1int
        } else {
            0int
        }
    }
}

/// Whether a file name names a package.
pub fn is_crate_entry(name: &str) -> (r: bool)
    ensures
        r == spec_is_crate_entry(name@),
{
    let n = name.unicode_len();
    let mut i: usize = 0;
    while i < n
        invariant
            n == name@.len(),
            i <= n,
            forall|q: int| 0 <= q < i ==> name@[q] != '.',
        decreases n - i,
    {
        if name.get_char(i) == '.' {
            return false;
        }
        i += 1;
    }
    true
}

/// Counts the package files among the given names.
pub fn count_crates(names: &Vec<String>) -> (r: usize)
    ensures
        r == spec_crate_count(names@),
{
    let mut count: usize = 0;
    let n = names.len();
    let mut i: usize = 0;
    while i < n
        invariant
            n == names@.len(),
            i <= n,
            count <= i,
            count == spec_crate_count(names@.take(i as int)),
        decreases n - i,
    {
        if is_crate_entry(names[i].as_str()) {
            count += 1;
        }
        proof {
            assert(names@.take(i + 1).drop_last() =~= names@.take(i as int));
            assert(names@.take(i + 1).last() == names@[i as int]);
        }
        i += 1;
    }
    proof {
        assert(names@.take(n as int) =~= names@);
    }
    count
}

} // verus!
