use vstd::prelude::*;

verus! {

/// The byte of the path separator, `/`.
pub const PATH_SEPARATOR: u8 = 0x2f;

/// The absolute path of a node named `name` in the directory whose
/// absolute path is `parent`: the parent's path, a slash, and the name.
pub fn join_path(parent: &[u8], name: &[u8]) -> (path: Vec<u8>)
    ensures
        path@ == parent@ + seq![PATH_SEPARATOR] + name@,
{
    let mut path: Vec<u8> = Vec::new();
    let mut i: usize = 0;
    while i < parent.len()
        invariant
            i <= parent@.len(),
            path@ == parent@.subrange(0, i as int),
        decreases parent@.len() - i,
    {
        path.push(parent[i]);
        i = i + 1;
        proof {
            assert(path@ =~= parent@.subrange(0, i as int));
        }
    }
    path.push(PATH_SEPARATOR);
    let mut j: usize = 0;
    while j < name.len()
        invariant
            j <= name@.len(),
            path@ == parent@ + seq![PATH_SEPARATOR] + name@.subrange(0, j as int),
        decreases name@.len() - j,
    {
        path.push(name[j]);
        j = j + 1;
        proof {
            assert(path@ =~= parent@ + seq![PATH_SEPARATOR] + name@.subrange(0, j as int));
        }
    }
    proof {
        assert(parent@.subrange(0, parent@.len() as int) =~= parent@);
        assert(name@.subrange(0, name@.len() as int) =~= name@);
    }
    path
}

} // verus!
