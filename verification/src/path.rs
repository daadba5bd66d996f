use vstd::prelude::*;
use vstd::string::StringExecFns;

verus! {

/// The separator between the components of a path inside an archive.
pub open spec fn separator() -> Seq<char> {
    seq!['/']
}

/// The path of `name` inside the directory `root`. The archive's top level is
/// the empty root, under which a name stands alone.
pub open spec fn join(root: Seq<char>, name: Seq<char>) -> Seq<char> {
    if root.len() == 0 {
        name
    } else {
        root + separator() + name
    }
}

/// Builds the path of `name` inside the directory `root`.
pub fn join_path(root: &str, name: &str) -> (path: String)
    ensures
        path@ == join(root@, name@),
{
    if root.is_empty() {
        String::from_str(name)
    } else {
        proof {
            reveal_strlit("/");
            assert("/"@ =~= separator());
        }
        let mut path = String::from_str(root);
        path.append("/");
        path.append(name);
        path
    }
}

} // verus!
