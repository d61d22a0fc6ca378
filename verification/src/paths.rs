//! File paths as text.

use vstd::prelude::*;

use crate::text::ends_with;
use crate::text::finishes_with;

verus! {

/// The path of the file called `name`, which is no absolute path, under `base`.
pub open spec fn joined_path(base: Seq<char>, name: Seq<char>) -> Seq<char> {
    if base.len() == 0 || finishes_with(base, "/"@) {
        base + name
    } else {
        base + "/"@ + name
    }
}

/// The path of the file called `name`, which is no absolute path, under `base`.
pub fn join_path(base: &str, name: &str) -> (path: String)
    ensures
        path@ == joined_path(base@, name@),
{
    let mut path: String = base.to_owned();
    if !base.is_empty() && !ends_with(base, "/") {
        path.append("/");
    }
    path.append(name);
    path
}

/// A path is the base and the name with a single separator between them: none is added
/// where the base ends in one, and none where there is no base.
pub proof fn law_one_separator(base: Seq<char>, name: Seq<char>)
    ensures
        ({
            let path = joined_path(base, name);
            &&& path.len() <= base.len() + 1 + name.len()
            &&& path.take(base.len() as int) == base
            &&& path.skip(path.len() - name.len()) == name
            &&& base.len() == 0 ==> path == name
            &&& base.len() > 0 ==> path[path.len() - name.len() - 1] == '/'
            &&& base.len() > 0 && base.last() == '/' ==> path.len() == base.len() + name.len()
        }),
{
    reveal_strlit("/");
    let path = joined_path(base, name);
    assert(path.take(base.len() as int) =~= base);
    assert(path.skip(path.len() - name.len()) =~= name);
    if base.len() == 0 {
        assert(path =~= name);
    } else {
        let end = base.subrange(base.len() - 1, base.len() as int);
        if base.last() == '/' {
            assert(end =~= "/"@);
        } else {
            assert(end[0] != "/"@[0]);
        }
    }
}

} // verus!
