//! Where in the numbered directory a test or a module gets its
//! subdirectory.

use crate::path::{push_component, push_path};
use vstd::prelude::*;

verus! {

/// A module path as a relative path: every separator `::` becomes `/`,
/// from the left.
pub open spec fn slashed(module: Seq<char>) -> Seq<char>
    decreases module.len(),
{
    if module.len() == 0 {
        Seq::empty()
    } else if module.len() >= 2 && module[0] == ':' && module[1] == ':' {
        seq!['/'] + slashed(module.skip(2))
    } else {
        seq![module[0]] + slashed(module.skip(1))
    }
}

/// Turns a module path into a relative path.
pub fn module_dir(module: &str) -> (dir: String)
    ensures
        dir@ == slashed(module@),
{
    let n = module.unicode_len();
    let mut dir = String::new();
    let mut i: usize = 0;
    proof {
        reveal_strlit("/");
        assert(module@.skip(0) =~= module@);
    }
    while i < n
        invariant
            i <= n,
            n == module@.len(),
            "/"@ == seq!['/'],
            dir@ + slashed(module@.skip(i as int)) == slashed(module@),
        decreases n - i,
    {
        let ghost rest = module@.skip(i as int);
        if i + 1 < n && module.get_char(i) == ':' && module.get_char(i + 1) == ':' {
            proof {
                assert(rest.skip(2) =~= module@.skip(i + 2));
                assert((dir@ + seq!['/']) + slashed(rest.skip(2)) =~= dir@ + slashed(rest));
            }
            dir.append("/");
            i = i + 2;
        } else {
            let piece = module.substring_char(i, i + 1);
            proof {
                assert(piece@ =~= seq![rest[0]]);
                assert(rest.skip(1) =~= module@.skip(i + 1));
                assert((dir@ + piece@) + slashed(rest.skip(1)) =~= dir@ + slashed(rest));
            }
            dir.append(piece);
            i = i + 1;
        }
    }
    proof {
        assert(dir@ + Seq::<char>::empty() =~= dir@);
    }
    dir
}

/// The subdirectory of the test `test_name` of the module `module`:
/// the module path as directories, then the name of the test.
pub fn test_scope(module: &str, test_name: &str) -> (subdir: String)
    ensures
        subdir@ == push_component(slashed(module@), test_name@),
{
    let dir = module_dir(module);
    push_path(dir.as_str(), test_name)
}

/// The subdirectory of the module `module`: the module path as
/// directories, then `mod`.
pub fn module_scope(module: &str) -> (subdir: String)
    ensures
        subdir@ == push_component(slashed(module@), "mod"@),
{
    let dir = module_dir(module);
    push_path(dir.as_str(), "mod")
}

} // verus!
