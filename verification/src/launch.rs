//! How the application starts: with the editor attached, or as the bare game.

use vstd::prelude::*;

verus! {

/// Some argument is exactly `-game`.
pub open spec fn asks_for_game(args: Seq<String>) -> bool {
    exists|i: int| 0 <= i < args.len() && (#[trigger] args[i])@ == "-game"@
}

/// Whether the editor is attached: it is unless some command-line argument is
/// exactly `-game`.
pub fn editor_mode(args: &Vec<String>) -> (editor: bool)
    ensures
        editor == !asks_for_game(args@),
{
    let flag = "-game".to_owned();
    let mut i: usize = 0;
    while i < args.len()
        invariant
            i <= args.len(),
            flag@ == "-game"@,
            forall|j: int| 0 <= j < i ==> (#[trigger] args[j])@ != "-game"@,
        decreases args.len() - i,
    {
        if args[i] == flag {
            return false;
        }
        i += 1;
    }
    true
}

} // verus!
