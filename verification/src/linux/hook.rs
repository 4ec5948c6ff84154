//! Which calls of `sysctl` only read.
use crate::text::{contains_char, same};
use vstd::prelude::*;

verus! {

/// Whether an argument of `sysctl` sets a knob or loads settings.
pub open spec fn writes(arg: Seq<char>) -> bool {
    arg.contains('=') || arg == "-w"@ || arg == "--write"@ || arg == "-p"@ || arg == "--load"@ || arg == "--system"@
}

/// Whether a call of `sysctl` with these arguments only reads.
pub fn sysctl_is_read(args: &[String]) -> (r: bool)
    ensures
        r == forall|i: int| 0 <= i < args@.len() ==> !writes(#[trigger] args@[i]@),
{
    for i in 0..args.len()
        invariant
            forall|k: int| 0 <= k < i ==> !writes(#[trigger] args@[k]@),
    {
        let a = args[i].as_str();
        if contains_char(a, '=') || same(a, "-w") || same(a, "--write") || same(a, "-p") || same(a, "--load") || same(
            a,
            "--system",
        ) {
            assert(writes(args@[i as int]@));
            return false;
        }
    }
    true
}

/// An assignment writes, whatever its key and value; a plain key, without a sign of equality and
/// without a dash at its start, does not.
pub proof fn assignments_write(key: Seq<char>, value: Seq<char>)
    ensures
        writes(key + seq!['='] + value),
        !key.contains('=') && key.len() > 0 && key[0] != '-' ==> !writes(key),
        writes("-w"@) && writes("--write"@) && writes("-p"@) && writes("--load"@) && writes("--system"@),
        !writes("-a"@),
{
    assert((key + seq!['='] + value)[key.len() as int] == '=');
    reveal_strlit("-w");
    reveal_strlit("--write");
    reveal_strlit("-p");
    reveal_strlit("--load");
    reveal_strlit("--system");
    reveal_strlit("-a");
    assert("-w"@[0] == '-' && "--write"@[0] == '-' && "-p"@[0] == '-' && "--load"@[0] == '-' && "--system"@[0] == '-');
    assert("-a"@.len() == 2 && "-a"@[0] == '-' && "-a"@[1] == 'a' && "-w"@[1] == 'w' && "-p"@[1] == 'p');
    assert("--write"@.len() == 7 && "--load"@.len() == 6 && "--system"@.len() == 8);
}

} // verus!
