//! Which calls of `jq` carry a filter.
use vstd::prelude::*;
use vstd::string::*;

verus! {

/// Whether an argument is a flag.
pub open spec fn is_flag(arg: Seq<char>) -> bool {
    arg.len() > 0 && arg[0] == '-'
}

/// Whether a call of `jq` with these arguments has one that is not a flag.
pub fn jq_has_filter(args: &[String]) -> (r: bool)
    ensures
        r == exists|i: int| 0 <= i < args@.len() && !is_flag(#[trigger] args@[i]@),
{
    for i in 0..args.len()
        invariant
            forall|k: int| 0 <= k < i ==> is_flag(#[trigger] args@[k]@),
    {
        let a = args[i].as_str();
        if a.is_empty() || a.get_char(0) != '-' {
            assert(!is_flag(args@[i as int]@));
            return true;
        }
    }
    false
}

} // verus!
