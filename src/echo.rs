//! The reply of the echo command, used to check that the module answers.
use vstd::prelude::*;

use crate::argparse::strings_view;
use crate::params::RequestError;

verus! {

/// The texts joined with `", "` between them.
pub open spec fn joined(parts: Seq<Seq<char>>) -> Seq<char>
    decreases parts.len(),
{
    if parts.len() == 0 {
        Seq::empty()
    } else if parts.len() == 1 {
        parts[0]
    } else {
        joined(parts.drop_last()) + seq![',', ' '] + parts.last()
    }
}

/// Echoes the command's arguments (its name first) joined by `", "`; at least
/// two are needed.
pub fn echo_reply(args: Vec<String>) -> (r: Result<String, RequestError>)
    ensures
        args@.len() < 2 ==> r == Err::<String, RequestError>(RequestError::WrongArity),
        args@.len() >= 2 ==> r is Ok && r->Ok_0@ == joined(strings_view(args@)),
{
    if args.len() < 2 {
        return Err(RequestError::WrongArity);
    }
    let ghost parts = strings_view(args@);
    let mut out = args[0].clone();
    let mut i: usize = 1;
    assert(parts.subrange(0, 1) =~= seq![parts[0]]);
    while i < args.len()
        invariant
            1 <= i <= args@.len(),
            parts == strings_view(args@),
            out@ == joined(parts.subrange(0, i as int)),
        decreases args@.len() - i,
    {
        out.append(", ");
        out.append(args[i].as_str());
        proof {
            reveal_strlit(", ");
            let next = parts.subrange(0, i + 1);
            assert(next.drop_last() =~= parts.subrange(0, i as int));
            assert(next.last() == args@[i as int]@);
            assert(out@ =~= joined(next));
        }
        i = i + 1;
    }
    assert(parts.subrange(0, args@.len() as int) =~= parts);
    Ok(out)
}

} // verus!
