//! Method arguments as native methods receive them: the last slot holds
//! the block, which is `nil` when none was given.
use vstd::prelude::*;
use crate::error::Error;
use crate::fmt::{append_dec, dec};
use crate::value::{RObject, RValue, models};

verus! {

/// The arguments without a trailing `nil` (the empty block slot).
pub open spec fn without_trailing_nil(args: Seq<RObject>) -> Seq<RObject> {
    if args.len() > 0 && args.last().value is Nil {
        args.drop_last()
    } else {
        args
    }
}

/// The arguments without a trailing `nil`.
pub fn strip_trailing_nil(args: &[RObject]) -> (r: &[RObject])
    ensures
        r@ == without_trailing_nil(args@),
{
    let n = args.len();
    if n > 0 {
        match &args[n - 1].value {
            RValue::Nil => {
                let r = vstd::slice::slice_subrange(args, 0, n - 1);
                assert(r@ =~= args@.drop_last());
                return r;
            },
            _ => {},
        }
    }
    let r = vstd::slice::slice_subrange(args, 0, n);
    assert(r@ =~= args@);
    r
}

/// The message of a wrong argument count.
pub open spec fn arity_message(given: nat, expected: nat) -> Seq<char> {
    "wrong number of arguments (given "@ + dec(given) + ", expected "@ + dec(expected) + ")"@
}

/// Checks that exactly `expected` arguments (besides an empty block slot)
/// were given and hands back copies of them.
pub fn check_args_count(args: &[RObject], expected: usize) -> (r: Result<Vec<RObject>, Error>)
    ensures
        without_trailing_nil(args@).len() == expected ==> (r matches Ok(v) && models(v@) == models(
            without_trailing_nil(args@),
        )),
        without_trailing_nil(args@).len() != expected ==> (r matches Err(Error::ArgumentError(m)) && m@
            == arity_message(without_trailing_nil(args@).len(), expected as nat)),
{
    let args = strip_trailing_nil(args);
    let n = args.len();
    if n != expected {
        let mut m = String::from_str("wrong number of arguments (given ");
        append_dec(&mut m, n as u64);
        m.append(", expected ");
        append_dec(&mut m, expected as u64);
        m.append(")");
        proof {
            reveal_strlit(", expected ");
            reveal_strlit(")");
            reveal_strlit("wrong number of arguments (given ");
        }
        assert(m@ =~= arity_message(n as nat, expected as nat));
        return Err(Error::ArgumentError(m));
    }
    let out = crate::array::copy_range(args, 0, n);
    assert(args@.subrange(0, n as int) =~= args@);
    Ok(out)
}

} // verus!
