//! The arity check on the raw command line.  A scan takes exactly two
//! positional arguments, an address and a port range; a lone `h` (or no
//! argument at all) asks for the usage text.  The caller decides what to
//! print and how to exit; this function only classifies.

use vstd::prelude::*;

use crate::errors::ValidationError;
use vstd::string::StrSliceExecFns;

verus! {

/// Does the argument list ask for help: no argument beyond the program
/// name, or a single `h`?
pub open spec fn is_help_request(args: Seq<String>) -> bool {
    args.len() == 1 || (args.len() == 2 && args[1]@ == seq!['h'])
}

/// Classifies the raw argument list (program name included).  Accepts
/// exactly a list of three: the program name, an address, a port range.
pub fn check_args(args: &Vec<String>) -> (r: Result<(), ValidationError>)
    ensures
        match r {
            Ok(()) => args@.len() == 3,
            Err(e) => {
                &&& (e == ValidationError::Help <==> is_help_request(args@))
                &&& (e == ValidationError::WrongArgCount <==> (args@.len() != 3
                    && !is_help_request(args@)))
                &&& (e == ValidationError::Help || e == ValidationError::WrongArgCount)
            },
        },
{
    let n = args.len();
    if n == 1 {
        return Err(ValidationError::Help);
    }
    if n == 2 {
        let a = args[1].as_str();
        if a.unicode_len() == 1 && a.get_char(0) == 'h' {
            proof {
                assert(args@[1]@ =~= seq!['h']);
            }
            return Err(ValidationError::Help);
        }
        proof {
            assert(args@[1]@ != seq!['h']) by {
                if args@[1]@ == seq!['h'] {
                    assert(args@[1]@.len() == 1);
                    assert(args@[1]@[0] == 'h');
                }
            }
        }
        return Err(ValidationError::WrongArgCount);
    }
    if n != 3 {
        return Err(ValidationError::WrongArgCount);
    }
    Ok(())
}

} // verus!
