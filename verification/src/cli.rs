//! Command-line arguments of the two programs: `--name value` pairs taken
//! out of the argument list one at a time, and a check that nothing is left.
use vstd::prelude::*;

use std::collections::VecDeque;

use crate::text::same_text;

verus! {

/// Errors of argument handling.
#[derive(Debug, Clone, PartialEq, Eq)]
pub enum CliError {
    /// A required `--name value` pair is absent; holds the name.
    MissingArgument(String),
    /// An argument is left over, unknown or without its value; holds it.
    UnexpectedArgument(String),
}

/// `i` is the first position of `name` among the arguments.
pub open spec fn first_position(args: Seq<String>, name: Seq<char>, i: int) -> bool {
    &&& 0 <= i < args.len()
    &&& args[i]@ == name
    &&& forall|j: int| 0 <= j < i ==> args[j]@ != name
}

/// Some argument equals `name`.
pub open spec fn mentions(args: Seq<String>, name: Seq<char>) -> bool {
    exists|i: int| 0 <= i < args.len() && args[i]@ == name
}

/// The arguments once the name at position `i` and the value after it (if
/// there is one) are taken out.
pub open spec fn without_pair(args: Seq<String>, i: int) -> Seq<String> {
    if i + 1 < args.len() {
        args.remove(i).remove(i)
    } else {
        args.remove(i)
    }
}

/// The value that follows the name at position `i`, if any.
pub open spec fn value_after(args: Seq<String>, i: int) -> Option<String> {
    if i + 1 < args.len() {
        Some(args[i + 1])
    } else {
        None
    }
}

/// A name has at most one first position.
proof fn lemma_first_position_unique(args: Seq<String>, name: Seq<char>, i: int, k: int)
    requires
        first_position(args, name, i),
        first_position(args, name, k),
    ensures
        i == k,
{
    if k < i {
        assert(args[k]@ != name);
    }
    if i < k {
        assert(args[i]@ != name);
    }
}

/// The first position of `name` among the arguments.
fn position_of(arguments: &VecDeque<String>, name: &str) -> (r: Option<usize>)
    ensures
        match r {
            Some(i) => first_position(arguments@, name@, i as int),
            None => !mentions(arguments@, name@),
        },
{
    let mut i: usize = 0;
    while i < arguments.len()
        invariant
            i <= arguments@.len(),
            forall|j: int| 0 <= j < i ==> arguments@[j]@ != name@,
        decreases arguments@.len() - i,
    {
        if same_text(arguments[i].as_str(), name) {
            return Some(i);
        }
        i = i + 1;
    }
    None
}

/// Takes the first `name` and the argument after it out of the list and
/// returns that argument. Without `name` the list is left as it is; a name
/// at the end is taken out and nothing is returned.
pub fn option(arguments: &mut VecDeque<String>, name: &str) -> (r: Option<String>)
    ensures
        !mentions(old(arguments)@, name@) ==> r is None && final(arguments)@ == old(arguments)@,
        forall|i: int|
            first_position(old(arguments)@, name@, i) ==> r == value_after(old(arguments)@, i)
                && final(arguments)@ == without_pair(old(arguments)@, i),
{
    match position_of(arguments, name) {
        None => None,
        Some(i) => {
            proof {
                assert forall|k: int| first_position(old(arguments)@, name@, k) implies k
                    == i as int by {
                    lemma_first_position_unique(old(arguments)@, name@, i as int, k);
                }
            }
            let _ = arguments.remove(i);
            arguments.remove(i)
        },
    }
}

/// Takes the first `name` out of the list; whether it was there.
pub fn flag(arguments: &mut VecDeque<String>, name: &str) -> (r: bool)
    ensures
        r == mentions(old(arguments)@, name@),
        !r ==> final(arguments)@ == old(arguments)@,
        forall|i: int|
            first_position(old(arguments)@, name@, i) ==> final(arguments)@ == old(
                arguments,
            )@.remove(i),
{
    match position_of(arguments, name) {
        None => false,
        Some(i) => {
            proof {
                assert forall|k: int| first_position(old(arguments)@, name@, k) implies k
                    == i as int by {
                    lemma_first_position_unique(old(arguments)@, name@, i as int, k);
                }
            }
            let _ = arguments.remove(i);
            true
        },
    }
}

/// Like `option`, but the pair must be there.
pub fn required(arguments: &mut VecDeque<String>, name: &str) -> (r: Result<String, CliError>)
    ensures
        !mentions(old(arguments)@, name@) ==> (r matches Err(CliError::MissingArgument(n)) && n@
            == name@),
        !mentions(old(arguments)@, name@) ==> final(arguments)@ == old(arguments)@,
        forall|i: int|
            first_position(old(arguments)@, name@, i) ==> final(arguments)@ == without_pair(
                old(arguments)@,
                i,
            ) && match value_after(old(arguments)@, i) {
                Some(v) => r == Ok::<String, CliError>(v),
                None => (r matches Err(CliError::MissingArgument(n)) && n@ == name@),
            },
{
    match option(arguments, name) {
        Some(value) => Ok(value),
        None => Err(CliError::MissingArgument(name.to_owned())),
    }
}

/// Succeeds when no argument is left; otherwise names the first one.
pub fn ensure_empty(arguments: VecDeque<String>) -> (r: Result<(), CliError>)
    ensures
        arguments@.len() == 0 ==> r is Ok,
        arguments@.len() > 0 ==> r == Err::<(), CliError>(
            CliError::UnexpectedArgument(arguments@[0]),
        ),
{
    if arguments.len() > 0 {
        Err(CliError::UnexpectedArgument(arguments[0].clone()))
    } else {
        Ok(())
    }
}

} // verus!
