//! Choice of where the payload comes from.

use vstd::prelude::*;
use vstd::string::StringSliceAdditionalSpecFns;

verus! {

/// Where the payload is read from.
#[derive(Clone, Debug)]
pub enum PayloadSource {
    /// The process's standard input.
    Stdin,
    /// The file at this path.
    File(String),
}

/// The argument that stands for standard input: a lone `-`.
pub open spec fn is_stdin_token(arg: Seq<u8>) -> bool {
    arg == seq!['-' as u8]
}

/// Reads a payload argument: `-` names standard input, anything else a path.
pub fn payload_source(arg: &str) -> (r: PayloadSource)
    ensures
        r is Stdin <==> is_stdin_token(arg.spec_bytes()),
        r matches PayloadSource::File(path) ==> path@ == arg@,
{
    let bytes = arg.as_bytes();
    if bytes.len() == 1 && bytes[0] == '-' as u8 {
        assert(bytes@ =~= seq!['-' as u8]);
        PayloadSource::Stdin
    } else {
        PayloadSource::File(arg.to_owned())
    }
}

} // verus!
