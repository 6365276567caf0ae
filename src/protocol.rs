//! The fixed wire protocol: commands sent to the device and the markers it
//! answers with.

use vstd::prelude::*;

verus! {

/// A request sent to the device.
#[derive(Copy, Clone, Debug, PartialEq, Eq, Structural)]
pub enum Command {
    ShowHelp,
    Program,
    Run,
}

/// A response marker emitted by the device.
#[derive(Copy, Clone, Debug, PartialEq, Eq, Structural)]
pub enum Sequence {
    HelpScreen,
    Programming,
    UploadComplete,
}

/// The bytes of an ASCII text, one per character.
pub open spec fn ascii_bytes(text: Seq<char>) -> Seq<u8> {
    Seq::new(text.len(), |i: int| text[i] as u8)
}

/// The bytes transmitted for each command.
pub open spec fn command_bytes(cmd: Command) -> Seq<u8> {
    match cmd {
        Command::ShowHelp => ascii_bytes("*h"@),
        Command::Program => ascii_bytes("*p"@),
        Command::Run => ascii_bytes("$"@),
    }
}

/// The bytes that make up each response marker.
pub open spec fn sequence_bytes(seq: Sequence) -> Seq<u8> {
    match seq {
        Sequence::HelpScreen => ascii_bytes("Openrisc based virtual Prototype.\n"@),
        Sequence::Programming => ascii_bytes("Setting prog. mode\n"@),
        Sequence::UploadComplete => ascii_bytes("Upload done\n"@),
    }
}

/// Distinct commands are told apart by their bytes.
pub proof fn lemma_command_bytes_distinct(a: Command, b: Command)
    requires
        a != b,
    ensures
        command_bytes(a) != command_bytes(b),
{
    reveal_strlit("*h");
    reveal_strlit("*p");
    reveal_strlit("$");
    let (x, y) = (command_bytes(a), command_bytes(b));
    if x.len() == y.len() && x.len() == 2 {
        assert(x[1] != y[1]);
    }
}

/// The bytes of an ASCII string literal.
fn literal_bytes(text: &'static str) -> (r: &'static [u8])
    requires
        text.is_ascii(),
    ensures
        r@ == ascii_bytes(text@),
{
    proof {
        broadcast use vstd::string::is_ascii_spec_bytes;
    }
    text.as_bytes()
}

impl Command {
    pub fn as_bytes(&self) -> (r: &'static [u8])
        ensures
            r@ == command_bytes(*self),
    {
        match self {
            Command::ShowHelp => {
                proof {
                    reveal_strlit("*h");
                }
                literal_bytes("*h")
            },
            Command::Program => {
                proof {
                    reveal_strlit("*p");
                }
                literal_bytes("*p")
            },
            Command::Run => {
                proof {
                    reveal_strlit("$");
                }
                literal_bytes("$")
            },
        }
    }
}

impl Sequence {
    pub fn as_bytes(&self) -> (r: &'static [u8])
        ensures
            r@ == sequence_bytes(*self),
            r@.len() > 0,
    {
        match self {
            Sequence::HelpScreen => {
                proof {
                    reveal_strlit("Openrisc based virtual Prototype.\n");
                }
                literal_bytes("Openrisc based virtual Prototype.\n")
            },
            Sequence::Programming => {
                proof {
                    reveal_strlit("Setting prog. mode\n");
                }
                literal_bytes("Setting prog. mode\n")
            },
            Sequence::UploadComplete => {
                proof {
                    reveal_strlit("Upload done\n");
                }
                literal_bytes("Upload done\n")
            },
        }
    }
}

} // verus!
