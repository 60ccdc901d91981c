//! A parser for one line of a mount table, the format of `/etc/fstab` and
//! `/proc/mounts`.
//!
//! A line holds six fields with spaces or tabs between them: the device,
//! the mount point, the file system type, the options, and two fields that
//! have to read `0`. Inside the device, the mount point and the options a
//! backslash starts an escape: `\\` stands for a backslash, `\040` for a
//! space, `\011` for a tab and `\012` for a newline. The options are split
//! at their commas, and each is decoded on its own.
//!
//! [`p`] parses a line into a [`Mount`] or rejects it with a [`ParseError`].
//! What it returns on every input is fixed by the functions of [`grammar`];
//! [`laws`] holds what has been proved of them.

pub mod chars;
pub mod error;
pub mod escape;
pub mod grammar;
pub mod laws;
pub mod lemmas;
pub mod mount;
pub mod parsers;

use vstd::prelude::*;

use crate::error::ParseErrorView;
use crate::grammar::spec_parse_line;
use crate::mount::MountView;

pub use crate::error::{ErrorKind, Failure, ParseError};
pub use crate::escape::escape;
pub use crate::mount::Mount;

verus! {

/// Parses one line of a mount table, such as a line of `/etc/fstab` or of
/// `/proc/mounts` without its newline: gives the entry it describes, and
/// the empty rest of the line.
///
/// A line that does not have the shape of an entry is rejected, with the
/// first element that did not match and the input that was left there.
pub fn p<'a>(i: &'a str) -> (r: Result<(&'a str, Mount), ParseError<'a>>)
    ensures
        match r {
            Ok((rest, mount)) => spec_parse_line(i@) == Ok::<
                (Seq<char>, MountView),
                ParseErrorView,
            >((rest@, mount@)),
            Err(e) => spec_parse_line(i@) == Err::<(Seq<char>, MountView), ParseErrorView>(e@),
        },
        r matches Ok((rest, mount)) ==> rest@.len() == 0 && mount.options.len() >= 1,
{
    parsers::parse_line(i)
}

} // verus!
