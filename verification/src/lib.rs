use vstd::prelude::*;

pub mod strutil;
pub mod descriptor;
pub mod class;
pub mod index;

verus! {

/// The fatal failures that parsing a mapping unit or decoding a JVM type
/// descriptor can report.  Every one of them aborts the whole run: the tool
/// has no partial-output mode.
#[derive(Clone, Copy, Debug, PartialEq, Eq, Structural)]
pub enum Error {
    /// A class header line is missing the obfuscated-path field.
    MalformedHeader,
    /// A line's leading word is none of the five recognized tags.
    UnrecognizedLineVariant,
    /// An `ARG` line appears when the most recent member is a field or no
    /// member exists, or an argument slot lacks a name to attach to.
    ArgWithoutMethod,
    /// An attempt to attach a per-argument comment to a field member.
    CommentOnField,
    /// A character or sequence outside the recognized primitive, object and
    /// array descriptor grammar.
    UnknownDescriptorToken,
    /// The parameter-name count of a method does not match the count of
    /// parameter tokens decoded from its descriptor.
    AmbiguousArgumentCount,
}

} // verus!
