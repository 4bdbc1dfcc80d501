//! Open files.

use vstd::prelude::*;

verus! {

/// A reference to an open file: which one it is, and what it may be used for.
#[derive(Clone, Copy, Debug, PartialEq, Eq, Structural)]
pub struct FileRef {
    /// identity of the file object
    pub id: usize,
    /// whether it can be read
    pub readable: bool,
    /// whether it can be written
    pub writable: bool,
}

impl FileRef {
    /// The console's input.
    pub open spec fn spec_stdin() -> FileRef {
        FileRef { id: 0, readable: true, writable: false }
    }

    /// The console's output.
    pub open spec fn spec_stdout() -> FileRef {
        FileRef { id: 1, readable: false, writable: true }
    }

    /// The console's input: it can be read, not written.
    pub fn stdin() -> (result: FileRef)
        ensures
            result == FileRef::spec_stdin(),
    {
        FileRef { id: 0, readable: true, writable: false }
    }

    /// The console's output: it can be written, not read.
    pub fn stdout() -> (result: FileRef)
        ensures
            result == FileRef::spec_stdout(),
    {
        FileRef { id: 1, readable: false, writable: true }
    }
}

/// Flag bits that a file is opened with.
pub struct OpenFlags {
    bits: u32,
}

/// write only
pub const WRONLY: u32 = 0x1;

/// read and write
pub const RDWR: u32 = 0x2;

/// create the file if it is not there
pub const CREATE: u32 = 0x200;

/// empty the file
pub const TRUNC: u32 = 0x400;

/// all the bits that mean something
pub const ALL_FLAGS: u32 = WRONLY | RDWR | CREATE | TRUNC;

/// Whether no bit without a meaning is set.
pub open spec fn known_flags(bits: u32) -> bool {
    bits & !ALL_FLAGS == 0
}

impl OpenFlags {
    /// The bits of the flags.
    pub closed spec fn spec_bits(self) -> u32 {
        self.bits
    }

    /// The flags with these bits, if each of them means something.
    pub fn from_bits(bits: u32) -> (result: Option<OpenFlags>)
        ensures
            result is Some <==> known_flags(bits),
            result matches Some(flags) ==> flags.spec_bits() == bits,
    {
        if bits & !ALL_FLAGS == 0 {
            Some(OpenFlags { bits })
        } else {
            None
        }
    }

    /// Whether the file is to be created.
    pub fn creates(&self) -> (result: bool)
        ensures
            result == (self.spec_bits() & CREATE != 0),
    {
        self.bits & CREATE != 0
    }
}

} // verus!
