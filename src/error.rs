use vstd::prelude::*;

verus! {

/// The host operation that failed, for `Error::IoFailure`.
#[derive(Clone, Copy, Debug, PartialEq, Eq)]
pub enum IoOperation {
    CreateDirectory,
    CreateFile,
    WriteFile,
    Seek,
    Write,
}

/// Why an image write or a tree export was aborted.
#[derive(Clone, Debug)]
pub enum Error {
    /// A reserved directory or file is absent from its container.
    MissingSpecialEntry { container_name: Vec<u8>, expected_name: Vec<u8> },
    /// The image would not fit the 32-bit offsets and sizes of the disc format.
    ImageTooLarge,
    /// A host read, write, seek or create failed on `path`.
    IoFailure { path: Vec<u8>, operation: IoOperation },
}

} // verus!
