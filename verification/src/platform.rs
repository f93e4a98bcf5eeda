//! What the operating system reports, read as plain values: the units of a
//! clock reading, the kind of a file, the entries of a directory.

pub mod unix;
