use vstd::prelude::*;

verus! {

/// A source of words. `read` fills some prefix of `buf` and reports how many
/// elements it actually transferred, which may be fewer than `buf` holds.
pub trait Read<Word> {
    /// The implementation's own failure type.
    type Error;

    fn read(&mut self, buf: &mut [Word]) -> Result<usize, Self::Error>;
}

/// A source that must fill `buf` completely: implementations retry across
/// partial transfers until `buf` is full or a genuine error occurs.
pub trait ReadExact<Word>: Read<Word> {
    fn read_exact(&mut self, buf: &mut [Word]) -> Result<usize, <Self as Read<Word>>::Error>;
}

/// A sink of words. `write` consumes some prefix of `buf` and reports how many
/// elements it actually transferred, which may be fewer than `buf` holds.
pub trait Write<Word> {
    /// The implementation's own failure type.
    type Error;

    fn write(&mut self, buf: &[Word]) -> Result<usize, Self::Error>;
}

/// A sink that must consume `buf` completely: implementations retry across
/// partial transfers until everything is written or a genuine error occurs.
pub trait WriteAll<Word>: Write<Word> {
    fn write_all(&mut self, buf: &[Word]) -> Result<usize, <Self as Write<Word>>::Error>;
}

} // verus!
