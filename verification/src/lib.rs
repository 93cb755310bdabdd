//! Packs a directory tree into one authenticated, compressed and encrypted
//! container, and unpacks it again.
//!
//! The container is `nonce || ciphertext`: a fresh 12-byte nonce followed by the
//! ChaCha20-Poly1305 encryption of a zstd frame, which in turn holds the flat,
//! length-prefixed encoding of the files.
//!
//! - [`key`]: the 32-byte key and the text file that keeps it.
//! - [`collect`]: which of the entries that a walk met are packed.
//! - [`archive`]: the encoding of the files, and its inverse.
//! - [`codec`]: compression.
//! - [`seal`]: encryption under a fresh nonce, and opening.
//! - [`pipeline`]: the stages in a row, to pack and to unpack.
//! - [`run`]: one run from the key file to the archive file, step by step.
//!
//! The library reads and writes no file. Whoever drives it does, and hands it
//! what was read.

pub mod archive;
pub mod cipher;
pub mod codec;
pub mod collect;
pub mod entropy;
pub mod error;
pub mod key;
pub mod le;
pub mod pipeline;
pub mod run;
pub mod seal;
