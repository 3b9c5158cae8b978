//! An RC4/ARCFOUR-compatible stream cipher.
//!
//! The cipher derives a 256-entry permutation table from a caller-supplied
//! key (key scheduling), then walks that table to produce a keystream that
//! is XORed into a data buffer in place (keystream transformation). Because
//! XOR is self-inverse, the same pipeline both encrypts and decrypts.
//!
//! An optional skip count leaves a leading region of the buffer untouched;
//! the keystream starts fresh at the boundary. Note that this differs from
//! the conventional RC4 notion of skipping, which discards leading keystream
//! bytes while still enciphering from the first data byte.

pub mod model;

pub mod cipher;

pub mod laws;
