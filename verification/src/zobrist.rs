//! Zobrist keys for position hashing.
//!
//! Every key is derived deterministically from its index by a 64-bit finalizer
//! (the splitmix64 mixing function), so the whole table is a pure function:
//! one key per (square, piece identity), one per castling mask, one per
//! en-passant file, and one for the side to move.

use vstd::prelude::*;

verus! {

/// 64-bit mixing function (splitmix64 finalizer) that turns a key index into
/// a well-scrambled key.
pub open spec fn mix(x: u64) -> u64 {
    let a = vstd::wrapping::u64_specs::wrapping_add(x, 0x9E3779B97F4A7C15);
    let b = vstd::wrapping::u64_specs::wrapping_mul(a ^ (a >> 30), 0xBF58476D1CE4E5B9);
    let c = vstd::wrapping::u64_specs::wrapping_mul(b ^ (b >> 27), 0x94D049BB133111EB);
    c ^ (c >> 31)
}

/// Key for a piece identity (0..12) standing on a square (0..64).
pub open spec fn piece_key(sq: int, id: int) -> u64 {
    mix((sq * 12 + id) as u64)
}

/// Key for a 4-bit castling-rights mask.
pub open spec fn castling_key(mask: int) -> u64 {
    mix((768 + mask) as u64)
}

/// Key for an en-passant target file.
pub open spec fn ep_file_key(file: int) -> u64 {
    mix((784 + file) as u64)
}

/// Key XOR'd in whenever Black is the side to move.
pub open spec fn turn_key() -> u64 {
    mix(792)
}

pub fn mix_key(x: u64) -> (r: u64)
    ensures
        r == mix(x),
{
    let a = x.wrapping_add(0x9E3779B97F4A7C15);
    let b = (a ^ (a >> 30)).wrapping_mul(0xBF58476D1CE4E5B9);
    let c = (b ^ (b >> 27)).wrapping_mul(0x94D049BB133111EB);
    c ^ (c >> 31)
}

pub fn piece_key_at(sq: usize, id: usize) -> (r: u64)
    requires
        sq < 64,
        id < 12,
    ensures
        r == piece_key(sq as int, id as int),
{
    mix_key((sq * 12 + id) as u64)
}

pub fn castling_key_of(mask: u32) -> (r: u64)
    requires
        mask < 16,
    ensures
        r == castling_key(mask as int),
{
    mix_key(768 + mask as u64)
}

pub fn ep_file_key_of(file: usize) -> (r: u64)
    requires
        file < 8,
    ensures
        r == ep_file_key(file as int),
{
    mix_key(784 + file as u64)
}

pub fn turn_key_of() -> (r: u64)
    ensures
        r == turn_key(),
{
    mix_key(792)
}

} // verus!
