//! Stable, non-cryptographic hashing of text with the standard library's
//! `DefaultHasher`, fed the way `str`'s `Hash` impl feeds it.
use std::collections::hash_map::DefaultHasher;
use std::hash::Hasher;
use vstd::prelude::*;
use vstd::std_specs::hash::DefaultHasherAdditionalSpecFns;
use vstd::utf8::encode_utf8;

verus! {

/// The hash of text `s`: its UTF-8 bytes, then the terminator byte `0xff`.
pub open spec fn text_hash(s: Seq<char>) -> u64 {
    DefaultHasher::spec_finish(seq![encode_utf8(s), seq![0xffu8]])
}

pub fn hash_text(s: &str) -> (r: u64)
    ensures
        r == text_hash(s@),
{
    let mut h = DefaultHasher::new();
    let bytes = s.as_bytes();
    h.write(bytes);
    let end: [u8; 1] = [0xff];
    let tail = end.as_slice();
    h.write(tail);
    assert(tail@ =~= seq![0xffu8]);
    assert(h@ =~= seq![encode_utf8(s@), seq![0xffu8]]);
    h.finish()
}

} // verus!
