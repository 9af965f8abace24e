//! The 64-bit FNV-1a hash, and what is named after it on disk.

use vstd::arithmetic::power::pow;
use vstd::prelude::*;
use vstd::string::*;
use vstd::utf8::*;

use crate::text::{hex, hex_text};
use crate::text::{law_hex_steps, law_hex_tells_numbers_apart};

verus! {

/// The hash of the empty input.
pub const FNV_OFFSET: u64 = 0xcbf29ce484222325;

/// The factor of each step.
pub const FNV_PRIME: u64 = 0x100000001b3;

/// One step of the hash: exclusive or, then multiplication modulo 2^64.
pub open spec fn fnv_step(h: u64, b: u8) -> u64 {
    (h ^ (b as u64)).wrapping_mul(FNV_PRIME)
}

/// The hash `h`, continued over the bytes of `s`.
pub open spec fn fnv_from(h: u64, s: Seq<u8>) -> u64
    decreases s.len(),
{
    if s.len() == 0 {
        h
    } else {
        fnv_step(fnv_from(h, s.drop_last()), s.last())
    }
}

/// Continues the hash `h` over the bytes of `s`.
pub fn fnv_update(h: u64, s: &str) -> (r: u64)
    ensures
        r == fnv_from(h, encode_utf8(s@)),
{
    let bytes = s.as_bytes();
    let mut out: u64 = h;
    let mut i: usize = 0;
    while i < bytes.len()
        invariant
            i <= bytes@.len(),
            out == fnv_from(h, bytes@.take(i as int)),
        decreases bytes@.len() - i,
    {
        out = (out ^ (bytes[i] as u64)).wrapping_mul(FNV_PRIME);
        assert(bytes@.take(i + 1).drop_last() == bytes@.take(i as int));
        i += 1;
    }
    assert(bytes@.take(i as int) == bytes@);
    out
}

/// The directory name of a workspace: the hash of its canonical path as sixteen
/// hexadecimal digits.
pub open spec fn workspace_id_of(workspace: Seq<char>) -> Seq<char> {
    hex(fnv_from(FNV_OFFSET, encode_utf8(workspace)) as nat, 16)
}

/// The directory name of the workspace with the given canonical path.
pub fn workspace_id(workspace: &str) -> (r: String)
    ensures
        r@ == workspace_id_of(workspace@),
{
    hex_text(fnv_update(FNV_OFFSET, workspace), 16)
}

/// Where the data of a workspace stands, below the root of all data.
pub fn repo_dir(workspace: &str) -> (r: String)
    ensures
        r@ == "workspaces/"@ + workspace_id_of(workspace@),
{
    let mut out = "workspaces/".to_string();
    out.append(workspace_id(workspace).as_str());
    out
}

// ---- laws ----

/// The hash of two inputs, one behind the other, is that of the second, continued from
/// that of the first.
pub proof fn law_hash_goes_on(h: u64, a: Seq<u8>, b: Seq<u8>)
    ensures
        fnv_from(h, Seq::empty()) == h,
        fnv_from(h, a + b) == fnv_from(fnv_from(h, a), b),
    decreases b.len(),
{
    if b.len() == 0 {
        assert(a + b =~= a);
    } else {
        law_hash_goes_on(h, a, b.drop_last());
        assert((a + b).drop_last() =~= a + b.drop_last());
    }
}

/// One byte is mixed in by exclusive or, and the result multiplied by the prime modulo
/// 2^64.
pub proof fn law_hash_of_a_byte(h: u64, b: u8)
    ensures
        fnv_from(h, seq![b]) as int == ((h ^ (b as u64)) as int * 0x100000001b3)
            % 0x1_0000_0000_0000_0000,
{
    let s = seq![b];
    assert(s.drop_last() =~= Seq::<u8>::empty());
    assert(fnv_from(h, s.drop_last()) == h);
}

/// The directory name of a workspace has sixteen digits, and they are those of its hash:
/// two workspaces share it exactly where they share the hash.
pub proof fn law_workspace_ids(a: Seq<char>, b: Seq<char>)
    ensures
        workspace_id_of(a).len() == 16,
        workspace_id_of(a) == hex(fnv_from(0xcbf29ce484222325, encode_utf8(a)) as nat, 16),
        workspace_id_of(a) == workspace_id_of(b) <==> fnv_from(0xcbf29ce484222325, encode_utf8(a))
            == fnv_from(0xcbf29ce484222325, encode_utf8(b)),
{
    let x = fnv_from(0xcbf29ce484222325, encode_utf8(a)) as nat;
    let y = fnv_from(0xcbf29ce484222325, encode_utf8(b)) as nat;
    law_hex_steps(x, 0, 16);
    lemma_sixteen_digits();
    if hex(x, 16) == hex(y, 16) {
        law_hex_tells_numbers_apart(x, y, 16);
    }
}

proof fn lemma_sixteen_digits()
    ensures
        pow(16, 16) == 0x1_0000_0000_0000_0000,
{
    reveal_with_fuel(pow, 17);
}

} // verus!
