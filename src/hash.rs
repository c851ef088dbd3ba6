//! Function hashes: 64-bit identities of function names and signatures.
use vstd::prelude::*;

use std::hash::Hasher;
use vstd::string::StringSliceAdditionalSpecFns;

verus! {

/// The XXH64 digest, seed 0, of `data`.
pub uninterp spec fn xxhash64_of(data: Seq<u8>) -> u64;

/// Relies on `twox_hash::XxHash64` with seed 0: the XXH64 digest of the
/// bytes written, which depends on the bytes alone.
#[verifier::external_body]
fn xxhash64(data: &Vec<u8>) -> (r: u64)
    ensures
        r == xxhash64_of(data@),
{
    let mut hasher = twox_hash::XxHash64::with_seed(0);
    hasher.write(data.as_slice());
    hasher.finish()
}

/// The eight bytes of `n`, least significant first.
pub open spec fn le_bytes(n: u64) -> Seq<u8> {
    Seq::new(8, |i: int| ((n >> (8 * i) as u64) & 0xff) as u8)
}

/// Appends the eight bytes of `n`, least significant first.
fn push_le_bytes(out: &mut Vec<u8>, n: u64)
    ensures
        final(out)@ == old(out)@ + le_bytes(n),
{
    let mut i: u64 = 0;
    while i < 8
        invariant
            i <= 8,
            out@.len() == old(out)@.len() + i,
            out@.subrange(0, old(out)@.len() as int) == old(out)@,
            forall|j: int| 0 <= j < i ==> #[trigger] out@[old(out)@.len() + j] == le_bytes(n)[j],
        decreases 8 - i,
    {
        let b = ((n >> (8 * i)) & 0xff) as u8;
        let ghost before = out@;
        out.push(b);
        proof {
            assert(out@.subrange(0, old(out)@.len() as int) =~= old(out)@);
            assert(b == le_bytes(n)[i as int]);
            assert forall|j: int| 0 <= j < i + 1 implies #[trigger] out@[old(out)@.len() + j] == le_bytes(n)[j] by {
                if j < i {
                    assert(out@[old(out)@.len() + j] == before[old(out)@.len() + j]);
                }
            }
        }
        i += 1;
    }
    assert forall|k: int| 0 <= k < out@.len() implies out@[k] == (old(out)@ + le_bytes(n))[k] by {
        if k < old(out)@.len() {
            assert(out@.subrange(0, old(out)@.len() as int)[k] == out@[k]);
        } else {
            assert(out@[old(out)@.len() + (k - old(out)@.len())] == le_bytes(n)[k - old(out)@.len()]);
        }
    }
    assert(out@ =~= old(out)@ + le_bytes(n));
}

/// The marker that separates a name from its argument count.
pub const MARKER_ARGS: u64 = 0;

/// The marker written before each argument type.
pub const MARKER_ARG: u64 = 77;

/// The bytes hashed for a function named by `name` (its UTF-8 bytes) with
/// `args` arguments: the name, `0xff`, the marker and the count.
pub open spec fn dynamic_signature(name: Seq<u8>, args: u64) -> Seq<u8> {
    name + seq![0xffu8] + le_bytes(MARKER_ARGS) + le_bytes(args)
}

/// The bytes hashed for a function of dynamic hash `hash` and argument
/// types `arg_types`: the hash, then the marker and each type.
pub open spec fn typed_signature(hash: u64, arg_types: Seq<u64>) -> Seq<u8>
    decreases arg_types.len(),
{
    if arg_types.len() == 0 {
        le_bytes(hash)
    } else {
        typed_signature(hash, arg_types.drop_last()) + le_bytes(MARKER_ARG) + le_bytes(arg_types.last())
    }
}

/// The identity of a function by name and argument count.
#[derive(Clone, Copy, Debug, PartialEq, Eq, PartialOrd, Ord, Hash, Structural)]
pub struct FnDynamicHash(pub u64);

/// The identity of a function by name and argument types.
#[derive(Clone, Copy, Debug, PartialEq, Eq, PartialOrd, Ord, Hash, Structural)]
pub struct FnHash(pub u64);

impl FnDynamicHash {
    /// The hash of the function `name` taking `args` arguments.
    pub fn of(name: &str, args: u64) -> (r: Self)
        ensures
            r.0 == xxhash64_of(dynamic_signature(name.spec_bytes(), args)),
    {
        let bytes = name.as_bytes();
        let mut data: Vec<u8> = Vec::new();
        let mut i: usize = 0;
        while i < bytes.len()
            invariant
                i <= bytes@.len(),
                bytes@ == name.spec_bytes(),
                data@ == bytes@.subrange(0, i as int),
            decreases bytes.len() - i,
        {
            data.push(bytes[i]);
            proof {
                assert(bytes@.subrange(0, i + 1) =~= bytes@.subrange(0, i as int).push(bytes@[i as int]));
            }
            i += 1;
        }
        proof {
            assert(bytes@.subrange(0, bytes@.len() as int) =~= bytes@);
        }
        data.push(0xff);
        push_le_bytes(&mut data, MARKER_ARGS);
        push_le_bytes(&mut data, args);
        proof {
            assert(data@ =~= dynamic_signature(name.spec_bytes(), args));
        }
        FnDynamicHash(xxhash64(&data))
    }
}

impl FnHash {
    /// The hash of the function with dynamic hash `hash` and argument types
    /// `arg_types`, given as type hashes.
    pub fn of_dynamic(hash: FnDynamicHash, arg_types: &Vec<u64>) -> (r: Self)
        ensures
            r.0 == xxhash64_of(typed_signature(hash.0, arg_types@)),
    {
        let mut data: Vec<u8> = Vec::new();
        push_le_bytes(&mut data, hash.0);
        proof {
            assert(data@ =~= le_bytes(hash.0));
            assert(arg_types@.subrange(0, 0) =~= Seq::<u64>::empty());
        }
        let mut i: usize = 0;
        while i < arg_types.len()
            invariant
                i <= arg_types@.len(),
                data@ == typed_signature(hash.0, arg_types@.subrange(0, i as int)),
            decreases arg_types.len() - i,
        {
            push_le_bytes(&mut data, MARKER_ARG);
            push_le_bytes(&mut data, arg_types[i]);
            proof {
                let pre = arg_types@.subrange(0, i + 1);
                assert(pre.drop_last() =~= arg_types@.subrange(0, i as int));
                assert(pre.last() == arg_types@[i as int]);
            }
            i += 1;
        }
        proof {
            assert(arg_types@.subrange(0, arg_types@.len() as int) =~= arg_types@);
        }
        FnHash(xxhash64(&data))
    }
}

} // verus!
