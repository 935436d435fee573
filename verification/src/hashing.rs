//! FNV-1a hashes: of action fields (for the action encoding and the
//! meta-operator seeds) and of the source code.

use vstd::prelude::*;

use crate::action::Action;
use crate::operators::{string_views, MAX_OPERATORS, OperatorPool};
use crate::text::push_str;
use vstd::utf8::encode_utf8;

verus! {

broadcast use vstd::string::group_string_axioms;

/// The 32-bit FNV-1a offset basis.
pub const FNV32_OFFSET: u32 = 2166136261;

/// The 32-bit FNV prime.
pub const FNV32_PRIME: u32 = 16777619;

/// The 64-bit FNV-1a offset basis.
pub const FNV64_OFFSET: u64 = 14695981039346656037;

/// The 64-bit FNV prime.
pub const FNV64_PRIME: u64 = 1099511628211;

/// 32-bit FNV-1a of `bytes`, continuing from state `h`.
pub open spec fn fnv1a_32_from(h: u32, bytes: Seq<u8>) -> u32
    decreases bytes.len(),
{
    if bytes.len() == 0 {
        h
    } else {
        fnv1a_32_from((h ^ (bytes[0] as u32)).wrapping_mul(FNV32_PRIME), bytes.drop_first())
    }
}

/// 64-bit FNV-1a of `bytes`, continuing from state `h`.
pub open spec fn fnv1a_64_from(h: u64, bytes: Seq<u8>) -> u64
    decreases bytes.len(),
{
    if bytes.len() == 0 {
        h
    } else {
        fnv1a_64_from((h ^ (bytes[0] as u64)).wrapping_mul(FNV64_PRIME), bytes.drop_first())
    }
}

/// The UTF-8 bytes of the files, one after the other.
pub open spec fn all_bytes(files: Seq<String>) -> Seq<u8>
    decreases files.len(),
{
    if files.len() == 0 {
        seq![]
    } else {
        all_bytes(files.drop_last()) + encode_utf8(files.last()@)
    }
}

proof fn lemma_fnv32_step(h: u32, bytes: Seq<u8>, i: int)
    requires
        0 <= i < bytes.len(),
    ensures
        fnv1a_32_from(h, bytes.subrange(i, bytes.len() as int)) == fnv1a_32_from(
            (h ^ (bytes[i] as u32)).wrapping_mul(FNV32_PRIME),
            bytes.subrange(i + 1, bytes.len() as int),
        ),
{
    assert(bytes.subrange(i, bytes.len() as int).drop_first() =~= bytes.subrange(
        i + 1,
        bytes.len() as int,
    ));
}

proof fn lemma_fnv64_concat(h: u64, a: Seq<u8>, b: Seq<u8>)
    ensures
        fnv1a_64_from(h, a + b) == fnv1a_64_from(fnv1a_64_from(h, a), b),
    decreases a.len(),
{
    if a.len() > 0 {
        assert((a + b).drop_first() =~= a.drop_first() + b);
        lemma_fnv64_concat((h ^ (a[0] as u64)).wrapping_mul(FNV64_PRIME), a.drop_first(), b);
    } else {
        assert(a + b =~= b);
    }
}

proof fn lemma_fnv32_concat(h: u32, a: Seq<u8>, b: Seq<u8>)
    ensures
        fnv1a_32_from(h, a + b) == fnv1a_32_from(fnv1a_32_from(h, a), b),
    decreases a.len(),
{
    if a.len() > 0 {
        assert((a + b).drop_first() =~= a.drop_first() + b);
        lemma_fnv32_concat((h ^ (a[0] as u32)).wrapping_mul(FNV32_PRIME), a.drop_first(), b);
    } else {
        assert(a + b =~= b);
    }
}

/// 64-bit FNV-1a folds in every byte, whatever its value: hashing one more
/// byte `b` after `bytes` xors `b` into the hash of `bytes` and multiplies by
/// the FNV prime (wrapping); hashing nothing leaves the state as it was.
pub proof fn law_fnv64_folds_every_byte(h: u64, bytes: Seq<u8>, b: u8)
    ensures
        fnv1a_64_from(h, Seq::<u8>::empty()) == h,
        fnv1a_64_from(h, bytes.push(b)) == (fnv1a_64_from(h, bytes) ^ (b as u64)).wrapping_mul(
            FNV64_PRIME,
        ),
{
    lemma_fnv64_concat(h, bytes, seq![b]);
    assert(bytes + seq![b] =~= bytes.push(b));
    assert(seq![b].drop_first() =~= Seq::<u8>::empty());
    let x = fnv1a_64_from(h, bytes);
    let y = (x ^ (b as u64)).wrapping_mul(FNV64_PRIME);
    assert(fnv1a_64_from(y, Seq::<u8>::empty()) == y);
    assert(fnv1a_64_from(x, seq![b]) == fnv1a_64_from(y, seq![b].drop_first()));
}

/// 32-bit FNV-1a folds in every byte, whatever its value: hashing one more
/// byte `b` after `bytes` xors `b` into the hash of `bytes` and multiplies by
/// the FNV prime (wrapping); hashing nothing leaves the state as it was.
pub proof fn law_fnv32_folds_every_byte(h: u32, bytes: Seq<u8>, b: u8)
    ensures
        fnv1a_32_from(h, Seq::<u8>::empty()) == h,
        fnv1a_32_from(h, bytes.push(b)) == (fnv1a_32_from(h, bytes) ^ (b as u32)).wrapping_mul(
            FNV32_PRIME,
        ),
{
    lemma_fnv32_concat(h, bytes, seq![b]);
    assert(bytes + seq![b] =~= bytes.push(b));
    assert(seq![b].drop_first() =~= Seq::<u8>::empty());
    let x = fnv1a_32_from(h, bytes);
    let y = (x ^ (b as u32)).wrapping_mul(FNV32_PRIME);
    assert(fnv1a_32_from(y, Seq::<u8>::empty()) == y);
    assert(fnv1a_32_from(x, seq![b]) == fnv1a_32_from(y, seq![b].drop_first()));
}

/// The hash of the code is the hash of its files' bytes one after the other:
/// adding a file continues the hash of the files before it over that file's
/// UTF-8 bytes, every one of them.
pub proof fn law_code_hash_continues_over_each_file(files: Seq<String>, f: String)
    ensures
        fnv1a_64_from(FNV64_OFFSET, all_bytes(files.push(f))) == fnv1a_64_from(
            fnv1a_64_from(FNV64_OFFSET, all_bytes(files)),
            encode_utf8(f@),
        ),
{
    assert(files.push(f).drop_last() =~= files);
    lemma_fnv64_concat(FNV64_OFFSET, all_bytes(files), encode_utf8(f@));
}

/// The 32-bit FNV-1a hash of the UTF-8 bytes of `s`.
pub fn fnv1a_32(s: &str) -> (h: u32)
    ensures
        h == fnv1a_32_from(FNV32_OFFSET, encode_utf8(s@)),
{
    let bytes = s.as_bytes();
    let mut h: u32 = FNV32_OFFSET;
    let mut i: usize = 0;
    assert(bytes@.subrange(0, bytes@.len() as int) =~= bytes@);
    while i < bytes.len()
        invariant
            i <= bytes@.len(),
            fnv1a_32_from(h, bytes@.subrange(i as int, bytes@.len() as int)) == fnv1a_32_from(
                FNV32_OFFSET,
                bytes@,
            ),
        decreases bytes.len() - i,
    {
        proof {
            lemma_fnv32_step(h, bytes@, i as int);
        }
        h = h ^ (bytes[i] as u32);
        h = h.wrapping_mul(FNV32_PRIME);
        i = i + 1;
    }
    assert(bytes@.subrange(i as int, bytes@.len() as int) =~= Seq::<u8>::empty());
    h
}

/// Continues a 64-bit FNV-1a hash over the UTF-8 bytes of `s`.
pub fn fnv1a_64_extend(h0: u64, s: &str) -> (h: u64)
    ensures
        h == fnv1a_64_from(h0, encode_utf8(s@)),
{
    let bytes = s.as_bytes();
    let mut h: u64 = h0;
    let mut i: usize = 0;
    assert(bytes@.subrange(0, bytes@.len() as int) =~= bytes@);
    while i < bytes.len()
        invariant
            i <= bytes@.len(),
            fnv1a_64_from(h, bytes@.subrange(i as int, bytes@.len() as int)) == fnv1a_64_from(
                h0,
                bytes@,
            ),
        decreases bytes.len() - i,
    {
        assert(bytes@.subrange(i as int, bytes@.len() as int).drop_first() =~= bytes@.subrange(
            i + 1,
            bytes@.len() as int,
        ));
        h = h ^ (bytes[i] as u64);
        h = h.wrapping_mul(FNV64_PRIME);
        i = i + 1;
    }
    assert(bytes@.subrange(i as int, bytes@.len() as int) =~= Seq::<u8>::empty());
    h
}

/// The hash of the source code: 64-bit FNV-1a over the bytes of the files in
/// the order given (the caller sorts them by path), or 0 when the source
/// directory could not be listed.
pub fn code_hash(files: &Option<Vec<String>>) -> (h: u64)
    ensures
        h == match files {
            Some(fs) => fnv1a_64_from(FNV64_OFFSET, all_bytes(fs@)),
            None => 0,
        },
{
    match files {
        None => 0,
        Some(fs) => {
            let mut h: u64 = FNV64_OFFSET;
            let mut i: usize = 0;
            while i < fs.len()
                invariant
                    i <= fs@.len(),
                    h == fnv1a_64_from(FNV64_OFFSET, all_bytes(fs@.subrange(0, i as int))),
                decreases fs.len() - i,
            {
                proof {
                    let pre = fs@.subrange(0, i as int);
                    let nxt = fs@.subrange(0, i + 1);
                    assert(nxt.drop_last() =~= pre);
                    lemma_fnv64_concat(FNV64_OFFSET, all_bytes(pre), encode_utf8(fs@[i as int]@));
                }
                h = fnv1a_64_extend(h, fs[i].as_str());
                i = i + 1;
            }
            assert(fs@.subrange(0, fs@.len() as int) =~= fs@);
            h
        },
    }
}

/// The text whose hash seeds a meta-operator's new parameter value: target,
/// first and second parameter, concatenated.
pub fn meta_seed_text(action: &Action) -> (s: String)
    ensures
        s@ == action.target@ + action.param1@ + action.param2@,
{
    let mut s = String::new();
    push_str(&mut s, action.target.as_str());
    push_str(&mut s, action.param1.as_str());
    push_str(&mut s, action.param2.as_str());
    assert(s@ =~= action.target@ + action.param1@ + action.param2@);
    s
}

/// The hash that seeds a meta-operator's new parameter value.
pub fn meta_seed(action: &Action) -> (h: u32)
    ensures
        h == fnv1a_32_from(
            FNV32_OFFSET,
            encode_utf8(action.target@ + action.param1@ + action.param2@),
        ),
{
    let s = meta_seed_text(action);
    fnv1a_32(s.as_str())
}

/// The slot of the action encoding that marks the action's operation: its
/// position in the pool, when that is below `MAX_OPERATORS`.
pub fn operation_slot(pool: &OperatorPool, action: &Action) -> (r: Option<usize>)
    ensures
        match r {
            Some(i) => i < MAX_OPERATORS && i < pool.names().len() && pool.names()[i as int]
                == action.operation@ && forall|j: int|
                0 <= j < i ==> pool.names()[j] != action.operation@,
            None => !pool.names().contains(action.operation@) || (exists|i: int|
                MAX_OPERATORS <= i < pool.names().len() && pool.names()[i] == action.operation@
                    && forall|j: int| 0 <= j < i ==> pool.names()[j] != action.operation@),
        },
{
    match pool.index_of(action.operation.as_str()) {
        Some(i) => {
            if i < MAX_OPERATORS {
                Some(i)
            } else {
                assert(pool.names()[i as int] == action.operation@);
                None
            }
        },
        None => None,
    }
}

} // verus!
