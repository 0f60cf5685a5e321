//! Message bodies under AES-256, one 16-byte block at a time.
//!
//! A body is padded with zero bytes up to a multiple of 16, so that a body
//! that is a multiple already stays as long as it is, and each block is
//! encrypted by itself. Nothing records how long the body was: decrypting
//! gives the padded body.

use aes_soft::cipher::generic_array::GenericArray;
use aes_soft::cipher::{BlockCipher, NewBlockCipher};
use aes_soft::{Aes256, Block};
use vstd::prelude::*;
use vstd::slice::slice_subrange;

verus! {

/// The 16-byte block that AES-256 under the 32-byte `key` makes of `block`.
pub uninterp spec fn aes256_encrypt_block(key: Seq<u8>, block: Seq<u8>) -> Seq<u8>;

/// The 16-byte block that AES-256 under the 32-byte `key` decrypts `block` to.
pub uninterp spec fn aes256_decrypt_block(key: Seq<u8>, block: Seq<u8>) -> Seq<u8>;

/// Makes an `Aes256` of `key` and calls `encrypt_block` on a copy of `block`.
/// The result depends on key and block alone, and `decrypt_block` under the
/// same key turns it back into `block`.
#[verifier::external_body]
fn encrypt_block(key: &[u8; 32], block: &[u8]) -> (out: Vec<u8>)
    requires
        block@.len() == 16,
    ensures
        out@.len() == 16,
        out@ == aes256_encrypt_block(key@, block@),
        aes256_decrypt_block(key@, out@) == block@,
{
    let cipher = Aes256::new(&GenericArray::from(*key));
    let mut buf = Block::default();
    buf.copy_from_slice(block);
    cipher.encrypt_block(&mut buf);
    buf.to_vec()
}

/// Makes an `Aes256` of `key` and calls `decrypt_block` on a copy of `block`.
/// The result depends on key and block alone.
#[verifier::external_body]
fn decrypt_block(key: &[u8; 32], block: &[u8]) -> (out: Vec<u8>)
    requires
        block@.len() == 16,
    ensures
        out@.len() == 16,
        out@ == aes256_decrypt_block(key@, block@),
{
    let cipher = Aes256::new(&GenericArray::from(*key));
    let mut buf = Block::default();
    buf.copy_from_slice(block);
    cipher.decrypt_block(&mut buf);
    buf.to_vec()
}

/// Block `i` of `data`.
pub open spec fn block_of(data: Seq<u8>, i: int) -> Seq<u8> {
    data.subrange(16 * i, 16 * i + 16)
}

/// How many zero bytes follow a body of `len` bytes: as many as take it to
/// the least multiple of 16 that is not below `len`, which are fewer than 16.
pub open spec fn padding_len(len: nat) -> nat {
    ((16 - len % 16) % 16) as nat
}

/// The body followed by its padding.
pub open spec fn padded(plain: Seq<u8>) -> Seq<u8> {
    plain + Seq::new(padding_len(plain.len()), |i: int| 0u8)
}

/// Every whole block of `data` encrypted under `key`; bytes after the last
/// whole block stay as they are.
pub open spec fn encrypt_blocks(key: Seq<u8>, data: Seq<u8>) -> Seq<u8> {
    Seq::new(
        data.len(),
        |i: int|
            if i < 16 * (data.len() / 16) {
                aes256_encrypt_block(key, block_of(data, i / 16))[i % 16]
            } else {
                data[i]
            },
    )
}

/// Every whole block of `data` decrypted under `key`; bytes after the last
/// whole block stay as they are.
pub open spec fn decrypt_blocks(key: Seq<u8>, data: Seq<u8>) -> Seq<u8> {
    Seq::new(
        data.len(),
        |i: int|
            if i < 16 * (data.len() / 16) {
                aes256_decrypt_block(key, block_of(data, i / 16))[i % 16]
            } else {
                data[i]
            },
    )
}

/// The padded body starts with the body, ends on a block boundary, and holds
/// nothing but zero bytes after the body.
pub proof fn lemma_padded(plain: Seq<u8>)
    ensures
        padded(plain).len() == plain.len() + padding_len(plain.len()),
        0 <= padding_len(plain.len()) < 16,
        plain.len() % 16 == 0 ==> padded(plain) == plain,
        padded(plain).len() % 16 == 0,
        padded(plain).subrange(0, plain.len() as int) == plain,
        forall|i: int| plain.len() <= i < padded(plain).len() ==> padded(plain)[i] == 0,
{
    assert(padded(plain).subrange(0, plain.len() as int) =~= plain);
    if plain.len() % 16 == 0 {
        assert(padded(plain) =~= plain);
    }
}

/// Block `k` of `out` is block `k` of `plain` encrypted, and decrypts to it.
spec fn block_sealed(key: Seq<u8>, out: Seq<u8>, plain: Seq<u8>, k: int) -> bool {
    &&& block_of(out, k) == aes256_encrypt_block(key, block_of(plain, k))
    &&& aes256_decrypt_block(key, block_of(out, k)) == block_of(plain, k)
}

/// Block `k` of `out` is block `k` of `data` decrypted.
spec fn block_opened(key: Seq<u8>, out: Seq<u8>, data: Seq<u8>, k: int) -> bool {
    block_of(out, k) == aes256_decrypt_block(key, block_of(data, k))
}

proof fn lemma_sealed(key: Seq<u8>, out: Seq<u8>, plain: Seq<u8>, blocks: nat)
    requires
        out.len() == 16 * blocks,
        plain.len() == 16 * blocks,
        forall|k: int| 0 <= k < blocks ==> #[trigger] block_sealed(key, out, plain, k),
    ensures
        out == encrypt_blocks(key, plain),
        decrypt_blocks(key, out) == plain,
{
    assert forall|i: int| 0 <= i < out.len() implies out[i] == encrypt_blocks(key, plain)[i]
        && decrypt_blocks(key, out)[i] == plain[i] by {
        let k = i / 16;
        assert(block_sealed(key, out, plain, k));
        assert(block_of(out, k)[i % 16] == out[i]);
        assert(block_of(plain, k)[i % 16] == plain[i]);
    }
    assert(out =~= encrypt_blocks(key, plain));
    assert(decrypt_blocks(key, out) =~= plain);
}

proof fn lemma_opened(key: Seq<u8>, out: Seq<u8>, data: Seq<u8>, blocks: nat)
    requires
        out.len() == data.len(),
        blocks == data.len() / 16,
        forall|k: int| 0 <= k < blocks ==> #[trigger] block_opened(key, out, data, k),
        forall|i: int| 16 * blocks <= i < data.len() ==> out[i] == data[i],
    ensures
        out == decrypt_blocks(key, data),
{
    assert forall|i: int| 0 <= i < out.len() implies out[i] == decrypt_blocks(key, data)[i] by {
        if i < 16 * blocks {
            let k = i / 16;
            assert(block_opened(key, out, data, k));
            assert(block_of(out, k)[i % 16] == out[i]);
        }
    }
    assert(out =~= decrypt_blocks(key, data));
}

/// Pads `plain` and encrypts it under `key`. Decrypting the result under the
/// same key gives the padded body back: `plain`, followed by the fewest zero
/// bytes that take it to a multiple of 16.
pub fn encrypt(key: &[u8; 32], plain: &[u8]) -> (out: Vec<u8>)
    ensures
        out@ == encrypt_blocks(key@, padded(plain@)),
        out@.len() == plain@.len() + padding_len(plain@.len()),
        out@.len() % 16 == 0,
        plain@.len() <= out@.len() < plain@.len() + 16,
        decrypt_blocks(key@, out@) == padded(plain@),
        decrypt_blocks(key@, out@).subrange(0, plain@.len() as int) == plain@,
        forall|i: int| plain@.len() <= i < out@.len() ==> decrypt_blocks(key@, out@)[i] == 0,
{
    proof {
        lemma_padded(plain@);
    }
    let whole: usize = plain.len() / 16;
    let ghost target = padded(plain@);
    let mut out: Vec<u8> = Vec::new();
    let mut i: usize = 0;
    while i < whole
        invariant
            whole == plain.len() / 16,
            i <= whole,
            target == padded(plain@),
            out@.len() == 16 * i,
            forall|k: int| 0 <= k < i ==> #[trigger] block_sealed(key@, out@, target, k),
        decreases whole - i,
    {
        let block = slice_subrange(plain, 16 * i, 16 * i + 16);
        assert(block@ =~= block_of(target, i as int));
        let mut sealed = encrypt_block(key, block);
        let ghost before = out@;
        let ghost added = sealed@;
        out.append(&mut sealed);
        proof {
            assert forall|k: int| 0 <= k < i + 1 implies #[trigger] block_sealed(
                key@,
                out@,
                target,
                k,
            ) by {
                if k < i {
                    assert(block_sealed(key@, before, target, k));
                    assert(block_of(out@, k) =~= block_of(before, k));
                } else {
                    assert(block_of(out@, k) =~= added);
                }
            }
        }
        i += 1;
    }
    if 16 * whole < plain.len() {
        let mut last: Vec<u8> = Vec::new();
        let mut j: usize = 16 * whole;
        while j < plain.len()
            invariant
                16 * whole <= j <= plain.len(),
                whole == plain.len() / 16,
                last@ == plain@.subrange(16 * whole, j as int),
            decreases plain.len() - j,
        {
            last.push(plain[j]);
            assert(last@ =~= plain@.subrange(16 * whole, j + 1));
            j += 1;
        }
        let ghost tail = last@;
        while last.len() < 16
            invariant
                tail == plain@.subrange(16 * whole, plain.len() as int),
                tail.len() < 16,
                tail.len() <= last.len() <= 16,
                last@.subrange(0, tail.len() as int) == tail,
                forall|m: int| tail.len() <= m < last.len() ==> last@[m] == 0,
            decreases 16 - last.len(),
        {
            let ghost before = last@;
            last.push(0);
            assert(last@.subrange(0, tail.len() as int) =~= before.subrange(
                0,
                tail.len() as int,
            ));
        }
        assert(last@ =~= block_of(target, whole as int)) by {
            assert forall|m: int| 0 <= m < 16 implies last@[m] == target[16 * whole + m] by {
                if m < tail.len() {
                    assert(last@.subrange(0, tail.len() as int)[m] == tail[m]);
                }
            }
        }
        let mut sealed = encrypt_block(key, last.as_slice());
        let ghost before = out@;
        let ghost added = sealed@;
        out.append(&mut sealed);
        proof {
            assert forall|k: int| 0 <= k < whole + 1 implies #[trigger] block_sealed(
                key@,
                out@,
                target,
                k,
            ) by {
                if k < whole {
                    assert(block_sealed(key@, before, target, k));
                    assert(block_of(out@, k) =~= block_of(before, k));
                } else {
                    assert(block_of(out@, k) =~= added);
                }
            }
            lemma_sealed(key@, out@, target, (whole + 1) as nat);
        }
    } else {
        proof {
            lemma_sealed(key@, out@, target, whole as nat);
        }
    }
    out
}

/// Decrypts every whole block of `data` under `key`. Bytes after the last
/// whole block are handed back as they came.
pub fn decrypt(key: &[u8; 32], data: &[u8]) -> (out: Vec<u8>)
    ensures
        out@ == decrypt_blocks(key@, data@),
{
    let whole: usize = data.len() / 16;
    let mut out: Vec<u8> = Vec::new();
    let mut i: usize = 0;
    while i < whole
        invariant
            whole == data.len() / 16,
            i <= whole,
            out@.len() == 16 * i,
            forall|k: int| 0 <= k < i ==> #[trigger] block_opened(key@, out@, data@, k),
        decreases whole - i,
    {
        let block = slice_subrange(data, 16 * i, 16 * i + 16);
        let mut opened = decrypt_block(key, block);
        let ghost before = out@;
        let ghost added = opened@;
        out.append(&mut opened);
        proof {
            assert forall|k: int| 0 <= k < i + 1 implies #[trigger] block_opened(
                key@,
                out@,
                data@,
                k,
            ) by {
                if k < i {
                    assert(block_opened(key@, before, data@, k));
                    assert(block_of(out@, k) =~= block_of(before, k));
                } else {
                    assert(block_of(out@, k) =~= added);
                }
            }
        }
        i += 1;
    }
    let mut j: usize = 16 * whole;
    while j < data.len()
        invariant
            16 * whole <= j <= data.len(),
            whole == data.len() / 16,
            out@.len() == j,
            forall|k: int| 0 <= k < whole ==> #[trigger] block_opened(key@, out@, data@, k),
            forall|m: int| 16 * whole <= m < j ==> out@[m] == data@[m],
        decreases data.len() - j,
    {
        let ghost before = out@;
        out.push(data[j]);
        proof {
            assert forall|k: int| 0 <= k < whole implies #[trigger] block_opened(
                key@,
                out@,
                data@,
                k,
            ) by {
                assert(block_opened(key@, before, data@, k));
                assert(block_of(out@, k) =~= block_of(before, k));
            }
        }
        j += 1;
    }
    proof {
        lemma_opened(key@, out@, data@, whole as nat);
    }
    out
}

} // verus!
