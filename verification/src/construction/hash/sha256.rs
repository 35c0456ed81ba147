//! Hashing strings to residues and to matrices of residues with SHA-256.

use crate::math::arith::is_modulus;
use crate::math::mat_z::{lift, MatZ};
use crate::math::mat_zq::MatZq;
use crate::math::model::{is_matrix, is_proper, residues};
use sha2::{Digest, Sha256};
use vstd::pervasive::unreached;
use vstd::prelude::*;
use vstd::utf8::encode_utf8;

verus! {

/// The SHA-256 digest of `data`.
pub uninterp spec fn sha256(data: Seq<u8>) -> Seq<u8>;

/// Calls `sha2::Sha256::digest`, the one-shot form of the SHA-256 hasher of the
/// crate `sha2`. The contract names the digest: equal data have equal digests.
#[verifier::external_body]
fn sha256_digest(data: &Vec<u8>) -> (out: Vec<u8>)
    ensures
        out@ == sha256(data@),
{
    Sha256::digest(data.as_slice()).to_vec()
}

/// The decimal digits of `n` as ASCII characters, without leading zeros.
pub open spec fn decimal(n: nat) -> Seq<u8>
    decreases n,
{
    if n < 10 {
        seq![(48 + n) as u8]
    } else {
        decimal(n / 10).push((48 + n % 10) as u8)
    }
}

/// The number that `bytes` spell, the first byte counting most, up to byte `n`.
pub open spec fn big_endian(bytes: Seq<u8>, n: int) -> int
    decreases n,
{
    if n <= 0 {
        0
    } else {
        big_endian(bytes, n - 1) * 256 + bytes[n - 1]
    }
}

/// What is hashed for the residue of `text` modulo `q`: a counter, which is
/// zero, the modulus and `text`, separated by spaces.
pub open spec fn residue_input(q: int, text: Seq<u8>) -> Seq<u8> {
    decimal(0) + seq![32u8] + decimal(q as nat) + seq![32u8] + text
}

/// The residue modulo `q` that `text` hashes to: its digest, read as a number.
pub open spec fn residue_of(q: int, text: Seq<u8>) -> int {
    let digest = sha256(residue_input(q, text));
    big_endian(digest, digest.len() as int) % q
}

/// What is hashed for the entry in row `i` and column `j` of the matrix of
/// `message`: the position, the shape and the message, separated by spaces.
pub open spec fn entry_input(i: int, j: int, rows: int, cols: int, message: Seq<u8>) -> Seq<u8> {
    decimal(i as nat) + seq![32u8] + decimal(j as nat) + seq![32u8] + decimal(rows as nat)
        + seq![32u8] + decimal(cols as nat) + seq![32u8] + message
}

/// The matrix of `rows` by `cols` residues modulo `q` that `message` hashes to.
pub open spec fn matrix_of(message: Seq<char>, rows: int, cols: int, q: int) -> Seq<Seq<int>> {
    Seq::new(
        rows as nat,
        |i: int|
            Seq::new(
                cols as nat,
                |j: int| residue_of(q, entry_input(i, j, rows, cols, encode_utf8(message))),
            ),
    )
}

/// Appends the decimal digits of `n` to `out`.
fn push_decimal(out: &mut Vec<u8>, n: u64)
    ensures
        final(out)@ == old(out)@ + decimal(n as nat),
{
    let mut reversed: Vec<u8> = Vec::new();
    let mut x: u64 = n;
    while x >= 10
        invariant
            decimal(n as nat) == decimal(x as nat) + reversed@.reverse(),
        decreases x,
    {
        let d: u8 = 48 + (x % 10) as u8;
        reversed.push(d);
        x = x / 10;
    }
    let d: u8 = 48 + x as u8;
    reversed.push(d);
    let mut i: usize = reversed.len();
    let ghost start = out@;
    while i > 0
        invariant
            i <= reversed.len(),
            out@ == start + reversed@.reverse().subrange(0, reversed.len() - i),
        decreases i,
    {
        i -= 1;
        out.push(reversed[i]);
    }
}

/// Appends the bytes of `text` to `out`.
fn push_bytes(out: &mut Vec<u8>, text: &[u8])
    ensures
        final(out)@ == old(out)@ + text@,
{
    let ghost start = out@;
    let mut i: usize = 0;
    while i < text.len()
        invariant
            i <= text.len(),
            out@ == start + text@.subrange(0, i as int),
        decreases text.len() - i,
    {
        out.push(text[i]);
        i += 1;
    }
}

/// Hashes `text` to a residue modulo `q`: the SHA-256 digest of the modulus and
/// the text, read as a number, modulo `q`.
pub fn hash_to_zq_sha256(text: &Vec<u8>, q: u64) -> (out: u64)
    requires
        is_modulus(q as int),
    ensures
        out == residue_of(q as int, text@),
        out < q,
{
    let mut input: Vec<u8> = Vec::new();
    push_decimal(&mut input, 0);
    input.push(32);
    push_decimal(&mut input, q);
    input.push(32);
    push_bytes(&mut input, text.as_slice());
    assert(input@ =~= residue_input(q as int, text@));
    let digest: Vec<u8> = sha256_digest(&input);
    let mut acc: u64 = 0;
    let mut i: usize = 0;
    proof {
        vstd::arithmetic::div_mod::lemma_small_mod(0, q as nat);
    }
    while i < digest.len()
        invariant
            i <= digest.len(),
            is_modulus(q as int),
            acc < q,
            acc == big_endian(digest@, i as int) % (q as int),
        decreases digest.len() - i,
    {
        let wide: u128 = (acc as u128) * 256 + (digest[i] as u128);
        proof {
            let v = big_endian(digest@, i as int);
            vstd::arithmetic::div_mod::lemma_mul_mod_noop_left(v, 256, q as int);
            vstd::arithmetic::div_mod::lemma_add_mod_noop(
                v * 256,
                digest[i as int] as int,
                q as int,
            );
            vstd::arithmetic::div_mod::lemma_add_mod_noop(
                acc * 256,
                digest[i as int] as int,
                q as int,
            );
        }
        acc = (wide % (q as u128)) as u64;
        i += 1;
    }
    acc
}

/// Hashes `message` to a matrix of `rows` by `cols` residues modulo `q`. Every
/// entry is the hash of its position, the shape and the message.
pub fn hash_to_mat_zq_sha256(message: &str, rows: usize, cols: usize, q: u64) -> (out: MatZq)
    requires
        rows >= 1,
        cols >= 1,
        is_modulus(q as int),
    ensures
        out@ == matrix_of(message@, rows as int, cols as int, q as int),
        out.q() == q,
        is_matrix(out@, rows as int, cols as int),
        is_proper(out@),
{
    let bytes: &[u8] = message.as_bytes();
    let ghost target = matrix_of(message@, rows as int, cols as int, q as int);
    let mut data: Vec<Vec<i64>> = Vec::new();
    let mut i: usize = 0;
    while i < rows
        invariant
            i <= rows,
            cols >= 1,
            is_modulus(q as int),
            bytes@ == encode_utf8(message@),
            target == matrix_of(message@, rows as int, cols as int, q as int),
            data.len() == i,
            forall|r: int| 0 <= r < i ==> (#[trigger] data[r]).len() == cols,
            forall|r: int, c: int|
                0 <= r < i && 0 <= c < cols ==> (#[trigger] data[r][c]) == target[r][c],
            forall|r: int, c: int|
                0 <= r < i && 0 <= c < cols ==> 0 <= (#[trigger] data[r][c]) < q,
        decreases rows - i,
    {
        let mut row: Vec<i64> = Vec::new();
        let mut j: usize = 0;
        while j < cols
            invariant
                j <= cols,
                i < rows,
                is_modulus(q as int),
                bytes@ == encode_utf8(message@),
                target == matrix_of(message@, rows as int, cols as int, q as int),
                row.len() == j,
                forall|c: int| 0 <= c < j ==> (#[trigger] row[c]) == target[i as int][c],
                forall|c: int| 0 <= c < j ==> 0 <= (#[trigger] row[c]) < q,
            decreases cols - j,
        {
            let mut text: Vec<u8> = Vec::new();
            push_decimal(&mut text, i as u64);
            text.push(32);
            push_decimal(&mut text, j as u64);
            text.push(32);
            push_decimal(&mut text, rows as u64);
            text.push(32);
            push_decimal(&mut text, cols as u64);
            text.push(32);
            push_bytes(&mut text, bytes);
            assert(text@ =~= entry_input(
                i as int,
                j as int,
                rows as int,
                cols as int,
                encode_utf8(message@),
            ));
            let x: u64 = hash_to_zq_sha256(&text, q);
            row.push(x as i64);
            j += 1;
        }
        data.push(row);
        i += 1;
    }
    assert(lift(data@) =~~= target);
    let reps: MatZ = MatZ::from_rectangular(data);
    proof {
        assert forall|r: int| 0 <= r < target.len() implies #[trigger] residues(target, q as int)[r]
            =~= target[r] by {
            assert forall|c: int| 0 <= c < target[r].len() implies #[trigger] residues(
                target,
                q as int,
            )[r][c] == target[r][c] by {
                vstd::arithmetic::div_mod::lemma_small_mod(target[r][c] as nat, q as nat);
            }
        }
    }
    match MatZq::from_mat_z(&reps, q) {
        Ok(m) => m,
        Err(_) => unreached(),
    }
}

} // verus!
