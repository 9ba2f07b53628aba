//! The ROM resolver: picks the ROM among the candidate files of an asset
//! directory, first by exact file name, then by a content-hash scan.

use vstd::prelude::*;
use crate::errors::EncodeError;
use sha1::{Digest, Sha1};

verus! {

/// One candidate file of the asset directory: its name and its bytes.
pub struct RomFile {
    pub name: String,
    pub bytes: Vec<u8>,
}

/// The SHA-1 digest of a byte sequence: a function of the bytes alone.
/// Only the trusted wrapper below ties this name to the outside
/// implementation; nothing here states what the digest is on given values.
pub uninterp spec fn sha1_of(data: Seq<u8>) -> Seq<u8>;

/// Relies on sha1::Sha1 through the digest traits: returns the 20-byte
/// SHA-1 digest of the input, a function of the input bytes alone.
#[verifier::external_body]
fn sha1_digest(data: &Vec<u8>) -> (r: Vec<u8>)
    ensures
        r@ == sha1_of(data@),
        r@.len() == 20,
{
    Sha1::digest(data.as_slice()).to_vec()
}

/// The sixteen lowercase hex digit characters.
pub open spec fn spec_hex_digit(n: u8) -> char {
    seq!['0', '1', '2', '3', '4', '5', '6', '7', '8', '9', 'a', 'b', 'c', 'd', 'e', 'f'][n as int]
}

/// Lowercase hex encoding: two digits per byte, high nibble first.
pub open spec fn spec_hex_lower(data: Seq<u8>) -> Seq<char>
    decreases data.len(),
{
    if data.len() == 0 {
        Seq::empty()
    } else {
        spec_hex_lower(data.drop_last()) + seq![
            spec_hex_digit(data.last() / 16),
            spec_hex_digit(data.last() % 16),
        ]
    }
}

/// Relies on hex::encode: each input byte becomes exactly two lowercase
/// hex digits, high nibble first.
#[verifier::external_body]
fn hex_encode(data: &Vec<u8>) -> (r: String)
    ensures
        r@ == spec_hex_lower(data@),
{
    hex::encode(data.as_slice())
}

/// Whether a digest's lowercase hex form equals the expected digest
/// string, compared case-sensitively.
pub fn digest_matches(digest: &Vec<u8>, expected: &String) -> (r: bool)
    ensures
        r == (spec_hex_lower(digest@) == expected@),
{
    let encoded = hex_encode(digest);
    encoded.eq(expected)
}

/// Index of the first candidate at or after `i` whose name is `name`, or
/// -1 when there is none.
pub open spec fn spec_find_name(files: Seq<RomFile>, name: Seq<char>, i: int) -> int
    decreases files.len() - i,
{
    if i < 0 || i >= files.len() {
        -1
    } else if files[i].name@ == name {
        i
    } else {
        spec_find_name(files, name, i + 1)
    }
}

/// Index of the first candidate at or after `i` whose SHA-1 digest has
/// lowercase hex form `hash`, or -1 when there is none.
pub open spec fn spec_find_hash(files: Seq<RomFile>, hash: Seq<char>, i: int) -> int
    decreases files.len() - i,
{
    if i < 0 || i >= files.len() {
        -1
    } else if spec_hex_lower(sha1_of(files[i].bytes@)) == hash {
        i
    } else {
        spec_find_hash(files, hash, i + 1)
    }
}

/// The bytes resolution settles on: the first name match, else the first
/// hash match, else empty (resolution fails in that case).
pub open spec fn spec_resolved_rom_bytes(
    files: Seq<RomFile>,
    filename: Seq<char>,
    hash: Seq<char>,
) -> Seq<u8> {
    if spec_find_name(files, filename, 0) >= 0 {
        files[spec_find_name(files, filename, 0)].bytes@
    } else if spec_find_hash(files, hash, 0) >= 0 {
        files[spec_find_hash(files, hash, 0)].bytes@
    } else {
        Seq::empty()
    }
}

fn clone_bytes(v: &Vec<u8>) -> (r: Vec<u8>)
    ensures
        r@ == v@,
{
    let mut r: Vec<u8> = Vec::new();
    let mut i: usize = 0;
    while i < v.len()
        invariant
            i <= v@.len(),
            r@ == v@.take(i as int),
        decreases v@.len() - i,
    {
        r.push(v[i]);
        proof {
            assert(r@ =~= v@.take(i as int + 1));
        }
        i = i + 1;
    }
    proof {
        assert(v@.take(v@.len() as int) =~= v@);
    }
    r
}

/// Resolves the ROM among the candidate files: first the one named
/// `filename`; only if no name matches, the first candidate whose full
/// contents hash (SHA-1, lowercase hex) to `sha1_hex`. Fails exactly when
/// neither a name match nor a hash match exists.
pub fn resolve_rom(filename: &String, sha1_hex: &String, files: &Vec<RomFile>) -> (r: Result<
    Vec<u8>,
    EncodeError,
>)
    ensures
        match r {
            Ok(bytes) => {
                if spec_find_name(files@, filename@, 0) >= 0 {
                    bytes@ == files@[spec_find_name(files@, filename@, 0)].bytes@
                } else {
                    spec_find_hash(files@, sha1_hex@, 0) >= 0 && bytes@ == files@[spec_find_hash(
                        files@,
                        sha1_hex@,
                        0,
                    )].bytes@
                }
            },
            Err(e) => {
                &&& spec_find_name(files@, filename@, 0) < 0
                &&& spec_find_hash(files@, sha1_hex@, 0) < 0
                &&& e == EncodeError::RomNotFound
            },
        },
{
    let mut i: usize = 0;
    while i < files.len()
        invariant
            i <= files@.len(),
            spec_find_name(files@, filename@, 0) == spec_find_name(files@, filename@, i as int),
        decreases files@.len() - i,
    {
        if files[i].name.eq(filename) {
            proof {
                assert(spec_find_name(files@, filename@, i as int) == i as int);
            }
            return Ok(clone_bytes(&files[i].bytes));
        }
        i = i + 1;
    }

    let mut j: usize = 0;
    while j < files.len()
        invariant
            j <= files@.len(),
            spec_find_name(files@, filename@, 0) < 0,
            spec_find_hash(files@, sha1_hex@, 0) == spec_find_hash(files@, sha1_hex@, j as int),
        decreases files@.len() - j,
    {
        let digest = sha1_digest(&files[j].bytes);
        if digest_matches(&digest, sha1_hex) {
            proof {
                assert(spec_find_hash(files@, sha1_hex@, j as int) == j as int);
            }
            return Ok(clone_bytes(&files[j].bytes));
        }
        j = j + 1;
    }

    Err(EncodeError::RomNotFound)
}

} // verus!
