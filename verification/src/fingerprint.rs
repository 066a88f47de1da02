//! Content fingerprinting: a 64-bit hash of a sentence and of a full row,
//! and the audio filename derived from the sentence fingerprint.

use vstd::prelude::*;
use vstd::string::StringExecFns;
use std::hash::{Hash, Hasher};
use fasthash::XXHasher;

verus! {

/// The 64-bit value that the xxHash hasher (64-bit, seed 0) assigns to a
/// sequence of string fields, each field fed to the hash state in order.
pub uninterp spec fn xx_hash_of(fields: Seq<Seq<char>>) -> u64;

/// The views of a sequence of owned strings.
pub open spec fn field_views(fields: Seq<String>) -> Seq<Seq<char>> {
    Seq::new(fields.len(), |i: int| fields[i]@)
}

/// Fingerprint of the sentence text alone: the hash of the row's first field.
pub open spec fn sentence_fp(row: Seq<Seq<char>>) -> u64 {
    xx_hash_of(row.take(1))
}

/// Fingerprint of the whole row: the hash of every field in order when the
/// row has more than one field, and the sentence fingerprint otherwise.
pub open spec fn row_fp(row: Seq<Seq<char>>) -> u64 {
    if row.len() > 1 {
        xx_hash_of(row)
    } else {
        sentence_fp(row)
    }
}

/// Fingerprint determinism: the fingerprints are functions of the field
/// values alone, so equal field sequences — in this run or another — carry
/// equal fingerprints.
pub proof fn lemma_fingerprint_deterministic(a: Seq<Seq<char>>, b: Seq<Seq<char>>)
    requires
        a == b,
    ensures
        sentence_fp(a) == sentence_fp(b),
        row_fp(a) == row_fp(b),
{
}

/// Relies on `fasthash::XXHasher` (xxHash, 64-bit output, seed 0) together
/// with std's `Hash for str`: the hasher is deterministic, so the result is a
/// function of the field values alone.
#[verifier::external_body]
fn xx_hash_fields(fields: &[String]) -> (r: u64)
    ensures
        r == xx_hash_of(field_views(fields@)),
{
    let mut hasher = XXHasher::default();
    for f in fields {
        f.as_str().hash(&mut hasher);
    }
    hasher.finish()
}

/// Hash of the first field of a row, per `sentence_fp`.
pub fn fingerprint_sentence(record: &Vec<String>) -> (r: u64)
    requires
        record@.len() >= 1,
    ensures
        r == sentence_fp(field_views(record@)),
{
    let first = vstd::slice::slice_subrange(record.as_slice(), 0, 1);
    let r = xx_hash_fields(first);
    proof {
        assert(field_views(first@) =~= field_views(record@).take(1));
    }
    r
}

/// Hash of the whole row, per `row_fp`.
pub fn fingerprint_row(record: &Vec<String>) -> (r: u64)
    requires
        record@.len() >= 1,
    ensures
        r == row_fp(field_views(record@)),
{
    if record.len() > 1 {
        let all = record.as_slice();
        let r = xx_hash_fields(all);
        proof {
            assert(field_views(all@) =~= field_views(record@));
        }
        r
    } else {
        fingerprint_sentence(record)
    }
}

/// The decimal digit characters of `n`, most significant first.
pub open spec fn dec_of(n: nat) -> Seq<char>
    decreases n,
{
    if n < 10 {
        seq![dec_digit(n)]
    } else {
        dec_of(n / 10).push(dec_digit(n % 10))
    }
}

/// The character of one decimal digit.
pub open spec fn dec_digit(d: nat) -> char {
    if d == 0 {
        '0'
    } else if d == 1 {
        '1'
    } else if d == 2 {
        '2'
    } else if d == 3 {
        '3'
    } else if d == 4 {
        '4'
    } else if d == 5 {
        '5'
    } else if d == 6 {
        '6'
    } else if d == 7 {
        '7'
    } else if d == 8 {
        '8'
    } else {
        '9'
    }
}

/// Relies on the `Display` implementation for `u64`: it renders the value in
/// decimal, with no sign, padding or separators.
#[verifier::external_body]
fn u64_to_decimal(n: u64) -> (r: String)
    ensures
        r@ == dec_of(n as nat),
{
    format!("{}", n)
}

/// The name of the audio file derived from a sentence fingerprint.
pub open spec fn output_filename_of(h: u64) -> Seq<char> {
    "parrot_"@ + dec_of(h as nat) + ".mp3"@
}

/// Builds the audio filename for a sentence fingerprint.
pub fn output_filename(h: u64) -> (r: String)
    ensures
        r@ == output_filename_of(h),
{
    let digits = u64_to_decimal(h);
    let mut name = String::from_str("parrot_");
    name.append(digits.as_str());
    name.append(".mp3");
    name
}

} // verus!
