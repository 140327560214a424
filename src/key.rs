//! Cache keys: a stable hexadecimal identifier derived from a relative path.

use vstd::prelude::*;
use vstd::string::*;

verus! {

/// What std's default hasher gives for the path `rel`.
pub uninterp spec fn path_hash(rel: Seq<char>) -> u64;

/// Relies on `std::hash::DefaultHasher` fed through `Hash for PathBuf`: every
/// hasher made by `DefaultHasher::new` starts from the same fixed state, so
/// the result depends on the path alone.
#[verifier::external_body]
fn default_hash_of_path(rel: &str) -> (r: u64)
    ensures
        r == path_hash(rel@),
{
    let mut hasher = std::hash::DefaultHasher::new();
    std::hash::Hash::hash(&std::path::PathBuf::from(rel), &mut hasher);
    std::hash::Hasher::finish(&hasher)
}

/// The lower-case hexadecimal digits.
pub open spec fn hex_digits() -> Seq<char> {
    "0123456789abcdef"@
}

/// `n` in lower-case hexadecimal, padded with zeros to `width` digits.
pub open spec fn hex_padded(n: nat, width: nat) -> Seq<char>
    decreases width,
{
    if width == 0 {
        Seq::empty()
    } else {
        hex_padded(n / 16, (width - 1) as nat) + seq![hex_digits()[(n % 16) as int]]
    }
}

/// The cache key of a relative path: its hash in sixteen hexadecimal digits.
pub open spec fn path_key(rel: Seq<char>) -> Seq<char> {
    hex_padded(path_hash(rel) as nat, 16)
}

proof fn lemma_hex_padded_len(n: nat, width: nat)
    ensures
        hex_padded(n, width).len() == width,
    decreases width,
{
    if width > 0 {
        lemma_hex_padded_len(n / 16, (width - 1) as nat);
    }
}

/// `n` in lower-case hexadecimal, padded with zeros to `width` digits.
pub fn hex_fixed(n: u64, width: u64) -> (r: String)
    ensures
        r@ == hex_padded(n as nat, width as nat),
    decreases width,
{
    if width == 0 {
        String::new()
    } else {
        let mut s = hex_fixed(n / 16, width - 1);
        s.append(hex_digit(n % 16));
        s
    }
}

fn hex_digit(d: u64) -> (r: &'static str)
    requires
        d < 16,
    ensures
        r@ == seq![hex_digits()[d as int]],
{
    let digits = "0123456789abcdef";
    proof {
        reveal_strlit("0123456789abcdef");
    }
    let r = digits.substring_char(d as usize, d as usize + 1);
    assert(r@ =~= seq![hex_digits()[d as int]]);
    r
}

/// The key of a relative path is the same whenever it is computed, in
/// this process or another: it depends on the path alone.
pub proof fn lemma_key_stable(a: Seq<char>, b: Seq<char>)
    requires
        a == b,
    ensures
        path_key(a) == path_key(b),
{
}

/// The cache key of a path relative to the library root.
pub fn hash_relative_path(rel_path: &str) -> (r: String)
    ensures
        r@ == path_key(rel_path@),
        r@.len() == 16,
{
    proof {
        lemma_hex_padded_len(path_hash(rel_path@) as nat, 16);
    }
    hex_fixed(default_hash_of_path(rel_path), 16)
}

} // verus!
