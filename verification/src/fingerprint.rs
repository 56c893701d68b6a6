//! Page fingerprinting using xxh3-128.
//!
//! Provides fast 128-bit fingerprints for 4KB pages, used by the dedup table
//! to identify duplicate pages without byte-for-byte comparison.

use vstd::prelude::*;

verus! {

/// Size of a memory page in bytes.
pub const PAGE_SIZE: usize = 4096;

/// A 128-bit page fingerprint.
pub type Fingerprint = [u8; 16];

// ---------------------------------------------------------------------------
// Little-endian numbers
// ---------------------------------------------------------------------------

/// The number that `s` writes in base 256, least significant byte first.
pub open spec fn le_value(s: Seq<u8>) -> nat
    decreases s.len(),
{
    if s.len() == 0 {
        0
    } else {
        s[0] as nat + 256 * le_value(s.skip(1))
    }
}

/// The `n` low bytes of `x`, least significant first.
pub open spec fn le_bytes(x: nat, n: nat) -> Seq<u8>
    decreases n,
{
    if n == 0 {
        Seq::empty()
    } else {
        seq![(x % 256) as u8] + le_bytes(x / 256, (n - 1) as nat)
    }
}

/// 256 to the power of `n`.
pub open spec fn pow256(n: nat) -> nat
    decreases n,
{
    if n == 0 {
        1
    } else {
        256 * pow256((n - 1) as nat)
    }
}

proof fn lemma_le_bytes(x: nat, n: nat)
    ensures
        le_bytes(x, n).len() == n,
        x < pow256(n) ==> le_value(le_bytes(x, n)) == x,
    decreases n,
{
    if n > 0 {
        lemma_le_bytes(x / 256, (n - 1) as nat);
        let s = le_bytes(x, n);
        assert(s.skip(1) =~= le_bytes(x / 256, (n - 1) as nat));
    }
}

proof fn lemma_le_value_bound(s: Seq<u8>)
    ensures
        le_value(s) < pow256(s.len()),
    decreases s.len(),
{
    if s.len() > 0 {
        lemma_le_value_bound(s.skip(1));
    }
}

proof fn lemma_pow256()
    ensures
        pow256(8) == 0x1_0000_0000_0000_0000,
        pow256(16) == 0x1_0000_0000_0000_0000 * 0x1_0000_0000_0000_0000,
{
    reveal_with_fuel(pow256, 17);
}

/// Distinct byte strings of one length write distinct numbers.
pub proof fn lemma_le_value_injective(a: Seq<u8>, b: Seq<u8>)
    requires
        a.len() == b.len(),
        le_value(a) == le_value(b),
    ensures
        a == b,
    decreases a.len(),
{
    if a.len() > 0 {
        lemma_le_value_injective(a.skip(1), b.skip(1));
        assert(a[0] == b[0]);
        assert(a =~= seq![a[0]] + a.skip(1));
        assert(b =~= seq![b[0]] + b.skip(1));
    } else {
        assert(a =~= b);
    }
}

/// Reads the eight bytes from `at` on as a little-endian number.
fn read_le_u64(fp: &Fingerprint, at: usize) -> (r: u64)
    requires
        at + 8 <= 16,
    ensures
        r == le_value(fp@.subrange(at as int, at + 8)),
{
    let mut acc: u64 = 0;
    let mut i: usize = 8;
    proof {
        lemma_pow256();
    }
    assert(fp@.subrange(at + 8, at + 8) =~= Seq::<u8>::empty());
    assert(pow256(0) == 1);
    while i > 0
        invariant
            i <= 8,
            at + 8 <= 16,
            acc == le_value(fp@.subrange(at + i, at + 8)),
            acc < pow256((8 - i) as nat),
            pow256(8) == 0x1_0000_0000_0000_0000,
        decreases i,
    {
        i -= 1;
        let ghost s = fp@.subrange(at + i, at + 8);
        assert(s.skip(1) =~= fp@.subrange(at + i + 1, at + 8));
        proof {
            lemma_le_value_bound(s);
            lemma_pow256_le((8 - i) as nat, 8);
        }
        acc = acc * 256 + fp[at + i] as u64;
    }
    acc
}

proof fn lemma_pow256_le(a: nat, b: nat)
    requires
        a <= b,
    ensures
        pow256(a) <= pow256(b),
        pow256(a) >= 1,
    decreases b,
{
    if a < b {
        lemma_pow256_le(a, (b - 1) as nat);
    } else if a > 0 {
        lemma_pow256_le((a - 1) as nat, (a - 1) as nat);
    }
}

/// The fingerprint as one number; it identifies the fingerprint.
pub open spec fn key_of(fp: Fingerprint) -> u128 {
    le_value(fp@) as u128
}

/// Two fingerprints have the same number only if they are the same bytes.
pub proof fn law_key_identifies_fingerprint(a: Fingerprint, b: Fingerprint)
    requires
        key_of(a) == key_of(b),
    ensures
        a@ == b@,
{
    lemma_le_value_bound(a@);
    lemma_le_value_bound(b@);
    lemma_pow256();
    lemma_le_value_injective(a@, b@);
}

/// Reads a fingerprint as one number.
pub fn fingerprint_key(fp: &Fingerprint) -> (r: u128)
    ensures
        r == key_of(*fp),
{
    let lo = read_le_u64(fp, 0);
    let hi = read_le_u64(fp, 8);
    proof {
        lemma_split_value(fp@);
        lemma_le_value_bound(fp@);
        lemma_pow256();
    }
    lo as u128 + hi as u128 * 0x1_0000_0000_0000_0000
}

proof fn lemma_split_value(s: Seq<u8>)
    requires
        s.len() == 16,
    ensures
        le_value(s) == le_value(s.subrange(0, 8)) + 0x1_0000_0000_0000_0000 * le_value(
            s.subrange(8, 16),
        ),
{
    lemma_split_at(s, 8);
    lemma_pow256();
    assert(s.take(8) =~= s.subrange(0, 8));
    assert(s.skip(8) =~= s.subrange(8, 16));
}

proof fn lemma_split_at(s: Seq<u8>, n: nat)
    requires
        n <= s.len(),
    ensures
        le_value(s) == le_value(s.take(n as int)) + pow256(n) * le_value(s.skip(n as int)),
    decreases n,
{
    if n == 0 {
        assert(s.skip(0) =~= s);
        assert(s.take(0) =~= Seq::<u8>::empty());
        assert(pow256(0) * le_value(s) == le_value(s)) by (nonlinear_arith)
            requires
                pow256(0) == 1,
        ;
    } else {
        lemma_split_at(s.skip(1), (n - 1) as nat);
        assert(s.skip(1).skip(n - 1) =~= s.skip(n as int));
        assert(s.skip(1).take(n - 1) =~= s.take(n as int).skip(1));
        let p = pow256((n - 1) as nat);
        let rest = le_value(s.skip(n as int));
        assert(256 * (p * rest) == (256 * p) * rest) by (nonlinear_arith);
        assert(pow256(n) == 256 * p);
        assert(le_value(s) == s[0] as nat + 256 * le_value(s.skip(1)));
        assert(s.take(n as int)[0] == s[0]);
        assert(le_value(s.take(n as int)) == s[0] as nat + 256 * le_value(s.take(n as int).skip(1)));
    }
}

// ---------------------------------------------------------------------------
// Fingerprints
// ---------------------------------------------------------------------------

/// What `xxh3_128` returns for the given bytes.
pub uninterp spec fn xxh3_128_of(data: Seq<u8>) -> u128;

/// `xxhash_rust::xxh3::xxh3_128` hashes its input with the default secret and
/// seed 0: the result depends on the input bytes alone.
pub assume_specification[ xxhash_rust::xxh3::xxh3_128 ](input: &[u8]) -> (hash: u128)
    ensures
        hash == xxh3_128_of(input@),
;

/// Lays a 128-bit hash out as a fingerprint, least significant byte first.
pub fn fingerprint_of_hash(hash: u128) -> (fp: Fingerprint)
    ensures
        fp@ == le_bytes(hash as nat, 16),
        key_of(fp) == hash,
{
    let mut fp: Fingerprint = [0u8;16];
    let mut rest: u128 = hash;
    let mut i: usize = 0;
    while i < 16
        invariant
            i <= 16,
            fp@.len() == 16,
            le_bytes(hash as nat, 16) =~= fp@.take(i as int) + le_bytes(
                rest as nat,
                (16 - i) as nat,
            ),
        decreases 16 - i,
    {
        let ghost before = fp@;
        fp[i] = (rest % 256) as u8;
        assert(fp@.take(i + 1) =~= before.take(i as int).push((rest % 256) as u8));
        rest = rest / 256;
        i += 1;
    }
    assert(fp@.take(16) =~= fp@);
    proof {
        lemma_le_bytes(hash as nat, 16);
        lemma_pow256();
    }
    fp
}

/// Computes the 128-bit fingerprint of a page: its xxh3-128 hash in
/// little-endian order.
pub fn fingerprint_page(data: &[u8]) -> (fp: Fingerprint)
    ensures
        fp@ == le_bytes(xxh3_128_of(data@) as nat, 16),
        key_of(fp) == xxh3_128_of(data@),
{
    let hash: u128 = xxhash_rust::xxh3::xxh3_128(data);
    fingerprint_of_hash(hash)
}

// ---------------------------------------------------------------------------
// Page contents
// ---------------------------------------------------------------------------

/// The smaller of two lengths.
pub open spec fn min_len(a: nat, b: nat) -> nat {
    if a <= b {
        a
    } else {
        b
    }
}

/// `data` cut or padded with zeroes to exactly `n` bytes.
pub open spec fn padded(data: Seq<u8>, n: nat) -> Seq<u8> {
    Seq::new(
        n,
        |i: int|
            if i < data.len() {
                data[i]
            } else {
                0u8
            },
    )
}

/// A page of zeroes.
pub open spec fn zero_page() -> Seq<u8> {
    Seq::new(PAGE_SIZE as nat, |i: int| 0u8)
}

/// Whether the two agree on as many of their first 64 bytes as both have.
pub open spec fn prefixes_agree(stored_prefix: Seq<u8>, new_data: Seq<u8>) -> bool {
    let n = min_len(64, min_len(stored_prefix.len(), new_data.len())) as int;
    stored_prefix.take(n) == new_data.take(n)
}

/// Verifies a fingerprint match by comparing the first 64 bytes of the page.
pub fn verify_page_prefix(stored_prefix: &[u8], new_data: &[u8]) -> (r: bool)
    ensures
        r == prefixes_agree(stored_prefix@, new_data@),
{
    let mut n: usize = 64;
    if stored_prefix.len() < n {
        n = stored_prefix.len();
    }
    if new_data.len() < n {
        n = new_data.len();
    }
    let mut i: usize = 0;
    while i < n
        invariant
            i <= n,
            n <= stored_prefix.len(),
            n <= new_data.len(),
            n == min_len(64, min_len(stored_prefix@.len(), new_data@.len())),
            forall|k: int| 0 <= k < i ==> stored_prefix@[k] == new_data@[k],
        decreases n - i,
    {
        if stored_prefix[i] != new_data[i] {
            assert(stored_prefix@.take(n as int)[i as int] != new_data@.take(n as int)[i as int]);
            return false;
        }
        i += 1;
    }
    assert(stored_prefix@.take(n as int) =~= new_data@.take(n as int));
    true
}

/// Extracts a 64-byte prefix for collision verification, padded with zeroes.
pub fn page_prefix(data: &[u8]) -> (r: [u8; 64])
    ensures
        r@ == padded(data@, 64),
{
    let mut prefix: [u8; 64] = [0u8;64];
    let mut i: usize = 0;
    while i < 64 && i < data.len()
        invariant
            i <= 64,
            i <= data.len(),
            prefix@.len() == 64,
            forall|k: int| 0 <= k < i ==> prefix@[k] == data@[k],
            forall|k: int| i <= k < 64 ==> prefix@[k] == 0,
        decreases 64 - i,
    {
        prefix[i] = data[i];
        i += 1;
    }
    assert(prefix@ =~= padded(data@, 64));
    prefix
}

/// Cuts or pads data to one page.
pub fn normalize_page(data: &[u8]) -> (r: [u8; PAGE_SIZE])
    ensures
        r@ == padded(data@, PAGE_SIZE as nat),
{
    let mut page: [u8; PAGE_SIZE] = [0u8;PAGE_SIZE];
    let mut i: usize = 0;
    while i < PAGE_SIZE && i < data.len()
        invariant
            i <= PAGE_SIZE,
            i <= data.len(),
            page@.len() == PAGE_SIZE,
            forall|k: int| 0 <= k < i ==> page@[k] == data@[k],
            forall|k: int| i <= k < PAGE_SIZE ==> page@[k] == 0,
        decreases PAGE_SIZE - i,
    {
        page[i] = data[i];
        i += 1;
    }
    assert(page@ =~= padded(data@, PAGE_SIZE as nat));
    page
}

/// A stored prefix always agrees with the page that it was taken from.
pub proof fn law_page_agrees_with_its_prefix(data: Seq<u8>)
    ensures
        prefixes_agree(padded(data, 64), data),
{
    let n = min_len(64, data.len()) as int;
    assert(padded(data, 64).take(n) =~= data.take(n));
}

/// The two halves of a fingerprint, and their sum modulo 2^64.
pub open spec fn bloom_hash(fp: Seq<u8>, i: int) -> u64 {
    let h1 = le_value(fp.subrange(0, 8)) as u64;
    let h2 = le_value(fp.subrange(8, 16)) as u64;
    if i == 0 {
        h1
    } else if i == 1 {
        h2
    } else {
        h1.wrapping_add(h2)
    }
}

/// Derives three bloom filter indices from a fingerprint.
pub fn bloom_indices(fp: &Fingerprint, num_bits: usize) -> (r: [usize; 3])
    requires
        num_bits > 0,
    ensures
        forall|i: int|
            0 <= i < 3 ==> #[trigger] r@[i] == (bloom_hash(fp@, i) as usize) % num_bits && r@[i]
                < num_bits,
{
    let h1: u64 = read_le_u64(fp, 0);
    let h2: u64 = read_le_u64(fp, 8);
    let h3: u64 = h1.wrapping_add(h2);
    [(h1 as usize) % num_bits, (h2 as usize) % num_bits, (h3 as usize) % num_bits]
}

/// A page that is written has 4096 bytes: shorter data is filled up with zeroes, longer
/// data is cut, and a whole page stays as it is.
pub proof fn law_pages_are_padded(data: Seq<u8>, i: int)
    ensures
        padded(data, PAGE_SIZE as nat).len() == 4096,
        0 <= i < 4096 && i < data.len() ==> padded(data, PAGE_SIZE as nat)[i] == data[i],
        data.len() <= i < 4096 ==> padded(data, PAGE_SIZE as nat)[i] == 0,
        data.len() == 4096 ==> padded(data, PAGE_SIZE as nat) == data,
        zero_page().len() == 4096,
        0 <= i < 4096 ==> zero_page()[i] == 0,
        padded(Seq::empty(), PAGE_SIZE as nat) == zero_page(),
{
    assert(padded(Seq::empty(), PAGE_SIZE as nat) =~= zero_page());
    if data.len() == 4096 {
        assert(padded(data, PAGE_SIZE as nat) =~= data);
    }
}

/// A prefix agrees with a page if its bytes, at most 64 of them, are those of the page.
pub proof fn law_prefixes_agree_byte_by_byte(prefix: Seq<u8>, page: Seq<u8>)
    ensures
        prefixes_agree(prefix, page) <==> (forall|i: int|
            0 <= i < 64 && i < prefix.len() && i < page.len() ==> #[trigger] prefix[i] == page[i]),
{
    let n = min_len(64, min_len(prefix.len(), page.len())) as int;
    if prefixes_agree(prefix, page) {
        assert forall|i: int| 0 <= i < 64 && i < prefix.len() && i < page.len() implies (
        #[trigger] prefix[i]) == page[i] by {
            assert(prefix.take(n)[i] == page.take(n)[i]);
        }
    } else if forall|i: int|
        0 <= i < 64 && i < prefix.len() && i < page.len() ==> #[trigger] prefix[i] == page[i] {
        assert(prefix.take(n) =~= page.take(n));
    }
}

proof fn lemma_le_bytes_split(x: nat, n: nat, m: nat)
    ensures
        le_bytes(x, n + m) == le_bytes(x, n) + le_bytes(x / pow256(n), m),
        le_bytes(x, n).len() == n,
        pow256(n) > 0,
    decreases n,
{
    if n == 0 {
        assert(le_bytes(x, 0) + le_bytes(x / 1, m) =~= le_bytes(x, m));
    } else {
        let k = (n - 1) as nat;
        lemma_le_bytes_split(x / 256, k, m);
        let p = pow256(k);
        assert((x / 256) / p == x / (256 * p)) by {
            vstd::arithmetic::div_mod::lemma_div_denominator(x as int, 256, p as int);
        }
        assert(le_bytes(x, n + m) =~= le_bytes(x, n) + le_bytes(x / pow256(n), m));
    }
}

proof fn lemma_le_value_small(x: nat, n: nat)
    ensures
        le_value(le_bytes(x, n)) == x % pow256(n),
        pow256(n) > 0,
    decreases n,
{
    if n == 0 {
        assert(le_value(le_bytes(x, n)) == 0);
    } else {
        let k = (n - 1) as nat;
        lemma_le_value_small(x / 256, k);
        let p = pow256(k);
        let rest = le_bytes(x / 256, k);
        assert(le_bytes(x, n).skip(1) =~= rest);
        vstd::arithmetic::div_mod::lemma_mod_breakdown(x as int, 256, p as int);
        assert(x % (256 * p) == 256 * ((x / 256) % p) + x % 256);
    }
}

/// The three places of a fingerprint in the filter come from its two halves: the low one,
/// the high one, and their sum, which wraps around.
pub proof fn law_filter_places_come_from_the_halves(hash: u128)
    ensures
        ({
            let fp = le_bytes(hash as nat, 16);
            let low = (hash % 0x1_0000_0000_0000_0000) as u64;
            let high = (hash / 0x1_0000_0000_0000_0000) as u64;
            &&& bloom_hash(fp, 0) == low
            &&& bloom_hash(fp, 1) == high
            &&& bloom_hash(fp, 2) == (low + high) % 0x1_0000_0000_0000_0000
        }),
{
    let x = hash as nat;
    let fp = le_bytes(x, 16);
    lemma_le_bytes_split(x, 8, 8);
    lemma_le_bytes_split(x / pow256(8), 8, 0);
    assert(pow256(8) == 0x1_0000_0000_0000_0000) by {
        reveal_with_fuel(pow256, 9);
    }
    assert(fp.subrange(0, 8) =~= le_bytes(x, 8));
    assert(fp.subrange(8, 16) =~= le_bytes(x / pow256(8), 8));
    lemma_le_value_small(x, 8);
    lemma_le_value_small(x / pow256(8), 8);
    assert((x / 0x1_0000_0000_0000_0000) < 0x1_0000_0000_0000_0000);
    assert((x / 0x1_0000_0000_0000_0000) % 0x1_0000_0000_0000_0000 == x
        / 0x1_0000_0000_0000_0000);
}

/// Bytes are laid out from the least significant on: the first is the remainder by 256,
/// and the others are those of the quotient.
pub proof fn law_least_significant_byte_comes_first(x: nat, n: nat, s: Seq<u8>)
    ensures
        n > 0 ==> le_bytes(x, n)[0] == x % 256 && le_bytes(x, n).skip(1) == le_bytes(
            x / 256,
            (n - 1) as nat,
        ),
        le_bytes(x, n).len() == n,
        s.len() > 0 ==> le_value(s) == s[0] + 256 * le_value(s.skip(1)),
        le_value(le_bytes(x, n)) == x % pow256(n),
{
    lemma_le_bytes_split(x, n, 0);
    lemma_le_value_small(x, n);
    if n > 0 {
        assert(le_bytes(x, n).skip(1) =~= le_bytes(x / 256, (n - 1) as nat));
    }
}

} // verus!
