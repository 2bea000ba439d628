//! Proof-of-work headers in the shape that stratum miners expect.
use crate::crypto;
use crate::error;
use crate::error::Error;
use crate::hex;
use crate::text;
use crate::vdf;
use vstd::arithmetic::div_mod::*;
use vstd::arithmetic::power2::*;
use vstd::prelude::*;
use vstd::string::*;
use vstd::utf8::*;

verus! {

pub const STRATUM_EXTRANONCE1_HEX: &'static str = "00000000";

pub const STRATUM_EXTRANONCE2_SIZE: usize = 4;

pub const STRATUM_MINE_HEADER_BYTES: usize = 80;

/// What a stratum miner needs to search for a proof.
#[derive(Clone, Debug, Eq, PartialEq)]
pub struct StratumMineTemplate {
    pub recipient: String,
    pub anchor: String,
    pub salt: u64,
    pub difficulty_bits: u32,
    pub coinbase_prefix: Vec<u8>,
    pub version_hex: String,
    pub prev_hash_hex: String,
    pub nbits_hex: String,
    pub ntime_hex: String,
}

/// The two parts of a nonce that a miner found.
#[derive(Clone, Copy, Debug, Eq, PartialEq)]
pub struct StratumMineShare {
    pub extranonce2: [u8; 4],
    pub header_nonce: [u8; 4],
}

/// Four bytes as a number, most significant first.
pub open spec fn be4(b: Seq<u8>) -> int {
    b[0] * 0x100_0000 + b[1] * 0x1_0000 + b[2] * 0x100 + b[3]
}

/// Four bytes as a number, least significant first.
pub open spec fn le4(b: Seq<u8>) -> int {
    b[3] * 0x100_0000 + b[2] * 0x1_0000 + b[1] * 0x100 + b[0]
}

/// A number below 2^32 in four bytes, most significant first.
pub open spec fn be4_bytes(n: int) -> Seq<u8> {
    seq![
        (n / 0x100_0000 % 0x100) as u8,
        (n / 0x1_0000 % 0x100) as u8,
        (n / 0x100 % 0x100) as u8,
        (n % 0x100) as u8,
    ]
}

/// A number below 2^32 in four bytes, least significant first.
pub open spec fn le4_bytes(n: int) -> Seq<u8> {
    seq![
        (n % 0x100) as u8,
        (n / 0x100 % 0x100) as u8,
        (n / 0x1_0000 % 0x100) as u8,
        (n / 0x100_0000 % 0x100) as u8,
    ]
}

/// The nonce that an extranonce and a header nonce make up.
pub open spec fn packed_nonce(extranonce2: Seq<u8>, header_nonce: Seq<u8>) -> int {
    be4(extranonce2) * 0x1_0000_0000 + le4(header_nonce)
}

/// The extranonce in the upper half of a nonce.
pub open spec fn nonce_extranonce2(nonce: u64) -> Seq<u8> {
    be4_bytes(nonce as int / 0x1_0000_0000)
}

/// The header nonce in the lower half of a nonce.
pub open spec fn nonce_header_nonce(nonce: u64) -> Seq<u8> {
    le4_bytes(nonce as int % 0x1_0000_0000)
}

pub fn pack_stratum_nonce(extranonce2: [u8; 4], header_nonce: [u8; 4]) -> (nonce: u64)
    ensures
        nonce == packed_nonce(extranonce2@, header_nonce@),
{
    let extra: u64 = extranonce2[0] as u64 * 0x100_0000 + extranonce2[1] as u64 * 0x1_0000
        + extranonce2[2] as u64 * 0x100 + extranonce2[3] as u64;
    let low: u64 = header_nonce[3] as u64 * 0x100_0000 + header_nonce[2] as u64 * 0x1_0000
        + header_nonce[1] as u64 * 0x100 + header_nonce[0] as u64;
    extra * 0x1_0000_0000 + low
}

fn be_bytes(n: u32) -> (r: [u8; 4])
    ensures
        r@ == be4_bytes(n as int),
{
    let r: [u8; 4] = [
        (n / 0x100_0000 % 0x100) as u8,
        (n / 0x1_0000 % 0x100) as u8,
        (n / 0x100 % 0x100) as u8,
        (n % 0x100) as u8,
    ];
    assert(r@ =~= be4_bytes(n as int));
    r
}

fn le_bytes(n: u32) -> (r: [u8; 4])
    ensures
        r@ == le4_bytes(n as int),
{
    let r: [u8; 4] = [
        (n % 0x100) as u8,
        (n / 0x100 % 0x100) as u8,
        (n / 0x1_0000 % 0x100) as u8,
        (n / 0x100_0000 % 0x100) as u8,
    ];
    assert(r@ =~= le4_bytes(n as int));
    r
}

pub fn unpack_stratum_nonce(nonce: u64) -> (r: ([u8; 4], [u8; 4]))
    ensures
        r.0@ == nonce_extranonce2(nonce),
        r.1@ == nonce_header_nonce(nonce),
{
    (be_bytes((nonce / 0x1_0000_0000) as u32), le_bytes((nonce % 0x1_0000_0000) as u32))
}

/// Four digits in base 256 and the number they write.
proof fn four_digits(n: int, a: int, b: int, c: int, d: int)
    requires
        0 <= a < 0x100,
        0 <= b < 0x100,
        0 <= c < 0x100,
        0 <= d < 0x100,
        n == a * 0x100_0000 + b * 0x1_0000 + c * 0x100 + d,
    ensures
        n / 0x100_0000 % 0x100 == a,
        n / 0x1_0000 % 0x100 == b,
        n / 0x100 % 0x100 == c,
        n % 0x100 == d,
{
    assert(n / 0x100 == a * 0x1_0000 + b * 0x100 + c);
    assert(n / 0x1_0000 == a * 0x100 + b);
    assert(n / 0x100_0000 == a);
}

/// A number below 2^32 and its digits in base 256.
proof fn number_of_digits(n: int)
    requires
        0 <= n < 0x1_0000_0000,
    ensures
        be4(be4_bytes(n)) == n,
        le4(le4_bytes(n)) == n,
{
    let a = n / 0x100_0000;
    let b = n / 0x1_0000 % 0x100;
    let c = n / 0x100 % 0x100;
    let d = n % 0x100;
    assert(n / 0x100 == (n / 0x1_0000) * 0x100 + c);
    assert(n / 0x1_0000 == a * 0x100 + b);
    assert(n == a * 0x100_0000 + b * 0x1_0000 + c * 0x100 + d);
    assert(a % 0x100 == a);
}

/// Packing a nonce and unpacking it undo each other.
pub proof fn nonce_round_trip(extranonce2: Seq<u8>, header_nonce: Seq<u8>, nonce: u64)
    requires
        extranonce2.len() == 4,
        header_nonce.len() == 4,
    ensures
        packed_nonce(nonce_extranonce2(nonce), nonce_header_nonce(nonce)) == nonce,
        0 <= packed_nonce(extranonce2, header_nonce) <= u64::MAX,
        nonce_extranonce2(packed_nonce(extranonce2, header_nonce) as u64) == extranonce2,
        nonce_header_nonce(packed_nonce(extranonce2, header_nonce) as u64) == header_nonce,
{
    let n = nonce as int;
    let upper = n / 0x1_0000_0000;
    let lower = n % 0x1_0000_0000;
    assert(n == upper * 0x1_0000_0000 + lower);
    number_of_digits(upper);
    number_of_digits(lower);
    let e = extranonce2;
    let h = header_nonce;
    let high = be4(e);
    let low = le4(h);
    four_digits(high, e[0] as int, e[1] as int, e[2] as int, e[3] as int);
    four_digits(low, h[3] as int, h[2] as int, h[1] as int, h[0] as int);
    assert(be4_bytes(high) =~= e);
    assert(le4_bytes(low) =~= h);
    halves(high, low);
}

proof fn halves(high: int, low: int)
    requires
        0 <= high < 0x1_0000_0000,
        0 <= low < 0x1_0000_0000,
    ensures
        0 <= high * 0x1_0000_0000 + low <= u64::MAX,
        (high * 0x1_0000_0000 + low) / 0x1_0000_0000 == high,
        (high * 0x1_0000_0000 + low) % 0x1_0000_0000 == low,
{
    let p = high * 0x1_0000_0000 + low;
    assert(p / 0x1_0000_0000 == high && p % 0x1_0000_0000 == low);
}

/// The start of the coinbase of a mine action.
pub open spec fn coinbase_prefix(recipient: Seq<char>, anchor: Seq<char>, salt: u64, bits: u32) -> Seq<char> {
    "iuna-stratum-mine:"@ + recipient + ":"@ + anchor + ":"@ + text::decimal(salt as nat) + ":"@
        + text::decimal(bits as nat) + ":"@
}

fn stratum_coinbase_prefix(recipient: &str, anchor: &str, salt: u64, difficulty_bits: u32) -> (r: String)
    ensures
        r@ == coinbase_prefix(recipient@, anchor@, salt, difficulty_bits),
{
    let mut t = text::text("iuna-stratum-mine:");
    t.append(recipient);
    t.append(":");
    t.append(anchor);
    t.append(":");
    text::push_decimal(&mut t, salt as u128);
    t.append(":");
    text::push_decimal(&mut t, difficulty_bits as u128);
    t.append(":");
    t
}

/// The coinbase of a mine action: its prefix, four zero bytes and the extranonce.
pub open spec fn coinbase(recipient: Seq<char>, anchor: Seq<char>, salt: u64, nonce: u64, bits: u32) -> Seq<u8> {
    encode_utf8(coinbase_prefix(recipient, anchor, salt, bits)) + seq![0u8, 0, 0, 0] + nonce_extranonce2(nonce)
}

/// Appends the bytes of a slice.
pub(crate) fn push_bytes(target: &mut Vec<u8>, bytes: &[u8])
    ensures
        final(target)@ == old(target)@ + bytes@,
{
    let mut i: usize = 0;
    let ghost before = target@;
    while i < bytes.len()
        invariant
            i <= bytes.len(),
            target@ =~= before + bytes@.take(i as int),
        decreases bytes.len() - i,
    {
        target.push(bytes[i]);
        i = i + 1;
    }
    assert(bytes@.take(bytes@.len() as int) =~= bytes@);
}

fn stratum_coinbase_bytes(recipient: &str, anchor: &str, salt: u64, nonce: u64, difficulty_bits: u32) -> (r: Vec<u8>)
    ensures
        r@ == coinbase(recipient@, anchor@, salt, nonce, difficulty_bits),
{
    let prefix = stratum_coinbase_prefix(recipient, anchor, salt, difficulty_bits);
    let mut bytes: Vec<u8> = Vec::new();
    push_bytes(&mut bytes, prefix.as_str().as_bytes());
    assert(bytes@ =~= encode_utf8(prefix@));
    let zeros: [u8; 4] = [0, 0, 0, 0];
    push_bytes(&mut bytes, zeros.as_slice());
    let (extranonce2, _) = unpack_stratum_nonce(nonce);
    push_bytes(&mut bytes, extranonce2.as_slice());
    assert(zeros@ =~= seq![0u8, 0, 0, 0]);
    bytes
}

/// SHA-256 applied twice.
pub open spec fn double_hash(bytes: Seq<u8>) -> Seq<u8> {
    crypto::sha256(crypto::sha256(bytes))
}

fn double_sha256(bytes: &[u8]) -> (r: Vec<u8>)
    ensures
        r@ == double_hash(bytes@),
        r@.len() == 32,
{
    let first = crypto::sha256_digest(bytes);
    crypto::sha256_digest(first.as_slice())
}

/// The header of a mine action: version, anchor, coinbase hash, time, difficulty and nonce.
pub open spec fn header(
    recipient: Seq<char>,
    anchor: Seq<char>,
    salt: u64,
    nonce: u64,
    bits: u32,
) -> Result<Seq<u8>, Seq<char>> {
    match hex::exact_bytes_of(anchor, 32) {
        Err(e) => Err(error::in_context("mine transaction anchor is not hex"@, e)),
        Ok(anchor_bytes) => Ok(
            seq![1u8, 0, 0, 0] + anchor_bytes + double_hash(coinbase(recipient, anchor, salt, nonce, bits))
                + seq![0u8, 0, 0, 0] + le4_bytes(bits as int) + nonce_header_nonce(nonce),
        ),
    }
}

pub fn stratum_mine_header_bytes(
    recipient: &str,
    anchor: &str,
    salt: u64,
    nonce: u64,
    difficulty_bits: u32,
) -> (r: Result<Vec<u8>, Error>)
    ensures
        match r {
            Ok(b) => header(recipient@, anchor@, salt, nonce, difficulty_bits) == Ok::<Seq<u8>, Seq<char>>(b@)
                && b@.len() == 80,
            Err(e) => header(recipient@, anchor@, salt, nonce, difficulty_bits) == Err::<Seq<u8>, Seq<char>>(
                e.deep_view(),
            ),
        },
{
    let anchor_bytes = match hex::decode_hex_array(anchor, 32) {
        Ok(b) => b,
        Err(e) => return Err(e.context("mine transaction anchor is not hex")),
    };
    let mut bytes: Vec<u8> = vec![1, 0, 0, 0];
    assert(bytes@ =~= seq![1u8, 0, 0, 0]);
    push_bytes(&mut bytes, anchor_bytes.as_slice());
    let body = stratum_coinbase_bytes(recipient, anchor, salt, nonce, difficulty_bits);
    let merkle_root = double_sha256(body.as_slice());
    push_bytes(&mut bytes, merkle_root.as_slice());
    let zeros: [u8; 4] = [0, 0, 0, 0];
    push_bytes(&mut bytes, zeros.as_slice());
    assert(zeros@ =~= seq![0u8, 0, 0, 0]);
    push_bytes(&mut bytes, le_bytes(difficulty_bits).as_slice());
    let (_, header_nonce) = unpack_stratum_nonce(nonce);
    push_bytes(&mut bytes, header_nonce.as_slice());
    Ok(bytes)
}

/// The proof hash of a header: its double hash, byte order reversed, in hexadecimal.
pub open spec fn header_signature(header_bytes: Seq<u8>) -> Seq<char> {
    hex::text_of(double_hash(header_bytes).reverse())
}

pub fn stratum_mine_signature(header_bytes: &[u8]) -> (r: String)
    ensures
        r@ == header_signature(header_bytes@),
{
    let digest = double_sha256(header_bytes);
    let mut reversed: Vec<u8> = Vec::new();
    let mut i: usize = digest.len();
    while i > 0
        invariant
            i <= digest@.len(),
            reversed@.len() == digest@.len() - i,
            forall|j: int| 0 <= j < reversed@.len() ==> reversed@[j] == digest@[digest@.len() - 1 - j],
        decreases i,
    {
        i = i - 1;
        reversed.push(digest[i]);
    }
    assert(reversed@ =~= digest@.reverse());
    hex::hex_encode(reversed.as_slice())
}

/// The template for a stratum miner.
pub open spec fn template_matches(
    t: StratumMineTemplate,
    recipient: Seq<char>,
    anchor: Seq<char>,
    salt: u64,
    bits: u32,
) -> bool {
    &&& t.recipient@ == recipient
    &&& t.anchor@ == anchor
    &&& t.salt == salt
    &&& t.difficulty_bits == bits
    &&& t.coinbase_prefix@ == encode_utf8(coinbase_prefix(recipient, anchor, salt, bits))
    &&& t.version_hex@ == hex::text_of(seq![1u8, 0, 0, 0])
    &&& t.prev_hash_hex@ == hex::text_of(hex::bytes_of(anchor)->Ok_0)
    &&& t.nbits_hex@ == hex::text_of(le4_bytes(bits as int))
    &&& t.ntime_hex@ == hex::text_of(seq![0u8, 0, 0, 0])
}

/// Why a template is refused, if it is.
pub open spec fn template_refusal(recipient: Seq<char>, anchor: Seq<char>) -> Option<Seq<char>> {
    match crate::validate::address_check(recipient, "mine recipient"@) {
        Err(e) => Some(e),
        Ok(_) => match crate::validate::hash_check(anchor, "mine transaction anchor"@) {
            Err(e) => Some(e),
            Ok(_) => None,
        },
    }
}

pub fn stratum_mine_template(recipient: &str, anchor: &str, salt: u64, difficulty_bits: u32) -> (r: Result<
    StratumMineTemplate,
    Error,
>)
    ensures
        match r {
            Ok(t) => template_refusal(recipient@, anchor@) is None && template_matches(
                t,
                recipient@,
                anchor@,
                salt,
                difficulty_bits,
            ),
            Err(e) => template_refusal(recipient@, anchor@) == Some(e.deep_view()),
        },
{
    crate::validate::validate_address(recipient, "mine recipient")?;
    crate::validate::validate_hash(anchor, "mine transaction anchor")?;
    let anchor_bytes = match hex::decode_hex_array(anchor, 32) {
        Ok(b) => b,
        Err(e) => return Err(e.context("mine transaction anchor is not hex")),
    };
    let version: [u8; 4] = [1, 0, 0, 0];
    let ntime: [u8; 4] = [0, 0, 0, 0];
    assert(version@ =~= seq![1u8, 0, 0, 0]);
    assert(ntime@ =~= seq![0u8, 0, 0, 0]);
    let prefix = stratum_coinbase_prefix(recipient, anchor, salt, difficulty_bits);
    let mut prefix_bytes: Vec<u8> = Vec::new();
    push_bytes(&mut prefix_bytes, prefix.as_str().as_bytes());
    assert(prefix_bytes@ =~= encode_utf8(prefix@));
    Ok(
        StratumMineTemplate {
            recipient: text::text(recipient),
            anchor: text::text(anchor),
            salt,
            difficulty_bits,
            coinbase_prefix: prefix_bytes,
            version_hex: hex::hex_encode(version.as_slice()),
            prev_hash_hex: hex::hex_encode(anchor_bytes.as_slice()),
            nbits_hex: hex::hex_encode(le_bytes(difficulty_bits).as_slice()),
            ntime_hex: hex::hex_encode(ntime.as_slice()),
        },
    )
}

impl StratumMineTemplate {
    pub fn coinb1_hex(&self) -> (r: String)
        ensures
            r@ == hex::text_of(self.coinbase_prefix@),
    {
        hex::hex_encode(self.coinbase_prefix.as_slice())
    }
}

/// Whether a hash in hexadecimal starts with `bits` zero bits.
pub open spec fn meets_difficulty(hash: Seq<char>, bits: u32) -> bool {
    let b = encode_utf8(hash);
    let full = (bits / 4) as int;
    let rest = bits % 4;
    &&& full <= b.len()
    &&& forall|i: int| 0 <= i < full ==> #[trigger] b[i] == 48
    &&& rest != 0 ==> {
        &&& full < b.len()
        &&& hex::nibble(b[full]) is Some
        &&& hex::nibble(b[full])->0 < (if rest == 1 { 8int } else if rest == 2 { 4 } else { 2 })
    }
}

pub fn hash_meets_difficulty(hash: &str, difficulty_bits: u32) -> (r: bool)
    ensures
        r == meets_difficulty(hash@, difficulty_bits),
{
    let b = hash.as_bytes();
    let full: usize = (difficulty_bits / 4) as usize;
    let rest: u32 = difficulty_bits % 4;
    if b.len() < full {
        return false;
    }
    let mut i: usize = 0;
    while i < full
        invariant
            i <= full <= b@.len(),
            full == difficulty_bits / 4,
            b@ == encode_utf8(hash@),
            forall|j: int| 0 <= j < i ==> #[trigger] b@[j] == 48,
        decreases full - i,
    {
        if b[i] != 48 {
            return false;
        }
        i = i + 1;
    }
    if rest == 0 {
        return true;
    }
    if b.len() == full {
        return false;
    }
    let limit: u8 = if rest == 1 {
        8
    } else if rest == 2 {
        4
    } else {
        2
    };
    match crate::vdf::digit_value(b[full]) {
        Some(value) => value < limit,
        None => false,
    }
}

/// A hash that meets a difficulty meets every lower one.
pub proof fn difficulty_is_monotonic(hash: Seq<char>, lower: u32, higher: u32)
    requires
        lower <= higher,
        meets_difficulty(hash, higher),
    ensures
        meets_difficulty(hash, lower),
{
    let b = encode_utf8(hash);
    let full = (lower / 4) as int;
    if lower % 4 != 0 && full < higher / 4 {
        assert(b[full] == 48);
    }
}

#[verifier::spinoff_prover]
proof fn digits_split(b: Seq<u8>, n: int)
    requires
        hex::all_digits(b),
        0 <= n <= b.len(),
    ensures
        vdf::digits_value(b) == vdf::digits_value(b.take(n)) * pow2((4 * (b.len() - n)) as nat) + vdf::digits_value(
            b.skip(n),
        ),
        vdf::digits_value(b.skip(n)) < pow2((4 * (b.len() - n)) as nat),
    decreases b.len() - n,
{
    if n == b.len() {
        assert(b.take(n) =~= b);
        assert(b.skip(n) =~= Seq::<u8>::empty());
        lemma2_to64();
        assert((4 * (b.len() - n)) as nat == 0);
        assert(pow2((4 * (b.len() - n)) as nat) == 1);
        assert(vdf::digits_value(b.skip(n)) == 0);
        let whole = vdf::digits_value(b);
        let unit = pow2((4 * (b.len() - n)) as nat);
        assert(whole == whole * unit) by (nonlinear_arith)
            requires
                unit == 1,
        ;
    } else {
        let c = b.drop_last();
        let k = (4 * (c.len() - n)) as nat;
        assert forall|i: int| 0 <= i < c.len() implies hex::nibble(#[trigger] c[i]) is Some by {
            assert(hex::nibble(b[i]) is Some);
        }
        digits_split(c, n);
        assert(c.take(n) =~= b.take(n));
        assert(b.skip(n).drop_last() =~= c.skip(n));
        assert(b.skip(n).last() == b.last());
        assert(hex::nibble(b[b.len() - 1]) is Some);
        lemma_pow2_adds(4, k);
        lemma2_to64();
        let high = vdf::digits_value(b.take(n));
        let unit = pow2(k);
        let low = vdf::digits_value(c.skip(n));
        let digit = hex::nibble(b.last())->0 as nat;
        assert(4 + k == (4 * (b.len() - n)) as nat);
        assert(pow2(4 + k) == 16 * unit);
        assert(vdf::digits_value(c) == high * unit + low);
        assert(vdf::digits_value(b) == 16 * vdf::digits_value(c) + digit);
        assert(vdf::digits_value(b.skip(n)) == 16 * low + digit);
        let larger = pow2(4 + k);
        assert(16 * (high * unit + low) == high * larger + 16 * low) by (nonlinear_arith)
            requires
                larger == 16 * unit,
        ;
        assert(vdf::digits_value(b) == high * larger + vdf::digits_value(b.skip(n)));
        assert(digit < 16);
    }
}

proof fn no_digits_write_zero(b: Seq<u8>)
    requires
        hex::all_digits(b),
    ensures
        vdf::digits_value(b) == 0 <==> (forall|i: int| 0 <= i < b.len() ==> #[trigger] b[i] == 48),
    decreases b.len(),
{
    if b.len() > 0 {
        let c = b.drop_last();
        assert forall|i: int| 0 <= i < c.len() implies hex::nibble(#[trigger] c[i]) is Some by {
            assert(hex::nibble(b[i]) is Some);
        }
        no_digits_write_zero(c);
        assert(hex::nibble(b[b.len() - 1]) is Some);
        if vdf::digits_value(b) == 0 {
            assert forall|i: int| 0 <= i < b.len() implies #[trigger] b[i] == 48 by {
                if i < c.len() {
                    assert(c[i] == 48);
                }
            }
        }
        if forall|i: int| 0 <= i < b.len() ==> #[trigger] b[i] == 48 {
            assert forall|i: int| 0 <= i < c.len() implies #[trigger] c[i] == 48 by {
                assert(b[i] == 48);
            }
            assert(b[b.len() - 1] == 48);
        }
    }
}

proof fn quotient_is_below(high: nat, low: nat, unit: nat, limit: nat)
    requires
        low < unit,
    ensures
        high * unit + low < limit * unit <==> high < limit,
{
    if high < limit {
        assert((high + 1) * unit <= limit * unit) by (nonlinear_arith)
            requires
                high + 1 <= limit,
        ;
        assert((high + 1) * unit == high * unit + unit) by (nonlinear_arith);
    } else {
        assert(limit * unit <= high * unit) by (nonlinear_arith)
            requires
                limit <= high,
        ;
    }
}

/// A hash meets a difficulty exactly when the number that its hexadecimal digits write has that many
/// zero bits in front: it is below two to the power of the bits that are left. No hash meets a
/// difficulty of more bits than it has.
pub proof fn difficulty_bounds_the_number(hash: Seq<char>, bits: u32)
    requires
        hex::all_digits(encode_utf8(hash)),
    ensures
        bits <= 4 * encode_utf8(hash).len() ==> (meets_difficulty(hash, bits) <==> vdf::digits_value(encode_utf8(hash))
            < pow2((4 * encode_utf8(hash).len() - bits) as nat)),
        bits > 4 * encode_utf8(hash).len() ==> !meets_difficulty(hash, bits),
{
    let b = encode_utf8(hash);
    if bits <= 4 * b.len() {
        let full = (bits / 4) as int;
        let rest = (bits % 4) as nat;
        let head = b.take(full);
        assert forall|i: int| 0 <= i < head.len() implies hex::nibble(#[trigger] head[i]) is Some by {
            assert(hex::nibble(b[i]) is Some);
        }
        no_digits_write_zero(head);
        if forall|i: int| 0 <= i < full ==> #[trigger] b[i] == 48 {
            assert forall|i: int| 0 <= i < head.len() implies #[trigger] head[i] == 48 by {
                assert(b[i] == 48);
            }
        }
        if forall|i: int| 0 <= i < head.len() ==> #[trigger] head[i] == 48 {
            assert forall|i: int| 0 <= i < full implies #[trigger] b[i] == 48 by {
                assert(head[i] == 48);
            }
        }
        if rest == 0 {
            digits_split(b, full);
            let unit = pow2((4 * (b.len() - full)) as nat);
            quotient_is_below(vdf::digits_value(head), vdf::digits_value(b.skip(full)), unit, 1);
            assert(1 * unit == unit);
        } else {
            digits_split(b, full + 1);
            let k = (4 * (b.len() - full - 1)) as nat;
            let unit = pow2(k);
            let upper = b.take(full + 1);
            let limit = if rest == 1 { 8nat } else if rest == 2 { 4 } else { 2 };
            lemma_pow2_adds((4 - rest) as nat, k);
            lemma2_to64();
            assert(pow2((4 - rest) as nat) == limit);
            assert(upper.drop_last() =~= head);
            assert(upper.last() == b[full]);
            assert(hex::nibble(b[full]) is Some);
            quotient_is_below(vdf::digits_value(upper), vdf::digits_value(b.skip(full + 1)), unit, limit);
            assert(4 - rest + k == 4 * b.len() - bits);
        }
    }
}

proof fn digit_pairs_write_bytes(t: Seq<u8>, d: Seq<u8>)
    requires
        t.len() == 2 * d.len(),
        forall|i: int|
            0 <= i < d.len() ==> hex::nibble(t[2 * i]) == Some((#[trigger] d[i] / 16) as u8) && hex::nibble(t[2 * i + 1])
                == Some((d[i] % 16) as u8),
    ensures
        vdf::digits_value(t) == vdf::big_endian(d),
    decreases d.len(),
{
    if d.len() > 0 {
        let n = d.len() - 1;
        let u = t.drop_last();
        let c = d.drop_last();
        assert(hex::nibble(t[2 * n]) == Some((d[n] / 16) as u8) && hex::nibble(t[2 * n + 1]) == Some((d[n] % 16) as u8));
        assert forall|i: int| 0 <= i < c.len() implies hex::nibble(u.drop_last()[2 * i]) == Some((#[trigger] c[i] / 16) as u8)
            && hex::nibble(u.drop_last()[2 * i + 1]) == Some((c[i] % 16) as u8) by {
            assert(d[i] == c[i]);
        }
        digit_pairs_write_bytes(u.drop_last(), c);
        assert(u.last() == t[2 * n]);
        assert(t.last() == t[2 * n + 1]);
        let value = vdf::digits_value(u.drop_last());
        assert(vdf::digits_value(u) == 16 * value + d[n] / 16);
        assert(vdf::digits_value(t) == 16 * vdf::digits_value(u) + d[n] % 16);
        assert(16 * (d[n] / 16) + d[n] % 16 == d[n]);
        assert(vdf::big_endian(d) == 256 * value + d[n]);
    }
}

/// A digest in hexadecimal meets a difficulty exactly when the number in its bytes is below two to
/// the power of the bits that are left.
pub proof fn difficulty_bounds_the_digest(digest: Seq<u8>, number: nat, bits: u32)
    requires
        vdf::number_has_bytes(number, digest),
        bits <= 8 * digest.len(),
    ensures
        meets_difficulty(hex::text_of(digest), bits) <==> number < pow2((8 * digest.len() - bits) as nat),
{
    hex::text_of_encoding(digest);
    difficulty_bounds_the_number(hex::text_of(digest), bits);
    digit_pairs_write_bytes(encode_utf8(hex::text_of(digest)), digest);
    vdf::bytes_write_one_number(digest, number);
}

} // verus!
