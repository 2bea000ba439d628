//! The delay function of blocks: repeated squaring with a short proof, and its retargeting.
use crate::crypto;
use crate::text;
use vstd::arithmetic::div_mod::*;
use vstd::arithmetic::mul::*;
use vstd::arithmetic::power::*;
use vstd::arithmetic::power2::*;
use vstd::prelude::*;
use vstd::string::*;
use vstd::utf8::*;

verus! {

pub const VDF_TARGET_BLOCK_MS: u64 = 300_000;

pub const MAX_VDF_ROUNDS: u64 = 9_223_372_036_854_775_807;

pub const MIN_VDF_ROUNDS: u64 = 1;

pub const MAX_VDF_RETARGET_STEP_PERCENT: u128 = 2;

pub const VDF_RETARGET_DEADBAND_PERCENT: u128 = 10;

pub const MIN_VDF_RETARGET_OBSERVED_BLOCK_MS: u64 = 75_000;

pub const MAX_VDF_RETARGET_OBSERVED_BLOCK_MS: u64 = 1_200_000;

pub const VDF_MODULUS: u128 = 4_611_685_975_477_714_963;

/// The prime factors of the modulus.
const LARGER_FACTOR: u32 = 2_147_483_647;

const SMALLER_FACTOR: u32 = 2_147_483_629;

pub const VDF_CHALLENGE_MIN: u64 = 1_073_741_827;

/// The number that bytes write in base 256, most significant first.
pub open spec fn big_endian(b: Seq<u8>) -> nat
    decreases b.len(),
{
    if b.len() == 0 {
        0
    } else {
        256 * big_endian(b.drop_last()) + b.last() as nat
    }
}

/// The number in the first `count` bytes, most significant first.
pub fn leading_number(b: &[u8], count: usize) -> (n: u128)
    requires
        count <= 16,
        count <= b@.len(),
    ensures
        n == big_endian(b@.take(count as int)),
        n < pow2(8 * count as nat),
{
    let mut n: u128 = 0;
    let mut i: usize = 0;
    proof {
        lemma2_to64();
    }
    while i < count
        invariant
            i <= count <= 16,
            count <= b@.len(),
            n == big_endian(b@.take(i as int)),
            n < pow2(8 * i as nat),
        decreases count - i,
    {
        proof {
            assert(b@.take(i + 1).drop_last() =~= b@.take(i as int));
            lemma_pow2_adds(8 * i as nat, 8);
            lemma2_to64();
            lemma2_to64_rest();
            if i < 15 {
                lemma_pow2_strictly_increases((8 * i + 8) as nat, 128);
            }
            lemma_pow2_adds(64, 64);
            assert(pow2(128) == 0x1_0000_0000_0000_0000_0000_0000_0000_0000int) by {
                assert(0x1_0000_0000_0000_0000int * 0x1_0000_0000_0000_0000int
                    == 0x1_0000_0000_0000_0000_0000_0000_0000_0000int);
            }
            assert(256 * n + 255 < pow2((8 * i + 8) as nat)) by (nonlinear_arith)
                requires
                    n + 1 <= pow2(8 * i as nat),
                    pow2((8 * i + 8) as nat) == pow2(8 * i as nat) * 256,
            ;
        }
        n = n * 256 + b[i] as u128;
        i = i + 1;
    }
    n
}

/// Whether a number is written by bytes in base 256, most significant first.
pub open spec fn number_has_bytes(number: nat, bytes: Seq<u8>) -> bool {
    &&& number < pow(256, bytes.len())
    &&& forall|i: int|
        0 <= i < bytes.len() ==> (number as int / pow(256, (bytes.len() - 1 - i) as nat)) % 256 == #[trigger] bytes[i]
}

/// Bytes write the number that has them as its digits in base 256, and no other.
pub proof fn bytes_write_one_number(bytes: Seq<u8>, number: nat)
    ensures
        number_has_bytes(big_endian(bytes), bytes),
        number_has_bytes(number, bytes) ==> number == big_endian(bytes),
    decreases bytes.len(),
{
    if bytes.len() == 0 {
        lemma_pow0(256);
    } else {
        let earlier = bytes.drop_last();
        let last = bytes.last();
        let whole = big_endian(bytes);
        let upper = big_endian(earlier);
        let n = earlier.len();
        bytes_write_one_number(earlier, number / 256);
        reveal(pow);
        assert(pow(256, bytes.len()) == 256 * pow(256, n));
        assert(whole / 256 == upper && whole % 256 == last);
        assert(number_has_bytes(whole, bytes)) by {
            assert forall|i: int| 0 <= i < bytes.len() implies (whole as int / pow(256, (bytes.len() - 1 - i) as nat)) % 256
                == #[trigger] bytes[i] by {
                places_shift(whole, (bytes.len() - 1 - i) as nat);
                if i < n {
                    assert(bytes[i] == earlier[i]);
                }
            }
        }
        if number_has_bytes(number, bytes) {
            places_shift(number, 0);
            assert(number % 256 == bytes[bytes.len() - 1]);
            assert(number_has_bytes(number / 256, earlier)) by {
                assert(number / 256 < pow(256, n)) by (nonlinear_arith)
                    requires
                        number < 256 * pow(256, n),
                ;
                assert forall|i: int| 0 <= i < n implies ((number / 256) as int / pow(256, (n - 1 - i) as nat)) % 256
                    == #[trigger] earlier[i] by {
                    places_shift(number, (bytes.len() - 1 - i) as nat);
                    assert(bytes[i] == earlier[i]);
                }
            }
        }
    }
}

proof fn places_shift(number: nat, places: nat)
    ensures
        places == 0 ==> number as int / pow(256, places) == number,
        places > 0 ==> number as int / pow(256, places) == (number / 256) as int / pow(256, (places - 1) as nat),
{
    if places == 0 {
        lemma_pow0(256);
    } else {
        let p = pow(256, (places - 1) as nat);
        lemma_pow_positive(256, (places - 1) as nat);
        reveal(pow);
        assert(pow(256, places) == 256 * p);
        lemma_div_denominator(number as int, 256, p);
    }
}

/// The base of the delay function for a seed.
pub open spec fn seed_element(seed: Seq<char>) -> nat {
    2 + big_endian(crypto::sha256(encode_utf8("iuna-vdf-seed:"@ + seed)).take(16)) % (VDF_MODULUS - 3) as nat
}

fn vdf_seed_element(seed: &str) -> (x: u128)
    ensures
        x == seed_element(seed@),
        2 <= x < VDF_MODULUS,
{
    let mut t = text::text("iuna-vdf-seed:");
    t.append(seed);
    let digest = crypto::sha256_digest(t.as_str().as_bytes());
    let n: u128 = leading_number(digest.as_slice(), 16);
    2 + n % (VDF_MODULUS - 3)
}

/// Whether `n` has no divisor but one and itself.
pub open spec fn is_prime(n: nat) -> bool {
    n >= 2 && forall|d: nat| 2 <= d < n ==> #[trigger] (n % d) != 0
}

/// The search for an odd prime at or after `n` (odd); `limit` where there is none below it.
pub open spec fn odd_prime_from(n: nat, limit: nat) -> nat
    decreases limit + 1 - n,
{
    if n >= limit || is_prime(n) {
        n
    } else {
        odd_prime_from(n + 2, limit)
    }
}

/// The challenge exponent for a seed, a number of rounds and an output.
pub open spec fn challenge_prime(seed: Seq<char>, rounds: u64, output: nat) -> nat {
    let preimage = "iuna-vdf-challenge:"@ + seed + ":"@ + text::decimal(rounds as nat) + ":"@
        + text::hexadecimal(output);
    let candidate = VDF_CHALLENGE_MIN as nat + big_endian(crypto::sha256(encode_utf8(preimage)).take(8))
        % (VDF_CHALLENGE_MIN as nat);
    odd_prime_from(if candidate % 2 == 0 { candidate + 1 } else { candidate }, u64::MAX as nat)
}

/// An odd number without odd divisors up to its root has no divisor at all.
proof fn divisor_bound(n: nat, d: nat, k: nat)
    requires
        n >= 3,
        n % 2 == 1,
        2 <= d < n,
        forall|e: nat| 3 <= e < k && e % 2 == 1 ==> #[trigger] (n % e) != 0,
        k * k > n,
        k % 2 == 1,
    ensures
        n % d != 0,
{
    if n % d == 0 {
        let q = n / d;
        lemma_fundamental_div_mod(n as int, d as int);
        assert(n == d * q);
        assert(q >= 2) by (nonlinear_arith)
            requires
                n == d * q,
                d < n,
                q >= 0,
                n >= 3,
        ;
        lemma_mod_multiples_basic(d as int, q as int);
        assert(n % q == 0);
        assert(d % 2 == 1 && q % 2 == 1) by {
            if d % 2 == 0 {
                let h = d / 2;
                assert(n == 2 * (h * q)) by (nonlinear_arith)
                    requires
                        n == d * q,
                        d == 2 * h,
                ;
            }
            if q % 2 == 0 {
                let h = q / 2;
                assert(n == 2 * (d * h)) by (nonlinear_arith)
                    requires
                        n == d * q,
                        q == 2 * h,
                ;
            }
        }
        if d >= k && q >= k {
            assert(d * q >= k * k) by (nonlinear_arith)
                requires
                    d >= k,
                    q >= k,
            ;
        }
    }
}

/// Whether an odd number is prime; false for even numbers and one.
fn is_odd_prime(candidate: u64) -> (r: bool)
    ensures
        r == (candidate >= 3 && candidate % 2 == 1 && is_prime(candidate as nat)),
{
    if candidate < 3 || candidate % 2 == 0 {
        return false;
    }
    let mut divisor: u64 = 3;
    let ghost n = candidate as nat;
    while divisor as u128 * divisor as u128 <= candidate as u128
        invariant
            candidate >= 3,
            candidate % 2 == 1,
            n == candidate,
            3 <= divisor,
            divisor % 2 == 1,
            divisor <= 4_294_967_297,
            divisor * divisor <= 0x1_0000_0002_0000_0001int,
            forall|e: nat| 3 <= e < divisor && e % 2 == 1 ==> #[trigger] (n % e) != 0,
        decreases 4_294_967_299 - divisor,
    {
        assert(divisor < 4_294_967_296) by (nonlinear_arith)
            requires
                divisor as u128 * divisor as u128 <= candidate as u128,
                candidate <= 0xffff_ffff_ffff_ffffu64,
        ;
        assert(divisor < candidate) by (nonlinear_arith)
            requires
                divisor as u128 * divisor as u128 <= candidate as u128,
                divisor >= 3,
        ;
        if candidate % divisor == 0 {
            assert(n % (divisor as nat) == 0);
            assert(!is_prime(n));
            return false;
        }
        divisor = divisor + 2;
        assert(divisor * divisor <= 0x1_0000_0002_0000_0001int) by (nonlinear_arith)
            requires
                divisor <= 4_294_967_297,
        ;
        assert forall|e: nat| 3 <= e < divisor && e % 2 == 1 implies #[trigger] (n % e) != 0 by {
            if e >= divisor - 2 {
                assert(e == divisor - 2);
            }
        }
    }
    assert(is_prime(n)) by {
        assert forall|d: nat| 2 <= d < n implies #[trigger] (n % d) != 0 by {
            divisor_bound(n, d, divisor as nat);
        }
    }
    true
}

/// The first odd prime at or after an odd number of at least three.
fn next_odd_prime(start: u64) -> (r: u64)
    requires
        start >= 3,
        start % 2 == 1,
    ensures
        r == odd_prime_from(start as nat, u64::MAX as nat),
        r >= start,
{
    let mut candidate: u64 = start;
    while candidate < u64::MAX && !is_odd_prime(candidate)
        invariant
            candidate >= start >= 3,
            candidate % 2 == 1,
            odd_prime_from(start as nat, u64::MAX as nat) == odd_prime_from(
                candidate as nat,
                u64::MAX as nat,
            ),
        decreases u64::MAX - candidate,
    {
        candidate = candidate + 2;
    }
    candidate
}

fn vdf_challenge_prime(seed: &str, rounds: u64, output: u128) -> (l: u64)
    ensures
        l == challenge_prime(seed@, rounds, output as nat),
        l >= VDF_CHALLENGE_MIN,
{
    let mut t = text::text("iuna-vdf-challenge:");
    t.append(seed);
    t.append(":");
    text::push_decimal(&mut t, rounds as u128);
    t.append(":");
    text::push_hexadecimal(&mut t, output);
    let digest = crypto::sha256_digest(t.as_str().as_bytes());
    let n: u128 = leading_number(digest.as_slice(), 8);
    let candidate: u64 = VDF_CHALLENGE_MIN + (n % VDF_CHALLENGE_MIN as u128) as u64;
    let odd: u64 = if candidate % 2 == 0 {
        candidate + 1
    } else {
        candidate
    };
    next_odd_prime(odd)
}

/// `x` to the `e`, modulo the modulus of the delay function.
pub open spec fn mod_power(x: nat, e: nat) -> nat {
    (pow(x as int, e) % (VDF_MODULUS as int)) as nat
}

fn mul_mod(left: u128, right: u128) -> (r: u128)
    requires
        left < VDF_MODULUS,
        right < VDF_MODULUS,
    ensures
        r == (left * right) % (VDF_MODULUS as int),
        r < VDF_MODULUS,
{
    assert(left * right <= 0xffff_ffff_ffff_ffff_ffff_ffff_ffff_ffffu128) by (nonlinear_arith)
        requires
            left < 4_611_685_975_477_714_963u128,
            right < 4_611_685_975_477_714_963u128,
    ;
    (left * right) % VDF_MODULUS
}

/// Squaring and multiplying in the exponent.
proof fn power_step(x: int, m: int, e: nat, f: nat, a: int, b: int)
    requires
        m > 0,
        a == pow(x, e) % m,
        b == pow(x, f) % m,
    ensures
        (a * b) % m == pow(x, e + f) % m,
{
    lemma_pow_adds(x, e, f);
    lemma_mul_mod_noop(pow(x, e), pow(x, f), m);
}

proof fn power_range(x: int, m: int, e: nat)
    requires
        m > 0,
    ensures
        0 <= pow(x, e) % m < m,
{
    lemma_mod_bound(pow(x, e), m);
}

fn mod_pow(base: u128, exponent: u128) -> (r: u128)
    requires
        base < VDF_MODULUS,
    ensures
        r == mod_power(base as nat, exponent as nat),
        r < VDF_MODULUS,
{
    let ghost m = VDF_MODULUS as int;
    let mut result: u128 = 1;
    let mut power: u128 = base;
    let mut left: u128 = exponent;
    let ghost mut done: nat = 0;
    let ghost mut unit: nat = 1;
    proof {
        lemma_pow0(base as int);
        lemma_pow1(base as int);
        lemma_small_mod(base as nat, m as nat);
        lemma_small_mod(1, m as nat);
    }
    while left > 0
        invariant
            base < VDF_MODULUS,
            m == VDF_MODULUS,
            result < VDF_MODULUS,
            power < VDF_MODULUS,
            result == pow(base as int, done) % m,
            power == pow(base as int, unit) % m,
            done + unit * left == exponent,
        decreases left,
    {
        let ghost l = left as nat;
        if left % 2 == 1 {
            proof {
                power_step(base as int, m, done, unit, result as int, power as int);
            }
            result = mul_mod(result, power);
            proof {
                done = done + unit;
            }
        }
        proof {
            power_step(base as int, m, unit, unit, power as int, power as int);
            let h = l / 2;
            assert(unit * l == unit * (l % 2) + (unit + unit) * h) by (nonlinear_arith)
                requires
                    l == 2 * h + l % 2,
            ;
            assert(unit * 1 == unit && unit * 0 == 0) by (nonlinear_arith);
            unit = unit + unit;
        }
        power = mul_mod(power, power);
        left = left / 2;
    }
    assert(unit * 0 == 0) by (nonlinear_arith);
    result
}

fn pow_mod_small(base: u64, exponent: u64, modulus: u64) -> (r: u64)
    requires
        modulus > 1,
    ensures
        r == pow(base as int, exponent as nat) % (modulus as int),
        r < modulus,
{
    let ghost m = modulus as int;
    let mut result: u128 = 1;
    let mut power: u128 = (base % modulus) as u128;
    let mut left: u64 = exponent;
    let ghost mut done: nat = 0;
    let ghost mut unit: nat = 1;
    let ghost x = base as int;
    proof {
        lemma_pow0(x);
        lemma_pow1(x);
        lemma_small_mod(1, m as nat);
    }
    while left > 0
        invariant
            m == modulus,
            modulus > 1,
            result < modulus,
            power < modulus,
            result == pow(x, done) % m,
            power == pow(x, unit) % m,
            done + unit * left == exponent,
        decreases left,
    {
        let ghost l = left as nat;
        assert(result * power <= 0xffff_ffff_ffff_ffff_ffff_ffff_ffff_ffffu128 && power * power
            <= 0xffff_ffff_ffff_ffff_ffff_ffff_ffff_ffffu128) by (nonlinear_arith)
            requires
                result <= 0xffff_ffff_ffff_ffffu64,
                power <= 0xffff_ffff_ffff_ffffu64,
        ;
        if left % 2 == 1 {
            proof {
                power_step(x, m, done, unit, result as int, power as int);
            }
            result = (result * power) % (modulus as u128);
            proof {
                done = done + unit;
            }
        }
        proof {
            power_step(x, m, unit, unit, power as int, power as int);
            let h = l / 2;
            assert(unit * l == unit * (l % 2) + (unit + unit) * h) by (nonlinear_arith)
                requires
                    l == 2 * h + l % 2,
            ;
            assert(unit * 1 == unit && unit * 0 == 0) by (nonlinear_arith);
            unit = unit + unit;
        }
        power = (power * power) % (modulus as u128);
        left = left / 2;
    }
    assert(unit * 0 == 0) by (nonlinear_arith);
    result as u64
}

proof fn power_of_two_step(i: nat, l: nat)
    requires
        l > 1,
    ensures
        pow2(i + 1) == 2 * pow2(i),
        2 * (pow2(i) % l) >= l ==> pow2(i + 1) / l == 2 * (pow2(i) / l) + 1 && pow2(i + 1) % l == 2 * (
        pow2(i) % l) - l,
        2 * (pow2(i) % l) < l ==> pow2(i + 1) / l == 2 * (pow2(i) / l) && pow2(i + 1) % l == 2 * (pow2(
            i,
        ) % l),
{
    lemma_pow2_unfold(i + 1);
    let n = pow2(i) as int;
    let q = n / (l as int);
    let r = n % (l as int);
    lemma_fundamental_div_mod(n, l as int);
    lemma_mod_bound(n, l as int);
    assert(l * (2 * q + 1) == 2 * (l * q) + l) by (nonlinear_arith);
    assert(l * (2 * q) == 2 * (l * q)) by (nonlinear_arith);
    if 2 * r >= l {
        assert(2 * n == (2 * q + 1) * l + (2 * r - l)) by (nonlinear_arith)
            requires
                n == l * q + r,
        ;
        lemma_fundamental_div_mod_converse(2 * n, l as int, 2 * q + 1, 2 * r - l);
    } else {
        assert(2 * n == (2 * q) * l + 2 * r) by (nonlinear_arith)
            requires
                n == l * q + r,
        ;
        lemma_fundamental_div_mod_converse(2 * n, l as int, 2 * q, 2 * r);
    }
}

/// `x` to the integer quotient of two to the `rounds` by the challenge.
fn vdf_proof(x: u128, rounds: u64, challenge: u64) -> (r: u128)
    requires
        x < VDF_MODULUS,
        challenge > 1,
    ensures
        r == mod_power(x as nat, pow2(rounds as nat) / (challenge as nat)),
        r < VDF_MODULUS,
{
    let ghost m = VDF_MODULUS as int;
    let ghost l = challenge as nat;
    let mut proof_value: u128 = 1;
    let mut remainder: u64 = 1 % challenge;
    let mut i: u64 = 0;
    proof {
        lemma2_to64();
        lemma_small_mod(1, l);
        lemma_small_mod(1, m as nat);
        lemma_pow0(x as int);
        lemma_basic_div(1, l as int);
    }
    while i < rounds
        invariant
            i <= rounds,
            x < VDF_MODULUS,
            challenge > 1,
            m == VDF_MODULUS,
            l == challenge,
            proof_value < VDF_MODULUS,
            remainder < challenge,
            remainder == pow2(i as nat) % l,
            proof_value == pow(x as int, pow2(i as nat) / l) % m,
        decreases rounds - i,
    {
        let ghost q = pow2(i as nat) / l;
        let doubled: u128 = remainder as u128 * 2;
        let carry: bool = doubled >= challenge as u128;
        proof {
            power_of_two_step(i as nat, l);
            power_step(x as int, m, q, q, proof_value as int, proof_value as int);
        }
        proof_value = mul_mod(proof_value, proof_value);
        if carry {
            proof {
                lemma_pow1(x as int);
                lemma_small_mod(x as nat, m as nat);
                power_step(x as int, m, q + q, 1, proof_value as int, x as int);
            }
            proof_value = mul_mod(proof_value, x);
            remainder = (doubled - challenge as u128) as u64;
        } else {
            remainder = doubled as u64;
        }
        i = i + 1;
    }
    proof_value
}

/// The text of an output and its proof.
pub open spec fn solution_text(output: nat, proof_value: nat) -> Seq<char> {
    text::padded_hexadecimal(output, 32) + ":"@ + text::padded_hexadecimal(proof_value, 32)
}

fn encode_vdf_solution(output: u128, proof_value: u128) -> (r: String)
    ensures
        r@ == solution_text(output as nat, proof_value as nat),
{
    let mut t = String::new();
    text::push_padded_hexadecimal(&mut t, output, 32);
    assert(t@ =~= text::padded_hexadecimal(output as nat, 32));
    t.append(":");
    text::push_padded_hexadecimal(&mut t, proof_value, 32);
    t
}

/// What the delay function yields: `x` squared `rounds` times, for the `x` of the seed.
pub open spec fn vdf_output(seed: Seq<char>, rounds: u64) -> nat {
    mod_power(seed_element(seed), pow2(rounds as nat))
}

/// The proof that goes with the output.
pub open spec fn vdf_proof_value(seed: Seq<char>, rounds: u64) -> nat {
    mod_power(
        seed_element(seed),
        pow2(rounds as nat) / challenge_prime(seed, rounds, vdf_output(seed, rounds)),
    )
}

/// The solution of the delay function.
pub open spec fn vdf_solution(seed: Seq<char>, rounds: u64) -> Seq<char> {
    solution_text(vdf_output(seed, rounds), vdf_proof_value(seed, rounds))
}

/// Squares the element of the seed `rounds` times and proves the outcome.
pub fn run_vdf(seed: &str, rounds: u64) -> (r: String)
    ensures
        r@ == vdf_solution(seed@, rounds),
        solution_verifies(seed@, rounds, r@),
{
    proof {
        run_verifies(seed@, rounds);
    }
    let x: u128 = vdf_seed_element(seed);
    let mut y: u128 = x;
    let mut i: u64 = 0;
    let ghost m = VDF_MODULUS as int;
    proof {
        lemma2_to64();
        lemma_pow1(x as int);
        lemma_small_mod(x as nat, m as nat);
    }
    while i < rounds
        invariant
            i <= rounds,
            m == VDF_MODULUS,
            y < VDF_MODULUS,
            y == pow(x as int, pow2(i as nat)) % m,
        decreases rounds - i,
    {
        proof {
            lemma_pow2_unfold((i + 1) as nat);
            power_step(x as int, m, pow2(i as nat), pow2(i as nat), y as int, y as int);
        }
        y = mul_mod(y, y);
        i = i + 1;
    }
    let challenge = vdf_challenge_prime(seed, rounds, y);
    let proof_value = vdf_proof(x, rounds, challenge);
    encode_vdf_solution(y, proof_value)
}

/// The number that hexadecimal digits write.
pub open spec fn digits_value(b: Seq<u8>) -> nat
    decreases b.len(),
{
    if b.len() == 0 {
        0
    } else {
        16 * digits_value(b.drop_last()) + crate::hex::nibble(b.last())->0 as nat
    }
}

/// A number in 32 hexadecimal places; a plus sign may stand in the first.
pub open spec fn number_text(b: Seq<u8>) -> Option<nat> {
    if b.len() != 32 {
        None
    } else if crate::hex::all_digits(b) {
        Some(digits_value(b))
    } else if b[0] == 43 && crate::hex::all_digits(b.skip(1)) {
        Some(digits_value(b.skip(1)))
    } else {
        None
    }
}

/// The output and proof in a solution text.
pub open spec fn solution_parts(t: Seq<char>) -> Option<(nat, nat)> {
    let b = encode_utf8(t);
    if b.len() == 65 && b[32] == 58 {
        match (number_text(b.subrange(0, 32)), number_text(b.subrange(33, 65))) {
            (Some(y), Some(p)) => Some((y, p)),
            _ => None,
        }
    } else {
        None
    }
}

fn hex_number(b: &[u8], start: usize) -> (r: Option<u128>)
    requires
        start + 32 <= b@.len(),
    ensures
        match r {
            Some(n) => number_text(b@.subrange(start as int, start + 32)) == Some(n as nat),
            None => number_text(b@.subrange(start as int, start + 32)) is None,
        },
{
    let ghost w = b@.subrange(start as int, start + 32);
    let first: usize = if b[start] == 43 {
        start + 1
    } else {
        start
    };
    let mut n: u128 = 0;
    let mut i: usize = first;
    proof {
        lemma2_to64();
        assert(b@.subrange(first as int, first as int) =~= Seq::<u8>::empty());
        assert(w.skip(1) =~= b@.subrange(start + 1, start + 32));
    }
    while i < start + 32
        invariant
            start + 32 <= b.len(),
            w == b@.subrange(start as int, start + 32),
            start <= first <= i <= start + 32,
            first == start || (first == start + 1 && w[0] == 43),
            first == start ==> w[0] != 43,
            crate::hex::all_digits(b@.subrange(first as int, i as int)),
            n == digits_value(b@.subrange(first as int, i as int)),
            n < pow2(4 * (i - first) as nat),
            w.skip(1) == b@.subrange(start + 1, start + 32),
        decreases start + 32 - i,
    {
        let d: u8 = match digit_value(b[i]) {
            Some(d) => d,
            None => {
                proof {
                    assert(w[i - start] == b@[i as int]);
                    assert(!crate::hex::all_digits(w));
                    if i > start {
                        assert(w.skip(1)[i - start - 1] == b@[i as int]);
                        assert(!crate::hex::all_digits(w.skip(1)));
                    }
                }
                return None;
            },
        };
        proof {
            let ghost part = b@.subrange(first as int, i + 1);
            assert(part.drop_last() =~= b@.subrange(first as int, i as int));
            assert(crate::hex::all_digits(part)) by {
                assert forall|j: int| 0 <= j < part.len() implies crate::hex::nibble(#[trigger] part[j]) is Some by {
                    if j < part.len() - 1 {
                        assert(part[j] == b@.subrange(first as int, i as int)[j]);
                    }
                }
            }
            let ghost k = 4 * (i - first) as nat;
            lemma_pow2_adds(k, 4);
            lemma2_to64();
            lemma2_to64_rest();
            lemma_pow2_adds(64, 64);
            assert(pow2(128) == 0x1_0000_0000_0000_0000_0000_0000_0000_0000int) by {
                assert(0x1_0000_0000_0000_0000int * 0x1_0000_0000_0000_0000int
                    == 0x1_0000_0000_0000_0000_0000_0000_0000_0000int);
            }
            if k + 4 < 128 {
                lemma_pow2_strictly_increases(k + 4, 128);
            }
            assert(16 * n + 15 < pow2(k + 4)) by (nonlinear_arith)
                requires
                    n + 1 <= pow2(k),
                    pow2(k + 4) == pow2(k) * 16,
            ;
        }
        n = n * 16 + d as u128;
        i = i + 1;
    }
    proof {
        if first > start {
            assert(crate::hex::nibble(w[0]) is None);
            assert(!crate::hex::all_digits(w));
        }
    }
    Some(n)
}

pub fn digit_value(b: u8) -> (r: Option<u8>)
    ensures
        r == crate::hex::nibble(b),
        r matches Some(d) ==> d < 16,
{
    if 48 <= b && b <= 57 {
        Some(b - 48)
    } else if 97 <= b && b <= 102 {
        Some(b - 87)
    } else if 65 <= b && b <= 70 {
        Some(b - 55)
    } else {
        None
    }
}

fn decode_vdf_solution(solution: &str) -> (r: Option<(u128, u128)>)
    ensures
        match r {
            Some(p) => solution_parts(solution@) == Some((p.0 as nat, p.1 as nat)),
            None => solution_parts(solution@) is None,
        },
{
    let b = solution.as_bytes();
    if b.len() != 65 || b[32] != 58 {
        return None;
    }
    match (hex_number(b, 0), hex_number(b, 33)) {
        (Some(y), Some(p)) => Some((y, p)),
        _ => None,
    }
}

/// Whether a text is an accepted solution: its proof to the challenge, times the element of the
/// seed to the remainder, is its output.
pub open spec fn solution_verifies(seed: Seq<char>, rounds: u64, solution: Seq<char>) -> bool {
    match solution_parts(solution) {
        None => false,
        Some((y, p)) => {
            let l = challenge_prime(seed, rounds, y);
            &&& 0 < y < VDF_MODULUS
            &&& p < VDF_MODULUS
            &&& (mod_power(p, l) * mod_power(seed_element(seed), pow2(rounds as nat) % l)) % (
            VDF_MODULUS as nat) == y
        },
    }
}

/// Checks a solution without running the delay function.
pub fn verify_vdf(seed: &str, rounds: u64, solution: &str) -> (r: bool)
    ensures
        r == solution_verifies(seed@, rounds, solution@),
{
    let (y, proof_value) = match decode_vdf_solution(solution) {
        Some(p) => p,
        None => return false,
    };
    if y == 0 || y >= VDF_MODULUS || proof_value >= VDF_MODULUS {
        return false;
    }
    let x = vdf_seed_element(seed);
    let challenge = vdf_challenge_prime(seed, rounds, y);
    let remainder: u64 = pow_mod_small(2, rounds, challenge);
    proof {
        lemma_pow2(rounds as nat);
    }
    let verified = mul_mod(mod_pow(proof_value, challenge as u128), mod_pow(x, remainder as u128));
    verified == y
}

/// A numeral in `width` places reads back as the number it was written for.
proof fn padded_value(n: nat, width: nat)
    requires
        n < pow(16, width),
    ensures
        text::padded_hexadecimal(n, width).len() == width,
        is_ascii_chars(text::padded_hexadecimal(n, width)),
        crate::hex::all_digits(encode_utf8(text::padded_hexadecimal(n, width))),
        encode_utf8(text::padded_hexadecimal(n, width)).len() == width,
        digits_value(encode_utf8(text::padded_hexadecimal(n, width))) == n,
    decreases width,
{
    let t = text::padded_hexadecimal(n, width);
    if width == 0 {
        reveal(pow);
        is_ascii_chars_encode_utf8(t);
        assert(encode_utf8(t) =~= Seq::<u8>::empty());
    } else {
        let w = (width - 1) as nat;
        reveal(pow);
        assert(n / 16 < pow(16, w));
        padded_value(n / 16, w);
        let p = text::padded_hexadecimal(n / 16, w);
        let c = text::digit_char(n % 16);
        assert(t == p.push(c));
        assert(is_ascii_chars(t)) by {
            assert forall|i: int| 0 <= i < t.len() implies '\0' <= #[trigger] t[i] <= '\u{7f}' by {
                if i < p.len() {
                    assert(t[i] == p[i]);
                }
            }
        }
        is_ascii_chars_encode_utf8(t);
        is_ascii_chars_encode_utf8(p);
        let e = encode_utf8(t);
        let f = encode_utf8(p);
        assert(e.drop_last() =~= f) by {
            assert forall|i: int| 0 <= i < f.len() implies e[i] == #[trigger] f[i] by {
                assert(t[i] == p[i]);
            }
        }
        assert(e.last() == c as u8);
        assert forall|i: int| 0 <= i < e.len() implies crate::hex::nibble(#[trigger] e[i]) is Some by {
            if i < f.len() {
                assert(e[i] == f[i]);
            }
        }
    }
}

/// A solution text reads back as the output and proof it was written for.
pub proof fn solution_reads_back(y: nat, p: nat)
    requires
        y < VDF_MODULUS,
        p < VDF_MODULUS,
    ensures
        solution_parts(solution_text(y, p)) == Some((y, p)),
{
    assert(pow(16, 32) >= VDF_MODULUS) by {
        lemma_pow_increases(16, 16, 32);
        lemma_pow_adds(16, 8, 8);
        lemma_pow_adds(16, 4, 4);
        lemma_pow_adds(16, 2, 2);
        lemma_square_is_pow2(16);
        assert(16int * 16int == 256int);
        assert(256int * 256int == 65536int);
        assert(65536int * 65536int == 4294967296int);
        assert(4294967296int * 4294967296int == 18446744073709551616int);
    }
    padded_value(y, 32);
    padded_value(p, 32);
    let a = text::padded_hexadecimal(y, 32);
    let b = text::padded_hexadecimal(p, 32);
    let t = solution_text(y, p);
    reveal_strlit(":");
    assert(is_ascii_chars(t)) by {
        assert forall|i: int| 0 <= i < t.len() implies '\0' <= #[trigger] t[i] <= '\u{7f}' by {
            if i < 32 {
                assert(t[i] == a[i]);
            } else if i > 32 {
                assert(t[i] == b[i - 33]);
            }
        }
    }
    is_ascii_chars_encode_utf8(t);
    is_ascii_chars_encode_utf8(a);
    is_ascii_chars_encode_utf8(b);
    let e = encode_utf8(t);
    assert(e.subrange(0, 32) =~= encode_utf8(a)) by {
        assert forall|i: int| 0 <= i < 32 implies e[i] == #[trigger] encode_utf8(a)[i] by {
            assert(t[i] == a[i]);
        }
    }
    assert(e.subrange(33, 65) =~= encode_utf8(b)) by {
        assert forall|i: int| 0 <= i < 32 implies e[33 + i] == #[trigger] encode_utf8(b)[i] by {
            assert(t[33 + i] == b[i]);
        }
    }
    assert(e[32] == 58) by {
        assert(t[32] == ':');
    }
}

/// The challenge exponent is at least the least one that is drawn.
pub proof fn challenge_lower_bound(seed: Seq<char>, rounds: u64, output: nat)
    ensures
        challenge_prime(seed, rounds, output) >= VDF_CHALLENGE_MIN,
{
    let preimage = "iuna-vdf-challenge:"@ + seed + ":"@ + text::decimal(rounds as nat) + ":"@
        + text::hexadecimal(output);
    let drawn = big_endian(crypto::sha256(encode_utf8(preimage)).take(8));
    let candidate = VDF_CHALLENGE_MIN as nat + drawn % (VDF_CHALLENGE_MIN as nat);
    odd_prime_lower_bound(if candidate % 2 == 0 { candidate + 1 } else { candidate }, u64::MAX as nat);
}

proof fn odd_prime_lower_bound(n: nat, limit: nat)
    ensures
        odd_prime_from(n, limit) >= n,
    decreases limit + 1 - n,
{
    if n < limit && !is_prime(n) {
        odd_prime_lower_bound(n + 2, limit);
    }
}

#[verifier::rlimit(50)]
proof fn larger_factor_has_no_divisor_from_3(d: u32, k: u32)
    by (bit_vector)
    requires
        3 <= d <= 1023,
        2097151 <= k <= 715827882,
        d % 2 == 1,
        k % 2 == 1,
    ensures
        d * k != 2147483647int,
{
}

#[verifier::rlimit(50)]
proof fn larger_factor_has_no_divisor_from_1024(d: u32, k: u32)
    by (bit_vector)
    requires
        1024 <= d <= 4095,
        524287 <= k <= 2097151,
        d % 2 == 1,
        k % 2 == 1,
    ensures
        d * k != 2147483647int,
{
}

#[verifier::rlimit(50)]
proof fn larger_factor_has_no_divisor_from_4096(d: u32, k: u32)
    by (bit_vector)
    requires
        4096 <= d <= 8191,
        262143 <= k <= 524287,
        d % 2 == 1,
        k % 2 == 1,
    ensures
        d * k != 2147483647int,
{
}

#[verifier::rlimit(50)]
proof fn larger_factor_has_no_divisor_from_8192(d: u32, k: u32)
    by (bit_vector)
    requires
        8192 <= d <= 16383,
        131071 <= k <= 262143,
        d % 2 == 1,
        k % 2 == 1,
    ensures
        d * k != 2147483647int,
{
}

#[verifier::rlimit(50)]
proof fn larger_factor_has_no_divisor_from_16384(d: u32, k: u32)
    by (bit_vector)
    requires
        16384 <= d <= 32767,
        65535 <= k <= 131071,
        d % 2 == 1,
        k % 2 == 1,
    ensures
        d * k != 2147483647int,
{
}

#[verifier::rlimit(50)]
proof fn larger_factor_has_no_divisor_from_32768(d: u32, k: u32)
    by (bit_vector)
    requires
        32768 <= d <= 46340,
        46340 <= k <= 65535,
        d % 2 == 1,
        k % 2 == 1,
    ensures
        d * k != 2147483647int,
{
}

#[verifier::rlimit(50)]
proof fn smaller_factor_has_no_divisor_from_3(d: u32, k: u32)
    by (bit_vector)
    requires
        3 <= d <= 1023,
        2097151 <= k <= 715827876,
        d % 2 == 1,
        k % 2 == 1,
    ensures
        d * k != 2147483629int,
{
}

#[verifier::rlimit(50)]
proof fn smaller_factor_has_no_divisor_from_1024(d: u32, k: u32)
    by (bit_vector)
    requires
        1024 <= d <= 4095,
        524287 <= k <= 2097151,
        d % 2 == 1,
        k % 2 == 1,
    ensures
        d * k != 2147483629int,
{
}

#[verifier::rlimit(50)]
proof fn smaller_factor_has_no_divisor_from_4096(d: u32, k: u32)
    by (bit_vector)
    requires
        4096 <= d <= 8191,
        262143 <= k <= 524287,
        d % 2 == 1,
        k % 2 == 1,
    ensures
        d * k != 2147483629int,
{
}

#[verifier::rlimit(50)]
proof fn smaller_factor_has_no_divisor_from_8192(d: u32, k: u32)
    by (bit_vector)
    requires
        8192 <= d <= 16383,
        131071 <= k <= 262143,
        d % 2 == 1,
        k % 2 == 1,
    ensures
        d * k != 2147483629int,
{
}

#[verifier::rlimit(50)]
proof fn smaller_factor_has_no_divisor_from_16384(d: u32, k: u32)
    by (bit_vector)
    requires
        16384 <= d <= 32767,
        65535 <= k <= 131071,
        d % 2 == 1,
        k % 2 == 1,
    ensures
        d * k != 2147483629int,
{
}

#[verifier::rlimit(50)]
proof fn smaller_factor_has_no_divisor_from_32768(d: u32, k: u32)
    by (bit_vector)
    requires
        32768 <= d <= 46340,
        46340 <= k <= 65535,
        d % 2 == 1,
        k % 2 == 1,
    ensures
        d * k != 2147483629int,
{
}

proof fn factors_are_odd(a: nat, b: nat, n: nat)
    requires
        a * b == n,
        n % 2 == 1,
    ensures
        a % 2 == 1,
        b % 2 == 1,
{
    if a % 2 == 0 {
        let c = a / 2;
        assert(n == 2 * (c * b)) by (nonlinear_arith)
            requires
                a == 2 * c,
                a * b == n,
        ;
    }
    if b % 2 == 0 {
        let c = b / 2;
        assert(n == 2 * (a * c)) by (nonlinear_arith)
            requires
                b == 2 * c,
                a * b == n,
        ;
    }
}

proof fn factor_is_bounded(a: nat, b: nat, n: nat, lowest: nat, highest: nat)
    by (nonlinear_arith)
    requires
        a * b == n,
        lowest <= a <= highest,
    ensures
        lowest * b <= n <= highest * b,
{
}

proof fn larger_factor_has_no_divisors(a: nat, b: nat)
    requires
        2 <= a <= b,
    ensures
        a * b != LARGER_FACTOR,
{
    if a * b == LARGER_FACTOR {
        factors_are_odd(a, b, LARGER_FACTOR as nat);
        assert(a <= 46340) by (nonlinear_arith)
            requires
                a <= b,
                a * b == 2147483647int,
        ;
        let (d, k) = (a as u32, b as u32);
        if a <= 1023 {
            factor_is_bounded(a, b, LARGER_FACTOR as nat, 3, 1023);
            larger_factor_has_no_divisor_from_3(d, k);
        } else if a <= 4095 {
            factor_is_bounded(a, b, LARGER_FACTOR as nat, 1024, 4095);
            larger_factor_has_no_divisor_from_1024(d, k);
        } else if a <= 8191 {
            factor_is_bounded(a, b, LARGER_FACTOR as nat, 4096, 8191);
            larger_factor_has_no_divisor_from_4096(d, k);
        } else if a <= 16383 {
            factor_is_bounded(a, b, LARGER_FACTOR as nat, 8192, 16383);
            larger_factor_has_no_divisor_from_8192(d, k);
        } else if a <= 32767 {
            factor_is_bounded(a, b, LARGER_FACTOR as nat, 16384, 32767);
            larger_factor_has_no_divisor_from_16384(d, k);
        } else {
            factor_is_bounded(a, b, LARGER_FACTOR as nat, 32768, 46340);
            larger_factor_has_no_divisor_from_32768(d, k);
        }
    }
}

proof fn larger_factor_is_prime()
    ensures
        is_prime(LARGER_FACTOR as nat),
{
    let n = LARGER_FACTOR as nat;
    assert forall|d: nat| 2 <= d < n implies #[trigger] (n % d) != 0 by {
        if n % d == 0 {
            let k = n / d;
            lemma_fundamental_div_mod(n as int, d as int);
            assert(k >= 2 && k * d == n) by (nonlinear_arith)
                requires
                    n == d * k,
                    2 <= d < n,
            ;
            if d <= k {
                larger_factor_has_no_divisors(d, k);
            } else {
                larger_factor_has_no_divisors(k, d);
            }
        }
    }
}

proof fn smaller_factor_has_no_divisors(a: nat, b: nat)
    requires
        2 <= a <= b,
    ensures
        a * b != SMALLER_FACTOR,
{
    if a * b == SMALLER_FACTOR {
        factors_are_odd(a, b, SMALLER_FACTOR as nat);
        assert(a <= 46340) by (nonlinear_arith)
            requires
                a <= b,
                a * b == 2147483629int,
        ;
        let (d, k) = (a as u32, b as u32);
        if a <= 1023 {
            factor_is_bounded(a, b, SMALLER_FACTOR as nat, 3, 1023);
            smaller_factor_has_no_divisor_from_3(d, k);
        } else if a <= 4095 {
            factor_is_bounded(a, b, SMALLER_FACTOR as nat, 1024, 4095);
            smaller_factor_has_no_divisor_from_1024(d, k);
        } else if a <= 8191 {
            factor_is_bounded(a, b, SMALLER_FACTOR as nat, 4096, 8191);
            smaller_factor_has_no_divisor_from_4096(d, k);
        } else if a <= 16383 {
            factor_is_bounded(a, b, SMALLER_FACTOR as nat, 8192, 16383);
            smaller_factor_has_no_divisor_from_8192(d, k);
        } else if a <= 32767 {
            factor_is_bounded(a, b, SMALLER_FACTOR as nat, 16384, 32767);
            smaller_factor_has_no_divisor_from_16384(d, k);
        } else {
            factor_is_bounded(a, b, SMALLER_FACTOR as nat, 32768, 46340);
            smaller_factor_has_no_divisor_from_32768(d, k);
        }
    }
}

proof fn smaller_factor_is_prime()
    ensures
        is_prime(SMALLER_FACTOR as nat),
{
    let n = SMALLER_FACTOR as nat;
    assert forall|d: nat| 2 <= d < n implies #[trigger] (n % d) != 0 by {
        if n % d == 0 {
            let k = n / d;
            lemma_fundamental_div_mod(n as int, d as int);
            assert(k >= 2 && k * d == n) by (nonlinear_arith)
                requires
                    n == d * k,
                    2 <= d < n,
            ;
            if d <= k {
                smaller_factor_has_no_divisors(d, k);
            } else {
                smaller_factor_has_no_divisors(k, d);
            }
        }
    }
}

/// A prime that divides a product divides a factor of it.
proof fn prime_divides_a_factor(p: nat, a: nat, b: nat)
    requires
        is_prime(p),
        a % p != 0,
        (a * b) % p == 0,
    ensures
        b % p == 0,
{
    let s = a % p;
    lemma_mul_mod_noop_left(a as int, b as int, p as int);
    assert((s * b) % p == 0);
    small_factor_is_dropped(p, s, b);
}

proof fn small_factor_is_dropped(p: nat, a: nat, b: nat)
    requires
        is_prime(p),
        0 < a < p,
        (a * b) % p == 0,
    ensures
        b % p == 0,
    decreases a,
{
    if a > 1 {
        let s = p % a;
        let t = p / a;
        assert(s != 0);
        lemma_fundamental_div_mod(p as int, a as int);
        let c = (a * b) / p;
        lemma_fundamental_div_mod((a * b) as int, p as int);
        assert(s * b == p * (b - t * c)) by (nonlinear_arith)
            requires
                p == a * t + s,
                a * b == p * c,
        ;
        lemma_mod_multiples_basic(b - t * c, p as int);
        assert((p * (b - t * c)) % p as int == 0) by {
            assert(p * (b - t * c) == (b - t * c) * p) by (nonlinear_arith);
        }
        small_factor_is_dropped(p, s, b);
    } else {
        assert(a * b == b) by (nonlinear_arith)
            requires
                a == 1,
        ;
    }
}

/// A prime that divides a power divides its base.
proof fn prime_divides_the_base(p: nat, x: nat, e: nat)
    requires
        is_prime(p),
        pow(x as int, e) % (p as int) == 0,
    ensures
        x % p == 0,
    decreases e,
{
    if e == 0 {
        lemma_pow0(x as int);
        lemma_small_mod(1, p);
    } else if x % p != 0 {
        let rest = pow(x as int, (e - 1) as nat);
        reveal(pow);
        power_is_not_negative(x, (e - 1) as nat);
        prime_divides_a_factor(p, x, rest as nat);
        prime_divides_the_base(p, x, (e - 1) as nat);
    }
}

proof fn power_is_not_negative(x: nat, e: nat)
    ensures
        pow(x as int, e) >= 0,
    decreases e,
{
    reveal(pow);
    if e > 0 {
        power_is_not_negative(x, (e - 1) as nat);
        assert(x * pow(x as int, (e - 1) as nat) >= 0) by (nonlinear_arith)
            requires
                pow(x as int, (e - 1) as nat) >= 0,
        ;
    }
}

/// No power of a number between one and the modulus is a multiple of the modulus, which is a
/// product of two primes.
proof fn powers_are_not_zero(x: nat, e: nat)
    requires
        0 < x < VDF_MODULUS,
    ensures
        pow(x as int, e) % (VDF_MODULUS as int) != 0,
{
    let (m, p, q) = (VDF_MODULUS as nat, LARGER_FACTOR as nat, SMALLER_FACTOR as nat);
    if pow(x as int, e) % (m as int) == 0 {
        let y = pow(x as int, e);
        let c = y / (m as int);
        lemma_fundamental_div_mod(y, m as int);
        assert(m == p * q);
        assert(y == (q * c) * p && y == (p * c) * q) by (nonlinear_arith)
            requires
                y == m * c,
                m == p * q,
        ;
        lemma_mod_multiples_basic(q * c, p as int);
        lemma_mod_multiples_basic(p * c, q as int);
        larger_factor_is_prime();
        smaller_factor_is_prime();
        prime_divides_the_base(p, x, e);
        prime_divides_the_base(q, x, e);
        let u = x / p;
        lemma_fundamental_div_mod(x as int, p as int);
        assert(p % q == 18);
        prime_divides_a_factor(q, p, u);
        let w = u / q;
        lemma_fundamental_div_mod(u as int, q as int);
        assert(w == 0) by (nonlinear_arith)
            requires
                x == p * u,
                u == q * w,
                m == p * q,
                x < m,
        ;
    }
}

/// The output of the delay function is never zero.
pub proof fn output_is_not_zero(seed: Seq<char>, rounds: u64)
    ensures
        vdf_output(seed, rounds) > 0,
{
    let x = seed_element(seed);
    powers_are_not_zero(x, pow2(rounds as nat));
    power_range(x as int, VDF_MODULUS as int, pow2(rounds as nat));
}

/// Running the delay function gives a solution that verifies for the same seed and rounds.
pub proof fn run_verifies(seed: Seq<char>, rounds: u64)
    ensures
        solution_verifies(seed, rounds, vdf_solution(seed, rounds)),
{
    output_is_not_zero(seed, rounds);
    let m = VDF_MODULUS as int;
    let x = seed_element(seed) as int;
    let e = pow2(rounds as nat);
    let y = vdf_output(seed, rounds);
    let l = challenge_prime(seed, rounds, y);
    challenge_lower_bound(seed, rounds, y);
    let p = vdf_proof_value(seed, rounds);
    power_range(x, m, e);
    power_range(x, m, e / l);
    solution_reads_back(y, p);
    let q = e / l;
    let r = e % l;
    lemma_pow_mod_noop(pow(x, q), l, m);
    lemma_pow_multiplies(x, q, l);
    assert(pow(p as int, l) % m == pow(x, q * l) % m);
    power_range(p as int, m, l);
    power_range(x, m, r);
    power_step(x, m, q * l, r, mod_power(p, l) as int, mod_power(x as nat, r) as int);
    lemma_fundamental_div_mod(e as int, l as int);
    assert(q * l == l * q) by (nonlinear_arith);
    assert(q * l + r == e);
    let product = mod_power(p, l) * mod_power(x as nat, r);
    assert(product as int % m == y);
}

/// The number of rounds after a block time was observed: unchanged inside the deadband, else the
/// proportional number, at most two percent (and at least one round) away, within the limits.
pub open spec fn retargeted_rounds(current: nat, observed_ms: nat) -> nat {
    let observed = if observed_ms < 1 { 1 } else { observed_ms };
    let raw = current * VDF_TARGET_BLOCK_MS as nat / observed;
    if in_deadband(observed_ms) {
        current
    } else if raw < fewest_rounds_after(current) {
        fewest_rounds_after(current)
    } else if raw > most_rounds_after(current) {
        most_rounds_after(current)
    } else {
        raw
    }
}

/// A block time that is close enough to the target.
pub open spec fn in_deadband(observed_ms: nat) -> bool {
    let target = VDF_TARGET_BLOCK_MS as nat;
    target - target / 10 <= observed_ms <= target + target / 10
}

/// How far one retarget may move: two percent, at least one round.
pub open spec fn retarget_step(current: nat) -> nat {
    if current * 2 / 100 < 1 {
        1
    } else {
        current * 2 / 100
    }
}

pub open spec fn fewest_rounds_after(current: nat) -> nat {
    if current < retarget_step(current) + 1 {
        1
    } else {
        (current - retarget_step(current)) as nat
    }
}

pub open spec fn most_rounds_after(current: nat) -> nat {
    if current + retarget_step(current) > MAX_VDF_ROUNDS {
        MAX_VDF_ROUNDS as nat
    } else {
        current + retarget_step(current)
    }
}

/// The number of rounds after a block time was observed.
pub fn retarget_vdf_rounds(current_rounds: u64, observed_block_ms: u64) -> (r: u64)
    requires
        in_deadband(observed_block_ms as nat) || fewest_rounds_after(current_rounds as nat) <= most_rounds_after(
            current_rounds as nat,
        ),
    ensures
        r == retargeted_rounds(current_rounds as nat, observed_block_ms as nat),
{
    let current: u128 = current_rounds as u128;
    let observed: u128 = if observed_block_ms < 1 {
        1
    } else {
        observed_block_ms as u128
    };
    let target: u128 = VDF_TARGET_BLOCK_MS as u128;
    let deadband: u128 = target * VDF_RETARGET_DEADBAND_PERCENT / 100;
    if observed >= target - deadband && observed <= target + deadband {
        return current_rounds;
    }
    let raw_adjusted: u128 = current * target / observed;
    let percent: u128 = current * MAX_VDF_RETARGET_STEP_PERCENT / 100;
    let max_step: u128 = if percent < 1 {
        1
    } else {
        percent
    };
    let min_next: u128 = if current < max_step + MIN_VDF_ROUNDS as u128 {
        MIN_VDF_ROUNDS as u128
    } else {
        current - max_step
    };
    let max_next: u128 = if current + max_step > MAX_VDF_ROUNDS as u128 {
        MAX_VDF_ROUNDS as u128
    } else {
        current + max_step
    };
    if raw_adjusted < min_next {
        min_next as u64
    } else if raw_adjusted > max_next {
        max_next as u64
    } else {
        raw_adjusted as u64
    }
}

/// One retarget moves the rounds by at most two percent, or by one round where that is less; it
/// moves them nowhere inside the deadband, never below one and never above the maximum.
pub proof fn retarget_is_bounded(current: nat, observed_ms: nat)
    requires
        1 <= current <= MAX_VDF_ROUNDS,
    ensures
        ({
            let next = retargeted_rounds(current, observed_ms);
            let step = if current * 2 / 100 < 1 { 1 } else { current * 2 / 100 };
            &&& 1 <= next <= MAX_VDF_ROUNDS
            &&& next <= current + step
            &&& current <= next + step
            &&& (270_000 <= observed_ms <= 330_000 ==> next == current)
        }),
{
}

/// A faster block never leads to fewer rounds than a slower one.
pub proof fn retarget_is_monotonic(current: nat, faster_ms: nat, slower_ms: nat)
    requires
        1 <= current <= MAX_VDF_ROUNDS,
        faster_ms <= slower_ms,
    ensures
        retargeted_rounds(current, slower_ms) <= retargeted_rounds(current, faster_ms),
{
    let f = if faster_ms < 1 { 1 } else { faster_ms };
    let s = if slower_ms < 1 { 1 } else { slower_ms };
    let n = current * 300_000;
    lemma_div_is_ordered_by_denominator(n as int, f as int, s as int);
    if f < 270_000 {
        lemma_div_is_ordered_by_denominator(n as int, f as int, 300_000);
        lemma_div_multiples_vanish(current as int, 300_000);
        assert(n == 300_000 * current);
    }
    if s > 330_000 {
        lemma_div_is_ordered_by_denominator(n as int, 300_000, s as int);
        lemma_div_multiples_vanish(current as int, 300_000);
        assert(n == 300_000 * current);
    }
}

/// A block time within the bounds that retargeting reads.
pub open spec fn clamped_block_ms(observed: nat) -> nat {
    if observed < MIN_VDF_RETARGET_OBSERVED_BLOCK_MS {
        MIN_VDF_RETARGET_OBSERVED_BLOCK_MS as nat
    } else if observed > MAX_VDF_RETARGET_OBSERVED_BLOCK_MS {
        MAX_VDF_RETARGET_OBSERVED_BLOCK_MS as nat
    } else {
        observed
    }
}

pub fn clamped_vdf_retarget_observed_block_ms(observed_block_ms: u64) -> (r: u64)
    ensures
        r == clamped_block_ms(observed_block_ms as nat),
{
    if observed_block_ms < MIN_VDF_RETARGET_OBSERVED_BLOCK_MS {
        MIN_VDF_RETARGET_OBSERVED_BLOCK_MS
    } else if observed_block_ms > MAX_VDF_RETARGET_OBSERVED_BLOCK_MS {
        MAX_VDF_RETARGET_OBSERVED_BLOCK_MS
    } else {
        observed_block_ms
    }
}

/// The rounds that a finalizer of a rank has to run: one share more for each rank.
pub open spec fn rounds_for_rank(base: u64, rank: u32) -> Result<u64, Seq<char>> {
    if rank == u32::MAX {
        Err("finalizer rank overflows"@)
    } else if base * (rank + 1) > u64::MAX {
        Err("finalizer rank VDF rounds overflow"@)
    } else if base * (rank + 1) > MAX_VDF_ROUNDS {
        Err("finalizer rank VDF rounds exceed maximum"@)
    } else {
        Ok((base * (rank + 1)) as u64)
    }
}

pub fn vdf_rounds_for_finalizer_rank(base_rounds: u64, rank: u32) -> (r: Result<u64, crate::error::Error>)
    ensures
        crate::error::outcome(r) == rounds_for_rank(base_rounds, rank),
{
    if rank == u32::MAX {
        return Err(crate::error::Error::new("finalizer rank overflows"));
    }
    match base_rounds.checked_mul((rank + 1) as u64) {
        None => Err(crate::error::Error::new("finalizer rank VDF rounds overflow")),
        Some(rounds) => if rounds > MAX_VDF_ROUNDS {
            Err(crate::error::Error::new("finalizer rank VDF rounds exceed maximum"))
        } else {
            Ok(rounds)
        },
    }
}

/// The share of the rounds that one rank stands for.
pub open spec fn base_rounds(rounds: u64, rank: u32) -> u64 {
    if rank == u32::MAX {
        rounds / (u32::MAX as u64)
    } else {
        rounds / ((rank + 1) as u64)
    }
}

pub fn base_vdf_rounds_for_finalizer_rank(vdf_rounds: u64, rank: u32) -> (r: u64)
    ensures
        r == base_rounds(vdf_rounds, rank),
        r <= vdf_rounds,
{
    let share: u32 = rank.saturating_add(1);
    proof {
        lemma_div_is_ordered_by_denominator(vdf_rounds as int, 1, share as int);
    }
    vdf_rounds / (share as u64)
}

/// Dividing the rounds of a rank by its share gives the base back.
pub proof fn base_rounds_undo_rank(base: u64, rank: u32)
    requires
        rounds_for_rank(base, rank) is Ok,
    ensures
        base_rounds(rounds_for_rank(base, rank)->Ok_0, rank) == base,
{
    lemma_div_multiples_vanish(base as int, (rank + 1) as int);
    lemma_mul_is_commutative(base as int, (rank + 1) as int);
}

/// The rounds after an observed block time, in numbers: the same for a time within a tenth of five
/// minutes; else those with which a block would have taken five minutes, rounded down, but at most two
/// percent (or one round, where that is more) away, at least one and at most the maximum.
pub proof fn retarget_is_proportional(current: nat, observed_ms: nat, exact: nat)
    requires
        1 <= current <= 9_223_372_036_854_775_807,
        observed_ms > 0,
        exact * observed_ms <= current * 300_000 < (exact + 1) * observed_ms,
    ensures
        ({
            let next = retargeted_rounds(current, observed_ms);
            let step = if current < 100 { 1 } else { current / 50 };
            &&& (270_000 <= observed_ms <= 330_000 ==> next == current)
            &&& (observed_ms < 270_000 ==> next == {
                let most = if current + step > 9_223_372_036_854_775_807 { 9_223_372_036_854_775_807 } else { current + step };
                if exact < most { exact } else { most }
            })
            &&& (observed_ms > 330_000 ==> next == {
                let fewest = if current <= step { 1 } else { (current - step) as nat };
                if exact > fewest { exact } else { fewest }
            })
            &&& (observed_ms < 270_000 && current < 9_223_372_036_854_775_807 && current >= 10 ==> next > current)
            &&& (observed_ms < 270_000 ==> next >= current)
            &&& (observed_ms > 330_000 ==> next <= current)
            &&& (observed_ms > 330_000 && current > 1 ==> next < current)
        }),
{
    let n = (current * 300_000) as int;
    let o = observed_ms as int;
    lemma_fundamental_div_mod(n, o);
    let q = n / o;
    assert(q == exact) by (nonlinear_arith)
        requires
            n == o * q + n % o,
            0 <= n % o < o,
            exact * o <= n < (exact + 1) * o,
            o > 0,
            exact >= 0,
    ;
    assert(current * 2 / 100 == current / 50);
    if observed_ms < 270_000 {
        assert(exact >= current) by (nonlinear_arith)
            requires
                current * 300_000 < (exact + 1) * observed_ms,
                observed_ms < 270_000,
        ;
        if current >= 10 {
            assert(exact > current) by (nonlinear_arith)
                requires
                    current * 300_000 < (exact + 1) * observed_ms,
                    observed_ms < 270_000,
                    current >= 10,
            ;
        }
    }
    if observed_ms > 330_000 {
        assert(exact < current) by (nonlinear_arith)
            requires
                exact * observed_ms <= current * 300_000,
                observed_ms > 330_000,
                current >= 1,
        ;
    }
}

/// The time that counts for a retarget is the one observed, but at least 75 seconds and at most
/// twenty minutes.
pub proof fn block_time_is_clamped(observed: nat)
    ensures
        75_000 <= clamped_block_ms(observed) <= 1_200_000,
        75_000 <= observed <= 1_200_000 ==> clamped_block_ms(observed) == observed,
        observed < 75_000 ==> clamped_block_ms(observed) == 75_000,
        observed > 1_200_000 ==> clamped_block_ms(observed) == 1_200_000,
{
}

/// A finalizer of a rank runs the base rounds once, and once more for each rank before it.
pub proof fn later_ranks_run_more_rounds(base: u64, rank: u32)
    ensures
        rounds_for_rank(base, rank) is Ok <==> rank < 4_294_967_295 && base * (rank + 1) <= 9_223_372_036_854_775_807,
        rounds_for_rank(base, rank) is Ok ==> rounds_for_rank(base, rank)->Ok_0 == base * (rank + 1),
{
}

} // verus!
