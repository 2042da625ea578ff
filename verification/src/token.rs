//! Connection tokens.
//!
//! A client must show a token before the tracker serves its announce or
//! scrape. The tracker keeps no table of the tokens it handed out: a token
//! is computed from the client's address, the current time window and a
//! secret that only the tracker holds, and is checked by computing it
//! again.
//!
//! The address and the window number are added up into one block of 64
//! bits, and the block is enciphered with XTEA under the secret. A cipher is
//! a permutation of the blocks, so two tokens are equal only where their
//! blocks are. That is what the laws below rest on, and all that is proved
//! of the cipher; that the secret cannot be found from tokens is the
//! cipher's reputation, not a theorem of this module.
//!
//! A block has room for 64 bits, an address and a window number need 112.
//! The sum is laid out so that the tokens of one address never repeat, and
//! so that the tokens of two addresses differ as long as their windows are
//! fewer than 65536 apart, which is 91 days. More than that 64 bits cannot
//! give: a token that names both its address and its window without end
//! would have to hold all 112.
use crate::address::PeerAddress;
use vstd::prelude::*;

verus! {

/// The width of a time window, in seconds.
pub const TOKEN_WINDOW: u64 = 120;

/// The number of cycles of the cipher: the 32 that XTEA is specified with.
pub const CYCLES: u32 = 32;

/// The constant that the cipher adds to its running sum in every cycle.
pub const DELTA: u32 = 0x9E37_79B9;

/// The number of the time window that the second `now` falls in.
pub open spec fn bucket_of(now: u64) -> u64 {
    now / TOKEN_WINDOW
}

/// The address and the window number in one block of 64 bits: the address
/// in the upper 32, the port in the next 16, and the window number added to
/// that, modulo 2^64.
pub open spec fn pack(address: PeerAddress, bucket: u64) -> u64 {
    ((address.ip * 0x1_0000_0000 + address.port * 0x1_0000 + bucket)
        % 0x1_0000_0000_0000_0000) as u64
}

/// The sum of two words, modulo 2^32.
pub open spec fn add32(a: u32, b: u32) -> u32 {
    ((a + b) % 0x1_0000_0000) as u32
}

/// One of the four words of the secret, the most significant being word 0.
pub open spec fn key_word(secret: u128, index: u32) -> u32 {
    if index == 0 {
        (secret / 0x1_0000_0000_0000_0000_0000_0000) as u32
    } else if index == 1 {
        (secret / 0x1_0000_0000_0000_0000 % 0x1_0000_0000) as u32
    } else if index == 2 {
        (secret / 0x1_0000_0000 % 0x1_0000_0000) as u32
    } else {
        (secret % 0x1_0000_0000) as u32
    }
}

/// What one half of the block contributes to the other.
pub open spec fn feed(half: u32) -> u32 {
    add32((half << 4) ^ (half >> 5), half)
}

/// One cycle of the cipher, at the running sum `sum`: the left half takes
/// up the right one and a word of the secret, then the right half takes up
/// the new left one and another word.
pub open spec fn cycle(secret: u128, sum: u32, block: (u32, u32)) -> (u32, u32) {
    let left = add32(block.0, feed(block.1) ^ add32(sum, key_word(secret, sum & 3)));
    let next = add32(sum, DELTA);
    let right = add32(block.1, feed(left) ^ add32(next, key_word(secret, (next >> 11) & 3)));
    (left, right)
}

/// `cycles` cycles of the cipher, from the running sum `sum` on.
pub open spec fn encipher(secret: u128, sum: u32, block: (u32, u32), cycles: nat) -> (u32, u32)
    decreases cycles,
{
    if cycles == 0 {
        block
    } else {
        encipher(secret, add32(sum, DELTA), cycle(secret, sum, block), (cycles - 1) as nat)
    }
}

/// The block `block` enciphered with XTEA under `secret`: the upper half
/// of the block is the cipher's first word, the lower half its second.
#[verifier::opaque]
pub open spec fn scramble(secret: u128, block: u64) -> u64 {
    let halves = ((block / 0x1_0000_0000) as u32, (block % 0x1_0000_0000) as u32);
    let out = encipher(secret, 0, halves, CYCLES as nat);
    (out.0 * 0x1_0000_0000 + out.1) as u64
}

/// The token of `address` in window `bucket` under `secret`.
pub open spec fn token_for(secret: u128, address: PeerAddress, bucket: u64) -> u64 {
    scramble(secret, pack(address, bucket))
}

/// Whether `token` is good for `address` at the second `now`: it is the
/// token of the current window or of the one before.
pub open spec fn accepts(secret: u128, token: u64, address: PeerAddress, now: u64) -> bool {
    let bucket = bucket_of(now);
    token == token_for(secret, address, bucket) || (bucket >= 1 && token == token_for(
        secret,
        address,
        (bucket - 1) as u64,
    ))
}

/// Adding one word to two others gives equal sums only where the two are
/// equal.
proof fn lemma_add32_cancels(a: u32, b: u32, c: u32)
    requires
        add32(a, c) == add32(b, c),
    ensures
        a == b,
{
}

/// A cycle sends distinct blocks to distinct blocks.
proof fn lemma_cycle_injective(secret: u128, sum: u32, a: (u32, u32), b: (u32, u32))
    requires
        cycle(secret, sum, a) == cycle(secret, sum, b),
    ensures
        a == b,
{
    let left = cycle(secret, sum, a).0;
    let next = add32(sum, DELTA);
    lemma_add32_cancels(
        a.1,
        b.1,
        feed(left) ^ add32(next, key_word(secret, (next >> 11) & 3)),
    );
    lemma_add32_cancels(a.0, b.0, feed(a.1) ^ add32(sum, key_word(secret, sum & 3)));
}

/// Any number of cycles sends distinct blocks to distinct blocks.
proof fn lemma_encipher_injective(
    secret: u128,
    sum: u32,
    a: (u32, u32),
    b: (u32, u32),
    cycles: nat,
)
    requires
        encipher(secret, sum, a, cycles) == encipher(secret, sum, b, cycles),
    ensures
        a == b,
    decreases cycles,
{
    if cycles > 0 {
        lemma_encipher_injective(
            secret,
            add32(sum, DELTA),
            cycle(secret, sum, a),
            cycle(secret, sum, b),
            (cycles - 1) as nat,
        );
        lemma_cycle_injective(secret, sum, a, b);
    }
}

/// The cipher sends distinct blocks to distinct blocks.
pub proof fn lemma_scramble_injective(secret: u128, a: u64, b: u64)
    requires
        scramble(secret, a) == scramble(secret, b),
    ensures
        a == b,
{
    reveal(scramble);
    lemma_encipher_injective(
        secret,
        0,
        ((a / 0x1_0000_0000) as u32, (a % 0x1_0000_0000) as u32),
        ((b / 0x1_0000_0000) as u32, (b % 0x1_0000_0000) as u32),
        CYCLES as nat,
    );
}

/// The tokens of one address in two windows are equal only where the two
/// windows are one.
pub proof fn lemma_token_names_its_window(secret: u128, address: PeerAddress, b1: u64, b2: u64)
    requires
        token_for(secret, address, b1) == token_for(secret, address, b2),
    ensures
        b1 == b2,
{
    lemma_scramble_injective(secret, pack(address, b1), pack(address, b2));
}

/// Two tokens whose windows are fewer than 65536 apart are equal only for
/// the same address and the same window.
pub proof fn lemma_token_names_its_address(
    secret: u128,
    a1: PeerAddress,
    b1: u64,
    a2: PeerAddress,
    b2: u64,
)
    requires
        token_for(secret, a1, b1) == token_for(secret, a2, b2),
        -0x1_0000 < b1 - b2 < 0x1_0000,
    ensures
        a1 == a2,
        b1 == b2,
{
    lemma_scramble_injective(secret, pack(a1, b1), pack(a2, b2));
    let n1 = a1.ip * 0x1_0000 + a1.port;
    let n2 = a2.ip * 0x1_0000 + a2.port;
    let x = n1 * 0x1_0000 + b1;
    let y = n2 * 0x1_0000 + b2;
    assert(x % 0x1_0000_0000_0000_0000 == y % 0x1_0000_0000_0000_0000);
    assert(0 <= n1 < 0x1_0000_0000_0000 && 0 <= n2 < 0x1_0000_0000_0000);
    let j = x / 0x1_0000_0000_0000_0000 - y / 0x1_0000_0000_0000_0000;
    assert(x - y == j * 0x1_0000_0000_0000_0000);
    assert((n1 - n2) * 0x1_0000 + (b1 - b2) == j * 0x1_0000_0000_0000 * 0x1_0000);
    assert(b1 - b2 == (j * 0x1_0000_0000_0000 - (n1 - n2)) * 0x1_0000);
    assert(b1 == b2);
    assert(n1 - n2 == j * 0x1_0000_0000_0000);
    assert(j == 0);
}

/// A token is accepted at the second at which it was issued.
pub proof fn lemma_fresh_token_accepted(secret: u128, address: PeerAddress, now: u64)
    ensures
        accepts(secret, token_for(secret, address, bucket_of(now)), address, now),
{
}

/// A token is good in the window in which it was issued and in the next
/// one, and in no other window, before or after.
pub proof fn lemma_token_lifetime(secret: u128, address: PeerAddress, issued_in: u64, now: u64)
    ensures
        accepts(secret, token_for(secret, address, issued_in), address, now) <==> (bucket_of(now)
            == issued_in || bucket_of(now) == issued_in + 1),
{
    let token = token_for(secret, address, issued_in);
    let bucket = bucket_of(now);
    if token == token_for(secret, address, bucket) {
        lemma_token_names_its_window(secret, address, issued_in, bucket);
    }
    if bucket >= 1 && token == token_for(secret, address, (bucket - 1) as u64) {
        lemma_token_names_its_window(secret, address, issued_in, (bucket - 1) as u64);
    }
}

/// A token issued to one address is not accepted from another, as long as
/// it is shown within 65536 windows of its issue.
pub proof fn lemma_token_bound_to_address(
    secret: u128,
    issued_to: PeerAddress,
    issued_in: u64,
    shown_by: PeerAddress,
    now: u64,
)
    requires
        issued_to != shown_by,
        issued_in <= bucket_of(now) < issued_in + 0x1_0000,
    ensures
        !accepts(secret, token_for(secret, issued_to, issued_in), shown_by, now),
{
    let token = token_for(secret, issued_to, issued_in);
    let bucket = bucket_of(now);
    if token == token_for(secret, shown_by, bucket) {
        lemma_token_names_its_address(secret, issued_to, issued_in, shown_by, bucket);
    }
    if bucket >= 1 && token == token_for(secret, shown_by, (bucket - 1) as u64) {
        lemma_token_names_its_address(
            secret,
            issued_to,
            issued_in,
            shown_by,
            (bucket - 1) as u64,
        );
    }
}

/// `rand::random::<u128>()` of the rand crate: 128 bits from the thread's
/// random number generator. Nothing is claimed of the bits.
#[verifier::external_body]
fn random_secret() -> u128 {
    rand::random::<u128>()
}

fn sum32(a: u32, b: u32) -> (sum: u32)
    ensures
        sum == add32(a, b),
{
    ((a as u64 + b as u64) % 0x1_0000_0000) as u32
}

fn word_of(secret: u128, index: u32) -> (word: u32)
    ensures
        word == key_word(secret, index),
{
    if index == 0 {
        (secret / 0x1_0000_0000_0000_0000_0000_0000) as u32
    } else if index == 1 {
        (secret / 0x1_0000_0000_0000_0000 % 0x1_0000_0000) as u32
    } else if index == 2 {
        (secret / 0x1_0000_0000 % 0x1_0000_0000) as u32
    } else {
        (secret % 0x1_0000_0000) as u32
    }
}

fn feed_of(half: u32) -> (f: u32)
    ensures
        f == feed(half),
{
    sum32((half << 4) ^ (half >> 5), half)
}

/// Enciphers the block `block` with XTEA under `secret`.
pub fn encipher_block(secret: u128, block: u64) -> (out: u64)
    ensures
        out == scramble(secret, block),
{
    let ghost start = ((block / 0x1_0000_0000) as u32, (block % 0x1_0000_0000) as u32);
    let mut left: u32 = (block / 0x1_0000_0000) as u32;
    let mut right: u32 = (block % 0x1_0000_0000) as u32;
    let mut sum: u32 = 0;
    let mut done: u32 = 0;
    while done < CYCLES
        invariant
            done <= CYCLES,
            encipher(secret, 0, start, CYCLES as nat) == encipher(
                secret,
                sum,
                (left, right),
                (CYCLES - done) as nat,
            ),
        decreases CYCLES - done,
    {
        left = sum32(left, feed_of(right) ^ sum32(sum, word_of(secret, sum & 3)));
        sum = sum32(sum, DELTA);
        right = sum32(right, feed_of(left) ^ sum32(sum, word_of(secret, (sum >> 11) & 3)));
        done += 1;
    }
    proof {
        reveal(scramble);
    }
    left as u64 * 0x1_0000_0000 + right as u64
}

fn token_of(secret: u128, address: &PeerAddress, bucket: u64) -> (token: u64)
    ensures
        token == token_for(secret, *address, bucket),
{
    let base: u128 = address.ip as u128 * 0x1_0000_0000 + address.port as u128 * 0x1_0000;
    let block: u64 = ((base + bucket as u128) % 0x1_0000_0000_0000_0000) as u64;
    encipher_block(secret, block)
}

/// Compares two tokens in one step, whatever they hold, so that the time
/// taken says nothing about where they differ.
fn same_token(a: u64, b: u64) -> (same: bool)
    ensures
        same == (a == b),
{
    let difference: u64 = a ^ b;
    assert((a ^ b) == 0 <==> a == b) by (bit_vector);
    difference == 0
}

/// Issues and checks connection tokens under one secret.
pub struct TokenService {
    secret: u128,
}

impl TokenService {
    /// The secret that the tokens of this service are computed under.
    pub closed spec fn secret(&self) -> u128 {
        self.secret
    }

    /// A service that computes its tokens under `secret`.
    pub fn new(secret: u128) -> (service: TokenService)
        ensures
            service.secret() == secret,
    {
        TokenService { secret }
    }

    /// A service with a secret drawn at random.
    pub fn random() -> TokenService {
        TokenService::new(random_secret())
    }

    /// The token for `address` at the second `now`.
    pub fn issue(&self, address: &PeerAddress, now: u64) -> (token: u64)
        ensures
            token == token_for(self.secret(), *address, bucket_of(now)),
    {
        token_of(self.secret, address, now / TOKEN_WINDOW)
    }

    /// Whether `token` is good for `address` at the second `now`: whether it
    /// was issued to that address in the current window or in the one
    /// before.
    pub fn verify(&self, token: u64, address: &PeerAddress, now: u64) -> (ok: bool)
        ensures
            ok == accepts(self.secret(), token, *address, now),
    {
        let bucket: u64 = now / TOKEN_WINDOW;
        let earlier: u64 = if bucket >= 1 {
            bucket - 1
        } else {
            bucket
        };
        let current = same_token(token, token_of(self.secret, address, bucket));
        let previous = same_token(token, token_of(self.secret, address, earlier));
        current || previous
    }
}

} // verus!
