//! Why no two Zobrist keys are equal.
//!
//! The keys are successive states of a linear congruential generator on
//! 64-bit words. A power of two of steps of such a generator is again a map
//! `x -> a * x + c`, and for this generator that map flips the bit of the
//! number of steps and keeps the bits below it. So a state differs from the
//! state any odd multiple of a power of two of steps later, and every number
//! of steps is such a multiple.

use vstd::prelude::*;
use vstd::arithmetic::div_mod::{
    lemma_add_mod_noop, lemma_add_mod_noop_right, lemma_fundamental_div_mod, lemma_mod_mod,
    lemma_mod_multiples_vanish, lemma_mul_mod_noop_general, lemma_small_mod,
};
use crate::board::BoardView;
use crate::types::{valid_player, Piece, Position};
use crate::zobrist::{
    cell_key, key_slot, kind_index, lcg_next, lcg_state, lemma_hash_after_replacing, piece_key,
    player_key, position_hash, LCG_INCREMENT, LCG_MULTIPLIER, PIECE_KEYS,
};

verus! {

/// The number of values of a 64-bit word.
pub open spec fn word() -> int {
    0x1_0000_0000_0000_0000
}

/// The map `x -> a * x + c` on 64-bit words.
#[verifier::opaque]
pub open spec fn affine(a: int, c: int, x: int) -> int {
    (a * x + c) % word()
}

/// The state that the generator reaches `n` steps after its state number `i`.
pub open spec fn state_after(i: nat, n: nat) -> u64 {
    lcg_state(i + n)
}

/// Whether `n` steps of the generator amount to the map `x -> a * x + c`,
/// wherever they start.
#[verifier::opaque]
pub open spec fn advances(n: nat, a: int, c: int) -> bool {
    forall|i: nat| state_after(i, n) as int == affine(a, c, #[trigger] lcg_state(i) as int)
}

/// One step of the generator is the map `x -> a * x + c` with the
/// generator's multiplier and increment.
proof fn lemma_step_is_affine(x: u64)
    ensures
        lcg_next(x) as int == affine(LCG_MULTIPLIER as int, LCG_INCREMENT as int, x as int),
{
    reveal(affine);
    let a = LCG_MULTIPLIER as int;
    let c = LCG_INCREMENT as int;
    let m = word();
    let w = x.wrapping_mul(LCG_MULTIPLIER);
    assert(w as int == (x as int * a) % m);
    assert(lcg_next(x) as int == (w + c) % m) by {
        if w + c > u64::MAX {
            lemma_mod_multiples_vanish(-1, w + c, m);
            lemma_small_mod((w + c - m) as nat, m as nat);
        } else {
            lemma_small_mod((w + c) as nat, m as nat);
        }
    }
    lemma_add_mod_noop_right(c, x as int * a, m);
    assert(x as int * a == a * x as int) by (nonlinear_arith);
}

/// Doing `x -> a * x + c` twice is doing `x -> (a * a) * x + (a * c + c)` once.
proof fn lemma_affine_twice(a: int, c: int, x: int)
    ensures
        affine(a, c, affine(a, c, x)) == affine((a * a) % word(), (a * c + c) % word(), x),
{
    reveal(affine);
    let m = word();
    let inner = a * x + c;
    let both = a * a * x + a * c + c;
    assert(a * inner + c == both) by (nonlinear_arith)
        requires
            inner == a * x + c,
            both == a * a * x + a * c + c,
    ;
    // The left side.
    lemma_mul_mod_noop_general(a, inner, m);
    lemma_add_mod_noop(a * (inner % m), c, m);
    lemma_add_mod_noop(a * inner, c, m);
    assert((a * (inner % m) + c) % m == both % m);
    // The right side.
    let a2 = (a * a) % m;
    let c2 = (a * c + c) % m;
    lemma_mul_mod_noop_general(a * a, x, m);
    lemma_add_mod_noop(a2 * x, c2, m);
    lemma_add_mod_noop(a * a * x, a * c + c, m);
    lemma_add_mod_noop_right((a2 * x) % m, a * c + c, m);
    lemma_add_mod_noop_right((a * a * x) % m, a * c + c, m);
    assert((a2 * x + c2) % m == both % m);
}

/// One step amounts to the generator's own map.
proof fn lemma_one_step_advances()
    ensures
        advances(1, LCG_MULTIPLIER as int, LCG_INCREMENT as int),
{
    reveal(advances);
    assert forall|i: nat|
        state_after(i, 1) as int == affine(
            LCG_MULTIPLIER as int,
            LCG_INCREMENT as int,
            #[trigger] lcg_state(i) as int,
        ) by {
        lemma_step_is_affine(lcg_state(i));
        reveal(lcg_state);
        assert(lcg_state(i + 1) == lcg_next(lcg_state((i + 1 - 1) as nat)));
    }
}

/// Where `n` steps amount to a map, `2 * n` steps amount to that map done twice.
proof fn lemma_twice_as_far(n: nat, a: int, c: int)
    requires
        advances(n, a, c),
    ensures
        advances(2 * n, (a * a) % word(), (a * c + c) % word()),
{
    reveal(advances);
    assert forall|i: nat|
        state_after(i, 2 * n) as int == affine(
            (a * a) % word(),
            (a * c + c) % word(),
            #[trigger] lcg_state(i) as int,
        ) by {
        let x = lcg_state(i);
        let y = lcg_state(i + n);
        assert(state_after(i, n) as int == affine(a, c, x as int));
        assert(state_after(i + n, n) as int == affine(a, c, y as int));
        assert(state_after(i + n, n) == state_after(i, 2 * n));
        lemma_affine_twice(a, c, x as int);
    }
}

/// What `advances` says of the steps from one state on.
proof fn lemma_advance_from(n: nat, a: int, c: int, i: nat)
    requires
        advances(n, a, c),
    ensures
        lcg_state(i + n) as int == affine(a, c, lcg_state(i) as int),
{
    reveal(advances);
    assert(state_after(i, n) as int == affine(a, c, lcg_state(i) as int));
}

/// Adding `c` to `y` adds `n` to its low bits, where `n` is the low bits of `c`.
proof fn lemma_add_low_bits(y: int, c: int, z: int, n: int, p: int)
    requires
        0 <= n < p,
        c % p == n,
        y % p == z % p,
    ensures
        (y + c) % p == (z + n) % p,
{
    lemma_add_mod_noop(y, c, p);
    lemma_add_mod_noop(z, n, p);
    lemma_small_mod(n as nat, p as nat);
}

/// The low bits of `a * x + c` where `a` is 1 in those bits: those of `x + c`.
proof fn lemma_affine_low_bits(a: int, c: int, x: int, p: int)
    requires
        p > 0,
        word() % p == 0,
        a % p == 1,
    ensures
        affine(a, c, x) % p == (x + c) % p,
{
    reveal(affine);
    let m = word();
    let q = m / p;
    lemma_fundamental_div_mod(m, p);
    assert(m == p * q);
    assert(q > 0) by (nonlinear_arith)
        requires
            m == p * q,
            m > 0,
            p > 0,
    ;
    lemma_mod_mod(a * x + c, p, q);
    lemma_mul_mod_noop_general(a, x, p);
    assert(1 * x == x);
    lemma_add_mod_noop(a * x, c, p);
    lemma_add_mod_noop(x, c, p);
    lemma_add_mod_noop_right((a * x) % p, c, p);
    lemma_add_mod_noop_right(x % p, c, p);
}

/// Where `n` steps add `n` in the low bits below `2 * n`, `m * n` steps add `m * n`.
proof fn lemma_low_bits_after(n: nat, a: int, c: int, i: nat, m: nat)
    requires
        n >= 1,
        advances(n, a, c),
        word() % (2 * n as int) == 0,
        a % (2 * n as int) == 1,
        c % (2 * n as int) == n,
    ensures
        lcg_state(i + m * n) as int % (2 * n as int) == (lcg_state(i) + m * n) % (2 * n as int),
    decreases m,
{
    let p = 2 * n as int;
    if m == 0 {
        assert(0 * n == 0) by (nonlinear_arith);
    } else {
        let before = (m - 1) as nat;
        lemma_low_bits_after(n, a, c, i, before);
        assert(m * n == before * n + n) by (nonlinear_arith)
            requires
                before == m - 1,
        ;
        let j = i + before * n;
        let y = lcg_state(j) as int;
        let z = lcg_state(i) + before * n;
        lemma_advance_from(n, a, c, j);
        lemma_affine_low_bits(a, c, y, p);
        lemma_add_low_bits(y, c, z, n as int, p);
    }
}

/// A state differs from every state that follows it by an odd multiple of a
/// power of two of steps, where that many steps flip the bit of that power.
proof fn lemma_differs_after_odd_multiple(n: nat, a: int, c: int, i: nat, m: nat)
    requires
        n >= 1,
        advances(n, a, c),
        word() % (2 * n as int) == 0,
        a % (2 * n as int) == 1,
        c % (2 * n as int) == n,
        m % 2 == 1,
    ensures
        lcg_state(i + m * n) != lcg_state(i),
{
    let p = 2 * n as int;
    let x = lcg_state(i) as int;
    lemma_low_bits_after(n, a, c, i, m);
    let t = (m / 2) as int;
    assert(m * n == t * p + n) by (nonlinear_arith)
        requires
            m == 2 * t + 1,
            p == 2 * n,
    ;
    lemma_mod_multiples_vanish(t, x + n, p);
    assert((x + m * n) % p == (x + n) % p);
    let r = x % p;
    lemma_add_mod_noop(x, n as int, p);
    lemma_small_mod(n, p as nat);
    assert((x + n) % p == (r + n) % p);
    if r + n < p {
        lemma_small_mod((r + n) as nat, p as nat);
    } else {
        lemma_mod_multiples_vanish(-1, r + n, p);
        lemma_small_mod((r + n - p) as nat, p as nat);
    }
    assert((x + n) % p != r);
}

/// The maps that 1, 2, 4, ... 1024 steps of the generator amount to, each
/// got by doing the one before twice.
proof fn lemma_doubled_maps()
    ensures
        ((0x5851f42d4c957f2d * 0x5851f42d4c957f2d) as int) % word() == 0x685f98a2018fade9,
        ((0x5851f42d4c957f2d * 0x14057b7ef767814f + 0x14057b7ef767814f) as int) % word() == 0x1a08ee1184ba6d32,
        ((0x685f98a2018fade9 * 0x685f98a2018fade9) as int) % word() == 0xfb4d3ae39272be11,
        ((0x685f98a2018fade9 * 0x1a08ee1184ba6d32 + 0x1a08ee1184ba6d32) as int) % word() == 0x66b61ae97f2099b4,
        ((0xfb4d3ae39272be11 * 0xfb4d3ae39272be11) as int) % word() == 0xb59dda5f38413d21,
        ((0xfb4d3ae39272be11 * 0x66b61ae97f2099b4 + 0x66b61ae97f2099b4) as int) % word() == 0x5b21778e3c8666a8,
        ((0xb59dda5f38413d21 * 0xb59dda5f38413d21) as int) % word() == 0x8d5e2ddc895abe41,
        ((0xb59dda5f38413d21 * 0x5b21778e3c8666a8 + 0x5b21778e3c8666a8) as int) % word() == 0x329cb23ce0f7aa50,
        ((0x8d5e2ddc895abe41 * 0x8d5e2ddc895abe41) as int) % word() == 0x96481983e5188c81,
        ((0x8d5e2ddc895abe41 * 0x329cb23ce0f7aa50 + 0x329cb23ce0f7aa50) as int) % word() == 0x0da130a0806148a0,
        ((0x96481983e5188c81 * 0x96481983e5188c81) as int) % word() == 0x4425ebbf6f4d5901,
        ((0x96481983e5188c81 * 0x0da130a0806148a0 + 0x0da130a0806148a0) as int) % word() == 0x933550ac541e6140,
        ((0x4425ebbf6f4d5901 * 0x4425ebbf6f4d5901) as int) % word() == 0x8980d00b878bb201,
        ((0x4425ebbf6f4d5901 * 0x933550ac541e6140 + 0x933550ac541e6140) as int) % word() == 0x5ff552a5384c0280,
        ((0x8980d00b878bb201 * 0x8980d00b878bb201) as int) % word() == 0x02078e0dd6db6401,
        ((0x8980d00b878bb201 * 0x5ff552a5384c0280 + 0x5ff552a5384c0280) as int) % word() == 0x4113488625d50500,
        ((0x02078e0dd6db6401 * 0x02078e0dd6db6401) as int) % word() == 0x659acb4fecc6c801,
        ((0x02078e0dd6db6401 * 0x4113488625d50500 + 0x4113488625d50500) as int) % word() == 0x7074a83cc89e0a00,
        ((0x659acb4fecc6c801 * 0x659acb4fecc6c801) as int) % word() == 0xaa1421b9d5cd9001,
        ((0x659acb4fecc6c801 * 0x7074a83cc89e0a00 + 0x7074a83cc89e0a00) as int) % word() == 0x6b00bea8c50c1400,
{
    assert({
        &&& (0x5851f42d4c957f2du64 * 0x5851f42d4c957f2du64) % 0x1_0000_0000_0000_0000 == 0x685f98a2018fade9
        &&& (0x685f98a2018fade9u64 * 0x685f98a2018fade9u64) % 0x1_0000_0000_0000_0000 == 0xfb4d3ae39272be11
        &&& (0xfb4d3ae39272be11u64 * 0xfb4d3ae39272be11u64) % 0x1_0000_0000_0000_0000 == 0xb59dda5f38413d21
        &&& (0xb59dda5f38413d21u64 * 0xb59dda5f38413d21u64) % 0x1_0000_0000_0000_0000 == 0x8d5e2ddc895abe41
        &&& (0x8d5e2ddc895abe41u64 * 0x8d5e2ddc895abe41u64) % 0x1_0000_0000_0000_0000 == 0x96481983e5188c81
        &&& (0x96481983e5188c81u64 * 0x96481983e5188c81u64) % 0x1_0000_0000_0000_0000 == 0x4425ebbf6f4d5901
        &&& (0x4425ebbf6f4d5901u64 * 0x4425ebbf6f4d5901u64) % 0x1_0000_0000_0000_0000 == 0x8980d00b878bb201
        &&& (0x8980d00b878bb201u64 * 0x8980d00b878bb201u64) % 0x1_0000_0000_0000_0000 == 0x02078e0dd6db6401
        &&& (0x02078e0dd6db6401u64 * 0x02078e0dd6db6401u64) % 0x1_0000_0000_0000_0000 == 0x659acb4fecc6c801
        &&& (0x659acb4fecc6c801u64 * 0x659acb4fecc6c801u64) % 0x1_0000_0000_0000_0000 == 0xaa1421b9d5cd9001
    }) by (bit_vector);
    assert({
        &&& (0x5851f42d4c957f2du64 * 0x14057b7ef767814fu64 + 0x14057b7ef767814fu64) % 0x1_0000_0000_0000_0000 == 0x1a08ee1184ba6d32
        &&& (0x685f98a2018fade9u64 * 0x1a08ee1184ba6d32u64 + 0x1a08ee1184ba6d32u64) % 0x1_0000_0000_0000_0000 == 0x66b61ae97f2099b4
        &&& (0xfb4d3ae39272be11u64 * 0x66b61ae97f2099b4u64 + 0x66b61ae97f2099b4u64) % 0x1_0000_0000_0000_0000 == 0x5b21778e3c8666a8
        &&& (0xb59dda5f38413d21u64 * 0x5b21778e3c8666a8u64 + 0x5b21778e3c8666a8u64) % 0x1_0000_0000_0000_0000 == 0x329cb23ce0f7aa50
        &&& (0x8d5e2ddc895abe41u64 * 0x329cb23ce0f7aa50u64 + 0x329cb23ce0f7aa50u64) % 0x1_0000_0000_0000_0000 == 0x0da130a0806148a0
        &&& (0x96481983e5188c81u64 * 0x0da130a0806148a0u64 + 0x0da130a0806148a0u64) % 0x1_0000_0000_0000_0000 == 0x933550ac541e6140
        &&& (0x4425ebbf6f4d5901u64 * 0x933550ac541e6140u64 + 0x933550ac541e6140u64) % 0x1_0000_0000_0000_0000 == 0x5ff552a5384c0280
        &&& (0x8980d00b878bb201u64 * 0x5ff552a5384c0280u64 + 0x5ff552a5384c0280u64) % 0x1_0000_0000_0000_0000 == 0x4113488625d50500
        &&& (0x02078e0dd6db6401u64 * 0x4113488625d50500u64 + 0x4113488625d50500u64) % 0x1_0000_0000_0000_0000 == 0x7074a83cc89e0a00
        &&& (0x659acb4fecc6c801u64 * 0x7074a83cc89e0a00u64 + 0x7074a83cc89e0a00u64) % 0x1_0000_0000_0000_0000 == 0x6b00bea8c50c1400
    }) by (bit_vector);
}

/// What 1, 2, 4, ... 1024 steps of the generator amount to.
proof fn lemma_powers_of_two_steps()
    ensures
        advances(1, 0x5851f42d4c957f2d, 0x14057b7ef767814f),
        advances(2, 0x685f98a2018fade9, 0x1a08ee1184ba6d32),
        advances(4, 0xfb4d3ae39272be11, 0x66b61ae97f2099b4),
        advances(8, 0xb59dda5f38413d21, 0x5b21778e3c8666a8),
        advances(16, 0x8d5e2ddc895abe41, 0x329cb23ce0f7aa50),
        advances(32, 0x96481983e5188c81, 0x0da130a0806148a0),
        advances(64, 0x4425ebbf6f4d5901, 0x933550ac541e6140),
        advances(128, 0x8980d00b878bb201, 0x5ff552a5384c0280),
        advances(256, 0x02078e0dd6db6401, 0x4113488625d50500),
        advances(512, 0x659acb4fecc6c801, 0x7074a83cc89e0a00),
        advances(1024, 0xaa1421b9d5cd9001, 0x6b00bea8c50c1400),
{
    lemma_doubled_maps();
    lemma_one_step_advances();
    lemma_twice_as_far(1, 0x5851f42d4c957f2d, 0x14057b7ef767814f);
    lemma_twice_as_far(2, 0x685f98a2018fade9, 0x1a08ee1184ba6d32);
    lemma_twice_as_far(4, 0xfb4d3ae39272be11, 0x66b61ae97f2099b4);
    lemma_twice_as_far(8, 0xb59dda5f38413d21, 0x5b21778e3c8666a8);
    lemma_twice_as_far(16, 0x8d5e2ddc895abe41, 0x329cb23ce0f7aa50);
    lemma_twice_as_far(32, 0x96481983e5188c81, 0x0da130a0806148a0);
    lemma_twice_as_far(64, 0x4425ebbf6f4d5901, 0x933550ac541e6140);
    lemma_twice_as_far(128, 0x8980d00b878bb201, 0x5ff552a5384c0280);
    lemma_twice_as_far(256, 0x02078e0dd6db6401, 0x4113488625d50500);
    lemma_twice_as_far(512, 0x659acb4fecc6c801, 0x7074a83cc89e0a00);
}

/// In each of the maps of `lemma_powers_of_two_steps`, the factor is 1 and
/// the summand is the number of steps, in the bits up to that of the number
/// of steps.
proof fn lemma_low_bits_of_maps()
    ensures
        0x5851f42d4c957f2dint % 2 == 1,
        0x14057b7ef767814fint % 2 == 1,
        0x685f98a2018fade9int % 4 == 1,
        0x1a08ee1184ba6d32int % 4 == 2,
        0xfb4d3ae39272be11int % 8 == 1,
        0x66b61ae97f2099b4int % 8 == 4,
        0xb59dda5f38413d21int % 16 == 1,
        0x5b21778e3c8666a8int % 16 == 8,
        0x8d5e2ddc895abe41int % 32 == 1,
        0x329cb23ce0f7aa50int % 32 == 16,
        0x96481983e5188c81int % 64 == 1,
        0x0da130a0806148a0int % 64 == 32,
        0x4425ebbf6f4d5901int % 128 == 1,
        0x933550ac541e6140int % 128 == 64,
        0x8980d00b878bb201int % 256 == 1,
        0x5ff552a5384c0280int % 256 == 128,
        0x02078e0dd6db6401int % 512 == 1,
        0x4113488625d50500int % 512 == 256,
        0x659acb4fecc6c801int % 1024 == 1,
        0x7074a83cc89e0a00int % 1024 == 512,
        0xaa1421b9d5cd9001int % 2048 == 1,
        0x6b00bea8c50c1400int % 2048 == 1024,
{
    assert({
        &&& 0x5851f42d4c957f2du64 % 2 == 1
        &&& 0x685f98a2018fade9u64 % 4 == 1
        &&& 0xfb4d3ae39272be11u64 % 8 == 1
        &&& 0xb59dda5f38413d21u64 % 16 == 1
        &&& 0x8d5e2ddc895abe41u64 % 32 == 1
        &&& 0x96481983e5188c81u64 % 64 == 1
        &&& 0x4425ebbf6f4d5901u64 % 128 == 1
        &&& 0x8980d00b878bb201u64 % 256 == 1
        &&& 0x02078e0dd6db6401u64 % 512 == 1
        &&& 0x659acb4fecc6c801u64 % 1024 == 1
        &&& 0xaa1421b9d5cd9001u64 % 2048 == 1
    }) by (bit_vector);
    assert({
        &&& 0x14057b7ef767814fu64 % 2 == 1
        &&& 0x1a08ee1184ba6d32u64 % 4 == 2
        &&& 0x66b61ae97f2099b4u64 % 8 == 4
        &&& 0x5b21778e3c8666a8u64 % 16 == 8
        &&& 0x329cb23ce0f7aa50u64 % 32 == 16
        &&& 0x0da130a0806148a0u64 % 64 == 32
        &&& 0x933550ac541e6140u64 % 128 == 64
        &&& 0x5ff552a5384c0280u64 % 256 == 128
        &&& 0x4113488625d50500u64 % 512 == 256
        &&& 0x7074a83cc89e0a00u64 % 1024 == 512
        &&& 0x6b00bea8c50c1400u64 % 2048 == 1024
    }) by (bit_vector);
}

/// A state differs from the state `d` steps on, where `d` is an odd multiple
/// of `n` and `n` steps flip the bit of `n`.
proof fn lemma_differs_after(n: nat, a: int, c: int, i: nat, d: nat, m: nat)
    requires
        n >= 1,
        advances(n, a, c),
        word() % (2 * n as int) == 0,
        a % (2 * n as int) == 1,
        c % (2 * n as int) == n,
        m % 2 == 1,
        d == m * n,
    ensures
        lcg_state(i + d) != lcg_state(i),
{
    lemma_differs_after_odd_multiple(n, a, c, i, m);
}

/// A state differs from the state an odd multiple of 1 steps on.
proof fn lemma_differs_by_odd_multiple_of_1(i: nat, d: nat)
    requires
        d % 2 == 1,
    ensures
        lcg_state(i + d) != lcg_state(i),
{
    lemma_powers_of_two_steps();
    lemma_low_bits_of_maps();
    lemma_differs_after(1, 0x5851f42d4c957f2d, 0x14057b7ef767814f, i, d, d / 1);
}

/// A state differs from the state an odd multiple of 2 steps on.
proof fn lemma_differs_by_odd_multiple_of_2(i: nat, d: nat)
    requires
        d % 4 == 2,
    ensures
        lcg_state(i + d) != lcg_state(i),
{
    lemma_powers_of_two_steps();
    lemma_low_bits_of_maps();
    lemma_differs_after(2, 0x685f98a2018fade9, 0x1a08ee1184ba6d32, i, d, d / 2);
}

/// A state differs from the state an odd multiple of 4 steps on.
proof fn lemma_differs_by_odd_multiple_of_4(i: nat, d: nat)
    requires
        d % 8 == 4,
    ensures
        lcg_state(i + d) != lcg_state(i),
{
    lemma_powers_of_two_steps();
    lemma_low_bits_of_maps();
    lemma_differs_after(4, 0xfb4d3ae39272be11, 0x66b61ae97f2099b4, i, d, d / 4);
}

/// A state differs from the state an odd multiple of 8 steps on.
proof fn lemma_differs_by_odd_multiple_of_8(i: nat, d: nat)
    requires
        d % 16 == 8,
    ensures
        lcg_state(i + d) != lcg_state(i),
{
    lemma_powers_of_two_steps();
    lemma_low_bits_of_maps();
    lemma_differs_after(8, 0xb59dda5f38413d21, 0x5b21778e3c8666a8, i, d, d / 8);
}

/// A state differs from the state an odd multiple of 16 steps on.
proof fn lemma_differs_by_odd_multiple_of_16(i: nat, d: nat)
    requires
        d % 32 == 16,
    ensures
        lcg_state(i + d) != lcg_state(i),
{
    lemma_powers_of_two_steps();
    lemma_low_bits_of_maps();
    lemma_differs_after(16, 0x8d5e2ddc895abe41, 0x329cb23ce0f7aa50, i, d, d / 16);
}

/// A state differs from the state an odd multiple of 32 steps on.
proof fn lemma_differs_by_odd_multiple_of_32(i: nat, d: nat)
    requires
        d % 64 == 32,
    ensures
        lcg_state(i + d) != lcg_state(i),
{
    lemma_powers_of_two_steps();
    lemma_low_bits_of_maps();
    lemma_differs_after(32, 0x96481983e5188c81, 0x0da130a0806148a0, i, d, d / 32);
}

/// A state differs from the state an odd multiple of 64 steps on.
proof fn lemma_differs_by_odd_multiple_of_64(i: nat, d: nat)
    requires
        d % 128 == 64,
    ensures
        lcg_state(i + d) != lcg_state(i),
{
    lemma_powers_of_two_steps();
    lemma_low_bits_of_maps();
    lemma_differs_after(64, 0x4425ebbf6f4d5901, 0x933550ac541e6140, i, d, d / 64);
}

/// A state differs from the state an odd multiple of 128 steps on.
proof fn lemma_differs_by_odd_multiple_of_128(i: nat, d: nat)
    requires
        d % 256 == 128,
    ensures
        lcg_state(i + d) != lcg_state(i),
{
    lemma_powers_of_two_steps();
    lemma_low_bits_of_maps();
    lemma_differs_after(128, 0x8980d00b878bb201, 0x5ff552a5384c0280, i, d, d / 128);
}

/// A state differs from the state an odd multiple of 256 steps on.
proof fn lemma_differs_by_odd_multiple_of_256(i: nat, d: nat)
    requires
        d % 512 == 256,
    ensures
        lcg_state(i + d) != lcg_state(i),
{
    lemma_powers_of_two_steps();
    lemma_low_bits_of_maps();
    lemma_differs_after(256, 0x02078e0dd6db6401, 0x4113488625d50500, i, d, d / 256);
}

/// A state differs from the state an odd multiple of 512 steps on.
proof fn lemma_differs_by_odd_multiple_of_512(i: nat, d: nat)
    requires
        d % 1024 == 512,
    ensures
        lcg_state(i + d) != lcg_state(i),
{
    lemma_powers_of_two_steps();
    lemma_low_bits_of_maps();
    lemma_differs_after(512, 0x659acb4fecc6c801, 0x7074a83cc89e0a00, i, d, d / 512);
}

/// A state differs from the state an odd multiple of 1024 steps on.
proof fn lemma_differs_by_odd_multiple_of_1024(i: nat, d: nat)
    requires
        d % 2048 == 1024,
    ensures
        lcg_state(i + d) != lcg_state(i),
{
    lemma_powers_of_two_steps();
    lemma_low_bits_of_maps();
    lemma_differs_after(1024, 0xaa1421b9d5cd9001, 0x6b00bea8c50c1400, i, d, d / 1024);
}

/// Two states of the generator less than 2048 steps apart differ.
pub proof fn lemma_states_differ(i: nat, j: nat)
    requires
        i < j < i + 2048,
    ensures
        lcg_state(i) != lcg_state(j),
{
    // The number of steps between the two is an odd multiple of a power of two.
    let d = (j - i) as nat;
    let q0 = d;
    if q0 % 2 == 1 {
        assert(d % 2 == 1);
        lemma_differs_by_odd_multiple_of_1(i, d);
    } else {
        let q1 = d / 2;
        assert(d == 2 * q1);
        if q1 % 2 == 1 {
            assert(d % 4 == 2);
            lemma_differs_by_odd_multiple_of_2(i, d);
        } else {
            let q2 = d / 4;
            assert(d == 4 * q2);
            if q2 % 2 == 1 {
                assert(d % 8 == 4);
                lemma_differs_by_odd_multiple_of_4(i, d);
            } else {
                let q3 = d / 8;
                assert(d == 8 * q3);
                if q3 % 2 == 1 {
                    assert(d % 16 == 8);
                    lemma_differs_by_odd_multiple_of_8(i, d);
                } else {
                    let q4 = d / 16;
                    assert(d == 16 * q4);
                    if q4 % 2 == 1 {
                        assert(d % 32 == 16);
                        lemma_differs_by_odd_multiple_of_16(i, d);
                    } else {
                        let q5 = d / 32;
                        assert(d == 32 * q5);
                        if q5 % 2 == 1 {
                            assert(d % 64 == 32);
                            lemma_differs_by_odd_multiple_of_32(i, d);
                        } else {
                            let q6 = d / 64;
                            assert(d == 64 * q6);
                            if q6 % 2 == 1 {
                                assert(d % 128 == 64);
                                lemma_differs_by_odd_multiple_of_64(i, d);
                            } else {
                                let q7 = d / 128;
                                assert(d == 128 * q7);
                                if q7 % 2 == 1 {
                                    assert(d % 256 == 128);
                                    lemma_differs_by_odd_multiple_of_128(i, d);
                                } else {
                                    let q8 = d / 256;
                                    assert(d == 256 * q8);
                                    if q8 % 2 == 1 {
                                        assert(d % 512 == 256);
                                        lemma_differs_by_odd_multiple_of_256(i, d);
                                    } else {
                                        let q9 = d / 512;
                                        assert(d == 512 * q9);
                                        if q9 % 2 == 1 {
                                            assert(d % 1024 == 512);
                                            lemma_differs_by_odd_multiple_of_512(i, d);
                                        } else {
                                            let q10 = d / 1024;
                                            assert(d == 1024 * q10);
                                            assert(q10 == 1);
                                            lemma_differs_by_odd_multiple_of_1024(i, d);
                                        }
                                    }
                                }
                            }
                        }
                    }
                }
            }
        }
    }
}

/// Whether the three parts of a piece key's place are in range.
pub open spec fn key_place(player_idx: int, kind_idx: int, square: int) -> bool {
    0 <= player_idx < 2 && 0 <= kind_idx < 11 && 0 <= square < 81
}

/// Keys of different players, kinds with different key indices, or different
/// squares differ.
pub proof fn lemma_piece_keys_differ(p1: int, k1: int, s1: int, p2: int, k2: int, s2: int)
    requires
        key_place(p1, k1, s1),
        key_place(p2, k2, s2),
        p1 != p2 || k1 != k2 || s1 != s2,
    ensures
        piece_key(p1, k1, s1) != piece_key(p2, k2, s2),
{
    let a = key_slot(p1, k1, s1);
    let b = key_slot(p2, k2, s2);
    assert(0 <= a < PIECE_KEYS && 0 <= b < PIECE_KEYS);
    assert(a != b);
    if a < b {
        lemma_states_differ((a + 1) as nat, (b + 1) as nat);
    } else {
        lemma_states_differ((b + 1) as nat, (a + 1) as nat);
    }
}

/// The keys of the two sides to move differ, and each differs from every
/// piece key.
pub proof fn lemma_player_keys_differ(p: int, k: int, s: int)
    requires
        key_place(p, k, s),
    ensures
        player_key(0) != player_key(1),
        player_key(0) != piece_key(p, k, s),
        player_key(1) != piece_key(p, k, s),
{
    let a = key_slot(p, k, s);
    lemma_states_differ((PIECE_KEYS + 1) as nat, (PIECE_KEYS + 2) as nat);
    lemma_states_differ((a + 1) as nat, (PIECE_KEYS + 1) as nat);
    lemma_states_differ((a + 1) as nat, (PIECE_KEYS + 2) as nat);
}

/// Replacing a piece on a square of the 9x9 board by a piece of the other
/// player, or of a kind with another key index, changes the hash.
pub proof fn lemma_changing_a_piece_changes_the_hash(b: BoardView, pos: Position, piece: Piece)
    requires
        b.in_bounds(pos),
        pos.row < 9,
        pos.col < 9,
        b.at(pos) is Some,
        valid_player(b.at(pos).unwrap().player),
        valid_player(piece.player),
        b.at(pos).unwrap().player != piece.player || kind_index(b.at(pos).unwrap().piece_type)
            != kind_index(piece.piece_type),
    ensures
        position_hash(b.with_cell(pos, Some(piece))) != position_hash(b),
{
    let before = b.at(pos).unwrap();
    let square = pos.row * 9 + pos.col;
    lemma_hash_after_replacing(b, pos, Some(piece));
    lemma_piece_keys_differ(
        before.player - 1,
        kind_index(before.piece_type),
        square,
        piece.player - 1,
        kind_index(piece.piece_type),
        square,
    );
    assert(cell_key(b.at(pos), pos.row as int, pos.col as int) == piece_key(
        before.player - 1,
        kind_index(before.piece_type),
        square,
    ));
}

/// Passing the turn and changing nothing else changes the hash.
pub proof fn lemma_changing_the_turn_changes_the_hash(b: BoardView)
    requires
        valid_player(b.current_player),
    ensures
        position_hash(BoardView { current_player: (3 - b.current_player) as u8, ..b })
            != position_hash(b),
{
    lemma_states_differ((PIECE_KEYS + 1) as nat, (PIECE_KEYS + 2) as nat);
    let g = crate::zobrist::grid_hash(b.cells, b.cells.len() as int);
    let k0 = player_key(0);
    let k1 = player_key(1);
    assert(k0 != k1 ==> g ^ k0 != g ^ k1) by (bit_vector);
}

} // verus!
