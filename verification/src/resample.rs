//! Mapping of a source zone layout onto a target LED strip: nearest-source
//! index selection (no cross-boundary interpolation) and the physical
//! rotation of a finished frame around the strip.

use vstd::prelude::*;

use vstd::arithmetic::div_mod::{
    lemma_basic_div, lemma_div_by_multiple, lemma_fundamental_div_mod, lemma_hoist_over_denominator,
    lemma_mod_add_multiples_vanish, lemma_mod_division_less_than_divisor, lemma_multiply_divide_lt,
    lemma_small_mod,
};
use vstd::arithmetic::mul::{
    lemma_mul_inequality, lemma_mul_is_commutative, lemma_mul_is_distributive_add_other_way,
    lemma_mul_strict_inequality,
};

verus! {

/// Source zone read by target index `t`: `floor(t * total_src / total_tgt)`,
/// or 0 when there are no target zones.
pub open spec fn src_index_spec(t: int, total_src: int, total_tgt: int) -> int {
    if total_tgt > 0 {
        t * total_src / total_tgt
    } else {
        0
    }
}

/// The resampled frame: `total_tgt` zones of `bpz` bytes each, zone `t`
/// copied from source zone `src_index_spec(t, total_src, total_tgt)`.
pub open spec fn resample_spec(raw: Seq<u8>, total_src: int, total_tgt: int, bpz: int) -> Seq<u8> {
    Seq::new(
        (total_tgt * bpz) as nat,
        |j: int| raw[src_index_spec(j / bpz, total_src, total_tgt) * bpz + j % bpz],
    )
}

/// A frame rotated by `rot` zones: output zone `i` holds the bytes of input
/// zone `(i + rot) % total`. A rotation of zero (or an empty strip) returns
/// the frame unchanged.
pub open spec fn rotate_spec(s: Seq<u8>, rot: int, total: int, bpl: int) -> Seq<u8> {
    if rot == 0 || total == 0 {
        s
    } else {
        Seq::new(s.len(), |j: int| s[((j / bpl + rot) % total) * bpl + j % bpl])
    }
}

/// Nearest-source mapping for one target index.
pub fn source_index(t: usize, total_src: usize, total_tgt: usize) -> (r: usize)
    requires
        t * total_src <= usize::MAX,
    ensures
        r == src_index_spec(t as int, total_src as int, total_tgt as int),
{
    if total_tgt > 0 {
        (t * total_src) / total_tgt
    } else {
        0
    }
}

/// Build the target-resolution frame from a raw source frame.
#[verifier::loop_isolation(false)]
pub fn resample_frame(raw: &[u8], total_src: usize, total_tgt: usize, bpz: usize) -> (out: Vec<u8>)
    requires
        1 <= bpz,
        raw@.len() == total_src * bpz,
        total_tgt > 0 ==> total_src > 0,
        total_tgt * total_src <= usize::MAX,
        total_tgt * bpz <= usize::MAX,
    ensures
        out@ == resample_spec(raw@, total_src as int, total_tgt as int, bpz as int),
        out@.len() == total_tgt * bpz,
{
    let ghost gs = total_src as int;
    let ghost gt = total_tgt as int;
    let ghost gb = bpz as int;
    let raw_len = raw.len();
    let mut out: Vec<u8> = Vec::new();
    let mut t: usize = 0;
    while t < total_tgt
        invariant
            0 <= t <= total_tgt,
            out@.len() == t * bpz,
            forall|j: int|
                0 <= j < out@.len() ==> #[trigger] out@[j] == raw@[src_index_spec(j / gb, gs, gt)
                    * gb + j % gb],
        decreases total_tgt - t,
    {
        proof {
            lemma_mul_inequality(t as int, gt, gs);
            lemma_mul_is_commutative(gt, gs);
        }
        let s = source_index(t, total_src, total_tgt);
        proof {
            // s < total_src, so every byte of source zone s is in range.
            lemma_mul_strict_inequality(t as int, gt, gs);
            lemma_mul_is_commutative(gt, gs);
            lemma_multiply_divide_lt(t as int * gs, gt, gs);
            lemma_mul_inequality(s as int + 1, gs, gb);
            lemma_mul_is_distributive_add_other_way(gb, s as int, 1);
            // t * bpz + bpz stays within the target frame.
            lemma_mul_inequality(t as int + 1, gt, gb);
            lemma_mul_is_distributive_add_other_way(gb, t as int, 1);
        }
        let mut b: usize = 0;
        while b < bpz
            invariant
                0 <= b <= bpz,
                out@.len() == t * bpz + b,
                s == src_index_spec(t as int, gs, gt),
                s * bpz + bpz <= raw_len,
                raw_len == raw@.len(),
                t < total_tgt,
                forall|j: int|
                    0 <= j < out@.len() ==> #[trigger] out@[j] == raw@[src_index_spec(j / gb, gs, gt)
                        * gb + j % gb],
            decreases bpz - b,
        {
            let byte = raw[s * bpz + b];
            out.push(byte);
            proof {
                let j0 = t as int * gb + b as int;
                lemma_hoist_over_denominator(b as int, t as int, bpz as nat);
                lemma_basic_div(b as int, gb);
                lemma_mod_add_multiples_vanish(b as int, gb);
                assert((gb * (t as int) + b as int) % gb == (b as int) % gb) by {
                    lemma_mod_mul_vanish_helper(b as int, t as int, gb);
                }
                lemma_small_mod(b as nat, bpz as nat);
                lemma_mul_is_commutative(t as int, gb);
                assert(j0 / gb == t as int);
                assert(j0 % gb == b as int);
            }
            b = b + 1;
        }
        t = t + 1;
    }
    proof {
        assert(out@ =~= resample_spec(raw@, gs, gt, gb));
    }
    out
}

/// `(m * x + b) % m == b % m`.
proof fn lemma_mod_mul_vanish_helper(b: int, x: int, m: int)
    requires
        0 < m,
    ensures
        (m * x + b) % m == b % m,
{
    vstd::arithmetic::div_mod::lemma_mod_multiples_vanish(x, b, m);
}

/// Resampling to the source resolution is the identity: when
/// `total_tgt == total_src`, every target zone reads its own source zone and
/// the frame passes through unchanged.
pub proof fn lemma_resample_identity(raw: Seq<u8>, s: int, bpz: int)
    requires
        1 <= bpz,
        0 < s,
        raw.len() == s * bpz,
    ensures
        resample_spec(raw, s, s, bpz) == raw,
{
    let out = resample_spec(raw, s, s, bpz);
    assert forall|j: int| 0 <= j < raw.len() implies out[j] == raw[j] by {
        let q = j / bpz;
        let r = j % bpz;
        lemma_fundamental_div_mod(j, bpz);
        lemma_div_by_multiple(q, s);
        assert(src_index_spec(q, s, s) == q * s / s);
        assert(q * s / s == q) by {
            lemma_mul_is_commutative(q, s);
            lemma_div_by_multiple(q, s);
        }
        assert(q * bpz + r == j) by {
            lemma_mul_is_commutative(q, bpz);
        }
    }
    assert(out =~= raw);
}

/// Doubling the resolution maps each pair of consecutive target indices onto
/// one source index: target `t` reads source `t / 2`.
pub proof fn lemma_resample_double(t: int, s: int)
    requires
        0 <= t,
        0 < s,
    ensures
        src_index_spec(t, s, 2 * s) == t / 2,
{
    let q = t / 2;
    let r = t % 2;
    lemma_fundamental_div_mod(t, 2);
    assert(t * s == q * (2 * s) + r * s) by {
        lemma_mul_is_distributive_add_other_way(s, 2 * q, r);
        lemma_mul_is_commutative(2, q);
        vstd::arithmetic::mul::lemma_mul_is_associative(q, 2, s);
    }
    assert((q * (2 * s) + r * s) / (2 * s) == q + r * s / (2 * s)) by {
        lemma_hoist_over_denominator(r * s, q, (2 * s) as nat);
    }
    assert(r * s / (2 * s) == 0) by {
        lemma_mod_division_less_than_divisor(t, 2);
        lemma_mul_inequality(r, 1, s);
        lemma_basic_div(r * s, 2 * s);
    }
}

/// Each source index feeds exactly the two consecutive target indices `2k`
/// and `2k + 1` when the target count is twice the source count.
pub proof fn lemma_resample_double_pair(k: int, s: int)
    requires
        0 <= k,
        0 < s,
    ensures
        src_index_spec(2 * k, s, 2 * s) == k,
        src_index_spec(2 * k + 1, s, 2 * s) == k,
{
    lemma_resample_double(2 * k, s);
    lemma_resample_double(2 * k + 1, s);
}

/// Rotate a finished frame by `rotation_leds` positions: physical LED `i`
/// receives the bytes computed for logical position
/// `(i + rotation_leds) % total_leds`.
#[verifier::loop_isolation(false)]
pub fn rotate_led_frame(
    frame: &[u8],
    rotation_leds: usize,
    total_leds: usize,
    bytes_per_led: usize,
) -> (out: Vec<u8>)
    requires
        rotation_leds > 0 && total_leds > 0 ==> frame@.len() == total_leds * bytes_per_led
            && rotation_leds <= total_leds && bytes_per_led >= 1,
    ensures
        out@ == rotate_spec(
            frame@,
            rotation_leds as int,
            total_leds as int,
            bytes_per_led as int,
        ),
        out@.len() == frame@.len(),
{
    let ghost rot = rotation_leds as int;
    let ghost total = total_leds as int;
    let ghost bpl = bytes_per_led as int;
    if rotation_leds == 0 || total_leds == 0 {
        let mut copy: Vec<u8> = Vec::new();
        let mut i: usize = 0;
        while i < frame.len()
            invariant
                0 <= i <= frame@.len(),
                copy@.len() == i,
                forall|j: int| 0 <= j < i ==> #[trigger] copy@[j] == frame@[j],
            decreases frame@.len() - i,
        {
            let byte = frame[i];
            copy.push(byte);
            i = i + 1;
        }
        proof {
            assert(copy@ =~= frame@);
        }
        return copy;
    }
    let frame_len = frame.len();
    let mut out: Vec<u8> = Vec::new();
    let mut i: usize = 0;
    while i < total_leds
        invariant
            0 <= i <= total_leds,
            frame_len == frame@.len(),
            out@.len() == i * bytes_per_led,
            forall|j: int|
                0 <= j < out@.len() ==> #[trigger] out@[j] == frame@[(j / bpl + rot) % total * bpl
                    + j % bpl],
        decreases total_leds - i,
    {
        // `(i + rotation_leds) % total_leds`, written to stay within `usize`.
        let src_led = if i >= total_leds - rotation_leds {
            i - (total_leds - rotation_leds)
        } else {
            i + rotation_leds
        };
        proof {
            if i >= total - rot {
                lemma_mod_add_multiples_vanish(i + rot - total, total);
                lemma_small_mod((i + rot - total) as nat, total as nat);
            } else {
                lemma_small_mod((i + rot) as nat, total as nat);
            }
            assert(src_led == (i as int + rot) % total);
            lemma_mod_division_less_than_divisor(i as int + rot, total);
            lemma_mul_inequality(src_led as int + 1, total, bpl);
            lemma_mul_is_distributive_add_other_way(bpl, src_led as int, 1);
            lemma_mul_inequality(i as int + 1, total, bpl);
            lemma_mul_is_distributive_add_other_way(bpl, i as int, 1);
        }
        let mut b: usize = 0;
        while b < bytes_per_led
            invariant
                0 <= b <= bytes_per_led,
                out@.len() == i * bytes_per_led + b,
                i < total_leds,
                src_led == (i + rot) % total,
                src_led * bytes_per_led + bytes_per_led <= frame_len,
                frame_len == frame@.len(),
                forall|j: int|
                    0 <= j < out@.len() ==> #[trigger] out@[j] == frame@[(j / bpl + rot) % total
                        * bpl + j % bpl],
            decreases bytes_per_led - b,
        {
            let byte = frame[src_led * bytes_per_led + b];
            out.push(byte);
            proof {
                let j0 = i as int * bpl + b as int;
                lemma_hoist_over_denominator(b as int, i as int, bytes_per_led as nat);
                lemma_basic_div(b as int, bpl);
                lemma_mod_mul_vanish_helper(b as int, i as int, bpl);
                lemma_small_mod(b as nat, bytes_per_led as nat);
                lemma_mul_is_commutative(i as int, bpl);
                assert(j0 / bpl == i as int);
                assert(j0 % bpl == b as int);
            }
            b = b + 1;
        }
        i = i + 1;
    }
    proof {
        assert(out@ =~= rotate_spec(frame@, rot, total, bpl));
    }
    out
}

/// Complementary rotations cancel: rotating by `n` and then by `total - n`
/// reproduces the original frame byte for byte.
pub proof fn lemma_rotate_round_trip(s: Seq<u8>, n: int, total: int, bpl: int)
    requires
        0 <= n <= total,
        1 <= bpl,
        s.len() == total * bpl,
    ensures
        rotate_spec(rotate_spec(s, n, total, bpl), total - n, total, bpl) == s,
{
    if total == 0 {
        return ;
    }
    let inner = rotate_spec(s, n, total, bpl);
    let outer = rotate_spec(inner, total - n, total, bpl);
    assert(inner.len() == s.len());
    assert forall|j: int| 0 <= j < s.len() implies outer[j] == s[j] by {
        let i = j / bpl;
        let b = j % bpl;
        lemma_fundamental_div_mod(j, bpl);
        lemma_mod_division_less_than_divisor(j, bpl);
        assert(i < total) by {
            lemma_mul_is_commutative(total, bpl);
            lemma_multiply_divide_lt(j, bpl, total);
        }
        assert(0 <= i) by {
            vstd::arithmetic::div_mod::lemma_div_pos_is_pos(j, bpl);
        }
        lemma_rotate_index_round_trip(i, n, total);
        if n == 0 {
            // The inner rotation is the identity; the outer rotates by
            // `total`, which maps every index to itself.
            let m = (i + total) % total;
            lemma_mod_add_multiples_vanish(i, total);
            lemma_small_mod(i as nat, total as nat);
            assert(m == i);
            assert(outer[j] == inner[m * bpl + b]) by {
                lemma_mul_is_commutative(i, bpl);
            }
            assert(m * bpl + b == j) by {
                lemma_mul_is_commutative(m, bpl);
            }
        } else if n == total {
            // The outer rotation is the identity; the inner rotates by
            // `total`.
            let m = (i + total) % total;
            lemma_mod_add_multiples_vanish(i, total);
            lemma_small_mod(i as nat, total as nat);
            assert(outer[j] == inner[j]);
            assert(inner[j] == s[m * bpl + b]) by {
                lemma_mul_is_commutative(i, bpl);
            }
            assert(m * bpl + b == j) by {
                lemma_mul_is_commutative(m, bpl);
            }
        } else {
            let m = (i + (total - n)) % total;
            lemma_mod_division_less_than_divisor(i + (total - n), total);
            let k = m * bpl + b;
            assert(0 <= k < total * bpl) by {
                lemma_mul_inequality(m + 1, total, bpl);
                lemma_mul_is_distributive_add_other_way(bpl, m, 1);
                lemma_mul_is_commutative(m, bpl);
                vstd::arithmetic::mul::lemma_mul_nonnegative(m, bpl);
            }
            assert(outer[j] == inner[k]);
            assert(k / bpl == m && k % bpl == b) by {
                lemma_hoist_over_denominator(b, m, bpl as nat);
                lemma_basic_div(b, bpl);
                lemma_mod_mul_vanish_helper(b, m, bpl);
                lemma_small_mod(b as nat, bpl as nat);
                lemma_mul_is_commutative(m, bpl);
            }
            assert(inner[k] == s[(m + n) % total * bpl + b]);
            assert((m + n) % total == i);
            assert(s[(m + n) % total * bpl + b] == s[j]) by {
                lemma_mul_is_commutative(i, bpl);
            }
        }
    }
    assert(outer =~= s);
}

/// Rotating a zone index forward by `total - n` and then by `n` returns to
/// the starting index.
proof fn lemma_rotate_index_round_trip(i: int, n: int, total: int)
    requires
        0 <= i < total,
        0 <= n <= total,
    ensures
        ((i + (total - n)) % total + n) % total == i,
{
    if i >= n {
        assert((i + (total - n)) % total == i - n) by {
            lemma_mod_add_multiples_vanish(i - n, total);
            lemma_small_mod((i - n) as nat, total as nat);
        }
        lemma_small_mod(i as nat, total as nat);
    } else {
        assert((i + (total - n)) % total == i + total - n) by {
            lemma_small_mod((i + total - n) as nat, total as nat);
        }
        assert((i + total) % total == i) by {
            lemma_mod_add_multiples_vanish(i, total);
            lemma_small_mod(i as nat, total as nat);
        }
    }
}

} // verus!
