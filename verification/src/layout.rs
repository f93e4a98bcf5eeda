//! Offset arithmetic of bump allocation: rounding a cursor up to an
//! alignment and computing where a run of elements ends.

use vstd::prelude::*;

verus! {

/// The smallest multiple of `align` that is not below `offset`.
pub open spec fn round_up(offset: nat, align: nat) -> nat
    recommends
        align > 0,
{
    if offset % align == 0 {
        offset
    } else {
        (offset + align - offset % align) as nat
    }
}

/// Where a run of `count` elements of `size` bytes ends when it is placed at
/// the first `align`-aligned offset at or after `offset`.
pub open spec fn span_end(offset: nat, align: nat, size: nat, count: nat) -> nat
    recommends
        align > 0,
{
    round_up(offset, align) + count * size
}

/// `round_up` returns a multiple of `align`, at or after `offset`, and less
/// than one alignment step away from it.
pub proof fn lemma_round_up_bounds(offset: nat, align: nat)
    requires
        align > 0,
    ensures
        offset <= round_up(offset, align) < offset + align,
        round_up(offset, align) % align == 0,
{
    let r = offset % align;
    if r != 0 {
        let q = offset / align;
        assert(offset == align * q + r) by {
            vstd::arithmetic::div_mod::lemma_fundamental_div_mod(offset as int, align as int);
        }
        assert(round_up(offset, align) == align * (q + 1)) by (nonlinear_arith)
            requires
                round_up(offset, align) == offset + align - r,
                offset == align * q + r,
        ;
        assert((align * (q + 1)) % align == 0) by {
            vstd::arithmetic::div_mod::lemma_mod_multiples_basic((q + 1) as int, align as int);
            vstd::arithmetic::mul::lemma_mul_is_commutative(align as int, (q + 1) as int);
        }
    }
}

/// No multiple of `align` lies between `offset` and `round_up(offset, align)`.
pub proof fn lemma_round_up_least(offset: nat, align: nat, m: nat)
    requires
        align > 0,
        offset <= m,
        m % align == 0,
    ensures
        round_up(offset, align) <= m,
{
    lemma_round_up_bounds(offset, align);
    let r = round_up(offset, align);
    if m < r {
        // two multiples of `align` less than `align` apart are equal
        assert(r - m < align);
        assert(r % align == 0);
        vstd::arithmetic::div_mod::lemma_fundamental_div_mod(r as int, align as int);
        vstd::arithmetic::div_mod::lemma_fundamental_div_mod(m as int, align as int);
        let qr = r as int / align as int;
        let qm = m as int / align as int;
        assert(r - m == align * (qr - qm)) by (nonlinear_arith)
            requires
                r == align * qr,
                m == align * qm,
        ;
        assert(qr - qm >= 1) by (nonlinear_arith)
            requires
                r - m == align * (qr - qm),
                r - m > 0,
                align > 0,
        ;
        assert(align * (qr - qm) >= align) by (nonlinear_arith)
            requires
                qr - qm >= 1,
                align > 0,
        ;
    }
}

/// Rounds `offset` up to a multiple of `align`, or reports that the result
/// does not fit in a `usize`.
pub fn align_up(offset: usize, align: usize) -> (aligned: Option<usize>)
    requires
        align > 0,
    ensures
        match aligned {
            Some(a) => a == round_up(offset as nat, align as nat),
            None => round_up(offset as nat, align as nat) > usize::MAX,
        },
{
    let rem = offset % align;
    if rem == 0 {
        Some(offset)
    } else {
        offset.checked_add(align - rem)
    }
}

/// Computes where a run of `count` elements of `size` bytes starts and ends
/// when bumped from `offset`, or reports that the end does not fit in a
/// `usize`.
pub fn span(offset: usize, align: usize, size: usize, count: usize) -> (range: Option<
    (usize, usize),
>)
    requires
        align > 0,
    ensures
        match range {
            Some((start, end)) => {
                &&& start == round_up(offset as nat, align as nat)
                &&& end == span_end(offset as nat, align as nat, size as nat, count as nat)
            },
            None => span_end(offset as nat, align as nat, size as nat, count as nat) > usize::MAX,
        },
{
    proof {
        lemma_round_up_bounds(offset as nat, align as nat);
        assert(count as nat * size as nat >= 0) by (nonlinear_arith);
    }
    let start = match align_up(offset, align) {
        Some(start) => start,
        None => {
            return None;
        },
    };
    let bytes = match count.checked_mul(size) {
        Some(bytes) => bytes,
        None => {
            return None;
        },
    };
    match start.checked_add(bytes) {
        Some(end) => Some((start, end)),
        None => None,
    }
}

} // verus!
