//! Variable-length integers: seven bits per byte, least significant group
//! first, with the top bit of a byte saying that another byte follows.
use vstd::prelude::*;
use crate::error::BinaryError;
use crate::wire::{rest, rest_slice};

verus! {

/// The most bytes that a variable-length integer takes: enough for 32 bits.
pub const VAR_INT_MAX_BYTES: usize = 5;

/// 128 to the power `n`: one more than the largest value of `n` groups.
pub open spec fn group_cap(n: nat) -> nat
    decreases n,
{
    if n == 0 {
        1
    } else {
        128 * group_cap((n - 1) as nat)
    }
}

/// The shortest encoding of `v`.
pub open spec fn varint_bytes(v: nat) -> Seq<u8>
    decreases v,
{
    if v < 128 {
        seq![v as u8]
    } else {
        seq![(v % 128 + 128) as u8] + varint_bytes(v / 128)
    }
}

/// What the front of `s` decodes to, with the number of bytes read: reading
/// stops after the first byte whose top bit is clear, or once `budget` bytes
/// have been read.
pub open spec fn varint_read(s: Seq<u8>, budget: nat) -> Result<(nat, nat), BinaryError>
    decreases budget,
{
    if s.len() == 0 {
        Err(BinaryError::EndOfInput)
    } else if s[0] < 128 || budget <= 1 {
        Ok(((s[0] % 128) as nat, 1))
    } else {
        match varint_read(s.drop_first(), (budget - 1) as nat) {
            Ok((v, n)) => Ok(((s[0] % 128) as nat + 128 * v, n + 1)),
            Err(e) => Err(e),
        }
    }
}

/// The capacities of the group counts that the codec uses.
pub proof fn lemma_group_caps()
    ensures
        group_cap(1) == 128,
        group_cap(4) == 0x1000_0000,
        group_cap(5) == 0x8_0000_0000,
{
    reveal_with_fuel(group_cap, 6);
}

/// One group or more hold at least seven bits.
proof fn lemma_group_cap_min(n: nat)
    requires
        n >= 1,
    ensures
        group_cap(n) >= 128,
    decreases n,
{
    reveal_with_fuel(group_cap, 2);
    if n > 1 {
        lemma_group_cap_min((n - 1) as nat);
    }
}

/// Reading the encoding of a value that fits the budget gives it back and
/// consumes the whole encoding, whatever follows.
pub proof fn lemma_varint_round_trip(v: nat, budget: nat, tail: Seq<u8>)
    requires
        budget >= 1,
        v < group_cap(budget),
    ensures
        1 <= varint_bytes(v).len() <= budget,
        varint_read(varint_bytes(v) + tail, budget) == Ok::<(nat, nat), BinaryError>(
            (v, varint_bytes(v).len()),
        ),
    decreases v,
{
    let s = varint_bytes(v) + tail;
    reveal_with_fuel(group_cap, 2);
    if v < 128 {
        assert(s[0] == v as u8);
    } else {
        let c = group_cap((budget - 1) as nat);
        if budget == 1 {
            assert(group_cap(0) == 1);
        }
        assert(v / 128 < c) by (nonlinear_arith)
            requires
                v < 128 * c,
        ;
        lemma_varint_round_trip(v / 128, (budget - 1) as nat, tail);
        assert(s.drop_first() =~= varint_bytes(v / 128) + tail);
        assert(v % 128 + 128 * (v / 128) == v) by (nonlinear_arith);
    }
}

/// A decode takes between one byte and the budget, and its value fits it.
pub proof fn lemma_varint_read_bound(s: Seq<u8>, budget: nat)
    requires
        budget >= 1,
    ensures
        varint_read(s, budget) matches Ok((v, n)) ==> 1 <= n <= budget && n <= s.len() && v
            < group_cap(budget),
    decreases budget,
{
    reveal_with_fuel(group_cap, 2);
    lemma_group_cap_min(budget);
    if s.len() > 0 && !(s[0] < 128 || budget <= 1) {
        lemma_varint_read_bound(s.drop_first(), (budget - 1) as nat);
        if let Ok((v, n)) = varint_read(s.drop_first(), (budget - 1) as nat) {
            let c = group_cap((budget - 1) as nat);
            let b = (s[0] % 128) as nat;
            assert(b + 128 * v < 128 * c) by (nonlinear_arith)
                requires
                    v < c,
                    b < 128,
            ;
        }
    }
}

/// The encoding of `v`, at most five bytes.
pub fn var_int_bytes(v: u32) -> (r: Vec<u8>)
    ensures
        r@ == varint_bytes(v as nat),
        1 <= r@.len() <= VAR_INT_MAX_BYTES,
{
    proof {
        lemma_group_caps();
        lemma_varint_round_trip(v as nat, 5, Seq::empty());
    }
    let mut out: Vec<u8> = Vec::new();
    let mut cur: u32 = v;
    while cur >= 128
        invariant
            out@ + varint_bytes(cur as nat) == varint_bytes(v as nat),
        decreases cur,
    {
        let b = (cur % 128 + 128) as u8;
        assert(varint_bytes(cur as nat) == seq![b] + varint_bytes((cur / 128) as nat));
        assert(out@.push(b) + varint_bytes((cur / 128) as nat) =~= out@ + (seq![b]
            + varint_bytes((cur / 128) as nat)));
        out.push(b);
        cur = cur / 128;
    }
    assert(out@.push(cur as u8) =~= out@ + varint_bytes(cur as nat));
    out.push(cur as u8);
    out
}

/// Reads at most `budget` bytes of a variable-length integer at `at`.
fn read_var(s: &[u8], at: usize, budget: usize) -> (r: Result<(u64, usize), BinaryError>)
    requires
        1 <= budget <= VAR_INT_MAX_BYTES,
        at <= s@.len(),
    ensures
        match varint_read(s@.subrange(at as int, s@.len() as int), budget as nat) {
            Ok((v, n)) => r == Ok::<(u64, usize), BinaryError>((v as u64, n as usize)),
            Err(e) => r == Err::<(u64, usize), BinaryError>(e),
        },
    decreases budget,
{
    let ghost tail = s@.subrange(at as int, s@.len() as int);
    proof {
        lemma_group_caps();
        lemma_varint_read_bound(tail, budget as nat);
    }
    if at >= s.len() {
        return Err(BinaryError::EndOfInput);
    }
    let b = s[at];
    if b < 128 || budget <= 1 {
        return Ok(((b % 128) as u64, 1));
    }
    assert(tail.drop_first() =~= s@.subrange(at + 1, s@.len() as int));
    match read_var(s, at + 1, budget - 1) {
        Ok((v, n)) => {
            proof {
                lemma_varint_read_bound(tail.drop_first(), (budget - 1) as nat);
                assert(group_cap((budget - 1) as nat) <= group_cap(4)) by {
                    reveal_with_fuel(group_cap, 6);
                }
            }
            Ok(((b % 128) as u64 + 128 * v, n + 1))
        },
        Err(e) => Err(e),
    }
}

/// Reads a variable-length integer at the cursor and moves the cursor past
/// it; on an error the cursor stays.
pub fn compose_var_int(source: &[u8], position: &mut usize) -> (r: Result<u64, BinaryError>)
    ensures
        match varint_read(rest(source@, *old(position) as int), VAR_INT_MAX_BYTES as nat) {
            Ok((v, n)) => r == Ok::<u64, BinaryError>(v as u64) && *final(position) == *old(
                position,
            ) + n,
            Err(e) => r == Err::<u64, BinaryError>(e) && *final(position) == *old(position),
        },
{
    let s = rest_slice(source, *position);
    assert(s@.subrange(0, s@.len() as int) =~= s@);
    proof {
        lemma_varint_read_bound(s@, VAR_INT_MAX_BYTES as nat);
    }
    match read_var(s, 0, VAR_INT_MAX_BYTES) {
        Ok((v, n)) => {
            let len = source.len();
            assert(*position + s@.len() == len);
            *position = *position + n;
            Ok(v)
        },
        Err(e) => Err(e),
    }
}

} // verus!
