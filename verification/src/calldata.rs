//! The on-chain swap call encoder: selector plus ABI-encoded arguments.

use crate::events::{be_val, pow256, word_at};
use crate::pool::{Address, UniswapV3Pool};
use crate::u256::U256;
use vstd::arithmetic::div_mod::{lemma_div_denominator, lemma_fundamental_div_mod, lemma_mod_bound};
use vstd::prelude::*;

verus! {

/// Appends the 16 big-endian bytes of `v`.
fn push_u128_be(out: &mut Vec<u8>, v: u128)
    requires
        old(out)@.len() + 16 <= usize::MAX,
    ensures
        final(out)@.len() == old(out)@.len() + 16,
        final(out)@.subrange(0, old(out)@.len() as int) == old(out)@,
        be_val(final(out)@.subrange(old(out)@.len() as int, final(out)@.len() as int)) == v,
{
    let ghost base = out@.len() as int;
    let mut p: u128 = 0x1000000000000000000000000000000;
    let mut j: usize = 0;
    proof {
        assert(pow256(15) == 0x1000000000000000000000000000000nat && pow256(16)
            == 0x100000000000000000000000000000000nat) by {
            reveal_with_fuel(pow256, 17);
        }
        assert(out@.subrange(base, base + 0) =~= Seq::<u8>::empty());
        vstd::arithmetic::div_mod::lemma_basic_div(v as int, pow256(16) as int);
    }
    while j < 16
        invariant
            0 <= base,
            j <= 16,
            out@.len() == base + j,
            base + 16 <= usize::MAX,
            out@.subrange(0, base) == old(out)@,
            j < 16 ==> p == pow256((15 - j) as nat),
            be_val(out@.subrange(base, base + j)) == v as nat / pow256((16 - j) as nat),
        decreases 16 - j,
    {
        proof {
            assert(pow256((16 - j) as nat) == 256 * pow256((15 - j) as nat));
            assert(p > 0) by {
                lemma_pow256_pos((15 - j) as nat);
            }
        }
        let b: u8 = ((v / p) % 256) as u8;
        let ghost prev = out@;
        out.push(b);
        proof {
            let d = pow256((15 - j) as nat) as int;
            lemma_div_denominator(v as int, d, 256);
            lemma_fundamental_div_mod((v as int) / d, 256);
            lemma_mod_bound((v as int) / d, 256);
            assert(out@.subrange(base, base + j) =~= prev.subrange(base, base + j));
            assert(out@.subrange(0, base) =~= prev.subrange(0, base));
            assert(out@.subrange(base, base + j + 1).drop_last() =~= out@.subrange(base, base + j));
            assert(out@.subrange(base, base + j + 1).last() == b);
        }
        if j < 15 {
            p = p / 256;
            proof {
                lemma_pow256_div((15 - j) as nat);
            }
        }
        j = j + 1;
    }
    proof {
        assert(out@.subrange(base, base + 16) =~= out@.subrange(base, out@.len() as int));
        assert(pow256(0) == 1) by {
            reveal_with_fuel(pow256, 1);
        }
        assert(v as nat / 1nat == v as nat) by (nonlinear_arith);
    }
}

/// Powers of 256 are positive.
proof fn lemma_pow256_pos(n: nat)
    ensures
        pow256(n) >= 1,
    decreases n,
{
    if n > 0 {
        lemma_pow256_pos((n - 1) as nat);
        assert(256 * pow256((n - 1) as nat) >= pow256((n - 1) as nat)) by (nonlinear_arith)
            requires
                pow256((n - 1) as nat) >= 1,
        ;
    }
}

/// Dividing a positive power of 256 by the base steps the exponent down.
proof fn lemma_pow256_div(n: nat)
    requires
        n >= 1,
    ensures
        pow256(n) as int / 256 == pow256((n - 1) as nat),
{
    vstd::arithmetic::div_mod::lemma_div_multiples_vanish(pow256((n - 1) as nat) as int, 256);
}

/// Appends the 32 big-endian bytes of `v`.
fn push_word(out: &mut Vec<u8>, v: &U256)
    requires
        old(out)@.len() + 32 <= usize::MAX,
    ensures
        final(out)@.len() == old(out)@.len() + 32,
        final(out)@.subrange(0, old(out)@.len() as int) == old(out)@,
        word_at(final(out)@, old(out)@.len() as int) == *v,
{
    let ghost base = out@.len() as int;
    push_u128_be(out, v.hi);
    push_u128_be(out, v.lo);
    proof {
        assert(out@.subrange(base, base + 16) =~= out@.subrange(0, base + 16).subrange(
            base,
            base + 16,
        ));
        crate::events::lemma_be_val_bound(out@.subrange(base, base + 16));
        crate::events::lemma_be_val_bound(out@.subrange(base + 16, base + 32));
        assert(pow256(16) == 0x100000000000000000000000000000000nat) by {
            reveal_with_fuel(pow256, 17);
        }
    }
}

impl UniswapV3Pool {
    /// The calldata of the on-chain exact swap call: the four-byte
    /// selector, the five argument head words, then the forwarded bytes as
    /// a dynamic tail.
    pub fn swap_calldata(
        &self,
        recipient: Address,
        zero_for_one: bool,
        amount_specified: U256,
        sqrt_price_limit_x_96: U256,
        calldata: Vec<u8>,
    ) -> (r: Vec<u8>)
        requires
            calldata@.len() + 229 <= usize::MAX,
        ensures
            r@.len() == 196 + ((calldata@.len() + 31) / 32) * 32,
            r@[0] == 0x12u8 && r@[1] == 0x8au8 && r@[2] == 0xcbu8 && r@[3] == 0x08u8,
            word_at(r@, 4).as_nat() == recipient.as_nat(),
            word_at(r@, 36).as_nat() == (if zero_for_one {
                1nat
            } else {
                0nat
            }),
            word_at(r@, 68) == amount_specified,
            word_at(r@, 100) == sqrt_price_limit_x_96,
            word_at(r@, 132).as_nat() == 160,
            word_at(r@, 164).as_nat() == calldata@.len(),
            r@.subrange(196, 196 + calldata@.len() as int) == calldata@,
    {
        let mut out: Vec<u8> = Vec::new();
        out.push(0x12u8);
        out.push(0x8au8);
        out.push(0xcbu8);
        out.push(0x08u8);
        let ghost s0 = out@;
        push_word(&mut out, &U256 { hi: recipient.hi as u128, lo: recipient.lo });
        let ghost s1 = out@;
        proof {
            lemma_addr_word(recipient);
        }
        push_word(
            &mut out,
            &(if zero_for_one {
                U256 { hi: 0, lo: 1 }
            } else {
                U256 { hi: 0, lo: 0 }
            }),
        );
        let ghost s2 = out@;
        push_word(&mut out, &amount_specified);
        let ghost s3 = out@;
        push_word(&mut out, &sqrt_price_limit_x_96);
        let ghost s4 = out@;
        push_word(&mut out, &U256 { hi: 0, lo: 160 });
        let ghost s5 = out@;
        push_word(&mut out, &U256 { hi: 0, lo: calldata.len() as u128 });
        let ghost head = out@;
        proof {
            lemma_word_stable(s1, s2, 4);
            lemma_word_stable(s2, s3, 4);
            lemma_word_stable(s2, s3, 36);
            lemma_word_stable(s3, s4, 4);
            lemma_word_stable(s3, s4, 36);
            lemma_word_stable(s3, s4, 68);
            lemma_word_stable(s4, s5, 4);
            lemma_word_stable(s4, s5, 36);
            lemma_word_stable(s4, s5, 68);
            lemma_word_stable(s4, s5, 100);
            lemma_word_stable(s5, head, 4);
            lemma_word_stable(s5, head, 36);
            lemma_word_stable(s5, head, 68);
            lemma_word_stable(s5, head, 100);
            lemma_word_stable(s5, head, 132);
            assert(head.len() == 196);
            assert(s0[0] == 0x12u8 && s0[1] == 0x8au8 && s0[2] == 0xcbu8 && s0[3] == 0x08u8);
            lemma_prefix_index(s0, s1);
            lemma_prefix_index(s1, s2);
            lemma_prefix_index(s2, s3);
            lemma_prefix_index(s3, s4);
            lemma_prefix_index(s4, s5);
            lemma_prefix_index(s5, head);
            assert(head[0] == 0x12u8 && head[1] == 0x8au8 && head[2] == 0xcbu8 && head[3]
                == 0x08u8);
        }
        let mut k: usize = 0;
        while k < calldata.len()
            invariant
                k <= calldata@.len(),
                calldata@.len() + 229 <= usize::MAX,
                out@.len() == 196 + k,
                out@.subrange(0, 196) == head,
                out@.subrange(196, 196 + k as int) == calldata@.subrange(0, k as int),
            decreases calldata@.len() - k,
        {
            let b = calldata[k];
            let ghost prev = out@;
            out.push(b);
            proof {
                assert(out@.subrange(0, 196) =~= prev.subrange(0, 196));
                assert(out@.subrange(196, 196 + k) =~= prev.subrange(196, 196 + k));
                assert(out@.subrange(196, 196 + k + 1) =~= calldata@.subrange(0, k + 1));
            }
            k = k + 1;
        }
        let pad = (32 - (calldata.len() % 32)) % 32;
        let ghost with_data = out@;
        let mut q: usize = 0;
        while q < pad
            invariant
                q <= pad,
                pad < 32,
                with_data.len() + 33 <= usize::MAX,
                out@.len() == with_data.len() + q,
                out@.subrange(0, with_data.len() as int) == with_data,
            decreases pad - q,
        {
            let ghost prev = out@;
            out.push(0u8);
            proof {
                assert(out@.subrange(0, with_data.len() as int) =~= prev.subrange(
                    0,
                    with_data.len() as int,
                ));
            }
            q = q + 1;
        }
        proof {
            lemma_pad_round(calldata@.len() as nat);
            assert(with_data.subrange(0, 196) =~= head.subrange(0, 196));
            assert(with_data.subrange(196, 196 + calldata@.len() as int) =~= calldata@.subrange(
                0,
                calldata@.len() as int,
            ));
            assert(calldata@.subrange(0, calldata@.len() as int) =~= calldata@);
            assert(out@.subrange(0, 196) =~= with_data.subrange(0, 196));
            assert(out@.subrange(196, 196 + calldata@.len() as int) =~= with_data.subrange(
                196,
                196 + calldata@.len() as int,
            ));
            assert(out@.subrange(0, 196) == head.subrange(0, 196));
            assert(head.subrange(0, 196) =~= head);
            assert(out@.subrange(0, 196) == head);
            lemma_word_stable(head, out@, 4);
            lemma_word_stable(head, out@, 36);
            lemma_word_stable(head, out@, 68);
            lemma_word_stable(head, out@, 100);
            lemma_word_stable(head, out@, 132);
            lemma_word_stable(head, out@, 164);
            assert(out@[0] == head[0] && out@[1] == head[1] && out@[2] == head[2] && out@[3]
                == head[3]);
        }
        out
    }
}

/// An address widens to a word without high bits.
proof fn lemma_addr_word(a: Address)
    ensures
        (U256 { hi: a.hi as u128, lo: a.lo }).as_nat() == a.as_nat(),
{
}

/// Padding to the word size realizes the rounded-up length.
proof fn lemma_pad_round(n: nat)
    ensures
        n + ((32 - (n % 32)) % 32) == ((n + 31) / 32) * 32,
{
    lemma_fundamental_div_mod(n as int, 32);
    lemma_mod_bound(n as int, 32);
    let r = n % 32;
    if r == 0 {
        assert(((n + 31) / 32) * 32 == n) by (nonlinear_arith)
            requires
                n == 32 * (n as int / 32),
                n % 32 == 0,
        ;
    } else {
        assert(n + 32 - r == ((n + 31) / 32) * 32) by (nonlinear_arith)
            requires
                n == 32 * (n as int / 32) + r,
                0 < r < 32,
        ;
    }
}

/// A preserved prefix keeps its elements.
proof fn lemma_prefix_index(a: Seq<u8>, b: Seq<u8>)
    requires
        a.len() <= b.len(),
        b.subrange(0, a.len() as int) == a,
    ensures
        forall|i: int| 0 <= i < a.len() ==> a[i] == #[trigger] b[i],
{
    assert forall|i: int| 0 <= i < a.len() implies a[i] == #[trigger] b[i] by {
        assert(b.subrange(0, a.len() as int)[i] == b[i]);
    }
}

/// A word read from a preserved prefix keeps its value.
proof fn lemma_word_stable(a: Seq<u8>, b: Seq<u8>, off: int)
    requires
        0 <= off,
        off + 32 <= a.len(),
        a.len() <= b.len(),
        b.subrange(0, a.len() as int) == a,
    ensures
        word_at(b, off) == word_at(a, off),
{
    assert(b.subrange(off, off + 16) =~= a.subrange(off, off + 16));
    assert(b.subrange(off + 16, off + 32) =~= a.subrange(off + 16, off + 32));
}

} // verus!
