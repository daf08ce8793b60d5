//! Laws of the sponge and of the hash.

use vstd::prelude::*;
use vstd::arithmetic::div_mod::{lemma_add_mod_noop, lemma_div_pos_is_pos, lemma_fundamental_div_mod,
    lemma_mod_add_multiples_vanish, lemma_mod_bound, lemma_mod_multiples_basic, lemma_mod_self_0,
    lemma_mod_twice, lemma_small_mod};
use crate::field::in_range;
use crate::permutation::Instance;
use crate::primes::{lemma_difference_is_not_zero, lemma_equal_residues};
use crate::sponge::{Phase, SpongeModel, ones, padded, padding_len};

verus! {

/// Padding ends on a block, and ones that come before its end are part of it.
proof fn lemma_padding_len(rate: nat, len: nat, k: nat)
    requires
        rate > 0,
        k <= padding_len(rate, len),
    ensures
        padding_len(rate, len + k) == padding_len(rate, len) - k,
        (len + padding_len(rate, len)) % rate == 0,
{
    let r = (len % rate) as int;
    let n = rate as int;
    lemma_mod_bound(len as int, n);
    if r == 0 {
    } else if k == rate - r {
        lemma_add_mod_noop(len as int, k as int, n);
        lemma_mod_self_0(n);
        if k == rate {
        } else {
            lemma_small_mod(k, rate);
        }
    } else {
        lemma_small_mod(k, rate);
        lemma_add_mod_noop(len as int, k as int, n);
        lemma_small_mod((r + k) as nat, rate);
        let q = (rate - r) as nat;
        lemma_small_mod(q, rate);
        lemma_add_mod_noop(len as int, q as int, n);
        lemma_mod_self_0(n);
    }
}

/// Ones at the end of an input are not told apart from padding: an input hashes as it does with
/// any number of ones appended that the padding of its last block has room for.
pub proof fn law_trailing_ones_are_padding(m: Instance, input: Seq<int>, k: nat)
    requires
        m.rate > 0,
        k <= padding_len(m.rate, input.len()),
    ensures
        m.hash(input + ones(k as int)) == m.hash(input),
{
    lemma_padding_len(m.rate, input.len(), k);
    assert(padded(m.rate, input + ones(k as int)) =~= padded(m.rate, input));
}

/// Absorbing one sequence of values after the other is absorbing both in one go.
proof fn lemma_absorb_each_append(m: Instance, sponge: SpongeModel, a: Seq<int>, b: Seq<int>)
    ensures
        m.absorb_each(m.absorb_each(sponge, a), b) == m.absorb_each(sponge, a + b),
    decreases b.len(),
{
    if b.len() == 0 {
        assert(a + b =~= a);
    } else {
        lemma_absorb_each_append(m, sponge, a, b.drop_last());
        assert((a + b).drop_last() =~= a + b.drop_last());
        assert((a + b).last() == b.last());
    }
}

/// An input may be absorbed in pieces: cutting it at the end of a block makes no difference.
pub proof fn law_absorbing_in_pieces(m: Instance, sponge: SpongeModel, a: Seq<int>, b: Seq<int>)
    requires
        m.rate > 0,
        a.len() % m.rate == 0,
    ensures
        m.absorb_all(m.absorb_all(sponge, a), b) == m.absorb_all(sponge, a + b),
{
    lemma_add_mod_noop(a.len() as int, b.len() as int, m.rate as int);
    lemma_mod_twice(b.len() as int, m.rate as int);
    assert(padded(m.rate, a) =~= a);
    assert(padded(m.rate, a + b) =~= a + padded(m.rate, b));
    lemma_absorb_each_append(m, sponge, a, padded(m.rate, b));
}

/// Values that fit into the block that waits just wait with it.
proof fn lemma_absorb_within_block(m: Instance, sponge: SpongeModel, b: Seq<int>, values: Seq<int>)
    requires
        sponge.phase == Phase::Absorbing(b),
        b.len() + values.len() <= m.rate,
    ensures
        m.absorb_each(sponge, values) == (SpongeModel {
            state: sponge.state,
            phase: Phase::Absorbing(b + values),
        }),
    decreases values.len(),
{
    if values.len() == 0 {
        assert(b + values =~= b);
    } else {
        lemma_absorb_within_block(m, sponge, b, values.drop_last());
        assert((b + values.drop_last()).push(values.last()) =~= b + values);
    }
}

/// Sponges that give the same next, and are the same after that, go on giving the same.
proof fn lemma_same_outputs(m: Instance, a: SpongeModel, b: SpongeModel, n: nat)
    requires
        m.after_squeeze(a) == m.after_squeeze(b),
        m.squeeze_output(a) == m.squeeze_output(b),
    ensures
        m.squeeze_outputs(a, n) == m.squeeze_outputs(b, n),
{
    assert forall|i: int| 0 <= i < n implies m.squeeze_output(
        #[trigger] m.after_squeezes(a, i as nat),
    ) == m.squeeze_output(m.after_squeezes(b, i as nat)) by {
        if i > 0 {
            lemma_same_after(m, a, b, i as nat);
        }
    }
    assert(m.squeeze_outputs(a, n) =~= m.squeeze_outputs(b, n));
}

/// Sponges that are the same after one output stay so.
proof fn lemma_same_after(m: Instance, a: SpongeModel, b: SpongeModel, n: nat)
    requires
        m.after_squeeze(a) == m.after_squeeze(b),
        n > 0,
    ensures
        m.after_squeezes(a, n) == m.after_squeezes(b, n),
    decreases n,
{
    if n == 1 {
        assert(m.after_squeezes(a, 0) == a && m.after_squeezes(b, 0) == b);
    } else {
        lemma_same_after(m, a, b, (n - 1) as nat);
    }
}

/// No input at all hashes as a block of ones does.
pub proof fn law_empty_input_is_a_block_of_ones(m: Instance)
    requires
        m.rate > 0,
    ensures
        m.hash(Seq::empty()) == m.hash(ones(m.rate as int)),
{
    let rate = m.rate as int;
    let block = ones(rate);
    let fresh = m.fresh_sponge();
    lemma_small_mod(0, m.rate);
    lemma_mod_self_0(rate);
    assert(padded(m.rate, Seq::<int>::empty()) =~= Seq::<int>::empty());
    assert(padded(m.rate, block) =~= block);
    lemma_absorb_within_block(m, fresh, Seq::empty(), block);
    let full = m.absorb_all(fresh, block);
    assert(Seq::<int>::empty() + block =~= block);
    assert(block + ones(0) =~= block);
    assert(Seq::<int>::empty() + ones(rate) =~= block);
    lemma_same_outputs(m, fresh, full, m.capacity);
}

/// An input of at most one block meets a single permutation: its hash is what the permutation of
/// the padded block, with zeros after it, starts with, as long as the digest is no longer than a
/// block.
pub proof fn law_hash_of_one_block(m: Instance, input: Seq<int>)
    requires
        0 < input.len() <= m.rate,
        m.capacity <= m.rate <= m.width,
    ensures
        m.hash(input) == Seq::new(
            m.capacity,
            |i: int| m.permute(m.add_block(m.fresh_sponge().state, padded(m.rate, input)))[i],
        ),
{
    let fresh = m.fresh_sponge();
    let block = padded(m.rate, input);
    if input.len() < m.rate {
        lemma_small_mod(input.len(), m.rate);
    } else {
        lemma_mod_self_0(m.rate as int);
    }
    lemma_absorb_within_block(m, fresh, Seq::empty(), block);
    assert(Seq::<int>::empty() + block =~= block);
    let full = m.absorb_all(fresh, input);
    assert(block + ones(0) =~= block);
    let state = m.permute(m.add_block(fresh.state, block));
    assert forall|i: int| 0 <= i < m.capacity implies m.squeeze_output(
        #[trigger] m.after_squeezes(full, i as nat),
    ) == state[i] by {
        law_outputs_are_the_block_in_order(m, full, i as nat);
    }
    assert(m.hash(input) =~= Seq::new(m.capacity, |i: int| state[i]));
}

/// What a sponge is after some outputs from a new block.
proof fn lemma_after_squeezes(m: Instance, sponge: SpongeModel, n: nat)
    requires
        !m.has_output(sponge),
        0 < n <= m.rate,
        m.rate <= m.next_output_state(sponge).len(),
    ensures
        m.after_squeezes(sponge, n) == (SpongeModel {
            state: m.next_output_state(sponge),
            phase: Phase::Squeezing(
                m.next_output_state(sponge).subrange(n as int, m.rate as int),
            ),
        }),
    decreases n,
{
    let state = m.next_output_state(sponge);
    if n == 1 {
        assert(m.after_squeezes(sponge, 0) == sponge);
    } else {
        lemma_after_squeezes(m, sponge, (n - 1) as nat);
        assert(state.subrange(n - 1, m.rate as int).drop_first() =~= state.subrange(
            n as int,
            m.rate as int,
        ));
    }
}

/// Between two permutations a sponge hands out the first elements of its state in order: with no
/// output left over, output number `n` of the next block is element number `n` of the next state.
pub proof fn law_outputs_are_the_block_in_order(m: Instance, sponge: SpongeModel, n: nat)
    requires
        !m.has_output(sponge),
        n < m.rate,
        m.rate <= m.next_output_state(sponge).len(),
    ensures
        m.squeeze_output(m.after_squeezes(sponge, n)) == m.next_output_state(sponge)[n as int],
{
    if n == 0 {
        assert(m.after_squeezes(sponge, 0) == sponge);
    } else {
        lemma_after_squeezes(m, sponge, n);
    }
}

/// When a block of output has been handed out, the next one comes from the permutation of the
/// same state.
pub proof fn law_next_block_permutes_again(m: Instance, sponge: SpongeModel)
    requires
        !m.has_output(sponge),
        0 < m.rate <= m.next_output_state(sponge).len(),
    ensures
        !m.has_output(m.after_squeezes(sponge, m.rate)),
        m.next_output_state(m.after_squeezes(sponge, m.rate)) == m.permute(
            m.next_output_state(sponge),
        ),
{
    lemma_after_squeezes(m, sponge, m.rate);
}

/// Output that is left over has no influence on what is absorbed next: squeezing out one value
/// more of it makes no difference.
pub proof fn law_left_over_output_is_dropped(m: Instance, sponge: SpongeModel, value: int)
    requires
        m.has_output(sponge),
    ensures
        m.absorb_one(m.after_squeeze(sponge), value) == m.absorb_one(sponge, value),
{
}

/// A sponge that has seen no input is zero throughout, and nothing waits.
pub proof fn law_fresh_sponge_is_zero(m: Instance, i: int)
    requires
        0 <= i < m.width,
    ensures
        m.fresh_sponge().state.len() == m.width,
        m.fresh_sponge().state[i] == 0,
        m.fresh_sponge().phase == Phase::Absorbing(Seq::empty()),
{
}

/// Padding leaves the input as it is and puts ones behind it, as few as make whole blocks.
pub proof fn law_padding_fills_the_last_block(rate: nat, input: Seq<int>, i: int)
    requires
        rate > 0,
        0 <= i < padded(rate, input).len(),
    ensures
        padded(rate, input).len() % rate == 0,
        input.len() <= padded(rate, input).len() < input.len() + rate,
        i < input.len() ==> padded(rate, input)[i] == input[i],
        i >= input.len() ==> padded(rate, input)[i] == 1,
{
    lemma_padding_len(rate, input.len(), 0);
    lemma_mod_bound(input.len() as int, rate as int);
}

/// A block enters the state element by element, as far as the rate goes: each element of the block
/// is added to the element of the state in its place, and the rest of the state stays. So no two
/// blocks of residues lead from one state to the same.
pub proof fn law_every_element_of_a_block_enters_the_state(
    m: Instance,
    state: Seq<int>,
    a: Seq<int>,
    b: Seq<int>,
)
    requires
        1 < m.modulus,
        m.rate <= state.len(),
        a.len() == m.rate,
        b.len() == m.rate,
        in_range(m.modulus, a),
        in_range(m.modulus, b),
    ensures
        m.add_block(state, a).len() == state.len(),
        forall|i: int|
            0 <= i < m.rate ==> #[trigger] m.add_block(state, a)[i] == (state[i] + a[i])
                % m.modulus,
        forall|i: int|
            m.rate <= i < state.len() ==> #[trigger] m.add_block(state, a)[i] == state[i],
        a != b ==> m.add_block(state, a) != m.add_block(state, b),
{
    let p = m.modulus;
    let (x, y) = (m.add_block(state, a), m.add_block(state, b));
    if x == y {
        assert forall|i: int| 0 <= i < a.len() implies a[i] == b[i] by {
            assert(x[i] == (state[i] + a[i]) % p && y[i] == (state[i] + b[i]) % p);
            if a[i] != b[i] {
                lemma_difference_is_not_zero(p, a[i], b[i]);
                lemma_equal_residues(p, state[i] + a[i], state[i] + b[i]);
                assert((state[i] + a[i]) - (state[i] + b[i]) == a[i] - b[i]);
            }
        }
        assert(a =~= b);
    }
}

/// The hash of exactly one block is what the permutation of that block, with zeros behind it,
/// starts with, as long as the digest is no longer than a block.
pub proof fn law_hash_of_a_full_block(m: Instance, input: Seq<int>)
    requires
        1 < m.modulus,
        0 < m.rate <= m.width,
        m.capacity <= m.rate,
        input.len() == m.rate,
        in_range(m.modulus, input),
    ensures
        m.hash(input) == m.permute(
            Seq::new(m.width, |i: int| if i < m.rate { input[i] } else { 0 }),
        ).take(m.capacity as int),
{
    let fresh = m.fresh_sponge();
    lemma_mod_self_0(m.rate as int);
    assert(padded(m.rate, input) =~= input);
    let start = Seq::new(m.width, |i: int| if i < m.rate { input[i] } else { 0 });
    assert forall|i: int| 0 <= i < m.width implies m.add_block(fresh.state, input)[i] == start[i] by {
        if i < m.rate {
            lemma_small_mod(input[i] as nat, m.modulus as nat);
        }
    }
    assert(m.add_block(fresh.state, input) =~= start);
    law_hash_of_one_block(m, input);
    lemma_permute_width(m, start);
    assert(m.hash(input) =~= m.permute(start).take(m.capacity as int));
}

/// The permutation keeps the width of a state.
proof fn lemma_permute_width(m: Instance, s: Seq<int>)
    requires
        s.len() == m.width,
    ensures
        m.permute(s).len() == m.width,
{
}

/// Absorbing one value: where less than a block waits, the value waits behind it and the state
/// stays; where a block waits, it enters the state, element by element, the state is permuted and
/// the value waits alone; after squeezing the value waits alone and the state stays.
pub proof fn law_absorbing_one_value(m: Instance, sponge: SpongeModel, value: int)
    ensures
        sponge.phase matches Phase::Absorbing(block) ==> block.len() < m.rate ==> {
            &&& m.absorb_one(sponge, value).state == sponge.state
            &&& m.absorb_one(sponge, value).phase == Phase::Absorbing(block + seq![value])
        },
        sponge.phase matches Phase::Absorbing(block) ==> block.len() >= m.rate ==> {
            &&& m.absorb_one(sponge, value).state == m.permute(
                Seq::new(
                    sponge.state.len(),
                    |i: int|
                        if i < m.rate {
                            (sponge.state[i] + block[i]) % m.modulus
                        } else {
                            sponge.state[i]
                        },
                ),
            )
            &&& m.absorb_one(sponge, value).phase == Phase::Absorbing(seq![value])
        },
        sponge.phase is Squeezing ==> {
            &&& m.absorb_one(sponge, value).state == sponge.state
            &&& m.absorb_one(sponge, value).phase == Phase::Absorbing(seq![value])
        },
{
    if let Phase::Absorbing(block) = sponge.phase {
        assert(block + seq![value] =~= block.push(value));
        assert(m.add_block(sponge.state, block) =~= Seq::new(
            sponge.state.len(),
            |i: int|
                if i < m.rate {
                    (sponge.state[i] + block[i]) % m.modulus
                } else {
                    sponge.state[i]
                },
        ));
    }
}

/// Values are absorbed one after the other, the first one first.
pub proof fn law_values_are_absorbed_in_order(
    m: Instance,
    sponge: SpongeModel,
    a: Seq<int>,
    value: int,
    b: Seq<int>,
)
    ensures
        m.absorb_each(sponge, Seq::empty()) == sponge,
        m.absorb_each(sponge, seq![value] + a) == m.absorb_each(m.absorb_one(sponge, value), a),
        m.absorb_each(m.absorb_each(sponge, a), b) == m.absorb_each(sponge, a + b),
{
    let single = seq![value];
    assert(single.drop_last() =~= Seq::<int>::empty());
    assert(m.absorb_each(sponge, single.drop_last()) == sponge);
    assert(m.absorb_each(sponge, single) == m.absorb_one(sponge, value));
    lemma_absorb_each_append(m, sponge, single, a);
    lemma_absorb_each_append(m, sponge, a, b);
}

/// An input is absorbed like the values in it and behind them ones that fill the last block.
pub proof fn law_an_input_is_absorbed_with_ones(
    m: Instance,
    sponge: SpongeModel,
    input: Seq<int>,
    k: nat,
)
    requires
        k < m.rate,
        (input.len() + k) % m.rate == 0,
    ensures
        m.absorb_all(sponge, input) == m.absorb_each(sponge, input + Seq::new(k, |i: int| 1int)),
{
    let (len, rate) = (input.len() as int, m.rate as int);
    lemma_mod_bound(len, rate);
    lemma_add_mod_noop(len, k as int, rate);
    lemma_small_mod(k, m.rate);
    let r = len % rate;
    if r + k >= rate {
        lemma_mod_self_0(rate);
        if r + k > rate {
            lemma_small_mod((r + k - rate) as nat, m.rate);
            lemma_mod_add_multiples_vanish(r + k - rate, rate);
        }
    } else {
        lemma_small_mod((r + k) as nat, m.rate);
    }
    assert(padded(m.rate, input) =~= input + Seq::new(k, |i: int| 1int));
}

/// A block that is not full is filled up with ones before it is squeezed out: a sponge in which
/// values wait gives the same, and is the same after that, as one that has absorbed these ones too.
pub proof fn law_squeezing_fills_the_block_with_ones(
    m: Instance,
    sponge: SpongeModel,
    block: Seq<int>,
)
    requires
        sponge.phase == Phase::Absorbing(block),
        block.len() <= m.rate,
    ensures
        ({
            let fill = Seq::new((m.rate - block.len()) as nat, |i: int| 1int);
            let filled = m.absorb_each(sponge, fill);
            &&& m.squeeze_output(sponge) == m.squeeze_output(filled)
            &&& m.after_squeeze(sponge) == m.after_squeeze(filled)
            &&& filled == (SpongeModel {
                state: sponge.state,
                phase: Phase::Absorbing(block + fill),
            })
        }),
{
    let fill = Seq::new((m.rate - block.len()) as nat, |i: int| 1int);
    lemma_absorb_within_block(m, sponge, block, fill);
    assert(fill =~= ones(m.rate - block.len()));
    assert((block + fill) + ones(0) =~= block + fill);
}

/// What is squeezed out: with output left over its first element, and the state stays; with none
/// left, the state is permuted, after what waits has entered it with ones behind, and its first
/// element is given out and the others of the block kept.
pub proof fn law_squeezing_one_value(m: Instance, sponge: SpongeModel)
    requires
        0 < m.rate <= sponge.state.len(),
        sponge.state.len() == m.width,
        sponge.phase matches Phase::Absorbing(block) ==> block.len() <= m.rate,
    ensures
        sponge.phase matches Phase::Squeezing(left) ==> left.len() > 0 ==> {
            &&& m.squeeze_output(sponge) == left[0]
            &&& m.after_squeeze(sponge) == (SpongeModel {
                state: sponge.state,
                phase: Phase::Squeezing(left.skip(1)),
            })
        },
        sponge.phase matches Phase::Squeezing(left) ==> left.len() == 0 ==> {
            let next = m.permute(sponge.state);
            &&& m.squeeze_output(sponge) == next[0]
            &&& m.after_squeeze(sponge) == (SpongeModel {
                state: next,
                phase: Phase::Squeezing(next.take(m.rate as int).skip(1)),
            })
        },
        sponge.phase matches Phase::Absorbing(block) ==> {
            let next = m.permute(
                Seq::new(
                    sponge.state.len(),
                    |i: int|
                        if i < block.len() {
                            (sponge.state[i] + block[i]) % m.modulus
                        } else if i < m.rate {
                            (sponge.state[i] + 1) % m.modulus
                        } else {
                            sponge.state[i]
                        },
                ),
            );
            &&& m.squeeze_output(sponge) == next[0]
            &&& m.after_squeeze(sponge) == (SpongeModel {
                state: next,
                phase: Phase::Squeezing(next.take(m.rate as int).skip(1)),
            })
        },
{
    match sponge.phase {
        Phase::Squeezing(left) => {
            if left.len() > 0 {
                assert(left.skip(1) =~= left.drop_first());
            } else {
                let next = m.permute(sponge.state);
                lemma_permute_width(m, sponge.state);
                assert(next.take(m.rate as int).skip(1) =~= next.subrange(1, m.rate as int));
            }
        },
        Phase::Absorbing(block) => {
            let start = Seq::new(
                sponge.state.len(),
                |i: int|
                    if i < block.len() {
                        (sponge.state[i] + block[i]) % m.modulus
                    } else if i < m.rate {
                        (sponge.state[i] + 1) % m.modulus
                    } else {
                        sponge.state[i]
                    },
            );
            assert(m.add_block(sponge.state, block + ones(m.rate - block.len())) =~= start);
            let next = m.permute(start);
            lemma_permute_width(m, start);
            assert(next.take(m.rate as int).skip(1) =~= next.subrange(1, m.rate as int));
        },
    }
}

/// Outputs come one after the other: each from the sponge that the one before has left.
pub proof fn law_outputs_come_one_by_one(m: Instance, sponge: SpongeModel, n: nat, i: int)
    requires
        0 <= i < n,
    ensures
        m.after_squeezes(sponge, 0) == sponge,
        m.after_squeezes(sponge, n) == m.after_squeezes(m.after_squeeze(sponge), (n - 1) as nat),
        m.squeeze_outputs(sponge, n).len() == n,
        m.squeeze_outputs(sponge, n)[i] == m.squeeze_output(m.after_squeezes(sponge, i as nat)),
{
    reveal_with_fuel(Instance::after_squeezes, 2);
    lemma_after_squeezes_append(m, sponge, 1, (n - 1) as nat);
}

/// Squeezing some values and then others is squeezing all of them.
proof fn lemma_after_squeezes_append(m: Instance, sponge: SpongeModel, a: nat, b: nat)
    ensures
        m.after_squeezes(m.after_squeezes(sponge, a), b) == m.after_squeezes(sponge, a + b),
    decreases b,
{
    if b > 0 {
        lemma_after_squeezes_append(m, sponge, a, (b - 1) as nat);
        assert((a + b - 1) as nat == a + (b - 1) as nat);
    }
}

/// How many values wait after some of an input.
proof fn lemma_waiting_after(m: Instance, input: Seq<int>)
    requires
        m.rate > 0,
    ensures
        ({
            let sponge = m.absorb_each(m.fresh_sponge(), input);
            &&& sponge.phase is Absorbing
            &&& m.waiting(sponge) <= m.rate
            &&& input.len() % m.rate == 0 ==> m.waiting(sponge) == (if input.len() == 0 {
                0
            } else {
                m.rate
            })
            &&& input.len() % m.rate != 0 ==> m.waiting(sponge) == input.len() % m.rate
        }),
    decreases input.len(),
{
    let rate = m.rate as int;
    if input.len() == 0 {
        lemma_small_mod(0, m.rate);
    } else {
        let head = input.drop_last();
        lemma_waiting_after(m, head);
        let (n, r) = (head.len() as int, head.len() as int % rate);
        lemma_mod_bound(n, rate);
        lemma_add_mod_noop(n, 1, rate);
        if rate == 1 {
            lemma_mod_bound(n + 1, rate);
        } else {
            lemma_small_mod(1, m.rate);
            if r + 1 < rate {
                lemma_small_mod((r + 1) as nat, m.rate);
            } else {
                lemma_mod_self_0(rate);
            }
        }
    }
}

/// Absorbing the values of an input singly and squeezing gives the hash of the input: the padding
/// that `absorb` appends and the one that squeezing makes up for are the same.
pub proof fn law_absorbing_singly_gives_the_hash(m: Instance, input: Seq<int>)
    requires
        m.rate > 0,
    ensures
        m.squeeze_outputs(m.absorb_each(m.fresh_sponge(), input), m.capacity) == m.hash(input),
{
    let fresh = m.fresh_sponge();
    let sponge = m.absorb_each(fresh, input);
    let rest = ones(padding_len(m.rate, input.len()) as int);
    lemma_absorb_each_append(m, fresh, input, rest);
    lemma_waiting_after(m, input);
    if input.len() % m.rate == 0 {
        assert(padded(m.rate, input) =~= input);
    } else {
        let block = sponge.phase->Absorbing_0;
        law_squeezing_fills_the_block_with_ones(m, sponge, block);
        assert(rest =~= Seq::new((m.rate - block.len()) as nat, |i: int| 1int));
        lemma_same_outputs(m, sponge, m.absorb_each(sponge, rest), m.capacity);
    }
}

/// The sponge after the first `k` blocks: all but the last of them have entered the state, and that
/// one waits.
proof fn lemma_absorbed_blocks(
    m: Instance,
    full: Seq<int>,
    n: int,
    absorbed: Seq<Seq<int>>,
    k: int,
)
    requires
        0 < m.rate,
        1 <= k <= n,
        full.len() == n * m.rate,
        absorbed.len() == n + 1,
        absorbed[0] == m.fresh_sponge().state,
        forall|j: int|
            0 <= j < n ==> #[trigger] absorbed[j + 1] == m.permute(
                m.add_block(absorbed[j], full.subrange(j * m.rate, j * m.rate + m.rate)),
            ),
    ensures
        0 <= (k - 1) * m.rate <= k * m.rate <= full.len(),
        k * m.rate == (k - 1) * m.rate + m.rate,
        m.absorb_each(m.fresh_sponge(), full.take(k * m.rate)) == (SpongeModel {
            state: absorbed[k - 1],
            phase: Phase::Absorbing(full.subrange((k - 1) * m.rate, k * m.rate)),
        }),
    decreases k,
{
    let rate = m.rate as int;
    let fresh = m.fresh_sponge();
    let start = (k - 1) * rate;
    assert(0 <= start && k * rate == start + rate && k * rate <= n * rate) by (nonlinear_arith)
        requires
            start == (k - 1) * rate,
            1 <= k <= n,
            0 < rate,
    ;
    let chunk = full.subrange(start, k * rate);
    if k == 1 {
        lemma_absorb_within_block(m, fresh, Seq::empty(), chunk);
        assert(start == 0);
        assert(full.take(k * rate) =~= chunk);
        assert(Seq::<int>::empty() + chunk =~= chunk);
    } else {
        lemma_absorbed_blocks(m, full, n, absorbed, k - 1);
        let before = (k - 2) * rate;
        let sponge = m.absorb_each(fresh, full.take(start));
        let last = full.subrange(before, start);
        let (first, rest) = (chunk[0], chunk.skip(1));
        assert(full.take(k * rate) =~= full.take(start) + chunk);
        assert(chunk =~= seq![first] + rest);
        lemma_absorb_each_append(m, fresh, full.take(start), chunk);
        law_values_are_absorbed_in_order(m, sponge, rest, first, Seq::empty());
        let next = m.absorb_one(sponge, first);
        assert(absorbed[(k - 2) + 1] == m.permute(m.add_block(absorbed[k - 2], last)));
        assert(next == (SpongeModel {
            state: absorbed[k - 1],
            phase: Phase::Absorbing(seq![first]),
        }));
        lemma_absorb_within_block(m, next, seq![first], rest);
    }
}

/// After a number of whole blocks of output none is left over, and the next block is known.
proof fn lemma_output_blocks(m: Instance, sponge: SpongeModel, squeezed: Seq<Seq<int>>, q: int)
    requires
        0 < m.rate <= m.width,
        0 <= q < squeezed.len(),
        !m.has_output(sponge),
        m.next_output_state(sponge) == squeezed[0],
        squeezed[0].len() == m.width,
        forall|j: int|
            0 <= j < squeezed.len() - 1 ==> #[trigger] squeezed[j + 1] == m.permute(squeezed[j]),
    ensures
        0 <= q * m.rate,
        squeezed[q].len() == m.width,
        !m.has_output(m.after_squeezes(sponge, (q * m.rate) as nat)),
        m.next_output_state(m.after_squeezes(sponge, (q * m.rate) as nat)) == squeezed[q],
    decreases q,
{
    let rate = m.rate as int;
    assert(0 <= q * rate && q * rate == (q - 1) * rate + rate) by (nonlinear_arith)
        requires
            0 <= q,
            0 < rate,
    ;
    if q == 0 {
        assert(q * rate == 0) by (nonlinear_arith)
            requires
                q == 0,
        ;
        assert(m.after_squeezes(sponge, 0) == sponge);
    } else {
        lemma_output_blocks(m, sponge, squeezed, q - 1);
        let done = ((q - 1) * rate) as nat;
        let there = m.after_squeezes(sponge, done);
        law_next_block_permutes_again(m, there);
        lemma_after_squeezes_append(m, sponge, done, m.rate);
        assert(done + m.rate == (q * rate) as nat);
        assert(squeezed[(q - 1) + 1] == m.permute(squeezed[q - 1]));
        lemma_permute_width(m, squeezed[q - 1]);
    }
}

/// The hash goes block by block. The input is cut into blocks of as many elements as the rate, at
/// least one, with ones where it has come to its end. From zeros on, each block is added to the
/// state element by element and the state is permuted. Then the state, as far as the rate goes, is
/// the first block of the output, and each permutation of it gives the next one. Element number `j`
/// of the hash is the one in that place of the output.
pub proof fn law_hash_goes_block_by_block(
    m: Instance,
    input: Seq<int>,
    n: int,
    absorbed: Seq<Seq<int>>,
    squeezed: Seq<Seq<int>>,
    j: int,
)
    requires
        0 < m.rate <= m.width,
        1 <= n,
        n == 1 || (n - 1) * m.rate < input.len(),
        input.len() <= n * m.rate,
        absorbed.len() == n + 1,
        absorbed[0] == Seq::new(m.width, |i: int| 0int),
        forall|k: int|
            0 <= k < n ==> #[trigger] absorbed[k + 1] == m.permute(
                Seq::new(
                    m.width,
                    |i: int|
                        if i < m.rate {
                            (absorbed[k][i] + (if k * m.rate + i < input.len() {
                                input[k * m.rate + i]
                            } else {
                                1
                            })) % m.modulus
                        } else {
                            absorbed[k][i]
                        },
                ),
            ),
        0 <= j < m.capacity,
        j / (m.rate as int) < squeezed.len(),
        squeezed[0] == absorbed[n],
        forall|q: int|
            0 <= q < squeezed.len() - 1 ==> #[trigger] squeezed[q + 1] == m.permute(squeezed[q]),
    ensures
        m.hash(input).len() == m.capacity,
        m.hash(input)[j] == squeezed[j / (m.rate as int)][j % (m.rate as int)],
{
    let rate = m.rate as int;
    let fresh = m.fresh_sponge();
    assert(fresh.state =~= absorbed[0]);
    // The input with its padding, of which there is a block where there is nothing else.
    let full = Seq::new(
        (n * rate) as nat,
        |i: int| if i < input.len() { input[i] } else { 1int },
    );
    lemma_mod_multiples_basic(n, rate);
    assert(n * rate > 0) by (nonlinear_arith)
        requires
            n >= 1,
            rate > 0,
    ;
    if input.len() == 0 {
        law_empty_input_is_a_block_of_ones(m);
        assert(n == 1 || (n - 1) * rate >= 0) by (nonlinear_arith)
            requires
                n >= 1,
                rate > 0,
        ;
        assert(n * rate == rate);
        assert(input =~= Seq::<int>::empty());
        assert(full =~= ones(rate));
        assert(padded(m.rate, full) =~= full);
    } else {
        let k = (n * rate - input.len()) as nat;
        assert((n - 1) * rate == n * rate - rate) by (nonlinear_arith);
        law_an_input_is_absorbed_with_ones(m, fresh, input, k);
        assert(full =~= input + Seq::new(k, |i: int| 1int));
        assert(padded(m.rate, full) =~= full);
    }
    assert(m.hash(input) == m.squeeze_outputs(m.absorb_each(fresh, full), m.capacity));
    lemma_absorbed_widths(m, absorbed, n, n, full, input);
    lemma_absorbed_blocks(m, full, n, absorbed, n);
    assert(full.take(n * rate) =~= full);
    let sponge = m.absorb_each(fresh, full);
    let last = full.subrange((n - 1) * rate, n * rate);
    assert(last + ones(0) =~= last);
    assert(absorbed[(n - 1) + 1] == m.permute(m.add_block(absorbed[n - 1], last)));
    // The output.
    let (q, r) = (j / rate, j % rate);
    lemma_fundamental_div_mod(j, rate);
    lemma_mod_bound(j, rate);
    lemma_div_pos_is_pos(j, rate);
    lemma_output_blocks(m, sponge, squeezed, q);
    assert(rate * q == q * rate) by (nonlinear_arith);
    lemma_after_squeezes_append(m, sponge, (q * rate) as nat, r as nat);
    law_outputs_are_the_block_in_order(m, m.after_squeezes(sponge, (q * rate) as nat), r as nat);
}

/// The states between the blocks have the width of a state, and follow each other by the blocks of
/// the padded input.
proof fn lemma_absorbed_widths(
    m: Instance,
    absorbed: Seq<Seq<int>>,
    n: int,
    k: int,
    full: Seq<int>,
    input: Seq<int>,
)
    requires
        0 < m.rate <= m.width,
        0 <= k <= n,
        absorbed.len() == n + 1,
        absorbed[0] == Seq::new(m.width, |i: int| 0int),
        full == Seq::new(
            (n * m.rate) as nat,
            |i: int| if i < input.len() { input[i] } else { 1int },
        ),
        forall|k: int|
            0 <= k < n ==> #[trigger] absorbed[k + 1] == m.permute(
                Seq::new(
                    m.width,
                    |i: int|
                        if i < m.rate {
                            (absorbed[k][i] + (if k * m.rate + i < input.len() {
                                input[k * m.rate + i]
                            } else {
                                1
                            })) % m.modulus
                        } else {
                            absorbed[k][i]
                        },
                ),
            ),
    ensures
        absorbed[k].len() == m.width,
        forall|j: int|
            0 <= j < k ==> #[trigger] absorbed[j + 1] == m.permute(
                m.add_block(absorbed[j], full.subrange(j * m.rate, j * m.rate + m.rate)),
            ),
    decreases k,
{
    if k > 0 {
        let j = k - 1;
        let rate = m.rate as int;
        lemma_absorbed_widths(m, absorbed, n, j, full, input);
        assert(0 <= j * rate && j * rate + rate <= n * rate) by (nonlinear_arith)
            requires
                0 <= j < n,
                0 < rate,
        ;
        let start = Seq::new(
            m.width,
            |i: int|
                if i < m.rate {
                    (absorbed[j][i] + (if j * m.rate + i < input.len() {
                        input[j * m.rate + i]
                    } else {
                        1
                    })) % m.modulus
                } else {
                    absorbed[j][i]
                },
        );
        let block = full.subrange(j * rate, j * rate + rate);
        assert(m.add_block(absorbed[j], block) =~= start);
        assert(absorbed[j + 1] == m.permute(start));
        lemma_permute_width(m, start);
    }
}

} // verus!
