//! Laws of the permutation.

use vstd::prelude::*;
use vstd::arithmetic::div_mod::{lemma_add_mod_noop, lemma_mod_bound};
use crate::field::{PrimeField, in_range};
use crate::mds::is_cauchy;
use crate::mds_laws::{law_square_submatrices_are_nonsingular, row_part};
use crate::params::{PoseidonEngine, PoseidonHashParams};
use crate::permutation::{Instance, dot, has_width, instance, permutation_ready};
use crate::primes::{is_prime, lemma_difference_is_not_zero, lemma_equal_residues};
use crate::sbox::{SBox, map_inverse, map_power};
use crate::sbox_laws::{lemma_map_inverse_twice, lemma_map_power_undone};
use crate::sponge::sponge_ready;

verus! {

/// Whether the substitution box takes `n` residues to `n` residues.
pub open spec fn sbox_keeps_shape(m: Instance, n: nat) -> bool {
    forall|s: Seq<int>|
        s.len() == n && in_range(m.modulus, s) ==> (#[trigger] (m.sbox)(s)).len() == n && in_range(
            m.modulus,
            (m.sbox)(s),
        )
}

/// Whether the substitution box takes no two sequences of `n` residues to the same.
pub open spec fn sbox_is_injective(m: Instance, n: nat) -> bool {
    forall|s: Seq<int>, t: Seq<int>|
        s.len() == n && t.len() == n && in_range(m.modulus, s) && in_range(m.modulus, t) && #[trigger] (
        m.sbox)(s) == #[trigger] (m.sbox)(t) ==> s == t
}

/// Whether only the zero combination of the columns of the matrix vanishes in all of its rows.
pub open spec fn matrix_is_nonsingular(m: Instance) -> bool {
    forall|c: Seq<int>|
        c.len() == m.width && (forall|row: int|
            0 <= row < m.width ==> dot(c, #[trigger] m.matrix[row], m.width as int) % m.modulus
                == 0) ==> #[trigger] vanishes(m.modulus, c)
}

/// Whether every entry is a multiple of `p`.
pub open spec fn vanishes(p: int, c: Seq<int>) -> bool {
    forall|i: int| 0 <= i < c.len() ==> #[trigger] c[i] % p == 0
}

/// Whether `s` is a state of the permutation.
pub open spec fn is_state(m: Instance, s: Seq<int>) -> bool {
    s.len() == m.width && in_range(m.modulus, s)
}

/// The constants lead from states to states.
proof fn lemma_add_constants_keeps_shape(m: Instance, round: int, s: Seq<int>)
    requires
        1 < m.modulus,
        is_state(m, s),
    ensures
        is_state(m, m.add_constants(round, s)),
{
    let r = m.add_constants(round, s);
    assert forall|i: int| 0 <= i < r.len() implies 0 <= #[trigger] r[i] < m.modulus by {
        lemma_mod_bound(s[i] + m.constants[round][i], m.modulus);
    }
}

/// The substitution leads from states to states.
proof fn lemma_substitute_keeps_shape(m: Instance, round: int, s: Seq<int>)
    requires
        1 < m.modulus,
        0 < m.width,
        sbox_keeps_shape(m, m.width),
        sbox_keeps_shape(m, 1),
        is_state(m, s),
    ensures
        is_state(m, m.substitute(round, s)),
{
    let last = seq![s.last()];
    assert(in_range(m.modulus, last));
    assert((m.sbox)(last).len() == 1 && in_range(m.modulus, (m.sbox)(last)));
    assert((m.sbox)(s).len() == m.width);
}

/// The matrix leads to states.
proof fn lemma_mix_keeps_shape(m: Instance, s: Seq<int>)
    requires
        1 < m.modulus,
    ensures
        is_state(m, m.mix(s)),
{
    let r = m.mix(s);
    assert forall|i: int| 0 <= i < r.len() implies 0 <= #[trigger] r[i] < m.modulus by {
        lemma_mod_bound(dot(s, m.matrix[i], s.len() as int), m.modulus);
    }
}

/// Any number of rounds leads from states to states.
proof fn lemma_rounds_keep_shape(m: Instance, n: int, s: Seq<int>)
    requires
        1 < m.modulus,
        is_state(m, s),
    ensures
        is_state(m, m.first_rounds(n, s)),
{
    if n > 0 {
        lemma_mix_keeps_shape(
            m,
            m.substitute(n - 1, m.add_constants(n - 1, m.first_rounds(n - 1, s))),
        );
    }
}

/// The permutation leads from states to states: it keeps their width, and what it gives are
/// residues again.
pub proof fn law_permutation_keeps_shape(m: Instance, s: Seq<int>)
    requires
        1 < m.modulus,
        is_state(m, s),
    ensures
        is_state(m, m.permute(s)),
{
    lemma_rounds_keep_shape(m, m.rounds() as int, s);
}

/// No two states give the same when the same constants are added.
proof fn lemma_add_constants_injective(m: Instance, round: int, s: Seq<int>, t: Seq<int>)
    requires
        1 < m.modulus,
        is_state(m, s),
        is_state(m, t),
        m.add_constants(round, s) == m.add_constants(round, t),
    ensures
        s == t,
{
    let p = m.modulus;
    assert forall|i: int| 0 <= i < s.len() implies s[i] == t[i] by {
        let added = m.add_constants(round, s);
        if i >= m.constants[round].len() {
            assert(added[i] == s[i] && added[i] == t[i]);
        } else if s[i] != t[i] {
            let c = m.constants[round][i];
            assert(added[i] == (s[i] + c) % p && added[i] == (t[i] + c) % p);
            lemma_difference_is_not_zero(p, s[i], t[i]);
            lemma_equal_residues(p, s[i] + c, t[i] + c);
            assert((s[i] + c) - (t[i] + c) == s[i] - t[i]);
        }
    }
    assert(s =~= t);
}

/// No two states give the same when a round substitutes them.
proof fn lemma_substitute_injective(m: Instance, round: int, s: Seq<int>, t: Seq<int>)
    requires
        1 < m.modulus,
        0 < m.width,
        sbox_keeps_shape(m, 1),
        sbox_is_injective(m, m.width),
        sbox_is_injective(m, 1),
        is_state(m, s),
        is_state(m, t),
        m.substitute(round, s) == m.substitute(round, t),
    ensures
        s == t,
{
    if m.is_partial(round) {
        let (u, v) = (seq![s.last()], seq![t.last()]);
        assert(in_range(m.modulus, u) && in_range(m.modulus, v));
        let (a, b) = ((m.sbox)(u), (m.sbox)(v));
        assert(a.len() == 1 && b.len() == 1);
        let (x, y) = (m.substitute(round, s), m.substitute(round, t));
        assert(x.drop_last() =~= s.drop_last() && y.drop_last() =~= t.drop_last());
        assert(x.last() == a[0] && y.last() == b[0]);
        assert(a =~= b);
        assert(u == v);
        assert(u[0] == v[0]);
        assert forall|i: int| 0 <= i < s.len() implies s[i] == t[i] by {
            if i < s.len() - 1 {
                assert(s.drop_last()[i] == t.drop_last()[i]);
            }
        }
        assert(s =~= t);
    }
}

/// A sum of products is linear in one of its sequences.
proof fn lemma_dot_of_difference(s: Seq<int>, t: Seq<int>, b: Seq<int>, n: int)
    requires
        n <= s.len(),
        n <= t.len(),
        s.len() == t.len(),
    ensures
        dot(Seq::new(s.len(), |i: int| s[i] - t[i]), b, n) == dot(s, b, n) - dot(t, b, n),
    decreases n,
{
    if n > 0 {
        lemma_dot_of_difference(s, t, b, n - 1);
        let (x, y, z) = (s[n - 1], t[n - 1], b[n - 1]);
        assert((x - y) * z == x * z - y * z) by (nonlinear_arith);
    }
}

/// No two states give the same when the matrix mixes them.
proof fn lemma_mix_injective(m: Instance, s: Seq<int>, t: Seq<int>)
    requires
        1 < m.modulus,
        matrix_is_nonsingular(m),
        is_state(m, s),
        is_state(m, t),
        m.mix(s) == m.mix(t),
    ensures
        s == t,
{
    let p = m.modulus;
    let n = m.width as int;
    let c = Seq::new(s.len(), |i: int| s[i] - t[i]);
    assert forall|row: int| 0 <= row < m.width implies dot(c, #[trigger] m.matrix[row], n) % p
        == 0 by {
        let mixed = m.mix(s);
        assert(mixed[row] == dot(s, m.matrix[row], n) % p);
        assert(mixed[row] == dot(t, m.matrix[row], n) % p);
        lemma_dot_of_difference(s, t, m.matrix[row], n);
        lemma_equal_residues(p, dot(s, m.matrix[row], n), dot(t, m.matrix[row], n));
    }
    assert(vanishes(p, c));
    assert forall|i: int| 0 <= i < s.len() implies s[i] == t[i] by {
        assert(c[i] % p == 0);
        if s[i] != t[i] {
            lemma_difference_is_not_zero(p, s[i], t[i]);
        }
    }
    assert(s =~= t);
}

/// No two states give the same after any number of rounds.
proof fn lemma_rounds_injective(m: Instance, n: int, s: Seq<int>, t: Seq<int>)
    requires
        1 < m.modulus,
        0 < m.width,
        sbox_keeps_shape(m, m.width),
        sbox_keeps_shape(m, 1),
        sbox_is_injective(m, m.width),
        sbox_is_injective(m, 1),
        matrix_is_nonsingular(m),
        is_state(m, s),
        is_state(m, t),
        m.first_rounds(n, s) == m.first_rounds(n, t),
    ensures
        s == t,
    decreases n,
{
    if n > 0 {
        let r = n - 1;
        let (s1, t1) = (m.first_rounds(r, s), m.first_rounds(r, t));
        lemma_rounds_keep_shape(m, r, s);
        lemma_rounds_keep_shape(m, r, t);
        let (s2, t2) = (m.add_constants(r, s1), m.add_constants(r, t1));
        lemma_add_constants_keeps_shape(m, r, s1);
        lemma_add_constants_keeps_shape(m, r, t1);
        let (s3, t3) = (m.substitute(r, s2), m.substitute(r, t2));
        lemma_substitute_keeps_shape(m, r, s2);
        lemma_substitute_keeps_shape(m, r, t2);
        lemma_mix_injective(m, s3, t3);
        lemma_substitute_injective(m, r, s2, t2);
        lemma_add_constants_injective(m, r, s1, t1);
        lemma_rounds_injective(m, r, s, t);
    }
}

/// The permutation is one: with a substitution box that takes different elements to different
/// elements, and a matrix that is not singular, no two states give the same.
pub proof fn law_permutation_is_injective(m: Instance, s: Seq<int>, t: Seq<int>)
    requires
        1 < m.modulus,
        0 < m.width,
        sbox_keeps_shape(m, m.width),
        sbox_keeps_shape(m, 1),
        sbox_is_injective(m, m.width),
        sbox_is_injective(m, 1),
        matrix_is_nonsingular(m),
        is_state(m, s),
        is_state(m, t),
        m.permute(s) == m.permute(t),
    ensures
        s == t,
{
    lemma_rounds_injective(m, m.rounds() as int, s, t);
}

/// Whether the rows of the matrix are `entries`, row by row, and these were made from points `x`
/// and `y` that are all different.
pub open spec fn matrix_is_generated(
    m: Instance,
    x: Seq<int>,
    y: Seq<int>,
    entries: Seq<int>,
) -> bool {
    &&& x.len() == m.width
    &&& in_range(m.modulus, x)
    &&& in_range(m.modulus, y)
    &&& (x + y).no_duplicates()
    &&& is_cauchy(m.modulus, x, y, entries)
    &&& m.matrix == Seq::new(
        m.width,
        |row: int| entries.subrange(row * m.width, (row + 1) * m.width),
    )
}

/// A generated matrix is not singular.
pub proof fn law_generated_matrix_is_nonsingular(
    m: Instance,
    x: Seq<int>,
    y: Seq<int>,
    entries: Seq<int>,
)
    requires
        is_prime(m.modulus),
        matrix_is_generated(m, x, y, entries),
    ensures
        matrix_is_nonsingular(m),
{
    let p = m.modulus;
    let n = m.width as int;
    assert forall|c: Seq<int>|
        c.len() == n && (forall|row: int|
            0 <= row < n ==> dot(c, #[trigger] m.matrix[row], n) % p == 0) implies #[trigger] vanishes(
        p,
        c,
    ) by {
        let all = Seq::new(n as nat, |i: int| i);
        assert forall|a: int| 0 <= a < n implies dot(
            c,
            row_part(entries, n, #[trigger] all[a], all),
            n,
        ) % p == 0 by {
            assert(0 <= a * n && (a + 1) * n == a * n + n && (a + 1) * n <= n * n)
                by (nonlinear_arith)
                requires
                    0 <= a < n,
            ;
            assert(row_part(entries, n, a, all) =~= m.matrix[a]);
        }
        law_square_submatrices_are_nonsingular(p, x, y, entries, all, all, c);
    }
}

/// The inversion box and a generated matrix make a permutation, whatever the constants and the
/// number of rounds.
pub proof fn law_inversion_and_generated_matrix_permute(
    m: Instance,
    x: Seq<int>,
    y: Seq<int>,
    entries: Seq<int>,
    s: Seq<int>,
    t: Seq<int>,
)
    requires
        is_prime(m.modulus),
        0 < m.width,
        forall|u: Seq<int>| #[trigger] (m.sbox)(u) == map_inverse(m.modulus, u),
        matrix_is_generated(m, x, y, entries),
        is_state(m, s),
        is_state(m, t),
        m.permute(s) == m.permute(t),
    ensures
        s == t,
{
    let p = m.modulus;
    assert forall|u: Seq<int>| in_range(p, u) implies (#[trigger] (m.sbox)(u)).len() == u.len()
        && in_range(p, (m.sbox)(u)) by {
        lemma_map_inverse_twice(p, u);
    }
    assert forall|u: Seq<int>, v: Seq<int>|
        in_range(p, u) && in_range(p, v) && #[trigger] (m.sbox)(u) == #[trigger] (m.sbox)(
            v,
        ) implies u == v by {
        lemma_map_inverse_twice(p, u);
        lemma_map_inverse_twice(p, v);
    }
    law_generated_matrix_is_nonsingular(m, x, y, entries);
    law_permutation_is_injective(m, s, t);
}

/// A box that raises to a power which some other power undoes, and a generated matrix, make a
/// permutation, whatever the constants and the number of rounds.
pub proof fn law_power_and_generated_matrix_permute(
    m: Instance,
    e: nat,
    k: nat,
    j: nat,
    x: Seq<int>,
    y: Seq<int>,
    entries: Seq<int>,
    s: Seq<int>,
    t: Seq<int>,
)
    requires
        is_prime(m.modulus),
        0 < m.width,
        e * k == (m.modulus - 1) * j + 1,
        forall|u: Seq<int>| #[trigger] (m.sbox)(u) == map_power(m.modulus, u, e),
        matrix_is_generated(m, x, y, entries),
        is_state(m, s),
        is_state(m, t),
        m.permute(s) == m.permute(t),
    ensures
        s == t,
{
    let p = m.modulus;
    assert forall|u: Seq<int>| in_range(p, u) implies (#[trigger] (m.sbox)(u)).len() == u.len()
        && in_range(p, (m.sbox)(u)) by {
        lemma_map_power_undone(p, u, e, k, j);
    }
    assert forall|u: Seq<int>, v: Seq<int>|
        in_range(p, u) && in_range(p, v) && #[trigger] (m.sbox)(u) == #[trigger] (m.sbox)(
            v,
        ) implies u == v by {
        lemma_map_power_undone(p, u, e, k, j);
        lemma_map_power_undone(p, v, e, k, j);
    }
    law_generated_matrix_is_nonsingular(m, x, y, entries);
    law_permutation_is_injective(m, s, t);
}

/// What the parameters of a hash are, they are for the permutation and the sponge: nothing is left
/// out, put in another order or changed.
pub proof fn law_instance_is_what_the_parameters_hold<E: PoseidonEngine>(
    params: E::Params,
    width: nat,
    round: u32,
    row: u32,
    s: Seq<int>,
)
    requires
        round < params.spec_num_full_rounds() + params.spec_num_partial_rounds(),
        row < width,
    ensures
        instance::<E>(params, width).modulus == E::Fr::modulus(),
        instance::<E>(params, width).width == width,
        instance::<E>(params, width).capacity == params.spec_capacity(),
        instance::<E>(params, width).rate == params.spec_rate(),
        instance::<E>(params, width).full_rounds == params.spec_num_full_rounds(),
        instance::<E>(params, width).partial_rounds == params.spec_num_partial_rounds(),
        instance::<E>(params, width).constants.len() == params.spec_num_full_rounds()
            + params.spec_num_partial_rounds(),
        instance::<E>(params, width).constants[round as int] == params.spec_round_constants(round),
        instance::<E>(params, width).matrix.len() == width,
        instance::<E>(params, width).matrix[row as int] == params.spec_mds_matrix_row(row),
        (instance::<E>(params, width).sbox)(s) == params.spec_sbox().substitution(s),
{
}

/// The scalar product is the sum of the products, one for each pair.
pub proof fn law_scalar_product_is_a_sum(a: Seq<int>, b: Seq<int>, n: nat)
    ensures
        dot(a, b, n as int) == Seq::new(n, |k: int| a[k] * b[k]).fold_left(
            0int,
            |x: int, y: int| x + y,
        ),
    decreases n,
{
    if n > 0 {
        let m = (n - 1) as nat;
        law_scalar_product_is_a_sum(a, b, m);
        assert(Seq::new(n, |k: int| a[k] * b[k]).drop_last() =~= Seq::new(m, |k: int| a[k] * b[k]));
    }
}

/// The matrix takes the state with a one in one place and zeros elsewhere to the column of that
/// place.
pub proof fn law_matrix_takes_units_to_its_columns(m: Instance, column: int, row: int)
    requires
        1 < m.modulus,
        0 <= column < m.width,
        0 <= row < m.width,
    ensures
        m.mix(Seq::new(m.width, |k: int| if k == column { 1int } else { 0int }))[row]
            == m.matrix[row][column] % m.modulus,
{
    let unit = Seq::new(m.width, |k: int| if k == column { 1int } else { 0int });
    lemma_dot_of_unit(unit, m.matrix[row], column, m.width as int);
}

/// A scalar product with a unit picks one entry.
proof fn lemma_dot_of_unit(unit: Seq<int>, b: Seq<int>, column: int, n: int)
    requires
        0 <= n <= unit.len(),
        0 <= column < unit.len(),
        forall|k: int|
            0 <= k < unit.len() ==> #[trigger] unit[k] == (if k == column { 1int } else { 0int }),
    ensures
        dot(unit, b, n) == (if column < n { b[column] } else { 0 }),
    decreases n,
{
    if n > 0 {
        lemma_dot_of_unit(unit, b, column, n - 1);
        assert(1 * b[n - 1] == b[n - 1] && 0 * b[n - 1] == 0);
    }
}

/// The matrix takes the sum of two states to the sum of what it takes them to.
pub proof fn law_matrix_is_additive(m: Instance, s: Seq<int>, t: Seq<int>, row: int)
    requires
        1 < m.modulus,
        s.len() == t.len(),
        0 <= row < m.width,
    ensures
        m.mix(Seq::new(s.len(), |k: int| s[k] + t[k]))[row] == (m.mix(s)[row] + m.mix(t)[row])
            % m.modulus,
{
    let b = m.matrix[row];
    let n = s.len() as int;
    lemma_dot_of_sum(s, t, b, n);
    lemma_add_mod_noop(dot(s, b, n), dot(t, b, n), m.modulus);
}

/// A scalar product with a sum is the sum of the scalar products.
proof fn lemma_dot_of_sum(s: Seq<int>, t: Seq<int>, b: Seq<int>, n: int)
    requires
        n <= s.len(),
        s.len() == t.len(),
    ensures
        dot(Seq::new(s.len(), |k: int| s[k] + t[k]), b, n) == dot(s, b, n) + dot(t, b, n),
    decreases n,
{
    if n > 0 {
        lemma_dot_of_sum(s, t, b, n - 1);
        let (x, y, z) = (s[n - 1], t[n - 1], b[n - 1]);
        assert((x + y) * z == x * z + y * z) by (nonlinear_arith);
    }
}

/// Which rounds are full and which are partial: with an even number of full rounds, half of them
/// come first and half last and substitute the whole state; those between leave all but the last
/// element alone.
pub proof fn law_partial_rounds_stand_in_the_middle(m: Instance, round: int, s: Seq<int>)
    requires
        m.full_rounds % 2 == 0,
        0 <= round < m.full_rounds + m.partial_rounds,
        s.len() > 0,
    ensures
        2 * round < m.full_rounds ==> m.substitute(round, s) == (m.sbox)(s),
        2 * round >= m.full_rounds + 2 * m.partial_rounds ==> m.substitute(round, s) == (m.sbox)(s),
        m.full_rounds <= 2 * round < m.full_rounds + 2 * m.partial_rounds ==> {
            &&& m.substitute(round, s).len() == s.len() - 1 + (m.sbox)(seq![s.last()]).len()
            &&& m.substitute(round, s).take(s.len() - 1) == s.take(s.len() - 1)
            &&& m.substitute(round, s).skip(s.len() - 1) == (m.sbox)(seq![s.last()])
        },
{
    let r = m.substitute(round, s);
    if m.full_rounds <= 2 * round < m.full_rounds + 2 * m.partial_rounds {
        assert(r.take(s.len() - 1) =~= s.take(s.len() - 1));
        assert(r.skip(s.len() - 1) =~= (m.sbox)(seq![s.last()]));
    }
}

/// The rounds are of the same sort from both ends: as many full ones come after the partial ones as
/// before them.
pub proof fn law_rounds_are_symmetric(m: Instance, round: int, s: Seq<int>)
    requires
        m.full_rounds % 2 == 0,
        0 <= round < m.full_rounds + m.partial_rounds,
    ensures
        m.substitute(round, s) == m.substitute(
            m.full_rounds + m.partial_rounds - 1 - round,
            s,
        ),
{
}

/// The permutation goes round by round. Each round adds its constants to the state, as far as there
/// are any; then the first half of the full rounds and the last half substitute the whole state, and
/// the partial rounds between them the last element; then each row of the matrix gives an element
/// of the next state, the sum of its products with the substituted one. States that follow each
/// other like that start with the argument of the permutation and end with its result.
pub proof fn law_permutation_goes_round_by_round(
    m: Instance,
    states: Seq<Seq<int>>,
    added: Seq<Seq<int>>,
    substituted: Seq<Seq<int>>,
)
    requires
        m.full_rounds % 2 == 0,
        m.width > 0,
        states.len() == m.full_rounds + m.partial_rounds + 1,
        added.len() == m.full_rounds + m.partial_rounds,
        substituted.len() == m.full_rounds + m.partial_rounds,
        forall|r: int| 0 <= r < states.len() ==> (#[trigger] states[r]).len() == m.width,
        forall|r: int| 0 <= r < added.len() ==> (#[trigger] added[r]).len() == m.width,
        forall|r: int| 0 <= r < substituted.len() ==> (#[trigger] substituted[r]).len() == m.width,
        forall|r: int, i: int|
            0 <= r < added.len() && 0 <= i < m.width ==> #[trigger] added[r][i] == (if i
                < m.constants[r].len() {
                (states[r][i] + m.constants[r][i]) % m.modulus
            } else {
                states[r][i]
            }),
        forall|r: int|
            0 <= r < added.len() && (2 * r < m.full_rounds || 2 * r >= m.full_rounds + 2
                * m.partial_rounds) ==> #[trigger] substituted[r] == (m.sbox)(added[r]),
        forall|r: int|
            0 <= r < added.len() && m.full_rounds <= 2 * r < m.full_rounds + 2 * m.partial_rounds
                ==> #[trigger] substituted[r] == added[r].take(m.width - 1) + (m.sbox)(
                seq![added[r][m.width - 1]],
            ),
        forall|r: int, row: int|
            0 <= r < added.len() && 0 <= row < m.width ==> #[trigger] states[r + 1][row]
                == Seq::new(
                m.width,
                |k: int| substituted[r][k] * m.matrix[row][k],
            ).fold_left(0int, |x: int, y: int| x + y) % m.modulus,
    ensures
        m.permute(states[0]) == states.last(),
{
    lemma_rounds_so_far(m, states, added, substituted, (m.full_rounds + m.partial_rounds) as int);
}

/// As `law_permutation_goes_round_by_round`, for the first `n` rounds.
proof fn lemma_rounds_so_far(
    m: Instance,
    states: Seq<Seq<int>>,
    added: Seq<Seq<int>>,
    substituted: Seq<Seq<int>>,
    n: int,
)
    requires
        m.full_rounds % 2 == 0,
        m.width > 0,
        states.len() == m.full_rounds + m.partial_rounds + 1,
        added.len() == m.full_rounds + m.partial_rounds,
        substituted.len() == m.full_rounds + m.partial_rounds,
        forall|r: int| 0 <= r < states.len() ==> (#[trigger] states[r]).len() == m.width,
        forall|r: int| 0 <= r < added.len() ==> (#[trigger] added[r]).len() == m.width,
        forall|r: int| 0 <= r < substituted.len() ==> (#[trigger] substituted[r]).len() == m.width,
        forall|r: int, i: int|
            0 <= r < added.len() && 0 <= i < m.width ==> #[trigger] added[r][i] == (if i
                < m.constants[r].len() {
                (states[r][i] + m.constants[r][i]) % m.modulus
            } else {
                states[r][i]
            }),
        forall|r: int|
            0 <= r < added.len() && (2 * r < m.full_rounds || 2 * r >= m.full_rounds + 2
                * m.partial_rounds) ==> #[trigger] substituted[r] == (m.sbox)(added[r]),
        forall|r: int|
            0 <= r < added.len() && m.full_rounds <= 2 * r < m.full_rounds + 2 * m.partial_rounds
                ==> #[trigger] substituted[r] == added[r].take(m.width - 1) + (m.sbox)(
                seq![added[r][m.width - 1]],
            ),
        forall|r: int, row: int|
            0 <= r < added.len() && 0 <= row < m.width ==> #[trigger] states[r + 1][row]
                == Seq::new(
                m.width,
                |k: int| substituted[r][k] * m.matrix[row][k],
            ).fold_left(0int, |x: int, y: int| x + y) % m.modulus,
        0 <= n <= m.full_rounds + m.partial_rounds,
    ensures
        m.first_rounds(n, states[0]) == states[n],
    decreases n,
{
    if n > 0 {
        let r = n - 1;
        lemma_rounds_so_far(m, states, added, substituted, r);
        assert(states[r].len() == m.width && added[r].len() == m.width);
        assert(m.add_constants(r, states[r]) =~= added[r]);
        law_partial_rounds_stand_in_the_middle(m, r, added[r]);
        assert(substituted[r].len() == m.width);
        if m.full_rounds <= 2 * r < m.full_rounds + 2 * m.partial_rounds {
            let t = m.substitute(r, added[r]);
            assert(added[r].last() == added[r][m.width - 1]);
            assert(t =~= t.take(m.width - 1) + t.skip(m.width - 1));
        }
        assert(m.substitute(r, added[r]) == substituted[r]);
        let mixed = m.mix(substituted[r]);
        assert forall|row: int| 0 <= row < m.width implies mixed[row] == states[n][row] by {
            law_scalar_product_is_a_sum(substituted[r], m.matrix[row], m.width);
            assert(states[r + 1][row] == states[n][row]);
        }
        assert(states[n].len() == m.width);
        assert(mixed =~= states[n]);
    }
}

/// The permutation asks for no more than this: a state that is not empty and of the width that the
/// parameters speak of, counts that fit, an even number of full rounds, constants for every round, a
/// row of that width for every element, and a box that takes as many elements as the rounds give it.
pub proof fn law_permutation_asks_for_no_more<E: PoseidonEngine>(params: E::Params, width: nat)
    requires
        0 < width <= u32::MAX,
        forall|w: u32| #[trigger] has_width::<E>(params, w) ==> w == width,
        params.spec_num_full_rounds() + params.spec_num_partial_rounds() <= u32::MAX,
        params.spec_num_full_rounds() % 2 == 0,
        forall|round: u32|
            round < params.spec_num_full_rounds() + params.spec_num_partial_rounds()
                ==> #[trigger] params.has_round(round),
        forall|row: u32|
            row < width ==> #[trigger] params.has_row(row) && params.spec_mds_matrix_row(row).len()
                == width,
        params.spec_num_full_rounds() > 0 ==> params.spec_sbox().accepts(width),
        params.spec_num_partial_rounds() > 0 ==> params.spec_sbox().accepts(1),
    ensures
        permutation_ready::<E>(params, width),
        params.spec_rate() <= width ==> sponge_ready::<E>(params, width),
{
}

} // verus!
