//! Matrices to mix the state with.

use vstd::prelude::*;
use vstd::arithmetic::div_mod::lemma_mul_mod_noop_left;
use crate::field::{Engine, PrimeField, in_range, lemma_residues_in_range, residues};
use crate::inversion::batch_inversion;
use crate::params::PoseidonEngine;
use crate::permutation::copy_elements;
use crate::primes::lemma_difference_is_not_zero;

verus! {

/// A source of field elements.
pub trait FieldRng<F: PrimeField>: Sized {
    /// Whether a source in the state `before` may give `element` next, and be in the state `after`
    /// then. Unless a source says more of itself, anything may come.
    open spec fn may_draw(before: Self, element: F, after: Self) -> bool {
        true
    }

    /// The next element.
    fn gen(&mut self) -> (r: F)
        ensures
            Self::may_draw(*old(self), r, *final(self)),
    ;
}

/// Whether a source in the state `before` may give `elements`, one after the other, and be in the
/// state `after` then.
pub open spec fn may_draw_all<F: PrimeField, R: FieldRng<F>>(
    before: R,
    elements: Seq<F>,
    after: R,
) -> bool
    decreases elements.len(),
{
    if elements.len() == 0 {
        before == after
    } else {
        exists|between: R|
            may_draw_all(before, elements.drop_last(), between) && #[trigger] R::may_draw(
                between,
                elements.last(),
                after,
            )
    }
}

/// Whether drawing the points of a matrix of `t` rows once may end with `matrix` and lead the
/// source from the state `before` to the state `after`: points that are all different give their
/// matrix, and others none.
pub open spec fn may_attempt<F: PrimeField, R: FieldRng<F>>(
    before: R,
    t: nat,
    matrix: Option<Seq<int>>,
    after: R,
) -> bool {
    exists|points: Seq<F>|
        points.len() == 2 * t && #[trigger] may_draw_all(before, points, after) && if residues(
            points,
        ).no_duplicates() {
            matrix matches Some(m) && is_cauchy(
                F::modulus(),
                residues(points).take(t as int),
                residues(points).skip(t as int),
                m,
            )
        } else {
            matrix is None
        }
}

/// Whether `attempts` draws at most may end with `matrix` and lead the source from the state
/// `before` to the state `after`: the first attempt that gives a matrix decides.
pub open spec fn may_generate<F: PrimeField, R: FieldRng<F>>(
    before: R,
    t: nat,
    attempts: nat,
    matrix: Option<Seq<int>>,
    after: R,
) -> bool
    decreases attempts,
{
    if attempts == 0 {
        matrix is None && before == after
    } else {
        ||| matrix is Some && may_attempt::<F, R>(before, t, matrix, after)
        ||| exists|between: R| #[trigger]
            may_attempt::<F, R>(before, t, None, between) && may_generate::<F, R>(
                between,
                t,
                (attempts - 1) as nat,
                matrix,
                after,
            )
    }
}

/// Whether drawing until there is a matrix may end with `matrix` and lead the source from the
/// state `before` to the state `after`.
pub open spec fn may_end_with<F: PrimeField, R: FieldRng<F>>(
    before: R,
    t: nat,
    matrix: Seq<int>,
    after: R,
) -> bool {
    exists|attempts: nat| #[trigger]
        may_generate::<F, R>(before, t, attempts, Some(matrix), after)
}

/// Whether drawing until there is a matrix ends, whatever the source gives, with the attempt number
/// `attempts` at the latest.
pub open spec fn ends_within<F: PrimeField, R: FieldRng<F>>(
    before: R,
    t: nat,
    attempts: nat,
) -> bool
    decreases attempts,
{
    &&& attempts > 0
    &&& forall|after: R| #[trigger]
        may_attempt::<F, R>(before, t, None, after) ==> ends_within::<F, R>(
            after,
            t,
            (attempts - 1) as nat,
        )
}

/// Whether drawing until there is a matrix ends, whatever the source gives.
pub open spec fn ends<F: PrimeField, R: FieldRng<F>>(before: R, t: nat) -> bool {
    exists|attempts: nat| #[trigger] ends_within::<F, R>(before, t, attempts)
}

/// Whether `m` is the matrix of `t` rows that some different points give.
pub open spec fn comes_from_points(p: int, t: nat, m: Seq<int>) -> bool {
    exists|x: Seq<int>, y: Seq<int>|
        x.len() == t && in_range(p, x) && in_range(p, y) && (x + y).no_duplicates() && #[trigger]
            is_cauchy(p, x, y, m)
}

/// The entry in row `i` and column `j` of a square matrix of `t` rows, held row by row.
pub open spec fn entry(m: Seq<int>, t: int, i: int, j: int) -> int {
    m[i * t + j]
}

/// Whether `m` is the matrix whose entry in row `i` and column `j` is the inverse of
/// `x[i] - y[j]` modulo `p`.
pub open spec fn is_cauchy(p: int, x: Seq<int>, y: Seq<int>, m: Seq<int>) -> bool {
    let t = x.len() as int;
    &&& y.len() == t
    &&& m.len() == t * t
    &&& in_range(p, m)
    &&& forall|i: int, j: int|
        0 <= i < t && 0 <= j < t ==> ((x[i] - y[j]) * #[trigger] entry(m, t, i, j)) % p == 1
}

/// Where an entry of a square matrix lies.
proof fn lemma_entry_position(t: int, i: int, j: int)
    requires
        0 <= i < t,
        0 <= j < t,
    ensures
        0 <= i * t <= i * t + j < t * t,
        (i + 1) * t == i * t + t,
{
    assert(0 <= i * t && i * t + t <= t * t && (i + 1) * t == i * t + t) by (nonlinear_arith)
        requires
            0 <= i < t,
    ;
}

/// Whether no element occurs twice.
fn all_distinct<F: PrimeField>(v: &[F]) -> (r: bool)
    ensures
        r == residues(v@).no_duplicates(),
{
    let ghost s = residues(v@);
    let mut i: usize = 0;
    while i < v.len()
        invariant
            i <= v@.len(),
            s == residues(v@),
            forall|a: int, b: int| 0 <= a < i && a < b < s.len() ==> s[a] != s[b],
        decreases v.len() - i,
    {
        let el = v[i];
        let mut k: usize = i + 1;
        while k < v.len()
            invariant
                i < k <= v@.len(),
                s == residues(v@),
                el == v@[i as int],
                forall|b: int| i < b < k ==> s[i as int] != #[trigger] s[b],
            decreases v.len() - k,
        {
            if el.equals(&v[k]) {
                assert(s[i as int] == s[k as int]);
                return false;
            }
            k += 1;
        }
        i += 1;
    }
    true
}

/// The elements of `x` followed by those of `y`.
fn concatenated<F: PrimeField>(x: &[F], y: &[F]) -> (r: Vec<F>)
    ensures
        residues(r@) == residues(x@) + residues(y@),
{
    let mut r = copy_elements(x);
    let mut tail = copy_elements(y);
    r.append(&mut tail);
    assert(residues(r@) =~= residues(x@) + residues(y@));
    r
}

/// The matrix of the inverses of `x[i] - y[j]`, row by row; none if two of the points are the
/// same.
pub fn mds_matrix_from_points<E: Engine>(x: &[E::Fr], y: &[E::Fr]) -> (r: Option<Vec<E::Fr>>)
    requires
        x@.len() == y@.len(),
        x@.len() * x@.len() <= usize::MAX,
    ensures
        r is Some <==> (residues(x@) + residues(y@)).no_duplicates(),
        r matches Some(m) ==> is_cauchy(
            E::Fr::modulus(),
            residues(x@),
            residues(y@),
            residues(m@),
        ),
{
    let points = concatenated(x, y);
    if !all_distinct(points.as_slice()) {
        return None;
    }
    let ghost p = E::Fr::modulus();
    let ghost xs = residues(x@);
    let ghost ys = residues(y@);
    let ghost both = xs + ys;
    let t = x.len();
    let mut mds_matrix: Vec<E::Fr> = Vec::new();
    let mut i: usize = 0;
    while i < t
        invariant
            i <= t,
            t == x@.len(),
            t == y@.len(),
            t * t <= usize::MAX,
            p == E::Fr::modulus(),
            xs == residues(x@),
            ys == residues(y@),
            mds_matrix@.len() == i * t,
            forall|a: int, b: int|
                0 <= a < i && 0 <= b < t ==> #[trigger] entry(residues(mds_matrix@), t as int, a, b)
                    == (xs[a] - ys[b]) % p,
        decreases t - i,
    {
        let mut j: usize = 0;
        while j < t
            invariant
                i < t,
                j <= t,
                t == x@.len(),
                t == y@.len(),
                t * t <= usize::MAX,
                p == E::Fr::modulus(),
                xs == residues(x@),
                ys == residues(y@),
                mds_matrix@.len() == i * t + j,
                forall|a: int, b: int|
                    (0 <= a < i && 0 <= b < t) || (a == i && 0 <= b < j) ==> #[trigger] entry(
                        residues(mds_matrix@),
                        t as int,
                        a,
                        b,
                    ) == (xs[a] - ys[b]) % p,
            decreases t - j,
        {
            let ghost shorter = mds_matrix@;
            let mut element = x[i];
            element.sub_assign(&y[j]);
            mds_matrix.push(element);
            proof {
                let m = residues(mds_matrix@);
                lemma_entry_position(t as int, i as int, j as int);
                assert(m =~= residues(shorter).push(element.residue()));
                assert forall|a: int, b: int|
                    (0 <= a < i && 0 <= b < t) || (a == i && 0 <= b < j + 1) implies #[trigger] entry(
                    m,
                    t as int,
                    a,
                    b,
                ) == (xs[a] - ys[b]) % p by {
                    lemma_entry_position(t as int, a, b);
                    if a == i && b == j {
                    } else {
                        if a < i {
                            assert(a * t + b < i * t) by (nonlinear_arith)
                                requires
                                    0 <= a < i,
                                    b < t,
                            ;
                        }
                        assert(entry(residues(shorter), t as int, a, b) == (xs[a] - ys[b]) % p);
                    }
                }
            }
            j += 1;
        }
        proof {
            lemma_entry_position(t as int, i as int, 0);
        }
        i += 1;
    }
    let ghost differences = residues(mds_matrix@);
    batch_inversion::<E>(mds_matrix.as_mut_slice());
    proof {
        let m = residues(mds_matrix@);
        lemma_residues_in_range(mds_matrix@);
        lemma_residues_in_range(x@);
        lemma_residues_in_range(y@);
        assert forall|a: int, b: int| 0 <= a < t && 0 <= b < t implies ((xs[a] - ys[b])
            * #[trigger] entry(m, t as int, a, b)) % p == 1 by {
            lemma_entry_position(t as int, a, b);
            let d = entry(differences, t as int, a, b);
            let inverse = entry(m, t as int, a, b);
            assert(d == (xs[a] - ys[b]) % p);
            x@[a].residue_in_range();
            y@[b].residue_in_range();
            assert(both[a] != both[t + b]);
            lemma_difference_is_not_zero(p, xs[a], ys[b]);
            assert(mds_matrix@[a * t + b].residue() == inverse);
            lemma_mul_mod_noop_left(xs[a] - ys[b], inverse, p);
        }
    }
    Some(mds_matrix)
}

/// The next `n` elements.
fn draw_points<F: PrimeField, R: FieldRng<F>>(n: usize, rng: &mut R) -> (r: Vec<F>)
    ensures
        r@.len() == n,
        may_draw_all(*old(rng), r@, *final(rng)),
{
    let mut r: Vec<F> = Vec::with_capacity(n);
    while r.len() < n
        invariant
            r@.len() <= n,
            may_draw_all(*old(rng), r@, *rng),
        decreases n - r.len(),
    {
        let ghost before = *rng;
        let ghost shorter = r@;
        let next = rng.gen();
        r.push(next);
        proof {
            assert(r@.drop_last() =~= shorter);
            assert(R::may_draw(before, r@.last(), *rng));
        }
    }
    r
}

/// The residues of a matrix that may be missing.
pub open spec fn matrix_residues<F: PrimeField>(m: Option<Vec<F>>) -> Option<Seq<int>> {
    match m {
        Some(v) => Some(residues(v@)),
        None => None,
    }
}

/// One attempt: draws points, those of the rows first, and makes their matrix.
fn attempt_mds_matrix<E: Engine, R: FieldRng<E::Fr>>(t: u32, rng: &mut R) -> (r: Option<
    Vec<E::Fr>,
>)
    requires
        t * t <= u32::MAX,
    ensures
        may_attempt::<E::Fr, R>(*old(rng), t as nat, matrix_residues(r), *final(rng)),
        r matches Some(m) ==> comes_from_points(E::Fr::modulus(), t as nat, residues(m@)),
        t == 0 ==> r is Some,
{
    assert(t <= 0xffff) by (nonlinear_arith)
        requires
            t * t <= 0xffff_ffff,
    ;
    let points = draw_points::<E::Fr, R>(2 * t as usize, rng);
    let (x, y) = points.as_slice().split_at(t as usize);
    proof {
        lemma_residues_in_range(x@);
        lemma_residues_in_range(y@);
        assert(residues(x@) =~= residues(points@).take(t as int));
        assert(residues(y@) =~= residues(points@).skip(t as int));
        assert(residues(x@) + residues(y@) =~= residues(points@));
    }
    mds_matrix_from_points::<E>(x, y)
}

/// A matrix of `t` rows made from points drawn at random, row by row. Points of which two are the
/// same are thrown away and drawn anew until there is a matrix, so the source has to be one from
/// which different points come at last; `generate_mds_matrix_within` asks nothing of the source.
pub fn generate_mds_matrix<E: PoseidonEngine, R: FieldRng<E::Fr>>(
    t: u32,
    rng: &mut R,
) -> (r: Vec<E::Fr>)
    requires
        t * t <= u32::MAX,
        ends::<E::Fr, R>(*old(rng), t as nat),
    ensures
        may_end_with::<E::Fr, R>(*old(rng), t as nat, residues(r@), *final(rng)),
        comes_from_points(E::Fr::modulus(), t as nat, residues(r@)),
{
    let ghost mut left: nat = choose|n: nat| #[trigger] ends_within::<E::Fr, R>(*rng, t as nat, n);
    let ghost mut used: nat = 0;
    loop
        invariant
            t * t <= u32::MAX,
            ends_within::<E::Fr, R>(*rng, t as nat, left),
            may_generate::<E::Fr, R>(*old(rng), t as nat, used, None, *rng),
        decreases left,
    {
        let ghost before = *rng;
        let m = attempt_mds_matrix::<E, R>(t, rng);
        let ghost matrix = matrix_residues(m);
        proof {
            lemma_one_attempt::<E::Fr, R>(before, t as nat, matrix, *rng);
            lemma_generation_goes_on::<E::Fr, R>(
                *old(rng),
                t as nat,
                used,
                before,
                1,
                matrix,
                *rng,
            );
            used = used + 1;
        }
        if let Some(m) = m {
            return m;
        }
        proof {
            left = (left - 1) as nat;
        }
    }
}

/// A single attempt is a generation with one attempt.
proof fn lemma_one_attempt<F: PrimeField, R: FieldRng<F>>(
    before: R,
    t: nat,
    matrix: Option<Seq<int>>,
    after: R,
)
    requires
        may_attempt::<F, R>(before, t, matrix, after),
    ensures
        may_generate::<F, R>(before, t, 1, matrix, after),
{
    if matrix is None {
        assert(may_generate::<F, R>(after, t, 0, matrix, after));
    }
}

/// Attempts that follow others which gave no matrix go on with these.
pub proof fn lemma_generation_goes_on<F: PrimeField, R: FieldRng<F>>(
    before: R,
    t: nat,
    n: nat,
    between: R,
    k: nat,
    matrix: Option<Seq<int>>,
    after: R,
)
    requires
        may_generate::<F, R>(before, t, n, None, between),
        may_generate::<F, R>(between, t, k, matrix, after),
    ensures
        may_generate::<F, R>(before, t, n + k, matrix, after),
    decreases n,
{
    if n > 0 {
        let m = (n - 1) as nat;
        let next = choose|next: R| #[trigger]
            may_attempt::<F, R>(before, t, None, next) && may_generate::<F, R>(
                next,
                t,
                m,
                None,
                between,
            );
        lemma_generation_goes_on::<F, R>(next, t, m, between, k, matrix, after);
        assert((n + k - 1) as nat == m + k);
    }
}

/// As `generate_mds_matrix`, but with a bound on the number of draws: there is no matrix if none
/// of `attempts` gave different points, and another call goes on from there.
pub fn generate_mds_matrix_within<E: PoseidonEngine, R: FieldRng<E::Fr>>(
    t: u32,
    rng: &mut R,
    attempts: u64,
) -> (r: Option<Vec<E::Fr>>)
    requires
        t * t <= u32::MAX,
    ensures
        may_generate::<E::Fr, R>(
            *old(rng),
            t as nat,
            attempts as nat,
            matrix_residues(r),
            *final(rng),
        ),
        r matches Some(m) ==> comes_from_points(E::Fr::modulus(), t as nat, residues(m@)),
        t == 0 && attempts > 0 ==> r is Some,
        attempts == 0 ==> r is None,
{
    let mut left: u64 = attempts;
    assert(may_generate::<E::Fr, R>(*rng, t as nat, 0, None, *rng));
    while left > 0
        invariant
            left <= attempts,
            t * t <= u32::MAX,
            t == 0 ==> left == attempts,
            may_generate::<E::Fr, R>(
                *old(rng),
                t as nat,
                (attempts - left) as nat,
                None,
                *rng,
            ),
        decreases left,
    {
        let ghost before = *rng;
        let ghost used = (attempts - left) as nat;
        let m = attempt_mds_matrix::<E, R>(t, rng);
        let ghost matrix = matrix_residues(m);
        proof {
            lemma_one_attempt::<E::Fr, R>(before, t as nat, matrix, *rng);
            lemma_generation_goes_on::<E::Fr, R>(
                *old(rng),
                t as nat,
                used,
                before,
                1,
                matrix,
                *rng,
            );
        }
        if m.is_some() {
            proof {
                lemma_spare_attempts::<E::Fr, R>(
                    *old(rng),
                    t as nat,
                    used + 1,
                    attempts as nat,
                    matrix->0,
                    *rng,
                );
            }
            return m;
        }
        left -= 1;
    }
    None
}

/// Attempts to spare make no difference to a matrix.
pub proof fn lemma_spare_attempts<F: PrimeField, R: FieldRng<F>>(
    before: R,
    t: nat,
    n: nat,
    more: nat,
    matrix: Seq<int>,
    after: R,
)
    requires
        n <= more,
        may_generate::<F, R>(before, t, n, Some(matrix), after),
    ensures
        may_generate::<F, R>(before, t, more, Some(matrix), after),
    decreases n,
{
    if n > 0 && !may_attempt::<F, R>(before, t, Some(matrix), after) {
        let next = choose|next: R| #[trigger]
            may_attempt::<F, R>(before, t, None, next) && may_generate::<F, R>(
                next,
                t,
                (n - 1) as nat,
                Some(matrix),
                after,
            );
        lemma_spare_attempts::<F, R>(
            next,
            t,
            (n - 1) as nat,
            (more - 1) as nat,
            matrix,
            after,
        );
    }
}

} // verus!
