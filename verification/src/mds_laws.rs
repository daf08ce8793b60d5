//! Laws of the matrices: why inverse differences mix well, and how drawing them ends.

use vstd::prelude::*;
use vstd::arithmetic::div_mod::{lemma_fundamental_div_mod, lemma_mod_bound, lemma_small_mod};
use crate::field::{PrimeField, in_range, lemma_inverse_unique, residues};
use crate::mds::{FieldRng, ends, ends_within, entry, is_cauchy, lemma_generation_goes_on,
    may_attempt, may_draw_all, may_end_with, may_generate};
use crate::permutation::dot;
use crate::primes::{is_prime, lemma_cancel, lemma_difference_is_not_zero, lemma_multiples_add,
    lemma_multiples_mul, lemma_one_mod};

verus! {

/// Whether `n` holds, row by row, inverses modulo `p` of the differences of `x` and `y`, and
/// these points are all different.
spec fn inverts_differences(p: int, x: Seq<int>, y: Seq<int>, n: Seq<Seq<int>>, k: int) -> bool {
    &&& x.len() >= k
    &&& y.len() >= k
    &&& n.len() >= k
    &&& forall|i: int, j: int|
        #![trigger n[i][j]]
        0 <= i < k && 0 <= j < k ==> ((x[i] - y[j]) * n[i][j]) % p == 1
    &&& forall|i: int, j: int|
        #![trigger x[i], x[j]]
        0 <= i < k && 0 <= j < k && i != j ==> (x[i] - x[j]) % p != 0
    &&& forall|i: int, j: int|
        #![trigger y[i], y[j]]
        0 <= i < k && 0 <= j < k && i != j ==> (y[i] - y[j]) % p != 0
}

/// What becomes of the coefficients when the last row and column are eliminated.
spec fn eliminated(c: Seq<int>, y: Seq<int>, last_row: Seq<int>, last: int) -> Seq<int> {
    Seq::new(last as nat, |j: int| c[j] * (y[j] - y[last]) * last_row[j])
}

/// Eliminating, in one column.
proof fn lemma_eliminate_term(p: int, xi: int, xk: int, yj: int, yk: int, nij: int, nkj: int)
    requires
        1 < p,
        ((xi - yj) * nij) % p == 1,
        ((xk - yj) * nkj) % p == 1,
    ensures
        ((xi - yk) * nij - (xk - yk) * nkj - (xk - xi) * (yj - yk) * nij * nkj) % p == 0,
{
    let a = (xi - yj) * nij - 1;
    let b = (xk - yj) * nkj - 1;
    let d = yj - yk;
    lemma_one_mod(p, (xi - yj) * nij);
    lemma_one_mod(p, (xk - yj) * nkj);
    lemma_multiples_mul(p, a, 1 + d * nkj);
    lemma_multiples_mul(p, b, 1 + d * nij);
    lemma_multiples_add(p, a * (1 + d * nkj), b * (1 + d * nij));
    // Both sides in the products f, g, d nij and d nkj.
    let f = (xi - yj) * nij;
    let g = (xk - yj) * nkj;
    let e = d * nij;
    let h = d * nkj;
    assert((xi - yk) * nij == f + e) by (nonlinear_arith)
        requires
            f == (xi - yj) * nij,
            e == (yj - yk) * nij,
    ;
    assert((xk - yk) * nkj == g + h) by (nonlinear_arith)
        requires
            g == (xk - yj) * nkj,
            h == (yj - yk) * nkj,
    ;
    assert((xk - xi) * d * nij * nkj == g * e - f * h) by {
        assert((xk - yj) * d * nij * nkj == ((xk - yj) * nkj) * (d * nij)) by (nonlinear_arith);
        assert((xi - yj) * d * nij * nkj == ((xi - yj) * nij) * (d * nkj)) by (nonlinear_arith);
        lemma_split_product(xk - yj, xi - yj, d, nij, nkj);
    }
    assert((f - 1) * (1 + h) == f + f * h - 1 - h) by (nonlinear_arith);
    assert((g - 1) * (1 + e) == g + g * e - 1 - e) by (nonlinear_arith);
}

/// A difference in front of a product.
proof fn lemma_split_product(a: int, b: int, d: int, n: int, m: int)
    ensures
        (a - b) * d * n * m == a * d * n * m - b * d * n * m,
{
    assert((a - b) * d == a * d - b * d) by (nonlinear_arith);
    let (u, v) = (a * d, b * d);
    assert((u - v) * n == u * n - v * n) by (nonlinear_arith);
    let (r, s) = (u * n, v * n);
    assert((r - s) * m == r * m - s * m) by (nonlinear_arith);
}

/// Eliminating, in the first `n` columns.
proof fn lemma_eliminate_sum(
    p: int,
    xi: int,
    xk: int,
    y: Seq<int>,
    row_i: Seq<int>,
    row_k: Seq<int>,
    c: Seq<int>,
    last: int,
    n: int,
)
    requires
        1 < p,
        0 <= n <= last,
        forall|j: int| #![trigger row_i[j]] 0 <= j < n ==> ((xi - y[j]) * row_i[j]) % p == 1,
        forall|j: int| #![trigger row_k[j]] 0 <= j < n ==> ((xk - y[j]) * row_k[j]) % p == 1,
    ensures
        ((xi - y[last]) * dot(c, row_i, n) - (xk - y[last]) * dot(c, row_k, n) - (xk - xi) * dot(
            eliminated(c, y, row_k, last),
            row_i,
            n,
        )) % p == 0,
    decreases n,
{
    if n == 0 {
        assert((xi - y[last]) * 0 - (xk - y[last]) * 0 - (xk - xi) * 0 == 0);
        lemma_small_mod(0, p as nat);
    } else {
        let m = n - 1;
        let e = eliminated(c, y, row_k, last);
        lemma_eliminate_sum(p, xi, xk, y, row_i, row_k, c, last, m);
        lemma_eliminate_term(p, xi, xk, y[m], y[last], row_i[m], row_k[m]);
        let u = xi - y[last];
        let v = xk - y[last];
        let w = xk - xi;
        let d = y[m] - y[last];
        let ni = row_i[m];
        let nk = row_k[m];
        let cm = c[m];
        let s_i = dot(c, row_i, m);
        let s_k = dot(c, row_k, m);
        let s_e = dot(e, row_i, m);
        let head = u * s_i - v * s_k - w * s_e;
        let term = u * ni - v * nk - w * d * ni * nk;
        lemma_multiples_mul(p, term, cm);
        lemma_multiples_add(p, head, cm * term);
        assert(e[m] == cm * d * nk);
        assert(u * (s_i + cm * ni) == u * s_i + cm * (u * ni)) by (nonlinear_arith);
        assert(v * (s_k + cm * nk) == v * s_k + cm * (v * nk)) by (nonlinear_arith);
        assert(w * (s_e + (cm * d * nk) * ni) == w * s_e + cm * (w * d * ni * nk)) by {
            assert(w * ((cm * d * nk) * ni) == cm * (w * d * ni * nk)) by (nonlinear_arith);
            assert(w * (s_e + (cm * d * nk) * ni) == w * s_e + w * ((cm * d * nk) * ni))
                by (nonlinear_arith);
        }
        let (r, s, q) = (u * ni, v * nk, w * d * ni * nk);
        assert(cm * (r - s - q) == cm * r - cm * s - cm * q) by (nonlinear_arith);
    }
}

/// Only the zero combination of the columns vanishes in every row.
proof fn lemma_trivial_kernel(
    p: int,
    x: Seq<int>,
    y: Seq<int>,
    n: Seq<Seq<int>>,
    c: Seq<int>,
    k: int,
)
    requires
        is_prime(p),
        0 <= k <= c.len(),
        inverts_differences(p, x, y, n, k),
        forall|i: int| #![trigger n[i]] 0 <= i < k ==> dot(c, n[i], k) % p == 0,
    ensures
        forall|j: int| 0 <= j < k ==> #[trigger] c[j] % p == 0,
    decreases k,
{
    if k > 0 {
        let last = k - 1;
        let e = eliminated(c, y, n[last], last);
        assert(((x[last] - y[last]) * n[last][last]) % p == 1);
        assert forall|i: int| #![trigger n[i]] 0 <= i < last implies dot(e, n[i], last) % p == 0 by {
            assert(n[i][last] == n[i][last]);
            assert(forall|j: int| 0 <= j < last ==> ((x[i] - y[j]) * #[trigger] n[i][j]) % p == 1);
            assert(forall|j: int|
                0 <= j < last ==> ((x[last] - y[j]) * #[trigger] n[last][j]) % p == 1);
            lemma_eliminate_sum(p, x[i], x[last], y, n[i], n[last], c, last, last);
            let u = x[i] - y[last];
            let v = x[last] - y[last];
            let w = x[last] - x[i];
            let s_i = dot(c, n[i], last);
            let s_k = dot(c, n[last], last);
            let s_e = dot(e, n[i], last);
            let ni = n[i][last];
            let nk = n[last][last];
            let cl = c[last];
            // Both rows vanish, and so does what they were multiplied by.
            lemma_multiples_mul(p, s_i + cl * ni, u);
            lemma_multiples_mul(p, s_k + cl * nk, v);
            lemma_multiples_add(p, u * (s_i + cl * ni), v * (s_k + cl * nk));
            // The last column cancels.
            lemma_one_mod(p, u * ni);
            lemma_one_mod(p, v * nk);
            lemma_multiples_add(p, u * ni - 1, v * nk - 1);
            lemma_multiples_mul(p, (u * ni - 1) - (v * nk - 1), cl);
            let rows = u * (s_i + cl * ni) - v * (s_k + cl * nk);
            let column = ((u * ni - 1) - (v * nk - 1)) * cl;
            let rest = u * s_i - v * s_k - w * s_e;
            lemma_multiples_add(p, rows, column);
            lemma_multiples_add(p, rows - column, rest);
            let (f, g) = (u * ni, v * nk);
            assert(u * (s_i + cl * ni) == u * s_i + (u * ni) * cl) by (nonlinear_arith);
            assert(v * (s_k + cl * nk) == v * s_k + (v * nk) * cl) by (nonlinear_arith);
            assert(((f - 1) - (g - 1)) * cl == f * cl - g * cl) by (nonlinear_arith);
            assert(w * s_e == rows - column - rest);
            assert((x[last] - x[i]) % p != 0);
            lemma_cancel(p, w, s_e);
        }
        lemma_trivial_kernel(p, x, y, n, e, last);
        assert forall|j: int| 0 <= j < last implies #[trigger] c[j] % p == 0 by {
            assert(e[j] % p == 0);
            let d = y[j] - y[last];
            let nk = n[last][j];
            lemma_no_multiple(p, x[last] - y[j], nk);
            assert(c[j] * d * nk == nk * (d * c[j])) by (nonlinear_arith);
            lemma_cancel(p, nk, d * c[j]);
            assert((y[j] - y[last]) % p != 0);
            lemma_cancel(p, d, c[j]);
        }
        lemma_dot_of_multiples(p, c, n[last], last);
        let cl = c[last];
        let nk = n[last][last];
        lemma_multiples_add(p, dot(c, n[last], k), dot(c, n[last], last));
        lemma_no_multiple(p, x[last] - y[last], nk);
        assert(cl * nk == nk * cl) by (nonlinear_arith);
        lemma_cancel(p, nk, cl);
    }
}

/// A factor of what is one modulo `p` is no multiple of `p`.
proof fn lemma_no_multiple(p: int, a: int, b: int)
    requires
        1 < p,
        (a * b) % p == 1,
    ensures
        b % p != 0,
{
    if b % p == 0 {
        lemma_multiples_mul(p, b, a);
    }
}

/// A combination with multiples for its coefficients is a multiple.
proof fn lemma_dot_of_multiples(p: int, a: Seq<int>, b: Seq<int>, n: int)
    requires
        1 < p,
        0 <= n <= a.len(),
        forall|j: int| 0 <= j < n ==> #[trigger] a[j] % p == 0,
    ensures
        dot(a, b, n) % p == 0,
    decreases n,
{
    if n == 0 {
        lemma_small_mod(0, p as nat);
    } else {
        lemma_dot_of_multiples(p, a, b, n - 1);
        lemma_multiples_mul(p, a[n - 1], b[n - 1]);
        lemma_multiples_add(p, dot(a, b, n - 1), a[n - 1] * b[n - 1]);
    }
}

/// The entries of row `i` in the columns `cols`.
pub open spec fn row_part(m: Seq<int>, t: int, i: int, cols: Seq<int>) -> Seq<int> {
    Seq::new(cols.len(), |b: int| entry(m, t, i, cols[b]))
}

/// Every square submatrix of a generated matrix is nonsingular: whichever rows and equally many
/// columns are picked, only the zero combination of the columns vanishes modulo `p` in all of the
/// rows.
pub proof fn law_square_submatrices_are_nonsingular(
    p: int,
    x: Seq<int>,
    y: Seq<int>,
    m: Seq<int>,
    rows: Seq<int>,
    cols: Seq<int>,
    c: Seq<int>,
)
    requires
        is_prime(p),
        in_range(p, x),
        in_range(p, y),
        (x + y).no_duplicates(),
        is_cauchy(p, x, y, m),
        rows.no_duplicates(),
        cols.no_duplicates(),
        rows.len() == cols.len(),
        c.len() == cols.len(),
        in_range(x.len() as int, rows),
        in_range(x.len() as int, cols),
        forall|a: int|
            0 <= a < rows.len() ==> dot(
                c,
                row_part(m, x.len() as int, #[trigger] rows[a], cols),
                c.len() as int,
            ) % p == 0,
    ensures
        forall|b: int| 0 <= b < c.len() ==> #[trigger] c[b] % p == 0,
{
    let t = x.len() as int;
    let k = rows.len() as int;
    let xs = Seq::new(rows.len(), |a: int| x[rows[a]]);
    let ys = Seq::new(cols.len(), |b: int| y[cols[b]]);
    let n = Seq::new(rows.len(), |a: int| row_part(m, t, rows[a], cols));
    let both = x + y;
    assert forall|i: int, j: int|
        #![trigger n[i][j]]
        0 <= i < k && 0 <= j < k implies ((xs[i] - ys[j]) * n[i][j]) % p == 1 by {
        assert(n[i][j] == entry(m, t, rows[i], cols[j]));
    }
    assert forall|i: int, j: int|
        #![trigger xs[i], xs[j]]
        0 <= i < k && 0 <= j < k && i != j implies (xs[i] - xs[j]) % p != 0 by {
        assert(rows[i] != rows[j]);
        assert(both[rows[i]] != both[rows[j]]);
        lemma_difference_is_not_zero(p, xs[i], xs[j]);
    }
    assert forall|i: int, j: int|
        #![trigger ys[i], ys[j]]
        0 <= i < k && 0 <= j < k && i != j implies (ys[i] - ys[j]) % p != 0 by {
        assert(cols[i] != cols[j]);
        assert(both[t + cols[i]] != both[t + cols[j]]);
        lemma_difference_is_not_zero(p, ys[i], ys[j]);
    }
    assert forall|i: int| #![trigger n[i]] 0 <= i < k implies dot(c, n[i], k) % p == 0 by {
        assert(n[i] == row_part(m, t, rows[i], cols));
    }
    lemma_trivial_kernel(p, xs, ys, n, c, k);
}

/// Generation may be cut into calls with a bound each: what comes after calls that gave no matrix
/// is what may come of drawing without a break.
pub proof fn law_bounded_generation_goes_on<F: PrimeField, R: FieldRng<F>>(
    before: R,
    t: nat,
    attempts: nat,
    between: R,
    matrix: Seq<int>,
    after: R,
)
    requires
        may_generate::<F, R>(before, t, attempts, None, between),
        may_end_with::<F, R>(between, t, matrix, after),
    ensures
        may_end_with::<F, R>(before, t, matrix, after),
{
    let rest = choose|rest: nat| #[trigger]
        may_generate::<F, R>(between, t, rest, Some(matrix), after);
    lemma_generation_goes_on::<F, R>(before, t, attempts, between, rest, Some(matrix), after);
}

/// A matrix of no rows needs no points, so generating one ends whatever the source is.
pub proof fn law_generating_no_rows_ends<F: PrimeField, R: FieldRng<F>>(source: R)
    ensures
        ends::<F, R>(source, 0),
{
    assert forall|after: R| !#[trigger] may_attempt::<F, R>(source, 0, None, after) by {
        assert forall|points: Seq<F>| points.len() == 0 implies residues(points).no_duplicates() by {}
    }
    assert(ends_within::<F, R>(source, 0, 1));
}

/// A matrix of points `x` for its rows and `y` for its columns holds, row by row, what gives one
/// when multiplied by the difference of the point of its row and that of its column.
pub proof fn law_entries_invert_the_differences(
    p: int,
    x: Seq<int>,
    y: Seq<int>,
    m: Seq<int>,
    i: int,
    j: int,
)
    requires
        is_cauchy(p, x, y, m),
        0 <= i < x.len(),
        0 <= j < y.len(),
    ensures
        y.len() == x.len(),
        m.len() == x.len() * x.len(),
        0 <= i * x.len() + j < m.len(),
        0 <= m[i * x.len() + j] < p,
        ((x[i] - y[j]) * m[i * x.len() + j]) % p == 1,
{
    let t = x.len() as int;
    assert(0 <= i * t && i * t + j < t * t) by (nonlinear_arith)
        requires
            0 <= i < t,
            0 <= j < t,
    ;
    assert(((x[i] - y[j]) * entry(m, t, i, j)) % p == 1);
}

/// Points have one matrix.
pub proof fn law_points_have_one_matrix(
    p: int,
    x: Seq<int>,
    y: Seq<int>,
    m: Seq<int>,
    n: Seq<int>,
)
    requires
        1 < p,
        is_cauchy(p, x, y, m),
        is_cauchy(p, x, y, n),
    ensures
        m == n,
{
    let t = x.len() as int;
    assert forall|k: int| 0 <= k < m.len() implies m[k] == n[k] by {
        if t == 0 {
            assert(t * t == 0) by (nonlinear_arith)
                requires
                    t == 0,
            ;
        } else {
            let (i, j) = (k / t, k % t);
            lemma_fundamental_div_mod(k, t);
            lemma_mod_bound(k, t);
            assert(0 <= i < t) by (nonlinear_arith)
                requires
                    0 <= k < t * t,
                    k == t * i + j,
                    0 <= j < t,
            ;
            assert(t * i == i * t) by (nonlinear_arith);
            law_entries_invert_the_differences(p, x, y, m, i, j);
            law_entries_invert_the_differences(p, x, y, n, i, j);
            lemma_inverse_unique(p, x[i] - y[j], m[k], n[k]);
        }
    }
    assert(m =~= n);
}

/// Draws come one after the other: there is a state of the source between each two of them, and
/// from each state to the next the source may give just that element.
pub proof fn law_draws_come_in_order<F: PrimeField, R: FieldRng<F>>(
    before: R,
    elements: Seq<F>,
    after: R,
)
    ensures
        may_draw_all(before, elements, after) <==> exists|states: Seq<R>|
            #![trigger states.len()]
            states.len() == elements.len() + 1 && states[0] == before && states.last() == after && (
            forall|i: int|
                0 <= i < elements.len() ==> R::may_draw(
                    states[i],
                    #[trigger] elements[i],
                    states[i + 1],
                )),
    decreases elements.len(),
{
    let n = elements.len() as int;
    if n == 0 {
        if before == after {
            let states = seq![before];
            assert(states.len() == elements.len() + 1 && states[0] == before && states.last()
                == after);
        }
    } else {
        let head = elements.drop_last();
        if may_draw_all(before, elements, after) {
            let between = choose|between: R|
                may_draw_all(before, head, between) && #[trigger] R::may_draw(
                    between,
                    elements.last(),
                    after,
                );
            law_draws_come_in_order(before, head, between);
            let shorter = choose|states: Seq<R>|
                #![trigger states.len()]
                states.len() == head.len() + 1 && states[0] == before && states.last() == between
                    && (forall|i: int|
                    0 <= i < head.len() ==> R::may_draw(
                        states[i],
                        #[trigger] head[i],
                        states[i + 1],
                    ));
            let states = shorter.push(after);
            assert forall|i: int| 0 <= i < elements.len() implies R::may_draw(
                states[i],
                #[trigger] elements[i],
                states[i + 1],
            ) by {
                if i < n - 1 {
                    assert(head[i] == elements[i]);
                }
            }
            assert(states.len() == elements.len() + 1 && states[0] == before && states.last()
                == after);
        }
        if exists|states: Seq<R>|
            #![trigger states.len()]
            states.len() == elements.len() + 1 && states[0] == before && states.last() == after && (
            forall|i: int|
                0 <= i < elements.len() ==> R::may_draw(
                    states[i],
                    #[trigger] elements[i],
                    states[i + 1],
                )) {
            let states = choose|states: Seq<R>|
                #![trigger states.len()]
                states.len() == elements.len() + 1 && states[0] == before && states.last() == after
                    && (forall|i: int|
                    0 <= i < elements.len() ==> R::may_draw(
                        states[i],
                        #[trigger] elements[i],
                        states[i + 1],
                    ));
            let shorter = states.drop_last();
            let between = shorter.last();
            assert forall|i: int| 0 <= i < head.len() implies R::may_draw(
                shorter[i],
                #[trigger] head[i],
                shorter[i + 1],
            ) by {
                assert(head[i] == elements[i]);
            }
            assert(shorter.len() == head.len() + 1 && shorter[0] == before && shorter.last()
                == between);
            law_draws_come_in_order(before, head, between);
            assert(elements[n - 1] == elements.last());
            assert(R::may_draw(between, elements.last(), after));
        }
    }
}

/// What an attempt gives: it draws twice as many elements as there are rows. If they are all
/// different, the first half are the points of the rows and the second half those of the columns of
/// the matrix; if two of them are the same, there is none.
pub proof fn law_an_attempt_draws_rows_and_columns<F: PrimeField, R: FieldRng<F>>(
    before: R,
    t: nat,
    matrix: Option<Seq<int>>,
    after: R,
) -> (points: Seq<F>)
    requires
        may_attempt::<F, R>(before, t, matrix, after),
    ensures
        points.len() == 2 * t,
        may_draw_all(before, points, after),
        matrix is Some <==> (forall|a: int, b: int|
            0 <= a < b < 2 * t ==> #[trigger] points[a].residue() != #[trigger] points[b].residue()),
        matrix matches Some(m) ==> m.len() == t * t && (forall|i: int, j: int|
            #![trigger m[i * t + j]]
            0 <= i < t && 0 <= j < t ==> 0 <= m[i * t + j] < F::modulus() && ((points[i].residue()
                - points[t + j].residue()) * m[i * t + j]) % F::modulus() == 1),
{
    let points = choose|points: Seq<F>|
        points.len() == 2 * t && #[trigger] may_draw_all(before, points, after) && if residues(
            points,
        ).no_duplicates() {
            matrix matches Some(m) && is_cauchy(
                F::modulus(),
                residues(points).take(t as int),
                residues(points).skip(t as int),
                m,
            )
        } else {
            matrix is None
        };
    let s = residues(points);
    if matrix is Some {
        assert forall|a: int, b: int| 0 <= a < b < 2 * t implies #[trigger] points[a].residue()
            != #[trigger] points[b].residue() by {
            assert(s[a] != s[b]);
        }
        let m = matrix->0;
        assert forall|i: int, j: int|
            #![trigger m[i * t + j]]
            0 <= i < t && 0 <= j < t implies 0 <= m[i * t + j] < F::modulus() && ((
        points[i].residue() - points[t + j].residue()) * m[i * t + j]) % F::modulus() == 1 by {
            law_entries_invert_the_differences(
                F::modulus(),
                s.take(t as int),
                s.skip(t as int),
                m,
                i,
                j,
            );
            assert(s.take(t as int)[i] == points[i].residue());
            assert(s.skip(t as int)[j] == points[t + j].residue());
        }
    } else {
        let (a, b) = choose|a: int, b: int|
            0 <= a < s.len() && 0 <= b < s.len() && a != b && s[a] == s[b];
        assert(points[a].residue() == points[b].residue());
    }
    points
}

/// Elements of which two are the same may always be drawn without a matrix coming of them.
pub proof fn law_equal_points_give_no_matrix<F: PrimeField, R: FieldRng<F>>(
    before: R,
    t: nat,
    points: Seq<F>,
    after: R,
)
    requires
        points.len() == 2 * t,
        may_draw_all(before, points, after),
        exists|a: int, b: int|
            0 <= a < b < 2 * t && #[trigger] points[a].residue() == #[trigger] points[b].residue(),
    ensures
        may_attempt::<F, R>(before, t, None, after),
{
    let (a, b) = choose|a: int, b: int|
        0 <= a < b < 2 * t && #[trigger] points[a].residue() == #[trigger] points[b].residue();
    let s = residues(points);
    assert(s[a] == s[b]);
    assert(!s.no_duplicates());
}

/// A generation is attempts, one after the other, each from the state that the one before has left:
/// all but the last give no matrix, and the last one gives what is given. With none to give, there
/// are as many as were allowed.
pub proof fn law_the_first_matrix_is_given<F: PrimeField, R: FieldRng<F>>(
    before: R,
    t: nat,
    attempts: nat,
    matrix: Option<Seq<int>>,
    after: R,
) -> (states: Seq<R>)
    requires
        may_generate::<F, R>(before, t, attempts, matrix, after),
    ensures
        1 <= states.len() <= attempts + 1,
        states[0] == before,
        states.last() == after,
        matrix is None ==> states.len() == attempts + 1,
        matrix is Some ==> states.len() >= 2,
        forall|i: int|
            0 <= i < states.len() - 2 ==> may_attempt::<F, R>(
                #[trigger] states[i],
                t,
                None,
                states[i + 1],
            ),
        states.len() >= 2 ==> may_attempt::<F, R>(
            states[states.len() - 2],
            t,
            matrix,
            states.last(),
        ),
    decreases attempts,
{
    if attempts == 0 {
        seq![before]
    } else if matrix is Some && may_attempt::<F, R>(before, t, matrix, after) {
        seq![before, after]
    } else {
        let between = choose|between: R| #[trigger]
            may_attempt::<F, R>(before, t, None, between) && may_generate::<F, R>(
                between,
                t,
                (attempts - 1) as nat,
                matrix,
                after,
            );
        let rest = law_the_first_matrix_is_given::<F, R>(
            between,
            t,
            (attempts - 1) as nat,
            matrix,
            after,
        );
        let states = seq![before] + rest;
        assert(states.last() == rest.last());
        assert forall|i: int| 0 <= i < states.len() - 2 implies may_attempt::<F, R>(
            #[trigger] states[i],
            t,
            None,
            states[i + 1],
        ) by {
            if i > 0 {
                assert(states[i] == rest[i - 1] && states[i + 1] == rest[i]);
            }
        }
        if rest.len() >= 2 {
            assert(states[states.len() - 2] == rest[rest.len() - 2]);
        }
        states
    }
}

/// Drawing until there is a matrix ends with the matrix of the first attempt that gives one.
pub proof fn law_drawing_ends_with_the_first_matrix<F: PrimeField, R: FieldRng<F>>(
    before: R,
    t: nat,
    matrix: Seq<int>,
    after: R,
) -> (states: Seq<R>)
    requires
        may_end_with::<F, R>(before, t, matrix, after),
    ensures
        states.len() >= 2,
        states[0] == before,
        states.last() == after,
        forall|i: int|
            0 <= i < states.len() - 2 ==> may_attempt::<F, R>(
                #[trigger] states[i],
                t,
                None,
                states[i + 1],
            ),
        may_attempt::<F, R>(states[states.len() - 2], t, Some(matrix), after),
{
    let attempts = choose|attempts: nat| #[trigger]
        may_generate::<F, R>(before, t, attempts, Some(matrix), after);
    law_the_first_matrix_is_given::<F, R>(before, t, attempts, Some(matrix), after)
}

/// Drawing ends for every source that cannot go without a matrix for some number of attempts in a
/// row.
pub proof fn law_drawing_ends_without_endless_failure<F: PrimeField, R: FieldRng<F>>(
    before: R,
    t: nat,
    attempts: nat,
)
    requires
        forall|after: R| !#[trigger] may_generate::<F, R>(before, t, attempts, None, after),
    ensures
        ends::<F, R>(before, t),
{
    lemma_ends_within::<F, R>(before, t, attempts);
}

/// As before, with the number of attempts.
proof fn lemma_ends_within<F: PrimeField, R: FieldRng<F>>(before: R, t: nat, attempts: nat)
    requires
        forall|after: R| !#[trigger] may_generate::<F, R>(before, t, attempts, None, after),
    ensures
        ends_within::<F, R>(before, t, attempts),
    decreases attempts,
{
    if attempts == 0 {
        assert(may_generate::<F, R>(before, t, 0, None, before));
    } else {
        let left = (attempts - 1) as nat;
        assert forall|next: R| #[trigger] may_attempt::<F, R>(before, t, None, next) implies
            ends_within::<F, R>(next, t, left) by {
            assert forall|after: R| !#[trigger] may_generate::<F, R>(next, t, left, None, after) by {
                if may_generate::<F, R>(next, t, left, None, after) {
                    assert(may_generate::<F, R>(before, t, attempts, None, after));
                }
            }
            lemma_ends_within::<F, R>(next, t, left);
        }
    }
}

} // verus!
