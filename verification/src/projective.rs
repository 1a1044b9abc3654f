//! The projective plane of prime order `n`, spelled out as sets of symbols.
//!
//! The first `n * n` alphabet symbols fill an `n` by `n` grid row-major; the
//! next `n + 1` stand for the points at infinity, one per parallel class of
//! lines.  Every line of the affine plane, together with its class's symbol
//! at infinity, makes one card; the final card is the line at infinity
//! itself.  This module defines each card of that deck as a specification
//! value and proves the two combinatorial facts the game rests on: every
//! card carries `n + 1` symbols, and every two cards share exactly one.

use crate::math::{is_prime, mod_inv};
use crate::spotitcard::{
    lemma_symbol_at_injective, symbol_at, SpotItSymbol, ALPHABET_SIZE,
};
use vstd::arithmetic::div_mod::{
    lemma_fundamental_div_mod, lemma_mod_bound, lemma_mod_equivalence, lemma_small_mod,
};
use vstd::prelude::*;

verus! {

/// How many cards (and how many symbols) the plane of order `n` needs:
/// `n * n + n + 1`.
pub open spec fn plane_size(n: int) -> int {
    n * n + n + 1
}

/// Whether the fixed alphabet can supply the plane of order `n`.
pub open spec fn fits_alphabet(n: int) -> bool {
    plane_size(n) <= ALPHABET_SIZE
}

/// The orders the generator accepts: the primes, and the degenerate
/// one-point plane of order 1.
pub open spec fn admissible_order(n: int) -> bool {
    n == 1 || is_prime(n)
}

/// The grid symbol in row `r`, column `x`: the grid is the row-major prefix
/// of the alphabet.
pub open spec fn grid_symbol(n: int, r: int, x: int) -> SpotItSymbol {
    symbol_at(r * n + x)
}

/// The symbol at infinity of direction class `k`: drawn right after the
/// grid.
pub open spec fn infinity_symbol(n: int, k: int) -> SpotItSymbol {
    symbol_at(n * n + k)
}

/// The row met in column `x` by the line of multiplier `m` and offset `c`.
pub open spec fn line_row(n: int, m: int, c: int, x: int) -> int {
    (m * x + c) % n
}

/// The multiplier (reduced direction) of slope class `k`: class 0 is
/// horizontal, and class `k >= 2` climbs by the inverse of `k - 1` modulo
/// `n`.  Class 1, the vertical direction, has no multiplier.
pub open spec fn class_multiplier(n: int, k: int) -> int {
    if k == 0 {
        0
    } else {
        mod_inv((k - 1) as nat, n as nat) as int
    }
}

/// The grid symbols of the line with multiplier `m` and offset `c`, column
/// by column.
pub open spec fn line_points(n: int, m: int, c: int) -> Seq<SpotItSymbol> {
    Seq::new(n as nat, |x: int| grid_symbol(n, line_row(n, m, c, x), x))
}

/// The grid symbols of the vertical line in column `c`, row by row.
pub open spec fn column_points(n: int, c: int) -> Seq<SpotItSymbol> {
    Seq::new(n as nat, |y: int| grid_symbol(n, y, c))
}

/// The symbols at infinity, class by class.
pub open spec fn infinity_points(n: int) -> Seq<SpotItSymbol> {
    Seq::new((n + 1) as nat, |k: int| infinity_symbol(n, k))
}

/// The card of the line with multiplier `m` and offset `c` in class `k`.
pub open spec fn slant_card(n: int, m: int, c: int, k: int) -> Set<SpotItSymbol> {
    line_points(n, m, c).to_set().insert(infinity_symbol(n, k))
}

/// The card of the vertical line in column `c`.
pub open spec fn column_card(n: int, c: int) -> Set<SpotItSymbol> {
    column_points(n, c).to_set().insert(infinity_symbol(n, 1))
}

/// The final card: the line at infinity, all `n + 1` symbols at infinity.
pub open spec fn infinity_card(n: int) -> Set<SpotItSymbol> {
    infinity_points(n).to_set()
}

/// Card `i` of the generated deck of order `n`: the cards come class-major
/// (offsets 0 to `n - 1` within class `k`), and the line at infinity last.
pub open spec fn deck_card(n: int, i: int) -> Set<SpotItSymbol> {
    if i == n * n + n {
        infinity_card(n)
    } else if i / n == 1 {
        column_card(n, i % n)
    } else {
        slant_card(n, class_multiplier(n, i / n), i % n, i / n)
    }
}

/// An admissible order beyond 1 is prime.
pub proof fn lemma_admissible_beyond_one(n: int)
    requires
        admissible_order(n),
        n >= 2,
    ensures
        is_prime(n),
{
}

/// An order whose plane fits the alphabet is at most 9.
pub proof fn lemma_order_bound(n: int)
    requires
        n >= 1,
        fits_alphabet(n),
    ensures
        n <= 9,
{
    if n >= 10 {
        assert(n * n >= 100) by (nonlinear_arith)
            requires
                n >= 10,
        ;
    }
}

/// Grid indices stay below `n * n`, so below the infinity indices.
proof fn lemma_grid_index_bound(n: int, r: int, x: int)
    requires
        n >= 1,
        0 <= r < n,
        0 <= x < n,
    ensures
        0 <= r * n + x < n * n,
{
    assert(r * n + x < n * n) by (nonlinear_arith)
        requires
            0 <= r < n,
            0 <= x < n,
    ;
    assert(r * n >= 0) by (nonlinear_arith)
        requires
            r >= 0,
            n >= 1,
    ;
}

/// Distinct grid points carry distinct symbols.
pub proof fn lemma_grid_symbol_injective(n: int, r1: int, x1: int, r2: int, x2: int)
    requires
        n >= 1,
        fits_alphabet(n),
        0 <= r1 < n,
        0 <= x1 < n,
        0 <= r2 < n,
        0 <= x2 < n,
        grid_symbol(n, r1, x1) == grid_symbol(n, r2, x2),
    ensures
        r1 == r2,
        x1 == x2,
{
    lemma_grid_index_bound(n, r1, x1);
    lemma_grid_index_bound(n, r2, x2);
    lemma_symbol_at_injective(r1 * n + x1, r2 * n + x2);
    assert(r1 == r2 && x1 == x2) by (nonlinear_arith)
        requires
            r1 * n + x1 == r2 * n + x2,
            0 <= x1 < n,
            0 <= x2 < n,
            0 <= r1,
            0 <= r2,
    ;
}

/// A grid symbol is never a symbol at infinity.
pub proof fn lemma_grid_not_infinity(n: int, r: int, x: int, k: int)
    requires
        n >= 1,
        fits_alphabet(n),
        0 <= r < n,
        0 <= x < n,
        0 <= k <= n,
    ensures
        grid_symbol(n, r, x) != infinity_symbol(n, k),
{
    lemma_grid_index_bound(n, r, x);
    if grid_symbol(n, r, x) == infinity_symbol(n, k) {
        lemma_symbol_at_injective(r * n + x, n * n + k);
    }
}

/// Distinct classes have distinct symbols at infinity.
pub proof fn lemma_infinity_symbol_injective(n: int, k1: int, k2: int)
    requires
        n >= 1,
        fits_alphabet(n),
        0 <= k1 <= n,
        0 <= k2 <= n,
        infinity_symbol(n, k1) == infinity_symbol(n, k2),
    ensures
        k1 == k2,
{
    lemma_symbol_at_injective(n * n + k1, n * n + k2);
}

/// The multiplier of a non-vertical class is a residue below `n`, nonzero
/// for the climbing classes, and inverse to `k - 1` there.
pub proof fn lemma_multiplier_facts(n: int, k: int)
    requires
        admissible_order(n),
        0 <= k <= n,
        k != 1,
    ensures
        0 <= class_multiplier(n, k) < n,
        k == 0 ==> class_multiplier(n, k) == 0,
        k >= 2 ==> 1 <= class_multiplier(n, k) && ((k - 1) * class_multiplier(n, k)) % n
            == 1,
{
    if k >= 2 {
        lemma_admissible_beyond_one(n);
        crate::math::lemma_prime_coprime((k - 1) as nat, n as nat);
        crate::math::lemma_mod_inv_works((k - 1) as nat, n as nat);
        let m = mod_inv((k - 1) as nat, n as nat);
        assert(((k - 1) as nat * m) as int == (k - 1) * (m as int)) by (nonlinear_arith)
            requires
                k >= 2,
        ;
        if m == 0 {
            assert(((k - 1) as nat * m) == 0) by (nonlinear_arith)
                requires
                    m == 0,
            ;
            lemma_small_mod(0, n as nat);
            assert(false);
        }
    }
}

/// Distinct non-vertical classes have distinct multipliers.
pub proof fn lemma_multiplier_injective(n: int, k1: int, k2: int)
    requires
        admissible_order(n),
        0 <= k1 <= n,
        0 <= k2 <= n,
        k1 != 1,
        k2 != 1,
        k1 != k2,
    ensures
        class_multiplier(n, k1) != class_multiplier(n, k2),
{
    lemma_multiplier_facts(n, k1);
    lemma_multiplier_facts(n, k2);
    if class_multiplier(n, k1) == class_multiplier(n, k2) {
        let m = class_multiplier(n, k1);
        if k1 == 0 || k2 == 0 {
            // one multiplier is 0, the other at least 1
        } else {
            lemma_admissible_beyond_one(n);
            crate::math::lemma_prime_coprime(m as nat, n as nat);
            assert((m * (k1 - 1)) % n == 1 && (m * (k2 - 1)) % n == 1)
                by (nonlinear_arith)
                requires
                    ((k1 - 1) * m) % n == 1,
                    ((k2 - 1) * m) % n == 1,
            ;
            crate::math::lemma_mod_mul_cancel(
                m as nat,
                (k1 - 1) as nat,
                (k2 - 1) as nat,
                n as nat,
            );
        }
    }
}

/// A line card seen through its class and offset: class 1 is the vertical
/// line, every other class a slanted one.
pub open spec fn line_card(n: int, k: int, c: int) -> Set<SpotItSymbol> {
    if k == 1 {
        column_card(n, c)
    } else {
        slant_card(n, class_multiplier(n, k), c, k)
    }
}

/// Whether grid point `(r, x)` lies on the line of class `k` and offset
/// `c`.
pub open spec fn on_line(n: int, k: int, c: int, r: int, x: int) -> bool {
    if k == 1 {
        x == c
    } else {
        r == line_row(n, class_multiplier(n, k), c, x)
    }
}

/// A card index below the line at infinity names the line of class `i / n`
/// and offset `i % n`.
pub proof fn lemma_card_index(n: int, i: int)
    requires
        n >= 1,
        0 <= i < n * n + n,
    ensures
        0 <= i / n <= n,
        0 <= i % n < n,
        i == n * (i / n) + i % n,
        i / n == 1 <==> n <= i < 2 * n,
{
    lemma_fundamental_div_mod(i, n);
    lemma_mod_bound(i, n);
    let k = i / n;
    assert(0 <= k <= n) by (nonlinear_arith)
        requires
            i == n * k + i % n,
            0 <= i % n < n,
            0 <= i < n * n + n,
            n >= 1,
    ;
    assert(k == 1 <==> n <= i < 2 * n) by (nonlinear_arith)
        requires
            i == n * k + i % n,
            0 <= i % n < n,
            n >= 1,
    ;
}

/// Members of a line card are exactly the grid symbols of its points and
/// the class's symbol at infinity.
proof fn lemma_line_card_members(n: int, k: int, c: int, s: SpotItSymbol)
    requires
        admissible_order(n),
        fits_alphabet(n),
        0 <= k <= n,
        0 <= c < n,
    ensures
        line_card(n, k, c).contains(s) <==> (s == infinity_symbol(n, k) || exists|r: int, x: int|
            0 <= r < n && 0 <= x < n && #[trigger] on_line(n, k, c, r, x) && s == grid_symbol(
                n,
                r,
                x,
            )),
{
    if k == 1 {
        if column_card(n, c).contains(s) && s != infinity_symbol(n, k) {
            assert(column_points(n, c).contains(s));
            let y = choose|y: int|
                0 <= y < n && column_points(n, c)[y] == s;
            assert(on_line(n, k, c, y, c) && s == grid_symbol(n, y, c));
        }
        if s != infinity_symbol(n, k) && exists|r: int, x: int|
            0 <= r < n && 0 <= x < n && #[trigger] on_line(n, k, c, r, x) && s == grid_symbol(
                n,
                r,
                x,
            ) {
            let (r, x) = choose|r: int, x: int|
                0 <= r < n && 0 <= x < n && #[trigger] on_line(n, k, c, r, x) && s
                    == grid_symbol(n, r, x);
            assert(column_points(n, c)[r] == s);
            assert(column_points(n, c).contains(s));
        }
    } else {
        let m = class_multiplier(n, k);
        if slant_card(n, m, c, k).contains(s) && s != infinity_symbol(n, k) {
            assert(line_points(n, m, c).contains(s));
            let x = choose|x: int|
                0 <= x < n && line_points(n, m, c)[x] == s;
            lemma_mod_bound(m * x + c, n);
            assert(on_line(n, k, c, line_row(n, m, c, x), x));
        }
        if s != infinity_symbol(n, k) && exists|r: int, x: int|
            0 <= r < n && 0 <= x < n && #[trigger] on_line(n, k, c, r, x) && s == grid_symbol(
                n,
                r,
                x,
            ) {
            let (r, x) = choose|r: int, x: int|
                0 <= r < n && 0 <= x < n && #[trigger] on_line(n, k, c, r, x) && s
                    == grid_symbol(n, r, x);
            assert(line_points(n, m, c)[x] == s);
            assert(line_points(n, m, c).contains(s));
        }
    }
}

/// Every line card has a point in each column (class 1: each row), so its
/// grid symbols are `n` distinct ones; with the symbol at infinity the card
/// carries `n + 1` symbols.
proof fn lemma_line_card_size(n: int, k: int, c: int)
    requires
        admissible_order(n),
        fits_alphabet(n),
        0 <= k <= n,
        0 <= c < n,
    ensures
        line_card(n, k, c).len() == n + 1,
        line_card(n, k, c).finite(),
{
    lemma_order_bound(n);
    if k == 1 {
        let pts = column_points(n, c);
        assert(pts.no_duplicates()) by {
            assert forall|y1: int, y2: int|
                0 <= y1 < pts.len() && 0 <= y2 < pts.len() && y1 != y2 implies pts[y1]
                != pts[y2] by {
                if pts[y1] == pts[y2] {
                    lemma_grid_symbol_injective(n, y1, c, y2, c);
                }
            }
        }
        pts.unique_seq_to_set();
        vstd::seq_lib::seq_to_set_is_finite(pts);
        assert(!pts.to_set().contains(infinity_symbol(n, 1))) by {
            if pts.contains(infinity_symbol(n, 1)) {
                let y = choose|y: int| 0 <= y < n && pts[y] == infinity_symbol(n, 1);
                lemma_grid_not_infinity(n, y, c, 1);
            }
        }
    } else {
        lemma_multiplier_facts(n, k);
        let m = class_multiplier(n, k);
        let pts = line_points(n, m, c);
        assert(pts.no_duplicates()) by {
            assert forall|x1: int, x2: int|
                0 <= x1 < pts.len() && 0 <= x2 < pts.len() && x1 != x2 implies pts[x1]
                != pts[x2] by {
                if pts[x1] == pts[x2] {
                    lemma_mod_bound(m * x1 + c, n);
                    lemma_mod_bound(m * x2 + c, n);
                    lemma_grid_symbol_injective(
                        n,
                        line_row(n, m, c, x1),
                        x1,
                        line_row(n, m, c, x2),
                        x2,
                    );
                }
            }
        }
        pts.unique_seq_to_set();
        vstd::seq_lib::seq_to_set_is_finite(pts);
        assert(!pts.to_set().contains(infinity_symbol(n, k))) by {
            if pts.contains(infinity_symbol(n, k)) {
                let x = choose|x: int| 0 <= x < n && pts[x] == infinity_symbol(n, k);
                lemma_mod_bound(m * x + c, n);
                lemma_grid_not_infinity(n, line_row(n, m, c, x), x, k);
            }
        }
    }
}

/// The line at infinity carries its `n + 1` distinct symbols.
proof fn lemma_infinity_card_size(n: int)
    requires
        n >= 1,
        fits_alphabet(n),
    ensures
        infinity_card(n).len() == n + 1,
        infinity_card(n).finite(),
{
    let pts = infinity_points(n);
    assert(pts.no_duplicates()) by {
        assert forall|k1: int, k2: int|
            0 <= k1 < pts.len() && 0 <= k2 < pts.len() && k1 != k2 implies pts[k1]
            != pts[k2] by {
            if pts[k1] == pts[k2] {
                lemma_infinity_symbol_injective(n, k1, k2);
            }
        }
    }
    pts.unique_seq_to_set();
    vstd::seq_lib::seq_to_set_is_finite(pts);
}

/// Lines of two distinct classes meet in exactly one grid point.
proof fn lemma_lines_meet_once(n: int, k1: int, c1: int, k2: int, c2: int) -> (pt: (
    int,
    int,
))
    requires
        admissible_order(n),
        fits_alphabet(n),
        0 <= k1 < k2 <= n,
        0 <= c1 < n,
        0 <= c2 < n,
    ensures
        0 <= pt.0 < n,
        0 <= pt.1 < n,
        on_line(n, k1, c1, pt.0, pt.1),
        on_line(n, k2, c2, pt.0, pt.1),
        forall|r: int, x: int|
            0 <= r < n && 0 <= x < n && #[trigger] on_line(n, k1, c1, r, x)
                && #[trigger] on_line(n, k2, c2, r, x) ==> r == pt.0 && x == pt.1,
{
    lemma_small_mod(c1 as nat, n as nat);
    lemma_small_mod(c2 as nat, n as nat);
    if k2 == 1 {
        // horizontal row c1 meets column c2
        (c1, c2)
    } else if k1 == 1 {
        lemma_multiplier_facts(n, k2);
        let m2 = class_multiplier(n, k2);
        lemma_mod_bound(m2 * c1 + c2, n);
        (line_row(n, m2, c2, c1), c1)
    } else {
        lemma_multiplier_facts(n, k1);
        lemma_multiplier_facts(n, k2);
        lemma_multiplier_injective(n, k1, k2);
        lemma_admissible_beyond_one(n);
        let m1 = class_multiplier(n, k1);
        let m2 = class_multiplier(n, k2);
        let x = crate::math::lemma_linear_cross(n, m1, c1, m2, c2);
        lemma_mod_bound(m1 * x + c1, n);
        (line_row(n, m1, c1, x), x)
    }
}

/// The intersection of two sets that share `w` and nothing else is the
/// singleton of `w`.
proof fn lemma_singleton_intersection<A>(s1: Set<A>, s2: Set<A>, w: A)
    requires
        s1.contains(w),
        s2.contains(w),
        forall|s: A| s1.contains(s) && s2.contains(s) ==> s == w,
    ensures
        s1.intersect(s2).len() == 1,
{
    assert(s1.intersect(s2) =~= Set::empty().insert(w));
}

/// Two distinct lines share exactly one symbol: the common grid point for
/// lines of different classes, the class's symbol at infinity for parallel
/// ones.
proof fn lemma_line_cards_share_one(n: int, k1: int, c1: int, k2: int, c2: int)
    requires
        admissible_order(n),
        fits_alphabet(n),
        0 <= k1 <= n,
        0 <= k2 <= n,
        0 <= c1 < n,
        0 <= c2 < n,
        k1 != k2 || c1 != c2,
    ensures
        line_card(n, k1, c1).intersect(line_card(n, k2, c2)).len() == 1,
{
    let a = line_card(n, k1, c1);
    let b = line_card(n, k2, c2);
    assert forall|s: SpotItSymbol| true implies (a.contains(s) <==> (s == infinity_symbol(
        n,
        k1,
    ) || exists|r: int, x: int|
        0 <= r < n && 0 <= x < n && #[trigger] on_line(n, k1, c1, r, x) && s == grid_symbol(
            n,
            r,
            x,
        ))) by {
        lemma_line_card_members(n, k1, c1, s);
    }
    assert forall|s: SpotItSymbol| true implies (b.contains(s) <==> (s == infinity_symbol(
        n,
        k2,
    ) || exists|r: int, x: int|
        0 <= r < n && 0 <= x < n && #[trigger] on_line(n, k2, c2, r, x) && s == grid_symbol(
            n,
            r,
            x,
        ))) by {
        lemma_line_card_members(n, k2, c2, s);
    }
    if k1 == k2 {
        let f = infinity_symbol(n, k1);
        assert forall|s: SpotItSymbol| a.contains(s) && b.contains(s) implies s == f by {
            if s != f {
                let (r1, x1) = choose|r: int, x: int|
                    0 <= r < n && 0 <= x < n && #[trigger] on_line(n, k1, c1, r, x) && s
                        == grid_symbol(n, r, x);
                let (r2, x2) = choose|r: int, x: int|
                    0 <= r < n && 0 <= x < n && #[trigger] on_line(n, k2, c2, r, x) && s
                        == grid_symbol(n, r, x);
                lemma_grid_symbol_injective(n, r1, x1, r2, x2);
                if k1 == 1 {
                    // x1 == c1 and x1 == c2, yet c1 != c2
                } else {
                    let m = class_multiplier(n, k1);
                    lemma_mod_equivalence(m * x1 + c1, m * x1 + c2, n);
                    crate::math::lemma_zero_diff_mod(c2, c1, n);
                }
            }
        }
        lemma_singleton_intersection(a, b, f);
    } else {
        let (ka, ca, kb, cb) = if k1 < k2 {
            (k1, c1, k2, c2)
        } else {
            (k2, c2, k1, c1)
        };
        let pt = lemma_lines_meet_once(n, ka, ca, kb, cb);
        let w = grid_symbol(n, pt.0, pt.1);
        assert(a.contains(w) && b.contains(w));
        assert forall|s: SpotItSymbol| a.contains(s) && b.contains(s) implies s == w by {
            if s == infinity_symbol(n, k1) {
                if s == infinity_symbol(n, k2) {
                    lemma_infinity_symbol_injective(n, k1, k2);
                } else {
                    let (r2, x2) = choose|r: int, x: int|
                        0 <= r < n && 0 <= x < n && #[trigger] on_line(n, k2, c2, r, x) && s
                            == grid_symbol(n, r, x);
                    lemma_grid_not_infinity(n, r2, x2, k1);
                }
            } else if s == infinity_symbol(n, k2) {
                let (r1, x1) = choose|r: int, x: int|
                    0 <= r < n && 0 <= x < n && #[trigger] on_line(n, k1, c1, r, x) && s
                        == grid_symbol(n, r, x);
                lemma_grid_not_infinity(n, r1, x1, k2);
            } else {
                let (r1, x1) = choose|r: int, x: int|
                    0 <= r < n && 0 <= x < n && #[trigger] on_line(n, k1, c1, r, x) && s
                        == grid_symbol(n, r, x);
                let (r2, x2) = choose|r: int, x: int|
                    0 <= r < n && 0 <= x < n && #[trigger] on_line(n, k2, c2, r, x) && s
                        == grid_symbol(n, r, x);
                lemma_grid_symbol_injective(n, r1, x1, r2, x2);
                assert(on_line(n, ka, ca, r1, x1) && on_line(n, kb, cb, r1, x1));
            }
        }
        lemma_singleton_intersection(a, b, w);
    }
}

/// A line card and the line at infinity share exactly the line's symbol at
/// infinity.
proof fn lemma_line_infinity_share_one(n: int, k: int, c: int)
    requires
        admissible_order(n),
        fits_alphabet(n),
        0 <= k <= n,
        0 <= c < n,
    ensures
        line_card(n, k, c).intersect(infinity_card(n)).len() == 1,
        infinity_card(n).intersect(line_card(n, k, c)).len() == 1,
{
    let a = line_card(n, k, c);
    let b = infinity_card(n);
    let f = infinity_symbol(n, k);
    assert(b.contains(f)) by {
        assert(infinity_points(n)[k] == f);
        assert(infinity_points(n).contains(f));
    }
    assert forall|s: SpotItSymbol| a.contains(s) && b.contains(s) implies s == f by {
        lemma_line_card_members(n, k, c, s);
        if s != f {
            let (r, x) = choose|r: int, x: int|
                0 <= r < n && 0 <= x < n && #[trigger] on_line(n, k, c, r, x) && s
                    == grid_symbol(n, r, x);
            assert(infinity_points(n).contains(s));
            let kk = choose|kk: int|
                0 <= kk < n + 1 && infinity_points(n)[kk] == s;
            lemma_grid_not_infinity(n, r, x, kk);
        }
    }
    lemma_singleton_intersection(a, b, f);
    assert(b.intersect(a) =~= a.intersect(b));
}

/// Every two distinct cards of the generated deck share exactly one symbol.
pub proof fn lemma_deck_cards_share_one(n: int, i: int, j: int)
    requires
        admissible_order(n),
        fits_alphabet(n),
        0 <= i < plane_size(n),
        0 <= j < plane_size(n),
        i != j,
    ensures
        deck_card(n, i).intersect(deck_card(n, j)).len() == 1,
{
    let last = n * n + n;
    if i == last {
        lemma_card_index(n, j);
        lemma_line_infinity_share_one(n, j / n, j % n);
    } else if j == last {
        lemma_card_index(n, i);
        lemma_line_infinity_share_one(n, i / n, i % n);
    } else {
        lemma_card_index(n, i);
        lemma_card_index(n, j);
        assert(i / n != j / n || i % n != j % n);
        lemma_line_cards_share_one(n, i / n, i % n, j / n, j % n);
    }
}

/// Generation is deterministic: any two decks whose cards realize the plane
/// of order `n` agree card by card, as sets of symbols and in the same
/// order.
pub proof fn lemma_generation_deterministic(
    n: int,
    d1: Seq<Set<SpotItSymbol>>,
    d2: Seq<Set<SpotItSymbol>>,
)
    requires
        d1.len() == plane_size(n),
        d2.len() == plane_size(n),
        forall|i: int| 0 <= i < d1.len() ==> #[trigger] d1[i] == deck_card(n, i),
        forall|i: int| 0 <= i < d2.len() ==> #[trigger] d2[i] == deck_card(n, i),
    ensures
        d1 =~= d2,
{
}

/// Every card of the generated deck carries exactly `n + 1` symbols.
pub proof fn lemma_deck_card_size(n: int, i: int)
    requires
        admissible_order(n),
        fits_alphabet(n),
        0 <= i < plane_size(n),
    ensures
        deck_card(n, i).len() == n + 1,
        deck_card(n, i).finite(),
{
    if i == n * n + n {
        lemma_infinity_card_size(n);
    } else {
        lemma_card_index(n, i);
        lemma_line_card_size(n, i / n, i % n);
    }
}

} // verus!
