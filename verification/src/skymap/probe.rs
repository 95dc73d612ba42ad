//! The probe sequence of the table: triangular steps over the groups.
//!
//! A lookup that starts at group `start` visits, at step `j`, the group
//! `(start + j * (j + 1) / 2) mod groups`. When the number of groups is a
//! power of two, the first `groups` steps visit every group exactly once;
//! that is what lets a table promise that an entry always finds a free slot.

use vstd::prelude::*;
use vstd::arithmetic::div_mod::{
    lemma_fundamental_div_mod,
    lemma_mod_multiples_basic,
    lemma_mod_multiples_vanish,
    lemma_mod_equivalence,
    lemma_small_mod,
    lemma_mod_bound,
};
use vstd::set_lib::{set_int_range, lemma_int_range, lemma_map_size, lemma_subset_equality};
use vstd::relations::injective_on;

verus! {

/// The `j`-th triangular number.
pub open spec fn triangle(j: int) -> int {
    j * (j + 1) / 2
}

/// Is `n` a power of two?
pub open spec fn is_pow2(n: int) -> bool
    decreases n,
{
    if n <= 1 {
        n == 1
    } else {
        n % 2 == 0 && is_pow2(n / 2)
    }
}

/// The group that a probe which started at `start` visits at step `step`.
pub open spec fn probe_group(start: int, step: int, groups: int) -> int {
    (start + triangle(step)) % groups
}

/// Consecutive triangular numbers differ by the step.
pub proof fn lemma_triangle_step(j: int)
    requires
        0 <= j,
    ensures
        triangle(j + 1) == triangle(j) + j + 1,
        triangle(j) >= 0,
        2 * triangle(j) == j * (j + 1),
{
    let a = j / 2;
    if j % 2 == 0 {
        assert(j * (j + 1) == 2 * (a * (2 * a + 1))) by (nonlinear_arith)
            requires
                j == 2 * a,
        ;
    } else {
        assert(j * (j + 1) == 2 * ((2 * a + 1) * (a + 1))) by (nonlinear_arith)
            requires
                j == 2 * a + 1,
        ;
    }
    assert((j + 1) * (j + 2) == j * (j + 1) + 2 * (j + 1)) by (nonlinear_arith);
    assert(j * (j + 1) >= 0) by (nonlinear_arith)
        requires
            0 <= j,
    ;
}

/// The next group of a probe is the current one moved on by the step number.
pub proof fn lemma_probe_step(start: int, step: int, groups: int)
    requires
        0 <= start,
        0 <= step,
        0 < groups,
    ensures
        probe_group(start, step + 1, groups) == (probe_group(start, step, groups) + step + 1)
            % groups,
        0 <= probe_group(start, step, groups) < groups,
{
    lemma_triangle_step(step);
    let x = start + triangle(step);
    lemma_fundamental_div_mod(x, groups);
    lemma_mod_multiples_vanish(x / groups, x % groups + step + 1, groups);
    lemma_mod_bound(x, groups);
}

proof fn lemma_odd_product(x: int, y: int)
    requires
        x % 2 == 1,
        y % 2 == 1,
    ensures
        (x * y) % 2 == 1,
{
    let a = x / 2;
    let b = y / 2;
    assert(x * y == 2 * (2 * a * b + a + b) + 1) by (nonlinear_arith)
        requires
            x == 2 * a + 1,
            y == 2 * b + 1,
    ;
}

/// A power of two that divides `x * y`, with `x` odd, divides `y`.
proof fn lemma_pow2_divides(m: int, x: int, y: int)
    requires
        is_pow2(m),
        x % 2 == 1,
        (x * y) % m == 0,
    ensures
        y % m == 0,
    decreases m,
{
    if m > 1 {
        let k = m / 2;
        let q = (x * y) / m;
        lemma_fundamental_div_mod(x * y, m);
        assert(x * y == 2 * (k * q)) by (nonlinear_arith)
            requires
                x * y == m * q,
                m == 2 * k,
        ;
        if y % 2 == 1 {
            lemma_odd_product(x, y);
            assert(false);
        }
        let h = y / 2;
        assert(x * h == k * q) by (nonlinear_arith)
            requires
                x * y == 2 * (k * q),
                y == 2 * h,
        ;
        assert(x * h == q * k) by (nonlinear_arith)
            requires
                x * h == k * q,
        ;
        lemma_mod_multiples_basic(q, k);
        lemma_pow2_divides(k, x, h);
        let r = h / k;
        lemma_fundamental_div_mod(h, k);
        assert(y == r * m) by (nonlinear_arith)
            requires
                y == 2 * h,
                h == k * r,
                m == 2 * k,
        ;
        lemma_mod_multiples_basic(r, m);
    }
}

/// Two different steps below the number of groups visit different groups.
pub proof fn lemma_probe_injective(start: int, i: int, j: int, groups: int)
    requires
        is_pow2(groups),
        0 <= start,
        0 <= i < j < groups,
    ensures
        probe_group(start, i, groups) != probe_group(start, j, groups),
{
    if probe_group(start, i, groups) == probe_group(start, j, groups) {
        lemma_triangle_step(i);
        lemma_triangle_step(j);
        let d = triangle(j) - triangle(i);
        lemma_mod_equivalence(start + triangle(j), start + triangle(i), groups);
        assert(d % groups == 0);
        let q = d / groups;
        lemma_fundamental_div_mod(d, groups);
        let a = j - i;
        let b = j + i + 1;
        let m = 2 * groups;
        assert(a * b == m * q) by (nonlinear_arith)
            requires
                a == j - i,
                b == j + i + 1,
                2 * triangle(j) == j * (j + 1),
                2 * triangle(i) == i * (i + 1),
                triangle(j) - triangle(i) == groups * q,
                m == 2 * groups,
        ;
        assert(a * b == q * m) by (nonlinear_arith)
            requires
                a * b == m * q,
        ;
        lemma_mod_multiples_basic(q, m);
        assert(is_pow2(m));
        if a % 2 == 1 {
            lemma_pow2_divides(m, a, b);
            lemma_small_mod(b as nat, m as nat);
        } else {
            assert(b * a == a * b) by (nonlinear_arith);
            lemma_pow2_divides(m, b, a);
            lemma_small_mod(a as nat, m as nat);
        }
    }
}

/// Every group is visited within the first `groups` steps of a probe.
pub proof fn lemma_probe_covers(start: int, target: int, groups: int) -> (step: int)
    requires
        is_pow2(groups),
        0 <= start,
        0 <= target < groups,
    ensures
        0 <= step < groups,
        probe_group(start, step, groups) == target,
{
    let steps = set_int_range(0, groups);
    let f = |j: int| probe_group(start, j, groups);
    let visited = steps.map(f);
    lemma_int_range(0, groups);
    assert(injective_on(f, steps)) by {
        assert forall|i: int, j: int|
            steps.contains(i) && steps.contains(j) && #[trigger] f(i) == #[trigger] f(j) implies i
            == j by {
            if i < j {
                lemma_probe_injective(start, i, j, groups);
            } else if j < i {
                lemma_probe_injective(start, j, i, groups);
            }
        }
    }
    lemma_map_size(steps, visited, f);
    assert(visited.subset_of(steps)) by {
        assert forall|g: int| visited.contains(g) implies steps.contains(g) by {
            let j = choose|j: int| steps.contains(j) && g == f(j);
            lemma_probe_step(start, j, groups);
        }
    }
    lemma_subset_equality(visited, steps);
    assert(steps.contains(target));
    assert(visited.contains(target));
    choose|j: int| steps.contains(j) && target == f(j)
}

/// The double of a power of two is a power of two.
pub proof fn lemma_pow2_double(a: int)
    requires
        is_pow2(a),
    ensures
        is_pow2(2 * a),
{
    assert(a >= 1);
    assert((2 * a) / 2 == a);
}

/// Between a power of two and its double there is no power of two.
pub proof fn lemma_pow2_gap(a: int, b: int)
    requires
        is_pow2(a),
        is_pow2(b),
        a < b,
    ensures
        2 * a <= b,
        is_pow2(2 * a),
    decreases b,
{
    if a > 1 {
        lemma_pow2_gap(a / 2, b / 2);
    }
}

/// A probe in progress: where it started, the group it is at, and the number
/// of steps taken.
pub struct ProbeSeq {
    start: usize,
    groups: usize,
    pos: usize,
    stride: usize,
}

impl ProbeSeq {
    /// The group the probe started at.
    pub closed spec fn spec_start(self) -> int {
        self.start as int
    }

    /// The number of groups the probe walks over.
    pub closed spec fn spec_groups(self) -> int {
        self.groups as int
    }

    /// The group the probe is at.
    pub closed spec fn spec_pos(self) -> int {
        self.pos as int
    }

    /// The number of steps the probe has taken.
    pub closed spec fn spec_stride(self) -> int {
        self.stride as int
    }

    /// The probe is at the group that its start and its number of steps give.
    pub open spec fn wf(self) -> bool {
        &&& 0 <= self.spec_start() < self.spec_groups() <= usize::MAX / 2
        &&& 0 <= self.spec_stride() <= self.spec_groups()
        &&& self.spec_pos() == probe_group(
            self.spec_start(),
            self.spec_stride(),
            self.spec_groups(),
        )
    }

    /// Starts a probe over `groups` groups at the group that `h1` selects.
    pub fn new(h1: u64, groups: usize) -> (r: ProbeSeq)
        requires
            0 < groups <= usize::MAX / 2,
        ensures
            r.wf(),
            r.spec_groups() == groups,
            r.spec_start() == h1 as int % groups as int,
            r.spec_stride() == 0,
            r.spec_pos() == r.spec_start(),
    {
        let start = (h1 % (groups as u64)) as usize;
        proof {
            lemma_small_mod(start as nat, groups as nat);
        }
        ProbeSeq { start, groups, pos: start, stride: 0 }
    }

    /// The group the probe is at.
    pub fn pos(&self) -> (r: usize)
        ensures
            r == self.spec_pos(),
    {
        self.pos
    }

    /// The number of steps the probe has taken.
    pub fn stride(&self) -> (r: usize)
        ensures
            r == self.spec_stride(),
    {
        self.stride
    }

    /// Moves the probe to its next group.
    pub fn move_next(&mut self)
        requires
            old(self).wf(),
            old(self).spec_stride() < old(self).spec_groups(),
        ensures
            final(self).wf(),
            final(self).spec_start() == old(self).spec_start(),
            final(self).spec_groups() == old(self).spec_groups(),
            final(self).spec_stride() == old(self).spec_stride() + 1,
            0 <= final(self).spec_pos() < final(self).spec_groups(),
    {
        proof {
            lemma_probe_step(self.start as int, self.stride as int, self.groups as int);
            lemma_probe_step(self.start as int, self.stride as int + 1, self.groups as int);
        }
        self.stride = self.stride + 1;
        self.pos = (self.pos + self.stride) % self.groups;
    }
}

} // verus!
