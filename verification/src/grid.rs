use vstd::prelude::*;
use vstd::arithmetic::div_mod::{
    lemma_add_mod_noop_right, lemma_fundamental_div_mod_converse, lemma_mod_bound,
    lemma_mod_multiples_vanish, lemma_mod_twice,
};
use crate::spin::Spin;

verus! {

/// The mathematical content of a grid: its dimensions and the row-major
/// sequence of spins it holds.
#[verifier::ext_equal]
pub ghost struct GridModel {
    pub width: int,
    pub height: int,
    pub sites: Seq<Spin>,
}

impl GridModel {
    /// A well-formed grid has positive dimensions, a site for every cell,
    /// and dimensions small enough that every offset fits in the machine's
    /// signed coordinate arithmetic.
    pub open spec fn wf(self) -> bool {
        &&& 0 < self.width
        &&& 0 < self.height
        &&& self.width * self.height <= 0x4000_0000_0000_0000
        &&& self.sites.len() == self.width * self.height
    }

    /// The row-major storage offset of logical coordinates (x, y), with both
    /// coordinates wrapped into range by true (always non-negative) modulo.
    pub open spec fn index_of(self, x: int, y: int) -> int {
        (y % self.height) * self.width + (x % self.width)
    }

    /// The spin at logical coordinates (x, y), after periodic wrapping.
    pub open spec fn spin_at(self, x: int, y: int) -> Spin {
        self.sites[self.index_of(x, y)]
    }

    /// The grid with the site addressed by (x, y) overwritten by `s`.
    pub open spec fn with_site(self, x: int, y: int, s: Spin) -> GridModel {
        GridModel { sites: self.sites.update(self.index_of(x, y), s), ..self }
    }

    /// The sum of the numeric values of the four nearest neighbors of (x, y)
    /// in the wrapped lattice.
    pub open spec fn neighbor_sum(self, x: int, y: int) -> int {
        self.spin_at(x, y + 1).sign() + self.spin_at(x, y - 1).sign()
            + self.spin_at(x - 1, y).sign() + self.spin_at(x + 1, y).sign()
    }

    /// The dimensionless factor of the nearest-neighbor interaction energy at
    /// (x, y): the site's own sign times the sum of its neighbors' signs.
    /// Under coupling J the interaction energy is -J times this value.
    pub open spec fn interaction_sum(self, x: int, y: int) -> int {
        self.spin_at(x, y).sign() * self.neighbor_sum(x, y)
    }

    /// The dimensionless factor of the field energy at (x, y): the site's own
    /// sign plus the sum of its neighbors' signs. Under external field h the
    /// field energy is h times this value.
    pub open spec fn field_sum(self, x: int, y: int) -> int {
        self.spin_at(x, y).sign() + self.neighbor_sum(x, y)
    }

    /// The grid with the spin at (x, y) tentatively flipped.
    pub open spec fn proposed(self, x: int, y: int) -> GridModel {
        self.with_site(x, y, self.spin_at(x, y).flipped())
    }

    /// The change of the two energy factors that flipping the site at (x, y)
    /// would cause: interaction factor first, field factor second. These are
    /// the values a Metropolis verdict is asked about.
    pub open spec fn flip_deltas(self, x: int, y: int) -> (i64, i64) {
        (
            (self.proposed(x, y).interaction_sum(x, y) - self.interaction_sum(x, y)) as i64,
            (self.proposed(x, y).field_sum(x, y) - self.field_sum(x, y)) as i64,
        )
    }

    /// One Metropolis site update under a given verdict, yielding the grid
    /// with the site at (x, y) flipped if the verdict accepts, and the grid
    /// unchanged if it rejects.
    pub open spec fn updated_site(self, x: int, y: int, accept: bool) -> GridModel {
        if accept {
            self.proposed(x, y)
        } else {
            self
        }
    }

    /// The grid after Metropolis updates at the first k sites of a sweep in
    /// row-major order, site j updated under verdict verdicts[j]. Site j has
    /// column j % width and row j / width.
    pub open spec fn swept_prefix(self, verdicts: Seq<bool>, k: int) -> GridModel
        decreases k,
    {
        if k <= 0 {
            self
        } else {
            self.swept_prefix(verdicts, k - 1).updated_site(
                (k - 1) % self.width,
                (k - 1) / self.width,
                verdicts[k - 1],
            )
        }
    }

    /// Each verdict in the sequence is a possible outcome of `decide` on the
    /// energy-factor deltas of the flip proposed at its site, evaluated on
    /// the intermediate grid in which all earlier sites of the sweep were
    /// already updated — the sequential, row-major sweep discipline.
    pub open spec fn sweep_verdicts_ok<F: Fn(i64, i64) -> bool>(
        self,
        decide: F,
        verdicts: Seq<bool>,
    ) -> bool {
        forall|k: int|
            0 <= k < verdicts.len() ==> #[trigger] call_ensures(
                decide,
                self.swept_prefix(verdicts, k).flip_deltas(k % self.width, k / self.width),
                verdicts[k],
            )
    }
}

/// A rectangular lattice of spins with periodic (toroidal) boundary
/// conditions, stored in row-major order (row index y, column index x).
#[derive(Debug)]
pub struct Grid {
    spins: Vec<Spin>,
    width: usize,
    height: usize,
}

impl View for Grid {
    type V = GridModel;

    closed spec fn view(&self) -> GridModel {
        GridModel {
            width: self.width as int,
            height: self.height as int,
            sites: self.spins@,
        }
    }
}

/// Relies on rand::random::<bool>: one unbiased draw from the thread-local
/// generator. Nothing is assumed of the value drawn.
#[verifier::external_body]
fn random_bool() -> bool {
    rand::random::<bool>()
}

impl Grid {
    /// Creates a grid whose sites are drawn independently from the external
    /// random source, each an unbiased coin flip between `Up` and `Down`.
    pub fn new_random(width: usize, height: usize) -> (r: Grid)
        requires
            0 < width,
            0 < height,
            width * height <= 0x4000_0000_0000_0000,
            width * height <= usize::MAX,
        ensures
            r@.wf(),
            r@.width == width,
            r@.height == height,
    {
        let n: usize = width * height;
        let mut spins: Vec<Spin> = Vec::new();
        let mut i: usize = 0;
        while i < n
            invariant
                i <= n,
                spins@.len() == i,
            decreases n - i,
        {
            let spin = if random_bool() {
                Spin::Up
            } else {
                Spin::Down
            };
            spins.push(spin);
            i = i + 1;
        }
        Grid { spins, width, height }
    }

    /// Creates a grid whose sites all hold the given spin.
    pub fn new_constant(width: usize, height: usize, spin: Spin) -> (r: Grid)
        requires
            0 < width,
            0 < height,
            width * height <= 0x4000_0000_0000_0000,
            width * height <= usize::MAX,
        ensures
            r@.wf(),
            r@.width == width,
            r@.height == height,
            forall|i: int| 0 <= i < r@.sites.len() ==> r@.sites[i] == spin,
    {
        let n: usize = width * height;
        let mut spins: Vec<Spin> = Vec::new();
        let mut i: usize = 0;
        while i < n
            invariant
                i <= n,
                spins@.len() == i,
                forall|j: int| 0 <= j < i ==> spins@[j] == spin,
            decreases n - i,
        {
            spins.push(spin);
            i = i + 1;
        }
        Grid { spins, width, height }
    }

    /// The number of columns of the lattice.
    pub fn width(&self) -> (r: usize)
        ensures
            r == self@.width,
    {
        self.width
    }

    /// The number of rows of the lattice.
    pub fn height(&self) -> (r: usize)
        ensures
            r == self@.height,
    {
        self.height
    }

    /// The total number of sites, always width times height.
    pub fn num_sites(&self) -> (r: usize)
        ensures
            r == self@.sites.len(),
    {
        self.spins.len()
    }

    /// Translates signed logical coordinates to the storage offset, wrapping
    /// both coordinates by true modulo so that any finite input is in range.
    pub fn get_index(&self, x: i64, y: i64) -> (r: usize)
        requires
            self@.wf(),
        ensures
            r == self@.index_of(x as int, y as int),
            r < self@.sites.len(),
    {
        proof {
            lemma_dims_bounded(self@);
            lemma_index_in_range(self@, x as int, y as int);
        }
        let n: usize = self.spins.len();
        let w: i64 = self.width as i64;
        let h: i64 = self.height as i64;
        let x_wrapped: i64 = x.checked_rem_euclid(w).unwrap();
        let y_wrapped: i64 = y.checked_rem_euclid(h).unwrap();
        proof {
            lemma_mod_bound(x as int, w as int);
            lemma_mod_bound(y as int, h as int);
            assert(y_wrapped * w + x_wrapped == self@.index_of(x as int, y as int));
            assert(y_wrapped * w + x_wrapped < n);
        }
        (y_wrapped * w + x_wrapped) as usize
    }

    /// Reads the spin at the wrapped coordinate.
    pub fn get(&self, x: i64, y: i64) -> (r: Spin)
        requires
            self@.wf(),
        ensures
            r == self@.spin_at(x as int, y as int),
    {
        let index: usize = self.get_index(x, y);
        self.spins[index]
    }

    /// Overwrites the spin at the wrapped coordinate; every other site keeps
    /// its value.
    pub fn set(&mut self, x: i64, y: i64, spin: Spin)
        requires
            old(self)@.wf(),
        ensures
            final(self)@.wf(),
            final(self)@ == old(self)@.with_site(x as int, y as int, spin),
    {
        let index: usize = self.get_index(x, y);
        self.spins[index] = spin;
        proof {
            assert(final(self)@ =~= old(self)@.with_site(x as int, y as int, spin));
        }
    }

    /// Wraps a logical column coordinate into [0, width) by true modulo.
    fn wrap_x(&self, x: i64) -> (r: i64)
        requires
            self@.wf(),
        ensures
            r == x as int % self@.width,
    {
        proof {
            lemma_dims_bounded(self@);
            lemma_mod_bound(x as int, self@.width);
        }
        x.checked_rem_euclid(self.width as i64).unwrap()
    }

    /// Wraps a logical row coordinate into [0, height) by true modulo.
    fn wrap_y(&self, y: i64) -> (r: i64)
        requires
            self@.wf(),
        ensures
            r == y as int % self@.height,
    {
        proof {
            lemma_dims_bounded(self@);
            lemma_mod_bound(y as int, self@.height);
        }
        y.checked_rem_euclid(self.height as i64).unwrap()
    }

    /// The sum of the numeric values of the four nearest neighbors of the
    /// wrapped coordinate.
    pub fn neighbor_sum(&self, x: i64, y: i64) -> (r: i64)
        requires
            self@.wf(),
        ensures
            r == self@.neighbor_sum(x as int, y as int),
            -4 <= r <= 4,
    {
        let xw: i64 = self.wrap_x(x);
        let yw: i64 = self.wrap_y(y);
        proof {
            lemma_dims_bounded(self@);
            lemma_mod_bound(x as int, self@.width);
            lemma_mod_bound(y as int, self@.height);
            lemma_mod_twice(x as int, self@.width);
            lemma_mod_twice(y as int, self@.height);
            lemma_shift_mod(x as int, 1, self@.width);
            lemma_shift_mod(x as int, -1, self@.width);
            lemma_shift_mod(y as int, 1, self@.height);
            lemma_shift_mod(y as int, -1, self@.height);
        }
        let up: i64 = self.get(xw, yw + 1).as_int();
        let down: i64 = self.get(xw, yw - 1).as_int();
        let left: i64 = self.get(xw - 1, yw).as_int();
        let right: i64 = self.get(xw + 1, yw).as_int();
        up + down + left + right
    }

    /// The dimensionless interaction factor at the wrapped coordinate: the
    /// site's sign times the sum of its neighbors' signs. The interaction
    /// energy under coupling J is -J times this value.
    pub fn interaction_sum(&self, x: i64, y: i64) -> (r: i64)
        requires
            self@.wf(),
        ensures
            r == self@.interaction_sum(x as int, y as int),
            -4 <= r <= 4,
    {
        let s: i64 = self.get(x, y).as_int();
        let ns: i64 = self.neighbor_sum(x, y);
        proof {
            assert(s == 1 || s == -1);
            assert(s * ns == if s == 1 { ns as int } else { -(ns as int) }) by (nonlinear_arith)
                requires
                    s == 1 || s == -1,
            ;
        }
        s * ns
    }

    /// The dimensionless field factor at the wrapped coordinate: the site's
    /// sign plus the sum of its neighbors' signs. The field energy under
    /// external field h is h times this value.
    pub fn field_sum(&self, x: i64, y: i64) -> (r: i64)
        requires
            self@.wf(),
        ensures
            r == self@.field_sum(x as int, y as int),
            -5 <= r <= 5,
    {
        let s: i64 = self.get(x, y).as_int();
        let ns: i64 = self.neighbor_sum(x, y);
        s + ns
    }

    /// One Metropolis update at the wrapped coordinate. The tentative flip is
    /// committed in place, the change of the two energy factors is handed to
    /// `decide` (whose verdict embodies the stochastic acceptance test on the
    /// energy difference), and a rejected flip is reverted. The grid after
    /// the call is exactly the old grid, or the old grid with this one site
    /// flipped, according to the verdict.
    pub fn single_site_step<F: Fn(i64, i64) -> bool>(&mut self, x: i64, y: i64, decide: &F)
        requires
            old(self)@.wf(),
            forall|a: (i64, i64)| #[trigger] call_requires(*decide, a),
        ensures
            final(self)@.wf(),
            final(self)@.width == old(self)@.width,
            final(self)@.height == old(self)@.height,
            final(self)@.sites.len() == old(self)@.sites.len(),
            exists|accept: bool|
                #[trigger] call_ensures(*decide, old(self)@.flip_deltas(x as int, y as int), accept)
                    && final(self)@ == old(self)@.updated_site(x as int, y as int, accept),
    {
        let ghost pre = self@;
        let current_spin = self.get(x, y);
        let interaction_before: i64 = self.interaction_sum(x, y);
        let field_before: i64 = self.field_sum(x, y);
        self.set(x, y, current_spin.flip());
        let interaction_after: i64 = self.interaction_sum(x, y);
        let field_after: i64 = self.field_sum(x, y);
        let d_interaction: i64 = interaction_after - interaction_before;
        let d_field: i64 = field_after - field_before;
        let accept = decide(d_interaction, d_field);
        proof {
            assert((d_interaction, d_field) == pre.flip_deltas(x as int, y as int));
        }
        if !accept {
            self.set(x, y, current_spin);
            proof {
                lemma_index_in_range(pre, x as int, y as int);
                assert(self@ =~= pre);
            }
        }
        proof {
            assert(self@ == pre.updated_site(x as int, y as int, accept));
            assert(call_ensures(*decide, pre.flip_deltas(x as int, y as int), accept));
        }
    }

    /// One full sweep: a Metropolis update at every site, row by row in
    /// row-major order, each update seeing the sites already updated earlier
    /// in the same sweep. The grid after the call is the row-major fold of
    /// the single-site updates under one verdict per site, each verdict an
    /// actual outcome of `decide` on the energy-factor deltas of the
    /// intermediate grid at that site; dimensions and site count are
    /// preserved.
    pub fn step<F: Fn(i64, i64) -> bool>(&mut self, decide: &F)
        requires
            old(self)@.wf(),
            forall|a: (i64, i64)| #[trigger] call_requires(*decide, a),
        ensures
            final(self)@.wf(),
            final(self)@.width == old(self)@.width,
            final(self)@.height == old(self)@.height,
            final(self)@.sites.len() == old(self)@.sites.len(),
            forall|i: int|
                0 <= i < old(self)@.sites.len() ==> final(self)@.sites[i] == old(self)@.sites[i]
                    || final(self)@.sites[i] == old(self)@.sites[i].flipped(),
            exists|verdicts: Seq<bool>|
                {
                    &&& verdicts.len() == old(self)@.width * old(self)@.height
                    &&& #[trigger] old(self)@.sweep_verdicts_ok(*decide, verdicts)
                    &&& final(self)@ == old(self)@.swept_prefix(verdicts, verdicts.len() as int)
                },
    {
        proof {
            lemma_dims_bounded(self@);
        }
        let width: usize = self.width();
        let height: usize = self.height();
        let ghost mut verdicts = Seq::<bool>::empty();
        let mut y: usize = 0;
        while y < height
            invariant
                self@.wf(),
                self@.width == old(self)@.width,
                self@.height == old(self)@.height,
                self@.sites.len() == old(self)@.sites.len(),
                width == self@.width,
                height == self@.height,
                width <= 0x4000_0000_0000_0000,
                height <= 0x4000_0000_0000_0000,
                y <= height,
                verdicts.len() == y * width,
                old(self)@.sweep_verdicts_ok(*decide, verdicts),
                self@ == old(self)@.swept_prefix(verdicts, verdicts.len() as int),
                forall|i: int|
                    0 <= i < old(self)@.sites.len() ==> self@.sites[i] == old(self)@.sites[i]
                        || self@.sites[i] == old(self)@.sites[i].flipped(),
                forall|a: (i64, i64)| #[trigger] call_requires(*decide, a),
            decreases height - y,
        {
            let mut x: usize = 0;
            while x < width
                invariant
                    self@.wf(),
                    self@.width == old(self)@.width,
                    self@.height == old(self)@.height,
                    self@.sites.len() == old(self)@.sites.len(),
                    width == self@.width,
                    height == self@.height,
                    width <= 0x4000_0000_0000_0000,
                    height <= 0x4000_0000_0000_0000,
                    y < height,
                    x <= width,
                    verdicts.len() == y * width + x,
                    old(self)@.sweep_verdicts_ok(*decide, verdicts),
                    self@ == old(self)@.swept_prefix(verdicts, verdicts.len() as int),
                    forall|i: int|
                        0 <= i < old(self)@.sites.len() ==> self@.sites[i] == old(self)@.sites[i]
                            || self@.sites[i] == old(self)@.sites[i].flipped(),
                    forall|a: (i64, i64)| #[trigger] call_requires(*decide, a),
                decreases width - x,
            {
                let ghost before = self@;
                self.single_site_step(x as i64, y as i64, decide);
                proof {
                    lemma_index_in_range(before, x as int, y as int);
                    assert forall|i: int| 0 <= i < old(self)@.sites.len() implies self@.sites[i]
                        == old(self)@.sites[i] || self@.sites[i]
                        == old(self)@.sites[i].flipped() by {
                        assert(self@.sites[i] == before.sites[i] || self@.sites[i]
                            == before.sites[i].flipped());
                    }
                    let accept = choose|b: bool|
                        call_ensures(*decide, before.flip_deltas(x as int, y as int), b) && self@
                            == before.updated_site(x as int, y as int, b);
                    let k = verdicts.len() as int;
                    lemma_fundamental_div_mod_converse(k, width as int, y as int, x as int);
                    let extended = verdicts.push(accept);
                    assert forall|j: int| 0 <= j <= k implies old(self)@.swept_prefix(extended, j)
                        == old(self)@.swept_prefix(verdicts, j) by {
                        lemma_swept_prefix_push(old(self)@, verdicts, accept, j);
                    }
                    assert(extended[k] == accept);
                    assert(old(self)@.swept_prefix(extended, k + 1) == before.updated_site(
                        k % old(self)@.width,
                        k / old(self)@.width,
                        accept,
                    ));
                    assert forall|j: int| 0 <= j < extended.len() implies #[trigger] call_ensures(
                        *decide,
                        old(self)@.swept_prefix(extended, j).flip_deltas(
                            j % old(self)@.width,
                            j / old(self)@.width,
                        ),
                        extended[j],
                    ) by {
                        if j < k {
                            assert(call_ensures(
                                *decide,
                                old(self)@.swept_prefix(verdicts, j).flip_deltas(
                                    j % old(self)@.width,
                                    j / old(self)@.width,
                                ),
                                verdicts[j],
                            ));
                            assert(extended[j] == verdicts[j]);
                        } else {
                            assert(call_ensures(
                                *decide,
                                before.flip_deltas(x as int, y as int),
                                accept,
                            ));
                        }
                    }
                    verdicts = extended;
                }
                x = x + 1;
            }
            proof {
                assert((y as int + 1) * (width as int) == y as int * (width as int) + width as int)
                    by (nonlinear_arith);
            }
            y = y + 1;
        }
        proof {
            assert((height as int) * (width as int) == (width as int) * (height as int))
                by (nonlinear_arith);
            assert(verdicts.len() == old(self)@.width * old(self)@.height);
            assert(exists|v: Seq<bool>|
                {
                    &&& v.len() == old(self)@.width * old(self)@.height
                    &&& #[trigger] old(self)@.sweep_verdicts_ok(*decide, v)
                    &&& self@ == old(self)@.swept_prefix(v, v.len() as int)
                }) by {
                assert(old(self)@.sweep_verdicts_ok(*decide, verdicts));
            }
        }
    }
}

/// A verdict appended for a later site leaves the fold over an earlier
/// prefix of the sweep unchanged.
proof fn lemma_swept_prefix_push(g: GridModel, verdicts: Seq<bool>, appended: bool, k: int)
    requires
        0 <= k <= verdicts.len(),
    ensures
        g.swept_prefix(verdicts.push(appended), k) == g.swept_prefix(verdicts, k),
    decreases k,
{
    if k > 0 {
        lemma_swept_prefix_push(g, verdicts, appended, k - 1);
        assert(verdicts.push(appended)[k - 1] == verdicts[k - 1]);
    }
}

/// Wrapping before shifting lands in the same residue class: (a % m) + d and
/// a + d are congruent modulo m.
proof fn lemma_shift_mod(a: int, d: int, m: int)
    requires
        0 < m,
    ensures
        (a % m + d) % m == (a + d) % m,
{
    lemma_add_mod_noop_right(d, a, m);
}

/// Shifting a coordinate by any whole number of periods addresses the same
/// site: the lattice is periodic in both directions.
pub proof fn lemma_periodic(g: GridModel, x: int, y: int, k: int)
    requires
        g.wf(),
    ensures
        g.index_of(x + k * g.width, y) == g.index_of(x, y),
        g.index_of(x, y + k * g.height) == g.index_of(x, y),
        g.spin_at(x + k * g.width, y) == g.spin_at(x, y),
        g.spin_at(x, y + k * g.height) == g.spin_at(x, y),
{
    assert(k * g.width == g.width * k && k * g.height == g.height * k) by (nonlinear_arith);
    lemma_mod_multiples_vanish(k, x, g.width);
    lemma_mod_multiples_vanish(k, y, g.height);
}

/// After writing `s` at (x, y), reading any coordinate congruent to (x, y)
/// modulo the dimensions gives `s` back, and every site with a different
/// storage offset is unchanged.
pub proof fn lemma_set_get(g: GridModel, x: int, y: int, s: Spin, x2: int, y2: int)
    requires
        g.wf(),
    ensures
        x2 % g.width == x % g.width && y2 % g.height == y % g.height ==> g.with_site(
            x,
            y,
            s,
        ).spin_at(x2, y2) == s,
        g.index_of(x2, y2) != g.index_of(x, y) ==> g.with_site(x, y, s).spin_at(x2, y2)
            == g.spin_at(x2, y2),
{
    lemma_index_in_range(g, x, y);
    lemma_index_in_range(g, x2, y2);
}

/// In a well-formed grid both dimensions are bounded by the product bound, so
/// each fits in a signed 64-bit machine word.
pub proof fn lemma_dims_bounded(g: GridModel)
    requires
        g.wf(),
    ensures
        g.width <= 0x4000_0000_0000_0000,
        g.height <= 0x4000_0000_0000_0000,
{
    assert(g.width <= g.width * g.height && g.height <= g.width * g.height) by (nonlinear_arith)
        requires
            0 < g.width,
            0 < g.height,
    ;
}

/// The storage offset of any coordinate pair lies within the site sequence.
pub proof fn lemma_index_in_range(g: GridModel, x: int, y: int)
    requires
        g.wf(),
    ensures
        0 <= g.index_of(x, y) < g.sites.len(),
{
    lemma_mod_bound(x, g.width);
    lemma_mod_bound(y, g.height);
    assert(0 <= (y % g.height) * g.width + (x % g.width) < g.width * g.height)
        by (nonlinear_arith)
        requires
            0 <= x % g.width < g.width,
            0 <= y % g.height < g.height,
    ;
}

} // verus!
