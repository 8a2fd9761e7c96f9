//! A calibration session: turns raw three-axis readings into design vectors
//! and accumulates their second moments.

use crate::error::CalibrationError;
use crate::transpose::{
    as_ints, fits_i128, gram, gram_entry, lemma_gram_bounded, lemma_gram_symmetric, SelfTranspose,
};
use vstd::prelude::*;

verus! {

/// One raw reading of a three-axis sensor, in the sensor's own counts.
#[derive(Clone, Copy, Debug, PartialEq, Eq, Structural)]
pub struct Sample {
    pub x: i16,
    pub y: i16,
    pub z: i16,
}

impl Sample {
    /// The square of the Euclidean length of the reading.
    pub fn norm_squared(&self) -> (n: u32)
        ensures
            n == self.x * self.x + self.y * self.y + self.z * self.z,
    {
        let x: i64 = self.x as i64;
        let y: i64 = self.y as i64;
        let z: i64 = self.z as i64;
        assert(0 <= x * x <= 0x4000_0000 && 0 <= y * y <= 0x4000_0000 && 0 <= z * z
            <= 0x4000_0000) by (nonlinear_arith)
            requires
                -0x8000 <= x <= 0x8000,
                -0x8000 <= y <= 0x8000,
                -0x8000 <= z <= 0x8000,
        ;
        (x * x + y * y + z * z) as u32
    }
}

/// The ten monomials of a reading that make the ellipsoid equation linear in
/// its coefficients: the squares, the doubled mixed products, the doubled
/// coordinates, and one.
pub open spec fn design_vector(s: Sample) -> Seq<int> {
    seq![
        s.x * s.x,
        s.y * s.y,
        s.z * s.z,
        s.y * s.z * 2,
        s.x * s.z * 2,
        s.x * s.y * 2,
        s.x * 2,
        s.y * 2,
        s.z * 2,
        1,
    ]
}

/// The design vectors of `samples`, in the same order.
pub open spec fn design_rows(samples: Seq<Sample>) -> Seq<Seq<int>> {
    Seq::new(samples.len(), |k: int| design_vector(samples[k]))
}

/// No entry of a design vector exceeds this in magnitude.
pub open spec fn design_bound() -> int {
    0x8000_0000
}

/// Every entry of a design vector is at most `design_bound()` in magnitude.
pub proof fn lemma_design_bounded(s: Sample, k: int)
    requires
        0 <= k < 10,
    ensures
        design_vector(s).len() == 10,
        -design_bound() <= design_vector(s)[k] <= design_bound(),
{
    let x = s.x as int;
    let y = s.y as int;
    let z = s.z as int;
    assert(-0x4000_0000 <= x * x <= 0x4000_0000 && -0x4000_0000 <= y * y <= 0x4000_0000
        && -0x4000_0000 <= z * z <= 0x4000_0000 && -0x4000_0000 <= y * z <= 0x4000_0000
        && -0x4000_0000 <= x * z <= 0x4000_0000 && -0x4000_0000 <= x * y <= 0x4000_0000)
        by (nonlinear_arith)
        requires
            -0x8000 <= x <= 0x8000,
            -0x8000 <= y <= 0x8000,
            -0x8000 <= z <= 0x8000,
    ;
}

/// The design vector of a reading, as machine words.
pub fn design_row(s: Sample) -> (row: [i64; 10])
    ensures
        as_ints(row@) == design_vector(s),
{
    let x: i64 = s.x as i64;
    let y: i64 = s.y as i64;
    let z: i64 = s.z as i64;
    assert(-0x4000_0000 <= x * x <= 0x4000_0000 && -0x4000_0000 <= y * y <= 0x4000_0000
        && -0x4000_0000 <= z * z <= 0x4000_0000 && -0x4000_0000 <= y * z <= 0x4000_0000
        && -0x4000_0000 <= x * z <= 0x4000_0000 && -0x4000_0000 <= x * y <= 0x4000_0000)
        by (nonlinear_arith)
        requires
            -0x8000 <= x <= 0x8000,
            -0x8000 <= y <= 0x8000,
            -0x8000 <= z <= 0x8000,
    ;
    let row: [i64; 10] = [
        x * x,
        y * y,
        z * z,
        y * z * 2,
        x * z * 2,
        x * y * 2,
        x * 2,
        y * 2,
        z * 2,
        1,
    ];
    assert(as_ints(row@) =~= design_vector(s));
    row
}

/// The accumulated matrix cut into the four blocks that the solve works on:
/// the quadratic block, the mixed block and its transpose, and the block of
/// the linear and constant monomials.
pub struct Partition {
    /// Rows and columns 0 to 5.
    pub s11: Vec<Vec<i128>>,
    /// Rows 0 to 5, columns 6 to 9.
    pub s12: Vec<Vec<i128>>,
    /// Rows 6 to 9, columns 0 to 5.
    pub s12t: Vec<Vec<i128>>,
    /// Rows and columns 6 to 9.
    pub s22: Vec<Vec<i128>>,
    /// How many readings the matrix sums over.
    pub sample_count: u64,
}

/// Whether `block` has `height` rows of `width` entries and holds the entries
/// of the sum of outer products of `rows` from row `top` and column `left` on.
pub open spec fn is_block(
    block: Vec<Vec<i128>>,
    rows: Seq<Seq<int>>,
    top: int,
    left: int,
    height: int,
    width: int,
) -> bool {
    &&& block.len() == height
    &&& forall|i: int| 0 <= i < height ==> (#[trigger] block[i]).len() == width
    &&& forall|i: int, j: int|
        0 <= i < height && 0 <= j < width ==> (#[trigger] block[i][j]) == gram_entry(
            rows,
            top + i,
            left + j,
        )
}

/// A calibration session while it accumulates.
pub struct CalibrationState {
    sample_count: u64,
    ata: SelfTranspose,
    seen: Ghost<Seq<Sample>>,
}

impl CalibrationState {
    /// Every reading ingested so far, oldest first.
    pub closed spec fn samples(&self) -> Seq<Sample> {
        self.seen@
    }

    /// The count of readings that the session keeps.
    pub closed spec fn count(&self) -> nat {
        self.sample_count as nat
    }

    /// The accumulator that the session owns.
    pub closed spec fn accumulator(&self) -> SelfTranspose {
        self.ata
    }

    /// Well-formedness: the accumulator has ten dimensions and has been fed
    /// the design vector of each reading, in order, and the count is the
    /// number of readings.
    pub open spec fn wf(&self) -> bool {
        &&& self.accumulator().wf()
        &&& self.accumulator().dim() == 10
        &&& self.accumulator().rows() == design_rows(self.samples())
        &&& self.count() == self.samples().len()
    }

    /// A session that has seen no reading.
    pub fn new() -> (r: Self)
        ensures
            r.wf(),
            r.samples() == Seq::<Sample>::empty(),
            r.count() == 0,
    {
        let ata = SelfTranspose::new::<10>();
        let r = CalibrationState { sample_count: 0, ata, seen: Ghost(Seq::empty()) };
        assert(r.accumulator().rows() =~= design_rows(r.samples()));
        r
    }

    /// The number of readings ingested so far.
    pub fn sample_count(&self) -> (n: u64)
        ensures
            n == self.count(),
    {
        self.sample_count
    }

    /// Entry `(i, j)` of the accumulated matrix.
    pub fn gram(&self, i: usize, j: usize) -> (v: i128)
        requires
            self.wf(),
            i < 10,
            j < 10,
        ensures
            v == gram_entry(design_rows(self.samples()), i as int, j as int),
    {
        self.ata.entry(i, j)
    }

    /// Ingests one reading: counts it and adds the outer product of its
    /// design vector to the accumulated matrix.
    pub fn sample(&mut self, sample: Sample)
        requires
            old(self).wf(),
            old(self).count() < u64::MAX,
        ensures
            final(self).wf(),
            final(self).samples() == old(self).samples().push(sample),
            final(self).count() == old(self).count() + 1,
            final(self).accumulator()@ == gram(design_rows(final(self).samples()), 10),
    {
        let row: [i64; 10] = design_row(sample);
        proof {
            let rows = self.ata.rows();
            let n = rows.len() as int;
            assert forall|i: int, j: int| 0 <= i < 10 && 0 <= j < 10 implies fits_i128(
                (#[trigger] self.ata@[i][j]) + as_ints(row@)[i] * as_ints(row@)[j],
            ) by {
                lemma_design_bounded(sample, i);
                lemma_design_bounded(sample, j);
                let a = row@[i] as int;
                let b = row@[j] as int;
                assert(a == as_ints(row@)[i]);
                assert(b == as_ints(row@)[j]);
                assert(-0x4000_0000_0000_0000 <= a * b <= 0x4000_0000_0000_0000)
                    by (nonlinear_arith)
                    requires
                        -0x8000_0000 <= a <= 0x8000_0000,
                        -0x8000_0000 <= b <= 0x8000_0000,
                ;
                assert forall|k: int| 0 <= k < rows.len() implies -design_bound()
                    <= #[trigger] rows[k][i] <= design_bound() by {
                    lemma_design_bounded(self.samples()[k], i);
                }
                assert forall|k: int| 0 <= k < rows.len() implies -design_bound()
                    <= #[trigger] rows[k][j] <= design_bound() by {
                    lemma_design_bounded(self.samples()[k], j);
                }
                lemma_gram_bounded(rows, design_bound(), i, j);
                assert(design_bound() * design_bound() == 0x4000_0000_0000_0000)
                    by (nonlinear_arith);
                assert(self.ata@[i][j] == gram(rows, 10)[i][j]);
                assert(n * 0x4000_0000_0000_0000 + 0x4000_0000_0000_0000 <= i128::MAX)
                    by (nonlinear_arith)
                    requires
                        0 <= n < 0xffff_ffff_ffff_ffff,
                ;
            }
        }
        self.ata.feed_row(row.as_slice());
        self.sample_count = self.sample_count + 1;
        self.seen = Ghost(self.seen@.push(sample));
        assert(self.accumulator().rows() =~= design_rows(self.samples()));
    }

    /// Ends the session: cuts the accumulated matrix into its four blocks.
    /// A session that has seen no reading has no mean field magnitude and is
    /// refused.
    pub fn partition(self) -> (r: Result<Partition, CalibrationError>)
        requires
            self.wf(),
        ensures
            self.count() == 0 <==> r is Err,
            r is Err ==> r == Err::<Partition, CalibrationError>(CalibrationError::EmptyInput),
            r matches Ok(p) ==> {
                &&& p.sample_count == self.count()
                &&& is_block(p.s11, design_rows(self.samples()), 0, 0, 6, 6)
                &&& is_block(p.s12, design_rows(self.samples()), 0, 6, 6, 4)
                &&& is_block(p.s12t, design_rows(self.samples()), 6, 0, 4, 6)
                &&& is_block(p.s22, design_rows(self.samples()), 6, 6, 4, 4)
            },
    {
        if self.sample_count == 0 {
            return Err(CalibrationError::EmptyInput);
        }
        let s11 = self.ata.block(0, 0, 6, 6);
        let s12 = self.ata.block(0, 6, 6, 4);
        let s12t = self.ata.block(6, 0, 4, 6);
        let s22 = self.ata.block(6, 6, 4, 4);
        Ok(Partition { s11, s12, s12t, s22, sample_count: self.sample_count })
    }
}

/// The lower mixed block of a partition is the transpose of the upper one,
/// and the two diagonal blocks are symmetric.
pub proof fn lemma_partition_symmetric(p: Partition, samples: Seq<Sample>)
    requires
        is_block(p.s11, design_rows(samples), 0, 0, 6, 6),
        is_block(p.s12, design_rows(samples), 0, 6, 6, 4),
        is_block(p.s12t, design_rows(samples), 6, 0, 4, 6),
        is_block(p.s22, design_rows(samples), 6, 6, 4, 4),
    ensures
        forall|i: int, j: int| 0 <= i < 4 && 0 <= j < 6 ==> p.s12t[i][j] == p.s12[j][i],
        forall|i: int, j: int| 0 <= i < 6 && 0 <= j < 6 ==> p.s11[i][j] == p.s11[j][i],
        forall|i: int, j: int| 0 <= i < 4 && 0 <= j < 4 ==> p.s22[i][j] == p.s22[j][i],
{
    let rows = design_rows(samples);
    assert forall|i: int, j: int| 0 <= i < 4 && 0 <= j < 6 implies p.s12t[i][j] == p.s12[j][i] by {
        lemma_gram_symmetric(rows, 6 + i, j);
    }
    assert forall|i: int, j: int| 0 <= i < 6 && 0 <= j < 6 implies p.s11[i][j] == p.s11[j][i] by {
        lemma_gram_symmetric(rows, i, j);
    }
    assert forall|i: int, j: int| 0 <= i < 4 && 0 <= j < 4 implies p.s22[i][j] == p.s22[j][i] by {
        lemma_gram_symmetric(rows, 6 + i, 6 + j);
    }
}

} // verus!
