use vstd::prelude::*;

verus! {

/// Scanline rendered as local row `local` of band `band`, when each band holds
/// `band_height` rows. Scanlines count upward from the bottom of the image; a
/// worker walks its band from the top, so local row 0 is the band's highest
/// scanline.
pub open spec fn scanline_of(band: int, band_height: int, local: int) -> int {
    band * band_height + (band_height - 1 - local)
}

/// The split of an image's rows into equal contiguous bands, one per worker.
pub struct RowBands {
    pub workers: u32,
    pub band_height: u32,
}

impl RowBands {
    /// Splits `image_height` rows among `workers` workers: each band holds
    /// `image_height / workers` rows, and band `t` holds the scanlines from
    /// `t * band_height` up to `(t + 1) * band_height - 1`.
    pub fn new(image_height: u32, workers: u32) -> (r: RowBands)
        requires
            workers > 0,
        ensures
            r.workers == workers,
            r.band_height == image_height / workers,
            r.workers * r.band_height <= image_height,
    {
        let band_height = image_height / workers;
        proof {
            vstd::arithmetic::div_mod::lemma_fundamental_div_mod(image_height as int, workers as int);
            assert(workers * band_height <= image_height) by (nonlinear_arith)
                requires
                    image_height == workers * (image_height / workers) + image_height % workers,
                    band_height == image_height / workers,
                    image_height % workers >= 0,
            ;
        }
        RowBands { workers, band_height }
    }

    /// Number of rows that the bands cover together.
    pub fn rows(&self) -> (r: u32)
        requires
            self.workers * self.band_height <= u32::MAX,
        ensures
            r == self.workers * self.band_height,
    {
        self.workers * self.band_height
    }

    /// Scanlines of band `band`, in the order in which its worker renders them:
    /// from the band's top row down to its bottom row.
    pub fn scanlines(&self, band: u32) -> (rows: Vec<u32>)
        requires
            band < self.workers,
            self.workers * self.band_height <= u32::MAX,
        ensures
            rows@.len() == self.band_height,
            forall|i: int|
                0 <= i < self.band_height ==> #[trigger] rows@[i] == scanline_of(
                    band as int,
                    self.band_height as int,
                    i,
                ),
    {
        let h = self.band_height;
        proof {
            assert((band + 1) * h <= self.workers * h) by (nonlinear_arith)
                requires
                    band < self.workers,
            ;
            assert((band + 1) * h == band * h + h) by (nonlinear_arith);
        }
        let base: u32 = band * h;
        let mut rows: Vec<u32> = Vec::new();
        let mut i: u32 = 0;
        while i < h
            invariant
                i <= h,
                h == self.band_height,
                base == band * h,
                base + h <= u32::MAX,
                rows@.len() == i,
                forall|k: int|
                    0 <= k < i ==> #[trigger] rows@[k] == scanline_of(band as int, h as int, k),
            decreases h - i,
        {
            rows.push(base + (h - 1 - i));
            i = i + 1;
        }
        rows
    }
}

/// Seed of the random stream of the worker that renders band `band`, when
/// the render starts from seed `base`.
pub open spec fn seed_of(base: u64, band: u32) -> int {
    (base as int + band as int) % 0x1_0000_0000_0000_0000
}

/// Seed of the random stream that the worker of band `band` owns: the base
/// seed moved on by the band index, wrapping around.
pub fn worker_seed(base: u64, band: u32) -> (seed: u64)
    ensures
        seed == seed_of(base, band),
{
    let seed = base.wrapping_add(band as u64);
    assert(seed == seed_of(base, band)) by {
        if base as int + band as int > u64::MAX {
            assert(seed_of(base, band) == base as int + band as int - 0x1_0000_0000_0000_0000);
        }
    }
    seed
}

/// Workers of different bands seed their random streams differently.
pub proof fn lemma_worker_seeds_differ(base: u64, a: u32, b: u32)
    requires
        a != b,
    ensures
        seed_of(base, a) != seed_of(base, b),
{
    let m: int = 0x1_0000_0000_0000_0000;
    let x = base as int + a as int;
    let y = base as int + b as int;
    assert(x % m == if x < m { x } else { x - m });
    assert(y % m == if y < m { y } else { y - m });
}

/// A worker's report lists its band's rows; its index names the band.
/// A set of reports from `n` workers is complete when it has one report for
/// each band index below `n`, and none other.
pub open spec fn complete<R>(reports: Seq<(usize, Vec<R>)>, n: nat) -> bool {
    &&& reports.len() == n
    &&& forall|j: int| 0 <= j < reports.len() ==> (#[trigger] reports[j]).0 < n
    &&& forall|i: int, j: int|
        0 <= i < j < reports.len() ==> (#[trigger] reports[i]).0 != (#[trigger] reports[j]).0
    &&& forall|k: int| 0 <= k < n ==> #[trigger] has_band(reports, k)
}

/// Some report carries band `k`.
pub open spec fn has_band<R>(reports: Seq<(usize, Vec<R>)>, k: int) -> bool {
    exists|j: int| 0 <= j < reports.len() && (#[trigger] reports[j]).0 == k
}

/// Rows of band `k`, as the report with that index carries them.
pub open spec fn band_of<R>(reports: Seq<(usize, Vec<R>)>, k: int) -> Seq<R> {
    reports[choose|j: int| 0 <= j < reports.len() && (#[trigger] reports[j]).0 == k].1@
}

/// Rows of the bands below `n`, top of the image first: band `n - 1` first,
/// band 0 last, each band's rows in the order reported.
pub open spec fn stacked<R>(reports: Seq<(usize, Vec<R>)>, n: nat) -> Seq<R>
    decreases n,
{
    if n == 0 {
        Seq::empty()
    } else {
        band_of(reports, n - 1) + stacked(reports, (n - 1) as nat)
    }
}

proof fn lemma_band_of_at<R>(reports: Seq<(usize, Vec<R>)>, j: int)
    requires
        forall|a: int, b: int|
            0 <= a < b < reports.len() ==> (#[trigger] reports[a]).0 != (#[trigger] reports[b]).0,
        0 <= j < reports.len(),
    ensures
        band_of(reports, reports[j].0 as int) == reports[j].1@,
{
    let k = reports[j].0 as int;
    let c = choose|i: int| 0 <= i < reports.len() && (#[trigger] reports[i]).0 == k;
    assert(0 <= c < reports.len() && reports[c].0 == k);
    if c < j {
        assert(reports[c].0 != reports[j].0);
    } else if j < c {
        assert(reports[j].0 != reports[c].0);
    }
}

proof fn lemma_stacked_index<R>(reports: Seq<(usize, Vec<R>)>, m: nat, h: nat)
    requires
        h > 0,
        forall|k: int| 0 <= k < m ==> (#[trigger] band_of(reports, k)).len() == h,
    ensures
        stacked(reports, m).len() == m * h,
        forall|i: int|
            0 <= i < m * h ==> #[trigger] stacked(reports, m)[i] == band_of(
                reports,
                m - 1 - i / h as int,
            )[i % h as int],
    decreases m,
{
    if m > 0 {
        let top = band_of(reports, m - 1);
        let rest = stacked(reports, (m - 1) as nat);
        lemma_stacked_index(reports, (m - 1) as nat, h);
        assert(m * h == h + (m - 1) * h) by (nonlinear_arith);
        vstd::arithmetic::div_mod::lemma_basic_div_specific_divisor(h as int);
        assert forall|i: int| 0 <= i < m * h implies #[trigger] stacked(reports, m)[i] == band_of(
            reports,
            m - 1 - i / h as int,
        )[i % h as int] by {
            if i < h {
                vstd::arithmetic::div_mod::lemma_small_mod(i as nat, h);
                assert(stacked(reports, m)[i] == top[i]);
            } else {
                vstd::arithmetic::div_mod::lemma_div_minus_one(i, h as int);
                vstd::arithmetic::div_mod::lemma_mod_sub_multiples_vanish(i, h as int);
                assert(-(h as int) + i == i - h);
                assert(stacked(reports, m)[i] == rest[i - h]);
            }
        }
    }
}

/// When `n` workers each report a band of `h` rows, one report per band, the
/// reassembled image has `n * h` rows, and its row `k` (counting from the top)
/// is local row `k % h` of band `n - 1 - k / h`: the row that its worker
/// rendered as scanline `n * h - 1 - k`. So the rows run from the top scanline
/// down to scanline 0, each exactly once.
pub proof fn lemma_reassembled_rows<R>(reports: Seq<(usize, Vec<R>)>, n: nat, h: nat)
    requires
        complete(reports, n),
        h > 0,
        forall|j: int| 0 <= j < reports.len() ==> (#[trigger] reports[j]).1@.len() == h,
    ensures
        stacked(reports, n).len() == n * h,
        forall|k: int|
            0 <= k < n * h ==> {
                &&& #[trigger] stacked(reports, n)[k] == band_of(
                    reports,
                    n - 1 - k / h as int,
                )[k % h as int]
                &&& scanline_of(n - 1 - k / h as int, h as int, k % h as int) == n * h - 1 - k
            },
{
    assert forall|k: int| 0 <= k < n implies (#[trigger] band_of(reports, k)).len() == h by {
        assert(has_band(reports, k));
        let j = choose|j: int| 0 <= j < reports.len() && (#[trigger] reports[j]).0 == k;
        lemma_band_of_at(reports, j);
    }
    lemma_stacked_index(reports, n, h);
    assert forall|k: int| 0 <= k < n * h implies #[trigger] scanline_of(
        n - 1 - k / h as int,
        h as int,
        k % h as int,
    ) == n * h - 1 - k by {
        vstd::arithmetic::div_mod::lemma_fundamental_div_mod(k, h as int);
        let q = k / h as int;
        let r = k % h as int;
        assert((n - 1 - q) * h + (h - 1 - r) == n * h - 1 - (h * q + r)) by (nonlinear_arith);
    }
}

/// The image does not depend on the order in which the workers reported: two
/// complete sets of reports that hold the same reports give the same rows.
pub proof fn lemma_arrival_order_irrelevant<R>(
    a: Seq<(usize, Vec<R>)>,
    b: Seq<(usize, Vec<R>)>,
    n: nat,
)
    requires
        complete(a, n),
        complete(b, n),
        forall|i: int| 0 <= i < b.len() ==> exists|j: int| 0 <= j < a.len() && a[j] == #[trigger] b[i],
    ensures
        stacked(a, n) == stacked(b, n),
{
    assert forall|k: int| 0 <= k < n implies #[trigger] band_of(a, k) == band_of(b, k) by {
        assert(has_band(b, k));
        let i = choose|i: int| 0 <= i < b.len() && (#[trigger] b[i]).0 == k;
        let j = choose|j: int| 0 <= j < a.len() && a[j] == #[trigger] b[i];
        lemma_band_of_at(b, i);
        lemma_band_of_at(a, j);
    }
    lemma_stacked_same(a, b, n);
}

proof fn lemma_stacked_same<R>(a: Seq<(usize, Vec<R>)>, b: Seq<(usize, Vec<R>)>, m: nat)
    requires
        forall|k: int| 0 <= k < m ==> #[trigger] band_of(a, k) == band_of(b, k),
    ensures
        stacked(a, m) == stacked(b, m),
    decreases m,
{
    if m > 0 {
        lemma_stacked_same(a, b, (m - 1) as nat);
        assert(band_of(a, m - 1) == band_of(b, m - 1));
    }
}

/// Gathers the bands that `workers` workers reported, in whatever order they
/// arrived, into the image's rows from top to bottom. Fails when the reports
/// are not exactly one for each band index below `workers`.
pub fn reassemble<R>(reports: Vec<(usize, Vec<R>)>, workers: usize) -> (image: Option<Vec<R>>)
    ensures
        image.is_some() <==> complete(reports@, workers as nat),
        image.is_some() ==> image.unwrap()@ == stacked(reports@, workers as nat),
{
    let ghost rs = reports@;
    if reports.len() != workers {
        return None;
    }
    let mut pending = reports;
    let mut slots: Vec<Option<Vec<R>>> = Vec::new();
    let mut k: usize = 0;
    while k < workers
        invariant
            k <= workers,
            slots@.len() == k,
            forall|i: int| 0 <= i < k ==> (#[trigger] slots@[i]).is_none(),
        decreases workers - k,
    {
        slots.push(None);
        k = k + 1;
    }
    while pending.len() > 0
        invariant
            rs == reports@,
            rs.len() == workers,
            slots@.len() == workers,
            pending@.len() <= rs.len(),
            pending@ == rs.subrange(0, pending@.len() as int),
            forall|j: int| pending@.len() <= j < rs.len() ==> (#[trigger] rs[j]).0 < workers,
            forall|i: int, j: int|
                pending@.len() <= i < j < rs.len() ==> (#[trigger] rs[i]).0 != (#[trigger] rs[j]).0,
            forall|b: int|
                0 <= b < workers ==> ((#[trigger] slots@[b]).is_some() <==> exists|j: int|
                    pending@.len() <= j < rs.len() && (#[trigger] rs[j]).0 == b),
            forall|j: int|
                pending@.len() <= j < rs.len() ==> slots@[(#[trigger] rs[j]).0 as int] == Some(
                    rs[j].1,
                ),
        decreases pending@.len(),
    {
        let ghost top = pending@.len() - 1;
        let (id, band) = pending.pop().unwrap();
        assert(rs[top] == (id, band));
        if id >= workers {
            assert(!complete(rs, workers as nat)) by {
                assert(rs[top].0 >= workers);
            }
            return None;
        }
        if slots[id].is_some() {
            assert(!complete(rs, workers as nat)) by {
                let j = choose|j: int| pending@.len() + 1 <= j < rs.len() && (#[trigger] rs[j]).0 == id;
                assert(rs[top].0 == rs[j].0);
            }
            return None;
        }
        slots.set(id, Some(band));
        assert forall|b: int| 0 <= b < workers implies ((#[trigger] slots@[b]).is_some() <==> exists|j: int|
            pending@.len() <= j < rs.len() && (#[trigger] rs[j]).0 == b) by {
            if b == id {
                assert(rs[top].0 == b);
            }
        }
    }
    let ghost full = slots@;
    let mut image: Vec<R> = Vec::new();
    while slots.len() > 0
        invariant
            rs == reports@,
            rs.len() == workers,
            full.len() == workers,
            slots@.len() <= workers,
            slots@ == full.subrange(0, slots@.len() as int),
            forall|i: int, j: int| 0 <= i < j < rs.len() ==> (#[trigger] rs[i]).0 != (#[trigger] rs[j]).0,
            forall|j: int| 0 <= j < rs.len() ==> (#[trigger] rs[j]).0 < workers,
            forall|b: int|
                0 <= b < workers ==> ((#[trigger] full[b]).is_some() <==> has_band(rs, b)),
            forall|j: int| 0 <= j < rs.len() ==> full[(#[trigger] rs[j]).0 as int] == Some(rs[j].1),
            forall|b: int| slots@.len() <= b < workers ==> #[trigger] has_band(rs, b),
            image@ + stacked(rs, slots@.len() as nat) == stacked(rs, workers as nat),
        decreases slots@.len(),
    {
        let ghost m = slots@.len() - 1;
        let slot = slots.pop().unwrap();
        assert(full[m] == slot);
        match slot {
            None => {
                assert(!complete(rs, workers as nat)) by {
                    assert(!has_band(rs, m));
                }
                return None;
            },
            Some(band) => {
                let mut band = band;
                proof {
                    assert(has_band(rs, m));
                    let j = choose|j: int| 0 <= j < rs.len() && (#[trigger] rs[j]).0 == m;
                    lemma_band_of_at(rs, j);
                    assert(band@ == band_of(rs, m));
                    assert(image@ + band@ + stacked(rs, m as nat) =~= image@ + stacked(rs, (m + 1) as nat));
                }
                image.append(&mut band);
            },
        }
    }
    proof {
        assert(image@ + stacked(rs, 0) =~= image@);
        assert(complete(rs, workers as nat));
    }
    Some(image)
}

} // verus!
