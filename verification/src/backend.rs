//! Prover-backend logic that runs on the host: the marker and PCS data
//! types of the HIP backend, and checks over matrices read back from the
//! device (column-major, as device matrices store them).

use vstd::prelude::*;

verus! {

/// HIP backend for the STARK proving system.
#[derive(Clone, Copy, Default, Debug)]
pub struct HipBackend;

/// PCS data of the HIP backend.
#[derive(Clone, Debug)]
pub struct HipPcsData {
    pub log_trace_heights: Vec<u8>,
}

/// A device matrix read back to the host: its dimensions and its buffer,
/// column-major (the entry at row `r`, column `c` is `values[c * height + r]`).
#[derive(Debug, Clone)]
pub struct DeviceMatrixHost {
    pub height: usize,
    pub width: usize,
    pub values: Vec<u32>,
}

/// The entry at row `r`, column `c` of a column-major buffer of height `h`.
pub open spec fn entry(values: Seq<u32>, h: int, r: int, c: int) -> u32 {
    values[c * h + r]
}

/// `(r1, c1)` comes before `(r2, c2)` in row-by-row order.
pub open spec fn before(r1: int, c1: int, r2: int, c2: int) -> bool {
    r1 < r2 || (r1 == r2 && c1 < c2)
}

/// The buffer holds every entry of the matrix.
pub open spec fn holds_entries(m: DeviceMatrixHost) -> bool {
    m.height * m.width <= m.values@.len()
}

/// Why two device matrices differ.
#[derive(Debug, Clone, Copy, PartialEq, Eq, Structural)]
pub enum MatrixMismatch {
    Height { left: usize, right: usize },
    Width { left: usize, right: usize },
    BufferLen { left: usize, right: usize },
    Entry { row: usize, col: usize },
}

proof fn lemma_index_in_bounds(h: int, w: int, r: int, c: int)
    requires
        0 <= r < h,
        0 <= c < w,
    ensures
        0 <= c * h + r < h * w,
{
    assert(c * h + r < h * w) by (nonlinear_arith)
        requires
            0 <= r < h,
            0 <= c < w,
    ;
    assert(0 <= c * h) by (nonlinear_arith)
        requires
            0 <= c,
            0 <= h,
    ;
}

/// Compares two device matrices read back to the host: their heights,
/// widths and buffer lengths, then their entries row by row. Reports the
/// first difference.
pub fn assert_eq_device_matrix(a: &DeviceMatrixHost, b: &DeviceMatrixHost) -> (r: Result<(), MatrixMismatch>)
    requires
        holds_entries(*a),
        holds_entries(*b),
    ensures
        a.height != b.height ==> r == Err::<(), MatrixMismatch>(
            MatrixMismatch::Height { left: a.height, right: b.height },
        ),
        a.height == b.height && a.width != b.width ==> r == Err::<(), MatrixMismatch>(
            MatrixMismatch::Width { left: a.width, right: b.width },
        ),
        a.height == b.height && a.width == b.width && a.values@.len() != b.values@.len() ==> r == Err::<
            (),
            MatrixMismatch,
        >(MatrixMismatch::BufferLen { left: a.values@.len() as usize, right: b.values@.len() as usize }),
        r is Ok <==> {
            &&& a.height == b.height
            &&& a.width == b.width
            &&& a.values@.len() == b.values@.len()
            &&& forall|i: int, j: int|
                0 <= i < a.height && 0 <= j < a.width ==> entry(a.values@, a.height as int, i, j)
                    == entry(b.values@, b.height as int, i, j)
        },
        r matches Err(MatrixMismatch::Entry { row, col }) ==> {
            &&& a.height == b.height && a.width == b.width && a.values@.len() == b.values@.len()
            &&& row < a.height && col < a.width
            &&& entry(a.values@, a.height as int, row as int, col as int) != entry(
                b.values@,
                b.height as int,
                row as int,
                col as int,
            )
            &&& forall|i: int, j: int|
                0 <= i < a.height && 0 <= j < a.width && before(i, j, row as int, col as int)
                    ==> entry(a.values@, a.height as int, i, j) == entry(b.values@, b.height as int, i, j)
        },
{
    if a.height != b.height {
        return Err(MatrixMismatch::Height { left: a.height, right: b.height });
    }
    if a.width != b.width {
        return Err(MatrixMismatch::Width { left: a.width, right: b.width });
    }
    if a.values.len() != b.values.len() {
        return Err(MatrixMismatch::BufferLen { left: a.values.len(), right: b.values.len() });
    }
    let h = a.height;
    let w = a.width;
    let n = a.values.len();
    let mut r: usize = 0;
    while r < h
        invariant
            n == a.values@.len(),
            0 <= r <= h,
            h == a.height == b.height,
            w == a.width == b.width,
            a.values@.len() == b.values@.len(),
            holds_entries(*a),
            forall|i: int, j: int|
                0 <= i < r && 0 <= j < w ==> entry(a.values@, h as int, i, j) == entry(
                    b.values@,
                    h as int,
                    i,
                    j,
                ),
        decreases h - r,
    {
        let mut c: usize = 0;
        while c < w
            invariant
                n == a.values@.len(),
                0 <= r < h,
                0 <= c <= w,
                h == a.height == b.height,
                w == a.width == b.width,
                a.values@.len() == b.values@.len(),
                holds_entries(*a),
                forall|i: int, j: int|
                    0 <= i < r && 0 <= j < w ==> entry(a.values@, h as int, i, j) == entry(
                        b.values@,
                        h as int,
                        i,
                        j,
                    ),
                forall|j: int|
                    0 <= j < c ==> entry(a.values@, h as int, r as int, j) == entry(
                        b.values@,
                        h as int,
                        r as int,
                        j,
                    ),
            decreases w - c,
        {
            proof {
                lemma_index_in_bounds(h as int, w as int, r as int, c as int);
            }
            let idx = c * h + r;
            if a.values[idx] != b.values[idx] {
                assert(entry(a.values@, h as int, r as int, c as int) != entry(b.values@, h as int, r as int, c as int));
                return Err(MatrixMismatch::Entry { row: r, col: c });
            }
            c = c + 1;
        }
        r = r + 1;
    }
    Ok(())
}

/// A host matrix, row-major (the entry at row `r`, column `c` is
/// `values[r * width + c]`).
#[derive(Debug, Clone)]
pub struct RowMajorMatrix {
    pub width: usize,
    pub values: Vec<u32>,
}

/// The height of a row-major matrix: its entries divided by its width
/// (0 for a matrix of width 0).
pub open spec fn row_major_height(m: RowMajorMatrix) -> int {
    if m.width == 0 {
        0
    } else {
        (m.values@.len() as int) / (m.width as int)
    }
}

/// The entry at row `r`, column `c` of a row-major buffer of width `w`.
pub open spec fn row_major_entry(values: Seq<u32>, w: int, r: int, c: int) -> u32 {
    values[r * w + c]
}

impl RowMajorMatrix {
    /// The number of rows.
    pub fn height(&self) -> (h: usize)
        ensures
            h == row_major_height(*self),
    {
        if self.width == 0 {
            0
        } else {
            self.values.len() / self.width
        }
    }
}

proof fn lemma_row_major_in_bounds(w: int, n: int, r: int, c: int)
    requires
        w > 0,
        0 <= r < n / w,
        0 <= c < w,
    ensures
        0 <= r * w + c < n,
{
    assert(0 <= r * w + c < n) by (nonlinear_arith)
        requires
            w > 0,
            0 <= r < n / w,
            0 <= c < w,
    ;
}

/// Compares a host matrix with a device matrix read back to the host:
/// their widths, their heights, then their entries row by row. Reports
/// the first difference.
pub fn assert_eq_host_and_device_matrix(cpu: &RowMajorMatrix, gpu: &DeviceMatrixHost) -> (r: Result<(), MatrixMismatch>)
    requires
        holds_entries(*gpu),
    ensures
        gpu.width != cpu.width ==> r == Err::<(), MatrixMismatch>(
            MatrixMismatch::Width { left: gpu.width, right: cpu.width },
        ),
        gpu.width == cpu.width && gpu.height != row_major_height(*cpu) ==> r == Err::<(), MatrixMismatch>(
            MatrixMismatch::Height { left: gpu.height, right: row_major_height(*cpu) as usize },
        ),
        r is Ok <==> {
            &&& gpu.width == cpu.width
            &&& gpu.height == row_major_height(*cpu)
            &&& forall|i: int, j: int|
                0 <= i < gpu.height && 0 <= j < gpu.width ==> entry(gpu.values@, gpu.height as int, i, j)
                    == row_major_entry(cpu.values@, cpu.width as int, i, j)
        },
        r matches Err(MatrixMismatch::Entry { row, col }) ==> {
            &&& gpu.width == cpu.width && gpu.height == row_major_height(*cpu)
            &&& row < gpu.height && col < gpu.width
            &&& entry(gpu.values@, gpu.height as int, row as int, col as int) != row_major_entry(
                cpu.values@,
                cpu.width as int,
                row as int,
                col as int,
            )
            &&& forall|i: int, j: int|
                0 <= i < gpu.height && 0 <= j < gpu.width && before(i, j, row as int, col as int)
                    ==> entry(gpu.values@, gpu.height as int, i, j) == row_major_entry(
                    cpu.values@,
                    cpu.width as int,
                    i,
                    j,
                )
        },
{
    if gpu.width != cpu.width {
        return Err(MatrixMismatch::Width { left: gpu.width, right: cpu.width });
    }
    let h = cpu.height();
    if gpu.height != h {
        return Err(MatrixMismatch::Height { left: gpu.height, right: h });
    }
    let w = cpu.width;
    let n = gpu.values.len();
    let m = cpu.values.len();
    let mut r: usize = 0;
    while r < h
        invariant
            n == gpu.values@.len(),
            m == cpu.values@.len(),
            0 <= r <= h,
            h == gpu.height == row_major_height(*cpu),
            w == gpu.width == cpu.width,
            holds_entries(*gpu),
            forall|i: int, j: int|
                0 <= i < r && 0 <= j < w ==> entry(gpu.values@, h as int, i, j) == row_major_entry(
                    cpu.values@,
                    w as int,
                    i,
                    j,
                ),
        decreases h - r,
    {
        let mut c: usize = 0;
        while c < w
            invariant
                n == gpu.values@.len(),
                m == cpu.values@.len(),
                0 <= r < h,
                0 <= c <= w,
                h == gpu.height == row_major_height(*cpu),
                w == gpu.width == cpu.width,
                holds_entries(*gpu),
                forall|i: int, j: int|
                    0 <= i < r && 0 <= j < w ==> entry(gpu.values@, h as int, i, j) == row_major_entry(
                        cpu.values@,
                        w as int,
                        i,
                        j,
                    ),
                forall|j: int|
                    0 <= j < c ==> entry(gpu.values@, h as int, r as int, j) == row_major_entry(
                        cpu.values@,
                        w as int,
                        r as int,
                        j,
                    ),
            decreases w - c,
        {
            proof {
                lemma_index_in_bounds(h as int, w as int, r as int, c as int);
                lemma_row_major_in_bounds(w as int, m as int, r as int, c as int);
            }
            if gpu.values[c * h + r] != cpu.values[r * w + c] {
                assert(entry(gpu.values@, h as int, r as int, c as int) != row_major_entry(
                    cpu.values@,
                    w as int,
                    r as int,
                    c as int,
                ));
                return Err(MatrixMismatch::Entry { row: r, col: c });
            }
            c = c + 1;
        }
        r = r + 1;
    }
    Ok(())
}

/// `2^k`.
pub open spec fn pow2(k: nat) -> nat
    decreases k,
{
    if k == 0 {
        1
    } else {
        2 * pow2((k - 1) as nat)
    }
}

/// `n` is a power of two.
pub open spec fn is_power_of_two(n: nat) -> bool {
    exists|k: nat| pow2(k) == n
}

/// The base-2 logarithm of a power of two (`log2_strict_usize`).
pub fn log2_strict_usize(n: usize) -> (k: usize)
    requires
        is_power_of_two(n as nat),
    ensures
        pow2(k as nat) == n,
{
    let ghost e = choose|e: nat| pow2(e) == n;
    proof {
        lemma_pow2_exceeds(e);
        assert(pow2(0) == 1);
        assert((e - 0) as nat == e);
    }
    let mut m = n;
    let mut k: usize = 0;
    while m > 1
        invariant
            pow2(e) == n,
            e < n,
            k <= e,
            m as nat * pow2(k as nat) == n,
            m >= 1,
            pow2((e - k) as nat) == m,
        decreases m,
    {
        proof {
            lemma_pow2_even((e - k) as nat);
            assert(pow2((e - k - 1) as nat) * 2 == m);
        }
        m = m / 2;
        k = k + 1;
        proof {
            assert(m as nat * pow2(k as nat) == n) by (nonlinear_arith)
                requires
                    pow2(k as nat) == 2 * pow2((k - 1) as nat),
                    (m * 2) as nat * pow2((k - 1) as nat) == n,
            ;
        }
    }
    proof {
        assert(pow2(k as nat) == n);
    }
    k
}

proof fn lemma_pow2_exceeds(e: nat)
    ensures
        pow2(e) > e,
        pow2(e) >= 1,
    decreases e,
{
    if e > 0 {
        lemma_pow2_exceeds((e - 1) as nat);
    }
}

proof fn lemma_pow2_even(d: nat)
    requires
        pow2(d) > 1,
    ensures
        d >= 1,
        pow2(d) == 2 * pow2((d - 1) as nat),
{
}

/// The natural evaluation domain of a degree: the subgroup of that order,
/// unshifted (`log_n` is its size's logarithm, `shift` is the field's one).
#[derive(Debug, Clone, Copy, PartialEq, Eq, Structural)]
pub struct NaturalDomain {
    pub log_n: usize,
    pub shift: u32,
}

/// The natural domain for a power-of-two degree.
pub fn natural_domain_for_degree(degree: usize) -> (d: NaturalDomain)
    requires
        is_power_of_two(degree as nat),
    ensures
        pow2(d.log_n as nat) == degree,
        d.shift == 1,
{
    NaturalDomain { log_n: log2_strict_usize(degree), shift: 1 }
}

/// The marker a trace is filled with before it is generated: an entry
/// that still holds it was never written.
pub const UNTOUCHED: u32 = 0xffff_ffff;

/// Looks for an entry of a trace (read back column-major) that was never
/// written, row by row, and reports the first one.
pub fn check_trace_validity(trace: &DeviceMatrixHost) -> (r: Result<(), (usize, usize)>)
    requires
        holds_entries(*trace),
    ensures
        r is Ok <==> forall|i: int, j: int|
            0 <= i < trace.height && 0 <= j < trace.width ==> entry(trace.values@, trace.height as int, i, j)
                != UNTOUCHED,
        r matches Err((row, col)) ==> {
            &&& row < trace.height && col < trace.width
            &&& entry(trace.values@, trace.height as int, row as int, col as int) == UNTOUCHED
            &&& forall|i: int, j: int|
                0 <= i < trace.height && 0 <= j < trace.width && before(i, j, row as int, col as int)
                    ==> entry(trace.values@, trace.height as int, i, j) != UNTOUCHED
        },
{
    let h = trace.height;
    let w = trace.width;
    let n = trace.values.len();
    let mut r: usize = 0;
    while r < h
        invariant
            n == trace.values@.len(),
            0 <= r <= h,
            h == trace.height,
            w == trace.width,
            holds_entries(*trace),
            forall|i: int, j: int|
                0 <= i < r && 0 <= j < w ==> entry(trace.values@, h as int, i, j) != UNTOUCHED,
        decreases h - r,
    {
        let mut c: usize = 0;
        while c < w
            invariant
                n == trace.values@.len(),
                0 <= r < h,
                0 <= c <= w,
                h == trace.height,
                w == trace.width,
                holds_entries(*trace),
                forall|i: int, j: int|
                    0 <= i < r && 0 <= j < w ==> entry(trace.values@, h as int, i, j) != UNTOUCHED,
                forall|j: int| 0 <= j < c ==> entry(trace.values@, h as int, r as int, j) != UNTOUCHED,
            decreases w - c,
        {
            proof {
                lemma_index_in_bounds(h as int, w as int, r as int, c as int);
            }
            if trace.values[c * h + r] == UNTOUCHED {
                assert(entry(trace.values@, h as int, r as int, c as int) == UNTOUCHED);
                return Err((r, c));
            }
            c = c + 1;
        }
        r = r + 1;
    }
    Ok(())
}

} // verus!
