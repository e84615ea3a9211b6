//! The decoded tensor and its shape.
//!
//! A tensor is a rank-3 array [step][cell][channel] over an n x n spatial
//! grid, kept flat in row-major order; a cell (row, col) is the flat index
//! row * n + col. Elements are the raw bit patterns of half-precision storage
//! words, exactly as decoded; the tensor is immutable after construction.

use crate::codec::words_of_bytes;
use crate::error::{FormatFault, SimError};
use vstd::prelude::*;

verus! {

/// The announced logical shape of a blob: steps x (n * n) cells x m channels.
#[derive(Clone, Copy, Debug, PartialEq, Eq, Structural)]
pub struct Shape {
    /// Extent of the temporal/processing axis.
    pub steps: usize,
    /// Side length of the spatial grid; the grid has n * n cells.
    pub n: usize,
    /// Number of channels per cell.
    pub m: usize,
}

impl Shape {
    /// Total element count steps * n * n * m.
    pub open spec fn count(self) -> int {
        self.steps * self.n * self.n * self.m
    }

    /// Number of cells of the spatial grid.
    pub open spec fn cells(self) -> int {
        self.n * self.n
    }

    /// All products a flat index computation can form stay within usize.
    pub open spec fn fits(self) -> bool {
        &&& self.n * self.n <= usize::MAX
        &&& self.n * self.n * self.m <= usize::MAX
        &&& self.count() <= usize::MAX
    }

    /// Builds a shape after checking that its index arithmetic cannot
    /// overflow; rejects one whose element count exceeds the machine.
    pub fn checked(steps: usize, n: usize, m: usize) -> (r: Option<Shape>)
        ensures
            match r {
                Some(s) => s.steps == steps && s.n == n && s.m == m && s.fits(),
                None => !(Shape { steps, n, m }).fits(),
            },
    {
        proof {
            lemma_count_rearranged(steps as int, n as int, m as int);
        }
        match n.checked_mul(n) {
            Some(nn) => match nn.checked_mul(m) {
                Some(nnm) => match nnm.checked_mul(steps) {
                    Some(_) => Some(Shape { steps, n, m }),
                    None => None,
                },
                None => None,
            },
            None => None,
        }
    }

    /// The element count as a machine integer.
    pub fn element_count(&self) -> (r: usize)
        requires
            self.fits(),
        ensures
            r == self.count(),
    {
        proof {
            lemma_count_rearranged(self.steps as int, self.n as int, self.m as int);
        }
        self.n * self.n * self.m * self.steps
    }

    /// Number of cells as a machine integer.
    pub fn cell_count(&self) -> (r: usize)
        requires
            self.fits(),
        ensures
            r == self.cells(),
    {
        self.n * self.n
    }
}

/// steps * n * n * m equals ((n * n) * m) * steps, the order the checked
/// constructor multiplies in.
proof fn lemma_count_rearranged(steps: int, n: int, m: int)
    by (nonlinear_arith)
    ensures
        steps * n * n * m == ((n * n) * m) * steps,
{
}

/// A decoded tensor: the flat storage words of a blob together with the shape
/// they were validated against.
pub struct Tensor {
    /// The announced shape the word count was validated against.
    pub shape: Shape,
    /// Flat storage, word index (step * n * n + cell) * m + channel.
    pub data: Vec<u16>,
}

/// The flat index of channel `chan` of cell `cell` at step `step`.
pub open spec fn flat_index(shape: Shape, step: int, cell: int, chan: int) -> int {
    (step * shape.cells() + cell) * shape.m + chan
}

impl Tensor {
    /// Well-formed: the flat storage holds exactly the announced element
    /// count, and the shape's index arithmetic fits the machine.
    pub open spec fn wf(self) -> bool {
        &&& self.shape.fits()
        &&& self.data@.len() == self.shape.count()
    }

    /// The storage word at (step, cell, chan).
    pub open spec fn at(self, step: int, cell: int, chan: int) -> u16 {
        self.data@[flat_index(self.shape, step, cell, chan)]
    }

    /// Reads the storage word at (step, row, col, chan).
    pub fn element(&self, step: usize, row: usize, col: usize, chan: usize) -> (w: u16)
        requires
            self.wf(),
            step < self.shape.steps,
            row < self.shape.n,
            col < self.shape.n,
            chan < self.shape.m,
        ensures
            w == self.at(step as int, row as int * self.shape.n + col, chan as int),
    {
        let n = self.shape.n;
        proof {
            lemma_cell_in_grid(row as int, col as int, n as int);
        }
        let cell = row * n + col;
        proof {
            lemma_flat_index_bounds(
                self.shape,
                step as int,
                cell as int,
                chan as int,
            );
        }
        self.data[(step * (n * n) + cell) * self.shape.m + chan]
    }

    /// Copies the channel words of one cell at one step: the window of the
    /// flat storage that holds them consecutively.
    pub fn cell_vector(&self, step: usize, cell: usize) -> (r: Vec<u16>)
        requires
            self.wf(),
            step < self.shape.steps,
            cell < self.shape.cells(),
        ensures
            r@ == self.data@.subrange(
                flat_index(self.shape, step as int, cell as int, 0),
                flat_index(self.shape, step as int, cell as int, 0) + self.shape.m,
            ),
    {
        let m = self.shape.m;
        let mut r: Vec<u16> = Vec::new();
        let mut c: usize = 0;
        while c < m
            invariant
                self.wf(),
                step < self.shape.steps,
                cell < self.shape.cells(),
                m == self.shape.m,
                c <= m,
                r@.len() == c,
                forall|j: int|
                    0 <= j < c ==> r@[j] == self.data@[flat_index(
                        self.shape,
                        step as int,
                        cell as int,
                        0,
                    ) + j],
            decreases m - c,
        {
            proof {
                lemma_flat_index_bounds(self.shape, step as int, cell as int, c as int);
            }
            let idx = (step * (self.shape.n * self.shape.n) + cell) * m + c;
            r.push(self.data[idx]);
            c += 1;
        }
        proof {
            lemma_cell_window(self.shape, step as int, cell as int);
            assert(r@ =~= self.data@.subrange(
                flat_index(self.shape, step as int, cell as int, 0),
                flat_index(self.shape, step as int, cell as int, 0) + self.shape.m,
            ));
        }
        r
    }

    /// Copies all words of one step: the contiguous block of the flat storage
    /// that holds every cell of the step, cells in row-major order.
    pub fn step_block(&self, step: usize) -> (r: Vec<u16>)
        requires
            self.wf(),
            step < self.shape.steps,
        ensures
            r@ == self.data@.subrange(
                step as int * (self.shape.cells() * self.shape.m),
                step as int * (self.shape.cells() * self.shape.m) + self.shape.cells()
                    * self.shape.m,
            ),
    {
        proof {
            lemma_step_offset(self.shape, step as int);
        }
        let nnm = (self.shape.n * self.shape.n) * self.shape.m;
        let offset = step * nnm;
        let mut r: Vec<u16> = Vec::new();
        let mut k: usize = 0;
        while k < nnm
            invariant
                self.wf(),
                step < self.shape.steps,
                nnm == self.shape.cells() * self.shape.m,
                offset == step as int * nnm,
                offset + nnm <= self.data@.len(),
                k <= nnm,
                r@.len() == k,
                forall|j: int| 0 <= j < k ==> r@[j] == self.data@[offset + j],
            decreases nnm - k,
        {
            r.push(self.data[offset + k]);
            k += 1;
        }
        proof {
            assert(r@ =~= self.data@.subrange(offset as int, offset as int + nnm as int));
        }
        r
    }
}

/// A cell built from in-range row and column lies in the n * n grid.
pub proof fn lemma_cell_in_grid(row: int, col: int, n: int)
    by (nonlinear_arith)
    requires
        0 <= row < n,
        0 <= col < n,
    ensures
        0 <= row * n + col < n * n,
{
}

/// Every in-range (step, cell, chan) triple maps to a flat index inside the
/// storage, and each intermediate product stays below the element count.
pub proof fn lemma_flat_index_bounds(shape: Shape, step: int, cell: int, chan: int)
    by (nonlinear_arith)
    requires
        0 <= step < shape.steps,
        0 <= cell < shape.cells(),
        0 <= chan < shape.m,
    ensures
        0 <= step * shape.cells() + cell < shape.steps * shape.cells(),
        0 <= flat_index(shape, step, cell, chan) < shape.count(),
        step * shape.cells() + cell <= shape.count(),
        0 <= (step * shape.cells() + cell) * shape.m,
        (step * shape.cells() + cell) * shape.m + shape.m <= shape.count(),
{
}

/// A step's block of the flat storage starts at step * (n * n * m) and every
/// later step's block still fits inside the element count.
pub proof fn lemma_step_offset(shape: Shape, step: int)
    by (nonlinear_arith)
    requires
        0 <= step < shape.steps,
    ensures
        0 <= step * (shape.cells() * shape.m),
        step * (shape.cells() * shape.m) + shape.cells() * shape.m <= shape.count(),
{
}

/// Within one step's block, cell `cell` occupies the window
/// cell * m .. cell * m + m, and its channel `chan` sits at the tensor's flat
/// index for (step, cell, chan).
pub proof fn lemma_block_index(shape: Shape, step: int, cell: int, chan: int)
    by (nonlinear_arith)
    requires
        0 <= step < shape.steps,
        0 <= cell < shape.cells(),
        0 <= chan < shape.m,
    ensures
        0 <= cell * shape.m + chan < shape.cells() * shape.m,
        flat_index(shape, step, cell, chan) == step * (shape.cells() * shape.m) + cell * shape.m
            + chan,
{
}

/// The channel window of one cell lies inside the flat storage, and inside
/// its step's block.
pub proof fn lemma_cell_window(shape: Shape, step: int, cell: int)
    by (nonlinear_arith)
    requires
        0 <= step < shape.steps,
        0 <= cell < shape.cells(),
    ensures
        0 <= (step * shape.cells() + cell) * shape.m,
        (step * shape.cells() + cell) * shape.m + shape.m <= shape.count(),
        0 <= cell * shape.m,
        cell * shape.m + shape.m <= shape.cells() * shape.m,
{
}

/// A cell's norm index lies inside the per-(step, cell) norm array.
pub proof fn lemma_cell_offset(shape: Shape, step: int, cell: int)
    by (nonlinear_arith)
    requires
        0 <= step < shape.steps,
        0 <= cell < shape.cells(),
    ensures
        0 <= step * shape.cells() + cell < shape.steps * shape.cells(),
{
}

/// A step's statistics windows lie inside the statistics arrays.
pub proof fn lemma_stat_offsets(shape: Shape, step: int)
    by (nonlinear_arith)
    requires
        0 <= step < shape.steps,
    ensures
        0 <= step * shape.cells(),
        step * shape.cells() + shape.cells() <= shape.steps * shape.cells(),
        0 <= step * shape.m,
        step * shape.m + shape.m <= shape.steps * shape.m,
{
}

/// Decodes a blob against its announced shape.
///
/// Fails exactly when the byte length is not a multiple of the two-byte
/// storage width, or when the word count differs from steps * n * n * m; on
/// failure no tensor is built.
pub fn decode_blob(bytes: &Vec<u8>, shape: Shape) -> (r: Result<Tensor, SimError>)
    requires
        shape.fits(),
    ensures
        match r {
            Ok(t) => {
                &&& bytes@.len() % 2 == 0
                &&& bytes@.len() == 2 * shape.count()
                &&& t.shape == shape
                &&& t.wf()
                &&& t.data@ == words_of_bytes(bytes@)
            },
            Err(e) => {
                &&& (bytes@.len() % 2 != 0 || bytes@.len() != 2 * shape.count())
                &&& e == (if bytes@.len() % 2 != 0 {
                    SimError::Format(FormatFault::OddLength)
                } else {
                    SimError::Format(FormatFault::CountMismatch)
                })
            },
        },
{
    if bytes.len() % 2 != 0 {
        return Err(SimError::Format(FormatFault::OddLength));
    }
    let count = bytes.len() / 2;
    if count != shape.element_count() {
        return Err(SimError::Format(FormatFault::CountMismatch));
    }
    let data = crate::codec::decode_words(bytes);
    Ok(Tensor { shape, data })
}

} // verus!
