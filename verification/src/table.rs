//! The row-oriented table model.
//!
//! A table is a rectangular grid of byte-string fields: every row has the
//! same number of columns. Field values are opaque byte strings; how they
//! are rendered as text is the caller's concern.

use vstd::prelude::*;

verus! {

/// Holds when `r` is a well-formed row of `nc` columns whose fields each
/// fit the artifact's length prefix.
pub open spec fn row_wf(r: Seq<Seq<u8>>, nc: nat) -> bool {
    &&& r.len() == nc
    &&& forall|j: int| 0 <= j < r.len() ==> (#[trigger] r[j]).len() <= u32::MAX
}

/// Holds when `rows` is a rectangular grid of `nc` columns whose dimensions
/// and fields fit the artifact's length prefixes.
pub open spec fn grid_wf(rows: Seq<Seq<Seq<u8>>>, nc: nat) -> bool {
    &&& rows.len() <= u32::MAX
    &&& nc <= u32::MAX
    &&& forall|i: int| 0 <= i < rows.len() ==> row_wf(#[trigger] rows[i], nc)
}

/// The column count a grid determines on its own: that of its first row,
/// or zero when it has no rows.
pub open spec fn grid_cols(rows: Seq<Seq<Seq<u8>>>) -> nat {
    if rows.len() == 0 {
        0
    } else {
        rows[0].len()
    }
}

/// Holds when `rows` is structurally consistent: well-formed under its own
/// column count.
pub open spec fn grid_ok(rows: Seq<Seq<Seq<u8>>>) -> bool {
    grid_wf(rows, grid_cols(rows))
}

/// A buffered row-oriented table: `rows.len()` rows of `n_cols` byte-string
/// fields each.
pub struct Table {
    /// The number of columns every row has.
    pub n_cols: usize,
    /// The rows, outermost to innermost: row, column, field bytes.
    pub rows: Vec<Vec<Vec<u8>>>,
}

impl Table {
    /// The mathematical value of the table: its grid of fields.
    pub open spec fn grid(&self) -> Seq<Seq<Seq<u8>>> {
        self.rows.deep_view()
    }

    /// Well-formedness: the grid is rectangular with `n_cols` columns and
    /// fits the artifact's length prefixes.
    pub open spec fn wf(&self) -> bool {
        grid_wf(self.grid(), self.n_cols as nat)
    }
}

/// The deep view of a byte vector is its view.
pub proof fn lemma_deep_view_bytes(v: Vec<u8>)
    ensures
        v.deep_view() == v@,
{
    assert(v.deep_view() =~= v@);
}

/// Pushing onto a vector pushes its deep view.
pub proof fn lemma_deep_view_push<T: DeepView>(pre: Vec<T>, post: Vec<T>, x: T)
    requires
        post@ == pre@.push(x),
    ensures
        post.deep_view() == pre.deep_view().push(x.deep_view()),
{
    assert forall|q: int| 0 <= q < post.deep_view().len() implies post.deep_view()[q]
        == pre.deep_view().push(x.deep_view())[q] by {
        if q < pre@.len() {
            assert(post@[q] == pre@[q]);
        }
    }
    assert(post.deep_view() =~= pre.deep_view().push(x.deep_view()));
}

/// Copies a byte vector.
pub fn clone_bytes(b: &Vec<u8>) -> (out: Vec<u8>)
    ensures
        out@ == b@,
{
    vstd::slice::slice_to_vec(b.as_slice())
}

/// Copies one row of fields.
#[verifier::loop_isolation(false)]
pub fn clone_row(r: &Vec<Vec<u8>>) -> (out: Vec<Vec<u8>>)
    ensures
        out.deep_view() == r.deep_view(),
{
    let mut out: Vec<Vec<u8>> = Vec::new();
    proof {
        assert(out.deep_view() =~= r.deep_view().take(0));
    }
    let mut j: usize = 0;
    while j < r.len()
        invariant
            j <= r@.len(),
            out.deep_view() == r.deep_view().take(j as int),
        decreases r@.len() - j,
    {
        let ghost pre = out;
        let c = clone_bytes(&r[j]);
        let ghost c_snap = c;
        out.push(c);
        proof {
            lemma_deep_view_push(pre, out, c_snap);
            lemma_deep_view_bytes(c_snap);
            lemma_deep_view_bytes(r@[j as int]);
            assert(out.deep_view() =~= r.deep_view().take(j as int + 1));
        }
        j += 1;
    }
    assert(r.deep_view().take(r.deep_view().len() as int) =~= r.deep_view());
    out
}

/// Copies a whole grid of rows.
#[verifier::loop_isolation(false)]
pub fn clone_grid(g: &Vec<Vec<Vec<u8>>>) -> (out: Vec<Vec<Vec<u8>>>)
    ensures
        out.deep_view() == g.deep_view(),
{
    let mut out: Vec<Vec<Vec<u8>>> = Vec::new();
    proof {
        assert(out.deep_view() =~= g.deep_view().take(0));
    }
    let mut i: usize = 0;
    while i < g.len()
        invariant
            i <= g@.len(),
            out.deep_view() == g.deep_view().take(i as int),
        decreases g@.len() - i,
    {
        let ghost pre = out;
        let c = clone_row(&g[i]);
        let ghost c_snap = c;
        out.push(c);
        proof {
            lemma_deep_view_push(pre, out, c_snap);
            assert(out.deep_view() =~= g.deep_view().take(i as int + 1));
        }
        i += 1;
    }
    assert(g.deep_view().take(g.deep_view().len() as int) =~= g.deep_view());
    out
}

/// Checks a grid for structural consistency: returns its column count when
/// every row has the same number of columns and every dimension fits the
/// artifact's length prefixes, and `None` otherwise.
#[verifier::loop_isolation(false)]
pub fn check_grid(rows: &Vec<Vec<Vec<u8>>>) -> (r: Option<usize>)
    ensures
        match r {
            Some(nc) => grid_ok(rows.deep_view()) && nc as nat == grid_cols(rows.deep_view()),
            None => !grid_ok(rows.deep_view()),
        },
{
    let ghost g = rows.deep_view();
    let n_rows = rows.len();
    if n_rows > u32::MAX as usize {
        return None;
    }
    let n_cols = if n_rows == 0 {
        0
    } else {
        rows[0].len()
    };
    proof {
        if n_rows > 0 {
            assert(g[0].len() == rows@[0]@.len());
        }
        assert(n_cols as nat == grid_cols(g));
    }
    if n_cols > u32::MAX as usize {
        return None;
    }
    let mut i: usize = 0;
    while i < n_rows
        invariant
            i <= n_rows,
            forall|x: int| 0 <= x < i ==> row_wf(#[trigger] g[x], n_cols as nat),
        decreases n_rows - i,
    {
        let row = &rows[i];
        proof {
            assert(g[i as int] == rows@[i as int].deep_view());
        }
        if row.len() != n_cols {
            proof {
                assert(g[i as int].len() == row@.len());
                assert(!row_wf(g[i as int], grid_cols(g)));
            }
            return None;
        }
        let mut j: usize = 0;
        while j < row.len()
            invariant
                j <= row@.len(),
                forall|y: int| 0 <= y < j ==> (#[trigger] g[i as int][y]).len() <= u32::MAX,
            decreases row@.len() - j,
        {
            proof {
                lemma_deep_view_bytes(row@[j as int]);
                assert(g[i as int][j as int] == row@[j as int]@);
            }
            if row[j].len() > u32::MAX as usize {
                proof {
                    assert(!row_wf(g[i as int], grid_cols(g)));
                }
                return None;
            }
            j += 1;
        }
        proof {
            assert(row_wf(g[i as int], n_cols as nat));
        }
        i += 1;
    }
    Some(n_cols)
}

} // verus!
