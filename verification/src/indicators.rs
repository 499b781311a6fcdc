//! How the inputs of an indicator or a signal are assembled from the price
//! columns and from other indicators: which columns are taken and how far,
//! in which order, cut to a common length and turned into rows.

use vstd::prelude::*;

use crate::buffer::{copy_vec, rows_view};
use crate::trade::utils_cell::{entry_of, entry_value, has_entry};

verus! {

/// A price column an indicator reads, and how many of its newest values it
/// leaves out.
#[derive(PartialEq, Eq, Structural, Clone, Copy, Debug)]
pub struct UsedSrc {
    pub index: usize,
    pub sub_from_last_i: usize,
}

/// Every column named by `used` exists and is long enough to leave out the
/// values it asks to leave out.
pub open spec fn used_src_fits<T>(used: Seq<UsedSrc>, src: Seq<Vec<T>>) -> bool {
    forall|k: int|
        0 <= k < used.len() ==> (#[trigger] used[k]).index < src.len()
            && used[k].sub_from_last_i <= src[used[k].index as int].len()
}

/// Column `u.index` without its `u.sub_from_last_i` newest values.
pub open spec fn cut_column<T>(u: UsedSrc, src: Seq<Vec<T>>) -> Seq<T> {
    let col = src[u.index as int]@;
    col.subrange(0, col.len() - u.sub_from_last_i)
}

/// The columns named by `used`, in that order, each cut as it asks.
pub fn used_src_columns<T: Copy>(used: &Vec<UsedSrc>, src: &[Vec<T>]) -> (r: Vec<Vec<T>>)
    requires
        used_src_fits(used@, src@),
    ensures
        r@.len() == used@.len(),
        forall|k: int| 0 <= k < r@.len() ==> (#[trigger] r@[k])@ == cut_column(used@[k], src@),
{
    let mut r: Vec<Vec<T>> = Vec::new();
    let mut k: usize = 0;
    while k < used.len()
        invariant
            k <= used@.len(),
            used_src_fits(used@, src@),
            r@.len() == k,
            forall|x: int| 0 <= x < k ==> (#[trigger] r@[x])@ == cut_column(used@[x], src@),
        decreases used@.len() - k,
    {
        let u = used[k];
        let col = &src[u.index];
        let end = col.len() - u.sub_from_last_i;
        let mut cut: Vec<T> = Vec::new();
        let mut j: usize = 0;
        while j < end
            invariant
                j <= end,
                end <= col@.len(),
                cut@ == col@.subrange(0, j as int),
            decreases end - j,
        {
            cut.push(col[j]);
            j = j + 1;
            assert(cut@ =~= col@.subrange(0, j as int));
        }
        r.push(cut);
        k = k + 1;
    }
    r
}

/// The newest value of each column named by `used`, after leaving out the
/// values it asks to leave out.
pub open spec fn spec_last_values<T>(used: Seq<UsedSrc>, src: Seq<Vec<T>>) -> Seq<T> {
    Seq::new(
        used.len(),
        |k: int| src[used[k].index as int]@[src[used[k].index as int].len() - 1 - used[k].sub_from_last_i],
    )
}

/// Every column named by `used` has a value once the asked-for newest
/// values are left out.
pub open spec fn last_values_fit<T>(used: Seq<UsedSrc>, src: Seq<Vec<T>>) -> bool {
    forall|k: int|
        0 <= k < used.len() ==> (#[trigger] used[k]).index < src.len()
            && used[k].sub_from_last_i < src[used[k].index as int].len()
}

pub fn last_values<T: Copy>(used: &Vec<UsedSrc>, src: &[Vec<T>]) -> (r: Vec<T>)
    requires
        last_values_fit(used@, src@),
    ensures
        r@ == spec_last_values(used@, src@),
{
    let mut r: Vec<T> = Vec::new();
    let mut k: usize = 0;
    while k < used.len()
        invariant
            k <= used@.len(),
            last_values_fit(used@, src@),
            r@ == spec_last_values(used@, src@).subrange(0, k as int),
        decreases used@.len() - k,
    {
        let u = used[k];
        let col = &src[u.index];
        r.push(col[col.len() - 1 - u.sub_from_last_i]);
        k = k + 1;
        assert(r@ =~= spec_last_values(used@, src@).subrange(0, k as int));
    }
    assert(r@ =~= spec_last_values(used@, src@));
    r
}

/// `v` rearranged by `order` (element `k` is `v[order[k]]`), or `v` itself
/// when `order` is empty.
pub open spec fn spec_reorder<T>(v: Seq<T>, order: Seq<usize>) -> Seq<T> {
    if order.len() == 0 {
        v
    } else {
        Seq::new(order.len(), |k: int| v[order[k] as int])
    }
}

pub open spec fn order_fits<T>(v: Seq<T>, order: Seq<usize>) -> bool {
    forall|k: int| 0 <= k < order.len() ==> (#[trigger] order[k]) < v.len()
}

pub fn reorder<T: Copy>(v: Vec<T>, order: &Vec<usize>) -> (r: Vec<T>)
    requires
        order_fits(v@, order@),
    ensures
        r@ == spec_reorder(v@, order@),
{
    if order.len() == 0 {
        return v;
    }
    let mut r: Vec<T> = Vec::new();
    let mut k: usize = 0;
    while k < order.len()
        invariant
            k <= order@.len(),
            order@.len() > 0,
            order_fits(v@, order@),
            r@ == spec_reorder(v@, order@).subrange(0, k as int),
        decreases order@.len() - k,
    {
        r.push(v[order[k]]);
        k = k + 1;
        assert(r@ =~= spec_reorder(v@, order@).subrange(0, k as int));
    }
    assert(r@ =~= spec_reorder(v@, order@));
    r
}

/// The columns rearranged by `order`, as [`spec_reorder`] does for values.
pub fn reorder_columns<T: Copy>(cols: Vec<Vec<T>>, order: &Vec<usize>) -> (r: Vec<Vec<T>>)
    requires
        order_fits(cols@, order@),
    ensures
        rows_view(r@) == spec_reorder(rows_view(cols@), order@),
{
    if order.len() == 0 {
        return cols;
    }
    let mut r: Vec<Vec<T>> = Vec::new();
    let mut k: usize = 0;
    while k < order.len()
        invariant
            k <= order@.len(),
            order@.len() > 0,
            order_fits(cols@, order@),
            rows_view(r@) == spec_reorder(rows_view(cols@), order@).subrange(0, k as int),
        decreases order@.len() - k,
    {
        let ghost before = rows_view(r@);
        let c = copy_vec(&cols[order[k]]);
        r.push(c);
        assert(rows_view(r@) =~= before.push(c@));
        k = k + 1;
        assert(rows_view(r@) =~= spec_reorder(rows_view(cols@), order@).subrange(0, k as int));
    }
    assert(rows_view(r@) =~= spec_reorder(rows_view(cols@), order@));
    r
}

/// The shortest length among the columns.
pub open spec fn min_len<T>(cols: Seq<Seq<T>>) -> nat
    decreases cols.len(),
{
    if cols.len() == 0 {
        0
    } else if cols.len() == 1 {
        cols[0].len()
    } else {
        let m = min_len(cols.drop_last());
        if cols.last().len() < m {
            cols.last().len()
        } else {
            m
        }
    }
}

/// The columns cut to their common newest values and turned into rows:
/// row `i` holds, for each column, its value `i` places before the end of
/// the shortest column's span (the columns are aligned at their ends).
pub open spec fn spec_align_rows<T>(cols: Seq<Seq<T>>) -> Seq<Seq<T>> {
    Seq::new(
        min_len(cols),
        |i: int| Seq::new(cols.len(), |j: int| cols[j][cols[j].len() - min_len(cols) + i]),
    )
}

proof fn lemma_min_len<T>(cols: Seq<Seq<T>>)
    ensures
        forall|j: int| 0 <= j < cols.len() ==> min_len(cols) <= (#[trigger] cols[j]).len(),
        cols.len() > 0 ==> exists|j: int| 0 <= j < cols.len() && min_len(cols) == (#[trigger] cols[j]).len(),
    decreases cols.len(),
{
    if cols.len() > 1 {
        lemma_min_len(cols.drop_last());
        let init = cols.drop_last();
        assert forall|j: int| 0 <= j < cols.len() implies min_len(cols) <= (#[trigger] cols[j]).len() by {
            if j < cols.len() - 1 {
                assert(init[j] == cols[j]);
            }
        }
        if cols.last().len() < min_len(init) {
            assert(min_len(cols) == cols[cols.len() - 1].len());
        } else {
            let j = choose|j: int| 0 <= j < init.len() && min_len(init) == (#[trigger] init[j]).len();
            assert(cols[j] == init[j]);
        }
    } else if cols.len() == 1 {
        assert(min_len(cols) == cols[0].len());
    }
}

/// Cuts the columns to the length of the shortest, keeping their newest
/// values, and turns them into rows; no columns give no rows.
pub fn align_rows<T: Copy>(cols: &Vec<Vec<T>>) -> (r: Vec<Vec<T>>)
    ensures
        rows_view(r@) == spec_align_rows(rows_view(cols@)),
{
    let ghost cv = rows_view(cols@);
    proof {
        lemma_min_len(cv);
    }
    if cols.len() == 0 {
        let r: Vec<Vec<T>> = Vec::new();
        assert(rows_view(r@) =~= spec_align_rows(cv));
        return r;
    }
    let mut m: usize = cols[0].len();
    let mut j: usize = 1;
    while j < cols.len()
        invariant
            1 <= j <= cols@.len(),
            cv == rows_view(cols@),
            m as nat == min_len(cv.subrange(0, j as int)),
        decreases cols@.len() - j,
    {
        assert(cv.subrange(0, j + 1).drop_last() =~= cv.subrange(0, j as int));
        if cols[j].len() < m {
            m = cols[j].len();
        }
        j = j + 1;
    }
    assert(cv.subrange(0, j as int) =~= cv);
    let n = cols.len();
    let mut r: Vec<Vec<T>> = Vec::new();
    let mut i: usize = 0;
    while i < m
        invariant
            i <= m,
            n == cols@.len(),
            cv == rows_view(cols@),
            m as nat == min_len(cv),
            forall|x: int| 0 <= x < cv.len() ==> m <= (#[trigger] cv[x]).len(),
            rows_view(r@) == spec_align_rows(cv).subrange(0, i as int),
        decreases m - i,
    {
        let mut row: Vec<T> = Vec::new();
        let mut x: usize = 0;
        while x < n
            invariant
                x <= n,
                i < m,
                n == cols@.len(),
                cv == rows_view(cols@),
                m as nat == min_len(cv),
                forall|y: int| 0 <= y < cv.len() ==> m <= (#[trigger] cv[y]).len(),
                row@ == spec_align_rows(cv)[i as int].subrange(0, x as int),
            decreases n - x,
        {
            assert(cv[x as int] == cols@[x as int]@);
            let col = &cols[x];
            row.push(col[col.len() - m + i]);
            x = x + 1;
            assert(row@ =~= spec_align_rows(cv)[i as int].subrange(0, x as int));
        }
        assert(row@ =~= spec_align_rows(cv)[i as int]);
        let ghost before = rows_view(r@);
        r.push(row);
        assert(rows_view(r@) =~= before.push(row@));
        i = i + 1;
        assert(rows_view(r@) =~= spec_align_rows(cv).subrange(0, i as int));
    }
    assert(rows_view(r@) =~= spec_align_rows(cv));
    r
}

/// The largest window among the indicators' windows: how many rows a run
/// needs before every indicator has a value.
pub fn get_w_max(windows: &Vec<usize>) -> (r: usize)
    requires
        windows@.len() > 0,
    ensures
        windows@.contains(r),
        forall|k: int| 0 <= k < windows@.len() ==> #[trigger] windows@[k] <= r,
{
    let mut m = windows[0];
    let mut k: usize = 1;
    while k < windows.len()
        invariant
            1 <= k <= windows@.len(),
            windows@.contains(m),
            forall|j: int| 0 <= j < k ==> #[trigger] windows@[j] <= m,
        decreases windows@.len() - k,
    {
        if windows[k] > m {
            m = windows[k];
        }
        k = k + 1;
    }
    m
}


/// The values a signal reads at a step, before any reordering: the newest
/// values of the price columns named by `used_src` (each leaving out the
/// values it asks to), then the indications named by `used_ind`.
pub open spec fn spec_signal_values(
    used_src: Seq<UsedSrc>,
    used_ind: Seq<String>,
    buffer: Seq<Vec<u64>>,
    indications: Seq<(String, u64)>,
) -> Seq<u64> {
    spec_last_values(used_src, buffer) + used_ind.map_values(|k: String| entry_value(indications, k@))
}

/// The values a signal reads at a step: [`spec_signal_values`] rearranged
/// by `order_used_src` and then by `order_used_signals` (an empty order
/// keeps the values as they are).
pub open spec fn spec_signal_inputs(
    used_src: Seq<UsedSrc>,
    used_ind: Seq<String>,
    order_used_src: Seq<usize>,
    order_used_signals: Seq<usize>,
    buffer: Seq<Vec<u64>>,
    indications: Seq<(String, u64)>,
) -> Seq<u64> {
    spec_reorder(
        spec_reorder(spec_signal_values(used_src, used_ind, buffer, indications), order_used_src),
        order_used_signals,
    )
}

/// Every piece a signal's inputs are read from is there: each named
/// column has a value once the asked-for newest values are left out, each
/// named indication is given, and both orders pick existing positions.
pub open spec fn signal_inputs_fit(
    used_src: Seq<UsedSrc>,
    used_ind: Seq<String>,
    order_used_src: Seq<usize>,
    order_used_signals: Seq<usize>,
    buffer: Seq<Vec<u64>>,
    indications: Seq<(String, u64)>,
) -> bool {
    &&& last_values_fit(used_src, buffer)
    &&& forall|k: int| 0 <= k < used_ind.len() ==> has_entry(indications, (#[trigger] used_ind[k])@)
    &&& order_fits(spec_signal_values(used_src, used_ind, buffer, indications), order_used_src)
    &&& order_fits(
        spec_reorder(spec_signal_values(used_src, used_ind, buffer, indications), order_used_src),
        order_used_signals,
    )
}

/// The input values of a signal at a step, as [`spec_signal_inputs`]
/// states.
pub fn signal_inputs(
    used_src: &Vec<UsedSrc>,
    used_ind: &Vec<String>,
    order_used_src: &Vec<usize>,
    order_used_signals: &Vec<usize>,
    buffer: &[Vec<u64>],
    indications: &Vec<(String, u64)>,
) -> (r: Vec<u64>)
    requires
        signal_inputs_fit(used_src@, used_ind@, order_used_src@, order_used_signals@, buffer@, indications@),
    ensures
        r@ == spec_signal_inputs(
            used_src@,
            used_ind@,
            order_used_src@,
            order_used_signals@,
            buffer@,
            indications@,
        ),
{
    let mut values = last_values(used_src, buffer);
    let ghost start = values@;
    let mut k: usize = 0;
    while k < used_ind.len()
        invariant
            k <= used_ind@.len(),
            forall|x: int| 0 <= x < used_ind@.len() ==> has_entry(indications@, (#[trigger] used_ind@[x])@),
            values@ == start + used_ind@.subrange(0, k as int).map_values(
                |key: String| entry_value(indications@, key@),
            ),
        decreases used_ind@.len() - k,
    {
        assert(has_entry(indications@, used_ind@[k as int]@));
        let v = *entry_of(indications, used_ind[k].as_str());
        values.push(v);
        k = k + 1;
        assert(used_ind@.subrange(0, k as int).map_values(|key: String| entry_value(indications@, key@))
            =~= used_ind@.subrange(0, k - 1).map_values(|key: String| entry_value(indications@, key@)).push(
            v,
        ));
    }
    assert(used_ind@.subrange(0, k as int) =~= used_ind@);
    let values = reorder(values, order_used_src);
    reorder(values, order_used_signals)
}

} // verus!
