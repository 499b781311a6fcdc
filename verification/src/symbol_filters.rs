//! Filters that decide whether a symbol is traded, from its prices and the
//! values of its statistics indicators.

use vstd::prelude::*;

use crate::buffer::rows_view;
use crate::indicators::{align_rows, spec_align_rows, UsedSrc};
use crate::num_bits::{spec_eq, spec_lt};
use crate::symbols::{str_eq, strings_view};
use crate::trade::utils_cell::{entry_of, entry_value, has_entry};

verus! {

/// A filter over a symbol's price rows and statistic values. Every filter
/// reads at least one statistic value.
pub trait SymbolFilter {
    /// The verdict of the filter on the input rows `src` and the statistic
    /// values `ind_values`.
    spec fn spec_symbol_filter(&self, src: Seq<Seq<u64>>, ind_values: Seq<u64>) -> bool;

    fn symbol_filter(&self, src: &[Vec<u64>], ind_values: &[u64]) -> (r: bool)
        requires
            ind_values@.len() > 0,
        ensures
            r == self.spec_symbol_filter(rows_view(src@), ind_values@),
    ;
}

/// Compares the first statistic value with a threshold. "less" and
/// "greater" both keep the symbol when the value is below the threshold,
/// "equal" when it equals it; any other comparison rejects the symbol.
#[allow(non_camel_case_types)]
pub struct ORDERING {
    pub value: u64,
    pub type_: String,
}

impl ORDERING {
    pub fn new(value: u64, type_: String) -> (r: Self)
        ensures
            r.value == value,
            r.type_ == type_,
    {
        ORDERING { value, type_ }
    }
}

impl Default for ORDERING {
    fn default() -> (r: Self)
        ensures
            r.value == 0,
            r.type_@ == "less"@,
    {
        ORDERING { value: 0, type_: String::from_str("less") }
    }
}

pub open spec fn spec_ordering(value: u64, type_: Seq<char>, ind_value: u64) -> bool {
    if type_ == "less"@ {
        spec_lt(ind_value, value)
    } else if type_ == "equal"@ {
        spec_eq(ind_value, value)
    } else if type_ == "greater"@ {
        spec_lt(ind_value, value)
    } else {
        false
    }
}

impl SymbolFilter for ORDERING {
    open spec fn spec_symbol_filter(&self, src: Seq<Seq<u64>>, ind_values: Seq<u64>) -> bool {
        spec_ordering(self.value, self.type_@, ind_values[0])
    }

    fn symbol_filter(&self, _src: &[Vec<u64>], ind_values: &[u64]) -> (r: bool) {
        let ind_value = ind_values[0];
        if str_eq(self.type_.as_str(), "less") {
            crate::num_bits::lt(ind_value, self.value)
        } else if str_eq(self.type_.as_str(), "equal") {
            crate::num_bits::eq(ind_value, self.value)
        } else if str_eq(self.type_.as_str(), "greater") {
            crate::num_bits::lt(ind_value, self.value)
        } else {
            false
        }
    }
}

/// A named series that a filter reads, and how many of its newest values
/// it leaves out.
pub struct UsedKey {
    pub key: String,
    pub sub_from_last_i: usize,
}

/// What a symbol filter reads: price columns, indicator series and
/// statistic columns, each without the newest values it leaves out, and
/// statistic values by name.
pub struct FilterInputs {
    pub used_src: Vec<UsedSrc>,
    pub used_ind: Vec<UsedKey>,
    pub used_ind_stat_columns: Vec<UsedKey>,
    pub used_ind_stat_values: Vec<String>,
}

/// The length of the first price column (zero without columns).
pub open spec fn first_len(src: Seq<Vec<u64>>) -> int {
    if src.len() == 0 {
        0
    } else {
        src[0]@.len() as int
    }
}

/// The length of the first named series (zero without series).
pub open spec fn first_entry_len(m: Seq<(String, Vec<u64>)>) -> int {
    if m.len() == 0 {
        0
    } else {
        m[0].1@.len() as int
    }
}

/// Price column `u.index`, cut to the length of the first column less
/// `u.sub_from_last_i`.
pub open spec fn src_input(u: UsedSrc, src: Seq<Vec<u64>>) -> Seq<u64> {
    src[u.index as int]@.subrange(0, first_len(src) - u.sub_from_last_i)
}

/// The series named `u.key`, cut to the length of the first series less
/// `u.sub_from_last_i`.
pub open spec fn keyed_input(u: UsedKey, m: Seq<(String, Vec<u64>)>) -> Seq<u64> {
    entry_value(m, u.key@)@.subrange(0, first_entry_len(m) - u.sub_from_last_i)
}

pub open spec fn src_fits(u: UsedSrc, src: Seq<Vec<u64>>) -> bool {
    &&& u.index < src.len()
    &&& u.sub_from_last_i <= first_len(src)
    &&& first_len(src) - u.sub_from_last_i <= src[u.index as int]@.len()
}

pub open spec fn keyed_fits(u: UsedKey, m: Seq<(String, Vec<u64>)>) -> bool {
    &&& has_entry(m, u.key@)
    &&& u.sub_from_last_i <= first_entry_len(m)
    &&& first_entry_len(m) - u.sub_from_last_i <= entry_value(m, u.key@)@.len()
}

/// Every input of `s` can be cut from the series given.
pub open spec fn inputs_fit(
    s: FilterInputs,
    src: Seq<Vec<u64>>,
    ind: Seq<(String, Vec<u64>)>,
    ind_columns: Seq<(String, Vec<u64>)>,
) -> bool {
    &&& forall|k: int| 0 <= k < s.used_src@.len() ==> src_fits(#[trigger] s.used_src@[k], src)
    &&& forall|k: int| 0 <= k < s.used_ind@.len() ==> keyed_fits(#[trigger] s.used_ind@[k], ind)
    &&& forall|k: int|
        0 <= k < s.used_ind_stat_columns@.len() ==> keyed_fits(
            #[trigger] s.used_ind_stat_columns@[k],
            ind_columns,
        )
}

/// The input columns of a filter: its price columns, then its indicator
/// series, then its statistic columns.
pub open spec fn filter_columns(
    s: FilterInputs,
    src: Seq<Vec<u64>>,
    ind: Seq<(String, Vec<u64>)>,
    ind_columns: Seq<(String, Vec<u64>)>,
) -> Seq<Seq<u64>> {
    s.used_src@.map_values(|u: UsedSrc| src_input(u, src)) + s.used_ind@.map_values(
        |u: UsedKey| keyed_input(u, ind),
    ) + s.used_ind_stat_columns@.map_values(|u: UsedKey| keyed_input(u, ind_columns))
}

fn cut(v: &Vec<u64>, end: usize) -> (r: Vec<u64>)
    requires
        end <= v@.len(),
    ensures
        r@ == v@.subrange(0, end as int),
{
    let mut r: Vec<u64> = Vec::new();
    let mut j: usize = 0;
    while j < end
        invariant
            j <= end,
            end <= v@.len(),
            r@ == v@.subrange(0, j as int),
        decreases end - j,
    {
        r.push(v[j]);
        j = j + 1;
        assert(r@ =~= v@.subrange(0, j as int));
    }
    r
}

fn push_keyed(
    res: &mut Vec<Vec<u64>>,
    used: &Vec<UsedKey>,
    m: &Vec<(String, Vec<u64>)>,
)
    requires
        forall|k: int| 0 <= k < used@.len() ==> keyed_fits(#[trigger] used@[k], m@),
    ensures
        rows_view(final(res)@) == rows_view(old(res)@) + used@.map_values(|u: UsedKey| keyed_input(u, m@)),
{
    let m_len = if m.len() == 0 {
        0
    } else {
        m[0].1.len()
    };
    let ghost start = rows_view(res@);
    let mut k: usize = 0;
    while k < used.len()
        invariant
            k <= used@.len(),
            m_len == first_entry_len(m@),
            forall|x: int| 0 <= x < used@.len() ==> keyed_fits(#[trigger] used@[x], m@),
            rows_view(res@) == start + used@.subrange(0, k as int).map_values(
                |u: UsedKey| keyed_input(u, m@),
            ),
        decreases used@.len() - k,
    {
        let u = &used[k];
        assert(keyed_fits(used@[k as int], m@));
        let series = entry_of(m, u.key.as_str());
        let col = cut(series, m_len - u.sub_from_last_i);
        let ghost before = rows_view(res@);
        res.push(col);
        assert(rows_view(res@) =~= before.push(col@));
        k = k + 1;
        assert(used@.subrange(0, k as int).map_values(|u: UsedKey| keyed_input(u, m@)) =~= used@.subrange(
            0,
            k - 1,
        ).map_values(|u: UsedKey| keyed_input(u, m@)).push(keyed_input(used@[k - 1], m@)));
    }
    assert(used@.subrange(0, k as int) =~= used@);
}

/// The input rows of a filter: its input columns ([`filter_columns`]) cut
/// to their common newest values and turned into rows.
pub fn get_src(
    s: &FilterInputs,
    src: &Vec<Vec<u64>>,
    ind: &Vec<(String, Vec<u64>)>,
    ind_columns: &Vec<(String, Vec<u64>)>,
) -> (r: Vec<Vec<u64>>)
    requires
        inputs_fit(*s, src@, ind@, ind_columns@),
    ensures
        rows_view(r@) == spec_align_rows(filter_columns(*s, src@, ind@, ind_columns@)),
{
    let src_len = if src.len() == 0 {
        0
    } else {
        src[0].len()
    };
    let mut res: Vec<Vec<u64>> = Vec::new();
    let mut k: usize = 0;
    while k < s.used_src.len()
        invariant
            k <= s.used_src@.len(),
            src_len == first_len(src@),
            inputs_fit(*s, src@, ind@, ind_columns@),
            rows_view(res@) == s.used_src@.subrange(0, k as int).map_values(
                |u: UsedSrc| src_input(u, src@),
            ),
        decreases s.used_src@.len() - k,
    {
        let u = s.used_src[k];
        assert(src_fits(s.used_src@[k as int], src@));
        let col = cut(&src[u.index], src_len - u.sub_from_last_i);
        let ghost before = rows_view(res@);
        res.push(col);
        assert(rows_view(res@) =~= before.push(col@));
        k = k + 1;
        assert(s.used_src@.subrange(0, k as int).map_values(|u: UsedSrc| src_input(u, src@))
            =~= s.used_src@.subrange(0, k - 1).map_values(|u: UsedSrc| src_input(u, src@)).push(
            src_input(s.used_src@[k - 1], src@),
        ));
    }
    assert(s.used_src@.subrange(0, k as int) =~= s.used_src@);
    push_keyed(&mut res, &s.used_ind, ind);
    push_keyed(&mut res, &s.used_ind_stat_columns, ind_columns);
    assert(rows_view(res@) =~= filter_columns(*s, src@, ind@, ind_columns@));
    align_rows(&res)
}

/// Every statistic value that `s` names is given.
pub open spec fn values_found(s: FilterInputs, ind_values: Seq<(String, u64)>) -> bool {
    forall|k: int|
        0 <= k < s.used_ind_stat_values@.len() ==> has_entry(
            ind_values,
            (#[trigger] s.used_ind_stat_values@[k])@,
        )
}

/// The statistic values that `s` names, in its order.
pub open spec fn spec_values(s: FilterInputs, ind_values: Seq<(String, u64)>) -> Seq<u64> {
    s.used_ind_stat_values@.map_values(|k: String| entry_value(ind_values, k@))
}

/// The statistic values that a filter reads.
pub fn get_values(s: &FilterInputs, ind_values: &Vec<(String, u64)>) -> (r: Vec<u64>)
    requires
        values_found(*s, ind_values@),
    ensures
        r@ == spec_values(*s, ind_values@),
{
    let names = &s.used_ind_stat_values;
    let mut r: Vec<u64> = Vec::new();
    let mut k: usize = 0;
    while k < names.len()
        invariant
            k <= names@.len(),
            names == &s.used_ind_stat_values,
            values_found(*s, ind_values@),
            r@ == spec_values(*s, ind_values@).subrange(0, k as int),
        decreases names@.len() - k,
    {
        assert(has_entry(ind_values@, names@[k as int]@));
        r.push(*entry_of(ind_values, names[k].as_str()));
        k = k + 1;
        assert(r@ =~= spec_values(*s, ind_values@).subrange(0, k as int));
    }
    assert(r@ =~= spec_values(*s, ind_values@));
    r
}

/// The filters of a run, each with what it reads.
pub struct SymbolFiltersGateway<F: SymbolFilter> {
    pub filters: Vec<(F, FilterInputs)>,
}

/// The verdict of filter `f` on a symbol's series.
pub open spec fn filter_passes<F: SymbolFilter>(
    f: (F, FilterInputs),
    src: Seq<Vec<u64>>,
    ind: Seq<(String, Vec<u64>)>,
    ind_columns: Seq<(String, Vec<u64>)>,
    ind_values: Seq<(String, u64)>,
) -> bool {
    f.0.spec_symbol_filter(
        spec_align_rows(filter_columns(f.1, src, ind, ind_columns)),
        spec_values(f.1, ind_values),
    )
}

/// Filter `f` can read the symbol's series.
pub open spec fn filter_readable<F: SymbolFilter>(
    f: (F, FilterInputs),
    src: Seq<Vec<u64>>,
    ind: Seq<(String, Vec<u64>)>,
    ind_columns: Seq<(String, Vec<u64>)>,
    ind_values: Seq<(String, u64)>,
) -> bool {
    &&& inputs_fit(f.1, src, ind, ind_columns)
    &&& values_found(f.1, ind_values)
    &&& f.1.used_ind_stat_values@.len() > 0
}

/// The filters up to the first that rejects the symbol can read its
/// series (the filters after it are not run).
pub open spec fn filters_readable<F: SymbolFilter>(
    filters: Seq<(F, FilterInputs)>,
    src: Seq<Vec<u64>>,
    ind: Seq<(String, Vec<u64>)>,
    ind_columns: Seq<(String, Vec<u64>)>,
    ind_values: Seq<(String, u64)>,
) -> bool {
    forall|k: int|
        0 <= k < filters.len() && (forall|j: int|
            0 <= j < k ==> filter_passes(#[trigger] filters[j], src, ind, ind_columns, ind_values))
            ==> filter_readable(#[trigger] filters[k], src, ind, ind_columns, ind_values)
}

/// Every filter passes the symbol.
pub open spec fn all_pass<F: SymbolFilter>(
    filters: Seq<(F, FilterInputs)>,
    src: Seq<Vec<u64>>,
    ind: Seq<(String, Vec<u64>)>,
    ind_columns: Seq<(String, Vec<u64>)>,
    ind_values: Seq<(String, u64)>,
) -> bool {
    forall|k: int| 0 <= k < filters.len() ==> filter_passes(#[trigger] filters[k], src, ind, ind_columns, ind_values)
}

impl<F: SymbolFilter> SymbolFiltersGateway<F> {
    pub fn new(filters: Vec<(F, FilterInputs)>) -> (r: Self)
        ensures
            r.filters == filters,
    {
        SymbolFiltersGateway { filters }
    }

    /// Whether every filter passes the symbol with these series; the
    /// filters run in order and stop at the first that rejects it.
    pub fn symbol_filters(
        &self,
        src: &Vec<Vec<u64>>,
        ind: &Vec<(String, Vec<u64>)>,
        ind_columns: &Vec<(String, Vec<u64>)>,
        ind_values: &Vec<(String, u64)>,
    ) -> (r: bool)
        requires
            filters_readable(self.filters@, src@, ind@, ind_columns@, ind_values@),
        ensures
            r == all_pass(self.filters@, src@, ind@, ind_columns@, ind_values@),
    {
        let mut k: usize = 0;
        while k < self.filters.len()
            invariant
                k <= self.filters@.len(),
                filters_readable(self.filters@, src@, ind@, ind_columns@, ind_values@),
                forall|j: int|
                    0 <= j < k ==> filter_passes(#[trigger] self.filters@[j], src@, ind@, ind_columns@, ind_values@),
            decreases self.filters@.len() - k,
        {
            let f = &self.filters[k];
            assert(filter_readable(self.filters@[k as int], src@, ind@, ind_columns@, ind_values@));
            let rows = get_src(&f.1, src, ind, ind_columns);
            let values = get_values(&f.1, ind_values);
            let verdict = f.0.symbol_filter(rows.as_slice(), values.as_slice());
            assert(verdict == filter_passes(self.filters@[k as int], src@, ind@, ind_columns@, ind_values@));
            if !verdict {
                return false;
            }
            k = k + 1;
        }
        true
    }

    /// The symbol, when every filter passes it; nothing otherwise.
    pub fn symbol_filters_added(
        &self,
        src: &Vec<Vec<u64>>,
        ind: &Vec<(String, Vec<u64>)>,
        ind_columns: &Vec<(String, Vec<u64>)>,
        ind_values: &Vec<(String, u64)>,
        symbol: &str,
    ) -> (r: Option<String>)
        requires
            filters_readable(self.filters@, src@, ind@, ind_columns@, ind_values@),
        ensures
            all_pass(self.filters@, src@, ind@, ind_columns@, ind_values@) ==> (r matches Some(v) && v@
                == symbol@),
            !all_pass(self.filters@, src@, ind@, ind_columns@, ind_values@) ==> r is None,
    {
        if self.symbol_filters(src, ind, ind_columns, ind_values) {
            Some(String::from_str(symbol))
        } else {
            None
        }
    }
}

/// The series of every symbol of `src` are given, and its filters can read
/// them.
pub open spec fn symbols_readable<F: SymbolFilter>(
    filters: Seq<(F, FilterInputs)>,
    src: Seq<(String, Vec<Vec<u64>>)>,
    ind: Seq<(String, Vec<(String, Vec<u64>)>)>,
    ind_columns: Seq<(String, Vec<(String, Vec<u64>)>)>,
    ind_values: Seq<(String, Vec<(String, u64)>)>,
) -> bool {
    forall|k: int|
        0 <= k < src.len() ==> {
            let sym = (#[trigger] src[k]).0@;
            &&& has_entry(ind, sym)
            &&& has_entry(ind_columns, sym)
            &&& has_entry(ind_values, sym)
            &&& filters_readable(
                filters,
                src[k].1@,
                entry_value(ind, sym)@,
                entry_value(ind_columns, sym)@,
                entry_value(ind_values, sym)@,
            )
        }
}

/// Every filter passes the symbol of entry `e` of `src`, with its series
/// looked up by the symbol's name.
pub open spec fn symbol_passes<F: SymbolFilter>(
    filters: Seq<(F, FilterInputs)>,
    e: (String, Vec<Vec<u64>>),
    ind: Seq<(String, Vec<(String, Vec<u64>)>)>,
    ind_columns: Seq<(String, Vec<(String, Vec<u64>)>)>,
    ind_values: Seq<(String, Vec<(String, u64)>)>,
) -> bool {
    all_pass(
        filters,
        e.1@,
        entry_value(ind, e.0@)@,
        entry_value(ind_columns, e.0@)@,
        entry_value(ind_values, e.0@)@,
    )
}

/// The symbols of `src` that every filter passes, in order.
pub open spec fn passing_symbols<F: SymbolFilter>(
    filters: Seq<(F, FilterInputs)>,
    src: Seq<(String, Vec<Vec<u64>>)>,
    ind: Seq<(String, Vec<(String, Vec<u64>)>)>,
    ind_columns: Seq<(String, Vec<(String, Vec<u64>)>)>,
    ind_values: Seq<(String, Vec<(String, u64)>)>,
) -> Seq<Seq<char>>
    decreases src.len(),
{
    if src.len() == 0 {
        Seq::empty()
    } else {
        let rest = passing_symbols(filters, src.drop_last(), ind, ind_columns, ind_values);
        if symbol_passes(filters, src.last(), ind, ind_columns, ind_values) {
            rest.push(src.last().0@)
        } else {
            rest
        }
    }
}

impl<F: SymbolFilter> SymbolFiltersGateway<F> {
    /// The verdict of the filters on each symbol of `src`, in order.
    pub fn symbols_filters(
        &self,
        src: &Vec<(String, Vec<Vec<u64>>)>,
        ind: &Vec<(String, Vec<(String, Vec<u64>)>)>,
        ind_columns: &Vec<(String, Vec<(String, Vec<u64>)>)>,
        ind_values: &Vec<(String, Vec<(String, u64)>)>,
    ) -> (r: Vec<bool>)
        requires
            symbols_readable(self.filters@, src@, ind@, ind_columns@, ind_values@),
        ensures
            r@.len() == src@.len(),
            forall|k: int|
                0 <= k < r@.len() ==> #[trigger] r@[k] == symbol_passes(
                    self.filters@,
                    src@[k],
                    ind@,
                    ind_columns@,
                    ind_values@,
                ),
    {
        let mut r: Vec<bool> = Vec::new();
        let mut k: usize = 0;
        while k < src.len()
            invariant
                k <= src@.len(),
                symbols_readable(self.filters@, src@, ind@, ind_columns@, ind_values@),
                r@.len() == k,
                forall|j: int|
                    0 <= j < k ==> #[trigger] r@[j] == symbol_passes(
                        self.filters@,
                        src@[j],
                        ind@,
                        ind_columns@,
                        ind_values@,
                    ),
            decreases src@.len() - k,
        {
            let (symbol, series) = (&src[k].0, &src[k].1);
            assert(src@[k as int].0@ == symbol@);
            let verdict = self.symbol_filters(
                series,
                entry_of(ind, symbol.as_str()),
                entry_of(ind_columns, symbol.as_str()),
                entry_of(ind_values, symbol.as_str()),
            );
            r.push(verdict);
            k = k + 1;
        }
        r
    }

    /// The symbols of `src` that every filter passes, in order.
    pub fn symbols_filters_added(
        &self,
        src: &Vec<(String, Vec<Vec<u64>>)>,
        ind: &Vec<(String, Vec<(String, Vec<u64>)>)>,
        ind_columns: &Vec<(String, Vec<(String, Vec<u64>)>)>,
        ind_values: &Vec<(String, Vec<(String, u64)>)>,
    ) -> (r: Vec<String>)
        requires
            symbols_readable(self.filters@, src@, ind@, ind_columns@, ind_values@),
        ensures
            strings_view(r@) == passing_symbols(self.filters@, src@, ind@, ind_columns@, ind_values@),
    {
        let mut r: Vec<String> = Vec::new();
        let mut k: usize = 0;
        while k < src.len()
            invariant
                k <= src@.len(),
                symbols_readable(self.filters@, src@, ind@, ind_columns@, ind_values@),
                strings_view(r@) == passing_symbols(
                    self.filters@,
                    src@.subrange(0, k as int),
                    ind@,
                    ind_columns@,
                    ind_values@,
                ),
            decreases src@.len() - k,
        {
            let (symbol, series) = (&src[k].0, &src[k].1);
            assert(src@[k as int].0@ == symbol@);
            let added = self.symbol_filters_added(
                series,
                entry_of(ind, symbol.as_str()),
                entry_of(ind_columns, symbol.as_str()),
                entry_of(ind_values, symbol.as_str()),
                symbol.as_str(),
            );
            let ghost before = strings_view(r@);
            let ghost pre = src@.subrange(0, k + 1);
            assert(pre.drop_last() =~= src@.subrange(0, k as int));
            assert(pre.last() == src@[k as int]);
            match added {
                Some(v) => {
                    r.push(v);
                    assert(strings_view(r@) =~= before.push(symbol@));
                },
                None => {},
            }
            k = k + 1;
        }
        assert(src@.subrange(0, k as int) =~= src@);
        r
    }
}

} // verus!
