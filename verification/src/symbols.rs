//! Selection of tradable symbols from the exchange's list by white and
//! black lists of symbols and of coin names.

use vstd::prelude::*;

verus! {

/// The contents of a list of strings.
pub open spec fn strings_view(v: Seq<String>) -> Seq<Seq<char>> {
    v.map_values(|s: String| s@)
}

/// `needle` occurs in `hay` as a contiguous run of characters (the empty
/// string occurs in every string).
pub open spec fn has_substring(hay: Seq<char>, needle: Seq<char>) -> bool {
    exists|i: int|
        0 <= i && i + needle.len() <= hay.len() && #[trigger] hay.subrange(i, i + needle.len())
            == needle
}

/// Some element of `list` occurs in `v`.
pub open spec fn contains_any(v: Seq<char>, list: Seq<Seq<char>>) -> bool {
    exists|j: int| 0 <= j < list.len() && has_substring(v, #[trigger] list[j])
}

/// The rule that decides whether a symbol is kept: it is on the symbol
/// list (or that list is empty), it is not black-listed, it contains one of
/// the coins (or the coin list is empty), and it contains no black-listed
/// coin.
pub open spec fn symbol_selected(
    v: Seq<char>,
    symbols: Seq<Seq<char>>,
    symbols_black_list: Seq<Seq<char>>,
    coins: Seq<Seq<char>>,
    coins_black_list: Seq<Seq<char>>,
) -> bool {
    &&& (symbols.len() == 0 || symbols.contains(v))
    &&& !symbols_black_list.contains(v)
    &&& (coins.len() == 0 || contains_any(v, coins))
    &&& !contains_any(v, coins_black_list)
}

/// The symbols of `response` that the rule keeps, in their order.
pub open spec fn selected_symbols(
    response: Seq<Seq<char>>,
    symbols: Seq<Seq<char>>,
    symbols_black_list: Seq<Seq<char>>,
    coins: Seq<Seq<char>>,
    coins_black_list: Seq<Seq<char>>,
) -> Seq<Seq<char>>
    decreases response.len(),
{
    if response.len() == 0 {
        Seq::empty()
    } else {
        let rest = selected_symbols(
            response.drop_last(),
            symbols,
            symbols_black_list,
            coins,
            coins_black_list,
        );
        if symbol_selected(response.last(), symbols, symbols_black_list, coins, coins_black_list) {
            rest.push(response.last())
        } else {
            rest
        }
    }
}

/// The characters of `s`, one per element.
pub fn chars_of(s: &str) -> (r: Vec<char>)
    ensures
        r@ == s@,
{
    let n = s.unicode_len();
    let mut r: Vec<char> = Vec::new();
    let mut i: usize = 0;
    while i < n
        invariant
            i <= n,
            n == s@.len(),
            r@ == s@.subrange(0, i as int),
        decreases n - i,
    {
        r.push(s.get_char(i));
        i = i + 1;
        assert(r@ =~= s@.subrange(0, i as int));
    }
    assert(r@ =~= s@);
    r
}

/// Whether two strings hold the same characters.
pub fn str_eq(a: &str, b: &str) -> (r: bool)
    ensures
        r == (a@ == b@),
{
    let x = chars_of(a);
    let y = chars_of(b);
    if x.len() != y.len() {
        return false;
    }
    let mut k: usize = 0;
    while k < x.len()
        invariant
            k <= x@.len(),
            x@.len() == y@.len(),
            x@ == a@,
            y@ == b@,
            forall|j: int| 0 <= j < k ==> x@[j] == y@[j],
        decreases x@.len() - k,
    {
        if x[k] != y[k] {
            return false;
        }
        k = k + 1;
    }
    assert(x@ =~= y@);
    true
}

fn matches_at(hay: &Vec<char>, needle: &Vec<char>, i: usize) -> (r: bool)
    requires
        i + needle.len() <= hay.len(),
    ensures
        r == (hay@.subrange(i as int, i + needle.len()) == needle@),
{
    let mut k: usize = 0;
    while k < needle.len()
        invariant
            k <= needle.len(),
            i + needle.len() <= hay.len(),
            forall|x: int| 0 <= x < k ==> hay@[i + x] == needle@[x],
        decreases needle.len() - k,
    {
        if hay[i + k] != needle[k] {
            assert(hay@.subrange(i as int, i + needle.len())[k as int] != needle@[k as int]);
            return false;
        }
        k = k + 1;
    }
    assert(hay@.subrange(i as int, i + needle.len()) =~= needle@);
    true
}

/// Whether `needle` occurs in `hay`.
pub fn str_contains(hay: &str, needle: &str) -> (r: bool)
    ensures
        r == has_substring(hay@, needle@),
{
    let h = chars_of(hay);
    let nd = chars_of(needle);
    if nd.len() > h.len() {
        return false;
    }
    let last = h.len() - nd.len();
    let mut i: usize = 0;
    while i < last
        invariant
            i <= last,
            last == h.len() - nd.len(),
            nd.len() <= h.len(),
            h@ == hay@,
            nd@ == needle@,
            forall|x: int| 0 <= x < i ==> #[trigger] h@.subrange(x, x + nd.len()) != nd@,
        decreases last - i,
    {
        if matches_at(&h, &nd, i) {
            return true;
        }
        i = i + 1;
    }
    if matches_at(&h, &nd, last) {
        return true;
    }
    assert(!has_substring(hay@, needle@)) by {
        if has_substring(hay@, needle@) {
            let x = choose|x: int|
                0 <= x && x + needle@.len() <= hay@.len() && #[trigger] hay@.subrange(
                    x,
                    x + needle@.len(),
                ) == needle@;
            assert(h@.subrange(x, x + nd.len()) == nd@);
        }
    }
    false
}

/// Whether some element of `list` occurs in `v`.
pub fn contains_any_of(v: &str, list: &Vec<String>) -> (r: bool)
    ensures
        r == contains_any(v@, strings_view(list@)),
{
    let mut j: usize = 0;
    while j < list.len()
        invariant
            j <= list.len(),
            forall|x: int| 0 <= x < j ==> !has_substring(v@, #[trigger] list@[x]@),
        decreases list.len() - j,
    {
        if str_contains(v, list[j].as_str()) {
            assert(has_substring(v@, strings_view(list@)[j as int]));
            return true;
        }
        j = j + 1;
    }
    assert forall|x: int| 0 <= x < strings_view(list@).len() implies !has_substring(
        v@,
        #[trigger] strings_view(list@)[x],
    ) by {
        assert(strings_view(list@)[x] == list@[x]@);
    }
    false
}

/// Whether `list` holds a string equal to `v`.
pub fn list_contains(list: &Vec<String>, v: &String) -> (r: bool)
    ensures
        r == strings_view(list@).contains(v@),
{
    let mut j: usize = 0;
    while j < list.len()
        invariant
            j <= list.len(),
            forall|x: int| 0 <= x < j ==> list@[x]@ != v@,
        decreases list.len() - j,
    {
        if list[j] == *v {
            assert(strings_view(list@)[j as int] == v@);
            return true;
        }
        j = j + 1;
    }
    assert(!strings_view(list@).contains(v@)) by {
        if strings_view(list@).contains(v@) {
            let x = choose|x: int| 0 <= x < strings_view(list@).len() && strings_view(list@)[x] == v@;
            assert(list@[x]@ == v@);
        }
    }
    false
}

/// Whether `v` passes the selection rule of [`symbol_selected`].
pub fn is_symbol_selected(
    v: &String,
    symbols: &Vec<String>,
    symbols_black_list: &Vec<String>,
    coins: &Vec<String>,
    coins_black_list: &Vec<String>,
) -> (r: bool)
    ensures
        r == symbol_selected(
            v@,
            strings_view(symbols@),
            strings_view(symbols_black_list@),
            strings_view(coins@),
            strings_view(coins_black_list@),
        ),
{
    (symbols.len() == 0 || list_contains(symbols, v)) && !list_contains(symbols_black_list, v) && (
    coins.len() == 0 || contains_any_of(v.as_str(), coins)) && !contains_any_of(
        v.as_str(),
        coins_black_list,
    )
}

/// The symbols of `symbols_response` that are on `symbols` (all of them
/// when it is empty), not on `symbols_black_list`, contain one of `coins`
/// (any, when it is empty) and contain none of `coins_black_list`, in the
/// order of `symbols_response`.
/// (`symbols_white_list` is the list that the rule calls `symbols`.)
pub fn symbols(
    symbols_response: &Vec<String>,
    symbols_white_list: &Vec<String>,
    symbols_black_list: &Vec<String>,
    coins: &Vec<String>,
    coins_black_list: &Vec<String>,
) -> (r: Vec<String>)
    ensures
        strings_view(r@) == selected_symbols(
            strings_view(symbols_response@),
            strings_view(symbols_white_list@),
            strings_view(symbols_black_list@),
            strings_view(coins@),
            strings_view(coins_black_list@),
        ),
{
    let ghost sv = strings_view(symbols_white_list@);
    let ghost bv = strings_view(symbols_black_list@);
    let ghost cv = strings_view(coins@);
    let ghost kv = strings_view(coins_black_list@);
    let ghost resp = strings_view(symbols_response@);
    let mut r: Vec<String> = Vec::new();
    let mut i: usize = 0;
    while i < symbols_response.len()
        invariant
            i <= symbols_response.len(),
            sv == strings_view(symbols_white_list@),
            bv == strings_view(symbols_black_list@),
            cv == strings_view(coins@),
            kv == strings_view(coins_black_list@),
            resp == strings_view(symbols_response@),
            strings_view(r@) == selected_symbols(resp.subrange(0, i as int), sv, bv, cv, kv),
        decreases symbols_response.len() - i,
    {
        let v = &symbols_response[i];
        let keep = is_symbol_selected(v, symbols_white_list, symbols_black_list, coins, coins_black_list);
        let ghost before = r@;
        if keep {
            r.push(v.clone());
            assert(strings_view(r@) =~= strings_view(before).push(v@));
        }
        assert(resp.subrange(0, i + 1).drop_last() =~= resp.subrange(0, i as int));
        assert(resp.subrange(0, i + 1).last() == v@);
        i = i + 1;
    }
    assert(resp.subrange(0, i as int) =~= resp);
    r
}

/// The symbols that a back-test run over the configured symbol list
/// trades: when a symbol filter is configured none are taken from the list;
/// otherwise those of `symbols_list` that are not black-listed, contain one
/// of `coins` (any, when it is empty) and contain no black-listed coin.
pub fn backtest_symbols(
    symbols_list: &Vec<String>,
    symbols_black_list: &Vec<String>,
    coins: &Vec<String>,
    coins_black_list: &Vec<String>,
    has_symbols_filter: bool,
) -> (r: Vec<String>)
    ensures
        has_symbols_filter ==> r@.len() == 0,
        !has_symbols_filter ==> strings_view(r@) == selected_symbols(
            strings_view(symbols_list@),
            Seq::empty(),
            strings_view(symbols_black_list@),
            strings_view(coins@),
            strings_view(coins_black_list@),
        ),
{
    if has_symbols_filter {
        Vec::new()
    } else {
        let none: Vec<String> = Vec::new();
        assert(strings_view(none@) =~= Seq::<Seq<char>>::empty());
        symbols(symbols_list, &none, symbols_black_list, coins, coins_black_list)
    }
}

/// A symbol is in the selection exactly when it is in the response and
/// passes the selection rule.
pub proof fn lemma_selection_is_exact_filter(
    response: Seq<Seq<char>>,
    symbols: Seq<Seq<char>>,
    symbols_black_list: Seq<Seq<char>>,
    coins: Seq<Seq<char>>,
    coins_black_list: Seq<Seq<char>>,
    x: Seq<char>,
)
    ensures
        selected_symbols(response, symbols, symbols_black_list, coins, coins_black_list).contains(x)
            <==> (response.contains(x) && symbol_selected(
            x,
            symbols,
            symbols_black_list,
            coins,
            coins_black_list,
        )),
    decreases response.len(),
{
    if response.len() > 0 {
        let init = response.drop_last();
        lemma_selection_is_exact_filter(init, symbols, symbols_black_list, coins, coins_black_list, x);
        let rest = selected_symbols(init, symbols, symbols_black_list, coins, coins_black_list);
        assert(response =~= init.push(response.last()));
        if response.contains(x) && x != response.last() {
            let k = choose|k: int| 0 <= k < response.len() && response[k] == x;
            assert(k < init.len());
            assert(init[k] == x);
        }
        if init.contains(x) {
            let k = choose|k: int| 0 <= k < init.len() && init[k] == x;
            assert(response[k] == x);
        }
        if symbol_selected(response.last(), symbols, symbols_black_list, coins, coins_black_list) {
            let r = rest.push(response.last());
            if r.contains(x) && x != response.last() {
                let k = choose|k: int| 0 <= k < r.len() && r[k] == x;
                assert(rest[k] == x);
            }
            if rest.contains(x) {
                let k = choose|k: int| 0 <= k < rest.len() && rest[k] == x;
                assert(r[k] == x);
            }
            assert(r[r.len() - 1] == response.last());
        }
        assert(response[response.len() - 1] == response.last());
    }
}

/// The selection keeps the order of the response and never adds a symbol:
/// it is at most as long as the response.
pub proof fn lemma_selection_not_longer(
    response: Seq<Seq<char>>,
    symbols: Seq<Seq<char>>,
    symbols_black_list: Seq<Seq<char>>,
    coins: Seq<Seq<char>>,
    coins_black_list: Seq<Seq<char>>,
)
    ensures
        selected_symbols(response, symbols, symbols_black_list, coins, coins_black_list).len()
            <= response.len(),
    decreases response.len(),
{
    if response.len() > 0 {
        lemma_selection_not_longer(
            response.drop_last(),
            symbols,
            symbols_black_list,
            coins,
            coins_black_list,
        );
    }
}

/// With no lists configured every symbol of the response is kept.
pub proof fn lemma_no_lists_keeps_all(response: Seq<Seq<char>>)
    ensures
        selected_symbols(response, Seq::empty(), Seq::empty(), Seq::empty(), Seq::empty())
            == response,
    decreases response.len(),
{
    if response.len() > 0 {
        lemma_no_lists_keeps_all(response.drop_last());
        assert(!contains_any(response.last(), Seq::empty()));
        assert(!Seq::<Seq<char>>::empty().contains(response.last()));
        assert(response.drop_last().push(response.last()) =~= response);
    }
}

/// A black-listed symbol is never selected.
pub proof fn lemma_black_listed_never_selected(
    response: Seq<Seq<char>>,
    symbols: Seq<Seq<char>>,
    symbols_black_list: Seq<Seq<char>>,
    coins: Seq<Seq<char>>,
    coins_black_list: Seq<Seq<char>>,
    x: Seq<char>,
)
    requires
        symbols_black_list.contains(x),
    ensures
        !selected_symbols(response, symbols, symbols_black_list, coins, coins_black_list).contains(x),
{
    lemma_selection_is_exact_filter(response, symbols, symbols_black_list, coins, coins_black_list, x);
}

/// The selection rule in full: a symbol is kept exactly when it is on the
/// symbol list (or that list is empty), on no black list entry, contains at
/// least one of the coins (any one is enough; an empty coin list asks for
/// none) and contains no black-listed coin.
pub proof fn lemma_selection_rule(
    v: Seq<char>,
    symbols: Seq<Seq<char>>,
    symbols_black_list: Seq<Seq<char>>,
    coins: Seq<Seq<char>>,
    coins_black_list: Seq<Seq<char>>,
)
    ensures
        symbol_selected(v, symbols, symbols_black_list, coins, coins_black_list) == (
        (symbols.len() == 0 || exists|i: int| 0 <= i < symbols.len() && #[trigger] symbols[i] == v)
            && (forall|i: int| 0 <= i < symbols_black_list.len() ==> #[trigger] symbols_black_list[i] != v)
            && (coins.len() == 0 || exists|j: int|
            0 <= j < coins.len() && has_substring(v, #[trigger] coins[j])) && (forall|j: int|
            0 <= j < coins_black_list.len() ==> !has_substring(v, #[trigger] coins_black_list[j]))),
{
}

/// One listed coin in a symbol is enough: a symbol that contains the coin
/// `coins[j]` passes the coin test, whatever the other coins are.
pub proof fn lemma_one_coin_is_enough(
    v: Seq<char>,
    symbols: Seq<Seq<char>>,
    symbols_black_list: Seq<Seq<char>>,
    coins: Seq<Seq<char>>,
    coins_black_list: Seq<Seq<char>>,
    j: int,
)
    requires
        0 <= j < coins.len(),
        has_substring(v, coins[j]),
        symbols.len() == 0,
        symbols_black_list.len() == 0,
        coins_black_list.len() == 0,
    ensures
        symbol_selected(v, symbols, symbols_black_list, coins, coins_black_list),
{
    lemma_selection_rule(v, symbols, symbols_black_list, coins, coins_black_list);
}

} // verus!
