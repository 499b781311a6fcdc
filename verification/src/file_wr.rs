//! Names and text layout of the files that a back-test writes.

use vstd::prelude::*;

use crate::symbols::strings_view;

verus! {

/// The decimal digit character for `d < 10`.
pub open spec fn digit_char(d: nat) -> char {
    if d == 0 {
        '0'
    } else if d == 1 {
        '1'
    } else if d == 2 {
        '2'
    } else if d == 3 {
        '3'
    } else if d == 4 {
        '4'
    } else if d == 5 {
        '5'
    } else if d == 6 {
        '6'
    } else if d == 7 {
        '7'
    } else if d == 8 {
        '8'
    } else {
        '9'
    }
}

/// The decimal representation of `n`, without leading zeros ("0" for zero).
pub open spec fn decimal(n: nat) -> Seq<char>
    decreases n,
{
    if n < 10 {
        seq![digit_char(n)]
    } else {
        decimal(n / 10).push(digit_char(n % 10))
    }
}

fn digit_str(d: u64) -> (r: &'static str)
    requires
        d < 10,
    ensures
        r@ == seq![digit_char(d as nat)],
{
    if d == 0 {
        proof { reveal_strlit("0"); }
        "0"
    } else if d == 1 {
        proof { reveal_strlit("1"); }
        "1"
    } else if d == 2 {
        proof { reveal_strlit("2"); }
        "2"
    } else if d == 3 {
        proof { reveal_strlit("3"); }
        "3"
    } else if d == 4 {
        proof { reveal_strlit("4"); }
        "4"
    } else if d == 5 {
        proof { reveal_strlit("5"); }
        "5"
    } else if d == 6 {
        proof { reveal_strlit("6"); }
        "6"
    } else if d == 7 {
        proof { reveal_strlit("7"); }
        "7"
    } else if d == 8 {
        proof { reveal_strlit("8"); }
        "8"
    } else {
        proof { reveal_strlit("9"); }
        "9"
    }
}

/// The decimal representation of `n`.
pub fn u64_to_decimal(n: u64) -> (r: String)
    ensures
        r@ == decimal(n as nat),
    decreases n,
{
    if n < 10 {
        let mut r = String::new();
        r.append(digit_str(n));
        assert(r@ =~= decimal(n as nat));
        r
    } else {
        let mut r = u64_to_decimal(n / 10);
        r.append(digit_str(n % 10));
        r
    }
}

/// The directory of one back-test result: `{dir}/{time}/{symbol}`, with the
/// time in decimal.
pub fn get_backtest_dir(dir: &str, symbol: &str, time: u64) -> (r: String)
    ensures
        r@ == dir@ + seq!['/'] + decimal(time as nat) + seq!['/'] + symbol@,
{
    let mut r = String::from_str(dir);
    proof { reveal_strlit("/"); }
    r.append("/");
    let t = u64_to_decimal(time);
    r.append(t.as_str());
    r.append("/");
    r.append(symbol);
    r
}

/// `words` separated by `sep`.
pub open spec fn join(words: Seq<Seq<char>>, sep: Seq<char>) -> Seq<char>
    decreases words.len(),
{
    if words.len() == 0 {
        Seq::empty()
    } else if words.len() == 1 {
        words[0]
    } else {
        join(words.drop_last(), sep) + sep + words.last()
    }
}

/// Joins `words` with `sep` between them.
pub fn join_strings(words: &Vec<String>, sep: &str) -> (r: String)
    ensures
        r@ == join(words@.map_values(|w: String| w@), sep@),
{
    let ghost wv = words@.map_values(|w: String| w@);
    let mut r = String::new();
    let mut i: usize = 0;
    while i < words.len()
        invariant
            i <= words@.len(),
            wv == words@.map_values(|w: String| w@),
            r@ == join(wv.subrange(0, i as int), sep@),
        decreases words@.len() - i,
    {
        let ghost prev = wv.subrange(0, i as int);
        if i > 0 {
            r.append(sep);
        }
        r.append(words[i].as_str());
        i = i + 1;
        assert(wv.subrange(0, i as int).drop_last() =~= prev);
        proof {
            if i == 1 {
                assert(r@ =~= wv.subrange(0, 1)[0]);
            }
        }
    }
    assert(wv.subrange(0, i as int) =~= wv);
    r
}

/// A table as text columns: a name and the already formatted cells.
pub open spec fn text_table_view(t: Seq<(String, Vec<String>)>) -> Seq<(Seq<char>, Seq<Seq<char>>)> {
    t.map_values(|c: (String, Vec<String>)| (c.0@, c.1@.map_values(|w: String| w@)))
}

/// Every column is at least as long as the first, which exists.
pub open spec fn table_rectangular(t: Seq<(Seq<char>, Seq<Seq<char>>)>) -> bool {
    &&& t.len() > 0
    &&& forall|k: int| 0 <= k < t.len() ==> t[0].1.len() <= (#[trigger] t[k]).1.len()
}

/// Row `i` of the table: cell `i` of each column, separated by spaces.
pub open spec fn row_line(t: Seq<(Seq<char>, Seq<Seq<char>>)>, i: int) -> Seq<char> {
    join(row_cells(t, i), " "@) + "\n"@
}

/// Cell `i` of each column of the table.
pub open spec fn row_cells(t: Seq<(Seq<char>, Seq<Seq<char>>)>, i: int) -> Seq<Seq<char>> {
    Seq::new(t.len(), |k: int| t[k].1[i])
}

/// The first `n` rows of the table, one line each.
pub open spec fn rows_text(t: Seq<(Seq<char>, Seq<Seq<char>>)>, n: nat) -> Seq<char>
    decreases n,
{
    if n == 0 {
        Seq::empty()
    } else {
        rows_text(t, (n - 1) as nat) + row_line(t, n - 1)
    }
}

/// A table as written to a data file: the column names on one line, then
/// one line per row of the first column's length, then blank lines that
/// separate it from the next table.
pub open spec fn table_text(t: Seq<(Seq<char>, Seq<Seq<char>>)>) -> Seq<char> {
    join(t.map_values(|c: (Seq<char>, Seq<Seq<char>>)| c.0), " "@) + "\n"@ + rows_text(
        t,
        t[0].1.len(),
    ) + "\n\n\n"@
}

/// The text of a data file holding `tables` one after the other.
pub open spec fn tables_text(tables: Seq<Seq<(Seq<char>, Seq<Seq<char>>)>>) -> Seq<char>
    decreases tables.len(),
{
    if tables.len() == 0 {
        Seq::empty()
    } else {
        tables_text(tables.drop_last()) + table_text(tables.last())
    }
}

fn table_text_exec(t: &Vec<(String, Vec<String>)>) -> (r: String)
    requires
        table_rectangular(text_table_view(t@)),
    ensures
        r@ == table_text(text_table_view(t@)),
{
    let ghost tv = text_table_view(t@);
    proof {
        reveal_strlit(" ");
        reveal_strlit("\n");
        reveal_strlit("\n\n\n");
    }
    let mut names: Vec<String> = Vec::new();
    let mut k: usize = 0;
    while k < t.len()
        invariant
            k <= t@.len(),
            tv == text_table_view(t@),
            names@.map_values(|w: String| w@) == tv.map_values(|c: (Seq<char>, Seq<Seq<char>>)| c.0).subrange(0, k as int),
        decreases t@.len() - k,
    {
        let ghost before = names@;
        let c = t[k].0.clone();
        assert(tv[k as int].0 == c@);
        names.push(c);
        assert(names@.map_values(|w: String| w@) =~= before.map_values(|w: String| w@).push(c@));
        k = k + 1;
        assert(names@.map_values(|w: String| w@) =~= tv.map_values(|c: (Seq<char>, Seq<Seq<char>>)| c.0).subrange(0, k as int));
    }
    assert(tv.map_values(|c: (Seq<char>, Seq<Seq<char>>)| c.0).subrange(0, k as int) =~= tv.map_values(|c: (Seq<char>, Seq<Seq<char>>)| c.0));
    let mut r = join_strings(&names, " ");
    r.append("\n");
    let n = t[0].1.len();
    let mut i: usize = 0;
    while i < n
        invariant
            i <= n,
            n == tv[0].1.len(),
            tv == text_table_view(t@),
            table_rectangular(tv),
            r@ == join(tv.map_values(|c: (Seq<char>, Seq<Seq<char>>)| c.0), " "@) + "\n"@ + rows_text(tv, i as nat),
        decreases n - i,
    {
        let mut cells: Vec<String> = Vec::new();
        let mut k: usize = 0;
        while k < t.len()
            invariant
                k <= t@.len(),
                i < n,
                n == tv[0].1.len(),
                tv == text_table_view(t@),
                table_rectangular(tv),
                cells@.map_values(|w: String| w@) == Seq::new(tv.len(), |x: int| tv[x].1[i as int]).subrange(0, k as int),
            decreases t@.len() - k,
        {
            assert(tv[k as int].1.len() == t@[k as int].1@.len());
            assert(tv[k as int].1[i as int] == t@[k as int].1@[i as int]@);
            let ghost before = cells@;
            let c = t[k].1[i].clone();
            cells.push(c);
            assert(cells@.map_values(|w: String| w@) =~= before.map_values(|w: String| w@).push(c@));
            k = k + 1;
            assert(cells@.map_values(|w: String| w@) =~= Seq::new(tv.len(), |x: int| tv[x].1[i as int]).subrange(0, k as int));
        }
        assert(Seq::new(tv.len(), |x: int| tv[x].1[i as int]).subrange(0, k as int) =~= Seq::new(tv.len(), |x: int| tv[x].1[i as int]));
        let line = join_strings(&cells, " ");
        r.append(line.as_str());
        r.append("\n");
        i = i + 1;
        assert(r@ =~= join(tv.map_values(|c: (Seq<char>, Seq<Seq<char>>)| c.0), " "@) + "\n"@ + rows_text(tv, i as nat));
    }
    r.append("\n\n\n");
    r
}

/// The text of a data file: each table's names line, its rows and the
/// blank lines after it, table after table. Cells are given already
/// formatted.
pub fn data_columns_text(tables: &Vec<Vec<(String, Vec<String>)>>) -> (r: String)
    requires
        forall|k: int| 0 <= k < tables@.len() ==> table_rectangular(text_table_view((#[trigger] tables@[k])@)),
    ensures
        r@ == tables_text(tables@.map_values(|t: Vec<(String, Vec<String>)>| text_table_view(t@))),
{
    let ghost all = tables@.map_values(|t: Vec<(String, Vec<String>)>| text_table_view(t@));
    let mut r = String::new();
    let mut k: usize = 0;
    while k < tables.len()
        invariant
            k <= tables@.len(),
            all == tables@.map_values(|t: Vec<(String, Vec<String>)>| text_table_view(t@)),
            forall|j: int| 0 <= j < tables@.len() ==> table_rectangular(text_table_view((#[trigger] tables@[j])@)),
            r@ == tables_text(all.subrange(0, k as int)),
        decreases tables@.len() - k,
    {
        let part = table_text_exec(&tables[k]);
        r.append(part.as_str());
        k = k + 1;
        assert(all.subrange(0, k as int).drop_last() =~= all.subrange(0, k - 1));
    }
    assert(all.subrange(0, k as int) =~= all);
    r
}

/// The lines `name value` of a values file, one per pair.
pub open spec fn values_text(pairs: Seq<(Seq<char>, Seq<char>)>) -> Seq<char>
    decreases pairs.len(),
{
    if pairs.len() == 0 {
        Seq::empty()
    } else {
        values_text(pairs.drop_last()) + pairs.last().0 + " "@ + pairs.last().1 + "\n"@
    }
}

/// The text of a values file; values are given already formatted.
pub fn data_values_text(pairs: &Vec<(String, String)>) -> (r: String)
    ensures
        r@ == values_text(pairs@.map_values(|p: (String, String)| (p.0@, p.1@))),
{
    proof {
        reveal_strlit(" ");
        reveal_strlit("\n");
    }
    let ghost pv = pairs@.map_values(|p: (String, String)| (p.0@, p.1@));
    let mut r = String::new();
    let mut k: usize = 0;
    while k < pairs.len()
        invariant
            k <= pairs@.len(),
            pv == pairs@.map_values(|p: (String, String)| (p.0@, p.1@)),
            r@ == values_text(pv.subrange(0, k as int)),
        decreases pairs@.len() - k,
    {
        r.append(pairs[k].0.as_str());
        r.append(" ");
        r.append(pairs[k].1.as_str());
        r.append("\n");
        k = k + 1;
        assert(pv.subrange(0, k as int).drop_last() =~= pv.subrange(0, k - 1));
    }
    assert(pv.subrange(0, k as int) =~= pv);
    r
}

/// The pieces of `s` between occurrences of `c`, in order; empty pieces
/// are kept, and a string without `c` is one piece.
pub open spec fn split_on(s: Seq<char>, c: char) -> Seq<Seq<char>>
    decreases s.len(),
{
    if s.len() == 0 {
        seq![Seq::empty()]
    } else {
        let r = split_on(s.drop_last(), c);
        if s.last() == c {
            r.push(Seq::empty())
        } else {
            r.update(r.len() - 1, r.last().push(s.last()))
        }
    }
}

proof fn lemma_split_on_nonempty(s: Seq<char>, c: char)
    ensures
        split_on(s, c).len() > 0,
    decreases s.len(),
{
    if s.len() > 0 {
        lemma_split_on_nonempty(s.drop_last(), c);
    }
}

/// Splits `text` at every `c`, as [`split_on`] states.
pub fn split_str(text: &str, c: char) -> (r: Vec<String>)
    ensures
        strings_view(r@) == split_on(text@, c),
{
    let chars = crate::symbols::chars_of(text);
    let n = chars.len();
    let mut r: Vec<String> = Vec::new();
    let mut start: usize = 0;
    let mut i: usize = 0;
    assert(text@.subrange(0, 0) =~= Seq::<char>::empty());
    assert(strings_view(r@).push(text@.subrange(0, 0)) =~= split_on(
        text@.subrange(0, 0),
        c,
    ));
    while i < n
        invariant
            i <= n,
            start <= i,
            n == text@.len(),
            chars@ == text@,
            strings_view(r@).push(text@.subrange(start as int, i as int)) == split_on(
                text@.subrange(0, i as int),
                c,
            ),
        decreases n - i,
    {
        let ghost prev = text@.subrange(0, i as int);
        assert(text@.subrange(0, i + 1).drop_last() =~= prev);
        proof {
            lemma_split_on_nonempty(prev, c);
        }
        if chars[i] == c {
            let piece = String::from_str(text.substring_char(start, i));
            let ghost before = strings_view(r@);
            r.push(piece);
            assert(strings_view(r@) =~= before.push(piece@));
            start = i + 1;
            i = i + 1;
            assert(text@.subrange(start as int, i as int) =~= Seq::<char>::empty());
        } else {
            let ghost before = strings_view(r@);
            assert(text@.subrange(start as int, i + 1) =~= text@.subrange(start as int, i as int).push(text@[i as int]));
            i = i + 1;
            assert(before.push(text@.subrange(start as int, i as int)) =~= split_on(text@.subrange(0, i as int), c));
        }
    }
    let last = String::from_str(text.substring_char(start, n));
    let ghost before = strings_view(r@);
    r.push(last);
    assert(strings_view(r@) =~= before.push(last@));
    assert(text@.subrange(0, n as int) =~= text@);
    r
}

/// A values-file line read back: its first two space-separated pieces, or
/// nothing when it has no space.
pub open spec fn spec_value_line(line: Seq<char>) -> Option<(Seq<char>, Seq<char>)> {
    let parts = split_on(line, ' ');
    if parts.len() >= 2 {
        Some((parts[0], parts[1]))
    } else {
        None
    }
}

/// Every line of a values file read back, or nothing when some line has no
/// space.
pub open spec fn spec_values_lines(lines: Seq<Seq<char>>) -> Option<Seq<(Seq<char>, Seq<char>)>>
    decreases lines.len(),
{
    if lines.len() == 0 {
        Some(Seq::empty())
    } else {
        match (spec_values_lines(lines.drop_last()), spec_value_line(lines.last())) {
            (Some(r), Some(p)) => Some(r.push(p)),
            _ => None,
        }
    }
}

/// The lines of a values file: the pieces between line ends, without the
/// empty piece after a final line end.
pub open spec fn value_file_lines(text: Seq<char>) -> Seq<Seq<char>> {
    let lines = split_on(text, '\n');
    if lines.last().len() == 0 {
        lines.drop_last()
    } else {
        lines
    }
}

/// Reads the names and (still textual) values of a values file: each line
/// holds a name and a value separated by a space, and the text may end
/// with a line end. Fails when some line has no space.
pub fn parse_data_values(text: &str) -> (r: Option<Vec<(String, String)>>)
    ensures
        match spec_values_lines(value_file_lines(text@)) {
            None => r is None,
            Some(v) => r matches Some(p) && p@.map_values(|q: (String, String)| (q.0@, q.1@)) == v,
        },
{
    let lines = split_str(text, '\n');
    proof {
        lemma_split_on_nonempty(text@, '\n');
    }
    let n = if lines[lines.len() - 1].as_str().unicode_len() == 0 {
        lines.len() - 1
    } else {
        lines.len()
    };
    let ghost lv = value_file_lines(text@);
    assert(lv =~= strings_view(lines@).subrange(0, n as int));
    let mut r: Vec<(String, String)> = Vec::new();
    let mut k: usize = 0;
    while k < n
        invariant
            k <= n,
            n <= lines@.len(),
            lv == strings_view(lines@).subrange(0, n as int),
            lv == value_file_lines(text@),
            spec_values_lines(lv.subrange(0, k as int)) matches Some(v) && r@.map_values(
                |q: (String, String)| (q.0@, q.1@),
            ) == v,
        decreases n - k,
    {
        let parts = split_str(lines[k].as_str(), ' ');
        let ghost pv = strings_view(parts@);
        assert(lv.subrange(0, k + 1).drop_last() =~= lv.subrange(0, k as int));
        assert(lv.subrange(0, k + 1).last() == lines@[k as int]@);
        if parts.len() < 2 {
            proof {
                assert(spec_values_lines(lv.subrange(0, k + 1)) is None);
                lemma_values_lines_none_extends(lv, k + 1);
                assert(lv.subrange(0, lv.len() as int) =~= lv);
                assert(spec_values_lines(lv) is None);
            }
            return None;
        }
        let ghost before = r@.map_values(|q: (String, String)| (q.0@, q.1@));
        let a = parts[0].clone();
        let b = parts[1].clone();
        assert(pv[0] == a@ && pv[1] == b@);
        r.push((a, b));
        assert(r@.map_values(|q: (String, String)| (q.0@, q.1@)) =~= before.push((a@, b@)));
        k = k + 1;
    }
    assert(lv.subrange(0, k as int) =~= lv);
    Some(r)
}

/// The pieces of `s` between occurrences of two line ends in a row, found
/// from the left without overlap; empty pieces are kept.
pub open spec fn split_blank(s: Seq<char>) -> Seq<Seq<char>>
    decreases s.len(),
{
    if s.len() < 2 {
        seq![s]
    } else if s[0] == '\n' && s[1] == '\n' {
        seq![Seq::<char>::empty()] + split_blank(s.subrange(2, s.len() as int))
    } else {
        let r = split_blank(s.drop_first());
        r.update(0, seq![s[0]] + r[0])
    }
}

proof fn lemma_split_blank_nonempty(s: Seq<char>)
    ensures
        split_blank(s).len() > 0,
    decreases s.len(),
{
    if s.len() >= 2 {
        if !(s[0] == '\n' && s[1] == '\n') {
            lemma_split_blank_nonempty(s.drop_first());
        }
    }
}

/// `r` with `p` put in front of its first piece.
pub open spec fn prefix_first(p: Seq<char>, r: Seq<Seq<char>>) -> Seq<Seq<char>> {
    r.update(0, p + r[0])
}

/// Splits the text of a data file into its tables, at each blank line
/// (two line ends in a row), as [`split_blank`] states.
pub fn split_tables(text: &str) -> (r: Vec<String>)
    ensures
        strings_view(r@) == split_blank(text@),
{
    let chars = crate::symbols::chars_of(text);
    let n = chars.len();
    let mut r: Vec<String> = Vec::new();
    let mut start: usize = 0;
    let mut i: usize = 0;
    assert(text@.subrange(0, n as int) =~= text@);
    proof {
        lemma_split_blank_nonempty(text@);
        assert(prefix_first(Seq::empty(), split_blank(text@)) =~= split_blank(text@));
        assert(strings_view(r@) + prefix_first(Seq::empty(), split_blank(text@)) =~= split_blank(text@));
    }
    while n - i >= 2
        invariant
            start <= i <= n,
            n == text@.len(),
            chars@ == text@,
            strings_view(r@) + prefix_first(
                text@.subrange(start as int, i as int),
                split_blank(text@.subrange(i as int, n as int)),
            ) == split_blank(text@),
        decreases n - i,
    {
        let ghost rest = text@.subrange(i as int, n as int);
        let ghost before = strings_view(r@);
        let ghost p = text@.subrange(start as int, i as int);
        assert(rest[0] == text@[i as int] && rest[1] == text@[i + 1]);
        if chars[i] == '\n' && chars[i + 1] == '\n' {
            let piece = String::from_str(text.substring_char(start, i));
            r.push(piece);
            proof {
                let next = text@.subrange(i + 2, n as int);
                assert(rest.subrange(2, rest.len() as int) =~= next);
                lemma_split_blank_nonempty(next);
                assert(strings_view(r@) =~= before.push(p));
                assert(prefix_first(p, split_blank(rest)) =~= seq![p] + split_blank(next));
                assert(prefix_first(Seq::empty(), split_blank(next)) =~= split_blank(next));
            }
            i = i + 2;
            start = i;
            assert(text@.subrange(start as int, i as int) =~= Seq::<char>::empty());
            assert(strings_view(r@) + prefix_first(
                text@.subrange(start as int, i as int),
                split_blank(text@.subrange(i as int, n as int)),
            ) =~= split_blank(text@));
        } else {
            proof {
                let next = text@.subrange(i + 1, n as int);
                assert(rest.drop_first() =~= next);
                lemma_split_blank_nonempty(next);
                assert(text@.subrange(start as int, i + 1) =~= p.push(text@[i as int]));
                let tail = split_blank(next);
                assert(split_blank(rest) == tail.update(0, seq![rest[0]] + tail[0]));
                assert(p + (seq![rest[0]] + tail[0]) =~= p.push(text@[i as int]) + tail[0]);
                assert(prefix_first(p, split_blank(rest)) =~= prefix_first(
                    text@.subrange(start as int, i + 1),
                    split_blank(next),
                ));
            }
            i = i + 1;
        }
    }
    proof {
        let rest = text@.subrange(i as int, n as int);
        assert(split_blank(rest) == seq![rest]);
        assert(text@.subrange(start as int, i as int) + rest =~= text@.subrange(start as int, n as int));
        assert(prefix_first(text@.subrange(start as int, i as int), split_blank(rest)) =~= seq![
            text@.subrange(start as int, n as int),
        ]);
    }
    let last = String::from_str(text.substring_char(start, n));
    let ghost before = strings_view(r@);
    r.push(last);
    assert(strings_view(r@) =~= before.push(last@));
    r
}

/// The lines of `text`, each split at spaces into cells.
pub open spec fn text_rows(text: Seq<char>) -> Seq<Seq<Seq<char>>> {
    split_on(text, '\n').map_values(|l: Seq<char>| split_on(l, ' '))
}

/// Every row has at least as many cells as the first.
pub open spec fn rows_reach_first(rows: Seq<Seq<Seq<char>>>) -> bool {
    forall|i: int| 0 <= i < rows.len() ==> rows[0].len() <= (#[trigger] rows[i]).len()
}

/// The named columns of a table read back: column `j` is named by cell `j`
/// of the first row and holds cell `j` of each following row.
pub open spec fn spec_columns(rows: Seq<Seq<Seq<char>>>) -> Seq<(Seq<char>, Seq<Seq<char>>)> {
    Seq::new(
        rows[0].len(),
        |j: int| (rows[0][j], Seq::new((rows.len() - 1) as nat, |i: int| rows[i + 1][j])),
    )
}

/// Reads one table of a data file: lines of cells separated by spaces, the
/// first line naming the columns; values stay text. A table with a line
/// shorter than its first cannot be turned into columns: nothing is read.
pub fn parse_data_columns(text: &str) -> (r: Option<Vec<(String, Vec<String>)>>)
    ensures
        rows_reach_first(text_rows(text@)) ==> (r matches Some(t) && text_table_view(t@)
            == spec_columns(text_rows(text@))),
        !rows_reach_first(text_rows(text@)) ==> r is None,
{
    let ghost tr = text_rows(text@);
    let lines = split_str(text, '\n');
    proof {
        lemma_split_on_nonempty(text@, '\n');
    }
    let mut rows: Vec<Vec<String>> = Vec::new();
    let mut k: usize = 0;
    while k < lines.len()
        invariant
            k <= lines@.len(),
            strings_view(lines@) == split_on(text@, '\n'),
            tr == text_rows(text@),
            rows@.len() == k,
            forall|x: int| 0 <= x < k ==> strings_view((#[trigger] rows@[x])@) == tr[x],
        decreases lines@.len() - k,
    {
        assert(lines@[k as int]@ == split_on(text@, '\n')[k as int]);
        rows.push(split_str(lines[k].as_str(), ' '));
        k = k + 1;
    }
    assert(rows@.len() == tr.len());
    let n = rows[0].len();
    let mut m: usize = 1;
    while m < rows.len()
        invariant
            1 <= m <= rows@.len(),
            tr == text_rows(text@),
            rows@.len() == tr.len(),
            n == rows@[0]@.len(),
            forall|x: int| 0 <= x < rows@.len() ==> strings_view((#[trigger] rows@[x])@) == tr[x],
            forall|x: int| 0 <= x < m ==> n <= (#[trigger] rows@[x])@.len(),
        decreases rows@.len() - m,
    {
        if rows[m].len() < n {
            proof {
                assert(strings_view(rows@[m as int]@).len() == rows@[m as int]@.len());
                assert(strings_view(rows@[0]@).len() == rows@[0]@.len());
                assert(tr[m as int].len() < tr[0].len());
            }
            return None;
        }
        m = m + 1;
    }
    proof {
        assert forall|i: int| 0 <= i < tr.len() implies tr[0].len() <= (#[trigger] tr[i]).len() by {
            assert(strings_view(rows@[i]@).len() == rows@[i]@.len());
            assert(strings_view(rows@[0]@).len() == rows@[0]@.len());
        }
    }
    let ghost cols = spec_columns(tr);
    let mut r: Vec<(String, Vec<String>)> = Vec::new();
    let mut j: usize = 0;
    while j < n
        invariant
            j <= n,
            n == rows@[0]@.len(),
            rows@.len() == tr.len(),
            rows@.len() > 0,
            cols == spec_columns(tr),
            tr == text_rows(text@),
            forall|x: int| 0 <= x < rows@.len() ==> strings_view((#[trigger] rows@[x])@) == tr[x],
            forall|x: int| 0 <= x < rows@.len() ==> n <= (#[trigger] rows@[x])@.len(),
            r@.len() == j,
            forall|c: int| 0 <= c < j ==> text_table_view(r@)[c] == #[trigger] cols[c],
        decreases n - j,
    {
        let name = rows[0][j].clone();
        assert(name@ == tr[0][j as int]);
        let mut values: Vec<String> = Vec::new();
        let mut i: usize = 1;
        while i < rows.len()
            invariant
                1 <= i <= rows@.len(),
                j < n,
                rows@.len() == tr.len(),
                forall|x: int| 0 <= x < rows@.len() ==> strings_view((#[trigger] rows@[x])@) == tr[x],
                forall|x: int| 0 <= x < rows@.len() ==> n <= (#[trigger] rows@[x])@.len(),
                values@.len() == i - 1,
                forall|x: int| 0 <= x < i - 1 ==> (#[trigger] values@[x])@ == tr[x + 1][j as int],
            decreases rows@.len() - i,
        {
            assert(strings_view(rows@[i as int]@)[j as int] == rows@[i as int]@[j as int]@);
            values.push(rows[i][j].clone());
            i = i + 1;
        }
        let ghost entry = (name, values);
        assert(entry.1@.map_values(|w: String| w@) =~= cols[j as int].1);
        r.push((name, values));
        assert(text_table_view(r@)[j as int] == cols[j as int]);
        j = j + 1;
    }
    assert(text_table_view(r@) =~= cols);
    Some(r)
}

proof fn lemma_values_lines_none_extends(lines: Seq<Seq<char>>, k: int)
    requires
        0 <= k <= lines.len(),
        spec_values_lines(lines.subrange(0, k)) is None,
    ensures
        spec_values_lines(lines.subrange(0, lines.len() as int)) is None,
    decreases lines.len() - k,
{
    if k < lines.len() {
        assert(lines.subrange(0, k + 1).drop_last() =~= lines.subrange(0, k));
        lemma_values_lines_none_extends(lines, k + 1);
    }
}

/// `s` holds no `c`.
pub open spec fn free_of(s: Seq<char>, c: char) -> bool {
    forall|i: int| 0 <= i < s.len() ==> s[i] != c
}

proof fn lemma_split_append_free(s: Seq<char>, t: Seq<char>, c: char)
    requires
        free_of(t, c),
    ensures
        split_on(s + t, c) == split_on(s, c).update(
            split_on(s, c).len() - 1,
            split_on(s, c).last() + t,
        ),
    decreases t.len(),
{
    lemma_split_on_nonempty(s, c);
    if t.len() == 0 {
        assert(s + t =~= s);
        assert(split_on(s, c).last() + t =~= split_on(s, c).last());
        assert(split_on(s, c).update(split_on(s, c).len() - 1, split_on(s, c).last()) =~= split_on(s, c));
    } else {
        let t0 = t.drop_last();
        lemma_split_append_free(s, t0, c);
        assert((s + t).drop_last() =~= s + t0);
        assert((s + t).last() == t.last());
        let r0 = split_on(s + t0, c);
        lemma_split_on_nonempty(s + t0, c);
        assert(r0.last() =~= split_on(s, c).last() + t0);
        assert(r0.last().push(t.last()) =~= split_on(s, c).last() + t);
        assert(split_on(s + t, c) =~= split_on(s, c).update(
            split_on(s, c).len() - 1,
            split_on(s, c).last() + t,
        ));
    }
}

/// The lines `name value` of the pairs, without line ends.
pub open spec fn value_lines(pairs: Seq<(Seq<char>, Seq<char>)>) -> Seq<Seq<char>> {
    pairs.map_values(|p: (Seq<char>, Seq<char>)| p.0 + " "@ + p.1)
}

/// Names and values hold neither spaces nor line ends.
pub open spec fn plain_pairs(pairs: Seq<(Seq<char>, Seq<char>)>) -> bool {
    forall|k: int|
        0 <= k < pairs.len() ==> free_of((#[trigger] pairs[k]).0, ' ') && free_of(pairs[k].0, '\n')
            && free_of(pairs[k].1, ' ') && free_of(pairs[k].1, '\n')
}

proof fn lemma_split_values_text(pairs: Seq<(Seq<char>, Seq<char>)>)
    requires
        plain_pairs(pairs),
    ensures
        split_on(values_text(pairs), '\n') == value_lines(pairs).push(Seq::empty()),
    decreases pairs.len(),
{
    reveal_strlit(" ");
    reveal_strlit("\n");
    if pairs.len() == 0 {
        assert(split_on(Seq::empty(), '\n') =~= seq![Seq::<char>::empty()]);
        assert(value_lines(pairs).push(Seq::empty()) =~= seq![Seq::<char>::empty()]);
    } else {
        let init = pairs.drop_last();
        assert(plain_pairs(init)) by {
            assert forall|k: int| 0 <= k < init.len() implies free_of((#[trigger] init[k]).0, ' ')
                && free_of(init[k].0, '\n') && free_of(init[k].1, ' ') && free_of(init[k].1, '\n') by {
                assert(init[k] == pairs[k]);
            }
        }
        lemma_split_values_text(init);
        let p = pairs.last();
        assert(pairs[pairs.len() - 1] == p);
        let line = p.0 + " "@ + p.1;
        assert(free_of(line, '\n')) by {
            assert forall|i: int| 0 <= i < line.len() implies line[i] != '\n' by {
                if i < p.0.len() {
                    assert(line[i] == p.0[i]);
                } else if i == p.0.len() {
                    assert(line[i] == ' ');
                } else {
                    assert(line[i] == p.1[i - p.0.len() - 1]);
                }
            }
        }
        let v0 = values_text(init);
        lemma_split_append_free(v0, line, '\n');
        assert(v0 + p.0 + " "@ + p.1 =~= v0 + line);
        let full = v0 + line + "\n"@;
        assert(values_text(pairs) =~= full);
        assert(full.drop_last() =~= v0 + line);
        assert(full.last() == '\n');
        let prev = value_lines(init).push(Seq::empty());
        assert(split_on(v0 + line, '\n') =~= prev.update(prev.len() - 1, line));
        assert(value_lines(pairs) =~= value_lines(init).push(line));
        assert(split_on(full, '\n') =~= value_lines(pairs).push(Seq::empty()));
    }
}

proof fn lemma_split_line(p: (Seq<char>, Seq<char>))
    requires
        free_of(p.0, ' '),
        free_of(p.1, ' '),
    ensures
        split_on(p.0 + " "@ + p.1, ' ') == seq![p.0, p.1],
{
    reveal_strlit(" ");
    lemma_split_append_free(Seq::empty(), p.0, ' ');
    assert(Seq::<char>::empty() + p.0 =~= p.0);
    assert(split_on(Seq::empty(), ' ') =~= seq![Seq::<char>::empty()]);
    assert(split_on(p.0, ' ') =~= seq![p.0]);
    let a = p.0 + " "@;
    assert(a.drop_last() =~= p.0);
    assert(split_on(a, ' ') =~= seq![p.0, Seq::<char>::empty()]);
    lemma_split_append_free(a, p.1, ' ');
    assert(split_on(a + p.1, ' ') =~= seq![p.0, p.1]);
}

proof fn lemma_values_lines_of_pairs(pairs: Seq<(Seq<char>, Seq<char>)>)
    requires
        plain_pairs(pairs),
    ensures
        spec_values_lines(value_lines(pairs)) == Some(pairs),
    decreases pairs.len(),
{
    if pairs.len() > 0 {
        let init = pairs.drop_last();
        assert(plain_pairs(init)) by {
            assert forall|k: int| 0 <= k < init.len() implies free_of((#[trigger] init[k]).0, ' ')
                && free_of(init[k].0, '\n') && free_of(init[k].1, ' ') && free_of(init[k].1, '\n') by {
                assert(init[k] == pairs[k]);
            }
        }
        lemma_values_lines_of_pairs(init);
        assert(value_lines(pairs).drop_last() =~= value_lines(init));
        let p = pairs.last();
        assert(pairs[pairs.len() - 1] == p);
        lemma_split_line(p);
        assert(init.push(p) =~= pairs);
    }
}

/// No two line ends follow each other in `s`.
pub open spec fn no_blank(s: Seq<char>) -> bool {
    forall|i: int| 0 <= i < s.len() - 1 ==> !(#[trigger] s[i] == '\n' && s[i + 1] == '\n')
}

proof fn lemma_split_blank_prefix(a: Seq<char>, b: Seq<char>)
    requires
        no_blank(a),
        a.len() == 0 || a.last() != '\n',
    ensures
        split_blank(a + seq!['\n', '\n'] + b) == seq![a] + split_blank(b),
    decreases a.len(),
{
    let s = a + seq!['\n', '\n'] + b;
    if a.len() == 0 {
        assert(s[0] == '\n' && s[1] == '\n');
        assert(s.subrange(2, s.len() as int) =~= b);
        assert(a =~= Seq::<char>::empty());
        assert(seq![Seq::<char>::empty()] + split_blank(b) =~= seq![a] + split_blank(b));
    } else {
        let a2 = a.drop_first();
        assert(s.drop_first() =~= a2 + seq!['\n', '\n'] + b);
        assert forall|i: int| 0 <= i < a2.len() - 1 implies !(#[trigger] a2[i] == '\n' && a2[i + 1] == '\n') by {
            assert(a2[i] == a[i + 1] && a2[i + 1] == a[i + 2]);
            assert(!(a[i + 1] == '\n' && a[i + 2] == '\n'));
        }
        if a2.len() > 0 {
            assert(a2.last() == a.last());
        }
        lemma_split_blank_prefix(a2, b);
        if a.len() > 1 {
            assert(s[1] == a[1]);
            assert(!(a[0] == '\n' && a[1] == '\n'));
        } else {
            assert(s[1] == '\n');
            assert(a[0] == a.last());
        }
        let r = split_blank(s.drop_first());
        assert(r == seq![a2] + split_blank(b));
        assert(seq![s[0]] + a2 =~= a);
        assert(split_blank(s) == r.update(0, seq![s[0]] + r[0]));
        assert(r.update(0, seq![s[0]] + r[0]) =~= seq![a] + split_blank(b));
    }
}

proof fn lemma_split_join(ws: Seq<Seq<char>>, c: char)
    requires
        ws.len() > 0,
        forall|k: int| 0 <= k < ws.len() ==> free_of(#[trigger] ws[k], c),
    ensures
        split_on(join(ws, seq![c]), c) == ws,
    decreases ws.len(),
{
    if ws.len() == 1 {
        lemma_split_append_free(Seq::empty(), ws[0], c);
        assert(Seq::<char>::empty() + ws[0] =~= ws[0]);
        assert(split_on(Seq::empty(), c) =~= seq![Seq::<char>::empty()]);
        assert(split_on(ws[0], c) =~= ws);
    } else {
        let init = ws.drop_last();
        assert forall|k: int| 0 <= k < init.len() implies free_of(#[trigger] init[k], c) by {
            assert(init[k] == ws[k]);
        }
        lemma_split_join(init, c);
        let a = join(init, seq![c]) + seq![c];
        assert(a.drop_last() =~= join(init, seq![c]));
        assert(split_on(a, c) == init.push(Seq::empty()));
        assert(free_of(ws[ws.len() - 1], c));
        lemma_split_append_free(a, ws.last(), c);
        assert(join(ws, seq![c]) =~= a + ws.last());
        assert(init.push(Seq::empty()).update(init.len() as int, Seq::<char>::empty() + ws.last()) =~= ws);
    }
}

proof fn lemma_join_free(ws: Seq<Seq<char>>, sep: char, c: char)
    requires
        sep != c,
        forall|k: int| 0 <= k < ws.len() ==> free_of(#[trigger] ws[k], c),
    ensures
        free_of(join(ws, seq![sep]), c),
    decreases ws.len(),
{
    if ws.len() > 1 {
        let init = ws.drop_last();
        assert forall|k: int| 0 <= k < init.len() implies free_of(#[trigger] init[k], c) by {
            assert(init[k] == ws[k]);
        }
        lemma_join_free(init, sep, c);
        let j = join(init, seq![sep]);
        let l = ws.last();
        assert(free_of(ws[ws.len() - 1], c));
        let s = j + seq![sep] + l;
        assert forall|i: int| 0 <= i < s.len() implies s[i] != c by {
            if i < j.len() {
                assert(s[i] == j[i]);
            } else if i == j.len() {
                assert(s[i] == sep);
            } else {
                assert(s[i] == l[i - j.len() - 1]);
            }
        }
    } else if ws.len() == 1 {
        assert(free_of(ws[0], c));
    }
}

/// Joining non-empty lines free of line ends with line ends leaves no blank
/// line, and the text ends with the last line's last character.
proof fn lemma_join_lines(ws: Seq<Seq<char>>)
    requires
        ws.len() > 0,
        forall|k: int| 0 <= k < ws.len() ==> (#[trigger] ws[k]).len() > 0 && free_of(ws[k], '\n'),
    ensures
        no_blank(join(ws, seq!['\n'])),
        join(ws, seq!['\n']).len() > 0,
        join(ws, seq!['\n']).last() != '\n',
    decreases ws.len(),
{
    assert(ws[ws.len() - 1].len() > 0 && free_of(ws[ws.len() - 1], '\n'));
    let l = ws.last();
    assert(l[l.len() - 1] != '\n');
    if ws.len() == 1 {
        let s = join(ws, seq!['\n']);
        assert(s == l);
        assert forall|i: int| 0 <= i < s.len() - 1 implies !(#[trigger] s[i] == '\n' && s[i + 1] == '\n') by {
            assert(s[i] != '\n');
        }
    } else {
        let init = ws.drop_last();
        assert forall|k: int| 0 <= k < init.len() implies (#[trigger] init[k]).len() > 0 && free_of(init[k], '\n') by {
            assert(init[k] == ws[k]);
        }
        lemma_join_lines(init);
        let j = join(init, seq!['\n']);
        let s = j + seq!['\n'] + l;
        assert(join(ws, seq!['\n']) == s);
        assert(j[j.len() - 1] != '\n');
        assert(l[0] != '\n');
        assert forall|i: int| 0 <= i < s.len() - 1 implies !(#[trigger] s[i] == '\n' && s[i + 1] == '\n') by {
            if i < j.len() - 1 {
                assert(s[i] == j[i] && s[i + 1] == j[i + 1]);
                assert(!(j[i] == '\n' && j[i + 1] == '\n'));
            } else if i == j.len() - 1 {
                assert(s[i] == j[i]);
            } else if i == j.len() {
                assert(s[i + 1] == l[0]);
            } else {
                assert(s[i] == l[i - j.len() - 1]);
            }
        }
        assert(s.last() == l.last());
    }
}

/// A name or cell that reads back as written: not empty, and holding
/// neither spaces nor line ends.
pub open spec fn plain_cell(w: Seq<char>) -> bool {
    w.len() > 0 && free_of(w, ' ') && free_of(w, '\n')
}

/// A table that reads back as it was written: it has a column, every
/// column is as long as the first, and its names and cells are plain.
pub open spec fn plain_table(t: Seq<(Seq<char>, Seq<Seq<char>>)>) -> bool {
    &&& t.len() > 0
    &&& forall|k: int|
        0 <= k < t.len() ==> (#[trigger] t[k]).1.len() == t[0].1.len() && plain_cell(t[k].0)
    &&& forall|k: int, i: int|
        0 <= k < t.len() && 0 <= i < t[k].1.len() ==> plain_cell(#[trigger] t[k].1[i])
}

/// The column names of a table.
pub open spec fn table_names(t: Seq<(Seq<char>, Seq<Seq<char>>)>) -> Seq<Seq<char>> {
    t.map_values(|c: (Seq<char>, Seq<Seq<char>>)| c.0)
}

/// The lines of a table in a data file, without their line ends: the names
/// line, then one line per row.
pub open spec fn table_lines(t: Seq<(Seq<char>, Seq<Seq<char>>)>) -> Seq<Seq<char>> {
    seq![join(table_names(t), " "@)] + Seq::new(t[0].1.len(), |i: int| join(row_cells(t, i), " "@))
}

proof fn lemma_rows_text_lines(t: Seq<(Seq<char>, Seq<Seq<char>>)>, m: nat)
    requires
        t.len() > 0,
        m <= t[0].1.len(),
    ensures
        join(table_names(t), " "@) + "\n"@ + rows_text(t, m) == join(
            table_lines(t).subrange(0, m + 1int),
            "\n"@,
        ) + "\n"@,
    decreases m,
{
    let h = join(table_names(t), " "@);
    if m == 0 {
        assert(table_lines(t).subrange(0, 1) =~= seq![h]);
        assert(h + "\n"@ + rows_text(t, 0) =~= h + "\n"@);
    } else {
        lemma_rows_text_lines(t, (m - 1) as nat);
        let lines = table_lines(t).subrange(0, m + 1int);
        assert(lines.drop_last() =~= table_lines(t).subrange(0, m as int));
        assert(lines.last() == join(row_cells(t, m - 1), " "@));
        assert(h + "\n"@ + rows_text(t, m) =~= (h + "\n"@ + rows_text(t, (m - 1) as nat)) + row_line(
            t,
            m - 1,
        ));
        assert(join(lines, "\n"@) + "\n"@ =~= (join(table_lines(t).subrange(0, m as int), "\n"@)
            + "\n"@) + row_line(t, m - 1));
    }
}

proof fn lemma_join_nonempty(ws: Seq<Seq<char>>, sep: Seq<char>)
    requires
        ws.len() > 0,
        ws.last().len() > 0,
    ensures
        join(ws, sep).len() > 0,
{
    if ws.len() > 1 {
        assert(join(ws, sep) == join(ws.drop_last(), sep) + sep + ws.last());
    }
}

/// A plain table's lines are plain lines, and its text is those lines
/// joined by line ends, then a blank line and one more.
proof fn lemma_table_text_chunk(t: Seq<(Seq<char>, Seq<Seq<char>>)>)
    requires
        plain_table(t),
    ensures
        forall|k: int| 0 <= k < table_lines(t).len() ==> (#[trigger] table_lines(t)[k]).len() > 0
            && free_of(table_lines(t)[k], '\n'),
        table_text(t) == join(table_lines(t), seq!['\n']) + seq!['\n', '\n'] + seq!['\n', '\n'],
        split_on(join(table_names(t), seq![' ']), ' ') == table_names(t),
        forall|i: int|
            0 <= i < t[0].1.len() ==> split_on(join(#[trigger] row_cells(t, i), seq![' ']), ' ')
                == row_cells(t, i),
{
    reveal_strlit(" ");
    reveal_strlit("\n");
    reveal_strlit("\n\n\n");
    assert(" "@ =~= seq![' ']);
    assert("\n"@ =~= seq!['\n']);
    let n = t[0].1.len();
    let names = table_names(t);
    assert(t[0].1.len() == n);
    assert forall|k: int| 0 <= k < names.len() implies free_of(#[trigger] names[k], '\n') && free_of(
        names[k],
        ' ',
    ) && names[k].len() > 0 by {
        assert(names[k] == t[k].0);
        assert(plain_cell(t[k].0));
    }
    lemma_join_free(names, ' ', '\n');
    lemma_join_nonempty(names, seq![' ']);
    lemma_split_join(names, ' ');
    assert forall|i: int| 0 <= i < n implies split_on(join(#[trigger] row_cells(t, i), seq![' ']), ' ')
        == row_cells(t, i) && free_of(join(row_cells(t, i), seq![' ']), '\n') && join(
        row_cells(t, i),
        seq![' '],
    ).len() > 0 by {
        let cells = row_cells(t, i);
        assert forall|k: int| 0 <= k < cells.len() implies free_of(#[trigger] cells[k], '\n') && free_of(
            cells[k],
            ' ',
        ) && cells[k].len() > 0 by {
            assert(t[k].1.len() == n);
            assert(cells[k] == t[k].1[i]);
            assert(plain_cell(t[k].1[i]));
        }
        assert(cells.last() == cells[cells.len() - 1]);
        lemma_join_free(cells, ' ', '\n');
        lemma_join_nonempty(cells, seq![' ']);
        lemma_split_join(cells, ' ');
    }
    let lines = table_lines(t);
    assert forall|k: int| 0 <= k < lines.len() implies (#[trigger] lines[k]).len() > 0 && free_of(
        lines[k],
        '\n',
    ) by {
        if k > 0 {
            assert(lines[k] == join(row_cells(t, k - 1), " "@));
        }
    }
    lemma_rows_text_lines(t, n);
    assert(lines.subrange(0, n + 1int) =~= lines);
    assert(table_text(t) =~= join(lines, seq!['\n']) + seq!['\n', '\n'] + seq!['\n', '\n']);
}

/// A plain table's lines read back as the table.
proof fn lemma_chunk_reads_back(t: Seq<(Seq<char>, Seq<Seq<char>>)>)
    requires
        plain_table(t),
    ensures
        rows_reach_first(text_rows(join(table_lines(t), seq!['\n']))),
        spec_columns(text_rows(join(table_lines(t), seq!['\n']))) == t,
{
    reveal_strlit(" ");
    assert(" "@ =~= seq![' ']);
    lemma_table_text_chunk(t);
    let lines = table_lines(t);
    let n = t[0].1.len();
    lemma_split_join(lines, '\n');
    let rows = text_rows(join(lines, seq!['\n']));
    assert(rows == lines.map_values(|l: Seq<char>| split_on(l, ' ')));
    assert(rows.len() == n + 1);
    assert(rows[0] == table_names(t));
    assert forall|i: int| 0 <= i < n implies rows[i + 1] == #[trigger] row_cells(t, i) by {
        assert(lines[i + 1] == join(row_cells(t, i), " "@));
    }
    assert forall|i: int| 0 <= i < rows.len() implies rows[0].len() <= (#[trigger] rows[i]).len() by {
        if i > 0 {
            assert(rows[i] == row_cells(t, i - 1));
        }
    }
    let cols = spec_columns(rows);
    assert forall|j: int| 0 <= j < t.len() implies #[trigger] cols[j] == t[j] by {
        assert(t[j].1.len() == n);
        assert forall|i: int| 0 <= i < n implies rows[i + 1][j] == t[j].1[i] by {
            assert(rows[i + 1] == row_cells(t, i));
        }
        assert(cols[j].1 =~= t[j].1);
        assert(cols[j].0 == table_names(t)[j]);
    }
    assert(cols =~= t);
}

proof fn lemma_tables_text_front(ts: Seq<Seq<(Seq<char>, Seq<Seq<char>>)>>)
    requires
        ts.len() > 0,
    ensures
        tables_text(ts) == table_text(ts[0]) + tables_text(ts.drop_first()),
    decreases ts.len(),
{
    if ts.len() == 1 {
        assert(ts.drop_first() =~= Seq::<Seq<(Seq<char>, Seq<Seq<char>>)>>::empty());
        assert(ts.drop_last() =~= Seq::<Seq<(Seq<char>, Seq<Seq<char>>)>>::empty());
        assert(tables_text(ts) =~= table_text(ts[0]) + tables_text(ts.drop_first()));
    } else {
        let init = ts.drop_last();
        lemma_tables_text_front(init);
        assert(init[0] == ts[0]);
        assert(init.drop_first() =~= ts.drop_first().drop_last());
        assert(ts.drop_first().last() == ts.last());
        assert(tables_text(ts) =~= table_text(ts[0]) + tables_text(ts.drop_first()));
    }
}

/// What a data file gives back of what was written: its text, split at the
/// blank lines, gives for each table first the table's lines and then an
/// empty piece, and one more empty piece at the end; and the lines of each
/// table read back as that table. This holds when every table is plain
/// (see [`plain_table`]).
pub proof fn lemma_data_file_read_back(tables: Seq<Seq<(Seq<char>, Seq<Seq<char>>)>>)
    requires
        forall|k: int| 0 <= k < tables.len() ==> plain_table(#[trigger] tables[k]),
    ensures
        split_blank(tables_text(tables)).len() == 2 * tables.len() + 1,
        forall|k: int|
            0 <= k < tables.len() ==> #[trigger] rows_reach_first(
                text_rows(split_blank(tables_text(tables))[2 * k]),
            ),
        forall|k: int|
            0 <= k < tables.len() ==> spec_columns(text_rows(split_blank(tables_text(tables))[2 * k]))
                == #[trigger] tables[k] && split_blank(tables_text(tables))[2 * k + 1].len() == 0,
        split_blank(tables_text(tables))[2 * tables.len() as int].len() == 0,
    decreases tables.len(),
{
    if tables.len() == 0 {
        assert(split_blank(tables_text(tables)) == seq![Seq::<char>::empty()]);
    } else {
        let t = tables[0];
        let rest = tables.drop_first();
        assert forall|k: int| 0 <= k < rest.len() implies plain_table(#[trigger] rest[k]) by {
            assert(rest[k] == tables[k + 1]);
        }
        lemma_data_file_read_back(rest);
        lemma_tables_text_front(tables);
        lemma_table_text_chunk(t);
        lemma_chunk_reads_back(t);
        let chunk = join(table_lines(t), seq!['\n']);
        lemma_join_lines(table_lines(t));
        let tail = seq!['\n', '\n'] + tables_text(rest);
        assert(tables_text(tables) =~= chunk + seq!['\n', '\n'] + tail);
        lemma_split_blank_prefix(chunk, tail);
        lemma_split_blank_prefix(Seq::empty(), tables_text(rest));
        assert(Seq::<char>::empty() + seq!['\n', '\n'] + tables_text(rest) =~= tail);
        let pr = split_blank(tables_text(rest));
        let pieces = split_blank(tables_text(tables));
        assert(pieces =~= seq![chunk, Seq::<char>::empty()] + pr);
        assert forall|k: int| 0 <= k < tables.len() implies #[trigger] rows_reach_first(
            text_rows(split_blank(tables_text(tables))[2 * k]),
        ) by {
            if k > 0 {
                assert(pieces[2 * k] == pr[2 * (k - 1)]);
            }
        }
        assert forall|k: int| 0 <= k < tables.len() implies spec_columns(
            text_rows(split_blank(tables_text(tables))[2 * k]),
        ) == #[trigger] tables[k] && split_blank(tables_text(tables))[2 * k + 1].len() == 0 by {
            if k > 0 {
                assert(tables[k] == rest[k - 1]);
                assert(pieces[2 * k] == pr[2 * (k - 1)]);
                assert(pieces[2 * k + 1] == pr[2 * (k - 1) + 1]);
            }
        }
        assert(pieces[2 * tables.len() as int] == pr[2 * rest.len() as int]);
    }
}

/// The pieces of `ps` that hold text, in order.
pub open spec fn nonempty_pieces(ps: Seq<Seq<char>>) -> Seq<Seq<char>>
    decreases ps.len(),
{
    if ps.len() == 0 {
        ps
    } else {
        let r = nonempty_pieces(ps.drop_last());
        if ps.last().len() > 0 {
            r.push(ps.last())
        } else {
            r
        }
    }
}

proof fn lemma_nonempty_add(a: Seq<Seq<char>>, b: Seq<Seq<char>>)
    ensures
        nonempty_pieces(a + b) == nonempty_pieces(a) + nonempty_pieces(b),
    decreases b.len(),
{
    if b.len() == 0 {
        assert(a + b =~= a);
        assert(nonempty_pieces(a) + nonempty_pieces(b) =~= nonempty_pieces(a));
    } else {
        lemma_nonempty_add(a, b.drop_last());
        assert((a + b).drop_last() =~= a + b.drop_last());
        assert((a + b).last() == b.last());
        if b.last().len() > 0 {
            assert((nonempty_pieces(a) + nonempty_pieces(b.drop_last())).push(b.last()) =~= nonempty_pieces(a)
                + nonempty_pieces(b.drop_last()).push(b.last()));
        }
    }
}

/// The tables of a data file read back: the text split at its blank lines,
/// and each piece that holds text read as a table; nothing when some piece
/// has a line shorter than its first.
pub open spec fn spec_read_tables(text: Seq<char>) -> Option<Seq<Seq<(Seq<char>, Seq<Seq<char>>)>>> {
    let ps = nonempty_pieces(split_blank(text));
    if forall|k: int| 0 <= k < ps.len() ==> rows_reach_first(text_rows(#[trigger] ps[k])) {
        Some(ps.map_values(|p: Seq<char>| spec_columns(text_rows(p))))
    } else {
        None
    }
}

/// Reads the tables of a data file, as [`spec_read_tables`] states.
pub fn read_tables(text: &str) -> (r: Option<Vec<Vec<(String, Vec<String>)>>>)
    ensures
        match spec_read_tables(text@) {
            None => r is None,
            Some(ts) => r matches Some(v) && v@.map_values(
                |t: Vec<(String, Vec<String>)>| text_table_view(t@),
            ) == ts,
        },
{
    let pieces = split_tables(text);
    let ghost pv = strings_view(pieces@);
    let mut r: Vec<Vec<(String, Vec<String>)>> = Vec::new();
    let mut k: usize = 0;
    assert(pv.subrange(0, 0) =~= Seq::<Seq<char>>::empty());
    while k < pieces.len()
        invariant
            k <= pieces@.len(),
            pv == strings_view(pieces@),
            pv == split_blank(text@),
            forall|j: int|
                0 <= j < nonempty_pieces(pv.subrange(0, k as int)).len() ==> rows_reach_first(
                    text_rows(#[trigger] nonempty_pieces(pv.subrange(0, k as int))[j]),
                ),
            r@.map_values(|t: Vec<(String, Vec<String>)>| text_table_view(t@)) == nonempty_pieces(
                pv.subrange(0, k as int),
            ).map_values(|p: Seq<char>| spec_columns(text_rows(p))),
        decreases pieces@.len() - k,
    {
        let ghost pre = nonempty_pieces(pv.subrange(0, k as int));
        let ghost next = pv.subrange(0, k + 1);
        assert(next.drop_last() =~= pv.subrange(0, k as int));
        assert(next.last() == pieces@[k as int]@);
        let piece = pieces[k].as_str();
        if piece.unicode_len() > 0 {
            match parse_data_columns(piece) {
                None => {
                    proof {
                        let all = nonempty_pieces(pv);
                        assert(pv =~= next + pv.subrange(k + 1, pv.len() as int));
                        lemma_nonempty_add(next, pv.subrange(k + 1, pv.len() as int));
                        assert(nonempty_pieces(next) == pre.push(piece@));
                        assert(all[pre.len() as int] == piece@);
                        assert(!rows_reach_first(text_rows(all[pre.len() as int])));
                    }
                    return None;
                },
                Some(t) => {
                    let ghost before = r@.map_values(|t: Vec<(String, Vec<String>)>| text_table_view(t@));
                    r.push(t);
                    assert(r@.map_values(|t: Vec<(String, Vec<String>)>| text_table_view(t@)) =~= before.push(
                        spec_columns(text_rows(piece@)),
                    ));
                    assert(nonempty_pieces(next) == pre.push(piece@));
                    assert(nonempty_pieces(next).map_values(|p: Seq<char>| spec_columns(text_rows(p)))
                        =~= pre.map_values(|p: Seq<char>| spec_columns(text_rows(p))).push(
                        spec_columns(text_rows(piece@)),
                    ));
                    assert forall|j: int| 0 <= j < nonempty_pieces(next).len() implies rows_reach_first(
                        text_rows(#[trigger] nonempty_pieces(next)[j]),
                    ) by {
                        if j < pre.len() {
                            assert(nonempty_pieces(next)[j] == pre[j]);
                        }
                    }
                },
            }
        } else {
            assert(nonempty_pieces(next) == pre);
        }
        k = k + 1;
    }
    assert(pv.subrange(0, k as int) =~= pv);
    Some(r)
}

proof fn lemma_table_chunks(tables: Seq<Seq<(Seq<char>, Seq<Seq<char>>)>>)
    requires
        forall|k: int| 0 <= k < tables.len() ==> plain_table(#[trigger] tables[k]),
    ensures
        nonempty_pieces(split_blank(tables_text(tables))) == tables.map_values(
            |t: Seq<(Seq<char>, Seq<Seq<char>>)>| join(table_lines(t), seq!['\n']),
        ),
    decreases tables.len(),
{
    if tables.len() == 0 {
        assert(split_blank(tables_text(tables)) == seq![Seq::<char>::empty()]);
        assert(seq![Seq::<char>::empty()].drop_last() =~= Seq::<Seq<char>>::empty());
        let e = seq![Seq::<char>::empty()];
        assert(e.last().len() == 0);
        assert(nonempty_pieces(e.drop_last()) == e.drop_last());
        assert(nonempty_pieces(e) =~= Seq::<Seq<char>>::empty());
    } else {
        let t = tables[0];
        let rest = tables.drop_first();
        assert forall|k: int| 0 <= k < rest.len() implies plain_table(#[trigger] rest[k]) by {
            assert(rest[k] == tables[k + 1]);
        }
        lemma_table_chunks(rest);
        lemma_tables_text_front(tables);
        lemma_table_text_chunk(t);
        let chunk = join(table_lines(t), seq!['\n']);
        lemma_join_lines(table_lines(t));
        let tail = seq!['\n', '\n'] + tables_text(rest);
        assert(tables_text(tables) =~= chunk + seq!['\n', '\n'] + tail);
        lemma_split_blank_prefix(chunk, tail);
        lemma_split_blank_prefix(Seq::empty(), tables_text(rest));
        assert(Seq::<char>::empty() + seq!['\n', '\n'] + tables_text(rest) =~= tail);
        let pr = split_blank(tables_text(rest));
        let pieces = split_blank(tables_text(tables));
        assert(pieces =~= seq![chunk, Seq::<char>::empty()] + pr);
        lemma_nonempty_add(seq![chunk, Seq::<char>::empty()], pr);
        let two = seq![chunk, Seq::<char>::empty()];
        assert(two.drop_last() =~= seq![chunk]);
        assert(seq![chunk].drop_last() =~= Seq::<Seq<char>>::empty());
        let one = seq![chunk];
        assert(one.last() == chunk);
        assert(nonempty_pieces(one.drop_last()) == one.drop_last());
        assert(nonempty_pieces(one) =~= seq![chunk]);
        assert(nonempty_pieces(two) =~= seq![chunk]);
        let f = |t: Seq<(Seq<char>, Seq<Seq<char>>)>| join(table_lines(t), seq!['\n']);
        assert(tables.map_values(f) =~= seq![chunk] + rest.map_values(f));
    }
}

/// What a data file gives back of what was written: reading the text of
/// `tables` gives `tables` again, when every table is plain (see
/// [`plain_table`]).
pub proof fn lemma_tables_read_back(tables: Seq<Seq<(Seq<char>, Seq<Seq<char>>)>>)
    requires
        forall|k: int| 0 <= k < tables.len() ==> plain_table(#[trigger] tables[k]),
    ensures
        spec_read_tables(tables_text(tables)) == Some(tables),
{
    lemma_table_chunks(tables);
    let ps = nonempty_pieces(split_blank(tables_text(tables)));
    assert forall|k: int| 0 <= k < ps.len() implies rows_reach_first(text_rows(#[trigger] ps[k])) && spec_columns(
        text_rows(ps[k]),
    ) == tables[k] by {
        lemma_chunk_reads_back(tables[k]);
    }
    assert(ps.map_values(|p: Seq<char>| spec_columns(text_rows(p))) =~= tables);
}

/// What a values file gives back of what was written: reading the text of
/// `pairs` gives `pairs` again, when names and values hold neither spaces
/// nor line ends.
pub proof fn lemma_values_file_read_back(pairs: Seq<(Seq<char>, Seq<char>)>)
    requires
        plain_pairs(pairs),
    ensures
        spec_values_lines(value_file_lines(values_text(pairs))) == Some(pairs),
{
    lemma_split_values_text(pairs);
    let lines = split_on(values_text(pairs), '\n');
    assert(lines.drop_last() =~= value_lines(pairs));
    lemma_values_lines_of_pairs(pairs);
}

} // verus!
