//! Putting the rows of a table in the order of a text column.

use vstd::prelude::*;

use crate::text::{comes_before, law_text_order_is_total, text_before};

verus! {

/// The texts of a column.
pub open spec fn column(keys: Seq<&str>) -> Seq<Seq<char>> {
    keys.map_values(|key: &str| key@)
}

/// Whether row `a` comes before row `b`: by its key, and among equal keys by its
/// place in the table.
pub open spec fn row_before(keys: Seq<Seq<char>>, a: int, b: int) -> bool {
    text_before(keys[a], keys[b]) || (keys[a] == keys[b] && a < b)
}

/// Whether the rows stand in order, each once.
pub open spec fn in_order(keys: Seq<Seq<char>>, rows: Seq<int>) -> bool {
    forall|i: int, j: int|
        0 <= i < j < rows.len() ==> row_before(keys, #[trigger] rows[i], #[trigger] rows[j])
}

/// Whether `rows` are the rows of a table with column `keys` for which `picked`
/// holds, in the order of that column.
pub open spec fn listing(
    keys: Seq<Seq<char>>,
    picked: spec_fn(int) -> bool,
    rows: Seq<int>,
) -> bool {
    &&& in_order(keys, rows)
    &&& forall|i: int|
        0 <= i < rows.len() ==> 0 <= #[trigger] rows[i] < keys.len() && picked(rows[i])
    &&& forall|row: int|
        0 <= row < keys.len() && #[trigger] picked(row) ==> rows.contains(row)
}

/// Row numbers as integers.
pub open spec fn numbers(rows: Seq<usize>) -> Seq<int> {
    rows.map_values(|row: usize| row as int)
}

proof fn lemma_row_order(keys: Seq<Seq<char>>, a: int, b: int, c: int)
    ensures
        !row_before(keys, a, a),
        row_before(keys, a, b) && row_before(keys, b, c) ==> row_before(keys, a, c),
        a != b ==> row_before(keys, a, b) || row_before(keys, b, a),
{
    law_text_order_is_total(keys[a], keys[b], keys[c]);
    law_text_order_is_total(keys[b], keys[a], keys[c]);
}

fn row_comes_before(keys: &Vec<&str>, a: usize, b: usize) -> (r: bool)
    requires
        a < keys@.len(),
        b < keys@.len(),
    ensures
        r == row_before(column(keys@), a as int, b as int),
{
    proof {
        law_text_order_is_total(keys@[a as int]@, keys@[b as int]@, keys@[a as int]@);
    }
    if comes_before(keys[a], keys[b]) {
        true
    } else if comes_before(keys[b], keys[a]) {
        false
    } else {
        a < b
    }
}

/// Puts `row` where it belongs among `rows`.
fn insert_row(keys: &Vec<&str>, rows: &mut Vec<usize>, row: usize)
    requires
        row < keys@.len(),
        forall|i: int| 0 <= i < old(rows)@.len() ==> #[trigger] old(rows)@[i] < keys@.len(),
        !old(rows)@.contains(row),
        in_order(column(keys@), numbers(old(rows)@)),
    ensures
        in_order(column(keys@), numbers(final(rows)@)),
        forall|x: usize| final(rows)@.contains(x) <==> old(rows)@.contains(x) || x == row,
        final(rows)@.len() == old(rows)@.len() + 1,
{
    let ghost k = column(keys@);
    let ghost before = rows@;
    let mut p: usize = rows.len();
    while p > 0 && row_comes_before(keys, row, rows[p - 1])
        invariant
            p <= rows@.len(),
            rows@ == before,
            k == column(keys@),
            row < keys@.len(),
            forall|i: int| 0 <= i < before.len() ==> #[trigger] before[i] < keys@.len(),
            forall|j: int| p <= j < before.len() ==> row_before(k, row as int, #[trigger] before[j] as int),
        decreases p,
    {
        p = p - 1;
    }
    rows.insert(p, row);
    proof {
        let after = rows@;
        assert(after =~= before.take(p as int).push(row) + before.skip(p as int));
        let olds = numbers(before);
        let news = numbers(after);
        assert forall|j: int| 0 <= j < p implies row_before(k, olds[j], row as int) by {
            assert(before[j] != row);
            assert(!row_before(k, row as int, olds[p - 1]));
            assert(before[p - 1] != row);
            lemma_row_order(k, row as int, olds[p - 1], row as int);
            if j < p - 1 {
                assert(row_before(k, olds[j], olds[p - 1]));
                lemma_row_order(k, olds[j], olds[p - 1], row as int);
            }
        }
        assert forall|i: int, j: int| 0 <= i < j < news.len() implies row_before(
            k,
            #[trigger] news[i],
            #[trigger] news[j],
        ) by {
            if j < p {
                assert(news[i] == olds[i] && news[j] == olds[j]);
            } else if j == p {
                assert(news[i] == olds[i] && news[j] == row);
            } else if i < p {
                assert(news[i] == olds[i] && news[j] == olds[j - 1]);
            } else if i == p {
                assert(news[i] == row && news[j] == olds[j - 1]);
                assert(before[j - 1] == olds[j - 1]);
            } else {
                assert(news[i] == olds[i - 1] && news[j] == olds[j - 1]);
            }
        }
        assert forall|x: usize| after.contains(x) <==> before.contains(x) || x == row by {
            if before.contains(x) {
                let i = choose|i: int| 0 <= i < before.len() && before[i] == x;
                if i < p {
                    assert(after[i] == x);
                } else {
                    assert(after[i + 1] == x);
                }
            }
            if x == row {
                assert(after[p as int] == x);
            }
            if after.contains(x) {
                let i = choose|i: int| 0 <= i < after.len() && after[i] == x;
                if i < p {
                    assert(before[i] == x);
                } else if i > p {
                    assert(before[i - 1] == x);
                }
            }
        }
    }
}

/// The rows marked in `picked`, in the order of the column `keys`.
pub(crate) fn sorted_rows(keys: &Vec<&str>, picked: &Vec<bool>) -> (r: Vec<usize>)
    requires
        keys@.len() == picked@.len(),
    ensures
        listing(column(keys@), |row: int| picked@[row], numbers(r@)),
{
    let ghost k = column(keys@);
    let ghost p = |row: int| picked@[row];
    let mut rows: Vec<usize> = Vec::new();
    let mut i: usize = 0;
    while i < keys.len()
        invariant
            i <= keys@.len(),
            keys@.len() == picked@.len(),
            k == column(keys@),
            in_order(k, numbers(rows@)),
            forall|x: usize| #[trigger] rows@.contains(x) <==> x < i && picked@[x as int],
        decreases keys@.len() - i,
    {
        assert forall|j: int| 0 <= j < rows@.len() implies #[trigger] rows@[j] < keys@.len() by {
            assert(rows@.contains(rows@[j]));
        }
        assert(!rows@.contains(i));
        if picked[i] {
            insert_row(keys, &mut rows, i);
        }
        i = i + 1;
    }
    proof {
        let order = numbers(rows@);
        assert forall|j: int| 0 <= j < order.len() implies 0 <= #[trigger] order[j] < k.len()
            && p(order[j]) by {
            assert(rows@.contains(rows@[j]));
        }
        assert forall|row: int| 0 <= row < k.len() && #[trigger] p(row) implies order.contains(
            row,
        ) by {
            assert(rows@.contains(row as usize));
            let j = choose|j: int| 0 <= j < rows@.len() && rows@[j] == row as usize;
            assert(order[j] == row);
        }
    }
    rows
}

/// There is one listing only: which rows are picked, and the column, determine
/// it.
pub proof fn law_listing_is_unique(
    keys: Seq<Seq<char>>,
    picked: spec_fn(int) -> bool,
    a: Seq<int>,
    b: Seq<int>,
)
    requires
        listing(keys, picked, a),
        listing(keys, picked, b),
    ensures
        a == b,
{
    assert forall|x: int| a.contains(x) implies b.contains(x) by {
        let i = choose|i: int| 0 <= i < a.len() && a[i] == x;
        assert(picked(a[i]));
    }
    assert forall|x: int| b.contains(x) implies a.contains(x) by {
        let i = choose|i: int| 0 <= i < b.len() && b[i] == x;
        assert(picked(b[i]));
    }
    lemma_same_rows_in_order(keys, a, b);
}

proof fn lemma_same_rows_in_order(keys: Seq<Seq<char>>, a: Seq<int>, b: Seq<int>)
    requires
        in_order(keys, a),
        in_order(keys, b),
        forall|x: int| a.contains(x) <==> b.contains(x),
    ensures
        a == b,
    decreases a.len(),
{
    if a.len() == 0 {
        if b.len() > 0 {
            assert(b.contains(b[0]));
        }
        assert(a =~= b);
    } else {
        assert(a.contains(a[0]));
        assert(b.contains(a[0]));
        let j = choose|j: int| 0 <= j < b.len() && b[j] == a[0];
        assert(b.contains(b[0]));
        assert(a.contains(b[0]));
        let i = choose|i: int| 0 <= i < a.len() && a[i] == b[0];
        lemma_row_order(keys, a[0], b[0], a[0]);
        assert(a[0] == b[0]);
        let x = a.drop_first();
        let y = b.drop_first();
        assert forall|r: int| x.contains(r) <==> y.contains(r) by {
            lemma_row_order(keys, a[0], a[0], a[0]);
            if x.contains(r) {
                let k = choose|k: int| 0 <= k < x.len() && x[k] == r;
                assert(a[k + 1] == r);
                assert(row_before(keys, a[0], a[k + 1]));
                assert(b.contains(r));
                let m = choose|m: int| 0 <= m < b.len() && b[m] == r;
                assert(m > 0);
                assert(y[m - 1] == r);
            }
            if y.contains(r) {
                let k = choose|k: int| 0 <= k < y.len() && y[k] == r;
                assert(b[k + 1] == r);
                assert(row_before(keys, b[0], b[k + 1]));
                assert(a.contains(r));
                let m = choose|m: int| 0 <= m < a.len() && a[m] == r;
                assert(m > 0);
                assert(x[m - 1] == r);
            }
        }
        assert forall|p: int, q: int| 0 <= p < q < x.len() implies row_before(
            keys,
            #[trigger] x[p],
            #[trigger] x[q],
        ) by {
            assert(row_before(keys, a[p + 1], a[q + 1]));
        }
        assert forall|p: int, q: int| 0 <= p < q < y.len() implies row_before(
            keys,
            #[trigger] y[p],
            #[trigger] y[q],
        ) by {
            assert(row_before(keys, b[p + 1], b[q + 1]));
        }
        lemma_same_rows_in_order(keys, x, y);
        assert(a =~= seq![a[0]] + x);
        assert(b =~= seq![b[0]] + y);
    }
}

} // verus!
