//! Keyed tables: a vector of rows whose keys are unique, seen as a map from
//! key to row.  Shared by the local store and the token store.
use vstd::prelude::*;

verus! {

/// A row of a keyed table.
pub trait Row: View + Sized {
    type Key;

    /// The primary key of the row.
    spec fn key(&self) -> Self::Key;
}

/// No two rows share a key.
pub open spec fn unique_keys<R: Row>(rows: Seq<R>) -> bool {
    forall|i: int, j: int| 0 <= i < j < rows.len() ==> rows[i].key() != rows[j].key()
}

/// Some row has key `k`.
pub open spec fn has_key<R: Row>(rows: Seq<R>, k: R::Key) -> bool {
    exists|i: int| 0 <= i < rows.len() && rows[i].key() == k
}

/// The table as a map from key to the row's view.
pub open spec fn table<R: Row>(rows: Seq<R>) -> Map<R::Key, R::V> {
    Map::new(
        |k: R::Key| has_key(rows, k),
        |k: R::Key| rows[choose|i: int| 0 <= i < rows.len() && rows[i].key() == k].view(),
    )
}

/// The row at `i` is what the table holds under its key.
pub proof fn lemma_table_at<R: Row>(rows: Seq<R>, i: int)
    requires
        unique_keys(rows),
        0 <= i < rows.len(),
    ensures
        table(rows).contains_key(rows[i].key()),
        table(rows)[rows[i].key()] == rows[i].view(),
{
    let k = rows[i].key();
    assert(has_key(rows, k));
    let j = choose|j: int| 0 <= j < rows.len() && rows[j].key() == k;
    if j != i {
        if j < i {
            assert(rows[j].key() != rows[i].key());
        } else {
            assert(rows[i].key() != rows[j].key());
        }
    }
}

/// Appending a row with a new key inserts it into the table.
pub proof fn lemma_table_push<R: Row>(rows: Seq<R>, r: R)
    requires
        unique_keys(rows),
        !has_key(rows, r.key()),
    ensures
        unique_keys(rows.push(r)),
        table(rows.push(r)) == table(rows).insert(r.key(), r.view()),
{
    let t = rows.push(r);
    assert forall|i: int, j: int| 0 <= i < j < t.len() implies t[i].key() != t[j].key() by {
        if j == rows.len() {
            assert(t[i] == rows[i]);
        } else {
            assert(t[i] == rows[i] && t[j] == rows[j]);
        }
    }
    lemma_table_at(t, rows.len() as int);
    assert forall|k: R::Key| #[trigger] has_key(t, k) <==> (has_key(rows, k) || k == r.key()) by {
        if has_key(rows, k) {
            let i = choose|i: int| 0 <= i < rows.len() && rows[i].key() == k;
            assert(t[i] == rows[i]);
        }
        if has_key(t, k) && k != r.key() {
            let i = choose|i: int| 0 <= i < t.len() && t[i].key() == k;
            assert(t[i] == rows[i]);
        }
    }
    assert forall|k: R::Key| #[trigger] has_key(rows, k) implies table(t)[k] == table(rows)[k] by {
        let i = choose|i: int| 0 <= i < rows.len() && rows[i].key() == k;
        lemma_table_at(rows, i);
        assert(t[i] == rows[i]);
        lemma_table_at(t, i);
    }
    assert(table(t) =~= table(rows).insert(r.key(), r.view()));
}

/// Replacing a row by one with the same key updates the table there.
pub proof fn lemma_table_update<R: Row>(rows: Seq<R>, i: int, r: R)
    requires
        unique_keys(rows),
        0 <= i < rows.len(),
        r.key() == rows[i].key(),
    ensures
        unique_keys(rows.update(i, r)),
        table(rows.update(i, r)) == table(rows).insert(r.key(), r.view()),
{
    let t = rows.update(i, r);
    assert forall|a: int, b: int| 0 <= a < b < t.len() implies t[a].key() != t[b].key() by {
        assert(t[a].key() == rows[a].key());
        assert(t[b].key() == rows[b].key());
    }
    assert forall|k: R::Key| #[trigger] has_key(t, k) <==> has_key(rows, k) by {
        if has_key(rows, k) {
            let j = choose|j: int| 0 <= j < rows.len() && rows[j].key() == k;
            assert(t[j].key() == k);
        }
        if has_key(t, k) {
            let j = choose|j: int| 0 <= j < t.len() && t[j].key() == k;
            assert(rows[j].key() == k);
        }
    }
    lemma_table_at(t, i);
    assert forall|k: R::Key| #[trigger] has_key(rows, k) && k != r.key() implies table(t)[k]
        == table(rows)[k] by {
        let j = choose|j: int| 0 <= j < rows.len() && rows[j].key() == k;
        lemma_table_at(rows, j);
        lemma_table_at(t, j);
    }
    assert(table(t) =~= table(rows).insert(r.key(), r.view()));
}

/// Growing a prefix of a table by one row inserts that row.
pub proof fn lemma_table_take_step<R: Row>(rows: Seq<R>, i: int)
    requires
        unique_keys(rows),
        0 <= i < rows.len(),
    ensures
        unique_keys(rows.take(i)),
        !has_key(rows.take(i), rows[i].key()),
        rows.take(i + 1) == rows.take(i).push(rows[i]),
        table(rows.take(i + 1)) == table(rows.take(i)).insert(rows[i].key(), rows[i].view()),
{
    let p = rows.take(i);
    assert forall|a: int, b: int| 0 <= a < b < p.len() implies p[a].key() != p[b].key() by {
        assert(p[a] == rows[a] && p[b] == rows[b]);
    }
    if has_key(p, rows[i].key()) {
        let j = choose|j: int| 0 <= j < p.len() && p[j].key() == rows[i].key();
        assert(p[j] == rows[j]);
    }
    assert(rows.take(i + 1) =~= p.push(rows[i]));
    lemma_table_push(p, rows[i]);
}

/// One step of copying the rows whose key lies in `keep`.
pub proof fn lemma_retain_step<R: Row>(rows: Seq<R>, i: int, out: Seq<R>, keep: Set<R::Key>)
    requires
        unique_keys(rows),
        0 <= i < rows.len(),
        unique_keys(out),
        table(out) == table(rows.take(i)).restrict(keep),
    ensures
        keep.contains(rows[i].key()) ==> unique_keys(out.push(rows[i])) && table(out.push(rows[i]))
            == table(rows.take(i + 1)).restrict(keep),
        !keep.contains(rows[i].key()) ==> table(out) == table(rows.take(i + 1)).restrict(keep),
{
    lemma_table_take_step(rows, i);
    let k = rows[i].key();
    if keep.contains(k) {
        if has_key(out, k) {
            let j = choose|j: int| 0 <= j < out.len() && out[j].key() == k;
            lemma_table_at(out, j);
        }
        lemma_table_push(out, rows[i]);
        assert(table(out.push(rows[i])) =~= table(rows.take(i + 1)).restrict(keep));
    } else {
        assert(table(out) =~= table(rows.take(i + 1)).restrict(keep));
    }
}

/// The whole table is its longest prefix.
pub proof fn lemma_take_all<R>(rows: Seq<R>)
    ensures
        rows.take(rows.len() as int) == rows,
{
    assert(rows.take(rows.len() as int) =~= rows);
}

/// The table of no rows is empty.
pub proof fn lemma_table_empty<R: Row>(rows: Seq<R>)
    requires
        rows.len() == 0,
    ensures
        unique_keys(rows),
        table(rows) == Map::<R::Key, R::V>::empty(),
{
    assert(table(rows) =~= Map::<R::Key, R::V>::empty());
}

} // verus!
