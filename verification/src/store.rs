//! The score store: the rows a bound table holds, the statements that act on
//! it, and the order in which scores are listed.
//!
//! The store models exactly one table.  Its name is validated against an
//! alphanumeric/underscore allow-list before it may appear in statement text;
//! row values never appear in statement text at all — they travel as bound
//! parameters.

use crate::score::{insert_values_text, schema_text, score_wf, Score, ScoreV};
use crate::text::str_eq;
use vstd::prelude::*;
use vstd::seq_lib::group_to_multiset_ensures;
use vstd::string::{StrSliceExecFns, StringExecFns};

verus! {

/// Characters a table name may hold: ASCII letters, digits and underscore.
pub open spec fn valid_table_char(c: char) -> bool {
    ||| 48 <= c as int <= 57
    ||| 65 <= c as int <= 90
    ||| 97 <= c as int <= 122
    ||| c == '_'
}

/// A table name is non-empty and holds only allow-listed characters; only
/// such a name may be interpolated into statement text.
pub open spec fn valid_table_name(s: Seq<char>) -> bool {
    s.len() > 0 && forall|i: int| 0 <= i < s.len() ==> valid_table_char(#[trigger] s[i])
}

/// Check a table name against the allow-list.
pub fn table_name_ok(s: &str) -> (r: bool)
    ensures
        r == valid_table_name(s@),
{
    let n = s.unicode_len();
    if n == 0 {
        return false;
    }
    let mut i: usize = 0;
    while i < n
        invariant
            n == s@.len(),
            i <= n,
            forall|j: int| 0 <= j < i ==> valid_table_char(#[trigger] s@[j]),
        decreases n - i,
    {
        let c = s.get_char(i);
        let v = c as u32;
        let ok = (48 <= v && v <= 57) || (65 <= v && v <= 90) || (97 <= v && v <= 122) || c
            == '_';
        if !ok {
            return false;
        }
        i += 1;
    }
    true
}

/// A sort column must name a column of the score schema.
pub open spec fn valid_sort_column(s: Seq<char>) -> bool {
    ||| s == "id"@
    ||| s == "name"@
    ||| s == "command"@
    ||| s == "time_ns"@
}

/// Check a requested sort column against the score schema's columns.
pub fn sort_column_ok(s: &str) -> (r: bool)
    ensures
        r == valid_sort_column(s@),
{
    str_eq(s, "id") || str_eq(s, "name") || str_eq(s, "command") || str_eq(s, "time_ns")
}

/// Why a store operation cannot be carried out.
#[derive(Clone, Copy, Debug, PartialEq, Eq, Structural)]
pub enum StoreError {
    /// The database cannot be reached or refuses the credentials.
    ConnectionError,
    /// The table cannot be created or bound: a conflicting schema, or a table
    /// name outside the allow-list.
    SchemaError,
    /// An insert or clear statement failed.
    WriteError,
    /// A select statement failed, or the requested sort column is not part of
    /// the schema.
    ReadError,
}

pub open spec fn store_error_text(e: StoreError) -> Seq<char> {
    match e {
        StoreError::ConnectionError => "cannot connect to the database"@,
        StoreError::SchemaError => "cannot bind the score table"@,
        StoreError::WriteError => "cannot write to the score table"@,
        StoreError::ReadError => "cannot read from the score table"@,
    }
}

impl StoreError {
    /// A human-readable account of the failure.
    pub fn message(&self) -> (r: String)
        ensures
            r@ == store_error_text(*self),
    {
        match self {
            StoreError::ConnectionError => String::from_str("cannot connect to the database"),
            StoreError::SchemaError => String::from_str("cannot bind the score table"),
            StoreError::WriteError => String::from_str("cannot write to the score table"),
            StoreError::ReadError => String::from_str("cannot read from the score table"),
        }
    }
}

/// The mathematical value of a [`Store`]: the bound table name and the rows
/// the table holds, in insertion order.
pub struct StoreV {
    pub table: Seq<char>,
    pub rows: Seq<ScoreV>,
}

/// Every row of a well-formed store is itself well formed, and the bound
/// table name passed the allow-list.
pub open spec fn store_wf(s: StoreV) -> bool {
    &&& valid_table_name(s.table)
    &&& forall|i: int| 0 <= i < s.rows.len() ==> score_wf(#[trigger] s.rows[i])
}

/// The persistence model for one named score table: the rows it holds in
/// insertion order, and the statements that create, fill, read and clear it.
pub struct Store {
    table: String,
    rows: Vec<Score>,
}

impl View for Store {
    type V = StoreV;

    closed spec fn view(&self) -> StoreV {
        StoreV { table: self.table@, rows: self.rows.deep_view() }
    }
}

/// Ascending comparison of rows by their duration.
pub open spec fn time_sorted(s: Seq<ScoreV>) -> bool {
    forall|i: int, j: int| #![trigger s[i], s[j]] 0 <= i <= j < s.len() ==> s[i].time_ns
        <= s[j].time_ns
}

/// Insert `x` behind every row whose duration does not exceed `x`'s: the
/// stable insertion step.
pub open spec fn insert_in_order(s: Seq<ScoreV>, x: ScoreV) -> Seq<ScoreV>
    decreases s.len(),
{
    if s.len() == 0 {
        seq![x]
    } else if s.last().time_ns <= x.time_ns {
        s.push(x)
    } else {
        insert_in_order(s.drop_last(), x).push(s.last())
    }
}

/// Stable sort ascending by duration: rows of equal duration keep their
/// insertion order.
pub open spec fn sort_by_time(s: Seq<ScoreV>) -> Seq<ScoreV>
    decreases s.len(),
{
    if s.len() == 0 {
        Seq::<ScoreV>::empty()
    } else {
        insert_in_order(sort_by_time(s.drop_last()), s.last())
    }
}

proof fn lemma_insert_in_order_position(s: Seq<ScoreV>, x: ScoreV, j: int)
    requires
        0 <= j <= s.len(),
        forall|k: int| j <= k < s.len() ==> #[trigger] s[k].time_ns > x.time_ns,
        j > 0 ==> s[j - 1].time_ns <= x.time_ns,
    ensures
        insert_in_order(s, x) == s.take(j).push(x) + s.skip(j),
    decreases s.len(),
{
    if j == s.len() {
        if s.len() == 0 {
            assert(insert_in_order(s, x) =~= s.take(j).push(x) + s.skip(j));
        } else {
            assert(s.last().time_ns <= x.time_ns);
            assert(insert_in_order(s, x) =~= s.take(j).push(x) + s.skip(j));
        }
    } else {
        let d = s.drop_last();
        assert(s[s.len() - 1].time_ns > x.time_ns);
        assert(forall|k: int| j <= k < d.len() ==> #[trigger] d[k].time_ns > x.time_ns);
        lemma_insert_in_order_position(d, x, j);
        assert(insert_in_order(s, x) == insert_in_order(d, x).push(s.last()));
        assert((d.take(j).push(x) + d.skip(j)).push(s.last()) =~= s.take(j).push(x) + s.skip(j));
    }
}

/// Inserting into a sorted row sequence keeps it sorted, adds exactly the new
/// row to its contents, and grows it by one.
pub proof fn lemma_insert_in_order_props(s: Seq<ScoreV>, x: ScoreV)
    requires
        time_sorted(s),
    ensures
        time_sorted(insert_in_order(s, x)),
        insert_in_order(s, x).to_multiset() == s.to_multiset().insert(x),
        insert_in_order(s, x).len() == s.len() + 1,
    decreases s.len(),
{
    broadcast use group_to_multiset_ensures;

    if s.len() == 0 {
        assert(insert_in_order(s, x) =~= s.push(x));
        assert(s.push(x).to_multiset() =~= s.to_multiset().insert(x));
    } else if s.last().time_ns <= x.time_ns {
        assert(forall|i: int| 0 <= i < s.len() ==> #[trigger] s[i].time_ns <= x.time_ns);
        assert(time_sorted(s.push(x)));
    } else {
        let d = s.drop_last();
        let last = s.last();
        assert(time_sorted(d));
        lemma_insert_in_order_props(d, x);
        let r0 = insert_in_order(d, x);
        // every row of `r0` is `x` or a row of `d`, so none exceeds `last`
        assert forall|i: int| 0 <= i < r0.len() implies r0[i].time_ns <= last.time_ns by {
            assert(r0.contains(r0[i]));
            assert(r0.to_multiset().count(r0[i]) > 0);
            if r0[i] != x {
                assert(d.to_multiset().count(r0[i]) > 0);
                assert(d.contains(r0[i]));
                let k = choose|k: int| 0 <= k < d.len() && d[k] == r0[i];
                assert(s[k].time_ns <= s[s.len() - 1].time_ns);
            }
        }
        assert(time_sorted(r0.push(last)));
        // contents: commute the two insertions
        assert(s =~= d.push(last));
        assert(s.to_multiset() == d.to_multiset().insert(last));
        assert(r0.push(last).to_multiset() =~= r0.to_multiset().insert(last));
        assert(d.to_multiset().insert(x).insert(last) =~= d.to_multiset().insert(last).insert(x));
    }
}

/// Sorting the rows neither adds, drops nor duplicates any of them, and the
/// result is ascending by duration.
pub proof fn lemma_sort_by_time_props(s: Seq<ScoreV>)
    ensures
        time_sorted(sort_by_time(s)),
        sort_by_time(s).to_multiset() == s.to_multiset(),
        sort_by_time(s).len() == s.len(),
    decreases s.len(),
{
    broadcast use group_to_multiset_ensures;

    if s.len() == 0 {
    } else {
        let d = s.drop_last();
        lemma_sort_by_time_props(d);
        lemma_insert_in_order_props(sort_by_time(d), s.last());
        assert(s =~= d.push(s.last()));
        assert(s.to_multiset() == d.to_multiset().insert(s.last()));
        assert(sort_by_time(d).to_multiset().insert(s.last()) == d.to_multiset().insert(s.last()));
    }
}

/// Round trip: a score just inserted appears among the listed scores.
pub proof fn lemma_insert_then_get_contains(rows: Seq<ScoreV>, x: ScoreV)
    ensures
        sort_by_time(rows.push(x)).contains(x),
{
    broadcast use group_to_multiset_ensures;

    lemma_sort_by_time_props(rows.push(x));
    assert(rows.push(x).to_multiset() =~= rows.to_multiset().insert(x));
    assert(sort_by_time(rows.push(x)).to_multiset().count(x) > 0);
}

/// Clearing the table leaves nothing to list.
pub proof fn lemma_clear_then_get_empty(s: StoreV)
    requires
        s.rows.len() == 0,
    ensures
        sort_by_time(s.rows) == Seq::<ScoreV>::empty(),
{
}

/// The statement a score table is created with: idempotent by its
/// `if not exists` clause.
pub open spec fn create_table_text(table: Seq<char>) -> Seq<char> {
    "CREATE TABLE if not exists "@ + table + " ( "@ + schema_text() + " )"@
}

/// The parameterized insert statement for the bound table.
pub open spec fn insert_text(table: Seq<char>) -> Seq<char> {
    "INSERT INTO "@ + table + " "@ + insert_values_text()
}

/// The select statement for the bound table and a validated sort column.
pub open spec fn select_text(table: Seq<char>, sort: Seq<char>) -> Seq<char> {
    "SELECT name, command, time_ns FROM "@ + table + " ORDER BY "@ + sort + " ASC"@
}

/// The statement that clears all rows of the bound table.
pub open spec fn clear_text(table: Seq<char>) -> Seq<char> {
    "DELETE FROM "@ + table
}

fn insert_sorted(out: &mut Vec<Score>, x: Score)
    ensures
        final(out).deep_view() == insert_in_order(old(out).deep_view(), x@),
{
    let mut j: usize = out.len();
    while j > 0 && out[j - 1].time_ns > x.time_ns
        invariant
            j <= out.len(),
            *out == *old(out),
            forall|k: int| j <= k < out.deep_view().len() ==> #[trigger] out.deep_view()[k].time_ns
                > x@.time_ns,
        decreases j,
    {
        j -= 1;
    }
    proof {
        lemma_insert_in_order_position(out.deep_view(), x@, j as int);
    }
    let ghost prev = out.deep_view();
    out.insert(j, x);
    proof {
        assert(out.deep_view() =~= prev.take(j as int).push(x@) + prev.skip(j as int));
    }
}

impl Store {
    /// Bind the store to `table`, whose current rows are `existing` — empty
    /// for a table that does not exist yet.  Creation is idempotent: rows a
    /// table already holds are neither lost nor duplicated.  A table name
    /// outside the allow-list is rejected before it can reach any statement.
    pub fn new(table: &str, existing: Vec<Score>) -> (r: Result<Store, StoreError>)
        requires
            forall|i: int|
                0 <= i < existing.deep_view().len() ==> score_wf(#[trigger] existing.deep_view()[i]),
        ensures
            valid_table_name(table@) ==> (r matches Ok(s) && s@.table == table@ && s@.rows
                == existing.deep_view() && store_wf(s@)),
            !valid_table_name(table@) ==> r == Err::<Store, StoreError>(StoreError::SchemaError),
    {
        if table_name_ok(table) {
            Ok(Store { table: table.to_owned(), rows: existing })
        } else {
            Err(StoreError::SchemaError)
        }
    }

    /// Append one score to the bound table's rows.
    pub fn insert_score(&mut self, name: &str, command: &str, time_ns: i32)
        requires
            store_wf(old(self)@),
            name@.len() > 0,
            command@.len() > 0,
            time_ns >= 0,
        ensures
            final(self)@.table == old(self)@.table,
            final(self)@.rows == old(self)@.rows.push(
                ScoreV { name: name@, command: command@, time_ns: time_ns as int },
            ),
            store_wf(final(self)@),
    {
        let s = Score::new(name, command, time_ns);
        let ghost prev = self.rows.deep_view();
        self.rows.push(s);
        proof {
            assert(self.rows.deep_view() =~= prev.push(s@));
        }
    }

    /// List the rows ascending by duration; rows of equal duration keep
    /// their insertion order.  The table itself is left untouched.
    pub fn get_scores(&self) -> (r: Vec<Score>)
        requires
            store_wf(self@),
        ensures
            r.deep_view() == sort_by_time(self@.rows),
    {
        let mut out: Vec<Score> = Vec::new();
        proof {
            assert(out.deep_view() =~= Seq::<ScoreV>::empty());
            assert(self.rows.deep_view().take(0) =~= Seq::<ScoreV>::empty());
        }
        let mut i: usize = 0;
        while i < self.rows.len()
            invariant
                i <= self.rows.len(),
                self@.rows == self.rows.deep_view(),
                out.deep_view() == sort_by_time(self.rows.deep_view().take(i as int)),
            decreases self.rows.len() - i,
        {
            let x = self.rows[i].clone();
            proof {
                let dv = self.rows.deep_view();
                assert(dv.take(i + 1).drop_last() =~= dv.take(i as int));
                assert(dv.take(i + 1).last() == dv[i as int]);
            }
            insert_sorted(&mut out, x);
            i += 1;
        }
        proof {
            assert(self.rows.deep_view().take(self.rows.deep_view().len() as int) =~= self.rows.deep_view());
        }
        out
    }

    /// Drop every row of the bound table.
    pub fn clear_table(&mut self)
        requires
            store_wf(old(self)@),
        ensures
            final(self)@.table == old(self)@.table,
            final(self)@.rows == Seq::<ScoreV>::empty(),
            store_wf(final(self)@),
    {
        self.rows.clear();
        proof {
            assert(self.rows.deep_view() =~= Seq::<ScoreV>::empty());
        }
    }

    /// The idempotent creation statement for the bound table.
    pub fn create_table_statement(&self) -> (r: String)
        ensures
            r@ == create_table_text(self@.table),
    {
        let mut s = String::from_str("CREATE TABLE if not exists ");
        s.append(self.table.as_str());
        s.append(" ( ");
        let schema = Score::schema();
        s.append(schema.as_str());
        s.append(" )");
        s
    }

    /// The parameterized insert statement for the bound table.
    pub fn insert_statement(&self) -> (r: String)
        ensures
            r@ == insert_text(self@.table),
    {
        let mut s = String::from_str("INSERT INTO ");
        s.append(self.table.as_str());
        s.append(" ");
        s.append("(name, command, time_ns) VALUES (:name, :command, :time_ns)");
        s
    }

    /// The select statement for the bound table, sorted by `sort` — which
    /// must name a column of the schema, or the request is rejected.
    pub fn select_statement(&self, sort: &str) -> (r: Result<String, StoreError>)
        ensures
            valid_sort_column(sort@) ==> (r matches Ok(q) && q@ == select_text(
                self@.table,
                sort@,
            )),
            !valid_sort_column(sort@) ==> r == Err::<String, StoreError>(StoreError::ReadError),
    {
        if !sort_column_ok(sort) {
            return Err(StoreError::ReadError);
        }
        let mut s = String::from_str("SELECT name, command, time_ns FROM ");
        s.append(self.table.as_str());
        s.append(" ORDER BY ");
        s.append(sort);
        s.append(" ASC");
        Ok(s)
    }

    /// The statement that clears all rows of the bound table.
    pub fn clear_statement(&self) -> (r: String)
        ensures
            r@ == clear_text(self@.table),
    {
        let mut s = String::from_str("DELETE FROM ");
        s.append(self.table.as_str());
        s
    }
}

/// Keep at most the first `limit` scores of an already sorted listing; no
/// limit keeps them all.
pub fn apply_limit(scores: Vec<Score>, limit: Option<usize>) -> (r: Vec<Score>)
    ensures
        match limit {
            Some(l) => r.deep_view() == (if l <= scores.deep_view().len() {
                scores.deep_view().take(l as int)
            } else {
                scores.deep_view()
            }),
            None => r.deep_view() == scores.deep_view(),
        },
{
    match limit {
        Some(l) => {
            let mut v = scores;
            let ghost prev = v.deep_view();
            if l < v.len() {
                v.truncate(l);
                proof {
                    assert(v.deep_view() =~= prev.take(l as int));
                }
            } else {
                proof {
                    assert(v.deep_view() =~= prev);
                }
            }
            v
        },
        None => scores,
    }
}

} // verus!
