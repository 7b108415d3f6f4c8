//! The schema statements and the per-record upsert statements.

use vstd::prelude::*;
use vstd::string::StringExecFns;
use crate::escape::{sql_escape, sql_escaped};
use crate::numfmt::{dec_int, dec_money, format_i64, format_money};
use crate::text::push_char;
use crate::trip::{stored_row, to_row, ITrip, Row, RowView};

verus! {

/// A schema migration: one raw statement to run against the store.
pub struct Migration {
    pub sql: String,
}

/// The one schema statement: create the trips table where it is absent.
pub open spec fn schema_sql() -> Seq<char> {
    "CREATE TABLE IF NOT EXISTS trips (id TEXT PRIMARY KEY, title TEXT NOT NULL, description TEXT, image_url TEXT, start_date TEXT, end_date TEXT, days INTEGER, cities TEXT, status TEXT, budget REAL, currency TEXT, participants TEXT, tags TEXT, visibility TEXT);"@
}

/// The ordered schema statements. Each is a create-if-absent form, so the
/// sequence can be applied to an already-initialized store without effect
/// or error.
pub fn get_migrations() -> (r: Vec<Migration>)
    ensures
        r@.len() == 1,
        r@[0].sql@ == schema_sql(),
{
    let mut v: Vec<Migration> = Vec::new();
    v.push(
        Migration {
            sql: String::from_str(
                "CREATE TABLE IF NOT EXISTS trips (id TEXT PRIMARY KEY, title TEXT NOT NULL, description TEXT, image_url TEXT, start_date TEXT, end_date TEXT, days INTEGER, cities TEXT, status TEXT, budget REAL, currency TEXT, participants TEXT, tags TEXT, visibility TEXT);",
            ),
        },
    );
    v
}

/// A text value as it stands in a statement: in single quotes, escaped.
pub open spec fn quoted(s: Seq<char>) -> Seq<char> {
    seq!['\''] + sql_escaped(s) + seq!['\'']
}

/// The text of the one upsert statement that writes the row `r`: a record
/// with the same id is replaced in place, any other is inserted.
pub open spec fn upsert_sql(r: RowView) -> Seq<char> {
    "INSERT OR REPLACE INTO trips (id, title, description, image_url, start_date, end_date, days, cities, status, budget, currency, participants, tags, visibility) VALUES ("@
        + quoted(r.id) + ", "@ + quoted(r.title) + ", "@ + quoted(r.description) + ", "@ + quoted(
        r.image_url,
    ) + ", "@ + quoted(r.start_date) + ", "@ + quoted(r.end_date) + ", "@ + dec_int(r.days as int)
        + ", "@ + quoted(r.cities) + ", "@ + quoted(r.status) + ", "@ + dec_money(
        r.budget_cents as nat,
    ) + ", "@ + quoted(r.currency) + ", "@ + quoted(r.participants) + ", "@ + quoted(r.tags)
        + ", "@ + quoted(r.visibility) + ");"@
}

fn append_quoted(s: &mut String, field: &String)
    ensures
        final(s)@ == old(s)@ + quoted(field@),
{
    push_char(s, '\'');
    let esc = sql_escape(field.as_str());
    s.append(esc.as_str());
    push_char(s, '\'');
    proof {
        assert(old(s)@ + seq!['\''] + sql_escaped(field@) + seq!['\''] =~= old(s)@ + (seq!['\'']
            + sql_escaped(field@) + seq!['\'']));
    }
}

/// The upsert statement for a row already in stored form.
pub fn row_upsert_statement(row: &Row) -> (r: String)
    ensures
        r@ == upsert_sql(row@),
{
    let mut s = String::from_str(
        "INSERT OR REPLACE INTO trips (id, title, description, image_url, start_date, end_date, days, cities, status, budget, currency, participants, tags, visibility) VALUES (",
    );
    append_quoted(&mut s, &row.id);
    s.append(", ");
    append_quoted(&mut s, &row.title);
    s.append(", ");
    append_quoted(&mut s, &row.description);
    s.append(", ");
    append_quoted(&mut s, &row.image_url);
    s.append(", ");
    append_quoted(&mut s, &row.start_date);
    s.append(", ");
    append_quoted(&mut s, &row.end_date);
    s.append(", ");
    let days = format_i64(row.days as i64);
    s.append(days.as_str());
    s.append(", ");
    append_quoted(&mut s, &row.cities);
    s.append(", ");
    append_quoted(&mut s, &row.status);
    s.append(", ");
    let budget = format_money(row.budget_cents);
    s.append(budget.as_str());
    s.append(", ");
    append_quoted(&mut s, &row.currency);
    s.append(", ");
    append_quoted(&mut s, &row.participants);
    s.append(", ");
    append_quoted(&mut s, &row.tags);
    s.append(", ");
    append_quoted(&mut s, &row.visibility);
    s.append(");");
    proof {
        assert(s@ =~= upsert_sql(row@));
    }
    s
}

/// The upsert statement that seeds the record `t`.
pub fn upsert_statement(t: &ITrip) -> (r: String)
    ensures
        r@ == upsert_sql(stored_row(t@)),
{
    let row = to_row(t);
    row_upsert_statement(&row)
}

/// One upsert statement per record, in fixture order: the whole plan that
/// a seeding run executes against the store.
pub fn seed_statements(trips: &Vec<ITrip>) -> (r: Vec<String>)
    ensures
        r@.len() == trips@.len(),
        forall|i: int|
            0 <= i < trips@.len() ==> r@[i]@ == upsert_sql(stored_row(trips@[i]@)),
{
    let mut r: Vec<String> = Vec::new();
    let mut i: usize = 0;
    while i < trips.len()
        invariant
            i <= trips@.len(),
            r@.len() == i,
            forall|k: int| 0 <= k < i ==> r@[k]@ == upsert_sql(stored_row(trips@[k]@)),
        decreases trips@.len() - i,
    {
        let stmt = upsert_statement(&trips[i]);
        r.push(stmt);
        i = i + 1;
    }
    r
}

} // verus!
