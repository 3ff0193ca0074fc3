//! Decisions on the schema of the database.
//!
//! The database is the caller's. Here stands what to do with a table once
//! its definition on disk is known.

use vstd::prelude::*;
use vstd::string::*;

use crate::indexer::{squeeze, squeezed};
use crate::text::{chars_of, find_first, find_in, lowercase_of, same_chars, to_lowercase};

verus! {

/// What to do with a table.
#[derive(Debug, Clone, Copy, PartialEq, Eq, Structural)]
pub enum TableAction {
    /// The table does not exist: create it.
    Create,
    /// The table lacks what the application relies on: drop it and create
    /// it anew.
    Recreate,
    /// The table can stay as it is.
    Keep,
}

/// The first `upto` characters of `s` without carriage returns.
pub open spec fn without_cr(s: Seq<char>, upto: int) -> Seq<char>
    decreases upto,
{
    if upto <= 0 {
        Seq::empty()
    } else if s[upto - 1] == '\r' {
        without_cr(s, upto - 1)
    } else {
        without_cr(s, upto - 1).push(s[upto - 1])
    }
}

/// The definition `sql` before its case is folded: carriage returns
/// dropped, every run of whitespace turned into one space, none at either
/// end.
pub open spec fn compacted(sql: Seq<char>) -> Seq<char> {
    squeezed(without_cr(sql, sql.len() as int))
}

/// The normal form of the definition `sql`, in which two definitions are
/// compared: compacted and in lowercase.
pub open spec fn normalized(sql: Seq<char>) -> Seq<char> {
    lowercase_of(compacted(sql))
}

/// Whether `needle` occurs in `hay`.
pub open spec fn contains(hay: Seq<char>, needle: Seq<char>) -> bool {
    find_first(hay, needle).is_some()
}

/// Whether a definition in normal form has what the application relies on:
/// the composite primary key, a timestamp and a note id.
pub open spec fn is_healthy(actual: Seq<char>) -> bool {
    &&& contains(actual, "primary key (note_id, node_id)"@) || contains(
        actual,
        "primary key(note_id,node_id)"@,
    )
    &&& contains(actual, "timestamp"@)
    &&& contains(actual, "note_id"@)
}

/// What to do with a table whose definition on disk is `actual`, in normal
/// form, where `expected` is the normal form of the definition that the
/// application wants.
pub open spec fn action_for(actual: Option<Seq<char>>, expected: Seq<char>) -> TableAction {
    match actual {
        None => TableAction::Create,
        Some(a) => if a != expected && !is_healthy(a) {
            TableAction::Recreate
        } else {
            TableAction::Keep
        },
    }
}

/// The definition `sql` with carriage returns dropped and whitespace
/// compacted.
pub fn compact_sql(sql: &str) -> (out: String)
    ensures
        out@ == compacted(sql@),
{
    let mut kept: Vec<char> = Vec::new();
    for c in it: sql.chars()
        invariant
            it.seq() == sql@,
            kept@ == without_cr(sql@, it.index() as int),
    {
        if c != '\r' {
            kept.push(c);
        }
    }
    squeeze(kept.as_slice())
}

/// The normal form of the definition `sql`.
pub fn normalize_sql(sql: &str) -> (out: String)
    ensures
        out@ == normalized(sql@),
{
    let compact = compact_sql(sql);
    to_lowercase(compact.as_str())
}

/// Whether `needle` occurs in `hay`.
fn occurs(hay: &[char], needle: &str) -> (r: bool)
    ensures
        r == contains(hay@, needle@),
{
    let n = chars_of(needle);
    find_in(hay, n.as_slice(), 0).is_some()
}

/// What to do with a table, given the normal forms of its definition on
/// disk, if it exists, and of the definition that the application wants.
pub fn table_action_for(actual: Option<&str>, expected: &str) -> (action: TableAction)
    ensures
        action == action_for(
            match actual {
                Some(a) => Some(a@),
                None => None,
            },
            expected@,
        ),
{
    match actual {
        None => TableAction::Create,
        Some(a) => {
            let have = chars_of(a);
            let want = chars_of(expected);
            if same_chars(have.as_slice(), want.as_slice()) {
                return TableAction::Keep;
            }
            let has_composite_pk = occurs(have.as_slice(), "primary key (note_id, node_id)")
                || occurs(have.as_slice(), "primary key(note_id,node_id)");
            let has_timestamp = occurs(have.as_slice(), "timestamp");
            let has_note_id = occurs(have.as_slice(), "note_id");
            if !has_composite_pk || !has_timestamp || !has_note_id {
                TableAction::Recreate
            } else {
                TableAction::Keep
            }
        },
    }
}

/// What to do with a table whose definition on disk is `actual_sql`, if it
/// exists, where the application wants `expected_sql`: create it where it
/// does not exist; drop and recreate it where the definitions differ in
/// normal form and the one on disk lacks what the application relies on;
/// else keep it.
pub fn table_action(actual_sql: Option<&str>, expected_sql: &str) -> (action: TableAction)
    ensures
        action == action_for(
            match actual_sql {
                Some(a) => Some(normalized(a@)),
                None => None,
            },
            normalized(expected_sql@),
        ),
{
    let expected = normalize_sql(expected_sql);
    match actual_sql {
        Some(a) => {
            let actual = normalize_sql(a);
            table_action_for(Some(actual.as_str()), expected.as_str())
        },
        None => table_action_for(None, expected.as_str()),
    }
}

/// Whether one of `names`, in lowercase, is `column`, given in lowercase.
pub open spec fn names_column(names: Seq<Seq<char>>, column: Seq<char>) -> bool {
    exists|i: int| 0 <= i < names.len() && #[trigger] names[i] == column
}

/// Whether one of the column names `names`, given in lowercase, is
/// `column`, given in lowercase.
pub fn has_lowercase_column(names: &Vec<String>, column: &str) -> (r: bool)
    ensures
        r == names_column(crate::text::texts_of(names@), column@),
{
    let wanted = chars_of(column);
    let mut i: usize = 0;
    while i < names.len()
        invariant
            i <= names.len(),
            wanted@ == column@,
            forall|j: int| 0 <= j < i ==> (#[trigger] crate::text::texts_of(names@)[j]) != column@,
        decreases names.len() - i,
    {
        let name = chars_of(names[i].as_str());
        if same_chars(name.as_slice(), wanted.as_slice()) {
            assert(crate::text::texts_of(names@)[i as int] == column@);
            return true;
        }
        i = i + 1;
    }
    false
}

/// The texts of `names` in lowercase.
pub open spec fn lowered(names: Seq<Seq<char>>) -> Seq<Seq<char>> {
    Seq::new(names.len(), |i: int| lowercase_of(names[i]))
}

/// Whether a table with the columns `names` has the column `column`,
/// whatever the case of the names.
pub fn has_column(names: &Vec<String>, column: &str) -> (r: bool)
    ensures
        r == names_column(lowered(crate::text::texts_of(names@)), lowercase_of(column@)),
{
    let wanted = to_lowercase(column);
    let mut low: Vec<String> = Vec::new();
    let mut i: usize = 0;
    while i < names.len()
        invariant
            i <= names.len(),
            low@.len() == i,
            forall|j: int| 0 <= j < i ==> (#[trigger] low@[j])@ == lowercase_of(names@[j]@),
        decreases names.len() - i,
    {
        low.push(to_lowercase(names[i].as_str()));
        i = i + 1;
    }
    assert(crate::text::texts_of(low@) =~= lowered(crate::text::texts_of(names@)));
    has_lowercase_column(&low, wanted.as_str())
}

} // verus!
