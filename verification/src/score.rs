//! The score entity: one persisted benchmark record.

use crate::text::{dec_string, dec_text};
use vstd::prelude::*;
use vstd::string::StringExecFns;

verus! {

/// One benchmark record: who ran what, and how long it took, in nanoseconds.
#[derive(Debug, PartialEq, Eq)]
pub struct Score {
    pub name: String,
    pub command: String,
    pub time_ns: i32,
}

/// The mathematical value of a [`Score`].
pub struct ScoreV {
    pub name: Seq<char>,
    pub command: Seq<char>,
    pub time_ns: int,
}

impl View for Score {
    type V = ScoreV;

    open spec fn view(&self) -> ScoreV {
        ScoreV { name: self.name@, command: self.command@, time_ns: self.time_ns as int }
    }
}

impl DeepView for Score {
    type V = ScoreV;

    open spec fn deep_view(&self) -> ScoreV {
        self.view()
    }
}

/// Every persisted row carries a non-empty name and command and a
/// non-negative duration.
pub open spec fn score_wf(s: ScoreV) -> bool {
    &&& s.name.len() > 0
    &&& s.command.len() > 0
    &&& 0 <= s.time_ns <= i32::MAX
}

/// The fixed column layout of a score table.
pub open spec fn schema_text() -> Seq<char> {
    "id INT NOT NULL AUTO_INCREMENT, name TEXT NOT NULL, command TEXT NOT NULL, time_ns INT NOT NULL, PRIMARY KEY (id)"@
}

/// The column list and placeholders of a parameterized score insert.
pub open spec fn insert_values_text() -> Seq<char> {
    "(name, command, time_ns) VALUES (:name, :command, :time_ns)"@
}

/// The values bound to the placeholders of a score insert.  They travel as
/// bound parameters, never interpolated into statement text.
pub struct ScoreParams {
    pub name: String,
    pub command: String,
    pub time_ns: i32,
}

impl Clone for Score {
    fn clone(&self) -> (r: Self)
        ensures
            r@ == self@,
    {
        Score { name: self.name.clone(), command: self.command.clone(), time_ns: self.time_ns }
    }
}

impl Score {
    pub fn new(name: &str, command: &str, time_ns: i32) -> (r: Score)
        requires
            name@.len() > 0,
            command@.len() > 0,
            time_ns >= 0,
        ensures
            r@ == (ScoreV { name: name@, command: command@, time_ns: time_ns as int }),
            score_wf(r@),
    {
        Score { name: name.to_owned(), command: command.to_owned(), time_ns }
    }

    /// The column definitions a score table is created with.
    pub fn schema() -> (r: String)
        ensures
            r@ == schema_text(),
    {
        String::from_str(
            "id INT NOT NULL AUTO_INCREMENT, name TEXT NOT NULL, command TEXT NOT NULL, time_ns INT NOT NULL, PRIMARY KEY (id)",
        )
    }

    /// The placeholder fragment of an insert statement, with this score's
    /// values to bind to it.
    pub fn as_insert(&self) -> (r: (String, ScoreParams))
        ensures
            r.0@ == insert_values_text(),
            r.1.name@ == self@.name,
            r.1.command@ == self@.command,
            r.1.time_ns as int == self@.time_ns,
    {
        (self.statement(), self.parameters())
    }

    /// The record as prose: `<name> ran <command> in <time_ns>ns`.
    pub fn describe(&self) -> (r: String)
        requires
            self@.time_ns >= 0,
        ensures
            r@ == self@.name + " ran "@ + self@.command + " in "@ + dec_text(self@.time_ns)
                + "ns"@,
    {
        let mut s = self.name.clone();
        s.append(" ran ");
        s.append(self.command.as_str());
        s.append(" in ");
        let t = dec_string(self.time_ns as u32);
        s.append(t.as_str());
        s.append("ns");
        s
    }

    fn statement(&self) -> (r: String)
        ensures
            r@ == insert_values_text(),
    {
        String::from_str("(name, command, time_ns) VALUES (:name, :command, :time_ns)")
    }

    fn parameters(&self) -> (r: ScoreParams)
        ensures
            r.name@ == self@.name,
            r.command@ == self@.command,
            r.time_ns as int == self@.time_ns,
    {
        ScoreParams {
            name: self.name.clone(),
            command: self.command.clone(),
            time_ns: self.time_ns,
        }
    }
}

} // verus!
