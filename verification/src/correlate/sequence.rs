//! Sequence state at capture time.

use crate::number::{push_signed, signed_decimal};
use crate::text::copy_string;
use vstd::prelude::*;

verus! {

/// Snapshot of a single PostgreSQL sequence's state at capture time.
#[derive(Debug, Clone)]
pub struct SequenceState {
    pub schema: String,
    pub name: String,
    pub last_value: Option<i64>,
    pub increment_by: i64,
    pub start_value: i64,
    pub min_value: i64,
    pub max_value: i64,
    pub cycle: bool,
    pub is_called: bool,
}

/// The model of a sequence's state.
pub struct SequenceView {
    pub schema: Seq<char>,
    pub name: Seq<char>,
    pub last_value: Option<i64>,
    pub increment_by: i64,
    pub start_value: i64,
    pub min_value: i64,
    pub max_value: i64,
    pub cycle: bool,
    pub is_called: bool,
}

impl View for SequenceState {
    type V = SequenceView;

    open spec fn view(&self) -> SequenceView {
        SequenceView {
            schema: self.schema@,
            name: self.name@,
            last_value: self.last_value,
            increment_by: self.increment_by,
            start_value: self.start_value,
            min_value: self.min_value,
            max_value: self.max_value,
            cycle: self.cycle,
            is_called: self.is_called,
        }
    }
}

impl SequenceView {
    /// Schema and name, each in double quotes, with a point between.
    pub open spec fn qualified_name(self) -> Seq<char> {
        seq!['"'] + self.schema + seq!['"', '.', '"'] + self.name + seq!['"']
    }

    /// The value that the sequence is set to: the last value of a sequence
    /// that was used, its start value otherwise.
    pub open spec fn restored(self) -> (i64, bool) {
        match self.last_value {
            Some(v) => if self.is_called { (v, true) } else { (self.start_value, false) },
            None => (self.start_value, false),
        }
    }

    /// The statement that sets the sequence to its state.
    pub open spec fn restore_sql(self) -> Seq<char> {
        "SELECT setval('"@ + self.qualified_name() + "', "@ + signed_decimal(self.restored().0 as int) + (
        if self.restored().1 { ", true)"@ } else { ", false)"@ })
    }
}

impl SequenceState {
    /// Returns the schema-qualified name for use in SQL.
    pub fn qualified_name(&self) -> (r: String)
        ensures
            r@ == self@.qualified_name(),
    {
        let mut out = String::new();
        out.push('"');
        out.push_str(self.schema.as_str());
        out.push('"');
        out.push('.');
        out.push('"');
        out.push_str(self.name.as_str());
        out.push('"');
        proof {
            assert(out@ =~= self@.qualified_name());
        }
        out
    }

    /// Generates the setval() SQL to restore this sequence on a target.
    pub fn restore_sql(&self) -> (r: String)
        ensures
            r@ == self@.restore_sql(),
    {
        let (value, called) = match self.last_value {
            Some(v) => if self.is_called { (v, true) } else { (self.start_value, false) },
            None => (self.start_value, false),
        };
        let mut out = String::new();
        out.push_str("SELECT setval('");
        out.push_str(self.qualified_name().as_str());
        out.push_str("', ");
        push_signed(&mut out, value);
        if called {
            out.push_str(", true)");
        } else {
            out.push_str(", false)");
        }
        proof {
            assert(out@ =~= self@.restore_sql());
        }
        out
    }

    /// A copy of the state.
    pub fn duplicate(&self) -> (r: Self)
        ensures
            r@ == self@,
    {
        SequenceState {
            schema: copy_string(self.schema.as_str()),
            name: copy_string(self.name.as_str()),
            last_value: self.last_value,
            increment_by: self.increment_by,
            start_value: self.start_value,
            min_value: self.min_value,
            max_value: self.max_value,
            cycle: self.cycle,
            is_called: self.is_called,
        }
    }
}

} // verus!
