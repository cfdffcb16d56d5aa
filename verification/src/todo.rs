use vstd::prelude::*;

use crate::parse::{is_rfc3339_str, parse_rfc3339, parsed_timestamp};
use crate::priority::Priority;
use crate::render::{format_rfc3339, rfc3339_str};
use crate::timestamp::Timestamp;

verus! {

/// A raw row as it comes back from storage: the date still a string, the
/// priority still its integer tag.
#[derive(Debug)]
pub struct TodoEntry {
    pub id: i64,
    pub date: String,
    pub text: String,
    pub priority: i64,
}

/// The distinct data-corruption conditions of a stored row: a priority tag
/// outside 0 through 2, or a date that no longer parses back into a
/// timestamp. Either fails the whole load; a corrupt row is never skipped.
#[derive(Clone, Copy, Debug, PartialEq, Eq, Structural)]
pub enum DataError {
    BadPriority,
    BadDate,
}

/// One task entry: the id assigned at insertion, the insertion time, the
/// task's free text, and its priority tier.
#[derive(Debug)]
pub struct Todo {
    pub id: i64,
    pub date: Timestamp,
    pub text: String,
    pub priority: Priority,
}

impl Clone for Todo {
    /// An exact copy of the entry.
    fn clone(&self) -> (r: Todo)
        ensures
            r == *self,
    {
        Todo { id: self.id, date: self.date, text: self.text.clone(), priority: self.priority }
    }
}

impl Todo {
    /// Decodes a stored row, failing with the matching corruption error on a
    /// priority tag outside 0 through 2 or on an unparsable stored date.
    pub fn from_entry(entry: &TodoEntry) -> (r: Result<Todo, DataError>)
        ensures
            0 <= entry.priority <= 2 && is_rfc3339_str(entry.date@) ==> (r matches Ok(t) && t.id
                == entry.id && t.date == parsed_timestamp(entry.date@) && t.text == entry.text
                && t.priority.tag() == entry.priority),
            !(0 <= entry.priority <= 2) ==> r == Err::<Todo, DataError>(DataError::BadPriority),
            0 <= entry.priority <= 2 && !is_rfc3339_str(entry.date@) ==> r == Err::<
                Todo,
                DataError,
            >(DataError::BadDate),
            r matches Ok(t) ==> t.date.wf(),
    {
        let priority = match Priority::from_i64(entry.priority) {
            Ok(p) => p,
            Err(_) => {
                return Err(DataError::BadPriority);
            },
        };
        let date = match parse_rfc3339(entry.date.as_str()) {
            Some(t) => t,
            None => {
                return Err(DataError::BadDate);
            },
        };
        Ok(Todo { id: entry.id, date, text: entry.text.clone(), priority })
    }

    /// Encodes this entry for storage: the date in its stored string form,
    /// the priority as its integer tag.
    pub fn to_entry(&self) -> (r: TodoEntry)
        requires
            self.date.wf(),
        ensures
            r.id == self.id,
            r.date@ == rfc3339_str(self.date),
            r.text == self.text,
            r.priority == self.priority.tag(),
    {
        TodoEntry {
            id: self.id,
            date: format_rfc3339(&self.date),
            text: self.text.clone(),
            priority: self.priority.to_i64(),
        }
    }
}

} // verus!
