//! The record: five text fields (who, what, when, where, why), its one-line
//! text form, and the per-field case-insensitive substring test.
use vstd::prelude::*;

use crate::text::{contains, contains_seq, lower_of, lowercase, push_char, same_text};

verus! {

/// The field delimiter of the one-line text form.
pub const DELIMITER: char = '|';

/// The five fields, in their fixed order.
pub open spec fn record_of(
    who: Seq<char>,
    what: Seq<char>,
    when: Seq<char>,
    place: Seq<char>,
    why: Seq<char>,
) -> Seq<Seq<char>> {
    seq![who, what, when, place, why]
}

/// Position of the field called `name`, or -1 for an unknown name.
pub open spec fn field_index(name: Seq<char>) -> int {
    if name == "who"@ {
        0
    } else if name == "what"@ {
        1
    } else if name == "when"@ {
        2
    } else if name == "where"@ {
        3
    } else if name == "why"@ {
        4
    } else {
        -1
    }
}

/// The one-line text form: the five fields joined by the delimiter.
pub open spec fn serialize(r: Seq<Seq<char>>) -> Seq<char> {
    r[0] + seq![DELIMITER] + r[1] + seq![DELIMITER] + r[2] + seq![DELIMITER] + r[3] + seq![
        DELIMITER,
    ] + r[4]
}

/// The field called `name` holds `folded_pattern` once lower-cased.
pub open spec fn like_folded(r: Seq<Seq<char>>, name: Seq<char>, folded_pattern: Seq<char>) -> bool {
    let i = field_index(name);
    0 <= i && contains_seq(lower_of(r[i]), folded_pattern)
}

/// Whether a lower-cased field text holds a lower-cased pattern: the last
/// step of `like`, once both sides are folded.
pub fn matches_folded(folded_value: &str, folded_pattern: &str) -> (r: bool)
    ensures
        r == contains_seq(folded_value@, folded_pattern@),
{
    contains(folded_value, folded_pattern)
}

/// A record with the five fields.
#[derive(Debug)]
pub struct FiveWsEntry {
    who: String,
    what: String,
    when: String,
    where_: String,
    why: String,
}

impl View for FiveWsEntry {
    type V = Seq<Seq<char>>;

    closed spec fn view(&self) -> Seq<Seq<char>> {
        record_of(self.who@, self.what@, self.when@, self.where_@, self.why@)
    }
}

/// Every record has exactly five fields.
pub proof fn lemma_five_fields(e: &FiveWsEntry)
    ensures
        e@.len() == 5,
{
}

impl Clone for FiveWsEntry {
    fn clone(&self) -> (r: Self)
        ensures
            r@ == self@,
    {
        FiveWsEntry {
            who: self.who.clone(),
            what: self.what.clone(),
            when: self.when.clone(),
            where_: self.where_.clone(),
            why: self.why.clone(),
        }
    }
}

impl FiveWsEntry {
    pub fn new(who: &str, what: &str, when: &str, where_: &str, why: &str) -> (r: FiveWsEntry)
        ensures
            r@ == record_of(who@, what@, when@, where_@, why@),
    {
        FiveWsEntry {
            who: String::from_str(who),
            what: String::from_str(what),
            when: String::from_str(when),
            where_: String::from_str(where_),
            why: String::from_str(why),
        }
    }

    /// A record from its five parts, in field order.
    pub fn from(v: Vec<&str>) -> (r: FiveWsEntry)
        requires
            v@.len() == 5,
        ensures
            r@ == record_of(v@[0]@, v@[1]@, v@[2]@, v@[3]@, v@[4]@),
    {
        FiveWsEntry::new(v[0], v[1], v[2], v[3], v[4])
    }

    /// The field called `name`, if it is one of the five.
    pub fn field(&self, name: &str) -> (r: Option<&String>)
        ensures
            match r {
                Some(t) => 0 <= field_index(name@) && t@ == self@[field_index(name@)],
                None => field_index(name@) < 0,
            },
    {
        if same_text(name, "who") {
            Some(&self.who)
        } else if same_text(name, "what") {
            Some(&self.what)
        } else if same_text(name, "when") {
            Some(&self.when)
        } else if same_text(name, "where") {
            Some(&self.where_)
        } else if same_text(name, "why") {
            Some(&self.why)
        } else {
            None
        }
    }

    /// Whether the field called `field` holds `pattern`, ignoring case; an
    /// unknown field name never matches.
    pub fn like(&self, field: &str, pattern: &str) -> (r: bool)
        ensures
            r == like_folded(self@, field@, lower_of(pattern@)),
    {
        let folded_pattern = lowercase(pattern);
        match self.field(field) {
            Some(value) => {
                let folded_value = lowercase(value.as_str());
                matches_folded(folded_value.as_str(), folded_pattern.as_str())
            },
            None => false,
        }
    }

    pub fn who(&self) -> (r: &str)
        ensures
            r@ == self@[0],
    {
        self.who.as_str()
    }

    pub fn what(&self) -> (r: &str)
        ensures
            r@ == self@[1],
    {
        self.what.as_str()
    }

    pub fn when(&self) -> (r: &str)
        ensures
            r@ == self@[2],
    {
        self.when.as_str()
    }

    pub fn where_(&self) -> (r: &str)
        ensures
            r@ == self@[3],
    {
        self.where_.as_str()
    }

    pub fn why(&self) -> (r: &str)
        ensures
            r@ == self@[4],
    {
        self.why.as_str()
    }

    /// The same record, with its fields open to the caller.
    pub fn to_log_entry(&self) -> (r: LogEntry)
        ensures
            r@ == self@,
    {
        LogEntry {
            who: self.who.clone(),
            what: self.what.clone(),
            when: self.when.clone(),
            where_: self.where_.clone(),
            why: self.why.clone(),
        }
    }

    /// The one-line text form of the record.
    pub fn to_string(&self) -> (r: String)
        ensures
            r@ == serialize(self@),
    {
        let mut s = self.who.clone();
        push_char(&mut s, DELIMITER);
        s.append(self.what.as_str());
        push_char(&mut s, DELIMITER);
        s.append(self.when.as_str());
        push_char(&mut s, DELIMITER);
        s.append(self.where_.as_str());
        push_char(&mut s, DELIMITER);
        s.append(self.why.as_str());
        s
    }
}

/// A record whose fields are open, as front-ends exchange it.
#[derive(Debug)]
pub struct LogEntry {
    pub who: String,
    pub what: String,
    pub when: String,
    pub where_: String,
    pub why: String,
}

impl View for LogEntry {
    type V = Seq<Seq<char>>;

    open spec fn view(&self) -> Seq<Seq<char>> {
        record_of(self.who@, self.what@, self.when@, self.where_@, self.why@)
    }
}

impl Clone for LogEntry {
    fn clone(&self) -> (r: Self)
        ensures
            r@ == self@,
    {
        LogEntry {
            who: self.who.clone(),
            what: self.what.clone(),
            when: self.when.clone(),
            where_: self.where_.clone(),
            why: self.why.clone(),
        }
    }
}

impl LogEntry {
    pub fn new(who: &str, what: &str, when: &str, where_: &str, why: &str) -> (r: LogEntry)
        ensures
            r@ == record_of(who@, what@, when@, where_@, why@),
    {
        LogEntry {
            who: String::from_str(who),
            what: String::from_str(what),
            when: String::from_str(when),
            where_: String::from_str(where_),
            why: String::from_str(why),
        }
    }

    /// A record from its five parts, in field order.
    pub fn from(v: Vec<&str>) -> (r: LogEntry)
        requires
            v@.len() == 5,
        ensures
            r@ == record_of(v@[0]@, v@[1]@, v@[2]@, v@[3]@, v@[4]@),
    {
        LogEntry::new(v[0], v[1], v[2], v[3], v[4])
    }

    /// The same record, with its fields closed.
    pub fn to_entry(&self) -> (r: FiveWsEntry)
        ensures
            r@ == self@,
    {
        FiveWsEntry::new(
            self.who.as_str(),
            self.what.as_str(),
            self.when.as_str(),
            self.where_.as_str(),
            self.why.as_str(),
        )
    }

    /// Whether the field called `field` holds `pattern`, ignoring case; an
    /// unknown field name never matches.
    pub fn like(&self, field: &str, pattern: &str) -> (r: bool)
        ensures
            r == like_folded(self@, field@, lower_of(pattern@)),
    {
        self.to_entry().like(field, pattern)
    }

    /// The one-line text form of the record.
    pub fn to_string(&self) -> (r: String)
        ensures
            r@ == serialize(self@),
    {
        self.to_entry().to_string()
    }
}

} // verus!
