//! Task records: a priority level, a wall-clock timestamp held as plain
//! calendar fields, and the task value itself.

use crate::digits::{four_digits, push_four_digits, push_two_digits, two_digits};
use crate::strutil::string_of;
use chrono::{Datelike, Timelike};
use vstd::prelude::*;
use vstd::string::*;

verus! {

/// Severity level of a task. `Unset` is a transient "not yet chosen"
/// placeholder used during interactive entry; a stored task carries one of
/// the four real levels.
#[derive(Clone, Copy, PartialEq, Eq, Structural, Debug)]
pub enum Priority {
    Unset,
    Low,
    Medium,
    High,
    VeryHigh,
}

impl Priority {
    /// The display label of this priority level.
    pub open spec fn spec_label(self) -> Seq<char> {
        match self {
            Priority::Unset => Seq::<char>::empty(),
            Priority::Low => seq!['L', 'o', 'w'],
            Priority::Medium => seq!['M', 'e', 'd', 'i', 'u', 'm'],
            Priority::High => seq!['H', 'i', 'g', 'h'],
            Priority::VeryHigh => seq!['V', 'e', 'r', 'y', ' ', 'H', 'i', 'g', 'h'],
        }
    }

    /// Human-readable label: `Low`, `Medium`, `High`, `Very High`, and the
    /// empty string for the `Unset` placeholder.
    pub fn to_string(&self) -> (r: String)
        ensures
            r@ == self.spec_label(),
    {
        proof {
            reveal_strlit("Low");
            reveal_strlit("Medium");
            reveal_strlit("High");
            reveal_strlit("Very High");
            reveal_strlit("");
        }
        let r = match self {
            Priority::Low => String::from_str("Low"),
            Priority::Medium => String::from_str("Medium"),
            Priority::High => String::from_str("High"),
            Priority::VeryHigh => String::from_str("Very High"),
            Priority::Unset => String::from_str(""),
        };
        proof {
            assert(r@ =~= self.spec_label());
        }
        r
    }
}

/// A wall-clock instant held as plain local calendar fields, second
/// resolution.
#[derive(Clone, Copy, PartialEq, Eq, Structural, Debug)]
pub struct Timestamp {
    pub year: u16,
    pub month: u8,
    pub day: u8,
    pub hour: u8,
    pub minute: u8,
    pub second: u8,
}

impl Timestamp {
    /// Every field lies in its calendar range; the year fits in four decimal
    /// digits.
    pub open spec fn wf(self) -> bool {
        &&& self.year <= 9999
        &&& 1 <= self.month <= 12
        &&& 1 <= self.day <= 31
        &&& self.hour <= 23
        &&& self.minute <= 59
        &&& self.second <= 59
    }

    /// The display rendering `DD-MM-YYYY  HH:MM:SS` (two spaces between date
    /// and time).
    pub open spec fn spec_display(self) -> Seq<char> {
        two_digits(self.day as int) + seq!['-'] + two_digits(self.month as int) + seq!['-']
            + four_digits(self.year as int) + seq![' ', ' '] + two_digits(self.hour as int)
            + seq![':'] + two_digits(self.minute as int) + seq![':'] + two_digits(
            self.second as int,
        )
    }

    /// Builds a timestamp from raw clock fields, clamping each field into its
    /// calendar range.
    pub fn from_clock(year: i32, month: u32, day: u32, hour: u32, minute: u32, second: u32) -> (r:
        Timestamp)
        ensures
            r.wf(),
            0 <= year <= 9999 ==> r.year == year,
            1 <= month <= 12 ==> r.month == month,
            1 <= day <= 31 ==> r.day == day,
            hour <= 23 ==> r.hour == hour,
            minute <= 59 ==> r.minute == minute,
            second <= 59 ==> r.second == second,
    {
        Timestamp {
            year: if 0 <= year && year <= 9999 {
                year as u16
            } else {
                0
            },
            month: if 1 <= month && month <= 12 {
                month as u8
            } else {
                1
            },
            day: if 1 <= day && day <= 31 {
                day as u8
            } else {
                1
            },
            hour: if hour <= 23 {
                hour as u8
            } else {
                0
            },
            minute: if minute <= 59 {
                minute as u8
            } else {
                0
            },
            second: if second <= 59 {
                second as u8
            } else {
                0
            },
        }
    }

    /// Whether every field lies in its calendar range.
    pub fn is_wf(&self) -> (r: bool)
        ensures
            r == self.wf(),
    {
        self.year <= 9999 && 1 <= self.month && self.month <= 12 && 1 <= self.day && self.day
            <= 31 && self.hour <= 23 && self.minute <= 59 && self.second <= 59
    }

    /// The display rendering of this timestamp as a string.
    pub fn display(&self) -> (r: String)
        requires
            self.wf(),
        ensures
            r@ == self.spec_display(),
    {
        let mut out: Vec<char> = Vec::new();
        push_two_digits(&mut out, self.day as u16);
        out.push('-');
        push_two_digits(&mut out, self.month as u16);
        out.push('-');
        push_four_digits(&mut out, self.year);
        out.push(' ');
        out.push(' ');
        push_two_digits(&mut out, self.hour as u16);
        out.push(':');
        push_two_digits(&mut out, self.minute as u16);
        out.push(':');
        push_two_digits(&mut out, self.second as u16);
        proof {
            assert(out@ =~= self.spec_display());
        }
        string_of(&out)
    }
}

/// Relies on `chrono::Local::now` and the chrono `Datelike` / `Timelike`
/// accessors: month is 1..=12, day 1..=31, hour 0..=23, minute 0..=59,
/// second 0..=59; the year is returned as chrono gives it, with no bound.
#[verifier::external_body]
fn clock_now() -> (r: (i32, u32, u32, u32, u32, u32))
    ensures
        1 <= r.1 <= 12,
        1 <= r.2 <= 31,
        r.3 <= 23,
        r.4 <= 59,
        r.5 <= 59,
{
    let now = chrono::Local::now();
    (now.year(), now.month(), now.day(), now.hour(), now.minute(), now.second())
}

/// A named, described, prioritized, timestamped unit of work.
#[derive(Debug)]
pub struct Task {
    pub name: String,
    pub description: String,
    pub priority: Priority,
    pub created_at: Timestamp,
}

/// The mathematical value of a task: its strings as character sequences.
pub struct TaskView {
    pub name: Seq<char>,
    pub description: Seq<char>,
    pub priority: Priority,
    pub created_at: Timestamp,
}

impl TaskView {
    /// The timestamp fields lie in their calendar ranges.
    pub open spec fn wf(self) -> bool {
        self.created_at.wf()
    }
}

impl View for Task {
    type V = TaskView;

    open spec fn view(&self) -> TaskView {
        TaskView {
            name: self.name@,
            description: self.description@,
            priority: self.priority,
            created_at: self.created_at,
        }
    }
}

impl Task {
    /// The display rendering: `name | priority label | DD-MM-YYYY  HH:MM:SS`,
    /// then the description on the next line in double quotes.
    pub open spec fn spec_display_line(t: TaskView) -> Seq<char> {
        t.name + seq![' ', '|', ' '] + t.priority.spec_label() + seq![' ', '|', ' ']
            + t.created_at.spec_display() + seq!['\n', '"'] + t.description + seq!['"']
    }

    /// Creates a task stamped with the current local time.
    pub fn new(name: String, description: String, priority: Priority) -> (r: Task)
        ensures
            r@.name == name@,
            r@.description == description@,
            r@.priority == priority,
            r@.wf(),
    {
        let (year, month, day, hour, minute, second): (i32, u32, u32, u32, u32, u32) =
            clock_now();
        Task {
            name,
            description,
            priority,
            created_at: Timestamp::from_clock(year, month, day, hour, minute, second),
        }
    }

    /// The task's display rendering as a string.
    pub fn display_line(&self) -> (r: String)
        requires
            self@.wf(),
        ensures
            r@ == Task::spec_display_line(self@),
    {
        proof {
            reveal_strlit(" | ");
            reveal_strlit("\n\"");
            reveal_strlit("\"");
        }
        let mut r: String = self.name.clone();
        r.append(" | ");
        let label: String = self.priority.to_string();
        r.append(label.as_str());
        r.append(" | ");
        let time: String = self.created_at.display();
        r.append(time.as_str());
        r.append("\n\"");
        r.append(self.description.as_str());
        r.append("\"");
        proof {
            assert(r@ =~= Task::spec_display_line(self@));
        }
        r
    }
}

} // verus!
