//! The console dispatch rules: which menu token selects which store
//! operation, and which index token selects which priority level.

use crate::task::Priority;
use vstd::prelude::*;
use vstd::string::*;

verus! {

/// A menu command, one per numbered entry plus help and a rejection for
/// anything else.
#[derive(Clone, Copy, PartialEq, Eq, Structural, Debug)]
pub enum Command {
    Help,
    Add,
    PopLast,
    Remove,
    Find,
    List,
    Clear,
    Save,
    Load,
    Exit,
    Invalid,
}

/// The command a trimmed menu token selects.
pub open spec fn spec_command(s: Seq<char>) -> Command {
    if s == seq!['h'] {
        Command::Help
    } else if s == seq!['1'] {
        Command::Add
    } else if s == seq!['2'] {
        Command::PopLast
    } else if s == seq!['3'] {
        Command::Remove
    } else if s == seq!['4'] {
        Command::Find
    } else if s == seq!['5'] {
        Command::List
    } else if s == seq!['6'] {
        Command::Clear
    } else if s == seq!['7'] {
        Command::Save
    } else if s == seq!['8'] {
        Command::Load
    } else if s == seq!['9'] {
        Command::Exit
    } else {
        Command::Invalid
    }
}

/// Maps a trimmed menu token to its command; any unknown token is
/// `Invalid`.
pub fn parse_command(s: &str) -> (r: Command)
    ensures
        r == spec_command(s@),
{
    let n: usize = s.unicode_len();
    if n != 1 {
        return Command::Invalid;
    }
    let c: char = s.get_char(0);
    proof {
        assert(s@ =~= seq![c]);
    }
    match c {
        'h' => Command::Help,
        '1' => Command::Add,
        '2' => Command::PopLast,
        '3' => Command::Remove,
        '4' => Command::Find,
        '5' => Command::List,
        '6' => Command::Clear,
        '7' => Command::Save,
        '8' => Command::Load,
        '9' => Command::Exit,
        _ => Command::Invalid,
    }
}

/// The priority level a trimmed index token selects, or `None` for any
/// other token, after which entry is asked again.
pub open spec fn spec_priority_choice(s: Seq<char>) -> Option<Priority> {
    if s == seq!['1'] {
        Some(Priority::Low)
    } else if s == seq!['2'] {
        Some(Priority::Medium)
    } else if s == seq!['3'] {
        Some(Priority::High)
    } else if s == seq!['4'] {
        Some(Priority::VeryHigh)
    } else {
        None
    }
}

/// Maps a trimmed priority index token to its level.
pub fn parse_priority_choice(s: &str) -> (r: Option<Priority>)
    ensures
        r == spec_priority_choice(s@),
{
    let n: usize = s.unicode_len();
    if n != 1 {
        return None;
    }
    let c: char = s.get_char(0);
    proof {
        assert(s@ =~= seq![c]);
    }
    match c {
        '1' => Some(Priority::Low),
        '2' => Some(Priority::Medium),
        '3' => Some(Priority::High),
        '4' => Some(Priority::VeryHigh),
        _ => None,
    }
}

/// The help text listing the menu commands.
pub fn menu_text() -> (r: String)
    ensures
        r@ == "\nh - for help \n\n1. Add Task \n2. Pop Task \n3. Remove Task \n4. Find Task\n5. List of Tasks \n6. Remove all Tasks \n7. Store Tasks to file \n8. Read Tasks from file \n9. Exit"@,
{
    String::from_str(
        "\nh - for help \n\n1. Add Task \n2. Pop Task \n3. Remove Task \n4. Find Task\n5. List of Tasks \n6. Remove all Tasks \n7. Store Tasks to file \n8. Read Tasks from file \n9. Exit",
    )
}

} // verus!
