use taskman::console::{menu_text, parse_command, parse_priority_choice, Command};
use taskman::task::Priority;

#[test]
fn parse_command_maps_every_menu_token() {
    assert_eq!(parse_command("h"), Command::Help);
    assert_eq!(parse_command("1"), Command::Add);
    assert_eq!(parse_command("2"), Command::PopLast);
    assert_eq!(parse_command("3"), Command::Remove);
    assert_eq!(parse_command("4"), Command::Find);
    assert_eq!(parse_command("5"), Command::List);
    assert_eq!(parse_command("6"), Command::Clear);
    assert_eq!(parse_command("7"), Command::Save);
    assert_eq!(parse_command("8"), Command::Load);
    assert_eq!(parse_command("9"), Command::Exit);
}

#[test]
fn parse_command_rejects_unknown_tokens() {
    assert_eq!(parse_command(""), Command::Invalid);
    assert_eq!(parse_command("0"), Command::Invalid);
    assert_eq!(parse_command("10"), Command::Invalid);
    assert_eq!(parse_command("help"), Command::Invalid);
    assert_eq!(parse_command("x"), Command::Invalid);
}

#[test]
fn parse_priority_choice_maps_the_four_levels() {
    assert_eq!(parse_priority_choice("1"), Some(Priority::Low));
    assert_eq!(parse_priority_choice("2"), Some(Priority::Medium));
    assert_eq!(parse_priority_choice("3"), Some(Priority::High));
    assert_eq!(parse_priority_choice("4"), Some(Priority::VeryHigh));
}

#[test]
fn parse_priority_choice_rejects_everything_else() {
    assert_eq!(parse_priority_choice(""), None);
    assert_eq!(parse_priority_choice("0"), None);
    assert_eq!(parse_priority_choice("5"), None);
    assert_eq!(parse_priority_choice("44"), None);
    assert_eq!(parse_priority_choice("Low"), None);
}

#[test]
fn menu_lists_all_nine_commands() {
    let menu = menu_text();
    assert!(menu.contains("h - for help"));
    assert!(menu.contains("1. Add Task"));
    assert!(menu.contains("2. Pop Task"));
    assert!(menu.contains("3. Remove Task"));
    assert!(menu.contains("4. Find Task"));
    assert!(menu.contains("5. List of Tasks"));
    assert!(menu.contains("6. Remove all Tasks"));
    assert!(menu.contains("7. Store Tasks to file"));
    assert!(menu.contains("8. Read Tasks from file"));
    assert!(menu.contains("9. Exit"));
}
