use halloy_data::channel::{Position, Users};
use halloy_data::message::{action_text, is_action, Limit, Sender};
use halloy_data::screen::{Command, Sidebar};
use halloy_data::text::{same_nick, split, to_decimal};
use halloy_data::user::User;
use halloy_data::{icon, mode};

#[test]
fn member_list_visibility_toggles() {
    let mut users = Users::default();
    assert!(users.visible);
    assert_eq!(users.position, Position::Left);
    users.toggle_visibility();
    assert!(!users.visible);
    users.toggle_visibility();
    assert!(users.visible);
}

#[test]
fn sidebar_toggles() {
    let mut sidebar = Sidebar::new();
    assert!(!sidebar.hidden());
    sidebar.toggle_visibility();
    assert!(sidebar.hidden());
}

#[test]
fn command_bar_lists_its_commands() {
    let list = Command::list();
    assert_eq!(list, vec![Command::OpenConfig, Command::ToggleSidebarVisibility]);
    assert_eq!(list[0].title(), "Configuration: Open Directory");
    assert_eq!(list[1].title(), "UI: Toggle Sidebar visibility");
}

#[test]
fn limits_grow_by_count() {
    let mut top = Limit::top();
    assert_eq!(top, Limit::Top(500));
    top.increase(50);
    assert_eq!(top, Limit::Top(550));
    let mut bottom = Limit::bottom();
    bottom.increase(usize::MAX);
    assert_eq!(bottom, Limit::Bottom(usize::MAX));
    let mut since = Limit::Since(42);
    since.increase(10);
    assert_eq!(since, Limit::Since(42));
}

#[test]
fn actions_are_recognised() {
    assert!(is_action("\u{1}ACTION waves\u{1}"));
    assert!(!is_action("\u{1}ACTION waves"));
    assert!(!is_action("hello"));
    assert_eq!(
        action_text("bob", "\u{1}ACTION waves\u{1}").as_deref(),
        Some(" \u{2219} bob waves")
    );
    assert_eq!(action_text("bob", "waves"), None);
}

#[test]
fn sender_gives_its_user() {
    let user = User::new("bob".to_string(), None, None);
    assert_eq!(Sender::User(user).user().map(|u| u.nickname.clone()), Some("bob".to_string()));
    assert!(Sender::Server.user().is_none());
}

#[test]
fn icons_are_glyphs_of_the_icon_font() {
    assert_eq!(icon::dot(), '\u{f287}');
    assert_eq!(icon::error(), '\u{f33a}');
    assert_eq!(icon::globe(), '\u{f3ef}');
    assert_eq!(icon::wifi_off(), '\u{f61b}');
    assert_eq!(icon::close(), '\u{f659}');
    assert_eq!(icon::maximize(), '\u{f14a}');
    assert_eq!(icon::restore(), '\u{f149}');
    assert_eq!(icon::people(), '\u{f4db}');
    assert_eq!(icon::topic(), '\u{f5af}');
    assert_eq!(icon::file_transfer(), '\u{f30a}');
    assert_eq!(icon::arrow_down(), '\u{f128}');
    assert_eq!(icon::arrow_up(), '\u{f148}');
    assert_eq!(icon::download(), '\u{f30a}');
    assert_eq!(icon::trashcan(), '\u{f5de}');
    assert_eq!(icon::folder(), '\u{f3d8}');
    assert_eq!(icon::search(), '\u{f52a}');
    assert_eq!(icon::secure(), '\u{f538}');
}

#[test]
fn text_helpers() {
    assert!(same_nick("Bob", "bOB"));
    assert!(!same_nick("bob", "rob"));
    assert_eq!(split("a  b", ' '), vec!["a".to_string(), String::new(), "b".to_string()]);
    assert_eq!(split("", ' '), vec![String::new()]);
    assert_eq!(to_decimal(0), "0");
    assert_eq!(to_decimal(1234567890), "1234567890");
    assert_eq!(to_decimal(u64::MAX), "18446744073709551615");
}

#[test]
fn names_entries_parse() {
    let u = User::parse("@+bob!b@host").unwrap();
    assert_eq!(u.nickname, "bob");
    assert!(u.access.oper && u.access.voice && !u.access.owner);
    assert!(User::parse("@").is_none());
    assert!(User::parse("").is_none());
}

#[test]
fn mode_strings_take_arguments_in_order() {
    let args = vec!["bob".to_string(), "10".to_string(), "carol".to_string()];
    let modes = mode::parse("+olv-t", &args);
    let letters: Vec<char> = modes.iter().map(|m| m.letter).collect();
    assert_eq!(letters, vec!['o', 'l', 'v', 't']);
    assert_eq!(modes[0].arg.as_deref(), Some("bob"));
    assert_eq!(modes[1].arg.as_deref(), Some("10"));
    assert_eq!(modes[2].arg.as_deref(), Some("carol"));
    assert_eq!(modes[3].arg, None);
}
