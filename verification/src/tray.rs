//! The menu of the tray icon.

use vstd::prelude::*;
use vstd::string::*;

use crate::text::same_text;

verus! {

/// What the tray icon is called.
pub const TRAY_TOOLTIP: &'static str = "DeepSeek Harness";

/// An entry of the menu.
#[derive(Clone, Debug)]
pub struct MenuEntry {
    pub id: String,
    pub label: String,
}

/// What a choice from the menu asks for.
#[derive(Clone, Copy, Debug, PartialEq, Eq, Structural)]
pub enum MenuAction {
    /// Start the agent.
    Start,
    /// Stop the agent.
    Stop,
    /// Stop the agent, then start it.
    Restart,
    /// Show the window.
    Show,
    /// Stop the agent, then end the application.
    Quit,
    /// Nothing.
    Nothing,
}

/// The entries of the menu, each by its id and its label.
pub open spec fn menu() -> Seq<(Seq<char>, Seq<char>)> {
    seq![
        ("start"@, "启动 Agent"@),
        ("stop"@, "停止 Agent"@),
        ("restart"@, "重启 Agent"@),
        ("settings"@, "设置"@),
        ("quit"@, "退出"@),
    ]
}

/// What the choice of an id asks for.
pub open spec fn chosen_action(id: Seq<char>) -> MenuAction {
    if id == "start"@ {
        MenuAction::Start
    } else if id == "stop"@ {
        MenuAction::Stop
    } else if id == "restart"@ {
        MenuAction::Restart
    } else if id == "settings"@ {
        MenuAction::Show
    } else if id == "quit"@ {
        MenuAction::Quit
    } else {
        MenuAction::Nothing
    }
}

/// An entry of the menu.
fn menu_entry(id: &str, label: &str) -> (r: MenuEntry)
    ensures
        r.id@ == id@,
        r.label@ == label@,
{
    MenuEntry { id: id.to_owned(), label: label.to_owned() }
}

/// The entries of the menu, from the top.
pub fn menu_entries() -> (r: Vec<MenuEntry>)
    ensures
        r@.map_values(|e: MenuEntry| (e.id@, e.label@)) == menu(),
{
    let mut r: Vec<MenuEntry> = Vec::new();
    r.push(menu_entry("start", "启动 Agent"));
    r.push(menu_entry("stop", "停止 Agent"));
    r.push(menu_entry("restart", "重启 Agent"));
    r.push(menu_entry("settings", "设置"));
    r.push(menu_entry("quit", "退出"));
    assert(r@.map_values(|e: MenuEntry| (e.id@, e.label@)) =~= menu());
    r
}

/// What the choice of an id asks for.
pub fn menu_action(id: &str) -> (r: MenuAction)
    ensures
        r == chosen_action(id@),
{
    if same_text(id, "start") {
        MenuAction::Start
    } else if same_text(id, "stop") {
        MenuAction::Stop
    } else if same_text(id, "restart") {
        MenuAction::Restart
    } else if same_text(id, "settings") {
        MenuAction::Show
    } else if same_text(id, "quit") {
        MenuAction::Quit
    } else {
        MenuAction::Nothing
    }
}

/// What a click on the icon asks for: the left button shows the window, any other
/// is left to the menu.
pub fn click_action(left_button: bool) -> (r: MenuAction)
    ensures
        r == if left_button {
            MenuAction::Show
        } else {
            MenuAction::Nothing
        },
{
    if left_button {
        MenuAction::Show
    } else {
        MenuAction::Nothing
    }
}

/// Every entry of the menu asks for something, and no two for the same.
pub proof fn law_every_entry_has_its_action(i: int, j: int)
    requires
        0 <= i < menu().len(),
        0 <= j < menu().len(),
    ensures
        chosen_action(menu()[i].0) != MenuAction::Nothing,
        chosen_action(menu()[i].0) == chosen_action(menu()[j].0) ==> i == j,
{
    reveal_strlit("start");
    reveal_strlit("stop");
    reveal_strlit("restart");
    reveal_strlit("settings");
    reveal_strlit("quit");
    assert("start"@.len() == 5 && "stop"@.len() == 4 && "restart"@.len() == 7);
    assert("settings"@.len() == 8 && "quit"@.len() == 4);
    assert("stop"@[0] == 's' && "quit"@[0] == 'q');
}

/// Each entry of the menu does what its label says, and nothing else is done.
pub proof fn law_what_the_menu_does(id: Seq<char>)
    ensures
        menu()[0] == ("start"@, "启动 Agent"@) && chosen_action("start"@) == MenuAction::Start,
        menu()[1] == ("stop"@, "停止 Agent"@) && chosen_action("stop"@) == MenuAction::Stop,
        menu()[2] == ("restart"@, "重启 Agent"@) && chosen_action("restart"@)
            == MenuAction::Restart,
        menu()[3] == ("settings"@, "设置"@) && chosen_action("settings"@) == MenuAction::Show,
        menu()[4] == ("quit"@, "退出"@) && chosen_action("quit"@) == MenuAction::Quit,
        menu().len() == 5,
        id != "start"@ && id != "stop"@ && id != "restart"@ && id != "settings"@ && id != "quit"@
            ==> chosen_action(id) == MenuAction::Nothing,
{
    reveal_strlit("start");
    reveal_strlit("stop");
    reveal_strlit("restart");
    reveal_strlit("settings");
    reveal_strlit("quit");
    assert("start"@.len() == 5 && "stop"@.len() == 4 && "restart"@.len() == 7);
    assert("settings"@.len() == 8 && "quit"@.len() == 4);
    assert("stop"@[0] == 's' && "quit"@[0] == 'q');
}

} // verus!
