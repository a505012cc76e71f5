//! The window, the tray icon and the way the application is started.

use crate::text;
use vstd::prelude::*;

verus! {

/// The argument with which the application is started at login, minimised to the tray.
pub const HIDDEN_FLAG: &'static str = "--hidden";

/// The site that the window loads.
#[derive(Clone, Copy, Debug)]
pub struct Frontend {
    pub host: &'static str,
    pub url: &'static str,
}

/// What an entry of the tray menu does.
#[derive(Clone, Copy, Debug, PartialEq, Eq, Structural)]
pub enum MenuAction {
    Show,
    Quit,
    Ignore,
}

/// Whether the arguments ask for a start in the tray.
pub open spec fn asks_for_tray(args: Seq<String>) -> bool {
    exists|i: int| 0 <= i < args.len() && #[trigger] args[i]@ == HIDDEN_FLAG@
}

/// The site to load: the local server of a development build, or the public one.
pub fn frontend(debug: bool) -> (frontend: Frontend)
    ensures
        frontend.host@ == if debug {
            "localhost"@
        } else {
            "majournee.com"@
        },
        frontend.url@ == if debug {
            "http://localhost:1420"@
        } else {
            "https://majournee.com"@
        },
{
    if debug {
        Frontend { host: "localhost", url: "http://localhost:1420" }
    } else {
        Frontend { host: "majournee.com", url: "https://majournee.com" }
    }
}

/// The title of the window.
pub fn window_title(debug: bool) -> (title: &'static str)
    ensures
        title@ == if debug {
            "Ma Journée (DEV)"@
        } else {
            "Ma Journée"@
        },
{
    if debug {
        "Ma Journée (DEV)"
    } else {
        "Ma Journée"
    }
}

/// The tooltip of the tray icon.
pub fn tray_tooltip(debug: bool) -> (tooltip: &'static str)
    ensures
        tooltip@ == if debug {
            "Ma Journee (DEV)"@
        } else {
            "Ma Journee"@
        },
{
    if debug {
        "Ma Journee (DEV)"
    } else {
        "Ma Journee"
    }
}

/// The arguments to register for the start at login.
pub fn autostart_args() -> (args: Vec<&'static str>)
    ensures
        args@ == seq![HIDDEN_FLAG],
        args@.len() == 1,
        args@[0]@ == "--hidden"@,
{
    let mut args: Vec<&'static str> = Vec::new();
    args.push(HIDDEN_FLAG);
    proof {
        assert(args@ =~= seq![HIDDEN_FLAG]);
    }
    args
}

/// Whether the application starts without showing its window.
pub fn starts_hidden(args: &Vec<String>) -> (hidden: bool)
    ensures
        hidden == asks_for_tray(args@),
        hidden <==> exists|i: int| 0 <= i < args@.len() && #[trigger] args@[i]@ == "--hidden"@,
{
    for i in 0..args.len()
        invariant
            forall|j: int| 0 <= j < i ==> #[trigger] args@[j]@ != HIDDEN_FLAG@,
    {
        if text::same_text(args[i].as_str(), HIDDEN_FLAG) {
            proof {
                assert(args@[i as int]@ == HIDDEN_FLAG@);
            }
            return true;
        }
    }
    false
}

/// What the menu entry with the given identifier does.
pub fn menu_action(id: &str) -> (action: MenuAction)
    ensures
        action == if id@ == "show"@ {
            MenuAction::Show
        } else if id@ == "quit"@ {
            MenuAction::Quit
        } else {
            MenuAction::Ignore
        },
{
    if text::same_text(id, "show") {
        MenuAction::Show
    } else if text::same_text(id, "quit") {
        MenuAction::Quit
    } else {
        MenuAction::Ignore
    }
}

/// The platform as pages know it, from the name of the operating system.
pub fn get_platform(os: &str) -> (platform: &'static str)
    ensures
        platform@ == if os@ == "linux"@ || os@ == "windows"@ {
            os@
        } else {
            "other"@
        },
{
    if text::same_text(os, "linux") {
        "linux"
    } else if text::same_text(os, "windows") {
        "windows"
    } else {
        "other"
    }
}

/// A start at login is hidden, whatever other arguments come with it.
pub proof fn lemma_start_at_login_is_hidden(before: Seq<String>, flag: String, after: Seq<String>)
    requires
        flag@ == HIDDEN_FLAG@,
    ensures
        asks_for_tray(before.push(flag) + after),
{
    let args = before.push(flag) + after;
    assert(args[before.len() as int]@ == HIDDEN_FLAG@);
}

}
