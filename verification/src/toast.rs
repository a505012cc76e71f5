//! System notifications: what is shown, how it is announced to the system, and what a click does.

use crate::text;
use vstd::prelude::*;

verus! {

/// A system notification to show.
#[derive(Debug)]
pub struct Toast {
    pub title: String,
    pub body: String,
}

/// What a [`Toast`] says.
#[verifier::ext_equal]
pub struct ToastText {
    pub title: Seq<char>,
    pub body: Seq<char>,
}

impl View for Toast {
    type V = ToastText;

    open spec fn view(&self) -> ToastText {
        ToastText { title: self.title@, body: self.body@ }
    }
}

/// What a list of toasts says.
pub open spec fn toast_texts(toasts: Seq<Toast>) -> Seq<ToastText> {
    toasts.map_values(|t: Toast| t@)
}

/// A notification as it is handed to the notification service.
#[derive(Debug)]
pub struct DesktopNotification {
    pub summary: String,
    pub body: String,
    /// Identifier and label of the one action announced, which a click on the body invokes.
    pub action: (String, String),
    /// The application identity under which it is shown, where one has to be set.
    pub app_id: Option<String>,
}

/// Whether `dir` is where development builds are put.
pub open spec fn is_build_dir(dir: Seq<char>, separator: Seq<char>) -> bool {
    ||| (separator + "target"@ + separator + "debug"@).is_suffix_of(dir)
    ||| (separator + "target"@ + separator + "release"@).is_suffix_of(dir)
}

/// Whether `dir` is a build directory, `separator` being what separates the parts of a path.
pub fn is_dev_target_dir(dir: &str, separator: &str) -> (is_build: bool)
    ensures
        is_build == is_build_dir(dir@, separator@),
{
    let mut debug = separator.to_owned();
    debug.append("target");
    debug.append(separator);
    let mut release = debug.clone();
    debug.append("debug");
    release.append("release");
    text::ends_with(dir, debug.as_str()) || text::ends_with(dir, release.as_str())
}

/// The notification to hand to the system. `executable_dir` is the directory of the executable
/// on systems where a notification carries an application identity: an installed binary shows
/// its own, a development build none.
pub fn send_notification(
    title: &str,
    body: &str,
    executable_dir: Option<&str>,
    separator: &str,
    identifier: &str,
) -> (notification: DesktopNotification)
    ensures
        notification.summary@ == title@,
        notification.body@ == body@,
        notification.action.0@ == "default"@,
        notification.action.1@ == "default"@,
        text::optional(notification.app_id) == if executable_dir matches Some(dir)
            && !is_build_dir(dir@, separator@) {
            Some(identifier@)
        } else {
            None
        },
{
    let app_id = match executable_dir {
        Some(dir) => if is_dev_target_dir(dir, separator) {
            None
        } else {
            Some(identifier.to_owned())
        },
        None => None,
    };
    DesktopNotification {
        summary: title.to_owned(),
        body: body.to_owned(),
        action: ("default".to_owned(), "default".to_owned()),
        app_id,
    }
}

/// Whether what the notification service reports is a click, which brings the main window back:
/// anything but the closing of the notification.
pub fn opens_main_window(action: &str) -> (opens: bool)
    ensures
        opens == (action@ != "__closed"@),
{
    !text::same_text(action, "__closed")
}

/// What stands for a toast is its title and its body, and what stands for a list of toasts holds
/// each of them in its place.
pub proof fn lemma_toast_texts_hold_every_field(toasts: Seq<Toast>)
    ensures
        toast_texts(toasts).len() == toasts.len(),
        forall|i: int|
            0 <= i < toasts.len() ==> (#[trigger] toast_texts(toasts)[i]).title
                == toasts[i].title@ && toast_texts(toasts)[i].body == toasts[i].body@,
{
}

/// The build directories are those whose path ends with the two of a development build, wherever
/// the sources are, and no others.
pub proof fn lemma_build_dirs(dir: Seq<char>, separator: Seq<char>)
    ensures
        is_build_dir(dir + separator + "target"@ + separator + "debug"@, separator),
        is_build_dir(dir + separator + "target"@ + separator + "release"@, separator),
        is_build_dir(dir, separator) ==> exists|root: Seq<char>|
            dir == #[trigger] (root + separator + "target"@ + separator + "debug"@) || dir == root
                + separator + "target"@ + separator + "release"@,
{
    let debug = separator + "target"@ + separator + "debug"@;
    let release = separator + "target"@ + separator + "release"@;
    let a = dir + separator + "target"@ + separator + "debug"@;
    let b = dir + separator + "target"@ + separator + "release"@;
    assert(a.subrange(a.len() - debug.len(), a.len() as int) =~= debug);
    assert(b.subrange(b.len() - release.len(), b.len() as int) =~= release);
    if debug.is_suffix_of(dir) {
        let root = dir.subrange(0, dir.len() - debug.len());
        assert(dir =~= root + debug);
        assert(root + separator + "target"@ + separator + "debug"@ =~= root + debug);
    } else if release.is_suffix_of(dir) {
        let root = dir.subrange(0, dir.len() - release.len());
        assert(dir =~= root + release);
        assert(root + separator + "target"@ + separator + "release"@ =~= root + release);
        assert(root + separator + "target"@ + separator + "debug"@ =~= root + debug);
    }
}

}
