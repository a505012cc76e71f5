//! The report that is written when the application panics.

use crate::text;
use vstd::prelude::*;

verus! {

/// Where a panic happened.
#[derive(Debug)]
pub struct PanicSite {
    pub file: String,
    pub line: u32,
    pub column: u32,
}

/// `file:line:column`, or that the place is not known.
pub open spec fn site_text(site: Option<PanicSite>) -> Seq<char> {
    match site {
        Some(site) => site.file@ + seq![':'] + text::decimal(site.line as nat) + seq![':']
            + text::decimal(site.column as nat),
        None => "emplacement inconnu"@,
    }
}

/// The characters of `s`, or of `otherwise` if there is none.
pub open spec fn text_or(s: Option<&str>, otherwise: Seq<char>) -> Seq<char> {
    match s {
        Some(s) => s@,
        None => otherwise,
    }
}

/// The report of a panic.
pub open spec fn report_text(
    version: Seq<char>,
    thread: Seq<char>,
    site: Seq<char>,
    message: Seq<char>,
    backtrace: Seq<char>,
) -> Seq<char> {
    "Ma Journee v"@ + version + " - panic sur le thread '"@ + thread + "' a "@ + site + "\n"@
        + message + "\n\nPile d'appels :\n"@ + backtrace + "\n"@
}

/// Where a panic happened, as text.
pub fn panic_location(site: &Option<PanicSite>) -> (location: String)
    ensures
        location@ == site_text(*site),
        location@ == match *site {
            Some(site) => site.file@ + seq![':'] + text::decimal(site.line as nat) + seq![':']
                + text::decimal(site.column as nat),
            None => "emplacement inconnu"@,
        },
{
    match site {
        Some(site) => {
            proof {
                reveal_strlit(":");
            }
            let mut location = site.file.clone();
            location.append(":");
            location.append(text::decimal_text(site.line).as_str());
            location.append(":");
            location.append(text::decimal_text(site.column).as_str());
            proof {
                assert(":"@ =~= seq![':']);
            }
            location
        },
        None => "emplacement inconnu".to_owned(),
    }
}

/// What a panic says. Its payload is a string slice or an owned string, if it is text at all.
pub fn panic_message(slice: Option<&str>, owned: Option<&str>) -> (message: String)
    ensures
        message@ == text_or(slice, text_or(owned, "message indisponible"@)),
        slice matches Some(text) ==> message@ == text@,
        slice is None ==> (owned matches Some(text) ==> message@ == text@),
        slice is None && owned is None ==> message@ == "message indisponible"@,
{
    match (slice, owned) {
        (Some(message), _) => message.to_owned(),
        (None, Some(message)) => message.to_owned(),
        (None, None) => "message indisponible".to_owned(),
    }
}

/// The report of a panic, with what is known of it.
pub fn panic_report(
    version: &str,
    thread: Option<&str>,
    site: &Option<PanicSite>,
    slice: Option<&str>,
    owned: Option<&str>,
    backtrace: &str,
) -> (report: String)
    ensures
        report@ == report_text(
            version@,
            text_or(thread, "inconnu"@),
            site_text(*site),
            text_or(slice, text_or(owned, "message indisponible"@)),
            backtrace@,
        ),
        report@ == "Ma Journee v"@ + version@ + " - panic sur le thread '"@ + (match thread {
            Some(thread) => thread@,
            None => "inconnu"@,
        }) + "' a "@ + (match *site {
            Some(site) => site.file@ + seq![':'] + text::decimal(site.line as nat) + seq![':']
                + text::decimal(site.column as nat),
            None => "emplacement inconnu"@,
        }) + "\n"@ + (match (slice, owned) {
            (Some(message), _) => message@,
            (None, Some(message)) => message@,
            (None, None) => "message indisponible"@,
        }) + "\n\nPile d'appels :\n"@ + backtrace@ + "\n"@,
{
    let location = panic_location(site);
    let message = panic_message(slice, owned);
    let thread = match thread {
        Some(thread) => thread,
        None => "inconnu",
    };
    let mut report = "Ma Journee v".to_owned();
    report.append(version);
    report.append(" - panic sur le thread '");
    report.append(thread);
    report.append("' a ");
    report.append(location.as_str());
    report.append("\n");
    report.append(message.as_str());
    report.append("\n\nPile d'appels :\n");
    report.append(backtrace);
    report.append("\n");
    report
}

/// A report holds what it is made of, whole and in order: it begins with the version, ends with
/// the backtrace, and the message stands between the place and the backtrace.
pub proof fn lemma_report_holds_its_parts(
    version: Seq<char>,
    thread: Seq<char>,
    site: Seq<char>,
    message: Seq<char>,
    backtrace: Seq<char>,
)
    ensures
        ({
            let report = report_text(version, thread, site, message, backtrace);
            let head = "Ma Journee v"@ + version + " - panic sur le thread '"@ + thread + "' a "@
                + site + "\n"@;
            let tail = "\n\nPile d'appels :\n"@ + backtrace + "\n"@;
            &&& report.len() == head.len() + message.len() + tail.len()
            &&& head.is_prefix_of(report)
            &&& report.subrange(head.len() as int, head.len() as int + message.len()) == message
            &&& tail.is_suffix_of(report)
        }),
{
    let report = report_text(version, thread, site, message, backtrace);
    let head = "Ma Journee v"@ + version + " - panic sur le thread '"@ + thread + "' a "@ + site
        + "\n"@;
    let tail = "\n\nPile d'appels :\n"@ + backtrace + "\n"@;
    assert(report =~= head + message + tail);
    assert(report.subrange(0, head.len() as int) =~= head);
    assert(report.subrange(head.len() as int, head.len() as int + message.len()) =~= message);
    assert(report.subrange(report.len() - tail.len(), report.len() as int) =~= tail);
}

}
