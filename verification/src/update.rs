//! New versions: what a check leads to, and when it is announced.

use crate::settings::DesktopAppSettings;
use crate::text;
use crate::toast::{Toast, ToastText};
use vstd::prelude::*;

verus! {

/// Seconds between two automatic checks.
pub const UPDATE_CHECK_INTERVAL_SECONDS: u64 = 6 * 3600;

/// What a check leads to.
#[derive(Debug)]
pub struct UpdateCheck {
    /// The version found, if any, or why the check failed.
    pub result: Result<Option<String>, String>,
    /// The announcement to show.
    pub toast: Option<Toast>,
}

/// What a check found.
pub enum Finding {
    NewVersion(Seq<char>),
    UpToDate,
    Failed(Seq<char>),
}

/// What the outcome of a check holds.
pub open spec fn finding_of(found: Result<Option<String>, String>) -> Finding {
    match found {
        Ok(Some(version)) => Finding::NewVersion(version@),
        Ok(None) => Finding::UpToDate,
        Err(error) => Finding::Failed(error@),
    }
}

/// The announcement of a version.
pub open spec fn announcement(version: Seq<char>) -> ToastText {
    ToastText {
        title: "Mise a jour disponible"@,
        body: "Version "@ + version + " disponible. Ouvrez Ma Journee pour l'installer."@,
    }
}

/// The version that waits to be installed after a check.
pub open spec fn pending_after(
    pending: Option<Seq<char>>,
    finding: Finding,
) -> Option<Seq<char>> {
    match finding {
        Finding::NewVersion(version) => Some(version),
        _ => pending,
    }
}

/// Whether a check is announced: it found a version other than the one already known, and
/// announcements are switched on.
pub open spec fn is_announced(known: Option<Seq<char>>, finding: Finding, enabled: bool) -> bool {
    finding matches Finding::NewVersion(version) && known != Some(version) && enabled
}

/// Decides what follows from a check. `known` is the version that was waiting when the check
/// began, and `found` what the check answered.
pub fn check_for_update(
    known: &Option<String>,
    found: Result<Option<String>, String>,
    settings: &DesktopAppSettings,
    pending: &mut Option<String>,
) -> (check: UpdateCheck)
    ensures
        finding_of(check.result) == finding_of(found),
        text::optional(*final(pending)) == pending_after(
            text::optional(*old(pending)),
            finding_of(found),
        ),
        check.toast is Some <==> is_announced(
            text::optional(*known),
            finding_of(found),
            settings.update_notif_enabled,
        ),
        check.toast matches Some(toast) ==> finding_of(found) matches Finding::NewVersion(version)
            && toast@ == announcement(version),
        match found {
            Ok(Some(version)) => {
                &&& check.result matches Ok(Some(v)) && v@ == version@
                &&& *final(pending) matches Some(v) && v@ == version@
                &&& check.toast is Some <==> settings.update_notif_enabled && !(*known matches Some(
                    known,
                ) && known@ == version@)
                &&& check.toast matches Some(toast) ==> toast.title@ == "Mise a jour disponible"@
                    && toast.body@ == "Version "@ + version@
                    + " disponible. Ouvrez Ma Journee pour l'installer."@
            },
            Ok(None) => {
                &&& check.result matches Ok(None)
                &&& *final(pending) == *old(pending)
                &&& check.toast is None
            },
            Err(error) => {
                &&& check.result matches Err(e) && e@ == error@
                &&& *final(pending) == *old(pending)
                &&& check.toast is None
            },
        },
{
    match found {
        Ok(Some(version)) => {
            *pending = Some(version.clone());
            let is_known = match known {
                Some(known) => *known == version,
                None => false,
            };
            let toast = if !is_known && settings.update_notif_enabled {
                let mut body = "Version ".to_owned();
                body.append(version.as_str());
                body.append(" disponible. Ouvrez Ma Journee pour l'installer.");
                Some(Toast { title: "Mise a jour disponible".to_owned(), body })
            } else {
                None
            };
            UpdateCheck { result: Ok(Some(version)), toast }
        },
        Ok(None) => UpdateCheck { result: Ok(None), toast: None },
        Err(error) => UpdateCheck { result: Err(error), toast: None },
    }
}

/// The version that waits to be installed.
pub fn get_pending_update(pending: &Option<String>) -> (version: Option<String>)
    ensures
        text::optional(version) == text::optional(*pending),
        version is Some <==> *pending is Some,
        version matches Some(v) ==> v@ == pending->0@,
{
    pending.clone()
}

/// Decides whether to install, from the check that precedes it: the version to download, or the
/// error to report.
pub fn install_update(found: Result<Option<String>, String>) -> (version: Result<String, String>)
    ensures
        match (finding_of(found), version) {
            (Finding::NewVersion(wanted), Ok(version)) => version@ == wanted,
            (Finding::UpToDate, Err(error)) => error@ == "Aucune mise a jour disponible"@,
            (Finding::Failed(reason), Err(error)) => error@ == reason,
            _ => false,
        },
        version is Ok <==> found matches Ok(Some(_)),
        found matches Ok(Some(wanted)) ==> version->Ok_0@ == wanted@,
        found matches Ok(None) ==> version->Err_0@ == "Aucune mise a jour disponible"@,
        found matches Err(reason) ==> version->Err_0@ == reason@,
{
    match found {
        Ok(Some(version)) => Ok(version),
        Ok(None) => Err("Aucune mise a jour disponible".to_owned()),
        Err(error) => Err(error),
    }
}

/// One of a series of checks: what it found, and whether announcements were switched on.
pub struct Check {
    pub finding: Finding,
    pub enabled: bool,
}

/// The version that waits after a series of checks.
pub open spec fn pending_after_all(
    pending: Option<Seq<char>>,
    checks: Seq<Check>,
) -> Option<Seq<char>>
    decreases checks.len(),
{
    if checks.len() == 0 {
        pending
    } else {
        pending_after(pending_after_all(pending, checks.drop_last()), checks.last().finding)
    }
}

/// The announcements of a series of checks, one after the other.
pub open spec fn announcements(pending: Option<Seq<char>>, checks: Seq<Check>) -> Seq<ToastText>
    decreases checks.len(),
{
    if checks.len() == 0 {
        Seq::empty()
    } else {
        let earlier = announcements(pending, checks.drop_last());
        let known = pending_after_all(pending, checks.drop_last());
        if is_announced(known, checks.last().finding, checks.last().enabled) {
            earlier.push(announcement(checks.last().finding->NewVersion_0))
        } else {
            earlier
        }
    }
}

/// Whether every version that the checks find is `version`.
pub open spec fn find_only(checks: Seq<Check>, version: Seq<char>) -> bool {
    forall|i: int|
        0 <= i < checks.len() ==> (#[trigger] checks[i].finding matches Finding::NewVersion(v)
            ==> v == version)
}

/// Whether one of the checks finds a version.
pub open spec fn find_some(checks: Seq<Check>) -> bool {
    exists|i: int| 0 <= i < checks.len() && #[trigger] checks[i].finding is NewVersion
}

/// A version is announced at most once, however often it is found, as long as no other version is
/// found in between: never if it was known from the start, and once if announcements are
/// switched on throughout.
pub proof fn lemma_version_is_announced_once(
    pending: Option<Seq<char>>,
    checks: Seq<Check>,
    version: Seq<char>,
)
    requires
        find_only(checks, version),
    ensures
        announcements(pending, checks) == Seq::<ToastText>::empty() || announcements(
            pending,
            checks,
        ) == seq![announcement(version)],
        pending == Some(version) || !find_some(checks) ==> announcements(pending, checks) == Seq::<
            ToastText,
        >::empty(),
        pending != Some(version) && find_some(checks) && (forall|i: int|
            0 <= i < checks.len() ==> #[trigger] checks[i].enabled) ==> announcements(
            pending,
            checks,
        ) == seq![announcement(version)],
        pending_after_all(pending, checks) == if find_some(checks) {
            Some(version)
        } else {
            pending
        },
    decreases checks.len(),
{
    if checks.len() > 0 {
        let earlier = checks.drop_last();
        let last = checks.len() - 1;
        assert(forall|i: int| 0 <= i < last ==> #[trigger] earlier[i] == checks[i]);
        assert(find_only(earlier, version));
        lemma_version_is_announced_once(pending, earlier, version);
        if find_some(earlier) {
            let i = choose|i: int|
                0 <= i < earlier.len() && #[trigger] earlier[i].finding is NewVersion;
            assert(checks[i].finding is NewVersion);
        }
        if checks[last].finding is NewVersion {
            assert(find_some(checks));
        } else if find_some(checks) {
            let i = choose|i: int|
                0 <= i < checks.len() && #[trigger] checks[i].finding is NewVersion;
            assert(earlier[i].finding is NewVersion);
        }
        if forall|i: int| 0 <= i < checks.len() ==> #[trigger] checks[i].enabled {
            assert forall|i: int| 0 <= i < earlier.len() implies #[trigger] earlier[i].enabled by {
                assert(checks[i].enabled);
            }
            assert(checks[last].enabled);
        }
        assert(Seq::<ToastText>::empty().push(announcement(version)) =~= seq![
            announcement(version),
        ]);
    }
}

/// A version that is not the one waiting is announced as soon as it is found, if announcements
/// are switched on.
pub proof fn lemma_other_version_is_announced(
    pending: Option<Seq<char>>,
    checks: Seq<Check>,
    version: Seq<char>,
)
    requires
        pending_after_all(pending, checks) != Some(version),
    ensures
        announcements(
            pending,
            checks.push(Check { finding: Finding::NewVersion(version), enabled: true }),
        ) == announcements(pending, checks).push(announcement(version)),
{
    let all = checks.push(Check { finding: Finding::NewVersion(version), enabled: true });
    assert(all.drop_last() =~= checks);
}

/// Checks that fail or find nothing leave the version that waits, and announce nothing.
pub proof fn lemma_fruitless_checks_change_nothing(pending: Option<Seq<char>>, checks: Seq<Check>)
    requires
        !find_some(checks),
    ensures
        pending_after_all(pending, checks) == pending,
        announcements(pending, checks) == Seq::<ToastText>::empty(),
{
    lemma_version_is_announced_once(pending, checks, Seq::empty());
}

/// A check is announced exactly when it finds a version, announcements are switched on, and the
/// version is not the one already known: neither a check that finds nothing, nor a known version,
/// nor any version while announcements are switched off.
pub proof fn lemma_when_a_check_is_announced(
    known: Option<Seq<char>>,
    version: Seq<char>,
    reason: Seq<char>,
    enabled: bool,
)
    ensures
        !is_announced(known, Finding::NewVersion(version), false),
        !is_announced(Some(version), Finding::NewVersion(version), enabled),
        !is_announced(known, Finding::UpToDate, enabled),
        !is_announced(known, Finding::Failed(reason), enabled),
        known != Some(version) ==> is_announced(known, Finding::NewVersion(version), true),
{
}

/// While announcements are switched off, no series of checks announces anything.
pub proof fn lemma_nothing_is_announced_while_switched_off(
    pending: Option<Seq<char>>,
    checks: Seq<Check>,
)
    requires
        forall|i: int| 0 <= i < checks.len() ==> !(#[trigger] checks[i]).enabled,
    ensures
        announcements(pending, checks).len() == 0,
    decreases checks.len(),
{
    if checks.len() > 0 {
        let earlier = checks.drop_last();
        assert forall|i: int| 0 <= i < earlier.len() implies !(#[trigger] earlier[i]).enabled by {
            assert(earlier[i] == checks[i]);
        }
        lemma_nothing_is_announced_while_switched_off(pending, earlier);
        assert(!checks[checks.len() - 1].enabled);
    }
}

/// The version that waits is the last one found, whatever was known before and whether or not it
/// was announced.
pub proof fn lemma_last_version_found_waits(
    pending: Option<Seq<char>>,
    checks: Seq<Check>,
    version: Seq<char>,
    enabled: bool,
)
    ensures
        pending_after(pending, Finding::NewVersion(version)) == Some(version),
        pending_after_all(
            pending,
            checks.push(Check { finding: Finding::NewVersion(version), enabled }),
        ) == Some(version),
{
    let all = checks.push(Check { finding: Finding::NewVersion(version), enabled });
    assert(all.drop_last() =~= checks);
}

/// An announcement names its version.
pub proof fn lemma_announcement_names_the_version(version: Seq<char>)
    ensures
        announcement(version).title == "Mise a jour disponible"@,
        announcement(version).body.len() == "Version "@.len() + version.len()
            + " disponible. Ouvrez Ma Journee pour l'installer."@.len(),
        announcement(version).body.subrange(
            "Version "@.len() as int,
            "Version "@.len() as int + version.len(),
        ) == version,
        "Version "@.is_prefix_of(announcement(version).body),
        " disponible. Ouvrez Ma Journee pour l'installer."@.is_suffix_of(
            announcement(version).body,
        ),
{
    let body = announcement(version).body;
    let (head, tail) = ("Version "@, " disponible. Ouvrez Ma Journee pour l'installer."@);
    assert(body.subrange(head.len() as int, head.len() as int + version.len()) =~= version);
    assert(body.subrange(0, head.len() as int) =~= head);
    assert(body.subrange(body.len() - tail.len(), body.len() as int) =~= tail);
}

/// What stands for the outcome of a check says which of the three it was, with its text.
pub proof fn lemma_finding_tells_the_outcome(found: Result<Option<String>, String>)
    ensures
        found matches Ok(Some(version)) ==> finding_of(found) == Finding::NewVersion(version@),
        found matches Ok(None) ==> finding_of(found) == Finding::UpToDate,
        found matches Err(error) ==> finding_of(found) == Finding::Failed(error@),
{
}

/// Checks follow one another: a check adds its announcement to those before it exactly when it
/// finds a version, announcements are switched on, and the version is not the one that waits; and
/// the version that it finds is the one that waits from there on.
pub proof fn lemma_checks_follow_one_another(
    pending: Option<Seq<char>>,
    checks: Seq<Check>,
    check: Check,
)
    ensures
        announcements(pending, Seq::empty()).len() == 0,
        pending_after_all(pending, Seq::empty()) == pending,
        ({
            let earlier = announcements(pending, checks);
            let known = pending_after_all(pending, checks);
            let all = announcements(pending, checks.push(check));
            match check.finding {
                Finding::NewVersion(version) => {
                    &&& check.enabled && known != Some(version) ==> all == earlier.push(
                        announcement(version),
                    )
                    &&& !check.enabled || known == Some(version) ==> all == earlier
                    &&& pending_after_all(pending, checks.push(check)) == Some(version)
                },
                _ => {
                    &&& all == earlier
                    &&& pending_after_all(pending, checks.push(check)) == known
                },
            }
        }),
{
    assert(checks.push(check).drop_last() =~= checks);
}

/// The automatic checks come four times a day.
pub proof fn lemma_four_checks_a_day()
    ensures
        UPDATE_CHECK_INTERVAL_SECONDS * 4 == 24 * 3600,
{
}

}
