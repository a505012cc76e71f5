//! Links: which of them may leave the window for the default application of the system.

use crate::text;
use vstd::prelude::*;

verus! {

/// Where a navigation of the main window leads.
#[derive(Clone, Copy, Debug, PartialEq, Eq, Structural)]
pub enum Navigation {
    /// The page is loaded in the window.
    Stay,
    /// The window stays where it is, and the address is opened by the system.
    OpenExternally,
    /// The window stays where it is, and nothing is opened.
    Refuse,
}

/// Whether the address begins with `https://`, `http://` or `mailto:`.
pub open spec fn has_allowed_scheme(url: Seq<char>) -> bool {
    ||| "https://"@.is_prefix_of(url)
    ||| "http://"@.is_prefix_of(url)
    ||| "mailto:"@.is_prefix_of(url)
}

/// Allows http, https and mailto only: the system would start a local program for some of the
/// other texts that a page could ask to open.
pub fn is_allowed_url_scheme(url: &str) -> (allowed: bool)
    ensures
        allowed == has_allowed_scheme(url@),
        allowed == ("https://"@.is_prefix_of(url@) || "http://"@.is_prefix_of(url@)
            || "mailto:"@.is_prefix_of(url@)),
{
    text::starts_with(url, "https://") || text::starts_with(url, "http://") || text::starts_with(
        url,
        "mailto:",
    )
}

/// A page asks to open `url`: the address to hand to the system, or the refusal.
pub fn open_url(url: String) -> (target: Result<String, String>)
    ensures
        target is Ok <==> has_allowed_scheme(url@),
        target is Ok <==> "https://"@.is_prefix_of(url@) || "http://"@.is_prefix_of(url@)
            || "mailto:"@.is_prefix_of(url@),
        target matches Ok(target) ==> target@ == url@,
        target matches Err(error) ==> error@ == "Schema non autorise"@,
{
    if is_allowed_url_scheme(url.as_str()) {
        Ok(url)
    } else {
        Err("Schema non autorise".to_owned())
    }
}

/// Keeps the window on the pages of its own host. Every other address is opened by the system if
/// its scheme is allowed, as for any address that a page asks to open, and refused otherwise.
pub fn navigate(url: &str, host: Option<&str>, frontend_host: &str) -> (navigation: Navigation)
    ensures
        navigation == if host matches Some(host) && host@ == frontend_host@ {
            Navigation::Stay
        } else if has_allowed_scheme(url@) {
            Navigation::OpenExternally
        } else {
            Navigation::Refuse
        },
{
    let is_own_page = match host {
        Some(host) => text::same_text(host, frontend_host),
        None => false,
    };
    if is_own_page {
        Navigation::Stay
    } else if is_allowed_url_scheme(url) {
        Navigation::OpenExternally
    } else {
        Navigation::Refuse
    }
}

/// Whatever does not begin with `h` or `m` is refused: local and network paths, the empty text,
/// and schemes such as `file:` and `javascript:`.
pub proof fn lemma_paths_are_refused(url: Seq<char>)
    requires
        url.len() == 0 || (url[0] != 'h' && url[0] != 'm'),
    ensures
        !has_allowed_scheme(url),
{
    reveal_strlit("https://");
    reveal_strlit("http://");
    reveal_strlit("mailto:");
    if "https://"@.is_prefix_of(url) {
        assert(url.subrange(0, 8)[0] == 'h');
    }
    if "http://"@.is_prefix_of(url) {
        assert(url.subrange(0, 7)[0] == 'h');
    }
    if "mailto:"@.is_prefix_of(url) {
        assert(url.subrange(0, 7)[0] == 'm');
    }
}

/// What follows the scheme does not matter: an allowed address stays allowed when it is extended.
pub proof fn lemma_only_the_scheme_matters(url: Seq<char>, rest: Seq<char>)
    requires
        has_allowed_scheme(url),
    ensures
        has_allowed_scheme(url + rest),
{
    assert forall|prefix: Seq<char>|
        prefix.is_prefix_of(url) implies #[trigger] prefix.is_prefix_of(url + rest) by {
        assert((url + rest).subrange(0, prefix.len() as int) =~= url.subrange(
            0,
            prefix.len() as int,
        ));
    }
}

/// The allowed addresses are those that an allowed scheme begins, whatever follows it, and no
/// others.
pub proof fn lemma_allowed_addresses(url: Seq<char>)
    ensures
        has_allowed_scheme("https://"@ + url),
        has_allowed_scheme("http://"@ + url),
        has_allowed_scheme("mailto:"@ + url),
        has_allowed_scheme(url) ==> exists|rest: Seq<char>|
            url == #[trigger] ("https://"@ + rest) || url == "http://"@ + rest || url == "mailto:"@
                + rest,
{
    assert forall|scheme: Seq<char>| #[trigger] scheme.is_prefix_of(scheme + url) by {
        assert((scheme + url).subrange(0, scheme.len() as int) =~= scheme);
    }
    let (a, b, c) = ("https://"@, "http://"@, "mailto:"@);
    if a.is_prefix_of(url) {
        let rest = url.subrange(a.len() as int, url.len() as int);
        assert(url =~= a + rest);
    } else if b.is_prefix_of(url) {
        let rest = url.subrange(b.len() as int, url.len() as int);
        assert(url =~= b + rest);
        assert(a + rest == a + rest);
    } else if c.is_prefix_of(url) {
        let rest = url.subrange(c.len() as int, url.len() as int);
        assert(url =~= c + rest);
        assert(a + rest == a + rest);
    }
}

}
