//! The cache of the web view, which is dropped when the application was updated.

use crate::text;
use vstd::prelude::*;

verus! {

/// What dropping the cache takes: the directories to remove below the data directory, and the
/// text to write to the marker file.
#[derive(Debug)]
pub struct CacheReset {
    pub directories: Vec<&'static str>,
    pub marker: String,
}

/// Whether the marker file names another version than the running one.
pub open spec fn version_differs(last: Seq<char>, current: Seq<char>) -> bool {
    text::trimmed(last) != current
}

/// Whether the version read from the marker file is not `current`. White space around what was
/// read is ignored.
pub fn has_version_changed(last: &str, current: &str) -> (changed: bool)
    ensures
        changed == version_differs(last@, current@),
        changed <==> text::trimmed(last@) != current@,
{
    !text::same_text(last.trim(), current)
}

/// Decides, from the marker file as far as it could be read, whether the cache is dropped.
pub fn clear_webview_cache_if_updated(last: Option<&str>, current: &str) -> (reset: Option<
    CacheReset,
>)
    ensures
        reset is Some <==> version_differs(
            match last {
                Some(last) => last@,
                None => Seq::empty(),
            },
            current@,
        ),
        last matches Some(last) ==> (reset is Some <==> text::trimmed(last@) != current@),
        last is None ==> (reset is Some <==> current@.len() > 0),
        reset matches Some(reset) ==> {
            &&& reset.directories@.len() == 3
            &&& reset.directories@[0]@ == "WebKitCache"@
            &&& reset.directories@[1]@ == "CacheStorage"@
            &&& reset.directories@[2]@ == "EBWebView"@
            &&& reset.marker@ == current@
        },
{
    proof {
        reveal_strlit("");
        assert(""@ =~= Seq::<char>::empty());
        if current@.len() == 0 {
            assert(current@ =~= Seq::<char>::empty());
        }
    }
    let last = match last {
        Some(last) => last,
        None => "",
    };
    if !has_version_changed(last, current) {
        return None;
    }
    let mut directories: Vec<&'static str> = Vec::new();
    // WebKitGTK
    directories.push("WebKitCache");
    directories.push("CacheStorage");
    // WebView2
    directories.push("EBWebView");
    Some(CacheReset { directories, marker: current.to_owned() })
}

/// Whether a text is white space throughout.
pub open spec fn is_blank(s: Seq<char>) -> bool {
    forall|i: int| 0 <= i < s.len() ==> text::is_white_space(#[trigger] s[i])
}

/// White space before and after the version in the marker file does not count.
pub proof fn lemma_white_space_around_is_ignored(
    before: Seq<char>,
    last: Seq<char>,
    after: Seq<char>,
    current: Seq<char>,
)
    requires
        is_blank(before),
        is_blank(after),
    ensures
        version_differs(before + last + after, current) == version_differs(last, current),
{
    lemma_leading_blank(before, last + after);
    assert(before + last + after =~= before + (last + after));
    lemma_trailing_blank(last, after);
}

/// The cache is dropped once per version: a marker that holds the running version, with or
/// without white space around it, does not ask for it again. This is said of versions that have
/// no white space of their own at either end.
pub proof fn lemma_reset_happens_once_per_version(
    before: Seq<char>,
    current: Seq<char>,
    after: Seq<char>,
)
    requires
        text::trimmed(current) == current,
        is_blank(before),
        is_blank(after),
    ensures
        !version_differs(before + current + after, current),
{
    lemma_white_space_around_is_ignored(before, current, after, current);
}

/// A first start, without a marker, counts as an update.
pub proof fn lemma_first_start_is_an_update(current: Seq<char>)
    requires
        current.len() > 0,
    ensures
        version_differs(Seq::empty(), current),
{
}

proof fn lemma_leading_blank(blank: Seq<char>, s: Seq<char>)
    requires
        is_blank(blank),
    ensures
        text::trimmed_start(blank + s) == text::trimmed_start(s),
    decreases blank.len(),
{
    if blank.len() > 0 {
        let rest = blank.drop_first();
        assert forall|i: int| 0 <= i < rest.len() implies text::is_white_space(
            #[trigger] rest[i],
        ) by {
            assert(rest[i] == blank[i + 1]);
        }
        assert(text::is_white_space(blank[0]));
        assert((blank + s).drop_first() =~= rest + s);
        lemma_leading_blank(rest, s);
    } else {
        assert(blank + s =~= s);
    }
}

proof fn lemma_blank_end(s: Seq<char>, blank: Seq<char>)
    requires
        is_blank(blank),
    ensures
        text::trimmed_end(s + blank) == text::trimmed_end(s),
    decreases blank.len(),
{
    if blank.len() > 0 {
        let rest = blank.drop_last();
        assert forall|i: int| 0 <= i < rest.len() implies text::is_white_space(
            #[trigger] rest[i],
        ) by {
            assert(rest[i] == blank[i]);
        }
        assert(text::is_white_space(blank[blank.len() - 1]));
        assert((s + blank).drop_last() =~= s + rest);
        lemma_blank_end(s, rest);
    } else {
        assert(s + blank =~= s);
    }
}

proof fn lemma_trailing_blank(s: Seq<char>, blank: Seq<char>)
    requires
        is_blank(blank),
    ensures
        text::trimmed(s + blank) == text::trimmed(s),
    decreases s.len(),
{
    if s.len() > 0 && text::is_white_space(s.first()) {
        assert((s + blank).drop_first() =~= s.drop_first() + blank);
        assert((s + blank).first() == s.first());
        lemma_trailing_blank(s.drop_first(), blank);
    } else if s.len() > 0 {
        assert((s + blank).first() == s.first());
        lemma_blank_end(s, blank);
    } else {
        assert(s + blank =~= blank);
        assert(blank + s =~= blank);
        lemma_leading_blank(blank, s);
    }
}

/// A marker asks for the reset exactly when it names another version, earlier or later, with or
/// without white space around it. This is said of versions in the marker that have no white space
/// of their own at either end; every text is such a version with white space around it.
pub proof fn lemma_any_other_version_is_a_change(
    before: Seq<char>,
    last: Seq<char>,
    after: Seq<char>,
    current: Seq<char>,
)
    requires
        is_blank(before),
        is_blank(after),
        last.len() > 0 ==> !text::is_white_space(last[0]) && !text::is_white_space(
            last[last.len() - 1],
        ),
    ensures
        version_differs(before + last + after, current) <==> last != current,
        version_differs(last, current) <==> last != current,
{
    lemma_white_space_around_is_ignored(before, last, after, current);
    assert(text::trimmed_start(last) == last);
    assert(text::trimmed_end(last) == last);
}

/// A version counts as changed in both directions: if going from one version to another is a
/// change, so is going back.
pub proof fn lemma_change_goes_both_ways(a: Seq<char>, b: Seq<char>)
    requires
        text::trimmed(a) == a,
        text::trimmed(b) == b,
    ensures
        version_differs(a, b) == version_differs(b, a),
        version_differs(a, b) <==> a != b,
{
}

}
