//! From the identifier that a source map records for a file to the relative
//! path under which the file is written.

use vstd::prelude::*;
use vstd::string::*;

verus! {

/// Whether `c` is one of the characters `? % * | : " < >`, which restrictive
/// filesystems refuse in a file name.
pub open spec fn is_reserved(c: char) -> bool {
    c == '?' || c == '%' || c == '*' || c == '|' || c == ':' || c == '"' || c == '<' || c == '>'
}

/// `text` without its reserved characters.
pub open spec fn without_reserved(text: Seq<char>) -> Seq<char> {
    text.filter(|c: char| !is_reserved(c))
}

/// The scheme prefix that is taken off an identifier.
pub open spec fn scheme_prefix() -> Seq<char> {
    "webpack:///"@
}

/// `text` without the scheme prefix, where it starts with it. The prefix is
/// taken off once.
pub open spec fn without_scheme(text: Seq<char>) -> Seq<char> {
    if scheme_prefix().is_prefix_of(text) {
        text.skip(scheme_prefix().len() as int)
    } else {
        text
    }
}

/// Whether `c` is `.` or `/`, the characters that are trimmed off the front.
pub open spec fn is_marker(c: char) -> bool {
    c == '.' || c == '/'
}

/// The number of markers that `text` starts with.
pub open spec fn leading_markers(text: Seq<char>) -> nat
    decreases text.len(),
{
    if text.len() > 0 && is_marker(text[0]) {
        1 + leading_markers(text.drop_first())
    } else {
        0
    }
}

/// `text` without the markers it starts with.
pub open spec fn trimmed(text: Seq<char>) -> Seq<char> {
    text.skip(leading_markers(text) as int)
}

/// The identifier after the first step: without its reserved characters in
/// restrictive mode, unchanged otherwise.
pub open spec fn cleaned(raw: Seq<char>, restrictive: bool) -> Seq<char> {
    if restrictive {
        without_reserved(raw)
    } else {
        raw
    }
}

/// The relative path that stands for an identifier.
pub open spec fn sanitized(raw: Seq<char>, restrictive: bool) -> Seq<char> {
    trimmed(without_scheme(cleaned(raw, restrictive)))
}

/// The pattern of the character class that holds the reserved characters.
pub open spec fn reserved_class() -> Seq<char> {
    "[?%*|:\"<>]"@
}

/// Compiles `pattern` with `regex::Regex::new` and calls `Regex::replace_all`
/// on `text`. The pattern is the class of the reserved characters and the
/// replacement is empty: each match is one such character, and replacing all
/// of them by nothing leaves the other characters in their order.
#[verifier::external_body]
fn replace_all(pattern: &str, text: &str, replacement: &str) -> (replaced: String)
    requires
        pattern@ == reserved_class(),
        replacement@.len() == 0,
    ensures
        replaced@ == without_reserved(text@),
{
    regex::Regex::new(pattern).unwrap().replace_all(text, replacement).into_owned()
}

/// Whether `text` starts with `prefix`.
pub fn starts_with(text: &str, prefix: &str) -> (found: bool)
    ensures
        found == prefix@.is_prefix_of(text@),
{
    let text_len = text.unicode_len();
    let prefix_len = prefix.unicode_len();
    if prefix_len > text_len {
        return false;
    }
    let mut i: usize = 0;
    while i < prefix_len
        invariant
            i <= prefix_len <= text_len,
            prefix_len == prefix@.len(),
            text_len == text@.len(),
            forall|j: int| 0 <= j < i ==> prefix@[j] == text@[j],
        decreases prefix_len - i,
    {
        if text.get_char(i) != prefix.get_char(i) {
            assert(prefix@[i as int] != text@.subrange(0, prefix@.len() as int)[i as int]);
            return false;
        }
        i = i + 1;
    }
    assert(prefix@ =~= text@.subrange(0, prefix@.len() as int));
    true
}

/// Turns the identifier that a source map records for a file into the
/// relative path of that file under the output root.
///
/// In restrictive mode the characters `? % * | : " < >` are taken out first.
/// Then a leading `webpack:///` is taken off, and after it every leading `.`
/// and `/`.
pub fn sanitize(raw: &str, restrictive: bool) -> (fragment: String)
    ensures
        fragment@ == sanitized(raw@, restrictive),
{
    let kept: String = if restrictive {
        proof {
            reveal_strlit("");
        }
        replace_all("[?%*|:\"<>]", raw, "")
    } else {
        raw.to_owned()
    };
    let text = kept.as_str();
    let len = text.unicode_len();
    let scheme = "webpack:///";
    let mut start: usize = if starts_with(text, scheme) {
        scheme.unicode_len()
    } else {
        0
    };
    assert(text@.skip(0) =~= text@);
    while start < len
        invariant
            start <= len,
            len == text@.len(),
            sanitized(raw@, restrictive) == trimmed(text@.skip(start as int)),
        ensures
            start == len || !is_marker(text@[start as int]),
        decreases len - start,
    {
        let c = text.get_char(start);
        if !(c == '.' || c == '/') {
            break;
        }
        proof {
            let rest = text@.skip(start as int);
            assert(rest[0] == c);
            assert(rest.drop_first() =~= text@.skip(start as int + 1));
            lemma_leading_markers_end(rest.drop_first());
            assert(trimmed(rest) =~= trimmed(rest.drop_first()));
        }
        start = start + 1;
    }
    proof {
        let rest = text@.skip(start as int);
        assert(leading_markers(rest) == 0);
        assert(trimmed(rest) =~= text@.subrange(start as int, len as int));
    }
    text.substring_char(start, len).to_owned()
}


/// Past its leading markers a text is at its end, or at a character that is
/// no marker.
pub proof fn lemma_leading_markers_end(text: Seq<char>)
    ensures
        leading_markers(text) <= text.len(),
        leading_markers(text) < text.len() ==> !is_marker(text[leading_markers(text) as int]),
        forall|i: int| 0 <= i < leading_markers(text) ==> is_marker(#[trigger] text[i]),
    decreases text.len(),
{
    if text.len() > 0 && is_marker(text[0]) {
        let rest = text.drop_first();
        lemma_leading_markers_end(rest);
        assert forall|i: int| 0 <= i < leading_markers(text) implies is_marker(
            #[trigger] text[i],
        ) by {
            if i > 0 {
                assert(text[i] == rest[i - 1]);
            }
        }
    }
}

/// Markers in front of a text do not change what trimming leaves of it.
pub proof fn lemma_trimmed_skips_markers(lead: Seq<char>, rest: Seq<char>)
    requires
        forall|i: int| 0 <= i < lead.len() ==> is_marker(#[trigger] lead[i]),
    ensures
        trimmed(lead + rest) == trimmed(rest),
    decreases lead.len(),
{
    if lead.len() == 0 {
        assert(lead + rest =~= rest);
    } else {
        let whole = lead + rest;
        assert(whole[0] == lead[0]);
        assert(whole.drop_first() =~= lead.drop_first() + rest);
        assert forall|i: int| 0 <= i < lead.drop_first().len() implies is_marker(
            #[trigger] lead.drop_first()[i],
        ) by {
            assert(lead.drop_first()[i] == lead[i + 1]);
        }
        lemma_trimmed_skips_markers(lead.drop_first(), rest);
        lemma_leading_markers_end(whole.drop_first());
        assert(trimmed(whole) =~= trimmed(whole.drop_first()));
    }
}

/// A relative path never starts with `.` or `/`: it names nothing above the
/// output root and no root of its own.
pub proof fn lemma_fragment_starts_clean(raw: Seq<char>, restrictive: bool)
    ensures
        sanitized(raw, restrictive).len() == 0 || !is_marker(sanitized(raw, restrictive)[0]),
{
    lemma_leading_markers_end(without_scheme(cleaned(raw, restrictive)));
}

/// A run of `.` and `/` in front of an identifier, however long, leaves no
/// trace: the relative path is that of the rest, trimmed.
pub proof fn lemma_leading_traversal_vanishes(lead: Seq<char>, rest: Seq<char>, restrictive: bool)
    requires
        lead.len() > 0,
        forall|i: int| 0 <= i < lead.len() ==> is_marker(#[trigger] lead[i]),
    ensures
        sanitized(lead + rest, restrictive) == trimmed(cleaned(rest, restrictive)),
{
    let keep = |c: char| !is_reserved(c);
    let kept = cleaned(lead + rest, restrictive);
    if restrictive {
        Seq::filter_distributes_over_add(lead, rest, keep);
        lemma_filter_keeps_all(lead, keep);
    }
    assert(kept == lead + cleaned(rest, restrictive));
    reveal_strlit("webpack:///");
    assert(scheme_prefix()[0] == 'w');
    assert(kept[0] == lead[0]);
    if scheme_prefix().is_prefix_of(kept) {
        assert(kept.subrange(0, scheme_prefix().len() as int)[0] == kept[0]);
    }
    assert(without_scheme(kept) == kept);
    lemma_trimmed_skips_markers(lead, cleaned(rest, restrictive));
}

/// Filtering keeps a sequence whose items all pass.
pub proof fn lemma_filter_keeps_all<A>(items: Seq<A>, keep: spec_fn(A) -> bool)
    requires
        forall|i: int| 0 <= i < items.len() ==> keep(#[trigger] items[i]),
    ensures
        items.filter(keep) == items,
    decreases items.len(),
{
    reveal(Seq::filter);
    if items.len() > 0 {
        assert forall|i: int| 0 <= i < items.drop_last().len() implies keep(
            #[trigger] items.drop_last()[i],
        ) by {
            assert(items.drop_last()[i] == items[i]);
        }
        lemma_filter_keeps_all(items.drop_last(), keep);
        assert(items.drop_last().push(items.last()) =~= items);
    }
}

/// In restrictive mode a relative path holds none of the characters
/// `? % * | : " < >`, whatever the identifier.
pub proof fn lemma_restrictive_fragment_has_no_reserved(raw: Seq<char>)
    ensures
        forall|i: int|
            0 <= i < sanitized(raw, true).len() ==> !is_reserved(
                #[trigger] sanitized(raw, true)[i],
            ),
{
    let keep = |c: char| !is_reserved(c);
    let kept = raw.filter(keep);
    let bare = without_scheme(kept);
    let lead = leading_markers(bare) as int;
    lemma_leading_markers_end(bare);
    let offset: int = if scheme_prefix().is_prefix_of(kept) {
        scheme_prefix().len() as int
    } else {
        0
    };
    assert(bare == kept.skip(offset));
    assert forall|i: int| 0 <= i < sanitized(raw, true).len() implies !is_reserved(
        #[trigger] sanitized(raw, true)[i],
    ) by {
        assert(sanitized(raw, true)[i] == kept[offset + lead + i]);
        raw.lemma_filter_pred(keep, offset + lead + i);
    }
}

/// Whether `..` stands at `at` as a whole segment of the path: between
/// slashes, or at an end of the path.
pub open spec fn steps_up_at(path: Seq<char>, at: int) -> bool {
    &&& 0 <= at
    &&& at + 2 <= path.len()
    &&& path[at] == '.'
    &&& path[at + 1] == '.'
    &&& (at == 0 || path[at - 1] == '/')
    &&& (at + 2 == path.len() || path[at + 2] == '/')
}

/// Whether a path holds a `..` segment: a step to the directory above.
pub open spec fn steps_up(path: Seq<char>) -> bool {
    exists|at: int| steps_up_at(path, at)
}

/// Trimming makes no `..` segment: one in what is left was one before.
pub proof fn lemma_trimming_adds_no_step_up(text: Seq<char>)
    ensures
        steps_up(trimmed(text)) ==> steps_up(text),
{
    if steps_up(trimmed(text)) {
        let lead = leading_markers(text) as int;
        let at = choose|at: int| steps_up_at(trimmed(text), at);
        lemma_leading_markers_end(text);
        assert(trimmed(text)[at] == text[lead + at]);
        assert(at > 0);
        assert(steps_up_at(text, lead + at));
    }
}

/// Taking the scheme off makes no `..` segment: one in what is left was one
/// before.
pub proof fn lemma_scheme_hides_no_step_up(text: Seq<char>)
    ensures
        steps_up(without_scheme(text)) ==> steps_up(text),
{
    if steps_up(without_scheme(text)) && scheme_prefix().is_prefix_of(text) {
        reveal_strlit("webpack:///");
        let lead = scheme_prefix().len() as int;
        let at = choose|at: int| steps_up_at(without_scheme(text), at);
        assert(text.subrange(0, lead)[lead - 1] == '/');
        assert(without_scheme(text)[at] == text[lead + at]);
        assert(steps_up_at(text, lead + at));
    }
}

/// A run of `.` and `/` in front of a path gets no identifier above the
/// output root: where what follows the run holds no `..` segment, the
/// relative path holds none, and it never starts with `.` or `/`. A `..`
/// behind the first name of an identifier is kept as it is.
pub proof fn lemma_leading_traversal_cannot_escape(
    lead: Seq<char>,
    rest: Seq<char>,
    restrictive: bool,
)
    requires
        forall|i: int| 0 <= i < lead.len() ==> is_marker(#[trigger] lead[i]),
        !steps_up(cleaned(rest, restrictive)),
    ensures
        !steps_up(sanitized(lead + rest, restrictive)),
        sanitized(lead + rest, restrictive).len() == 0 || !is_marker(
            sanitized(lead + rest, restrictive)[0],
        ),
{
    lemma_fragment_starts_clean(lead + rest, restrictive);
    if lead.len() > 0 {
        lemma_leading_traversal_vanishes(lead, rest, restrictive);
        lemma_trimming_adds_no_step_up(cleaned(rest, restrictive));
    } else {
        assert(lead + rest =~= rest);
        lemma_trimming_adds_no_step_up(without_scheme(cleaned(rest, restrictive)));
        lemma_scheme_hides_no_step_up(cleaned(rest, restrictive));
    }
}

} // verus!
