//! What is decided before the work starts: whether to look for updates, and which version of
//! Rekordbox to expect.
use crate::output::{Level, Output, OutputView};
use crate::protocol::Fault;
use vstd::prelude::*;
use vstd::string::*;

verus! {

/// The first text comes before the second in the order of their characters, or is the same.
pub open spec fn at_most(a: Seq<char>, b: Seq<char>) -> bool
    decreases a.len(),
{
    if a.len() == 0 {
        true
    } else if b.len() == 0 {
        false
    } else if a[0] == b[0] {
        at_most(a.skip(1), b.skip(1))
    } else {
        a[0] < b[0]
    }
}

/// Each text comes before none that stands ahead of it.
pub open spec fn is_descending(texts: Seq<Seq<char>>) -> bool {
    forall|i: int, j: int| 0 <= i <= j < texts.len() ==> at_most(#[trigger] texts[j], #[trigger] texts[i])
}

/// The two lists hold the same texts, each as often.
pub open spec fn is_rearranged(a: Seq<Seq<char>>, b: Seq<Seq<char>>) -> bool {
    a.to_multiset() == b.to_multiset()
}

/// The texts in descending order.
pub open spec fn in_descending_order(texts: Seq<Seq<char>>) -> Seq<Seq<char>> {
    choose|sorted: Seq<Seq<char>>| #[trigger] is_descending(sorted) && is_rearranged(sorted, texts)
}

proof fn lemma_at_most_itself(a: Seq<char>)
    ensures
        at_most(a, a),
    decreases a.len(),
{
    if a.len() > 0 {
        lemma_at_most_itself(a.skip(1));
    }
}

/// The texts are ordered linearly.
pub proof fn lemma_texts_are_ordered(a: Seq<char>, b: Seq<char>, c: Seq<char>)
    ensures
        at_most(a, a),
        at_most(a, b) || at_most(b, a),
        at_most(a, b) && at_most(b, a) ==> a == b,
        at_most(a, b) && at_most(b, c) ==> at_most(a, c),
    decreases a.len() + b.len() + c.len(),
{
    lemma_at_most_itself(a);
    if a.len() > 0 {
        if b.len() > 0 {
            if c.len() > 0 {
                lemma_texts_are_ordered(a.skip(1), b.skip(1), c.skip(1));
            } else {
                lemma_texts_are_ordered(a.skip(1), b.skip(1), c);
            }
            if a[0] == b[0] && a.skip(1) == b.skip(1) {
                assert(a =~= seq![a[0]] + a.skip(1));
                assert(b =~= seq![b[0]] + b.skip(1));
            }
        }
    } else if at_most(b, a) {
        assert(a =~= b);
    }
}

fn comes_no_later(a: &Vec<char>, b: &Vec<char>) -> (r: bool)
    ensures
        r == at_most(a@, b@),
{
    let mut i: usize = 0;
    assert(a@.skip(0) =~= a@);
    assert(b@.skip(0) =~= b@);
    while i < a.len() && i < b.len() && a[i] == b[i]
        invariant
            i <= a.len(),
            i <= b.len(),
            at_most(a@, b@) == at_most(a@.skip(i as int), b@.skip(i as int)),
        decreases a.len() - i,
    {
        assert(a@.skip(i as int).skip(1) =~= a@.skip(i as int + 1));
        assert(b@.skip(i as int).skip(1) =~= b@.skip(i as int + 1));
        i += 1;
    }
    if i >= a.len() {
        true
    } else if i >= b.len() {
        false
    } else {
        a[i] < b[i]
    }
}

/// Where a text belongs in a list in descending order: behind all that do not come before it.
fn place(sorted: &Vec<String>, text: &str) -> (at: usize)
    requires
        is_descending(crate::reading::text_views(sorted@)),
    ensures
        at <= sorted.len(),
        forall|j: int| 0 <= j < at ==> at_most(text@, #[trigger] sorted@[j]@),
        forall|j: int| at <= j < sorted.len() ==> at_most(#[trigger] sorted@[j]@, text@),
{
    let ghost views = crate::reading::text_views(sorted@);
    let chars = crate::text::to_chars(text);
    let mut at: usize = 0;
    while at < sorted.len()
        invariant
            at <= sorted.len(),
            chars@ == text@,
            views == crate::reading::text_views(sorted@),
            is_descending(views),
            forall|j: int| 0 <= j < at ==> at_most(text@, #[trigger] sorted@[j]@),
        decreases sorted.len() - at,
    {
        let other = crate::text::to_chars(sorted[at].as_str());
        if !comes_no_later(&chars, &other) {
            proof {
                lemma_texts_are_ordered(text@, other@, other@);
                assert forall|j: int| at <= j < sorted.len() implies at_most(
                    #[trigger] sorted@[j]@,
                    text@,
                ) by {
                    assert(views[j] == sorted@[j]@ && views[at as int] == other@);
                    lemma_texts_are_ordered(sorted@[j]@, other@, text@);
                }
            }
            return at;
        }
        at += 1;
    }
    at
}

/// The versions in descending order.
pub fn descending_versions(versions: Vec<String>) -> (r: Vec<String>)
    ensures
        crate::reading::text_views(r@) == in_descending_order(
            crate::reading::text_views(versions@),
        ),
{
    let ghost given = crate::reading::text_views(versions@);
    let mut r: Vec<String> = Vec::new();
    let mut i: usize = 0;
    assert(crate::reading::text_views(r@) =~= given.take(0));
    while i < versions.len()
        invariant
            i <= versions.len(),
            r.len() == i,
            given == crate::reading::text_views(versions@),
            is_descending(crate::reading::text_views(r@)),
            is_rearranged(crate::reading::text_views(r@), given.take(i as int)),
        decreases versions.len() - i,
    {
        let ghost before = crate::reading::text_views(r@);
        let text = versions[i].clone();
        let ghost added = text@;
        let at: usize = place(&r, text.as_str());
        proof {
            assert forall|j: int| 0 <= j < at implies at_most(added, #[trigger] before[j]) by {
                assert(before[j] == r@[j]@);
            }
            assert forall|j: int| at <= j < before.len() implies at_most(
                #[trigger] before[j],
                added,
            ) by {
                assert(before[j] == r@[j]@);
            }
        }
        r.insert(at, text);
        proof {
            let after = crate::reading::text_views(r@);
            assert(after =~= before.insert(at as int, added));
            lemma_texts_are_ordered(added, added, added);
            assert(is_descending(after));
            vstd::seq_lib::to_multiset_insert(before, at as int, added);
            vstd::seq_lib::to_multiset_build(given.take(i as int), added);
            assert(given.take(i as int + 1) =~= given.take(i as int).push(added));
        }
        i += 1;
    }
    proof {
        assert(given.take(i as int) =~= given);
        lemma_descending_order(crate::reading::text_views(r@), given);
    }
    r
}

/// A list in descending order is the descending order of each list that holds the same texts.
proof fn lemma_descending_order(sorted: Seq<Seq<char>>, texts: Seq<Seq<char>>)
    requires
        is_descending(sorted),
        is_rearranged(sorted, texts),
    ensures
        in_descending_order(texts) == sorted,
{
    lemma_descending_order_is_unique(in_descending_order(texts), sorted);
}

/// Whatever the texts are, they can be put in descending order.
pub proof fn lemma_descending_order_exists(texts: Seq<Seq<char>>)
    ensures
        is_descending(in_descending_order(texts)),
        is_rearranged(in_descending_order(texts), texts),
        in_descending_order(texts).len() == texts.len(),
        forall|t: Seq<char>| texts.contains(t) == in_descending_order(texts).contains(t),
{
    let sorted = sorted_witness(texts);
    lemma_descending_order(sorted, texts);
    vstd::seq_lib::to_multiset_len(sorted);
    vstd::seq_lib::to_multiset_len(texts);
    assert forall|t: Seq<char>| texts.contains(t) == sorted.contains(t) by {
        lemma_rearranged_holds_the_same(sorted, texts, t);
    }
}

proof fn sorted_witness(texts: Seq<Seq<char>>) -> (sorted: Seq<Seq<char>>)
    ensures
        is_descending(sorted),
        is_rearranged(sorted, texts),
    decreases texts.len(),
{
    if texts.len() == 0 {
        texts
    } else {
        let rest = sorted_witness(texts.drop_last());
        let added = texts.last();
        let at = position_of(rest, added, 0);
        let sorted = rest.insert(at, added);
        lemma_at_most_itself(added);
        vstd::seq_lib::to_multiset_insert(rest, at, added);
        vstd::seq_lib::to_multiset_build(texts.drop_last(), added);
        assert(texts =~= texts.drop_last().push(added));
        sorted
    }
}

proof fn position_of(sorted: Seq<Seq<char>>, text: Seq<char>, from: int) -> (at: int)
    requires
        is_descending(sorted),
        0 <= from <= sorted.len(),
        forall|j: int| 0 <= j < from ==> at_most(text, #[trigger] sorted[j]),
    ensures
        0 <= at <= sorted.len(),
        forall|j: int| 0 <= j < at ==> at_most(text, #[trigger] sorted[j]),
        forall|j: int| at <= j < sorted.len() ==> at_most(#[trigger] sorted[j], text),
    decreases sorted.len() - from,
{
    if from == sorted.len() {
        from
    } else if at_most(text, sorted[from]) {
        position_of(sorted, text, from + 1)
    } else {
        lemma_texts_are_ordered(text, sorted[from], text);
        assert forall|j: int| from <= j < sorted.len() implies at_most(
            #[trigger] sorted[j],
            text,
        ) by {
            lemma_texts_are_ordered(sorted[j], sorted[from], text);
        }
        from
    }
}

proof fn lemma_rearranged_holds_the_same(a: Seq<Seq<char>>, b: Seq<Seq<char>>, text: Seq<char>)
    requires
        is_rearranged(a, b),
    ensures
        a.contains(text) == b.contains(text),
{
    a.to_multiset_ensures();
    b.to_multiset_ensures();
    assert(a.contains(text) <==> a.to_multiset().count(text) > 0);
    assert(b.contains(text) <==> b.to_multiset().count(text) > 0);
}

/// There is only one way to put texts in descending order: it does not matter in which order they
/// come.
pub proof fn lemma_descending_order_is_unique(a: Seq<Seq<char>>, b: Seq<Seq<char>>)
    requires
        is_descending(a),
        is_descending(b),
        is_rearranged(a, b),
    ensures
        a == b,
    decreases a.len(),
{
    vstd::seq_lib::to_multiset_len(a);
    vstd::seq_lib::to_multiset_len(b);
    if a.len() > 0 {
        a.to_multiset_ensures();
        b.to_multiset_ensures();
        lemma_rearranged_holds_the_same(a, b, a[0]);
        lemma_rearranged_holds_the_same(a, b, b[0]);
        let i = choose|i: int| 0 <= i < b.len() && b[i] == a[0];
        let j = choose|j: int| 0 <= j < a.len() && a[j] == b[0];
        assert(at_most(b[i], b[0]));
        assert(at_most(a[j], a[0]));
        lemma_texts_are_ordered(a[0], b[0], b[0]);
        assert(a.remove(0).to_multiset() =~= a.to_multiset().remove(a[0]));
        assert(b.remove(0).to_multiset() =~= b.to_multiset().remove(b[0]));
        lemma_descending_order_is_unique(a.remove(0), b.remove(0));
        assert(a =~= seq![a[0]] + a.remove(0));
        assert(b =~= seq![b[0]] + b.remove(0));
    } else {
        assert(a =~= b);
    }
}

/// The version to expect: the one that is configured, or else the first of the list.
pub open spec fn expected_version(configured: Option<Seq<char>>, versions: Seq<Seq<char>>) -> Seq<char> {
    match configured {
        Some(version) => version,
        None => versions[0],
    }
}

/// What is said about the versions, and about the choice among them.
pub open spec fn version_lines(configured: Option<Seq<char>>, versions: Seq<Seq<char>>) -> Seq<OutputView> {
    let version = expected_version(configured, versions);
    seq![OutputView::LogVersions(versions)] + crate::track::only_if(
        configured is None,
        OutputView::Log(Level::Warn, "No version specified in config, using latest version"@),
    ) + if configured is None && versions.len() == 0 {
        Seq::empty()
    } else {
        seq![crate::report::info("Targeting Rekordbox version: "@ + version)]
            + crate::track::only_if(
            !versions.contains(version),
            crate::report::failure(
                "Offsets for Rekordbox version "@ + version + " not available"@,
            ),
        )
    }
}

/// Says which of the versions to expect, or `None` if the one that is configured is not among
/// them. Without any version, and without one that is configured, there is no choice.
pub fn select_version(versions: Vec<String>, configured: Option<String>, out: &mut Vec<Output>) -> (r:
    Result<Option<String>, Fault>)
    ensures
        ({
            let sorted = in_descending_order(crate::reading::text_views(versions@));
            let wanted = crate::fetch::optional_text(configured);
            let version = expected_version(wanted, sorted);
            &&& crate::output::output_views(final(out)@) == crate::output::output_views(old(out)@)
                + version_lines(wanted, sorted)
            &&& if wanted is None && versions.len() == 0 {
                r matches Err(Fault::NoVersions)
            } else if crate::reading::text_views(versions@).contains(version) {
                r matches Ok(Some(v)) && v@ == version
            } else {
                r matches Ok(None)
            }
        }),
{
    let ghost given = crate::reading::text_views(versions@);
    let ghost wanted = crate::fetch::optional_text(configured);
    let ghost start = crate::output::output_views(out@);
    let sorted = descending_versions(versions);
    let ghost views = crate::reading::text_views(sorted@);
    proof {
        lemma_descending_order_exists(given);
    }
    let listed = clone_texts(&sorted);
    crate::output::emit(out, Output::LogVersions(listed));
    let version = match configured {
        Some(version) => version,
        None => {
            crate::output::log_line(
                out,
                Level::Warn,
                "No version specified in config, using latest version",
            );
            if sorted.len() == 0 {
                assert(crate::output::output_views(out@) =~= start + version_lines(wanted, views));
                return Err(Fault::NoVersions);
            }
            sorted[0].clone()
        },
    };
    assert(version@ == expected_version(wanted, views));
    let line = "Targeting Rekordbox version: ".to_string().concat(version.as_str());
    crate::output::log_line(out, Level::Info, line.as_str());
    let known = holds_text(&sorted, &version);
    if !known {
        let line = "Offsets for Rekordbox version ".to_string().concat(version.as_str()).concat(
            " not available",
        );
        crate::output::log_line(out, Level::Error, line.as_str());
    }
    assert(crate::output::output_views(out@) =~= start + version_lines(wanted, views));
    if known {
        Ok(Some(version))
    } else {
        Ok(None)
    }
}

fn clone_texts(texts: &Vec<String>) -> (r: Vec<String>)
    ensures
        crate::reading::text_views(r@) == crate::reading::text_views(texts@),
{
    let mut r: Vec<String> = Vec::new();
    let mut i: usize = 0;
    while i < texts.len()
        invariant
            i <= texts.len(),
            r.len() == i,
            forall|j: int| 0 <= j < i ==> (#[trigger] r@[j])@ == texts@[j]@,
        decreases texts.len() - i,
    {
        r.push(texts[i].clone());
        i += 1;
    }
    assert(crate::reading::text_views(r@) =~= crate::reading::text_views(texts@));
    r
}

fn holds_text(texts: &Vec<String>, text: &String) -> (r: bool)
    ensures
        r == crate::reading::text_views(texts@).contains(text@),
{
    let ghost views = crate::reading::text_views(texts@);
    let mut i: usize = 0;
    while i < texts.len()
        invariant
            i <= texts.len(),
            views == crate::reading::text_views(texts@),
            forall|j: int| 0 <= j < i ==> #[trigger] views[j] != text@,
        decreases texts.len() - i,
    {
        assert(views[i as int] == texts@[i as int]@);
        if texts[i] == *text {
            return true;
        }
        i += 1;
    }
    false
}

/// The version that is expected where none is configured is one of those that there are, and none
/// of them comes behind it in the order.
pub proof fn lemma_latest_version_is_available(versions: Seq<Seq<char>>)
    requires
        versions.len() > 0,
    ensures
        versions.contains(expected_version(None, in_descending_order(versions))),
        forall|v: Seq<char>|
            versions.contains(v) ==> at_most(
                v,
                expected_version(None, in_descending_order(versions)),
            ),
{
    let sorted = in_descending_order(versions);
    lemma_descending_order_exists(versions);
    assert(sorted.contains(sorted[0]));
    assert forall|v: Seq<char>| versions.contains(v) implies at_most(v, sorted[0]) by {
        let i = choose|i: int| 0 <= i < sorted.len() && sorted[i] == v;
        assert(at_most(sorted[i], sorted[0]));
    }
}

/// The repository in which updates are looked for: the one that is configured, or that of the
/// project.
pub fn repository(configured: Option<String>) -> (r: String)
    ensures
        r@ == crate::session::set_or(
            crate::fetch::optional_text(configured),
            "grufkork/rkbx_link"@,
        ),
{
    match configured {
        Some(repo) => repo,
        None => "grufkork/rkbx_link".to_string(),
    }
}

/// Says whether to look for updates: if that is configured, or nothing about it is, and whenever
/// there are no offsets.
pub fn wants_update(auto_update: Option<bool>, offsets_exist: bool, out: &mut Vec<Output>) -> (r: bool)
    ensures
        r == (crate::session::set_or(auto_update, true) || !offsets_exist),
        crate::output::output_views(final(out)@) == crate::output::output_views(old(out)@)
            + crate::track::only_if(
            !offsets_exist,
            crate::report::failure("No offset file found, updating..."@),
        ),
{
    let mut update: bool = auto_update.unwrap_or(true);
    if !offsets_exist {
        crate::output::log_line(out, Level::Error, "No offset file found, updating...");
        update = true;
    }
    assert(crate::output::output_views(out@) =~= crate::output::output_views(old(out)@)
        + crate::track::only_if(
        !offsets_exist,
        crate::report::failure("No offset file found, updating..."@),
    ));
    update
}

/// The order of texts is that of their first different characters; a text comes before each that it
/// is the start of.
pub proof fn lemma_first_difference_decides(
    start: Seq<char>,
    a: char,
    b: char,
    x: Seq<char>,
    y: Seq<char>,
)
    requires
        a != b,
    ensures
        at_most(start + seq![a] + x, start + seq![b] + y) == (a < b),
        at_most(start, start + x),
        x.len() > 0 ==> !at_most(start + x, start),
    decreases start.len(),
{
    let s = start + seq![a] + x;
    let t = start + seq![b] + y;
    if start.len() > 0 {
        lemma_first_difference_decides(start.skip(1), a, b, x, y);
        assert(s.skip(1) =~= start.skip(1) + seq![a] + x);
        assert(t.skip(1) =~= start.skip(1) + seq![b] + y);
        assert((start + x).skip(1) =~= start.skip(1) + x);
    } else {
        assert(s[0] == a && t[0] == b);
    }
}

/// The version to expect is the one that is configured, if one is, even if there are no offsets for
/// it; and otherwise one that no other comes behind.
pub proof fn lemma_configured_version_is_expected(version: Seq<char>, versions: Seq<Seq<char>>)
    ensures
        expected_version(Some(version), versions) == version,
        versions.len() > 0 ==> expected_version(None, versions) == versions[0],
{
}

/// What is said about versions: which there are; that none is configured, if none is; which one is
/// expected; and that there are no offsets for it, if it is not among them. Without any version and
/// without one that is configured, there is none to expect.
pub proof fn lemma_what_is_said_about_versions(
    configured: Option<Seq<char>>,
    versions: Seq<Seq<char>>,
)
    ensures
        ({
            let lines = version_lines(configured, versions);
            let list = OutputView::LogVersions(versions);
            let unset = OutputView::Log(
                Level::Warn,
                "No version specified in config, using latest version"@,
            );
            match configured {
                Some(version) => {
                    let expecting = OutputView::Log(
                        Level::Info,
                        "Targeting Rekordbox version: "@ + version,
                    );
                    &&& versions.contains(version) ==> lines == seq![list, expecting]
                    &&& !versions.contains(version) ==> lines == seq![
                        list,
                        expecting,
                        OutputView::Log(
                            Level::Error,
                            "Offsets for Rekordbox version "@ + version + " not available"@,
                        ),
                    ]
                },
                None => {
                    &&& versions.len() == 0 ==> lines == seq![list, unset]
                    &&& versions.len() > 0 ==> lines == seq![
                        list,
                        unset,
                        OutputView::Log(
                            Level::Info,
                            "Targeting Rekordbox version: "@ + versions[0],
                        ),
                    ]
                },
            }
        }),
{
    let lines = version_lines(configured, versions);
    let list = OutputView::LogVersions(versions);
    let unset = OutputView::Log(
        Level::Warn,
        "No version specified in config, using latest version"@,
    );
    match configured {
        Some(version) => {
            let expecting = OutputView::Log(
                Level::Info,
                "Targeting Rekordbox version: "@ + version,
            );
            if versions.contains(version) {
                assert(lines =~= seq![list, expecting]);
            } else {
                assert(lines =~= seq![
                    list,
                    expecting,
                    OutputView::Log(
                        Level::Error,
                        "Offsets for Rekordbox version "@ + version + " not available"@,
                    ),
                ]);
            }
        },
        None => {
            if versions.len() == 0 {
                assert(lines =~= seq![list, unset]);
            } else {
                assert(versions.contains(versions[0]));
                assert(lines =~= seq![
                    list,
                    unset,
                    OutputView::Log(Level::Info, "Targeting Rekordbox version: "@ + versions[0]),
                ]);
            }
        },
    }
}

/// In descending order no text stands ahead of one that comes behind it, and each stands there as
/// often as it was given.
pub proof fn lemma_descending_order_by_pairs(texts: Seq<Seq<char>>)
    ensures
        in_descending_order(texts).to_multiset() == texts.to_multiset(),
        forall|i: int, j: int|
            0 <= i <= j < in_descending_order(texts).len() ==> at_most(
                #[trigger] in_descending_order(texts)[j],
                #[trigger] in_descending_order(texts)[i],
            ),
{
    lemma_descending_order_exists(texts);
}

} // verus!
