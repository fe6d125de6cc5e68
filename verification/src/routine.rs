//! What looking for updates comes to as a whole.
use crate::fetch::{ErrandView, FetchView, Remote};
use crate::output::{Level, OutputView};
use crate::protocol::{Fault, Next, Settled};
use crate::updater::{UpdaterProgress, UpdaterView};
use vstd::prelude::*;

verus! {

/// A whole look for updates: what was told, which URLs were asked for and which files were written,
/// each in order, and how it ended.
pub struct Course {
    pub out: Seq<OutputView>,
    pub requested: Seq<Seq<char>>,
    pub written: Seq<(Seq<char>, Seq<char>)>,
    pub end: Settled<()>,
}

/// The course after something was told.
pub open spec fn course_after(out: Seq<OutputView>, c: Course) -> Course {
    Course { out: out + c.out, ..c }
}

/// The course after a file was asked for.
pub open spec fn course_after_request(path: Seq<char>, repo: Seq<char>, c: Course) -> Course {
    Course { requested: seq![crate::fetch::file_url(path, repo)] + c.requested, ..c }
}

/// Something is told, and that is all.
pub open spec fn telling_only(out: Seq<OutputView>) -> Course {
    Course { out, requested: Seq::empty(), written: Seq::empty(), end: Settled::Done(()) }
}

/// Something was written, and there is no going on.
pub open spec fn stopping(written: Seq<(Seq<char>, Seq<char>)>, f: Fault) -> Course {
    Course { out: Seq::empty(), requested: Seq::empty(), written, end: Settled::Fault(f) }
}

/// What an errand asks for.
pub open spec fn requested_by(q: ErrandView) -> Seq<Seq<char>> {
    match q {
        ErrandView::Get(url) => seq![url],
        _ => Seq::empty(),
    }
}

/// What an errand writes.
pub open spec fn written_by(w: Remote, q: ErrandView) -> Seq<(Seq<char>, Seq<char>)> {
    match q {
        ErrandView::Write(path, text) => crate::track::only_if((w.writable)(path), (path, text)),
        _ => Seq::empty(),
    }
}

/// What a progress comes to when its errands have the outcomes that `w` gives, in at most `fuel`
/// errands.
pub open spec fn run_updater(
    w: Remote,
    repo: Seq<char>,
    version: Seq<char>,
    p: UpdaterProgress,
    fuel: nat,
) -> Option<Course>
    decreases fuel,
{
    match p.next {
        Next::Done(_) => Some(telling_only(p.out)),
        Next::Fault(f) => Some(course_after(p.out, stopping(Seq::empty(), f))),
        Next::Ask(q, s) => if fuel == 0 {
            None
        } else {
            match run_updater(
                w,
                repo,
                version,
                s.on_outcome(repo, version, w.outcome(q)),
                (fuel - 1) as nat,
            ) {
                Some(c) => Some(
                    Course {
                        out: p.out + c.out,
                        requested: requested_by(q) + c.requested,
                        written: written_by(w, q) + c.written,
                        end: c.end,
                    },
                ),
                None => None,
            }
        },
    }
}

/// The whole of it, starting with the version of the program.
pub open spec fn routine(w: Remote, repo: Seq<char>, version: Seq<char>) -> Course {
    course_after(
        seq![crate::report::info("Checking for updates..."@)],
        course_after_request("version_exe"@, repo, program_check(w, repo, version)),
    )
}

/// The part from where the version of the program has been fetched, or could not be.
pub open spec fn program_check(w: Remote, repo: Seq<char>, version: Seq<char>) -> Course {
    match crate::fetch::fetched(w, "version_exe"@, repo) {
        Err(reason) => telling_only(
            seq![
                crate::report::failure(
                    "Failed to fetch new executable version from repository: "@ + reason,
                ),
            ],
        ),
        Ok(text) => {
            let new = crate::trim::trimmed(text);
            if new == version {
                course_after(
                    seq![crate::report::info("Program up to date (v"@ + new + ")"@)],
                    course_after_request("version_offsets"@, repo, offset_check(w, repo)),
                )
            } else {
                telling_only(crate::updater::exe_update_lines(new))
            }
        },
    }
}

/// The part from where the version of the offsets in the repository has been fetched, or could not
/// be.
pub open spec fn offset_check(w: Remote, repo: Seq<char>) -> Course {
    match crate::fetch::fetched(w, "version_offsets"@, repo) {
        Err(_) => telling_only(
            seq![crate::report::failure("Failed to fetch new offset version from repository"@)],
        ),
        Ok(text) => match crate::number::parsed_i32(crate::trim::trimmed(text)) {
            None => telling_only(
                seq![crate::report::failure("Failed to parse new offset version: "@ + text)],
            ),
            Some(new) => course_after(
                findings(w, new),
                replacement(w, repo, new, needs_offsets(w, new)),
            ),
        },
    }
}

/// The part from where it is known whether the offsets are to be replaced.
pub open spec fn replacement(w: Remote, repo: Seq<char>, new: i32, needed: bool) -> Course {
    if needed {
        course_after(
            seq![crate::report::info("Downloading offsets..."@)],
            course_after_request("offsets"@, repo, download(w, repo, new)),
        )
    } else {
        telling_only(Seq::empty())
    }
}

/// What is said about the files at hand.
pub open spec fn findings(w: Remote, new: i32) -> Seq<OutputView> {
    crate::track::only_if(
        !(w.exists)("./version_offsets"@),
        crate::updater::warning("Missing version_offsets file"@),
    ) + seq![
        if (w.exists)("./offsets"@) {
            crate::updater::version_line(new, (w.text)("./version_offsets"@))
        } else {
            crate::updater::warning("Missing offsets file"@)
        },
    ]
}

/// The offsets at hand are to be replaced: one of the two files is missing, or their version is
/// unknown or older than `new`.
pub open spec fn needs_offsets(w: Remote, new: i32) -> bool {
    ||| !(w.exists)("./version_offsets"@)
    ||| !(w.exists)("./offsets"@)
    ||| crate::updater::is_outdated(new, (w.text)("./version_offsets"@))
}

/// The part that writes the offsets, if they could be fetched, and their version.
pub open spec fn download(w: Remote, repo: Seq<char>, new: i32) -> Course {
    match crate::fetch::fetched(w, "offsets"@, repo) {
        Err(_) => telling_only(
            seq![crate::report::failure("Failed to fetch offsets from repository"@)],
        ),
        Ok(text) => {
            let offsets = ("offsets"@, text);
            let version = ("version_offsets"@, crate::number::signed_decimal(new as int));
            if !(w.writable)("offsets"@) {
                stopping(Seq::empty(), Fault::FileNotWritten)
            } else if !(w.writable)("version_offsets"@) {
                stopping(seq![offsets], Fault::FileNotWritten)
            } else {
                Course {
                    out: seq![crate::report::info("Offsets updated"@)],
                    requested: Seq::empty(),
                    written: seq![offsets, version],
                    end: Settled::Done(()),
                }
            }
        },
    }
}

/// The progress that sends out a request for a file.
spec fn requesting(path: Seq<char>, repo: Seq<char>, stage: UpdaterView) -> UpdaterProgress {
    crate::updater::updater_asks(ErrandView::Get(crate::fetch::file_url(path, repo)), stage)
}

/// What fetching a file looks like at first.
spec fn unanswered(path: Seq<char>, repo: Seq<char>) -> FetchView {
    FetchView { url: crate::fetch::file_url(path, repo), answered: false }
}

proof fn lemma_download(w: Remote, repo: Seq<char>, version: Seq<char>, new: i32, fuel: nat)
    requires
        w.has_proper_statuses(),
        fuel >= 4,
    ensures
        run_updater(
            w,
            repo,
            version,
            requesting(
                "offsets"@,
                repo,
                UpdaterView::Offsets { new, fetch: unanswered("offsets"@, repo) },
            ),
            fuel,
        ) == Some(course_after_request("offsets"@, repo, download(w, repo, new))),
{
    reveal_with_fuel(run_updater, 5);
    let c = run_updater(
        w,
        repo,
        version,
        requesting(
            "offsets"@,
            repo,
            UpdaterView::Offsets { new, fetch: unanswered("offsets"@, repo) },
        ),
        fuel,
    )->0;
    let d = course_after_request("offsets"@, repo, download(w, repo, new));
    assert(c.out =~= d.out);
    assert(c.requested =~= d.requested);
    assert(c.written =~= d.written);
}

/// What is told first is told first.
proof fn lemma_run_after(
    w: Remote,
    repo: Seq<char>,
    version: Seq<char>,
    out: Seq<OutputView>,
    p: UpdaterProgress,
    fuel: nat,
)
    requires
        run_updater(w, repo, version, p, fuel) is Some,
    ensures
        run_updater(w, repo, version, crate::updater::updater_after(out, p), fuel) == Some(
            course_after(out, run_updater(w, repo, version, p, fuel)->0),
        ),
{
    let q = crate::updater::updater_after(out, p);
    let c = run_updater(w, repo, version, p, fuel)->0;
    let d = run_updater(w, repo, version, q, fuel)->0;
    assert(d.out =~= out + c.out);
}

/// One errand that writes nothing: what it asks for, and what comes after it.
proof fn lemma_run_ask(
    w: Remote,
    repo: Seq<char>,
    version: Seq<char>,
    q: ErrandView,
    s: UpdaterView,
    fuel: nat,
    c: Course,
)
    requires
        fuel > 0,
        !(q is Write),
        run_updater(
            w,
            repo,
            version,
            s.on_outcome(repo, version, w.outcome(q)),
            (fuel - 1) as nat,
        ) == Some(c),
    ensures
        run_updater(w, repo, version, crate::updater::updater_asks(q, s), fuel) == Some(
            (Course { requested: requested_by(q) + c.requested, ..c }),
        ),
        !(q is Get) ==> run_updater(
            w,
            repo,
            version,
            crate::updater::updater_asks(q, s),
            fuel,
        ) == Some(c),
{
    let d = run_updater(w, repo, version, crate::updater::updater_asks(q, s), fuel)->0;
    assert(d.out =~= c.out);
    assert(d.written =~= c.written);
    if !(q is Get) {
        assert(d.requested =~= c.requested);
    }
}

proof fn lemma_conclude(w: Remote, repo: Seq<char>, version: Seq<char>, new: i32, stale: bool, fuel: nat)
    requires
        w.has_proper_statuses(),
        fuel >= 4,
    ensures
        run_updater(w, repo, version, crate::updater::conclude(repo, new, stale), fuel) == Some(
            replacement(w, repo, new, stale),
        ),
{
    if stale {
        lemma_download(w, repo, version, new, fuel);
        lemma_run_after(
            w,
            repo,
            version,
            seq![crate::report::info("Downloading offsets..."@)],
            requesting(
                "offsets"@,
                repo,
                UpdaterView::Offsets { new, fetch: unanswered("offsets"@, repo) },
            ),
            fuel,
        );
    }
}

/// What is said about the offsets at hand.
spec fn offsets_line(w: Remote, new: i32) -> OutputView {
    if (w.exists)("./offsets"@) {
        crate::updater::version_line(new, (w.text)("./version_offsets"@))
    } else {
        crate::updater::warning("Missing offsets file"@)
    }
}

proof fn lemma_offsets_exist(
    w: Remote,
    repo: Seq<char>,
    version: Seq<char>,
    new: i32,
    stale: bool,
    fuel: nat,
)
    requires
        w.has_proper_statuses(),
        fuel >= 6,
        stale == !(w.exists)("./version_offsets"@),
    ensures
        run_updater(
            w,
            repo,
            version,
            crate::updater::updater_asks(
                ErrandView::Exists("./offsets"@),
                UpdaterView::OffsetsExist { new, stale },
            ),
            fuel,
        ) == Some(
            course_after(
                seq![offsets_line(w, new)],
                replacement(w, repo, new, needs_offsets(w, new)),
            ),
        ),
{
    let text = (w.text)("./version_offsets"@);
    let f1 = (fuel - 1) as nat;
    let f2 = (fuel - 2) as nat;
    let end = course_after(
        seq![offsets_line(w, new)],
        replacement(w, repo, new, needs_offsets(w, new)),
    );
    if (w.exists)("./offsets"@) {
        let replace = stale || crate::updater::is_outdated(new, text);
        lemma_conclude(w, repo, version, new, replace, f2);
        lemma_run_after(
            w,
            repo,
            version,
            seq![crate::updater::version_line(new, text)],
            crate::updater::conclude(repo, new, replace),
            f2,
        );
        lemma_run_ask(
            w,
            repo,
            version,
            ErrandView::ReadText("./version_offsets"@),
            UpdaterView::VersionText { new, stale },
            f1,
            end,
        );
    } else {
        lemma_conclude(w, repo, version, new, true, f1);
        lemma_run_after(
            w,
            repo,
            version,
            seq![crate::updater::warning("Missing offsets file"@)],
            crate::updater::conclude(repo, new, true),
            f1,
        );
    }
    lemma_run_ask(
        w,
        repo,
        version,
        ErrandView::Exists("./offsets"@),
        UpdaterView::OffsetsExist { new, stale },
        fuel,
        end,
    );
}

proof fn lemma_version_exists(w: Remote, repo: Seq<char>, version: Seq<char>, new: i32, fuel: nat)
    requires
        w.has_proper_statuses(),
        fuel >= 7,
    ensures
        run_updater(
            w,
            repo,
            version,
            crate::updater::updater_asks(
                ErrandView::Exists("./version_offsets"@),
                UpdaterView::VersionExists { new },
            ),
            fuel,
        ) == Some(
            course_after(findings(w, new), replacement(w, repo, new, needs_offsets(w, new))),
        ),
{
    let missing = !(w.exists)("./version_offsets"@);
    let told = crate::track::only_if(
        missing,
        crate::updater::warning("Missing version_offsets file"@),
    );
    let f1 = (fuel - 1) as nat;
    let next = crate::updater::updater_asks(
        ErrandView::Exists("./offsets"@),
        UpdaterView::OffsetsExist { new, stale: missing },
    );
    let rest = replacement(w, repo, new, needs_offsets(w, new));
    let whole = course_after(findings(w, new), rest);
    lemma_offsets_exist(w, repo, version, new, missing, f1);
    lemma_run_after(w, repo, version, told, next, f1);
    assert(findings(w, new) =~= told + seq![offsets_line(w, new)]);
    assert(whole.out =~= told + (seq![offsets_line(w, new)] + rest.out));
    lemma_run_ask(
        w,
        repo,
        version,
        ErrandView::Exists("./version_offsets"@),
        UpdaterView::VersionExists { new },
        fuel,
        whole,
    );
}

proof fn lemma_offset_version(w: Remote, repo: Seq<char>, version: Seq<char>, fuel: nat)
    requires
        w.has_proper_statuses(),
        fuel >= 9,
    ensures
        run_updater(
            w,
            repo,
            version,
            requesting(
                "version_offsets"@,
                repo,
                UpdaterView::OffsetVersion(unanswered("version_offsets"@, repo)),
            ),
            fuel,
        ) == Some(course_after_request("version_offsets"@, repo, offset_check(w, repo))),
{
    let url = crate::fetch::file_url("version_offsets"@, repo);
    let f1 = (fuel - 1) as nat;
    let f2 = (fuel - 2) as nat;
    let end = offset_check(w, repo);
    match (w.get)(url) {
        Some(code) => if crate::fetch::is_success(code) {
            match (w.body)(url) {
                Ok(text) => match crate::number::parsed_i32(crate::trim::trimmed(text)) {
                    Some(new) => {
                        lemma_version_exists(w, repo, version, new, f2);
                    },
                    None => {},
                },
                Err(_) => {},
            }
            lemma_run_ask(
                w,
                repo,
                version,
                ErrandView::Body(url),
                UpdaterView::OffsetVersion(FetchView { url, answered: true }),
                f1,
                end,
            );
        },
        None => {},
    }
    lemma_run_ask(
        w,
        repo,
        version,
        ErrandView::Get(url),
        UpdaterView::OffsetVersion(unanswered("version_offsets"@, repo)),
        fuel,
        end,
    );
}

/// A look for updates comes to what [`routine`] says, in at most eleven errands.
pub proof fn lemma_update_routine(w: Remote, repo: Seq<char>, version: Seq<char>)
    requires
        w.has_proper_statuses(),
    ensures
        run_updater(w, repo, version, crate::updater::updater_start(repo), 11) == Some(
            routine(w, repo, version),
        ),
{
    let url = crate::fetch::file_url("version_exe"@, repo);
    let end = program_check(w, repo, version);
    match (w.get)(url) {
        Some(code) => if crate::fetch::is_success(code) {
            match (w.body)(url) {
                Ok(text) => {
                    let new = crate::trim::trimmed(text);
                    if new == version {
                        lemma_offset_version(w, repo, version, 9);
                        lemma_run_after(
                            w,
                            repo,
                            version,
                            seq![crate::report::info("Program up to date (v"@ + new + ")"@)],
                            requesting(
                                "version_offsets"@,
                                repo,
                                UpdaterView::OffsetVersion(unanswered("version_offsets"@, repo)),
                            ),
                            9,
                        );
                    }
                },
                Err(_) => {},
            }
            lemma_run_ask(
                w,
                repo,
                version,
                ErrandView::Body(url),
                UpdaterView::ExeVersion(FetchView { url, answered: true }),
                10,
                end,
            );
        },
        None => {},
    }
    lemma_run_ask(
        w,
        repo,
        version,
        ErrandView::Get(url),
        UpdaterView::ExeVersion(unanswered("version_exe"@, repo)),
        11,
        end,
    );
    lemma_run_after(
        w,
        repo,
        version,
        seq![crate::report::info("Checking for updates..."@)],
        requesting(
            "version_exe"@,
            repo,
            UpdaterView::ExeVersion(unanswered("version_exe"@, repo)),
        ),
        11,
    );
}

/// The program that is running is the one in the repository.
pub open spec fn program_is_current(w: Remote, repo: Seq<char>, version: Seq<char>) -> bool {
    crate::fetch::fetched(w, "version_exe"@, repo) matches Ok(text) && crate::trim::trimmed(text)
        == version
}

/// The version of the offsets in the repository, if it can be told.
pub open spec fn repository_version(w: Remote, repo: Seq<char>) -> Option<i32> {
    match crate::fetch::fetched(w, "version_offsets"@, repo) {
        Ok(text) => crate::number::parsed_i32(crate::trim::trimmed(text)),
        Err(_) => None,
    }
}

/// The version of the program is always asked for. That of the offsets is asked for by a program
/// that is up to date, and no other. The offsets are asked for if their version is known and those
/// at hand are missing, of unknown version or older, and not otherwise. Nothing else is asked for,
/// and nothing twice.
pub proof fn lemma_only_what_is_needed_is_fetched(w: Remote, repo: Seq<char>, version: Seq<char>)
    ensures
        routine(w, repo, version).requested == seq![
            crate::fetch::file_url("version_exe"@, repo),
        ] + crate::track::only_if(
            program_is_current(w, repo, version),
            crate::fetch::file_url("version_offsets"@, repo),
        ) + crate::track::only_if(
            program_is_current(w, repo, version) && repository_version(w, repo) is Some
                && needs_offsets(w, repository_version(w, repo)->0),
            crate::fetch::file_url("offsets"@, repo),
        ),
{
    assert(routine(w, repo, version).requested =~= seq![
        crate::fetch::file_url("version_exe"@, repo),
    ] + crate::track::only_if(
        program_is_current(w, repo, version),
        crate::fetch::file_url("version_offsets"@, repo),
    ) + crate::track::only_if(
        program_is_current(w, repo, version) && repository_version(w, repo) is Some
            && needs_offsets(w, repository_version(w, repo)->0),
        crate::fetch::file_url("offsets"@, repo),
    ));
}

/// Files are written only by a program that is up to date, when the version of the offsets in the
/// repository is known and those at hand are missing, of unknown version or older, and the
/// offsets could be fetched. What is written is then the offsets, and after them their version.
pub proof fn lemma_files_are_written_when_needed(w: Remote, repo: Seq<char>, version: Seq<char>)
    ensures
        routine(w, repo, version).written.len() > 0 ==> {
            let exe = crate::fetch::fetched(w, "version_exe"@, repo);
            let new = crate::fetch::fetched(w, "version_offsets"@, repo);
            let offsets = crate::fetch::fetched(w, "offsets"@, repo);
            &&& exe is Ok && crate::trim::trimmed(exe->Ok_0) == version
            &&& new is Ok
            &&& crate::number::parsed_i32(crate::trim::trimmed(new->Ok_0)) matches Some(n)
                && needs_offsets(w, n)
            &&& offsets is Ok
            &&& routine(w, repo, version).written[0] == ("offsets"@, offsets->Ok_0)
        },
        routine(w, repo, version).written.len() <= 2,
        (routine(w, repo, version).end matches Settled::Fault(f) ==> f
            == Fault::FileNotWritten),
{
}

/// Once the offsets have been updated, another look at an unchanged repository finds them up to
/// date: it asks for the two versions and for nothing else, and writes nothing.
pub proof fn lemma_updated_offsets_are_up_to_date(
    before: Remote,
    after: Remote,
    repo: Seq<char>,
    version: Seq<char>,
)
    requires
        routine(before, repo, version).written.len() == 2,
        after.get == before.get,
        after.body == before.body,
        (after.exists)("./offsets"@),
        (after.exists)("./version_offsets"@),
        (after.text)("./version_offsets"@) == Some(routine(before, repo, version).written[1].1),
    ensures
        routine(after, repo, version).written.len() == 0,
        routine(after, repo, version).requested == seq![
            crate::fetch::file_url("version_exe"@, repo),
            crate::fetch::file_url("version_offsets"@, repo),
        ],
        routine(after, repo, version).end == Settled::Done(()),
        ({
            let text = crate::fetch::fetched(before, "version_offsets"@, repo)->Ok_0;
            let new = crate::number::parsed_i32(crate::trim::trimmed(text))->0;
            routine(after, repo, version).out.last() == crate::report::info(
                "Offsets up to date (v"@ + crate::number::signed_decimal(new as int) + ")"@,
            )
        }),
{
    let text = crate::fetch::fetched(before, "version_offsets"@, repo)->Ok_0;
    let new = crate::number::parsed_i32(crate::trim::trimmed(text))->0;
    let written = crate::number::signed_decimal(new as int);
    assert(routine(before, repo, version).written[1].1 == written);
    crate::number::lemma_written_number_is_read_back(new);
    crate::number::lemma_written_number_has_no_white_space(new);
    crate::trim::lemma_trimming_leaves_trimmed_text(written);
    assert(!crate::updater::is_outdated(new, Some(written)));
    assert(routine(after, repo, version).requested =~= seq![
        crate::fetch::file_url("version_exe"@, repo),
        crate::fetch::file_url("version_offsets"@, repo),
    ]);
}

/// Where a file of the repository is fetched from.
pub proof fn lemma_places_in_the_repository(path: Seq<char>, repo: Seq<char>)
    ensures
        crate::fetch::file_url(path, repo) == "https://raw.githubusercontent.com/"@ + repo + "/"@
            + path,
{
}

/// A program that is current, and finds both files and in them a version `v` of the offsets, asks
/// for the offsets exactly if the repository has a version `n` above `v`. It writes them, and after
/// them the version `n`, exactly then, if they can be fetched and written. Otherwise it says that
/// they are up to date.
pub proof fn lemma_older_offsets_are_replaced(
    w: Remote,
    repo: Seq<char>,
    version: Seq<char>,
    exe: Seq<char>,
    known: Seq<char>,
    n: i32,
    text: Seq<char>,
    v: i32,
)
    requires
        crate::fetch::fetched(w, "version_exe"@, repo) == crate::fetch::TextResult::Ok(exe),
        crate::trim::trimmed(exe) == version,
        crate::fetch::fetched(w, "version_offsets"@, repo) == crate::fetch::TextResult::Ok(known),
        crate::number::parsed_i32(crate::trim::trimmed(known)) == Some(n),
        (w.exists)("./version_offsets"@),
        (w.exists)("./offsets"@),
        (w.text)("./version_offsets"@) == Some(text),
        crate::number::parsed_i32(crate::trim::trimmed(text)) == Some(v),
    ensures
        ({
            let c = routine(w, repo, version);
            let offsets = crate::fetch::fetched(w, "offsets"@, repo);
            let first = seq![
                OutputView::Log(Level::Info, "Checking for updates..."@),
                OutputView::Log(Level::Info, "Program up to date (v"@ + version + ")"@),
            ];
            &&& v < n ==> c.requested == seq![
                crate::fetch::file_url("version_exe"@, repo),
                crate::fetch::file_url("version_offsets"@, repo),
                crate::fetch::file_url("offsets"@, repo),
            ]
            &&& v >= n ==> c.requested == seq![
                crate::fetch::file_url("version_exe"@, repo),
                crate::fetch::file_url("version_offsets"@, repo),
            ]
            &&& v >= n ==> c.written.len() == 0 && c.end == Settled::Done(()) && c.out
                == first.push(
                OutputView::Log(
                    Level::Info,
                    "Offsets up to date (v"@ + crate::number::signed_decimal(n as int) + ")"@,
                ),
            )
            &&& v < n && offsets is Ok && (w.writable)("offsets"@) && (w.writable)(
                "version_offsets"@,
            ) ==> c.end == Settled::Done(()) && c.written == seq![
                ("offsets"@, offsets->Ok_0),
                ("version_offsets"@, crate::number::signed_decimal(n as int)),
            ] && c.out == first + seq![
                OutputView::Log(Level::Info, "Offset update available"@),
                OutputView::Log(Level::Info, "Downloading offsets..."@),
                OutputView::Log(Level::Info, "Offsets updated"@),
            ]
            &&& v < n && offsets is Ok ==> written_in_order(w, offsets->Ok_0, n, c)
            &&& v < n && offsets is Err ==> c.end == Settled::Done(()) && c.written.len() == 0
                && c.out == first + seq![
                OutputView::Log(Level::Info, "Offset update available"@),
                OutputView::Log(Level::Info, "Downloading offsets..."@),
                OutputView::Log(Level::Error, "Failed to fetch offsets from repository"@),
            ]
        }),
{
    let c = routine(w, repo, version);
    let offsets = crate::fetch::fetched(w, "offsets"@, repo);
    let first = seq![
        OutputView::Log(Level::Info, "Checking for updates..."@),
        OutputView::Log(Level::Info, "Program up to date (v"@ + version + ")"@),
    ];
    if v < n {
        assert(c.requested =~= seq![
            crate::fetch::file_url("version_exe"@, repo),
            crate::fetch::file_url("version_offsets"@, repo),
            crate::fetch::file_url("offsets"@, repo),
        ]);
        if offsets is Err {
            assert(c.out =~= first + seq![
                OutputView::Log(Level::Info, "Offset update available"@),
                OutputView::Log(Level::Info, "Downloading offsets..."@),
                OutputView::Log(Level::Error, "Failed to fetch offsets from repository"@),
            ]);
        } else if (w.writable)("offsets"@) && (w.writable)("version_offsets"@) {
            assert(c.out =~= first + seq![
                OutputView::Log(Level::Info, "Offset update available"@),
                OutputView::Log(Level::Info, "Downloading offsets..."@),
                OutputView::Log(Level::Info, "Offsets updated"@),
            ]);
        }
    } else {
        assert(c.requested =~= seq![
            crate::fetch::file_url("version_exe"@, repo),
            crate::fetch::file_url("version_offsets"@, repo),
        ]);
        assert(c.out =~= first.push(
            OutputView::Log(
                Level::Info,
                "Offsets up to date (v"@ + crate::number::signed_decimal(n as int) + ")"@,
            ),
        ));
    }
}

/// What is missing, or says nothing, is replaced: if one of the two files is not there, or the
/// version of the offsets cannot be read or is no number, then a program that is current asks for
/// the offsets, whatever version the repository has, and says why.
pub proof fn lemma_unknown_offsets_are_replaced(
    w: Remote,
    repo: Seq<char>,
    version: Seq<char>,
    exe: Seq<char>,
    known: Seq<char>,
    n: i32,
)
    requires
        crate::fetch::fetched(w, "version_exe"@, repo) == crate::fetch::TextResult::Ok(exe),
        crate::trim::trimmed(exe) == version,
        crate::fetch::fetched(w, "version_offsets"@, repo) == crate::fetch::TextResult::Ok(known),
        crate::number::parsed_i32(crate::trim::trimmed(known)) == Some(n),
        ({
            ||| !(w.exists)("./version_offsets"@)
            ||| !(w.exists)("./offsets"@)
            ||| (w.text)("./version_offsets"@) is None
            ||| crate::number::parsed_i32(
                crate::trim::trimmed((w.text)("./version_offsets"@)->0),
            ) is None
        }),
    ensures
        ({
            let c = routine(w, repo, version);
            let text = (w.text)("./version_offsets"@);
            let offsets = crate::fetch::fetched(w, "offsets"@, repo);
            &&& c.requested == seq![
                crate::fetch::file_url("version_exe"@, repo),
                crate::fetch::file_url("version_offsets"@, repo),
                crate::fetch::file_url("offsets"@, repo),
            ]
            &&& c.out.contains(OutputView::Log(Level::Info, "Downloading offsets..."@))
            &&& !(w.exists)("./version_offsets"@) ==> c.out[2] == OutputView::Log(
                Level::Warn,
                "Missing version_offsets file"@,
            )
            &&& !(w.exists)("./offsets"@) ==> c.out.contains(
                OutputView::Log(Level::Warn, "Missing offsets file"@),
            )
            &&& (w.exists)("./offsets"@) && text is None ==> c.out.contains(
                OutputView::Log(Level::Warn, "Failed to read version_offsets file"@),
            )
            &&& (w.exists)("./offsets"@) && text is Some && crate::number::parsed_i32(
                crate::trim::trimmed(text->0),
            ) is None ==> c.out.contains(
                OutputView::Log(Level::Warn, "Failed to parse version_offsets file"@),
            )
            &&& offsets is Err ==> c.end == Settled::Done(()) && c.written.len() == 0
                && c.out.last() == OutputView::Log(
                Level::Error,
                "Failed to fetch offsets from repository"@,
            )
            &&& offsets is Ok ==> written_in_order(w, offsets->Ok_0, n, c)
        }),
{
    let c = routine(w, repo, version);
    let missing: int = if (w.exists)("./version_offsets"@) {
        0
    } else {
        1
    };
    assert(c.requested =~= seq![
        crate::fetch::file_url("version_exe"@, repo),
        crate::fetch::file_url("version_offsets"@, repo),
        crate::fetch::file_url("offsets"@, repo),
    ]);
    assert(c.out[2 + missing] == offsets_line(w, n));
    assert(c.out[3 + missing] == OutputView::Log(Level::Info, "Downloading offsets..."@));
}

/// The offsets are written, and then their version; where a file cannot be written, nothing more
/// is, and there is no going on.
pub open spec fn written_in_order(w: Remote, offsets: Seq<char>, n: i32, c: Course) -> bool {
    let first = ("offsets"@, offsets);
    let second = ("version_offsets"@, crate::number::signed_decimal(n as int));
    &&& !(w.writable)("offsets"@) ==> c.written.len() == 0 && c.end == Settled::<()>::Fault(
        Fault::FileNotWritten,
    )
    &&& (w.writable)("offsets"@) && !(w.writable)("version_offsets"@) ==> c.written == seq![first]
        && c.end == Settled::<()>::Fault(Fault::FileNotWritten)
    &&& (w.writable)("offsets"@) && (w.writable)("version_offsets"@) ==> c.written == seq![
        first,
        second,
    ] && c.end == Settled::Done(()) && c.out.last() == OutputView::Log(
        Level::Info,
        "Offsets updated"@,
    )
}

/// What a look for updates says and does that gets no further than the versions in the repository.
pub proof fn lemma_looking_no_further(w: Remote, repo: Seq<char>, version: Seq<char>)
    ensures
        ({
            let c = routine(w, repo, version);
            let exe = crate::fetch::fetched(w, "version_exe"@, repo);
            let known = crate::fetch::fetched(w, "version_offsets"@, repo);
            let start = OutputView::Log(Level::Info, "Checking for updates..."@);
            let current = OutputView::Log(Level::Info, "Program up to date (v"@ + version + ")"@);
            match exe {
                Err(reason) => c.out == seq![
                    start,
                    OutputView::Log(
                        Level::Error,
                        "Failed to fetch new executable version from repository: "@ + reason,
                    ),
                ] && c.requested == seq![crate::fetch::file_url("version_exe"@, repo)]
                    && c.written.len() == 0 && c.end == Settled::Done(()),
                Ok(text) => if crate::trim::trimmed(text) != version {
                    c.out == seq![
                        start,
                        OutputView::Log(Level::Warn, " "@),
                        OutputView::Log(
                            Level::Warn,
                            "   !! Executable update available: v"@ + crate::trim::trimmed(text)
                                + " !!"@,
                        ),
                        OutputView::Log(
                            Level::Warn,
                            "Update the program to get the latest offset updates"@,
                        ),
                        OutputView::Log(Level::Warn, ""@),
                    ] && c.requested == seq![crate::fetch::file_url("version_exe"@, repo)]
                        && c.written.len() == 0 && c.end == Settled::Done(())
                } else {
                    match known {
                        Err(_) => c.out == seq![
                            start,
                            current,
                            OutputView::Log(
                                Level::Error,
                                "Failed to fetch new offset version from repository"@,
                            ),
                        ] && c.requested == seq![
                            crate::fetch::file_url("version_exe"@, repo),
                            crate::fetch::file_url("version_offsets"@, repo),
                        ] && c.written.len() == 0 && c.end == Settled::Done(()),
                        Ok(number) => crate::number::parsed_i32(crate::trim::trimmed(number)) is None
                            ==> c.out == seq![
                            start,
                            current,
                            OutputView::Log(
                                Level::Error,
                                "Failed to parse new offset version: "@ + number,
                            ),
                        ] && c.requested == seq![
                            crate::fetch::file_url("version_exe"@, repo),
                            crate::fetch::file_url("version_offsets"@, repo),
                        ] && c.written.len() == 0 && c.end == Settled::Done(()),
                    }
                },
            }
        }),
{
    let c = routine(w, repo, version);
    let exe = crate::fetch::fetched(w, "version_exe"@, repo);
    let known = crate::fetch::fetched(w, "version_offsets"@, repo);
    let start = OutputView::Log(Level::Info, "Checking for updates..."@);
    let current = OutputView::Log(Level::Info, "Program up to date (v"@ + version + ")"@);
    assert(Seq::<Seq<char>>::empty() =~= c.requested.skip(c.requested.len() as int));
    match exe {
        Err(reason) => {
            assert(c.out =~= seq![
                start,
                OutputView::Log(
                    Level::Error,
                    "Failed to fetch new executable version from repository: "@ + reason,
                ),
            ]);
            assert(c.requested =~= seq![crate::fetch::file_url("version_exe"@, repo)]);
        },
        Ok(text) => {
            if crate::trim::trimmed(text) != version {
                assert(c.out =~= seq![start] + crate::updater::exe_update_lines(
                    crate::trim::trimmed(text),
                ));
                assert(c.out =~= seq![
                    start,
                    OutputView::Log(Level::Warn, " "@),
                    OutputView::Log(
                        Level::Warn,
                        "   !! Executable update available: v"@ + crate::trim::trimmed(text)
                            + " !!"@,
                    ),
                    OutputView::Log(
                        Level::Warn,
                        "Update the program to get the latest offset updates"@,
                    ),
                    OutputView::Log(Level::Warn, ""@),
                ]);
                assert(c.requested =~= seq![crate::fetch::file_url("version_exe"@, repo)]);
            } else {
                if known is Err || crate::number::parsed_i32(
                    crate::trim::trimmed(known->Ok_0),
                ) is None {
                    let last = if known is Err {
                        "Failed to fetch new offset version from repository"@
                    } else {
                        "Failed to parse new offset version: "@ + known->Ok_0
                    };
                    assert(c.out =~= seq![start, current, OutputView::Log(Level::Error, last)]);
                    assert(c.requested =~= seq![
                        crate::fetch::file_url("version_exe"@, repo),
                        crate::fetch::file_url("version_offsets"@, repo),
                    ]);
                }
            }
        },
    }
}

} // verus!
