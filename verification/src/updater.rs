//! Looking for updates of the program and of the offsets.
use crate::fetch::{Errand, ErrandView, Fetch, FetchNext, FetchStep, FetchView, Outcome, OutcomeView};
use crate::output::{Level, Output, OutputView};
use crate::protocol::{Fault, Next};
use vstd::prelude::*;
use vstd::string::*;

verus! {

/// What is being waited for.
#[derive(Debug)]
pub enum UpdaterStage {
    /// The version of the program in the repository.
    ExeVersion(Fetch),
    /// The version of the offsets in the repository.
    OffsetVersion(Fetch),
    /// Whether the version of the offsets at hand is known; `new` is that in the repository.
    VersionExists { new: i32 },
    /// Whether there are offsets at hand; `stale` says that they are to be replaced in any case.
    OffsetsExist { new: i32, stale: bool },
    /// The version of the offsets at hand.
    VersionText { new: i32, stale: bool },
    /// The offsets in the repository.
    Offsets { new: i32, fetch: Fetch },
    /// The offsets being written.
    WriteOffsets { new: i32 },
    /// Their version being written.
    WriteVersion,
}

/// An [`UpdaterStage`] as a value.
pub enum UpdaterView {
    ExeVersion(FetchView),
    OffsetVersion(FetchView),
    VersionExists { new: i32 },
    OffsetsExist { new: i32, stale: bool },
    VersionText { new: i32, stale: bool },
    Offsets { new: i32, fetch: FetchView },
    WriteOffsets { new: i32 },
    WriteVersion,
}

impl View for UpdaterStage {
    type V = UpdaterView;

    open spec fn view(&self) -> UpdaterView {
        match self {
            UpdaterStage::ExeVersion(fetch) => UpdaterView::ExeVersion(fetch@),
            UpdaterStage::OffsetVersion(fetch) => UpdaterView::OffsetVersion(fetch@),
            UpdaterStage::VersionExists { new } => UpdaterView::VersionExists { new: *new },
            UpdaterStage::OffsetsExist { new, stale } => UpdaterView::OffsetsExist {
                new: *new,
                stale: *stale,
            },
            UpdaterStage::VersionText { new, stale } => UpdaterView::VersionText {
                new: *new,
                stale: *stale,
            },
            UpdaterStage::Offsets { new, fetch } => UpdaterView::Offsets { new: *new, fetch: fetch@ },
            UpdaterStage::WriteOffsets { new } => UpdaterView::WriteOffsets { new: *new },
            UpdaterStage::WriteVersion => UpdaterView::WriteVersion,
        }
    }
}

pub type UpdaterNext = Next<Errand, UpdaterStage, ()>;

pub type UpdaterStep = Next<ErrandView, UpdaterView, ()>;

/// The value of an [`UpdaterNext`].
pub open spec fn updater_view(n: UpdaterNext) -> UpdaterStep {
    match n {
        Next::Ask(q, s) => Next::Ask(q@, s@),
        Next::Done(_) => Next::Done(()),
        Next::Fault(f) => Next::Fault(f),
    }
}

/// What happens in one go: what is told, and how things go on.
pub struct UpdaterProgress {
    pub out: Seq<OutputView>,
    pub next: UpdaterStep,
}

/// A line of warning.
pub open spec fn warning(line: Seq<char>) -> OutputView {
    OutputView::Log(Level::Warn, line)
}

/// The progress after something was told.
pub open spec fn updater_after(out: Seq<OutputView>, p: UpdaterProgress) -> UpdaterProgress {
    UpdaterProgress { out: out + p.out, next: p.next }
}

/// An errand is sent out.
pub open spec fn updater_asks(q: ErrandView, stage: UpdaterView) -> UpdaterProgress {
    UpdaterProgress { out: Seq::empty(), next: Next::Ask(q, stage) }
}

/// Something is told, and that is the end.
pub open spec fn updater_ends(out: Seq<OutputView>) -> UpdaterProgress {
    UpdaterProgress { out, next: Next::Done(()) }
}

/// There is no going on.
pub open spec fn updater_stops(f: Fault) -> UpdaterProgress {
    UpdaterProgress { out: Seq::empty(), next: Next::Fault(f) }
}

/// How it starts: the version of the program is fetched.
pub open spec fn updater_start(repo: Seq<char>) -> UpdaterProgress {
    let url = crate::fetch::file_url("version_exe"@, repo);
    updater_after(
        seq![crate::report::info("Checking for updates..."@)],
        updater_asks(
            ErrandView::Get(url),
            UpdaterView::ExeVersion(FetchView { url, answered: false }),
        ),
    )
}

/// What is said when the repository has another version of the program.
pub open spec fn exe_update_lines(new: Seq<char>) -> Seq<OutputView> {
    seq![
        warning(" "@),
        warning("   !! Executable update available: v"@ + new + " !!"@),
        warning("Update the program to get the latest offset updates"@),
        warning(""@),
    ]
}

/// The version of the program in the repository is being fetched, or has been. Offsets are only
/// looked at by a program that is up to date.
pub open spec fn on_exe_version(repo: Seq<char>, version: Seq<char>, n: FetchStep) -> UpdaterProgress {
    match n {
        Next::Ask(q, fetch) => updater_asks(q, UpdaterView::ExeVersion(fetch)),
        Next::Fault(f) => updater_stops(f),
        Next::Done(Err(reason)) => updater_ends(
            seq![
                crate::report::failure(
                    "Failed to fetch new executable version from repository: "@ + reason,
                ),
            ],
        ),
        Next::Done(Ok(text)) => {
            let new = crate::trim::trimmed(text);
            if new == version {
                updater_after(
                    seq![crate::report::info("Program up to date (v"@ + new + ")"@)],
                    on_offset_version(crate::fetch::fetch_step("version_offsets"@, repo)),
                )
            } else {
                updater_ends(exe_update_lines(new))
            }
        },
    }
}

/// The version of the offsets in the repository is being fetched, or has been.
pub open spec fn on_offset_version(n: FetchStep) -> UpdaterProgress {
    match n {
        Next::Ask(q, fetch) => updater_asks(q, UpdaterView::OffsetVersion(fetch)),
        Next::Fault(f) => updater_stops(f),
        Next::Done(Err(_)) => updater_ends(
            seq![crate::report::failure("Failed to fetch new offset version from repository"@)],
        ),
        Next::Done(Ok(text)) => match crate::number::parsed_i32(crate::trim::trimmed(text)) {
            None => updater_ends(
                seq![crate::report::failure("Failed to parse new offset version: "@ + text)],
            ),
            Some(new) => updater_asks(
                ErrandView::Exists("./version_offsets"@),
                UpdaterView::VersionExists { new },
            ),
        },
    }
}

/// It is known whether there is a file with the version of the offsets at hand.
pub open spec fn on_version_exists(new: i32, exists: bool) -> UpdaterProgress {
    updater_after(
        crate::track::only_if(!exists, warning("Missing version_offsets file"@)),
        updater_asks(
            ErrandView::Exists("./offsets"@),
            UpdaterView::OffsetsExist { new, stale: !exists },
        ),
    )
}

/// It is known whether there are offsets at hand.
pub open spec fn on_offsets_exist(repo: Seq<char>, new: i32, stale: bool, exists: bool) -> UpdaterProgress {
    if exists {
        updater_asks(
            ErrandView::ReadText("./version_offsets"@),
            UpdaterView::VersionText { new, stale },
        )
    } else {
        updater_after(
            seq![warning("Missing offsets file"@)],
            conclude(repo, new, true),
        )
    }
}

/// What is said about the version of the offsets at hand.
pub open spec fn version_line(new: i32, text: Option<Seq<char>>) -> OutputView {
    match text {
        None => warning("Failed to read version_offsets file"@),
        Some(text) => match crate::number::parsed_i32(crate::trim::trimmed(text)) {
            None => warning("Failed to parse version_offsets file"@),
            Some(version) => if version < new {
                crate::report::info("Offset update available"@)
            } else {
                crate::report::info(
                    "Offsets up to date (v"@ + crate::number::signed_decimal(new as int) + ")"@,
                )
            },
        },
    }
}

/// The version of the offsets at hand is unknown, or older than `new`.
pub open spec fn is_outdated(new: i32, text: Option<Seq<char>>) -> bool {
    match text {
        None => true,
        Some(text) => match crate::number::parsed_i32(crate::trim::trimmed(text)) {
            None => true,
            Some(version) => version < new,
        },
    }
}

/// The version of the offsets at hand was read, if it could be.
pub open spec fn on_version_text(repo: Seq<char>, new: i32, stale: bool, text: Option<Seq<char>>) -> UpdaterProgress {
    updater_after(
        seq![version_line(new, text)],
        conclude(repo, new, stale || is_outdated(new, text)),
    )
}

/// It is known whether the offsets are to be replaced; if so, they are fetched.
pub open spec fn conclude(repo: Seq<char>, new: i32, stale: bool) -> UpdaterProgress {
    if stale {
        updater_after(
            seq![crate::report::info("Downloading offsets..."@)],
            on_offsets(new, crate::fetch::fetch_step("offsets"@, repo)),
        )
    } else {
        updater_ends(Seq::empty())
    }
}

/// The offsets are being fetched, or have been.
pub open spec fn on_offsets(new: i32, n: FetchStep) -> UpdaterProgress {
    match n {
        Next::Ask(q, fetch) => updater_asks(q, UpdaterView::Offsets { new, fetch }),
        Next::Fault(f) => updater_stops(f),
        Next::Done(Err(_)) => updater_ends(
            seq![crate::report::failure("Failed to fetch offsets from repository"@)],
        ),
        Next::Done(Ok(text)) => updater_asks(
            ErrandView::Write("offsets"@, text),
            UpdaterView::WriteOffsets { new },
        ),
    }
}

impl UpdaterView {
    /// What an outcome leads to.
    pub open spec fn on_outcome(self, repo: Seq<char>, version: Seq<char>, outcome: OutcomeView) -> UpdaterProgress {
        let unexpected = updater_stops(Fault::UnexpectedReply);
        match self {
            UpdaterView::ExeVersion(fetch) => on_exe_version(
                repo,
                version,
                fetch.on_outcome(outcome),
            ),
            UpdaterView::OffsetVersion(fetch) => on_offset_version(fetch.on_outcome(outcome)),
            UpdaterView::VersionExists { new } => match outcome {
                OutcomeView::Exists(exists) => on_version_exists(new, exists),
                _ => unexpected,
            },
            UpdaterView::OffsetsExist { new, stale } => match outcome {
                OutcomeView::Exists(exists) => on_offsets_exist(repo, new, stale, exists),
                _ => unexpected,
            },
            UpdaterView::VersionText { new, stale } => match outcome {
                OutcomeView::ReadText(text) => on_version_text(repo, new, stale, text),
                _ => unexpected,
            },
            UpdaterView::Offsets { new, fetch } => on_offsets(new, fetch.on_outcome(outcome)),
            UpdaterView::WriteOffsets { new } => match outcome {
                OutcomeView::Write(true) => updater_asks(
                    ErrandView::Write(
                        "version_offsets"@,
                        crate::number::signed_decimal(new as int),
                    ),
                    UpdaterView::WriteVersion,
                ),
                OutcomeView::Write(false) => updater_stops(Fault::FileNotWritten),
                _ => unexpected,
            },
            UpdaterView::WriteVersion => match outcome {
                OutcomeView::Write(true) => updater_ends(
                    seq![crate::report::info("Offsets updated"@)],
                ),
                OutcomeView::Write(false) => updater_stops(Fault::FileNotWritten),
                _ => unexpected,
            },
        }
    }
}

/// The outputs and the next step are as a progress says.
pub open spec fn updater_made(
    p: UpdaterProgress,
    out_before: Seq<Output>,
    out: Seq<Output>,
    n: UpdaterNext,
) -> bool {
    &&& crate::output::output_views(out) == crate::output::output_views(out_before) + p.out
    &&& updater_view(n) == p.next
}

/// Starts to look for updates in the repository `repo`.
pub fn update_routine(repo: &str, out: &mut Vec<Output>) -> (r: UpdaterNext)
    ensures
        updater_made(updater_start(repo@), old(out)@, final(out)@, r),
{
    crate::output::log_line(out, Level::Info, "Checking for updates...");
    assert(crate::output::output_views(out@) =~= crate::output::output_views(old(out)@)
        + updater_start(repo@).out);
    match crate::fetch::get_file("version_exe", repo) {
        Next::Ask(q, fetch) => Next::Ask(q, UpdaterStage::ExeVersion(fetch)),
        _ => Next::Fault(Fault::UnexpectedReply),
    }
}

fn settle_exe_version(repo: &str, version: &str, n: FetchNext, out: &mut Vec<Output>) -> (r:
    UpdaterNext)
    ensures
        updater_made(
            on_exe_version(repo@, version@, crate::fetch::fetch_view(n)),
            old(out)@,
            final(out)@,
            r,
        ),
{
    let ghost made = on_exe_version(repo@, version@, crate::fetch::fetch_view(n));
    let ghost start = crate::output::output_views(out@);
    let r = match n {
        Next::Ask(q, fetch) => Next::Ask(q, UpdaterStage::ExeVersion(fetch)),
        Next::Fault(f) => Next::Fault(f),
        Next::Done(Err(reason)) => {
            let line = "Failed to fetch new executable version from repository: ".to_string().concat(
                reason.as_str(),
            );
            crate::output::log_line(out, Level::Error, line.as_str());
            Next::Done(())
        },
        Next::Done(Ok(text)) => {
            let new = crate::trim::trim(text.as_str());
            if new == version.to_string() {
                let line = "Program up to date (v".to_string().concat(new.as_str()).concat(")");
                crate::output::log_line(out, Level::Info, line.as_str());
                let n = crate::fetch::get_file("version_offsets", repo);
                settle_offset_version(n, out)
            } else {
                crate::output::log_line(out, Level::Warn, " ");
                let line = "   !! Executable update available: v".to_string().concat(
                    new.as_str(),
                ).concat(" !!");
                crate::output::log_line(out, Level::Warn, line.as_str());
                crate::output::log_line(
                    out,
                    Level::Warn,
                    "Update the program to get the latest offset updates",
                );
                crate::output::log_line(out, Level::Warn, "");
                Next::Done(())
            }
        },
    };
    assert(crate::output::output_views(out@) =~= start + made.out);
    r
}

fn settle_offset_version(n: FetchNext, out: &mut Vec<Output>) -> (r: UpdaterNext)
    ensures
        updater_made(
            on_offset_version(crate::fetch::fetch_view(n)),
            old(out)@,
            final(out)@,
            r,
        ),
{
    let ghost made = on_offset_version(crate::fetch::fetch_view(n));
    let ghost start = crate::output::output_views(out@);
    let r = match n {
        Next::Ask(q, fetch) => Next::Ask(q, UpdaterStage::OffsetVersion(fetch)),
        Next::Fault(f) => Next::Fault(f),
        Next::Done(Err(_)) => {
            crate::output::log_line(
                out,
                Level::Error,
                "Failed to fetch new offset version from repository",
            );
            Next::Done(())
        },
        Next::Done(Ok(text)) => match crate::number::parse_i32(
            crate::trim::trim(text.as_str()).as_str(),
        ) {
            None => {
                let line = "Failed to parse new offset version: ".to_string().concat(text.as_str());
                crate::output::log_line(out, Level::Error, line.as_str());
                Next::Done(())
            },
            Some(new) => Next::Ask(
                Errand::Exists("./version_offsets".to_string()),
                UpdaterStage::VersionExists { new },
            ),
        },
    };
    assert(crate::output::output_views(out@) =~= start + made.out);
    r
}

fn settle_version_exists(new: i32, exists: bool, out: &mut Vec<Output>) -> (r: UpdaterNext)
    ensures
        updater_made(on_version_exists(new, exists), old(out)@, final(out)@, r),
{
    if !exists {
        crate::output::log_line(out, Level::Warn, "Missing version_offsets file");
    }
    assert(crate::output::output_views(out@) =~= crate::output::output_views(old(out)@)
        + on_version_exists(new, exists).out);
    Next::Ask(
        Errand::Exists("./offsets".to_string()),
        UpdaterStage::OffsetsExist { new, stale: !exists },
    )
}

fn settle_offsets_exist(repo: &str, new: i32, stale: bool, exists: bool, out: &mut Vec<Output>) -> (r:
    UpdaterNext)
    ensures
        updater_made(on_offsets_exist(repo@, new, stale, exists), old(out)@, final(out)@, r),
{
    let ghost made = on_offsets_exist(repo@, new, stale, exists);
    let ghost start = crate::output::output_views(out@);
    let r = if exists {
        Next::Ask(
            Errand::ReadText("./version_offsets".to_string()),
            UpdaterStage::VersionText { new, stale },
        )
    } else {
        crate::output::log_line(out, Level::Warn, "Missing offsets file");
        settle_conclusion(repo, new, true, out)
    };
    assert(crate::output::output_views(out@) =~= start + made.out);
    r
}

fn settle_version_text(
    repo: &str,
    new: i32,
    stale: bool,
    text: Option<String>,
    out: &mut Vec<Output>,
) -> (r: UpdaterNext)
    ensures
        updater_made(
            on_version_text(repo@, new, stale, crate::fetch::optional_text(text)),
            old(out)@,
            final(out)@,
            r,
        ),
{
    let ghost start = crate::output::output_views(out@);
    let ghost view = crate::fetch::optional_text(text);
    let ghost made = on_version_text(repo@, new, stale, view);
    let mut replace: bool = stale;
    match text {
        None => {
            crate::output::log_line(out, Level::Warn, "Failed to read version_offsets file");
            replace = true;
        },
        Some(text) => match crate::number::parse_i32(crate::trim::trim(text.as_str()).as_str()) {
            None => {
                crate::output::log_line(out, Level::Warn, "Failed to parse version_offsets file");
                replace = true;
            },
            Some(version) => {
                if version < new {
                    crate::output::log_line(out, Level::Info, "Offset update available");
                    replace = true;
                } else {
                    let line = "Offsets up to date (v".to_string().concat(
                        crate::number::to_decimal(new).as_str(),
                    ).concat(")");
                    crate::output::log_line(out, Level::Info, line.as_str());
                }
            },
        },
    }
    assert(crate::output::output_views(out@) =~= start.push(version_line(new, view)));
    let r = settle_conclusion(repo, new, replace, out);
    assert(crate::output::output_views(out@) =~= start + made.out);
    r
}

fn settle_conclusion(repo: &str, new: i32, stale: bool, out: &mut Vec<Output>) -> (r: UpdaterNext)
    ensures
        updater_made(conclude(repo@, new, stale), old(out)@, final(out)@, r),
{
    let ghost start = crate::output::output_views(out@);
    let r = if stale {
        crate::output::log_line(out, Level::Info, "Downloading offsets...");
        let n = crate::fetch::get_file("offsets", repo);
        settle_offsets(new, n, out)
    } else {
        Next::Done(())
    };
    assert(crate::output::output_views(out@) =~= start + conclude(repo@, new, stale).out);
    r
}

fn settle_offsets(new: i32, n: FetchNext, out: &mut Vec<Output>) -> (r: UpdaterNext)
    ensures
        updater_made(
            on_offsets(new, crate::fetch::fetch_view(n)),
            old(out)@,
            final(out)@,
            r,
        ),
{
    let ghost made = on_offsets(new, crate::fetch::fetch_view(n));
    let ghost start = crate::output::output_views(out@);
    let r = match n {
        Next::Ask(q, fetch) => Next::Ask(q, UpdaterStage::Offsets { new, fetch }),
        Next::Fault(f) => Next::Fault(f),
        Next::Done(Err(_)) => {
            crate::output::log_line(out, Level::Error, "Failed to fetch offsets from repository");
            Next::Done(())
        },
        Next::Done(Ok(text)) => Next::Ask(
            Errand::Write("offsets".to_string(), text),
            UpdaterStage::WriteOffsets { new },
        ),
    };
    assert(crate::output::output_views(out@) =~= start + made.out);
    r
}

impl UpdaterStage {
    /// Goes on with what came of the errand, and adds to `out` what is to be told. `version` is
    /// that of the running program.
    pub fn resume(self, repo: &str, version: &str, outcome: Outcome, out: &mut Vec<Output>) -> (r:
        UpdaterNext)
        ensures
            updater_made(
                self@.on_outcome(repo@, version@, outcome@),
                old(out)@,
                final(out)@,
                r,
            ),
    {
        let ghost start = crate::output::output_views(out@);
        let ghost made = self@.on_outcome(repo@, version@, outcome@);
        let r = match self {
            UpdaterStage::ExeVersion(fetch) => {
                let n = fetch.resume(outcome);
                settle_exe_version(repo, version, n, out)
            },
            UpdaterStage::OffsetVersion(fetch) => {
                let n = fetch.resume(outcome);
                settle_offset_version(n, out)
            },
            UpdaterStage::VersionExists { new } => match outcome {
                Outcome::Exists(exists) => settle_version_exists(new, exists, out),
                _ => Next::Fault(Fault::UnexpectedReply),
            },
            UpdaterStage::OffsetsExist { new, stale } => match outcome {
                Outcome::Exists(exists) => settle_offsets_exist(repo, new, stale, exists, out),
                _ => Next::Fault(Fault::UnexpectedReply),
            },
            UpdaterStage::VersionText { new, stale } => match outcome {
                Outcome::ReadText(text) => settle_version_text(repo, new, stale, text, out),
                _ => Next::Fault(Fault::UnexpectedReply),
            },
            UpdaterStage::Offsets { new, fetch } => {
                let n = fetch.resume(outcome);
                settle_offsets(new, n, out)
            },
            UpdaterStage::WriteOffsets { new } => match outcome {
                Outcome::Write(true) => Next::Ask(
                    Errand::Write("version_offsets".to_string(), crate::number::to_decimal(new)),
                    UpdaterStage::WriteVersion,
                ),
                Outcome::Write(false) => Next::Fault(Fault::FileNotWritten),
                _ => Next::Fault(Fault::UnexpectedReply),
            },
            UpdaterStage::WriteVersion => match outcome {
                Outcome::Write(true) => {
                    crate::output::log_line(out, Level::Info, "Offsets updated");
                    Next::Done(())
                },
                Outcome::Write(false) => Next::Fault(Fault::FileNotWritten),
                _ => Next::Fault(Fault::UnexpectedReply),
            },
        };
        assert(crate::output::output_views(out@) =~= start + made.out);
        r
    }
}

/// An outcome of another kind than the errand stops looking for updates, and so does a status code
/// that does not have three digits.
pub proof fn lemma_unexpected_outcomes_stop(
    stage: UpdaterView,
    repo: Seq<char>,
    version: Seq<char>,
    outcome: OutcomeView,
)
    requires
        (match stage {
            UpdaterView::ExeVersion(fetch) | UpdaterView::OffsetVersion(fetch)
            | UpdaterView::Offsets { fetch, .. } => if fetch.answered {
                !(outcome is Body)
            } else {
                !(outcome is Get) || (outcome matches OutcomeView::Get(Some(code)) && (code < 100
                    || code > 999))
            },
            UpdaterView::VersionExists { .. } | UpdaterView::OffsetsExist { .. } => !(outcome is Exists),
            UpdaterView::VersionText { .. } => !(outcome is ReadText),
            UpdaterView::WriteOffsets { .. } | UpdaterView::WriteVersion => !(outcome is Write),
        }),
    ensures
        stage.on_outcome(repo, version, outcome) == (UpdaterProgress {
            out: Seq::empty(),
            next: Next::Fault(Fault::UnexpectedReply),
        }),
{
}

} // verus!
