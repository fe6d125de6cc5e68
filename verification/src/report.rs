//! Telling the user what went wrong.
use crate::keeper::{BeatKeeper, KeeperView};
use crate::memory::{MemoryError, PointerView, ReadError, ReadErrorView};
use crate::output::{Level, Output, OutputView};
use vstd::prelude::*;
use vstd::string::*;

verus! {

/// A line of information.
pub open spec fn info(line: Seq<char>) -> OutputView {
    OutputView::Log(Level::Info, line)
}

/// A line that tells of an error.
pub open spec fn failure(line: Seq<char>) -> OutputView {
    OutputView::Log(Level::Error, line)
}

/// What is said about the cause of an error, and what could be done about it.
pub open spec fn cause_lines(e: MemoryError) -> Seq<OutputView> {
    match e {
        MemoryError::ProcessNotFound | MemoryError::ModuleNotFound => seq![
            failure("Rekordbox process not found!"@),
        ],
        MemoryError::SnapshotFailed(reason) => seq![
            failure("Snapshot failed: "@ + reason@),
            info("    Ensure Rekordbox is running!"@),
        ],
        MemoryError::ReadMemoryFailed(reason) => seq![
            failure("Read memory failed: "@ + reason@),
            info("    Try the following:"@),
            info("    - Wait for Rekordbox to start and load a track"@),
            info("    - Ensure you have selected the correct Rekordbox version in the config"@),
            info("    - Check the number of decks in the config"@),
            info("    - Update the offsets and program"@),
            info("    If nothing works, wait for an update, or enable Debug in config and submit this entire error message on an Issue on GitHub."@),
        ],
        MemoryError::WriteMemoryFailed(reason) => seq![failure("Write memory failed: "@ + reason@)],
    }
}

/// What is said, for debugging, about the chain that could not be followed.
pub open spec fn pointer_lines(p: Option<PointerView>) -> Seq<OutputView> {
    match p {
        Some(p) => seq![OutputView::LogPointer(p)],
        None => Seq::empty(),
    }
}

/// What is said, for debugging, about the address that could not be read. Address 0 stands for
/// none.
pub open spec fn address_lines(address: usize) -> Seq<OutputView> {
    crate::track::only_if(
        address != 0,
        OutputView::Log(Level::Debug, "Address: "@ + crate::number::hexadecimal(address as nat)),
    )
}

/// Everything that is said about an error.
pub open spec fn error_lines(e: ReadErrorView) -> Seq<OutputView> {
    cause_lines(e.error) + pointer_lines(e.pointer) + address_lines(e.address)
}

/// The error is the one that was reported last.
pub open spec fn is_known(last: Option<ReadErrorView>, e: ReadErrorView) -> bool {
    last is Some && e.same(last->0)
}

/// What is said when an error occurs: nothing, if it is the one that was reported last.
pub open spec fn report(last: Option<ReadErrorView>, e: ReadErrorView) -> Seq<OutputView> {
    if is_known(last, e) {
        Seq::empty()
    } else {
        error_lines(e)
    }
}

/// The error that was reported last, once `e` has been reported.
pub open spec fn reported(last: Option<ReadErrorView>, e: ReadErrorView) -> Option<ReadErrorView> {
    if is_known(last, e) {
        last
    } else {
        Some(e)
    }
}

/// The keeper once `e` has been reported.
pub open spec fn having_reported(k: KeeperView, e: ReadErrorView) -> KeeperView {
    KeeperView { last_error: reported(k.last_error, e), ..k }
}

fn log_cause(e: &MemoryError, out: &mut Vec<Output>)
    ensures
        crate::output::output_views(final(out)@) == crate::output::output_views(old(out)@)
            + cause_lines(*e),
{
    match e {
        MemoryError::ProcessNotFound | MemoryError::ModuleNotFound => {
            crate::output::log_line(out, Level::Error, "Rekordbox process not found!");
        },
        MemoryError::SnapshotFailed(reason) => {
            let line = "Snapshot failed: ".to_string().concat(reason.as_str());
            crate::output::log_line(out, Level::Error, line.as_str());
            crate::output::log_line(out, Level::Info, "    Ensure Rekordbox is running!");
        },
        MemoryError::ReadMemoryFailed(reason) => {
            let line = "Read memory failed: ".to_string().concat(reason.as_str());
            crate::output::log_line(out, Level::Error, line.as_str());
            crate::output::log_line(out, Level::Info, "    Try the following:");
            crate::output::log_line(
                out,
                Level::Info,
                "    - Wait for Rekordbox to start and load a track",
            );
            crate::output::log_line(
                out,
                Level::Info,
                "    - Ensure you have selected the correct Rekordbox version in the config",
            );
            crate::output::log_line(
                out,
                Level::Info,
                "    - Check the number of decks in the config",
            );
            crate::output::log_line(out, Level::Info, "    - Update the offsets and program");
            crate::output::log_line(
                out,
                Level::Info,
                "    If nothing works, wait for an update, or enable Debug in config and submit this entire error message on an Issue on GitHub.",
            );
        },
        MemoryError::WriteMemoryFailed(reason) => {
            let line = "Write memory failed: ".to_string().concat(reason.as_str());
            crate::output::log_line(out, Level::Error, line.as_str());
        },
    }
    assert(crate::output::output_views(out@) =~= crate::output::output_views(old(out)@)
        + cause_lines(*e));
}

impl BeatKeeper {
    /// Reports an error, unless it is the one that was reported last.
    pub fn report_error(&mut self, e: ReadError, out: &mut Vec<Output>)
        ensures
            final(self)@ == having_reported(old(self)@, e@),
            crate::output::output_views(final(out)@) == crate::output::output_views(old(out)@)
                + report(old(self)@.last_error, e@),
    {
        let ghost start = crate::output::output_views(out@);
        if let Some(last) = &self.last_error {
            if e == *last {
                assert(start =~= start + Seq::empty());
                return;
            }
        }
        log_cause(&e.error, out);
        if let Some(p) = &e.pointer {
            crate::output::emit(out, Output::LogPointer(p.clone()));
        }
        if e.address != 0 {
            let line = "Address: ".to_string().concat(
                crate::number::to_hexadecimal(e.address).as_str(),
            );
            crate::output::log_line(out, Level::Debug, line.as_str());
        }
        assert(crate::output::output_views(out@) =~= start + error_lines(e@));
        self.last_error = Some(e);
    }
}

/// An error that was just reported is not reported again, and it stays the last one reported.
pub proof fn lemma_error_is_reported_once(last: Option<ReadErrorView>, e: ReadErrorView)
    ensures
        report(reported(last, e), e) == Seq::<OutputView>::empty(),
        reported(reported(last, e), e) == reported(last, e),
{
}

/// After another error was reported, an error is reported anew; so it is, too, when none counts
/// as reported.
pub proof fn lemma_error_is_reported_anew(e: ReadErrorView, other: ReadErrorView)
    requires
        !e.same(other),
    ensures
        report(Some(other), e) == error_lines(e),
        report(None, e) == error_lines(e),
        reported(Some(other), e) == Some(e),
        error_lines(e).len() > 0,
{
}

/// What is said about an error: its cause, by its kind and with its reason; then the chain, if it
/// has one; then the address in hexadecimal, if it is not 0.
pub proof fn lemma_everything_is_said_about_an_error(e: ReadErrorView)
    ensures
        ({
            let lines = error_lines(e);
            let chain: int = if e.pointer is Some {
                1
            } else {
                0
            };
            let address: int = if e.address != 0 {
                1
            } else {
                0
            };
            let causes = lines.len() - chain - address;
            &&& e.error is ProcessNotFound || e.error is ModuleNotFound ==> causes == 1 && lines[0]
                == OutputView::Log(Level::Error, "Rekordbox process not found!"@)
            &&& e.error matches MemoryError::SnapshotFailed(reason) ==> causes == 2 && lines[0]
                == OutputView::Log(Level::Error, "Snapshot failed: "@ + reason@) && lines[1]
                == OutputView::Log(Level::Info, "    Ensure Rekordbox is running!"@)
            &&& e.error matches MemoryError::ReadMemoryFailed(reason) ==> causes == 7 && lines[0]
                == OutputView::Log(Level::Error, "Read memory failed: "@ + reason@) && lines[1]
                == OutputView::Log(Level::Info, "    Try the following:"@) && lines[2]
                == OutputView::Log(
                Level::Info,
                "    - Wait for Rekordbox to start and load a track"@,
            ) && lines[3] == OutputView::Log(
                Level::Info,
                "    - Ensure you have selected the correct Rekordbox version in the config"@,
            ) && lines[4] == OutputView::Log(
                Level::Info,
                "    - Check the number of decks in the config"@,
            ) && lines[5] == OutputView::Log(
                Level::Info,
                "    - Update the offsets and program"@,
            ) && lines[6] == OutputView::Log(
                Level::Info,
                "    If nothing works, wait for an update, or enable Debug in config and submit this entire error message on an Issue on GitHub."@,
            )
            &&& e.error matches MemoryError::WriteMemoryFailed(reason) ==> causes == 1 && lines[0]
                == OutputView::Log(Level::Error, "Write memory failed: "@ + reason@)
            &&& e.pointer matches Some(p) ==> lines[causes] == OutputView::LogPointer(p)
            &&& e.address != 0 ==> lines.last() == OutputView::Log(
                Level::Debug,
                "Address: "@ + crate::number::hexadecimal(e.address as nat),
            )
        }),
{
}

/// An error is reported, and remembered, exactly if none counts as reported or the one that does is
/// another one.
pub proof fn lemma_only_news_are_reported(last: Option<ReadErrorView>, e: ReadErrorView)
    ensures
        last is None || !e.same(last->0) ==> report(last, e) == error_lines(e) && reported(last, e)
            == Some(e),
        last is Some && e.same(last->0) ==> report(last, e) == Seq::<OutputView>::empty()
            && reported(last, e) == last,
{
}

/// Reporting an error changes nothing of what is known of the decks.
pub proof fn lemma_reporting_leaves_the_decks(k: KeeperView, e: ReadErrorView)
    ensures
        ({
            let k1 = having_reported(k, e);
            &&& k1.last_error == reported(k.last_error, e)
            &&& k1 == (KeeperView { last_error: k1.last_error, ..k })
        }),
{
}

} // verus!
