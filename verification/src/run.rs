//! Running a session, one reply at a time.
use crate::change::ChangeTrackedValue;
use crate::keeper::{BeatKeeper, DECK_SLOTS};
use crate::memory::ReadError;
use crate::output::{Level, Output, TrackInfo};
use crate::protocol::{Fault, Next, Reply, Request};
use crate::rekordbox::{ConnectNext, Rekordbox, RekordboxOffsets};
use crate::session::{ModuleDefinition, Runner, Session, SessionNext, SessionStage, Settings, RETRY_DELAY};
use crate::track::{TrackTracker, TrackingDataTracker};
use crate::update::UpdateNext;
use vstd::prelude::*;
use vstd::string::*;

verus! {

impl BeatKeeper {
    /// A keeper that was told nothing yet.
    pub fn new(settings: Settings) -> (r: BeatKeeper)
        ensures
            r@ == crate::session::fresh_keeper(settings),
            r@.wf(),
    {
        let mut track_infos: Vec<ChangeTrackedValue<TrackInfo>> = Vec::new();
        let mut track_trackers: Vec<TrackTracker> = Vec::new();
        let mut anlz_paths: Vec<ChangeTrackedValue<String>> = Vec::new();
        let mut td_trackers: Vec<TrackingDataTracker> = Vec::new();
        let mut i: usize = 0;
        while i < DECK_SLOTS
            invariant
                i <= DECK_SLOTS,
                track_infos.len() == i,
                track_trackers.len() == i,
                anlz_paths.len() == i,
                td_trackers.len() == i,
                forall|j: int|
                    0 <= j < i ==> (#[trigger] track_infos@[j]).value@ == crate::output::no_track(),
                forall|j: int|
                    0 <= j < i ==> (#[trigger] track_trackers@[j])@ == crate::track::fresh_tracker(),
                forall|j: int| 0 <= j < i ==> (#[trigger] anlz_paths@[j]).value@ == Seq::<char>::empty(),
                forall|j: int|
                    0 <= j < i ==> #[trigger] td_trackers@[j] == crate::track::fresh_tracking(),
            decreases DECK_SLOTS - i,
        {
            track_infos.push(ChangeTrackedValue::new(TrackInfo::default()));
            track_trackers.push(TrackTracker::new());
            anlz_paths.push(ChangeTrackedValue::new(String::new()));
            td_trackers.push(TrackingDataTracker::new());
            i += 1;
        }
        let keeper = BeatKeeper {
            masterdeck_index: ChangeTrackedValue::new(0),
            offset_samples: settings.offset_samples,
            track_infos,
            track_trackers,
            anlz_paths,
            last_error: None,
            keep_warm: settings.keep_warm,
            decks: settings.decks,
            td_trackers,
            master_td_tracker: TrackingDataTracker::new(),
        };
        proof {
            let fresh = crate::session::fresh_keeper(settings);
            assert(keeper@.track_infos =~= fresh.track_infos);
            assert(keeper@.trackers =~= fresh.trackers);
            assert(keeper@.anlz_paths =~= fresh.anlz_paths);
            assert(keeper@.told =~= fresh.told);
        }
        keeper
    }

    /// Starts everything: the modules first, then the search for Rekordbox.
    pub fn start(
        offsets: RekordboxOffsets,
        modules: Vec<ModuleDefinition>,
        settings: Settings,
        out: &mut Vec<Output>,
    ) -> (r: SessionNext)
        ensures
            crate::session::session_made(
                crate::session::session_start(
                    offsets@,
                    crate::session::module_views(modules@),
                    settings,
                ),
                old(out)@,
                final(out)@,
                r,
            ),
    {
        let ghost start = crate::session::session_start(
            offsets@,
            crate::session::module_views(modules@),
            settings,
        );
        crate::output::log_line(out, Level::Info, "Active modules:");
        let keeper = BeatKeeper::new(settings);
        let runner = Runner { settings, modules, offsets, keeper, rekordbox: None, n: 0 };
        let r = runner.visit_modules(0, out);
        assert(crate::output::output_views(out@) =~= crate::output::output_views(old(out)@)
            + start.out);
        r
    }
}

impl Runner {
    fn visit_modules(self, i: usize, out: &mut Vec<Output>) -> (r: SessionNext)
        requires
            self@.wf(),
        ensures
            crate::session::session_made(
                crate::session::visit_modules(self@, i as int),
                old(out)@,
                final(out)@,
                r,
            ),
    {
        if i >= self.modules.len() {
            self.begin(out)
        } else {
            let key = self.modules[i].config_name.clone().concat(".enabled");
            assert(crate::output::output_views(out@) =~= crate::output::output_views(old(out)@)
                + Seq::empty());
            Next::Ask(
                Request::Enabled(key),
                Session { runner: self, stage: SessionStage::Enabled(i) },
            )
        }
    }

    fn begin(self, out: &mut Vec<Output>) -> (r: SessionNext)
        requires
            self@.wf(),
        ensures
            crate::session::session_made(
                crate::session::begin(self@),
                old(out)@,
                final(out)@,
                r,
            ),
    {
        if self.settings.update_rate == 0 {
            assert(crate::output::output_views(out@) =~= crate::output::output_views(old(out)@)
                + Seq::empty());
            return Next::Fault(Fault::ZeroUpdateRate);
        }
        let ghost began = crate::session::begin(self@);
        crate::output::log_line(out, Level::Info, "Looking for Rekordbox...");
        crate::output::emit(out, Output::Print(String::new()));
        let r = self.round(out);
        assert(crate::output::output_views(out@) =~= crate::output::output_views(old(out)@)
            + began.out);
        r
    }

    fn round(self, out: &mut Vec<Output>) -> (r: SessionNext)
        requires
            self@.wf(),
            self@.settings.update_rate > 0,
        ensures
            crate::session::session_made(
                crate::session::round(self@),
                old(out)@,
                final(out)@,
                r,
            ),
    {
        let ghost made = crate::session::round(self@);
        match &self.rekordbox {
            Some(rb) => {
                crate::output::emit(out, Output::UpdateStarts);
                let n = self.keeper.update(rb, self.n == 0);
                let r = match n {
                    Next::Ask(q, u) => Next::Ask(
                        q,
                        Session { runner: self, stage: SessionStage::Updating(u) },
                    ),
                    _ => Next::Fault(Fault::UnexpectedReply),
                };
                assert(crate::output::output_views(out@) =~= crate::output::output_views(old(out)@)
                    + made.out);
                r
            },
            None => {
                assert(crate::output::output_views(out@) =~= crate::output::output_views(old(out)@)
                    + made.out);
                match Rekordbox::new() {
                    Next::Ask(q, c) => Next::Ask(
                        q,
                        Session { runner: self, stage: SessionStage::Connecting(c) },
                    ),
                    _ => Next::Fault(Fault::UnexpectedReply),
                }
            },
        }
    }

    fn on_enabled(self, i: usize, enabled: bool, out: &mut Vec<Output>) -> (r: SessionNext)
        requires
            self@.wf(),
            i < self.modules.len(),
        ensures
            crate::session::session_made(
                crate::session::on_enabled(self@, i, enabled),
                old(out)@,
                final(out)@,
                r,
            ),
    {
        if enabled {
            let line = " - ".to_string().concat(self.modules[i].pretty_name.as_str());
            crate::output::log_line(out, Level::Info, line.as_str());
            assert(crate::output::output_views(out@) =~= crate::output::output_views(old(out)@)
                + crate::session::on_enabled(self@, i, enabled).out);
            Next::Ask(
                Request::Create(i),
                Session { runner: self, stage: SessionStage::Created(i) },
            )
        } else {
            self.visit_modules(i + 1, out)
        }
    }

    fn on_created(self, i: usize, created: bool, out: &mut Vec<Output>) -> (r: SessionNext)
        requires
            self@.wf(),
            i < self.modules.len(),
        ensures
            crate::session::session_made(
                crate::session::on_created(self@, i, created),
                old(out)@,
                final(out)@,
                r,
            ),
    {
        let ghost made = crate::session::on_created(self@, i, created);
        if !created {
            let line = "Failed to start module ".to_string().concat(
                self.modules[i].pretty_name.as_str(),
            );
            crate::output::log_line(out, Level::Error, line.as_str());
        }
        let r = self.visit_modules(i + 1, out);
        assert(crate::output::output_views(out@) =~= crate::output::output_views(old(out)@)
            + made.out);
        r
    }

    fn settle_connection(self, n: ConnectNext, out: &mut Vec<Output>) -> (r: SessionNext)
        requires
            self@.wf(),
            self@.settings.update_rate > 0,
            crate::rekordbox::connect_wf(n, self@.offsets, self@.settings.connected_decks),
        ensures
            crate::session::session_made(
                crate::session::settle_connection(self@, crate::rekordbox::connect_view(n)),
                old(out)@,
                final(out)@,
                r,
            ),
    {
        let ghost made = crate::session::settle_connection(
            self@,
            crate::rekordbox::connect_view(n),
        );
        let ghost start = crate::output::output_views(out@);
        let mut runner = self;
        match n {
            Next::Ask(q, c) => {
                assert(start =~= start + made.out);
                Next::Ask(q, Session { runner, stage: SessionStage::Connecting(c) })
            },
            Next::Fault(f) => {
                assert(start =~= start + made.out);
                Next::Fault(f)
            },
            Next::Done(Ok(rb)) => {
                let ghost connected = crate::session::connected_runner(self@, rb@);
                runner.rekordbox = Some(rb);
                crate::output::emit(out, Output::Print(String::new()));
                crate::output::log_line(out, Level::Good, "Connected to Rekordbox!");
                runner.keeper.last_error = None;
                assert(runner@ == connected);
                let r = runner.round(out);
                assert(crate::output::output_views(out@) =~= start + made.out);
                r
            },
            Next::Done(Err(e)) => {
                runner.keeper.report_error(e, out);
                crate::output::log_line(out, Level::Info, "...");
                assert(crate::output::output_views(out@) =~= start + made.out);
                Next::Ask(
                    Request::Sleep(RETRY_DELAY),
                    Session { runner, stage: SessionStage::Pause },
                )
            },
        }
    }

    /// Goes on when an update of the keeper has come to `n`.
    fn settle_update(self, n: UpdateNext, out: &mut Vec<Output>) -> (r: SessionNext)
        requires
            self@.wf(),
            self@.settings.update_rate > 0,
            n matches Next::Ask(_, u) ==> self@.rekordbox is Some && u.wf(
                self@.keeper,
                self@.rekordbox->0,
            ),
        ensures
            crate::session::session_made(
                crate::session::settle_update(
                    self@,
                    crate::keeper::quietly(self@.keeper, crate::update::update_view(n)),
                ),
                old(out)@,
                final(out)@,
                r,
            ),
    {
        let ghost made = crate::session::settle_update(
            self@,
            crate::keeper::quietly(self@.keeper, crate::update::update_view(n)),
        );
        let ghost start = crate::output::output_views(out@);
        let r = match n {
            Next::Ask(q, u) => Next::Ask(
                q,
                Session { runner: self, stage: SessionStage::Updating(u) },
            ),
            Next::Fault(f) => Next::Fault(f),
            Next::Done(Ok(_)) => self.count(),
            Next::Done(Err(e)) => self.lose(e, out),
        };
        assert(crate::output::output_views(out@) =~= start + made.out);
        r
    }

    fn count(self) -> (r: SessionNext)
        requires
            self@.wf(),
            self@.settings.update_rate > 0,
        ensures
            crate::session::session_made(
                crate::session::count(self@),
                Seq::empty(),
                Seq::empty(),
                r,
            ),
    {
        let every: i32 = self.settings.slow_update_every_nth;
        let mut runner = self;
        assert(crate::output::output_views(Seq::empty()) =~= crate::output::output_views(
            Seq::empty(),
        ) + Seq::empty());
        if runner.n == i32::MAX {
            return Next::Fault(Fault::CounterOverflow);
        }
        let interval: i64 = if every < 0 {
            -(every as i64)
        } else {
            every as i64
        };
        if interval == 0 {
            return Next::Fault(Fault::ZeroSlowUpdateInterval);
        }
        let n: i64 = (runner.n as i64 + 1) % interval;
        proof {
            vstd::arithmetic::div_mod::lemma_mod_decreases(
                (runner.n + 1) as nat,
                interval as nat,
            );
        }
        runner.n = n as i32;
        Next::Ask(Request::Elapsed, Session { runner, stage: SessionStage::Measuring })
    }

    fn lose(self, e: ReadError, out: &mut Vec<Output>) -> (r: SessionNext)
        requires
            self@.wf(),
            self@.settings.update_rate > 0,
        ensures
            crate::session::session_made(
                crate::session::lose(self@, e@),
                old(out)@,
                final(out)@,
                r,
            ),
    {
        let ghost made = crate::session::lose(self@, e@);
        let mut runner = self;
        runner.keeper.report_error(e, out);
        runner.rekordbox = None;
        crate::output::log_line(out, Level::Error, "Connection to Rekordbox lost");
        crate::output::log_line(out, Level::Info, "Reconnecting in 3s...");
        assert(crate::output::output_views(out@) =~= crate::output::output_views(old(out)@)
            + made.out);
        Next::Ask(Request::Sleep(RETRY_DELAY), Session { runner, stage: SessionStage::Pause })
    }

    fn on_elapsed(self, elapsed: u128, out: &mut Vec<Output>) -> (r: SessionNext)
        requires
            self@.wf(),
            self@.settings.update_rate > 0,
        ensures
            crate::session::session_made(
                crate::session::on_elapsed(self@, elapsed),
                old(out)@,
                final(out)@,
                r,
            ),
    {
        if (self.settings.period_nanos() as u128) > elapsed {
            assert(crate::output::output_views(out@) =~= crate::output::output_views(old(out)@)
                + Seq::empty());
            Next::Ask(
                Request::Elapsed,
                Session { runner: self, stage: SessionStage::Remaining },
            )
        } else {
            self.round(out)
        }
    }

    fn on_remaining(self, elapsed: u128) -> (r: SessionNext)
        requires
            self@.wf(),
            self@.settings.update_rate > 0,
        ensures
            crate::session::session_made(
                crate::session::on_remaining(self@, elapsed),
                Seq::empty(),
                Seq::empty(),
                r,
            ),
    {
        assert(crate::output::output_views(Seq::empty()) =~= crate::output::output_views(
            Seq::empty(),
        ) + Seq::empty());
        let period: u64 = self.settings.period_nanos();
        if elapsed <= period as u128 {
            Next::Ask(
                Request::Sleep(period - elapsed as u64),
                Session { runner: self, stage: SessionStage::Pause },
            )
        } else {
            Next::Fault(Fault::PeriodOverrun)
        }
    }
}

impl Session {
    /// Goes on with a reply, and adds to `out` what is to be told.
    pub fn resume(self, reply: Reply, out: &mut Vec<Output>) -> (r: SessionNext)
        requires
            self.wf(),
        ensures
            crate::session::session_made(
                self@.on_reply(reply@),
                old(out)@,
                final(out)@,
                r,
            ),
    {
        let ghost made = self@.on_reply(reply@);
        let ghost start = crate::output::output_views(out@);
        assert(start =~= start + Seq::empty());
        match self.stage {
            SessionStage::Enabled(i) => match reply {
                Reply::Enabled(enabled) => self.runner.on_enabled(i, enabled, out),
                _ => Next::Fault(Fault::UnexpectedReply),
            },
            SessionStage::Created(i) => match reply {
                Reply::Create(created) => self.runner.on_created(i, created, out),
                _ => Next::Fault(Fault::UnexpectedReply),
            },
            SessionStage::Connecting(c) => {
                let n = c.resume(
                    &self.runner.offsets,
                    self.runner.settings.connected_decks,
                    reply,
                );
                self.runner.settle_connection(n, out)
            },
            SessionStage::Updating(u) => {
                let mut runner = self.runner;
                match &runner.rekordbox {
                    Some(rb) => {
                        let n = runner.keeper.resume(rb, u, reply, out);
                        let r = runner.settle_update(n, out);
                        assert(crate::output::output_views(out@) =~= start + made.out);
                        r
                    },
                    None => Next::Fault(Fault::UnexpectedReply),
                }
            },
            SessionStage::Measuring => match reply {
                Reply::Elapsed(elapsed) => self.runner.on_elapsed(elapsed, out),
                _ => Next::Fault(Fault::UnexpectedReply),
            },
            SessionStage::Remaining => match reply {
                Reply::Elapsed(elapsed) => self.runner.on_remaining(elapsed),
                _ => Next::Fault(Fault::UnexpectedReply),
            },
            SessionStage::Pause => match reply {
                Reply::Sleep => self.runner.round(out),
                _ => Next::Fault(Fault::UnexpectedReply),
            },
        }
    }
}

} // verus!
