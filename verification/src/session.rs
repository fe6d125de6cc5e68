//! The whole course of things: starting the modules, connecting, and updating over and over.
use crate::keeper::{BeatKeeper, KeeperView, Progress, UpdateView, DECK_SLOTS};
use crate::memory::ReadErrorView;
use crate::output::{Level, Output, OutputView};
use crate::protocol::{Fault, Next, ReplyView, Request, RequestView};
use crate::rekordbox::{Connect, ConnectStep, ConnectView, OffsetsView, Rekordbox, RekordboxOffsets, RekordboxView};
use crate::update::Update;
use vstd::prelude::*;
use vstd::string::*;

verus! {

/// How long to wait before the next attempt to connect, in nanoseconds.
pub const RETRY_DELAY: u64 = 3_000_000_000;

/// What the configuration says about updates, where it says anything.
#[derive(Clone, Copy, Debug)]
pub struct KeeperConfig {
    pub update_rate: Option<u64>,
    pub slow_update_every_nth: Option<i32>,
    pub keep_warm: Option<bool>,
    pub decks: Option<usize>,
}

/// How updates are to be made.
#[derive(Clone, Copy, Debug, PartialEq, Eq, Structural)]
pub struct Settings {
    /// How many updates are made in a second.
    pub update_rate: u64,
    /// Every how many updates a slow one is made.
    pub slow_update_every_nth: i32,
    /// The delay compensation, in samples.
    pub offset_samples: i64,
    /// All decks are followed, and not just the master deck.
    pub keep_warm: bool,
    /// How many decks are followed.
    pub decks: usize,
    /// How many decks are connected.
    pub connected_decks: usize,
}

/// The value that is set, or the one that stands in for it.
pub open spec fn set_or<A>(value: Option<A>, default: A) -> A {
    match value {
        Some(v) => v,
        None => default,
    }
}

/// What a configuration comes to. Where it says nothing, 50 updates are made in a second and
/// every 50th is a slow one; all of four decks are followed, and two are connected.
pub open spec fn configured(config: KeeperConfig, offset_samples: i64) -> Settings {
    Settings {
        update_rate: set_or(config.update_rate, 50),
        slow_update_every_nth: set_or(config.slow_update_every_nth, 50),
        offset_samples,
        keep_warm: set_or(config.keep_warm, true),
        decks: set_or(config.decks, 4),
        connected_decks: set_or(config.decks, 2),
    }
}

impl Settings {
    /// Fills in what the configuration leaves open.
    pub fn new(config: KeeperConfig, offset_samples: i64) -> (r: Settings)
        ensures
            r == configured(config, offset_samples),
    {
        Settings {
            update_rate: config.update_rate.unwrap_or(50),
            slow_update_every_nth: config.slow_update_every_nth.unwrap_or(50),
            offset_samples,
            keep_warm: config.keep_warm.unwrap_or(true),
            decks: config.decks.unwrap_or(4),
            connected_decks: config.decks.unwrap_or(2),
        }
    }

    /// The time from one update to the next, in nanoseconds: whole microseconds, rounded down.
    pub open spec fn period(self) -> int {
        1_000_000int / self.update_rate as int * 1000
    }

    /// Every how many updates a slow one is made; the sign does not matter.
    pub open spec fn interval(self) -> int {
        if self.slow_update_every_nth < 0 {
            -self.slow_update_every_nth
        } else {
            self.slow_update_every_nth as int
        }
    }

    /// The time from one update to the next, in nanoseconds.
    pub fn period_nanos(&self) -> (r: u64)
        requires
            self.update_rate > 0,
        ensures
            r == self.period(),
    {
        let micros: u64 = 1_000_000 / self.update_rate;
        proof {
            vstd::arithmetic::div_mod::lemma_div_is_ordered_by_denominator(
                1_000_000,
                1,
                self.update_rate as int,
            );
            assert(micros <= 1_000_000);
        }
        micros * 1000
    }
}

/// An output module: what it is called in the configuration, and what users call it.
#[derive(Debug)]
pub struct ModuleDefinition {
    pub config_name: String,
    pub pretty_name: String,
}

/// A [`ModuleDefinition`] as a value.
pub struct ModuleView {
    pub config_name: Seq<char>,
    pub pretty_name: Seq<char>,
}

impl View for ModuleDefinition {
    type V = ModuleView;

    open spec fn view(&self) -> ModuleView {
        ModuleView { config_name: self.config_name@, pretty_name: self.pretty_name@ }
    }
}

impl ModuleDefinition {
    pub fn new(config_name: &str, pretty_name: &str) -> (r: ModuleDefinition)
        ensures
            r@ == (ModuleView { config_name: config_name@, pretty_name: pretty_name@ }),
    {
        ModuleDefinition {
            config_name: config_name.to_string(),
            pretty_name: pretty_name.to_string(),
        }
    }
}

/// The values of a list of modules.
pub open spec fn module_views(modules: Seq<ModuleDefinition>) -> Seq<ModuleView> {
    modules.map_values(|m: ModuleDefinition| m@)
}

/// What is kept from one request to the next.
pub struct Runner {
    pub settings: Settings,
    pub modules: Vec<ModuleDefinition>,
    pub offsets: RekordboxOffsets,
    pub keeper: BeatKeeper,
    /// The connection, if there is one.
    pub rekordbox: Option<Rekordbox>,
    /// How many updates were made since the last slow one; 0 if the next one is slow.
    pub n: i32,
}

/// A [`Runner`] as a value.
pub struct RunnerView {
    pub settings: Settings,
    pub modules: Seq<ModuleView>,
    pub offsets: OffsetsView,
    pub keeper: KeeperView,
    pub rekordbox: Option<RekordboxView>,
    pub n: i32,
}

/// The value of an optional connection.
pub open spec fn connection_view(rb: Option<Rekordbox>) -> Option<RekordboxView> {
    match rb {
        Some(rb) => Some(rb@),
        None => None,
    }
}

impl View for Runner {
    type V = RunnerView;

    open spec fn view(&self) -> RunnerView {
        RunnerView {
            settings: self.settings,
            modules: module_views(self.modules@),
            offsets: self.offsets@,
            keeper: self.keeper@,
            rekordbox: connection_view(self.rekordbox),
            n: self.n,
        }
    }
}

impl RunnerView {
    /// There is a slot for every deck, and a connection has everything for each of its decks.
    pub open spec fn wf(self) -> bool {
        &&& self.keeper.wf()
        &&& self.rekordbox is Some ==> self.rekordbox->0.wf()
        &&& self.n >= 0
    }
}

/// What is being waited for.
pub enum SessionStage {
    /// Whether a module is enabled.
    Enabled(usize),
    /// Whether a module could be started.
    Created(usize),
    /// The next step of a connection.
    Connecting(Connect),
    /// The next step of an update.
    Updating(Update),
    /// How long the update took.
    Measuring,
    /// How much time has passed since the update started, for the length of the pause.
    Remaining,
    /// The end of a pause.
    Pause,
}

/// A [`SessionStage`] as a value.
pub enum SessionStageView {
    Enabled(usize),
    Created(usize),
    Connecting(ConnectView),
    Updating(UpdateView),
    Measuring,
    Remaining,
    Pause,
}

impl View for SessionStage {
    type V = SessionStageView;

    open spec fn view(&self) -> SessionStageView {
        match self {
            SessionStage::Enabled(i) => SessionStageView::Enabled(*i),
            SessionStage::Created(i) => SessionStageView::Created(*i),
            SessionStage::Connecting(c) => SessionStageView::Connecting(c@),
            SessionStage::Updating(u) => SessionStageView::Updating(u@),
            SessionStage::Measuring => SessionStageView::Measuring,
            SessionStage::Remaining => SessionStageView::Remaining,
            SessionStage::Pause => SessionStageView::Pause,
        }
    }
}

/// The whole course of things, waiting for a reply.
pub struct Session {
    pub runner: Runner,
    pub stage: SessionStage,
}

/// A [`Session`] as a value.
pub struct SessionView {
    pub runner: RunnerView,
    pub stage: SessionStageView,
}

impl View for Session {
    type V = SessionView;

    open spec fn view(&self) -> SessionView {
        SessionView { runner: self.runner@, stage: self.stage@ }
    }
}

impl Session {
    /// What is being waited for fits what is kept.
    pub open spec fn wf(&self) -> bool {
        let r = self.runner@;
        &&& r.wf()
        &&& match self.stage {
            SessionStage::Enabled(i) => i < r.modules.len(),
            SessionStage::Created(i) => i < r.modules.len(),
            SessionStage::Connecting(c) => {
                &&& c.wf(r.offsets, r.settings.connected_decks)
                &&& r.settings.update_rate > 0
            },
            SessionStage::Updating(u) => {
                &&& r.rekordbox is Some
                &&& u.wf(r.keeper, r.rekordbox->0)
                &&& r.settings.update_rate > 0
            },
            SessionStage::Measuring => r.settings.update_rate > 0,
            SessionStage::Remaining => r.settings.update_rate > 0,
            SessionStage::Pause => r.settings.update_rate > 0,
        }
    }
}

/// How a session goes on. It never comes to a result.
pub type SessionNext = Next<Request, Session, ()>;

pub type SessionStep = Next<RequestView, SessionView, ()>;

/// The value of a [`SessionNext`].
pub open spec fn session_view(n: SessionNext) -> SessionStep {
    match n {
        Next::Ask(q, s) => Next::Ask(q@, s@),
        Next::Done(_) => Next::Done(()),
        Next::Fault(f) => Next::Fault(f),
    }
}

/// What happens in one go: what is told, and how the session goes on.
pub struct SessionProgress {
    pub out: Seq<OutputView>,
    pub next: SessionStep,
}

/// The progress after something was told.
pub open spec fn session_after(out: Seq<OutputView>, p: SessionProgress) -> SessionProgress {
    SessionProgress { out: out + p.out, next: p.next }
}

/// A request is made.
pub open spec fn session_asks(r: RunnerView, q: RequestView, stage: SessionStageView) -> SessionProgress {
    SessionProgress { out: Seq::empty(), next: Next::Ask(q, SessionView { runner: r, stage }) }
}

/// The session cannot go on.
pub open spec fn session_stops(f: Fault) -> SessionProgress {
    SessionProgress { out: Seq::empty(), next: Next::Fault(f) }
}

/// The modules from `i` on are started, each if it is enabled; after them, things begin.
pub open spec fn visit_modules(r: RunnerView, i: int) -> SessionProgress {
    if i >= r.modules.len() {
        begin(r)
    } else {
        session_asks(
            r,
            RequestView::Enabled(r.modules[i].config_name + ".enabled"@),
            SessionStageView::Enabled(i as usize),
        )
    }
}

/// It is known whether a module is enabled.
pub open spec fn on_enabled(r: RunnerView, i: usize, enabled: bool) -> SessionProgress {
    if enabled {
        session_after(
            seq![crate::report::info(" - "@ + r.modules[i as int].pretty_name)],
            session_asks(r, RequestView::Create(i), SessionStageView::Created(i)),
        )
    } else {
        visit_modules(r, i + 1)
    }
}

/// It is known whether a module could be started. One that could not is passed over.
pub open spec fn on_created(r: RunnerView, i: usize, created: bool) -> SessionProgress {
    if created {
        visit_modules(r, i + 1)
    } else {
        session_after(
            seq![
                crate::report::failure(
                    "Failed to start module "@ + r.modules[i as int].pretty_name,
                ),
            ],
            visit_modules(r, i + 1),
        )
    }
}

/// All modules have been started.
pub open spec fn begin(r: RunnerView) -> SessionProgress {
    if r.settings.update_rate == 0 {
        session_stops(Fault::ZeroUpdateRate)
    } else {
        session_after(
            seq![
                crate::report::info("Looking for Rekordbox..."@),
                OutputView::Print(Seq::empty()),
            ],
            round(r),
        )
    }
}

/// With a connection, an update is made; without one, a connection is looked for.
pub open spec fn round(r: RunnerView) -> SessionProgress {
    match r.rekordbox {
        Some(rb) => session_after(
            seq![OutputView::UpdateStarts],
            settle_update(
                r,
                crate::keeper::quietly(r.keeper, crate::keeper::update_step(rb, r.n == 0)),
            ),
        ),
        None => session_asks(
            r,
            RequestView::Process,
            SessionStageView::Connecting(ConnectView::Process),
        ),
    }
}

/// A connection is being made, or has been; or it has failed, and is tried again later.
pub open spec fn settle_connection(r: RunnerView, n: ConnectStep) -> SessionProgress {
    match n {
        Next::Ask(q, c) => session_asks(r, q, SessionStageView::Connecting(c)),
        Next::Fault(f) => session_stops(f),
        Next::Done(Ok(rb)) => session_after(
            seq![
                OutputView::Print(Seq::empty()),
                OutputView::Log(Level::Good, "Connected to Rekordbox!"@),
            ],
            round(connected_runner(r, rb)),
        ),
        Next::Done(Err(e)) => session_after(
            crate::report::report(r.keeper.last_error, e) + seq![crate::report::info("..."@)],
            session_asks(
                RunnerView { keeper: crate::report::having_reported(r.keeper, e), ..r },
                RequestView::Sleep(RETRY_DELAY),
                SessionStageView::Pause,
            ),
        ),
    }
}

/// What is kept once a connection has been made. No error counts as reported any more.
pub open spec fn connected_runner(r: RunnerView, rb: RekordboxView) -> RunnerView {
    RunnerView {
        rekordbox: Some(rb),
        keeper: KeeperView { last_error: None, ..r.keeper },
        ..r
    }
}

/// An update has come this far.
pub open spec fn settle_update(r: RunnerView, p: Progress) -> SessionProgress {
    let r1 = RunnerView { keeper: p.keeper, ..r };
    session_after(
        p.out,
        match p.next {
            Next::Ask(q, u) => session_asks(r1, q, SessionStageView::Updating(u)),
            Next::Fault(f) => session_stops(f),
            Next::Done(Ok(_)) => count(r1),
            Next::Done(Err(e)) => lose(r1, e),
        },
    )
}

/// An update was made. It is counted, and the time that it took is asked for.
pub open spec fn count(r: RunnerView) -> SessionProgress {
    if r.n == i32::MAX {
        session_stops(Fault::CounterOverflow)
    } else if r.settings.interval() == 0 {
        session_stops(Fault::ZeroSlowUpdateInterval)
    } else {
        session_asks(
            RunnerView { n: ((r.n + 1) % r.settings.interval()) as i32, ..r },
            RequestView::Elapsed,
            SessionStageView::Measuring,
        )
    }
}

/// An update failed. The connection is given up, and made again later.
pub open spec fn lose(r: RunnerView, e: ReadErrorView) -> SessionProgress {
    session_after(
        crate::report::report(r.keeper.last_error, e) + seq![
            crate::report::failure("Connection to Rekordbox lost"@),
            crate::report::info("Reconnecting in 3s..."@),
        ],
        session_asks(
            RunnerView {
                keeper: crate::report::having_reported(r.keeper, e),
                rekordbox: None,
                ..r
            },
            RequestView::Sleep(RETRY_DELAY),
            SessionStageView::Pause,
        ),
    )
}

/// It is known how long an update took. If some of its time is left, the clock is read once more
/// for the length of the pause.
pub open spec fn on_elapsed(r: RunnerView, elapsed: u128) -> SessionProgress {
    if r.settings.period() > elapsed {
        session_asks(r, RequestView::Elapsed, SessionStageView::Remaining)
    } else {
        round(r)
    }
}

/// It is known how much of the time of an update has passed. What is left of it is waited for. If
/// it has run out since the clock was read first, there is no going on.
pub open spec fn on_remaining(r: RunnerView, elapsed: u128) -> SessionProgress {
    if elapsed <= r.settings.period() {
        session_asks(
            r,
            RequestView::Sleep((r.settings.period() - elapsed) as u64),
            SessionStageView::Pause,
        )
    } else {
        session_stops(Fault::PeriodOverrun)
    }
}

impl SessionView {
    /// What a reply leads to.
    pub open spec fn on_reply(self, reply: ReplyView) -> SessionProgress {
        let r = self.runner;
        let unexpected = session_stops(Fault::UnexpectedReply);
        match self.stage {
            SessionStageView::Enabled(i) => match reply {
                ReplyView::Enabled(enabled) => on_enabled(r, i, enabled),
                _ => unexpected,
            },
            SessionStageView::Created(i) => match reply {
                ReplyView::Create(created) => on_created(r, i, created),
                _ => unexpected,
            },
            SessionStageView::Connecting(c) => settle_connection(
                r,
                c.on_reply(r.offsets, r.settings.connected_decks, reply),
            ),
            SessionStageView::Updating(u) => settle_update(
                r,
                u.on_reply(r.keeper, r.rekordbox->0, reply),
            ),
            SessionStageView::Measuring => match reply {
                ReplyView::Elapsed(elapsed) => on_elapsed(r, elapsed),
                _ => unexpected,
            },
            SessionStageView::Remaining => match reply {
                ReplyView::Elapsed(elapsed) => on_remaining(r, elapsed),
                _ => unexpected,
            },
            SessionStageView::Pause => match reply {
                ReplyView::Sleep => round(r),
                _ => unexpected,
            },
        }
    }
}

/// A keeper that was told nothing yet.
pub open spec fn fresh_keeper(settings: Settings) -> KeeperView {
    KeeperView {
        master: 0,
        offset_samples: settings.offset_samples,
        track_infos: Seq::new(DECK_SLOTS as nat, |i: int| crate::output::no_track()),
        trackers: Seq::new(DECK_SLOTS as nat, |i: int| crate::track::fresh_tracker()),
        anlz_paths: Seq::new(DECK_SLOTS as nat, |i: int| Seq::empty()),
        last_error: None,
        keep_warm: settings.keep_warm,
        decks: settings.decks,
        told: Seq::new(DECK_SLOTS as nat, |i: int| crate::track::fresh_tracking()),
        master_told: crate::track::fresh_tracking(),
    }
}

/// What is kept at first.
pub open spec fn fresh_runner(offsets: OffsetsView, modules: Seq<ModuleView>, settings: Settings) -> RunnerView {
    RunnerView {
        settings,
        modules,
        offsets,
        keeper: fresh_keeper(settings),
        rekordbox: None,
        n: 0,
    }
}

/// How it all starts: the modules are started, one after the other.
pub open spec fn session_start(offsets: OffsetsView, modules: Seq<ModuleView>, settings: Settings) -> SessionProgress {
    session_after(
        seq![crate::report::info("Active modules:"@)],
        visit_modules(fresh_runner(offsets, modules, settings), 0),
    )
}

/// The outputs and the next step are as a progress says.
pub open spec fn session_made(
    p: SessionProgress,
    out_before: Seq<Output>,
    out: Seq<Output>,
    n: SessionNext,
) -> bool {
    &&& crate::output::output_views(out) == crate::output::output_views(out_before) + p.out
    &&& session_view(n) == p.next
    &&& n matches Next::Ask(_, s) ==> s.wf()
    &&& !(n is Done)
}

// What settings and steps come to.
/// Each setting is the one that is configured, whatever the others are; where none is, there are 50
/// updates in a second, each 50th is slow, all decks are followed, and these are four, of which two
/// are connected.
pub proof fn lemma_settings_by_configuration(config: KeeperConfig, offset_samples: i64)
    ensures
        ({
            let s = configured(config, offset_samples);
            &&& s.offset_samples == offset_samples
            &&& (match config.update_rate {
                Some(rate) => s.update_rate == rate,
                None => s.update_rate == 50,
            })
            &&& (match config.slow_update_every_nth {
                Some(n) => s.slow_update_every_nth == n,
                None => s.slow_update_every_nth == 50,
            })
            &&& (match config.keep_warm {
                Some(warm) => s.keep_warm == warm,
                None => s.keep_warm,
            })
            &&& (match config.decks {
                Some(decks) => s.decks == decks && s.connected_decks == decks,
                None => s.decks == 4 && s.connected_decks == 2,
            })
        }),
{
}

/// A value that is set counts, and otherwise the one that stands in for it.
pub proof fn lemma_set_values_count<A>(value: A, default: A)
    ensures
        set_or(Some(value), default) == value,
        set_or(None, default) == default,
{
}

/// The period is the largest number of whole microseconds of which as many as there are updates in
/// a second fit into one. The interval of slow updates is the number that is set, without its sign.
pub proof fn lemma_period_and_interval(settings: Settings)
    requires
        settings.update_rate > 0,
    ensures
        settings.period() % 1000 == 0,
        0 <= settings.period() * settings.update_rate <= 1_000_000_000,
        (settings.period() + 1000) * settings.update_rate > 1_000_000_000,
        settings.interval() >= 0,
        settings.interval() == settings.slow_update_every_nth || settings.interval()
            == -settings.slow_update_every_nth,
{
    let rate = settings.update_rate as int;
    let micros = 1_000_000int / rate;
    vstd::arithmetic::div_mod::lemma_fundamental_div_mod(1_000_000, rate);
    vstd::arithmetic::div_mod::lemma_mod_bound(1_000_000, rate);
    vstd::arithmetic::div_mod::lemma_div_pos_is_pos(1_000_000, rate);
    assert(settings.period() == 1000 * micros);
    assert(0 <= rate * micros <= 1_000_000 < rate * micros + rate) by (nonlinear_arith)
        requires
            1_000_000 == rate * micros + 1_000_000int % rate,
            0 <= 1_000_000int % rate < rate,
            micros >= 0,
            rate > 0,
    ;
    assert((1000 * micros) * rate == 1000 * (rate * micros)) by (nonlinear_arith);
    assert((1000 * micros + 1000) * rate == 1000 * (rate * micros + rate)) by (nonlinear_arith);
}

/// At the start nothing is connected, nothing was told, four decks have no track, no file and no
/// grid, the first of them counts as the master, no error was reported, and the first update is a
/// slow one. What is to be followed, and the compensation, are as set.
pub proof fn lemma_fresh_session(offsets: OffsetsView, modules: Seq<ModuleView>, settings: Settings)
    ensures
        ({
            let r = fresh_runner(offsets, modules, settings);
            let k = r.keeper;
            &&& r.settings == settings && r.modules == modules && r.offsets == offsets
            &&& r.rekordbox is None && r.n == 0
            &&& k.master == 0 && k.last_error is None
            &&& k.offset_samples == settings.offset_samples
            &&& k.keep_warm == settings.keep_warm && k.decks == settings.decks
            &&& k.track_infos.len() == 4 && k.trackers.len() == 4
            &&& k.anlz_paths.len() == 4 && k.told.len() == 4
            &&& forall|d: int|
                0 <= d < 4 ==> (#[trigger] k.track_infos[d]).title.len() == 0
                    && k.track_infos[d].artist.len() == 0 && k.track_infos[d].album.len() == 0
            &&& forall|d: int|
                0 <= d < 4 ==> (#[trigger] k.trackers[d]).beatgrid is None
                    && !k.trackers[d].track_changed
            &&& forall|d: int| 0 <= d < 4 ==> (#[trigger] k.anlz_paths[d]).len() == 0
            &&& forall|d: int|
                0 <= d < 4 ==> (#[trigger] k.told[d]).beat_changed.value.bits == 0
                    && k.told[d].original_bpm_changed.value.bits == 0
                    && k.told[d].bpm_changed.value.bits == 0 && k.told[d].pos_changed.value == 0
            &&& k.master_told.beat_changed.value.bits == 0
                && k.master_told.original_bpm_changed.value.bits == 0
                && k.master_told.bpm_changed.value.bits == 0 && k.master_told.pos_changed.value == 0
        }),
{
}

/// A session starts by asking for its first module, if there is one.
pub proof fn lemma_session_starts_with_modules(
    offsets: OffsetsView,
    modules: Seq<ModuleView>,
    settings: Settings,
)
    requires
        modules.len() > 0,
    ensures
        ({
            let p = session_start(offsets, modules, settings);
            &&& p.out == seq![OutputView::Log(Level::Info, "Active modules:"@)]
            &&& p.next matches Next::Ask(q, s) && q == RequestView::Enabled(
                modules[0].config_name + ".enabled"@,
            ) && s.stage == SessionStageView::Enabled(0) && s.runner == fresh_runner(
                offsets,
                modules,
                settings,
            )
        }),
{
    assert(session_start(offsets, modules, settings).out =~= seq![
        OutputView::Log(Level::Info, "Active modules:"@),
    ]);
}

/// Each module is asked for by its key. If it is enabled, it is named and started, and otherwise
/// not; that it could not be started is told; and whatever came of it, the next module follows, or
/// the first round after the last one.
pub proof fn lemma_module_in_turn(r: RunnerView, i: usize)
    requires
        i < r.modules.len() <= usize::MAX,
    ensures
        ({
            let named = (SessionView { runner: r, stage: SessionStageView::Enabled(i) }).on_reply(
                ReplyView::Enabled(true),
            );
            let passed = (SessionView { runner: r, stage: SessionStageView::Enabled(i) }).on_reply(
                ReplyView::Enabled(false),
            );
            let started = (SessionView { runner: r, stage: SessionStageView::Created(i) }).on_reply(
                ReplyView::Create(true),
            );
            let failed = (SessionView { runner: r, stage: SessionStageView::Created(i) }).on_reply(
                ReplyView::Create(false),
            );
            &&& named.out == seq![
                OutputView::Log(Level::Info, " - "@ + r.modules[i as int].pretty_name),
            ]
            &&& named.next matches Next::Ask(q, s) && q == RequestView::Create(i) && s.stage
                == SessionStageView::Created(i) && s.runner == r
            &&& started == passed
            &&& failed.next == passed.next
            &&& failed.out == seq![
                OutputView::Log(
                    Level::Error,
                    "Failed to start module "@ + r.modules[i as int].pretty_name,
                ),
            ] + passed.out
            &&& i + 1 < r.modules.len() ==> passed.out.len() == 0 && (passed.next matches Next::Ask(
                q,
                s,
            ) && q == RequestView::Enabled(r.modules[i + 1].config_name + ".enabled"@) && s.stage
                == SessionStageView::Enabled((i + 1) as usize) && s.runner == r)
            &&& i + 1 == r.modules.len() && r.settings.update_rate == 0 ==> passed.next
                == SessionStep::Fault(Fault::ZeroUpdateRate) && passed.out.len() == 0
            &&& i + 1 == r.modules.len() && r.settings.update_rate > 0 ==> passed == session_after(
                seq![
                    OutputView::Log(Level::Info, "Looking for Rekordbox..."@),
                    OutputView::Print(Seq::empty()),
                ],
                round(r),
            )
        }),
{
    let named = SessionView { runner: r, stage: SessionStageView::Enabled(i) }.on_reply(
        ReplyView::Enabled(true),
    );
    assert(named.out =~= seq![
        OutputView::Log(Level::Info, " - "@ + r.modules[i as int].pretty_name),
    ]);
}

/// A round without a connection looks for the process. With one, an update starts, which is slow
/// exactly if none was made since the last slow one, and the number of the master deck is read.
pub proof fn lemma_round_starts(r: RunnerView)
    ensures
        r.rekordbox is None ==> round(r).out.len() == 0 && (round(r).next matches Next::Ask(q, s) && q
            == RequestView::Process && s.stage == SessionStageView::Connecting(ConnectView::Process)
            && s.runner == r),
        r.rekordbox matches Some(rb) ==> round(r).out == seq![OutputView::UpdateStarts] && (
        round(r).next matches Next::Ask(q, s) && q == RequestView::Byte(rb.masterdeck_index)
            && s.runner == r && (s.stage matches SessionStageView::Updating(u) && u.flags.slow == (
        r.n == 0))),
{
    if r.rekordbox is Some {
        assert(round(r).out =~= seq![OutputView::UpdateStarts]);
    }
}

/// A connection that was made is kept, no error counts as reported any more, and the next round
/// starts with it. Nothing else changes.
pub proof fn lemma_connection_is_kept(r: RunnerView, rb: RekordboxView)
    ensures
        ({
            let p = settle_connection(r, Next::Done(Ok(rb)));
            &&& p.out == seq![
                OutputView::Print(Seq::empty()),
                OutputView::Log(Level::Good, "Connected to Rekordbox!"@),
                OutputView::UpdateStarts,
            ]
            &&& p.next matches Next::Ask(q, s) && q == RequestView::Byte(rb.masterdeck_index)
                && s.runner.rekordbox == Some(rb) && s.runner.keeper == (KeeperView {
                last_error: None,
                ..r.keeper
            }) && s.runner == (RunnerView {
                rekordbox: s.runner.rekordbox,
                keeper: s.runner.keeper,
                ..r
            })
        }),
{
    lemma_round_starts(connected_runner(r, rb));
    assert(settle_connection(r, Next::Done(Ok(rb))).out =~= seq![
        OutputView::Print(Seq::empty()),
        OutputView::Log(Level::Good, "Connected to Rekordbox!"@),
        OutputView::UpdateStarts,
    ]);
}

/// A connection that cannot be made is reported, and tried again after three seconds. What changes
/// is the error that counts as reported.
pub proof fn lemma_failed_connection(r: RunnerView, e: ReadErrorView)
    ensures
        ({
            let p = settle_connection(r, Next::Done(Err(e)));
            &&& p.out == crate::report::report(r.keeper.last_error, e).push(
                OutputView::Log(Level::Info, "..."@),
            )
            &&& p.next matches Next::Ask(q, s) && q == RequestView::Sleep(3_000_000_000) && s.stage
                == SessionStageView::Pause && s.runner == (RunnerView {
                keeper: crate::report::having_reported(r.keeper, e),
                ..r
            })
        }),
{
    assert(settle_connection(r, Next::Done(Err(e))).out =~= crate::report::report(
        r.keeper.last_error,
        e,
    ).push(OutputView::Log(Level::Info, "..."@)));
}

/// An update that fails is reported, and the connection is given up and made again after three
/// seconds. The number of updates since the last slow one stays, and so does what is known of the
/// decks after the update.
pub proof fn lemma_lost_connection(r: RunnerView, p: Progress, e: ReadErrorView)
    requires
        p.next == Next::<RequestView, UpdateView, Result<(), ReadErrorView>>::Done(Err(e)),
    ensures
        ({
            let q = settle_update(r, p);
            &&& q.out == p.out + crate::report::report(p.keeper.last_error, e) + seq![
                OutputView::Log(Level::Error, "Connection to Rekordbox lost"@),
                OutputView::Log(Level::Info, "Reconnecting in 3s..."@),
            ]
            &&& q.next matches Next::Ask(request, s) && request == RequestView::Sleep(3_000_000_000)
                && s.stage == SessionStageView::Pause && s.runner == (RunnerView {
                keeper: crate::report::having_reported(p.keeper, e),
                rekordbox: None,
                ..r
            })
        }),
{
    assert(settle_update(r, p).out =~= p.out + crate::report::report(p.keeper.last_error, e) + seq![
        OutputView::Log(Level::Error, "Connection to Rekordbox lost"@),
        OutputView::Log(Level::Info, "Reconnecting in 3s..."@),
    ]);
}

/// An update that succeeds is counted, and the time that it took is asked for. What it left of the
/// keeper is kept, and so is the connection. It cannot be counted if the counter is at its end or
/// slow updates have no interval.
pub proof fn lemma_update_that_succeeds(r: RunnerView, p: Progress)
    requires
        p.next == Next::<RequestView, UpdateView, Result<(), ReadErrorView>>::Done(Ok(())),
        r.n >= 0,
    ensures
        ({
            let q = settle_update(r, p);
            let every = r.settings.slow_update_every_nth;
            &&& q.out == p.out
            &&& r.n == 0x7fff_ffff ==> q.next == SessionStep::Fault(Fault::CounterOverflow)
            &&& r.n < 0x7fff_ffff && every == 0 ==> q.next == SessionStep::Fault(
                Fault::ZeroSlowUpdateInterval,
            )
            &&& r.n < 0x7fff_ffff && every != 0 ==> (q.next matches Next::Ask(request, s) && request
                == RequestView::Elapsed && s.stage == SessionStageView::Measuring && s.runner == (
            RunnerView { keeper: p.keeper, n: s.runner.n, ..r }) && {
                &&& r.n + 1 < every || r.n + 1 < -every ==> s.runner.n == r.n + 1
                &&& r.n + 1 == every || r.n + 1 == -every ==> s.runner.n == 0
                &&& every > 0 ==> s.runner.n < every
                &&& every < 0 ==> s.runner.n < -every
                &&& s.runner.n >= 0
            })
        }),
{
    let q = settle_update(r, p);
    assert(q.out =~= p.out);
    let every = r.settings.interval();
    if r.n < i32::MAX && every != 0 {
        vstd::arithmetic::div_mod::lemma_mod_bound(r.n + 1, every);
        vstd::arithmetic::div_mod::lemma_mod_decreases((r.n + 1) as nat, every as nat);
        if r.n + 1 < every {
            vstd::arithmetic::div_mod::lemma_small_mod((r.n + 1) as nat, every as nat);
        }
        if r.n + 1 == every {
            vstd::arithmetic::div_mod::lemma_mod_self_0(every);
        }
    }
}

/// While an update or a connection goes on, its requests are those of the session, and what the
/// update left of the keeper is kept. A fault of theirs is one of the session.
pub proof fn lemma_requests_are_passed_on(r: RunnerView, p: Progress, n: ConnectStep)
    ensures
        p.next matches Next::Ask(q, u) ==> settle_update(r, p) == (SessionProgress {
            out: p.out,
            next: Next::Ask(
                q,
                SessionView {
                    runner: RunnerView { keeper: p.keeper, ..r },
                    stage: SessionStageView::Updating(u),
                },
            ),
        }),
        p.next matches Next::Fault(f) ==> settle_update(r, p) == (SessionProgress {
            out: p.out,
            next: Next::Fault(f),
        }),
        n matches Next::Ask(q, c) ==> settle_connection(r, n) == (SessionProgress {
            out: Seq::empty(),
            next: Next::Ask(
                q,
                SessionView { runner: r, stage: SessionStageView::Connecting(c) },
            ),
        }),
        n matches Next::Fault(f) ==> settle_connection(r, n) == (SessionProgress {
            out: Seq::empty(),
            next: Next::Fault(f),
        }),
{
    if !(p.next is Done) {
        assert(settle_update(r, p).out =~= p.out);
    }
}

/// If some of its period is left after an update, the clock is read again, and the pause is what is
/// left then; otherwise the next round starts at once. After a pause the next round starts. Nothing
/// is told, and nothing changes.
pub proof fn lemma_time_that_is_left(r: RunnerView, elapsed: u128)
    requires
        r.settings.update_rate > 0,
    ensures
        ({
            let measured = (SessionView { runner: r, stage: SessionStageView::Measuring }).on_reply(
                ReplyView::Elapsed(elapsed),
            );
            let again = (SessionView { runner: r, stage: SessionStageView::Remaining }).on_reply(
                ReplyView::Elapsed(elapsed),
            );
            let paused = (SessionView { runner: r, stage: SessionStageView::Pause }).on_reply(
                ReplyView::Sleep,
            );
            &&& elapsed < r.settings.period() ==> measured == (SessionProgress {
                out: Seq::empty(),
                next: Next::Ask(
                    RequestView::Elapsed,
                    SessionView { runner: r, stage: SessionStageView::Remaining },
                ),
            })
            &&& elapsed >= r.settings.period() ==> measured == round(r)
            &&& elapsed <= r.settings.period() ==> again.out.len() == 0 && (
            again.next matches Next::Ask(RequestView::Sleep(pause), s) && elapsed + pause
                == r.settings.period() && s == (SessionView {
                runner: r,
                stage: SessionStageView::Pause,
            }))
            &&& elapsed > r.settings.period() ==> again == (SessionProgress {
                out: Seq::empty(),
                next: Next::Fault(Fault::PeriodOverrun),
            })
            &&& paused == round(r)
        }),
{
    lemma_period_and_interval(r.settings);
    assert(r.settings.period() <= 1_000_000_000) by (nonlinear_arith)
        requires
            0 <= r.settings.period() * r.settings.update_rate <= 1_000_000_000,
            r.settings.update_rate >= 1,
    ;
    assert(r.settings.period() >= 0) by (nonlinear_arith)
        requires
            0 <= r.settings.period() * r.settings.update_rate,
            r.settings.update_rate >= 1,
    ;
}

/// A reply of another kind than the request stops the session.
pub proof fn lemma_unexpected_replies_stop(s: SessionView, reply: ReplyView)
    requires
        (match s.stage {
            SessionStageView::Enabled(_) => !(reply is Enabled),
            SessionStageView::Created(_) => !(reply is Create),
            SessionStageView::Measuring | SessionStageView::Remaining => !(reply is Elapsed),
            SessionStageView::Pause => !(reply is Sleep),
            _ => false,
        }),
    ensures
        s.on_reply(reply) == (SessionProgress {
            out: Seq::empty(),
            next: Next::Fault(Fault::UnexpectedReply),
        }),
{
}

} // verus!
