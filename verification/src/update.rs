//! One update: everything is read anew, and what changed is told.
use crate::anlz::Beat;
use crate::keeper::{BeatKeeper, Flags, KeeperView, Progress, StageView, UpdateStep, UpdateView, DECK_SLOTS};
use crate::memory::ReadError;
use crate::output::{Notification, NotificationView, Output, OutputView, Target, TrackInfo};
use crate::protocol::{Fault, Next, Reply, Request};
use crate::reading::{TextNext, TextRead, TimingDataRaw, TimingNext, TimingRead};
use crate::rekordbox::{Rekordbox, RekordboxView};
use crate::single::Single;
use crate::track::{BeatGrid, TrackTrackerResult};
use vstd::prelude::*;
use vstd::string::*;

verus! {

/// Where an update stands.
#[derive(Debug)]
pub enum Stage {
    Master,
    Timing(TimingRead),
    Clock { deck: usize, timing: TimingDataRaw },
    Beat { deck: usize, timing: TimingDataRaw },
    Tracks(TextRead),
    Paths(TextRead),
    File { paths: Vec<String>, deck: usize },
    Grid { paths: Vec<String>, deck: usize, beats: Vec<Beat> },
}

/// An update that waits for a reply.
#[derive(Debug)]
pub struct Update {
    pub flags: Flags,
    pub stage: Stage,
}

impl View for Update {
    type V = UpdateView;

    open spec fn view(&self) -> UpdateView {
        UpdateView {
            flags: self.flags,
            stage: match self.stage {
                Stage::Master => StageView::Master,
                Stage::Timing(read) => StageView::Timing(read),
                Stage::Clock { deck, timing } => StageView::Clock { deck, timing },
                Stage::Beat { deck, timing } => StageView::Beat { deck, timing },
                Stage::Tracks(read) => StageView::Tracks(read@),
                Stage::Paths(read) => StageView::Paths(read@),
                Stage::File { paths, deck } => StageView::File {
                    paths: crate::reading::text_views(paths@),
                    deck,
                },
                Stage::Grid { paths, deck, beats } => StageView::Grid {
                    paths: crate::reading::text_views(paths@),
                    deck,
                    beats: beats@,
                },
            },
        }
    }
}

pub type UpdateNext = Next<Request, Update, Result<(), ReadError>>;

/// The value of an [`UpdateNext`].
pub open spec fn update_view(n: UpdateNext) -> UpdateStep {
    match n {
        Next::Ask(q, u) => Next::Ask(q@, u@),
        Next::Done(Ok(_)) => Next::Done(Ok(())),
        Next::Done(Err(e)) => Next::Done(Err(e@)),
        Next::Fault(f) => Next::Fault(f),
    }
}

impl Update {
    /// The decks that the update is busy with are connected, followed, and where they should be.
    pub open spec fn wf(&self, k: KeeperView, rb: RekordboxView) -> bool {
        match self.stage {
            Stage::Master => true,
            Stage::Timing(read) => {
                &&& read.deck < rb.deckcount
                &&& read.deck < k.decks <= DECK_SLOTS
            },
            Stage::Clock { deck, timing } => {
                &&& deck < k.decks <= DECK_SLOTS
                &&& k.trackers[deck as int].beatgrid is Some
            },
            Stage::Beat { deck, timing } => deck < k.decks <= DECK_SLOTS,
            Stage::Tracks(read) => read.wf(rb.track_infos.len()),
            Stage::Paths(read) => read.wf(rb.anlz_paths.len()),
            Stage::File { paths, deck } => deck < paths.len() && deck < DECK_SLOTS,
            Stage::Grid { paths, deck, beats } => deck < paths.len() && deck < DECK_SLOTS,
        }
    }
}

/// A keeper and its outputs are as a progress says.
pub open spec fn made(
    p: Progress,
    keeper: BeatKeeper,
    out_before: Seq<Output>,
    out: Seq<Output>,
    n: UpdateNext,
    rb: RekordboxView,
) -> bool {
    &&& keeper@ == p.keeper
    &&& keeper@.wf()
    &&& crate::output::output_views(out) == crate::output::output_views(out_before) + p.out
    &&& update_view(n) == p.next
    &&& n matches Next::Ask(_, u) ==> u.wf(keeper@, rb)
}

impl BeatKeeper {
    /// Starts an update; a slow one looks at the tracks and the analysis files, too.
    pub fn update(&self, rb: &Rekordbox, slow_update: bool) -> (r: UpdateNext)
        ensures
            update_view(r) == crate::keeper::update_step(rb@, slow_update),
            r matches Next::Ask(_, u) && u.wf(self@, rb@),
    {
        Next::Ask(
            Request::Byte(rb.masterdeck_index.address),
            Update {
                flags: Flags { slow: slow_update, master_changed: false, track_changed: false },
                stage: Stage::Master,
            },
        )
    }

    fn finish(&self, flags: Flags, out: &mut Vec<Output>, Ghost(rb): Ghost<RekordboxView>) -> (r:
        UpdateNext)
        requires
            self@.wf(),
        ensures
            made(
                crate::keeper::finish(self@, flags),
                *self,
                old(out)@,
                final(out)@,
                r,
                rb,
            ),
    {
        if flags.master_changed || flags.track_changed {
            let master: usize = self.masterdeck_index.value;
            if master >= self.track_infos.len() {
                return Next::Fault(Fault::DeckOutOfRange);
            }
            let track = &self.track_infos[master].value;
            crate::output::emit(out, Output::LogMasterTrack(track.clone()));
            let mut batch: Vec<Notification> = Vec::new();
            batch.push(Notification::Track(track.clone(), Target::Master));
            assert(crate::output::notification_views(batch@) =~= seq![
                NotificationView::Track(self@.track_infos[master as int], Target::Master),
            ]);
            crate::output::emit(out, Output::Notify(batch));
        }
        assert(crate::output::output_views(out@) =~= crate::output::output_views(old(out)@)
            + crate::keeper::finish(self@, flags).out);
        Next::Done(Ok(()))
    }

    fn visit_decks(&mut self, rb: &Rekordbox, flags: Flags, deck: usize, out: &mut Vec<Output>) -> (r:
        UpdateNext)
        requires
            old(self)@.wf(),
            rb@.wf(),
            old(self)@.decks <= DECK_SLOTS,
        ensures
            made(
                crate::keeper::visit_decks(old(self)@, rb@, flags, deck),
                *final(self),
                old(out)@,
                final(out)@,
                r,
                rb@,
            ),
    {
        let ghost k = self@;
        let mut i: usize = deck;
        while i < self.decks
            invariant
                self@ == k,
                k.wf(),
                k.decks <= DECK_SLOTS,
                rb@.wf(),
                out@ == old(out)@,
                crate::keeper::visit_decks(k, rb@, flags, deck) == crate::keeper::visit_decks(
                    k,
                    rb@,
                    flags,
                    i,
                ),
            decreases self.decks - i,
        {
            if i == self.masterdeck_index.value || self.keep_warm {
                assert(crate::output::output_views(out@) =~= crate::output::output_views(old(out)@)
                    + Seq::empty());
                if i >= rb.deckcount {
                    return Next::Fault(Fault::DeckOutOfRange);
                }
                return match rb.read_timing_data(i) {
                    Next::Ask(q, read) => Next::Ask(q, Update { flags, stage: Stage::Timing(read) }),
                    _ => Next::Fault(Fault::UnexpectedReply),
                };
            }
            i += 1;
        }
        self.leave_decks(rb, flags, out)
    }

    fn leave_decks(&mut self, rb: &Rekordbox, flags: Flags, out: &mut Vec<Output>) -> (r: UpdateNext)
        requires
            old(self)@.wf(),
            rb@.wf(),
        ensures
            made(
                crate::keeper::leave_decks(old(self)@, rb@, flags),
                *final(self),
                old(out)@,
                final(out)@,
                r,
                rb@,
            ),
    {
        if flags.slow {
            let n = rb.get_track_infos();
            self.settle_tracks(rb, flags, n, out)
        } else {
            self.finish(flags, out, Ghost(rb@))
        }
    }

    /// Takes in the descriptions of the tracks; says whether the track on the master deck is
    /// another one, or `None` if there is a description for a deck that cannot be followed.
    fn take_tracks(&mut self, texts: &Vec<String>, out: &mut Vec<Output>) -> (r: Option<bool>)
        requires
            old(self)@.wf(),
        ensures
            ({
                let taken = crate::keeper::take_tracks(
                    old(self)@,
                    crate::reading::text_views(texts@),
                    0,
                );
                &&& final(self)@ == taken.keeper
                &&& final(self)@.wf()
                &&& crate::output::output_views(final(out)@) == crate::output::output_views(
                    old(out)@,
                ) + taken.out
                &&& r == (if taken.fault {
                    None
                } else {
                    Some(taken.master)
                })
            }),
    {
        let ghost views = crate::reading::text_views(texts@);
        let ghost taken = crate::keeper::take_tracks(self@, views, 0);
        let ghost mut emitted: Seq<OutputView> = Seq::empty();
        let mut master: bool = false;
        let mut i: usize = 0;
        assert(crate::output::output_views(out@) =~= crate::output::output_views(old(out)@)
            + emitted);
        assert(taken.out =~= emitted + taken.out);
        while i < texts.len()
            invariant
                i <= texts.len(),
                self@.wf(),
                views == crate::reading::text_views(texts@),
                taken == crate::keeper::take_tracks(old(self)@, views, 0),
                crate::output::output_views(out@) == crate::output::output_views(old(out)@)
                    + emitted,
                ({
                    let rest = crate::keeper::take_tracks(self@, views, i as int);
                    &&& taken.keeper == rest.keeper
                    &&& taken.out == emitted + rest.out
                    &&& taken.master == (master || rest.master)
                    &&& taken.fault == rest.fault
                }),
            decreases texts.len() - i,
        {
            let ghost k = self@;
            if i >= self.track_infos.len() {
                assert(taken.out =~= emitted);
                return None;
            }
            let track = TrackInfo::from_text(texts[i].as_str());
            let ghost described = track@;
            assert(views[i as int] == texts@[i as int]@);
            let told = track.clone();
            let known = &mut self.track_infos[i];
            if known.set(track) {
                let tracker = &mut self.track_trackers[i];
                tracker.track_changed = true;
                let mut batch: Vec<Notification> = Vec::new();
                batch.push(Notification::Track(told, Target::Deck(i)));
                let ghost news = seq![NotificationView::Track(described, Target::Deck(i))];
                assert(crate::output::notification_views(batch@) =~= news);
                crate::output::emit(out, Output::Notify(batch));
                if self.masterdeck_index.value == i {
                    master = true;
                }
                proof {
                    let loaded = crate::keeper::track_loaded(k, i as int, described);
                    assert(self@.track_infos =~= loaded.track_infos);
                    assert(self@.trackers =~= loaded.trackers);
                    let grown = emitted.push(OutputView::Notify(news));
                    let rest = crate::keeper::take_tracks(self@, views, i + 1);
                    assert(taken.out =~= grown + rest.out);
                    assert(crate::output::output_views(out@) =~= crate::output::output_views(
                        old(out)@,
                    ) + grown);
                    emitted = grown;
                }
            } else {
                assert(self@.track_infos =~= k.track_infos);
            }
            i += 1;
        }
        assert(taken.out =~= emitted);
        Some(master)
    }

    fn settle_tracks(&mut self, rb: &Rekordbox, flags: Flags, n: TextNext, out: &mut Vec<Output>) -> (r:
        UpdateNext)
        requires
            old(self)@.wf(),
            rb@.wf(),
            crate::reading::text_wf(n, rb@.track_infos.len()),
        ensures
            made(
                crate::keeper::settle_tracks(
                    old(self)@,
                    rb@,
                    flags,
                    crate::reading::text_view(n),
                ),
                *final(self),
                old(out)@,
                final(out)@,
                r,
                rb@,
            ),
    {
        assert(crate::output::output_views(out@) =~= crate::output::output_views(old(out)@)
            + Seq::empty());
        match n {
            Next::Ask(q, read) => Next::Ask(q, Update { flags, stage: Stage::Tracks(read) }),
            Next::Fault(fault) => Next::Fault(fault),
            Next::Done(Err(e)) => Next::Done(Err(e)),
            Next::Done(Ok(texts)) => match self.take_tracks(&texts, out) {
                None => Next::Fault(Fault::DeckOutOfRange),
                Some(track_changed) => {
                    let r = self.settle_paths(
                        rb,
                        Flags { track_changed, ..flags },
                        rb.get_anlz_paths(),
                        out,
                    );
                    assert(crate::output::output_views(out@)
                        =~= crate::output::output_views(old(out)@) + crate::keeper::settle_tracks(
                        old(self)@,
                        rb@,
                        flags,
                        crate::reading::text_view(n),
                    ).out);
                    r
                },
            },
        }
    }

    fn settle_paths(&mut self, rb: &Rekordbox, flags: Flags, n: TextNext, out: &mut Vec<Output>) -> (r:
        UpdateNext)
        requires
            old(self)@.wf(),
            rb@.wf(),
            crate::reading::text_wf(n, rb@.anlz_paths.len()),
        ensures
            made(
                crate::keeper::settle_paths(old(self)@, flags, crate::reading::text_view(n)),
                *final(self),
                old(out)@,
                final(out)@,
                r,
                rb@,
            ),
    {
        assert(crate::output::output_views(out@) =~= crate::output::output_views(old(out)@)
            + Seq::empty());
        match n {
            Next::Ask(q, read) => Next::Ask(q, Update { flags, stage: Stage::Paths(read) }),
            Next::Fault(fault) => Next::Fault(fault),
            Next::Done(Err(e)) => Next::Done(Err(e)),
            Next::Done(Ok(paths)) => self.visit_paths(flags, paths, 0, out, Ghost(rb@)),
        }
    }

    fn visit_paths(
        &mut self,
        flags: Flags,
        paths: Vec<String>,
        deck: usize,
        out: &mut Vec<Output>,
        Ghost(rb): Ghost<RekordboxView>,
    ) -> (r: UpdateNext)
        requires
            old(self)@.wf(),
        ensures
            made(
                crate::keeper::visit_paths(
                    old(self)@,
                    flags,
                    crate::reading::text_views(paths@),
                    deck as int,
                ),
                *final(self),
                old(out)@,
                final(out)@,
                r,
                rb,
            ),
    {
        let ghost views = crate::reading::text_views(paths@);
        let mut i: usize = deck;
        assert(crate::output::output_views(out@) =~= crate::output::output_views(old(out)@)
            + Seq::empty());
        while i < paths.len()
            invariant
                self@ == old(self)@,
                self@.wf(),
                out@ == old(out)@,
                crate::output::output_views(out@) == crate::output::output_views(old(out)@)
                    + Seq::empty(),
                views == crate::reading::text_views(paths@),
                crate::keeper::visit_paths(old(self)@, flags, views, deck as int)
                    == crate::keeper::visit_paths(old(self)@, flags, views, i as int),
            decreases paths.len() - i,
        {
            let ghost k = self@;
            if i >= self.anlz_paths.len() {
                return Next::Fault(Fault::DeckOutOfRange);
            }
            assert(views[i as int] == paths@[i as int]@);
            let known = &mut self.anlz_paths[i];
            if known.set(paths[i].clone()) {
                assert(self@.anlz_paths =~= k.anlz_paths.update(i as int, views[i as int]));
                let line = "Anlz path changed: ".to_string().concat(paths[i].as_str());
                crate::output::emit(out, Output::Print(line));
                assert(crate::output::output_views(out@) =~= crate::output::output_views(old(out)@)
                    + crate::keeper::visit_paths(k, flags, views, i as int).out);
                let path = paths[i].clone();
                return Next::Ask(
                    Request::File(path),
                    Update { flags, stage: Stage::File { paths, deck: i } },
                );
            }
            assert(self@.anlz_paths =~= k.anlz_paths);
            i += 1;
        }
        let mut batch: Vec<Notification> = Vec::new();
        batch.push(Notification::SlowUpdate);
        assert(crate::output::notification_views(batch@) =~= seq![NotificationView::SlowUpdate]);
        crate::output::emit(out, Output::Notify(batch));
        let r = self.finish(flags, out, Ghost(rb));
        assert(crate::output::output_views(out@) =~= crate::output::output_views(old(out)@)
            + crate::keeper::visit_paths(old(self)@, flags, views, i as int).out);
        r
    }

    fn on_file(
        &mut self,
        flags: Flags,
        paths: Vec<String>,
        deck: usize,
        data: Option<Vec<u8>>,
        out: &mut Vec<Output>,
        Ghost(rb): Ghost<RekordboxView>,
    ) -> (r: UpdateNext)
        requires
            old(self)@.wf(),
            deck < paths.len(),
            deck < DECK_SLOTS,
        ensures
            made(
                crate::keeper::on_file(
                    old(self)@,
                    flags,
                    crate::reading::text_views(paths@),
                    deck,
                    match data {
                        Some(b) => Some(b@),
                        None => None,
                    },
                ),
                *final(self),
                old(out)@,
                final(out)@,
                r,
                rb,
            ),
    {
        let ghost views = crate::reading::text_views(paths@);
        assert(crate::output::output_views(out@) =~= crate::output::output_views(old(out)@)
            + Seq::empty());
        match data {
            None => {
                let line = "Failed to read anlz file: ".to_string().concat(paths[deck].as_str());
                crate::output::emit(out, Output::Print(line));
                let r = self.visit_paths(flags, paths, deck + 1, out, Ghost(rb));
                assert(crate::output::output_views(out@) =~= crate::output::output_views(old(out)@)
                    + crate::keeper::on_file(old(self)@, flags, views, deck, None).out);
                r
            },
            Some(bytes) => match crate::anlz::read_grid(bytes) {
                Err(_) => Next::Fault(Fault::MalformedAnalysis),
                Ok(None) => self.visit_paths(flags, paths, deck + 1, out, Ghost(rb)),
                Ok(Some(beats)) => {
                    let mut times: Vec<u32> = Vec::new();
                    let mut i: usize = 0;
                    while i < beats.len()
                        invariant
                            i <= beats.len(),
                            times.len() == i,
                            forall|j: int| 0 <= j < i ==> #[trigger] times@[j] == beats@[j].time,
                        decreases beats.len() - i,
                    {
                        times.push(beats[i].time);
                        i += 1;
                    }
                    assert(times@ =~= crate::track::beat_times(beats@));
                    Next::Ask(
                        Request::GridSeconds(times),
                        Update { flags, stage: Stage::Grid { paths, deck, beats } },
                    )
                },
            },
        }
    }

    fn on_grid(
        &mut self,
        flags: Flags,
        paths: Vec<String>,
        deck: usize,
        beats: Vec<Beat>,
        seconds: Vec<Single>,
        out: &mut Vec<Output>,
        Ghost(rb): Ghost<RekordboxView>,
    ) -> (r: UpdateNext)
        requires
            old(self)@.wf(),
            deck < paths.len(),
            deck < DECK_SLOTS,
        ensures
            made(
                crate::keeper::on_grid(
                    old(self)@,
                    flags,
                    crate::reading::text_views(paths@),
                    deck,
                    beats@,
                    seconds@,
                ),
                *final(self),
                old(out)@,
                final(out)@,
                r,
                rb,
            ),
    {
        assert(crate::output::output_views(out@) =~= crate::output::output_views(old(out)@)
            + Seq::empty());
        if seconds.len() != beats.len() {
            return Next::Fault(Fault::UnexpectedReply);
        }
        let ghost loaded = crate::keeper::grid_loaded(self@, deck, beats@, seconds@);
        let grid = BeatGrid::new(beats, seconds);
        let tracker = &mut self.track_trackers[deck];
        tracker.beatgrid = Some(grid);
        assert(self@.trackers =~= loaded.trackers);
        self.visit_paths(flags, paths, deck + 1, out, Ghost(rb))
    }

    fn on_result(
        &mut self,
        rb: &Rekordbox,
        flags: Flags,
        deck: usize,
        res: TrackTrackerResult,
        out: &mut Vec<Output>,
    ) -> (r: UpdateNext)
        requires
            old(self)@.wf(),
            rb@.wf(),
            deck < old(self)@.decks <= DECK_SLOTS,
        ensures
            made(
                crate::keeper::on_result(old(self)@, rb@, flags, deck, res),
                *final(self),
                old(out)@,
                final(out)@,
                r,
                rb@,
            ),
    {
        let ghost k = self@;
        let ghost told = crate::keeper::deck_told(k, deck, res);
        let ghost start = crate::output::output_views(out@);
        let tracker = &mut self.td_trackers[deck];
        let batch = tracker.take_in(&res, Target::Deck(deck));
        tell(out, batch);
        if deck == self.masterdeck_index.value {
            let batch = self.master_td_tracker.take_in(&res, Target::Master);
            tell(out, batch);
        }
        assert(self@.told =~= told.told);
        assert(self@ == told);
        assert(crate::output::output_views(out@) =~= start + crate::keeper::deck_news(k, deck, res));
        let r = self.visit_decks(rb, flags, deck + 1, out);
        assert(crate::output::output_views(out@) =~= start + crate::keeper::on_result(
            k,
            rb@,
            flags,
            deck,
            res,
        ).out);
        r
    }

    fn on_timing(
        &mut self,
        rb: &Rekordbox,
        flags: Flags,
        deck: usize,
        n: TimingNext,
        out: &mut Vec<Output>,
    ) -> (r: UpdateNext)
        requires
            old(self)@.wf(),
            rb@.wf(),
            deck < old(self)@.decks <= DECK_SLOTS,
            deck < rb@.deckcount,
            n matches Next::Ask(_, s) ==> s.deck == deck,
        ensures
            made(
                crate::keeper::on_timing(
                    old(self)@,
                    rb@,
                    flags,
                    deck,
                    crate::reading::timing_view(n),
                ),
                *final(self),
                old(out)@,
                final(out)@,
                r,
                rb@,
            ),
    {
        assert(crate::output::output_views(out@) =~= crate::output::output_views(old(out)@)
            + Seq::empty());
        match n {
            Next::Ask(q, read) => Next::Ask(q, Update { flags, stage: Stage::Timing(read) }),
            Next::Fault(fault) => Next::Fault(fault),
            Next::Done(Err(_)) => self.visit_decks(rb, flags, deck + 1, out),
            Next::Done(Ok(td)) => {
                let timing = td.with_tempo();
                match timing.sample_position.checked_add(self.offset_samples) {
                    None => Next::Fault(Fault::PositionOverflow),
                    Some(shifted) => {
                        assert(self@.trackers[deck as int] == self.track_trackers@[deck as int]@);
                        if self.track_trackers[deck].beatgrid.is_none() {
                            let res = TrackTrackerResult {
                                beat: Single::zero(),
                                original_bpm: Single::default_tempo(),
                                timing_data_raw: timing,
                            };
                            self.on_result(rb, flags, deck, res, out)
                        } else {
                            Next::Ask(
                                Request::Seconds(shifted),
                                Update { flags, stage: Stage::Clock { deck, timing } },
                            )
                        }
                    },
                }
            },
        }
    }

    fn on_clock(
        &self,
        flags: Flags,
        deck: usize,
        timing: TimingDataRaw,
        now: Single,
        out: &mut Vec<Output>,
        Ghost(rb): Ghost<RekordboxView>,
    ) -> (r: UpdateNext)
        requires
            self@.wf(),
            deck < self@.decks <= DECK_SLOTS,
            self@.trackers[deck as int].beatgrid is Some,
        ensures
            made(
                crate::keeper::on_clock(self@, flags, deck, timing, now),
                *self,
                old(out)@,
                final(out)@,
                r,
                rb,
            ),
    {
        assert(crate::output::output_views(out@) =~= crate::output::output_views(old(out)@)
            + Seq::empty());
        assert(self@.trackers[deck as int] == self.track_trackers@[deck as int]@);
        match &self.track_trackers[deck].beatgrid {
            None => Next::Fault(Fault::EmptyBeatGrid),
            Some(grid) => match grid.anchor(now) {
                Err(fault) => Next::Fault(fault),
                Ok(anchor) => Next::Ask(
                    Request::Beat(anchor, now),
                    Update { flags, stage: Stage::Beat { deck, timing } },
                ),
            },
        }
    }

    fn on_master(
        &mut self,
        rb: &Rekordbox,
        flags: Flags,
        outcome: Result<usize, ReadError>,
        out: &mut Vec<Output>,
    ) -> (r: UpdateNext)
        requires
            old(self)@.wf(),
            rb@.wf(),
        ensures
            made(
                crate::keeper::on_master(
                    old(self)@,
                    rb@,
                    flags,
                    match outcome {
                        Ok(n) => Ok(n),
                        Err(e) => Err(e@),
                    },
                ),
                *final(self),
                old(out)@,
                final(out)@,
                r,
                rb@,
            ),
    {
        assert(crate::output::output_views(out@) =~= crate::output::output_views(old(out)@)
            + Seq::empty());
        match outcome {
            Err(e) => Next::Done(Err(e)),
            Ok(master) => {
                let master_changed = self.masterdeck_index.set(master);
                if master >= rb.deckcount {
                    // No master deck selected: Rekordbox is not initialised.
                    Next::Done(Ok(()))
                } else if self.decks > self.track_trackers.len() {
                    Next::Fault(Fault::TooManyDecks)
                } else {
                    self.visit_decks(rb, Flags { master_changed, ..flags }, 0, out)
                }
            },
        }
    }

    /// Goes on with a reply: takes it in, and adds to `out` what is to be told.
    pub fn resume(&mut self, rb: &Rekordbox, update: Update, reply: Reply, out: &mut Vec<Output>) -> (r:
        UpdateNext)
        requires
            old(self)@.wf(),
            rb@.wf(),
            update.wf(old(self)@, rb@),
        ensures
            made(
                update@.on_reply(old(self)@, rb@, reply@),
                *final(self),
                old(out)@,
                final(out)@,
                r,
                rb@,
            ),
    {
        let flags = update.flags;
        assert(crate::output::output_views(out@) =~= crate::output::output_views(old(out)@)
            + Seq::empty());
        match update.stage {
            Stage::Master => match reply {
                Reply::Byte(outcome) => {
                    let outcome = rb.read_masterdeck_index(outcome);
                    self.on_master(rb, flags, outcome, out)
                },
                _ => Next::Fault(Fault::UnexpectedReply),
            },
            Stage::Timing(read) => {
                let n = read.resume(rb, reply);
                self.on_timing(rb, flags, read.deck, n, out)
            },
            Stage::Clock { deck, timing } => match reply {
                Reply::Seconds(now) => self.on_clock(flags, deck, timing, now, out, Ghost(rb@)),
                _ => Next::Fault(Fault::UnexpectedReply),
            },
            Stage::Beat { deck, timing } => match reply {
                Reply::Beat(at) => {
                    let res = TrackTrackerResult {
                        beat: at.beat,
                        original_bpm: at.original_bpm,
                        timing_data_raw: timing,
                    };
                    self.on_result(rb, flags, deck, res, out)
                },
                _ => Next::Fault(Fault::UnexpectedReply),
            },
            Stage::Tracks(read) => {
                let n = read.resume(&rb.track_infos, reply);
                self.settle_tracks(rb, flags, n, out)
            },
            Stage::Paths(read) => {
                let n = read.resume(&rb.anlz_paths, reply);
                self.settle_paths(rb, flags, n, out)
            },
            Stage::File { paths, deck } => match reply {
                Reply::File(data) => self.on_file(flags, paths, deck, data, out, Ghost(rb@)),
                _ => Next::Fault(Fault::UnexpectedReply),
            },
            Stage::Grid { paths, deck, beats } => match reply {
                Reply::GridSeconds(seconds) => self.on_grid(
                    flags,
                    paths,
                    deck,
                    beats,
                    seconds,
                    out,
                    Ghost(rb@),
                ),
                _ => Next::Fault(Fault::UnexpectedReply),
            },
        }
    }
}

/// Tells the modules, unless there is nothing to tell.
fn tell(out: &mut Vec<Output>, batch: Vec<Notification>)
    ensures
        crate::output::output_views(final(out)@) == crate::output::output_views(old(out)@)
            + crate::keeper::telling(crate::output::notification_views(batch@)),
{
    if batch.len() > 0 {
        crate::output::emit(out, Output::Notify(batch));
    }
    assert(crate::output::output_views(out@) =~= crate::output::output_views(old(out)@)
        + crate::keeper::telling(crate::output::notification_views(batch@)));
}

} // verus!
