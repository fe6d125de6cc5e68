//! Keeping track of all decks, and telling what changed.
use crate::anlz::Beat;
use crate::change::ChangeTrackedValue;
use crate::memory::{ReadError, ReadErrorView};
use crate::output::{NotificationView, OutputView, Target, TrackInfo, TrackInfoView};
use crate::protocol::{Fault, Next, ReplyView, RequestView};
use crate::reading::{TextReadView, TextStep, TimingDataRaw, TimingRead, TimingStep};
use crate::rekordbox::RekordboxView;
use crate::single::Single;
use crate::track::{TrackTracker, TrackTrackerResult, TrackTrackerView, TrackingDataTracker};
use vstd::prelude::*;
use vstd::string::*;

verus! {

/// How many decks can be followed.
pub const DECK_SLOTS: usize = 4;

/// What is known of the decks, and what was told of them.
pub struct BeatKeeper {
    pub masterdeck_index: ChangeTrackedValue<usize>,
    pub offset_samples: i64,
    pub track_infos: Vec<ChangeTrackedValue<TrackInfo>>,
    pub track_trackers: Vec<TrackTracker>,
    pub anlz_paths: Vec<ChangeTrackedValue<String>>,
    pub last_error: Option<ReadError>,
    pub keep_warm: bool,
    pub decks: usize,
    pub td_trackers: Vec<TrackingDataTracker>,
    pub master_td_tracker: TrackingDataTracker,
}

/// A [`BeatKeeper`] as a value.
pub struct KeeperView {
    /// The number of the master deck.
    pub master: usize,
    /// The delay compensation, in samples.
    pub offset_samples: i64,
    /// The track on each deck.
    pub track_infos: Seq<TrackInfoView>,
    /// What is followed of the track on each deck.
    pub trackers: Seq<TrackTrackerView>,
    /// The path of the analysis file of each deck.
    pub anlz_paths: Seq<Seq<char>>,
    /// The error that was reported last, if none was overcome since.
    pub last_error: Option<ReadErrorView>,
    /// All decks are followed, and not just the master deck.
    pub keep_warm: bool,
    /// How many decks are followed.
    pub decks: usize,
    /// What was told last of each deck.
    pub told: Seq<TrackingDataTracker>,
    /// What was told last of the master deck.
    pub master_told: TrackingDataTracker,
}

/// The tracks in a list of tracked values.
pub open spec fn track_views(tracks: Seq<ChangeTrackedValue<TrackInfo>>) -> Seq<TrackInfoView> {
    tracks.map_values(|t: ChangeTrackedValue<TrackInfo>| t.value@)
}

/// The texts in a list of tracked values.
pub open spec fn path_views(paths: Seq<ChangeTrackedValue<String>>) -> Seq<Seq<char>> {
    paths.map_values(|t: ChangeTrackedValue<String>| t.value@)
}

/// The values of a list of trackers.
pub open spec fn tracker_views(trackers: Seq<TrackTracker>) -> Seq<TrackTrackerView> {
    trackers.map_values(|t: TrackTracker| t@)
}

/// The value of an optional error.
pub open spec fn error_view(e: Option<ReadError>) -> Option<ReadErrorView> {
    match e {
        Some(e) => Some(e@),
        None => None,
    }
}

impl View for BeatKeeper {
    type V = KeeperView;

    open spec fn view(&self) -> KeeperView {
        KeeperView {
            master: self.masterdeck_index.value,
            offset_samples: self.offset_samples,
            track_infos: track_views(self.track_infos@),
            trackers: tracker_views(self.track_trackers@),
            anlz_paths: path_views(self.anlz_paths@),
            last_error: error_view(self.last_error),
            keep_warm: self.keep_warm,
            decks: self.decks,
            told: self.td_trackers@,
            master_told: self.master_td_tracker,
        }
    }
}

impl KeeperView {
    /// There is a slot for every deck that can be followed.
    pub open spec fn wf(self) -> bool {
        &&& self.track_infos.len() == DECK_SLOTS
        &&& self.trackers.len() == DECK_SLOTS
        &&& self.anlz_paths.len() == DECK_SLOTS
        &&& self.told.len() == DECK_SLOTS
    }

    /// The deck is followed.
    pub open spec fn follows(self, deck: usize) -> bool {
        deck == self.master || self.keep_warm
    }
}

// Updates, as values.
/// Where an update stands.
pub enum StageView {
    /// The number of the master deck is being read.
    Master,
    /// Tempo and position of a deck are being read.
    Timing(TimingRead),
    /// The position of a deck is being converted to seconds.
    Clock { deck: usize, timing: TimingDataRaw },
    /// The position of a deck is being converted to beats.
    Beat { deck: usize, timing: TimingDataRaw },
    /// The descriptions of the tracks are being read.
    Tracks(TextReadView),
    /// The paths of the analysis files are being read.
    Paths(TextReadView),
    /// The analysis file of a deck is being read.
    File { paths: Seq<Seq<char>>, deck: usize },
    /// The times of a beat grid are being converted to seconds.
    Grid { paths: Seq<Seq<char>>, deck: usize, beats: Seq<Beat> },
}

/// What an update remembers on its way.
#[derive(Clone, Copy, Debug, PartialEq, Eq, Structural)]
pub struct Flags {
    /// Tracks and analysis files are looked at, too.
    pub slow: bool,
    /// Another deck is the master than before.
    pub master_changed: bool,
    /// Another track is on the master deck than before.
    pub track_changed: bool,
}

/// An [`Update`] as a value.
pub struct UpdateView {
    pub flags: Flags,
    pub stage: StageView,
}

pub type UpdateStep = Next<RequestView, UpdateView, Result<(), ReadErrorView>>;

/// What happens in one go: how the keeper is left, what is told, and how the update goes on.
pub struct Progress {
    pub keeper: KeeperView,
    pub out: Seq<OutputView>,
    pub next: UpdateStep,
}

/// The progress after something was told.
pub open spec fn after(out: Seq<OutputView>, p: Progress) -> Progress {
    Progress { keeper: p.keeper, out: out + p.out, next: p.next }
}

/// Nothing is told, and the update goes on with this.
pub open spec fn quietly(k: KeeperView, next: UpdateStep) -> Progress {
    Progress { keeper: k, out: Seq::empty(), next }
}

/// Nothing is told, and a request is made.
pub open spec fn asking(k: KeeperView, f: Flags, q: RequestView, stage: StageView) -> Progress {
    quietly(k, Next::Ask(q, UpdateView { flags: f, stage }))
}

/// The modules are told, unless there is nothing to tell.
pub open spec fn telling(batch: Seq<NotificationView>) -> Seq<OutputView> {
    crate::track::only_if(batch.len() > 0, OutputView::Notify(batch))
}

/// The decks from `deck` on are visited: of the next one that is followed, the data is read, and
/// after the last one the update goes on to what comes after the decks.
pub open spec fn visit_decks(k: KeeperView, rb: RekordboxView, f: Flags, deck: usize) -> Progress
    decreases k.decks - deck,
{
    if deck >= k.decks {
        leave_decks(k, rb, f)
    } else if !k.follows(deck) {
        visit_decks(k, rb, f, (deck + 1) as usize)
    } else if deck >= rb.deckcount {
        quietly(k, Next::Fault(Fault::DeckOutOfRange))
    } else {
        asking(
            k,
            f,
            RequestView::Long(rb.sample_positions[deck as int]),
            StageView::Timing(TimingRead { deck, position: None }),
        )
    }
}

/// After the decks, a slow update reads the tracks; any other one ends.
pub open spec fn leave_decks(k: KeeperView, rb: RekordboxView, f: Flags) -> Progress {
    if f.slow {
        settle_tracks(
            k,
            rb,
            f,
            crate::reading::text_step(
                rb.track_infos,
                crate::reading::TRACK_INFO_SIZE,
                Seq::empty(),
            ),
        )
    } else {
        finish(k, f)
    }
}

/// The end of an update: if there is another master deck, or another track on it, that is told.
pub open spec fn finish(k: KeeperView, f: Flags) -> Progress {
    if f.master_changed || f.track_changed {
        if k.master >= k.track_infos.len() {
            quietly(k, Next::Fault(Fault::DeckOutOfRange))
        } else {
            let track = k.track_infos[k.master as int];
            Progress {
                keeper: k,
                out: seq![
                    OutputView::LogMasterTrack(track),
                    OutputView::Notify(seq![NotificationView::Track(track, Target::Master)]),
                ],
                next: Next::Done(Ok(())),
            }
        }
    } else {
        quietly(k, Next::Done(Ok(())))
    }
}

/// The number of the master deck arrives. If there is no such deck, Rekordbox is not ready, and
/// nothing else is looked at.
pub open spec fn on_master(
    k: KeeperView,
    rb: RekordboxView,
    f: Flags,
    outcome: Result<usize, ReadErrorView>,
) -> Progress {
    match outcome {
        Err(e) => quietly(k, Next::Done(Err(e))),
        Ok(master) => {
            let k1 = KeeperView { master, ..k };
            let f1 = Flags { master_changed: k.master != master, ..f };
            if master >= rb.deckcount {
                quietly(k1, Next::Done(Ok(())))
            } else if k.decks > k.trackers.len() {
                quietly(k1, Next::Fault(Fault::TooManyDecks))
            } else {
                visit_decks(k1, rb, f1, 0)
            }
        },
    }
}

/// The data of a deck arrives. A deck that cannot be read is passed over.
pub open spec fn on_timing(
    k: KeeperView,
    rb: RekordboxView,
    f: Flags,
    deck: usize,
    n: TimingStep,
) -> Progress {
    match n {
        Next::Ask(q, read) => asking(k, f, q, StageView::Timing(read)),
        Next::Fault(fault) => quietly(k, Next::Fault(fault)),
        Next::Done(Err(_)) => visit_decks(k, rb, f, (deck + 1) as usize),
        Next::Done(Ok(td)) => {
            let timing = crate::track::with_tempo(td);
            let shifted = timing.sample_position + k.offset_samples;
            if shifted < i64::MIN || shifted > i64::MAX {
                quietly(k, Next::Fault(Fault::PositionOverflow))
            } else if k.trackers[deck as int].beatgrid is None {
                on_result(k, rb, f, deck, crate::track::gridless(timing))
            } else {
                asking(
                    k,
                    f,
                    RequestView::Seconds(shifted as i64),
                    StageView::Clock { deck, timing },
                )
            }
        },
    }
}

/// The position of a deck arrives in seconds: it is placed on the beat grid.
pub open spec fn on_clock(
    k: KeeperView,
    f: Flags,
    deck: usize,
    timing: TimingDataRaw,
    now: Single,
) -> Progress {
    match crate::track::anchor(k.trackers[deck as int].beatgrid->0, now) {
        Ok(anchor) => asking(
            k,
            f,
            RequestView::Beat(anchor, now),
            StageView::Beat { deck, timing },
        ),
        Err(fault) => quietly(k, Next::Fault(fault)),
    }
}

/// Everything is known of a deck: what changed is told, of the deck and, if it is the master, of
/// the master deck.
pub open spec fn on_result(
    k: KeeperView,
    rb: RekordboxView,
    f: Flags,
    deck: usize,
    res: TrackTrackerResult,
) -> Progress {
    after(
        deck_news(k, deck, res),
        visit_decks(deck_told(k, deck, res), rb, f, (deck + 1) as usize),
    )
}

/// What is told of a deck, and of the master deck if that is the one.
pub open spec fn deck_news(k: KeeperView, deck: usize, res: TrackTrackerResult) -> Seq<OutputView> {
    let own = telling(crate::track::news(k.told[deck as int], res, Target::Deck(deck)));
    if deck == k.master {
        own + telling(crate::track::news(k.master_told, res, Target::Master))
    } else {
        own
    }
}

/// The keeper once the news of a deck have been told.
pub open spec fn deck_told(k: KeeperView, deck: usize, res: TrackTrackerResult) -> KeeperView {
    KeeperView {
        told: k.told.update(deck as int, crate::track::told(k.told[deck as int], res)),
        master_told: if deck == k.master {
            crate::track::told(k.master_told, res)
        } else {
            k.master_told
        },
        ..k
    }
}

/// What comes of new descriptions of the tracks.
pub struct TracksTaken {
    pub keeper: KeeperView,
    pub out: Seq<OutputView>,
    /// The track on the master deck is another one.
    pub master: bool,
    /// There is a description for a deck that cannot be followed.
    pub fault: bool,
}

/// The descriptions are taken in from `deck` on. Each track that is another one than before is
/// told, and its deck is marked.
pub open spec fn take_tracks(k: KeeperView, texts: Seq<Seq<char>>, deck: int) -> TracksTaken
    decreases texts.len() - deck,
{
    if deck >= texts.len() {
        TracksTaken { keeper: k, out: Seq::empty(), master: false, fault: false }
    } else if deck >= k.track_infos.len() {
        TracksTaken { keeper: k, out: Seq::empty(), master: false, fault: true }
    } else {
        let track = crate::output::described_track(texts[deck]);
        if k.track_infos[deck] == track {
            take_tracks(k, texts, deck + 1)
        } else {
            let rest = take_tracks(track_loaded(k, deck, track), texts, deck + 1);
            TracksTaken {
                out: seq![
                    OutputView::Notify(
                        seq![NotificationView::Track(track, Target::Deck(deck as usize))],
                    ),
                ] + rest.out,
                master: rest.master || k.master == deck,
                ..rest
            }
        }
    }
}

/// The keeper once another track is on a deck.
pub open spec fn track_loaded(k: KeeperView, deck: int, track: TrackInfoView) -> KeeperView {
    KeeperView {
        track_infos: k.track_infos.update(deck, track),
        trackers: k.trackers.update(
            deck,
            TrackTrackerView { track_changed: true, beatgrid: k.trackers[deck].beatgrid },
        ),
        ..k
    }
}

/// The descriptions of the tracks are being read, or have been; then the paths of the analysis
/// files are read.
pub open spec fn settle_tracks(k: KeeperView, rb: RekordboxView, f: Flags, n: TextStep) -> Progress {
    match n {
        Next::Ask(q, read) => asking(k, f, q, StageView::Tracks(read)),
        Next::Fault(fault) => quietly(k, Next::Fault(fault)),
        Next::Done(Err(e)) => quietly(k, Next::Done(Err(e))),
        Next::Done(Ok(texts)) => {
            let taken = take_tracks(k, texts, 0);
            if taken.fault {
                Progress {
                    keeper: taken.keeper,
                    out: taken.out,
                    next: Next::Fault(Fault::DeckOutOfRange),
                }
            } else {
                after(
                    taken.out,
                    settle_paths(
                        taken.keeper,
                        Flags { track_changed: taken.master, ..f },
                        crate::reading::text_step(
                            rb.anlz_paths,
                            crate::reading::ANLZ_PATH_SIZE,
                            Seq::empty(),
                        ),
                    ),
                )
            }
        },
    }
}

/// The paths of the analysis files are being read, or have been; then the files are looked at.
pub open spec fn settle_paths(k: KeeperView, f: Flags, n: TextStep) -> Progress {
    match n {
        Next::Ask(q, read) => asking(k, f, q, StageView::Paths(read)),
        Next::Fault(fault) => quietly(k, Next::Fault(fault)),
        Next::Done(Err(e)) => quietly(k, Next::Done(Err(e))),
        Next::Done(Ok(paths)) => visit_paths(k, f, paths, 0),
    }
}

/// The paths from `deck` on are looked at: the file of the next one that is another one than
/// before is read, and after the last one the modules are told of the slow update.
pub open spec fn visit_paths(k: KeeperView, f: Flags, paths: Seq<Seq<char>>, deck: int) -> Progress
    decreases paths.len() - deck,
{
    if deck >= paths.len() {
        after(
            seq![OutputView::Notify(seq![NotificationView::SlowUpdate])],
            finish(k, f),
        )
    } else if deck >= k.anlz_paths.len() {
        quietly(k, Next::Fault(Fault::DeckOutOfRange))
    } else if k.anlz_paths[deck] == paths[deck] {
        visit_paths(k, f, paths, deck + 1)
    } else {
        after(
            seq![OutputView::Print("Anlz path changed: "@ + paths[deck])],
            asking(
                KeeperView { anlz_paths: k.anlz_paths.update(deck, paths[deck]), ..k },
                f,
                RequestView::File(paths[deck]),
                StageView::File { paths, deck: deck as usize },
            ),
        )
    }
}

/// An analysis file arrives. One that cannot be read is passed over, and so is one without a
/// beat grid.
pub open spec fn on_file(
    k: KeeperView,
    f: Flags,
    paths: Seq<Seq<char>>,
    deck: usize,
    data: Option<Seq<u8>>,
) -> Progress {
    match data {
        None => after(
            seq![OutputView::Print("Failed to read anlz file: "@ + paths[deck as int])],
            visit_paths(k, f, paths, deck + 1),
        ),
        Some(bytes) => match crate::anlz::analysis(bytes) {
            None => quietly(k, Next::Fault(Fault::MalformedAnalysis)),
            Some(None) => visit_paths(k, f, paths, deck + 1),
            Some(Some(beats)) => asking(
                k,
                f,
                RequestView::GridSeconds(crate::track::beat_times(beats)),
                StageView::Grid { paths, deck, beats },
            ),
        },
    }
}

/// The times of a beat grid arrive: the grid is now that of the deck.
pub open spec fn on_grid(
    k: KeeperView,
    f: Flags,
    paths: Seq<Seq<char>>,
    deck: usize,
    beats: Seq<Beat>,
    seconds: Seq<Single>,
) -> Progress {
    if seconds.len() != beats.len() {
        quietly(k, Next::Fault(Fault::UnexpectedReply))
    } else {
        visit_paths(grid_loaded(k, deck, beats, seconds), f, paths, deck + 1)
    }
}

/// The keeper once a deck has another beat grid.
pub open spec fn grid_loaded(
    k: KeeperView,
    deck: usize,
    beats: Seq<Beat>,
    seconds: Seq<Single>,
) -> KeeperView {
    KeeperView {
        trackers: k.trackers.update(
            deck as int,
            TrackTrackerView {
                track_changed: k.trackers[deck as int].track_changed,
                beatgrid: Some(crate::track::timed_beats(beats, seconds)),
            },
        ),
        ..k
    }
}

/// The first step of an update: the number of the master deck is read.
pub open spec fn update_step(rb: RekordboxView, slow: bool) -> UpdateStep {
    Next::Ask(
        RequestView::Byte(rb.masterdeck_index),
        UpdateView {
            flags: Flags { slow, master_changed: false, track_changed: false },
            stage: StageView::Master,
        },
    )
}

impl UpdateView {
    /// What a reply leads to.
    pub open spec fn on_reply(self, k: KeeperView, rb: RekordboxView, reply: ReplyView) -> Progress {
        let f = self.flags;
        let unexpected = quietly(k, Next::Fault(Fault::UnexpectedReply));
        match self.stage {
            StageView::Master => match reply {
                ReplyView::Byte(outcome) => on_master(
                    k,
                    rb,
                    f,
                    crate::reading::master_read(rb, outcome),
                ),
                _ => unexpected,
            },
            StageView::Timing(read) => on_timing(k, rb, f, read.deck, read.on_reply(rb, reply)),
            StageView::Clock { deck, timing } => match reply {
                ReplyView::Seconds(now) => on_clock(k, f, deck, timing, now),
                _ => unexpected,
            },
            StageView::Beat { deck, timing } => match reply {
                ReplyView::Beat(at) => on_result(
                    k,
                    rb,
                    f,
                    deck,
                    crate::track::placed(timing, at),
                ),
                _ => unexpected,
            },
            StageView::Tracks(read) => settle_tracks(
                k,
                rb,
                f,
                read.on_reply(rb.track_infos, reply),
            ),
            StageView::Paths(read) => settle_paths(k, f, read.on_reply(rb.anlz_paths, reply)),
            StageView::File { paths, deck } => match reply {
                ReplyView::File(data) => on_file(k, f, paths, deck, data),
                _ => unexpected,
            },
            StageView::Grid { paths, deck, beats } => match reply {
                ReplyView::GridSeconds(seconds) => on_grid(k, f, paths, deck, beats, seconds),
                _ => unexpected,
            },
        }
    }
}

/// What an update waits for at a stage is a reply of this kind.
pub open spec fn is_awaited(stage: StageView, reply: ReplyView) -> bool {
    match stage {
        StageView::Master => reply is Byte,
        StageView::Timing(read) => if read.position is None {
            reply is Long
        } else {
            reply is Single
        },
        StageView::Clock { .. } => reply is Seconds,
        StageView::Beat { .. } => reply is Beat,
        StageView::Tracks(read) | StageView::Paths(read) => if read.stage is Walk {
            reply is Word
        } else {
            reply is Block
        },
        StageView::File { .. } => reply is File,
        StageView::Grid { beats, .. } => reply matches ReplyView::GridSeconds(seconds)
            && seconds.len() == beats.len(),
    }
}

/// A reply of another kind than the request stops an update, and so does one with more or fewer
/// times than a beat grid has beats. Nothing is told, and nothing changes.
pub proof fn lemma_unexpected_replies_stop_update(
    u: UpdateView,
    k: KeeperView,
    rb: RekordboxView,
    reply: ReplyView,
)
    requires
        !is_awaited(u.stage, reply),
    ensures
        u.on_reply(k, rb, reply) == (Progress {
            keeper: k,
            out: Seq::empty(),
            next: Next::Fault(Fault::UnexpectedReply),
        }),
{
}

} // verus!
