//! What an update comes to as a whole, in surroundings that hold still.
use crate::keeper::{Flags, KeeperView, Progress, StageView, UpdateView};
use crate::memory::ReadErrorView;
use crate::output::{NotificationView, OutputView};
use crate::protocol::{Fault, Next, RequestView, Settled, World};
use crate::reading::{TextStep, TimingDataRaw, TimingRead};
use crate::rekordbox::RekordboxView;
use crate::single::Single;
use crate::track::TrackTrackerResult;
use vstd::prelude::*;

verus! {

/// A whole update: how the keeper is left, what was told, and how it ended.
pub struct Updated {
    pub keeper: KeeperView,
    pub out: Seq<OutputView>,
    pub end: Settled<Result<(), ReadErrorView>>,
}

/// The update after something was told.
pub open spec fn updated_after(out: Seq<OutputView>, u: Updated) -> Updated {
    Updated { keeper: u.keeper, out: out + u.out, end: u.end }
}

/// Nothing is told, and that is the end.
pub open spec fn ended(k: KeeperView, end: Settled<Result<(), ReadErrorView>>) -> Updated {
    Updated { keeper: k, out: Seq::empty(), end }
}

/// What an update comes to, from this progress on, in at most `fuel` answers.
pub open spec fn run_update(w: World, rb: RekordboxView, p: Progress, fuel: nat) -> Option<Updated>
    decreases fuel,
{
    match p.next {
        Next::Done(r) => Some(
            Updated { keeper: p.keeper, out: p.out, end: Settled::Done(r) },
        ),
        Next::Fault(f) => Some(
            Updated { keeper: p.keeper, out: p.out, end: Settled::Fault(f) },
        ),
        Next::Ask(q, u) => if fuel == 0 {
            None
        } else {
            match run_update(w, rb, u.on_reply(p.keeper, rb, w.answer(q)), (fuel - 1) as nat) {
                Some(u) => Some(updated_after(p.out, u)),
                None => None,
            }
        },
    }
}

/// Answering its requests, an update comes to `u` in the end.
pub open spec fn update_comes_to(w: World, rb: RekordboxView, p: Progress, u: Updated) -> bool {
    exists|fuel: nat| #[trigger] run_update(w, rb, p, fuel) == Some(u)
}

/// What is found out about a deck: `None` if its data cannot be read.
pub open spec fn deck_state(w: World, k: KeeperView, rb: RekordboxView, deck: usize) -> Settled<
    Option<TrackTrackerResult>,
> {
    match ((w.long)(rb.sample_positions[deck as int]), (w.single)(rb.current_bpms[deck as int])) {
        (Ok(sample_position), Ok(current_bpm)) => {
            let timing = crate::track::with_tempo(TimingDataRaw { current_bpm, sample_position });
            let shifted = sample_position + k.offset_samples;
            if shifted < i64::MIN || shifted > i64::MAX {
                Settled::Fault(Fault::PositionOverflow)
            } else {
                match k.trackers[deck as int].beatgrid {
                    None => Settled::Done(Some(crate::track::gridless(timing))),
                    Some(beats) => {
                        let now = (w.seconds)(shifted as i64);
                        match crate::track::anchor(beats, now) {
                            Ok(anchor) => Settled::Done(
                                Some(crate::track::placed(timing, (w.beat)(anchor, now))),
                            ),
                            Err(f) => Settled::Fault(f),
                        }
                    },
                }
            }
        },
        _ => Settled::Done(None),
    }
}

/// The update, as a whole.
pub open spec fn updated(w: World, k: KeeperView, rb: RekordboxView, slow: bool) -> Updated {
    match (w.byte)(rb.masterdeck_index) {
        Err(e) => ended(
            k,
            Settled::Done(Err(crate::chain::plain_failure(rb.masterdeck_index, e))),
        ),
        Ok(n) => {
            let master = n as usize;
            let k1 = KeeperView { master, ..k };
            if master >= rb.deckcount {
                ended(k1, Settled::Done(Ok(())))
            } else if k.decks > k.trackers.len() {
                ended(k1, Settled::Fault(Fault::TooManyDecks))
            } else {
                decks_updated(
                    w,
                    k1,
                    rb,
                    Flags { slow, master_changed: k.master != master, track_changed: false },
                    0,
                )
            }
        },
    }
}

/// The part of an update from `deck` on: each deck that is followed is read, and what changed is
/// told; a deck that cannot be read is passed over.
pub open spec fn decks_updated(w: World, k: KeeperView, rb: RekordboxView, f: Flags, deck: usize) -> Updated
    decreases k.decks - deck,
{
    if deck >= k.decks {
        if f.slow {
            tracks_updated(w, k, rb, f)
        } else {
            finished(k, f)
        }
    } else if !k.follows(deck) {
        decks_updated(w, k, rb, f, (deck + 1) as usize)
    } else if deck >= rb.deckcount {
        ended(k, Settled::Fault(Fault::DeckOutOfRange))
    } else {
        match deck_state(w, k, rb, deck) {
            Settled::Fault(fault) => ended(k, Settled::Fault(fault)),
            Settled::Done(None) => decks_updated(w, k, rb, f, (deck + 1) as usize),
            Settled::Done(Some(res)) => updated_after(
                crate::keeper::deck_news(k, deck, res),
                decks_updated(
                    w,
                    crate::keeper::deck_told(k, deck, res),
                    rb,
                    f,
                    (deck + 1) as usize,
                ),
            ),
        }
    }
}

/// The part of a slow update that looks at the tracks.
pub open spec fn tracks_updated(w: World, k: KeeperView, rb: RekordboxView, f: Flags) -> Updated {
    match crate::whole::texts_at(
        w,
        rb.track_infos,
        crate::reading::TRACK_INFO_SIZE,
        Seq::empty(),
    ) {
        Settled::Fault(fault) => ended(k, Settled::Fault(fault)),
        Settled::Done(Err(e)) => ended(k, Settled::Done(Err(e))),
        Settled::Done(Ok(texts)) => {
            let taken = crate::keeper::take_tracks(k, texts, 0);
            updated_after(
                taken.out,
                if taken.fault {
                    ended(taken.keeper, Settled::Fault(Fault::DeckOutOfRange))
                } else {
                    paths_updated(
                        w,
                        taken.keeper,
                        rb,
                        Flags { track_changed: taken.master, ..f },
                    )
                },
            )
        },
    }
}

/// The part of a slow update that looks at the analysis files.
pub open spec fn paths_updated(w: World, k: KeeperView, rb: RekordboxView, f: Flags) -> Updated {
    match crate::whole::texts_at(
        w,
        rb.anlz_paths,
        crate::reading::ANLZ_PATH_SIZE,
        Seq::empty(),
    ) {
        Settled::Fault(fault) => ended(k, Settled::Fault(fault)),
        Settled::Done(Err(e)) => ended(k, Settled::Done(Err(e))),
        Settled::Done(Ok(paths)) => files_updated(w, k, f, paths, 0),
    }
}

/// The keeper once a deck has another analysis file.
pub open spec fn path_set(k: KeeperView, deck: int, path: Seq<char>) -> KeeperView {
    KeeperView { anlz_paths: k.anlz_paths.update(deck, path), ..k }
}

/// The part of a slow update from the path of `deck` on: the file of each path that is another one
/// than before is read, and the beat grid in it is now that of the deck. A file that cannot be
/// read is passed over, and so is one without a beat grid. In the end the modules are told of the
/// slow update.
pub open spec fn files_updated(
    w: World,
    k: KeeperView,
    f: Flags,
    paths: Seq<Seq<char>>,
    deck: int,
) -> Updated
    decreases paths.len() - deck,
{
    if deck >= paths.len() {
        updated_after(
            seq![OutputView::Notify(seq![NotificationView::SlowUpdate])],
            finished(k, f),
        )
    } else if deck >= k.anlz_paths.len() {
        ended(k, Settled::Fault(Fault::DeckOutOfRange))
    } else if k.anlz_paths[deck] == paths[deck] {
        files_updated(w, k, f, paths, deck + 1)
    } else {
        let k1 = path_set(k, deck, paths[deck]);
        updated_after(
            seq![OutputView::Print("Anlz path changed: "@ + paths[deck])],
            match (w.file)(paths[deck]) {
                None => updated_after(
                    seq![OutputView::Print("Failed to read anlz file: "@ + paths[deck])],
                    files_updated(w, k1, f, paths, deck + 1),
                ),
                Some(bytes) => match crate::anlz::analysis(bytes) {
                    None => ended(k1, Settled::Fault(Fault::MalformedAnalysis)),
                    Some(None) => files_updated(w, k1, f, paths, deck + 1),
                    Some(Some(beats)) => files_updated(
                        w,
                        crate::keeper::grid_loaded(
                            k1,
                            deck as usize,
                            beats,
                            crate::track::beat_times(beats).map_values(w.grid_second),
                        ),
                        f,
                        paths,
                        deck + 1,
                    ),
                },
            },
        )
    }
}

/// The end of an update: if there is another master deck, or another track on it, that is told.
pub open spec fn finished(k: KeeperView, f: Flags) -> Updated {
    if f.master_changed || f.track_changed {
        if k.master >= k.track_infos.len() {
            ended(k, Settled::Fault(Fault::DeckOutOfRange))
        } else {
            let track = k.track_infos[k.master as int];
            Updated {
                keeper: k,
                out: seq![
                    OutputView::LogMasterTrack(track),
                    OutputView::Notify(
                        seq![NotificationView::Track(track, crate::output::Target::Master)],
                    ),
                ],
                end: Settled::Done(Ok(())),
            }
        }
    } else {
        ended(k, Settled::Done(Ok(())))
    }
}

proof fn lemma_ask(
    w: World,
    rb: RekordboxView,
    k: KeeperView,
    f: Flags,
    q: RequestView,
    stage: StageView,
    u: Updated,
)
    requires
        update_comes_to(
            w,
            rb,
            UpdateView { flags: f, stage }.on_reply(k, rb, w.answer(q)),
            u,
        ),
    ensures
        update_comes_to(w, rb, crate::keeper::asking(k, f, q, stage), u),
{
    let next = UpdateView { flags: f, stage }.on_reply(k, rb, w.answer(q));
    let more = choose|more: nat| #[trigger] run_update(w, rb, next, more) == Some(u);
    assert(updated_after(Seq::empty(), u).out =~= u.out);
    assert(run_update(w, rb, crate::keeper::asking(k, f, q, stage), more + 1) == Some(u));
}

proof fn lemma_after(w: World, rb: RekordboxView, out: Seq<OutputView>, p: Progress, u: Updated)
    requires
        update_comes_to(w, rb, p, u),
    ensures
        update_comes_to(w, rb, crate::keeper::after(out, p), updated_after(out, u)),
{
    let more = choose|more: nat| #[trigger] run_update(w, rb, p, more) == Some(u);
    let r = run_update(w, rb, crate::keeper::after(out, p), more);
    assert(r->0.out =~= updated_after(out, u).out);
    assert(r == Some(updated_after(out, u)));
}

proof fn lemma_ends(w: World, rb: RekordboxView, k: KeeperView, end: Settled<Result<(), ReadErrorView>>)
    ensures
        update_comes_to(
            w,
            rb,
            crate::keeper::quietly(k, crate::whole::last_step(end)),
            ended(k, end),
        ),
{
    assert(run_update(w, rb, crate::keeper::quietly(k, crate::whole::last_step(end)), 0) == Some(
        ended(k, end),
    ));
}

proof fn lemma_finish(w: World, rb: RekordboxView, k: KeeperView, f: Flags)
    ensures
        update_comes_to(w, rb, crate::keeper::finish(k, f), finished(k, f)),
{
    assert(run_update(w, rb, crate::keeper::finish(k, f), 0) == Some(finished(k, f)));
}

proof fn lemma_files(
    w: World,
    rb: RekordboxView,
    k: KeeperView,
    f: Flags,
    paths: Seq<Seq<char>>,
    deck: int,
)
    requires
        k.wf(),
        0 <= deck,
    ensures
        update_comes_to(
            w,
            rb,
            crate::keeper::visit_paths(k, f, paths, deck),
            files_updated(w, k, f, paths, deck),
        ),
    decreases paths.len() - deck,
{
    if deck >= paths.len() {
        lemma_finish(w, rb, k, f);
        lemma_after(
            w,
            rb,
            seq![OutputView::Notify(seq![NotificationView::SlowUpdate])],
            crate::keeper::finish(k, f),
            finished(k, f),
        );
    } else if deck >= k.anlz_paths.len() {
        lemma_ends(w, rb, k, Settled::Fault(Fault::DeckOutOfRange));
    } else if k.anlz_paths[deck] == paths[deck] {
        lemma_files(w, rb, k, f, paths, deck + 1);
    } else {
        let k1 = path_set(k, deck, paths[deck]);
        let d = deck as usize;
        let stage = StageView::File { paths, deck: d };
        let q = RequestView::File(paths[deck]);
        let rest = match (w.file)(paths[deck]) {
            None => updated_after(
                seq![OutputView::Print("Failed to read anlz file: "@ + paths[deck])],
                files_updated(w, k1, f, paths, deck + 1),
            ),
            Some(bytes) => match crate::anlz::analysis(bytes) {
                None => ended(k1, Settled::Fault(Fault::MalformedAnalysis)),
                Some(None) => files_updated(w, k1, f, paths, deck + 1),
                Some(Some(beats)) => files_updated(
                    w,
                    crate::keeper::grid_loaded(
                        k1,
                        d,
                        beats,
                        crate::track::beat_times(beats).map_values(w.grid_second),
                    ),
                    f,
                    paths,
                    deck + 1,
                ),
            },
        };
        match (w.file)(paths[deck]) {
            None => {
                lemma_files(w, rb, k1, f, paths, deck + 1);
                lemma_after(
                    w,
                    rb,
                    seq![OutputView::Print("Failed to read anlz file: "@ + paths[deck])],
                    crate::keeper::visit_paths(k1, f, paths, deck + 1),
                    files_updated(w, k1, f, paths, deck + 1),
                );
            },
            Some(bytes) => match crate::anlz::analysis(bytes) {
                None => {
                    lemma_ends(w, rb, k1, Settled::Fault(Fault::MalformedAnalysis));
                },
                Some(None) => {
                    lemma_files(w, rb, k1, f, paths, deck + 1);
                },
                Some(Some(beats)) => {
                    let seconds = crate::track::beat_times(beats).map_values(w.grid_second);
                    let k2 = crate::keeper::grid_loaded(k1, d, beats, seconds);
                    lemma_files(w, rb, k2, f, paths, deck + 1);
                    lemma_ask(
                        w,
                        rb,
                        k1,
                        f,
                        RequestView::GridSeconds(crate::track::beat_times(beats)),
                        StageView::Grid { paths, deck: d, beats },
                        rest,
                    );
                },
            },
        }
        lemma_ask(w, rb, k1, f, q, stage, rest);
        lemma_after(
            w,
            rb,
            seq![OutputView::Print("Anlz path changed: "@ + paths[deck])],
            crate::keeper::asking(k1, f, q, stage),
            rest,
        );
    }
}

proof fn lemma_settle_paths(
    w: World,
    rb: RekordboxView,
    k: KeeperView,
    f: Flags,
    n: TextStep,
    fuel: nat,
    u: Updated,
)
    requires
        crate::whole::run_texts(w, rb.anlz_paths, n, fuel) is Some,
        update_comes_to(
            w,
            rb,
            crate::keeper::settle_paths(
                k,
                f,
                crate::whole::last_step(crate::whole::run_texts(w, rb.anlz_paths, n, fuel)->0),
            ),
            u,
        ),
    ensures
        update_comes_to(w, rb, crate::keeper::settle_paths(k, f, n), u),
    decreases fuel,
{
    match n {
        Next::Ask(q, read) => {
            let next = read.on_reply(rb.anlz_paths, w.answer(q));
            lemma_settle_paths(w, rb, k, f, next, (fuel - 1) as nat, u);
            lemma_ask(w, rb, k, f, q, StageView::Paths(read), u);
        },
        _ => {},
    }
}

proof fn lemma_settle_tracks(
    w: World,
    rb: RekordboxView,
    k: KeeperView,
    f: Flags,
    n: TextStep,
    fuel: nat,
    u: Updated,
)
    requires
        crate::whole::run_texts(w, rb.track_infos, n, fuel) is Some,
        update_comes_to(
            w,
            rb,
            crate::keeper::settle_tracks(
                k,
                rb,
                f,
                crate::whole::last_step(crate::whole::run_texts(w, rb.track_infos, n, fuel)->0),
            ),
            u,
        ),
    ensures
        update_comes_to(w, rb, crate::keeper::settle_tracks(k, rb, f, n), u),
    decreases fuel,
{
    match n {
        Next::Ask(q, read) => {
            let next = read.on_reply(rb.track_infos, w.answer(q));
            lemma_settle_tracks(w, rb, k, f, next, (fuel - 1) as nat, u);
            lemma_ask(w, rb, k, f, q, StageView::Tracks(read), u);
        },
        _ => {},
    }
}

/// None of the chains of a connection is longer than a list can be.
pub open spec fn connection_fits(rb: RekordboxView) -> bool {
    crate::whole::all_chains_fit(rb.track_infos) && crate::whole::all_chains_fit(rb.anlz_paths)
}

proof fn lemma_paths(w: World, rb: RekordboxView, k: KeeperView, f: Flags)
    requires
        k.wf(),
        connection_fits(rb),
    ensures
        update_comes_to(
            w,
            rb,
            crate::keeper::settle_paths(
                k,
                f,
                crate::reading::text_step(
                    rb.anlz_paths,
                    crate::reading::ANLZ_PATH_SIZE,
                    Seq::empty(),
                ),
            ),
            paths_updated(w, k, rb, f),
        ),
{
    let size = crate::reading::ANLZ_PATH_SIZE;
    let n = crate::reading::text_step(rb.anlz_paths, size, Seq::empty());
    let end = crate::whole::texts_at(w, rb.anlz_paths, size, Seq::empty());
    crate::whole::lemma_texts_are_read(w, rb.anlz_paths, size, Seq::empty());
    let fuel = choose|fuel: nat|
        #[trigger] crate::whole::run_texts(w, rb.anlz_paths, n, fuel) == Some(end);
    match end {
        Settled::Fault(fault) => {
            lemma_ends(w, rb, k, Settled::Fault(fault));
        },
        Settled::Done(Err(e)) => {
            lemma_ends(w, rb, k, Settled::Done(Err(e)));
        },
        Settled::Done(Ok(paths)) => {
            lemma_files(w, rb, k, f, paths, 0);
        },
    }
    lemma_settle_paths(w, rb, k, f, n, fuel, paths_updated(w, k, rb, f));
}

proof fn lemma_taking_tracks_keeps_wf(k: KeeperView, texts: Seq<Seq<char>>, deck: int)
    requires
        k.wf(),
        0 <= deck,
    ensures
        crate::keeper::take_tracks(k, texts, deck).keeper.wf(),
    decreases texts.len() - deck,
{
    if deck < texts.len() && deck < k.track_infos.len() {
        let track = crate::output::described_track(texts[deck]);
        lemma_taking_tracks_keeps_wf(k, texts, deck + 1);
        lemma_taking_tracks_keeps_wf(
            crate::keeper::track_loaded(k, deck, track),
            texts,
            deck + 1,
        );
    }
}

proof fn lemma_tracks(w: World, rb: RekordboxView, k: KeeperView, f: Flags)
    requires
        k.wf(),
        connection_fits(rb),
    ensures
        update_comes_to(
            w,
            rb,
            crate::keeper::settle_tracks(
                k,
                rb,
                f,
                crate::reading::text_step(
                    rb.track_infos,
                    crate::reading::TRACK_INFO_SIZE,
                    Seq::empty(),
                ),
            ),
            tracks_updated(w, k, rb, f),
        ),
{
    let size = crate::reading::TRACK_INFO_SIZE;
    let n = crate::reading::text_step(rb.track_infos, size, Seq::empty());
    let end = crate::whole::texts_at(w, rb.track_infos, size, Seq::empty());
    let u = tracks_updated(w, k, rb, f);
    crate::whole::lemma_texts_are_read(w, rb.track_infos, size, Seq::empty());
    let fuel = choose|fuel: nat|
        #[trigger] crate::whole::run_texts(w, rb.track_infos, n, fuel) == Some(end);
    match end {
        Settled::Fault(fault) => {
            lemma_ends(w, rb, k, Settled::Fault(fault));
        },
        Settled::Done(Err(e)) => {
            lemma_ends(w, rb, k, Settled::Done(Err(e)));
        },
        Settled::Done(Ok(texts)) => {
            let taken = crate::keeper::take_tracks(k, texts, 0);
            let k1 = taken.keeper;
            lemma_taking_tracks_keeps_wf(k, texts, 0);
            if taken.fault {
                let stop = crate::keeper::quietly(k1, Next::Fault(Fault::DeckOutOfRange));
                lemma_ends(w, rb, k1, Settled::Fault(Fault::DeckOutOfRange));
                lemma_after(
                    w,
                    rb,
                    taken.out,
                    stop,
                    ended(k1, Settled::Fault(Fault::DeckOutOfRange)),
                );
                assert(taken.out + Seq::<OutputView>::empty() =~= taken.out);
            } else {
                let f1 = Flags { track_changed: taken.master, ..f };
                lemma_paths(w, rb, k1, f1);
                lemma_after(
                    w,
                    rb,
                    taken.out,
                    crate::keeper::settle_paths(
                        k1,
                        f1,
                        crate::reading::text_step(
                            rb.anlz_paths,
                            crate::reading::ANLZ_PATH_SIZE,
                            Seq::empty(),
                        ),
                    ),
                    paths_updated(w, k1, rb, f1),
                );
            }
        },
    }
    lemma_settle_tracks(w, rb, k, f, n, fuel, u);
}

proof fn lemma_decks(w: World, rb: RekordboxView, k: KeeperView, f: Flags, deck: usize)
    requires
        k.wf(),
        rb.wf(),
        k.decks <= k.trackers.len(),
        connection_fits(rb),
    ensures
        update_comes_to(
            w,
            rb,
            crate::keeper::visit_decks(k, rb, f, deck),
            decks_updated(w, k, rb, f, deck),
        ),
    decreases k.decks - deck, 2int,
{
    let u = decks_updated(w, k, rb, f, deck);
    if deck >= k.decks {
        if f.slow {
            lemma_tracks(w, rb, k, f);
        } else {
            lemma_finish(w, rb, k, f);
        }
    } else if !k.follows(deck) {
        lemma_decks(w, rb, k, f, (deck + 1) as usize);
    } else if deck >= rb.deckcount {
        lemma_ends(w, rb, k, Settled::Fault(Fault::DeckOutOfRange));
    } else {
        let first = TimingRead { deck, position: None };
        let next = (deck + 1) as usize;
        match (w.long)(rb.sample_positions[deck as int]) {
            Err(_) => {
                lemma_decks(w, rb, k, f, next);
            },
            Ok(position) => {
                let second = TimingRead { deck, position: Some(position) };
                match (w.single)(rb.current_bpms[deck as int]) {
                    Err(_) => {
                        lemma_decks(w, rb, k, f, next);
                    },
                    Ok(current_bpm) => {
                        let td = TimingDataRaw { current_bpm, sample_position: position };
                        lemma_deck_with_data(w, rb, k, f, deck, td);
                    },
                }
                lemma_ask(
                    w,
                    rb,
                    k,
                    f,
                    RequestView::Single(rb.current_bpms[deck as int]),
                    StageView::Timing(second),
                    u,
                );
            },
        }
        lemma_ask(
            w,
            rb,
            k,
            f,
            RequestView::Long(rb.sample_positions[deck as int]),
            StageView::Timing(first),
            u,
        );
    }
}

proof fn lemma_deck_with_data(
    w: World,
    rb: RekordboxView,
    k: KeeperView,
    f: Flags,
    deck: usize,
    td: TimingDataRaw,
)
    requires
        k.wf(),
        rb.wf(),
        deck < k.decks <= k.trackers.len(),
        deck < rb.deckcount,
        k.follows(deck),
        connection_fits(rb),
        (w.long)(rb.sample_positions[deck as int]) == Ok::<i64, crate::memory::MemoryError>(
            td.sample_position,
        ),
        (w.single)(rb.current_bpms[deck as int]) == Ok::<Single, crate::memory::MemoryError>(
            td.current_bpm,
        ),
    ensures
        update_comes_to(
            w,
            rb,
            crate::keeper::on_timing(k, rb, f, deck, Next::Done(Ok(td))),
            decks_updated(w, k, rb, f, deck),
        ),
    decreases k.decks - deck, 1int,
{
    let u = decks_updated(w, k, rb, f, deck);
    let timing = crate::track::with_tempo(td);
    let shifted = td.sample_position + k.offset_samples;
    if shifted < i64::MIN || shifted > i64::MAX {
        lemma_ends(w, rb, k, Settled::Fault(Fault::PositionOverflow));
    } else {
        match k.trackers[deck as int].beatgrid {
            None => {
                lemma_deck_result(w, rb, k, f, deck, crate::track::gridless(timing));
            },
            Some(beats) => {
                let now = (w.seconds)(shifted as i64);
                match crate::track::anchor(beats, now) {
                    Err(fault) => {
                        lemma_ends(w, rb, k, Settled::Fault(fault));
                    },
                    Ok(anchor) => {
                        let at = (w.beat)(anchor, now);
                        lemma_deck_result(w, rb, k, f, deck, crate::track::placed(timing, at));
                        lemma_ask(
                            w,
                            rb,
                            k,
                            f,
                            RequestView::Beat(anchor, now),
                            StageView::Beat { deck, timing },
                            u,
                        );
                    },
                }
                lemma_ask(
                    w,
                    rb,
                    k,
                    f,
                    RequestView::Seconds(shifted as i64),
                    StageView::Clock { deck, timing },
                    u,
                );
            },
        }
    }
}

proof fn lemma_deck_result(
    w: World,
    rb: RekordboxView,
    k: KeeperView,
    f: Flags,
    deck: usize,
    res: TrackTrackerResult,
)
    requires
        k.wf(),
        rb.wf(),
        deck < k.decks <= k.trackers.len(),
        connection_fits(rb),
    ensures
        update_comes_to(
            w,
            rb,
            crate::keeper::on_result(k, rb, f, deck, res),
            updated_after(
                crate::keeper::deck_news(k, deck, res),
                decks_updated(
                    w,
                    crate::keeper::deck_told(k, deck, res),
                    rb,
                    f,
                    (deck + 1) as usize,
                ),
            ),
        ),
    decreases k.decks - deck, 0int,
{
    let k1 = crate::keeper::deck_told(k, deck, res);
    let next = (deck + 1) as usize;
    lemma_decks(w, rb, k1, f, next);
    lemma_after(
        w,
        rb,
        crate::keeper::deck_news(k, deck, res),
        crate::keeper::visit_decks(k1, rb, f, next),
        decks_updated(w, k1, rb, f, next),
    );
}

/// Answering each request, an update comes to what [`updated`] says.
pub proof fn lemma_update_is_made(w: World, k: KeeperView, rb: RekordboxView, slow: bool)
    requires
        k.wf(),
        rb.wf(),
        connection_fits(rb),
    ensures
        update_comes_to(
            w,
            rb,
            crate::keeper::quietly(k, crate::keeper::update_step(rb, slow)),
            updated(w, k, rb, slow),
        ),
{
    let u = updated(w, k, rb, slow);
    let f = Flags { slow, master_changed: false, track_changed: false };
    match (w.byte)(rb.masterdeck_index) {
        Err(e) => {
            lemma_ends(
                w,
                rb,
                k,
                Settled::Done(Err(crate::chain::plain_failure(rb.masterdeck_index, e))),
            );
        },
        Ok(n) => {
            let master = n as usize;
            let k1 = KeeperView { master, ..k };
            if master >= rb.deckcount {
                lemma_ends(w, rb, k1, Settled::Done(Ok(())));
            } else if k.decks > k.trackers.len() {
                lemma_ends(w, rb, k1, Settled::Fault(Fault::TooManyDecks));
            } else {
                lemma_decks(
                    w,
                    rb,
                    k1,
                    Flags { slow, master_changed: k.master != master, track_changed: false },
                    0,
                );
            }
        },
    }
    lemma_ask(w, rb, k, f, RequestView::Byte(rb.masterdeck_index), StageView::Master, u);
}

} // verus!
