//! What an update finds out, keeps and tells, deck by deck.
use crate::keeper::{Flags, KeeperView};
use crate::memory::ReadErrorView;
use crate::output::{NotificationView, OutputView, Target};
use crate::protocol::{Fault, Settled, World};
use crate::rekordbox::RekordboxView;
use crate::single::Single;
use crate::track::{GridBeat, TrackTrackerResult, TrackingDataTracker};
use crate::updated::Updated;
use vstd::prelude::*;

verus! {

/// What is found out about a deck: nothing if its position or its tempo cannot be read. The position
/// is the one that is read, and so is the tempo, unless it is zero, which counts as 120. Without a
/// grid the deck is at beat zero of a track of 120 beats per minute; with one, it is where the
/// position, compensated and converted to seconds, lies behind the beat that it is measured from.
pub proof fn lemma_state_of_a_deck(w: World, k: KeeperView, rb: RekordboxView, deck: usize)
    ensures
        ({
            let state = crate::updated::deck_state(w, k, rb, deck);
            let position = (w.long)(rb.sample_positions[deck as int]);
            let tempo = (w.single)(rb.current_bpms[deck as int]);
            let grid = k.trackers[deck as int].beatgrid;
            if position is Err || tempo is Err {
                state == Settled::Done(None::<TrackTrackerResult>)
            } else {
                let shifted = position->Ok_0 + k.offset_samples;
                let now = (w.seconds)(shifted as i64);
                if shifted < -0x8000_0000_0000_0000 || shifted > 0x7fff_ffff_ffff_ffff {
                    state == Settled::<Option<TrackTrackerResult>>::Fault(Fault::PositionOverflow)
                } else if grid is Some && crate::track::anchor(grid->0, now) is Err {
                    state == Settled::<Option<TrackTrackerResult>>::Fault(
                        crate::track::anchor(grid->0, now)->Err_0,
                    )
                } else {
                    state matches Settled::Done(Some(res)) && {
                        &&& res.timing_data_raw.sample_position == position->Ok_0
                        &&& res.timing_data_raw.current_bpm == (if tempo->Ok_0.bits == 0
                            || tempo->Ok_0.bits == 0x8000_0000 {
                            Single { bits: 0x42f0_0000 }
                        } else {
                            tempo->Ok_0
                        })
                        &&& grid is None ==> res.beat.bits == 0 && res.original_bpm.bits
                            == 0x42f0_0000
                        &&& grid is Some ==> {
                            let at = (w.beat)(crate::track::anchor(grid->0, now)->Ok_0, now);
                            res.beat == at.beat && res.original_bpm == at.original_bpm
                        }
                    }
                }
            }
        }),
{
}

/// A batch for the modules, unless there is nothing in it.
pub open spec fn batch_of(news: Seq<NotificationView>) -> Seq<OutputView> {
    if news.len() > 0 {
        seq![OutputView::Notify(news)]
    } else {
        Seq::empty()
    }
}

/// What an update tells of a deck: of one that is followed and can be read, what is news about it,
/// and then, if it is the master deck, what is news about that.
pub open spec fn told_of_deck(w: World, k: KeeperView, rb: RekordboxView, d: int) -> Seq<OutputView> {
    match crate::updated::deck_state(w, k, rb, d as usize) {
        Settled::Done(Some(res)) => if d == k.master {
            batch_of(crate::track::news(k.told[d], res, Target::Deck(d as usize))) + batch_of(
                crate::track::news(k.master_told, res, Target::Master),
            )
        } else if k.keep_warm {
            batch_of(crate::track::news(k.told[d], res, Target::Deck(d as usize)))
        } else {
            Seq::empty()
        },
        _ => Seq::empty(),
    }
}

/// If the deck is followed, it is connected, and it can be placed.
pub open spec fn can_be_followed(w: World, k: KeeperView, rb: RekordboxView, d: int) -> bool {
    d == k.master || k.keep_warm ==> d < rb.deckcount && !(crate::updated::deck_state(
        w,
        k,
        rb,
        d as usize,
    ) is Fault)
}

/// What was told last, once what is found out about a deck has been told.
pub open spec fn told_after(
    w: World,
    k: KeeperView,
    rb: RekordboxView,
    d: int,
    before: TrackingDataTracker,
) -> TrackingDataTracker {
    match crate::updated::deck_state(w, k, rb, d as usize) {
        Settled::Done(Some(res)) => crate::track::told(before, res),
        _ => before,
    }
}

/// The second keeper remembers what was told of the decks from `from` up to `decks`, and is like the
/// first one otherwise.
pub open spec fn remembers(
    w: World,
    k: KeeperView,
    rb: RekordboxView,
    from: int,
    k1: KeeperView,
) -> bool {
    &&& k1.told.len() == k.told.len()
    &&& forall|d: int|
        0 <= d < k.told.len() ==> #[trigger] k1.told[d] == (if from <= d < k.decks && (d == k.master
            || k.keep_warm) {
            told_after(w, k, rb, d, k.told[d])
        } else {
            k.told[d]
        })
    &&& k1.master_told == (if from <= k.master < k.decks {
        told_after(w, k, rb, k.master as int, k.master_told)
    } else {
        k.master_told
    })
}

/// What comes after the decks.
spec fn after_decks(w: World, k: KeeperView, rb: RekordboxView, f: Flags) -> Updated {
    if f.slow {
        crate::updated::tracks_updated(w, k, rb, f)
    } else {
        crate::updated::finished(k, f)
    }
}

proof fn lemma_flatten_from<A>(parts: Seq<Seq<A>>, d: int)
    requires
        0 <= d <= parts.len(),
    ensures
        d < parts.len() ==> parts.skip(d).flatten() == parts[d] + parts.skip(d + 1).flatten(),
        d == parts.len() ==> parts.skip(d).flatten() == Seq::<A>::empty(),
        d == 0 ==> parts.skip(d).flatten() == parts.flatten(),
{
    if d < parts.len() {
        assert(parts.skip(d).drop_first() =~= parts.skip(d + 1));
        assert(parts.skip(d).first() == parts[d]);
    }
    if d == 0 {
        assert(parts.skip(d) =~= parts);
    }
}

/// What is told of one deck does not matter to those behind it.
proof fn lemma_decks_are_told_apart(
    w: World,
    k: KeeperView,
    rb: RekordboxView,
    deck: usize,
    res: TrackTrackerResult,
    e: int,
)
    requires
        k.wf(),
        deck < e < k.decks <= k.trackers.len(),
    ensures
        told_of_deck(w, crate::keeper::deck_told(k, deck, res), rb, e) == told_of_deck(w, k, rb, e),
{
    let k2 = crate::keeper::deck_told(k, deck, res);
    assert(k2.told[e] == k.told[e]);
    assert(crate::updated::deck_state(w, k2, rb, e as usize) == crate::updated::deck_state(
        w,
        k,
        rb,
        e as usize,
    ));
}

/// One deck more that was told.
proof fn lemma_one_more_deck(
    w: World,
    k: KeeperView,
    rb: RekordboxView,
    deck: usize,
    res: TrackTrackerResult,
    k1: KeeperView,
)
    requires
        k.wf(),
        deck < k.decks <= k.trackers.len(),
        k.follows(deck),
        crate::updated::deck_state(w, k, rb, deck) == Settled::Done(Some(res)),
        remembers(w, crate::keeper::deck_told(k, deck, res), rb, deck + 1, k1),
    ensures
        remembers(w, k, rb, deck as int, k1),
{
    let k2 = crate::keeper::deck_told(k, deck, res);
    assert forall|e: int, t: TrackingDataTracker| #[trigger]
        told_after(w, k2, rb, e, t) == told_after(w, k, rb, e, t) by {
        assert(crate::updated::deck_state(w, k2, rb, e as usize) == crate::updated::deck_state(
            w,
            k,
            rb,
            e as usize,
        ));
    }
    assert forall|e: int| 0 <= e < k.told.len() implies #[trigger] k1.told[e] == (if deck <= e
        < k.decks && (e == k.master || k.keep_warm) {
        told_after(w, k, rb, e, k.told[e])
    } else {
        k.told[e]
    }) by {
        assert(k2.told[e] == (if e == deck {
            crate::track::told(k.told[e], res)
        } else {
            k.told[e]
        }));
    }
}

/// The decks from `deck` on, one after the other.
#[verifier::spinoff_prover]
#[verifier::rlimit(40)]
proof fn lemma_decks_in_turn(
    w: World,
    k: KeeperView,
    rb: RekordboxView,
    f: Flags,
    deck: usize,
    parts: Seq<Seq<OutputView>>,
) -> (k1: KeeperView)
    requires
        k.wf(),
        deck <= k.decks <= k.trackers.len(),
        forall|d: int| deck <= d < k.decks ==> #[trigger] can_be_followed(w, k, rb, d),
        parts.len() == k.decks,
        forall|d: int| deck <= d < k.decks ==> #[trigger] parts[d] == told_of_deck(w, k, rb, d),
    ensures
        crate::updated::decks_updated(w, k, rb, f, deck) == crate::updated::updated_after(
            parts.skip(deck as int).flatten(),
            after_decks(w, k1, rb, f),
        ),
        k1 == (KeeperView { told: k1.told, master_told: k1.master_told, ..k }),
        remembers(w, k, rb, deck as int, k1),
    decreases k.decks - deck,
{
    let u = crate::updated::decks_updated(w, k, rb, f, deck);
    let d = deck as int;
    let next = (deck + 1) as usize;
    lemma_flatten_from(parts, d);
    if deck >= k.decks {
        assert(Seq::<OutputView>::empty() + after_decks(w, k, rb, f).out =~= after_decks(
            w,
            k,
            rb,
            f,
        ).out);
        k
    } else {
        let rest = parts.skip(d + 1).flatten();
        assert(can_be_followed(w, k, rb, d));
        assert(parts[d] == told_of_deck(w, k, rb, d));
        let state = crate::updated::deck_state(w, k, rb, deck);
        if k.follows(deck) && state is Done && state->Done_0 is Some {
            let res = state->Done_0->0;
            let k2 = crate::keeper::deck_told(k, deck, res);
            assert forall|e: int| next <= e < k2.decks implies #[trigger] can_be_followed(
                w,
                k2,
                rb,
                e,
            ) by {
                assert(can_be_followed(w, k, rb, e));
            }
            assert forall|e: int| next <= e < k2.decks implies #[trigger] parts[e] == told_of_deck(
                w,
                k2,
                rb,
                e,
            ) by {
                assert(parts[e] == told_of_deck(w, k, rb, e));
                lemma_decks_are_told_apart(w, k, rb, deck, res, e);
            }
            let k1 = lemma_decks_in_turn(w, k2, rb, f, next, parts);
            let out = after_decks(w, k1, rb, f).out;
            assert(crate::keeper::deck_news(k, deck, res) =~= parts[d]);
            assert(parts[d] + (rest + out) =~= (parts[d] + rest) + out);
            lemma_one_more_deck(w, k, rb, deck, res, k1);
            k1
        } else {
            let k1 = lemma_decks_in_turn(w, k, rb, f, next, parts);
            assert(parts[d] + rest =~= rest);
            k1
        }
    }
}

/// These are what is told of each deck that is followed, in the order of the decks.
pub open spec fn is_told_in_order(
    w: World,
    k: KeeperView,
    rb: RekordboxView,
    parts: Seq<Seq<OutputView>>,
) -> bool {
    &&& parts.len() == k.decks
    &&& forall|d: int| 0 <= d < k.decks ==> #[trigger] parts[d] == told_of_deck(w, k, rb, d)
}

/// What is told at the end of an update: the track on the master deck, if another deck became the
/// master or another track is on it.
pub open spec fn told_at_the_end(changed: bool, k: KeeperView) -> Seq<OutputView> {
    if changed {
        seq![
            OutputView::LogMasterTrack(k.track_infos[k.master as int]),
            OutputView::Notify(
                seq![NotificationView::Track(k.track_infos[k.master as int], Target::Master)],
            ),
        ]
    } else {
        Seq::empty()
    }
}

/// An update with a connected master deck, whose decks can all be followed, succeeds, unless the
/// master deck is another one than before and has no slot. It tells, deck by deck, what is news about
/// each deck and about the master deck, and in the end the track on the master deck if that is
/// another deck than before. It remembers what it told and which deck is the master, and changes
/// nothing else.
pub proof fn lemma_fast_update_in_full(
    w: World,
    k: KeeperView,
    rb: RekordboxView,
    n: u8,
    parts: Seq<Seq<OutputView>>,
)
    requires
        k.wf(),
        (w.byte)(rb.masterdeck_index) == Ok::<u8, crate::memory::MemoryError>(n),
        n < rb.deckcount,
        k.decks <= 4,
        forall|d: int|
            0 <= d < k.decks ==> #[trigger] can_be_followed(
                w,
                (KeeperView { master: n as usize, ..k }),
                rb,
                d,
            ),
        is_told_in_order(w, (KeeperView { master: n as usize, ..k }), rb, parts),
    ensures
        ({
            let k0 = KeeperView { master: n as usize, ..k };
            let u = crate::updated::updated(w, k, rb, false);
            let beyond = n != k.master && n >= 4;
            &&& beyond ==> u.end == Settled::<Result<(), ReadErrorView>>::Fault(
                Fault::DeckOutOfRange,
            )
            &&& !beyond ==> u.end == Settled::Done(Ok::<(), ReadErrorView>(()))
            &&& !beyond ==> u.out == parts.flatten() + told_at_the_end(n != k.master, k0)
            &&& u.keeper == (KeeperView {
                told: u.keeper.told,
                master_told: u.keeper.master_told,
                ..k0
            })
            &&& remembers(w, k0, rb, 0, u.keeper)
        }),
{
    let k0 = KeeperView { master: n as usize, ..k };
    let f = Flags { slow: false, master_changed: k.master != n as usize, track_changed: false };
    let k1 = lemma_decks_in_turn(w, k0, rb, f, 0, parts);
    lemma_flatten_from(parts, 0);
    if n == k.master || n < 4 {
        assert(crate::updated::finished(k1, f).out =~= told_at_the_end(n != k.master, k0));
    }
}

/// A deck that is followed but not connected, or cannot be placed, stops the update, if all decks
/// ahead of it can be followed.
pub proof fn lemma_deck_that_cannot_be_followed(
    w: World,
    k: KeeperView,
    rb: RekordboxView,
    slow: bool,
    n: u8,
    d: usize,
)
    requires
        k.wf(),
        (w.byte)(rb.masterdeck_index) == Ok::<u8, crate::memory::MemoryError>(n),
        n < rb.deckcount,
        d < k.decks <= 4,
        d == n || k.keep_warm,
        forall|e: int|
            0 <= e < d ==> #[trigger] can_be_followed(
                w,
                (KeeperView { master: n as usize, ..k }),
                rb,
                e,
            ),
    ensures
        ({
            let u = crate::updated::updated(w, k, rb, slow);
            &&& d >= rb.deckcount ==> u.end == Settled::<Result<(), ReadErrorView>>::Fault(
                Fault::DeckOutOfRange,
            )
            &&& d < rb.deckcount ==> (crate::updated::deck_state(w, k, rb, d) matches Settled::Fault(
                fault,
            ) ==> u.end == Settled::<Result<(), ReadErrorView>>::Fault(fault))
        }),
{
    let k0 = KeeperView { master: n as usize, ..k };
    let f = Flags { slow, master_changed: k.master != n as usize, track_changed: false };
    lemma_stops_at(w, k0, rb, f, 0, d);
}

proof fn lemma_stops_at(
    w: World,
    k: KeeperView,
    rb: RekordboxView,
    f: Flags,
    deck: usize,
    d: usize,
)
    requires
        k.wf(),
        deck <= d < k.decks <= k.trackers.len(),
        k.follows(d),
        forall|e: int| deck <= e < d ==> #[trigger] can_be_followed(w, k, rb, e),
    ensures
        ({
            let u = crate::updated::decks_updated(w, k, rb, f, deck);
            &&& d >= rb.deckcount ==> u.end == Settled::<Result<(), ReadErrorView>>::Fault(
                Fault::DeckOutOfRange,
            )
            &&& d < rb.deckcount ==> (crate::updated::deck_state(w, k, rb, d) matches Settled::Fault(
                fault,
            ) ==> u.end == Settled::<Result<(), ReadErrorView>>::Fault(fault))
        }),
    decreases d - deck,
{
    if deck < d {
        let next = (deck + 1) as usize;
        assert(can_be_followed(w, k, rb, deck as int));
        match crate::updated::deck_state(w, k, rb, deck) {
            Settled::Done(Some(res)) if k.follows(deck) => {
                let k2 = crate::keeper::deck_told(k, deck, res);
                assert forall|e: int| next <= e < d implies #[trigger] can_be_followed(
                    w,
                    k2,
                    rb,
                    e,
                ) by {
                    assert(can_be_followed(w, k, rb, e));
                }
                lemma_stops_at(w, k2, rb, f, next, d);
            },
            _ => {
                lemma_stops_at(w, k, rb, f, next, d);
            },
        }
    }
}

/// How an update ends before it looks at any deck: with the error of reading the number of the
/// master deck, quietly if there is no such deck, or for good if more decks are to be followed than
/// can be.
pub proof fn lemma_update_without_decks(w: World, k: KeeperView, rb: RekordboxView, slow: bool)
    requires
        k.wf(),
    ensures
        ({
            let u = crate::updated::updated(w, k, rb, slow);
            match (w.byte)(rb.masterdeck_index) {
                Err(error) => {
                    &&& u.keeper == k
                    &&& u.out.len() == 0
                    &&& u.end == Settled::Done(
                        Err::<(), ReadErrorView>(
                            (ReadErrorView { pointer: None, address: rb.masterdeck_index, error }),
                        ),
                    )
                },
                Ok(n) => {
                    &&& n >= rb.deckcount ==> u.keeper == (KeeperView { master: n as usize, ..k })
                        && u.out.len() == 0 && u.end == Settled::Done(Ok::<(), ReadErrorView>(()))
                    &&& n < rb.deckcount && k.decks > 4 ==> u.end == Settled::<
                        Result<(), ReadErrorView>,
                    >::Fault(Fault::TooManyDecks)
                },
            }
        }),
{
}

// Slow updates.
/// What a slow update tells of the track that is described for a deck: the track, if it is another
/// one than before.
pub open spec fn told_of_track(k: KeeperView, texts: Seq<Seq<char>>, d: int) -> Seq<OutputView> {
    let track = crate::output::described_track(texts[d]);
    if k.track_infos[d] != track {
        seq![OutputView::Notify(seq![NotificationView::Track(track, Target::Deck(d as usize))])]
    } else {
        Seq::empty()
    }
}

/// The second keeper has the tracks that are described, from `from` on, and is like the first one
/// otherwise. A deck with another track than before is marked.
pub open spec fn has_tracks(k: KeeperView, texts: Seq<Seq<char>>, from: int, k1: KeeperView) -> bool {
    &&& k1 == (KeeperView { track_infos: k1.track_infos, trackers: k1.trackers, ..k })
    &&& k1.track_infos.len() == k.track_infos.len()
    &&& k1.trackers.len() == k.trackers.len()
    &&& forall|d: int|
        0 <= d < k.track_infos.len() ==> #[trigger] k1.track_infos[d] == (if from <= d < texts.len() {
            crate::output::described_track(texts[d])
        } else {
            k.track_infos[d]
        })
    &&& forall|d: int|
        0 <= d < k.trackers.len() ==> {
            &&& (#[trigger] k1.trackers[d]).beatgrid == k.trackers[d].beatgrid
            &&& k1.trackers[d].track_changed == (k.trackers[d].track_changed || (from <= d
                < texts.len() && k.track_infos[d] != crate::output::described_track(texts[d])))
        }
}

proof fn lemma_tracks_in_turn(
    k: KeeperView,
    texts: Seq<Seq<char>>,
    deck: int,
    parts: Seq<Seq<OutputView>>,
)
    requires
        k.wf(),
        0 <= deck <= texts.len() <= 4,
        parts.len() == texts.len(),
        forall|d: int| deck <= d < texts.len() ==> #[trigger] parts[d] == told_of_track(k, texts, d),
    ensures
        ({
            let taken = crate::keeper::take_tracks(k, texts, deck);
            &&& taken.out == parts.skip(deck).flatten()
            &&& !taken.fault
            &&& taken.master == (deck <= k.master < texts.len() && k.track_infos[k.master as int]
                != crate::output::described_track(texts[k.master as int]))
            &&& has_tracks(k, texts, deck, taken.keeper)
        }),
    decreases texts.len() - deck,
{
    lemma_flatten_from(parts, deck);
    let taken = crate::keeper::take_tracks(k, texts, deck);
    if deck < texts.len() {
        let track = crate::output::described_track(texts[deck]);
        let rest = parts.skip(deck + 1).flatten();
        assert(parts[deck] == told_of_track(k, texts, deck));
        if k.track_infos[deck] == track {
            lemma_tracks_in_turn(k, texts, deck + 1, parts);
            assert(parts[deck] + rest =~= rest);
        } else {
            let k2 = crate::keeper::track_loaded(k, deck, track);
            assert forall|d: int| deck + 1 <= d < texts.len() implies #[trigger] parts[d]
                == told_of_track(k2, texts, d) by {
                assert(parts[d] == told_of_track(k, texts, d));
                assert(k2.track_infos[d] == k.track_infos[d]);
            }
            lemma_tracks_in_turn(k2, texts, deck + 1, parts);
            let k1 = taken.keeper;
            assert forall|d: int| 0 <= d < k.trackers.len() implies {
                &&& (#[trigger] k1.trackers[d]).beatgrid == k.trackers[d].beatgrid
                &&& k1.trackers[d].track_changed == (k.trackers[d].track_changed || (deck <= d
                    < texts.len() && k.track_infos[d] != crate::output::described_track(texts[d])))
            } by {
                assert(k2.track_infos[d] == (if d == deck {
                    track
                } else {
                    k.track_infos[d]
                }));
                assert(k2.trackers[d].beatgrid == k.trackers[d].beatgrid);
            }
            assert forall|d: int| 0 <= d < k.track_infos.len() implies #[trigger] k1.track_infos[d]
                == (if deck <= d < texts.len() {
                crate::output::described_track(texts[d])
            } else {
                k.track_infos[d]
            }) by {
                assert(k2.track_infos[d] == (if d == deck {
                    track
                } else {
                    k.track_infos[d]
                }));
            }
        }
    }
}

/// What a slow update prints of the analysis file of a deck: its path, if it is another one than
/// before, and that it cannot be read, if it cannot.
pub open spec fn told_of_file(w: World, k: KeeperView, paths: Seq<Seq<char>>, d: int) -> Seq<OutputView> {
    if k.anlz_paths[d] == paths[d] {
        Seq::empty()
    } else if (w.file)(paths[d]) is None {
        seq![
            OutputView::Print("Anlz path changed: "@ + paths[d]),
            OutputView::Print("Failed to read anlz file: "@ + paths[d]),
        ]
    } else {
        seq![OutputView::Print("Anlz path changed: "@ + paths[d])]
    }
}

/// The file of a deck is looked at, and it is malformed.
pub open spec fn has_malformed_file(w: World, k: KeeperView, paths: Seq<Seq<char>>, d: int) -> bool {
    &&& k.anlz_paths[d] != paths[d]
    &&& (w.file)(paths[d]) is Some
    &&& crate::anlz::analysis((w.file)(paths[d])->0) is None
}

/// The file of a deck is looked at, can be read, and has a beat grid with these beats.
pub open spec fn brings_beats(
    w: World,
    k: KeeperView,
    paths: Seq<Seq<char>>,
    d: int,
    beats: Seq<crate::anlz::Beat>,
) -> bool {
    &&& k.anlz_paths[d] != paths[d]
    &&& (w.file)(paths[d]) is Some
    &&& crate::anlz::analysis((w.file)(paths[d])->0) == Some(Some(beats))
}

/// The grid consists of these beats, with their times in seconds.
pub open spec fn is_grid_of(w: World, beats: Seq<crate::anlz::Beat>, grid: Option<Seq<GridBeat>>) -> bool {
    grid matches Some(g) && {
        &&& g.len() == beats.len()
        &&& forall|i: int|
            0 <= i < beats.len() ==> (#[trigger] g[i]).beat == beats[i] && g[i].seconds
                == (w.grid_second)(beats[i].time)
    }
}

/// The second keeper has the paths from `from` on, and the grids of the files that they lead to, and
/// is like the first one otherwise. A deck whose path is the same as before, or whose file cannot be
/// read or has no grid, keeps its grid.
pub open spec fn has_files(
    w: World,
    k: KeeperView,
    paths: Seq<Seq<char>>,
    from: int,
    k1: KeeperView,
) -> bool {
    &&& k1 == (KeeperView { anlz_paths: k1.anlz_paths, trackers: k1.trackers, ..k })
    &&& k1.anlz_paths.len() == k.anlz_paths.len()
    &&& k1.trackers.len() == k.trackers.len()
    &&& forall|d: int|
        0 <= d < k.anlz_paths.len() ==> #[trigger] k1.anlz_paths[d] == (if from <= d < paths.len() {
            paths[d]
        } else {
            k.anlz_paths[d]
        })
    &&& forall|d: int|
        0 <= d < k.trackers.len() ==> (#[trigger] k1.trackers[d]).track_changed
            == k.trackers[d].track_changed
    &&& forall|d: int, beats: Seq<crate::anlz::Beat>|
        from <= d < paths.len() && #[trigger] brings_beats(w, k, paths, d, beats) ==> is_grid_of(
            w,
            beats,
            k1.trackers[d].beatgrid,
        )
    &&& forall|d: int|
        0 <= d < k.trackers.len() && !(from <= d < paths.len() && exists|beats: Seq<
            crate::anlz::Beat,
        >| #[trigger] brings_beats(w, k, paths, d, beats)) ==> (#[trigger] k1.trackers[d]).beatgrid
            == k.trackers[d].beatgrid
}

/// The keeper once the file of one deck has been looked at.
spec fn file_taken(w: World, k: KeeperView, paths: Seq<Seq<char>>, deck: int) -> KeeperView {
    let set = crate::updated::path_set(k, deck, paths[deck]);
    match (w.file)(paths[deck]) {
        Some(bytes) => match crate::anlz::analysis(bytes) {
            Some(Some(beats)) => crate::keeper::grid_loaded(
                set,
                deck as usize,
                beats,
                crate::track::beat_times(beats).map_values(w.grid_second),
            ),
            _ => set,
        },
        None => set,
    }
}

/// One deck more, whose path is another one.
proof fn lemma_one_more_file(w: World, k: KeeperView, paths: Seq<Seq<char>>, deck: int, k1: KeeperView)
    requires
        k.wf(),
        0 <= deck < paths.len() <= 4,
        k.anlz_paths[deck] != paths[deck],
        has_files(w, file_taken(w, k, paths, deck), paths, deck + 1, k1),
    ensures
        has_files(w, k, paths, deck, k1),
{
    let k2 = file_taken(w, k, paths, deck);
    let content = (w.file)(paths[deck]);
    assert forall|d: int, beats: Seq<crate::anlz::Beat>|
        0 <= d < 4 && d != deck implies #[trigger] brings_beats(w, k2, paths, d, beats)
        == brings_beats(w, k, paths, d, beats) by {
        assert(k2.anlz_paths[d] == k.anlz_paths[d]);
    }
    assert forall|d: int| 0 <= d < 4 && d != deck implies #[trigger] k2.trackers[d] == k.trackers[d] by {}
    assert(k1.trackers[deck].beatgrid == k2.trackers[deck].beatgrid);
    assert forall|d: int, beats: Seq<crate::anlz::Beat>|
        deck <= d < paths.len() && #[trigger] brings_beats(w, k, paths, d, beats) implies is_grid_of(
        w,
        beats,
        k1.trackers[d].beatgrid,
    ) by {
        if d != deck {
            assert(brings_beats(w, k2, paths, d, beats));
        }
    }
    assert forall|d: int| 0 <= d < k.trackers.len() && !(deck <= d < paths.len() && exists|
        beats: Seq<crate::anlz::Beat>,
    | #[trigger] brings_beats(w, k, paths, d, beats)) implies (
    #[trigger] k1.trackers[d]).beatgrid == k.trackers[d].beatgrid by {
        if d == deck {
            if content is Some {
                match crate::anlz::analysis(content->0) {
                    Some(Some(beats)) => {
                        assert(brings_beats(w, k, paths, d, beats));
                    },
                    _ => {},
                }
            }
        } else {
            assert(k2.trackers[d] == k.trackers[d]);
        }
    }
}

proof fn lemma_files_in_turn(
    w: World,
    k: KeeperView,
    f: Flags,
    paths: Seq<Seq<char>>,
    deck: int,
    parts: Seq<Seq<OutputView>>,
) -> (k1: KeeperView)
    requires
        k.wf(),
        0 <= deck <= paths.len() <= 4,
        parts.len() == paths.len(),
        forall|d: int| deck <= d < paths.len() ==> #[trigger] parts[d] == told_of_file(w, k, paths, d),
        forall|d: int| deck <= d < paths.len() ==> !#[trigger] has_malformed_file(w, k, paths, d),
    ensures
        crate::updated::files_updated(w, k, f, paths, deck) == crate::updated::updated_after(
            parts.skip(deck).flatten() + seq![OutputView::Notify(seq![NotificationView::SlowUpdate])],
            crate::updated::finished(k1, f),
        ),
        has_files(w, k, paths, deck, k1),
    decreases paths.len() - deck,
{
    lemma_flatten_from(parts, deck);
    let slow = seq![OutputView::Notify(seq![NotificationView::SlowUpdate])];
    if deck >= paths.len() {
        assert(parts.skip(deck).flatten() + slow =~= slow);
        k
    } else {
        let rest = parts.skip(deck + 1).flatten();
        assert(parts[deck] == told_of_file(w, k, paths, deck));
        assert(!has_malformed_file(w, k, paths, deck));
        if k.anlz_paths[deck] == paths[deck] {
            let k1 = lemma_files_in_turn(w, k, f, paths, deck + 1, parts);
            assert(parts[deck] + rest =~= rest);
            k1
        } else {
            let k2 = file_taken(w, k, paths, deck);
            assert forall|d: int| deck + 1 <= d < paths.len() implies #[trigger] parts[d]
                == told_of_file(w, k2, paths, d) by {
                assert(parts[d] == told_of_file(w, k, paths, d));
                assert(k2.anlz_paths[d] == k.anlz_paths[d]);
            }
            assert forall|d: int| deck + 1 <= d < paths.len() implies !#[trigger] has_malformed_file(
                w,
                k2,
                paths,
                d,
            ) by {
                assert(!has_malformed_file(w, k, paths, d));
                assert(k2.anlz_paths[d] == k.anlz_paths[d]);
            }
            let k1 = lemma_files_in_turn(w, k2, f, paths, deck + 1, parts);
            lemma_one_more_file(w, k, paths, deck, k1);
            let end = crate::updated::finished(k1, f).out;
            let printed = seq![OutputView::Print("Anlz path changed: "@ + paths[deck])];
            let failed = seq![OutputView::Print("Failed to read anlz file: "@ + paths[deck])];
            assert(parts[deck] + rest + slow + end =~= parts[deck] + (rest + slow + end));
            if (w.file)(paths[deck]) is None {
                assert(parts[deck] + (rest + slow + end) =~= printed + (failed + (rest + slow
                    + end)));
            } else {
                assert(parts[deck] =~= printed);
            }
            k1
        }
    }
}

/// The tracks and then the files of a slow update.
proof fn lemma_tracks_and_files(
    w: World,
    k: KeeperView,
    rb: RekordboxView,
    f: Flags,
    texts: Seq<Seq<char>>,
    paths: Seq<Seq<char>>,
    first: Seq<Seq<OutputView>>,
    second: Seq<Seq<OutputView>>,
) -> (after: (KeeperView, KeeperView))
    requires
        k.wf(),
        k.master < texts.len() <= 4,
        paths.len() <= 4,
        crate::slow::track_texts(w, rb) == Settled::Done(
            Ok::<Seq<Seq<char>>, ReadErrorView>(texts),
        ),
        crate::slow::path_texts(w, rb) == Settled::Done(Ok::<Seq<Seq<char>>, ReadErrorView>(paths)),
        first.len() == texts.len(),
        forall|d: int| 0 <= d < texts.len() ==> #[trigger] first[d] == told_of_track(k, texts, d),
        second.len() == paths.len(),
        forall|d: int| 0 <= d < paths.len() ==> #[trigger] second[d] == told_of_file(w, k, paths, d),
        forall|d: int| 0 <= d < paths.len() ==> !#[trigger] has_malformed_file(w, k, paths, d),
    ensures
        ({
            let u = crate::updated::tracks_updated(w, k, rb, f);
            let changed = f.master_changed || k.track_infos[k.master as int]
                != crate::output::described_track(texts[k.master as int]);
            &&& u.keeper == after.1
            &&& u.end == Settled::Done(Ok::<(), ReadErrorView>(()))
            &&& u.out == first.flatten() + ((second.flatten() + seq![
                OutputView::Notify(seq![NotificationView::SlowUpdate]),
            ]) + told_at_the_end(changed, after.1))
            &&& has_tracks(k, texts, 0, after.0)
            &&& has_files(w, after.0, paths, 0, after.1)
        }),
{
    lemma_flatten_from(first, 0);
    lemma_flatten_from(second, 0);
    lemma_tracks_in_turn(k, texts, 0, first);
    let taken = crate::keeper::take_tracks(k, texts, 0);
    let k2 = taken.keeper;
    let f1 = Flags { track_changed: taken.master, ..f };
    assert forall|d: int| 0 <= d < paths.len() implies #[trigger] second[d] == told_of_file(
        w,
        k2,
        paths,
        d,
    ) by {
        assert(second[d] == told_of_file(w, k, paths, d));
    }
    assert forall|d: int| 0 <= d < paths.len() implies !#[trigger] has_malformed_file(
        w,
        k2,
        paths,
        d,
    ) by {
        assert(!has_malformed_file(w, k, paths, d));
    }
    let k3 = lemma_files_in_turn(w, k2, f1, paths, 0, second);
    let changed = f.master_changed || k.track_infos[k.master as int]
        != crate::output::described_track(texts[k.master as int]);
    assert(crate::updated::finished(k3, f1).out =~= told_at_the_end(changed, k3));
    (k2, k3)
}

proof fn lemma_joined<A>(a: Seq<A>, b: Seq<A>, c: Seq<A>, d: Seq<A>, e: Seq<A>)
    ensures
        a + (b + ((c + d) + e)) == a + b + c + d + e,
{
    assert(a + (b + ((c + d) + e)) =~= a + b + c + d + e);
}

/// A slow update with a connected master deck, whose decks can all be followed, whose tracks and
/// paths can be read, and none of whose new files is malformed, succeeds. It tells what any update
/// tells of the decks, then each track that is another one than before, then of each file that is
/// another one, then that it took place, and in the end the track on the master deck if the deck or
/// the track on it is another one. Each connected deck is left with the track that is described, the
/// path that is read, and the grid of its file if that is another file than before, can be read and
/// has one; otherwise with the grid that it had.
pub proof fn lemma_slow_update_in_full(
    w: World,
    k: KeeperView,
    rb: RekordboxView,
    n: u8,
    texts: Seq<Seq<char>>,
    paths: Seq<Seq<char>>,
    told: (Seq<Seq<OutputView>>, Seq<Seq<OutputView>>, Seq<Seq<OutputView>>),
) -> (mid: (KeeperView, KeeperView))
    requires
        k.wf(),
        rb.wf(),
        (w.byte)(rb.masterdeck_index) == Ok::<u8, crate::memory::MemoryError>(n),
        n < rb.deckcount <= 4,
        k.decks <= 4,
        forall|d: int|
            0 <= d < k.decks ==> #[trigger] can_be_followed(
                w,
                (KeeperView { master: n as usize, ..k }),
                rb,
                d,
            ),
        crate::slow::track_texts(w, rb) == Settled::Done(
            Ok::<Seq<Seq<char>>, ReadErrorView>(texts),
        ),
        crate::slow::path_texts(w, rb) == Settled::Done(Ok::<Seq<Seq<char>>, ReadErrorView>(paths)),
        forall|d: int| 0 <= d < rb.deckcount ==> !#[trigger] has_malformed_file(w, k, paths, d),
        is_told_in_order(w, (KeeperView { master: n as usize, ..k }), rb, told.0),
        told.1.len() == rb.deckcount,
        forall|d: int|
            0 <= d < rb.deckcount ==> #[trigger] told.1[d] == told_of_track(k, texts, d),
        told.2.len() == rb.deckcount,
        forall|d: int|
            0 <= d < rb.deckcount ==> #[trigger] told.2[d] == told_of_file(w, k, paths, d),
    ensures
        ({
            let k0 = KeeperView { master: n as usize, ..k };
            let u = crate::updated::updated(w, k, rb, true);
            let track = crate::output::described_track(texts[n as int]);
            &&& texts.len() == rb.deckcount
            &&& paths.len() == rb.deckcount
            &&& u.end == Settled::Done(Ok::<(), ReadErrorView>(()))
            &&& u.out == told.0.flatten() + told.1.flatten() + told.2.flatten() + seq![
                OutputView::Notify(seq![NotificationView::SlowUpdate]),
            ] + told_at_the_end(n != k.master || k.track_infos[n as int] != track, u.keeper)
            &&& u.keeper.track_infos[n as int] == track
            &&& remembers(w, k0, rb, 0, mid.0)
            &&& mid.0 == (KeeperView { told: mid.0.told, master_told: mid.0.master_told, ..k0 })
            &&& has_tracks(mid.0, texts, 0, mid.1)
            &&& has_files(w, mid.1, paths, 0, u.keeper)
        }),
{
    let k0 = KeeperView { master: n as usize, ..k };
    let f = Flags { slow: true, master_changed: k.master != n as usize, track_changed: false };
    let track = crate::output::described_track(texts[n as int]);
    crate::slow::lemma_text_count(w, rb.track_infos, crate::reading::TRACK_INFO_SIZE, Seq::empty());
    crate::slow::lemma_text_count(w, rb.anlz_paths, crate::reading::ANLZ_PATH_SIZE, Seq::empty());
    let k1 = lemma_decks_in_turn(w, k0, rb, f, 0, told.0);
    lemma_flatten_from(told.0, 0);
    assert forall|d: int| 0 <= d < texts.len() implies #[trigger] told.1[d] == told_of_track(
        k1,
        texts,
        d,
    ) by {
        assert(told.1[d] == told_of_track(k, texts, d));
    }
    assert forall|d: int| 0 <= d < paths.len() implies #[trigger] told.2[d] == told_of_file(
        w,
        k1,
        paths,
        d,
    ) by {
        assert(told.2[d] == told_of_file(w, k, paths, d));
    }
    assert forall|d: int| 0 <= d < paths.len() implies !#[trigger] has_malformed_file(
        w,
        k1,
        paths,
        d,
    ) by {
        assert(!has_malformed_file(w, k, paths, d));
    }
    let (k2, k3) = lemma_tracks_and_files(w, k1, rb, f, texts, paths, told.1, told.2);
    let changed = n != k.master || k.track_infos[n as int] != track;
    assert(k2.track_infos[n as int] == track);
    assert(crate::updated::updated(w, k, rb, true) == crate::updated::decks_updated(w, k0, rb, f, 0));
    lemma_joined(
        told.0.flatten(),
        told.1.flatten(),
        told.2.flatten(),
        seq![OutputView::Notify(seq![NotificationView::SlowUpdate])],
        told_at_the_end(changed, k3),
    );
    (k1, k2)
}

/// After a slow update that succeeds with a connected master deck, the grid of each connected deck
/// whose path differs from the one that was known, and whose file can be read and has a beat grid,
/// consists of the beats of that grid with their times in seconds. Every other deck has the grid that
/// it had.
pub proof fn lemma_slow_update_loads_grids(w: World, k: KeeperView, rb: RekordboxView, d: int)
    requires
        k.wf(),
        rb.wf(),
        crate::updated::updated(w, k, rb, true).end == Settled::Done(Ok::<(), ReadErrorView>(())),
        crate::updated::updated(w, k, rb, true).keeper.master < rb.deckcount,
        0 <= d < 4,
    ensures
        ({
            let k1 = crate::updated::updated(w, k, rb, true).keeper;
            crate::slow::path_texts(w, rb) matches Settled::Done(Ok(paths)) && {
                &&& paths.len() == rb.deckcount <= 4
                &&& d < rb.deckcount ==> k1.anlz_paths[d] == paths[d]
                &&& d >= rb.deckcount ==> k1.anlz_paths[d] == k.anlz_paths[d]
                &&& if d < rb.deckcount && paths[d] != k.anlz_paths[d] && (w.file)(paths[d]) is Some
                    && crate::anlz::analysis((w.file)(paths[d])->0)->0 is Some {
                    is_grid_of(
                        w,
                        crate::anlz::analysis((w.file)(paths[d])->0)->0->0,
                        k1.trackers[d].beatgrid,
                    )
                } else {
                    k1.trackers[d].beatgrid == k.trackers[d].beatgrid
                }
                &&& d < rb.deckcount && paths[d] != k.anlz_paths[d] && (w.file)(paths[d]) is Some
                    ==> crate::anlz::analysis((w.file)(paths[d])->0) is Some
            }
        }),
{
    let u = crate::updated::updated(w, k, rb, true);
    match (w.byte)(rb.masterdeck_index) {
        Err(_) => {},
        Ok(n) => {
            let k0 = KeeperView { master: n as usize, ..k };
            let f = Flags { slow: true, master_changed: k.master != n as usize, track_changed: false };
            if n >= rb.deckcount || k.decks > 4 {
            } else {
                assert forall|e: int| 0 <= e < k.decks implies #[trigger] can_be_followed(
                    w,
                    k0,
                    rb,
                    e,
                ) by {
                    lemma_success_needs_decks(w, k0, rb, f, 0, e as usize);
                }
                let parts = Seq::new(k.decks as nat, |e: int| told_of_deck(w, k0, rb, e));
                let k1 = lemma_decks_in_turn(w, k0, rb, f, 0, parts);
                crate::slow::lemma_text_count(
                    w,
                    rb.track_infos,
                    crate::reading::TRACK_INFO_SIZE,
                    Seq::empty(),
                );
                crate::slow::lemma_text_count(
                    w,
                    rb.anlz_paths,
                    crate::reading::ANLZ_PATH_SIZE,
                    Seq::empty(),
                );
                let texts = crate::slow::track_texts(w, rb)->Done_0->Ok_0;
                let paths = crate::slow::path_texts(w, rb)->Done_0->Ok_0;
                let taken = crate::keeper::take_tracks(k1, texts, 0);
                crate::slow::lemma_tracks_taken(k1, texts, 0);
                let described = Seq::new(texts.len(), |e: int| told_of_track(k1, texts, e));
                lemma_tracks_in_turn(k1, texts, 0, described);
                let k2 = taken.keeper;
                let f1 = Flags { track_changed: taken.master, ..f };
                let files = crate::updated::files_updated(w, k2, f1, paths, 0);
                assert(files.end == u.end);
                assert forall|e: int| 0 <= e < paths.len() implies !#[trigger] has_malformed_file(
                    w,
                    k2,
                    paths,
                    e,
                ) by {
                    if has_malformed_file(w, k2, paths, e) {
                        lemma_malformed_file_stops(w, k2, f1, paths, 0, e);
                    }
                }
                let printed = Seq::new(paths.len(), |e: int| told_of_file(w, k2, paths, e));
                let k3 = lemma_files_in_turn(w, k2, f1, paths, 0, printed);
                assert(u.keeper == k3);
                assert(k2.trackers[d].beatgrid == k.trackers[d].beatgrid);
                if d < rb.deckcount && paths[d] != k.anlz_paths[d] && (w.file)(paths[d]) is Some {
                    assert(!has_malformed_file(w, k2, paths, d));
                    let found = crate::anlz::analysis((w.file)(paths[d])->0)->0;
                    if found is Some {
                        assert(brings_beats(w, k2, paths, d, found->0));
                    }
                }
            }
        },
    }
}

/// An update that succeeds could follow each of its decks.
proof fn lemma_success_needs_decks(
    w: World,
    k: KeeperView,
    rb: RekordboxView,
    f: Flags,
    deck: usize,
    d: usize,
)
    requires
        k.wf(),
        deck <= d < k.decks <= k.trackers.len(),
        !(crate::updated::decks_updated(w, k, rb, f, deck).end is Fault),
    ensures
        can_be_followed(w, k, rb, d as int),
    decreases d - deck,
{
    if deck < d {
        let next = (deck + 1) as usize;
        match crate::updated::deck_state(w, k, rb, deck) {
            Settled::Done(Some(res)) if k.follows(deck) => {
                lemma_success_needs_decks(
                    w,
                    crate::keeper::deck_told(k, deck, res),
                    rb,
                    f,
                    next,
                    d,
                );
            },
            _ => {
                lemma_success_needs_decks(w, k, rb, f, next, d);
            },
        }
    }
}

/// A malformed file stops a slow update.
proof fn lemma_malformed_file_stops(
    w: World,
    k: KeeperView,
    f: Flags,
    paths: Seq<Seq<char>>,
    deck: int,
    d: int,
)
    requires
        k.wf(),
        0 <= deck <= d < paths.len() <= 4,
        has_malformed_file(w, k, paths, d),
    ensures
        crate::updated::files_updated(w, k, f, paths, deck).end == Settled::<
            Result<(), ReadErrorView>,
        >::Fault(Fault::MalformedAnalysis),
    decreases d - deck,
{
    if deck < d {
        if k.anlz_paths[deck] == paths[deck] {
            lemma_malformed_file_stops(w, k, f, paths, deck + 1, d);
        } else {
            let set = crate::updated::path_set(k, deck, paths[deck]);
            assert(set.anlz_paths[d] == k.anlz_paths[d]);
            match (w.file)(paths[deck]) {
                None => {
                    lemma_malformed_file_stops(w, set, f, paths, deck + 1, d);
                },
                Some(bytes) => match crate::anlz::analysis(bytes) {
                    None => {},
                    Some(None) => {
                        lemma_malformed_file_stops(w, set, f, paths, deck + 1, d);
                    },
                    Some(Some(beats)) => {
                        lemma_malformed_file_stops(
                            w,
                            crate::keeper::grid_loaded(
                                set,
                                deck as usize,
                                beats,
                                crate::track::beat_times(beats).map_values(w.grid_second),
                            ),
                            f,
                            paths,
                            deck + 1,
                            d,
                        );
                    },
                },
            }
        }
    }
}

/// Where the decks can all be followed, a slow update ends as reading the descriptions of the tracks
/// does, if that fails; then for good, if there are more of them than decks that can be followed;
/// then as reading the paths does, if that fails; and then for good, if a new file is malformed.
/// What was told before an error stays told and is remembered: of the decks, and of the tracks if it
/// is the paths that cannot be read.
pub proof fn lemma_slow_update_fails(
    w: World,
    k: KeeperView,
    rb: RekordboxView,
    n: u8,
    told: (Seq<Seq<OutputView>>, Seq<Seq<OutputView>>),
) -> (mid: KeeperView)
    requires
        k.wf(),
        rb.wf(),
        (w.byte)(rb.masterdeck_index) == Ok::<u8, crate::memory::MemoryError>(n),
        n < rb.deckcount,
        k.decks <= 4,
        forall|d: int|
            0 <= d < k.decks ==> #[trigger] can_be_followed(
                w,
                (KeeperView { master: n as usize, ..k }),
                rb,
                d,
            ),
        is_told_in_order(w, (KeeperView { master: n as usize, ..k }), rb, told.0),
        crate::slow::track_texts(w, rb) matches Settled::Done(Ok(texts)) ==> {
            &&& told.1.len() == texts.len()
            &&& forall|d: int|
                0 <= d < texts.len() ==> #[trigger] told.1[d] == told_of_track(k, texts, d)
        },
    ensures
        ({
            let k0 = KeeperView { master: n as usize, ..k };
            let u = crate::updated::updated(w, k, rb, true);
            let texts = crate::slow::track_texts(w, rb);
            let paths = crate::slow::path_texts(w, rb);
            &&& remembers(w, k0, rb, 0, mid)
            &&& mid == (KeeperView { told: mid.told, master_told: mid.master_told, ..k0 })
            &&& if !(texts matches Settled::Done(Ok(_))) {
                &&& crate::whole::same_failure(texts, u.end)
                &&& u.out == told.0.flatten()
                &&& u.keeper == mid
            } else if rb.deckcount > 4 {
                u.end == Settled::<Result<(), ReadErrorView>>::Fault(Fault::DeckOutOfRange)
            } else if !(paths matches Settled::Done(Ok(_))) {
                &&& crate::whole::same_failure(paths, u.end)
                &&& u.out == told.0.flatten() + told.1.flatten()
                &&& has_tracks(mid, texts->Done_0->Ok_0, 0, u.keeper)
            } else {
                (exists|d: int|
                    0 <= d < rb.deckcount && #[trigger] has_malformed_file(
                        w,
                        k,
                        paths->Done_0->Ok_0,
                        d,
                    )) ==> u.end == Settled::<Result<(), ReadErrorView>>::Fault(
                    Fault::MalformedAnalysis,
                )
            }
        }),
{
    let k0 = KeeperView { master: n as usize, ..k };
    let f = Flags { slow: true, master_changed: k.master != n as usize, track_changed: false };
    let u = crate::updated::updated(w, k, rb, true);
    let k1 = lemma_decks_in_turn(w, k0, rb, f, 0, told.0);
    lemma_flatten_from(told.0, 0);
    assert(u == crate::updated::updated_after(
        told.0.flatten(),
        crate::updated::tracks_updated(w, k1, rb, f),
    ));
    crate::slow::lemma_text_count(w, rb.track_infos, crate::reading::TRACK_INFO_SIZE, Seq::empty());
    crate::slow::lemma_text_count(w, rb.anlz_paths, crate::reading::ANLZ_PATH_SIZE, Seq::empty());
    match crate::slow::track_texts(w, rb) {
        Settled::Done(Ok(texts)) => {
            crate::slow::lemma_tracks_taken(k1, texts, 0);
            if rb.deckcount <= 4 {
                assert forall|d: int| 0 <= d < texts.len() implies #[trigger] told.1[d]
                    == told_of_track(k1, texts, d) by {
                    assert(told.1[d] == told_of_track(k, texts, d));
                }
                lemma_tracks_in_turn(k1, texts, 0, told.1);
                lemma_flatten_from(told.1, 0);
                let taken = crate::keeper::take_tracks(k1, texts, 0);
                let f1 = Flags { track_changed: taken.master, ..f };
                match crate::slow::path_texts(w, rb) {
                    Settled::Done(Ok(paths)) => {
                        if exists|d: int|
                            0 <= d < rb.deckcount && #[trigger] has_malformed_file(w, k, paths, d) {
                            let d = choose|d: int|
                                0 <= d < rb.deckcount && #[trigger] has_malformed_file(
                                    w,
                                    k,
                                    paths,
                                    d,
                                );
                            assert(has_malformed_file(w, taken.keeper, paths, d));
                            lemma_malformed_file_stops(w, taken.keeper, f1, paths, 0, d);
                        }
                    },
                    _ => {
                        assert(u.out =~= told.0.flatten() + told.1.flatten());
                    },
                }
            }
        },
        _ => {
            assert(u.out =~= told.0.flatten());
        },
    }
    k1
}

} // verus!
