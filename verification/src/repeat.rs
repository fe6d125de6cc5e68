//! What holds of updates that follow each other.
use crate::keeper::{Flags, KeeperView};
use crate::output::{NotificationView, OutputView, Target};
use crate::protocol::{BeatAnchor, Settled, World};
use crate::rekordbox::RekordboxView;
use crate::track::{TrackTrackerResult, TrackingDataTracker};
use vstd::prelude::*;

verus! {

/// None of the numbers is a NaN.
pub open spec fn is_proper(res: TrackTrackerResult) -> bool {
    &&& !res.beat.is_nan()
    &&& !res.original_bpm.is_nan()
    &&& !res.timing_data_raw.current_bpm.is_nan()
}

/// What was told last agrees with a result.
pub open spec fn agrees(t: TrackingDataTracker, res: TrackTrackerResult) -> bool {
    &&& t.beat_changed.value.same(res.beat)
    &&& t.original_bpm_changed.value.same(res.original_bpm)
    &&& t.bpm_changed.value.same(res.timing_data_raw.current_bpm)
    &&& t.pos_changed.value == res.timing_data_raw.sample_position
}

/// Once a result has been told, what was told last agrees with it, and telling it again tells
/// nothing.
pub proof fn lemma_result_is_told_once(t: TrackingDataTracker, res: TrackTrackerResult, target: Target)
    requires
        is_proper(res),
    ensures
        agrees(crate::track::told(t, res), res),
        crate::track::news(crate::track::told(t, res), res, target) == Seq::<
            NotificationView,
        >::empty(),
        crate::track::told(crate::track::told(t, res), res) == crate::track::told(t, res),
{
    assert(crate::track::news(crate::track::told(t, res), res, target) =~= Seq::empty());
}

/// A value that is a NaN is told each time.
pub proof fn lemma_nan_is_told_each_time(t: TrackingDataTracker, res: TrackTrackerResult, target: Target)
    requires
        res.beat.is_nan(),
    ensures
        crate::track::news(t, res, target).len() > 0,
        crate::track::news(t, res, target)[0] == NotificationView::Beat(res.beat, target),
{
}

/// Whatever the data of the decks that are followed, its numbers are proper.
pub open spec fn reads_properly(w: World, k: KeeperView, rb: RekordboxView) -> bool {
    forall|deck: usize|
        deck < k.decks && k.follows(deck) && deck < rb.deckcount ==> (
        #[trigger] crate::updated::deck_state(w, k, rb, deck) matches Settled::Done(Some(res))
            ==> is_proper(res))
}

/// None of the tempi that can be read is a NaN.
pub open spec fn tempos_are_numbers(w: World, rb: RekordboxView) -> bool {
    forall|deck: int|
        0 <= deck < rb.current_bpms.len() ==> ((w.single)(#[trigger] rb.current_bpms[deck]) matches Ok(
            tempo,
        ) ==> !tempo.is_nan())
}

/// Placing a number of samples, converted to seconds, on a beat grid never gives a NaN.
pub open spec fn places_properly(w: World) -> bool {
    forall|anchor: BeatAnchor, samples: i64|
        {
            let at = #[trigger] (w.beat)(anchor, (w.seconds)(samples));
            !at.beat.is_nan() && !at.original_bpm.is_nan()
        }
}

/// Where the conversions give numbers, it takes a tempo that is none to find out anything about a
/// deck that is none.
pub proof fn lemma_proper_tempos_suffice(w: World, k: KeeperView, rb: RekordboxView)
    requires
        rb.wf(),
        places_properly(w),
        tempos_are_numbers(w, rb),
    ensures
        reads_properly(w, k, rb),
{
    assert forall|deck: usize| deck < k.decks && k.follows(deck) && deck < rb.deckcount implies (
    #[trigger] crate::updated::deck_state(w, k, rb, deck) matches Settled::Done(Some(res))
        ==> is_proper(res)) by {
        assert((w.single)(rb.current_bpms[deck as int]) matches Ok(tempo) ==> !tempo.is_nan());
    }
}

/// What the decks from `deck` on do not touch.
pub(crate) proof fn lemma_decks_leave(w: World, k: KeeperView, rb: RekordboxView, f: Flags, deck: usize)
    requires
        k.wf(),
        k.decks <= k.trackers.len(),
    ensures
        ({
            let k1 = crate::updated::decks_updated(w, k, rb, f, deck).keeper;
            &&& !f.slow ==> k1 == (KeeperView {
                told: k1.told,
                master_told: k1.master_told,
                ..k
            })
            &&& k1.told.len() == k.told.len()
            &&& forall|d: int| 0 <= d < deck && d < k.told.len() ==> #[trigger] k1.told[d]
                == k.told[d]
            &&& deck > k.master ==> k1.master_told == k.master_told
        }),
    decreases k.decks - deck,
{
    if deck >= k.decks {
        lemma_tracks_keep_settings(w, k, rb, f);
    } else {
        let next = (deck + 1) as usize;
        lemma_decks_leave(w, k, rb, f, next);
        if k.follows(deck) && deck < rb.deckcount {
            match crate::updated::deck_state(w, k, rb, deck) {
                Settled::Done(Some(res)) => {
                    let k2 = crate::keeper::deck_told(k, deck, res);
                    lemma_decks_leave(w, k2, rb, f, next);
                    let k1 = crate::updated::decks_updated(w, k, rb, f, deck).keeper;
                    assert forall|d: int| 0 <= d < deck && d < k.told.len() implies
                        #[trigger] k1.told[d] == k.told[d] by {
                        assert(k1.told[d] == k2.told[d]);
                    }
                },
                _ => {},
            }
        }
    }
}

/// What is found out about a deck depends on its beat grid and the compensation alone.
proof fn lemma_same_state(w: World, k: KeeperView, k1: KeeperView, rb: RekordboxView, deck: usize)
    requires
        k1.trackers[deck as int].beatgrid == k.trackers[deck as int].beatgrid,
        k1.offset_samples == k.offset_samples,
    ensures
        crate::updated::deck_state(w, k1, rb, deck) == crate::updated::deck_state(w, k, rb, deck),
{
}

/// Visiting the decks again tells nothing.
proof fn lemma_decks_repeat(w: World, k: KeeperView, rb: RekordboxView, f: Flags, deck: usize)
    requires
        !f.slow,
        k.wf(),
        k.decks <= k.trackers.len(),
        reads_properly(w, k, rb),
        !(crate::updated::decks_updated(w, k, rb, f, deck).end is Fault),
    ensures
        ({
            let k1 = crate::updated::decks_updated(w, k, rb, f, deck).keeper;
            let quiet = Flags { slow: false, master_changed: false, track_changed: false };
            crate::updated::decks_updated(w, k1, rb, quiet, deck) == crate::updated::ended(
                k1,
                Settled::Done(Ok(())),
            )
        }),
    decreases k.decks - deck,
{
    let k1 = crate::updated::decks_updated(w, k, rb, f, deck).keeper;
    let quiet = Flags { slow: false, master_changed: false, track_changed: false };
    let next = (deck + 1) as usize;
    lemma_decks_leave(w, k, rb, f, deck);
    if deck < k.decks {
        if !k.follows(deck) {
            lemma_decks_repeat(w, k, rb, f, next);
        } else {
            lemma_same_state(w, k, k1, rb, deck);
            match crate::updated::deck_state(w, k, rb, deck) {
                Settled::Done(Some(res)) => {
                    let k2 = crate::keeper::deck_told(k, deck, res);
                    assert forall|d: usize|
                        d < k2.decks && k2.follows(d) && d < rb.deckcount implies (
                    #[trigger] crate::updated::deck_state(w, k2, rb, d) matches Settled::Done(
                        Some(r),
                    ) ==> is_proper(r)) by {
                        lemma_same_state(w, k, k2, rb, d);
                    }
                    lemma_decks_leave(w, k2, rb, f, next);
                    lemma_decks_repeat(w, k2, rb, f, next);
                    assert(k1.told[deck as int] == k2.told[deck as int]);
                    lemma_result_is_told_once(k.told[deck as int], res, Target::Deck(deck));
                    lemma_result_is_told_once(k.master_told, res, Target::Master);
                    assert(crate::keeper::deck_news(k1, deck, res) =~= Seq::empty());
                    assert(crate::keeper::deck_told(k1, deck, res).told =~= k1.told);
                    assert(crate::keeper::deck_told(k1, deck, res) == k1);
                    let rest = crate::updated::decks_updated(w, k1, rb, quiet, next);
                    assert(Seq::<OutputView>::empty() + rest.out =~= rest.out);
                },
                Settled::Done(None) => {
                    lemma_decks_repeat(w, k, rb, f, next);
                },
                Settled::Fault(_) => {},
            }
        }
    }
}

/// Where visiting the decks tells nothing and changes nothing, it does so in a slow update, too,
/// which then looks at the tracks.
pub(crate) proof fn lemma_silent_decks(w: World, k: KeeperView, rb: RekordboxView, deck: usize)
    requires
        k.wf(),
        k.decks <= k.trackers.len(),
        crate::updated::decks_updated(
            w,
            k,
            rb,
            (Flags { slow: false, master_changed: false, track_changed: false }),
            deck,
        ) == crate::updated::ended(k, Settled::Done(Ok(()))),
    ensures
        ({
            let f = Flags { slow: true, master_changed: false, track_changed: false };
            crate::updated::decks_updated(w, k, rb, f, deck) == crate::updated::tracks_updated(
                w,
                k,
                rb,
                f,
            )
        }),
    decreases k.decks - deck,
{
    let fast = Flags { slow: false, master_changed: false, track_changed: false };
    let f = Flags { slow: true, master_changed: false, track_changed: false };
    let next = (deck + 1) as usize;
    if deck < k.decks {
        if !k.follows(deck) {
            lemma_silent_decks(w, k, rb, next);
        } else {
            match crate::updated::deck_state(w, k, rb, deck) {
                Settled::Done(Some(res)) => {
                    let k1 = crate::keeper::deck_told(k, deck, res);
                    let news = crate::keeper::deck_news(k, deck, res);
                    let rest = crate::updated::decks_updated(w, k1, rb, fast, next);
                    lemma_decks_leave(w, k1, rb, fast, next);
                    assert((news + rest.out).len() == 0);
                    assert(news =~= Seq::empty());
                    assert(rest.out =~= Seq::empty());
                    assert(rest.keeper.told[deck as int] == k1.told[deck as int]);
                    assert(k1.told =~= k.told);
                    assert(k1 == k);
                    lemma_silent_decks(w, k, rb, next);
                    let after = crate::updated::decks_updated(w, k, rb, f, next);
                    assert(news + after.out =~= after.out);
                },
                Settled::Done(None) => {
                    lemma_silent_decks(w, k, rb, next);
                },
                Settled::Fault(_) => {},
            }
        }
    }
}

/// The two keepers have the same beat grid for each deck.
pub open spec fn same_grids(a: KeeperView, b: KeeperView) -> bool {
    forall|d: int|
        0 <= d < a.trackers.len() ==> (#[trigger] a.trackers[d]).beatgrid == b.trackers[d].beatgrid
}

/// Of the decks a slow update tells what any other one does, and then it looks at the tracks.
proof fn lemma_decks_come_first(w: World, k: KeeperView, rb: RekordboxView, f: Flags, deck: usize)
    requires
        k.wf(),
        k.decks <= k.trackers.len(),
        f.slow,
        !(crate::updated::decks_updated(w, k, rb, f, deck).end is Fault),
    ensures
        ({
            let quiet = Flags { slow: false, master_changed: false, track_changed: false };
            let fast = crate::updated::decks_updated(w, k, rb, quiet, deck);
            let tracks = crate::updated::tracks_updated(w, fast.keeper, rb, f);
            let slow = crate::updated::decks_updated(w, k, rb, f, deck);
            &&& !(fast.end is Fault)
            &&& slow.keeper == tracks.keeper
            &&& slow.end == tracks.end
        }),
    decreases k.decks - deck,
{
    let next = (deck + 1) as usize;
    if deck < k.decks {
        if !k.follows(deck) {
            lemma_decks_come_first(w, k, rb, f, next);
        } else {
            match crate::updated::deck_state(w, k, rb, deck) {
                Settled::Done(Some(res)) => {
                    let k1 = crate::keeper::deck_told(k, deck, res);
                    lemma_decks_come_first(w, k1, rb, f, next);
                },
                Settled::Done(None) => {
                    lemma_decks_come_first(w, k, rb, f, next);
                },
                Settled::Fault(_) => {},
            }
        }
    }
}

/// Whether visiting the decks tells nothing rests on what was told and on the beat grids, and not
/// on the tracks and paths.
proof fn lemma_silence_carries_over(w: World, a: KeeperView, b: KeeperView, rb: RekordboxView, deck: usize)
    requires
        a.wf(),
        b.wf(),
        a.decks <= a.trackers.len(),
        same_settings(b, a),
        same_told(b, a),
        same_grids(a, b),
        crate::updated::decks_updated(
            w,
            a,
            rb,
            (Flags { slow: false, master_changed: false, track_changed: false }),
            deck,
        ) == crate::updated::ended(a, Settled::Done(Ok(()))),
    ensures
        crate::updated::decks_updated(
            w,
            b,
            rb,
            (Flags { slow: false, master_changed: false, track_changed: false }),
            deck,
        ) == crate::updated::ended(b, Settled::Done(Ok(()))),
    decreases a.decks - deck,
{
    let quiet = Flags { slow: false, master_changed: false, track_changed: false };
    let next = (deck + 1) as usize;
    if deck < a.decks {
        if !a.follows(deck) {
            lemma_silence_carries_over(w, a, b, rb, next);
        } else {
            lemma_same_state(w, a, b, rb, deck);
            match crate::updated::deck_state(w, a, rb, deck) {
                Settled::Done(Some(res)) => {
                    let a1 = crate::keeper::deck_told(a, deck, res);
                    let news = crate::keeper::deck_news(a, deck, res);
                    let rest = crate::updated::decks_updated(w, a1, rb, quiet, next);
                    lemma_decks_leave(w, a1, rb, quiet, next);
                    assert((news + rest.out).len() == 0);
                    assert(news =~= Seq::empty());
                    assert(rest.out =~= Seq::empty());
                    assert(rest.keeper.told[deck as int] == a1.told[deck as int]);
                    assert(a1.told =~= a.told);
                    assert(a1 == a);
                    assert(crate::keeper::deck_told(b, deck, res) == b);
                    lemma_silence_carries_over(w, a, b, rb, next);
                    assert(news + Seq::<OutputView>::empty() =~= Seq::empty());
                },
                Settled::Done(None) => {
                    lemma_silence_carries_over(w, a, b, rb, next);
                },
                Settled::Fault(_) => {},
            }
        }
    }
}

/// After a slow update that left every beat grid as it was, visiting the decks again tells nothing.
pub(crate) proof fn lemma_decks_are_silent_after_slow_update(
    w: World,
    k: KeeperView,
    rb: RekordboxView,
    f: Flags,
)
    requires
        k.wf(),
        k.decks <= k.trackers.len(),
        f.slow,
        !(crate::updated::decks_updated(w, k, rb, f, 0).end is Fault),
        same_grids(k, crate::updated::decks_updated(w, k, rb, f, 0).keeper),
        reads_properly(w, crate::updated::decks_updated(w, k, rb, f, 0).keeper, rb),
    ensures
        ({
            let k1 = crate::updated::decks_updated(w, k, rb, f, 0).keeper;
            let quiet = Flags { slow: false, master_changed: false, track_changed: false };
            crate::updated::decks_updated(w, k1, rb, quiet, 0) == crate::updated::ended(
                k1,
                Settled::Done(Ok(())),
            )
        }),
{
    let k1 = crate::updated::decks_updated(w, k, rb, f, 0).keeper;
    let quiet = Flags { slow: false, master_changed: false, track_changed: false };
    let kf = crate::updated::decks_updated(w, k, rb, quiet, 0).keeper;
    lemma_decks_come_first(w, k, rb, f, 0);
    lemma_decks_leave(w, k, rb, quiet, 0);
    lemma_decks_keep_settings(w, k, rb, f, 0);
    lemma_tracks_keep_settings(w, kf, rb, f);
    assert forall|d: usize| d < k.decks && k.follows(d) && d < rb.deckcount implies (
    #[trigger] crate::updated::deck_state(w, k, rb, d) matches Settled::Done(Some(r))
        ==> is_proper(r)) by {
        assert(k.trackers[d as int].beatgrid == k1.trackers[d as int].beatgrid);
        lemma_same_state(w, k1, k, rb, d);
    }
    lemma_decks_repeat(w, k, rb, quiet, 0);
    lemma_silence_carries_over(w, kf, k1, rb, 0);
}

/// An update that finds everything as the one before left it tells nothing and changes nothing.
pub proof fn lemma_repeated_update_is_silent(w: World, k: KeeperView, rb: RekordboxView)
    requires
        k.wf(),
        rb.wf(),
        crate::updated::updated(w, k, rb, false).end == Settled::<
            Result<(), crate::memory::ReadErrorView>,
        >::Done(Ok(())),
        reads_properly(w, crate::updated::updated(w, k, rb, false).keeper, rb),
    ensures
        ({
            let k1 = crate::updated::updated(w, k, rb, false).keeper;
            crate::updated::updated(w, k1, rb, false) == crate::updated::ended(
                k1,
                Settled::Done(Ok(())),
            )
        }),
{
    let u = crate::updated::updated(w, k, rb, false);
    match (w.byte)(rb.masterdeck_index) {
        Ok(n) => {
            let master = n as usize;
            let k0 = KeeperView { master, ..k };
            let f = Flags { slow: false, master_changed: k.master != master, track_changed: false };
            if master < rb.deckcount {
                lemma_decks_leave(w, k0, rb, f, 0);
                assert forall|d: usize| d < k0.decks && k0.follows(d) && d < rb.deckcount implies (
                #[trigger] crate::updated::deck_state(w, k0, rb, d) matches Settled::Done(Some(r))
                    ==> is_proper(r)) by {
                    lemma_same_state(w, k0, u.keeper, rb, d);
                }
                lemma_decks_repeat(w, k0, rb, f, 0);
            }
        },
        Err(_) => {},
    }
}

/// After an update, what was told last of each deck that is followed and can be read agrees with
/// what was found out about it; and so it does for the master deck.
pub proof fn lemma_modules_are_up_to_date(
    w: World,
    k: KeeperView,
    rb: RekordboxView,
    slow: bool,
    deck: usize,
    res: TrackTrackerResult,
)
    requires
        k.wf(),
        rb.wf(),
        !(crate::updated::updated(w, k, rb, slow).end is Fault),
        (w.byte)(rb.masterdeck_index) is Ok,
        crate::updated::updated(w, k, rb, slow).keeper.master < rb.deckcount,
        deck < k.decks,
        deck == crate::updated::updated(w, k, rb, slow).keeper.master || k.keep_warm,
        crate::updated::deck_state(w, k, rb, deck) == Settled::Done(Some(res)),
        is_proper(res),
    ensures
        ({
            let k1 = crate::updated::updated(w, k, rb, slow).keeper;
            &&& agrees(k1.told[deck as int], res)
            &&& deck == k1.master ==> agrees(k1.master_told, res)
        }),
{
    match (w.byte)(rb.masterdeck_index) {
        Ok(n) => {
            let master = n as usize;
            let k0 = KeeperView { master, ..k };
            let f = Flags { slow, master_changed: k.master != master, track_changed: false };
            lemma_same_state(w, k, k0, rb, deck);
            if master < rb.deckcount && k.decks <= k.trackers.len() {
                lemma_decks_keep_settings(w, k0, rb, f, 0);
                lemma_deck_is_told(w, k0, rb, f, 0, deck, res);
            }
        },
        Err(_) => {},
    }
}

proof fn lemma_deck_is_told(
    w: World,
    k: KeeperView,
    rb: RekordboxView,
    f: Flags,
    from: usize,
    deck: usize,
    res: TrackTrackerResult,
)
    requires
        k.wf(),
        from <= deck < k.decks <= k.trackers.len(),
        k.follows(deck),
        !(crate::updated::decks_updated(w, k, rb, f, from).end is Fault),
        crate::updated::deck_state(w, k, rb, deck) == Settled::Done(Some(res)),
        is_proper(res),
    ensures
        ({
            let k1 = crate::updated::decks_updated(w, k, rb, f, from).keeper;
            &&& agrees(k1.told[deck as int], res)
            &&& deck == k.master ==> agrees(k1.master_told, res)
        }),
    decreases k.decks - from,
{
    let next = (from + 1) as usize;
    if from == deck {
        let k2 = crate::keeper::deck_told(k, deck, res);
        lemma_decks_leave(w, k2, rb, f, next);
        lemma_result_is_told_once(k.told[deck as int], res, Target::Deck(deck));
        lemma_result_is_told_once(k.master_told, res, Target::Master);
        let k1 = crate::updated::decks_updated(w, k, rb, f, from).keeper;
        assert(k1.told[deck as int] == k2.told[deck as int]);
    } else if !k.follows(from) {
        lemma_deck_is_told(w, k, rb, f, next, deck, res);
    } else {
        match crate::updated::deck_state(w, k, rb, from) {
            Settled::Done(Some(r)) => {
                let k2 = crate::keeper::deck_told(k, from, r);
                lemma_same_state(w, k, k2, rb, deck);
                lemma_deck_is_told(w, k2, rb, f, next, deck, res);
            },
            Settled::Done(None) => {
                lemma_deck_is_told(w, k, rb, f, next, deck, res);
            },
            Settled::Fault(_) => {},
        }
    }
}

/// The output tells nothing about this deck.
pub open spec fn spares(o: OutputView, deck: usize) -> bool {
    o matches OutputView::Notify(batch) ==> forall|i: int|
        0 <= i < batch.len() ==> target_of(#[trigger] batch[i]) != Some(Target::Deck(deck))
}

/// What a notification is about.
pub open spec fn target_of(n: NotificationView) -> Option<Target> {
    match n {
        NotificationView::Beat(_, t) => Some(t),
        NotificationView::Time(_, t) => Some(t),
        NotificationView::Bpm(_, t) => Some(t),
        NotificationView::OriginalBpm(_, t) => Some(t),
        NotificationView::Track(_, t) => Some(t),
        NotificationView::SlowUpdate => None,
    }
}

proof fn lemma_news_are_about_their_target(
    t: TrackingDataTracker,
    res: TrackTrackerResult,
    target: Target,
)
    ensures
        forall|i: int|
            0 <= i < crate::track::news(t, res, target).len() ==> target_of(
                #[trigger] crate::track::news(t, res, target)[i],
            ) == Some(target),
{
}

proof fn lemma_decks_spare(w: World, k: KeeperView, rb: RekordboxView, f: Flags, from: usize, deck: usize)
    requires
        !f.slow,
        k.wf(),
        k.decks <= k.trackers.len(),
        !k.follows(deck),
    ensures
        ({
            let u = crate::updated::decks_updated(w, k, rb, f, from);
            &&& deck < k.told.len() ==> u.keeper.told[deck as int] == k.told[deck as int]
            &&& forall|i: int| 0 <= i < u.out.len() ==> spares(#[trigger] u.out[i], deck)
        }),
    decreases k.decks - from,
{
    let next = (from + 1) as usize;
    if from < k.decks {
        if !k.follows(from) {
            lemma_decks_spare(w, k, rb, f, next, deck);
        } else if from < rb.deckcount {
            match crate::updated::deck_state(w, k, rb, from) {
                Settled::Done(Some(res)) => {
                    let k2 = crate::keeper::deck_told(k, from, res);
                    lemma_decks_spare(w, k2, rb, f, next, deck);
                    lemma_news_are_about_their_target(
                        k.told[from as int],
                        res,
                        Target::Deck(from),
                    );
                    lemma_news_are_about_their_target(k.master_told, res, Target::Master);
                    let news = crate::keeper::deck_news(k, from, res);
                    assert forall|i: int| 0 <= i < news.len() implies spares(
                        #[trigger] news[i],
                        deck,
                    ) by {}
                },
                Settled::Done(None) => {
                    lemma_decks_spare(w, k, rb, f, next, deck);
                },
                Settled::Fault(_) => {},
            }
        }
    }
}

/// Where only the master deck is followed, an update tells nothing about any other deck.
pub proof fn lemma_other_decks_are_spared(w: World, k: KeeperView, rb: RekordboxView, deck: usize)
    requires
        k.wf(),
        rb.wf(),
        !k.keep_warm,
        deck != crate::updated::updated(w, k, rb, false).keeper.master,
    ensures
        ({
            let u = crate::updated::updated(w, k, rb, false);
            &&& deck < k.told.len() ==> u.keeper.told[deck as int] == k.told[deck as int]
            &&& forall|i: int| 0 <= i < u.out.len() ==> spares(#[trigger] u.out[i], deck)
        }),
{
    match (w.byte)(rb.masterdeck_index) {
        Ok(n) => {
            let master = n as usize;
            let k0 = KeeperView { master, ..k };
            let f = Flags { slow: false, master_changed: k.master != master, track_changed: false };
            if master < rb.deckcount && k.decks <= k.trackers.len() {
                lemma_decks_leave(w, k0, rb, f, 0);
                lemma_decks_spare(w, k0, rb, f, 0, deck);
            }
        },
        Err(_) => {},
    }
}

/// An update leaves alone what it is not about: the compensation, which decks are followed, and
/// the error that was reported last. There stays a slot for every deck.
pub proof fn lemma_update_keeps_settings(w: World, k: KeeperView, rb: RekordboxView, slow: bool)
    requires
        k.wf(),
        rb.wf(),
    ensures
        ({
            let k1 = crate::updated::updated(w, k, rb, slow).keeper;
            &&& k1.wf()
            &&& k1.offset_samples == k.offset_samples
            &&& k1.keep_warm == k.keep_warm
            &&& k1.decks == k.decks
            &&& k1.last_error == k.last_error
        }),
{
    match (w.byte)(rb.masterdeck_index) {
        Ok(n) => {
            let k0 = KeeperView { master: n as usize, ..k };
            let f = Flags { slow, master_changed: k.master != n as usize, track_changed: false };
            if k.decks <= k.trackers.len() {
                lemma_decks_keep_settings(w, k0, rb, f, 0);
            }
        },
        Err(_) => {},
    }
}

/// The decks, tracks and files do not change which deck is the master.
pub(crate) proof fn lemma_update_keeps_master(w: World, k: KeeperView, rb: RekordboxView, f: Flags)
    requires
        k.wf(),
        k.decks <= k.trackers.len(),
    ensures
        crate::updated::decks_updated(w, k, rb, f, 0).keeper.master == k.master,
{
    lemma_decks_keep_settings(w, k, rb, f, 0);
}

/// The first keeper has a slot for every deck, and the settings of the second.
spec fn same_settings(a: KeeperView, b: KeeperView) -> bool {
    &&& a.wf()
    &&& a.offset_samples == b.offset_samples
    &&& a.keep_warm == b.keep_warm
    &&& a.decks == b.decks
    &&& a.last_error == b.last_error
    &&& a.master == b.master
}

/// The same was told last according to the two keepers.
spec fn same_told(a: KeeperView, b: KeeperView) -> bool {
    a.told == b.told && a.master_told == b.master_told
}

proof fn lemma_decks_keep_settings(w: World, k: KeeperView, rb: RekordboxView, f: Flags, deck: usize)
    requires
        k.wf(),
        k.decks <= k.trackers.len(),
    ensures
        same_settings(crate::updated::decks_updated(w, k, rb, f, deck).keeper, k),
    decreases k.decks - deck,
{
    let next = (deck + 1) as usize;
    if deck >= k.decks {
        lemma_tracks_keep_settings(w, k, rb, f);
    } else {
        lemma_decks_keep_settings(w, k, rb, f, next);
        match crate::updated::deck_state(w, k, rb, deck) {
            Settled::Done(Some(res)) => {
                lemma_decks_keep_settings(
                    w,
                    crate::keeper::deck_told(k, deck, res),
                    rb,
                    f,
                    next,
                );
            },
            _ => {},
        }
    }
}

proof fn lemma_taking_tracks_keeps_settings(k: KeeperView, texts: Seq<Seq<char>>, deck: int)
    requires
        k.wf(),
        0 <= deck,
    ensures
        same_settings(crate::keeper::take_tracks(k, texts, deck).keeper, k),
        same_told(crate::keeper::take_tracks(k, texts, deck).keeper, k),
    decreases texts.len() - deck,
{
    if deck < texts.len() && deck < k.track_infos.len() {
        let track = crate::output::described_track(texts[deck]);
        lemma_taking_tracks_keeps_settings(k, texts, deck + 1);
        lemma_taking_tracks_keeps_settings(
            crate::keeper::track_loaded(k, deck, track),
            texts,
            deck + 1,
        );
    }
}

proof fn lemma_files_keep_settings(w: World, k: KeeperView, f: Flags, paths: Seq<Seq<char>>, deck: int)
    requires
        k.wf(),
        0 <= deck,
    ensures
        same_settings(crate::updated::files_updated(w, k, f, paths, deck).keeper, k),
        same_told(crate::updated::files_updated(w, k, f, paths, deck).keeper, k),
    decreases paths.len() - deck,
{
    if deck < paths.len() && deck < k.anlz_paths.len() {
        let k1 = crate::updated::path_set(k, deck, paths[deck]);
        lemma_files_keep_settings(w, k, f, paths, deck + 1);
        lemma_files_keep_settings(w, k1, f, paths, deck + 1);
        match (w.file)(paths[deck]) {
            Some(bytes) => match crate::anlz::analysis(bytes) {
                Some(Some(beats)) => {
                    lemma_files_keep_settings(
                        w,
                        crate::keeper::grid_loaded(
                            k1,
                            deck as usize,
                            beats,
                            crate::track::beat_times(beats).map_values(w.grid_second),
                        ),
                        f,
                        paths,
                        deck + 1,
                    );
                },
                _ => {},
            },
            None => {},
        }
    }
}

proof fn lemma_tracks_keep_settings(w: World, k: KeeperView, rb: RekordboxView, f: Flags)
    requires
        k.wf(),
    ensures
        same_settings(crate::updated::tracks_updated(w, k, rb, f).keeper, k),
        same_told(crate::updated::tracks_updated(w, k, rb, f).keeper, k),
{
    match crate::whole::texts_at(
        w,
        rb.track_infos,
        crate::reading::TRACK_INFO_SIZE,
        Seq::empty(),
    ) {
        Settled::Done(Ok(texts)) => {
            let taken = crate::keeper::take_tracks(k, texts, 0);
            lemma_taking_tracks_keeps_settings(k, texts, 0);
            match crate::whole::texts_at(
                w,
                rb.anlz_paths,
                crate::reading::ANLZ_PATH_SIZE,
                Seq::empty(),
            ) {
                Settled::Done(Ok(paths)) => {
                    lemma_files_keep_settings(
                        w,
                        taken.keeper,
                        Flags { track_changed: taken.master, ..f },
                        paths,
                        0,
                    );
                },
                _ => {},
            }
        },
        _ => {},
    }
}

} // verus!
