//! What is told of the track on the master deck.
use crate::keeper::{Flags, KeeperView};
use crate::memory::ReadErrorView;
use crate::output::{NotificationView, OutputView, Target, TrackInfoView};
use crate::protocol::{Settled, World};
use crate::rekordbox::RekordboxView;
use vstd::prelude::*;

verus! {

/// The track that a notification tells to be on the master deck, if it tells that.
pub open spec fn told_by_notification(n: NotificationView) -> Seq<TrackInfoView> {
    match n {
        NotificationView::Track(track, Target::Master) => seq![track],
        _ => Seq::empty(),
    }
}

/// The tracks that notifications tell to be on the master deck, in order.
pub open spec fn told_by_batch(batch: Seq<NotificationView>) -> Seq<TrackInfoView>
    decreases batch.len(),
{
    if batch.len() == 0 {
        Seq::empty()
    } else {
        told_by_batch(batch.drop_last()) + told_by_notification(batch.last())
    }
}

/// The tracks that an output tells to be on the master deck.
pub open spec fn told_by_output(o: OutputView) -> Seq<TrackInfoView> {
    match o {
        OutputView::Notify(batch) => told_by_batch(batch),
        _ => Seq::empty(),
    }
}

/// The tracks that each module is told to be on the master deck, in order.
pub open spec fn master_tracks(out: Seq<OutputView>) -> Seq<TrackInfoView>
    decreases out.len(),
{
    if out.len() == 0 {
        Seq::empty()
    } else {
        master_tracks(out.drop_last()) + told_by_output(out.last())
    }
}

/// The track on the master deck, if it is to be told.
pub open spec fn master_track_if(changed: bool, k: KeeperView) -> Seq<TrackInfoView> {
    if changed {
        seq![k.track_infos[k.master as int]]
    } else {
        Seq::empty()
    }
}

proof fn lemma_master_tracks_in_parts(a: Seq<OutputView>, b: Seq<OutputView>)
    ensures
        master_tracks(a + b) == master_tracks(a) + master_tracks(b),
    decreases b.len(),
{
    if b.len() == 0 {
        assert(a + b =~= a);
        assert(master_tracks(a) + master_tracks(b) =~= master_tracks(a));
    } else {
        lemma_master_tracks_in_parts(a, b.drop_last());
        assert((a + b).drop_last() =~= a + b.drop_last());
        assert((a + b).last() == b.last());
        assert(master_tracks(a + b) =~= master_tracks(a) + master_tracks(b));
    }
}

proof fn lemma_one_output(o: OutputView)
    ensures
        master_tracks(seq![o]) == told_by_output(o),
{
    reveal_with_fuel(master_tracks, 2);
    assert(seq![o].drop_last() =~= Seq::empty());
    assert(master_tracks(seq![o]) =~= told_by_output(o));
}

proof fn lemma_one_notification(n: NotificationView)
    ensures
        master_tracks(seq![OutputView::Notify(seq![n])]) == told_by_notification(n),
{
    lemma_one_output(OutputView::Notify(seq![n]));
    reveal_with_fuel(told_by_batch, 2);
    assert(seq![n].drop_last() =~= Seq::empty());
    assert(told_by_batch(seq![n]) =~= told_by_notification(n));
}

proof fn lemma_batch_without_tracks(batch: Seq<NotificationView>)
    requires
        forall|i: int| 0 <= i < batch.len() ==> !(#[trigger] batch[i] is Track),
    ensures
        told_by_batch(batch) == Seq::<TrackInfoView>::empty(),
    decreases batch.len(),
{
    if batch.len() > 0 {
        lemma_batch_without_tracks(batch.drop_last());
        assert(!(batch.last() is Track));
        assert(told_by_batch(batch) =~= Seq::empty());
    }
}

/// The values of a deck are no tracks.
proof fn lemma_deck_news_tell_no_track(
    k: KeeperView,
    deck: usize,
    res: crate::track::TrackTrackerResult,
)
    ensures
        master_tracks(crate::keeper::deck_news(k, deck, res)) == Seq::<TrackInfoView>::empty(),
{
    let own = crate::track::news(k.told[deck as int], res, Target::Deck(deck));
    let masters = crate::track::news(k.master_told, res, Target::Master);
    lemma_batch_without_tracks(own);
    lemma_batch_without_tracks(masters);
    lemma_one_output(OutputView::Notify(own));
    lemma_one_output(OutputView::Notify(masters));
    lemma_master_tracks_in_parts(crate::keeper::telling(own), crate::keeper::telling(masters));
    assert(Seq::<TrackInfoView>::empty() + Seq::empty() =~= Seq::empty());
}

proof fn lemma_finish_tells(k: KeeperView, f: Flags)
    requires
        !(crate::updated::finished(k, f).end is Fault),
    ensures
        master_tracks(crate::updated::finished(k, f).out) == master_track_if(
            f.master_changed || f.track_changed,
            k,
        ),
        crate::updated::finished(k, f).keeper == k,
        crate::updated::finished(k, f).end == Settled::<Result<(), ReadErrorView>>::Done(Ok(())),
{
    if f.master_changed || f.track_changed {
        let track = k.track_infos[k.master as int];
        let logged = seq![OutputView::LogMasterTrack(track)];
        let told = seq![OutputView::Notify(seq![NotificationView::Track(track, Target::Master)])];
        lemma_one_output(OutputView::LogMasterTrack(track));
        lemma_one_notification(NotificationView::Track(track, Target::Master));
        lemma_master_tracks_in_parts(logged, told);
        assert(crate::updated::finished(k, f).out =~= logged + told);
        assert(Seq::<TrackInfoView>::empty() + seq![track] =~= seq![track]);
    }
}

proof fn lemma_print_first(line: Seq<char>, out: Seq<OutputView>)
    ensures
        master_tracks(seq![OutputView::Print(line)] + out) == master_tracks(out),
{
    lemma_one_output(OutputView::Print(line));
    lemma_master_tracks_in_parts(seq![OutputView::Print(line)], out);
    assert(Seq::<TrackInfoView>::empty() + master_tracks(out) =~= master_tracks(out));
}

proof fn lemma_files_tell(w: World, k: KeeperView, f: Flags, paths: Seq<Seq<char>>, deck: int)
    requires
        k.wf(),
        0 <= deck,
        !(crate::updated::files_updated(w, k, f, paths, deck).end is Fault),
    ensures
        master_tracks(crate::updated::files_updated(w, k, f, paths, deck).out) == master_track_if(
            f.master_changed || f.track_changed,
            crate::updated::files_updated(w, k, f, paths, deck).keeper,
        ),
    decreases paths.len() - deck,
{
    if deck >= paths.len() {
        let out = crate::updated::finished(k, f).out;
        lemma_finish_tells(k, f);
        lemma_one_notification(NotificationView::SlowUpdate);
        lemma_master_tracks_in_parts(
            seq![OutputView::Notify(seq![NotificationView::SlowUpdate])],
            out,
        );
        assert(Seq::<TrackInfoView>::empty() + master_tracks(out) =~= master_tracks(out));
    } else if k.anlz_paths[deck] == paths[deck] {
        lemma_files_tell(w, k, f, paths, deck + 1);
    } else {
        let k1 = crate::updated::path_set(k, deck, paths[deck]);
        let changed = "Anlz path changed: "@ + paths[deck];
        match (w.file)(paths[deck]) {
            None => {
                let failed = "Failed to read anlz file: "@ + paths[deck];
                let rest = crate::updated::files_updated(w, k1, f, paths, deck + 1).out;
                lemma_files_tell(w, k1, f, paths, deck + 1);
                lemma_print_first(failed, rest);
                lemma_print_first(changed, seq![OutputView::Print(failed)] + rest);
            },
            Some(bytes) => match crate::anlz::analysis(bytes) {
                None => {},
                Some(None) => {
                    lemma_files_tell(w, k1, f, paths, deck + 1);
                    lemma_print_first(
                        changed,
                        crate::updated::files_updated(w, k1, f, paths, deck + 1).out,
                    );
                },
                Some(Some(beats)) => {
                    let k2 = crate::keeper::grid_loaded(
                        k1,
                        deck as usize,
                        beats,
                        crate::track::beat_times(beats).map_values(w.grid_second),
                    );
                    lemma_files_tell(w, k2, f, paths, deck + 1);
                    lemma_print_first(
                        changed,
                        crate::updated::files_updated(w, k2, f, paths, deck + 1).out,
                    );
                },
            },
        }
    }
}

proof fn lemma_taking_tracks_tells_no_master(k: KeeperView, texts: Seq<Seq<char>>, deck: int)
    ensures
        master_tracks(crate::keeper::take_tracks(k, texts, deck).out) == Seq::<
            TrackInfoView,
        >::empty(),
    decreases texts.len() - deck,
{
    if deck < texts.len() && deck < k.track_infos.len() {
        let track = crate::output::described_track(texts[deck]);
        lemma_taking_tracks_tells_no_master(k, texts, deck + 1);
        if k.track_infos[deck] != track {
            let k1 = crate::keeper::track_loaded(k, deck, track);
            let n = NotificationView::Track(track, Target::Deck(deck as usize));
            lemma_taking_tracks_tells_no_master(k1, texts, deck + 1);
            lemma_one_notification(n);
            lemma_master_tracks_in_parts(
                seq![OutputView::Notify(seq![n])],
                crate::keeper::take_tracks(k1, texts, deck + 1).out,
            );
            assert(Seq::<TrackInfoView>::empty() + Seq::empty() =~= Seq::empty());
        }
    }
}

/// The description of the track on the master deck is another one than before.
pub open spec fn master_track_changes(w: World, k: KeeperView, rb: RekordboxView) -> bool {
    crate::slow::track_texts(w, rb) matches Settled::Done(Ok(texts)) && k.master < texts.len()
        && k.track_infos[k.master as int] != crate::output::described_track(
        texts[k.master as int],
    )
}

proof fn lemma_decks_tell(w: World, k: KeeperView, rb: RekordboxView, f: Flags, deck: usize)
    requires
        k.wf(),
        k.decks <= k.trackers.len(),
        !f.track_changed,
        crate::updated::decks_updated(w, k, rb, f, deck).end == Settled::<
            Result<(), ReadErrorView>,
        >::Done(Ok(())),
    ensures
        master_tracks(crate::updated::decks_updated(w, k, rb, f, deck).out) == master_track_if(
            f.master_changed || (f.slow && master_track_changes(w, k, rb)),
            crate::updated::decks_updated(w, k, rb, f, deck).keeper,
        ),
    decreases k.decks - deck,
{
    let next = (deck + 1) as usize;
    if deck >= k.decks {
        if f.slow {
            let texts = crate::slow::track_texts(w, rb)->Done_0->Ok_0;
            let paths = crate::slow::path_texts(w, rb)->Done_0->Ok_0;
            let taken = crate::keeper::take_tracks(k, texts, 0);
            let f1 = Flags { track_changed: taken.master, ..f };
            let rest = crate::updated::files_updated(w, taken.keeper, f1, paths, 0).out;
            crate::slow::lemma_tracks_taken(k, texts, 0);
            lemma_taking_tracks_tells_no_master(k, texts, 0);
            lemma_files_tell(w, taken.keeper, f1, paths, 0);
            lemma_master_tracks_in_parts(taken.out, rest);
            assert(Seq::<TrackInfoView>::empty() + master_tracks(rest) =~= master_tracks(rest));
        } else {
            lemma_finish_tells(k, f);
        }
    } else if !k.follows(deck) {
        lemma_decks_tell(w, k, rb, f, next);
    } else {
        match crate::updated::deck_state(w, k, rb, deck) {
            Settled::Done(Some(res)) => {
                let k1 = crate::keeper::deck_told(k, deck, res);
                let news = crate::keeper::deck_news(k, deck, res);
                let rest = crate::updated::decks_updated(w, k1, rb, f, next).out;
                lemma_decks_tell(w, k1, rb, f, next);
                lemma_deck_news_tell_no_track(k, deck, res);
                lemma_master_tracks_in_parts(news, rest);
                assert(Seq::<TrackInfoView>::empty() + master_tracks(rest) =~= master_tracks(rest));
            },
            Settled::Done(None) => {
                lemma_decks_tell(w, k, rb, f, next);
            },
            Settled::Fault(_) => {},
        }
    }
}

/// An update that succeeds, with a master deck that is connected, tells each module once which
/// track is on the master deck, if another deck is the master than before or, in a slow update,
/// another track is on it; and not at all otherwise.
pub proof fn lemma_master_track_is_told(w: World, k: KeeperView, rb: RekordboxView, slow: bool)
    requires
        k.wf(),
        rb.wf(),
        crate::updated::updated(w, k, rb, slow).end == Settled::<
            Result<(), ReadErrorView>,
        >::Done(Ok(())),
        crate::updated::updated(w, k, rb, slow).keeper.master < rb.deckcount,
    ensures
        ({
            let u = crate::updated::updated(w, k, rb, slow);
            let master = u.keeper.master;
            master_tracks(u.out) == master_track_if(
                master != k.master || (slow && master_track_changes(
                    w,
                    (KeeperView { master, ..k }),
                    rb,
                )),
                u.keeper,
            )
        }),
{
    match (w.byte)(rb.masterdeck_index) {
        Ok(n) => {
            let master = n as usize;
            let k0 = KeeperView { master, ..k };
            let f = Flags { slow, master_changed: k.master != master, track_changed: false };
            if master < rb.deckcount {
                lemma_decks_tell(w, k0, rb, f, 0);
                crate::repeat::lemma_update_keeps_master(w, k0, rb, f);
            }
        },
        Err(_) => {},
    }
}

/// Whatever number is read for the master deck is remembered, even if there is no such deck, and
/// whatever becomes of the update. Where there is no such deck, nothing else changes and nothing is
/// told. Where no number can be read, the old one stays.
pub proof fn lemma_master_is_remembered(w: World, k: KeeperView, rb: RekordboxView, slow: bool)
    requires
        k.wf(),
        rb.wf(),
    ensures
        ({
            let u = crate::updated::updated(w, k, rb, slow);
            match (w.byte)(rb.masterdeck_index) {
                Ok(n) => {
                    &&& u.keeper.master == n as usize
                    &&& n >= rb.deckcount ==> u == crate::updated::ended(
                        (KeeperView { master: n as usize, ..k }),
                        Settled::Done(Ok(())),
                    )
                },
                Err(_) => u.keeper == k && u.out.len() == 0,
            }
        }),
{
    match (w.byte)(rb.masterdeck_index) {
        Ok(n) => {
            let k0 = KeeperView { master: n as usize, ..k };
            let f = Flags { slow, master_changed: k.master != n as usize, track_changed: false };
            if n < rb.deckcount && k.decks <= k.trackers.len() {
                crate::repeat::lemma_update_keeps_master(w, k0, rb, f);
            }
        },
        Err(_) => {},
    }
}

/// A deck that is the master again after a number that belongs to no deck counts as another master:
/// the update that succeeds with it tells each module once which track is on it. If that update is
/// no slow one, it is the track that was on the deck before.
pub proof fn lemma_returning_master_is_told(
    first: World,
    gap: World,
    last: World,
    k: KeeperView,
    rb: RekordboxView,
    slow: (bool, bool, bool),
    master: u8,
    missing: u8,
)
    requires
        k.wf(),
        rb.wf(),
        master < rb.deckcount <= missing,
        (first.byte)(rb.masterdeck_index) == Ok::<u8, crate::memory::MemoryError>(master),
        (gap.byte)(rb.masterdeck_index) == Ok::<u8, crate::memory::MemoryError>(missing),
        (last.byte)(rb.masterdeck_index) == Ok::<u8, crate::memory::MemoryError>(master),
        ({
            let k1 = crate::updated::updated(first, k, rb, slow.0).keeper;
            let k2 = crate::updated::updated(gap, k1, rb, slow.1).keeper;
            crate::updated::updated(last, k2, rb, slow.2).end == Settled::<
                Result<(), ReadErrorView>,
            >::Done(Ok(()))
        }),
    ensures
        ({
            let k1 = crate::updated::updated(first, k, rb, slow.0).keeper;
            let k2 = crate::updated::updated(gap, k1, rb, slow.1).keeper;
            let u = crate::updated::updated(last, k2, rb, slow.2);
            &&& k1.master == master
            &&& k2.master == missing
            &&& u.keeper.master == master
            &&& master_tracks(u.out) == seq![u.keeper.track_infos[master as int]]
            &&& !slow.2 ==> master_tracks(u.out) == seq![k1.track_infos[master as int]]
        }),
{
    let k1 = crate::updated::updated(first, k, rb, slow.0).keeper;
    let k2 = crate::updated::updated(gap, k1, rb, slow.1).keeper;
    crate::repeat::lemma_update_keeps_settings(first, k, rb, slow.0);
    lemma_master_is_remembered(first, k, rb, slow.0);
    lemma_master_is_remembered(gap, k1, rb, slow.1);
    lemma_master_is_remembered(last, k2, rb, slow.2);
    lemma_master_track_is_told(last, k2, rb, slow.2);
    if !slow.2 {
        let f = Flags { slow: false, master_changed: true, track_changed: false };
        crate::repeat::lemma_decks_leave(
            last,
            KeeperView { master: master as usize, ..k2 },
            rb,
            f,
            0,
        );
    }
}

} // verus!
