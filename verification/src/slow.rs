//! What holds of slow updates, and of updates that follow them.
use crate::keeper::{Flags, KeeperView};
use crate::memory::ReadErrorView;
use crate::output::{NotificationView, OutputView};
use crate::protocol::{Settled, World};
use crate::rekordbox::RekordboxView;
use crate::updated::Updated;
use vstd::prelude::*;

verus! {

/// The descriptions of the tracks that there are.
pub open spec fn track_texts(w: World, rb: RekordboxView) -> Settled<
    Result<Seq<Seq<char>>, ReadErrorView>,
> {
    crate::whole::texts_at(w, rb.track_infos, crate::reading::TRACK_INFO_SIZE, Seq::empty())
}

/// The paths of the analysis files that there are.
pub open spec fn path_texts(w: World, rb: RekordboxView) -> Settled<
    Result<Seq<Seq<char>>, ReadErrorView>,
> {
    crate::whole::texts_at(w, rb.anlz_paths, crate::reading::ANLZ_PATH_SIZE, Seq::empty())
}

/// What taking in descriptions from `deck` on comes to: each deck has the track that is described,
/// and it is known whether that changed the one on the master deck.
pub(crate) proof fn lemma_tracks_taken(k: KeeperView, texts: Seq<Seq<char>>, deck: int)
    requires
        k.wf(),
        0 <= deck <= texts.len(),
        deck <= k.track_infos.len(),
    ensures
        ({
            let taken = crate::keeper::take_tracks(k, texts, deck);
            let k1 = taken.keeper;
            &&& taken.fault == (texts.len() > k.track_infos.len())
            &&& k1.wf()
            &&& k1 == (KeeperView { track_infos: k1.track_infos, trackers: k1.trackers, ..k })
            &&& forall|d: int|
                0 <= d < k.track_infos.len() ==> #[trigger] k1.track_infos[d] == (if deck <= d
                    < texts.len() {
                    crate::output::described_track(texts[d])
                } else {
                    k.track_infos[d]
                })
            &&& !taken.fault ==> taken.master == (deck <= k.master < texts.len()
                && k.track_infos[k.master as int] != crate::output::described_track(
                texts[k.master as int],
            ))
        }),
    decreases texts.len() - deck,
{
    if deck < texts.len() && deck < k.track_infos.len() {
        let track = crate::output::described_track(texts[deck]);
        if k.track_infos[deck] == track {
            lemma_tracks_taken(k, texts, deck + 1);
        } else {
            lemma_tracks_taken(crate::keeper::track_loaded(k, deck, track), texts, deck + 1);
        }
    }
}

/// Taking in the same descriptions again changes nothing and tells nothing.
proof fn lemma_tracks_repeat(k: KeeperView, texts: Seq<Seq<char>>, deck: int)
    requires
        k.wf(),
        0 <= deck <= texts.len() <= k.track_infos.len(),
        forall|d: int|
            deck <= d < texts.len() ==> #[trigger] k.track_infos[d]
                == crate::output::described_track(texts[d]),
    ensures
        ({
            let taken = crate::keeper::take_tracks(k, texts, deck);
            &&& taken.keeper == k
            &&& taken.out == Seq::<OutputView>::empty()
            &&& !taken.master
            &&& !taken.fault
        }),
    decreases texts.len() - deck,
{
    if deck < texts.len() {
        lemma_tracks_repeat(k, texts, deck + 1);
    }
}

/// What looking at the files from `deck` on comes to: each deck has its path, and the tracks stay
/// as they are.
proof fn lemma_paths_taken(w: World, k: KeeperView, f: Flags, paths: Seq<Seq<char>>, deck: int)
    requires
        k.wf(),
        0 <= deck <= paths.len(),
        !(crate::updated::files_updated(w, k, f, paths, deck).end is Fault),
    ensures
        ({
            let k1 = crate::updated::files_updated(w, k, f, paths, deck).keeper;
            &&& paths.len() <= k.anlz_paths.len() || deck == paths.len()
            &&& k1.wf()
            &&& k1.track_infos == k.track_infos
            &&& k1.master == k.master
            &&& k1.decks == k.decks
            &&& forall|d: int|
                0 <= d < k.anlz_paths.len() ==> #[trigger] k1.anlz_paths[d] == (if deck <= d
                    < paths.len() {
                    paths[d]
                } else {
                    k.anlz_paths[d]
                })
        }),
    decreases paths.len() - deck,
{
    if deck < paths.len() && deck < k.anlz_paths.len() {
        if k.anlz_paths[deck] == paths[deck] {
            lemma_paths_taken(w, k, f, paths, deck + 1);
        } else {
            let k1 = crate::updated::path_set(k, deck, paths[deck]);
            match (w.file)(paths[deck]) {
                Some(bytes) => match crate::anlz::analysis(bytes) {
                    Some(Some(beats)) => {
                        lemma_paths_taken(
                            w,
                            crate::keeper::grid_loaded(
                                k1,
                                deck as usize,
                                beats,
                                crate::track::beat_times(beats).map_values(w.grid_second),
                            ),
                            f,
                            paths,
                            deck + 1,
                        );
                    },
                    Some(None) => {
                        lemma_paths_taken(w, k1, f, paths, deck + 1);
                    },
                    None => {},
                },
                None => {
                    lemma_paths_taken(w, k1, f, paths, deck + 1);
                },
            }
        }
    }
}

/// Looking at the same paths again opens no file; the modules are told of the slow update.
proof fn lemma_paths_repeat(w: World, k: KeeperView, f: Flags, paths: Seq<Seq<char>>, deck: int)
    requires
        k.wf(),
        !f.master_changed && !f.track_changed,
        0 <= deck <= paths.len() <= k.anlz_paths.len(),
        forall|d: int| deck <= d < paths.len() ==> #[trigger] k.anlz_paths[d] == paths[d],
    ensures
        crate::updated::files_updated(w, k, f, paths, deck) == only_slow_update(k),
    decreases paths.len() - deck,
{
    if deck < paths.len() {
        lemma_paths_repeat(w, k, f, paths, deck + 1);
    } else {
        assert(crate::updated::files_updated(w, k, f, paths, deck).out =~= only_slow_update(k).out);
    }
}

/// An update that changes nothing and tells of nothing but the slow update.
pub open spec fn only_slow_update(k: KeeperView) -> Updated {
    Updated {
        keeper: k,
        out: seq![OutputView::Notify(seq![NotificationView::SlowUpdate])],
        end: Settled::Done(Ok(())),
    }
}

/// As many texts are read as there are chains.
pub proof fn lemma_text_count(
    w: World,
    chains: Seq<crate::chain::ChainValueView>,
    size: usize,
    texts: Seq<Seq<char>>,
)
    requires
        texts.len() <= chains.len(),
    ensures
        crate::whole::texts_at(w, chains, size, texts) matches Settled::Done(Ok(r)) ==> r.len()
            == chains.len(),
    decreases chains.len() - texts.len(),
{
    if texts.len() < chains.len() {
        let chain = chains[texts.len() as int];
        match crate::chain::destination(w, chain.pointer, 0, chain.base) {
            Settled::Done(Ok(address)) => match (w.block)(address, size) {
                Ok(bytes) => {
                    lemma_text_count(
                        w,
                        chains,
                        size,
                        texts.push(crate::text::block_text(bytes)),
                    );
                },
                Err(_) => {},
            },
            _ => {},
        }
    }
}

/// A slow look at the tracks and files that succeeds leaves each connected deck with the track
/// that is described and the path that is read. A second look that finds the same changes nothing,
/// reads no file, and tells of nothing but the slow update.
pub proof fn lemma_slow_update_takes_everything_in(w: World, k: KeeperView, rb: RekordboxView, f: Flags)
    requires
        k.wf(),
        rb.wf(),
        crate::updated::tracks_updated(w, k, rb, f).end == Settled::<
            Result<(), ReadErrorView>,
        >::Done(Ok(())),
    ensures
        ({
            let k1 = crate::updated::tracks_updated(w, k, rb, f).keeper;
            let quiet = Flags { slow: true, master_changed: false, track_changed: false };
            &&& track_texts(w, rb) matches Settled::Done(Ok(texts)) && texts.len() == rb.deckcount
                && forall|d: int|
                0 <= d < texts.len() ==> #[trigger] k1.track_infos[d]
                    == crate::output::described_track(texts[d])
            &&& path_texts(w, rb) matches Settled::Done(Ok(paths)) && paths.len() == rb.deckcount
                && forall|d: int|
                0 <= d < paths.len() ==> #[trigger] k1.anlz_paths[d] == paths[d]
            &&& crate::updated::tracks_updated(w, k1, rb, quiet) == only_slow_update(k1)
        }),
{
    lemma_text_count(w, rb.track_infos, crate::reading::TRACK_INFO_SIZE, Seq::empty());
    lemma_text_count(w, rb.anlz_paths, crate::reading::ANLZ_PATH_SIZE, Seq::empty());
    let texts = track_texts(w, rb)->Done_0->Ok_0;
    let paths = path_texts(w, rb)->Done_0->Ok_0;
    let taken = crate::keeper::take_tracks(k, texts, 0);
    let f1 = Flags { track_changed: taken.master, ..f };
    let quiet = Flags { slow: true, master_changed: false, track_changed: false };
    lemma_tracks_taken(k, texts, 0);
    lemma_paths_taken(w, taken.keeper, f1, paths, 0);
    let k1 = crate::updated::tracks_updated(w, k, rb, f).keeper;
    assert(k1 == crate::updated::files_updated(w, taken.keeper, f1, paths, 0).keeper);
    assert forall|d: int| 0 <= d < texts.len() implies #[trigger] k1.track_infos[d]
        == crate::output::described_track(texts[d]) by {
        assert(taken.keeper.track_infos[d] == crate::output::described_track(texts[d]));
    }
    lemma_tracks_repeat(k1, texts, 0);
    lemma_paths_repeat(w, k1, quiet, paths, 0);
    let again = crate::updated::tracks_updated(w, k1, rb, quiet);
    assert(again.out =~= only_slow_update(k1).out);
}

/// What a slow update has taken in stays taken in.
proof fn lemma_tracks_stay_taken_in(w: World, k: KeeperView, k1: KeeperView, rb: RekordboxView, f: Flags)
    requires
        k.wf(),
        k1.wf(),
        rb.wf(),
        crate::updated::tracks_updated(w, k, rb, f).end == Settled::<
            Result<(), ReadErrorView>,
        >::Done(Ok(())),
        k1.track_infos == crate::updated::tracks_updated(w, k, rb, f).keeper.track_infos,
        k1.anlz_paths == crate::updated::tracks_updated(w, k, rb, f).keeper.anlz_paths,
    ensures
        crate::updated::tracks_updated(
            w,
            k1,
            rb,
            (Flags { slow: true, master_changed: false, track_changed: false }),
        ) == only_slow_update(k1),
{
    let quiet = Flags { slow: true, master_changed: false, track_changed: false };
    lemma_slow_update_takes_everything_in(w, k, rb, f);
    let texts = track_texts(w, rb)->Done_0->Ok_0;
    let paths = path_texts(w, rb)->Done_0->Ok_0;
    let taken = crate::keeper::take_tracks(k, texts, 0);
    lemma_tracks_taken(k, texts, 0);
    lemma_paths_taken(
        w,
        taken.keeper,
        Flags { track_changed: taken.master, ..f },
        paths,
        0,
    );
    lemma_tracks_repeat(k1, texts, 0);
    lemma_paths_repeat(w, k1, quiet, paths, 0);
    let again = crate::updated::tracks_updated(w, k1, rb, quiet);
    assert(again.out =~= only_slow_update(k1).out);
}

/// The part of a slow update that looks at the tracks comes last, and what the decks tell before it
/// does not matter to it.
proof fn lemma_decks_before_tracks(w: World, k: KeeperView, rb: RekordboxView, f: Flags, deck: usize)
    requires
        k.wf(),
        k.decks <= k.trackers.len(),
        f.slow,
        crate::updated::decks_updated(w, k, rb, f, deck).end == Settled::<
            Result<(), ReadErrorView>,
        >::Done(Ok(())),
    ensures
        exists|k1: KeeperView|
            {
                &&& k1.wf()
                &&& (#[trigger] crate::updated::tracks_updated(w, k1, rb, f)).end == Settled::<
                    Result<(), ReadErrorView>,
                >::Done(Ok(()))
                &&& crate::updated::decks_updated(w, k, rb, f, deck).keeper
                    == crate::updated::tracks_updated(w, k1, rb, f).keeper
            },
    decreases k.decks - deck,
{
    let next = (deck + 1) as usize;
    if deck >= k.decks {
        assert(crate::updated::decks_updated(w, k, rb, f, deck)
            == crate::updated::tracks_updated(w, k, rb, f));
    } else if !k.follows(deck) {
        lemma_decks_before_tracks(w, k, rb, f, next);
    } else {
        match crate::updated::deck_state(w, k, rb, deck) {
            Settled::Done(Some(res)) => {
                lemma_decks_before_tracks(
                    w,
                    crate::keeper::deck_told(k, deck, res),
                    rb,
                    f,
                    next,
                );
            },
            Settled::Done(None) => {
                lemma_decks_before_tracks(w, k, rb, f, next);
            },
            Settled::Fault(_) => {},
        }
    }
}

/// An update that finds everything as one of the same kind before it left it changes nothing, and
/// tells of nothing but itself, if it is slow and the master deck is connected. The one before it
/// must have left every beat grid as it was: a grid that it brought places the decks anew.
pub proof fn lemma_repeated_update_tells_only_itself(
    w: World,
    k: KeeperView,
    rb: RekordboxView,
    slow: bool,
)
    requires
        k.wf(),
        rb.wf(),
        crate::updated::updated(w, k, rb, slow).end == Settled::<
            Result<(), ReadErrorView>,
        >::Done(Ok(())),
        crate::repeat::same_grids(k, crate::updated::updated(w, k, rb, slow).keeper),
        crate::repeat::reads_properly(w, crate::updated::updated(w, k, rb, slow).keeper, rb),
    ensures
        ({
            let k1 = crate::updated::updated(w, k, rb, slow).keeper;
            crate::updated::updated(w, k1, rb, slow) == (if slow && k1.master < rb.deckcount {
                only_slow_update(k1)
            } else {
                crate::updated::ended(k1, Settled::Done(Ok(())))
            })
        }),
{
    let k1 = crate::updated::updated(w, k, rb, slow).keeper;
    if !slow {
        crate::repeat::lemma_repeated_update_is_silent(w, k, rb);
    } else {
        match (w.byte)(rb.masterdeck_index) {
            Ok(n) => {
                let master = n as usize;
                if master < rb.deckcount {
                    let k0 = KeeperView { master, ..k };
                    let f = Flags {
                        slow: true,
                        master_changed: k.master != master,
                        track_changed: false,
                    };
                    crate::repeat::lemma_update_keeps_settings(w, k, rb, true);
                    crate::repeat::lemma_update_keeps_master(w, k0, rb, f);
                    assert(KeeperView { master, ..k1 } == k1);
                    crate::repeat::lemma_decks_are_silent_after_slow_update(w, k0, rb, f);
                    crate::repeat::lemma_silent_decks(w, k1, rb, 0);
                    lemma_decks_before_tracks(w, k0, rb, f, 0);
                    let before = choose|b: KeeperView|
                        {
                            &&& b.wf()
                            &&& (#[trigger] crate::updated::tracks_updated(w, b, rb, f)).end
                                == Settled::<Result<(), ReadErrorView>>::Done(Ok(()))
                            &&& crate::updated::decks_updated(w, k0, rb, f, 0).keeper
                                == crate::updated::tracks_updated(w, b, rb, f).keeper
                        };
                    lemma_tracks_stay_taken_in(w, before, k1, rb, f);
                }
            },
            Err(_) => {},
        }
    }
}

/// The same, where no tempo that can be read is a NaN and the conversions to seconds and beats give
/// none either.
pub proof fn lemma_repeated_update_with_proper_tempos(
    w: World,
    k: KeeperView,
    rb: RekordboxView,
    slow: bool,
)
    requires
        k.wf(),
        rb.wf(),
        crate::updated::updated(w, k, rb, slow).end == Settled::<
            Result<(), ReadErrorView>,
        >::Done(Ok(())),
        crate::repeat::same_grids(k, crate::updated::updated(w, k, rb, slow).keeper),
        crate::repeat::places_properly(w),
        crate::repeat::tempos_are_numbers(w, rb),
    ensures
        ({
            let k1 = crate::updated::updated(w, k, rb, slow).keeper;
            crate::updated::updated(w, k1, rb, slow) == (if slow && k1.master < rb.deckcount {
                only_slow_update(k1)
            } else {
                crate::updated::ended(k1, Settled::Done(Ok(())))
            })
        }),
{
    crate::repeat::lemma_proper_tempos_suffice(
        w,
        crate::updated::updated(w, k, rb, slow).keeper,
        rb,
    );
    lemma_repeated_update_tells_only_itself(w, k, rb, slow);
}

/// As long as nothing changes, a slow update and one more suffice to tell everything: from then on
/// an update tells nothing, and a slow one of nothing but itself.
pub proof fn lemma_updates_fall_silent(w: World, k: KeeperView, rb: RekordboxView)
    requires
        k.wf(),
        rb.wf(),
        crate::updated::updated(w, k, rb, true).end == Settled::<
            Result<(), ReadErrorView>,
        >::Done(Ok(())),
        crate::updated::updated(w, k, rb, true).keeper.master < rb.deckcount,
        ({
            let k1 = crate::updated::updated(w, k, rb, true).keeper;
            let u = crate::updated::updated(w, k1, rb, false);
            &&& u.end == Settled::<Result<(), ReadErrorView>>::Done(Ok(()))
            &&& crate::repeat::reads_properly(w, u.keeper, rb)
        }),
    ensures
        ({
            let k1 = crate::updated::updated(w, k, rb, true).keeper;
            let k2 = crate::updated::updated(w, k1, rb, false).keeper;
            &&& crate::updated::updated(w, k2, rb, false) == crate::updated::ended(
                k2,
                Settled::Done(Ok(())),
            )
            &&& crate::updated::updated(w, k2, rb, true) == only_slow_update(k2)
        }),
{
    let k1 = crate::updated::updated(w, k, rb, true).keeper;
    let k2 = crate::updated::updated(w, k1, rb, false).keeper;
    match (w.byte)(rb.masterdeck_index) {
        Ok(n) => {
            let master = n as usize;
            if master < rb.deckcount {
                let k0 = KeeperView { master, ..k };
                let f = Flags { slow: true, master_changed: k.master != master, track_changed: false };
                let fast = Flags { slow: false, master_changed: false, track_changed: false };
                crate::repeat::lemma_update_keeps_settings(w, k, rb, true);
                crate::repeat::lemma_update_keeps_settings(w, k1, rb, false);
                crate::repeat::lemma_update_keeps_master(w, k0, rb, f);
                assert(k1.master == master);
                let k3 = KeeperView { master, ..k1 };
                assert(k3 == k1);
                crate::repeat::lemma_decks_leave(w, k1, rb, fast, 0);
                crate::repeat::lemma_repeated_update_is_silent(w, k1, rb);
                crate::repeat::lemma_silent_decks(w, k2, rb, 0);
                lemma_decks_before_tracks(w, k0, rb, f, 0);
                let before = choose|b: KeeperView|
                    {
                        &&& b.wf()
                        &&& (#[trigger] crate::updated::tracks_updated(w, b, rb, f)).end
                            == Settled::<Result<(), ReadErrorView>>::Done(Ok(()))
                        &&& crate::updated::decks_updated(w, k0, rb, f, 0).keeper
                            == crate::updated::tracks_updated(w, b, rb, f).keeper
                    };
                lemma_tracks_stay_taken_in(w, before, k2, rb, f);
            }
        },
        Err(_) => {},
    }
}

/// The description of each track is the text in a block of 200 bytes, and each path that in one of
/// 500, where the chains of the deck lead.
pub proof fn lemma_texts_of_each_deck(w: World, rb: RekordboxView)
    requires
        rb.wf(),
    ensures
        track_texts(w, rb) matches Settled::Done(Ok(texts)) ==> texts.len() == rb.deckcount && forall|
            d: int,
        |
            0 <= d < rb.deckcount ==> crate::whole::holds_text(
                w,
                #[trigger] rb.track_infos[d],
                200,
                texts[d],
            ),
        path_texts(w, rb) matches Settled::Done(Ok(paths)) ==> paths.len() == rb.deckcount && forall|
            d: int,
        |
            0 <= d < rb.deckcount ==> crate::whole::holds_text(
                w,
                #[trigger] rb.anlz_paths[d],
                500,
                paths[d],
            ),
{
    crate::whole::lemma_texts_are_in_their_places(w, rb.track_infos, 200, Seq::empty());
    crate::whole::lemma_texts_are_in_their_places(w, rb.anlz_paths, 500, Seq::empty());
}

/// If each chain leads to a block that can be read, all descriptions and all paths are found.
pub proof fn lemma_readable_texts_are_found(
    w: World,
    rb: RekordboxView,
    texts: Seq<Seq<char>>,
    paths: Seq<Seq<char>>,
)
    requires
        rb.wf(),
        texts.len() == rb.deckcount,
        paths.len() == rb.deckcount,
        forall|d: int|
            0 <= d < rb.deckcount ==> crate::whole::holds_text(
                w,
                #[trigger] rb.track_infos[d],
                200,
                texts[d],
            ),
        forall|d: int|
            0 <= d < rb.deckcount ==> crate::whole::holds_text(
                w,
                #[trigger] rb.anlz_paths[d],
                500,
                paths[d],
            ),
    ensures
        track_texts(w, rb) == Settled::Done(Ok::<Seq<Seq<char>>, ReadErrorView>(texts)),
        path_texts(w, rb) == Settled::Done(Ok::<Seq<Seq<char>>, ReadErrorView>(paths)),
{
    crate::whole::lemma_each_text_is_read(w, rb.track_infos, 200, texts);
    crate::whole::lemma_each_text_is_read(w, rb.anlz_paths, 500, paths);
}

} // verus!
