//! How updates are counted over a whole session, whatever it is answered.
use crate::keeper::{Flags, KeeperView, Progress, UpdateView};
use crate::memory::ReadErrorView;
use crate::protocol::{Next, ReplyView, RequestView};
use crate::reading::TextStep;
use crate::rekordbox::{ConnectStep, OffsetsView, RekordboxView};
use crate::session::{ModuleView, RunnerView, SessionStageView, SessionStep, SessionView, Settings};
use vstd::prelude::*;

verus! {

/// Where a session stands after these replies, one after the other; one that has stopped stays
/// stopped.
pub open spec fn after_replies(n: SessionStep, replies: Seq<ReplyView>) -> SessionStep
    decreases replies.len(),
{
    match n {
        Next::Ask(_, s) if replies.len() > 0 => after_replies(
            s.on_reply(replies[0]).next,
            replies.skip(1),
        ),
        _ => n,
    }
}

/// The reply completes an update, and the update succeeds.
pub open spec fn completes_update(s: SessionView, reply: ReplyView) -> bool {
    s.stage matches SessionStageView::Updating(u) && u.on_reply(
        s.runner.keeper,
        s.runner.rekordbox->0,
        reply,
    ).next matches Next::Done(Ok(_))
}

/// How many updates succeed in the course of these replies.
pub open spec fn updates_made(n: SessionStep, replies: Seq<ReplyView>) -> nat
    decreases replies.len(),
{
    match n {
        Next::Ask(_, s) if replies.len() > 0 => (if completes_update(s, replies[0]) {
            1nat
        } else {
            0nat
        }) + updates_made(s.on_reply(replies[0]).next, replies.skip(1)),
        _ => 0,
    }
}

// What an update keeps.
/// If the update goes on, it is slow or not as this says.
spec fn goes_on_as(p: Progress, slow: bool) -> bool {
    p.next matches Next::Ask(_, u) ==> u.flags.slow == slow
}

proof fn lemma_paths_keep_kind(k: KeeperView, f: Flags, paths: Seq<Seq<char>>, deck: int)
    ensures
        goes_on_as(crate::keeper::visit_paths(k, f, paths, deck), f.slow),
    decreases paths.len() - deck,
{
    if deck < paths.len() {
        lemma_paths_keep_kind(k, f, paths, deck + 1);
    }
}

proof fn lemma_settling_paths_keeps_kind(k: KeeperView, f: Flags, n: TextStep)
    ensures
        goes_on_as(crate::keeper::settle_paths(k, f, n), f.slow),
{
    match n {
        Next::Done(Ok(paths)) => {
            lemma_paths_keep_kind(k, f, paths, 0);
        },
        _ => {},
    }
}

proof fn lemma_settling_tracks_keeps_kind(k: KeeperView, rb: RekordboxView, f: Flags, n: TextStep)
    ensures
        goes_on_as(crate::keeper::settle_tracks(k, rb, f, n), f.slow),
{
    match n {
        Next::Done(Ok(texts)) => {
            let taken = crate::keeper::take_tracks(k, texts, 0);
            lemma_settling_paths_keeps_kind(
                taken.keeper,
                Flags { track_changed: taken.master, ..f },
                crate::reading::text_step(
                    rb.anlz_paths,
                    crate::reading::ANLZ_PATH_SIZE,
                    Seq::empty(),
                ),
            );
        },
        _ => {},
    }
}

proof fn lemma_decks_keep_kind(k: KeeperView, rb: RekordboxView, f: Flags, deck: usize)
    ensures
        goes_on_as(crate::keeper::visit_decks(k, rb, f, deck), f.slow),
    decreases k.decks - deck,
{
    if deck >= k.decks {
        lemma_settling_tracks_keeps_kind(
            k,
            rb,
            f,
            crate::reading::text_step(
                rb.track_infos,
                crate::reading::TRACK_INFO_SIZE,
                Seq::empty(),
            ),
        );
    } else if !k.follows(deck) {
        lemma_decks_keep_kind(k, rb, f, (deck + 1) as usize);
    }
}

proof fn lemma_result_keeps_kind(
    k: KeeperView,
    rb: RekordboxView,
    f: Flags,
    deck: usize,
    res: crate::track::TrackTrackerResult,
)
    ensures
        goes_on_as(crate::keeper::on_result(k, rb, f, deck, res), f.slow),
{
    lemma_decks_keep_kind(crate::keeper::deck_told(k, deck, res), rb, f, (deck + 1) as usize);
}

proof fn lemma_timing_keeps_kind(
    k: KeeperView,
    rb: RekordboxView,
    f: Flags,
    deck: usize,
    n: crate::reading::TimingStep,
)
    ensures
        goes_on_as(crate::keeper::on_timing(k, rb, f, deck, n), f.slow),
{
    match n {
        Next::Done(Err(_)) => {
            lemma_decks_keep_kind(k, rb, f, (deck + 1) as usize);
        },
        Next::Done(Ok(td)) => {
            lemma_result_keeps_kind(
                k,
                rb,
                f,
                deck,
                crate::track::gridless(crate::track::with_tempo(td)),
            );
        },
        _ => {},
    }
}

/// An update stays slow, or not, to its end.
proof fn lemma_update_keeps_kind(u: UpdateView, k: KeeperView, rb: RekordboxView, reply: ReplyView)
    ensures
        goes_on_as(u.on_reply(k, rb, reply), u.flags.slow),
{
    let f = u.flags;
    match u.stage {
        crate::keeper::StageView::Master => {
            match reply {
                ReplyView::Byte(outcome) => match crate::reading::master_read(rb, outcome) {
                    Ok(master) => {
                        lemma_decks_keep_kind(
                            KeeperView { master, ..k },
                            rb,
                            Flags { master_changed: k.master != master, ..f },
                            0,
                        );
                    },
                    Err(_) => {},
                },
                _ => {},
            }
        },
        crate::keeper::StageView::Timing(read) => {
            lemma_timing_keeps_kind(k, rb, f, read.deck, read.on_reply(rb, reply));
        },
        crate::keeper::StageView::Clock { .. } => {},
        crate::keeper::StageView::Beat { deck, timing } => {
            match reply {
                ReplyView::Beat(at) => {
                    lemma_result_keeps_kind(k, rb, f, deck, crate::track::placed(timing, at));
                },
                _ => {},
            }
        },
        crate::keeper::StageView::Tracks(read) => {
            lemma_settling_tracks_keeps_kind(k, rb, f, read.on_reply(rb.track_infos, reply));
        },
        crate::keeper::StageView::Paths(read) => {
            lemma_settling_paths_keeps_kind(k, f, read.on_reply(rb.anlz_paths, reply));
        },
        crate::keeper::StageView::File { paths, deck } => {
            lemma_paths_keep_kind(k, f, paths, deck + 1);
        },
        crate::keeper::StageView::Grid { paths, deck, beats } => {
            match reply {
                ReplyView::GridSeconds(seconds) => {
                    lemma_paths_keep_kind(
                        crate::keeper::grid_loaded(k, deck, beats, seconds),
                        f,
                        paths,
                        deck + 1,
                    );
                },
                _ => {},
            }
        },
    }
}

// What a session keeps.
/// An update that is being made is slow exactly if the counter is 0.
pub open spec fn kind_fits(s: SessionView) -> bool {
    &&& s.runner.n >= 0
    &&& s.stage matches SessionStageView::Updating(u) ==> u.flags.slow == (s.runner.n == 0)
}

/// If the session goes on, it is with these settings and this counter.
spec fn goes_on_with(n: SessionStep, settings: Settings, counter: int) -> bool {
    n matches Next::Ask(_, s) ==> {
        &&& s.runner.settings == settings
        &&& s.runner.n == counter
        &&& kind_fits(s)
    }
}

proof fn lemma_round_keeps_count(r: RunnerView)
    requires
        r.n >= 0,
    ensures
        goes_on_with(crate::session::round(r).next, r.settings, r.n as int),
{
}

proof fn lemma_modules_keep_count(r: RunnerView, i: int)
    requires
        r.n >= 0,
    ensures
        goes_on_with(crate::session::visit_modules(r, i).next, r.settings, r.n as int),
{
    lemma_round_keeps_count(r);
}

proof fn lemma_connecting_keeps_count(r: RunnerView, n: ConnectStep)
    requires
        r.n >= 0,
    ensures
        goes_on_with(crate::session::settle_connection(r, n).next, r.settings, r.n as int),
{
    match n {
        Next::Done(Ok(rb)) => {
            lemma_round_keeps_count(crate::session::connected_runner(r, rb));
        },
        _ => {},
    }
}

/// An update that succeeds takes the counter one further, and from the last place before a slow
/// update back to 0.
pub proof fn lemma_update_is_counted(r: RunnerView)
    requires
        0 <= r.n < i32::MAX,
        r.settings.interval() > 0,
    ensures
        crate::session::count(r).next matches Next::Ask(RequestView::Elapsed, s) && s.runner.n == (
        r.n + 1) % r.settings.interval() && s.runner.settings == r.settings,
{
    vstd::arithmetic::div_mod::lemma_mod_bound(r.n + 1, r.settings.interval());
    vstd::arithmetic::div_mod::lemma_mod_decreases(
        (r.n + 1) as nat,
        r.settings.interval() as nat,
    );
}

/// An update that fails leaves the counter as it is: the next update, after the connection has been
/// made again, is slow or not as this one was.
pub proof fn lemma_failed_update_is_not_counted(r: RunnerView, e: ReadErrorView)
    ensures
        crate::session::lose(r, e).next matches Next::Ask(_, s) && s.runner.n == r.n
            && s.runner.settings == r.settings,
{
}

proof fn lemma_settling_update_counts(r: RunnerView, p: Progress)
    requires
        r.n >= 0,
        r.settings.interval() > 0,
        goes_on_as(p, r.n == 0),
    ensures
        goes_on_with(
            crate::session::settle_update(r, p).next,
            r.settings,
            if p.next matches Next::Done(Ok(_)) {
                (r.n + 1) % r.settings.interval()
            } else {
                r.n as int
            },
        ),
{
    let r1 = RunnerView { keeper: p.keeper, ..r };
    match p.next {
        Next::Done(Ok(_)) => {
            if r.n < i32::MAX {
                lemma_update_is_counted(r1);
                vstd::arithmetic::div_mod::lemma_mod_bound(r.n + 1, r.settings.interval());
            }
        },
        Next::Done(Err(e)) => {
            lemma_failed_update_is_not_counted(r1, e);
        },
        _ => {},
    }
}

/// One reply: the counter goes one further if the reply completes an update, and stays otherwise.
proof fn lemma_reply_counts(s: SessionView, reply: ReplyView)
    requires
        kind_fits(s),
        s.runner.settings.interval() > 0,
    ensures
        goes_on_with(
            s.on_reply(reply).next,
            s.runner.settings,
            if completes_update(s, reply) {
                (s.runner.n + 1) % s.runner.settings.interval()
            } else {
                s.runner.n as int
            },
        ),
{
    let r = s.runner;
    match s.stage {
        SessionStageView::Enabled(i) => {
            lemma_modules_keep_count(r, i + 1);
        },
        SessionStageView::Created(i) => {
            lemma_modules_keep_count(r, i + 1);
        },
        SessionStageView::Connecting(c) => {
            lemma_connecting_keeps_count(
                r,
                c.on_reply(r.offsets, r.settings.connected_decks, reply),
            );
        },
        SessionStageView::Updating(u) => {
            lemma_update_keeps_kind(u, r.keeper, r.rekordbox->0, reply);
            lemma_settling_update_counts(r, u.on_reply(r.keeper, r.rekordbox->0, reply));
        },
        SessionStageView::Measuring => {
            lemma_round_keeps_count(r);
        },
        SessionStageView::Remaining => {},
        SessionStageView::Pause => {
            lemma_round_keeps_count(r);
        },
    }
}

proof fn lemma_replies_count(n: SessionStep, replies: Seq<ReplyView>, settings: Settings, counter: int)
    requires
        settings.interval() > 0,
        0 <= counter < settings.interval(),
        goes_on_with(n, settings, counter),
    ensures
        goes_on_with(
            after_replies(n, replies),
            settings,
            (counter + updates_made(n, replies)) % settings.interval(),
        ),
    decreases replies.len(),
{
    let interval = settings.interval();
    match n {
        Next::Ask(_, s) if replies.len() > 0 => {
            let next = s.on_reply(replies[0]).next;
            let rest = replies.skip(1);
            let more = updates_made(next, rest);
            lemma_reply_counts(s, replies[0]);
            if completes_update(s, replies[0]) {
                let counted = (counter + 1) % interval;
                vstd::arithmetic::div_mod::lemma_mod_bound(counter + 1, interval);
                lemma_replies_count(next, rest, settings, counted);
                vstd::arithmetic::div_mod::lemma_add_mod_noop_right(
                    more as int,
                    counter + 1,
                    interval,
                );
                assert(counted + more == more + counted);
                assert(counter + updates_made(n, replies) == more + (counter + 1));
            } else {
                lemma_replies_count(next, rest, settings, counter);
            }
        },
        _ => {
            vstd::arithmetic::div_mod::lemma_small_mod(counter as nat, interval as nat);
        },
    }
}

/// Whatever a session is answered from its start on: the counter is the number of updates that have
/// succeeded so far, up to multiples of the interval; and an update that is being made is a slow one
/// exactly if that number is a multiple of the interval. Updates that failed, and the connections
/// made in between, do not matter to it.
pub proof fn lemma_slow_updates_are_regular(
    offsets: OffsetsView,
    modules: Seq<ModuleView>,
    settings: Settings,
    replies: Seq<ReplyView>,
)
    requires
        settings.interval() > 0,
    ensures
        ({
            let start = crate::session::session_start(offsets, modules, settings).next;
            let made = updates_made(start, replies) as int;
            after_replies(start, replies) matches Next::Ask(_, s) ==> {
                &&& s.runner.n == made % settings.interval()
                &&& s.stage matches SessionStageView::Updating(u) ==> u.flags.slow == (made
                    % settings.interval() == 0)
            }
        }),
{
    let r = crate::session::fresh_runner(offsets, modules, settings);
    let start = crate::session::session_start(offsets, modules, settings).next;
    lemma_modules_keep_count(r, 0);
    lemma_replies_count(start, replies, settings, 0);
    assert(0 + updates_made(start, replies) == updates_made(start, replies) as int);
}

} // verus!
