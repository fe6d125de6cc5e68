//! What holds of a whole session.
use crate::keeper::{KeeperView, Progress, UpdateView};
use crate::memory::ReadErrorView;
use crate::output::{Level, OutputView};
use crate::protocol::{Fault, Next, ReplyView, RequestView, Settled, World};
use crate::rekordbox::{ConnectStep, ConnectView, RekordboxView};
use crate::session::{ModuleView, RunnerView, SessionProgress, SessionStageView, SessionView};
use crate::updated::Updated;
use vstd::prelude::*;

verus! {

/// How far a session gets from a progress on, when `steps` of its requests are answered by `w`.
pub open spec fn advanced(w: World, p: SessionProgress, steps: nat) -> SessionProgress
    decreases steps,
{
    if steps == 0 {
        p
    } else {
        match p.next {
            Next::Ask(q, s) => advanced(
                w,
                crate::session::session_after(p.out, s.on_reply(w.answer(q))),
                (steps - 1) as nat,
            ),
            _ => p,
        }
    }
}

/// Answering its requests, a session gets from the first progress to the second.
pub open spec fn gets_to(w: World, p: SessionProgress, r: SessionProgress) -> bool {
    exists|steps: nat| #[trigger] advanced(w, p, steps) == r
}

proof fn lemma_gets_there(w: World, p: SessionProgress)
    ensures
        gets_to(w, p, p),
{
    assert(advanced(w, p, 0) == p);
}

proof fn lemma_advanced_after(w: World, out: Seq<OutputView>, p: SessionProgress, steps: nat)
    ensures
        advanced(w, crate::session::session_after(out, p), steps) == crate::session::session_after(
            out,
            advanced(w, p, steps),
        ),
    decreases steps,
{
    if steps > 0 {
        match p.next {
            Next::Ask(q, s) => {
                let next = s.on_reply(w.answer(q));
                lemma_advanced_after(
                    w,
                    out,
                    crate::session::session_after(p.out, next),
                    (steps - 1) as nat,
                );
                assert(out + (p.out + next.out) =~= (out + p.out) + next.out);
            },
            _ => {},
        }
    }
}

/// What was told before stays told.
proof fn lemma_gets_to_after(w: World, out: Seq<OutputView>, p: SessionProgress, r: SessionProgress)
    requires
        gets_to(w, p, r),
    ensures
        gets_to(
            w,
            crate::session::session_after(out, p),
            crate::session::session_after(out, r),
        ),
{
    let steps = choose|steps: nat| #[trigger] advanced(w, p, steps) == r;
    lemma_advanced_after(w, out, p, steps);
}

/// One request more.
proof fn lemma_gets_to_ask(
    w: World,
    r: RunnerView,
    q: RequestView,
    stage: SessionStageView,
    end: SessionProgress,
)
    requires
        gets_to(w, (SessionView { runner: r, stage }).on_reply(w.answer(q)), end),
    ensures
        gets_to(w, crate::session::session_asks(r, q, stage), end),
{
    let next = SessionView { runner: r, stage }.on_reply(w.answer(q));
    let steps = choose|steps: nat| #[trigger] advanced(w, next, steps) == end;
    assert(crate::session::session_after(Seq::empty(), next).out =~= next.out);
    assert(advanced(w, crate::session::session_asks(r, q, stage), steps + 1) == end);
}

// Modules.
/// What is said while the modules from `i` on are started: each that is enabled is named, and each
/// that cannot be started, once more.
pub open spec fn module_lines(w: World, modules: Seq<ModuleView>, i: int) -> Seq<OutputView>
    decreases modules.len() - i,
{
    if i >= modules.len() {
        Seq::empty()
    } else {
        let name = modules[i].pretty_name;
        crate::track::only_if(
            (w.enabled)(modules[i].config_name + ".enabled"@),
            crate::report::info(" - "@ + name),
        ) + crate::track::only_if(
            (w.enabled)(modules[i].config_name + ".enabled"@) && !(w.created)(i as usize),
            crate::report::failure("Failed to start module "@ + name),
        ) + module_lines(w, modules, i + 1)
    }
}

/// Each module is asked for in turn, and those that are enabled are started; then things begin.
pub proof fn lemma_modules_are_started(w: World, r: RunnerView, i: int)
    requires
        0 <= i <= r.modules.len() <= usize::MAX,
    ensures
        gets_to(
            w,
            crate::session::visit_modules(r, i),
            crate::session::session_after(
                module_lines(w, r.modules, i),
                crate::session::begin(r),
            ),
        ),
    decreases r.modules.len() - i,
{
    let end = crate::session::session_after(
        module_lines(w, r.modules, i),
        crate::session::begin(r),
    );
    if i == r.modules.len() {
        lemma_gets_there(w, crate::session::begin(r));
        assert(end.out =~= crate::session::begin(r).out);
    } else {
        let key = r.modules[i].config_name + ".enabled"@;
        let name = r.modules[i].pretty_name;
        let rest = module_lines(w, r.modules, i + 1);
        let after = crate::session::session_after(rest, crate::session::begin(r));
        lemma_modules_are_started(w, r, i + 1);
        if (w.enabled)(key) {
            let named = seq![crate::report::info(" - "@ + name)];
            let asked = crate::session::session_asks(
                r,
                RequestView::Create(i as usize),
                SessionStageView::Created(i as usize),
            );
            if (w.created)(i as usize) {
                lemma_gets_to_ask(
                    w,
                    r,
                    RequestView::Create(i as usize),
                    SessionStageView::Created(i as usize),
                    after,
                );
                lemma_gets_to_after(w, named, asked, after);
                assert(end.out =~= named + after.out);
            } else {
                let failed = seq![crate::report::failure("Failed to start module "@ + name)];
                lemma_gets_to_after(w, failed, crate::session::visit_modules(r, i + 1), after);
                lemma_gets_to_ask(
                    w,
                    r,
                    RequestView::Create(i as usize),
                    SessionStageView::Created(i as usize),
                    crate::session::session_after(failed, after),
                );
                lemma_gets_to_after(
                    w,
                    named,
                    asked,
                    crate::session::session_after(failed, after),
                );
                assert(end.out =~= named + (failed + after.out));
            }
        } else {
            assert(end.out =~= after.out);
        }
        lemma_gets_to_ask(
            w,
            r,
            RequestView::Enabled(key),
            SessionStageView::Enabled(i as usize),
            end,
        );
    }
}

// Rounds.
proof fn lemma_connecting(w: World, r: RunnerView, n: ConnectStep, fuel: nat, end: SessionProgress)
    requires
        crate::whole::run_connect(w, r.offsets, r.settings.connected_decks, n, fuel) is Some,
        end == crate::session::settle_connection(
            r,
            crate::whole::last_step(
                crate::whole::run_connect(
                    w,
                    r.offsets,
                    r.settings.connected_decks,
                    n,
                    fuel,
                )->0,
            ),
        ),
    ensures
        gets_to(w, crate::session::settle_connection(r, n), end),
    decreases fuel,
{
    match n {
        Next::Ask(q, c) => {
            let next = c.on_reply(r.offsets, r.settings.connected_decks, w.answer(q));
            lemma_connecting(w, r, next, (fuel - 1) as nat, end);
            lemma_gets_to_ask(w, r, q, SessionStageView::Connecting(c), end);
        },
        _ => {
            lemma_gets_there(w, end);
        },
    }
}

/// A round without a connection makes the connection that can be made, or comes to its failure.
pub proof fn lemma_round_connects(w: World, r: RunnerView)
    requires
        r.rekordbox is None,
        crate::whole::offsets_fit(r.offsets),
    ensures
        gets_to(
            w,
            crate::session::round(r),
            crate::session::settle_connection(
                r,
                crate::whole::last_step(
                    crate::whole::connection(w, r.offsets, r.settings.connected_decks),
                ),
            ),
        ),
{
    let decks = r.settings.connected_decks;
    let n: ConnectStep = Next::Ask(RequestView::Process, ConnectView::Process);
    let c = crate::whole::connection(w, r.offsets, decks);
    crate::whole::lemma_connection_is_made(w, r.offsets, decks);
    let fuel = choose|fuel: nat|
        #[trigger] crate::whole::run_connect(w, r.offsets, decks, n, fuel) == Some(c);
    lemma_connecting(
        w,
        r,
        n,
        fuel,
        crate::session::settle_connection(r, crate::whole::last_step(c)),
    );
}

/// The last progress of an update that comes to this.
pub open spec fn last_progress(u: Updated) -> Progress {
    Progress { keeper: u.keeper, out: u.out, next: crate::whole::last_step(u.end) }
}

/// What an update leads to, the session goes on with.
proof fn lemma_update_replies(r: RunnerView, rb: RekordboxView, u: UpdateView, reply: ReplyView)
    requires
        r.rekordbox == Some(rb),
    ensures
        (SessionView { runner: r, stage: SessionStageView::Updating(u) }).on_reply(reply)
            == crate::session::settle_update(r, u.on_reply(r.keeper, rb, reply)),
{
}

/// What is told before the end of an update comes first.
proof fn lemma_settled_after(r: RunnerView, k: KeeperView, out: Seq<OutputView>, v: Updated)
    ensures
        crate::session::settle_update(
            r,
            last_progress(crate::updated::updated_after(out, v)),
        ) == crate::session::session_after(
            out,
            crate::session::settle_update(
                (RunnerView { keeper: k, ..r }),
                last_progress(v),
            ),
        ),
{
    let r1 = RunnerView { keeper: v.keeper, ..r };
    let rest: SessionProgress = match v.end {
        Settled::Fault(f) => crate::session::session_stops(f),
        Settled::Done(Ok(_)) => crate::session::count(r1),
        Settled::Done(Err(e)) => crate::session::lose(r1, e),
    };
    assert((out + v.out) + rest.out =~= out + (v.out + rest.out));
}

proof fn lemma_updating(w: World, r: RunnerView, rb: RekordboxView, p: Progress, fuel: nat)
    requires
        r.rekordbox == Some(rb),
        crate::updated::run_update(w, rb, p, fuel) is Some,
    ensures
        gets_to(
            w,
            crate::session::settle_update(r, p),
            crate::session::settle_update(
                r,
                last_progress(crate::updated::run_update(w, rb, p, fuel)->0),
            ),
        ),
    decreases fuel,
{
    match p.next {
        Next::Ask(q, u) => {
            let r1 = RunnerView { keeper: p.keeper, ..r };
            let next = u.on_reply(p.keeper, rb, w.answer(q));
            let f1 = (fuel - 1) as nat;
            let v = crate::updated::run_update(w, rb, next, f1)->0;
            lemma_updating(w, r1, rb, next, f1);
            lemma_update_replies(r1, rb, u, w.answer(q));
            let after = crate::session::settle_update(r1, last_progress(v));
            lemma_gets_to_ask(w, r1, q, SessionStageView::Updating(u), after);
            lemma_gets_to_after(
                w,
                p.out,
                crate::session::session_asks(r1, q, SessionStageView::Updating(u)),
                after,
            );
            lemma_settled_after(r, p.keeper, p.out, v);
        },
        _ => {
            lemma_gets_there(w, crate::session::settle_update(r, p));
        },
    }
}

/// A round with a connection makes the update, and then goes on as after every update: it is
/// counted if it succeeded, and if not, the connection is given up.
pub proof fn lemma_round_updates(w: World, r: RunnerView, rb: RekordboxView)
    requires
        r.wf(),
        r.rekordbox == Some(rb),
        crate::updated::connection_fits(rb),
    ensures
        gets_to(
            w,
            crate::session::round(r),
            crate::session::session_after(
                seq![OutputView::UpdateStarts],
                crate::session::settle_update(
                    r,
                    last_progress(crate::updated::updated(w, r.keeper, rb, r.n == 0)),
                ),
            ),
        ),
{
    let p = crate::keeper::quietly(r.keeper, crate::keeper::update_step(rb, r.n == 0));
    let u = crate::updated::updated(w, r.keeper, rb, r.n == 0);
    crate::updated::lemma_update_is_made(w, r.keeper, rb, r.n == 0);
    let fuel = choose|fuel: nat| #[trigger] crate::updated::run_update(w, rb, p, fuel) == Some(u);
    lemma_updating(w, r, rb, p, fuel);
    lemma_gets_to_after(
        w,
        seq![OutputView::UpdateStarts],
        crate::session::settle_update(r, p),
        crate::session::settle_update(r, last_progress(u)),
    );
}

// Errors and pauses.
/// When a connection cannot be made, and when one is lost, there is none; after three seconds one
/// is looked for again.
pub proof fn lemma_connection_is_tried_again(r: RunnerView, e: ReadErrorView)
    ensures
        r.rekordbox is None ==> {
            let p = crate::session::settle_connection(r, Next::Done(Err(e)));
            &&& p.next matches Next::Ask(RequestView::Sleep(pause), s)
            &&& pause == crate::session::RETRY_DELAY
            &&& s.on_reply(ReplyView::Sleep).next matches Next::Ask(RequestView::Process, t)
            &&& t.stage == SessionStageView::Connecting(ConnectView::Process)
        },
        ({
            let p = crate::session::lose(r, e);
            &&& p.next matches Next::Ask(RequestView::Sleep(pause), s)
            &&& pause == crate::session::RETRY_DELAY
            &&& s.runner.rekordbox is None
            &&& s.on_reply(ReplyView::Sleep).next matches Next::Ask(RequestView::Process, t)
            &&& t.stage == SessionStageView::Connecting(ConnectView::Process)
        }),
{
}

/// While the same error keeps a connection from being made, it is reported once; from then on each
/// attempt is marked by dots alone.
pub proof fn lemma_failed_attempts_are_reported_once(r: RunnerView, e: ReadErrorView)
    ensures
        ({
            let p = crate::session::settle_connection(r, Next::Done(Err(e)));
            &&& p.next matches Next::Ask(_, s) && crate::session::settle_connection(
                s.runner,
                Next::Done(Err(e)),
            ).out == seq![crate::report::info("..."@)]
        }),
{
    let p = crate::session::settle_connection(r, Next::Done(Err(e)));
    let r1 = p.next->Ask_1.runner;
    crate::report::lemma_error_is_reported_once(r.keeper.last_error, e);
    assert(crate::session::settle_connection(r1, Next::Done(Err(e))).out =~= seq![
        crate::report::info("..."@),
    ]);
}

/// Once a connection has been made, an error that occurs is reported, even if it was the last one
/// that was reported before.
pub proof fn lemma_error_is_reported_after_connecting(r: RunnerView, rb: RekordboxView, e: ReadErrorView)
    ensures
        crate::session::lose(crate::session::connected_runner(r, rb), e).out
            == crate::report::error_lines(e) + seq![
            crate::report::failure("Connection to Rekordbox lost"@),
            crate::report::info("Reconnecting in 3s..."@),
        ],
{
    let r1 = crate::session::connected_runner(r, rb);
    assert(crate::session::lose(r1, e).out =~= crate::report::error_lines(e) + seq![
        crate::report::failure("Connection to Rekordbox lost"@),
        crate::report::info("Reconnecting in 3s..."@),
    ]);
}

/// An update and the pause after it take the time of one period: if some of it is left when the
/// clock is read first, the pause is what is left when it is read again, and it must not have run
/// out in between. An update that takes longer is followed by the next one at once.
pub proof fn lemma_update_and_pause_fill_a_period(r: RunnerView, first: u128, second: u128)
    requires
        r.settings.update_rate > 0,
    ensures
        r.settings.period() > first ==> {
            &&& crate::session::on_elapsed(r, first).next matches Next::Ask(RequestView::Elapsed, s)
            &&& s.runner == r
            &&& second <= r.settings.period() ==> (s.on_reply(ReplyView::Elapsed(second)).next
                matches Next::Ask(RequestView::Sleep(pause), _) && second + pause
                == r.settings.period())
            &&& second > r.settings.period() ==> s.on_reply(ReplyView::Elapsed(second)).next
                == Next::<RequestView, SessionView, ()>::Fault(Fault::PeriodOverrun)
        },
        r.settings.period() <= first ==> crate::session::on_elapsed(r, first)
            == crate::session::round(r),
{
    vstd::arithmetic::div_mod::lemma_div_is_ordered_by_denominator(
        1_000_000,
        1,
        r.settings.update_rate as int,
    );
    assert(0 <= 1_000_000int / r.settings.update_rate as int <= 1_000_000) by {
        vstd::arithmetic::div_mod::lemma_div_pos_is_pos(
            1_000_000,
            r.settings.update_rate as int,
        );
    }
}

/// What is said while the modules are started: of each that is enabled, in order, its name, and then,
/// if it cannot be started, that it cannot. `parts` is this, module by module.
pub proof fn lemma_what_is_said_of_modules(
    w: World,
    modules: Seq<ModuleView>,
    parts: Seq<Seq<OutputView>>,
)
    requires
        parts.len() == modules.len(),
        forall|i: int|
            0 <= i < modules.len() ==> #[trigger] parts[i] == said_of_module(w, modules, i),
    ensures
        module_lines(w, modules, 0) == parts.flatten(),
{
    lemma_said_from(w, modules, parts, 0);
    assert(parts.skip(0) =~= parts);
}

/// What is said of one module.
pub open spec fn said_of_module(w: World, modules: Seq<ModuleView>, i: int) -> Seq<OutputView> {
    let named = OutputView::Log(Level::Info, " - "@ + modules[i].pretty_name);
    let failed = OutputView::Log(
        Level::Error,
        "Failed to start module "@ + modules[i].pretty_name,
    );
    if !(w.enabled)(modules[i].config_name + ".enabled"@) {
        Seq::empty()
    } else if (w.created)(i as usize) {
        seq![named]
    } else {
        seq![named, failed]
    }
}

proof fn lemma_said_from(
    w: World,
    modules: Seq<ModuleView>,
    parts: Seq<Seq<OutputView>>,
    i: int,
)
    requires
        0 <= i <= modules.len(),
        parts.len() == modules.len(),
        forall|j: int|
            0 <= j < modules.len() ==> #[trigger] parts[j] == said_of_module(w, modules, j),
    ensures
        module_lines(w, modules, i) == parts.skip(i).flatten(),
    decreases modules.len() - i,
{
    if i < modules.len() {
        let rest = parts.skip(i);
        lemma_said_from(w, modules, parts, i + 1);
        assert(rest.drop_first() =~= parts.skip(i + 1));
        assert(rest.first() == parts[i]);
        assert(parts[i] == said_of_module(w, modules, i));
        assert(module_lines(w, modules, i) =~= parts[i] + module_lines(w, modules, i + 1));
    }
}

} // verus!
