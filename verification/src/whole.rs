//! What reading and connecting come to as a whole, in surroundings that hold still.
use crate::chain::{ChainStep, ChainValueView};
use crate::memory::{PointerView, ReadErrorView};
use crate::protocol::{Fault, Next, RequestView, Settled, World};
use crate::reading::{TextReadView, TextStageView, TextStep};
use crate::rekordbox::{ConnectStep, ConnectView, OffsetsView, RekordboxView, ValuesStep, ValuesView};
use vstd::prelude::*;

verus! {

/// The last step of an activity that ended in this way.
pub open spec fn last_step<Q, S, T>(r: Settled<T>) -> Next<Q, S, T> {
    match r {
        Settled::Done(t) => Next::Done(t),
        Settled::Fault(f) => Next::Fault(f),
    }
}

/// The chain is not longer than a list can be.
pub open spec fn fits(p: PointerView) -> bool {
    p.offsets.len() <= usize::MAX
}

/// None of the chains is longer than a list can be.
pub open spec fn all_fit(pointers: Seq<PointerView>) -> bool {
    forall|i: int| 0 <= i < pointers.len() ==> fits(#[trigger] pointers[i])
}

// Lists of pointers.
/// The step of following a list of pointers when the chain of the next one is at `n`.
pub open spec fn values_walk(
    pointers: Seq<PointerView>,
    base: usize,
    found: Seq<usize>,
    n: ChainStep,
) -> ValuesStep {
    match n {
        Next::Ask(q, walk) => Next::Ask(q, ValuesView { found, walk }),
        Next::Done(Ok(address)) => crate::rekordbox::values_step(
            pointers,
            base,
            found.push(address),
        ),
        Next::Done(Err(e)) => Next::Done(Err(e)),
        Next::Fault(f) => Next::Fault(f),
    }
}

/// What following a list of pointers comes to, from this step on, in at most `fuel` answers.
pub open spec fn run_values(
    w: World,
    pointers: Seq<PointerView>,
    base: usize,
    n: ValuesStep,
    fuel: nat,
) -> Option<Settled<Result<Seq<usize>, ReadErrorView>>>
    decreases fuel,
{
    match n {
        Next::Done(r) => Some(Settled::Done(r)),
        Next::Fault(f) => Some(Settled::Fault(f)),
        Next::Ask(q, s) => if fuel == 0 {
            None
        } else {
            run_values(
                w,
                pointers,
                base,
                s.on_reply(pointers, base, w.answer(q)),
                (fuel - 1) as nat,
            )
        },
    }
}

/// Answering its requests, following a list of pointers comes to `r` in the end.
pub open spec fn values_come_to(
    w: World,
    pointers: Seq<PointerView>,
    base: usize,
    n: ValuesStep,
    r: Settled<Result<Seq<usize>, ReadErrorView>>,
) -> bool {
    exists|fuel: nat| #[trigger] run_values(w, pointers, base, n, fuel) == Some(r)
}

/// Where the pointers lead from `base`, one after the other, when the first of them led to
/// `found`. The first that leads nowhere decides.
pub open spec fn destinations(w: World, pointers: Seq<PointerView>, base: usize, found: Seq<usize>) -> Settled<
    Result<Seq<usize>, ReadErrorView>,
>
    decreases pointers.len() - found.len(),
{
    if found.len() >= pointers.len() {
        Settled::Done(Ok(found))
    } else {
        match crate::chain::destination(w, pointers[found.len() as int], 0, base) {
            Settled::Done(Ok(address)) => destinations(w, pointers, base, found.push(address)),
            Settled::Done(Err(e)) => Settled::Done(Err(e)),
            Settled::Fault(f) => Settled::Fault(f),
        }
    }
}

proof fn lemma_values_walk(
    w: World,
    pointers: Seq<PointerView>,
    base: usize,
    found: Seq<usize>,
    n: ChainStep,
    fuel: nat,
    r: Settled<Result<Seq<usize>, ReadErrorView>>,
)
    requires
        crate::chain::run_chain(w, n, fuel) is Some,
        values_come_to(
            w,
            pointers,
            base,
            values_walk(pointers, base, found, last_step(crate::chain::run_chain(w, n, fuel)->0)),
            r,
        ),
    ensures
        values_come_to(w, pointers, base, values_walk(pointers, base, found, n), r),
    decreases fuel,
{
    match n {
        Next::Ask(q, walk) => {
            let next = walk.on_reply(w.answer(q));
            lemma_values_walk(w, pointers, base, found, next, (fuel - 1) as nat, r);
            let more = choose|more: nat|
                #[trigger] run_values(
                    w,
                    pointers,
                    base,
                    values_walk(pointers, base, found, next),
                    more,
                ) == Some(r);
            assert(ValuesView { found, walk }.on_reply(pointers, base, w.answer(q)) == values_walk(
                pointers,
                base,
                found,
                next,
            ));
            assert(run_values(
                w,
                pointers,
                base,
                values_walk(pointers, base, found, n),
                more + 1,
            ) == Some(r));
        },
        _ => {},
    }
}

/// Answering each request, following a list of pointers leads where they lead.
pub proof fn lemma_pointers_reach_their_destinations(
    w: World,
    pointers: Seq<PointerView>,
    base: usize,
    found: Seq<usize>,
)
    requires
        all_fit(pointers),
    ensures
        values_come_to(
            w,
            pointers,
            base,
            crate::rekordbox::values_step(pointers, base, found),
            destinations(w, pointers, base, found),
        ),
    decreases pointers.len() - found.len(),
{
    let n = crate::rekordbox::values_step(pointers, base, found);
    let r = destinations(w, pointers, base, found);
    if found.len() >= pointers.len() {
        assert(run_values(w, pointers, base, n, 0) == Some(r));
    } else {
        let p = pointers[found.len() as int];
        let first = crate::chain::chain_step(p, 0, base);
        let end = crate::chain::destination(w, p, 0, base);
        crate::chain::lemma_chain_reaches_its_destination(w, p, 0, base);
        match end {
            Settled::Done(Ok(address)) => {
                lemma_pointers_reach_their_destinations(w, pointers, base, found.push(address));
            },
            _ => {
                assert(run_values(
                    w,
                    pointers,
                    base,
                    values_walk(pointers, base, found, last_step(end)),
                    0,
                ) == Some(r));
            },
        }
        lemma_values_walk(w, pointers, base, found, first, p.offsets.len(), r);
    }
}

// Texts.
/// What reading texts comes to, from this step on, in at most `fuel` answers.
pub open spec fn run_texts(w: World, chains: Seq<ChainValueView>, n: TextStep, fuel: nat) -> Option<
    Settled<Result<Seq<Seq<char>>, ReadErrorView>>,
>
    decreases fuel,
{
    match n {
        Next::Done(r) => Some(Settled::Done(r)),
        Next::Fault(f) => Some(Settled::Fault(f)),
        Next::Ask(q, s) => if fuel == 0 {
            None
        } else {
            run_texts(w, chains, s.on_reply(chains, w.answer(q)), (fuel - 1) as nat)
        },
    }
}

/// Answering its requests, reading texts comes to `r` in the end.
pub open spec fn texts_come_to(
    w: World,
    chains: Seq<ChainValueView>,
    n: TextStep,
    r: Settled<Result<Seq<Seq<char>>, ReadErrorView>>,
) -> bool {
    exists|fuel: nat| #[trigger] run_texts(w, chains, n, fuel) == Some(r)
}

/// The texts that the chains lead to, when the first of them are `texts`. The first that cannot be
/// read decides.
pub open spec fn texts_at(w: World, chains: Seq<ChainValueView>, size: usize, texts: Seq<Seq<char>>) -> Settled<
    Result<Seq<Seq<char>>, ReadErrorView>,
>
    decreases chains.len() - texts.len(),
{
    if texts.len() >= chains.len() {
        Settled::Done(Ok(texts))
    } else {
        let chain = chains[texts.len() as int];
        match crate::chain::destination(w, chain.pointer, 0, chain.base) {
            Settled::Done(Ok(address)) => match (w.block)(address, size) {
                Ok(bytes) => texts_at(w, chains, size, texts.push(crate::text::block_text(bytes))),
                Err(e) => Settled::Done(Err(crate::chain::plain_failure(address, e))),
            },
            Settled::Done(Err(e)) => Settled::Done(Err(e)),
            Settled::Fault(f) => Settled::Fault(f),
        }
    }
}

proof fn lemma_text_walk(
    w: World,
    chains: Seq<ChainValueView>,
    size: usize,
    texts: Seq<Seq<char>>,
    n: ChainStep,
    fuel: nat,
    r: Settled<Result<Seq<Seq<char>>, ReadErrorView>>,
)
    requires
        crate::chain::run_chain(w, n, fuel) is Some,
        texts_come_to(
            w,
            chains,
            crate::reading::text_block(
                size,
                texts,
                last_step(crate::chain::run_chain(w, n, fuel)->0),
            ),
            r,
        ),
    ensures
        texts_come_to(w, chains, crate::reading::text_block(size, texts, n), r),
    decreases fuel,
{
    match n {
        Next::Ask(q, walk) => {
            let next = walk.on_reply(w.answer(q));
            lemma_text_walk(w, chains, size, texts, next, (fuel - 1) as nat, r);
            let more = choose|more: nat|
                #[trigger] run_texts(
                    w,
                    chains,
                    crate::reading::text_block(size, texts, next),
                    more,
                ) == Some(r);
            let s = TextReadView { size, texts, stage: TextStageView::Walk(walk) };
            assert(s.on_reply(chains, w.answer(q)) == crate::reading::text_block(
                size,
                texts,
                next,
            ));
            assert(run_texts(
                w,
                chains,
                crate::reading::text_block(size, texts, n),
                more + 1,
            ) == Some(r));
        },
        _ => {},
    }
}

/// None of the chains is longer than a list can be.
pub open spec fn all_chains_fit(chains: Seq<ChainValueView>) -> bool {
    forall|i: int| 0 <= i < chains.len() ==> fits((#[trigger] chains[i]).pointer)
}

/// Answering each request, reading texts gives the texts that the chains lead to.
pub proof fn lemma_texts_are_read(
    w: World,
    chains: Seq<ChainValueView>,
    size: usize,
    texts: Seq<Seq<char>>,
)
    requires
        all_chains_fit(chains),
    ensures
        texts_come_to(
            w,
            chains,
            crate::reading::text_step(chains, size, texts),
            texts_at(w, chains, size, texts),
        ),
    decreases chains.len() - texts.len(),
{
    let n = crate::reading::text_step(chains, size, texts);
    let r = texts_at(w, chains, size, texts);
    if texts.len() >= chains.len() {
        assert(run_texts(w, chains, n, 0) == Some(r));
    } else {
        let chain = chains[texts.len() as int];
        let p = chain.pointer;
        let first = crate::chain::chain_step(p, 0, chain.base);
        let end = crate::chain::destination(w, p, 0, chain.base);
        crate::chain::lemma_chain_reaches_its_destination(w, p, 0, chain.base);
        let arrived = crate::reading::text_block(size, texts, last_step(end));
        match end {
            Settled::Done(Ok(address)) => {
                let s = TextReadView { size, texts, stage: TextStageView::Block(address) };
                let q = RequestView::Block(address, size);
                let next = s.on_reply(chains, w.answer(q));
                match (w.block)(address, size) {
                    Ok(bytes) => {
                        let grown = texts.push(crate::text::block_text(bytes));
                        lemma_texts_are_read(w, chains, size, grown);
                        let more = choose|more: nat|
                            #[trigger] run_texts(w, chains, next, more) == Some(r);
                        assert(run_texts(w, chains, arrived, more + 1) == Some(r));
                    },
                    Err(_) => {
                        assert(run_texts(w, chains, next, 0) == Some(r));
                        assert(run_texts(w, chains, arrived, 1) == Some(r));
                    },
                }
            },
            _ => {
                assert(run_texts(w, chains, arrived, 0) == Some(r));
            },
        }
        lemma_text_walk(w, chains, size, texts, first, p.offsets.len(), r);
    }
}

// Connections.
/// What making a connection comes to, from this step on, in at most `fuel` answers.
pub open spec fn run_connect(w: World, o: OffsetsView, decks: usize, n: ConnectStep, fuel: nat) -> Option<
    Settled<Result<RekordboxView, ReadErrorView>>,
>
    decreases fuel,
{
    match n {
        Next::Done(r) => Some(Settled::Done(r)),
        Next::Fault(f) => Some(Settled::Fault(f)),
        Next::Ask(q, s) => if fuel == 0 {
            None
        } else {
            run_connect(w, o, decks, s.on_reply(o, decks, w.answer(q)), (fuel - 1) as nat)
        },
    }
}

/// Answering its requests, making a connection comes to `r` in the end.
pub open spec fn connection_comes_to(
    w: World,
    o: OffsetsView,
    decks: usize,
    n: ConnectStep,
    r: Settled<Result<RekordboxView, ReadErrorView>>,
) -> bool {
    exists|fuel: nat| #[trigger] run_connect(w, o, decks, n, fuel) == Some(r)
}

/// The connection that can be made: the process is looked up, then its module, and then where the
/// pointers to the tempi, to the positions and to the number of the master deck lead. The first
/// thing that fails decides.
pub open spec fn connection(w: World, o: OffsetsView, decks: usize) -> Settled<
    Result<RekordboxView, ReadErrorView>,
> {
    match w.process {
        Err(e) => Settled::Done(Err(crate::chain::plain_failure(0, e))),
        Ok(_) => match w.base {
            Err(e) => Settled::Done(Err(crate::chain::plain_failure(0, e))),
            Ok(base) => if o.current_bpm.len() < decks {
                Settled::Fault(Fault::MissingOffsets)
            } else {
                match destinations(w, o.current_bpm.take(decks as int), base, Seq::empty()) {
                    Settled::Done(Ok(tempos)) => connection_of(w, o, decks, base, tempos),
                    Settled::Done(Err(e)) => Settled::Done(Err(e)),
                    Settled::Fault(f) => Settled::Fault(f),
                }
            },
        },
    }
}

/// The connection that can be made when the tempi have been found.
pub open spec fn connection_of(w: World, o: OffsetsView, decks: usize, base: usize, tempos: Seq<usize>) -> Settled<
    Result<RekordboxView, ReadErrorView>,
> {
    if o.sample_position.len() < decks {
        Settled::Fault(Fault::MissingOffsets)
    } else {
        match destinations(w, o.sample_position.take(decks as int), base, Seq::empty()) {
            Settled::Done(Ok(positions)) => if o.track_info.len() < decks || o.anlz_path.len()
                < decks {
                Settled::Fault(Fault::MissingOffsets)
            } else {
                match crate::chain::destination(w, o.masterdeck_index, 0, base) {
                    Settled::Done(Ok(master)) => Settled::Done(
                        Ok(
                            crate::rekordbox::connected(
                                o,
                                decks,
                                base,
                                tempos,
                                positions,
                                master,
                            ),
                        ),
                    ),
                    Settled::Done(Err(e)) => Settled::Done(Err(e)),
                    Settled::Fault(f) => Settled::Fault(f),
                }
            },
            Settled::Done(Err(e)) => Settled::Done(Err(e)),
            Settled::Fault(f) => Settled::Fault(f),
        }
    }
}

proof fn lemma_connect_ask(
    w: World,
    o: OffsetsView,
    decks: usize,
    q: RequestView,
    s: ConnectView,
    r: Settled<Result<RekordboxView, ReadErrorView>>,
)
    requires
        connection_comes_to(w, o, decks, s.on_reply(o, decks, w.answer(q)), r),
    ensures
        connection_comes_to(w, o, decks, Next::Ask(q, s), r),
{
    let more = choose|more: nat|
        #[trigger] run_connect(w, o, decks, s.on_reply(o, decks, w.answer(q)), more) == Some(r);
    assert(run_connect(w, o, decks, Next::Ask(q, s), more + 1) == Some(r));
}

proof fn lemma_connect_ends(
    w: World,
    o: OffsetsView,
    decks: usize,
    r: Settled<Result<RekordboxView, ReadErrorView>>,
)
    ensures
        connection_comes_to(w, o, decks, last_step(r), r),
{
    assert(run_connect(w, o, decks, last_step(r), 0) == Some(r));
}

proof fn lemma_connect_tempos(
    w: World,
    o: OffsetsView,
    decks: usize,
    base: usize,
    n: ValuesStep,
    fuel: nat,
    r: Settled<Result<RekordboxView, ReadErrorView>>,
)
    requires
        run_values(w, o.current_bpm.take(decks as int), base, n, fuel) is Some,
        connection_comes_to(
            w,
            o,
            decks,
            crate::rekordbox::connect_tempos(
                o,
                decks,
                base,
                last_step(run_values(w, o.current_bpm.take(decks as int), base, n, fuel)->0),
            ),
            r,
        ),
    ensures
        connection_comes_to(w, o, decks, crate::rekordbox::connect_tempos(o, decks, base, n), r),
    decreases fuel,
{
    match n {
        Next::Ask(q, read) => {
            let next = read.on_reply(o.current_bpm.take(decks as int), base, w.answer(q));
            lemma_connect_tempos(w, o, decks, base, next, (fuel - 1) as nat, r);
            lemma_connect_ask(w, o, decks, q, ConnectView::Tempos { base, read }, r);
        },
        _ => {},
    }
}

proof fn lemma_connect_positions(
    w: World,
    o: OffsetsView,
    decks: usize,
    base: usize,
    tempos: Seq<usize>,
    n: ValuesStep,
    fuel: nat,
    r: Settled<Result<RekordboxView, ReadErrorView>>,
)
    requires
        run_values(w, o.sample_position.take(decks as int), base, n, fuel) is Some,
        connection_comes_to(
            w,
            o,
            decks,
            crate::rekordbox::connect_positions(
                o,
                decks,
                base,
                tempos,
                last_step(run_values(w, o.sample_position.take(decks as int), base, n, fuel)->0),
            ),
            r,
        ),
    ensures
        connection_comes_to(
            w,
            o,
            decks,
            crate::rekordbox::connect_positions(o, decks, base, tempos, n),
            r,
        ),
    decreases fuel,
{
    match n {
        Next::Ask(q, read) => {
            let next = read.on_reply(o.sample_position.take(decks as int), base, w.answer(q));
            lemma_connect_positions(w, o, decks, base, tempos, next, (fuel - 1) as nat, r);
            lemma_connect_ask(w, o, decks, q, ConnectView::Positions { base, tempos, read }, r);
        },
        _ => {},
    }
}

proof fn lemma_connect_master(
    w: World,
    o: OffsetsView,
    decks: usize,
    base: usize,
    tempos: Seq<usize>,
    positions: Seq<usize>,
    n: ChainStep,
    fuel: nat,
    r: Settled<Result<RekordboxView, ReadErrorView>>,
)
    requires
        crate::chain::run_chain(w, n, fuel) is Some,
        connection_comes_to(
            w,
            o,
            decks,
            crate::rekordbox::connect_master(
                o,
                decks,
                base,
                tempos,
                positions,
                last_step(crate::chain::run_chain(w, n, fuel)->0),
            ),
            r,
        ),
    ensures
        connection_comes_to(
            w,
            o,
            decks,
            crate::rekordbox::connect_master(o, decks, base, tempos, positions, n),
            r,
        ),
    decreases fuel,
{
    match n {
        Next::Ask(q, walk) => {
            let next = walk.on_reply(w.answer(q));
            lemma_connect_master(
                w,
                o,
                decks,
                base,
                tempos,
                positions,
                next,
                (fuel - 1) as nat,
                r,
            );
            lemma_connect_ask(
                w,
                o,
                decks,
                q,
                ConnectView::Master { base, tempos, positions, walk },
                r,
            );
        },
        _ => {},
    }
}

/// None of the chains is longer than a list can be.
pub open spec fn offsets_fit(o: OffsetsView) -> bool {
    &&& all_fit(o.current_bpm)
    &&& all_fit(o.sample_position)
    &&& all_fit(o.track_info)
    &&& all_fit(o.anlz_path)
    &&& fits(o.masterdeck_index)
}

proof fn lemma_connection_of(w: World, o: OffsetsView, decks: usize, base: usize, tempos: Seq<usize>)
    requires
        offsets_fit(o),
        decks <= o.sample_position.len(),
    ensures
        connection_comes_to(
            w,
            o,
            decks,
            crate::rekordbox::connect_positions(
                o,
                decks,
                base,
                tempos,
                crate::rekordbox::values_step(
                    o.sample_position.take(decks as int),
                    base,
                    Seq::empty(),
                ),
            ),
            connection_of(w, o, decks, base, tempos),
        ),
{
    let r = connection_of(w, o, decks, base, tempos);
    let pointers = o.sample_position.take(decks as int);
    let n = crate::rekordbox::values_step(pointers, base, Seq::empty());
    let end = destinations(w, pointers, base, Seq::empty());
    lemma_pointers_reach_their_destinations(w, pointers, base, Seq::empty());
    let fuel = choose|fuel: nat| #[trigger] run_values(w, pointers, base, n, fuel) == Some(end);
    match end {
        Settled::Done(Ok(positions)) => {
            if o.track_info.len() >= decks && o.anlz_path.len() >= decks {
                let p = o.masterdeck_index;
                crate::chain::lemma_chain_reaches_its_destination(w, p, 0, base);
                lemma_connect_ends(w, o, decks, r);
                lemma_connect_master(
                    w,
                    o,
                    decks,
                    base,
                    tempos,
                    positions,
                    crate::chain::chain_step(p, 0, base),
                    p.offsets.len(),
                    r,
                );
            } else {
                lemma_connect_ends(w, o, decks, r);
            }
        },
        _ => {
            lemma_connect_ends(w, o, decks, r);
        },
    }
    lemma_connect_positions(w, o, decks, base, tempos, n, fuel, r);
}

/// Answering each request, the connection is made that can be made.
pub proof fn lemma_connection_is_made(w: World, o: OffsetsView, decks: usize)
    requires
        offsets_fit(o),
    ensures
        connection_comes_to(
            w,
            o,
            decks,
            Next::Ask(RequestView::Process, ConnectView::Process),
            connection(w, o, decks),
        ),
{
    let r = connection(w, o, decks);
    match w.process {
        Err(_) => {
            lemma_connect_ends(w, o, decks, r);
        },
        Ok(_) => {
            match w.base {
                Ok(base) if o.current_bpm.len() >= decks => {
                    let pointers = o.current_bpm.take(decks as int);
                    let n = crate::rekordbox::values_step(pointers, base, Seq::empty());
                    let end = destinations(w, pointers, base, Seq::empty());
                    lemma_pointers_reach_their_destinations(w, pointers, base, Seq::empty());
                    let fuel = choose|fuel: nat|
                        #[trigger] run_values(w, pointers, base, n, fuel) == Some(end);
                    match end {
                        Settled::Done(Ok(tempos)) => {
                            if o.sample_position.len() >= decks {
                                lemma_connection_of(w, o, decks, base, tempos);
                            } else {
                                lemma_connect_ends(w, o, decks, r);
                            }
                        },
                        _ => {
                            lemma_connect_ends(w, o, decks, r);
                        },
                    }
                    lemma_connect_tempos(w, o, decks, base, n, fuel, r);
                },
                _ => {
                    lemma_connect_ends(w, o, decks, r);
                },
            }
            lemma_connect_ask(w, o, decks, RequestView::ModuleBase, ConnectView::Module, r);
        },
    }
    lemma_connect_ask(w, o, decks, RequestView::Process, ConnectView::Process, r);
}

proof fn lemma_destination_count(w: World, pointers: Seq<PointerView>, base: usize, found: Seq<usize>)
    requires
        found.len() <= pointers.len(),
    ensures
        destinations(w, pointers, base, found) matches Settled::Done(Ok(r)) ==> r.len()
            == pointers.len(),
    decreases pointers.len() - found.len(),
{
    if found.len() < pointers.len() {
        match crate::chain::destination(w, pointers[found.len() as int], 0, base) {
            Settled::Done(Ok(address)) => {
                lemma_destination_count(w, pointers, base, found.push(address));
            },
            _ => {},
        }
    }
}

/// A connection that is made knows everything of as many decks as were asked for, and its chains
/// are those of the offsets.
pub proof fn lemma_connection_is_complete(w: World, o: OffsetsView, decks: usize)
    requires
        offsets_fit(o),
    ensures
        connection(w, o, decks) matches Settled::Done(Ok(rb)) ==> {
            &&& rb.wf()
            &&& rb.deckcount == decks
            &&& all_chains_fit(rb.track_infos)
            &&& all_chains_fit(rb.anlz_paths)
        },
{
    match (w.process, w.base) {
        (Ok(_), Ok(base)) => {
            if decks <= o.current_bpm.len() {
                lemma_destination_count(w, o.current_bpm.take(decks as int), base, Seq::empty());
            }
            if decks <= o.sample_position.len() {
                lemma_destination_count(
                    w,
                    o.sample_position.take(decks as int),
                    base,
                    Seq::empty(),
                );
            }
        },
        _ => {},
    }
}

/// Where pointers lead is found exactly if each of them leads somewhere, and each is found in its
/// place. If one leads nowhere, and all ahead of it lead somewhere, then what became of it is what
/// becomes of all.
pub proof fn lemma_each_pointer_is_followed(
    w: World,
    pointers: Seq<PointerView>,
    base: usize,
    found: Seq<usize>,
)
    requires
        found.len() <= pointers.len(),
        forall|i: int|
            0 <= i < found.len() ==> crate::chain::destination(w, #[trigger] pointers[i], 0, base)
                == Settled::Done(Ok::<usize, ReadErrorView>(found[i])),
    ensures
        found.len() == pointers.len() ==> destinations(w, pointers, base, Seq::empty())
            == Settled::Done(Ok::<Seq<usize>, ReadErrorView>(found)),
        found.len() < pointers.len() ==> (match crate::chain::destination(
            w,
            pointers[found.len() as int],
            0,
            base,
        ) {
            Settled::Done(Ok(_)) => true,
            Settled::Done(Err(e)) => destinations(w, pointers, base, Seq::empty()) == Settled::Done(
                Err::<Seq<usize>, ReadErrorView>(e),
            ),
            Settled::Fault(f) => destinations(w, pointers, base, Seq::empty()) == Settled::<
                Result<Seq<usize>, ReadErrorView>,
            >::Fault(f),
        }),
{
    lemma_found_so_far(w, pointers, base, found);
}

proof fn lemma_found_so_far(w: World, pointers: Seq<PointerView>, base: usize, found: Seq<usize>)
    requires
        found.len() <= pointers.len(),
        forall|i: int|
            0 <= i < found.len() ==> crate::chain::destination(w, #[trigger] pointers[i], 0, base)
                == Settled::Done(Ok::<usize, ReadErrorView>(found[i])),
    ensures
        destinations(w, pointers, base, Seq::empty()) == destinations(w, pointers, base, found),
    decreases found.len(),
{
    if found.len() > 0 {
        let n = found.len() - 1;
        lemma_found_so_far(w, pointers, base, found.drop_last());
        assert(crate::chain::destination(w, pointers[n], 0, base) == Settled::Done(
            Ok::<usize, ReadErrorView>(found[n]),
        ));
        assert(found.drop_last().push(found[n]) =~= found);
    } else {
        assert(found =~= Seq::empty());
    }
}

/// The text that a chain leads to is `text`: the chain leads to an address, and the block there can
/// be read and holds it.
pub open spec fn holds_text(w: World, chain: ChainValueView, size: usize, text: Seq<char>) -> bool {
    crate::chain::destination(w, chain.pointer, 0, chain.base) matches Settled::Done(Ok(address)) && {
        &&& (w.block)(address, size) is Ok
        &&& text == crate::text::block_text((w.block)(address, size)->Ok_0)
    }
}

/// Texts are read exactly if each chain leads to one, and each text is found in its place. If one
/// cannot be read, and all ahead of it can, then what became of it is what becomes of all.
pub proof fn lemma_each_text_is_read(
    w: World,
    chains: Seq<ChainValueView>,
    size: usize,
    texts: Seq<Seq<char>>,
)
    requires
        texts.len() <= chains.len(),
        forall|i: int|
            0 <= i < texts.len() ==> holds_text(w, #[trigger] chains[i], size, texts[i]),
    ensures
        texts.len() == chains.len() ==> texts_at(w, chains, size, Seq::empty()) == Settled::Done(
            Ok::<Seq<Seq<char>>, ReadErrorView>(texts),
        ),
        texts.len() < chains.len() ==> {
            let chain = chains[texts.len() as int];
            match crate::chain::destination(w, chain.pointer, 0, chain.base) {
                Settled::Done(Ok(address)) => (w.block)(address, size) matches Err(error)
                    ==> texts_at(w, chains, size, Seq::empty()) == Settled::Done(
                    Err::<Seq<Seq<char>>, ReadErrorView>(
                        (ReadErrorView { pointer: None, address, error }),
                    ),
                ),
                Settled::Done(Err(e)) => texts_at(w, chains, size, Seq::empty()) == Settled::Done(
                    Err::<Seq<Seq<char>>, ReadErrorView>(e),
                ),
                Settled::Fault(f) => texts_at(w, chains, size, Seq::empty()) == Settled::<
                    Result<Seq<Seq<char>>, ReadErrorView>,
                >::Fault(f),
            }
        },
{
    lemma_read_so_far(w, chains, size, texts);
}

proof fn lemma_read_so_far(
    w: World,
    chains: Seq<ChainValueView>,
    size: usize,
    texts: Seq<Seq<char>>,
)
    requires
        texts.len() <= chains.len(),
        forall|i: int|
            0 <= i < texts.len() ==> holds_text(w, #[trigger] chains[i], size, texts[i]),
    ensures
        texts_at(w, chains, size, Seq::empty()) == texts_at(w, chains, size, texts),
    decreases texts.len(),
{
    if texts.len() > 0 {
        let n = texts.len() - 1;
        lemma_read_so_far(w, chains, size, texts.drop_last());
        assert(holds_text(w, chains[n], size, texts[n]));
        assert(texts.drop_last().push(texts[n]) =~= texts);
    } else {
        assert(texts =~= Seq::empty());
    }
}

/// The texts that are read are those that the chains lead to, each in its place.
pub proof fn lemma_texts_are_in_their_places(
    w: World,
    chains: Seq<ChainValueView>,
    size: usize,
    texts: Seq<Seq<char>>,
)
    requires
        texts.len() <= chains.len(),
    ensures
        texts_at(w, chains, size, texts) matches Settled::Done(Ok(r)) ==> {
            &&& r.len() == chains.len()
            &&& forall|i: int| 0 <= i < texts.len() ==> #[trigger] r[i] == texts[i]
            &&& forall|i: int|
                texts.len() <= i < chains.len() ==> holds_text(w, #[trigger] chains[i], size, r[i])
        },
    decreases chains.len() - texts.len(),
{
    if texts.len() < chains.len() {
        let n = texts.len() as int;
        let chain = chains[n];
        match crate::chain::destination(w, chain.pointer, 0, chain.base) {
            Settled::Done(Ok(address)) => match (w.block)(address, size) {
                Ok(bytes) => {
                    let grown = texts.push(crate::text::block_text(bytes));
                    lemma_texts_are_in_their_places(w, chains, size, grown);
                    match texts_at(w, chains, size, grown) {
                        Settled::Done(Ok(r)) => {
                            assert(r[n] == grown[n]);
                            assert forall|i: int| 0 <= i < n implies #[trigger] r[i] == texts[i] by {
                                assert(r[i] == grown[i]);
                            }
                        },
                        _ => {},
                    }
                },
                Err(_) => {},
            },
            _ => {},
        }
    }
}

/// If the process and its module are found, there are offsets for as many decks as are asked for,
/// and the pointers to each tempo, each position and the number of the master deck lead somewhere,
/// then the connection is made. It knows the tempo and the position of each deck by the addresses
/// that the pointers of that deck lead to, and track and analysis file of each deck by their chains
/// from the base of the module.
pub proof fn lemma_connection_knows_every_deck(
    w: World,
    o: OffsetsView,
    decks: usize,
    base: usize,
    tempos: Seq<usize>,
    positions: Seq<usize>,
    master: usize,
)
    requires
        w.process is Ok,
        w.base == Ok::<usize, crate::memory::MemoryError>(base),
        decks <= o.current_bpm.len(),
        decks <= o.sample_position.len(),
        decks <= o.track_info.len(),
        decks <= o.anlz_path.len(),
        tempos.len() == decks,
        positions.len() == decks,
        forall|d: int|
            0 <= d < decks ==> crate::chain::destination(w, #[trigger] o.current_bpm[d], 0, base)
                == Settled::Done(Ok::<usize, ReadErrorView>(tempos[d])),
        forall|d: int|
            0 <= d < decks ==> crate::chain::destination(
                w,
                #[trigger] o.sample_position[d],
                0,
                base,
            ) == Settled::Done(Ok::<usize, ReadErrorView>(positions[d])),
        crate::chain::destination(w, o.masterdeck_index, 0, base) == Settled::Done(
            Ok::<usize, ReadErrorView>(master),
        ),
    ensures
        connection(w, o, decks) matches Settled::Done(Ok(rb)) && {
            &&& rb.masterdeck_index == master
            &&& rb.current_bpms == tempos
            &&& rb.sample_positions == positions
            &&& rb.deckcount == decks
            &&& rb.track_infos.len() == decks && rb.anlz_paths.len() == decks
            &&& forall|d: int|
                0 <= d < decks ==> (#[trigger] rb.track_infos[d]).base == base
                    && rb.track_infos[d].pointer == o.track_info[d]
            &&& forall|d: int|
                0 <= d < decks ==> (#[trigger] rb.anlz_paths[d]).base == base
                    && rb.anlz_paths[d].pointer == o.anlz_path[d]
        },
{
    let first = o.current_bpm.take(decks as int);
    let second = o.sample_position.take(decks as int);
    assert forall|i: int| 0 <= i < tempos.len() implies crate::chain::destination(
        w,
        #[trigger] first[i],
        0,
        base,
    ) == Settled::Done(Ok::<usize, ReadErrorView>(tempos[i])) by {
        assert(first[i] == o.current_bpm[i]);
    }
    assert forall|i: int| 0 <= i < positions.len() implies crate::chain::destination(
        w,
        #[trigger] second[i],
        0,
        base,
    ) == Settled::Done(Ok::<usize, ReadErrorView>(positions[i])) by {
        assert(second[i] == o.sample_position[i]);
    }
    lemma_each_pointer_is_followed(w, first, base, tempos);
    lemma_each_pointer_is_followed(w, second, base, positions);
}

/// What becomes of a connection that cannot be made: a process or module that is not found is the
/// error, without a chain or an address; and so is the first of the pointers that leads nowhere,
/// tempi first, then positions, then the number of the master deck. Offsets that are missing are
/// noticed before the pointers of their kind are followed, and those for tracks and files after the
/// positions.
pub proof fn lemma_connection_fails(w: World, o: OffsetsView, decks: usize)
    ensures
        ({
            let r = connection(w, o, decks);
            match (w.process, w.base) {
                (Err(error), _) => r == Settled::Done(
                    Err::<RekordboxView, ReadErrorView>(
                        (ReadErrorView { pointer: None, address: 0, error }),
                    ),
                ),
                (Ok(_), Err(error)) => r == Settled::Done(
                    Err::<RekordboxView, ReadErrorView>(
                        (ReadErrorView { pointer: None, address: 0, error }),
                    ),
                ),
                (Ok(_), Ok(base)) => {
                    let missing = Settled::<Result<RekordboxView, ReadErrorView>>::Fault(
                        Fault::MissingOffsets,
                    );
                    let tempos = destinations(
                        w,
                        o.current_bpm.take(decks as int),
                        base,
                        Seq::empty(),
                    );
                    let positions = destinations(
                        w,
                        o.sample_position.take(decks as int),
                        base,
                        Seq::empty(),
                    );
                    let master = crate::chain::destination(w, o.masterdeck_index, 0, base);
                    if o.current_bpm.len() < decks {
                        r == missing
                    } else if !(tempos matches Settled::Done(Ok(_))) {
                        same_failure(tempos, r)
                    } else if o.sample_position.len() < decks {
                        r == missing
                    } else if !(positions matches Settled::Done(Ok(_))) {
                        same_failure(positions, r)
                    } else if o.track_info.len() < decks || o.anlz_path.len() < decks {
                        r == missing
                    } else if !(master matches Settled::Done(Ok(_))) {
                        same_failure(master, r)
                    } else {
                        r matches Settled::Done(Ok(_))
                    }
                },
            }
        }),
{
}

/// Both failed, and in the same way.
pub open spec fn same_failure<A, B>(
    a: Settled<Result<A, ReadErrorView>>,
    b: Settled<Result<B, ReadErrorView>>,
) -> bool {
    match a {
        Settled::Done(Ok(_)) => false,
        Settled::Done(Err(e)) => b == Settled::Done(Err::<B, ReadErrorView>(e)),
        Settled::Fault(f) => b == Settled::<Result<B, ReadErrorView>>::Fault(f),
    }
}

} // verus!
