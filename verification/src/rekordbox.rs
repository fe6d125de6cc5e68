//! Rekordbox as seen from outside: where its values are, and how they are read.
use crate::chain::{ChainNext, ChainStep, ChainValueView, PointerChainValue, Resolution, ResolutionView, Value};
use crate::memory::{Pointer, PointerView, ReadError, ReadErrorView};
use crate::protocol::{Fault, Next, Reply, ReplyView, Request, RequestView};
use vstd::prelude::*;

verus! {

/// Where one version of Rekordbox keeps its values: for each deck a pointer to its tempo, to its
/// position, to the text that describes its track, and to the path of its analysis file, and one
/// pointer to the number of the master deck.
#[derive(Debug)]
pub struct RekordboxOffsets {
    pub current_bpm: Vec<Pointer>,
    pub sample_position: Vec<Pointer>,
    pub track_info: Vec<Pointer>,
    pub anlz_path: Vec<Pointer>,
    pub masterdeck_index: Pointer,
}

/// A [`RekordboxOffsets`] as a value.
pub struct OffsetsView {
    pub current_bpm: Seq<PointerView>,
    pub sample_position: Seq<PointerView>,
    pub track_info: Seq<PointerView>,
    pub anlz_path: Seq<PointerView>,
    pub masterdeck_index: PointerView,
}

impl View for RekordboxOffsets {
    type V = OffsetsView;

    open spec fn view(&self) -> OffsetsView {
        OffsetsView {
            current_bpm: crate::chain::pointer_views(self.current_bpm@),
            sample_position: crate::chain::pointer_views(self.sample_position@),
            track_info: crate::chain::pointer_views(self.track_info@),
            anlz_path: crate::chain::pointer_views(self.anlz_path@),
            masterdeck_index: self.masterdeck_index@,
        }
    }
}

/// A connection: the addresses that were found when it was made, and the chains that are followed
/// anew for each read.
#[derive(Debug)]
pub struct Rekordbox {
    pub masterdeck_index: Value,
    pub current_bpms: Vec<Value>,
    pub sample_positions: Vec<Value>,
    pub track_infos: Vec<PointerChainValue>,
    pub anlz_paths: Vec<PointerChainValue>,
    pub deckcount: usize,
}

/// A [`Rekordbox`] as a value.
pub struct RekordboxView {
    pub masterdeck_index: usize,
    pub current_bpms: Seq<usize>,
    pub sample_positions: Seq<usize>,
    pub track_infos: Seq<ChainValueView>,
    pub anlz_paths: Seq<ChainValueView>,
    pub deckcount: usize,
}

impl View for Rekordbox {
    type V = RekordboxView;

    open spec fn view(&self) -> RekordboxView {
        RekordboxView {
            masterdeck_index: self.masterdeck_index.address,
            current_bpms: addresses(self.current_bpms@),
            sample_positions: addresses(self.sample_positions@),
            track_infos: crate::chain::chain_values(self.track_infos@),
            anlz_paths: crate::chain::chain_values(self.anlz_paths@),
            deckcount: self.deckcount,
        }
    }
}

impl RekordboxView {
    /// Everything is known of each deck.
    pub open spec fn wf(self) -> bool {
        &&& self.current_bpms.len() == self.deckcount
        &&& self.sample_positions.len() == self.deckcount
        &&& self.track_infos.len() == self.deckcount
        &&& self.anlz_paths.len() == self.deckcount
    }
}

/// The addresses of a list of values.
pub open spec fn addresses(values: Seq<Value>) -> Seq<usize> {
    values.map_values(|v: Value| v.address)
}

// Following a list of pointers, one after the other.
/// A list of chains that is being followed: the values that were found, and the chain that is
/// being followed now.
#[derive(Debug)]
pub struct ValuesRead {
    pub found: Vec<Value>,
    pub walk: Resolution,
}

/// A [`ValuesRead`] as a value.
pub struct ValuesView {
    pub found: Seq<usize>,
    pub walk: ResolutionView,
}

impl View for ValuesRead {
    type V = ValuesView;

    open spec fn view(&self) -> ValuesView {
        ValuesView { found: addresses(self.found@), walk: self.walk@ }
    }
}

pub type ValuesNext = Next<Request, ValuesRead, Result<Vec<Value>, ReadError>>;

pub type ValuesStep = Next<RequestView, ValuesView, Result<Seq<usize>, ReadErrorView>>;

/// The value of a [`ValuesNext`].
pub open spec fn values_view(n: ValuesNext) -> ValuesStep {
    match n {
        Next::Ask(q, s) => Next::Ask(q@, s@),
        Next::Done(Ok(v)) => Next::Done(Ok(addresses(v@))),
        Next::Done(Err(e)) => Next::Done(Err(e@)),
        Next::Fault(f) => Next::Fault(f),
    }
}

/// The step when the values of the first pointers are `found`: the next pointer is followed, and
/// when there is none left, the values are complete.
pub open spec fn values_step(pointers: Seq<PointerView>, base: usize, found: Seq<usize>) -> ValuesStep
    decreases pointers.len() - found.len(),
{
    if found.len() >= pointers.len() {
        Next::Done(Ok(found))
    } else {
        match crate::chain::chain_step(pointers[found.len() as int], 0, base) {
            Next::Ask(q, walk) => Next::Ask(q, ValuesView { found, walk }),
            Next::Done(Ok(address)) => values_step(pointers, base, found.push(address)),
            Next::Done(Err(e)) => Next::Done(Err(e)),
            Next::Fault(f) => Next::Fault(f),
        }
    }
}

impl ValuesView {
    /// The step that a reply leads to.
    pub open spec fn on_reply(
        self,
        pointers: Seq<PointerView>,
        base: usize,
        reply: ReplyView,
    ) -> ValuesStep {
        match self.walk.on_reply(reply) {
            Next::Ask(q, walk) => Next::Ask(q, ValuesView { found: self.found, walk }),
            Next::Done(Ok(address)) => values_step(pointers, base, self.found.push(address)),
            Next::Done(Err(e)) => Next::Done(Err(e)),
            Next::Fault(f) => Next::Fault(f),
        }
    }
}

impl ValuesRead {
    /// A chain is being followed, and it is that of one of the first `decks` pointers.
    pub open spec fn wf(&self, decks: usize) -> bool {
        self.walk.wf() && self.found.len() < decks
    }
}

/// Any state is well formed, and the values are complete if they are the result.
pub open spec fn values_wf(n: ValuesNext, decks: usize) -> bool {
    &&& n matches Next::Ask(_, s) ==> s.wf(decks)
    &&& n matches Next::Done(Ok(v)) ==> v.len() == decks
}

impl Value {
    /// Starts to follow the first `decks` of `pointers` from `base`, one after the other. The
    /// first that cannot be followed ends it.
    pub fn pointers_to_vals(base: usize, pointers: &Vec<Pointer>, decks: usize) -> (r: ValuesNext)
        requires
            decks <= pointers.len(),
        ensures
            values_view(r) == values_step(
                crate::chain::pointer_views(pointers@).take(decks as int),
                base,
                Seq::empty(),
            ),
            values_wf(r, decks),
    {
        let found: Vec<Value> = Vec::new();
        assert(addresses(found@) =~= Seq::empty());
        step_values(base, pointers, decks, found)
    }
}

fn step_values(base: usize, pointers: &Vec<Pointer>, decks: usize, known: Vec<Value>) -> (r:
    ValuesNext)
    requires
        known.len() <= decks <= pointers.len(),
    ensures
        values_view(r) == values_step(
            crate::chain::pointer_views(pointers@).take(decks as int),
            base,
            addresses(known@),
        ),
        values_wf(r, decks),
{
    let ghost views = crate::chain::pointer_views(pointers@).take(decks as int);
    let ghost start = values_step(views, base, addresses(known@));
    let mut found = known;
    while found.len() < decks
        invariant
            found.len() <= decks <= pointers.len(),
            views == crate::chain::pointer_views(pointers@).take(decks as int),
            start == values_step(views, base, addresses(known@)),
            start == values_step(views, base, addresses(found@)),
        decreases decks - found.len(),
    {
        let i: usize = found.len();
        assert(views[i as int] == pointers@[i as int]@);
        match Value::new(base, &pointers[i]) {
            Next::Ask(q, walk) => {
                return Next::Ask(q, ValuesRead { found, walk });
            },
            Next::Done(Ok(value)) => {
                let ghost before = addresses(found@);
                found.push(value);
                assert(addresses(found@) =~= before.push(value.address));
            },
            Next::Done(Err(e)) => {
                return Next::Done(Err(e));
            },
            Next::Fault(f) => {
                return Next::Fault(f);
            },
        }
    }
    Next::Done(Ok(found))
}

impl ValuesRead {
    /// Goes on with what was read.
    pub fn resume(self, base: usize, pointers: &Vec<Pointer>, decks: usize, reply: Reply) -> (r:
        ValuesNext)
        requires
            self.wf(decks),
            decks <= pointers.len(),
        ensures
            values_view(r) == self@.on_reply(
                crate::chain::pointer_views(pointers@).take(decks as int),
                base,
                reply@,
            ),
            values_wf(r, decks),
    {
        match self.walk.resume(reply) {
            Next::Ask(q, walk) => Next::Ask(q, ValuesRead { found: self.found, walk }),
            Next::Done(Ok(value)) => {
                let mut found = self.found;
                let ghost known = addresses(found@);
                found.push(value);
                assert(addresses(found@) =~= known.push(value.address));
                step_values(base, pointers, decks, found)
            },
            Next::Done(Err(e)) => Next::Done(Err(e)),
            Next::Fault(f) => Next::Fault(f),
        }
    }
}

// Making the connection.
/// A connection that is being made.
#[derive(Debug)]
pub enum Connect {
    /// Waiting for the process to be found.
    Process,
    /// Waiting for the base of its module.
    Module,
    /// Following the pointers to the tempi.
    Tempos { base: usize, read: ValuesRead },
    /// Following the pointers to the positions.
    Positions { base: usize, tempos: Vec<Value>, read: ValuesRead },
    /// Following the pointer to the number of the master deck.
    Master { base: usize, tempos: Vec<Value>, positions: Vec<Value>, walk: Resolution },
}

/// A [`Connect`] as a value.
pub enum ConnectView {
    Process,
    Module,
    Tempos { base: usize, read: ValuesView },
    Positions { base: usize, tempos: Seq<usize>, read: ValuesView },
    Master { base: usize, tempos: Seq<usize>, positions: Seq<usize>, walk: ResolutionView },
}

impl View for Connect {
    type V = ConnectView;

    open spec fn view(&self) -> ConnectView {
        match self {
            Connect::Process => ConnectView::Process,
            Connect::Module => ConnectView::Module,
            Connect::Tempos { base, read } => ConnectView::Tempos { base: *base, read: read@ },
            Connect::Positions { base, tempos, read } => ConnectView::Positions {
                base: *base,
                tempos: addresses(tempos@),
                read: read@,
            },
            Connect::Master { base, tempos, positions, walk } => ConnectView::Master {
                base: *base,
                tempos: addresses(tempos@),
                positions: addresses(positions@),
                walk: walk@,
            },
        }
    }
}

pub type ConnectNext = Next<Request, Connect, Result<Rekordbox, ReadError>>;

pub type ConnectStep = Next<RequestView, ConnectView, Result<RekordboxView, ReadErrorView>>;

/// The value of a [`ConnectNext`].
pub open spec fn connect_view(n: ConnectNext) -> ConnectStep {
    match n {
        Next::Ask(q, s) => Next::Ask(q@, s@),
        Next::Done(Ok(rb)) => Next::Done(Ok(rb@)),
        Next::Done(Err(e)) => Next::Done(Err(e@)),
        Next::Fault(f) => Next::Fault(f),
    }
}

/// The step once the base is known: the tempi are looked for.
pub open spec fn connect_base(o: OffsetsView, decks: usize, base: usize) -> ConnectStep {
    if o.current_bpm.len() < decks {
        Next::Fault(Fault::MissingOffsets)
    } else {
        connect_tempos(
            o,
            decks,
            base,
            values_step(o.current_bpm.take(decks as int), base, Seq::empty()),
        )
    }
}

/// The step when the search for the tempi is at `n`; after them, the positions are looked for.
pub open spec fn connect_tempos(
    o: OffsetsView,
    decks: usize,
    base: usize,
    n: ValuesStep,
) -> ConnectStep {
    match n {
        Next::Ask(q, read) => Next::Ask(q, ConnectView::Tempos { base, read }),
        Next::Done(Ok(tempos)) => if o.sample_position.len() < decks {
            Next::Fault(Fault::MissingOffsets)
        } else {
            connect_positions(
                o,
                decks,
                base,
                tempos,
                values_step(o.sample_position.take(decks as int), base, Seq::empty()),
            )
        },
        Next::Done(Err(e)) => Next::Done(Err(e)),
        Next::Fault(f) => Next::Fault(f),
    }
}

/// The step when the search for the positions is at `n`; after them, the number of the master
/// deck is looked for.
pub open spec fn connect_positions(
    o: OffsetsView,
    decks: usize,
    base: usize,
    tempos: Seq<usize>,
    n: ValuesStep,
) -> ConnectStep {
    match n {
        Next::Ask(q, read) => Next::Ask(q, ConnectView::Positions { base, tempos, read }),
        Next::Done(Ok(positions)) => if o.track_info.len() < decks || o.anlz_path.len() < decks {
            Next::Fault(Fault::MissingOffsets)
        } else {
            connect_master(
                o,
                decks,
                base,
                tempos,
                positions,
                crate::chain::chain_step(o.masterdeck_index, 0, base),
            )
        },
        Next::Done(Err(e)) => Next::Done(Err(e)),
        Next::Fault(f) => Next::Fault(f),
    }
}

/// The step when the search for the number of the master deck is at `n`; it is the last thing
/// that is looked for.
pub open spec fn connect_master(
    o: OffsetsView,
    decks: usize,
    base: usize,
    tempos: Seq<usize>,
    positions: Seq<usize>,
    n: ChainStep,
) -> ConnectStep {
    match n {
        Next::Ask(q, walk) => Next::Ask(q, ConnectView::Master { base, tempos, positions, walk }),
        Next::Done(Ok(address)) => Next::Done(
            Ok(connected(o, decks, base, tempos, positions, address)),
        ),
        Next::Done(Err(e)) => Next::Done(Err(e)),
        Next::Fault(f) => Next::Fault(f),
    }
}

/// The connection that the findings make up.
pub open spec fn connected(
    o: OffsetsView,
    decks: usize,
    base: usize,
    tempos: Seq<usize>,
    positions: Seq<usize>,
    master: usize,
) -> RekordboxView {
    RekordboxView {
        masterdeck_index: master,
        current_bpms: tempos,
        sample_positions: positions,
        track_infos: crate::chain::chains_from(base, o.track_info.take(decks as int)),
        anlz_paths: crate::chain::chains_from(base, o.anlz_path.take(decks as int)),
        deckcount: tempos.len() as usize,
    }
}

impl ConnectView {
    /// The step that a reply leads to.
    pub open spec fn on_reply(self, o: OffsetsView, decks: usize, reply: ReplyView) -> ConnectStep {
        match self {
            ConnectView::Process => match reply {
                ReplyView::Process(Ok(_)) => Next::Ask(RequestView::ModuleBase, ConnectView::Module),
                ReplyView::Process(Err(e)) => Next::Done(Err(crate::chain::plain_failure(0, e))),
                _ => Next::Fault(Fault::UnexpectedReply),
            },
            ConnectView::Module => match reply {
                ReplyView::ModuleBase(Ok(base)) => connect_base(o, decks, base),
                ReplyView::ModuleBase(Err(e)) => Next::Done(Err(crate::chain::plain_failure(0, e))),
                _ => Next::Fault(Fault::UnexpectedReply),
            },
            ConnectView::Tempos { base, read } => connect_tempos(
                o,
                decks,
                base,
                read.on_reply(o.current_bpm.take(decks as int), base, reply),
            ),
            ConnectView::Positions { base, tempos, read } => connect_positions(
                o,
                decks,
                base,
                tempos,
                read.on_reply(o.sample_position.take(decks as int), base, reply),
            ),
            ConnectView::Master { base, tempos, positions, walk } => connect_master(
                o,
                decks,
                base,
                tempos,
                positions,
                walk.on_reply(reply),
            ),
        }
    }
}

impl Connect {
    /// The lists that were needed so far are long enough, and so is what was found.
    pub open spec fn wf(&self, o: OffsetsView, decks: usize) -> bool {
        match self {
            Connect::Process => true,
            Connect::Module => true,
            Connect::Tempos { base, read } => {
                &&& read.wf(decks)
                &&& decks <= o.current_bpm.len()
            },
            Connect::Positions { base, tempos, read } => {
                &&& read.wf(decks)
                &&& tempos.len() == decks
                &&& decks <= o.sample_position.len()
            },
            Connect::Master { base, tempos, positions, walk } => {
                &&& walk.wf()
                &&& tempos.len() == decks
                &&& positions.len() == decks
                &&& decks <= o.track_info.len()
                &&& decks <= o.anlz_path.len()
            },
        }
    }
}

/// Any state is well formed, and a connection that was made knows everything of `decks` decks.
pub open spec fn connect_wf(n: ConnectNext, o: OffsetsView, decks: usize) -> bool {
    &&& n matches Next::Ask(_, s) ==> s.wf(o, decks)
    &&& n matches Next::Done(Ok(rb)) ==> rb@.wf() && rb@.deckcount == decks
}

impl Rekordbox {
    /// Starts to connect: the process is looked for, then the base of its module, and from there
    /// the values of `decks` decks.
    pub fn new() -> (r: ConnectNext)
        ensures
            connect_view(r) == Next::<RequestView, ConnectView, Result<RekordboxView, ReadErrorView>>::Ask(
                RequestView::Process,
                ConnectView::Process,
            ),
            r matches Next::Ask(_, s) ==> s is Process,
    {
        Next::Ask(Request::Process, Connect::Process)
    }
}

fn step_tempos(offsets: &RekordboxOffsets, decks: usize, base: usize, n: ValuesNext) -> (r:
    ConnectNext)
    requires
        decks <= offsets.current_bpm.len(),
        values_wf(n, decks),
    ensures
        connect_view(r) == connect_tempos(offsets@, decks, base, values_view(n)),
        connect_wf(r, offsets@, decks),
{
    match n {
        Next::Ask(q, read) => Next::Ask(q, Connect::Tempos { base, read }),
        Next::Done(Ok(tempos)) => {
            if offsets.sample_position.len() < decks {
                Next::Fault(Fault::MissingOffsets)
            } else {
                let n = Value::pointers_to_vals(base, &offsets.sample_position, decks);
                step_positions(offsets, decks, base, tempos, n)
            }
        },
        Next::Done(Err(e)) => Next::Done(Err(e)),
        Next::Fault(f) => Next::Fault(f),
    }
}

fn step_positions(
    offsets: &RekordboxOffsets,
    decks: usize,
    base: usize,
    tempos: Vec<Value>,
    n: ValuesNext,
) -> (r: ConnectNext)
    requires
        decks <= offsets.sample_position.len(),
        values_wf(n, decks),
        tempos.len() == decks,
    ensures
        connect_view(r) == connect_positions(
            offsets@,
            decks,
            base,
            addresses(tempos@),
            values_view(n),
        ),
        connect_wf(r, offsets@, decks),
{
    match n {
        Next::Ask(q, read) => Next::Ask(q, Connect::Positions { base, tempos, read }),
        Next::Done(Ok(positions)) => {
            if offsets.track_info.len() < decks || offsets.anlz_path.len() < decks {
                Next::Fault(Fault::MissingOffsets)
            } else {
                let n = Value::new(base, &offsets.masterdeck_index);
                step_master(offsets, decks, base, tempos, positions, n)
            }
        },
        Next::Done(Err(e)) => Next::Done(Err(e)),
        Next::Fault(f) => Next::Fault(f),
    }
}

fn step_master(
    offsets: &RekordboxOffsets,
    decks: usize,
    base: usize,
    tempos: Vec<Value>,
    positions: Vec<Value>,
    n: ChainNext,
) -> (r: ConnectNext)
    requires
        decks <= offsets.track_info.len(),
        decks <= offsets.anlz_path.len(),
        n matches Next::Ask(_, s) ==> s.wf(),
        tempos.len() == decks,
        positions.len() == decks,
    ensures
        connect_view(r) == connect_master(
            offsets@,
            decks,
            base,
            addresses(tempos@),
            addresses(positions@),
            crate::chain::chain_view(n),
        ),
        connect_wf(r, offsets@, decks),
{
    match n {
        Next::Ask(q, walk) => Next::Ask(q, Connect::Master { base, tempos, positions, walk }),
        Next::Done(Ok(masterdeck_index)) => {
            let track_infos = PointerChainValue::pointers_to_vals(base, &offsets.track_info, decks);
            let anlz_paths = PointerChainValue::pointers_to_vals(base, &offsets.anlz_path, decks);
            let deckcount: usize = tempos.len();
            Next::Done(
                Ok(
                    Rekordbox {
                        masterdeck_index,
                        current_bpms: tempos,
                        sample_positions: positions,
                        track_infos,
                        anlz_paths,
                        deckcount,
                    },
                ),
            )
        },
        Next::Done(Err(e)) => Next::Done(Err(e)),
        Next::Fault(f) => Next::Fault(f),
    }
}

impl Connect {
    /// Goes on with a reply.
    pub fn resume(self, offsets: &RekordboxOffsets, decks: usize, reply: Reply) -> (r: ConnectNext)
        requires
            self.wf(offsets@, decks),
        ensures
            connect_view(r) == self@.on_reply(offsets@, decks, reply@),
            connect_wf(r, offsets@, decks),
    {
        match self {
            Connect::Process => match reply {
                Reply::Process(Ok(_)) => Next::Ask(Request::ModuleBase, Connect::Module),
                Reply::Process(Err(e)) => Next::Done(
                    Err(ReadError { pointer: None, address: 0, error: e }),
                ),
                _ => Next::Fault(Fault::UnexpectedReply),
            },
            Connect::Module => match reply {
                Reply::ModuleBase(Ok(base)) => {
                    if offsets.current_bpm.len() < decks {
                        Next::Fault(Fault::MissingOffsets)
                    } else {
                        let n = Value::pointers_to_vals(base, &offsets.current_bpm, decks);
                        step_tempos(offsets, decks, base, n)
                    }
                },
                Reply::ModuleBase(Err(e)) => Next::Done(
                    Err(ReadError { pointer: None, address: 0, error: e }),
                ),
                _ => Next::Fault(Fault::UnexpectedReply),
            },
            Connect::Tempos { base, read } => {
                let n = read.resume(base, &offsets.current_bpm, decks, reply);
                step_tempos(offsets, decks, base, n)
            },
            Connect::Positions { base, tempos, read } => {
                let n = read.resume(base, &offsets.sample_position, decks, reply);
                step_positions(offsets, decks, base, tempos, n)
            },
            Connect::Master { base, tempos, positions, walk } => {
                let n = walk.resume(reply);
                step_master(offsets, decks, base, tempos, positions, n)
            },
        }
    }
}

/// A reply of another kind than the request stops making a connection.
pub proof fn lemma_unexpected_replies_stop_connection(
    c: ConnectView,
    o: OffsetsView,
    decks: usize,
    reply: ReplyView,
)
    requires
        (match c {
            ConnectView::Process => !(reply is Process),
            ConnectView::Module => !(reply is ModuleBase),
            _ => !(reply is Word),
        }),
    ensures
        c.on_reply(o, decks, reply) == ConnectStep::Fault(Fault::UnexpectedReply),
{
}

} // verus!
