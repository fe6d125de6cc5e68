//! Following a chain of pointers to a value.
use crate::memory::{MemoryError, Pointer, PointerView, ReadError, ReadErrorView};
use crate::protocol::{Fault, Next, Reply, ReplyView, Request, RequestView, Settled, World};
use vstd::prelude::*;

verus! {

/// A value of the other process, at a known address.
#[derive(Clone, Copy, Debug)]
pub struct Value {
    pub address: usize,
}

/// A chain that is being followed, waiting for the address at `at`.
#[derive(Debug)]
pub struct Resolution {
    pub pointer: Pointer,
    /// The position in the chain of the offset that led to `at`.
    pub next: usize,
    pub at: usize,
}

/// A [`Resolution`] as a value.
pub struct ResolutionView {
    pub pointer: PointerView,
    pub next: usize,
    pub at: usize,
}

impl View for Resolution {
    type V = ResolutionView;

    open spec fn view(&self) -> ResolutionView {
        ResolutionView { pointer: self.pointer@, next: self.next, at: self.at }
    }
}

/// How following a chain goes on.
pub type ChainNext = Next<Request, Resolution, Result<Value, ReadError>>;

/// How following a chain goes on, as a value; the result is the address that the chain leads to.
pub type ChainStep = Next<RequestView, ResolutionView, Result<usize, ReadErrorView>>;

/// The value of a [`ChainNext`].
pub open spec fn chain_view(n: ChainNext) -> ChainStep {
    match n {
        Next::Ask(q, r) => Next::Ask(q@, r@),
        Next::Done(Ok(v)) => Next::Done(Ok(v.address)),
        Next::Done(Err(e)) => Next::Done(Err(e@)),
        Next::Fault(f) => Next::Fault(f),
    }
}

/// What a read without a chain, at `address`, fails with.
pub open spec fn plain_failure(address: usize, error: MemoryError) -> ReadErrorView {
    ReadErrorView { pointer: None, address, error }
}

/// The step from `address`, when `next` offsets of the chain have been used up.
pub open spec fn chain_step(p: PointerView, next: nat, address: usize) -> ChainStep {
    if next < p.offsets.len() {
        if address + p.offsets[next as int] <= usize::MAX {
            let at = (address + p.offsets[next as int]) as usize;
            Next::Ask(
                RequestView::Word(at),
                ResolutionView { pointer: p, next: next as usize, at },
            )
        } else {
            Next::Fault(Fault::AddressOverflow)
        }
    } else if address + p.final_offset <= usize::MAX {
        Next::Done(Ok((address + p.final_offset) as usize))
    } else {
        Next::Fault(Fault::AddressOverflow)
    }
}

impl ResolutionView {
    /// The step that a reply leads to.
    pub open spec fn on_reply(self, reply: ReplyView) -> ChainStep {
        match reply {
            ReplyView::Word(Ok(address)) => chain_step(self.pointer, self.next as nat + 1, address),
            ReplyView::Word(Err(error)) => Next::Done(
                Err(ReadErrorView { pointer: Some(self.pointer), address: self.at, error }),
            ),
            _ => Next::Fault(Fault::UnexpectedReply),
        }
    }
}

impl Value {
    /// Starts to follow `offsets` from `base`. Each offset in turn is added to the address at
    /// hand, and the next address is read there; the final offset is added to the last one.
    pub fn new(base: usize, offsets: &Pointer) -> (r: ChainNext)
        ensures
            chain_view(r) == chain_step(offsets@, 0, base),
    {
        step_chain(offsets.clone(), 0, base)
    }

    /// What a read at the address of this value comes to, given what the system answered.
    pub fn read<T>(&self, outcome: Result<T, MemoryError>) -> (r: Result<T, ReadError>)
        ensures
            match outcome {
                Ok(v) => r == Ok::<T, ReadError>(v),
                Err(e) => r is Err && r->Err_0@ == plain_failure(self.address, e),
            },
    {
        match outcome {
            Ok(val) => Ok(val),
            Err(e) => Err(ReadError { pointer: None, address: self.address, error: e }),
        }
    }
}

fn step_chain(pointer: Pointer, next: usize, address: usize) -> (r: ChainNext)
    requires
        next <= pointer.offsets.len(),
    ensures
        chain_view(r) == chain_step(pointer@, next as nat, address),
{
    if next < pointer.offsets.len() {
        match address.checked_add(pointer.offsets[next]) {
            Some(at) => Next::Ask(Request::Word(at), Resolution { pointer, next, at }),
            None => Next::Fault(Fault::AddressOverflow),
        }
    } else {
        match address.checked_add(pointer.final_offset) {
            Some(address) => Next::Done(Ok(Value { address })),
            None => Next::Fault(Fault::AddressOverflow),
        }
    }
}

impl Resolution {
    /// The chain has an offset that led here.
    pub open spec fn wf(&self) -> bool {
        self.next < self.pointer.offsets.len()
    }

    /// Goes on with what was read at `at`.
    pub fn resume(self, reply: Reply) -> (r: ChainNext)
        requires
            self.wf(),
        ensures
            chain_view(r) == self@.on_reply(reply@),
            r matches Next::Ask(_, s) ==> s.wf(),
    {
        match reply {
            Reply::Word(Ok(address)) => step_chain(self.pointer, self.next + 1, address),
            Reply::Word(Err(error)) => Next::Done(
                Err(ReadError { pointer: Some(self.pointer), address: self.at, error }),
            ),
            _ => Next::Fault(Fault::UnexpectedReply),
        }
    }
}

/// A value whose chain is followed anew each time it is read.
#[derive(Debug)]
pub struct PointerChainValue {
    pub base: usize,
    pub pointer: Pointer,
}

/// A [`PointerChainValue`] as a value.
pub struct ChainValueView {
    pub base: usize,
    pub pointer: PointerView,
}

impl View for PointerChainValue {
    type V = ChainValueView;

    open spec fn view(&self) -> ChainValueView {
        ChainValueView { base: self.base, pointer: self.pointer@ }
    }
}

/// The values of a list of chain values.
pub open spec fn chain_values(chains: Seq<PointerChainValue>) -> Seq<ChainValueView> {
    chains.map_values(|c: PointerChainValue| c@)
}

/// The values of a list of pointers.
pub open spec fn pointer_views(pointers: Seq<Pointer>) -> Seq<PointerView> {
    pointers.map_values(|p: Pointer| p@)
}

/// The chains from `base` along each of the pointers.
pub open spec fn chains_from(base: usize, pointers: Seq<PointerView>) -> Seq<ChainValueView> {
    pointers.map_values(|p: PointerView| ChainValueView { base, pointer: p })
}

impl PointerChainValue {
    pub fn new(base: usize, pointer: Pointer) -> (r: PointerChainValue)
        ensures
            r.base == base,
            r.pointer == pointer,
    {
        Self { base, pointer }
    }

    /// One chain for each of the first `decks` pointers.
    pub fn pointers_to_vals(base: usize, pointers: &Vec<Pointer>, decks: usize) -> (r: Vec<
        PointerChainValue,
    >)
        requires
            decks <= pointers.len(),
        ensures
            chain_values(r@) == chains_from(base, pointer_views(pointers@).take(decks as int)),
    {
        let mut r: Vec<PointerChainValue> = Vec::new();
        let mut i: usize = 0;
        while i < decks
            invariant
                i <= decks <= pointers.len(),
                r.len() == i,
                forall|j: int|
                    0 <= j < i ==> (#[trigger] r@[j])@ == (ChainValueView {
                        base,
                        pointer: pointers@[j]@,
                    }),
            decreases decks - i,
        {
            r.push(PointerChainValue::new(base, pointers[i].clone()));
            i += 1;
        }
        assert(chain_values(r@) =~= chains_from(base, pointer_views(pointers@).take(decks as int)));
        r
    }

    /// Starts to follow the chain. Where it leads, the value is then read.
    pub fn read(&self) -> (r: ChainNext)
        ensures
            chain_view(r) == chain_step(self@.pointer, 0, self@.base),
            r matches Next::Ask(_, s) ==> s.wf(),
    {
        Value::new(self.base, &self.pointer)
    }
}

/// Where a chain leads in surroundings that hold still, from `address` on, when `next` of its
/// offsets have been used up.
pub open spec fn destination(w: World, p: PointerView, next: nat, address: usize) -> Settled<
    Result<usize, ReadErrorView>,
>
    decreases p.offsets.len() - next,
{
    if next < p.offsets.len() {
        if address + p.offsets[next as int] <= usize::MAX {
            let at = (address + p.offsets[next as int]) as usize;
            match (w.word)(at) {
                Ok(found) => destination(w, p, next + 1, found),
                Err(error) => Settled::Done(
                    Err(ReadErrorView { pointer: Some(p), address: at, error }),
                ),
            }
        } else {
            Settled::Fault(Fault::AddressOverflow)
        }
    } else if address + p.final_offset <= usize::MAX {
        Settled::Done(Ok((address + p.final_offset) as usize))
    } else {
        Settled::Fault(Fault::AddressOverflow)
    }
}

/// What a chain comes to, from this step on, when its requests are answered by `w`, in at most
/// `fuel` answers.
pub open spec fn run_chain(w: World, n: ChainStep, fuel: nat) -> Option<
    Settled<Result<usize, ReadErrorView>>,
>
    decreases fuel,
{
    match n {
        Next::Done(r) => Some(Settled::Done(r)),
        Next::Fault(f) => Some(Settled::Fault(f)),
        Next::Ask(q, s) => if fuel == 0 {
            None
        } else {
            run_chain(w, s.on_reply(w.answer(q)), (fuel - 1) as nat)
        },
    }
}

/// Answering each request of a chain leads where the chain leads, in one answer per offset.
pub proof fn lemma_chain_reaches_its_destination(w: World, p: PointerView, next: nat, address: usize)
    requires
        next <= p.offsets.len() <= usize::MAX,
    ensures
        run_chain(w, chain_step(p, next, address), (p.offsets.len() - next) as nat) == Some(
            destination(w, p, next, address),
        ),
    decreases p.offsets.len() - next,
{
    if next < p.offsets.len() && address + p.offsets[next as int] <= usize::MAX {
        let at = (address + p.offsets[next as int]) as usize;
        reveal_with_fuel(run_chain, 2);
        match (w.word)(at) {
            Ok(found) => {
                lemma_chain_reaches_its_destination(w, p, next + 1, found);
            },
            Err(_) => {},
        }
    }
}

/// A chain leads from its base over the addresses that are read, each at the one before plus the
/// next offset; behind the last the final offset is added.
pub proof fn lemma_chain_leads_along_its_path(
    w: World,
    p: PointerView,
    base: usize,
    path: Seq<usize>,
)
    requires
        path.len() == p.offsets.len() + 1,
        path[0] == base,
        forall|i: int|
            0 <= i < p.offsets.len() ==> #[trigger] path[i] + p.offsets[i] <= usize::MAX && (w.word)(
                (path[i] + p.offsets[i]) as usize,
            ) == Ok::<usize, MemoryError>(path[i + 1]),
    ensures
        path.last() + p.final_offset <= usize::MAX ==> destination(w, p, 0, base) == Settled::Done(
            Ok::<usize, ReadErrorView>((path.last() + p.final_offset) as usize),
        ),
        path.last() + p.final_offset > usize::MAX ==> destination(w, p, 0, base) == Settled::<
            Result<usize, ReadErrorView>,
        >::Fault(Fault::AddressOverflow),
{
    lemma_along_path(w, p, path, p.offsets.len() as int);
}

/// Up to any of the addresses of its path, a chain leads along the path.
proof fn lemma_along_path(w: World, p: PointerView, path: Seq<usize>, n: int)
    requires
        0 <= n < path.len() <= p.offsets.len() + 1,
        forall|i: int|
            0 <= i < n ==> #[trigger] path[i] + p.offsets[i] <= usize::MAX && (w.word)(
                (path[i] + p.offsets[i]) as usize,
            ) == Ok::<usize, MemoryError>(path[i + 1]),
    ensures
        destination(w, p, 0, path[0]) == destination(w, p, n as nat, path[n]),
    decreases n,
{
    if n > 0 {
        lemma_along_path(w, p, path, n - 1);
        assert(path[n - 1] + p.offsets[n - 1] <= usize::MAX);
    }
}

/// If an address on the way cannot be read, the chain fails there: the error gives the chain, the
/// address that could not be read, and why. If the offset leads beyond the last address, there is
/// no going on.
pub proof fn lemma_chain_fails_on_its_path(w: World, p: PointerView, base: usize, path: Seq<usize>)
    requires
        1 <= path.len() <= p.offsets.len(),
        path[0] == base,
        forall|i: int|
            0 <= i < path.len() - 1 ==> #[trigger] path[i] + p.offsets[i] <= usize::MAX && (w.word)(
                (path[i] + p.offsets[i]) as usize,
            ) == Ok::<usize, MemoryError>(path[i + 1]),
    ensures
        ({
            let n = path.len() - 1;
            let at = path[n] + p.offsets[n];
            &&& at > usize::MAX ==> destination(w, p, 0, base) == Settled::<
                Result<usize, ReadErrorView>,
            >::Fault(Fault::AddressOverflow)
            &&& at <= usize::MAX && (w.word)(at as usize) is Err ==> destination(w, p, 0, base)
                == Settled::Done(
                Err::<usize, ReadErrorView>(
                    (ReadErrorView {
                        pointer: Some(p),
                        address: at as usize,
                        error: (w.word)(at as usize)->Err_0,
                    }),
                ),
            )
        }),
{
    lemma_along_path(w, p, path, path.len() - 1);
}

} // verus!
