//! Reading the values of a connection.
use crate::chain::{ChainNext, ChainStep, ChainValueView, PointerChainValue, Resolution, ResolutionView, Value};
use crate::memory::{ReadError, ReadErrorView};
use crate::protocol::{Fault, Next, Reply, ReplyView, Request, RequestView};
use crate::rekordbox::{Rekordbox, RekordboxView};
use crate::single::Single;
use vstd::prelude::*;

verus! {

/// The size of the block that holds the description of a track.
pub const TRACK_INFO_SIZE: usize = 200;

/// The size of the block that holds the path of an analysis file.
pub const ANLZ_PATH_SIZE: usize = 500;

/// Tempo and position of a deck.
#[derive(Clone, Copy, Debug)]
pub struct TimingDataRaw {
    pub current_bpm: Single,
    pub sample_position: i64,
}

/// Tempo and position of a deck while they are read: first the position, then the tempo.
#[derive(Clone, Copy, Debug)]
pub struct TimingRead {
    pub deck: usize,
    pub position: Option<i64>,
}

pub type TimingNext = Next<Request, TimingRead, Result<TimingDataRaw, ReadError>>;

pub type TimingStep = Next<RequestView, TimingRead, Result<TimingDataRaw, ReadErrorView>>;

/// The value of a [`TimingNext`].
pub open spec fn timing_view(n: TimingNext) -> TimingStep {
    match n {
        Next::Ask(q, s) => Next::Ask(q@, s),
        Next::Done(Ok(t)) => Next::Done(Ok(t)),
        Next::Done(Err(e)) => Next::Done(Err(e@)),
        Next::Fault(f) => Next::Fault(f),
    }
}

/// The first step: the position is read.
pub open spec fn timing_step(rb: RekordboxView, deck: usize) -> TimingStep {
    Next::Ask(
        RequestView::Long(rb.sample_positions[deck as int]),
        TimingRead { deck, position: None },
    )
}

impl TimingRead {
    /// The step that a reply leads to.
    pub open spec fn on_reply(self, rb: RekordboxView, reply: ReplyView) -> TimingStep {
        let deck = self.deck as int;
        match (self.position, reply) {
            (None, ReplyView::Long(Ok(position))) => Next::Ask(
                RequestView::Single(rb.current_bpms[deck]),
                TimingRead { deck: self.deck, position: Some(position) },
            ),
            (None, ReplyView::Long(Err(e))) => Next::Done(
                Err(crate::chain::plain_failure(rb.sample_positions[deck], e)),
            ),
            (Some(sample_position), ReplyView::Single(Ok(current_bpm))) => Next::Done(
                Ok(TimingDataRaw { current_bpm, sample_position }),
            ),
            (Some(_), ReplyView::Single(Err(e))) => Next::Done(
                Err(crate::chain::plain_failure(rb.current_bpms[deck], e)),
            ),
            _ => Next::Fault(Fault::UnexpectedReply),
        }
    }

    /// Goes on with what was read.
    pub fn resume(self, rb: &Rekordbox, reply: Reply) -> (r: TimingNext)
        requires
            rb@.wf(),
            self.deck < rb@.deckcount,
        ensures
            timing_view(r) == self.on_reply(rb@, reply@),
            r matches Next::Ask(_, s) ==> s.deck == self.deck,
    {
        match (self.position, reply) {
            (None, Reply::Long(outcome)) => match rb.sample_positions[self.deck].read(outcome) {
                Ok(position) => Next::Ask(
                    Request::Single(rb.current_bpms[self.deck].address),
                    TimingRead { deck: self.deck, position: Some(position) },
                ),
                Err(e) => Next::Done(Err(e)),
            },
            (Some(sample_position), Reply::Single(outcome)) => match rb.current_bpms[self.deck].read(
                outcome,
            ) {
                Ok(current_bpm) => Next::Done(Ok(TimingDataRaw { current_bpm, sample_position })),
                Err(e) => Next::Done(Err(e)),
            },
            _ => Next::Fault(Fault::UnexpectedReply),
        }
    }
}

// The texts of all decks.
/// Where the reading of a text stands.
#[derive(Debug)]
pub enum TextStage {
    /// Its chain is being followed.
    Walk(Resolution),
    /// Its block, at this address, is being read.
    Block(usize),
}

/// The texts of the decks while they are read: those of the first decks, and the stage of the
/// next one.
#[derive(Debug)]
pub struct TextRead {
    pub size: usize,
    pub texts: Vec<String>,
    pub stage: TextStage,
}

/// A [`TextStage`] as a value.
pub enum TextStageView {
    Walk(ResolutionView),
    Block(usize),
}

/// A [`TextRead`] as a value.
pub struct TextReadView {
    pub size: usize,
    pub texts: Seq<Seq<char>>,
    pub stage: TextStageView,
}

/// The values of a list of texts.
pub open spec fn text_views(texts: Seq<String>) -> Seq<Seq<char>> {
    texts.map_values(|t: String| t@)
}

impl View for TextRead {
    type V = TextReadView;

    open spec fn view(&self) -> TextReadView {
        TextReadView {
            size: self.size,
            texts: text_views(self.texts@),
            stage: match self.stage {
                TextStage::Walk(r) => TextStageView::Walk(r@),
                TextStage::Block(a) => TextStageView::Block(a),
            },
        }
    }
}

pub type TextNext = Next<Request, TextRead, Result<Vec<String>, ReadError>>;

pub type TextStep = Next<RequestView, TextReadView, Result<Seq<Seq<char>>, ReadErrorView>>;

/// The value of a [`TextNext`].
pub open spec fn text_view(n: TextNext) -> TextStep {
    match n {
        Next::Ask(q, s) => Next::Ask(q@, s@),
        Next::Done(Ok(t)) => Next::Done(Ok(text_views(t@))),
        Next::Done(Err(e)) => Next::Done(Err(e@)),
        Next::Fault(f) => Next::Fault(f),
    }
}

/// The step when the chain to the next text is at `n`: where it leads, a block is read.
pub open spec fn text_block(size: usize, texts: Seq<Seq<char>>, n: ChainStep) -> TextStep {
    match n {
        Next::Ask(q, walk) => Next::Ask(
            q,
            TextReadView { size, texts, stage: TextStageView::Walk(walk) },
        ),
        Next::Done(Ok(address)) => Next::Ask(
            RequestView::Block(address, size),
            TextReadView { size, texts, stage: TextStageView::Block(address) },
        ),
        Next::Done(Err(e)) => Next::Done(Err(e)),
        Next::Fault(f) => Next::Fault(f),
    }
}

/// The step when the texts of the first decks are known: the next chain is followed, and when
/// there is none left, the texts are complete.
pub open spec fn text_step(
    chains: Seq<ChainValueView>,
    size: usize,
    texts: Seq<Seq<char>>,
) -> TextStep {
    if texts.len() >= chains.len() {
        Next::Done(Ok(texts))
    } else {
        let chain = chains[texts.len() as int];
        text_block(size, texts, crate::chain::chain_step(chain.pointer, 0, chain.base))
    }
}

impl TextReadView {
    /// The step that a reply leads to.
    pub open spec fn on_reply(self, chains: Seq<ChainValueView>, reply: ReplyView) -> TextStep {
        match self.stage {
            TextStageView::Walk(walk) => text_block(self.size, self.texts, walk.on_reply(reply)),
            TextStageView::Block(address) => match reply {
                ReplyView::Block(Ok(bytes)) => text_step(
                    chains,
                    self.size,
                    self.texts.push(crate::text::block_text(bytes)),
                ),
                ReplyView::Block(Err(e)) => Next::Done(
                    Err(crate::chain::plain_failure(address, e)),
                ),
                _ => Next::Fault(Fault::UnexpectedReply),
            },
        }
    }
}

impl TextRead {
    /// The text of one of the `decks` decks is being read.
    pub open spec fn wf(&self, decks: nat) -> bool {
        &&& self.stage matches TextStage::Walk(walk) ==> walk.wf()
        &&& self.texts.len() < decks
    }
}

/// Any state is well formed, and there is one text for each deck if they are the result.
pub open spec fn text_wf(n: TextNext, decks: nat) -> bool {
    &&& n matches Next::Ask(_, s) ==> s.wf(decks)
    &&& n matches Next::Done(Ok(t)) ==> t.len() == decks
}

fn step_block(size: usize, texts: Vec<String>, n: ChainNext, Ghost(decks): Ghost<nat>) -> (r:
    TextNext)
    requires
        n matches Next::Ask(_, s) ==> s.wf(),
        texts.len() < decks,
    ensures
        text_view(r) == text_block(size, text_views(texts@), crate::chain::chain_view(n)),
        text_wf(r, decks),
{
    match n {
        Next::Ask(q, walk) => Next::Ask(
            q,
            TextRead { size, texts, stage: TextStage::Walk(walk) },
        ),
        Next::Done(Ok(value)) => Next::Ask(
            Request::Block(value.address, size),
            TextRead { size, texts, stage: TextStage::Block(value.address) },
        ),
        Next::Done(Err(e)) => Next::Done(Err(e)),
        Next::Fault(f) => Next::Fault(f),
    }
}

fn step_text(chains: &Vec<PointerChainValue>, size: usize, texts: Vec<String>) -> (r: TextNext)
    requires
        texts.len() <= chains.len(),
    ensures
        text_view(r) == text_step(
            crate::chain::chain_values(chains@),
            size,
            text_views(texts@),
        ),
        text_wf(r, chains@.len()),
{
    if texts.len() >= chains.len() {
        Next::Done(Ok(texts))
    } else {
        let n = chains[texts.len()].read();
        step_block(size, texts, n, Ghost(chains@.len()))
    }
}

impl TextRead {
    /// Starts to read the text of each chain in turn. The first that cannot be read ends it.
    pub fn begin(chains: &Vec<PointerChainValue>, size: usize) -> (r: TextNext)
        ensures
            text_view(r) == text_step(
                crate::chain::chain_values(chains@),
                size,
                Seq::empty(),
            ),
            text_wf(r, chains@.len()),
    {
        let texts: Vec<String> = Vec::new();
        assert(text_views(texts@) =~= Seq::empty());
        step_text(chains, size, texts)
    }

    /// Goes on with what was read.
    pub fn resume(self, chains: &Vec<PointerChainValue>, reply: Reply) -> (r: TextNext)
        requires
            self.wf(chains@.len()),
        ensures
            text_view(r) == self@.on_reply(crate::chain::chain_values(chains@), reply@),
            text_wf(r, chains@.len()),
    {
        match self.stage {
            TextStage::Walk(walk) => {
                let n = walk.resume(reply);
                step_block(self.size, self.texts, n, Ghost(chains@.len()))
            },
            TextStage::Block(address) => match reply {
                Reply::Block(outcome) => match (Value { address }).read(outcome) {
                    Ok(bytes) => {
                        let mut texts = self.texts;
                        let ghost before = text_views(texts@);
                        let text = crate::text::decode_block(&bytes);
                        let ghost added = text@;
                        texts.push(text);
                        assert(text_views(texts@) =~= before.push(added));
                        step_text(chains, self.size, texts)
                    },
                    Err(e) => Next::Done(Err(e)),
                },
                _ => Next::Fault(Fault::UnexpectedReply),
            },
        }
    }
}

/// What the number of the master deck comes to, given what the system answered.
pub open spec fn master_read(rb: RekordboxView, outcome: Result<u8, crate::memory::MemoryError>) -> Result<
    usize,
    ReadErrorView,
> {
    match outcome {
        Ok(n) => Ok(n as usize),
        Err(e) => Err(crate::chain::plain_failure(rb.masterdeck_index, e)),
    }
}

impl Rekordbox {
    /// Starts to read tempo and position of a deck.
    pub fn read_timing_data(&self, deck: usize) -> (r: TimingNext)
        requires
            self@.wf(),
            deck < self@.deckcount,
        ensures
            timing_view(r) == timing_step(self@, deck),
            r matches Next::Ask(_, s) ==> s.deck == deck,
    {
        Next::Ask(
            Request::Long(self.sample_positions[deck].address),
            TimingRead { deck, position: None },
        )
    }

    /// The number of the master deck, given what the system answered.
    pub fn read_masterdeck_index(&self, outcome: Result<u8, crate::memory::MemoryError>) -> (r: Result<
        usize,
        ReadError,
    >)
        ensures
            match master_read(self@, outcome) {
                Ok(n) => r == Ok::<usize, ReadError>(n),
                Err(e) => r is Err && r->Err_0@ == e,
            },
    {
        match self.masterdeck_index.read(outcome) {
            Ok(n) => Ok(n as usize),
            Err(e) => Err(e),
        }
    }

    /// Starts to read the descriptions of the tracks on all decks.
    pub fn get_track_infos(&self) -> (r: TextNext)
        ensures
            text_view(r) == text_step(self@.track_infos, TRACK_INFO_SIZE, Seq::empty()),
            text_wf(r, self@.track_infos.len()),
    {
        TextRead::begin(&self.track_infos, TRACK_INFO_SIZE)
    }

    /// Starts to read the paths of the analysis files of all decks.
    pub fn get_anlz_paths(&self) -> (r: TextNext)
        ensures
            text_view(r) == text_step(self@.anlz_paths, ANLZ_PATH_SIZE, Seq::empty()),
            text_wf(r, self@.anlz_paths.len()),
    {
        TextRead::begin(&self.anlz_paths, ANLZ_PATH_SIZE)
    }
}

/// The position of a deck is read first and then its tempo, each at its own address. Whichever
/// cannot be read, the error gives its address and no chain; if both can, both are the result.
pub proof fn lemma_timing_is_read_in_turn(
    rb: RekordboxView,
    deck: usize,
    position: Result<i64, crate::memory::MemoryError>,
    tempo: Result<Single, crate::memory::MemoryError>,
)
    ensures
        timing_step(rb, deck) == TimingStep::Ask(
            RequestView::Long(rb.sample_positions[deck as int]),
            (TimingRead { deck, position: None }),
        ),
        ({
            let first = (TimingRead { deck, position: None }).on_reply(rb, ReplyView::Long(position));
            match position {
                Err(error) => first == TimingStep::Done(
                    Err(
                        ReadErrorView {
                            pointer: None,
                            address: rb.sample_positions[deck as int],
                            error,
                        },
                    ),
                ),
                Ok(at) => {
                    let second = (TimingRead { deck, position: Some(at) }).on_reply(
                        rb,
                        ReplyView::Single(tempo),
                    );
                    &&& first == TimingStep::Ask(
                        RequestView::Single(rb.current_bpms[deck as int]),
                        (TimingRead { deck, position: Some(at) }),
                    )
                    &&& match tempo {
                        Err(error) => second == TimingStep::Done(
                            Err(
                                ReadErrorView {
                                    pointer: None,
                                    address: rb.current_bpms[deck as int],
                                    error,
                                },
                            ),
                        ),
                        Ok(bpm) => second == TimingStep::Done(
                            Ok(TimingDataRaw { current_bpm: bpm, sample_position: at }),
                        ),
                    }
                },
            }
        }),
{
}

/// The number of the master deck is the byte that is read; if it cannot be read, the error gives its
/// address and no chain.
pub proof fn lemma_number_of_the_master_deck(
    rb: RekordboxView,
    outcome: Result<u8, crate::memory::MemoryError>,
)
    ensures
        (match outcome {
            Ok(n) => master_read(rb, outcome) matches Ok(m) && m == n,
            Err(error) => master_read(rb, outcome) == Err::<usize, ReadErrorView>(
                (ReadErrorView { pointer: None, address: rb.masterdeck_index, error }),
            ),
        }),
{
}

} // verus!
