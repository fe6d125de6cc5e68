//! What the library asks of its surroundings, and what it is answered.
//!
//! The library reads no memory and no file and computes with no floating point number. Where it
//! needs one of these it hands out a [`Request`] together with the state in which it waits, and
//! goes on when it is given the [`Reply`].
use crate::memory::MemoryError;
use crate::single::Single;
use vstd::prelude::*;

verus! {

/// The beat of a grid that a playing position is measured from.
#[derive(Clone, Copy, Debug, PartialEq, Eq, Structural)]
pub struct BeatAnchor {
    /// Beats since the start of the bar, 0 to 3.
    pub beat: u16,
    /// Tempo in hundredths of a beat per minute.
    pub tempo: u16,
    /// Time of the beat in milliseconds.
    pub time: u32,
}

/// A playing position in beats, and the tempo that the grid gives there.
#[derive(Clone, Copy, Debug)]
pub struct BeatPosition {
    pub beat: Single,
    pub original_bpm: Single,
}

/// Something that only the surroundings can do.
#[derive(Debug)]
pub enum Request {
    /// Tell whether the configuration has this key set to true.
    Enabled(String),
    /// Start the output module with this number.
    Create(usize),
    /// Find the process and open it.
    Process,
    /// Find the base address of the module in the process.
    ModuleBase,
    /// Read an address at this address.
    Word(usize),
    /// Read a byte at this address.
    Byte(usize),
    /// Read a signed 64 bit integer at this address.
    Long(usize),
    /// Read a single precision number at this address.
    Single(usize),
    /// Read this many bytes from this address on.
    Block(usize, usize),
    /// Convert a number of samples to seconds.
    Seconds(i64),
    /// Place a time, in seconds, relative to a beat.
    Beat(BeatAnchor, Single),
    /// Read a whole file.
    File(String),
    /// Convert milliseconds to seconds, each on its own.
    GridSeconds(Vec<u32>),
    /// Tell how many nanoseconds have passed since the update started.
    Elapsed,
    /// Wait for this many nanoseconds.
    Sleep(u64),
}

/// The answer to a [`Request`] of the same name.
#[derive(Debug)]
pub enum Reply {
    Enabled(bool),
    /// `false` where the module could not be started.
    Create(bool),
    Process(Result<(), MemoryError>),
    ModuleBase(Result<usize, MemoryError>),
    Word(Result<usize, MemoryError>),
    Byte(Result<u8, MemoryError>),
    Long(Result<i64, MemoryError>),
    Single(Result<Single, MemoryError>),
    Block(Result<Vec<u8>, MemoryError>),
    Seconds(Single),
    Beat(BeatPosition),
    /// `None` where the file could not be read.
    File(Option<Vec<u8>>),
    GridSeconds(Vec<Single>),
    Elapsed(u128),
    Sleep,
}

/// Why the library cannot go on.
///
/// Each of these is an input on which there is nothing sensible left to do; the program is
/// expected to stop.
#[derive(Clone, Copy, Debug, PartialEq, Eq, Structural)]
pub enum Fault {
    /// The reply does not answer the request.
    UnexpectedReply,
    /// An offset leads past the end of the address space.
    AddressOverflow,
    /// A list of pointers has fewer entries than there are decks.
    MissingOffsets,
    /// More decks are configured than can be followed.
    TooManyDecks,
    /// A deck is followed that was not connected, or one was connected that cannot be followed.
    DeckOutOfRange,
    /// Sample position and delay compensation exceed the range of sample positions.
    PositionOverflow,
    /// A beat grid has no beats.
    EmptyBeatGrid,
    /// The number of a beat in its bar is out of range.
    BeatNumberOverflow,
    /// An analysis file cannot be understood.
    MalformedAnalysis,
    /// Updates are configured to happen 0 times a second.
    ZeroUpdateRate,
    /// Slow updates are configured to happen every 0th time.
    ZeroSlowUpdateInterval,
    /// The update counter cannot be increased.
    CounterOverflow,
    /// The time for an update ran out while its rest was being computed.
    PeriodOverrun,
    /// A file cannot be written.
    FileNotWritten,
    /// The list of Rekordbox versions is empty.
    NoVersions,
}

/// A [`Request`] as a value.
pub enum RequestView {
    Enabled(Seq<char>),
    Create(usize),
    Process,
    ModuleBase,
    Word(usize),
    Byte(usize),
    Long(usize),
    Single(usize),
    Block(usize, usize),
    Seconds(i64),
    Beat(BeatAnchor, Single),
    File(Seq<char>),
    GridSeconds(Seq<u32>),
    Elapsed,
    Sleep(u64),
}

impl View for Request {
    type V = RequestView;

    open spec fn view(&self) -> RequestView {
        match self {
            Request::Enabled(k) => RequestView::Enabled(k@),
            Request::Create(i) => RequestView::Create(*i),
            Request::Process => RequestView::Process,
            Request::ModuleBase => RequestView::ModuleBase,
            Request::Word(a) => RequestView::Word(*a),
            Request::Byte(a) => RequestView::Byte(*a),
            Request::Long(a) => RequestView::Long(*a),
            Request::Single(a) => RequestView::Single(*a),
            Request::Block(a, n) => RequestView::Block(*a, *n),
            Request::Seconds(s) => RequestView::Seconds(*s),
            Request::Beat(b, t) => RequestView::Beat(*b, *t),
            Request::File(p) => RequestView::File(p@),
            Request::GridSeconds(t) => RequestView::GridSeconds(t@),
            Request::Elapsed => RequestView::Elapsed,
            Request::Sleep(n) => RequestView::Sleep(*n),
        }
    }
}

/// A [`Reply`] as a value.
pub enum ReplyView {
    Enabled(bool),
    Create(bool),
    Process(Result<(), MemoryError>),
    ModuleBase(Result<usize, MemoryError>),
    Word(Result<usize, MemoryError>),
    Byte(Result<u8, MemoryError>),
    Long(Result<i64, MemoryError>),
    Single(Result<Single, MemoryError>),
    Block(Result<Seq<u8>, MemoryError>),
    Seconds(Single),
    Beat(BeatPosition),
    File(Option<Seq<u8>>),
    GridSeconds(Seq<Single>),
    Elapsed(u128),
    Sleep,
}

impl View for Reply {
    type V = ReplyView;

    open spec fn view(&self) -> ReplyView {
        match self {
            Reply::Enabled(b) => ReplyView::Enabled(*b),
            Reply::Create(b) => ReplyView::Create(*b),
            Reply::Process(r) => ReplyView::Process(*r),
            Reply::ModuleBase(r) => ReplyView::ModuleBase(*r),
            Reply::Word(r) => ReplyView::Word(*r),
            Reply::Byte(r) => ReplyView::Byte(*r),
            Reply::Long(r) => ReplyView::Long(*r),
            Reply::Single(r) => ReplyView::Single(*r),
            Reply::Block(r) => ReplyView::Block(
                match r {
                    Ok(b) => Ok(b@),
                    Err(e) => Err(*e),
                },
            ),
            Reply::Seconds(s) => ReplyView::Seconds(*s),
            Reply::Beat(b) => ReplyView::Beat(*b),
            Reply::File(f) => ReplyView::File(
                match f {
                    Some(b) => Some(b@),
                    None => None,
                },
            ),
            Reply::GridSeconds(s) => ReplyView::GridSeconds(s@),
            Reply::Elapsed(n) => ReplyView::Elapsed(*n),
            Reply::Sleep => ReplyView::Sleep,
        }
    }
}

/// How an activity goes on: with a request `Q` and the state `S` in which it waits for the reply,
/// or not at all, with its result `T` or with a fault.
#[derive(Debug)]
pub enum Next<Q, S, T> {
    Ask(Q, S),
    Done(T),
    Fault(Fault),
}

/// How an activity ended.
pub enum Settled<T> {
    Done(T),
    Fault(Fault),
}

/// Surroundings that hold still: each request has one answer.
///
/// It serves to say what an activity comes to as a whole.
pub struct World {
    pub enabled: spec_fn(Seq<char>) -> bool,
    pub created: spec_fn(usize) -> bool,
    pub process: Result<(), MemoryError>,
    pub base: Result<usize, MemoryError>,
    pub word: spec_fn(usize) -> Result<usize, MemoryError>,
    pub byte: spec_fn(usize) -> Result<u8, MemoryError>,
    pub long: spec_fn(usize) -> Result<i64, MemoryError>,
    pub single: spec_fn(usize) -> Result<Single, MemoryError>,
    pub block: spec_fn(usize, usize) -> Result<Seq<u8>, MemoryError>,
    pub seconds: spec_fn(i64) -> Single,
    pub beat: spec_fn(BeatAnchor, Single) -> BeatPosition,
    pub file: spec_fn(Seq<char>) -> Option<Seq<u8>>,
    pub grid_second: spec_fn(u32) -> Single,
    pub elapsed: u128,
}

impl World {
    /// What these surroundings answer.
    pub open spec fn answer(self, q: RequestView) -> ReplyView {
        match q {
            RequestView::Enabled(k) => ReplyView::Enabled((self.enabled)(k)),
            RequestView::Create(i) => ReplyView::Create((self.created)(i)),
            RequestView::Process => ReplyView::Process(self.process),
            RequestView::ModuleBase => ReplyView::ModuleBase(self.base),
            RequestView::Word(a) => ReplyView::Word((self.word)(a)),
            RequestView::Byte(a) => ReplyView::Byte((self.byte)(a)),
            RequestView::Long(a) => ReplyView::Long((self.long)(a)),
            RequestView::Single(a) => ReplyView::Single((self.single)(a)),
            RequestView::Block(a, n) => ReplyView::Block((self.block)(a, n)),
            RequestView::Seconds(s) => ReplyView::Seconds((self.seconds)(s)),
            RequestView::Beat(b, t) => ReplyView::Beat((self.beat)(b, t)),
            RequestView::File(p) => ReplyView::File((self.file)(p)),
            RequestView::GridSeconds(t) => ReplyView::GridSeconds(t.map_values(self.grid_second)),
            RequestView::Elapsed => ReplyView::Elapsed(self.elapsed),
            RequestView::Sleep(n) => ReplyView::Sleep,
        }
    }
}

} // verus!
