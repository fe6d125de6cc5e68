use rkbx_link::chain::{PointerChainValue, Value};
use rkbx_link::memory::{MemoryError, Pointer, ReadError};
use rkbx_link::protocol::{Fault, Next, Reply, Request};
use rkbx_link::reading::{TextNext, TextRead};
use rkbx_link::rekordbox::{ConnectNext, Rekordbox, RekordboxOffsets};
use rkbx_link::single::Single;
use std::collections::HashMap;

fn pointer(offsets: &[usize], final_offset: usize) -> Pointer {
    Pointer { offsets: offsets.to_vec(), final_offset }
}

/// Memory of another process.
struct Memory {
    words: HashMap<usize, usize>,
    blocks: HashMap<usize, Vec<u8>>,
    process: Result<(), MemoryError>,
    base: Result<usize, MemoryError>,
}

fn refused() -> MemoryError {
    MemoryError::ReadMemoryFailed("refused".to_string())
}

impl Memory {
    fn new(words: &[(usize, usize)]) -> Memory {
        Memory {
            words: words.iter().cloned().collect(),
            blocks: HashMap::new(),
            process: Ok(()),
            base: Ok(1000),
        }
    }

    fn answer(&self, q: Request) -> Reply {
        match q {
            Request::Process => Reply::Process(self.process.clone()),
            Request::ModuleBase => Reply::ModuleBase(self.base.clone()),
            Request::Word(a) => Reply::Word(self.words.get(&a).copied().ok_or(refused())),
            Request::Block(a, n) => Reply::Block(match self.blocks.get(&a) {
                Some(b) => {
                    let mut b = b.clone();
                    b.resize(n, 0);
                    Ok(b)
                }
                None => Err(refused()),
            }),
            q => panic!("{q:?}"),
        }
    }
}

fn resolve(memory: &Memory, base: usize, p: &Pointer) -> Result<Result<usize, ReadError>, Fault> {
    let mut n = Value::new(base, p);
    loop {
        match n {
            Next::Ask(q, s) => n = s.resume(memory.answer(q)),
            Next::Done(r) => return Ok(r.map(|v| v.address)),
            Next::Fault(f) => return Err(f),
        }
    }
}

#[test]
fn chains_are_followed() {
    let memory = Memory::new(&[(110, 500), (520, 9000)]);
    let r = resolve(&memory, 100, &pointer(&[10, 20], 3));
    assert_eq!(r.unwrap().unwrap(), 9003);
    // Without offsets, nothing is read.
    let r = resolve(&memory, 100, &pointer(&[], 7));
    assert_eq!(r.unwrap().unwrap(), 107);
}

#[test]
fn chains_that_break_say_where() {
    let memory = Memory::new(&[(110, 500)]);
    let p = pointer(&[10, 20], 3);
    let e = resolve(&memory, 100, &p).unwrap().unwrap_err();
    assert!(e.pointer == Some(p));
    assert_eq!(e.address, 520);
    assert!(e.error == refused());
    assert!(e.clone() == e);
}

#[test]
fn chains_past_the_end_are_faults() {
    let memory = Memory::new(&[(110, usize::MAX)]);
    assert_eq!(resolve(&memory, 100, &pointer(&[10], 1)).unwrap_err(), Fault::AddressOverflow);
    assert_eq!(resolve(&memory, 100, &pointer(&[10, 1], 0)).unwrap_err(), Fault::AddressOverflow);
    let r = resolve(&memory, 100, &pointer(&[10], 0));
    assert_eq!(r.unwrap().unwrap(), usize::MAX);
}

#[test]
fn unexpected_replies_are_faults() {
    match Value::new(100, &pointer(&[10], 0)) {
        Next::Ask(_, s) => {
            assert!(matches!(s.resume(Reply::Sleep), Next::Fault(Fault::UnexpectedReply)));
        }
        _ => unreachable!(),
    }
}

#[test]
fn values_are_read_where_they_are() {
    let v = Value { address: 42 };
    assert_eq!(v.read(Ok(7)).unwrap(), 7);
    let e = v.read::<u8>(Err(refused())).unwrap_err();
    assert!(e == ReadError { pointer: None, address: 42, error: refused() });
}

fn texts(memory: &Memory, chains: &Vec<PointerChainValue>) -> Result<Vec<String>, ReadError> {
    let mut n: TextNext = TextRead::begin(chains, 8);
    loop {
        match n {
            Next::Ask(q, s) => n = s.resume(chains, memory.answer(q)),
            Next::Done(r) => return r,
            Next::Fault(f) => panic!("{f:?}"),
        }
    }
}

#[test]
fn texts_are_read_one_after_the_other() {
    let mut memory = Memory::new(&[(110, 500), (111, 600)]);
    memory.blocks.insert(501, b"one".to_vec());
    memory.blocks.insert(601, b"two\0xyz!".to_vec());
    let chains = PointerChainValue::pointers_to_vals(
        100,
        &vec![pointer(&[10], 1), pointer(&[11], 1), pointer(&[12], 1)],
        2,
    );
    assert_eq!(chains.len(), 2);
    assert_eq!(texts(&memory, &chains).unwrap(), vec!["one", "two"]);
    // A block that cannot be read.
    memory.blocks.remove(&601);
    let e = texts(&memory, &chains).unwrap_err();
    assert!(e == ReadError { pointer: None, address: 601, error: refused() });
    // A chain that breaks.
    memory.words.remove(&110);
    let e = texts(&memory, &chains).unwrap_err();
    assert!(e.pointer == Some(pointer(&[10], 1)) && e.address == 110);
    assert_eq!(texts(&memory, &vec![]).unwrap(), Vec::<String>::new());
}

fn offsets() -> RekordboxOffsets {
    RekordboxOffsets {
        current_bpm: vec![pointer(&[1], 10), pointer(&[2], 10), pointer(&[3], 10)],
        sample_position: vec![pointer(&[4], 20), pointer(&[5], 20)],
        track_info: vec![pointer(&[6], 30), pointer(&[7], 30)],
        anlz_path: vec![pointer(&[8], 40), pointer(&[9], 40)],
        masterdeck_index: pointer(&[10], 50),
    }
}

fn memory_of_rekordbox() -> Memory {
    Memory::new(&[(1001, 100), (1002, 200), (1004, 400), (1005, 500), (1010, 900)])
}

fn connect(memory: &Memory, offsets: &RekordboxOffsets, decks: usize) -> Result<Result<Rekordbox, ReadError>, Fault> {
    let mut n: ConnectNext = Rekordbox::new();
    loop {
        match n {
            Next::Ask(q, s) => n = s.resume(offsets, decks, memory.answer(q)),
            Next::Done(r) => return Ok(r),
            Next::Fault(f) => return Err(f),
        }
    }
}

#[test]
fn connection_finds_all_values() {
    let rb = connect(&memory_of_rekordbox(), &offsets(), 2).unwrap().unwrap();
    assert_eq!(rb.deckcount, 2);
    assert_eq!(rb.current_bpms.iter().map(|v| v.address).collect::<Vec<_>>(), vec![110, 210]);
    assert_eq!(rb.sample_positions.iter().map(|v| v.address).collect::<Vec<_>>(), vec![420, 520]);
    assert_eq!(rb.masterdeck_index.address, 950);
    assert_eq!(rb.track_infos.len(), 2);
    assert!(rb.track_infos[1].base == 1000 && rb.track_infos[1].pointer == pointer(&[7], 30));
    assert!(rb.anlz_paths[0].base == 1000 && rb.anlz_paths[0].pointer == pointer(&[8], 40));
    assert_eq!(connect(&memory_of_rekordbox(), &offsets(), 0).unwrap().unwrap().deckcount, 0);
}

#[test]
fn connection_fails_where_something_is_missing() {
    let mut memory = memory_of_rekordbox();
    memory.process = Err(MemoryError::ProcessNotFound);
    let e = connect(&memory, &offsets(), 2).unwrap().unwrap_err();
    assert!(e == ReadError { pointer: None, address: 0, error: MemoryError::ProcessNotFound });

    let mut memory = memory_of_rekordbox();
    memory.base = Err(MemoryError::ModuleNotFound);
    let e = connect(&memory, &offsets(), 2).unwrap().unwrap_err();
    assert!(e == ReadError { pointer: None, address: 0, error: MemoryError::ModuleNotFound });

    for (address, p) in [
        (1002, pointer(&[2], 10)),
        (1004, pointer(&[4], 20)),
        (1010, pointer(&[10], 50)),
    ] {
        let mut memory = memory_of_rekordbox();
        memory.words.remove(&address);
        let e = connect(&memory, &offsets(), 2).unwrap().unwrap_err();
        assert!(e == ReadError { pointer: Some(p), address, error: refused() });
    }
}

#[test]
fn connection_needs_offsets_for_each_deck() {
    let memory = memory_of_rekordbox();
    assert_eq!(connect(&memory, &offsets(), 4).unwrap_err(), Fault::MissingOffsets);
    let mut o = offsets();
    o.sample_position.pop();
    assert_eq!(connect(&memory, &o, 2).unwrap_err(), Fault::MissingOffsets);
    let mut o = offsets();
    o.track_info.pop();
    assert_eq!(connect(&memory, &o, 2).unwrap_err(), Fault::MissingOffsets);
    let mut o = offsets();
    o.anlz_path.pop();
    assert_eq!(connect(&memory, &o, 2).unwrap_err(), Fault::MissingOffsets);
    assert!(connect(&memory, &o, 1).is_ok());
}

#[test]
fn timing_data_is_read_position_first() {
    let rb = connect(&memory_of_rekordbox(), &offsets(), 2).unwrap().unwrap();
    match rb.read_timing_data(1) {
        Next::Ask(Request::Long(520), s) => match s.resume(&rb, Reply::Long(Ok(-5))) {
            Next::Ask(Request::Single(210), s) => {
                let tempo = Single { bits: 120.5f32.to_bits() };
                match s.resume(&rb, Reply::Single(Ok(tempo))) {
                    Next::Done(Ok(td)) => {
                        assert_eq!(td.sample_position, -5);
                        assert_eq!(td.current_bpm.bits, tempo.bits);
                    }
                    n => panic!("{n:?}"),
                }
                match s.resume(&rb, Reply::Single(Err(refused()))) {
                    Next::Done(Err(e)) => assert_eq!(e.address, 210),
                    n => panic!("{n:?}"),
                }
                assert!(matches!(s.resume(&rb, Reply::Sleep), Next::Fault(Fault::UnexpectedReply)));
            }
            n => panic!("{n:?}"),
        },
        n => panic!("{n:?}"),
    }
    match rb.read_timing_data(0) {
        Next::Ask(_, s) => match s.resume(&rb, Reply::Long(Err(refused()))) {
            Next::Done(Err(e)) => {
                assert!(e == ReadError { pointer: None, address: 420, error: refused() });
            }
            n => panic!("{n:?}"),
        },
        n => panic!("{n:?}"),
    }
}

#[test]
fn master_deck_is_a_byte() {
    let rb = connect(&memory_of_rekordbox(), &offsets(), 2).unwrap().unwrap();
    assert_eq!(rb.read_masterdeck_index(Ok(255)).unwrap(), 255);
    let e = rb.read_masterdeck_index(Err(refused())).unwrap_err();
    assert!(e == ReadError { pointer: None, address: 950, error: refused() });
}

#[test]
fn blocks_have_their_sizes() {
    let rb = connect(&memory_of_rekordbox(), &offsets(), 1).unwrap().unwrap();
    let next_request = |n: TextNext, chains: &Vec<PointerChainValue>| match n {
        Next::Ask(Request::Word(_), s) => match s.resume(chains, Reply::Word(Ok(7000))) {
            Next::Ask(q, _) => q,
            n => panic!("{n:?}"),
        },
        n => panic!("{n:?}"),
    };
    let q = next_request(rb.get_track_infos(), &rb.track_infos);
    assert!(matches!(q, Request::Block(7030, 200)));
    let q = next_request(rb.get_anlz_paths(), &rb.anlz_paths);
    assert!(matches!(q, Request::Block(7040, 500)));
}
