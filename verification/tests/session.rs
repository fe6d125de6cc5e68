use rkbx_link::keeper::BeatKeeper;
use rkbx_link::memory::{MemoryError, Pointer, ReadError};
use rkbx_link::output::{Level, Notification, Output, Target};
use rkbx_link::protocol::{BeatPosition, Fault, Next, Reply, Request};
use rkbx_link::rekordbox::RekordboxOffsets;
use rkbx_link::session::{KeeperConfig, ModuleDefinition, Session, SessionNext, Settings};
use rkbx_link::single::Single;
use std::collections::HashMap;

fn single(x: f32) -> Single {
    Single { bits: x.to_bits() }
}

fn refused() -> MemoryError {
    MemoryError::ReadMemoryFailed("refused".to_string())
}

fn at(offset: usize) -> Pointer {
    Pointer { offsets: vec![], final_offset: offset }
}

/// Values of deck `d` are at `10 * d` and a few more; the master deck is at 1.
fn offsets(decks: usize) -> RekordboxOffsets {
    let list = |n: usize| (1..=decks).map(|d| at(10 * d + n)).collect();
    RekordboxOffsets {
        current_bpm: list(0),
        sample_position: list(1),
        track_info: list(2),
        anlz_path: list(3),
        masterdeck_index: at(1),
    }
}

struct Machine {
    running: bool,
    bytes: HashMap<usize, u8>,
    longs: HashMap<usize, i64>,
    singles: HashMap<usize, f32>,
    blocks: HashMap<usize, String>,
    files: HashMap<String, Vec<u8>>,
    enabled: Vec<&'static str>,
    broken: Vec<usize>,
    elapsed: u128,
    /// What was asked for, as far as it is of interest.
    asked: Vec<String>,
}

impl Machine {
    fn new(decks: usize) -> Machine {
        let mut m = Machine {
            running: true,
            bytes: HashMap::new(),
            longs: HashMap::new(),
            singles: HashMap::new(),
            blocks: HashMap::new(),
            files: HashMap::new(),
            enabled: vec![],
            broken: vec![],
            elapsed: 5_000_000,
            asked: vec![],
        };
        m.bytes.insert(1, 0);
        for d in 1..=decks {
            m.singles.insert(10 * d, 100.0 + d as f32);
            m.longs.insert(10 * d + 1, 44100 * d as i64);
            m.blocks.insert(10 * d + 2, format!("Title: T{d}\nArtist: A{d}\nAlbum: L{d}"));
            m.blocks.insert(10 * d + 3, String::new());
        }
        m
    }

    fn answer(&mut self, q: Request) -> Reply {
        match q {
            Request::Enabled(key) => {
                let on = self.enabled.iter().any(|k| *k == key);
                self.asked.push(format!("enabled {key}"));
                Reply::Enabled(on)
            }
            Request::Create(i) => {
                self.asked.push(format!("create {i}"));
                Reply::Create(!self.broken.contains(&i))
            }
            Request::Process => Reply::Process(match self.running {
                true => Ok(()),
                false => Err(MemoryError::ProcessNotFound),
            }),
            Request::ModuleBase => Reply::ModuleBase(Ok(0)),
            Request::Word(_) => Reply::Word(Err(refused())),
            Request::Byte(a) => Reply::Byte(self.bytes.get(&a).copied().ok_or(refused())),
            Request::Long(a) => Reply::Long(self.longs.get(&a).copied().ok_or(refused())),
            Request::Single(a) => {
                Reply::Single(self.singles.get(&a).map(|x| single(*x)).ok_or(refused()))
            }
            Request::Block(a, n) => Reply::Block(match self.blocks.get(&a) {
                Some(s) => {
                    let mut b = s.as_bytes().to_vec();
                    b.resize(n, 0);
                    Ok(b)
                }
                None => Err(refused()),
            }),
            Request::Seconds(n) => Reply::Seconds(single(n as f32 / 44100.)),
            Request::Beat(b, now) => {
                let now = f32::from_bits(now.bits);
                let remainder = now - b.time as f32 / 1000.;
                let spb = 1. / (b.tempo as f32 / 100. / 60.0);
                Reply::Beat(BeatPosition {
                    beat: single(b.beat as f32 + remainder / spb),
                    original_bpm: single(b.tempo as f32 / 100.),
                })
            }
            Request::File(p) => {
                self.asked.push(format!("file {p}"));
                Reply::File(self.files.get(&p).cloned())
            }
            Request::GridSeconds(t) => {
                Reply::GridSeconds(t.iter().map(|t| single(*t as f32 / 1000.)).collect())
            }
            Request::Elapsed => Reply::Elapsed(self.elapsed),
            Request::Sleep(n) => {
                self.asked.push(format!("sleep {n}"));
                Reply::Sleep
            }
        }
    }
}

fn settings(decks: usize) -> Settings {
    Settings::new(
        KeeperConfig {
            update_rate: None,
            slow_update_every_nth: Some(3),
            keep_warm: None,
            decks: Some(decks),
        },
        0,
    )
}

/// Runs a session until the next pause or fault; gives what was told.
struct Run {
    machine: Machine,
    next: Option<SessionNext>,
    out: Vec<Output>,
}

impl Run {
    fn new(machine: Machine, offsets: RekordboxOffsets, modules: Vec<ModuleDefinition>, settings: Settings) -> Run {
        let mut out = Vec::new();
        let next = BeatKeeper::start(offsets, modules, settings, &mut out);
        Run { machine, next: Some(next), out }
    }

    fn of(decks: usize) -> Run {
        Run::new(Machine::new(decks), offsets(decks), vec![], settings(decks))
    }

    /// Goes on to behind the next pause, but does not start what comes then.
    fn to_pause(&mut self) -> Result<Vec<String>, Fault> {
        let mut next = self.next.take().unwrap();
        loop {
            match next {
                Next::Ask(q, s) => {
                    let pause = matches!(q, Request::Sleep(_));
                    let reply = self.machine.answer(q);
                    if pause {
                        let told = tell(&self.out);
                        self.out.clear();
                        self.next = Some(s.resume(reply, &mut self.out));
                        return Ok(told);
                    }
                    next = s.resume(reply, &mut self.out);
                }
                Next::Fault(f) => return Err(f),
                Next::Done(()) => unreachable!(),
            }
        }
    }
}

fn number(x: &Single) -> f32 {
    f32::from_bits(x.bits)
}

fn whom(t: &Target) -> String {
    match t {
        Target::Deck(d) => format!("{d}"),
        Target::Master => "M".to_string(),
    }
}

fn tell(out: &[Output]) -> Vec<String> {
    let mut told = Vec::new();
    for o in out {
        match o {
            Output::Notify(batch) => {
                for n in batch {
                    told.push(match n {
                        Notification::Beat(b, t) => format!("beat {} {}", whom(t), number(b)),
                        Notification::Time(p, t) => format!("time {} {p}", whom(t)),
                        Notification::Bpm(b, t) => format!("bpm {} {}", whom(t), number(b)),
                        Notification::OriginalBpm(b, t) => format!("original {} {}", whom(t), number(b)),
                        Notification::Track(i, t) => {
                            format!("track {} {}/{}/{}", whom(t), i.title, i.artist, i.album)
                        }
                        Notification::SlowUpdate => "slow".to_string(),
                    });
                }
            }
            Output::Print(s) => told.push(format!("print {s}")),
            Output::Log(Level::Debug, s) => told.push(format!("D {s}")),
            Output::Log(Level::Info, s) => told.push(format!("I {s}")),
            Output::Log(Level::Good, s) => told.push(format!("G {s}")),
            Output::Log(Level::Warn, s) => told.push(format!("W {s}")),
            Output::Log(Level::Error, s) => told.push(format!("E {s}")),
            Output::LogMasterTrack(i) => told.push(format!("master track {}", i.title)),
            Output::LogPointer(p) => told.push(format!("pointer {:?} {}", p.offsets, p.final_offset)),
            Output::LogVersions(v) => told.push(format!("versions {v:?}")),
            Output::UpdateStarts => told.push("update".to_string()),
        }
    }
    told
}

#[test]
fn defaults_are_filled_in() {
    let nothing = KeeperConfig { update_rate: None, slow_update_every_nth: None, keep_warm: None, decks: None };
    let s = Settings::new(nothing, 9);
    assert_eq!(
        s,
        Settings {
            update_rate: 50,
            slow_update_every_nth: 50,
            offset_samples: 9,
            keep_warm: true,
            decks: 4,
            connected_decks: 2,
        }
    );
    let s = settings(3);
    assert_eq!((s.decks, s.connected_decks, s.slow_update_every_nth), (3, 3, 3));
}

#[test]
fn modules_are_started_if_enabled() {
    let modules = vec![
        ModuleDefinition::new("link", "Ableton Link"),
        ModuleDefinition::new("osc", "OSC"),
        ModuleDefinition::new("file", "File"),
    ];
    let mut machine = Machine::new(1);
    machine.running = false;
    machine.enabled = vec!["link.enabled", "file.enabled"];
    machine.broken = vec![2];
    let mut run = Run::new(machine, offsets(1), modules, settings(1));
    assert_eq!(
        run.to_pause().unwrap(),
        vec![
            "I Active modules:",
            "I  - Ableton Link",
            "I  - File",
            "E Failed to start module File",
            "I Looking for Rekordbox...",
            "print ",
            "E Rekordbox process not found!",
            "I ...",
        ]
    );
    assert_eq!(
        run.machine.asked,
        vec![
            "enabled link.enabled",
            "create 0",
            "enabled osc.enabled",
            "enabled file.enabled",
            "create 2",
            "sleep 3000000000",
        ]
    );
    // The same error is not reported again.
    assert_eq!(run.to_pause().unwrap(), vec!["I ..."]);
}

#[test]
fn first_update_tells_everything() {
    let mut run = Run::of(2);
    let told = run.to_pause().unwrap();
    assert_eq!(
        told,
        vec![
            "I Active modules:",
            "I Looking for Rekordbox...",
            "print ",
            "print ",
            "G Connected to Rekordbox!",
            "update",
            "time 0 44100",
            "bpm 0 101",
            "original 0 120",
            "time M 44100",
            "bpm M 101",
            "original M 120",
            "time 1 88200",
            "bpm 1 102",
            "original 1 120",
            "track 0 T1/A1/L1",
            "track 1 T2/A2/L2",
            "slow",
            "master track T1",
            "track M T1/A1/L1",
        ]
    );
    // 20 ms from one update to the next, of which 5 have passed.
    assert_eq!(run.machine.asked, vec!["sleep 15000000"]);
}

#[test]
fn repeated_updates_tell_nothing() {
    let mut run = Run::of(2);
    run.to_pause().unwrap();
    assert_eq!(run.to_pause().unwrap(), vec!["update"]);
    assert_eq!(run.to_pause().unwrap(), vec!["update"]);
    // Every third update is a slow one.
    assert_eq!(run.to_pause().unwrap(), vec!["update", "slow"]);
    assert_eq!(run.to_pause().unwrap(), vec!["update"]);
    assert_eq!(run.to_pause().unwrap(), vec!["update"]);
    assert_eq!(run.to_pause().unwrap(), vec!["update", "slow"]);
}

#[test]
fn changes_are_told_once() {
    let mut run = Run::of(2);
    run.to_pause().unwrap();
    run.machine.longs.insert(21, 99);
    run.machine.singles.insert(10, 0.0);
    assert_eq!(
        run.to_pause().unwrap(),
        vec!["update", "bpm 0 120", "bpm M 120", "time 1 99"]
    );
    assert_eq!(run.to_pause().unwrap(), vec!["update"]);
}

#[test]
fn another_master_deck_is_told() {
    let mut run = Run::of(2);
    run.to_pause().unwrap();
    run.machine.bytes.insert(1, 1);
    assert_eq!(
        run.to_pause().unwrap(),
        vec![
            "update",
            "time M 88200",
            "bpm M 102",
            "master track T2",
            "track M T2/A2/L2",
        ]
    );
    assert_eq!(run.to_pause().unwrap(), vec!["update"]);
}

#[test]
fn tracks_are_looked_at_in_slow_updates_only() {
    let mut run = Run::of(2);
    run.to_pause().unwrap();
    run.machine.blocks.insert(12, "Title: New\nArtist: B\nAlbum: C".to_string());
    run.machine.blocks.insert(22, "Title: Other".to_string());
    assert_eq!(run.to_pause().unwrap(), vec!["update"]);
    assert_eq!(run.to_pause().unwrap(), vec!["update"]);
    assert_eq!(
        run.to_pause().unwrap(),
        vec![
            "update",
            "track 0 New/B/C",
            "track 1 Other//",
            "slow",
            "master track New",
            "track M New/B/C",
        ]
    );
}

#[test]
fn without_a_master_deck_nothing_happens() {
    let mut run = Run::of(2);
    run.machine.bytes.insert(1, 255);
    let told = run.to_pause().unwrap();
    assert_eq!(told[5..], ["update"]);
    // It counts as an update all the same: the next slow one is the fourth.
    run.machine.bytes.insert(1, 0);
    let told = run.to_pause().unwrap();
    assert!(!told.contains(&"slow".to_string()));
    assert!(told.contains(&"track M //".to_string()));
    run.to_pause().unwrap();
    assert!(run.to_pause().unwrap().contains(&"slow".to_string()));
}

#[test]
fn only_the_master_deck_is_followed_unless_kept_warm() {
    let s = Settings { keep_warm: false, ..settings(2) };
    let mut run = Run::new(Machine::new(2), offsets(2), vec![], s);
    let told = run.to_pause().unwrap();
    assert!(told.contains(&"bpm 0 101".to_string()));
    assert!(!told.contains(&"bpm 1 102".to_string()));
    run.machine.longs.insert(21, 1);
    run.machine.longs.insert(11, 2);
    assert_eq!(run.to_pause().unwrap(), vec!["update", "time 0 2", "time M 2"]);
}

#[test]
fn decks_that_cannot_be_read_are_passed_over() {
    let mut run = Run::of(2);
    run.machine.longs.remove(&11);
    let told = run.to_pause().unwrap();
    assert_eq!(told[5..9], ["update", "time 1 88200", "bpm 1 102", "original 1 120"]);
    run.machine.longs.insert(11, 7);
    run.machine.singles.remove(&20);
    run.machine.longs.insert(21, 8);
    assert_eq!(
        run.to_pause().unwrap(),
        vec![
            "update",
            "time 0 7",
            "bpm 0 101",
            "original 0 120",
            "time M 7",
            "bpm M 101",
            "original M 120"
        ]
    );
}

#[test]
fn lost_connections_are_made_again() {
    let mut run = Run::of(1);
    run.to_pause().unwrap();
    run.machine.bytes.remove(&1);
    run.machine.asked.clear();
    let advice = [
        "E Read memory failed: refused",
        "I     Try the following:",
        "I     - Wait for Rekordbox to start and load a track",
        "I     - Ensure you have selected the correct Rekordbox version in the config",
        "I     - Check the number of decks in the config",
        "I     - Update the offsets and program",
        "I     If nothing works, wait for an update, or enable Debug in config and submit this entire error message on an Issue on GitHub.",
        "D Address: 1",
    ];
    let mut expected = vec!["update"];
    expected.extend(advice);
    expected.extend(["E Connection to Rekordbox lost", "I Reconnecting in 3s..."]);
    assert_eq!(run.to_pause().unwrap(), expected);
    assert_eq!(run.machine.asked, vec!["sleep 3000000000"]);
    // The connection is made again; the same error is then reported anew.
    let mut again = vec!["print ", "G Connected to Rekordbox!"];
    again.extend(expected.clone());
    assert_eq!(run.to_pause().unwrap(), again);
    run.machine.bytes.insert(1, 0);
    assert_eq!(run.to_pause().unwrap(), vec!["print ", "G Connected to Rekordbox!", "update"]);
}

#[test]
fn texts_that_cannot_be_read_end_the_connection() {
    let mut run = Run::of(1);
    run.to_pause().unwrap();
    run.to_pause().unwrap();
    run.to_pause().unwrap();
    run.machine.blocks.remove(&13);
    let told = run.to_pause().unwrap();
    assert!(told.contains(&"D Address: D".to_string()));
    assert!(told.contains(&"E Connection to Rekordbox lost".to_string()));
    assert!(!told.contains(&"slow".to_string()));
}

#[test]
fn long_updates_are_followed_by_the_next_at_once() {
    let mut run = Run::of(1);
    run.machine.elapsed = 20_000_000;
    let mut next = run.next.take().unwrap();
    let mut updates = 0;
    while updates < 3 {
        match next {
            Next::Ask(q, s) => {
                assert!(!matches!(q, Request::Sleep(_)));
                if matches!(q, Request::Elapsed) {
                    updates += 1;
                }
                let reply = run.machine.answer(q);
                next = s.resume(reply, &mut run.out);
            }
            _ => unreachable!(),
        }
    }
    run.machine.elapsed = 19_999_999;
    run.next = Some(next);
    run.to_pause().unwrap();
    assert_eq!(run.machine.asked.last().unwrap(), "sleep 1");
}

fn analysis(beats: &[(u16, u16, u32)]) -> Vec<u8> {
    let mut s = b"PQTZ".to_vec();
    for n in [24, 24 + 8 * beats.len() as u32, 0, 0x0080_0000, beats.len() as u32] {
        s.extend(n.to_be_bytes());
    }
    for (n, t, ms) in beats {
        s.extend(n.to_be_bytes());
        s.extend(t.to_be_bytes());
        s.extend(ms.to_be_bytes());
    }
    let mut f = b"PMAI".to_vec();
    f.extend(28u32.to_be_bytes());
    f.extend((28 + s.len() as u32).to_be_bytes());
    f.extend([0u8; 16]);
    f.extend(s);
    f
}

#[test]
fn beats_are_placed_on_the_grid() {
    let mut run = Run::of(1);
    run.machine.blocks.insert(13, "C:/a.DAT".to_string());
    run.machine.files.insert("C:/a.DAT".to_string(), analysis(&[(1, 12000, 0), (2, 12000, 500), (3, 6000, 1000)]));
    let told = run.to_pause().unwrap();
    assert!(told.contains(&"print Anlz path changed: C:/a.DAT".to_string()));
    assert!(told.contains(&"slow".to_string()));
    // One second in: one beat of half a second behind the second beat.
    assert_eq!(
        run.to_pause().unwrap(),
        vec!["update", "beat 0 2", "beat M 2"]
    );
    run.machine.longs.insert(11, 44100 + 22050);
    assert_eq!(
        run.to_pause().unwrap(),
        vec![
            "update",
            "beat 0 2.5",
            "time 0 66150",
            "original 0 60",
            "beat M 2.5",
            "time M 66150",
            "original M 60",
        ]
    );
    // The file is read once.
    run.to_pause().unwrap();
    assert_eq!(run.machine.asked.iter().filter(|a| a.starts_with("file")).count(), 1);
}

#[test]
fn delay_is_compensated() {
    let s = Settings { offset_samples: -22050, ..settings(1) };
    let mut run = Run::new(Machine::new(1), offsets(1), vec![], s);
    run.machine.blocks.insert(13, "p".to_string());
    run.machine.files.insert("p".to_string(), analysis(&[(1, 12000, 0), (2, 12000, 450)]));
    run.to_pause().unwrap();
    let told = run.to_pause().unwrap();
    // Half a second in, 50 ms behind the second beat; the time that is told is that of the deck.
    assert_eq!(told.len(), 3);
    let beat: f32 = told[1].strip_prefix("beat 0 ").unwrap().parse().unwrap();
    assert!((beat - 1.1).abs() < 1e-5);
}

#[test]
fn files_that_cannot_be_read_are_passed_over() {
    let mut run = Run::of(2);
    run.machine.blocks.insert(13, "gone".to_string());
    run.machine.blocks.insert(23, "empty".to_string());
    let mut without_grid = analysis(&[]);
    without_grid.truncate(28);
    without_grid[11] = 28;
    run.machine.files.insert("empty".to_string(), without_grid);
    let told = run.to_pause().unwrap();
    let i = told.iter().position(|l| l.starts_with("print Anlz")).unwrap();
    assert_eq!(
        told[i..i + 4],
        [
            "print Anlz path changed: gone",
            "print Failed to read anlz file: gone",
            "print Anlz path changed: empty",
            "slow"
        ]
    );
    assert_eq!(run.to_pause().unwrap(), vec!["update"]);
}

#[test]
fn impossible_states_are_faults() {
    // More decks followed than connected.
    let s = Settings { decks: 2, connected_decks: 1, ..settings(1) };
    let mut run = Run::new(Machine::new(1), offsets(1), vec![], s);
    assert_eq!(run.to_pause().unwrap_err(), Fault::DeckOutOfRange);
    // More decks than there are slots.
    let s = Settings { decks: 5, connected_decks: 1, ..settings(1) };
    let mut run = Run::new(Machine::new(1), offsets(1), vec![], s);
    assert_eq!(run.to_pause().unwrap_err(), Fault::TooManyDecks);
    let s = Settings { decks: 1, connected_decks: 5, ..settings(1) };
    let mut run = Run::new(Machine::new(5), offsets(5), vec![], s);
    assert_eq!(run.to_pause().unwrap_err(), Fault::DeckOutOfRange);
    // Intervals of zero.
    let s = Settings { update_rate: 0, ..settings(1) };
    let mut run = Run::new(Machine::new(1), offsets(1), vec![], s);
    assert_eq!(run.to_pause().unwrap_err(), Fault::ZeroUpdateRate);
    let s = Settings { slow_update_every_nth: 0, ..settings(1) };
    let mut run = Run::new(Machine::new(1), offsets(1), vec![], s);
    assert_eq!(run.to_pause().unwrap_err(), Fault::ZeroSlowUpdateInterval);
    // A file that is none, and a grid without beats.
    let mut run = Run::of(1);
    run.machine.blocks.insert(13, "p".to_string());
    run.machine.files.insert("p".to_string(), vec![1, 2, 3]);
    assert_eq!(run.to_pause().unwrap_err(), Fault::MalformedAnalysis);
    let mut run = Run::of(1);
    run.machine.blocks.insert(13, "p".to_string());
    run.machine.files.insert("p".to_string(), analysis(&[]));
    run.to_pause().unwrap();
    assert_eq!(run.to_pause().unwrap_err(), Fault::EmptyBeatGrid);
    // A position that cannot be shifted.
    let s = Settings { offset_samples: 1, ..settings(1) };
    let mut run = Run::new(Machine::new(1), offsets(1), vec![], s);
    run.machine.longs.insert(11, i64::MAX);
    assert_eq!(run.to_pause().unwrap_err(), Fault::PositionOverflow);
    // Offsets that do not suffice.
    let s = Settings { connected_decks: 2, ..settings(1) };
    let mut run = Run::new(Machine::new(1), offsets(1), vec![], s);
    assert_eq!(run.to_pause().unwrap_err(), Fault::MissingOffsets);
}

#[test]
fn counter_has_an_end() {
    let s = Settings { slow_update_every_nth: i32::MIN, ..settings(1) };
    let mut run = Run::new(Machine::new(1), offsets(1), vec![], s);
    run.to_pause().unwrap();
    match run.next.take().unwrap() {
        Next::Ask(q, mut s) => {
            assert_eq!(s.runner.n, 1);
            s.runner.n = i32::MAX;
            run.next = Some(Next::Ask(q, s));
        }
        _ => unreachable!(),
    }
    assert_eq!(run.to_pause().unwrap_err(), Fault::CounterOverflow);
}

#[test]
fn sign_of_the_interval_does_not_matter() {
    let s = Settings { slow_update_every_nth: -2, ..settings(1) };
    let mut run = Run::new(Machine::new(1), offsets(1), vec![], s);
    let slow: Vec<bool> =
        (0..5).map(|_| run.to_pause().unwrap().contains(&"slow".to_string())).collect();
    assert_eq!(slow, vec![true, false, true, false, true]);
}

#[test]
fn wrong_replies_to_a_session_are_faults() {
    let mut out = Vec::new();
    match BeatKeeper::start(offsets(1), vec![], settings(1), &mut out) {
        Next::Ask(Request::Process, s) => {
            assert!(matches!(s.resume(Reply::Sleep, &mut out), Next::Fault(Fault::UnexpectedReply)));
        }
        _ => unreachable!(),
    }
}

fn reported(keeper: &mut BeatKeeper, e: ReadError) -> Vec<String> {
    let mut out = Vec::new();
    keeper.report_error(e, &mut out);
    tell(&out)
}

fn error(address: usize, error: MemoryError) -> ReadError {
    ReadError { pointer: None, address, error }
}

#[test]
fn errors_are_reported_with_advice() {
    let mut k = BeatKeeper::new(settings(1));
    let text = "x".to_string();
    assert_eq!(
        reported(&mut k, error(0, MemoryError::SnapshotFailed(text.clone()))),
        vec!["E Snapshot failed: x", "I     Ensure Rekordbox is running!"]
    );
    assert_eq!(
        reported(&mut k, error(0xABCDEF, MemoryError::WriteMemoryFailed(text.clone()))),
        vec!["E Write memory failed: x", "D Address: ABCDEF"]
    );
    assert_eq!(
        reported(&mut k, error(0, MemoryError::ModuleNotFound)),
        vec!["E Rekordbox process not found!"]
    );
    let e = || ReadError {
        pointer: Some(Pointer { offsets: vec![1, 2], final_offset: 3 }),
        address: 16,
        error: MemoryError::ReadMemoryFailed("y".to_string()),
    };
    let lines = reported(&mut k, e());
    assert_eq!(lines[0], "E Read memory failed: y");
    assert_eq!(lines[7..], ["pointer [1, 2] 3", "D Address: 10"]);
}

#[test]
fn errors_are_reported_once() {
    let mut k = BeatKeeper::new(settings(1));
    assert_eq!(reported(&mut k, error(0, MemoryError::ProcessNotFound)).len(), 1);
    assert!(reported(&mut k, error(0, MemoryError::ProcessNotFound)).is_empty());
    // Another one in between, and it is reported again.
    assert_eq!(reported(&mut k, error(0, MemoryError::ModuleNotFound)).len(), 1);
    assert_eq!(reported(&mut k, error(0, MemoryError::ProcessNotFound)).len(), 1);
    assert_eq!(reported(&mut k, error(5, MemoryError::ProcessNotFound)).len(), 2);
    assert!(k.last_error == Some(error(5, MemoryError::ProcessNotFound)));
}

#[test]
fn updates_keep_settings() {
    let s = Settings { offset_samples: 7, ..settings(2) };
    let mut run = Run::new(Machine::new(2), offsets(2), vec![], s);
    for _ in 0..4 {
        run.to_pause().unwrap();
    }
    match &run.next {
        Some(Next::Ask(_, s)) => {
            let k = &s.runner.keeper;
            assert_eq!((k.offset_samples, k.keep_warm, k.decks), (7, true, 2));
            assert!(k.last_error.is_none());
            assert_eq!(k.track_infos.len(), 4);
            assert_eq!(k.track_infos[1].value.title, "T2");
            assert!(k.track_trackers[1].track_changed && !k.track_trackers[2].track_changed);
        }
        _ => unreachable!(),
    }
}

/// Runs up to the first reading of the clock.
fn to_clock(run: &mut Run) -> Session {
    let mut next = run.next.take().unwrap();
    loop {
        match next {
            Next::Ask(Request::Elapsed, s) => return s,
            Next::Ask(q, s) => {
                let reply = run.machine.answer(q);
                next = s.resume(reply, &mut run.out);
            }
            _ => unreachable!(),
        }
    }
}

#[test]
fn pause_is_measured_by_a_second_look_at_the_clock() {
    for (second, pause) in [(1, Some(19_999_999)), (6_000_000, Some(14_000_000)), (20_000_000, Some(0)), (20_000_001, None)] {
        let mut run = Run::of(1);
        let s = to_clock(&mut run);
        let s = match s.resume(Reply::Elapsed(1), &mut run.out) {
            Next::Ask(Request::Elapsed, s) => s,
            _ => unreachable!(),
        };
        match (s.resume(Reply::Elapsed(second), &mut run.out), pause) {
            (Next::Ask(Request::Sleep(n), _), Some(expected)) => assert_eq!(n, expected),
            (Next::Fault(Fault::PeriodOverrun), None) => {}
            _ => panic!("{second}"),
        }
    }
    // Without time left there is no second look.
    let mut run = Run::of(1);
    let s = to_clock(&mut run);
    assert!(matches!(
        s.resume(Reply::Elapsed(20_000_000), &mut run.out),
        Next::Ask(Request::Byte(1), _)
    ));
}

#[test]
fn repeated_slow_updates_tell_only_of_themselves() {
    let s = Settings { slow_update_every_nth: 1, ..settings(2) };
    let mut run = Run::new(Machine::new(2), offsets(2), vec![], s);
    assert!(run.to_pause().unwrap().contains(&"track 1 T2/A2/L2".to_string()));
    assert_eq!(run.to_pause().unwrap(), vec!["update", "slow"]);
    assert_eq!(run.to_pause().unwrap(), vec!["update", "slow"]);
    // Without a master deck not even that.
    run.machine.bytes.insert(1, 9);
    assert_eq!(run.to_pause().unwrap(), vec!["update"]);
    assert_eq!(run.to_pause().unwrap(), vec!["update"]);
}

#[test]
fn new_beat_grids_place_the_decks_anew() {
    let s = Settings { slow_update_every_nth: 1, ..settings(1) };
    let mut run = Run::new(Machine::new(1), offsets(1), vec![], s);
    run.machine.blocks.insert(13, "p".to_string());
    run.machine.files.insert("p".to_string(), analysis(&[(1, 6000, 0)]));
    run.to_pause().unwrap();
    assert_eq!(
        run.to_pause().unwrap(),
        vec!["update", "beat 0 1", "original 0 60", "beat M 1", "original M 60", "slow"]
    );
    assert_eq!(run.to_pause().unwrap(), vec!["update", "slow"]);
}

#[test]
fn returning_master_deck_is_told_once() {
    let s = Settings { slow_update_every_nth: 100, ..settings(2) };
    let mut run = Run::new(Machine::new(2), offsets(2), vec![], s);
    run.to_pause().unwrap();
    run.machine.bytes.insert(1, 255);
    assert_eq!(run.to_pause().unwrap(), vec!["update"]);
    run.machine.bytes.insert(1, 0);
    assert_eq!(
        run.to_pause().unwrap(),
        vec!["update", "master track T1", "track M T1/A1/L1"]
    );
    assert_eq!(run.to_pause().unwrap(), vec!["update"]);
}

#[test]
fn failed_updates_are_not_counted() {
    let mut run = Run::of(1);
    let is_slow = |told: Vec<String>| told.contains(&"slow".to_string());
    assert!(is_slow(run.to_pause().unwrap()));
    assert!(!is_slow(run.to_pause().unwrap()));
    // Two failures in between.
    run.machine.bytes.remove(&1);
    assert!(!is_slow(run.to_pause().unwrap()));
    assert!(!is_slow(run.to_pause().unwrap()));
    run.machine.bytes.insert(1, 0);
    assert!(!is_slow(run.to_pause().unwrap()));
    assert!(is_slow(run.to_pause().unwrap()));
    // A slow update that fails is made up for.
    run.to_pause().unwrap();
    run.to_pause().unwrap();
    let block = run.machine.blocks.remove(&12).unwrap();
    assert!(!is_slow(run.to_pause().unwrap()));
    run.machine.blocks.insert(12, block);
    assert!(is_slow(run.to_pause().unwrap()));
}
