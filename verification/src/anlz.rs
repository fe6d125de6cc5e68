//! Analysis files, and the beat grids in them.
use binrw::BinRead;
use vstd::prelude::*;

verus! {

/// A beat of a beat grid.
#[derive(Clone, Copy, Debug, PartialEq, Eq, Structural)]
pub struct Beat {
    /// Number of the beat in its bar, from 1 on.
    pub beat_number: u16,
    /// Tempo in hundredths of a beat per minute.
    pub tempo: u16,
    /// Time in milliseconds.
    pub time: u32,
}

/// A section of an analysis file, as far as it matters.
#[derive(Debug)]
pub enum AnlzSection {
    BeatGrid(Vec<Beat>),
    SongStructure,
    Other,
}

/// An analysis file could not be understood.
#[derive(Clone, Copy, Debug, PartialEq, Eq, Structural)]
pub enum AnlzError {
    Malformed,
}

// The kinds of sections, by their tags.
/// `PMAI`, the file itself.
pub const TAG_FILE: u32 = 0x504d_4149;

/// `PQTZ`
pub const TAG_BEAT_GRID: u32 = 0x5051_545a;

/// `PCOB`
pub const TAG_CUE_LIST: u32 = 0x5043_4f42;

/// `PCO2`
pub const TAG_EXTENDED_CUE_LIST: u32 = 0x5043_4f32;

/// `PCP2`
pub const TAG_EXTENDED_CUE: u32 = 0x5043_5032;

/// `PCPT`
pub const TAG_CUE: u32 = 0x5043_5054;

/// `PPTH`
pub const TAG_PATH: u32 = 0x5050_5448;

/// `PVBR`
pub const TAG_VBR: u32 = 0x5056_4252;

/// `PWAV`
pub const TAG_WAVEFORM_PREVIEW: u32 = 0x5057_4156;

/// `PWV2`
pub const TAG_TINY_WAVEFORM_PREVIEW: u32 = 0x5057_5632;

/// `PWV3`
pub const TAG_WAVEFORM_DETAIL: u32 = 0x5057_5633;

/// `PWV4`
pub const TAG_WAVEFORM_COLOR_PREVIEW: u32 = 0x5057_5634;

/// `PWV5`
pub const TAG_WAVEFORM_COLOR_DETAIL: u32 = 0x5057_5635;

/// `PSSI`
pub const TAG_SONG_STRUCTURE: u32 = 0x5053_5349;

/// The most phrases that a song structure can have: with more, the part of its key that tells
/// whether it is masked cannot be computed in 16 bits.
pub const MOST_PHRASES: u16 = 65310;

/// The most phrases that a masked song structure can have: with more, the rest of its key cannot
/// be computed in 16 bits.
pub const MOST_MASKED_PHRASES: u16 = 65285;

/// What the first byte of the key of a song structure is computed from.
pub const FIRST_KEY_BASE: u8 = 0xcb;

/// What the second byte of the key of a song structure is computed from.
pub const SECOND_KEY_BASE: u8 = 0xe1;

/// The big endian 16 bit number at a place.
pub open spec fn be16(b: Seq<u8>, p: int) -> int {
    b[p] * 256 + b[p + 1]
}

/// The big endian 32 bit number at a place.
pub open spec fn be32(b: Seq<u8>, p: int) -> int {
    be16(b, p) * 65536 + be16(b, p + 2)
}

/// At a place there is a text of 16 bit characters that takes `n` bytes and ends with a zero.
pub open spec fn text_ends(b: Seq<u8>, p: int, n: int) -> bool {
    &&& n >= 2
    &&& n % 2 == 0
    &&& p + n <= b.len()
    &&& b[p + n - 2] == 0
    &&& b[p + n - 1] == 0
}

/// A byte of the key of a song structure with this many phrases.
pub open spec fn key_byte(base: u8, phrases: int) -> u8 {
    ((base + phrases) % 256) as u8
}

/// The mood of the song structure at a place, once its mask is taken off.
pub open spec fn unmasked_mood(b: Seq<u8>, p: int) -> int {
    let phrases = be16(b, p + 16);
    (b[p + 18] ^ key_byte(FIRST_KEY_BASE, phrases)) * 256 + (b[p + 19] ^ key_byte(
        SECOND_KEY_BASE,
        phrases,
    ))
}

/// The song structure at a place is masked: with its mask off, it has one of the three moods.
pub open spec fn is_masked(b: Seq<u8>, p: int) -> bool {
    1 <= unmasked_mood(b, p) <= 3
}

/// The key of the song structure at a place can be computed, as far as it is needed.
pub open spec fn has_key(b: Seq<u8>, p: int) -> bool {
    let phrases = be16(b, p + 16);
    phrases <= MOST_MASKED_PHRASES || (phrases <= MOST_PHRASES && !is_masked(b, p))
}

/// How many bytes `n` extended cues take from a place on, if they lie in the file. Each has 68
/// bytes and, behind the first 44, a comment, whose length stands at its byte 40.
pub open spec fn cues_length(b: Seq<u8>, p: int, n: nat) -> Option<int>
    decreases n,
{
    if n == 0 {
        Some(0)
    } else if p + 44 > b.len() || !text_ends(b, p + 44, be32(b, p + 40)) {
        None
    } else {
        let first = 68 + be32(b, p + 40);
        match cues_length(b, p + first, (n - 1) as nat) {
            Some(rest) => Some(first + rest),
            None => None,
        }
    }
}

/// How many bytes the section at a place takes, or `None` if its header makes no sense: if a
/// length in it is smaller than one that it comprises, if a text in it does not end where its
/// length says, or if it is no section of a file.
pub open spec fn section_length(b: Seq<u8>, p: int) -> Option<int> {
    let size = be32(b, p + 4);
    let total = be32(b, p + 8);
    let tag = be32(b, p);
    if tag == TAG_BEAT_GRID {
        Some(24 + 8 * be32(b, p + 20))
    } else if tag == TAG_CUE_LIST {
        Some(24 + 56 * be16(b, p + 18))
    } else if tag == TAG_EXTENDED_CUE_LIST {
        match cues_length(b, p + 20, be16(b, p + 16) as nat) {
            Some(n) => Some(20 + n),
            None => None,
        }
    } else if tag == TAG_FILE || tag == TAG_CUE || tag == TAG_EXTENDED_CUE || total < size {
        None
    } else if tag == TAG_PATH {
        if text_ends(b, p + 16, total - size) {
            Some(16 + (total - size))
        } else {
            None
        }
    } else if tag == TAG_VBR {
        Some(16 + (total - size))
    } else if tag == TAG_WAVEFORM_PREVIEW || tag == TAG_TINY_WAVEFORM_PREVIEW {
        Some(20 + (total - size))
    } else if tag == TAG_WAVEFORM_DETAIL {
        Some(24 + be32(b, p + 16))
    } else if tag == TAG_WAVEFORM_COLOR_PREVIEW {
        if 6 * be32(b, p + 16) <= u32::MAX {
            Some(24 + 6 * be32(b, p + 16))
        } else {
            None
        }
    } else if tag == TAG_WAVEFORM_COLOR_DETAIL {
        if 2 * be32(b, p + 16) <= u32::MAX {
            Some(24 + 2 * be32(b, p + 16))
        } else {
            None
        }
    } else if tag == TAG_SONG_STRUCTURE {
        if has_key(b, p) {
            Some(32 + 24 * be16(b, p + 16))
        } else {
            None
        }
    } else if size < 12 {
        None
    } else {
        Some(total)
    }
}

/// From a place on, sections follow each other up to `end`, each within the file. (A header is 12
/// bytes long, and 24 bytes hold all the lengths of a section that has more.)
pub open spec fn sections_fit(b: Seq<u8>, p: int, end: int) -> bool
    decreases b.len() - p,
{
    p >= end || {
        &&& p + 12 <= b.len()
        &&& section_fits(b, p)
        &&& section_length(b, p)->0 > 0
        &&& sections_fit(b, p + section_length(b, p)->0, end)
    }
}

/// The section at a place makes sense and lies within the file.
pub open spec fn section_fits(b: Seq<u8>, p: int) -> bool {
    &&& has_lengths(b, p)
    &&& section_length(b, p) is Some
    &&& p + section_length(b, p)->0 <= b.len()
}

/// The lengths that stand in the section at a place lie within the file.
pub open spec fn has_lengths(b: Seq<u8>, p: int) -> bool {
    let tag = be32(b, p);
    if tag == TAG_BEAT_GRID || tag == TAG_CUE_LIST {
        p + 24 <= b.len()
    } else if tag == TAG_EXTENDED_CUE_LIST || tag == TAG_WAVEFORM_DETAIL || tag
        == TAG_WAVEFORM_COLOR_PREVIEW || tag == TAG_WAVEFORM_COLOR_DETAIL || tag
        == TAG_SONG_STRUCTURE {
        p + 20 <= b.len()
    } else {
        true
    }
}

/// The file is framed as it should be: its header is within it, and so are its sections, which
/// fill it up to the length that the header gives. What lies behind them does not matter.
pub open spec fn well_framed(b: Seq<u8>) -> bool {
    &&& 12 <= b.len()
    &&& 12 <= be32(b, 4) <= be32(b, 8)
    &&& be32(b, 4) <= b.len()
    &&& sections_fit(b, be32(b, 4), be32(b, 8))
}

fn read16(b: &Vec<u8>, p: usize) -> (r: u64)
    requires
        p + 2 <= b.len(),
    ensures
        r == be16(b@, p as int),
        r < 65536,
{
    b[p] as u64 * 256 + b[p + 1] as u64
}

fn read32(b: &Vec<u8>, p: usize) -> (r: u64)
    requires
        p + 4 <= b.len(),
    ensures
        r == be32(b@, p as int),
        r < 0x1_0000_0000,
{
    read16(b, p) * 65536 + read16(b, p + 2)
}

fn ends_text(b: &Vec<u8>, p: usize, n: u64) -> (r: bool)
    requires
        p <= b.len(),
    ensures
        r == text_ends(b@, p as int, n as int),
{
    if n < 2 || n % 2 != 0 || n > (b.len() - p) as u64 {
        return false;
    }
    let end: usize = p + n as usize;
    b[end - 2] == 0 && b[end - 1] == 0
}

fn finds_key(b: &Vec<u8>, p: usize) -> (r: bool)
    requires
        p + 20 <= b.len(),
    ensures
        r == has_key(b@, p as int),
{
    let phrases: u64 = read16(b, p + 16);
    let first: u8 = b[p + 18] ^ ((FIRST_KEY_BASE as u64 + phrases) % 256) as u8;
    let second: u8 = b[p + 19] ^ ((SECOND_KEY_BASE as u64 + phrases) % 256) as u8;
    let mood: u64 = first as u64 * 256 + second as u64;
    phrases <= MOST_MASKED_PHRASES as u64 || (phrases <= MOST_PHRASES as u64 && !(1 <= mood
        && mood <= 3))
}

fn measure_cues(b: &Vec<u8>, start: usize, count: u64) -> (r: Option<u64>)
    requires
        start <= b.len(),
        count < 65536,
    ensures
        match r {
            Some(n) => cues_length(b@, start as int, count as nat) == Some(n as int) && start + n
                <= b.len(),
            None => match cues_length(b@, start as int, count as nat) {
                Some(n) => start + n > b.len(),
                None => true,
            },
        },
{
    let mut left: u64 = count;
    let mut p: usize = start;
    while left > 0
        invariant
            start <= p <= b.len(),
            left <= count < 65536,
            cues_length(b@, start as int, count as nat) == (match cues_length(
                b@,
                p as int,
                left as nat,
            ) {
                Some(n) => Some(n + p - start),
                None => None,
            }),
        decreases left,
    {
        proof {
            lemma_cues_length_grows(b@, p as int, left as nat);
        }
        if b.len() - p < 44 {
            return None;
        }
        let comment: u64 = read32(b, p + 40);
        if !ends_text(b, p + 44, comment) {
            return None;
        }
        let first: u64 = 68 + comment;
        proof {
            lemma_cues_length_grows(b@, p + first, (left - 1) as nat);
        }
        if first > (b.len() - p) as u64 {
            return None;
        }
        p = p + first as usize;
        left = left - 1;
    }
    Some((p - start) as u64)
}

/// Cues take no negative number of bytes.
proof fn lemma_cues_length_grows(b: Seq<u8>, p: int, n: nat)
    ensures
        cues_length(b, p, n) matches Some(k) ==> k >= 0,
    decreases n,
{
    if n > 0 && p + 44 <= b.len() {
        lemma_cues_length_grows(b, p + 68 + be32(b, p + 40), (n - 1) as nat);
    }
}

/// The length of the section at a place, if it makes sense and lies within the file.
fn measure_section(b: &Vec<u8>, p: usize) -> (r: Option<usize>)
    requires
        p + 12 <= b.len(),
    ensures
        r is Some == section_fits(b@, p as int),
        r is Some ==> section_length(b@, p as int) == Some(r->0 as int),
{
    let left: usize = b.len() - p;
    let tag: u64 = read32(b, p);
    let size: u64 = read32(b, p + 4);
    let total: u64 = read32(b, p + 8);
    let length: u64;
    if tag == TAG_BEAT_GRID as u64 {
        if left < 24 {
            return None;
        }
        length = 24 + 8 * read32(b, p + 20);
    } else if tag == TAG_CUE_LIST as u64 {
        if left < 24 {
            return None;
        }
        length = 24 + 56 * read16(b, p + 18);
    } else if tag == TAG_EXTENDED_CUE_LIST as u64 {
        if left < 20 {
            return None;
        }
        let count: u64 = read16(b, p + 16);
        match measure_cues(b, p + 20, count) {
            Some(n) => {
                length = 20 + n;
            },
            None => {
                return None;
            },
        }
    } else if tag == TAG_FILE as u64 || tag == TAG_CUE as u64 || tag == TAG_EXTENDED_CUE as u64
        || total < size {
        return None;
    } else if tag == TAG_PATH as u64 {
        if left < 16 || !ends_text(b, p + 16, total - size) {
            return None;
        }
        length = 16 + (total - size);
    } else if tag == TAG_VBR as u64 {
        length = 16 + (total - size);
    } else if tag == TAG_WAVEFORM_PREVIEW as u64 || tag == TAG_TINY_WAVEFORM_PREVIEW as u64 {
        length = 20 + (total - size);
    } else if tag == TAG_WAVEFORM_DETAIL as u64 {
        if left < 20 {
            return None;
        }
        length = 24 + read32(b, p + 16);
    } else if tag == TAG_WAVEFORM_COLOR_PREVIEW as u64 {
        if left < 20 || 6 * read32(b, p + 16) > u32::MAX as u64 {
            return None;
        }
        length = 24 + 6 * read32(b, p + 16);
    } else if tag == TAG_WAVEFORM_COLOR_DETAIL as u64 {
        if left < 20 || 2 * read32(b, p + 16) > u32::MAX as u64 {
            return None;
        }
        length = 24 + 2 * read32(b, p + 16);
    } else if tag == TAG_SONG_STRUCTURE as u64 {
        if left < 20 || !finds_key(b, p) {
            return None;
        }
        length = 32 + 24 * read16(b, p + 16);
    } else if size < 12 {
        return None;
    } else {
        length = total;
    }
    if length <= left as u64 {
        Some(length as usize)
    } else {
        None
    }
}

/// Says whether a file is framed as it should be.
pub fn is_well_framed(b: &Vec<u8>) -> (r: bool)
    ensures
        r == well_framed(b@),
{
    if b.len() < 12 {
        return false;
    }
    let size: u64 = read32(b, 4);
    let end: u64 = read32(b, 8);
    if size < 12 || end < size || size > b.len() as u64 {
        return false;
    }
    let mut p: usize = size as usize;
    while (p as u64) < end
        invariant
            p <= b.len(),
            size == be32(b@, 4),
            end == be32(b@, 8),
            12 <= size <= end,
            size <= b.len(),
            sections_fit(b@, size as int, end as int) == sections_fit(b@, p as int, end as int),
        decreases b.len() - p,
    {
        if b.len() - p < 12 {
            return false;
        }
        match measure_section(b, p) {
            Some(n) => {
                if n == 0 {
                    return false;
                }
                p = p + n;
            },
            None => {
                return false;
            },
        }
    }
    true
}

/// The sections of an analysis file: `None` if it is malformed, and for each section its beats,
/// as number in the bar, tempo and time, if it is a beat grid.
pub uninterp spec fn anlz_sections(bytes: Seq<u8>) -> Option<Seq<Option<Seq<(u16, u16, u32)>>>>;

/// The values of a beat.
pub open spec fn beat_values(b: Beat) -> (u16, u16, u32) {
    (b.beat_number, b.tempo, b.time)
}

/// The beat with these values.
pub open spec fn beat_of(v: (u16, u16, u32)) -> Beat {
    Beat { beat_number: v.0, tempo: v.1, time: v.2 }
}

/// The beats of a section, if it is a beat grid.
pub open spec fn section_beats(s: AnlzSection) -> Option<Seq<(u16, u16, u32)>> {
    match s {
        AnlzSection::BeatGrid(beats) => Some(beats@.map_values(|b: Beat| beat_values(b))),
        _ => None,
    }
}

/// The beats of each section that is a beat grid.
pub open spec fn sections_beats(sections: Seq<AnlzSection>) -> Seq<Option<Seq<(u16, u16, u32)>>> {
    sections.map_values(|s: AnlzSection| section_beats(s))
}

/// The error of a parser.
#[verifier::external_type_specification]
#[verifier::external_body]
pub struct ExBinError(binrw::Error);

/// Calls `rekordcrate::anlz::ANLZ::read` on the bytes. The sections that it finds, and whether it
/// finds any, depend on the bytes alone; of a section only its beats are kept, if it is a beat
/// grid.
///
/// The parser subtracts the lengths in a header from each other, multiplies counts and lengths of
/// texts, and adds a count to each byte of a key, all without regard to overflow; and it reserves
/// as many bytes as a header says. A file that is well framed keeps it from harm. Any other file
/// makes it fail or overflow.
#[verifier::external_body]
fn read_sections(bytes: Vec<u8>) -> (r: Result<Vec<AnlzSection>, binrw::Error>)
    requires
        well_framed(bytes@),
    ensures
        r is Ok == anlz_sections(bytes@) is Some,
        r is Ok ==> Some(sections_beats(r->Ok_0@)) == anlz_sections(bytes@),
{
    let anlz = rekordcrate::anlz::ANLZ::read(&mut std::io::Cursor::new(bytes))?;
    let beat = |b: rekordcrate::anlz::Beat| Beat {
        beat_number: b.beat_number,
        tempo: b.tempo,
        time: b.time,
    };
    Ok(anlz.sections.into_iter().map(|s| match s.content {
        rekordcrate::anlz::Content::BeatGrid(g) => AnlzSection::BeatGrid(
            g.beats.into_iter().map(beat).collect(),
        ),
        rekordcrate::anlz::Content::SongStructure(_) => AnlzSection::SongStructure,
        _ => AnlzSection::Other,
    }).collect())
}

/// The last beat grid of a list of sections.
pub open spec fn last_grid(sections: Seq<Option<Seq<(u16, u16, u32)>>>) -> Option<Seq<Beat>>
    decreases sections.len(),
{
    if sections.len() == 0 {
        None
    } else {
        match sections.last() {
            Some(values) => Some(values.map_values(|v: (u16, u16, u32)| beat_of(v))),
            None => last_grid(sections.drop_last()),
        }
    }
}

/// The beat grid of an analysis file, if it has one: `None` if the file is malformed.
pub open spec fn analysis(bytes: Seq<u8>) -> Option<Option<Seq<Beat>>> {
    if !well_framed(bytes) {
        None
    } else {
        match anlz_sections(bytes) {
            Some(sections) => Some(last_grid(sections)),
            None => None,
        }
    }
}

/// The beats of an optional beat grid.
pub open spec fn grid_beats(grid: Option<Vec<Beat>>) -> Option<Seq<Beat>> {
    match grid {
        Some(beats) => Some(beats@),
        None => None,
    }
}

/// The last beat grid among the sections of a file.
pub fn find_grid(sections: Vec<AnlzSection>) -> (r: Option<Vec<Beat>>)
    ensures
        grid_beats(r) == last_grid(sections_beats(sections@)),
{
    let ghost all = sections_beats(sections@);
    let mut rest = sections;
    while rest.len() > 0
        invariant
            all == sections_beats(sections@),
            last_grid(all) == last_grid(sections_beats(rest@)),
        decreases rest.len(),
    {
        let ghost before = rest@;
        let section = rest.pop();
        assert(sections_beats(before).drop_last() =~= sections_beats(rest@));
        assert(sections_beats(before).last() == section_beats(before.last()));
        match section {
            Some(AnlzSection::BeatGrid(beats)) => {
                proof {
                    let values = beats@.map_values(|b: Beat| beat_values(b));
                    assert(values.map_values(|v: (u16, u16, u32)| beat_of(v)) =~= beats@);
                }
                return Some(beats);
            },
            _ => {},
        }
    }
    None
}

/// Reads the beat grid of an analysis file.
pub fn read_grid(bytes: Vec<u8>) -> (r: Result<Option<Vec<Beat>>, AnlzError>)
    ensures
        match analysis(bytes@) {
            Some(grid) => r is Ok && grid_beats(r->Ok_0) == grid,
            None => r == Err::<Option<Vec<Beat>>, AnlzError>(AnlzError::Malformed),
        },
{
    if !is_well_framed(&bytes) {
        return Err(AnlzError::Malformed);
    }
    match read_sections(bytes) {
        Ok(sections) => Ok(find_grid(sections)),
        Err(_) => Err(AnlzError::Malformed),
    }
}

// What files and sections come to, byte by byte.
/// The four bytes at a place are these letters.
pub open spec fn is_tagged(b: Seq<u8>, p: int, tag: (char, char, char, char)) -> bool {
    &&& b[p] == tag.0 as u8
    &&& b[p + 1] == tag.1 as u8
    &&& b[p + 2] == tag.2 as u8
    &&& b[p + 3] == tag.3 as u8
}

/// Numbers are read with their most significant byte first.
pub proof fn lemma_numbers_are_big_endian(b: Seq<u8>, p: int)
    ensures
        be16(b, p) == 0x100 * b[p] + b[p + 1],
        be32(b, p) == 0x100_0000 * b[p] + 0x1_0000 * b[p + 1] + 0x100 * b[p + 2] + b[p + 3],
        0 <= be32(b, p) <= u32::MAX,
{
}

/// How many bytes a section takes, by the letters that it starts with. A beat grid has 8 bytes for
/// each beat, a list of cues 56 for each cue, a song structure 24 for each phrase; waveforms have 1,
/// 6 or 2 bytes for each entry. Paths, tables and previews take what their header leaves of the
/// whole length, and a section of another kind takes its whole length.
pub proof fn lemma_length_of_each_kind(b: Seq<u8>, p: int)
    ensures
        ({
            let size = be32(b, p + 4);
            let total = be32(b, p + 8);
            let length = section_length(b, p);
            &&& is_tagged(b, p, ('P', 'Q', 'T', 'Z')) ==> length == Some(24 + 8 * be32(b, p + 20))
            &&& is_tagged(b, p, ('P', 'C', 'O', 'B')) ==> length == Some(24 + 56 * be16(b, p + 18))
            &&& is_tagged(b, p, ('P', 'M', 'A', 'I')) ==> length is None
            &&& is_tagged(b, p, ('P', 'C', 'P', 'T')) ==> length is None
            &&& is_tagged(b, p, ('P', 'C', 'P', '2')) ==> length is None
            &&& is_tagged(b, p, ('P', 'P', 'T', 'H')) ==> length == (if total >= size && text_ends(
                b,
                p + 16,
                total - size,
            ) {
                Some(16 + (total - size))
            } else {
                None
            })
            &&& is_tagged(b, p, ('P', 'V', 'B', 'R')) ==> length == (if total >= size {
                Some(16 + (total - size))
            } else {
                None
            })
            &&& is_tagged(b, p, ('P', 'W', 'A', 'V')) || is_tagged(b, p, ('P', 'W', 'V', '2'))
                ==> length == (if total >= size {
                Some(20 + (total - size))
            } else {
                None
            })
            &&& is_tagged(b, p, ('P', 'W', 'V', '3')) ==> length == (if total >= size {
                Some(24 + be32(b, p + 16))
            } else {
                None
            })
            &&& is_tagged(b, p, ('P', 'W', 'V', '4')) ==> length == (if total >= size && 6 * be32(
                b,
                p + 16,
            ) <= 0xffff_ffff {
                Some(24 + 6 * be32(b, p + 16))
            } else {
                None
            })
            &&& is_tagged(b, p, ('P', 'W', 'V', '5')) ==> length == (if total >= size && 2 * be32(
                b,
                p + 16,
            ) <= 0xffff_ffff {
                Some(24 + 2 * be32(b, p + 16))
            } else {
                None
            })
            &&& is_tagged(b, p, ('P', 'S', 'S', 'I')) ==> length == (if total >= size && has_key(
                b,
                p,
            ) {
                Some(32 + 24 * be16(b, p + 16))
            } else {
                None
            })
        }),
{
}

/// A section of a kind that is not known takes its whole length, if that is no smaller than its
/// header, and the header no smaller than 12 bytes.
pub proof fn lemma_length_of_other_kinds(b: Seq<u8>, p: int)
    requires
        !is_tagged(b, p, ('P', 'Q', 'T', 'Z')) && !is_tagged(b, p, ('P', 'C', 'O', 'B')),
        !is_tagged(b, p, ('P', 'M', 'A', 'I')) && !is_tagged(b, p, ('P', 'C', 'P', 'T')),
        !is_tagged(b, p, ('P', 'C', 'P', '2')) && !is_tagged(b, p, ('P', 'C', 'O', '2')),
        !is_tagged(b, p, ('P', 'P', 'T', 'H')) && !is_tagged(b, p, ('P', 'V', 'B', 'R')),
        !is_tagged(b, p, ('P', 'W', 'A', 'V')) && !is_tagged(b, p, ('P', 'W', 'V', '2')),
        !is_tagged(b, p, ('P', 'W', 'V', '3')) && !is_tagged(b, p, ('P', 'W', 'V', '4')),
        !is_tagged(b, p, ('P', 'W', 'V', '5')) && !is_tagged(b, p, ('P', 'S', 'S', 'I')),
    ensures
        section_length(b, p) == (if 12 <= be32(b, p + 4) <= be32(b, p + 8) {
            Some(be32(b, p + 8))
        } else {
            None
        }),
{
}

/// An extended list of cues takes 20 bytes and what its cues take. Each cue takes 68 bytes and its
/// comment, which ends with a zero of 16 bits; the first one that does not lie in the file spoils
/// the list.
pub proof fn lemma_length_of_extended_cues(b: Seq<u8>, p: int, n: nat)
    ensures
        is_tagged(b, p, ('P', 'C', 'O', '2')) ==> section_length(b, p) == (match cues_length(
            b,
            p + 20,
            be16(b, p + 16) as nat,
        ) {
            Some(k) => Some(20 + k),
            None => None,
        }),
        cues_length(b, p, 0) == Some(0int),
        ({
            let comment = be32(b, p + 40);
            let fits = p + 44 + comment <= b.len() && comment >= 2 && comment % 2 == 0 && b[p + 44
                + comment - 2] == 0 && b[p + 44 + comment - 1] == 0;
            &&& !fits ==> cues_length(b, p, n + 1) is None
            &&& fits ==> cues_length(b, p, n + 1) == (match cues_length(b, p + 68 + comment, n) {
                Some(k) => Some(68 + comment + k),
                None => None,
            })
        }),
{
}

/// Texts end with a zero of 16 bits, within the file, after a whole number of characters.
pub proof fn lemma_text_ends_with_zero(b: Seq<u8>, p: int, n: int)
    ensures
        text_ends(b, p, n) == (n >= 2 && n % 2 == 0 && p + n <= b.len() && b[p + n - 2] == 0 && b[p + n
            - 1] == 0),
{
}

/// The key of a song structure can be computed up to 65285 phrases, and up to 65310 if the mood, with
/// its two bytes unmasked by the number of phrases plus 0xcb and plus 0xe1, is none of 1, 2 and 3.
pub proof fn lemma_key_of_song_structure(b: Seq<u8>, p: int)
    ensures
        ({
            let phrases = be16(b, p + 16);
            let first: u8 = b[p + 18] ^ (((0xcb + phrases) % 256) as u8);
            let second: u8 = b[p + 19] ^ (((0xe1 + phrases) % 256) as u8);
            let masked = first == 0 && (second == 1 || second == 2 || second == 3);
            &&& phrases <= 65285 ==> has_key(b, p)
            &&& 65285 < phrases <= 65310 ==> has_key(b, p) == !masked
            &&& phrases > 65310 ==> !has_key(b, p)
        }),
{
}

/// At the places `at`, but for the last, there are sections of the file, each within it. They follow
/// each other without gaps, and the last place is where they reach `end`, or go beyond it.
pub open spec fn is_laid_out(b: Seq<u8>, at: Seq<int>, end: int) -> bool {
    &&& at.len() > 0
    &&& at.last() >= end
    &&& forall|i: int|
        0 <= i < at.len() - 1 ==> {
            &&& #[trigger] at[i] < end
            &&& at[i] + 12 <= b.len()
            &&& names_its_lengths(b, at[i])
            &&& at[i] < at[i + 1] <= b.len()
            &&& section_length(b, at[i]) == Some(at[i + 1] - at[i])
        }
}

/// The numbers that give the length of the section at a place lie within the file: 24 bytes for beat
/// grids and lists of cues, 20 for extended lists, waveforms with a count, and song structures.
pub open spec fn names_its_lengths(b: Seq<u8>, p: int) -> bool {
    &&& is_tagged(b, p, ('P', 'Q', 'T', 'Z')) || is_tagged(b, p, ('P', 'C', 'O', 'B')) ==> p + 24
        <= b.len()
    &&& is_tagged(b, p, ('P', 'C', 'O', '2')) || is_tagged(b, p, ('P', 'W', 'V', '3')) || is_tagged(
        b,
        p,
        ('P', 'W', 'V', '4'),
    ) || is_tagged(b, p, ('P', 'W', 'V', '5')) || is_tagged(b, p, ('P', 'S', 'S', 'I')) ==> p + 20
        <= b.len()
}

proof fn lemma_lengths_are_named(b: Seq<u8>, p: int)
    ensures
        has_lengths(b, p) == names_its_lengths(b, p),
{
}

/// A file whose sections are laid out one behind the other is well framed.
pub proof fn lemma_laid_out_file_is_well_framed(b: Seq<u8>, at: Seq<int>)
    requires
        b.len() >= 12,
        12 <= be32(b, 4) <= be32(b, 8),
        be32(b, 4) <= b.len(),
        is_laid_out(b, at, be32(b, 8)),
        at[0] == be32(b, 4),
    ensures
        well_framed(b),
{
    lemma_laid_out(b, at, be32(b, 8));
}

proof fn lemma_laid_out(b: Seq<u8>, at: Seq<int>, end: int)
    requires
        is_laid_out(b, at, end),
    ensures
        sections_fit(b, at[0], end),
    decreases at.len(),
{
    if at.len() > 1 {
        let rest = at.skip(1);
        assert(at[0] < end);
        lemma_lengths_are_named(b, at[0]);
        assert forall|i: int| 0 <= i < rest.len() - 1 implies {
            &&& #[trigger] rest[i] < end
            &&& rest[i] + 12 <= b.len()
            &&& names_its_lengths(b, rest[i])
            &&& rest[i] < rest[i + 1] <= b.len()
            &&& section_length(b, rest[i]) == Some(rest[i + 1] - rest[i])
        } by {
            assert(rest[i] == at[i + 1]);
            assert(rest[i + 1] == at[i + 2]);
            assert(at[i + 1] < end);
        }
        lemma_laid_out(b, rest, end);
    }
}

/// A well framed file has its sections laid out one behind the other; `at` is where they start.
pub proof fn lemma_well_framed_file_is_laid_out(b: Seq<u8>) -> (at: Seq<int>)
    requires
        well_framed(b),
    ensures
        b.len() >= 12,
        12 <= be32(b, 4) <= be32(b, 8),
        be32(b, 4) <= b.len(),
        is_laid_out(b, at, be32(b, 8)),
        at[0] == be32(b, 4),
{
    lemma_layout(b, be32(b, 4), be32(b, 8))
}

proof fn lemma_layout(b: Seq<u8>, p: int, end: int) -> (at: Seq<int>)
    requires
        sections_fit(b, p, end),
    ensures
        is_laid_out(b, at, end),
        at[0] == p,
    decreases b.len() - p,
{
    if p >= end {
        seq![p]
    } else {
        let length = section_length(b, p)->0;
        let rest = lemma_layout(b, p + length, end);
        lemma_lengths_are_named(b, p);
        let at = seq![p] + rest;
        assert forall|i: int| 0 <= i < at.len() - 1 implies {
            &&& #[trigger] at[i] < end
            &&& at[i] + 12 <= b.len()
            &&& names_its_lengths(b, at[i])
            &&& at[i] < at[i + 1] <= b.len()
            &&& section_length(b, at[i]) == Some(at[i + 1] - at[i])
        } by {
            if i > 0 {
                assert(at[i] == rest[i - 1]);
                assert(at[i + 1] == rest[i]);
                assert(rest[i - 1] < end);
            }
        }
        at
    }
}

/// Of several beat grids in a file the last one counts: its beats, in order, with number, tempo and
/// time. A file without one has none.
pub proof fn lemma_last_grid_counts(bytes: Seq<u8>, i: int)
    requires
        well_framed(bytes),
        anlz_sections(bytes) is Some,
        -1 <= i < anlz_sections(bytes)->0.len(),
        i >= 0 ==> anlz_sections(bytes)->0[i] is Some,
        forall|j: int|
            i < j < anlz_sections(bytes)->0.len() ==> #[trigger] anlz_sections(bytes)->0[j] is None,
    ensures
        i < 0 ==> analysis(bytes) == Some(None::<Seq<Beat>>),
        i >= 0 ==> (analysis(bytes) matches Some(Some(beats)) && {
            let values = anlz_sections(bytes)->0[i]->0;
            &&& beats.len() == values.len()
            &&& forall|j: int|
                0 <= j < values.len() ==> (#[trigger] beats[j]).beat_number == values[j].0
                    && beats[j].tempo == values[j].1 && beats[j].time == values[j].2
        }),
{
    lemma_last_grid(anlz_sections(bytes)->0, i);
    if i >= 0 {
        let values = anlz_sections(bytes)->0[i]->0;
        assert(values.map_values(|v: (u16, u16, u32)| beat_of(v)).len() == values.len());
    }
}

proof fn lemma_last_grid(sections: Seq<Option<Seq<(u16, u16, u32)>>>, i: int)
    requires
        -1 <= i < sections.len(),
        i >= 0 ==> sections[i] is Some,
        forall|j: int| i < j < sections.len() ==> #[trigger] sections[j] is None,
    ensures
        last_grid(sections) == (if i < 0 {
            None
        } else {
            Some(sections[i]->0.map_values(|v: (u16, u16, u32)| beat_of(v)))
        }),
    decreases sections.len(),
{
    if i + 1 < sections.len() {
        assert(sections[sections.len() - 1] is None);
        lemma_last_grid(sections.drop_last(), i);
    }
}

/// A file that is not well framed, or in which no sections can be found, is malformed.
pub proof fn lemma_malformed_files(bytes: Seq<u8>)
    ensures
        analysis(bytes) is None == (!well_framed(bytes) || anlz_sections(bytes) is None),
{
}

} // verus!
