use rkbx_link::anlz::{find_grid, is_well_framed, read_grid, AnlzError, AnlzSection, Beat};

fn be32(n: u32) -> Vec<u8> {
    n.to_be_bytes().to_vec()
}

fn beat_grid(beats: &[(u16, u16, u32)]) -> Vec<u8> {
    let mut s = b"PQTZ".to_vec();
    s.extend(be32(24));
    s.extend(be32(24 + 8 * beats.len() as u32));
    s.extend(be32(0));
    s.extend(be32(0x0080_0000));
    s.extend(be32(beats.len() as u32));
    for (n, t, ms) in beats {
        s.extend(n.to_be_bytes());
        s.extend(t.to_be_bytes());
        s.extend(ms.to_be_bytes());
    }
    s
}

fn file(sections: &[Vec<u8>]) -> Vec<u8> {
    let content: u32 = sections.iter().map(|s| s.len() as u32).sum();
    let mut f = b"PMAI".to_vec();
    f.extend(be32(28));
    f.extend(be32(28 + content));
    f.extend([0u8; 16]);
    for s in sections {
        f.extend(s);
    }
    f
}

#[test]
fn beat_grid_is_read() {
    let f = file(&[beat_grid(&[(1, 12800, 25), (2, 12800, 494)])]);
    assert!(is_well_framed(&f));
    assert_eq!(
        read_grid(f),
        Ok(Some(vec![
            Beat { beat_number: 1, tempo: 12800, time: 25 },
            Beat { beat_number: 2, tempo: 12800, time: 494 },
        ]))
    );
}

fn path_section() -> Vec<u8> {
    let mut s = b"PPTH".to_vec();
    s.extend(be32(16));
    s.extend(be32(16 + 4));
    s.extend(be32(4));
    s.extend([0u8, b'a', 0u8, 0u8]);
    s
}

fn unknown_section(content: &[u8]) -> Vec<u8> {
    let mut s = b"PXYZ".to_vec();
    s.extend(be32(12));
    s.extend(be32(12 + content.len() as u32));
    s.extend(content);
    s
}

#[test]
fn file_without_beat_grid_is_read() {
    let f = file(&[path_section()]);
    assert!(is_well_framed(&f));
    assert_eq!(read_grid(f), Ok(None));
    let f = file(&[]);
    assert!(is_well_framed(&f));
    assert_eq!(read_grid(f), Ok(None));
}

#[test]
fn last_beat_grid_counts() {
    let f = file(&[
        beat_grid(&[(1, 12000, 0)]),
        path_section(),
        beat_grid(&[(3, 9000, 7), (4, 9001, 8)]),
        unknown_section(&[1, 2, 3]),
    ]);
    assert_eq!(
        read_grid(f),
        Ok(Some(vec![
            Beat { beat_number: 3, tempo: 9000, time: 7 },
            Beat { beat_number: 4, tempo: 9001, time: 8 },
        ]))
    );
}

#[test]
fn beat_grid_may_be_empty() {
    assert_eq!(read_grid(file(&[beat_grid(&[])])), Ok(Some(vec![])));
}

#[test]
fn file_of_another_kind_is_malformed() {
    // Framed like an analysis file, but with another tag in front.
    let mut f = file(&[beat_grid(&[(1, 12000, 0)])]);
    f[0] = b'X';
    assert!(is_well_framed(&f));
    assert_eq!(read_grid(f), Err(AnlzError::Malformed));
}

#[test]
fn file_that_is_cut_short_is_malformed() {
    let f = file(&[beat_grid(&[(1, 12800, 25), (2, 12800, 494)])]);
    for n in 0..f.len() {
        let cut = f[..n].to_vec();
        assert!(!is_well_framed(&cut), "{n}");
        assert_eq!(read_grid(cut), Err(AnlzError::Malformed));
    }
}

#[test]
fn lengths_that_make_no_sense_are_malformed() {
    // The header says that it is longer than the file.
    let mut f = file(&[]);
    f[7] = 29;
    assert_eq!(read_grid(f), Err(AnlzError::Malformed));
    // The header says that it is shorter than it can be.
    let mut f = file(&[]);
    f[7] = 11;
    assert_eq!(read_grid(f), Err(AnlzError::Malformed));
    // A section says that it is shorter than its header.
    let mut s = path_section();
    s[7] = 200;
    assert_eq!(read_grid(file(&[s])), Err(AnlzError::Malformed));
    // A beat grid says that it has more beats than there are.
    let mut s = beat_grid(&[(1, 12000, 0)]);
    s[20] = 0xff;
    assert_eq!(read_grid(file(&[s])), Err(AnlzError::Malformed));
    // A section of a kind that only stands inside of others.
    let mut s = unknown_section(&[]);
    s[..4].copy_from_slice(b"PCPT");
    assert_eq!(read_grid(file(&[s])), Err(AnlzError::Malformed));
}

#[test]
fn grid_is_found_among_sections() {
    let grid = |n: u16| AnlzSection::BeatGrid(vec![Beat { beat_number: n, tempo: n, time: 0 }]);
    let found = find_grid(vec![grid(1), AnlzSection::SongStructure, grid(2), AnlzSection::Other]);
    assert_eq!(found, Some(vec![Beat { beat_number: 2, tempo: 2, time: 0 }]));
    assert_eq!(find_grid(vec![AnlzSection::Other, AnlzSection::SongStructure]), None);
    assert_eq!(find_grid(vec![]), None);
}

fn section(tag: &[u8; 4], header_rest: &[u8], content: &[u8]) -> Vec<u8> {
    let size = 12 + header_rest.len() as u32;
    let mut s = tag.to_vec();
    s.extend(be32(size));
    s.extend(be32(size + content.len() as u32));
    s.extend(header_rest);
    s.extend(content);
    s
}

fn words(n: &[u32]) -> Vec<u8> {
    n.iter().flat_map(|n| n.to_be_bytes()).collect()
}

fn cue() -> Vec<u8> {
    let mut c = b"PCPT".to_vec();
    c.extend(words(&[28, 56, 1, 1, 0x10000]));
    c.extend([0u8, 0, 0, 1, 0, 0]);
    c.extend([0u8; 26]);
    assert_eq!(c.len(), 56);
    c
}

fn extended_cue(comment: &str) -> Vec<u8> {
    let mut wide: Vec<u8> = comment.encode_utf16().flat_map(|u| u.to_be_bytes()).collect();
    wide.extend([0u8, 0]);
    let mut c = b"PCP2".to_vec();
    c.extend(words(&[16, 68 + wide.len() as u32, 1]));
    c.extend([0u8; 4]);
    c.extend(words(&[100, 0]));
    c.extend([0u8; 12]);
    c.extend(be32(wide.len() as u32));
    c.extend(&wide);
    c.extend([0u8; 24]);
    assert_eq!(c.len(), 68 + wide.len());
    c
}

#[test]
fn sections_of_all_kinds_are_passed_over() {
    let mut cues = vec![0u8, 0, 0, 1, 0, 0, 0, 2];
    cues.extend(be32(0xffff_ffff));
    let mut two_cues = cue();
    two_cues.extend(cue());
    let mut two_extended = extended_cue("drop");
    two_extended.extend(extended_cue(""));
    let mut structure = be32(24);
    structure.extend([0u8, 1, 0, 1]);
    structure.extend([0u8; 6]);
    structure.extend([0u8, 64, 0, 0, 0, 0]);
    let all = [
        section(b"PCOB", &cues, &two_cues),
        section(b"PCO2", &[0, 0, 0, 1, 0, 2, 0, 0], &two_extended),
        path_section(),
        section(b"PVBR", &be32(0), &[1, 2, 3, 4, 5]),
        section(b"PWAV", &words(&[3, 0x10000]), &[1, 2, 3]),
        section(b"PWV2", &words(&[2, 0x10000]), &[1, 2]),
        section(b"PWV3", &words(&[1, 4, 0x0096_0000]), &[1, 2, 3, 4]),
        section(b"PWV4", &words(&[6, 2, 0]), &[7; 12]),
        section(b"PWV5", &words(&[2, 3, 0]), &[7; 6]),
        section(b"PSSI", &structure, &[0; 24]),
        section(b"PQT2", &[9; 44], &[1, 2]),
    ];
    for s in &all {
        let f = file(&[s.clone(), beat_grid(&[(2, 3, 4)])]);
        assert!(is_well_framed(&f), "{s:?}");
        let found = Ok(Some(vec![Beat { beat_number: 2, tempo: 3, time: 4 }]));
        assert_eq!(read_grid(f), found, "{s:?}");
    }
    let mut f = all.to_vec();
    f.push(beat_grid(&[(4, 12345, 99)]));
    let found = Ok(Some(vec![Beat { beat_number: 4, tempo: 12345, time: 99 }]));
    assert_eq!(read_grid(file(&f)), found);
}

#[test]
fn bytes_behind_the_sections_do_not_matter() {
    let mut f = file(&[beat_grid(&[(2, 3, 4)])]);
    f.extend([0xffu8; 100]);
    assert!(is_well_framed(&f));
    assert_eq!(read_grid(f), Ok(Some(vec![Beat { beat_number: 2, tempo: 3, time: 4 }])));
}

/// A song structure with many phrases, whose mood is stored in these two bytes.
fn song_structure(phrases: u16, mood: [u8; 2]) -> Vec<u8> {
    let mut header = be32(24);
    header.extend(phrases.to_be_bytes());
    header.extend(mood);
    header.extend([0u8; 12]);
    section(b"PSSI", &header, &vec![0u8; 24 * phrases as usize])
}

#[test]
fn plain_song_structures_may_have_more_phrases_than_masked_ones() {
    let grid = beat_grid(&[(2, 3, 4)]);
    let found = Ok(Some(vec![Beat { beat_number: 2, tempo: 3, time: 4 }]));
    for phrases in [0, 1, 65285, 65286, 65310] {
        let f = file(&[song_structure(phrases, [0, 1]), grid.clone()]);
        assert!(is_well_framed(&f), "{phrases}");
        assert_eq!(read_grid(f), found, "{phrases}");
    }
    let f = file(&[song_structure(65311, [0, 1]), grid.clone()]);
    assert_eq!(read_grid(f), Err(AnlzError::Malformed));
    // With its mask off, the mood is 2.
    let masked = |phrases: u32| {
        let key = |base: u32| ((base + phrases) % 256) as u8;
        song_structure(phrases as u16, [key(0xcb), key(0xe1) ^ 2])
    };
    assert!(is_well_framed(&file(&[masked(65285), grid.clone()])));
    let f = file(&[masked(65286), grid]);
    assert!(!is_well_framed(&f));
    assert_eq!(read_grid(f), Err(AnlzError::Malformed));
}

#[test]
fn texts_have_to_end_where_they_should() {
    let path = |text: &[u8]| section(b"PPTH", &be32(text.len() as u32), text);
    assert!(is_well_framed(&file(&[path(&[0, b'a', 0, 0])])));
    assert_eq!(read_grid(file(&[path(&[0, 0])])), Ok(None));
    for text in [&[][..], &[0], &[0, b'a'], &[0, b'a', 0], &[0, b'a', 0, 0, 0]] {
        assert!(!is_well_framed(&file(&[path(text)])), "{text:?}");
        assert_eq!(read_grid(file(&[path(text)])), Err(AnlzError::Malformed));
    }
    // One that ends earlier is framed, but no path.
    let f = file(&[path(&[0, 0, 0, 0])]);
    assert!(is_well_framed(&f));
    assert_eq!(read_grid(f), Err(AnlzError::Malformed));
    // A comment without an end.
    let mut cue = extended_cue("ab");
    let at = 44 + 4;
    cue[at + 1] = 1;
    let f = file(&[section(b"PCO2", &[0, 0, 0, 1, 0, 1, 0, 0], &cue)]);
    assert!(!is_well_framed(&f));
    assert_eq!(read_grid(f), Err(AnlzError::Malformed));
}
