//! What the library has to tell: notifications for the output modules, and lines for the log.
use crate::memory::{Pointer, PointerView};
use crate::single::Single;
use vstd::prelude::*;
use vstd::string::*;

verus! {

/// What is known of a track.
#[derive(Debug)]
pub struct TrackInfo {
    pub title: String,
    pub artist: String,
    pub album: String,
}

/// A [`TrackInfo`] as a value.
pub struct TrackInfoView {
    pub title: Seq<char>,
    pub artist: Seq<char>,
    pub album: Seq<char>,
}

impl View for TrackInfo {
    type V = TrackInfoView;

    open spec fn view(&self) -> TrackInfoView {
        TrackInfoView { title: self.title@, artist: self.artist@, album: self.album@ }
    }
}

impl Clone for TrackInfo {
    fn clone(&self) -> (r: TrackInfo)
        ensures
            r@ == self@,
    {
        TrackInfo {
            title: self.title.clone(),
            artist: self.artist.clone(),
            album: self.album.clone(),
        }
    }
}

impl PartialEq for TrackInfo {
    fn eq(&self, other: &TrackInfo) -> (r: bool) {
        self.title == other.title && self.artist == other.artist && self.album == other.album
    }
}

impl vstd::std_specs::cmp::PartialEqSpecImpl for TrackInfo {
    open spec fn obeys_eq_spec() -> bool {
        true
    }

    open spec fn eq_spec(&self, other: &TrackInfo) -> bool {
        self@ == other@
    }
}

impl Default for TrackInfo {
    fn default() -> (r: TrackInfo)
        ensures
            r@ == no_track(),
    {
        TrackInfo { title: String::new(), artist: String::new(), album: String::new() }
    }
}

/// A track of which nothing is known.
pub open spec fn no_track() -> TrackInfoView {
    TrackInfoView { title: Seq::empty(), artist: Seq::empty(), album: Seq::empty() }
}

/// The track that a text describes. Its first three lines give title, artist and album, each
/// behind a name, a colon and a space.
pub open spec fn described_track(text: Seq<char>) -> TrackInfoView {
    TrackInfoView {
        title: crate::text::nth_value(text, 0),
        artist: crate::text::nth_value(text, 1),
        album: crate::text::nth_value(text, 2),
    }
}

impl TrackInfo {
    /// Reads the description of a track.
    pub fn from_text(text: &str) -> (r: TrackInfo)
        ensures
            r@ == described_track(text@),
    {
        let (title, artist, album) = crate::text::leading_values(text);
        TrackInfo { title, artist, album }
    }
}

/// Which deck a notification is about.
#[derive(Clone, Copy, Debug, PartialEq, Eq, Structural)]
pub enum Target {
    Deck(usize),
    /// The deck that is the master now.
    Master,
}

/// Something that every running output module is told.
#[derive(Debug)]
pub enum Notification {
    /// The position in beats changed.
    Beat(Single, Target),
    /// The position in samples changed.
    Time(i64, Target),
    /// The tempo changed.
    Bpm(Single, Target),
    /// The tempo that the beat grid gives changed.
    OriginalBpm(Single, Target),
    /// Another track was loaded, or another deck became the master.
    Track(TrackInfo, Target),
    /// A slow update took place.
    SlowUpdate,
}

/// A [`Notification`] as a value.
pub enum NotificationView {
    Beat(Single, Target),
    Time(i64, Target),
    Bpm(Single, Target),
    OriginalBpm(Single, Target),
    Track(TrackInfoView, Target),
    SlowUpdate,
}

impl View for Notification {
    type V = NotificationView;

    open spec fn view(&self) -> NotificationView {
        match self {
            Notification::Beat(b, t) => NotificationView::Beat(*b, *t),
            Notification::Time(p, t) => NotificationView::Time(*p, *t),
            Notification::Bpm(b, t) => NotificationView::Bpm(*b, *t),
            Notification::OriginalBpm(b, t) => NotificationView::OriginalBpm(*b, *t),
            Notification::Track(i, t) => NotificationView::Track(i@, *t),
            Notification::SlowUpdate => NotificationView::SlowUpdate,
        }
    }
}

/// How much a log line matters.
#[derive(Clone, Copy, Debug, PartialEq, Eq, Structural)]
pub enum Level {
    Debug,
    Info,
    Good,
    Warn,
    Error,
}

/// Something to be told, in the order in which it comes.
#[derive(Debug)]
pub enum Output {
    /// Tell each running module, one after the other, all of these.
    Notify(Vec<Notification>),
    /// Print a line.
    Print(String),
    /// Write a line to the log.
    Log(Level, String),
    /// Write to the log, for debugging, that this is the track on the master deck now.
    LogMasterTrack(TrackInfo),
    /// Write to the log, for debugging, that this is the chain that could not be followed.
    LogPointer(Pointer),
    /// Write to the log that these are the versions of Rekordbox that there are offsets for.
    LogVersions(Vec<String>),
    /// An update starts now; the time that it takes counts from here.
    UpdateStarts,
}

/// An [`Output`] as a value.
pub enum OutputView {
    Notify(Seq<NotificationView>),
    Print(Seq<char>),
    Log(Level, Seq<char>),
    LogMasterTrack(TrackInfoView),
    LogPointer(PointerView),
    LogVersions(Seq<Seq<char>>),
    UpdateStarts,
}

/// The values of a list of notifications.
pub open spec fn notification_views(batch: Seq<Notification>) -> Seq<NotificationView> {
    batch.map_values(|n: Notification| n@)
}

impl View for Output {
    type V = OutputView;

    open spec fn view(&self) -> OutputView {
        match self {
            Output::Notify(batch) => OutputView::Notify(notification_views(batch@)),
            Output::Print(s) => OutputView::Print(s@),
            Output::Log(l, s) => OutputView::Log(*l, s@),
            Output::LogMasterTrack(t) => OutputView::LogMasterTrack(t@),
            Output::LogPointer(p) => OutputView::LogPointer(p@),
            Output::LogVersions(v) => OutputView::LogVersions(crate::reading::text_views(v@)),
            Output::UpdateStarts => OutputView::UpdateStarts,
        }
    }
}

/// The values of a list of outputs.
pub open spec fn output_views(out: Seq<Output>) -> Seq<OutputView> {
    out.map_values(|o: Output| o@)
}

/// Appends an output.
pub fn emit(out: &mut Vec<Output>, o: Output)
    ensures
        output_views(final(out)@) == output_views(old(out)@).push(o@),
{
    out.push(o);
    assert(output_views(out@) =~= output_views(old(out)@).push(o@));
}

/// Appends a notification.
pub fn notify(batch: &mut Vec<Notification>, n: Notification)
    ensures
        notification_views(final(batch)@) == notification_views(old(batch)@).push(n@),
{
    batch.push(n);
    assert(notification_views(batch@) =~= notification_views(old(batch)@).push(n@));
}

/// Appends a line to the log.
pub fn log_line(out: &mut Vec<Output>, level: Level, line: &str)
    ensures
        output_views(final(out)@) == output_views(old(out)@).push(OutputView::Log(level, line@)),
{
    emit(out, Output::Log(level, line.to_string()));
}

/// The text has these lines at its start: each is followed by a line feed, but for the last one,
/// which may also be the end of the text.
pub open spec fn starts_with_lines(text: Seq<char>, first: Seq<Seq<char>>) -> bool
    decreases first.len(),
{
    if first.len() == 0 {
        true
    } else {
        &&& !first[0].contains('\n')
        &&& first[0].len() == 0 || first[0].last() != '\r'
        &&& {
            ||| text == first[0] && first.len() == 1 && first[0].len() > 0
            ||| exists|rest: Seq<char>|
                text == #[trigger] (first[0] + seq!['\n'] + rest) && starts_with_lines(
                    rest,
                    first.skip(1),
                )
        }
    }
}

proof fn lemma_starting_lines(text: Seq<char>, first: Seq<Seq<char>>)
    requires
        starts_with_lines(text, first),
    ensures
        first.len() <= crate::text::lines(text).len(),
        forall|i: int| 0 <= i < first.len() ==> #[trigger] crate::text::lines(text)[i] == first[i],
    decreases first.len(),
{
    if first.len() > 0 {
        if text == first[0] && first.len() == 1 && first[0].len() > 0 {
            crate::text::lemma_only_line(first[0]);
        } else {
            let rest = choose|rest: Seq<char>|
                text == #[trigger] (first[0] + seq!['\n'] + rest) && starts_with_lines(
                    rest,
                    first.skip(1),
                );
            crate::text::lemma_first_line(first[0], rest);
            lemma_starting_lines(rest, first.skip(1));
            let all = crate::text::lines(text);
            assert forall|i: int| 0 <= i < first.len() implies #[trigger] all[i] == first[i] by {
                if i > 0 {
                    assert(all[i] == crate::text::lines(rest)[i - 1]);
                    assert(first.skip(1)[i - 1] == first[i]);
                }
            }
        }
    }
}

/// A text that starts with three labelled lines describes the track whose title is the value of the
/// first, whose artist is that of the second, and whose album is that of the third; however long
/// they are, and whatever follows.
pub proof fn lemma_track_is_described_by_its_lines(
    text: Seq<char>,
    labels: (Seq<char>, Seq<char>, Seq<char>),
    title: Seq<char>,
    artist: Seq<char>,
    album: Seq<char>,
)
    requires
        !labels.0.contains(':') && !labels.1.contains(':') && !labels.2.contains(':'),
        starts_with_lines(
            text,
            seq![
                labels.0 + seq![':', ' '] + title,
                labels.1 + seq![':', ' '] + artist,
                labels.2 + seq![':', ' '] + album,
            ],
        ),
    ensures
        described_track(text).title == title,
        described_track(text).artist == artist,
        described_track(text).album == album,
{
    let first = seq![
        labels.0 + seq![':', ' '] + title,
        labels.1 + seq![':', ' '] + artist,
        labels.2 + seq![':', ' '] + album,
    ];
    lemma_starting_lines(text, first);
    crate::text::lemma_labelled_value(labels.0, title);
    crate::text::lemma_labelled_value(labels.1, artist);
    crate::text::lemma_labelled_value(labels.2, album);
    assert(crate::text::lines(text)[0] == first[0]);
    assert(crate::text::lines(text)[1] == first[1]);
    assert(crate::text::lines(text)[2] == first[2]);
}

/// The same in one piece: three lines with labels, the last with or without a line feed.
pub proof fn lemma_track_of_three_lines(
    labels: (Seq<char>, Seq<char>, Seq<char>),
    title: Seq<char>,
    artist: Seq<char>,
    album: Seq<char>,
)
    requires
        !labels.0.contains(':') && !labels.1.contains(':') && !labels.2.contains(':'),
        !labels.0.contains('\n') && !labels.1.contains('\n') && !labels.2.contains('\n'),
        !title.contains('\n') && !artist.contains('\n') && !album.contains('\n'),
        title.len() > 0 ==> title.last() != '\r',
        artist.len() > 0 ==> artist.last() != '\r',
        album.len() > 0 ==> album.last() != '\r',
    ensures
        ({
            let text = labels.0 + seq![':', ' '] + title + seq!['\n'] + (labels.1 + seq![':', ' ']
                + artist + seq!['\n'] + (labels.2 + seq![':', ' '] + album));
            described_track(text) == (TrackInfoView { title, artist, album })
        }),
{
    let a = labels.0 + seq![':', ' '] + title;
    let b = labels.1 + seq![':', ' '] + artist;
    let c = labels.2 + seq![':', ' '] + album;
    lemma_no_line_feed(labels.0, title);
    lemma_no_line_feed(labels.1, artist);
    lemma_no_line_feed(labels.2, album);
    let first = seq![a, b, c];
    let last = first.skip(1).skip(1);
    assert(last.skip(1) =~= Seq::empty());
    assert(last[0] == c);
    assert(starts_with_lines(c, last));
    assert(first.skip(1)[0] == b);
    assert(starts_with_lines(b + seq!['\n'] + c, first.skip(1)));
    let text = a + seq!['\n'] + (b + seq!['\n'] + c);
    assert(starts_with_lines(text, first));
    lemma_track_is_described_by_its_lines(text, labels, title, artist, album);
}

proof fn lemma_no_line_feed(label: Seq<char>, value: Seq<char>)
    requires
        !label.contains('\n') && !value.contains('\n'),
        value.len() > 0 ==> value.last() != '\r',
    ensures
        !(label + seq![':', ' '] + value).contains('\n'),
        (label + seq![':', ' '] + value).last() != '\r',
        (label + seq![':', ' '] + value).len() > 0,
{
    let line = label + seq![':', ' '] + value;
    assert forall|i: int| 0 <= i < line.len() implies line[i] != '\n' by {
        if i < label.len() {
            assert(line[i] == label[i]);
        } else if i >= label.len() + 2 {
            assert(line[i] == value[i - label.len() - 2]);
        }
    }
    if value.len() > 0 {
        assert(line.last() == value.last());
    }
}

/// A text with fewer than three lines leaves open what the others would give, and one without lines
/// describes a track of which nothing is known.
pub proof fn lemma_missing_lines_give_nothing(text: Seq<char>)
    ensures
        crate::text::lines(text).len() <= 0 ==> described_track(text).title.len() == 0,
        crate::text::lines(text).len() <= 1 ==> described_track(text).artist.len() == 0,
        crate::text::lines(text).len() <= 2 ==> described_track(text).album.len() == 0,
        no_track().title.len() == 0 && no_track().artist.len() == 0 && no_track().album.len() == 0,
        crate::text::lines(text).len() >= 1 ==> described_track(text).title
            == crate::text::line_value(crate::text::lines(text)[0]),
        crate::text::lines(text).len() >= 2 ==> described_track(text).artist
            == crate::text::line_value(crate::text::lines(text)[1]),
        crate::text::lines(text).len() >= 3 ==> described_track(text).album
            == crate::text::line_value(crate::text::lines(text)[2]),
{
}

} // verus!
