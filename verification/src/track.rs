//! What is followed of each deck.
use crate::anlz::Beat;
use crate::change::ChangeTrackedValue;
use crate::output::{Notification, NotificationView, Target};
use crate::protocol::{BeatAnchor, BeatPosition, Fault};
use crate::reading::TimingDataRaw;
use crate::single::Single;
use vstd::prelude::*;

verus! {

/// A beat of a grid, with its time in seconds.
#[derive(Clone, Copy, Debug)]
pub struct GridBeat {
    pub beat: Beat,
    pub seconds: Single,
}

/// The beat grid of a track.
#[derive(Debug)]
pub struct BeatGrid {
    pub beats: Vec<GridBeat>,
}

/// How many beats come before the first one that lies at `now` or later.
pub open spec fn beats_before(beats: Seq<GridBeat>, now: Single) -> nat
    decreases beats.len(),
{
    if beats.len() == 0 || beats[0].seconds.reaches(now) {
        0
    } else {
        1 + beats_before(beats.skip(1), now)
    }
}

/// The beat that a time is measured from: the last one before the first that lies at `now` or
/// later, or the first of all if that one does.
pub open spec fn anchor_index(beats: Seq<GridBeat>, now: Single) -> int {
    if beats_before(beats, now) == 0 {
        0
    } else {
        beats_before(beats, now) - 1
    }
}

/// The beat that a time is measured from, with its place in the bar counted from 0.
pub open spec fn anchor(beats: Seq<GridBeat>, now: Single) -> Result<BeatAnchor, Fault> {
    let beat = beats[anchor_index(beats, now)].beat;
    if beats.len() == 0 {
        Err(Fault::EmptyBeatGrid)
    } else if beat.beat_number + 3 > u16::MAX {
        Err(Fault::BeatNumberOverflow)
    } else {
        Ok(
            BeatAnchor {
                beat: ((beat.beat_number + 3) % 4) as u16,
                tempo: beat.tempo,
                time: beat.time,
            },
        )
    }
}

/// The grid of these beats at these times.
pub open spec fn timed_beats(beats: Seq<Beat>, seconds: Seq<Single>) -> Seq<GridBeat> {
    Seq::new(beats.len(), |i: int| GridBeat { beat: beats[i], seconds: seconds[i] })
}

/// The times of beats, in milliseconds.
pub open spec fn beat_times(beats: Seq<Beat>) -> Seq<u32> {
    beats.map_values(|b: Beat| b.time)
}

proof fn lemma_beats_before_skips(beats: Seq<GridBeat>, now: Single, k: int)
    requires
        0 <= k <= beats.len(),
        forall|j: int| 0 <= j < k ==> !(#[trigger] beats[j]).seconds.reaches(now),
    ensures
        beats_before(beats, now) == k + beats_before(beats.skip(k), now),
    decreases k,
{
    if k == 0 {
        assert(beats.skip(0) =~= beats);
    } else {
        lemma_beats_before_skips(beats.skip(1), now, k - 1);
        assert(beats.skip(1).skip(k - 1) =~= beats.skip(k));
    }
}

/// Every beat that is counted lies before the time, and the next one, if there is one, does not.
pub proof fn lemma_beats_before(beats: Seq<GridBeat>, now: Single)
    ensures
        beats_before(beats, now) <= beats.len(),
        forall|j: int|
            0 <= j < beats_before(beats, now) ==> !(#[trigger] beats[j]).seconds.reaches(now),
        beats_before(beats, now) < beats.len() ==> beats[beats_before(
            beats,
            now,
        ) as int].seconds.reaches(now),
    decreases beats.len(),
{
    if beats.len() > 0 && !beats[0].seconds.reaches(now) {
        lemma_beats_before(beats.skip(1), now);
        assert forall|j: int| 0 <= j < beats_before(beats, now) implies !(
        #[trigger] beats[j]).seconds.reaches(now) by {
            if j > 0 {
                assert(beats[j] == beats.skip(1)[j - 1]);
            }
        }
    }
}

/// The times of the beats are numbers, and none is earlier than one ahead of it.
pub open spec fn is_ordered(beats: Seq<GridBeat>) -> bool {
    forall|i: int, j: int|
        0 <= i <= j < beats.len() ==> (#[trigger] beats[j]).seconds.reaches(
            (#[trigger] beats[i]).seconds,
        )
}

/// In a grid whose beats are in order, a time is measured from the last beat that is earlier, or
/// from the first beat if none is. The place of that beat in its bar is one of four.
pub proof fn lemma_time_is_measured_from_the_beat_before(beats: Seq<GridBeat>, now: Single)
    requires
        is_ordered(beats),
        !now.is_nan(),
        beats.len() > 0,
    ensures
        ({
            let i = anchor_index(beats, now);
            &&& 0 <= i < beats.len()
            &&& !beats[0].seconds.reaches(now) ==> !beats[i].seconds.reaches(now)
            &&& forall|j: int| i < j < beats.len() ==> (#[trigger] beats[j]).seconds.reaches(now)
            &&& anchor(beats, now) matches Ok(a) ==> a.beat < 4 && a.time == beats[i].beat.time
        }),
{
    lemma_beats_before(beats, now);
    let n = beats_before(beats, now) as int;
    assert forall|j: int| n <= j < beats.len() implies (#[trigger] beats[j]).seconds.reaches(now) by {
        assert(beats[n].seconds.reaches(now));
        assert(beats[j].seconds.reaches(beats[n].seconds));
    }
}

impl BeatGrid {
    /// Joins beats with their times in seconds.
    pub fn new(beats: Vec<Beat>, seconds: Vec<Single>) -> (r: BeatGrid)
        requires
            beats.len() == seconds.len(),
        ensures
            r.beats@ == timed_beats(beats@, seconds@),
    {
        let mut timed: Vec<GridBeat> = Vec::new();
        let mut i: usize = 0;
        while i < beats.len()
            invariant
                i <= beats.len() == seconds.len(),
                timed.len() == i,
                forall|j: int|
                    0 <= j < i ==> #[trigger] timed@[j] == (GridBeat {
                        beat: beats@[j],
                        seconds: seconds@[j],
                    }),
            decreases beats.len() - i,
        {
            timed.push(GridBeat { beat: beats[i], seconds: seconds[i] });
            i += 1;
        }
        assert(timed@ =~= timed_beats(beats@, seconds@));
        BeatGrid { beats: timed }
    }

    /// The beat that the time `now` is measured from.
    pub fn anchor(&self, now: Single) -> (r: Result<BeatAnchor, Fault>)
        ensures
            r == anchor(self.beats@, now),
    {
        if self.beats.len() == 0 {
            return Err(Fault::EmptyBeatGrid);
        }
        let mut idx: usize = 0;
        while idx < self.beats.len() && !self.beats[idx].seconds.at_least(now)
            invariant
                idx <= self.beats.len(),
                forall|j: int| 0 <= j < idx ==> !(#[trigger] self.beats@[j]).seconds.reaches(now),
            decreases self.beats.len() - idx,
        {
            idx += 1;
        }
        proof {
            lemma_beats_before_skips(self.beats@, now, idx as int);
            assert(beats_before(self.beats@, now) == idx);
        }
        let idx: usize = idx.saturating_sub(1);
        let beat = self.beats[idx].beat;
        if beat.beat_number > u16::MAX - 3 {
            return Err(Fault::BeatNumberOverflow);
        }
        Ok(
            BeatAnchor {
                beat: (beat.beat_number + 3) % 4,
                tempo: beat.tempo,
                time: beat.time,
            },
        )
    }
}

/// What an update of a deck found out.
#[derive(Clone, Copy, Debug)]
pub struct TrackTrackerResult {
    pub beat: Single,
    pub original_bpm: Single,
    pub timing_data_raw: TimingDataRaw,
}

/// What is followed of the track on a deck.
#[derive(Debug)]
pub struct TrackTracker {
    /// Another track was loaded at some time.
    pub track_changed: bool,
    pub beatgrid: Option<BeatGrid>,
}

/// A [`TrackTracker`] as a value.
pub struct TrackTrackerView {
    pub track_changed: bool,
    pub beatgrid: Option<Seq<GridBeat>>,
}

impl View for TrackTracker {
    type V = TrackTrackerView;

    open spec fn view(&self) -> TrackTrackerView {
        TrackTrackerView {
            track_changed: self.track_changed,
            beatgrid: match self.beatgrid {
                Some(g) => Some(g.beats@),
                None => None,
            },
        }
    }
}

/// A deck of which nothing is known.
pub open spec fn fresh_tracker() -> TrackTrackerView {
    TrackTrackerView { track_changed: false, beatgrid: None }
}

impl TrackTracker {
    pub fn new() -> (r: TrackTracker)
        ensures
            r@ == fresh_tracker(),
    {
        Self { track_changed: false, beatgrid: None }
    }
}

/// The data with a tempo to go on: a tempo of 0 counts as 120.
pub open spec fn with_tempo(td: TimingDataRaw) -> TimingDataRaw {
    if td.current_bpm.same(Single { bits: 0 }) {
        TimingDataRaw {
            current_bpm: Single { bits: crate::single::DEFAULT_TEMPO },
            sample_position: td.sample_position,
        }
    } else {
        td
    }
}

impl TimingDataRaw {
    /// The data with a tempo to go on.
    pub fn with_tempo(self) -> (r: TimingDataRaw)
        ensures
            r == with_tempo(self),
    {
        if self.current_bpm == Single::zero() {
            TimingDataRaw {
                current_bpm: Single::default_tempo(),
                sample_position: self.sample_position,
            }
        } else {
            self
        }
    }
}

/// What an update finds out when no beat grid is known: beat 0, at a tempo of 120.
pub open spec fn gridless(td: TimingDataRaw) -> TrackTrackerResult {
    TrackTrackerResult {
        beat: Single { bits: 0 },
        original_bpm: Single { bits: crate::single::DEFAULT_TEMPO },
        timing_data_raw: td,
    }
}

/// What an update finds out when the position in beats is known.
pub open spec fn placed(td: TimingDataRaw, at: BeatPosition) -> TrackTrackerResult {
    TrackTrackerResult { beat: at.beat, original_bpm: at.original_bpm, timing_data_raw: td }
}

/// What was told last about a deck.
#[derive(Clone)]
pub struct TrackingDataTracker {
    pub bpm_changed: ChangeTrackedValue<Single>,
    pub original_bpm_changed: ChangeTrackedValue<Single>,
    pub beat_changed: ChangeTrackedValue<Single>,
    pub pos_changed: ChangeTrackedValue<i64>,
}

/// Which values differ from what was told last.
#[derive(Clone, Copy, Debug, PartialEq, Eq, Structural)]
pub struct Changes {
    pub beat: bool,
    pub pos: bool,
    pub bpm: bool,
    pub original_bpm: bool,
}

/// Nothing was told yet: all values are 0.
pub open spec fn fresh_tracking() -> TrackingDataTracker {
    TrackingDataTracker {
        bpm_changed: ChangeTrackedValue { value: Single { bits: 0 } },
        original_bpm_changed: ChangeTrackedValue { value: Single { bits: 0 } },
        beat_changed: ChangeTrackedValue { value: Single { bits: 0 } },
        pos_changed: ChangeTrackedValue { value: 0 },
    }
}

/// Which values of a result differ from what was told last.
pub open spec fn changes(t: TrackingDataTracker, res: TrackTrackerResult) -> Changes {
    Changes {
        beat: !t.beat_changed.value.same(res.beat),
        pos: t.pos_changed.value != res.timing_data_raw.sample_position,
        bpm: !t.bpm_changed.value.same(res.timing_data_raw.current_bpm),
        original_bpm: !t.original_bpm_changed.value.same(res.original_bpm),
    }
}

/// The newer of two numbers, unless they are equal.
pub open spec fn newer(changed: bool, old_value: Single, new_value: Single) -> ChangeTrackedValue<
    Single,
> {
    ChangeTrackedValue { value: if changed { new_value } else { old_value } }
}

/// What was told last, once the values of a result that differ have been told.
pub open spec fn told(t: TrackingDataTracker, res: TrackTrackerResult) -> TrackingDataTracker {
    let c = changes(t, res);
    TrackingDataTracker {
        bpm_changed: newer(c.bpm, t.bpm_changed.value, res.timing_data_raw.current_bpm),
        original_bpm_changed: newer(
            c.original_bpm,
            t.original_bpm_changed.value,
            res.original_bpm,
        ),
        beat_changed: newer(c.beat, t.beat_changed.value, res.beat),
        pos_changed: ChangeTrackedValue { value: res.timing_data_raw.sample_position },
    }
}

/// A list of one item, or of none.
pub open spec fn only_if<A>(condition: bool, a: A) -> Seq<A> {
    if condition {
        seq![a]
    } else {
        Seq::empty()
    }
}

/// What the modules are told of a result: each value that differs from what was told last.
pub open spec fn news(t: TrackingDataTracker, res: TrackTrackerResult, target: Target) -> Seq<
    NotificationView,
> {
    let c = changes(t, res);
    let td = res.timing_data_raw;
    only_if(c.beat, NotificationView::Beat(res.beat, target)) + only_if(
        c.pos,
        NotificationView::Time(td.sample_position, target),
    ) + only_if(c.bpm, NotificationView::Bpm(td.current_bpm, target)) + only_if(
        c.original_bpm,
        NotificationView::OriginalBpm(res.original_bpm, target),
    )
}

impl TrackingDataTracker {
    pub fn new() -> (r: TrackingDataTracker)
        ensures
            r == fresh_tracking(),
    {
        Self {
            bpm_changed: ChangeTrackedValue::new(Single::zero()),
            original_bpm_changed: ChangeTrackedValue::new(Single::zero()),
            beat_changed: ChangeTrackedValue::new(Single::zero()),
            pos_changed: ChangeTrackedValue::new(0),
        }
    }

    /// Takes in a result, and gives what is to be told of it.
    pub fn take_in(&mut self, res: &TrackTrackerResult, target: Target) -> (batch: Vec<Notification>)
        ensures
            *final(self) == told(*old(self), *res),
            crate::output::notification_views(batch@) == news(*old(self), *res, target),
    {
        let td = res.timing_data_raw;
        let bpm_changed = self.bpm_changed.set(td.current_bpm);
        let original_bpm_changed = self.original_bpm_changed.set(res.original_bpm);
        let beat_changed = self.beat_changed.set(res.beat);
        let pos_changed = self.pos_changed.set(td.sample_position);
        let mut batch: Vec<Notification> = Vec::new();
        assert(crate::output::notification_views(batch@) =~= Seq::empty());
        if beat_changed {
            crate::output::notify(&mut batch, Notification::Beat(res.beat, target));
        }
        if pos_changed {
            crate::output::notify(&mut batch, Notification::Time(td.sample_position, target));
        }
        if bpm_changed {
            crate::output::notify(&mut batch, Notification::Bpm(td.current_bpm, target));
        }
        if original_bpm_changed {
            crate::output::notify(&mut batch, Notification::OriginalBpm(res.original_bpm, target));
        }
        assert(crate::output::notification_views(batch@) =~= news(*old(self), *res, target));
        batch
    }
}

// What placing on a grid and telling come to.
/// A time is measured from the last beat before the first one that lies at it or later, or from the
/// first beat if that one does. The anchor is this beat: its tempo, its time, and its place in the
/// bar, which is its number less one, in fours. It exists unless adding three to the number exceeds
/// 16 bits.
pub proof fn lemma_anchor_is_the_beat_before(beats: Seq<GridBeat>, now: Single) -> (i: int)
    requires
        beats.len() > 0,
    ensures
        0 <= i < beats.len(),
        beats[0].seconds.reaches(now) ==> i == 0,
        !beats[0].seconds.reaches(now) ==> (forall|j: int|
            0 <= j <= i ==> !(#[trigger] beats[j]).seconds.reaches(now)) && (i + 1 < beats.len()
            ==> beats[i + 1].seconds.reaches(now)),
        beats[i].beat.beat_number <= 65532 ==> anchor(beats, now) == Ok::<BeatAnchor, Fault>(
            (BeatAnchor {
                beat: ((beats[i].beat.beat_number + 3) % 4) as u16,
                tempo: beats[i].beat.tempo,
                time: beats[i].beat.time,
            }),
        ),
        beats[i].beat.beat_number > 65532 ==> anchor(beats, now) == Err::<BeatAnchor, Fault>(
            Fault::BeatNumberOverflow,
        ),
{
    lemma_beats_before(beats, now);
    let n = beats_before(beats, now) as int;
    if n == 0 {
        0
    } else {
        n - 1
    }
}

/// A grid without beats has no anchor.
pub proof fn lemma_empty_grid_has_no_anchor(beats: Seq<GridBeat>, now: Single)
    requires
        beats.len() == 0,
    ensures
        anchor(beats, now) == Err::<BeatAnchor, Fault>(Fault::EmptyBeatGrid),
{
}

/// The grid has one beat for each that it was made from, in order, each with its own time.
pub proof fn lemma_grid_keeps_beats_and_times(beats: Seq<Beat>, seconds: Seq<Single>)
    requires
        beats.len() == seconds.len(),
    ensures
        timed_beats(beats, seconds).len() == beats.len(),
        beat_times(beats).len() == beats.len(),
        forall|i: int|
            0 <= i < beats.len() ==> (#[trigger] timed_beats(beats, seconds)[i]).beat == beats[i]
                && timed_beats(beats, seconds)[i].seconds == seconds[i],
        forall|i: int| 0 <= i < beats.len() ==> #[trigger] beat_times(beats)[i] == beats[i].time,
{
}

/// A tempo of zero, of either sign, counts as 120; every other one, and the position, stays.
pub proof fn lemma_tempo_to_go_on(td: TimingDataRaw)
    ensures
        with_tempo(td).sample_position == td.sample_position,
        with_tempo(td).current_bpm.bits == (if td.current_bpm.bits % 0x8000_0000 == 0 {
            0x42f0_0000
        } else {
            td.current_bpm.bits
        }),
{
}

/// Where a notification about a value stands among those about the others.
pub open spec fn place(n: NotificationView) -> int {
    match n {
        NotificationView::Beat(_, _) => 0,
        NotificationView::Time(_, _) => 1,
        NotificationView::Bpm(_, _) => 2,
        NotificationView::OriginalBpm(_, _) => 3,
        _ => 4,
    }
}

/// Of a result the beat is told exactly if it differs from the one told last, whatever the other
/// values do; and so are the position, the tempo and the tempo of the grid, each by itself. What is
/// told is the value of the result, about the target, once, and nothing else is told. The beat comes
/// first, then the position, then the tempo, then the tempo of the grid.
pub proof fn lemma_each_change_is_told(t: TrackingDataTracker, res: TrackTrackerResult, target: Target)
    ensures
        ({
            let batch = news(t, res, target);
            let td = res.timing_data_raw;
            &&& batch.contains(NotificationView::Beat(res.beat, target)) == !t.beat_changed.value.same(
                res.beat,
            )
            &&& batch.contains(NotificationView::Time(td.sample_position, target)) == (
            t.pos_changed.value != td.sample_position)
            &&& batch.contains(NotificationView::Bpm(td.current_bpm, target))
                == !t.bpm_changed.value.same(td.current_bpm)
            &&& batch.contains(NotificationView::OriginalBpm(res.original_bpm, target))
                == !t.original_bpm_changed.value.same(res.original_bpm)
            &&& forall|i: int|
                0 <= i < batch.len() ==> {
                    ||| #[trigger] batch[i] == NotificationView::Beat(res.beat, target)
                    ||| batch[i] == NotificationView::Time(td.sample_position, target)
                    ||| batch[i] == NotificationView::Bpm(td.current_bpm, target)
                    ||| batch[i] == NotificationView::OriginalBpm(res.original_bpm, target)
                }
            &&& forall|i: int, j: int|
                0 <= i < j < batch.len() ==> place(#[trigger] batch[i]) < place(
                    #[trigger] batch[j],
                )
        }),
{
    let batch = news(t, res, target);
    let td = res.timing_data_raw;
    let c = changes(t, res);
    let a = only_if(c.beat, NotificationView::Beat(res.beat, target));
    let b = only_if(c.pos, NotificationView::Time(td.sample_position, target));
    let d = only_if(c.bpm, NotificationView::Bpm(td.current_bpm, target));
    assert(c.beat ==> batch[0] == NotificationView::Beat(res.beat, target));
    assert(c.pos ==> batch[a.len() as int] == NotificationView::Time(td.sample_position, target));
    assert(c.bpm ==> batch[(a + b).len() as int] == NotificationView::Bpm(td.current_bpm, target));
    assert(c.original_bpm ==> batch[(a + b + d).len() as int] == NotificationView::OriginalBpm(
        res.original_bpm,
        target,
    ));
}

/// Once a result has been told, each value that was told last is the one of the result, unless it
/// was equal to it before, and then it stays; each by itself.
pub proof fn lemma_each_value_is_remembered(t: TrackingDataTracker, res: TrackTrackerResult)
    ensures
        ({
            let after = told(t, res);
            let td = res.timing_data_raw;
            &&& after.beat_changed.value == (if t.beat_changed.value.same(res.beat) {
                t.beat_changed.value
            } else {
                res.beat
            })
            &&& after.original_bpm_changed.value == (if t.original_bpm_changed.value.same(
                res.original_bpm,
            ) {
                t.original_bpm_changed.value
            } else {
                res.original_bpm
            })
            &&& after.bpm_changed.value == (if t.bpm_changed.value.same(td.current_bpm) {
                t.bpm_changed.value
            } else {
                td.current_bpm
            })
            &&& after.pos_changed.value == td.sample_position
        }),
{
}

/// At first zeros count as told, and no deck has a grid.
pub proof fn lemma_nothing_is_told_at_first()
    ensures
        fresh_tracking().beat_changed.value.bits == 0,
        fresh_tracking().original_bpm_changed.value.bits == 0,
        fresh_tracking().bpm_changed.value.bits == 0,
        fresh_tracking().pos_changed.value == 0,
        fresh_tracker().beatgrid is None,
        !fresh_tracker().track_changed,
{
}

} // verus!
