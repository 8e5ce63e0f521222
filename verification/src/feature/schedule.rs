//! Which camera messages are presented, and when.
//!
//! Messages wait undecoded, one for each camera; a newer one takes the place of one that waits.
//! The focused camera is presented more often than the others, whose turns are spread evenly.

use crate::feature::camera::CameraId;
use crate::feature::id_map::{self, IdMap};
use crate::recording::raw::{RawContent, RawMessage};
use vstd::prelude::*;

verus! {

/// Nanoseconds between two presentations of the focused camera.
pub const FOCUSED_INTERVAL_NS: u128 = 100_000_000;

/// Nanoseconds between two presentations of any other camera.
pub const BACKGROUND_INTERVAL_NS: u128 = 200_000_000;

/// The longest time that can be told apart, in nanoseconds.
pub const MAX_ELAPSED_NS: u128 = 18_446_744_073_709_551_615_999_999_999;

/// How often, and which, camera messages were seen and presented.
#[derive(Clone, Debug)]
pub struct CameraSchedule {
    cameras: Vec<CameraId>,
    focused: Option<CameraId>,
    elapsed: u128,
    next: IdMap<u128>,
    pending: IdMap<RawMessage>,
    dropped: u64,
    input_frames: u64,
    presented_frames: u64,
    presented_by_id: IdMap<u64>,
}

/// What a schedule holds, under camera numbers in ascending order.
pub struct ScheduleContent {
    pub cameras: Seq<CameraId>,
    pub focused: Option<CameraId>,
    pub elapsed: u128,
    pub next: Seq<(i64, u128)>,
    pub pending: Seq<(i64, RawContent)>,
    pub dropped: u64,
    pub input_frames: u64,
    pub presented_frames: u64,
    pub presented_by_id: Seq<(i64, u64)>,
}

/// The content of a message, as a function.
pub open spec fn message_content() -> spec_fn(RawMessage) -> RawContent {
    |message: RawMessage| message@
}

/// One more, up to the largest count.
pub open spec fn counted(count: u64) -> u64 {
    if count == u64::MAX {
        u64::MAX
    } else {
        (count + 1) as u64
    }
}

/// One more, up to the largest count.
pub fn count_up(count: u64) -> (more: u64)
    ensures
        more == counted(count),
{
    count.saturating_add(1)
}

/// A time after another, up to the longest.
pub open spec fn later(elapsed: u128, step: u128) -> u128 {
    if elapsed + step > MAX_ELAPSED_NS {
        MAX_ELAPSED_NS
    } else {
        (elapsed + step) as u128
    }
}

fn delayed(elapsed: u128, step: u128) -> (time: u128)
    requires
        elapsed <= MAX_ELAPSED_NS,
    ensures
        time == later(elapsed, step),
        time <= MAX_ELAPSED_NS,
{
    if step > MAX_ELAPSED_NS - elapsed {
        MAX_ELAPSED_NS
    } else {
        elapsed + step
    }
}

/// When the background camera at an index of `count` is first presented: the turns divide the
/// interval evenly, each rounded to the nearest nanosecond.
pub open spec fn phase(index: nat, count: nat) -> nat {
    (2 * BACKGROUND_INTERVAL_NS as nat * index + count) / (2 * count)
}

/// The time between two presentations of a camera.
pub open spec fn interval(focused: Option<CameraId>, camera: CameraId) -> u128 {
    if focused == Some(camera) {
        FOCUSED_INTERVAL_NS
    } else {
        BACKGROUND_INTERVAL_NS
    }
}

/// The cameras other than the focused one.
pub open spec fn background(cameras: Seq<CameraId>, focused: Option<CameraId>) -> Seq<CameraId> {
    cameras.filter(|camera: CameraId| focused != Some(camera))
}

/// The first turns of the first `index` background cameras.
pub open spec fn first_turns(cameras: Seq<CameraId>, index: int) -> Seq<(i64, u128)>
    decreases index,
{
    if index <= 0 {
        Seq::empty()
    } else {
        id_map::inserted(
            first_turns(cameras, index - 1),
            cameras[index - 1].0 as i64,
            phase((index - 1) as nat, cameras.len()) as u128,
        )
    }
}

/// The first turns of all cameras. The focused one comes at once.
pub open spec fn fresh_turns(cameras: Seq<CameraId>, focused: Option<CameraId>) -> Seq<
    (i64, u128),
> {
    let others = background(cameras, focused);
    let turns = first_turns(others, others.len() as int);
    match focused {
        Some(camera) => id_map::inserted(turns, camera.0 as i64, 0u128),
        None => turns,
    }
}

/// The camera that gets the focus: the one asked for where it is known, else the first.
pub open spec fn focus_for(cameras: Seq<CameraId>, asked: Option<CameraId>) -> Option<CameraId> {
    if asked is Some && cameras.contains(asked->0) {
        asked
    } else if cameras.len() > 0 {
        Some(cameras[0])
    } else {
        None
    }
}

impl ScheduleContent {
    /// The camera's turn has come. One that was never presented is due at once.
    pub open spec fn due(self, camera: i64) -> bool {
        match id_map::lookup(self.next, camera) {
            Some(turn) => self.elapsed >= turn,
            None => true,
        }
    }

    /// The messages whose cameras are due.
    pub open spec fn due_messages(self) -> Seq<(i64, RawContent)> {
        self.pending.filter(|entry: (i64, RawContent)| self.due(entry.0))
    }

    /// The schedule with a message of a camera waiting, in place of an older one.
    pub open spec fn admitted(self, camera: CameraId, message: RawContent) -> ScheduleContent {
        ScheduleContent {
            input_frames: counted(self.input_frames),
            pending: id_map::inserted(self.pending, camera.0 as i64, message),
            dropped: if id_map::lookup(self.pending, camera.0 as i64) is Some {
                counted(self.dropped)
            } else {
                self.dropped
            },
            ..self
        }
    }

    /// The schedule with one presentation of a camera counted.
    pub open spec fn noted(self, camera: i64) -> ScheduleContent {
        ScheduleContent {
            presented_frames: counted(self.presented_frames),
            presented_by_id: id_map::inserted(
                self.presented_by_id,
                camera,
                counted(
                    match id_map::lookup(self.presented_by_id, camera) {
                        Some(count) => count,
                        None => 0,
                    },
                ),
            ),
            ..self
        }
    }

    /// The schedule once the first `count` of some due messages were taken.
    pub open spec fn presented(self, due: Seq<(i64, RawContent)>, count: int) -> ScheduleContent
        decreases count,
    {
        if count <= 0 {
            self
        } else {
            let before = self.presented(due, count - 1);
            let camera = due[count - 1].0;
            ScheduleContent {
                pending: id_map::removed(before.pending, camera),
                next: id_map::inserted(
                    before.next,
                    camera,
                    later(self.elapsed, interval(self.focused, CameraId(camera as u16))),
                ),
                ..before.noted(camera)
            }
        }
    }

    /// The schedule once time passed and every due message was taken.
    pub open spec fn advanced(self, step: u128) -> ScheduleContent {
        let later = self.waited(step);
        later.presented(later.due_messages(), later.due_messages().len() as int)
    }

    /// The schedule once time passed.
    pub open spec fn waited(self, step: u128) -> ScheduleContent {
        ScheduleContent { elapsed: later(self.elapsed, step), ..self }
    }

    /// The schedule from its start again; what was counted stays.
    pub open spec fn restarted(self) -> ScheduleContent {
        ScheduleContent {
            elapsed: 0,
            pending: Seq::empty(),
            next: fresh_turns(self.cameras, self.focused),
            ..self
        }
    }

    /// The schedule with another camera in focus. The one that loses the focus waits for a
    /// background turn; the one that gets it is due at once.
    pub open spec fn focused_on(self, asked: Option<CameraId>) -> ScheduleContent {
        let focus = focus_for(self.cameras, asked);
        if focus == self.focused {
            self
        } else {
            let left = match self.focused {
                Some(previous) => id_map::inserted(
                    self.next,
                    previous.0 as i64,
                    later(self.elapsed, BACKGROUND_INTERVAL_NS),
                ),
                None => self.next,
            };
            ScheduleContent {
                focused: focus,
                next: match focus {
                    Some(camera) => id_map::inserted(left, camera.0 as i64, self.elapsed),
                    None => left,
                },
                ..self
            }
        }
    }

    /// Maps are in order and hold cameras.
    pub open spec fn valid(self) -> bool {
        &&& id_map::ascending(self.next)
        &&& id_map::ascending(self.pending)
        &&& id_map::ascending(self.presented_by_id)
        &&& self.elapsed <= MAX_ELAPSED_NS
        &&& forall|i: int|
            0 <= i < self.pending.len() ==> 0 <= (#[trigger] self.pending[i]).0 <= u16::MAX
        &&& forall|i: int|
            0 <= i < self.presented_by_id.len() ==> 0 <= (#[trigger] self.presented_by_id[i]).0
                <= u16::MAX
    }
}

/// Of a camera the newest admitted message waits, in place of an older one. What waits of other
/// cameras stays.
pub proof fn law_the_newest_message_waits(
    schedule: ScheduleContent,
    camera: CameraId,
    message: RawContent,
)
    requires
        schedule.valid(),
    ensures
        schedule.admitted(camera, message).valid(),
        id_map::lookup(schedule.admitted(camera, message).pending, camera.0 as i64) == Some(
            message,
        ),
        forall|other: CameraId|
            other != camera ==> #[trigger] id_map::lookup(
                schedule.admitted(camera, message).pending,
                other.0 as i64,
            ) == id_map::lookup(schedule.pending, other.0 as i64),
{
    id_map::lemma_inserted(schedule.pending, camera.0 as i64, message);
    lemma_inserted_keys(schedule.pending, camera.0 as i64, message);
}

proof fn lemma_inserted_keys<V>(entries: Seq<(i64, V)>, key: i64, value: V)
    requires
        id_map::ascending(entries),
        0 <= key <= u16::MAX,
        forall|i: int| 0 <= i < entries.len() ==> 0 <= (#[trigger] entries[i]).0 <= u16::MAX,
    ensures
        forall|i: int|
            0 <= i < id_map::inserted(entries, key, value).len() ==> 0 <= (
            #[trigger] id_map::inserted(entries, key, value)[i]).0 <= u16::MAX,
{
    id_map::lemma_rank(entries, key);
    let after = id_map::inserted(entries, key, value);
    let place = id_map::rank_of(entries, key);
    let present = place < entries.len() && entries[place].0 == key;
    assert forall|i: int| 0 <= i < after.len() implies 0 <= (
    #[trigger] after[i]).0 <= u16::MAX by {
        if i != place {
            let k = if present || i < place {
                i
            } else {
                i - 1
            };
            assert(after[i] == entries[k]);
        }
    }
}

proof fn lemma_removed_keys(pending: Seq<(i64, RawContent)>, key: i64)
    requires
        id_map::ascending(pending),
        forall|i: int| 0 <= i < pending.len() ==> 0 <= (#[trigger] pending[i]).0 <= u16::MAX,
    ensures
        forall|i: int|
            0 <= i < id_map::removed(pending, key).len() ==> 0 <= (
            #[trigger] id_map::removed(pending, key)[i]).0 <= u16::MAX,
{
    id_map::lemma_rank(pending, key);
    let after = id_map::removed(pending, key);
    let place = id_map::rank_of(pending, key);
    let present = place < pending.len() && pending[place].0 == key;
    assert forall|i: int| 0 <= i < after.len() implies 0 <= (
    #[trigger] after[i]).0 <= u16::MAX by {
        let k = if present && i >= place {
            i + 1
        } else {
            i
        };
        assert(after[i] == pending[k]);
    }
}

impl CameraSchedule {
    pub closed spec fn content(&self) -> ScheduleContent {
        ScheduleContent {
            cameras: self.cameras@,
            focused: self.focused,
            elapsed: self.elapsed,
            next: self.next.entries(),
            pending: id_map::mapped(self.pending.entries(), message_content()),
            dropped: self.dropped,
            input_frames: self.input_frames,
            presented_frames: self.presented_frames,
            presented_by_id: self.presented_by_id.entries(),
        }
    }

    pub closed spec fn well_formed(&self) -> bool {
        &&& self.pending.well_formed()
        &&& self.content().valid()
    }

    /// What a well-formed schedule holds is valid.
    pub proof fn lemma_valid(&self)
        requires
            self.well_formed(),
        ensures
            self.content().valid(),
    {
    }

    /// A schedule of some cameras, with nothing waiting.
    pub fn new(cameras: Vec<CameraId>, focused: Option<CameraId>) -> (schedule: Self)
        ensures
            schedule.well_formed(),
            schedule.content() == (ScheduleContent {
                cameras: cameras@,
                focused,
                elapsed: 0,
                next: fresh_turns(cameras@, focused),
                pending: Seq::empty(),
                dropped: 0,
                input_frames: 0,
                presented_frames: 0,
                presented_by_id: Seq::empty(),
            }),
    {
        let next: IdMap<u128> = turns(&cameras, focused);
        let schedule = CameraSchedule {
            cameras,
            focused,
            elapsed: 0,
            next,
            pending: IdMap::new(),
            dropped: 0,
            input_frames: 0,
            presented_frames: 0,
            presented_by_id: IdMap::new(),
        };
        assert(schedule.content().pending =~= Seq::<(i64, RawContent)>::empty());
        schedule
    }

    /// Lets a message of a camera wait, in place of an older one.
    pub fn admit_message(&mut self, camera: CameraId, message: RawMessage)
        requires
            old(self).well_formed(),
        ensures
            final(self).well_formed(),
            final(self).content() == old(self).content().admitted(camera, message@),
    {
        proof {
            let key = camera.0 as i64;
            id_map::lemma_mapped_lookup(self.pending.entries(), message_content(), key);
            id_map::lemma_mapped_inserted(self.pending.entries(), message_content(), key, message);
            law_the_newest_message_waits(self.content(), camera, message@);
        }
        self.input_frames = count_up(self.input_frames);
        if self.pending.insert(camera.0 as i64, message).is_some() {
            self.dropped = count_up(self.dropped);
        }
    }

    /// Counts a message that is presented without waiting.
    pub fn note_immediate(&mut self, camera: CameraId)
        requires
            old(self).well_formed(),
        ensures
            final(self).well_formed(),
            final(self).content() == old(self).content().noted(camera.0 as i64),
    {
        self.note(camera.0 as i64);
    }

    /// Counts a message that came in without waiting.
    pub fn note_input(&mut self)
        requires
            old(self).well_formed(),
        ensures
            final(self).well_formed(),
            final(self).content() == (ScheduleContent {
                input_frames: counted(old(self).content().input_frames),
                ..old(self).content()
            }),
    {
        self.input_frames = count_up(self.input_frames);
    }

    fn note(&mut self, key: i64)
        requires
            old(self).well_formed(),
            0 <= key <= u16::MAX,
        ensures
            final(self).well_formed(),
            final(self).content() == old(self).content().noted(key),
    {
        self.presented_frames = count_up(self.presented_frames);
        let count: u64 = match self.presented_by_id.get(key) {
            Some(count) => *count,
            None => 0,
        };
        proof {
            lemma_inserted_keys(self.presented_by_id.entries(), key, counted(count));
        }
        self.presented_by_id.insert(key, count_up(count));
    }

    fn is_due(&self, key: i64) -> (due: bool)
        requires
            self.well_formed(),
        ensures
            due == self.content().due(key),
    {
        match self.next.get(key) {
            Some(turn) => self.elapsed >= *turn,
            None => true,
        }
    }

    /// Lets time pass and takes every message whose camera is due, in ascending order of the
    /// cameras.
    #[verifier::rlimit(40)]
    pub fn advance(&mut self, step: u128) -> (due: Vec<(CameraId, RawMessage)>)
        requires
            old(self).well_formed(),
        ensures
            final(self).well_formed(),
            final(self).content() == old(self).content().advanced(step),
            due_contents(due@) == old(self).content().waited(step).due_messages(),
    {
        self.elapsed = delayed(self.elapsed, step);
        let ghost start = self.content();
        assert(start == old(self).content().waited(step));
        let keys: Vec<i64> = self.due_keys();
        let mut due: Vec<(CameraId, RawMessage)> = Vec::new();
        let ghost list = start.due_messages();
        let mut index: usize = 0;
        proof {
            lemma_due_facts(start);
            assert(due_contents(due@) =~= list.take(0));
        }
        while index < keys.len()
            invariant
                index <= keys@.len() == list.len(),
                start.valid(),
                list == start.due_messages(),
                keys@ == list.map_values(|entry: (i64, RawContent)| entry.0),
                id_map::ascending(list),
                forall|i: int|
                    0 <= i < list.len() ==> 0 <= (#[trigger] list[i]).0 <= u16::MAX
                        && id_map::lookup(start.pending, list[i].0) == Some(list[i].1),
                self.well_formed(),
                self.content() == start.presented(list, index as int),
                forall|i: int|
                    index <= i < list.len() ==> id_map::lookup(
                        self.content().pending,
                        (#[trigger] list[i]).0,
                    ) == Some(list[i].1),
                due_contents(due@) == list.take(index as int),
            decreases keys@.len() - index,
        {
            let key: i64 = keys[index];
            assert(key == list[index as int].0);
            let ghost before = self.content();
            proof {
                lemma_presented_keeps(start, list, index as int);
                id_map::lemma_mapped_lookup(self.pending.entries(), message_content(), key);
                id_map::lemma_mapped_removed(self.pending.entries(), message_content(), key);
                id_map::lemma_removed(before.pending, key);
                lemma_removed_keys(before.pending, key);
            }
            match self.pending.remove(key) {
                Some(message) => {
                    let camera: CameraId = CameraId(key as u16);
                    let step: u128 = self.interval_of(camera);
                    self.next.insert(key, delayed(self.elapsed, step));
                    self.note(key);
                    let ghost shorter = due@;
                    due.push((camera, message));
                    proof {
                        assert(due_contents(due@) =~= due_contents(shorter).push(
                            list[index as int],
                        ));
                        assert(list.take(index + 1) =~= list.take(index as int).push(
                            list[index as int],
                        ));
                    }
                },
                None => {
                    assert(false);
                },
            }
            proof {
                assert(self.content() == start.presented(list, index + 1));
                assert forall|i: int| index + 1 <= i < list.len() implies id_map::lookup(
                    self.content().pending,
                    (#[trigger] list[i]).0,
                ) == Some(list[i].1) by {
                    assert(list[index as int].0 < list[i].0);
                    assert(id_map::lookup(before.pending, list[i].0) == Some(list[i].1));
                }
            }
            index = index + 1;
        }
        assert(list.take(list.len() as int) =~= list);
        due
    }

    fn interval_of(&self, camera: CameraId) -> (step: u128)
        ensures
            step == interval(self.content().focused, camera),
    {
        match self.focused {
            Some(focused) => if focused == camera {
                FOCUSED_INTERVAL_NS
            } else {
                BACKGROUND_INTERVAL_NS
            },
            None => BACKGROUND_INTERVAL_NS,
        }
    }

    fn due_keys(&self) -> (keys: Vec<i64>)
        requires
            self.well_formed(),
        ensures
            keys@ == self.content().due_messages().map_values(|entry: (i64, RawContent)| entry.0),
    {
        let ghost all = self.content().pending;
        let ghost due = |entry: (i64, RawContent)| self.content().due(entry.0);
        let mut keys: Vec<i64> = Vec::new();
        let mut index: usize = 0;
        proof {
            reveal(Seq::filter);
            assert(all.take(0) =~= Seq::<(i64, RawContent)>::empty());
            assert(keys@ =~= all.take(0).filter(due).map_values(
                |entry: (i64, RawContent)| entry.0,
            ));
        }
        while index < self.pending.len()
            invariant
                index <= all.len() == self.pending.entries().len(),
                self.well_formed(),
                all == self.content().pending,
                all == id_map::mapped(self.pending.entries(), message_content()),
                due == (|entry: (i64, RawContent)| self.content().due(entry.0)),
                keys@ == all.take(index as int).filter(due).map_values(
                    |entry: (i64, RawContent)| entry.0,
                ),
            decreases all.len() - index,
        {
            let key: i64 = self.pending.key_at(index);
            let ghost before = keys@;
            proof {
                reveal(Seq::filter);
                assert(all.take(index + 1).drop_last() =~= all.take(index as int));
                assert(all.take(index + 1).last() == all[index as int]);
                assert(due(all[index as int]) == self.content().due(key));
            }
            if self.is_due(key) {
                keys.push(key);
                assert(keys@ =~= all.take(index + 1).filter(due).map_values(
                    |entry: (i64, RawContent)| entry.0,
                ));
            }
            index = index + 1;
        }
        assert(all.take(all.len() as int) =~= all);
        keys
    }

    /// Starts the schedule again; what was counted stays.
    pub fn restart(&mut self)
        requires
            old(self).well_formed(),
        ensures
            final(self).well_formed(),
            final(self).content() == old(self).content().restarted(),
    {
        self.elapsed = 0;
        self.pending.clear();
        self.next = turns(&self.cameras, self.focused);
        assert(self.content().pending =~= Seq::<(i64, RawContent)>::empty());
    }

    /// The schedule that `restart` leaves, beside this one.
    pub fn restarted_copy(&self) -> (copy: Self)
        requires
            self.well_formed(),
        ensures
            copy.well_formed(),
            copy.content() == self.content().restarted(),
    {
        let cameras: Vec<CameraId> = copy_cameras(&self.cameras);
        let next: IdMap<u128> = turns(&cameras, self.focused);
        let copy = CameraSchedule {
            cameras,
            focused: self.focused,
            elapsed: 0,
            next,
            pending: IdMap::new(),
            dropped: self.dropped,
            input_frames: self.input_frames,
            presented_frames: self.presented_frames,
            presented_by_id: copy_counts(&self.presented_by_id),
        };
        assert(copy.content().pending =~= Seq::<(i64, RawContent)>::empty());
        copy
    }

    /// Gives the focus to a camera, or to the first where that one is not known.
    pub fn set_focused(&mut self, asked: Option<CameraId>)
        requires
            old(self).well_formed(),
        ensures
            final(self).well_formed(),
            final(self).content() == old(self).content().focused_on(asked),
    {
        let focus: Option<CameraId> = self.focus(asked);
        if same_camera(self.focused, focus) {
            return;
        }
        if let Some(previous) = self.focused {
            self.next.insert(previous.0 as i64, delayed(self.elapsed, BACKGROUND_INTERVAL_NS));
        }
        self.focused = focus;
        if let Some(camera) = focus {
            self.next.insert(camera.0 as i64, self.elapsed);
        }
    }

    fn focus(&self, asked: Option<CameraId>) -> (focus: Option<CameraId>)
        ensures
            focus == focus_for(self.content().cameras, asked),
    {
        if let Some(camera) = asked {
            let mut index: usize = 0;
            while index < self.cameras.len()
                invariant
                    asked == Some(camera),
                    index <= self.cameras@.len(),
                    forall|i: int| 0 <= i < index ==> #[trigger] self.cameras@[i] != camera,
                decreases self.cameras@.len() - index,
            {
                if self.cameras[index] == camera {
                    assert(self.cameras@.contains(camera));
                    return asked;
                }
                index = index + 1;
            }
        }
        if self.cameras.len() > 0 {
            Some(self.cameras[0])
        } else {
            None
        }
    }

    pub fn focused(&self) -> (camera: Option<CameraId>)
        ensures
            camera == self.content().focused,
    {
        self.focused
    }

    pub fn dropped(&self) -> (count: u64)
        ensures
            count == self.content().dropped,
    {
        self.dropped
    }

    pub fn input_frames(&self) -> (count: u64)
        ensures
            count == self.content().input_frames,
    {
        self.input_frames
    }

    pub fn presented_frames(&self) -> (count: u64)
        ensures
            count == self.content().presented_frames,
    {
        self.presented_frames
    }

    /// The cameras that were presented and how often, in ascending order.
    pub fn presented_by_id(&self) -> (counts: Vec<(CameraId, u64)>)
        requires
            self.well_formed(),
        ensures
            counts@ == self.content().presented_by_id.map_values(
                |entry: (i64, u64)| (CameraId(entry.0 as u16), entry.1),
            ),
    {
        let ghost all = self.content().presented_by_id;
        let mut counts: Vec<(CameraId, u64)> = Vec::with_capacity(self.presented_by_id.len());
        let mut index: usize = 0;
        while index < self.presented_by_id.len()
            invariant
                index <= all.len(),
                self.well_formed(),
                all == self.presented_by_id.entries(),
                all == self.content().presented_by_id,
                counts@ == all.take(index as int).map_values(
                    |entry: (i64, u64)| (CameraId(entry.0 as u16), entry.1),
                ),
            decreases all.len() - index,
        {
            let key: i64 = self.presented_by_id.key_at(index);
            assert(0 <= all[index as int].0 <= u16::MAX);
            counts.push((CameraId(key as u16), *self.presented_by_id.value_at(index)));
            index = index + 1;
            assert(counts@ =~= all.take(index as int).map_values(
                |entry: (i64, u64)| (CameraId(entry.0 as u16), entry.1),
            ));
        }
        assert(all.take(all.len() as int) =~= all);
        counts
    }

    /// How many messages wait.
    pub fn pending_count(&self) -> (count: usize)
        ensures
            count == self.content().pending.len(),
    {
        self.pending.len()
    }
}

/// What due messages hold, under the numbers of their cameras.
pub open spec fn due_contents(due: Seq<(CameraId, RawMessage)>) -> Seq<(i64, RawContent)> {
    due.map_values(|entry: (CameraId, RawMessage)| (entry.0.0 as i64, entry.1@))
}

proof fn lemma_due_facts(start: ScheduleContent)
    requires
        start.valid(),
    ensures
        id_map::ascending(start.due_messages()),
        forall|i: int|
            0 <= i < start.due_messages().len() ==> 0 <= (#[trigger] start.due_messages()[i]).0
                <= u16::MAX && id_map::lookup(start.pending, start.due_messages()[i].0) == Some(
                start.due_messages()[i].1,
            ),
{
    let due = |entry: (i64, RawContent)| start.due(entry.0);
    lemma_filter_ascends(start.pending, due);
    let list = start.due_messages();
    assert forall|i: int| 0 <= i < list.len() implies 0 <= (#[trigger] list[i]).0 <= u16::MAX
        && id_map::lookup(start.pending, list[i].0) == Some(list[i].1) by {
        assert(start.pending.contains(list[i]));
        let k = choose|k: int| 0 <= k < start.pending.len() && start.pending[k] == list[i];
        assert(start.pending[k].0 == list[i].0);
        id_map::lemma_lookup(start.pending, list[i].0);
    }
}

proof fn lemma_filter_ascends(
    entries: Seq<(i64, RawContent)>,
    chosen: spec_fn((i64, RawContent)) -> bool,
)
    requires
        id_map::ascending(entries),
    ensures
        id_map::ascending(entries.filter(chosen)),
        forall|i: int|
            0 <= i < entries.filter(chosen).len() ==> entries.contains(
                #[trigger] entries.filter(chosen)[i],
            ),
    decreases entries.len(),
{
    reveal(Seq::filter);
    if entries.len() > 0 {
        let front = entries.drop_last();
        assert forall|i: int, j: int| 0 <= i < j < front.len() implies (#[trigger] front[i]).0 < (
        #[trigger] front[j]).0 by {
            assert(entries[i].0 < entries[j].0);
        }
        lemma_filter_ascends(front, chosen);
        let kept = front.filter(chosen);
        let all = entries.filter(chosen);
        assert forall|i: int| 0 <= i < kept.len() implies entries.contains(#[trigger] kept[i])
            && kept[i].0 < entries.last().0 by {
            assert(front.contains(kept[i]));
            let k = choose|k: int| 0 <= k < front.len() && front[k] == kept[i];
            assert(entries[k] == kept[i]);
            assert(entries[k].0 < entries[entries.len() - 1].0);
        }
        assert forall|i: int| 0 <= i < all.len() implies entries.contains(#[trigger] all[i]) by {
            if i < kept.len() {
                assert(all[i] == kept[i]);
            } else {
                assert(all[i] == entries[entries.len() - 1]);
            }
        }
        assert forall|i: int, j: int| 0 <= i < j < all.len() implies (#[trigger] all[i]).0 < (
        #[trigger] all[j]).0 by {
            assert(all[i] == kept[i]);
            if j < kept.len() {
                assert(all[j] == kept[j]);
            } else {
                assert(all[j] == entries.last());
            }
        }
    }
}

/// Presenting leaves the time, the focus and the cameras as they are.
proof fn lemma_presented_keeps(start: ScheduleContent, list: Seq<(i64, RawContent)>, count: int)
    ensures
        start.presented(list, count).elapsed == start.elapsed,
        start.presented(list, count).focused == start.focused,
        start.presented(list, count).cameras == start.cameras,
    decreases count,
{
    if count > 0 {
        lemma_presented_keeps(start, list, count - 1);
    }
}

fn same_camera(first: Option<CameraId>, second: Option<CameraId>) -> (same: bool)
    ensures
        same == (first == second),
{
    match first {
        Some(a) => match second {
            Some(b) => a == b,
            None => false,
        },
        None => match second {
            Some(_) => false,
            None => true,
        },
    }
}

fn copy_cameras(cameras: &Vec<CameraId>) -> (copy: Vec<CameraId>)
    ensures
        copy@ == cameras@,
{
    let mut copy: Vec<CameraId> = Vec::with_capacity(cameras.len());
    let mut index: usize = 0;
    while index < cameras.len()
        invariant
            index <= cameras@.len(),
            copy@ == cameras@.take(index as int),
        decreases cameras@.len() - index,
    {
        copy.push(cameras[index]);
        index = index + 1;
        assert(copy@ =~= cameras@.take(index as int));
    }
    assert(cameras@.take(cameras@.len() as int) =~= cameras@);
    copy
}

fn copy_counts(counts: &IdMap<u64>) -> (copy: IdMap<u64>)
    requires
        counts.well_formed(),
    ensures
        copy.well_formed(),
        copy.entries() == counts.entries(),
{
    let mut copy: IdMap<u64> = IdMap::new();
    let ghost all = counts.entries();
    let mut index: usize = 0;
    assert(copy.entries() =~= all.take(0));
    while index < counts.len()
        invariant
            index <= all.len(),
            all == counts.entries(),
            id_map::ascending(all),
            copy.well_formed(),
            copy.entries() == all.take(index as int),
        decreases all.len() - index,
    {
        let key: i64 = counts.key_at(index);
        let count: u64 = *counts.value_at(index);
        proof {
            assert forall|i: int| 0 <= i < copy.entries().len() implies (
            #[trigger] copy.entries()[i]).0 < key by {
                assert(all[i].0 < all[index as int].0);
            }
        }
        copy.push(key, count);
        index = index + 1;
        assert(copy.entries() =~= all.take(index as int));
    }
    assert(all.take(all.len() as int) =~= all);
    copy
}

fn others(cameras: &Vec<CameraId>, focused: Option<CameraId>) -> (others: Vec<CameraId>)
    ensures
        others@ == background(cameras@, focused),
{
    let ghost chosen = |camera: CameraId| focused != Some(camera);
    let mut others: Vec<CameraId> = Vec::new();
    let mut index: usize = 0;
    proof {
        reveal(Seq::filter);
        assert(cameras@.take(0) =~= Seq::<CameraId>::empty());
        assert(others@ =~= cameras@.take(0).filter(chosen));
    }
    while index < cameras.len()
        invariant
            index <= cameras@.len(),
            chosen == (|camera: CameraId| focused != Some(camera)),
            others@ == cameras@.take(index as int).filter(chosen),
        decreases cameras@.len() - index,
    {
        let camera: CameraId = cameras[index];
        proof {
            reveal(Seq::filter);
            assert(cameras@.take(index + 1).drop_last() =~= cameras@.take(index as int));
            assert(cameras@.take(index + 1).last() == camera);
        }
        if !same_camera(focused, Some(camera)) {
            others.push(camera);
        }
        index = index + 1;
    }
    assert(cameras@.take(cameras@.len() as int) =~= cameras@);
    others
}

fn turns(cameras: &Vec<CameraId>, focused: Option<CameraId>) -> (next: IdMap<u128>)
    ensures
        next.well_formed(),
        next.entries() == fresh_turns(cameras@, focused),
{
    let others: Vec<CameraId> = others(cameras, focused);
    let count: usize = others.len();
    let mut next: IdMap<u128> = IdMap::new();
    let mut index: usize = 0;
    while index < count
        invariant
            index <= count == others@.len(),
            next.well_formed(),
            next.entries() == first_turns(others@, index as int),
        decreases count - index,
    {
        let turn: u128 = (2 * BACKGROUND_INTERVAL_NS * index as u128 + count as u128) / (2
            * count as u128);
        proof {
            let exact = phase(index as nat, count as nat);
            assert(turn == exact);
        }
        next.insert(others[index].0 as i64, turn);
        index = index + 1;
    }
    if let Some(camera) = focused {
        next.insert(camera.0 as i64, 0);
    }
    next
}

/// What presenting one more camera does to the turns and to what waits.
proof fn lemma_presented_step(start: ScheduleContent, list: Seq<(i64, RawContent)>, count: int)
    requires
        0 < count,
    ensures
        start.presented(list, count).next == id_map::inserted(
            start.presented(list, count - 1).next,
            list[count - 1].0,
            later(start.elapsed, interval(start.focused, CameraId(list[count - 1].0 as u16))),
        ),
        start.presented(list, count).pending == id_map::removed(
            start.presented(list, count - 1).pending,
            list[count - 1].0,
        ),
{
}

#[verifier::spinoff_prover]
proof fn lemma_presented_turn(
    start: ScheduleContent,
    list: Seq<(i64, RawContent)>,
    count: int,
    index: int,
)
    requires
        0 <= index < count <= list.len(),
        id_map::ascending(list),
        id_map::ascending(start.next),
        id_map::ascending(start.pending),
    ensures
        id_map::lookup(start.presented(list, count).next, list[index].0) == Some(
            later(start.elapsed, interval(start.focused, CameraId(list[index].0 as u16))),
        ),
        id_map::lookup(start.presented(list, count).pending, list[index].0) is None,
    decreases count,
{
    lemma_presented_ascends(start, list, count - 1);
    lemma_presented_step(start, list, count);
    let before = start.presented(list, count - 1);
    let camera = list[count - 1].0;
    let turn = later(start.elapsed, interval(start.focused, CameraId(camera as u16)));
    id_map::lemma_inserted(before.next, camera, turn);
    id_map::lemma_removed(before.pending, camera);
    if index < count - 1 {
        lemma_presented_turn(start, list, count - 1, index);
        assert(list[index].0 < list[count - 1].0);
        assert(id_map::lookup(id_map::inserted(before.next, camera, turn), list[index].0)
            == id_map::lookup(before.next, list[index].0));
        assert(id_map::lookup(id_map::removed(before.pending, camera), list[index].0)
            == id_map::lookup(before.pending, list[index].0));
    }
}

proof fn lemma_presented_ascends(
    start: ScheduleContent,
    list: Seq<(i64, RawContent)>,
    count: int,
)
    requires
        count <= list.len(),
        id_map::ascending(start.next),
        id_map::ascending(start.pending),
    ensures
        id_map::ascending(start.presented(list, count).next),
        id_map::ascending(start.presented(list, count).pending),
    decreases count,
{
    if count > 0 {
        lemma_presented_ascends(start, list, count - 1);
        lemma_presented_step(start, list, count);
        let before = start.presented(list, count - 1);
        let camera = list[count - 1].0;
        id_map::lemma_inserted(
            before.next,
            camera,
            later(start.elapsed, interval(start.focused, CameraId(camera as u16))),
        );
        id_map::lemma_removed(before.pending, camera);
    }
}

/// No camera is presented more often than its interval allows: one that was just presented has
/// nothing waiting, and is not due again before its interval has passed, as long as times can be
/// told apart.
pub proof fn law_presentations_keep_their_distance(
    schedule: ScheduleContent,
    step: u128,
    more: u128,
    index: int,
)
    requires
        schedule.valid(),
        0 <= index < schedule.waited(step).due_messages().len(),
        ({
            let camera = schedule.waited(step).due_messages()[index].0;
            let distance = interval(schedule.focused, CameraId(camera as u16));
            more < distance && schedule.waited(step).elapsed + distance <= MAX_ELAPSED_NS
        }),
    ensures
        ({
            let camera = schedule.waited(step).due_messages()[index].0;
            let after = schedule.advanced(step);
            &&& id_map::lookup(after.pending, camera) is None
            &&& !after.waited(more).due(camera)
        }),
{
    let start = schedule.waited(step);
    let list = start.due_messages();
    lemma_due_facts(start);
    lemma_presented_turn(start, list, list.len() as int, index);
    lemma_presented_keeps(start, list, list.len() as int);
}

/// A camera that was presented is due again after a tenth of a second where it has the focus, after a
/// fifth of a second where it has not, and no sooner, as long as times can be told apart.
pub proof fn law_cameras_come_in_their_turn(
    schedule: ScheduleContent,
    step: u128,
    more: u128,
    index: int,
)
    requires
        schedule.valid(),
        0 <= index < schedule.waited(step).due_messages().len(),
        schedule.waited(step).elapsed + more + 200_000_000 <= MAX_ELAPSED_NS,
    ensures
        ({
            let camera = schedule.waited(step).due_messages()[index].0;
            let focused = schedule.focused == Some(CameraId(camera as u16));
            schedule.advanced(step).waited(more).due(camera) <==> more >= if focused {
                100_000_000int
            } else {
                200_000_000int
            }
        }),
{
    let start = schedule.waited(step);
    let list = start.due_messages();
    lemma_due_facts(start);
    lemma_presented_turn(start, list, list.len() as int, index);
    lemma_presented_keeps(start, list, list.len() as int);
}

/// What is presented is what waits for a camera whose turn has come, and all of it.
pub proof fn law_what_is_due_is_presented(
    schedule: ScheduleContent,
    camera: i64,
    message: RawContent,
)
    requires
        schedule.valid(),
    ensures
        schedule.due_messages().contains((camera, message)) <==> id_map::lookup(
            schedule.pending,
            camera,
        ) == Some(message) && match id_map::lookup(schedule.next, camera) {
            Some(turn) => schedule.elapsed >= turn,
            None => true,
        },
{
    let chosen = |entry: (i64, RawContent)| schedule.due(entry.0);
    let list = schedule.due_messages();
    lemma_due_facts(schedule);
    id_map::lemma_lookup(schedule.pending, camera);
    if list.contains((camera, message)) {
        let i = choose|i: int| 0 <= i < list.len() && list[i] == (camera, message);
        assert(list[i].0 == camera);
        schedule.pending.lemma_filter_pred(chosen, i);
    } else if id_map::lookup(schedule.pending, camera) == Some(message) && schedule.due(camera) {
        let i = choose|i: int|
            0 <= i < schedule.pending.len() && (#[trigger] schedule.pending[i]).0 == camera;
        assert(schedule.pending[i] == (camera, message));
        schedule.pending.lemma_filter_contains(chosen, i);
    }
}

/// Every message that comes in is counted, and one that takes the place of another counts that one
/// as dropped; every message that is taken is counted as presented.
#[verifier::rlimit(60)]
pub proof fn law_messages_are_counted(
    schedule: ScheduleContent,
    camera: CameraId,
    message: RawContent,
    step: u128,
)
    requires
        schedule.valid(),
        schedule.input_frames < u64::MAX,
        schedule.dropped < u64::MAX,
        schedule.presented_frames + schedule.pending.len() <= u64::MAX,
    ensures
        ({
            let after = schedule.admitted(camera, message);
            &&& after.input_frames == schedule.input_frames + 1
            &&& after.presented_frames == schedule.presented_frames
            &&& after.pending.len() + after.dropped == schedule.pending.len() + schedule.dropped
                + 1
        }),
        ({
            let after = schedule.advanced(step);
            let taken = schedule.waited(step).due_messages().len();
            &&& after.presented_frames == schedule.presented_frames + taken
            &&& after.dropped == schedule.dropped
            &&& after.input_frames == schedule.input_frames
            &&& after.focused == schedule.focused
        }),
{
    let start = schedule.waited(step);
    id_map::lemma_rank(schedule.pending, camera.0 as i64);
    let chosen = |entry: (i64, RawContent)| start.due(entry.0);
    start.pending.lemma_filter_len(chosen);
    lemma_presented_counts(start, start.due_messages(), start.due_messages().len() as int);
    lemma_presented_keeps(start, start.due_messages(), start.due_messages().len() as int);
}

proof fn lemma_presented_counts(start: ScheduleContent, list: Seq<(i64, RawContent)>, count: int)
    requires
        0 <= count,
        start.presented_frames + count <= u64::MAX,
    ensures
        start.presented(list, count).presented_frames == start.presented_frames + count,
        start.presented(list, count).dropped == start.dropped,
        start.presented(list, count).input_frames == start.input_frames,
    decreases count,
{
    if count > 0 {
        lemma_presented_counts(start, list, count - 1);
    }
}

/// The first turns of the other cameras divide a fifth of a second evenly, to the nearest nanosecond.
pub proof fn law_first_turns_are_spread(index: nat, count: nat)
    requires
        index < count,
    ensures
        2 * count * phase(index, count) <= 400_000_000 * index + count,
        400_000_000 * index + count < 2 * count * phase(index, count) + 2 * count,
{
    let whole = 2 * BACKGROUND_INTERVAL_NS as nat * index + count;
    vstd::arithmetic::div_mod::lemma_fundamental_div_mod(whole as int, (2 * count) as int);
    vstd::arithmetic::div_mod::lemma_mod_bound(whole as int, (2 * count) as int);
}

/// The focus goes to the camera that is asked for, where the session has it, and else to the first
/// one; a camera that gets the focus is due at once, and the one that loses it after a fifth of a
/// second.
#[verifier::rlimit(60)]
pub proof fn law_the_focus_goes_where_it_is_asked_for(
    schedule: ScheduleContent,
    asked: Option<CameraId>,
)
    requires
        schedule.valid(),
        schedule.cameras.len() > 0,
        schedule.elapsed + 200_000_000 <= MAX_ELAPSED_NS,
    ensures
        ({
            let after = schedule.focused_on(asked);
            let focus = match asked {
                Some(camera) => if schedule.cameras.contains(camera) {
                    camera
                } else {
                    schedule.cameras[0]
                },
                None => schedule.cameras[0],
            };
            &&& after.focused == Some(focus)
            &&& schedule.focused == Some(focus) ==> after == schedule
            &&& schedule.focused != Some(focus) ==> after.due(focus.0 as i64)
            &&& match schedule.focused {
                Some(previous) => previous != focus ==> id_map::lookup(
                    after.next,
                    previous.0 as i64,
                ) == Some((schedule.elapsed + 200_000_000) as u128),
                None => true,
            }
        }),
{
    if let Some(previous) = schedule.focused {
        id_map::lemma_inserted(
            schedule.next,
            previous.0 as i64,
            later(schedule.elapsed, BACKGROUND_INTERVAL_NS),
        );
        let left = id_map::inserted(
            schedule.next,
            previous.0 as i64,
            later(schedule.elapsed, BACKGROUND_INTERVAL_NS),
        );
        let focus = focus_for(schedule.cameras, asked);
        if let Some(camera) = focus {
            id_map::lemma_inserted(left, camera.0 as i64, schedule.elapsed);
        }
    } else if let Some(camera) = focus_for(schedule.cameras, asked) {
        id_map::lemma_inserted(schedule.next, camera.0 as i64, schedule.elapsed);
    }
}

/// The focused camera is presented at once when a session starts or starts again, and the others after
/// their part of a fifth of a second.
pub proof fn law_the_focused_camera_comes_first(schedule: ScheduleContent, camera: CameraId)
    requires
        schedule.focused == Some(camera),
    ensures
        ({
            let after = schedule.restarted();
            &&& id_map::lookup(after.next, camera.0 as i64) == Some(0u128)
            &&& after.due(camera.0 as i64)
            &&& after.elapsed == 0
            &&& after.pending.len() == 0
            &&& after.cameras == schedule.cameras
            &&& after.input_frames == schedule.input_frames
            &&& after.presented_frames == schedule.presented_frames
            &&& after.dropped == schedule.dropped
        }),
{
    let others = background(schedule.cameras, schedule.focused);
    lemma_first_turns_ascend(others, others.len() as int);
    id_map::lemma_inserted(
        first_turns(others, others.len() as int),
        camera.0 as i64,
        0u128,
    );
}

proof fn lemma_first_turns_ascend(cameras: Seq<CameraId>, index: int)
    requires
        index <= cameras.len(),
    ensures
        id_map::ascending(first_turns(cameras, index)),
    decreases index,
{
    if index > 0 {
        lemma_first_turns_ascend(cameras, index - 1);
        id_map::lemma_inserted(
            first_turns(cameras, index - 1),
            cameras[index - 1].0 as i64,
            phase((index - 1) as nat, cameras.len()) as u128,
        );
    }
}

/// Of cameras of different numbers each gets its own first turn, in their order.
pub proof fn law_each_camera_gets_its_first_turn(cameras: Seq<CameraId>, count: int, index: int)
    requires
        0 <= index < count <= cameras.len(),
        forall|i: int, j: int|
            0 <= i < j < cameras.len() ==> (#[trigger] cameras[i]) != (#[trigger] cameras[j]),
    ensures
        id_map::lookup(first_turns(cameras, count), cameras[index].0 as i64) == Some(
            phase(index as nat, cameras.len()) as u128,
        ),
    decreases count,
{
    lemma_first_turns_ascend(cameras, count - 1);
    id_map::lemma_inserted(
        first_turns(cameras, count - 1),
        cameras[count - 1].0 as i64,
        phase((count - 1) as nat, cameras.len()) as u128,
    );
    if index < count - 1 {
        law_each_camera_gets_its_first_turn(cameras, count - 1, index);
        assert(cameras[index] != cameras[count - 1]);
    }
}

} // verus!
