//! Which camera images are drawn, and when.

use crate::feature::camera::CameraId;
use crate::feature::id_map::{self, IdMap};
use crate::message::text::same_text;
use crate::message::time::ArrivalTime;
use crate::playback::web_playback::PlaybackEffect;
use crate::recording::session::{self, copy_topics};
use vstd::prelude::*;

verus! {

/// The camera is one of the list.
pub open spec fn lists_camera(topics: Seq<(CameraId, Seq<char>)>, camera: CameraId) -> bool {
    exists|i: int| 0 <= i < topics.len() && (#[trigger] topics[i]).0 == camera
}

/// The camera that is shown large: the chosen one while it is there, or else the first.
pub open spec fn spec_selected_camera(
    chosen: Option<CameraId>,
    topics: Seq<(CameraId, Seq<char>)>,
) -> Option<CameraId> {
    if chosen matches Some(camera) && lists_camera(topics, camera) {
        chosen
    } else if topics.len() > 0 {
        Some(topics[0].0)
    } else {
        None
    }
}

/// The camera that is shown large.
pub fn selected_camera(chosen: Option<CameraId>, topics: &[(CameraId, String)]) -> (camera: Option<
    CameraId,
>)
    ensures
        camera == spec_selected_camera(chosen, session::topic_contents(topics@)),
{
    let ghost all = session::topic_contents(topics@);
    if let Some(camera) = chosen {
        let mut index: usize = 0;
        while index < topics.len()
            invariant
                index <= topics@.len(),
                all == session::topic_contents(topics@),
                chosen == Some(camera),
                forall|i: int| 0 <= i < index ==> (#[trigger] all[i]).0 != camera,
            decreases topics@.len() - index,
        {
            assert(all[index as int].0 == topics@[index as int].0);
            if topics[index].0 == camera {
                return chosen;
            }
            index = index + 1;
        }
    }
    if topics.len() > 0 {
        assert(all[0].0 == topics@[0].0);
        Some(topics[0].0)
    } else {
        None
    }
}

/// What to do with the large image.
#[derive(Clone, Copy, Debug, Eq, PartialEq, Structural)]
pub enum LargeImage {
    Keep,
    Clear,
    Draw,
}

/// What a view holds.
pub struct CameraViewContent {
    pub topics: Seq<(CameraId, Seq<char>)>,
    pub last_drawn: Option<ArrivalTime>,
    pub last_drawn_camera: Option<CameraId>,
    /// The arrival time of the image that is on the canvas of each camera.
    pub drawn: Seq<(i64, ArrivalTime)>,
    /// The cameras whose picture changed in this round.
    pub changed: Seq<(i64, bool)>,
}

impl CameraViewContent {
    /// A view that shows nothing.
    pub open spec fn fresh() -> Self {
        CameraViewContent {
            topics: Seq::empty(),
            last_drawn: None,
            last_drawn_camera: None,
            drawn: Seq::empty(),
            changed: Seq::empty(),
        }
    }

    /// The view at the start of a round. Another large camera has to be drawn anew.
    pub open spec fn started(
        self,
        topics: Seq<(CameraId, Seq<char>)>,
        selected: Option<CameraId>,
    ) -> Self {
        CameraViewContent {
            topics,
            last_drawn: if self.last_drawn_camera == selected {
                self.last_drawn
            } else {
                None
            },
            last_drawn_camera: selected,
            changed: Seq::empty(),
            ..self
        }
    }

    /// The canvas of a camera shows the image of that time.
    pub open spec fn shows(self, camera: CameraId, arrival: ArrivalTime) -> bool {
        id_map::lookup(self.drawn, camera.0 as i64) == Some(arrival)
    }

    /// The view once an image was drawn on the canvas of its camera.
    pub open spec fn with_image(self, camera: CameraId, arrival: ArrivalTime) -> Self {
        CameraViewContent {
            drawn: id_map::inserted(self.drawn, camera.0 as i64, arrival),
            changed: id_map::inserted(self.changed, camera.0 as i64, true),
            ..self
        }
    }

    /// The view once the overlay of a camera changed.
    pub open spec fn with_overlay(self, camera: CameraId) -> Self {
        CameraViewContent {
            changed: id_map::inserted(self.changed, camera.0 as i64, true),
            ..self
        }
    }

    /// What to do with the large image, given the time of the latest frame of its camera. A frame
    /// whose image is on the canvas is drawn if it is another one or if its picture changed.
    pub open spec fn large(self, latest: Option<ArrivalTime>) -> LargeImage {
        match (self.last_drawn_camera, latest) {
            (Some(camera), Some(arrival)) => if !self.shows(camera, arrival) {
                if self.last_drawn is Some {
                    LargeImage::Clear
                } else {
                    LargeImage::Keep
                }
            } else if self.last_drawn != Some(arrival) || id_map::lookup(
                self.changed,
                camera.0 as i64,
            ) is Some {
                LargeImage::Draw
            } else {
                LargeImage::Keep
            },
            _ => if self.last_drawn is Some {
                LargeImage::Clear
            } else {
                LargeImage::Keep
            },
        }
    }

    /// The view at the end of a round.
    pub open spec fn finished(self, latest: Option<ArrivalTime>) -> Self {
        CameraViewContent {
            last_drawn: match self.large(latest) {
                LargeImage::Keep => self.last_drawn,
                LargeImage::Clear => None,
                LargeImage::Draw => latest,
            },
            ..self
        }
    }
}

/// What is drawn of the cameras. Each round begins with `begin_round`, goes through the frames, and
/// ends with `finish_round`.
pub struct CameraView {
    topics: Vec<(CameraId, String)>,
    last_drawn: Option<ArrivalTime>,
    last_drawn_camera: Option<CameraId>,
    drawn: IdMap<ArrivalTime>,
    changed: IdMap<bool>,
}

impl Default for CameraView {
    fn default() -> (view: Self)
        ensures
            view.well_formed(),
            view.content() == CameraViewContent::fresh(),
    {
        let topics: Vec<(CameraId, String)> = Vec::new();
        assert(session::topic_contents(topics@) =~= Seq::empty());
        CameraView {
            topics,
            last_drawn: None,
            last_drawn_camera: None,
            drawn: IdMap::new(),
            changed: IdMap::new(),
        }
    }
}

fn same_topics(first: &[(CameraId, String)], second: &[(CameraId, String)]) -> (same: bool)
    ensures
        same == (session::topic_contents(first@) == session::topic_contents(second@)),
{
    let ghost ones = session::topic_contents(first@);
    let ghost others = session::topic_contents(second@);
    if first.len() != second.len() {
        assert(ones.len() != others.len());
        return false;
    }
    let mut index: usize = 0;
    while index < first.len()
        invariant
            index <= first@.len() == second@.len(),
            ones == session::topic_contents(first@),
            others == session::topic_contents(second@),
            forall|i: int| 0 <= i < index ==> #[trigger] ones[i] == others[i],
        decreases first@.len() - index,
    {
        proof {
            assert(ones[index as int] == (first@[index as int].0, first@[index as int].1@));
            assert(others[index as int] == (second@[index as int].0, second@[index as int].1@));
        }
        if first[index].0 != second[index].0 || !same_text(
            first[index].1.as_str(),
            second[index].1.as_str(),
        ) {
            assert(ones[index as int] != others[index as int]);
            return false;
        }
        index = index + 1;
    }
    assert(ones =~= others);
    true
}

impl CameraView {
    pub closed spec fn content(&self) -> CameraViewContent {
        CameraViewContent {
            topics: session::topic_contents(self.topics@),
            last_drawn: self.last_drawn,
            last_drawn_camera: self.last_drawn_camera,
            drawn: self.drawn.entries(),
            changed: self.changed.entries(),
        }
    }

    pub closed spec fn well_formed(&self) -> bool {
        self.drawn.well_formed() && self.changed.well_formed()
    }

    /// Forgets everything, as for another recording.
    pub fn reset_for_source(&mut self)
        ensures
            final(self).well_formed(),
            final(self).content() == CameraViewContent::fresh(),
    {
        *self = CameraView::default();
    }

    /// Forgets everything after a seek.
    pub fn apply_playback_effect(&mut self, effect: PlaybackEffect)
        requires
            old(self).well_formed(),
        ensures
            final(self).well_formed(),
            final(self).content() == (if effect is Seeked {
                CameraViewContent::fresh()
            } else {
                old(self).content()
            }),
    {
        if let PlaybackEffect::Seeked = effect {
            *self = CameraView::default();
        }
    }

    /// Starts a round. Whether the cameras are others than before comes back.
    pub fn begin_round(
        &mut self,
        topics: &[(CameraId, String)],
        selected: Option<CameraId>,
    ) -> (rebuild: bool)
        requires
            old(self).well_formed(),
        ensures
            final(self).well_formed(),
            rebuild == (old(self).content().topics != session::topic_contents(topics@)),
            final(self).content() == old(self).content().started(
                session::topic_contents(topics@),
                selected,
            ),
    {
        let rebuild: bool = !same_topics(self.topics.as_slice(), topics);
        if rebuild {
            self.topics = copy_topics(topics);
        }
        let same: bool = match (self.last_drawn_camera, selected) {
            (Some(last), Some(camera)) => last == camera,
            (None, None) => true,
            _ => false,
        };
        if !same {
            self.last_drawn = None;
            self.last_drawn_camera = selected;
        }
        self.changed = IdMap::new();
        rebuild
    }

    /// Whether the image of a frame is not on the canvas of its camera yet.
    pub fn needs_image(&self, camera: CameraId, arrival: ArrivalTime) -> (needed: bool)
        requires
            self.well_formed(),
        ensures
            needed == !self.content().shows(camera, arrival),
    {
        match self.drawn.get(camera.0 as i64) {
            Some(drawn) => drawn.0 != arrival.0,
            None => true,
        }
    }

    /// Takes note that the image of a frame was drawn on the canvas of its camera.
    pub fn image_drawn(&mut self, camera: CameraId, arrival: ArrivalTime)
        requires
            old(self).well_formed(),
        ensures
            final(self).well_formed(),
            final(self).content() == old(self).content().with_image(camera, arrival),
            final(self).content().shows(camera, arrival),
    {
        proof {
            id_map::lemma_inserted(self.drawn.entries(), camera.0 as i64, arrival);
        }
        let _ = self.drawn.insert(camera.0 as i64, arrival);
        let _ = self.changed.insert(camera.0 as i64, true);
    }

    /// Takes note that the overlay of a camera changed.
    pub fn overlay_changed(&mut self, camera: CameraId)
        requires
            old(self).well_formed(),
        ensures
            final(self).well_formed(),
            final(self).content() == old(self).content().with_overlay(camera),
    {
        let _ = self.changed.insert(camera.0 as i64, true);
    }

    /// Whether the picture of a camera changed in this round.
    pub fn has_changed(&self, camera: CameraId) -> (changed: bool)
        requires
            self.well_formed(),
        ensures
            changed == (id_map::lookup(self.content().changed, camera.0 as i64) is Some),
    {
        match self.changed.get(camera.0 as i64) {
            Some(_) => true,
            None => false,
        }
    }

    /// Ends a round, given the time of the latest frame of the large camera. What to do with the
    /// large image comes back.
    pub fn finish_round(&mut self, latest: Option<ArrivalTime>) -> (image: LargeImage)
        requires
            old(self).well_formed(),
        ensures
            final(self).well_formed(),
            image == old(self).content().large(latest),
            final(self).content() == old(self).content().finished(latest),
    {
        if let (Some(camera), Some(arrival)) = (self.last_drawn_camera, latest) {
            if !self.needs_image(camera, arrival) {
                let same: bool = match self.last_drawn {
                    Some(drawn) => drawn.0 == arrival.0,
                    None => false,
                };
                if same && !self.has_changed(camera) {
                    return LargeImage::Keep;
                }
                self.last_drawn = Some(arrival);
                return LargeImage::Draw;
            }
        }
        if self.last_drawn.is_some() {
            self.last_drawn = None;
            return LargeImage::Clear;
        }
        LargeImage::Keep
    }

    pub fn camera_topics(&self) -> (topics: &[(CameraId, String)])
        ensures
            session::topic_contents(topics@) == self.content().topics,
    {
        self.topics.as_slice()
    }
}

/// A round in which nothing changed draws nothing.
pub proof fn law_unchanged_rounds_draw_nothing(
    view: CameraViewContent,
    topics: Seq<(CameraId, Seq<char>)>,
    camera: CameraId,
    arrival: ArrivalTime,
)
    requires
        view.last_drawn_camera == Some(camera),
        view.last_drawn == Some(arrival),
        view.shows(camera, arrival),
    ensures
        view.started(topics, Some(camera)).large(Some(arrival)) is Keep,
{
    let started = view.started(topics, Some(camera));
    assert(started.shows(camera, arrival));
    assert(id_map::lookup(started.changed, camera.0 as i64) is None);
}

/// Another large camera is drawn as soon as its image is there.
pub proof fn law_other_cameras_are_drawn(
    view: CameraViewContent,
    topics: Seq<(CameraId, Seq<char>)>,
    camera: CameraId,
    arrival: ArrivalTime,
)
    requires
        view.last_drawn_camera != Some(camera),
        view.shows(camera, arrival),
    ensures
        view.started(topics, Some(camera)).large(Some(arrival)) is Draw,
        view.started(topics, Some(camera)).finished(Some(arrival)).last_drawn == Some(arrival),
{
    assert(view.started(topics, Some(camera)).shows(camera, arrival));
}

/// The camera that was chosen is shown large while the session has it, and else its first one; without
/// cameras none is.
pub proof fn law_the_chosen_camera_is_shown(
    chosen: CameraId,
    topics: Seq<(CameraId, Seq<char>)>,
    index: int,
)
    requires
        0 <= index < topics.len(),
    ensures
        topics[index].0 == chosen ==> spec_selected_camera(Some(chosen), topics) == Some(chosen),
        spec_selected_camera(None, topics) == Some(topics[0].0),
        (forall|i: int| 0 <= i < topics.len() ==> (#[trigger] topics[i]).0 != chosen)
            ==> spec_selected_camera(Some(chosen), topics) == Some(topics[0].0),
        spec_selected_camera(Some(chosen), Seq::empty()) is None,
{
}

} // verus!
