//! Static and dynamic transforms: decoding and restoring.

use crate::feature::controllers::counters::ProcessingCounters;
use crate::feature::schedule::{self, count_up};
use crate::feature::transform::{
    TransformBatch, TransformState, TransformsContent, DYNAMIC_TF_HISTORY_NS,
};
use crate::message::cdr::common::{DecodeError, DecodeFault};
use crate::message::cdr::transform::{self, decode_tf_message, TransformContent};
use crate::message::payload::as_slice;
use crate::message::time::ArrivalTime;
use crate::recording::raw::{is_stream, RawContent, RawMessage, StreamId};
use crate::recording::restore::RestoreSemantics;
use crate::recording::session::{self, DomainTarget, RouteContent, SessionPlan};
use vstd::prelude::*;

verus! {

/// The transforms of a session.
#[derive(Clone, Debug)]
pub struct TransformController {
    dynamic_stream: Option<StreamId>,
    static_stream: Option<StreamId>,
    state: TransformState,
    decoded: u64,
    errors: u64,
}

/// What a controller holds.
pub struct TransformControllerContent {
    pub dynamic_stream: Option<StreamId>,
    pub static_stream: Option<StreamId>,
    pub state: TransformsContent,
    pub decoded: u64,
    pub errors: u64,
}

impl TransformControllerContent {
    /// A new controller for the routes of a session.
    pub open spec fn fresh(routes: Seq<RouteContent>) -> Self {
        TransformControllerContent {
        dynamic_stream: session::stream_for(
            routes,
            DomainTarget::Transforms { is_static: false },
        ),
        static_stream: session::stream_for(
            routes,
            DomainTarget::Transforms { is_static: true },
        ),
        state: TransformsContent {
            static_edges: Map::empty(),
            dynamic_edges: Map::empty(),
            revision: 0,
        },
        decoded: 0,
        errors: 0,
            }
    }

    /// Whether the messages of a stream are static transforms, if they are transforms at all.
    pub open spec fn kind(self, stream: StreamId) -> Option<bool> {
        if self.static_stream == Some(stream) {
            Some(true)
        } else if self.dynamic_stream == Some(stream) {
            Some(false)
        } else {
            None
        }
    }

    /// The controller once a message of its streams was decoded. One that cannot be decoded is
    /// counted and leaves the transforms.
    pub open spec fn decoded_message(self, message: RawContent, is_static: bool) -> Self {
        match transform::transforms_in(message.payload) {
            Ok(transforms) => TransformControllerContent {
                state: self.state.applied(transforms, message.arrival_time, is_static),
                decoded: schedule::counted(self.decoded),
                ..self
            },
            Err(_) => TransformControllerContent {
                errors: schedule::counted(self.errors),
                ..self
            },
        }
    }

    /// The controller once a message came in. A message of another stream changes nothing.
    pub open spec fn processed(self, message: RawContent) -> Self {
        match self.kind(message.stream_id) {
            Some(is_static) => self.decoded_message(message, is_static),
            None => self,
        }
    }

    /// The controller before a restore: no transforms.
    pub open spec fn reset(self) -> Self {
        TransformControllerContent { state: self.state.cleared(), ..self }
    }

    pub open spec fn counters(self) -> ProcessingCounters {
        ProcessingCounters {
            decoded: self.decoded,
            errors: self.errors,
            unknown_streams: 0,
            dropped: 0,
        }
    }
}

impl TransformController {
    pub closed spec fn content(&self) -> TransformControllerContent {
        TransformControllerContent {
            dynamic_stream: self.dynamic_stream,
            static_stream: self.static_stream,
            state: self.state.content(),
            decoded: self.decoded,
            errors: self.errors,
        }
    }

    pub closed spec fn well_formed(&self) -> bool {
        self.state.well_formed()
    }

    /// A seek reads as much history as playback keeps.
    pub fn dynamic_restore_semantics() -> (semantics: RestoreSemantics)
        ensures
            semantics == RestoreSemantics::History(DYNAMIC_TF_HISTORY_NS),
    {
        RestoreSemantics::History(DYNAMIC_TF_HISTORY_NS)
    }

    /// A seek needs every static transform up to its target.
    pub fn static_restore_semantics() -> (semantics: RestoreSemantics)
        ensures
            semantics == RestoreSemantics::Persistent,
    {
        RestoreSemantics::Persistent
    }

    pub fn new(plan: &SessionPlan) -> (controller: Self)
        ensures
            controller.well_formed(),
            controller.content() == TransformControllerContent::fresh(plan.content()),
    {
        TransformController {
            dynamic_stream: plan.stream_to(DomainTarget::Transforms { is_static: false }),
            static_stream: plan.stream_to(DomainTarget::Transforms { is_static: true }),
            state: TransformState::default(),
            decoded: 0,
            errors: 0,
        }
    }

    fn kind_of(&self, stream: StreamId) -> (kind: Option<bool>)
        ensures
            kind == self.content().kind(stream),
    {
        if is_stream(self.static_stream, stream) {
            Some(true)
        } else if is_stream(self.dynamic_stream, stream) {
            Some(false)
        } else {
            None
        }
    }

    /// Takes a message of one of the streams, and applies it where it can be decoded.
    pub fn process(&mut self, message: &RawMessage) -> (routed: bool)
        requires
            old(self).well_formed(),
        ensures
            final(self).well_formed(),
            routed == (old(self).content().kind(message.stream_id) is Some),
            final(self).content() == old(self).content().processed(message@),
    {
        match self.kind_of(message.stream_id) {
            Some(is_static) => {
                let _ = self.decode_and_apply(message, is_static);
                true
            },
            None => false,
        }
    }

    /// Takes a message of one of the streams, which must be decodable.
    pub fn restore(&mut self, message: &RawMessage) -> (outcome: Result<bool, DecodeError>)
        requires
            old(self).well_formed(),
        ensures
            final(self).well_formed(),
            final(self).content() == old(self).content().processed(message@),
            match outcome {
                Ok(routed) => routed == (old(self).content().kind(message.stream_id) is Some) && (
                routed ==> transform::transforms_in(message@.payload) is Ok),
                Err(error) => old(self).content().kind(message.stream_id) is Some
                    && transform::transforms_in(message@.payload) == Err::<
                    Seq<TransformContent>,
                    DecodeFault,
                >(error@),
            },
    {
        match self.kind_of(message.stream_id) {
            Some(is_static) => {
                self.decode_and_apply(message, is_static)?;
                Ok(true)
            },
            None => Ok(false),
        }
    }

    fn decode_and_apply(&mut self, message: &RawMessage, is_static: bool) -> (outcome: Result<
        (),
        DecodeError,
    >)
        requires
            old(self).well_formed(),
        ensures
            final(self).well_formed(),
            final(self).content() == old(self).content().decoded_message(message@, is_static),
            match outcome {
                Ok(_) => transform::transforms_in(message@.payload) is Ok,
                Err(error) => transform::transforms_in(message@.payload) == Err::<
                    Seq<TransformContent>,
                    DecodeFault,
                >(error@),
            },
    {
        match decode_tf_message(as_slice(&message.payload)) {
            Ok(transforms) => {
                self.state.apply(
                    TransformBatch { arrival_time: message.arrival_time, is_static, transforms },
                );
                self.decoded = count_up(self.decoded);
                Ok(())
            },
            Err(error) => {
                self.errors = count_up(self.errors);
                Err(error)
            },
        }
    }

    /// Forgets every transform, before a restore to any target.
    pub fn reset_for_restore(&mut self, _target: ArrivalTime)
        requires
            old(self).well_formed(),
        ensures
            final(self).well_formed(),
            final(self).content() == old(self).content().reset(),
    {
        self.state.clear();
    }

    /// The controller that `reset_for_restore` leaves, beside this one.
    pub fn reset_copy(&self) -> (copy: Self)
        ensures
            copy.well_formed(),
            copy.content() == self.content().reset(),
    {
        TransformController {
            dynamic_stream: self.dynamic_stream,
            static_stream: self.static_stream,
            state: self.state.cleared_copy(),
            decoded: self.decoded,
            errors: self.errors,
        }
    }

    pub fn state(&self) -> (state: &TransformState)
        requires
            self.well_formed(),
        ensures
            state.well_formed(),
            state.content() == self.content().state,
    {
        &self.state
    }

    pub fn counters(&self) -> (counters: ProcessingCounters)
        ensures
            counters == self.content().counters(),
    {
        ProcessingCounters {
            decoded: self.decoded,
            errors: self.errors,
            unknown_streams: 0,
            dropped: 0,
        }
    }
}

/// The transforms of the static stream are kept as static ones, those of the other stream as samples of
/// their time, and those of any other stream not at all.
pub proof fn law_transforms_are_kept_by_their_stream(
    controller: TransformControllerContent,
    message: RawContent,
    transforms: Seq<TransformContent>,
)
    requires
        transform::transforms_in(message.payload) == Ok::<Seq<TransformContent>, DecodeFault>(
            transforms,
        ),
        controller.static_stream != controller.dynamic_stream,
        transforms.len() == 1,
        crate::feature::transform::connects(transforms[0]),
    ensures
        ({
            let after = controller.processed(message).state;
            let before = controller.state;
            let child = crate::message::text::frame_name(transforms[0].child_frame_id);
            &&& controller.static_stream == Some(message.stream_id) ==> after.dynamic_edges
                == before.dynamic_edges && after.static_edges.dom().contains(child)
            &&& controller.dynamic_stream == Some(message.stream_id) ==> after.static_edges
                == before.static_edges && after.dynamic_edges.dom().contains(child)
            &&& controller.static_stream != Some(message.stream_id) && controller.dynamic_stream
                != Some(message.stream_id) ==> after == before
        }),
{
    let base = TransformsContent {
        revision: crate::feature::bev::next_revision(controller.state.revision),
        ..controller.state
    };
    let is_static = controller.static_stream == Some(message.stream_id);
    reveal_with_fuel(TransformsContent::with_transforms, 2);
    assert(base.with_transforms(transforms, 0, message.arrival_time, is_static) == base);
}

} // verus!
