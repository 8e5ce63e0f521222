//! Feature-specific transform history and lookup.

use crate::feature::bev::{self, advance_revision};
use crate::feature::id_map::{self, IdMap};
use crate::feature::name_map::NameMap;
use crate::message::cdr::transform::{self, TransformContent, TransformStamped};
use crate::message::float::F64;
use crate::message::norm::{self, is_norm_usable};
use crate::message::text::{self, normalize_frame, same_text};
use crate::message::time::{self, saturating_difference, ArrivalTime, MeasurementTime};
use vstd::prelude::*;

verus! {

/// One policy controls both normal-playback retention and seek history restoration, in
/// nanoseconds.
pub const DYNAMIC_TF_HISTORY_NS: i64 = 1_000_000_000;

/// Most frames that a chain of parents may have.
pub const MAX_CHAIN: usize = 128;

/// Transforms that arrived together.
#[derive(Clone, Debug, PartialEq)]
pub struct TransformBatch {
    pub arrival_time: ArrivalTime,
    pub is_static: bool,
    pub transforms: Vec<TransformStamped>,
}

/// How a frame stands in its parent. The rotation is usable: it can be brought to norm one.
#[derive(Debug, PartialEq)]
pub struct TransformEdge {
    pub parent: String,
    pub translation: [F64; 3],
    /// Quaternion in ROS x, y, z, w order, as it was sent.
    pub rotation: [F64; 4],
    pub arrival_time: ArrivalTime,
}

/// What an edge holds.
pub struct EdgeContent {
    pub parent: Seq<char>,
    pub numbers: Seq<F64>,
    pub arrival_time: ArrivalTime,
}

impl View for TransformEdge {
    type V = EdgeContent;

    open spec fn view(&self) -> EdgeContent {
        EdgeContent {
            parent: self.parent@,
            numbers: self.translation@ + self.rotation@,
            arrival_time: self.arrival_time,
        }
    }
}

impl Clone for TransformEdge {
    fn clone(&self) -> (copy: Self)
        ensures
            copy@ == self@,
    {
        TransformEdge {
            parent: self.parent.clone(),
            translation: self.translation,
            rotation: self.rotation,
            arrival_time: self.arrival_time,
        }
    }
}

/// The content of an edge, as a function.
pub open spec fn edge_content() -> spec_fn(TransformEdge) -> EdgeContent {
    |edge: TransformEdge| edge@
}

/// What a transform state holds. Static edges are timeless; the dynamic edges of a frame are in
/// order of their measurement times.
pub struct TransformsContent {
    pub static_edges: Map<Seq<char>, EdgeContent>,
    pub dynamic_edges: Map<Seq<char>, Seq<(i64, EdgeContent)>>,
    pub revision: u64,
}

/// Every component is finite, and the norm can be divided by.
pub open spec fn usable_rotation(numbers: Seq<F64>) -> bool {
    let rotation = numbers.subrange(3, 7);
    transform::all_finite(rotation) && norm::norm_usable(rotation)
}

/// The transform connects two different frames with names by a usable rotation.
pub open spec fn connects(value: TransformContent) -> bool {
    let child = text::frame_name(value.child_frame_id);
    let parent = text::frame_name(value.frame_id);
    child.len() > 0 && parent.len() > 0 && child != parent && usable_rotation(value.numbers)
}

/// The edge that a transform makes.
pub open spec fn edge_of(value: TransformContent, arrival_time: ArrivalTime) -> EdgeContent {
    EdgeContent {
        parent: text::frame_name(value.frame_id),
        numbers: value.numbers,
        arrival_time,
    }
}

/// Nothing that arrived later is in the place.
pub open spec fn replaceable(current: Option<EdgeContent>, arrival_time: ArrivalTime) -> bool {
    match current {
        Some(edge) => edge.arrival_time.0 <= arrival_time.0,
        None => true,
    }
}

/// The history of a frame, as far as it is known.
pub open spec fn history_of(
    edges: Map<Seq<char>, Seq<(i64, EdgeContent)>>,
    child: Seq<char>,
) -> Seq<(i64, EdgeContent)> {
    if edges.dom().contains(child) {
        edges[child]
    } else {
        Seq::empty()
    }
}

/// The entries that arrived at `start` or later.
pub open spec fn retained(history: Seq<(i64, EdgeContent)>, start: i64) -> Seq<(i64, EdgeContent)>
    decreases history.len(),
{
    if history.len() == 0 {
        Seq::empty()
    } else if history.last().1.arrival_time.0 >= start {
        retained(history.drop_last(), start).push(history.last())
    } else {
        retained(history.drop_last(), start)
    }
}

/// The history with an edge of a measurement time, and without what is too old.
pub open spec fn with_sample(
    history: Seq<(i64, EdgeContent)>,
    measured: i64,
    edge: EdgeContent,
) -> Seq<(i64, EdgeContent)> {
    let extended = if replaceable(id_map::lookup(history, measured), edge.arrival_time) {
        id_map::inserted(history, measured, edge)
    } else {
        history
    };
    retained(extended, time::saturated(edge.arrival_time.0 - DYNAMIC_TF_HISTORY_NS))
}

/// The first place of a frame in a list that holds it.
pub open spec fn place_in(frames: Seq<Seq<char>>, frame: Seq<char>) -> int
    decreases frames.len(),
{
    if frames.len() == 0 || frames[0] == frame {
        0
    } else {
        1 + place_in(frames.drop_first(), frame)
    }
}

impl TransformsContent {
    /// The state with one transform of a batch.
    pub open spec fn with_transform(
        self,
        value: TransformContent,
        arrival_time: ArrivalTime,
        is_static: bool,
    ) -> TransformsContent {
        let child = text::frame_name(value.child_frame_id);
        let edge = edge_of(value, arrival_time);
        if !connects(value) {
            self
        } else if is_static {
            let current = if self.static_edges.dom().contains(child) {
                Some(self.static_edges[child])
            } else {
                None
            };
            if replaceable(current, arrival_time) {
                TransformsContent { static_edges: self.static_edges.insert(child, edge), ..self }
            } else {
                self
            }
        } else {
            TransformsContent {
                dynamic_edges: self.dynamic_edges.insert(
                    child,
                    with_sample(
                        history_of(self.dynamic_edges, child),
                        value.measurement_time.0,
                        edge,
                    ),
                ),
                ..self
            }
        }
    }

    /// The state with the first `count` transforms of a batch.
    pub open spec fn with_transforms(
        self,
        values: Seq<TransformContent>,
        count: int,
        arrival_time: ArrivalTime,
        is_static: bool,
    ) -> TransformsContent
        decreases count,
    {
        if count <= 0 {
            self
        } else {
            self.with_transforms(values, count - 1, arrival_time, is_static).with_transform(
                values[count - 1],
                arrival_time,
                is_static,
            )
        }
    }

    /// The state once a batch was applied.
    pub open spec fn applied(
        self,
        values: Seq<TransformContent>,
        arrival_time: ArrivalTime,
        is_static: bool,
    ) -> TransformsContent {
        TransformsContent {
            revision: bev::next_revision(self.revision),
            ..self
        }.with_transforms(values, values.len() as int, arrival_time, is_static)
    }

    /// The state without any edge.
    pub open spec fn cleared(self) -> TransformsContent {
        TransformsContent {
            static_edges: Map::empty(),
            dynamic_edges: Map::empty(),
            revision: bev::next_revision(self.revision),
        }
    }

    /// How a frame stands in its parent: at or immediately before a measurement time, or at the
    /// latest one; where nothing was measured so early, as its static edge says.
    pub open spec fn edge(self, child: Seq<char>, measured: Option<MeasurementTime>) -> Option<
        EdgeContent,
    > {
        let history = history_of(self.dynamic_edges, child);
        let sample = match measured {
            Some(limit) => id_map::floor(history, limit.0),
            None => if history.len() > 0 {
                Some(history.last().1)
            } else {
                None
            },
        };
        if sample is Some {
            sample
        } else if self.static_edges.dom().contains(child) {
            Some(self.static_edges[child])
        } else {
            None
        }
    }

    /// The frames from one up to its root, with the edge that leads on from each but the last.
    /// There is no such chain where it would have more than `limit` frames.
    pub open spec fn chain(
        self,
        frame: Seq<char>,
        measured: Option<MeasurementTime>,
        limit: nat,
    ) -> Option<(Seq<Seq<char>>, Seq<EdgeContent>)>
        decreases limit,
    {
        if limit == 0 {
            None
        } else {
            match self.edge(frame, measured) {
                None => Some((seq![frame], Seq::empty())),
                Some(edge) => match self.chain(edge.parent, measured, (limit - 1) as nat) {
                    None => None,
                    Some((frames, edges)) => Some((seq![frame] + frames, seq![edge] + edges)),
                },
            }
        }
    }

    /// The edges from a frame up to the first frame that is among `frames`, and that frame's
    /// place in them, where it is met within `limit` frames.
    pub open spec fn climb(
        self,
        frame: Seq<char>,
        measured: Option<MeasurementTime>,
        frames: Seq<Seq<char>>,
        limit: nat,
    ) -> Option<(Seq<EdgeContent>, int)>
        decreases limit,
    {
        if limit == 0 {
            None
        } else if frames.contains(frame) {
            Some((Seq::empty(), place_in(frames, frame)))
        } else {
            match self.edge(frame, measured) {
                None => None,
                Some(edge) => match self.climb(
                    edge.parent,
                    measured,
                    frames,
                    (limit - 1) as nat,
                ) {
                    None => None,
                    Some((edges, place)) => Some((seq![edge] + edges, place)),
                },
            }
        }
    }

    /// The way from one frame to another through the first frame that both descend from: the
    /// edges up from the source, and those up from the target.
    pub open spec fn route(
        self,
        source: Seq<char>,
        target: Seq<char>,
        measured: Option<MeasurementTime>,
    ) -> Option<(Seq<EdgeContent>, Seq<EdgeContent>)> {
        let source = text::frame_name(source);
        let target = text::frame_name(target);
        if source == target {
            Some((Seq::empty(), Seq::empty()))
        } else {
            match self.chain(source, measured, MAX_CHAIN as nat) {
                None => None,
                Some((frames, edges)) => match self.climb(
                    target,
                    measured,
                    frames,
                    MAX_CHAIN as nat,
                ) {
                    None => None,
                    Some((down, place)) => Some((edges.take(place), down)),
                },
            }
        }
    }

    /// Every history is in order of its measurement times.
    pub open spec fn valid(self) -> bool {
        forall|child: Seq<char>|
            #![trigger self.dynamic_edges[child]]
            self.dynamic_edges.dom().contains(child) ==> id_map::ascending(
                self.dynamic_edges[child],
            )
    }
}

proof fn lemma_retained(history: Seq<(i64, EdgeContent)>, start: i64)
    requires
        id_map::ascending(history),
    ensures
        id_map::ascending(retained(history, start)),
        forall|i: int|
            0 <= i < retained(history, start).len() ==> (
            #[trigger] retained(history, start)[i]).1.arrival_time.0 >= start
                && history.contains(retained(history, start)[i]),
        forall|i: int|
            0 <= i < history.len() && (#[trigger] history[i]).1.arrival_time.0 >= start
                ==> retained(history, start).contains(history[i]),
    decreases history.len(),
{
    if history.len() > 0 {
        let front = history.drop_last();
        assert forall|i: int, j: int| 0 <= i < j < front.len() implies (#[trigger] front[i]).0 < (
        #[trigger] front[j]).0 by {
            assert(history[i].0 < history[j].0);
        }
        lemma_retained(front, start);
        let kept = retained(front, start);
        let all = retained(history, start);
        assert forall|i: int| 0 <= i < kept.len() implies (#[trigger] kept[i]).0
            < history.last().0 by {
            assert(front.contains(kept[i]));
            let k = choose|k: int| 0 <= k < front.len() && front[k] == kept[i];
            assert(history[k].0 < history[history.len() - 1].0);
        }
        assert forall|i: int| 0 <= i < all.len() implies (
        #[trigger] all[i]).1.arrival_time.0 >= start && history.contains(all[i]) by {
            if i < kept.len() {
                assert(all[i] == kept[i]);
                assert(front.contains(kept[i]));
                let k = choose|k: int| 0 <= k < front.len() && front[k] == kept[i];
                assert(history[k] == all[i]);
            } else {
                assert(history[history.len() - 1] == all[i]);
            }
        }
        assert forall|i: int|
            0 <= i < history.len() && (#[trigger] history[i]).1.arrival_time.0
                >= start implies all.contains(history[i]) by {
            if i < front.len() {
                assert(front[i] == history[i]);
                assert(kept.contains(front[i]));
                let k = choose|k: int| 0 <= k < kept.len() && kept[k] == front[i];
                assert(all[k] == history[i]);
            } else {
                assert(all[all.len() - 1] == history[i]);
            }
        }
    }
}

/// What playback keeps of a frame's history arrived no longer before the newest sample than what
/// a seek restores.
pub proof fn law_history_is_bounded(
    history: Seq<(i64, EdgeContent)>,
    measured: i64,
    edge: EdgeContent,
)
    requires
        id_map::ascending(history),
    ensures
        forall|i: int|
            0 <= i < with_sample(history, measured, edge).len() ==> (#[trigger] with_sample(
                history,
                measured,
                edge,
            )[i]).1.arrival_time.0 >= edge.arrival_time.0 - DYNAMIC_TF_HISTORY_NS,
        id_map::lookup(history, measured) is None ==> with_sample(
            history,
            measured,
            edge,
        ).contains((measured, edge)),
{
    id_map::lemma_inserted(history, measured, edge);
    id_map::lemma_rank(history, measured);
    let extended = if replaceable(id_map::lookup(history, measured), edge.arrival_time) {
        id_map::inserted(history, measured, edge)
    } else {
        history
    };
    let start = time::saturated(edge.arrival_time.0 - DYNAMIC_TF_HISTORY_NS);
    lemma_retained(extended, start);
    if id_map::lookup(history, measured) is None {
        let place = id_map::rank_of(history, measured);
        assert(extended[place] == (measured, edge));
    }
}

/// No dynamic sample of the future is used: at a measurement time, a frame stands as its newest
/// sample at or before that time says, or, where there is none, as its static edge.
pub proof fn law_no_future_sample(
    state: TransformsContent,
    child: Seq<char>,
    measured: MeasurementTime,
)
    requires
        state.valid(),
    ensures
        ({
            let history = history_of(state.dynamic_edges, child);
            match state.edge(child, Some(measured)) {
                Some(edge) => (exists|i: int|
                    0 <= i < history.len() && (#[trigger] history[i]).1 == edge && history[i].0
                        <= measured.0 && forall|j: int|
                        i < j < history.len() ==> (#[trigger] history[j]).0 > measured.0) || (
                state.static_edges.dom().contains(child) && edge == state.static_edges[child]
                    && forall|i: int|
                    0 <= i < history.len() ==> (#[trigger] history[i]).0 > measured.0),
                None => !state.static_edges.dom().contains(child) && forall|i: int|
                    0 <= i < history.len() ==> (#[trigger] history[i]).0 > measured.0,
            }
        }),
{
    let history = history_of(state.dynamic_edges, child);
    if state.dynamic_edges.dom().contains(child) {
        assert(id_map::ascending(state.dynamic_edges[child]));
    }
    id_map::lemma_floor(history, measured.0);
}

/// Static and dynamic transforms of one session.
#[derive(Clone, Debug)]
pub struct TransformState {
    static_edges: NameMap<TransformEdge>,
    dynamic_edges: NameMap<IdMap<TransformEdge>>,
    revision: u64,
}

/// The way from one frame to another: the edges up from the source to the first common frame,
/// and the edges up from the target to it.
#[derive(Clone, Debug, PartialEq)]
pub struct TransformRoute {
    pub up: Vec<TransformEdge>,
    pub down: Vec<TransformEdge>,
}

/// What each edge of a list holds.
pub open spec fn edge_contents(edges: Seq<TransformEdge>) -> Seq<EdgeContent> {
    edges.map_values(|edge: TransformEdge| edge@)
}

impl View for TransformRoute {
    type V = (Seq<EdgeContent>, Seq<EdgeContent>);

    open spec fn view(&self) -> (Seq<EdgeContent>, Seq<EdgeContent>) {
        (edge_contents(self.up@), edge_contents(self.down@))
    }
}

impl TransformState {
    pub closed spec fn content(&self) -> TransformsContent {
        TransformsContent {
            static_edges: self.static_edges@.map_values(|edge: TransformEdge| edge@),
            dynamic_edges: self.dynamic_edges@.map_values(
                |history: IdMap<TransformEdge>|
                    id_map::mapped(history.entries(), edge_content()),
            ),
            revision: self.revision,
        }
    }

    pub closed spec fn well_formed(&self) -> bool {
        &&& self.static_edges.well_formed()
        &&& self.dynamic_edges.well_formed()
        &&& forall|child: Seq<char>|
            #![trigger self.dynamic_edges@[child]]
            self.dynamic_edges@.dom().contains(child) ==> self.dynamic_edges@[child].well_formed()
    }

    /// The histories of a well-formed state are in order.
    pub proof fn law_histories_are_ordered(&self)
        requires
            self.well_formed(),
        ensures
            self.content().valid(),
    {
        assert forall|child: Seq<char>|
            #![trigger self.content().dynamic_edges[child]]
            self.content().dynamic_edges.dom().contains(child) implies id_map::ascending(
            self.content().dynamic_edges[child],
        ) by {
            assert(self.dynamic_edges@[child].well_formed());
            id_map::lemma_mapped_lookup(
                self.dynamic_edges@[child].entries(),
                edge_content(),
                0,
            );
        }
    }

    pub fn clear(&mut self)
        ensures
            final(self).well_formed(),
            final(self).content() == old(self).content().cleared(),
    {
        self.static_edges.clear();
        self.dynamic_edges.clear();
        self.revision = advance_revision(self.revision);
        assert(self.content().static_edges =~= Map::<Seq<char>, EdgeContent>::empty());
        assert(self.content().dynamic_edges =~= Map::<
            Seq<char>,
            Seq<(i64, EdgeContent)>,
        >::empty());
    }

    /// The state that `clear` leaves, beside this one.
    pub fn cleared_copy(&self) -> (copy: Self)
        ensures
            copy.well_formed(),
            copy.content() == self.content().cleared(),
    {
        let copy = TransformState {
            static_edges: NameMap::new(),
            dynamic_edges: NameMap::new(),
            revision: advance_revision(self.revision),
        };
        assert(copy.content().static_edges =~= Map::<Seq<char>, EdgeContent>::empty());
        assert(copy.content().dynamic_edges =~= Map::<
            Seq<char>,
            Seq<(i64, EdgeContent)>,
        >::empty());
        copy
    }

    /// Applies a batch. Transforms that connect nothing are passed over, and a static transform
    /// or a sample of the same measurement time that arrived later stays.
    pub fn apply(&mut self, batch: TransformBatch)
        requires
            old(self).well_formed(),
        ensures
            final(self).well_formed(),
            final(self).content() == old(self).content().applied(
                transform::contents(batch.transforms@),
                batch.arrival_time,
                batch.is_static,
            ),
    {
        self.revision = advance_revision(self.revision);
        let ghost start = self.content();
        let ghost list = transform::contents(batch.transforms@);
        let mut index: usize = 0;
        while index < batch.transforms.len()
            invariant
                index <= batch.transforms@.len(),
                list == transform::contents(batch.transforms@),
                self.well_formed(),
                self.content() == start.with_transforms(
                    list,
                    index as int,
                    batch.arrival_time,
                    batch.is_static,
                ),
            decreases batch.transforms@.len() - index,
        {
            assert(list[index as int] == batch.transforms@[index as int]@);
            self.apply_one(&batch.transforms[index], batch.arrival_time, batch.is_static);
            index = index + 1;
        }
    }

    fn apply_one(&mut self, value: &TransformStamped, arrival_time: ArrivalTime, is_static: bool)
        requires
            old(self).well_formed(),
        ensures
            final(self).well_formed(),
            final(self).content() == old(self).content().with_transform(
                value@,
                arrival_time,
                is_static,
            ),
    {
        let child: String = normalize_frame(value.child_frame_id.as_str());
        let parent: String = normalize_frame(value.frame_id.as_str());
        let usable: bool = is_usable_rotation(&value.rotation);
        assert(value@.numbers.subrange(3, 7) =~= value.rotation@);
        assert(child@.len() > 0 <==> child@ != Seq::<char>::empty()) by {
            if child@.len() == 0 {
                assert(child@ =~= Seq::<char>::empty());
            }
        }
        if is_empty(child.as_str()) || is_empty(parent.as_str()) || same_text(
            child.as_str(),
            parent.as_str(),
        ) || !usable {
            return;
        }
        let edge = TransformEdge {
            parent,
            translation: value.translation,
            rotation: value.rotation,
            arrival_time,
        };
        assert(edge@ == edge_of(value@, arrival_time));
        if is_static {
            self.apply_static(child, edge);
        } else {
            self.apply_dynamic(child, value.measurement_time.0, edge);
        }
    }

    fn apply_static(&mut self, child: String, edge: TransformEdge)
        requires
            old(self).well_formed(),
        ensures
            final(self).well_formed(),
            final(self).content() == ({
                let before = old(self).content();
                let current = if before.static_edges.dom().contains(child@) {
                    Some(before.static_edges[child@])
                } else {
                    None
                };
                if replaceable(current, edge.arrival_time) {
                    TransformsContent {
                        static_edges: before.static_edges.insert(child@, edge@),
                        ..before
                    }
                } else {
                    before
                }
            }),
    {
        if let Some(current) = self.static_edges.get(child.as_str()) {
            if current.arrival_time.0 > edge.arrival_time.0 {
                return;
            }
        }
        let ghost before = self.content();
        self.static_edges.insert(child, edge);
        assert(self.content().static_edges =~= before.static_edges.insert(child@, edge@));
    }

    fn apply_dynamic(&mut self, child: String, measured: i64, edge: TransformEdge)
        requires
            old(self).well_formed(),
        ensures
            final(self).well_formed(),
            final(self).content() == (TransformsContent {
                dynamic_edges: old(self).content().dynamic_edges.insert(
                    child@,
                    with_sample(
                        history_of(old(self).content().dynamic_edges, child@),
                        measured,
                        edge@,
                    ),
                ),
                ..old(self).content()
            }),
    {
        let ghost before = self.content();
        let ghost old_histories = self.dynamic_edges@;
        let mut history: IdMap<TransformEdge> = match self.dynamic_edges.remove(child.as_str()) {
            Some(history) => history,
            None => {
                let fresh: IdMap<TransformEdge> = IdMap::new();
                assert(id_map::mapped(fresh.entries(), edge_content()) =~= Seq::<
                    (i64, EdgeContent),
                >::empty());
                fresh
            },
        };
        proof {
            assert forall|name: Seq<char>|
                #![trigger self.dynamic_edges@[name]]
                self.dynamic_edges@.dom().contains(
                    name,
                ) implies self.dynamic_edges@[name].well_formed() by {
                assert(old_histories[name].well_formed());
            }
        }
        assert(history.well_formed());
        assert(id_map::mapped(history.entries(), edge_content()) == history_of(
            before.dynamic_edges,
            child@,
        ));
        let start: i64 = saturating_difference(edge.arrival_time.0, DYNAMIC_TF_HISTORY_NS);
        let history: IdMap<TransformEdge> = extend_history(history, measured, edge, start);
        self.dynamic_edges.insert(child, history);
        proof {
            assert(self.content().dynamic_edges =~= before.dynamic_edges.insert(
                child@,
                with_sample(history_of(before.dynamic_edges, child@), measured, edge@),
            ));
        }
    }

    /// Forgets every dynamic transform.
    pub fn clear_dynamic(&mut self)
        requires
            old(self).well_formed(),
        ensures
            final(self).well_formed(),
            final(self).content() == (TransformsContent {
                dynamic_edges: Map::empty(),
                revision: bev::next_revision(old(self).content().revision),
                ..old(self).content()
            }),
    {
        self.dynamic_edges.clear();
        self.revision = advance_revision(self.revision);
        assert(self.content().dynamic_edges =~= Map::<
            Seq<char>,
            Seq<(i64, EdgeContent)>,
        >::empty());
    }

    /// The state that `clear_dynamic` leaves, beside this one.
    pub fn static_copy(&self) -> (copy: Self)
        requires
            self.well_formed(),
        ensures
            copy.well_formed(),
            copy.content() == (TransformsContent {
                dynamic_edges: Map::empty(),
                revision: bev::next_revision(self.content().revision),
                ..self.content()
            }),
    {
        let names: Vec<String> = self.static_edges.names();
        let mut edges: NameMap<TransformEdge> = NameMap::new();
        let mut index: usize = 0;
        while index < names.len()
            invariant
                index <= names@.len(),
                self.well_formed(),
                edges.well_formed(),
                forall|i: int|
                    0 <= i < names@.len() ==> self.static_edges@.dom().contains(
                        (#[trigger] names@[i])@,
                    ),
                forall|i: int| 0 <= i < index ==> edges@.dom().contains((#[trigger] names@[i])@),
                forall|name: Seq<char>| #[trigger]
                    edges@.dom().contains(name) ==> self.static_edges@.dom().contains(name)
                        && edges@[name]@ == self.static_edges@[name]@,
            decreases names@.len() - index,
        {
            let name: &String = &names[index];
            if let Some(edge) = self.static_edges.get(name.as_str()) {
                let copy: TransformEdge = edge.clone();
                let key: String = name.clone();
                edges.insert(key, copy);
            }
            index = index + 1;
        }
        let copy = TransformState {
            static_edges: edges,
            dynamic_edges: NameMap::new(),
            revision: advance_revision(self.revision),
        };
        proof {
            assert(copy.content().static_edges =~= self.content().static_edges) by {
                assert forall|name: Seq<char>| #[trigger]
                    self.static_edges@.dom().contains(name) implies edges@.dom().contains(name) by {
                    let i = choose|i: int|
                        0 <= i < names@.len() && (#[trigger] names@[i])@ == name;
                    assert(edges@.dom().contains(names@[i]@));
                }
            }
            assert(copy.content().dynamic_edges =~= Map::<
                Seq<char>,
                Seq<(i64, EdgeContent)>,
            >::empty());
        }
        copy
    }

    pub fn revision(&self) -> (revision: u64)
        ensures
            revision == self.content().revision,
    {
        self.revision
    }

    /// How many frames have a static edge.
    pub fn static_len(&self) -> (count: usize)
        requires
            self.well_formed(),
        ensures
            count == self.content().static_edges.dom().len(),
    {
        assert(self.content().static_edges.dom() =~= self.static_edges@.dom());
        self.static_edges.len()
    }

    /// How many frames have dynamic edges.
    pub fn dynamic_len(&self) -> (count: usize)
        requires
            self.well_formed(),
        ensures
            count == self.content().dynamic_edges.dom().len(),
    {
        assert(self.content().dynamic_edges.dom() =~= self.dynamic_edges@.dom());
        self.dynamic_edges.len()
    }

    fn edge(&self, child: &str, measured: Option<MeasurementTime>) -> (edge: Option<
        &TransformEdge,
    >)
        requires
            self.well_formed(),
        ensures
            match edge {
                Some(found) => self.content().edge(child@, measured) == Some(found@),
                None => self.content().edge(child@, measured) is None,
            },
    {
        if let Some(history) = self.dynamic_edges.get(child) {
            assert(self.dynamic_edges@[child@].well_formed());
            match measured {
                Some(limit) => {
                    proof {
                        id_map::lemma_mapped_floor(history.entries(), edge_content(), limit.0);
                    }
                    if let Some(found) = history.at_or_before(limit.0) {
                        return Some(found);
                    }
                },
                None => {
                    let count: usize = history.len();
                    if count > 0 {
                        return Some(history.value_at(count - 1));
                    }
                },
            }
        }
        self.static_edges.get(child)
    }

    /// The edges from a frame up to its root, and the frames that they start from, with the root.
    fn ancestors(&self, frame: String, measured: Option<MeasurementTime>) -> (chain: Option<
        (Vec<String>, Vec<TransformEdge>),
    >)
        requires
            self.well_formed(),
        ensures
            match chain {
                Some((frames, edges)) => self.content().chain(frame@, measured, MAX_CHAIN as nat)
                    == Some((names(frames@), edge_contents(edges@))),
                None => self.content().chain(frame@, measured, MAX_CHAIN as nat) is None,
            },
    {
        let ghost state = self.content();
        let mut frames: Vec<String> = Vec::new();
        let mut edges: Vec<TransformEdge> = Vec::new();
        let mut current: String = frame;
        let mut left: usize = MAX_CHAIN;
        assert(names(frames@) =~= Seq::<Seq<char>>::empty());
        assert(edge_contents(edges@) =~= Seq::<EdgeContent>::empty());
        proof {
            lemma_joined_start(state.chain(current@, measured, left as nat));
        }
        while left > 0
            invariant
                left <= MAX_CHAIN,
                self.well_formed(),
                state == self.content(),
                state.chain(frame@, measured, MAX_CHAIN as nat) == joined(
                    names(frames@),
                    edge_contents(edges@),
                    state.chain(current@, measured, left as nat),
                ),
            decreases left,
        {
            let ghost old_frames = names(frames@);
            let ghost old_edges = edge_contents(edges@);
            let found: Option<&TransformEdge> = self.edge(current.as_str(), measured);
            match found {
                None => {
                    frames.push(current);
                    assert(names(frames@) =~= old_frames + seq![current@]);
                    assert(old_edges =~= old_edges + Seq::<EdgeContent>::empty());
                    return Some((frames, edges));
                },
                Some(edge) => {
                    let copy: TransformEdge = edge.clone();
                    let parent: String = edge.parent.clone();
                    edges.push(copy);
                    frames.push(current);
                    proof {
                        assert(names(frames@) =~= old_frames + seq![current@]);
                        assert(edge_contents(edges@) =~= old_edges + seq![edge@]);
                        lemma_joined_step(
                            old_frames,
                            old_edges,
                            current@,
                            edge@,
                            state.chain(parent@, measured, (left - 1) as nat),
                        );
                    }
                    current = parent;
                },
            }
            left = left - 1;
        }
        None
    }

    /// The way from one frame to another, with each dynamic edge at or immediately before a
    /// measurement time, or at its latest one.
    pub fn resolve(
        &self,
        source_frame: &str,
        target_frame: &str,
        measurement_time: Option<MeasurementTime>,
    ) -> (route: Option<TransformRoute>)
        requires
            self.well_formed(),
        ensures
            match route {
                Some(found) => self.content().route(
                    source_frame@,
                    target_frame@,
                    measurement_time,
                ) == Some(found@),
                None => self.content().route(
                    source_frame@,
                    target_frame@,
                    measurement_time,
                ) is None,
            },
    {
        let source: String = normalize_frame(source_frame);
        let target: String = normalize_frame(target_frame);
        if same_text(source.as_str(), target.as_str()) {
            let route = TransformRoute { up: Vec::new(), down: Vec::new() };
            assert(edge_contents(route.up@) =~= Seq::<EdgeContent>::empty());
            assert(edge_contents(route.down@) =~= Seq::<EdgeContent>::empty());
            return Some(route);
        }
        let (frames, mut edges) = match self.ancestors(source, measurement_time) {
            Some(chain) => chain,
            None => return None,
        };
        proof {
            lemma_chain_lengths(self.content(), source@, measurement_time, MAX_CHAIN as nat);
        }
        match self.climb(target, measurement_time, &frames) {
            Some((down, place)) => {
                let ghost before = edges@;
                edges.truncate(place);
                assert(edge_contents(edges@) =~= edge_contents(before).take(place as int));
                Some(TransformRoute { up: edges, down })
            },
            None => None,
        }
    }

    fn climb(&self, frame: String, measured: Option<MeasurementTime>, frames: &Vec<String>) -> (met:
        Option<(Vec<TransformEdge>, usize)>)
        requires
            self.well_formed(),
        ensures
            match met {
                Some((edges, place)) => self.content().climb(
                    frame@,
                    measured,
                    names(frames@),
                    MAX_CHAIN as nat,
                ) == Some((edge_contents(edges@), place as int)) && place < frames@.len(),
                None => self.content().climb(
                    frame@,
                    measured,
                    names(frames@),
                    MAX_CHAIN as nat,
                ) is None,
            },
    {
        let ghost state = self.content();
        let ghost known = names(frames@);
        let mut edges: Vec<TransformEdge> = Vec::new();
        let mut current: String = frame;
        let mut left: usize = MAX_CHAIN;
        assert(edge_contents(edges@) =~= Seq::<EdgeContent>::empty());
        proof {
            lemma_climbed_start(state.climb(current@, measured, known, left as nat));
        }
        while left > 0
            invariant
                left <= MAX_CHAIN,
                self.well_formed(),
                state == self.content(),
                known == names(frames@),
                state.climb(frame@, measured, known, MAX_CHAIN as nat) == climbed(
                    edge_contents(edges@),
                    state.climb(current@, measured, known, left as nat),
                ),
            decreases left,
        {
            let ghost old_edges = edge_contents(edges@);
            if let Some(place) = find_name(frames, current.as_str()) {
                assert(old_edges =~= old_edges + Seq::<EdgeContent>::empty());
                return Some((edges, place));
            }
            match self.edge(current.as_str(), measured) {
                None => return None,
                Some(edge) => {
                    let copy: TransformEdge = edge.clone();
                    let parent: String = edge.parent.clone();
                    edges.push(copy);
                    proof {
                        assert(edge_contents(edges@) =~= old_edges + seq![edge@]);
                        lemma_climbed_step(
                            old_edges,
                            edge@,
                            state.climb(parent@, measured, known, (left - 1) as nat),
                        );
                    }
                    current = parent;
                },
            }
            left = left - 1;
        }
        None
    }
}

impl Default for TransformState {
    fn default() -> (state: Self)
        ensures
            state.well_formed(),
            state.content() == (TransformsContent {
                static_edges: Map::empty(),
                dynamic_edges: Map::empty(),
                revision: 0,
            }),
    {
        let state = TransformState {
            static_edges: NameMap::new(),
            dynamic_edges: NameMap::new(),
            revision: 0,
        };
        assert(state.content().static_edges =~= Map::<Seq<char>, EdgeContent>::empty());
        assert(state.content().dynamic_edges =~= Map::<
            Seq<char>,
            Seq<(i64, EdgeContent)>,
        >::empty());
        state
    }
}

spec fn names(frames: Seq<String>) -> Seq<Seq<char>> {
    frames.map_values(|frame: String| frame@)
}

/// A chain with frames and edges put before it.
spec fn joined(
    frames: Seq<Seq<char>>,
    edges: Seq<EdgeContent>,
    rest: Option<(Seq<Seq<char>>, Seq<EdgeContent>)>,
) -> Option<(Seq<Seq<char>>, Seq<EdgeContent>)> {
    match rest {
        None => None,
        Some((more_frames, more_edges)) => Some((frames + more_frames, edges + more_edges)),
    }
}

proof fn lemma_joined_start(rest: Option<(Seq<Seq<char>>, Seq<EdgeContent>)>)
    ensures
        joined(Seq::empty(), Seq::empty(), rest) == rest,
{
    if let Some((frames, edges)) = rest {
        assert(Seq::<Seq<char>>::empty() + frames =~= frames);
        assert(Seq::<EdgeContent>::empty() + edges =~= edges);
    }
}

proof fn lemma_joined_step(
    frames: Seq<Seq<char>>,
    edges: Seq<EdgeContent>,
    frame: Seq<char>,
    edge: EdgeContent,
    rest: Option<(Seq<Seq<char>>, Seq<EdgeContent>)>,
)
    ensures
        joined(frames, edges, joined(seq![frame], seq![edge], rest)) == joined(
            frames + seq![frame],
            edges + seq![edge],
            rest,
        ),
{
    if let Some((more_frames, more_edges)) = rest {
        assert(frames + (seq![frame] + more_frames) =~= (frames + seq![frame]) + more_frames);
        assert(edges + (seq![edge] + more_edges) =~= (edges + seq![edge]) + more_edges);
    }
}

/// A climb with edges put before it.
spec fn climbed(edges: Seq<EdgeContent>, rest: Option<(Seq<EdgeContent>, int)>) -> Option<
    (Seq<EdgeContent>, int),
> {
    match rest {
        None => None,
        Some((more, place)) => Some((edges + more, place)),
    }
}

proof fn lemma_climbed_start(rest: Option<(Seq<EdgeContent>, int)>)
    ensures
        climbed(Seq::empty(), rest) == rest,
{
    if let Some((edges, place)) = rest {
        assert(Seq::<EdgeContent>::empty() + edges =~= edges);
    }
}

proof fn lemma_climbed_step(
    edges: Seq<EdgeContent>,
    edge: EdgeContent,
    rest: Option<(Seq<EdgeContent>, int)>,
)
    ensures
        climbed(edges, climbed(seq![edge], rest)) == climbed(edges + seq![edge], rest),
{
    if let Some((more, place)) = rest {
        assert(edges + (seq![edge] + more) =~= (edges + seq![edge]) + more);
    }
}

/// A chain has one frame more than edges.
proof fn lemma_chain_lengths(
    state: TransformsContent,
    frame: Seq<char>,
    measured: Option<MeasurementTime>,
    limit: nat,
)
    ensures
        state.chain(frame, measured, limit) matches Some((frames, edges)) ==> frames.len()
            == edges.len() + 1,
    decreases limit,
{
    if limit > 0 {
        if let Some(edge) = state.edge(frame, measured) {
            lemma_chain_lengths(state, edge.parent, measured, (limit - 1) as nat);
        }
    }
}

fn is_empty(name: &str) -> (empty: bool)
    ensures
        empty == (name@.len() == 0),
{
    let letters: Vec<char> = text::characters(name);
    letters.len() == 0
}

fn find_name(frames: &Vec<String>, name: &str) -> (place: Option<usize>)
    ensures
        match place {
            Some(index) => index < frames@.len() && names(frames@).contains(name@) && index
                == place_in(names(frames@), name@),
            None => !names(frames@).contains(name@),
        },
{
    let ghost known = names(frames@);
    let mut index: usize = 0;
    while index < frames.len()
        invariant
            index <= frames@.len(),
            known == names(frames@),
            forall|i: int| 0 <= i < index ==> #[trigger] known[i] != name@,
        decreases frames@.len() - index,
    {
        assert(known[index as int] == frames@[index as int]@);
        if same_text(frames[index].as_str(), name) {
            proof {
                assert(known.contains(name@));
                lemma_first_index(known, name@, index as int);
            }
            return Some(index);
        }
        index = index + 1;
    }
    None
}

proof fn lemma_first_index(known: Seq<Seq<char>>, name: Seq<char>, index: int)
    requires
        0 <= index < known.len(),
        known[index] == name,
        forall|i: int| 0 <= i < index ==> #[trigger] known[i] != name,
    ensures
        index == place_in(known, name),
    decreases index,
{
    if index > 0 {
        assert(known[0] != name);
        let rest = known.drop_first();
        assert forall|i: int| 0 <= i < index - 1 implies #[trigger] rest[i] != name by {
            assert(known[i + 1] != name);
        }
        lemma_first_index(rest, name, index - 1);
    }
}

/// Whether every component is finite and the norm can be divided by.
fn is_usable_rotation(rotation: &[F64; 4]) -> (usable: bool)
    ensures
        usable == (transform::all_finite(rotation@) && norm::norm_usable(rotation@)),
{
    let mut index: usize = 0;
    while index < 4
        invariant
            index <= 4,
            forall|i: int| 0 <= i < index ==> (#[trigger] rotation@[i]).spec_finite(),
        decreases 4 - index,
    {
        if !rotation[index].is_finite() {
            assert(!rotation@[index as int].spec_finite());
            return false;
        }
        index = index + 1;
    }
    is_norm_usable(rotation.as_slice())
}

/// The history with an edge of a measurement time, unless one that arrived later is there, and
/// without what arrived before `start`.
fn extend_history(
    history: IdMap<TransformEdge>,
    measured: i64,
    edge: TransformEdge,
    start: i64,
) -> (extended: IdMap<TransformEdge>)
    requires
        history.well_formed(),
        start == time::saturated(edge.arrival_time.0 - DYNAMIC_TF_HISTORY_NS),
    ensures
        extended.well_formed(),
        id_map::mapped(extended.entries(), edge_content()) == with_sample(
            id_map::mapped(history.entries(), edge_content()),
            measured,
            edge@,
        ),
{
    let mut history: IdMap<TransformEdge> = history;
    proof {
        id_map::lemma_mapped_lookup(history.entries(), edge_content(), measured);
        id_map::lemma_mapped_inserted(history.entries(), edge_content(), measured, edge);
    }
    let replace: bool = match history.get(measured) {
        Some(current) => current.arrival_time.0 <= edge.arrival_time.0,
        None => true,
    };
    if replace {
        history.insert(measured, edge);
    }
    retain_since(&history, start)
}

/// The entries that arrived at `start` or later.
fn retain_since(history: &IdMap<TransformEdge>, start: i64) -> (kept: IdMap<TransformEdge>)
    requires
        history.well_formed(),
    ensures
        kept.well_formed(),
        id_map::mapped(kept.entries(), edge_content()) == retained(
            id_map::mapped(history.entries(), edge_content()),
            start,
        ),
{
    let ghost all = history.entries();
    let ghost whole = id_map::mapped(all, edge_content());
    let mut kept: IdMap<TransformEdge> = IdMap::new();
    let mut index: usize = 0;
    assert(whole.take(0) =~= Seq::<(i64, EdgeContent)>::empty());
    assert(id_map::mapped(kept.entries(), edge_content()) =~= retained(whole.take(0), start));
    while index < history.len()
        invariant
            index <= all.len(),
            all == history.entries(),
            id_map::ascending(all),
            whole == id_map::mapped(all, edge_content()),
            kept.well_formed(),
            id_map::mapped(kept.entries(), edge_content()) == retained(
                whole.take(index as int),
                start,
            ),
            forall|i: int|
                0 <= i < kept.entries().len() ==> exists|k: int|
                    0 <= k < index && all[k].0 == (#[trigger] kept.entries()[i]).0,
        decreases all.len() - index,
    {
        let key: i64 = history.key_at(index);
        let value: &TransformEdge = history.value_at(index);
        let ghost before = kept.entries();
        proof {
            assert(whole.take(index + 1).drop_last() =~= whole.take(index as int));
            assert(whole.take(index + 1).last() == (key, value@));
            assert forall|i: int| 0 <= i < before.len() implies (#[trigger] before[i]).0 < key by {
                let k = choose|k: int| 0 <= k < index && all[k].0 == before[i].0;
                assert(all[k].0 < all[index as int].0);
            }
        }
        if value.arrival_time.0 >= start {
            let copy: TransformEdge = value.clone();
            kept.push(key, copy);
            proof {
                assert(id_map::mapped(kept.entries(), edge_content()) =~= id_map::mapped(
                    before,
                    edge_content(),
                ).push((key, value@)));
            }
        }
        proof {
            assert forall|i: int| 0 <= i < kept.entries().len() implies exists|k: int|
                0 <= k < index + 1 && all[k].0 == (#[trigger] kept.entries()[i]).0 by {
                if i < before.len() {
                    assert(kept.entries()[i] == before[i]);
                    let k = choose|k: int| 0 <= k < index && all[k].0 == before[i].0;
                    assert(all[k].0 == kept.entries()[i].0);
                } else {
                    assert(all[index as int].0 == kept.entries()[i].0);
                }
            }
        }
        index = index + 1;
    }
    assert(whole.take(whole.len() as int) =~= whole);
    kept
}

proof fn lemma_others_stay(
    state: TransformsContent,
    values: Seq<TransformContent>,
    from: int,
    to: int,
    arrival_time: ArrivalTime,
    is_static: bool,
    child: Seq<char>,
)
    requires
        0 <= from <= to <= values.len(),
        forall|i: int|
            from <= i < to ==> text::frame_name((#[trigger] values[i]).child_frame_id) != child,
    ensures
        ({
            let before = state.with_transforms(values, from, arrival_time, is_static);
            let after = state.with_transforms(values, to, arrival_time, is_static);
            &&& after.static_edges.dom().contains(child) == before.static_edges.dom().contains(
                child,
            )
            &&& after.static_edges.dom().contains(child) ==> after.static_edges[child]
                == before.static_edges[child]
            &&& history_of(after.dynamic_edges, child) == history_of(before.dynamic_edges, child)
        }),
    decreases to - from,
{
    if from < to {
        lemma_others_stay(state, values, from, to - 1, arrival_time, is_static, child);
        assert(text::frame_name(values[to - 1].child_frame_id) != child);
    }
}

/// The history of a frame with a sample shows that sample at its measurement time.
proof fn lemma_sample_is_shown(history: Seq<(i64, EdgeContent)>, measured: i64, edge: EdgeContent)
    requires
        id_map::ascending(history),
        id_map::lookup(history, measured) matches Some(current) ==> current.arrival_time.0
            <= edge.arrival_time.0,
    ensures
        id_map::floor(with_sample(history, measured, edge), measured) == Some(edge),
{
    let extended = id_map::inserted(history, measured, edge);
    let start = time::saturated(edge.arrival_time.0 - DYNAMIC_TF_HISTORY_NS);
    let kept = retained(extended, start);
    id_map::lemma_inserted(history, measured, edge);
    id_map::lemma_lookup(extended, measured);
    lemma_retained(extended, start);
    let place = choose|i: int| 0 <= i < extended.len() && (#[trigger] extended[i]).0 == measured;
    assert(extended[place] == (measured, edge));
    assert(kept.contains(extended[place]));
    let at = choose|i: int| 0 <= i < kept.len() && kept[i] == (measured, edge);
    id_map::lemma_rank(kept, measured);
    let rank = id_map::rank_of(kept, measured);
    if at < rank {
        assert(kept[at].0 < measured);
    } else if rank < at {
        assert(kept[rank].0 < kept[at].0);
    }
}

/// A transform of a batch that connects two frames stands in the state as it was sent: under the name
/// of its child frame, with the name of its parent frame, its translation x, y, z, its rotation x, y,
/// z, w and its arrival. A static one is found at every time without a sample, a sample at its
/// measurement time. What arrived later stays.
#[verifier::rlimit(60)]
pub proof fn law_transforms_stand_as_sent(
    state: TransformsContent,
    values: Seq<TransformStamped>,
    index: int,
    arrival_time: ArrivalTime,
    is_static: bool,
    edge: TransformEdge,
)
    requires
        state.valid(),
        0 <= index < values.len(),
        connects(values[index]@),
        forall|i: int|
            0 <= i < values.len() && i != index ==> text::frame_name(
                (#[trigger] values[i]).child_frame_id@,
            ) != text::frame_name(values[index].child_frame_id@),
    ensures
        ({
            let sent = values[index];
            let child = text::frame_name(sent.child_frame_id@);
            let after = state.applied(transform::contents(values), arrival_time, is_static);
            let history = history_of(state.dynamic_edges, child);
            let shown = if is_static {
                after.static_edges[child]
            } else {
                after.edge(child, Some(sent.measurement_time))->0
            };
            let current = if is_static {
                if state.static_edges.dom().contains(child) {
                    Some(state.static_edges[child])
                } else {
                    None
                }
            } else {
                id_map::lookup(history, sent.measurement_time.0)
            };
            let newest = match current {
                Some(old) => old.arrival_time.0 <= arrival_time.0,
                None => true,
            };
            &&& is_static ==> after.static_edges.dom().contains(child)
            &&& !is_static && newest ==> after.edge(child, Some(sent.measurement_time)) is Some
            &&& is_static && !newest ==> shown == current->0
            &&& newest && shown == edge@ ==> {
                &&& edge.parent@ == text::frame_name(sent.frame_id@)
                &&& edge.translation@ == sent.translation@
                &&& edge.rotation@ == sent.rotation@
                &&& edge.arrival_time == arrival_time
            }
        }),
{
    let list = transform::contents(values);
    let sent = values[index];
    let child = text::frame_name(sent.child_frame_id@);
    let base = TransformsContent { revision: bev::next_revision(state.revision), ..state };
    let length = list.len() as int;
    assert(list[index] == sent@);
    assert forall|i: int| 0 <= i < length && i != index implies text::frame_name(
        (#[trigger] list[i]).child_frame_id,
    ) != child by {
        assert(list[i] == values[i]@);
    }
    lemma_others_stay(base, list, 0, index, arrival_time, is_static, child);
    lemma_others_stay(base, list, index + 1, length, arrival_time, is_static, child);
    let history = history_of(state.dynamic_edges, child);
    if state.dynamic_edges.dom().contains(child) {
        assert(id_map::ascending(state.dynamic_edges[child]));
    }
    let expected = edge_of(sent@, arrival_time);
    if !is_static && replaceable(
        id_map::lookup(history, sent.measurement_time.0),
        arrival_time,
    ) {
        lemma_sample_is_shown(history, sent.measurement_time.0, expected);
    }
    if edge@ == expected {
        let numbers = edge.translation@ + edge.rotation@;
        let given = sent.translation@ + sent.rotation@;
        assert(numbers == given);
        assert forall|i: int| 0 <= i < 3 implies edge.translation@[i] == sent.translation@[i] by {
            assert(numbers[i] == given[i]);
        }
        assert forall|i: int| 0 <= i < 4 implies edge.rotation@[i] == sent.rotation@[i] by {
            assert(numbers[3 + i] == given[3 + i]);
        }
        assert(edge.translation@ =~= sent.translation@);
        assert(edge.rotation@ =~= sent.rotation@);
    }
}

/// A batch keeps the samples of its frame that arrived within a second before it, and drops the
/// earlier ones.
#[verifier::rlimit(60)]
pub proof fn law_a_second_of_samples_is_kept(
    history: Seq<(i64, EdgeContent)>,
    measured: i64,
    edge: EdgeContent,
    index: int,
)
    requires
        id_map::ascending(history),
        0 <= index < history.len(),
        history[index].0 != measured,
    ensures
        with_sample(history, measured, edge).contains(history[index]) <==> history[index].1.arrival_time.0
            >= edge.arrival_time.0 - 1_000_000_000,
{
    let entry = history[index];
    let extended = if replaceable(id_map::lookup(history, measured), edge.arrival_time) {
        id_map::inserted(history, measured, edge)
    } else {
        history
    };
    let start = time::saturated(edge.arrival_time.0 - DYNAMIC_TF_HISTORY_NS);
    id_map::lemma_inserted(history, measured, edge);
    id_map::lemma_lookup(history, entry.0);
    id_map::lemma_lookup(extended, entry.0);
    assert(id_map::lookup(extended, entry.0) == Some(entry.1));
    let at = choose|i: int| 0 <= i < extended.len() && (#[trigger] extended[i]).0 == entry.0;
    assert(extended[at] == entry);
    lemma_retained(extended, start);
}

/// The frames of a chain are linked by its edges, from a frame up to one without an edge.
pub open spec fn linked(
    state: TransformsContent,
    measured: Option<MeasurementTime>,
    frames: Seq<Seq<char>>,
    edges: Seq<EdgeContent>,
) -> bool {
    &&& frames.len() == edges.len() + 1
    &&& forall|i: int|
        0 <= i < edges.len() ==> state.edge(#[trigger] frames[i], measured) == Some(edges[i])
            && frames[i + 1] == edges[i].parent
}

proof fn lemma_linked_step(
    state: TransformsContent,
    measured: Option<MeasurementTime>,
    frame: Seq<char>,
    edge: EdgeContent,
    frames: Seq<Seq<char>>,
    edges: Seq<EdgeContent>,
)
    requires
        state.edge(frame, measured) == Some(edge),
        linked(state, measured, frames, edges),
        frames[0] == edge.parent,
    ensures
        linked(state, measured, seq![frame] + frames, seq![edge] + edges),
{
    let all = seq![frame] + frames;
    let links = seq![edge] + edges;
    assert forall|i: int| 0 <= i < links.len() implies state.edge(#[trigger] all[i], measured)
        == Some(links[i]) && all[i + 1] == links[i].parent by {
        if i > 0 {
            assert(all[i] == frames[i - 1] && links[i] == edges[i - 1]);
            assert(all[i + 1] == frames[i]);
        }
    }
}

/// A chain starts with its frame, is linked by the edges of its frames, and ends with a frame that
/// has none.
pub proof fn law_chains_lead_to_a_root(
    state: TransformsContent,
    frame: Seq<char>,
    measured: Option<MeasurementTime>,
    limit: nat,
)
    ensures
        state.chain(frame, measured, limit) matches Some((frames, edges)) ==> {
            &&& frames.len() <= limit
            &&& frames[0] == frame
            &&& linked(state, measured, frames, edges)
            &&& state.edge(frames.last(), measured) is None
        },
    decreases limit,
{
    if limit > 0 {
        if let Some(edge) = state.edge(frame, measured) {
            law_chains_lead_to_a_root(state, edge.parent, measured, (limit - 1) as nat);
            if let Some((frames, edges)) = state.chain(edge.parent, measured, (limit - 1) as nat) {
                lemma_linked_step(state, measured, frame, edge, frames, edges);
            }
        }
    }
}

/// Where the edges from a frame on end.
pub open spec fn end_of(frame: Seq<char>, edges: Seq<EdgeContent>) -> Seq<char> {
    if edges.len() == 0 {
        frame
    } else {
        edges.last().parent
    }
}

/// The edges lead from a frame to the parent of the last, each from the parent of the one before.
pub open spec fn leads(
    state: TransformsContent,
    measured: Option<MeasurementTime>,
    frame: Seq<char>,
    edges: Seq<EdgeContent>,
) -> bool {
    forall|i: int|
        0 <= i < edges.len() ==> state.edge(
            if i == 0 {
                frame
            } else {
                edges[i - 1].parent
            },
            measured,
        ) == Some(#[trigger] edges[i])
}

#[verifier::rlimit(60)]
proof fn lemma_climb_leads(
    state: TransformsContent,
    frame: Seq<char>,
    measured: Option<MeasurementTime>,
    frames: Seq<Seq<char>>,
    limit: nat,
)
    ensures
        state.climb(frame, measured, frames, limit) matches Some((edges, place)) ==> {
            &&& 0 <= place < frames.len()
            &&& leads(state, measured, frame, edges)
            &&& frames[place] == end_of(frame, edges)
            &&& forall|i: int|
                0 <= i < edges.len() ==> !frames.contains(
                    if i == 0 {
                        frame
                    } else {
                        (#[trigger] edges[i - 1]).parent
                    },
                )
        },
    decreases limit,
{
    if limit > 0 {
        if frames.contains(frame) {
            lemma_place_in(frames, frame);
        } else if let Some(edge) = state.edge(frame, measured) {
            lemma_climb_leads(state, edge.parent, measured, frames, (limit - 1) as nat);
            if let Some((edges, place)) = state.climb(
                edge.parent,
                measured,
                frames,
                (limit - 1) as nat,
            ) {
                let all = seq![edge] + edges;
                assert forall|i: int| 0 <= i < all.len() implies state.edge(
                    if i == 0 {
                        frame
                    } else {
                        all[i - 1].parent
                    },
                    measured,
                ) == Some(#[trigger] all[i]) by {
                    if i > 0 {
                        assert(all[i] == edges[i - 1]);
                        if i > 1 {
                            assert(all[i - 1] == edges[i - 2]);
                        }
                    }
                }
                assert forall|i: int| 0 <= i < all.len() implies !frames.contains(
                    if i == 0 {
                        frame
                    } else {
                        (#[trigger] all[i - 1]).parent
                    },
                ) by {
                    if i > 1 {
                        assert(all[i - 1] == edges[i - 2]);
                    } else if i == 1 {
                        assert(all[0] == edge);
                        assert(edges[0] == all[1]);
                    }
                }
                if edges.len() > 0 {
                    assert(all.last() == edges.last());
                }
            }
        }
    }
}

proof fn lemma_place_in(frames: Seq<Seq<char>>, frame: Seq<char>)
    requires
        frames.contains(frame),
    ensures
        0 <= place_in(frames, frame) < frames.len(),
        frames[place_in(frames, frame)] == frame,
    decreases frames.len(),
{
    if frames[0] != frame {
        let i = choose|i: int| 0 <= i < frames.len() && frames[i] == frame;
        assert(frames.drop_first()[i - 1] == frame);
        lemma_place_in(frames.drop_first(), frame);
    }
}

/// A route goes up from its source and up from its target to one frame, edge by edge, each edge the
/// one of the frame that it starts from at the time of the route.
#[verifier::spinoff_prover]
#[verifier::rlimit(50)]
pub proof fn law_routes_meet(
    state: TransformsContent,
    source: Seq<char>,
    target: Seq<char>,
    measured: Option<MeasurementTime>,
)
    ensures
        state.route(source, target, measured) matches Some((up, down)) ==> {
            &&& leads(state, measured, text::frame_name(source), up)
            &&& leads(state, measured, text::frame_name(target), down)
            &&& end_of(text::frame_name(source), up) == end_of(text::frame_name(target), down)
        },
{
    let from = text::frame_name(source);
    let to = text::frame_name(target);
    if from != to {
        if let Some((frames, edges)) = state.chain(from, measured, MAX_CHAIN as nat) {
            law_chains_lead_to_a_root(state, from, measured, MAX_CHAIN as nat);
            lemma_climb_leads(state, to, measured, frames, MAX_CHAIN as nat);
            if let Some((down, place)) = state.climb(to, measured, frames, MAX_CHAIN as nat) {
                let up = edges.take(place);
                assert forall|i: int| 0 <= i < up.len() implies state.edge(
                    if i == 0 {
                        from
                    } else {
                        up[i - 1].parent
                    },
                    measured,
                ) == Some(#[trigger] up[i]) by {
                    assert(state.edge(frames[i], measured) == Some(edges[i]));
                    if i > 0 {
                        assert(state.edge(frames[i - 1], measured) == Some(edges[i - 1]));
                        assert(frames[i] == edges[i - 1].parent);
                    }
                }
                if place > 0 {
                    assert(state.edge(frames[place - 1], measured) == Some(edges[place - 1]));
                }
            }
        }
    }
}

/// A frame that stands directly in a root is one edge up from it, and the root one edge down; a frame
/// is no edge away from itself.
#[verifier::rlimit(60)]
pub proof fn law_neighbours_are_one_edge_apart(
    state: TransformsContent,
    child: Seq<char>,
    parent: Seq<char>,
    measured: Option<MeasurementTime>,
)
    requires
        text::frame_name(child) != text::frame_name(parent),
        state.edge(text::frame_name(child), measured) matches Some(edge) && edge.parent
            == text::frame_name(parent),
        state.edge(text::frame_name(parent), measured) is None,
    ensures
        ({
            let edge = state.edge(text::frame_name(child), measured)->0;
            let none = Seq::<EdgeContent>::empty();
            &&& state.route(child, parent, measured) == Some((seq![edge], none))
            &&& state.route(parent, child, measured) == Some((none, seq![edge]))
            &&& state.route(child, child, measured) == Some((none, none))
        }),
{
    let low = text::frame_name(child);
    let high = text::frame_name(parent);
    let edge = state.edge(low, measured)->0;
    let none = Seq::<EdgeContent>::empty();
    reveal_with_fuel(TransformsContent::chain, 3);
    reveal_with_fuel(TransformsContent::climb, 3);
    reveal_with_fuel(place_in, 3);
    let frames = seq![low] + seq![high];
    assert(state.chain(low, measured, 128) == Some((frames, seq![edge] + none)));
    assert(frames[1] == high && frames[0] == low);
    assert(frames.contains(high));
    assert(frames.drop_first()[0] == high);
    assert(place_in(frames, high) == 1);
    assert((seq![edge] + none).take(1) =~= seq![edge]);
    let root = seq![high];
    assert(state.chain(high, measured, 128) == Some((root, none)));
    assert(root[0] == high);
    assert(root.contains(high));
    assert(!root.contains(low));
    assert(place_in(root, high) == 0);
    assert(none.take(0) =~= none);
    assert(seq![edge] + none =~= seq![edge]);
}

/// Two frames that descend from one frame are connected, if neither has more than 127 frames above it.
pub proof fn law_relatives_are_connected(
    state: TransformsContent,
    source: Seq<char>,
    target: Seq<char>,
    measured: Option<MeasurementTime>,
    common: Seq<char>,
)
    requires
        state.chain(text::frame_name(source), measured, 128) matches Some((frames, _))
            && frames.contains(common),
        state.chain(text::frame_name(target), measured, 128) matches Some((frames, _))
            && frames.contains(common),
    ensures
        state.route(source, target, measured) is Some,
{
    let (frames, _) = state.chain(text::frame_name(source), measured, 128)->0;
    lemma_climb_meets(state, text::frame_name(target), measured, frames, 128, common);
}

proof fn lemma_climb_meets(
    state: TransformsContent,
    frame: Seq<char>,
    measured: Option<MeasurementTime>,
    frames: Seq<Seq<char>>,
    limit: nat,
    common: Seq<char>,
)
    requires
        frames.contains(common),
        state.chain(frame, measured, limit) matches Some((own, _)) && own.contains(common),
    ensures
        state.climb(frame, measured, frames, limit) is Some,
    decreases limit,
{
    if !frames.contains(frame) {
        let (own, _) = state.chain(frame, measured, limit)->0;
        let at = choose|i: int| 0 <= i < own.len() && own[i] == common;
        let edge = state.edge(frame, measured)->0;
        let (rest, _) = state.chain(edge.parent, measured, (limit - 1) as nat)->0;
        assert(own[0] == frame);
        assert(state.edge(frame, measured) is Some);
        assert(rest[at - 1] == common);
        lemma_climb_meets(state, edge.parent, measured, frames, (limit - 1) as nat, common);
    }
}

/// A transform between two frames of different names connects them, where the components of its
/// rotation are below two and one of them is not below `2^-10`, as those of a rotation are; one with
/// no rotation at all connects nothing, and neither does one of a frame to itself.
pub proof fn law_rotations_connect_frames(value: TransformStamped, index: int)
    requires
        0 <= index < 4,
    ensures
        text::frame_name(value.child_frame_id@).len() > 0 && text::frame_name(value.frame_id@).len()
            > 0 && text::frame_name(value.child_frame_id@) != text::frame_name(value.frame_id@) && (
        forall|i: int| 0 <= i < 4 ==> (#[trigger] value.rotation@[i]).spec_exponent() <= 1023)
            && value.rotation@[index].spec_exponent() >= 1013 ==> connects(value@),
        (forall|i: int| 0 <= i < 4 ==> (#[trigger] value.rotation@[i]).rank() == 0) ==> !connects(
            value@,
        ),
        text::frame_name(value.child_frame_id@) == text::frame_name(value.frame_id@) ==> !connects(
            value@,
        ),
{
    let rotation = value@.numbers.subrange(3, 7);
    assert(rotation =~= value.rotation@);
    if (forall|i: int| 0 <= i < 4 ==> (#[trigger] value.rotation@[i]).spec_exponent() <= 1023)
        && value.rotation@[index].spec_exponent() >= 1013 {
        norm::law_ordinary_numbers_have_a_norm(rotation, index);
        assert(transform::all_finite(rotation)) by {
            assert forall|i: int| 0 <= i < rotation.len() implies (
            #[trigger] rotation[i]).spec_finite() by {
                assert(value.rotation@[i].spec_exponent() <= 1023);
            }
        }
    }
    if forall|i: int| 0 <= i < 4 ==> (#[trigger] value.rotation@[i]).rank() == 0 {
        norm::law_zeros_have_no_norm(rotation);
    }
}

/// A route that was found leads up from its source and, turned around, down to its target: both lists
/// end in the same frame.
#[verifier::rlimit(60)]
pub proof fn law_found_routes_lead_from_source_to_target(
    state: TransformsContent,
    source: Seq<char>,
    target: Seq<char>,
    measured: Option<MeasurementTime>,
    route: TransformRoute,
)
    requires
        state.route(source, target, measured) == Some(route@),
    ensures
        route.up@.len() > 0 ==> state.edge(text::frame_name(source), measured) == Some(
            route.up@[0]@,
        ),
        route.down@.len() > 0 ==> state.edge(text::frame_name(target), measured) == Some(
            route.down@[0]@,
        ),
        ({
            let top = if route.up@.len() > 0 {
                route.up@.last().parent@
            } else {
                text::frame_name(source)
            };
            let other = if route.down@.len() > 0 {
                route.down@.last().parent@
            } else {
                text::frame_name(target)
            };
            top == other
        }),
        forall|i: int|
            0 < i < route.up@.len() ==> state.edge(route.up@[i - 1].parent@, measured) == Some(
                (#[trigger] route.up@[i])@,
            ),
        forall|i: int|
            0 < i < route.down@.len() ==> state.edge(route.down@[i - 1].parent@, measured) == Some(
                (#[trigger] route.down@[i])@,
            ),
{
    law_routes_meet(state, source, target, measured);
    let up = edge_contents(route.up@);
    let down = edge_contents(route.down@);
    assert(route@ == (up, down));
    assert forall|i: int| 0 < i < route.up@.len() implies state.edge(
        route.up@[i - 1].parent@,
        measured,
    ) == Some((#[trigger] route.up@[i])@) by {
        assert(up[i] == route.up@[i]@ && up[i - 1] == route.up@[i - 1]@);
    }
    assert forall|i: int| 0 < i < route.down@.len() implies state.edge(
        route.down@[i - 1].parent@,
        measured,
    ) == Some((#[trigger] route.down@[i])@) by {
        assert(down[i] == route.down@[i]@ && down[i - 1] == route.down@[i - 1]@);
    }
    if route.up@.len() > 0 {
        assert(up[0] == route.up@[0]@ && up.last() == route.up@.last()@);
    }
    if route.down@.len() > 0 {
        assert(down[0] == route.down@[0]@ && down.last() == route.down@.last()@);
    }
}

/// A transform that is sent into a state without any is found again: the way from its child frame to
/// its frame is one step up, the way back one step down, and the step has the translation and the
/// rotation that were sent, component by component. A sample is found from its measurement time on.
#[verifier::rlimit(60)]
pub proof fn law_sent_transforms_are_found_again(
    revision: u64,
    sent: TransformStamped,
    arrival_time: ArrivalTime,
    is_static: bool,
    measured: Option<MeasurementTime>,
    route: TransformRoute,
    back: TransformRoute,
)
    requires
        connects(sent@),
        !is_static ==> (measured matches Some(time) ==> sent.measurement_time.0 <= time.0),
    ensures
        ({
            let empty = TransformsContent {
                static_edges: Map::empty(),
                dynamic_edges: Map::empty(),
                revision,
            };
            let state = empty.applied(seq![sent@], arrival_time, is_static);
            let (child, parent) = (sent.child_frame_id@, sent.frame_id@);
            &&& state.route(child, parent, measured) is Some
            &&& state.route(parent, child, measured) is Some
            &&& state.route(child, parent, measured) == Some(route@) ==> {
                &&& route.up@.len() == 1
                &&& route.down@.len() == 0
                &&& route.up@[0].translation@ == sent.translation@
                &&& route.up@[0].rotation@ == sent.rotation@
            }
            &&& state.route(parent, child, measured) == Some(back@) ==> {
                &&& back.up@.len() == 0
                &&& back.down@.len() == 1
                &&& back.down@[0].translation@ == sent.translation@
                &&& back.down@[0].rotation@ == sent.rotation@
            }
        }),
{
    let empty = TransformsContent {
        static_edges: Map::empty(),
        dynamic_edges: Map::empty(),
        revision,
    };
    let values = seq![sent@];
    let state = empty.applied(values, arrival_time, is_static);
    let child = text::frame_name(sent.child_frame_id@);
    let parent = text::frame_name(sent.frame_id@);
    let base = TransformsContent { revision: bev::next_revision(revision), ..empty };
    let edge = edge_of(sent@, arrival_time);
    reveal_with_fuel(TransformsContent::with_transforms, 2);
    assert(base.with_transforms(values, 0, arrival_time, is_static) == base);
    assert(state == base.with_transform(sent@, arrival_time, is_static));
    let none = Seq::<(i64, EdgeContent)>::empty();
    let history = with_sample(none, sent.measurement_time.0, edge);
    assert(history_of(base.dynamic_edges, child) =~= none);
    lemma_single_sample(sent.measurement_time.0, edge);
    assert(history =~= seq![(sent.measurement_time.0, edge)]);
    if !is_static {
        assert(state.dynamic_edges.dom().contains(child));
        assert(history_of(state.dynamic_edges, child) == history);
        if let Some(time) = measured {
            reveal_with_fuel(id_map::rank_of, 2);
            assert(id_map::floor(history, time.0) == Some(edge));
        } else {
            assert(history.last().1 == edge);
        }
    } else {
        assert(history_of(state.dynamic_edges, child) =~= none);
        if let Some(time) = measured {
            assert(id_map::floor(none, time.0) is None);
        }
    }
    assert(state.edge(child, measured) == Some(edge));
    assert(history_of(state.dynamic_edges, parent) =~= none);
    assert(state.edge(parent, measured) is None);
    law_neighbours_are_one_edge_apart(state, sent.child_frame_id@, sent.frame_id@, measured);
    if state.route(sent.child_frame_id@, sent.frame_id@, measured) == Some(route@) {
        assert(edge_contents(route.up@).len() == 1 && edge_contents(route.down@).len() == 0);
        assert(edge_contents(route.up@)[0] == route.up@[0]@);
        lemma_same_numbers(route.up@[0], sent);
    }
    if state.route(sent.frame_id@, sent.child_frame_id@, measured) == Some(back@) {
        assert(edge_contents(back.up@).len() == 0 && edge_contents(back.down@).len() == 1);
        assert(edge_contents(back.down@)[0] == back.down@[0]@);
        lemma_same_numbers(back.down@[0], sent);
    }
}

proof fn lemma_single_sample(measured: i64, edge: EdgeContent)
    ensures
        with_sample(Seq::empty(), measured, edge) == seq![(measured, edge)],
{
    let none = Seq::<(i64, EdgeContent)>::empty();
    let one = seq![(measured, edge)];
    assert(id_map::rank_of(none, measured) == 0);
    assert(id_map::lookup(none, measured) is None);
    assert(id_map::inserted(none, measured, edge) =~= one);
    let start = time::saturated(edge.arrival_time.0 - DYNAMIC_TF_HISTORY_NS);
    reveal_with_fuel(retained, 2);
    assert(one.drop_last() =~= none);
    assert(retained(none, start) == none);
    assert(retained(one, start) =~= one);
}

proof fn lemma_same_numbers(edge: TransformEdge, sent: TransformStamped)
    requires
        edge@.numbers == sent@.numbers,
    ensures
        edge.translation@ == sent.translation@,
        edge.rotation@ == sent.rotation@,
{
    let numbers = edge.translation@ + edge.rotation@;
    let given = sent.translation@ + sent.rotation@;
    assert forall|i: int| 0 <= i < 3 implies edge.translation@[i] == sent.translation@[i] by {
        assert(numbers[i] == given[i]);
    }
    assert forall|i: int| 0 <= i < 4 implies edge.rotation@[i] == sent.rotation@[i] by {
        assert(numbers[3 + i] == given[3 + i]);
    }
    assert(edge.translation@ =~= sent.translation@);
    assert(edge.rotation@ =~= sent.rotation@);
}

/// Without a time a frame stands as its latest sample says, the one that was measured last; without
/// samples as its static edge.
pub proof fn law_without_a_time_the_latest_sample_counts(
    state: TransformsContent,
    child: Seq<char>,
    index: int,
)
    requires
        state.valid(),
    ensures
        ({
            let history = history_of(state.dynamic_edges, child);
            &&& 0 <= index < history.len() ==> exists|latest: int|
                index <= latest < history.len() && (#[trigger] history[latest]).0
                    >= history[index].0 && state.edge(child, None) == Some(history[latest].1)
                    && forall|i: int|
                    0 <= i < history.len() ==> (#[trigger] history[i]).0 <= history[latest].0
            &&& history.len() == 0 ==> state.edge(child, None) == if
                state.static_edges.dom().contains(child) {
                Some(state.static_edges[child])
            } else {
                None
            }
        }),
{
    let history = history_of(state.dynamic_edges, child);
    if state.dynamic_edges.dom().contains(child) {
        assert(id_map::ascending(state.dynamic_edges[child]));
    }
    if 0 <= index < history.len() {
        let latest = history.len() - 1;
        assert forall|i: int| 0 <= i < history.len() implies (#[trigger] history[i]).0
            <= history[latest].0 by {
            if i < latest {
                assert(history[i].0 < history[latest].0);
            }
        }
        assert(state.edge(child, None) == Some(history[latest].1));
    }
}

} // verus!
