//! How a textured scene is drawn: which batches, with which pipelines, in which
//! order.

use vstd::prelude::*;

verus! {

/// How the surface of a material mixes with what is behind it.
#[derive(Clone, Copy, Debug, PartialEq, Eq, Hash, Structural)]
pub enum VisualBlend {
    Opaque,
    Alpha,
    AlphaModulate,
    Translucent,
    Modulate,
    Brighten,
    Darken,
    Invisible,
}

/// What a colour is multiplied with before it is added.
#[derive(Clone, Copy, Debug, PartialEq, Eq, Structural)]
pub enum BlendFactor {
    Zero,
    One,
    Src,
    OneMinusSrc,
    SrcAlpha,
    OneMinusSrcAlpha,
    Dst,
}

/// The factors of the surface and of what is behind it. Surfaces that cover
/// what is behind them have none.
pub open spec fn factors_of(blend: VisualBlend) -> Option<(BlendFactor, BlendFactor)> {
    match blend {
        VisualBlend::Opaque | VisualBlend::Invisible => None,
        VisualBlend::Alpha => Some((BlendFactor::SrcAlpha, BlendFactor::OneMinusSrcAlpha)),
        VisualBlend::AlphaModulate => Some((BlendFactor::Dst, BlendFactor::OneMinusSrcAlpha)),
        VisualBlend::Translucent => Some((BlendFactor::One, BlendFactor::OneMinusSrc)),
        VisualBlend::Modulate => Some((BlendFactor::Dst, BlendFactor::Src)),
        VisualBlend::Brighten => Some((BlendFactor::One, BlendFactor::One)),
        VisualBlend::Darken => Some((BlendFactor::Zero, BlendFactor::OneMinusSrc)),
    }
}

/// The factors of the surface and of what is behind it.
pub fn material_blend(blend: VisualBlend) -> (factors: Option<(BlendFactor, BlendFactor)>)
    ensures
        factors == factors_of(blend),
{
    match blend {
        VisualBlend::Opaque => None,
        VisualBlend::Invisible => None,
        VisualBlend::Alpha => Some((BlendFactor::SrcAlpha, BlendFactor::OneMinusSrcAlpha)),
        VisualBlend::AlphaModulate => Some((BlendFactor::Dst, BlendFactor::OneMinusSrcAlpha)),
        VisualBlend::Translucent => Some((BlendFactor::One, BlendFactor::OneMinusSrc)),
        VisualBlend::Modulate => Some((BlendFactor::Dst, BlendFactor::Src)),
        VisualBlend::Brighten => Some((BlendFactor::One, BlendFactor::One)),
        VisualBlend::Darken => Some((BlendFactor::Zero, BlendFactor::OneMinusSrc)),
    }
}

/// What a pipeline is made for. Nothing else of a material needs another one.
#[derive(Clone, Copy, Debug, PartialEq, Eq, Hash, Structural)]
pub struct TexturedPipelineKey {
    pub blend: VisualBlend,
    pub depth_write: bool,
    pub depth_test: bool,
}

/// What is known of a batch of triangles.
#[derive(Clone, Copy, Debug, PartialEq, Eq, Structural)]
pub struct BatchInfo {
    pub index_count: usize,
    pub key: TexturedPipelineKey,
}

/// A batch that is drawn: which one it is, and with which pipeline.
#[derive(Clone, Copy, Debug, PartialEq, Eq, Structural)]
pub struct PlannedBatch {
    pub source: usize,
    pub pipeline: usize,
}

/// How a scene is drawn.
#[derive(Debug)]
pub struct ScenePlan {
    pub batches: Vec<PlannedBatch>,
    pub pipelines: Vec<TexturedPipelineKey>,
    /// The batches that cover what is behind them.
    pub opaque: Vec<usize>,
    /// The batches that mix with what is behind them.
    pub blended: Vec<usize>,
}

/// What a [`ScenePlan`] holds.
#[verifier::ext_equal]
pub struct PlanModel {
    pub batches: Seq<PlannedBatch>,
    pub pipelines: Seq<TexturedPipelineKey>,
    pub opaque: Seq<usize>,
    pub blended: Seq<usize>,
}

impl View for ScenePlan {
    type V = PlanModel;

    open spec fn view(&self) -> PlanModel {
        PlanModel {
            batches: self.batches@,
            pipelines: self.pipelines@,
            opaque: self.opaque@,
            blended: self.blended@,
        }
    }
}

/// Whether a batch is drawn.
pub open spec fn is_drawn(batch: BatchInfo) -> bool {
    batch.index_count > 0 && batch.key.blend != VisualBlend::Invisible
}

/// The pipelines with one for a key.
pub open spec fn with_key(pipelines: Seq<TexturedPipelineKey>, key: TexturedPipelineKey) -> Seq<
    TexturedPipelineKey,
> {
    if pipelines.contains(key) {
        pipelines
    } else {
        pipelines.push(key)
    }
}

impl PlanModel {
    /// With a batch more.
    pub open spec fn adding(self, batch: BatchInfo, source: int) -> PlanModel {
        if !is_drawn(batch) {
            self
        } else {
            let pipelines = with_key(self.pipelines, batch.key);
            let place = self.batches.len() as usize;
            let opaque = batch.key.blend == VisualBlend::Opaque;
            PlanModel {
                batches: self.batches.push(
                    PlannedBatch {
                        source: source as usize,
                        pipeline: pipelines.index_of_first(batch.key)->0 as usize,
                    },
                ),
                pipelines,
                opaque: if opaque {
                    self.opaque.push(place)
                } else {
                    self.opaque
                },
                blended: if opaque {
                    self.blended
                } else {
                    self.blended.push(place)
                },
            }
        }
    }

    /// The plan of the first batches.
    pub open spec fn of(batches: Seq<BatchInfo>, count: nat) -> PlanModel
        decreases count,
    {
        if count == 0 {
            PlanModel {
                batches: Seq::empty(),
                pipelines: Seq::empty(),
                opaque: Seq::empty(),
                blended: Seq::empty(),
            }
        } else {
            PlanModel::of(batches, (count - 1) as nat).adding(batches[count - 1], count - 1)
        }
    }
}

fn same_key(left: TexturedPipelineKey, right: TexturedPipelineKey) -> (same: bool)
    ensures
        same == (left == right),
{
    left == right
}

fn pipeline_for(pipelines: &mut Vec<TexturedPipelineKey>, key: TexturedPipelineKey) -> (place:
    usize)
    ensures
        final(pipelines)@ == with_key(old(pipelines)@, key),
        final(pipelines)@.index_of_first(key) == Some(place as int),
{
    let mut place: usize = 0;
    while place < pipelines.len()
        invariant
            place <= pipelines@.len(),
            pipelines@ == old(pipelines)@,
            forall|i: int| 0 <= i < place ==> #[trigger] pipelines@[i] != key,
        decreases pipelines.len() - place,
    {
        if same_key(pipelines[place], key) {
            proof {
                assert(pipelines@.contains(key));
                pipelines@.index_of_first_ensures(key);
                let first = pipelines@.index_of_first(key)->0;
                if first < place {
                    assert(pipelines@[first] != key);
                }
            }
            return place;
        }
        place += 1;
    }
    proof {
        assert(!pipelines@.contains(key));
    }
    pipelines.push(key);
    proof {
        assert(pipelines@[place as int] == key);
        assert(pipelines@.contains(key));
        pipelines@.index_of_first_ensures(key);
        let first = pipelines@.index_of_first(key)->0;
        if first < place {
            assert(old(pipelines)@[first] == key);
        }
    }
    place
}

/// Plans how a scene is drawn. Batches without triangles and invisible ones are
/// left out, and batches that need the same pipeline share it.
pub fn plan_scene(batches: &Vec<BatchInfo>) -> (plan: ScenePlan)
    ensures
        plan@ == PlanModel::of(batches@, batches@.len()),
{
    let mut plan = ScenePlan {
        batches: Vec::new(),
        pipelines: Vec::new(),
        opaque: Vec::new(),
        blended: Vec::new(),
    };
    let mut source: usize = 0;
    assert(plan@ =~= PlanModel::of(batches@, 0));
    while source < batches.len()
        invariant
            source <= batches@.len(),
            plan@ == PlanModel::of(batches@, source as nat),
        decreases batches.len() - source,
    {
        let batch = batches[source];
        let ghost before = plan@;
        if batch.index_count > 0 && batch.key.blend != VisualBlend::Invisible {
            let place: usize = plan.batches.len();
            let pipeline: usize = pipeline_for(&mut plan.pipelines, batch.key);
            plan.batches.push(PlannedBatch { source, pipeline });
            if batch.key.blend == VisualBlend::Opaque {
                plan.opaque.push(place);
            } else {
                plan.blended.push(place);
            }
        }
        assert(plan@ =~= before.adding(batch, source as int));
        source += 1;
    }
    plan
}

/// No pipeline is made twice.
pub proof fn pipelines_are_distinct(batches: Seq<BatchInfo>, count: nat)
    requires
        count <= batches.len(),
    ensures
        PlanModel::of(batches, count).pipelines.no_duplicates(),
    decreases count,
{
    if count > 0 {
        pipelines_are_distinct(batches, (count - 1) as nat);
    }
}

/// Every batch that is drawn stands in one of the two orders, and the pipeline
/// that it names is one for its material.
pub proof fn planned_batches_are_ordered(batches: Seq<BatchInfo>, count: nat, place: int)
    requires
        count <= batches.len() <= usize::MAX,
        0 <= place < PlanModel::of(batches, count).batches.len(),
    ensures
        ({
            let plan = PlanModel::of(batches, count);
            let batch = plan.batches[place];
            let key = batches[batch.source as int].key;
            &&& batch.source < count
            &&& is_drawn(batches[batch.source as int])
            &&& batch.pipeline < plan.pipelines.len()
            &&& plan.pipelines[batch.pipeline as int] == key
            &&& plan.opaque.contains(place as usize) == (key.blend == VisualBlend::Opaque)
            &&& plan.blended.contains(place as usize) == (key.blend != VisualBlend::Opaque)
        }),
    decreases count,
{
    lemma_plan_size(batches, count);
    if count > 0 {
        let before = PlanModel::of(batches, (count - 1) as nat);
        let plan = PlanModel::of(batches, count);
        let added = batches[count - 1];
        lemma_plan_size(batches, (count - 1) as nat);
        if is_drawn(added) {
            let pipelines = with_key(before.pipelines, added.key);
            assert(pipelines.contains(added.key)) by {
                if !before.pipelines.contains(added.key) {
                    assert(pipelines[before.pipelines.len() as int] == added.key);
                }
            }
            pipelines.index_of_first_ensures(added.key);
            lemma_longer(before.opaque, plan.opaque, before.batches.len() as usize, place as usize);
            lemma_longer(
                before.blended,
                plan.blended,
                before.batches.len() as usize,
                place as usize,
            );
            if place < before.batches.len() {
                planned_batches_are_ordered(batches, (count - 1) as nat, place);
                assert(plan.batches[place] == before.batches[place]);
                let pipeline = before.batches[place].pipeline as int;
                assert(plan.pipelines[pipeline] == before.pipelines[pipeline]);
            }
        } else {
            planned_batches_are_ordered(batches, (count - 1) as nat, place);
        }
    }
}

/// Adding one number to a list adds only that number.
proof fn lemma_longer(before: Seq<usize>, after: Seq<usize>, added: usize, other: usize)
    ensures
        after == before.push(added) ==> after.contains(other) == (before.contains(other) || other
            == added),
{
    if after == before.push(added) {
        assert(after[before.len() as int] == added);
        if before.contains(other) {
            let i = choose|i: int| 0 <= i < before.len() && before[i] == other;
            assert(after[i] == other);
        }
        if after.contains(other) {
            let i = choose|i: int| 0 <= i < after.len() && after[i] == other;
            if i < before.len() {
                assert(before[i] == other);
            }
        }
    }
}

proof fn lemma_plan_size(batches: Seq<BatchInfo>, count: nat)
    requires
        count <= batches.len() <= usize::MAX,
    ensures
        PlanModel::of(batches, count).batches.len() <= count,
        PlanModel::of(batches, count).pipelines.len() <= count,
        forall|i: int|
            0 <= i < PlanModel::of(batches, count).opaque.len() ==> #[trigger] PlanModel::of(
                batches,
                count,
            ).opaque[i] < PlanModel::of(batches, count).batches.len(),
        forall|i: int|
            0 <= i < PlanModel::of(batches, count).blended.len() ==> #[trigger] PlanModel::of(
                batches,
                count,
            ).blended[i] < PlanModel::of(batches, count).batches.len(),
    decreases count,
{
    if count > 0 {
        lemma_plan_size(batches, (count - 1) as nat);
        let before = PlanModel::of(batches, (count - 1) as nat);
        let plan = PlanModel::of(batches, count);
        assert forall|i: int| 0 <= i < plan.opaque.len() implies #[trigger] plan.opaque[i]
            < plan.batches.len() by {
            if i < before.opaque.len() {
                assert(plan.opaque[i] == before.opaque[i]);
            }
        }
        assert forall|i: int| 0 <= i < plan.blended.len() implies #[trigger] plan.blended[i]
            < plan.batches.len() by {
            if i < before.blended.len() {
                assert(plan.blended[i] == before.blended[i]);
            }
        }
    }
}

} // verus!
