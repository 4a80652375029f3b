use beam_model_rs::v1::{ParDoPayload, SideInput, StateSpec, TimerFamilySpec};
use flaredb::fusion::dedup::ensure_single_producer;
use flaredb::fusion::endings::do_all_end;
use flaredb::fusion::expander::Pipeline;
use flaredb::fusion::fuser::GreedyCollectionFuser;
use flaredb::fusion::pipeline::QueryablePipeline;
use flaredb::fusion::pipeline_fuser::GreedyPipelineFuser;
use flaredb::fusion::sanitize::sanitize_dangling_ptransform_inputs;
use flaredb::fusion::stage::{CollectionConsumers, ExecutableStage};
use flaredb::environment::DisplayData;
use flaredb::fusion::stage_fuser::{get_stage_environment, GreedyStageFuser};
use flaredb::jobservice::artifact::ArtifactInformation;
use flaredb::utils::errors::BeamTranslationError;
use flaredb::jobservice::job::{can_fuse, fuse_pipeline, Job, JobFault};
use flaredb::jobservice::urns;
use flaredb::model::{
    Components, Environment, FunctionSpec, PCollection, PCollectionNode, PTransform,
    PTransformNode,
};
use flaredb::named::NamedMap;
use prost::Message;
use std::collections::HashSet;

/// Build a minimal environment that is told apart by its urn.
fn make_env(id: &str) -> Environment {
    Environment::new(format!("beam:env:test:{id}"), Vec::new())
}

fn named(entries: Vec<(String, String)>) -> NamedMap<String> {
    let mut map = NamedMap::new();
    for (name, value) in entries {
        map.insert(name, value);
    }
    map
}

fn pairs(entries: &[(&str, &str)]) -> NamedMap<String> {
    named(
        entries
            .iter()
            .map(|(k, v)| (k.to_string(), v.to_string()))
            .collect(),
    )
}

/// Build a FunctionSpec with a given URN and no payload.
fn make_spec(urn: &str) -> FunctionSpec {
    FunctionSpec {
        urn: urn.to_string(),
        payload: Vec::new(),
    }
}

/// Build a ParDo-aware FunctionSpec whose payload is an encoded ParDoPayload.
fn make_pardo_spec(urn: &str, payload: &ParDoPayload) -> FunctionSpec {
    FunctionSpec {
        urn: urn.to_string(),
        payload: payload.encode_to_vec(),
    }
}

fn make_node(
    id: &str,
    spec: FunctionSpec,
    inputs: &[(&str, &str)],
    outputs: &[(&str, &str)],
    env_id: &str,
) -> PTransformNode {
    PTransformNode {
        id: id.to_string(),
        transform: PTransform {
            unique_name: id.to_string(),
            spec: Some(spec),
            subtransforms: Vec::new(),
            inputs: pairs(inputs),
            outputs: pairs(outputs),
            environment_id: env_id.to_string(),
        },
    }
}

/// Create a bare PTransformNode with a given URN, no payload.
fn make_transform(
    id: &str,
    urn: &str,
    inputs: &[(&str, &str)],
    outputs: &[(&str, &str)],
    env_id: &str,
) -> PTransformNode {
    make_node(id, make_spec(urn), inputs, outputs, env_id)
}

/// Create a PTransformNode whose spec encodes a ParDoPayload.
fn make_pardo_transform(
    id: &str,
    urn: &str,
    inputs: &[(&str, &str)],
    outputs: &[(&str, &str)],
    env_id: &str,
    payload: &ParDoPayload,
) -> PTransformNode {
    make_node(id, make_pardo_spec(urn, payload), inputs, outputs, env_id)
}

/// A ParDoPayload with no side inputs, state, or timers, but with a non-default
/// `do_fn` so it encodes to non-empty bytes: an empty payload is not fused.
fn clean_pardo_payload() -> ParDoPayload {
    ParDoPayload {
        do_fn: Some(beam_model_rs::v1::FunctionSpec {
            urn: "test:dofn".to_string(),
            ..Default::default()
        }),
        ..Default::default()
    }
}

/// Create a PCollectionNode.
fn make_pcol(id: &str) -> PCollectionNode {
    PCollectionNode {
        id: id.to_string(),
        collection: PCollection {
            unique_name: id.to_string(),
            coder_id: "test_coder".to_string(),
            is_bounded: 0,
            windowing_strategy_id: String::new(),
        },
    }
}

/// Assemble a QueryablePipeline from transform nodes, pcollection nodes and environments.
fn build_pipeline(
    transforms: Vec<PTransformNode>,
    pcollections: Vec<PCollectionNode>,
    environments: NamedMap<Environment>,
) -> QueryablePipeline {
    let mut components = Components::empty();
    for t in transforms {
        components.transforms.insert(t.id, t.transform);
    }
    for p in pcollections {
        components.pcollections.insert(p.id, p.collection);
    }
    components.environments = environments;
    QueryablePipeline::new(&components)
}

/// What `fuse_pipeline` starts with: what stands behind the roots.
fn extract_initial_sets(
    pipeline: &QueryablePipeline,
    fuser: &GreedyPipelineFuser,
) -> (Vec<PTransformNode>, Vec<CollectionConsumers>) {
    let mut unfused: Vec<PTransformNode> = Vec::new();
    let mut consumers: Vec<CollectionConsumers> = Vec::new();
    for root in &pipeline.get_root_transforms() {
        let desc = fuser.get_root_consumers(root);
        for node in desc.get_unfusible() {
            if !unfused.iter().any(|n| n.id == node.id) {
                unfused.push(node.duplicate());
            }
        }
        for c in desc.get_fusible() {
            if !consumers
                .iter()
                .any(|o| o.collection.id == c.collection.id && o.transform.id == c.transform.id)
            {
                consumers.push(CollectionConsumers::of(
                    c.collection.duplicate(),
                    c.transform.duplicate(),
                ));
            }
        }
    }
    (unfused, consumers)
}

/// Find an ExecutableStage whose transforms set contains a transform with the given id.
fn find_stage_with<'a>(
    stages: &'a [ExecutableStage],
    transform_id: &str,
) -> Option<&'a ExecutableStage> {
    stages.iter().find(|s| {
        let xforms = s.transforms();
        xforms.iter().any(|t| t.id.as_str() == transform_id)
    })
}

/// Impulse -> ParDo(A) -> ParDo(B) -> GroupByKey, same env, no side-inputs/state/timers.
/// Expect: exactly one ExecutableStage containing both A and B, GBK in runner_stages.
#[test]
fn linear_chain_fuses_into_one_stage() {
    let env = make_env("env1");
    // ParDoPayload::default() decodes successfully with empty side_inputs/
    // state_specs/timer_family_specs, which is required for can_fuse_pardo
    // to return true (it checks !s.payload.is_empty()).
    let clean = clean_pardo_payload();
    let impulse = make_transform(
        "impulse",
        urns::IMPULSE_TRANSFORM,
        &[],
        &[("out", "p0")],
        "",
    );
    let pardo_a = make_pardo_transform(
        "pardo_a",
        urns::PAR_DO_TRANSFORM,
        &[("in", "p0")],
        &[("out", "p1")],
        "env1",
        &clean,
    );
    let pardo_b = make_pardo_transform(
        "pardo_b",
        urns::PAR_DO_TRANSFORM,
        &[("in", "p1")],
        &[("out", "p2")],
        "env1",
        &clean,
    );
    let gbk = make_transform(
        "gbk",
        urns::GROUP_BY_KEY_TRANSFORM,
        &[("in", "p2")],
        &[("out", "p3")],
        "",
    );
    let pcols = vec![
        make_pcol("p0"),
        make_pcol("p1"),
        make_pcol("p2"),
        make_pcol("p3"),
    ];
    let transforms = vec![impulse, pardo_a, pardo_b, gbk];
    let mut envs: NamedMap<Environment> = NamedMap::new();
    envs.insert("env1".to_string(), env);

    let pipeline = build_pipeline(transforms, pcols, envs);
    let fuser = GreedyPipelineFuser::with(pipeline);
    let (initial_unfused, initial_consumers) = extract_initial_sets(&fuser.pipeline, &fuser);
    let fused = fuser
        .fuse_pipeline(&initial_unfused, &initial_consumers)
        .unwrap();

    let sdk_stages = fused.sdk_stages();
    let runner_stages = fused.runner_stages();

    // Exactly one SDK stage
    assert_eq!(
        sdk_stages.len(),
        1,
        "Expected exactly 1 SDK stage, got {}",
        sdk_stages.len()
    );
    let stage = sdk_stages.iter().next().unwrap();
    let stage_transforms = stage.transforms();
    let stage_transform_ids: HashSet<&str> =
        stage_transforms.iter().map(|t| t.id.as_str()).collect();
    assert!(
        stage_transform_ids.contains("pardo_a"),
        "Stage should contain pardo_a"
    );
    assert!(
        stage_transform_ids.contains("pardo_b"),
        "Stage should contain pardo_b"
    );

    // GBK appears in runner_stages (unfused)
    let runner_ids: HashSet<&str> = runner_stages.iter().map(|t| t.id.as_str()).collect();
    assert!(
        runner_ids.contains("gbk"),
        "GBK should be in runner_stages, got: {runner_ids:?}"
    );
    assert!(
        !stage_transform_ids.contains("gbk"),
        "GBK should NOT be in the SDK stage"
    );
}

/// Two ParDos with different environment_ids should produce two separate ExecutableStages.
#[test]
fn different_environments_split_into_separate_stages() {
    let env_a = make_env("env_a");
    let env_b = make_env("env_b");
    let impulse = make_transform(
        "impulse",
        urns::IMPULSE_TRANSFORM,
        &[],
        &[("out", "p0")],
        "",
    );
    let pardo_a = make_transform(
        "pardo_a",
        urns::PAR_DO_TRANSFORM,
        &[("in", "p0")],
        &[("out", "p1")],
        "env_a",
    );
    let pardo_b = make_transform(
        "pardo_b",
        urns::PAR_DO_TRANSFORM,
        &[("in", "p1")],
        &[("out", "p2")],
        "env_b",
    );
    let pcols = vec![make_pcol("p0"), make_pcol("p1"), make_pcol("p2")];
    let transforms = vec![impulse, pardo_a, pardo_b];
    let mut envs: NamedMap<Environment> = NamedMap::new();
    envs.insert("env_a".to_string(), env_a);
    envs.insert("env_b".to_string(), env_b);

    let pipeline = build_pipeline(transforms, pcols, envs);
    let fuser = GreedyPipelineFuser::with(pipeline);
    let (initial_unfused, initial_consumers) = extract_initial_sets(&fuser.pipeline, &fuser);
    let fused = fuser
        .fuse_pipeline(&initial_unfused, &initial_consumers)
        .unwrap();

    let sdk_stages = fused.sdk_stages();
    assert_eq!(
        sdk_stages.len(),
        2,
        "Expected 2 separate SDK stages for different environments, got {}",
        sdk_stages.len()
    );

    let ids_in_stages: Vec<HashSet<String>> = sdk_stages
        .iter()
        .map(|s| {
            let xforms = s.transforms();
            xforms.iter().map(|t| t.id.clone()).collect()
        })
        .collect();
    let mut found_a = false;
    let mut found_b = false;
    for ids in &ids_in_stages {
        if ids.contains("pardo_a") {
            found_a = true;
        }
        if ids.contains("pardo_b") {
            found_b = true;
        }
        assert!(
            !(ids.contains("pardo_a") && ids.contains("pardo_b")),
            "pardo_a and pardo_b should not be in the same stage"
        );
    }
    assert!(found_a, "pardo_a not found in any stage");
    assert!(found_b, "pardo_b not found in any stage");
}

/// A PCollection with one PerElement ParDo consumer and one Singleton (side-input)
/// consumer should be materialized — the PerElement consumer does NOT inline-fuse.
#[test]
fn side_input_consumer_materializes_producer() {
    let env = make_env("env1");

    // ParDoPayload for the side-input consumer: declares "side" as a side input.
    let mut side_payload = ParDoPayload::default();
    side_payload
        .side_inputs
        .insert("side".to_string(), SideInput::default());

    // impulse -> p0_raw (root, no env)
    let impulse = make_transform(
        "impulse",
        urns::IMPULSE_TRANSFORM,
        &[],
        &[("out", "p0_raw")],
        "",
    );
    // SDK-side intermediate: consumes p0_raw -> produces p0.
    // This ensures p0 enters GreedyStageFuser::fuse's fusion_candidates queue,
    // where can_fuse will run its get_singleton_consumers(p0) check.
    let producer_pardo = make_pardo_transform(
        "producer_pardo",
        urns::PAR_DO_TRANSFORM,
        &[("in", "p0_raw")],
        &[("out", "p0")],
        "env1",
        &ParDoPayload::default(),
    );
    // Per-element consumer of p0
    let main_pardo = make_pardo_transform(
        "main_pardo",
        urns::PAR_DO_TRANSFORM,
        &[("in", "p0")],
        &[("out", "p_main")],
        "env1",
        &ParDoPayload::default(),
    );
    // Side-input consumer: main input from p0_alt, side input = p0
    let side_pardo = make_pardo_transform(
        "side_pardo",
        urns::PAR_DO_TRANSFORM,
        &[("in", "p0_alt"), ("side", "p0")],
        &[("out", "p_side")],
        "env1",
        &side_payload,
    );
    let impulse2 = make_transform(
        "impulse2",
        urns::IMPULSE_TRANSFORM,
        &[],
        &[("out", "p0_alt")],
        "",
    );

    let pcols = vec![
        make_pcol("p0_raw"),
        make_pcol("p0"),
        make_pcol("p0_alt"),
        make_pcol("p_main"),
        make_pcol("p_side"),
    ];
    let transforms = vec![impulse, impulse2, producer_pardo, main_pardo, side_pardo];
    let mut envs: NamedMap<Environment> = NamedMap::new();
    envs.insert("env1".to_string(), env);

    let pipeline = build_pipeline(transforms, pcols, envs);
    let fuser = GreedyPipelineFuser::with(pipeline);
    let (initial_unfused, initial_consumers) = extract_initial_sets(&fuser.pipeline, &fuser);
    let fused = fuser
        .fuse_pipeline(&initial_unfused, &initial_consumers)
        .unwrap();

    let sdk_stages = fused.sdk_stages();

    // p0 should be materialized (appear as a stage output) when it has a
    // side-input consumer, because can_fuse sees get_singleton_consumers(p0)
    // is non-empty and returns MATERIALIZE.
    let all_outputs: HashSet<String> = sdk_stages
        .iter()
        .flat_map(|s| {
            let outputs = s.output_pcols();
            outputs.iter().map(|p| p.id.clone()).collect::<Vec<_>>()
        })
        .collect();
    assert!(
        all_outputs.contains("p0"),
        "p0 should be materialized (appear as stage output) when it has a side-input consumer.\
         Outputs: {all_outputs:?}"
    );
}

/// A ParDo with non-empty state_specs should NOT be inline-fused — its input
/// PCollection must be materialized.
#[test]
fn stateful_pardo_is_not_inline_fused() {
    let env = make_env("env1");
    let mut payload = ParDoPayload::default();
    payload
        .state_specs
        .insert("my_state".to_string(), StateSpec::default());

    let impulse = make_transform(
        "impulse",
        urns::IMPULSE_TRANSFORM,
        &[],
        &[("out", "p0")],
        "",
    );
    let stateful_pardo = make_pardo_transform(
        "stateful",
        urns::PAR_DO_TRANSFORM,
        &[("in", "p0")],
        &[("out", "p1")],
        "env1",
        &payload,
    );
    let downstream = make_transform(
        "downstream",
        urns::PAR_DO_TRANSFORM,
        &[("in", "p1")],
        &[("out", "p2")],
        "env1",
    );

    let pcols = vec![make_pcol("p0"), make_pcol("p1"), make_pcol("p2")];
    let transforms = vec![impulse, stateful_pardo.duplicate(), downstream];
    let mut envs: NamedMap<Environment> = NamedMap::new();
    envs.insert("env1".to_string(), env.duplicate());

    let pipeline = build_pipeline(transforms, pcols, envs);
    let fuser = GreedyPipelineFuser::with(pipeline);
    let (initial_unfused, initial_consumers) = extract_initial_sets(&fuser.pipeline, &fuser);
    let fused = fuser
        .fuse_pipeline(&initial_unfused, &initial_consumers)
        .unwrap();

    // stateful_pardo should be in its own stage (not fused with downstream).
    let _stateful_stage = find_stage_with(fused.sdk_stages(), "stateful")
        .expect("stateful_pardo not found in any stage");
    let downstream_stage = find_stage_with(fused.sdk_stages(), "downstream")
        .expect("downstream not found in any stage");

    // Verify they are in different stages.
    let downstream_xforms = downstream_stage.transforms();
    let stateful_in_downstream = downstream_xforms.iter().any(|t| t.id == "stateful");
    assert!(
        !stateful_in_downstream,
        "stateful_pardo should NOT be fused into the same stage as downstream"
    );

    // Also verify can_fuse returns false for this transform.
    assert!(
        !payload.state_specs.is_empty(),
        "fixture sanity: state_specs should be non-empty"
    );
    let can = GreedyCollectionFuser::can_fuse(
        &stateful_pardo,
        &env,
        "p0",
        &fuser.pipeline,
    );
    assert!(!can, "can_fuse should be false for stateful ParDo");
}

/// A ParDo with non-empty timer_family_specs should NOT be inline-fused.
#[test]
fn timer_pardo_is_not_inline_fused() {
    let env = make_env("env1");
    let mut payload = ParDoPayload::default();
    payload
        .timer_family_specs
        .insert("my_timer".to_string(), TimerFamilySpec::default());

    let impulse = make_transform(
        "impulse",
        urns::IMPULSE_TRANSFORM,
        &[],
        &[("out", "p0")],
        "",
    );
    let timer_pardo = make_pardo_transform(
        "timer_pardo",
        urns::PAR_DO_TRANSFORM,
        &[("in", "p0")],
        &[("out", "p1")],
        "env1",
        &payload,
    );
    let downstream = make_transform(
        "downstream",
        urns::PAR_DO_TRANSFORM,
        &[("in", "p1")],
        &[("out", "p2")],
        "env1",
    );

    let pcols = vec![make_pcol("p0"), make_pcol("p1"), make_pcol("p2")];
    let transforms = vec![impulse, timer_pardo.duplicate(), downstream];
    let mut envs: NamedMap<Environment> = NamedMap::new();
    envs.insert("env1".to_string(), env.duplicate());

    let pipeline = build_pipeline(transforms, pcols, envs);
    let fuser = GreedyPipelineFuser::with(pipeline);
    let (initial_unfused, initial_consumers) = extract_initial_sets(&fuser.pipeline, &fuser);
    let fused = fuser
        .fuse_pipeline(&initial_unfused, &initial_consumers)
        .unwrap();

    let _timer_stage =
        find_stage_with(fused.sdk_stages(), "timer_pardo").expect("timer_pardo not found");
    let downstream_stage =
        find_stage_with(fused.sdk_stages(), "downstream").expect("downstream not found");

    let downstream_xforms = downstream_stage.transforms();
    let timer_in_downstream = downstream_xforms.iter().any(|t| t.id == "timer_pardo");
    assert!(
        !timer_in_downstream,
        "timer_pardo should NOT be fused into the same stage as downstream"
    );

    // Verify can_fuse returns false.
    assert!(
        !payload.timer_family_specs.is_empty(),
        "fixture sanity: timer_family_specs should be non-empty"
    );
    let can =
        GreedyCollectionFuser::can_fuse(&timer_pardo, &env, "p0", &fuser.pipeline);
    assert!(!can, "can_fuse should be false for timer ParDo");
}

/// par_do_compatibility(transform, transform, pipeline) must return true —
/// the explicit self-loop exception for state/timer ParDos.
#[test]
fn stateful_pardo_self_loop_is_compatible() {
    let env = make_env("env1");
    let mut payload = ParDoPayload::default();
    payload
        .state_specs
        .insert("s".to_string(), StateSpec::default());
    payload
        .timer_family_specs
        .insert("t".to_string(), TimerFamilySpec::default());

    let pardo = make_pardo_transform(
        "sdf_pardo",
        urns::PAR_DO_TRANSFORM,
        &[("in", "p0")],
        &[("out", "p1")],
        "env1",
        &payload,
    );

    let pcols = vec![make_pcol("p0"), make_pcol("p1")];
    let transforms = vec![pardo.duplicate()];
    let mut envs: NamedMap<Environment> = NamedMap::new();
    envs.insert("env1".to_string(), env);
    let pipeline = build_pipeline(transforms, pcols, envs);

    // Even though this transform has state + timers (which normally block fusion),
    // par_do_compatibility with itself must return true (self-loop exception).
    let compatible = GreedyCollectionFuser::par_do_compatibility(&pardo, &pardo, &pipeline);
    assert!(
        compatible,
        "par_do_compatibility must return true for a ParDo compared with itself (self-loop)"
    );

    // But can_fuse still returns false (it doesn't have the self-loop exception).
    let can =
        GreedyCollectionFuser::can_fuse(&pardo, &make_env("env1"), "p0", &pipeline);
    assert!(
        !can,
        "can_fuse should still return false for stateful ParDo (self-loop is only in par_do_compatibility)"
    );
}

/// A PCollection with two per-element ParDo consumers (same env, no side-inputs)
/// should fuse both into the same ExecutableStage.
#[test]
fn compatible_siblings_fuse_into_one_stage() {
    let env = make_env("env1");
    let impulse = make_transform(
        "impulse",
        urns::IMPULSE_TRANSFORM,
        &[],
        &[("out", "p0")],
        "",
    );
    let pardo_a = make_transform(
        "pardo_a",
        urns::PAR_DO_TRANSFORM,
        &[("in", "p0")],
        &[("out", "pa")],
        "env1",
    );
    let pardo_b = make_transform(
        "pardo_b",
        urns::PAR_DO_TRANSFORM,
        &[("in", "p0")],
        &[("out", "pb")],
        "env1",
    );

    let pcols = vec![make_pcol("p0"), make_pcol("pa"), make_pcol("pb")];
    let transforms = vec![impulse, pardo_a, pardo_b];
    let mut envs: NamedMap<Environment> = NamedMap::new();
    envs.insert("env1".to_string(), env);

    let pipeline = build_pipeline(transforms, pcols, envs);
    let fuser = GreedyPipelineFuser::with(pipeline);
    let (initial_unfused, initial_consumers) = extract_initial_sets(&fuser.pipeline, &fuser);
    let fused = fuser
        .fuse_pipeline(&initial_unfused, &initial_consumers)
        .unwrap();

    let sdk_stages = fused.sdk_stages();
    // Both siblings should be in the same stage.
    let both_stage = sdk_stages.iter().find(|s| {
        let xforms = s.transforms();
        let ids: HashSet<&str> = xforms.iter().map(|t| t.id.as_str()).collect();
        ids.contains("pardo_a") && ids.contains("pardo_b")
    });
    assert!(
        both_stage.is_some(),
        "pardo_a and pardo_b should be in the same ExecutableStage"
    );
}

/// With bidirectional compatibility
#[test]
fn side_input_bearing_pardo_is_incompatible_with_plain_sibling() {
    let env = make_env("env1");

    let mut side_payload = ParDoPayload::default();
    side_payload
        .side_inputs
        .insert("side".to_string(), SideInput::default());

    let impulse = make_transform(
        "impulse",
        urns::IMPULSE_TRANSFORM,
        &[],
        &[("out", "p0")],
        "",
    );
    // Separate source for the side input PCollection.
    let impulse_side = make_transform(
        "impulse_side",
        urns::IMPULSE_TRANSFORM,
        &[],
        &[("out", "p_side_src")],
        "",
    );
    // Plain sibling — consumes p0 as main PerElement input, no side inputs.
    let plain = make_pardo_transform(
        "plain",
        urns::PAR_DO_TRANSFORM,
        &[("in", "p0")],
        &[("out", "p_plain")],
        "env1",
        &clean_pardo_payload(),
    );
    // Side-input sibling — consumes p0 as main PerElement input AND
    // p_side_src as a Singleton (side) input.
    let side_pardo = make_pardo_transform(
        "side_pardo",
        urns::PAR_DO_TRANSFORM,
        &[("in", "p0"), ("side", "p_side_src")],
        &[("out", "p_side")],
        "env1",
        &side_payload,
    );

    let pcols = vec![
        make_pcol("p0"),
        make_pcol("p_side_src"),
        make_pcol("p_plain"),
        make_pcol("p_side"),
    ];
    let transforms = vec![impulse, impulse_side, plain.duplicate(), side_pardo.duplicate()];
    let mut envs: NamedMap<Environment> = NamedMap::new();
    envs.insert("env1".to_string(), env);

    let pipeline = build_pipeline(transforms, pcols, envs);

    // Bidirectional is_compatible: side_pardo's payload has side inputs,
    // so is_compatible_one_way(side_pardo, plain) returns false.
    let compatible = GreedyCollectionFuser::is_compatible(&plain, &side_pardo, &pipeline);
    assert!(
        !compatible,
        "side-input-bearing ParDo must be incompatible with plain sibling (bidirectional check)"
    );

    // Run full fusion: they end up in separate stages.
    let fuser = GreedyPipelineFuser::with(pipeline);
    let (initial_unfused, initial_consumers) = extract_initial_sets(&fuser.pipeline, &fuser);
    let fused = fuser
        .fuse_pipeline(&initial_unfused, &initial_consumers)
        .unwrap();

    let same_stage = fused.sdk_stages().iter().any(|s| {
        let xforms = s.transforms();
        let ids: HashSet<&str> = xforms.iter().map(|t| t.id.as_str()).collect();
        ids.contains("plain") && ids.contains("side_pardo")
    });
    assert!(
        !same_stage,
        "plain and side_pardo should be in separate stages"
    );
}

/// When two stages both claim to produce the same PCollection ID,
/// ensure_single_producer must insert a Flatten with one input per original producer.
#[test]
fn duplicate_producer_gets_flatten_inserted() {
    let common_pcol_id = "shared_out";

    // Build two minimal ExecutableStages that both output `shared_out`.
    let env = make_env("env1");
    let shared_pcol = make_pcol(common_pcol_id);

    let stage_a = ExecutableStage::from(
        Components::empty(),
        env.duplicate(),
        Vec::new(),
        make_pcol("in_a"),
        Vec::new(),
        Vec::new(),
        Vec::new(),
        vec![shared_pcol.duplicate()],
        Vec::new(),
    );
    let stage_b = ExecutableStage::from(
        Components::empty(),
        env.duplicate(),
        Vec::new(),
        make_pcol("in_b"),
        Vec::new(),
        Vec::new(),
        Vec::new(),
        vec![shared_pcol.duplicate()],
        Vec::new(),
    );

    // Build a QueryablePipeline where the shared PCollection exists.
    let pcols = vec![shared_pcol.duplicate(), make_pcol("in_a"), make_pcol("in_b")];
    let transforms: Vec<PTransformNode> = vec![];
    let envs: NamedMap<Environment> = NamedMap::new();
    let pipeline = build_pipeline(transforms, pcols, envs);

    let stages: Vec<ExecutableStage> = vec![stage_a, stage_b];
    let unfused: Vec<PTransformNode> = Vec::new();

    let result = ensure_single_producer(&pipeline, &stages, &unfused).unwrap();

    // There should be exactly one Flatten introduced.
    let flattens: Vec<&PTransformNode> = result
        .introduced_transforms
        .iter()
        .filter(|t| {
            t.transform
                .spec
                .as_ref()
                .map_or(false, |s| s.urn == urns::FLATTEN_TRANSFORM)
        })
        .collect();
    assert_eq!(flattens.len(), 1, "Expected exactly 1 Flatten introduced");

    let flatten = flattens[0];
    // The Flatten's inputs should have one entry per original producer.
    assert_eq!(
        flatten.transform.inputs.len(),
        2,
        "Flatten should have 2 inputs (one per original producer)"
    );
    // Its single output should equal the original (pre-dedup) PCollection ID.
    assert_eq!(
        flatten.transform.outputs.get("output"),
        Some(&common_pcol_id.to_string()),
        "Flatten output should be the original PCollection ID"
    );
}

/// When an ExecutableStage has a transform input referencing a PCollection ID
/// that is not the stage input, not an internal output, not a side input, and
/// not a timer input, sanitize_dangling_ptransform_inputs must remove it.
#[test]
fn dangling_input_is_sanitized() {
    let env = make_env("env1");

    let stage_input = make_pcol("stage_input");
    let internal_output = make_pcol("internal_out");
    let dangling = make_pcol("dangling");

    // A transform that consumes both a valid internal output AND a dangling PCollection.
    let transform_in_stage = PTransformNode {
        id: "t1".to_string(),
        transform: PTransform {
            unique_name: "t1".to_string(),
            spec: Some(make_spec(urns::PAR_DO_TRANSFORM)),
            inputs: named(vec![
                ("in".to_string(), internal_output.id.clone()),
                ("dangling_input".to_string(), dangling.id.clone()),
            ]),
            outputs: named(vec![("out".to_string(), "extra".to_string())]),
            subtransforms: Vec::new(),
            environment_id: String::new(),
        },
    };

    // The producer of internal_out.
    let producer = PTransformNode {
        id: "producer".to_string(),
        transform: PTransform {
            unique_name: "producer".to_string(),
            spec: Some(make_spec(urns::PAR_DO_TRANSFORM)),
            inputs: named(vec![("in".to_string(), stage_input.id.clone())]),
            outputs: named(vec![("out".to_string(), internal_output.id.clone())]),
            subtransforms: Vec::new(),
            environment_id: String::new(),
        },
    };

    let mut components = Components::empty();
    components
        .transforms
        .insert("t1".to_string(), transform_in_stage.transform.duplicate());
    components
        .transforms
        .insert("producer".to_string(), producer.transform.duplicate());
    components
        .pcollections
        .insert(stage_input.id.clone(), stage_input.collection.duplicate());
    components.pcollections.insert(
        internal_output.id.clone(),
        internal_output.collection.duplicate(),
    );
    components
        .pcollections
        .insert(dangling.id.clone(), dangling.collection.duplicate());

    let stage = ExecutableStage::from(
        components,
        env,
        Vec::new(),
        stage_input.duplicate(),
        Vec::new(),
        Vec::new(),
        Vec::new(),
        vec![make_pcol("extra")],
        vec![producer, transform_in_stage],
    );

    let sanitized = sanitize_dangling_ptransform_inputs(stage);

    // The dangling input key should be removed from t1's inputs.
    let sanitized_transforms = sanitized.transforms();
    let t1_sanitized = sanitized_transforms
        .iter()
        .find(|t| t.id == "t1")
        .expect("t1 should still be present");
    assert!(
        !t1_sanitized.transform.inputs.contains_key("dangling_input"),
        "dangling_input key should be removed from t1's inputs"
    );
    assert!(
        t1_sanitized.transform.inputs.contains_key("in"),
        "valid input 'in' should be preserved"
    );

    // The dangling PCollection should be absent from the sanitized components.
    assert!(
        !sanitized.components().pcollections.contains_key("dangling"),
        "dangling PCollection should be removed from stage components"
    );
    // Valid PCollections should remain.
    assert!(
        sanitized
            .components()
            .pcollections
            .contains_key("stage_input"),
        "stage_input should remain"
    );
    assert!(
        sanitized
            .components()
            .pcollections
            .contains_key("internal_out"),
        "internal_out should remain"
    );
}

//
// Group 4: SDF-specific tests

/// PROCESS_SIZED_ELEMENTS_AND_RESTRICTIONS is isolated into its own stage
/// by can_fuse returning false.
#[test]
fn sdf_process_transform_is_isolated_into_own_stage() {
    let env = make_env("env1");
    let process = make_transform(
        "process_sized",
        urns::SPLITTABLE_PROCESS_SIZED_ELEMENTS_AND_RESTRICTIONS_URN,
        &[("in", "p0")],
        &[("out", "p1")],
        "env1",
    );

    let pcols = vec![make_pcol("p0"), make_pcol("p1")];
    let transforms = vec![process.duplicate()];
    let mut envs: NamedMap<Environment> = NamedMap::new();
    envs.insert("env1".to_string(), env.duplicate());
    let pipeline = build_pipeline(transforms, pcols, envs);

    // can_fuse must return false for PROCESS_SIZED_ELEMENTS_AND_RESTRICTIONS.
    let can = GreedyCollectionFuser::can_fuse(&process, &env, "p0", &pipeline);
    assert!(
        !can,
        "can_fuse must return false for SPLITTABLE_PROCESS_SIZED_ELEMENTS_AND_RESTRICTIONS_URN"
    );

}

/// PAIR_WITH_RESTRICTION and SPLIT_AND_SIZE_RESTRICTIONS can fuse together
/// (both hit the can_fuse_pardo dispatch arm). We verify this via can_fuse.
#[test]
fn pair_with_restriction_fuses_with_split_and_size() {
    let env = make_env("env1");

    // Because these URNs are not in PRIMITIVES, we test the can_fuse path directly.
    // clean_pardo_payload() encodes to non-empty bytes so can_fuse_pardo
    // passes the !s.payload.is_empty() guard.
    let clean = clean_pardo_payload();
    let pair = make_pardo_transform(
        "pair",
        urns::SPLITTABLE_PAIR_WITH_RESTRICTION_URN,
        &[("in", "p0")],
        &[("out", "p1")],
        "env1",
        &clean,
    );
    let split = make_pardo_transform(
        "split",
        urns::SPLITTABLE_SPLIT_AND_SIZE_RESTRICTIONS_URN,
        &[("in", "p1")],
        &[("out", "p2")],
        "env1",
        &clean,
    );

    let pcols = vec![make_pcol("p0"), make_pcol("p1"), make_pcol("p2")];
    let transforms = vec![pair.duplicate(), split.duplicate()];
    let mut envs: NamedMap<Environment> = NamedMap::new();
    envs.insert("env1".to_string(), env.duplicate());
    let pipeline = build_pipeline(transforms, pcols, envs);

    // Both should be fusible via can_fuse (they hit can_fuse_pardo).
    let can_pair = GreedyCollectionFuser::can_fuse(&pair, &env, "p0", &pipeline);
    assert!(can_pair, "PAIR_WITH_RESTRICTION should be fusible");

    let can_split = GreedyCollectionFuser::can_fuse(&split, &env, "p1", &pipeline);
    assert!(can_split, "SPLIT_AND_SIZE_RESTRICTIONS should be fusible");
}

/// A plain ParDo and a pairing with restrictions, without side inputs, states and
/// timers and in one environment, may root a stage together.
#[test]
fn pair_with_restriction_can_sibling_with_plain_pardo() {
    let env = make_env("env1");

    let plain = make_transform(
        "plain",
        urns::PAR_DO_TRANSFORM,
        &[("in", "p0")],
        &[("out", "p_plain")],
        "env1",
    );
    let pair = make_transform(
        "pair",
        urns::SPLITTABLE_PAIR_WITH_RESTRICTION_URN,
        &[("in", "p0")],
        &[("out", "p_pair")],
        "env1",
    );

    let pcols = vec![make_pcol("p0"), make_pcol("p_plain"), make_pcol("p_pair")];
    let transforms = vec![plain.duplicate(), pair.duplicate()];
    let mut envs: NamedMap<Environment> = NamedMap::new();
    envs.insert("env1".to_string(), env);
    let pipeline = build_pipeline(transforms, pcols, envs);

    let result = GreedyCollectionFuser::is_compatible(&pair, &plain, &pipeline);
    assert!(
        result,
        "PairWithRestriction is compatible with plain ParDo for sibling fusion"
    );
}

/// Whether a ParDo fuses does not depend on what stands before it.
#[test]
fn downstream_pardo_fuses_into_sdf_stage() {
    let env = make_env("env1");

    // Simulate: upstream ParDo (stand-in for SDF process) -> downstream plain ParDo.
    // Both use PAR_DO_TRANSFORM so they appear in the graph and can be fused.
    // clean_pardo_payload() encodes to non-empty bytes so can_fuse_pardo returns true.
    let clean = clean_pardo_payload();
    let impulse = make_transform(
        "impulse",
        urns::IMPULSE_TRANSFORM,
        &[],
        &[("out", "p0")],
        "",
    );
    let upstream = make_pardo_transform(
        "upstream",
        urns::PAR_DO_TRANSFORM,
        &[("in", "p0")],
        &[("out", "p1")],
        "env1",
        &clean,
    );
    let downstream = make_pardo_transform(
        "downstream",
        urns::PAR_DO_TRANSFORM,
        &[("in", "p1")],
        &[("out", "p2")],
        "env1",
        &clean,
    );

    let pcols = vec![make_pcol("p0"), make_pcol("p1"), make_pcol("p2")];
    let transforms = vec![impulse, upstream, downstream];
    let mut envs: NamedMap<Environment> = NamedMap::new();
    envs.insert("env1".to_string(), env);

    let pipeline = build_pipeline(transforms, pcols, envs);
    let fuser = GreedyPipelineFuser::with(pipeline);
    let (initial_unfused, initial_consumers) = extract_initial_sets(&fuser.pipeline, &fuser);
    let fused = fuser
        .fuse_pipeline(&initial_unfused, &initial_consumers)
        .unwrap();

    // Both upstream and downstream should end up in the same ExecutableStage.
    let stages = fused.sdk_stages();
    let combined = stages.iter().find(|s| {
        let xforms = s.transforms();
        let ids: HashSet<&str> = xforms.iter().map(|t| t.id.as_str()).collect();
        ids.contains("upstream") && ids.contains("downstream")
    });
    assert!(
        combined.is_some(),
        "downstream should fuse into same stage as upstream"
    );
}

/// TRUNCATE_SIZED_RESTRICTION never fuses into a stage that is there.
#[test]
fn truncate_sized_restriction_fuses_like_pair_with_restriction() {
    let env = make_env("env1");

    let trunc = make_transform(
        "trunc",
        urns::SPLITTABLE_TRUNCATE_SIZED_RESTRICTION_URN,
        &[("in", "p0")],
        &[("out", "p1")],
        "env1",
    );

    let pcols = vec![make_pcol("p0"), make_pcol("p1")];
    let transforms = vec![trunc.duplicate()];
    let mut envs: NamedMap<Environment> = NamedMap::new();
    envs.insert("env1".to_string(), env.duplicate());
    let pipeline = build_pipeline(transforms, pcols, envs);

    let can = GreedyCollectionFuser::can_fuse(&trunc, &env, "p0", &pipeline);
    assert!(
        !can,
        "TRUNCATE_SIZED_RESTRICTION falls into can_fuse's unknown => false catch-all"
    );
}

#[test]
fn truncate_steps_can_be_siblings() {
    let env = make_env("env1");
    let step = |id: &str, output: &str, env: &str| {
        make_transform(
            id,
            urns::SPLITTABLE_TRUNCATE_SIZED_RESTRICTION_URN,
            &[("in", "p0")],
            &[("out", output)],
            env,
        )
    };
    let (one, two, far) = (step("t1", "p1", "env1"), step("t2", "p2", "env1"), step("t3", "p3", "env2"));
    let pcols = vec![make_pcol("p0"), make_pcol("p1"), make_pcol("p2"), make_pcol("p3")];
    let mut envs: NamedMap<Environment> = NamedMap::new();
    envs.insert("env1".to_string(), env);
    envs.insert("env2".to_string(), make_env("env2"));
    let pipeline = build_pipeline(
        vec![one.duplicate(), two.duplicate(), far.duplicate()],
        pcols,
        envs,
    );
    assert!(GreedyCollectionFuser::is_compatible(&one, &two, &pipeline));
    assert!(!GreedyCollectionFuser::is_compatible(&one, &far, &pipeline));
}

#[test]
fn sdf_pipeline_fuses_end_to_end_with_process_transform_isolated() {
    let env = make_env("env1");
    let clean = clean_pardo_payload();

    let impulse = make_transform(
        "impulse",
        urns::IMPULSE_TRANSFORM,
        &[],
        &[("out", "p0")],
        "",
    );
    let pair = make_pardo_transform(
        "pair",
        urns::SPLITTABLE_PAIR_WITH_RESTRICTION_URN,
        &[("in", "p0")],
        &[("out", "p1")],
        "env1",
        &clean,
    );
    let split = make_pardo_transform(
        "split",
        urns::SPLITTABLE_SPLIT_AND_SIZE_RESTRICTIONS_URN,
        &[("in", "p1")],
        &[("out", "p2")],
        "env1",
        &clean,
    );
    let process = make_pardo_transform(
        "process",
        urns::SPLITTABLE_PROCESS_SIZED_ELEMENTS_AND_RESTRICTIONS_URN,
        &[("in", "p2")],
        &[("out", "p3")],
        "env1",
        &clean,
    );

    let pcols = vec![
        make_pcol("p0"),
        make_pcol("p1"),
        make_pcol("p2"),
        make_pcol("p3"),
    ];
    let transforms = vec![impulse, pair, split, process];
    let mut envs: NamedMap<Environment> = NamedMap::new();
    envs.insert("env1".to_string(), env);

    let pipeline = build_pipeline(transforms, pcols, envs);
    let fuser = GreedyPipelineFuser::with(pipeline);
    let (initial_unfused, initial_consumers) = extract_initial_sets(&fuser.pipeline, &fuser);
    let fused = fuser
        .fuse_pipeline(&initial_unfused, &initial_consumers)
        .unwrap();

    let stages = fused.sdk_stages();

    // pair and split should be fused together in one stage.
    let pair_split_stage = stages.iter().find(|s| {
        let xforms = s.transforms();
        let ids: HashSet<&str> = xforms.iter().map(|t| t.id.as_str()).collect();
        ids.contains("pair") && ids.contains("split")
    });
    assert!(
        pair_split_stage.is_some(),
        "pair and split should be fused into one stage"
    );

    // process must be isolated in its own stage — NOT with pair/split.
    let process_stage =
        find_stage_with(stages, "process").expect("process transform should be in some stage");
    let process_xforms = process_stage.transforms();
    let process_stage_ids: HashSet<String> =
        process_xforms.iter().map(|t| t.id.clone()).collect();
    assert_eq!(
        process_stage_ids.len(),
        1,
        "process transform must be the sole member of its stage, got: {process_stage_ids:?}"
    );
    assert!(process_stage_ids.contains("process"));

    // Confirm pair/split stage and process stage are genuinely different stages.
    let pair_split_stage = pair_split_stage.unwrap();
    assert_ne!(
        pair_split_stage.id(),
        process_stage.id(),
        "pair/split stage and process stage must be different ExecutableStages"
    );
}

fn submitted(pipeline: QueryablePipeline) -> Pipeline {
    Pipeline {
        components: Some(pipeline.components),
        root_transform_ids: Vec::new(),
    }
}

/// Impulse -> ParDo -> GroupByKey -> ParDo: two stages, and what the runner does itself.
#[test]
fn a_submitted_pipeline_is_fused() {
    let clean = clean_pardo_payload();
    let transforms = vec![
        make_transform("impulse", urns::IMPULSE_TRANSFORM, &[], &[("out", "p0")], ""),
        make_pardo_transform(
            "before",
            urns::PAR_DO_TRANSFORM,
            &[("in", "p0")],
            &[("out", "p1")],
            "env1",
            &clean,
        ),
        make_transform(
            "gbk",
            urns::GROUP_BY_KEY_TRANSFORM,
            &[("in", "p1")],
            &[("out", "p2")],
            "",
        ),
        make_pardo_transform(
            "after",
            urns::PAR_DO_TRANSFORM,
            &[("in", "p2")],
            &[("out", "p3")],
            "env1",
            &clean,
        ),
    ];
    let pcols = vec![make_pcol("p0"), make_pcol("p1"), make_pcol("p2"), make_pcol("p3")];
    let mut envs: NamedMap<Environment> = NamedMap::new();
    envs.insert("env1".to_string(), make_env("env1"));
    let pipeline = submitted(build_pipeline(transforms, pcols, envs));
    assert!(can_fuse(&pipeline));
    let fused = fuse_pipeline(&pipeline).unwrap();

    assert_eq!(fused.sdk_stages().len(), 2);
    let before = find_stage_with(fused.sdk_stages(), "before").unwrap();
    assert_eq!(before.input_pcol.id, "p0");
    let after = find_stage_with(fused.sdk_stages(), "after").unwrap();
    assert_eq!(after.input_pcol.id, "p2");
    let runner: HashSet<&str> = fused.runner_stages().iter().map(|n| n.id.as_str()).collect();
    assert_eq!(runner, HashSet::from(["impulse", "gbk"]));
}

/// Two transforms of the runner that feed each other have no end; a worker's transform
/// between them breaks the circle.
#[test]
fn a_circle_of_the_runner_is_found() {
    let circle = |env: &str| {
        let transforms = vec![
            make_transform("a", urns::FLATTEN_TRANSFORM, &[("in", "p1")], &[("out", "p2")], ""),
            make_transform("b", urns::FLATTEN_TRANSFORM, &[("in", "p2")], &[("out", "p1")], env),
        ];
        let mut envs: NamedMap<Environment> = NamedMap::new();
        envs.insert("env1".to_string(), make_env("env1"));
        build_pipeline(transforms, vec![make_pcol("p1"), make_pcol("p2")], envs)
    };
    assert!(!do_all_end(&circle("")));
    assert!(do_all_end(&circle("env1")));
    assert!(!can_fuse(&submitted(circle(""))));
    assert!(!can_fuse(&Pipeline {
        components: None,
        root_transform_ids: Vec::new(),
    }));
}

#[test]
fn a_job_has_the_graph_of_its_stages() {
    let clean = clean_pardo_payload();
    let chain = |runner: &str| {
        let transforms = vec![
            make_transform("impulse", urns::IMPULSE_TRANSFORM, &[], &[("out", "p0")], ""),
            make_pardo_transform(
                "read",
                urns::PAR_DO_TRANSFORM,
                &[("in", "p0")],
                &[("out", "p1")],
                "env1",
                &clean,
            ),
            make_transform("runner", runner, &[("in", "p1")], &[("out", "p2")], ""),
        ];
        let mut envs: NamedMap<Environment> = NamedMap::new();
        envs.insert("env1".to_string(), make_env("env1"));
        let pcols = vec![make_pcol("p0"), make_pcol("p1"), make_pcol("p2")];
        submitted(build_pipeline(transforms, pcols, envs))
    };
    let job = match Job::new(&chain(urns::GROUP_BY_KEY_TRANSFORM)) {
        Ok(job) => job,
        Err(e) => panic!("{}", e.message()),
    };
    assert!(job.job_id.starts_with("jobid"));
    assert_eq!(job.graph.node_count(), 3);
    // the worker's stage comes first; it is fed by the impulse
    let edge = job.graph.last_edge_into(0).unwrap();
    assert_eq!(edge.produced_pcol_id, "p0");
    assert_eq!(edge.coder_id, "test_coder");
    let edge = job.graph.last_edge_out_of(0).unwrap();
    assert_eq!(edge.produced_pcol_id, "p1");

    assert!(matches!(
        Job::create_job(&chain("beam:transform:unknown")),
        Err(JobFault::NoGraph)
    ));
    let empty = Pipeline {
        components: None,
        root_transform_ids: Vec::new(),
    };
    assert!(matches!(Job::create_job(&empty), Err(JobFault::Unfit)));
}

#[test]
fn environments_that_differ_are_shown() {
    let env = |id: &str, payload: Vec<u8>| {
        let mut env = Environment::new(format!("beam:env:test:{id}"), payload);
        env.capabilities.push(format!("can {id}"));
        env.resource_hints.insert("min_ram_bytes".to_string(), vec![8, 9]);
        env
    };
    let node = |id: &str, env: &str| {
        make_transform(id, urns::ASSIGN_WINDOWS_TRANSFORM, &[("in", "p0")], &[], env)
    };
    let mut envs: NamedMap<Environment> = NamedMap::new();
    envs.insert("e1".to_string(), env("one", vec![7]));
    envs.insert("e2".to_string(), env("two", Vec::new()));
    let pipeline = build_pipeline(
        vec![node("a", "e1"), node("b", "e2"), node("c", "")],
        vec![make_pcol("p0")],
        envs,
    );
    let ids = |names: &[&str]| names.iter().map(|n| n.to_string()).collect::<Vec<String>>();
    let told = get_stage_environment(&pipeline, &ids(&["a", "b"])).unwrap_err().message();
    let start = "All PTransformNodes in an ExecutableStage must be the same. Got Environment {";
    assert!(told.contains(start), "{told}");
    assert!(told.contains("beam:env:test:one") && told.contains("[7]"), "{told}");
    assert!(told.contains("} and Environment {") && told.contains("beam:env:test:two"), "{told}");
    assert!(told.contains("can one") && told.contains("can two"), "{told}");
    assert!(told.contains("\"min_ram_bytes\": [8, 9]"), "{told}");
    let told = get_stage_environment(&pipeline, &ids(&["a", "c"])).unwrap_err().message();
    assert!(told.ends_with(
        "Environment must be populated on all PTransformNodes in GreedyStageFuser"
    ));
    let found = get_stage_environment(&pipeline, &ids(&["a"])).unwrap();
    assert_eq!(found.urn, "beam:env:test:one");
}

#[test]
fn siblings_are_in_equal_environments() {
    let base = || make_env("same");
    let mut shown = base();
    shown.display_data.push(DisplayData {
        urn: "beam:display_data:labelled:v1".to_string(),
        payload: vec![1],
    });
    let mut able = base();
    able.capabilities.push("beam:coder:varint:v1".to_string());
    let mut leaning = base();
    leaning.dependencies.push(ArtifactInformation {
        type_urn: "beam:artifact:type:file:v1".to_string(),
        type_payload: vec![],
        role_urn: "beam:artifact:role:staging_to:v1".to_string(),
        role_payload: vec![2],
    });
    let mut hungry = base();
    hungry.resource_hints.insert("min_ram_bytes".to_string(), vec![1]);
    hungry.resource_hints.insert("accelerator".to_string(), vec![2]);
    let mut hungrier = base();
    hungrier.resource_hints.insert("accelerator".to_string(), vec![2]);
    hungrier.resource_hints.insert("min_ram_bytes".to_string(), vec![3]);
    hungrier.resource_hints.insert("min_ram_bytes".to_string(), vec![1]);
    let mut fed = hungry.duplicate();
    fed.resource_hints.insert("accelerator".to_string(), vec![4]);

    let node = |id: &str| {
        make_transform(id, urns::ASSIGN_WINDOWS_TRANSFORM, &[("in", "p0")], &[], id)
    };
    let all = vec![
        ("plain", base()),
        ("again", base()),
        ("shown", shown),
        ("able", able),
        ("leaning", leaning),
        ("hungry", hungry),
        ("hungrier", hungrier),
        ("fed", fed),
    ];
    let nodes: Vec<PTransformNode> = all.iter().map(|(id, _)| node(id)).collect();
    let mut envs: NamedMap<Environment> = NamedMap::new();
    for (id, env) in all {
        envs.insert(id.to_string(), env);
    }
    let pipeline = build_pipeline(
        nodes.iter().map(|n| n.duplicate()).collect(),
        vec![make_pcol("p0")],
        envs,
    );
    for (i, a) in nodes.iter().enumerate() {
        for (j, b) in nodes.iter().enumerate() {
            // the hints of an environment have no order, and the last one under a name counts
            let equal = i == j || (i.min(j), i.max(j)) == (0, 1) || (i.min(j), i.max(j)) == (5, 6);
            assert_eq!(
                GreedyCollectionFuser::is_compatible(a, b, &pipeline),
                equal,
                "{} {}",
                a.id,
                b.id
            );
        }
    }
    // within a stage only the kind of the environment counts
    let ids: Vec<String> = nodes.iter().map(|n| n.id.clone()).collect();
    let found = get_stage_environment(&pipeline, &ids).unwrap();
    assert_eq!(found.urn, "beam:env:test:same");
}

#[test]
fn a_stage_that_cannot_be_made_is_explained() {
    let mut payload = clean_pardo_payload();
    payload.side_inputs.insert("side".to_string(), SideInput::default());
    let par_do = |id: &str, inputs: &[(&str, &str)]| {
        make_pardo_transform(id, urns::PAR_DO_TRANSFORM, inputs, &[], "env1", &payload)
    };
    let mut envs: NamedMap<Environment> = NamedMap::new();
    envs.insert("env1".to_string(), make_env("env1"));
    let mut broken = make_transform("broken", urns::PAR_DO_TRANSFORM, &[("in", "p0")], &[], "env1");
    broken.transform.spec = Some(FunctionSpec {
        urn: urns::PAR_DO_TRANSFORM.to_string(),
        payload: vec![0xff],
    });
    let pipeline = build_pipeline(
        vec![
            par_do("unbound", &[("in", "p0")]),
            par_do("lost", &[("in", "p0"), ("side", "p9")]),
            par_do("good", &[("in", "p0"), ("side", "p1")]),
            broken,
        ],
        vec![make_pcol("p0"), make_pcol("p1")],
        envs,
    );
    let fuse = |ids: &[&str]| {
        let ids = ids.iter().map(|n| n.to_string()).collect::<Vec<String>>();
        GreedyStageFuser::fuse(&pipeline, &make_pcol("p0"), &ids)
    };
    assert!(fuse(&["good"]).is_ok());
    match fuse(&[]) {
        Err(BeamTranslationError::InvalidArgument(m)) => {
            assert_eq!(m, "must contain atleast one element GreedyStageFuser")
        }
        _ => panic!("a stage of nothing"),
    }
    match fuse(&["good", "unbound"]) {
        Err(BeamTranslationError::NotFound(m)) => assert_eq!(m, "side input of unbound"),
        _ => panic!("a side input that is no input"),
    }
    match fuse(&["lost"]) {
        Err(BeamTranslationError::NotFound(m)) => assert_eq!(m, "side input collection of lost"),
        _ => panic!("a side input that is no collection"),
    }
    match fuse(&["broken"]) {
        Err(BeamTranslationError::PipelineGraphError(m)) => {
            assert_eq!(m, "failed to decode ParDoPayload of broken")
        }
        _ => panic!("a payload that is none"),
    }
}
