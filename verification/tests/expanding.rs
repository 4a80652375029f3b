use beam_model_rs::v1::ParDoPayload;
use flaredb::fusion::expander::{
    expand, get_or_add_double_coder, Pipeline, ProtoOverrides, SplittableParDoExpander,
};
use flaredb::fusion::ids::generate_unique_id;
use flaredb::fusion::payload::ParDoFacts;
use flaredb::jobservice::urns;
use flaredb::model::{Coder, Components, FunctionSpec, PCollection, PTransform};
use flaredb::named::NamedMap;
use prost::Message;

/// Hand-built ParDoPayload that signals a splittable DoFn.
fn splittable_payload() -> ParDoPayload {
    ParDoPayload {
        restriction_coder_id: "bytes_coder".to_string(),
        do_fn: Some(beam_model_rs::v1::FunctionSpec {
            urn: "dofn".to_string(),
            payload: vec![1, 2, 3],
        }),
        ..Default::default()
    }
}

/// Non-splittable ParDoPayload (empty restriction coder).
fn non_splittable_payload() -> ParDoPayload {
    ParDoPayload {
        restriction_coder_id: String::new(),
        do_fn: Some(beam_model_rs::v1::FunctionSpec {
            urn: "dofn".to_string(),
            payload: vec![1, 2, 3],
        }),
        ..Default::default()
    }
}

fn one(name: &str, value: &str) -> NamedMap<String> {
    let mut map = NamedMap::new();
    map.insert(name.to_string(), value.to_string());
    map
}

fn make_pcol(id: &str, coder: &str, bounded: i32, windowing: &str) -> PCollection {
    PCollection {
        unique_name: id.to_string(),
        coder_id: coder.to_string(),
        is_bounded: bounded,
        windowing_strategy_id: windowing.to_string(),
    }
}

fn make_components_for_sdf() -> Components {
    let mut comps = Components::empty();

    comps.pcollections.insert(
        "in_pcol".to_string(),
        make_pcol("in_pcol", "elem_coder", 1, "global_window"),
    );

    let payload = splittable_payload();
    comps.transforms.insert(
        "sdf_par_do".to_string(),
        PTransform {
            unique_name: "sdf_par_do".to_string(),
            spec: Some(FunctionSpec {
                urn: urns::PAR_DO_TRANSFORM.to_string(),
                payload: payload.encode_to_vec(),
            }),
            inputs: one("in", "in_pcol"),
            outputs: one("out", "out_pcol"),
            subtransforms: Vec::new(),
            environment_id: "env1".to_string(),
        },
    );

    comps
}

#[test]
fn non_splittable_par_do_is_not_expanded() {
    let mut comps = Components::empty();
    comps.pcollections.insert(
        "in_pcol".to_string(),
        make_pcol("in_pcol", "elem_coder", 1, "global_window"),
    );

    let payload = non_splittable_payload();
    comps.transforms.insert(
        "plain_par_do".to_string(),
        PTransform {
            unique_name: "plain_par_do".to_string(),
            spec: Some(FunctionSpec {
                urn: urns::PAR_DO_TRANSFORM.to_string(),
                payload: payload.encode_to_vec(),
            }),
            inputs: one("in", "in_pcol"),
            outputs: one("out", "out_pcol"),
            subtransforms: Vec::new(),
            environment_id: "env1".to_string(),
        },
    );

    let pipeline = Pipeline {
        components: Some(comps),
        root_transform_ids: Vec::new(),
    };

    let result = ProtoOverrides::update_transform(
        urns::PAR_DO_TRANSFORM,
        &pipeline,
        &SplittableParDoExpander::create_sized_replacement(),
    );

    let result_comps = result.components.as_ref().unwrap();
    let pt = result_comps.transforms.get("plain_par_do").unwrap();
    assert!(pt.spec.is_some(), "spec should still be present");
    assert!(pt.subtransforms.is_empty(), "no subtransforms expected");
}

#[test]
fn splittable_par_do_is_expanded_into_composite() {
    let comps = make_components_for_sdf();

    let pipeline = Pipeline {
        components: Some(comps),
        root_transform_ids: Vec::new(),
    };

    let result = ProtoOverrides::update_transform(
        urns::PAR_DO_TRANSFORM,
        &pipeline,
        &SplittableParDoExpander::create_sized_replacement(),
    );

    let result_comps = result.components.as_ref().unwrap();

    // The original transform should now be a composite (no spec).
    let root_pt = result_comps.transforms.get("sdf_par_do").unwrap();
    assert!(
        root_pt.spec.is_none(),
        "root should have no spec (composite)"
    );
    assert_eq!(root_pt.subtransforms.len(), 3, "expected 3 subtransforms");

    // Verify subtransforms exist
    let pair_id = &root_pt.subtransforms[0];
    let split_id = &root_pt.subtransforms[1];
    let process_id = &root_pt.subtransforms[2];

    let pair = result_comps.transforms.get(pair_id).unwrap();
    assert_eq!(
        pair.spec.as_ref().unwrap().urn,
        urns::SPLITTABLE_PAIR_WITH_RESTRICTION_URN
    );

    let split = result_comps.transforms.get(split_id).unwrap();
    assert_eq!(
        split.spec.as_ref().unwrap().urn,
        urns::SPLITTABLE_SPLIT_AND_SIZE_RESTRICTIONS_URN
    );

    let process = result_comps.transforms.get(process_id).unwrap();
    assert_eq!(
        process.spec.as_ref().unwrap().urn,
        urns::SPLITTABLE_PROCESS_SIZED_ELEMENTS_AND_RESTRICTIONS_URN
    );

    // The composite keeps its output.
    assert_eq!(root_pt.outputs.get("out").unwrap(), "out_pcol");
}

#[test]
fn expanded_sdf_chain_wires_input_to_output() {
    let comps = make_components_for_sdf();

    let pipeline = Pipeline {
        components: Some(comps),
        root_transform_ids: Vec::new(),
    };

    let result = ProtoOverrides::update_transform(
        urns::PAR_DO_TRANSFORM,
        &pipeline,
        &SplittableParDoExpander::create_sized_replacement(),
    );

    let result_comps = result.components.as_ref().unwrap();
    let root_pt = result_comps.transforms.get("sdf_par_do").unwrap();

    let pair_id = &root_pt.subtransforms[0];
    let split_id = &root_pt.subtransforms[1];
    let process_id = &root_pt.subtransforms[2];

    let pair = result_comps.transforms.get(pair_id).unwrap();
    let split = result_comps.transforms.get(split_id).unwrap();
    let process = result_comps.transforms.get(process_id).unwrap();

    // Pair should receive the original main input
    assert_eq!(pair.inputs.get("in").unwrap(), "in_pcol");

    // Pair output -> Split input
    let pair_out = pair.outputs.get("out").unwrap();
    assert_eq!(split.inputs.get("in").unwrap(), pair_out);

    // Split output -> Process input
    let split_out = split.outputs.get("out").unwrap();
    assert_eq!(process.inputs.get("in").unwrap(), split_out);

    // Process output -> original outputs
    assert_eq!(process.outputs.get("out").unwrap(), "out_pcol");
}

#[test]
fn drain_mode_inserts_truncate_and_size() {
    let comps = make_components_for_sdf();

    let pipeline = Pipeline {
        components: Some(comps),
        root_transform_ids: Vec::new(),
    };

    let result = ProtoOverrides::update_transform(
        urns::PAR_DO_TRANSFORM,
        &pipeline,
        &SplittableParDoExpander::create_truncate_replacement(),
    );

    let result_comps = result.components.as_ref().unwrap();
    let root_pt = result_comps.transforms.get("sdf_par_do").unwrap();

    assert_eq!(
        root_pt.subtransforms.len(),
        4,
        "drain mode: 4 subtransforms expected"
    );

    let truncate_id = &root_pt.subtransforms[2];
    let truncate = result_comps.transforms.get(truncate_id).unwrap();
    assert_eq!(
        truncate.spec.as_ref().unwrap().urn,
        urns::SPLITTABLE_TRUNCATE_SIZED_RESTRICTION_URN
    );
}

#[test]
fn generated_ids_are_unique() {
    let existing = vec!["foo0".to_string(), "foo1".to_string()];

    let id = generate_unique_id("foo", &existing);
    assert_eq!(id, "foo2");
}

#[test]
fn double_coder_is_reused() {
    let mut comps = Components::empty();
    comps.coders.insert(
        "existing_double".to_string(),
        Coder {
            spec: Some(FunctionSpec {
                urn: urns::DOUBLE_CODER.to_string(),
                payload: vec![],
            }),
            component_coder_ids: vec![],
        },
    );

    let mut out = Components::empty();
    let id = get_or_add_double_coder(&comps, &mut out);

    assert_eq!(id, "existing_double");
    assert!(out.coders.len() == 0, "no new coder should be created");
}

#[test]
fn double_coder_is_created_when_missing() {
    let comps = Components::empty();
    let mut out = Components::empty();

    let id = get_or_add_double_coder(&comps, &mut out);

    assert!(id.starts_with("DoubleCoder"));
    assert!(out.coders.contains_key(&id));
    assert_eq!(
        out.coders.get(&id).unwrap().spec.as_ref().unwrap().urn,
        urns::DOUBLE_CODER
    );
}

#[test]
fn a_transform_is_expanded_by_its_facts() {
    let comps = make_components_for_sdf();
    let facts = |coder: &str, side: &[&str]| ParDoFacts {
        side_inputs: side.iter().map(|s| s.to_string()).collect(),
        state_specs: Vec::new(),
        timer_families: Vec::new(),
        restriction_coder_id: coder.to_string(),
    };
    let r = expand(false, "sdf_par_do", &comps, &facts("restrictions", &[])).unwrap();
    let root = r.root.unwrap();
    assert_eq!(
        root.subtransforms,
        vec![
            "sdf_par_do/PairWithRestriction0".to_string(),
            "sdf_par_do/SplitAndSize0".to_string(),
            "sdf_par_do/ProcessSizedElementsAndRestrictions0".to_string(),
        ]
    );
    let pairs = r.components.unwrap();
    let coder = pairs.coders.get("elem_coder/PairWithRestriction0").unwrap();
    assert_eq!(
        coder.component_coder_ids,
        vec!["elem_coder".to_string(), "restrictions".to_string()]
    );
    let drained = expand(true, "sdf_par_do", &comps, &facts("restrictions", &[])).unwrap();
    assert_eq!(drained.root.unwrap().subtransforms.len(), 4);
    assert!(expand(false, "sdf_par_do", &comps, &facts("", &[])).is_none());
    assert!(expand(false, "nothing", &comps, &facts("restrictions", &[])).is_none());
}
