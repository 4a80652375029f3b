//! One producer for each collection.
use crate::fusion::ids::unique_id;
use crate::fusion::partials::{
    add_partials, adds, are_partials, deduplicate_stage, deduplicate_transform, distinct_ids,
    is_partial, output_renamed, partial_map, renamed, rewritten, with_outputs, StageDeduplication,
    TransformDeduplication,
};
use crate::fusion::pipeline::{gives, lists, texts_pushed, QueryablePipeline};
use crate::fusion::sanitize::{sanitize_dangling_ptransform_inputs, sanitized};
use crate::fusion::stage::{node_ids, pcol_ids, ExecutableStage, StageV};
use crate::fusion::stage_fuser::pcol_at;
use crate::jobservice::urns;
use crate::model::{
    duplicate_nodes, duplicate_pcols, nodes_model, nodes_wf, pcols_model, text_map, transform_map,
    CollectionV, Components, ComponentsV, FunctionSpec, NodeV, PCollection, PCollectionNode,
    PTransform, PTransformNode, PcolV, SpecV, TransformV,
};
use crate::named::{has_text, texts, NamedMap};
use crate::text::{around_decimal, decimal, same_text};
use crate::utils::errors::BeamTranslationError;
use vstd::prelude::*;
use vstd::string::*;

verus! {

// ---------------------------------------------------------------------------
// Flattens
// ---------------------------------------------------------------------------
/// The local name of the `i`th input of a flatten.
pub open spec fn input_name(i: nat) -> Seq<char> {
    "input_"@ + decimal(i)
}

/// The inputs of a flatten of these collections.
pub open spec fn flatten_inputs(ids: Seq<Seq<char>>) -> Map<Seq<char>, Seq<char>>
    decreases ids.len(),
{
    if ids.len() == 0 {
        Map::empty()
    } else {
        flatten_inputs(ids.drop_last()).insert(input_name((ids.len() - 1) as nat), ids.last())
    }
}

/// A flatten of these collections into one.
pub open spec fn flatten_of(id: Seq<char>, output: Seq<char>, ids: Seq<Seq<char>>) -> TransformV {
    TransformV {
        unique_name: id,
        spec: Some(SpecV { urn: urns::FLATTEN_TRANSFORM@, payload: seq![] }),
        subtransforms: seq![],
        inputs: flatten_inputs(ids),
        outputs: map!["output"@ => output],
        environment_id: seq![],
    }
}

proof fn input_names_differ(i: nat, j: nat)
    requires
        i != j,
    ensures
        input_name(i) != input_name(j),
{
    crate::text::decimal_injective(i, j);
    let a = input_name(i);
    let b = input_name(j);
    if a == b {
        let n = "input_"@.len() as int;
        assert(a.skip(n) =~= decimal(i));
        assert(b.skip(n) =~= decimal(j));
    }
}

/// A flatten takes each of its collections, under a local name of its own.
pub proof fn flatten_takes_all(ids: Seq<Seq<char>>)
    ensures
        forall|i: int|
            0 <= i < ids.len() ==> flatten_inputs(ids).contains_key(#[trigger] input_name(i as nat))
                && flatten_inputs(ids)[input_name(i as nat)] == ids[i],
        forall|n: Seq<char>|
            #[trigger]
            flatten_inputs(ids).contains_key(n) ==> exists|i: int|
                0 <= i < ids.len() && n == #[trigger] input_name(i as nat),
    decreases ids.len(),
{
    if ids.len() > 0 {
        let most = ids.drop_last();
        let last = (ids.len() - 1) as nat;
        flatten_takes_all(most);
        assert forall|i: int| 0 <= i < ids.len() implies flatten_inputs(ids).contains_key(
            #[trigger] input_name(i as nat),
        ) && flatten_inputs(ids)[input_name(i as nat)] == ids[i] by {
            if i < last {
                input_names_differ(i as nat, last);
                assert(most[i] == ids[i]);
            }
        }
        assert forall|n: Seq<char>| #[trigger] flatten_inputs(ids).contains_key(n) implies exists|
            i: int,
        |
            0 <= i < ids.len() && n == #[trigger] input_name(i as nat) by {
            if n == input_name(last) {
                assert(n == input_name((ids.len() - 1) as nat));
            } else {
                assert(flatten_inputs(most).contains_key(n));
                let i = choose|i: int|
                    0 <= i < most.len() && n == #[trigger] input_name(i as nat);
                assert(n == input_name(i as nat));
            }
        }
    }
}

/// A flatten of the partial collections into the original one.
pub fn create_flatten_of_partials(
    transform_id: &str,
    output_pcol_id: &str,
    inputs: &Vec<String>,
) -> (r: PTransform)
    ensures
        r.wf(),
        r.model() == flatten_of(transform_id@, output_pcol_id@, texts(inputs@)),
{
    let ghost ids = texts(inputs@);
    let n: usize = inputs.len();
    let mut map: NamedMap<String> = NamedMap::new();
    let mut i: usize = 0;
    proof {
        assert(ids.take(0) =~= seq![]);
        assert(text_map(map) =~= Map::<Seq<char>, Seq<char>>::empty());
    }
    while i < n
        invariant
            ids == texts(inputs@),
            n == inputs@.len(),
            i <= n,
            map.wf(),
            text_map(map) == flatten_inputs(ids.take(i as int)),
        decreases n - i,
    {
        let ghost before = text_map(map);
        let name: String = around_decimal("input_", i as u64, "");
        proof {
            reveal_strlit("");
            assert(name@ =~= input_name(i as nat));
            assert(ids.take(i + 1).drop_last() =~= ids.take(i as int));
            assert(ids.take(i + 1).last() == inputs@[i as int]@);
        }
        map.insert(name, inputs[i].clone());
        assert(text_map(map) =~= before.insert(input_name(i as nat), inputs@[i as int]@));
        i = i + 1;
    }
    let mut outputs: NamedMap<String> = NamedMap::new();
    outputs.insert("output".to_owned(), output_pcol_id.to_owned());
    proof {
        assert(ids.take(n as int) =~= ids);
        assert(text_map(outputs) =~= map!["output"@ => output_pcol_id@]);
    }
    let r = PTransform {
        unique_name: transform_id.to_owned(),
        spec: Some(
            FunctionSpec { urn: urns::FLATTEN_TRANSFORM.to_owned(), payload: Vec::new() },
        ),
        subtransforms: Vec::new(),
        inputs: map,
        outputs,
        environment_id: String::new(),
    };
    proof {
        assert(r.model() =~= flatten_of(transform_id@, output_pcol_id@, ids));
    }
    r
}

// ---------------------------------------------------------------------------
// Producers
// ---------------------------------------------------------------------------
/// Whether the `k`th producer fills the collection; the stages come first, then the
/// unfused transforms.
pub open spec fn fills(
    c: ComponentsV,
    stages: Seq<ExecutableStage>,
    unfused: Seq<PTransformNode>,
    k: int,
    p: Seq<char>,
) -> bool {
    if 0 <= k < stages.len() {
        pcol_ids(stages[k].output_pcols@).contains(p)
    } else {
        stages.len() <= k < stages.len() + unfused.len() && gives(
            c,
            unfused[k - stages.len()].transform.model(),
            p,
        )
    }
}

/// Whether several producers fill the collection.
pub open spec fn contested(
    c: ComponentsV,
    stages: Seq<ExecutableStage>,
    unfused: Seq<PTransformNode>,
    p: Seq<char>,
) -> bool {
    exists|j: int, k: int|
        j != k && #[trigger] fills(c, stages, unfused, j, p) && #[trigger] fills(
            c,
            stages,
            unfused,
            k,
            p,
        )
}

/// The outputs of every producer.
pub fn collect_producers(
    pipeline: &QueryablePipeline,
    stages: &Vec<ExecutableStage>,
    unfused: &Vec<PTransformNode>,
) -> (r: Vec<Vec<PCollectionNode>>)
    requires
        pipeline.wf(),
        nodes_wf(unfused@),
    ensures
        r@.len() == stages@.len() + unfused@.len(),
        forall|k: int|
            0 <= k < stages@.len() ==> pcols_model((#[trigger] r@[k])@) == pcols_model(
                stages@[k].output_pcols@,
            ),
        forall|k: int, p: Seq<char>|
            0 <= k < r@.len() ==> (#[trigger] pcol_ids(r@[k]@).contains(p) <==> fills(
                pipeline.model(),
                stages@,
                unfused@,
                k,
                p,
            )),
        forall|k: int|
            stages@.len() <= k < r@.len() ==> pcol_ids((#[trigger] r@[k])@).no_duplicates()
                && forall|i: int|
                0 <= i < r@[k]@.len() ==> (#[trigger] r@[k]@[i]).model() == pcol_at(
                    pipeline.model(),
                    r@[k]@[i].id@,
                ),
{
    let ghost c = pipeline.model();
    let mut out: Vec<Vec<PCollectionNode>> = Vec::new();
    let s: usize = stages.len();
    let u: usize = unfused.len();
    let mut i: usize = 0;
    while i < s
        invariant
            s == stages@.len(),
            i <= s,
            out@.len() == i,
            forall|k: int|
                0 <= k < i ==> pcols_model((#[trigger] out@[k])@) == pcols_model(
                    stages@[k].output_pcols@,
                ),
        decreases s - i,
    {
        out.push(duplicate_pcols(&stages[i].output_pcols));
        i = i + 1;
    }
    let mut j: usize = 0;
    while j < u
        invariant
            pipeline.wf(),
            nodes_wf(unfused@),
            c == pipeline.model(),
            s == stages@.len(),
            u == unfused@.len(),
            j <= u,
            out@.len() == s + j,
            forall|k: int|
                0 <= k < s ==> pcols_model((#[trigger] out@[k])@) == pcols_model(
                    stages@[k].output_pcols@,
                ),
            forall|k: int, p: Seq<char>|
                s <= k < s + j ==> (#[trigger] pcol_ids(out@[k]@).contains(p) <==> gives(
                    c,
                    unfused@[k - s].transform.model(),
                    p,
                )),
            forall|k: int|
                s <= k < s + j ==> pcol_ids((#[trigger] out@[k])@).no_duplicates() && forall|i: int|
                    0 <= i < out@[k]@.len() ==> (#[trigger] out@[k]@[i]).model() == pcol_at(
                        c,
                        out@[k]@[i].id@,
                    ),
        decreases u - j,
    {
        assert(unfused@[j as int].wf());
        let ghost before = out@;
        let ids: Vec<String> = pipeline.output_ids(&unfused[j].transform);
        let pcols: Vec<PCollectionNode> = pipeline.pcollection_nodes(&ids);
        proof {
            assert forall|i: int| 0 <= i < pcols@.len() implies (#[trigger] pcols@[i]).model()
                == pcol_at(c, pcols@[i].id@) && pcols@[i].id@ == ids@[i]@ by {
                assert(pcols@[i].model().id == ids@[i]@);
            }
            assert(pcol_ids(pcols@) =~= texts(ids@));
        }
        out.push(pcols);
        proof {
            assert forall|k: int| 0 <= k < s + j implies out@[k] == before[k] by {}
        }
        j = j + 1;
    }
    proof {
        assert forall|k: int, p: Seq<char>| 0 <= k < out@.len() implies (#[trigger] pcol_ids(
            out@[k]@,
        ).contains(p) <==> fills(c, stages@, unfused@, k, p)) by {
            if k < s {
                same_ids(out@[k]@, stages@[k].output_pcols@);
            }
        }
    }
    out
}

proof fn same_ids(a: Seq<PCollectionNode>, b: Seq<PCollectionNode>)
    requires
        pcols_model(a) == pcols_model(b),
    ensures
        pcol_ids(a) == pcol_ids(b),
{
    assert(pcols_model(a).len() == a.len());
    assert(pcols_model(b).len() == b.len());
    assert forall|i: int| 0 <= i < a.len() implies pcol_ids(a)[i] == pcol_ids(b)[i] by {
        assert(pcols_model(a)[i].id == pcols_model(b)[i].id);
    }
    assert(pcol_ids(a) =~= pcol_ids(b));
}

/// Whether the collection is among these.
fn lists_id(pcols: &Vec<PCollectionNode>, id: &str) -> (r: bool)
    ensures
        r == pcol_ids(pcols@).contains(id@),
{
    let n: usize = pcols.len();
    let mut i: usize = 0;
    while i < n
        invariant
            n == pcols@.len(),
            i <= n,
            forall|k: int| 0 <= k < i ==> (#[trigger] pcols@[k]).id@ != id@,
        decreases n - i,
    {
        if same_text(pcols[i].id.as_str(), id) {
            assert(pcol_ids(pcols@)[i as int] == id@);
            return true;
        }
        i = i + 1;
    }
    false
}

/// Whether another producer than the `k`th fills the collection.
fn filled_elsewhere(outs: &Vec<Vec<PCollectionNode>>, k: usize, id: &str) -> (r: bool)
    ensures
        r == exists|j: int|
            0 <= j < outs@.len() && j != k && pcol_ids((#[trigger] outs@[j])@).contains(id@),
{
    let n: usize = outs.len();
    let mut j: usize = 0;
    while j < n
        invariant
            n == outs@.len(),
            j <= n,
            forall|i: int|
                0 <= i < j && i != k ==> !pcol_ids((#[trigger] outs@[i])@).contains(id@),
        decreases n - j,
    {
        if j != k && lists_id(&outs[j], id) {
            assert(pcol_ids(outs@[j as int]@).contains(id@));
            return true;
        }
        j = j + 1;
    }
    false
}

/// Whether several of the lists hold the collection.
pub open spec fn in_several(outs: Seq<Vec<PCollectionNode>>, p: Seq<char>) -> bool {
    exists|j: int, k: int|
        0 <= j < outs.len() && 0 <= k < outs.len() && j != k && #[trigger] pcol_ids(
            outs[j]@,
        ).contains(p) && #[trigger] pcol_ids(outs[k]@).contains(p)
}

/// Whether the collection is one of these.
pub open spec fn is_among(x: PcolV, s: Seq<PCollectionNode>) -> bool {
    exists|j: int| 0 <= j < s.len() && (#[trigger] s[j]).model() == x
}

/// The outputs of the `k`th producer that others fill too.
fn duplicates_of(outs: &Vec<Vec<PCollectionNode>>, k: usize) -> (r: Vec<PCollectionNode>)
    requires
        k < outs@.len(),
    ensures
        forall|p: Seq<char>|
            #[trigger]
            pcol_ids(r@).contains(p) <==> pcol_ids(outs@[k as int]@).contains(p) && in_several(
                outs@,
                p,
            ),
        forall|i: int|
            0 <= i < r@.len() ==> is_among((#[trigger] r@[i]).model(), outs@[k as int]@),
        pcol_ids(r@).no_duplicates() <==> forall|i: int, j: int|
            0 <= i < j < outs@[k as int]@.len() && in_several(
                outs@,
                outs@[k as int]@[i].id@,
            ) ==> #[trigger] outs@[k as int]@[i].id@ != #[trigger] outs@[k as int]@[j].id@,
{
    let ghost mine = outs@[k as int]@;
    let n: usize = outs[k].len();
    let mut out: Vec<PCollectionNode> = Vec::new();
    let mut i: usize = 0;
    let ghost mut at: Seq<int> = seq![];
    while i < n
        invariant
            k < outs@.len(),
            mine == outs@[k as int]@,
            n == mine.len(),
            i <= n,
            at.len() == out@.len(),
            forall|a: int|
                0 <= a < at.len() ==> 0 <= #[trigger] at[a] < i && out@[a].model()
                    == mine[at[a]].model() && in_several(outs@, out@[a].id@),
            forall|a: int, b: int| 0 <= a < b < at.len() ==> #[trigger] at[a] < #[trigger] at[b],
            forall|j: int|
                0 <= j < i && in_several(outs@, (#[trigger] mine[j]).id@) ==> exists|a: int|
                    0 <= a < at.len() && #[trigger] at[a] == j,
        decreases n - i,
    {
        let ghost before = out@;
        let ghost old_at = at;
        let ghost id = mine[i as int].id@;
        assert(pcol_ids(mine)[i as int] == id);
        assert(pcol_ids(outs@[k as int]@).contains(id));
        if filled_elsewhere(outs, k, outs[k][i].id.as_str()) {
            out.push(outs[k][i].duplicate());
            proof {
                let j = choose|j: int|
                    0 <= j < outs@.len() && j != k && pcol_ids((#[trigger] outs@[j])@).contains(
                        id,
                    );
                assert(pcol_ids(outs@[j]@).contains(id));
                at = at.push(i as int);
                assert(out@.last().model().id == id);
                assert forall|a: int| 0 <= a < at.len() implies 0 <= #[trigger] at[a] < i + 1
                    && out@[a].model() == mine[at[a]].model() && in_several(
                    outs@,
                    out@[a].id@,
                ) by {
                    if a < before.len() {
                        assert(old_at[a] == at[a]);
                        assert(out@[a] == before[a]);
                    }
                }
                assert forall|a: int, b: int| 0 <= a < b < at.len() implies #[trigger] at[a]
                    < #[trigger] at[b] by {
                    assert(old_at[a] == at[a]);
                    if b < before.len() {
                        assert(old_at[b] == at[b]);
                    }
                }
                assert forall|j: int|
                    0 <= j < i + 1 && in_several(
                        outs@,
                        (#[trigger] mine[j]).id@,
                    ) implies exists|a: int| 0 <= a < at.len() && #[trigger] at[a] == j by {
                    if j == i {
                        assert(at[before.len() as int] == j);
                    } else {
                        let a = choose|a: int| 0 <= a < old_at.len() && #[trigger] old_at[a] == j;
                        assert(at[a] == j);
                    }
                }
            }
        } else {
            proof {
                assert(!in_several(outs@, id)) by {
                    if in_several(outs@, id) {
                        let (a, b) = choose|a: int, b: int|
                            0 <= a < outs@.len() && 0 <= b < outs@.len() && a != b
                                && #[trigger] pcol_ids(outs@[a]@).contains(id)
                                && #[trigger] pcol_ids(outs@[b]@).contains(id);
                        assert(outs@[a] == outs@[a]);
                        assert(outs@[b] == outs@[b]);
                    }
                }
            }
        }
        i = i + 1;
    }
    proof {
        assert forall|p: Seq<char>|
            #[trigger]
            pcol_ids(out@).contains(p) <==> pcol_ids(mine).contains(p) && in_several(
                outs@,
                p,
            ) by {
            if pcol_ids(out@).contains(p) {
                let a = choose|a: int| 0 <= a < pcol_ids(out@).len() && pcol_ids(out@)[a] == p;
                assert(out@[a].model().id == mine[at[a]].model().id);
                assert(pcol_ids(mine)[at[a]] == p);
            }
            if pcol_ids(mine).contains(p) && in_several(outs@, p) {
                let j = choose|j: int| 0 <= j < pcol_ids(mine).len() && pcol_ids(mine)[j] == p;
                assert(mine[j].id@ == p);
                let a = choose|a: int| 0 <= a < at.len() && #[trigger] at[a] == j;
                assert(out@[a].model().id == mine[j].model().id);
                assert(pcol_ids(out@)[a] == p);
            }
        }
        assert forall|a: int| 0 <= a < out@.len() implies is_among(
            (#[trigger] out@[a]).model(),
            mine,
        ) by {
            assert(out@[a].model() == mine[at[a]].model());
        }
        if pcol_ids(out@).no_duplicates() {
            assert forall|i: int, j: int|
                0 <= i < j < mine.len() && in_several(outs@, mine[i].id@) implies #[trigger] mine[i].id@
                != #[trigger] mine[j].id@ by {
                if mine[i].id@ == mine[j].id@ {
                    let a = choose|a: int| 0 <= a < at.len() && #[trigger] at[a] == i;
                    let b = choose|b: int| 0 <= b < at.len() && #[trigger] at[b] == j;
                    assert(out@[a].model().id == mine[i].model().id);
                    assert(out@[b].model().id == mine[j].model().id);
                    assert(pcol_ids(out@)[a] == pcol_ids(out@)[b]);
                }
            }
        } else {
            let (a, b) = choose|a: int, b: int|
                0 <= a < pcol_ids(out@).len() && 0 <= b < pcol_ids(out@).len() && a != b
                    && pcol_ids(out@)[a] == pcol_ids(out@)[b];
            let (x, y) = if a < b {
                (a, b)
            } else {
                (b, a)
            };
            assert(at[x] < at[y]);
            assert(out@[x].model().id == mine[at[x]].model().id);
            assert(out@[y].model().id == mine[at[y]].model().id);
            assert(mine[at[x]].id@ == mine[at[y]].id@);
            assert(in_several(outs@, mine[at[x]].id@));
        }
    }
    out
}

/// The collections that several producers fill, each once.
fn contested_ids(outs: &Vec<Vec<PCollectionNode>>) -> (r: Vec<String>)
    ensures
        lists(r@, |p: Seq<char>| in_several(outs@, p)),
{
    let n: usize = outs.len();
    let mut out: Vec<String> = Vec::new();
    let mut k: usize = 0;
    assert(texts(out@) =~= seq![]);
    while k < n
        invariant
            n == outs@.len(),
            k <= n,
            texts(out@).no_duplicates(),
            forall|p: Seq<char>|
                #[trigger]
                texts(out@).contains(p) <==> in_several(outs@, p) && exists|j: int|
                    0 <= j < k && pcol_ids((#[trigger] outs@[j])@).contains(p),
        decreases n - k,
    {
        let dups: Vec<PCollectionNode> = duplicates_of(outs, k);
        let m: usize = dups.len();
        let mut i: usize = 0;
        let ghost start = texts(out@);
        assert(pcol_ids(dups@).take(0) =~= seq![]);
        while i < m
            invariant
                m == dups@.len(),
                i <= m,
                texts(out@).no_duplicates(),
                forall|p: Seq<char>|
                    #[trigger]
                    texts(out@).contains(p) <==> start.contains(p) || pcol_ids(dups@).take(
                        i as int,
                    ).contains(p),
            decreases m - i,
        {
            let ghost before = out@;
            proof {
                crate::fusion::sanitize::taken_one_more(pcol_ids(dups@), i as int);
                assert(pcol_ids(dups@)[i as int] == dups@[i as int].id@);
            }
            if !has_text(&out, dups[i].id.as_str()) {
                out.push(dups[i].id.clone());
                proof {
                    assert(out@.drop_last() =~= before);
                    texts_pushed(before, out@);
                }
            }
            i = i + 1;
        }
        proof {
            assert(pcol_ids(dups@).take(m as int) =~= pcol_ids(dups@));
            assert forall|p: Seq<char>|
                #[trigger]
                texts(out@).contains(p) <==> in_several(outs@, p) && exists|j: int|
                    0 <= j < k + 1 && pcol_ids((#[trigger] outs@[j])@).contains(p) by {
                if pcol_ids(dups@).contains(p) {
                    assert(pcol_ids(outs@[k as int]@).contains(p));
                }
                if start.contains(p) {
                    let j = choose|j: int|
                        0 <= j < k && pcol_ids((#[trigger] outs@[j])@).contains(p);
                    assert(pcol_ids(outs@[j]@).contains(p));
                }
                if in_several(outs@, p) && exists|j: int|
                    0 <= j < k + 1 && pcol_ids((#[trigger] outs@[j])@).contains(p) {
                    let j = choose|j: int|
                        0 <= j < k + 1 && pcol_ids((#[trigger] outs@[j])@).contains(p);
                    if j < k {
                        assert(start.contains(p));
                    } else {
                        assert(pcol_ids(dups@).contains(p));
                    }
                }
            }
        }
        k = k + 1;
    }
    proof {
        assert forall|p: Seq<char>|
            #[trigger]
            texts(out@).contains(p) <==> in_several(outs@, p) by {
            if in_several(outs@, p) {
                let (a, b) = choose|a: int, b: int|
                    0 <= a < outs@.len() && 0 <= b < outs@.len() && a != b && #[trigger] pcol_ids(
                        outs@[a]@,
                    ).contains(p) && #[trigger] pcol_ids(outs@[b]@).contains(p);
                assert(pcol_ids(outs@[a]@).contains(p));
            }
        }
    }
    out
}

// ---------------------------------------------------------------------------
// All partial collections
// ---------------------------------------------------------------------------
/// The partial collections of every producer.
pub open spec fn partial_maps(s: Seq<NamedMap<PCollectionNode>>) -> Seq<Map<Seq<char>, PcolV>> {
    Seq::new(s.len(), |k: int| partial_map(s[k]))
}

/// Whether the `k`th producer has a partial collection for `p`.
pub open spec fn has(pms: Seq<Map<Seq<char>, PcolV>>, k: int, p: Seq<char>) -> bool {
    0 <= k < pms.len() && pms[k].contains_key(p)
}

/// Whether the id is that of some partial collection.
pub open spec fn is_any_partial(pms: Seq<Map<Seq<char>, PcolV>>, x: Seq<char>) -> bool {
    exists|k: int, p: Seq<char>| #[trigger] has(pms, k, p) && pms[k][p].id == x
}

/// Whether the partial collections have ids of their own, that are not taken.
pub open spec fn all_new(
    taken: Map<Seq<char>, CollectionV>,
    pms: Seq<Map<Seq<char>, PcolV>>,
) -> bool {
    &&& forall|k: int, p: Seq<char>|
        #[trigger]
        has(pms, k, p) ==> !taken.contains_key(pms[k][p].id)
    &&& forall|j: int, p: Seq<char>, k: int, q: Seq<char>|
        #[trigger]
        has(pms, j, p) && #[trigger] has(pms, k, q) && pms[j][p].id == pms[k][q].id ==> j == k && p
            == q
}

/// Whether `after` holds the collections of `before` and all partial ones.
pub open spec fn all_added(
    before: Map<Seq<char>, CollectionV>,
    pms: Seq<Map<Seq<char>, PcolV>>,
    after: Map<Seq<char>, CollectionV>,
) -> bool {
    &&& forall|x: Seq<char>|
        #[trigger]
        after.contains_key(x) <==> before.contains_key(x) || is_any_partial(pms, x)
    &&& forall|k: int, p: Seq<char>|
        #[trigger]
        has(pms, k, p) ==> after[pms[k][p].id] == pms[k][p].collection
    &&& forall|x: Seq<char>| #[trigger] before.contains_key(x) ==> after[x] == before[x]
}

/// Adding the partial collections of one more producer.
#[verifier::rlimit(30)]
proof fn one_more_producer(
    before: Map<Seq<char>, CollectionV>,
    pms: Seq<Map<Seq<char>, PcolV>>,
    cur: Map<Seq<char>, CollectionV>,
    m: Map<Seq<char>, PcolV>,
    after: Map<Seq<char>, CollectionV>,
)
    requires
        all_new(before, pms),
        all_added(before, pms, cur),
        adds(cur, m, after),
        distinct_ids(m),
        forall|p: Seq<char>| #[trigger] m.contains_key(p) ==> !cur.contains_key(m[p].id),
    ensures
        all_new(before, pms.push(m)),
        all_added(before, pms.push(m), after),
{
    let all = pms.push(m);
    let n = pms.len() as int;
    assert forall|k: int, p: Seq<char>| #[trigger] has(all, k, p) implies (k < n ==> has(pms, k, p)
        && all[k] == pms[k]) && (k == n ==> m.contains_key(p) && all[k] == m) by {
        if k < n {
            assert(all[k] == pms[k]);
        }
    }
    assert forall|k: int, p: Seq<char>| #[trigger] has(pms, k, p) implies has(all, k, p) && all[k]
        == pms[k] by {
        assert(all[k] == pms[k]);
    }
    assert forall|p: Seq<char>| #[trigger] m.contains_key(p) implies has(all, n, p) && all[n]
        == m by {
        assert(all[n] == m);
    }
    assert forall|k: int, p: Seq<char>| #[trigger] has(pms, k, p) implies cur.contains_key(
        pms[k][p].id,
    ) && !is_partial(m, pms[k][p].id) by {
        let x = pms[k][p].id;
        assert(is_any_partial(pms, x));
        assert(cur.contains_key(x));
        if is_partial(m, x) {
            let q = choose|q: Seq<char>| #[trigger] m.contains_key(q) && m[q].id == x;
            assert(!cur.contains_key(m[q].id));
        }
    }
    assert forall|k: int, p: Seq<char>| #[trigger] has(all, k, p) implies !before.contains_key(
        all[k][p].id,
    ) && after[all[k][p].id] == all[k][p].collection by {
        if k < n {
            assert(has(pms, k, p));
            assert(cur.contains_key(pms[k][p].id));
        } else {
            assert(m.contains_key(p));
        }
    }
    assert forall|j: int, p: Seq<char>, k: int, q: Seq<char>|
        #[trigger]
        has(all, j, p) && #[trigger] has(all, k, q) && all[j][p].id == all[k][q].id implies j == k
        && p == q by {
        if j < n && k < n {
            assert(has(pms, j, p) && has(pms, k, q));
        } else if j < n {
            assert(has(pms, j, p));
            assert(m.contains_key(q));
            assert(cur.contains_key(pms[j][p].id));
        } else if k < n {
            assert(has(pms, k, q));
            assert(m.contains_key(p));
            assert(cur.contains_key(pms[k][q].id));
        } else {
            assert(m.contains_key(p) && m.contains_key(q));
        }
    }
    assert forall|x: Seq<char>|
        #[trigger]
        after.contains_key(x) <==> before.contains_key(x) || is_any_partial(all, x) by {
        if is_any_partial(pms, x) {
            let (k, p) = choose|k: int, p: Seq<char>| #[trigger] has(pms, k, p) && pms[k][p].id == x;
            assert(has(all, k, p));
        }
        if is_partial(m, x) {
            let p = choose|p: Seq<char>| #[trigger] m.contains_key(p) && m[p].id == x;
            assert(has(all, n, p));
        }
        if is_any_partial(all, x) {
            let (k, p) = choose|k: int, p: Seq<char>| #[trigger] has(all, k, p) && all[k][p].id == x;
            if k < n {
                assert(has(pms, k, p));
                assert(is_any_partial(pms, x));
            } else {
                assert(m.contains_key(p));
                assert(is_partial(m, x));
            }
        }
    }
    assert forall|x: Seq<char>| #[trigger] before.contains_key(x) implies after[x] == before[x] by {
        assert(cur.contains_key(x));
        if is_partial(m, x) {
            let q = choose|q: Seq<char>| #[trigger] m.contains_key(q) && m[q].id == x;
            assert(!cur.contains_key(m[q].id));
        }
    }
}

/// Whether `m` is a copy of the output `p` of the `k`th producer.
pub open spec fn copies(
    c: ComponentsV,
    stages: Seq<ExecutableStage>,
    k: int,
    p: Seq<char>,
    m: PcolV,
) -> bool {
    if k < stages.len() {
        exists|i: int|
            0 <= i < stages[k].output_pcols@.len() && (#[trigger] stages[k].output_pcols@[i]).id@
                == p && m.collection == (CollectionV {
                unique_name: m.id,
                ..stages[k].output_pcols@[i].collection.model()
            })
    } else {
        m.collection == (CollectionV { unique_name: m.id, ..c.pcollections[p] })
    }
}

/// Whether the `k`th producer has partial collections for those of its outputs that
/// others fill too.
pub open spec fn partials_right(
    c: ComponentsV,
    stages: Seq<ExecutableStage>,
    unfused: Seq<PTransformNode>,
    k: int,
    m: Map<Seq<char>, PcolV>,
) -> bool {
    &&& forall|p: Seq<char>|
        #[trigger]
        m.contains_key(p) <==> fills(c, stages, unfused, k, p) && contested(c, stages, unfused, p)
    &&& forall|p: Seq<char>| #[trigger] m.contains_key(p) ==> copies(c, stages, k, p, m[p])
}

/// The lists of `collect_producers`.
pub open spec fn are_outputs(
    c: ComponentsV,
    stages: Seq<ExecutableStage>,
    unfused: Seq<PTransformNode>,
    outs: Seq<Vec<PCollectionNode>>,
) -> bool {
    &&& outs.len() == stages.len() + unfused.len()
    &&& forall|k: int|
        0 <= k < stages.len() ==> pcols_model((#[trigger] outs[k])@) == pcols_model(
            stages[k].output_pcols@,
        )
    &&& forall|k: int, p: Seq<char>|
        0 <= k < outs.len() ==> (#[trigger] pcol_ids(outs[k]@).contains(p) <==> fills(
            c,
            stages,
            unfused,
            k,
            p,
        ))
    &&& forall|k: int|
        stages.len() <= k < outs.len() ==> pcol_ids((#[trigger] outs[k])@).no_duplicates()
            && forall|i: int|
            0 <= i < outs[k]@.len() ==> (#[trigger] outs[k]@[i]).model() == pcol_at(
                c,
                outs[k]@[i].id@,
            )
}

proof fn several_is_contested(
    c: ComponentsV,
    stages: Seq<ExecutableStage>,
    unfused: Seq<PTransformNode>,
    outs: Seq<Vec<PCollectionNode>>,
    p: Seq<char>,
)
    requires
        are_outputs(c, stages, unfused, outs),
    ensures
        in_several(outs, p) == contested(c, stages, unfused, p),
{
    if in_several(outs, p) {
        let (j, k) = choose|j: int, k: int|
            0 <= j < outs.len() && 0 <= k < outs.len() && j != k && #[trigger] pcol_ids(
                outs[j]@,
            ).contains(p) && #[trigger] pcol_ids(outs[k]@).contains(p);
        assert(fills(c, stages, unfused, j, p) && fills(c, stages, unfused, k, p));
    }
    if contested(c, stages, unfused, p) {
        let (j, k) = choose|j: int, k: int|
            j != k && #[trigger] fills(c, stages, unfused, j, p) && #[trigger] fills(
                c,
                stages,
                unfused,
                k,
                p,
            );
        assert(pcol_ids(outs[j]@).contains(p));
        assert(pcol_ids(outs[k]@).contains(p));
    }
}

/// The partial collections for the duplicates of a producer are right.
proof fn minted_are_right(
    c: ComponentsV,
    stages: Seq<ExecutableStage>,
    unfused: Seq<PTransformNode>,
    outs: Seq<Vec<PCollectionNode>>,
    k: int,
    dups: Seq<PCollectionNode>,
    taken: Set<Seq<char>>,
    m: Map<Seq<char>, PcolV>,
)
    requires
        are_outputs(c, stages, unfused, outs),
        0 <= k < outs.len(),
        forall|p: Seq<char>|
            #[trigger]
            pcol_ids(dups).contains(p) <==> pcol_ids(outs[k]@).contains(p) && in_several(outs, p),
        forall|i: int| 0 <= i < dups.len() ==> is_among((#[trigger] dups[i]).model(), outs[k]@),
        are_partials(pcols_model(dups), taken, m),
    ensures
        partials_right(c, stages, unfused, k, m),
{
    let d = pcols_model(dups);
    assert forall|p: Seq<char>| #[trigger] m.contains_key(p) <==> pcol_ids(dups).contains(p) by {
        if m.contains_key(p) {
            let i = choose|i: int| 0 <= i < d.len() && (#[trigger] d[i]).id == p;
            assert(pcol_ids(dups)[i] == p);
        }
        if pcol_ids(dups).contains(p) {
            let i = choose|i: int| 0 <= i < pcol_ids(dups).len() && pcol_ids(dups)[i] == p;
            assert(d[i].id == p);
        }
    }
    assert forall|p: Seq<char>|
        #[trigger]
        m.contains_key(p) <==> fills(c, stages, unfused, k, p) && contested(
            c,
            stages,
            unfused,
            p,
        ) by {
        several_is_contested(c, stages, unfused, outs, p);
        assert(pcol_ids(outs[k]@).contains(p) <==> fills(c, stages, unfused, k, p));
        assert(m.contains_key(p) <==> pcol_ids(dups).contains(p));
    }
    assert forall|p: Seq<char>| #[trigger] m.contains_key(p) implies copies(
        c,
        stages,
        k,
        p,
        m[p],
    ) by {
        let i = choose|i: int| 0 <= i < d.len() && (#[trigger] d[i]).id == p;
        assert(d[i] == dups[i].model());
        assert(is_among(dups[i].model(), outs[k]@));
        let j = choose|j: int| 0 <= j < outs[k]@.len() && (#[trigger] outs[k]@[j]).model() == d[i];
        if k < stages.len() {
            let o = stages[k].output_pcols@;
            assert(pcols_model(outs[k]@) == pcols_model(o));
            assert(pcols_model(outs[k]@).len() == outs[k]@.len());
            assert(pcols_model(o).len() == o.len());
            assert(pcols_model(outs[k]@)[j] == pcols_model(o)[j]);
            assert(o[j].model() == d[i]);
            assert(o[j].id@ == p);
        } else {
            assert(outs[k]@[j].model() == pcol_at(c, outs[k]@[j].id@));
            assert(outs[k]@[j].id@ == p);
        }
    }
}

/// Where there are no duplicates, no partial collections are right.
proof fn none_is_right(
    c: ComponentsV,
    stages: Seq<ExecutableStage>,
    unfused: Seq<PTransformNode>,
    outs: Seq<Vec<PCollectionNode>>,
    k: int,
    dups: Seq<PCollectionNode>,
)
    requires
        are_outputs(c, stages, unfused, outs),
        0 <= k < outs.len(),
        forall|p: Seq<char>|
            #[trigger]
            pcol_ids(dups).contains(p) <==> pcol_ids(outs[k]@).contains(p) && in_several(outs, p),
        dups.len() == 0,
    ensures
        partials_right(c, stages, unfused, k, Map::empty()),
{
    assert forall|p: Seq<char>|
        !(fills(c, stages, unfused, k, p) && #[trigger] contested(c, stages, unfused, p)) by {
        several_is_contested(c, stages, unfused, outs, p);
        assert(!pcol_ids(dups).contains(p));
        assert(pcol_ids(outs[k]@).contains(p) <==> fills(c, stages, unfused, k, p));
    }
}

// ---------------------------------------------------------------------------
// One producer for each collection
// ---------------------------------------------------------------------------
/// What it takes to have one producer for each collection.
pub struct DeduplicationResult {
    /// The components with the partial collections and the flattens.
    pub components: Components,
    /// The flattens of partial collections.
    pub introduced_transforms: Vec<PTransformNode>,
    /// What stands in place of each stage, where it had to be rewritten.
    pub deduplicated_stages: Vec<Option<ExecutableStage>>,
    /// What stands in place of each unfused transform, where it had to be rewritten.
    pub deduplicated_transforms: Vec<Option<PTransformNode>>,
    /// From the outputs of each producer to its partial collections; the stages come
    /// first, then the unfused transforms.
    pub partials: Vec<NamedMap<PCollectionNode>>,
}

/// The ids of the partial collections for `p`, by producer.
pub open spec fn partial_ids(pms: Seq<Map<Seq<char>, PcolV>>, p: Seq<char>) -> Seq<Seq<char>>
    decreases pms.len(),
{
    if pms.len() == 0 {
        seq![]
    } else if pms.last().contains_key(p) {
        partial_ids(pms.drop_last(), p).push(pms.last()[p].id)
    } else {
        partial_ids(pms.drop_last(), p)
    }
}

/// Where a flatten puts its elements.
pub open spec fn flattens_into(node: PTransformNode) -> Seq<char> {
    node.transform.model().outputs["output"@]
}

/// Whether `after` holds the transforms of `before` and some new ones.
pub open spec fn transforms_added(
    before: Map<Seq<char>, TransformV>,
    nodes: Seq<PTransformNode>,
    after: Map<Seq<char>, TransformV>,
) -> bool {
    &&& node_ids(nodes).no_duplicates()
    &&& forall|i: int| 0 <= i < nodes.len() ==> !before.contains_key((#[trigger] nodes[i]).id@)
    &&& forall|x: Seq<char>|
        #[trigger]
        after.contains_key(x) <==> before.contains_key(x) || node_ids(nodes).contains(x)
    &&& forall|i: int|
        0 <= i < nodes.len() ==> after[(#[trigger] nodes[i]).id@] == nodes[i].transform.model()
    &&& forall|x: Seq<char>| #[trigger] before.contains_key(x) ==> after[x] == before[x]
}

/// Whether some stage lists a collection twice that others fill too.
pub open spec fn lists_twice(
    c: ComponentsV,
    stages: Seq<ExecutableStage>,
    unfused: Seq<PTransformNode>,
) -> bool {
    exists|k: int| #[trigger] stage_lists_twice(c, stages, unfused, k)
}

pub open spec fn stage_lists_twice(
    c: ComponentsV,
    stages: Seq<ExecutableStage>,
    unfused: Seq<PTransformNode>,
    k: int,
) -> bool {
    0 <= k < stages.len() && exists|i: int, j: int|
        0 <= i < j < stages[k].output_pcols@.len() && (#[trigger] stages[k].output_pcols@[i]).id@
            == (#[trigger] stages[k].output_pcols@[j]).id@ && contested(
            c,
            stages,
            unfused,
            stages[k].output_pcols@[i].id@,
        )
}

/// Whether the flattens merge the partial collections into the original ones: there
/// is one for each collection that several producers fill.
pub open spec fn flattens_right(
    c: ComponentsV,
    stages: Seq<ExecutableStage>,
    unfused: Seq<PTransformNode>,
    pms: Seq<Map<Seq<char>, PcolV>>,
    flattens: Seq<PTransformNode>,
) -> bool {
    &&& nodes_wf(flattens)
    &&& forall|i: int|
        0 <= i < flattens.len() ==> (#[trigger] flattens[i]).transform.model() == flatten_of(
            flattens[i].id@,
            flattens_into(flattens[i]),
            partial_ids(pms, flattens_into(flattens[i])),
        ) && contested(c, stages, unfused, flattens_into(flattens[i]))
    &&& forall|p: Seq<char>|
        #[trigger]
        contested(c, stages, unfused, p) ==> exists|i: int|
            0 <= i < flattens.len() && flattens_into(#[trigger] flattens[i]) == p
    &&& forall|i: int, j: int|
        0 <= i < j < flattens.len() ==> flattens_into(#[trigger] flattens[i]) != flattens_into(
            #[trigger] flattens[j],
        )
}

/// Whether the `k`th stage is rewritten where it has to be.
pub open spec fn stage_right(
    stage: ExecutableStage,
    m: Map<Seq<char>, PcolV>,
    r: Option<ExecutableStage>,
) -> bool {
    match r {
        Some(s) => s.wf() && rewritten(stage.model(), m, s.model()) && exists|p: Seq<char>|
            m.contains_key(p),
        None => m == Map::<Seq<char>, PcolV>::empty(),
    }
}

/// Whether the transform is rewritten where it has to be.
pub open spec fn transform_right(
    node: PTransformNode,
    m: Map<Seq<char>, PcolV>,
    r: Option<PTransformNode>,
) -> bool {
    match r {
        Some(t) => t.wf() && t.model() == (NodeV {
            id: node.id@,
            transform: with_outputs(node.transform.model(), m),
        }) && exists|p: Seq<char>| m.contains_key(p),
        None => m == Map::<Seq<char>, PcolV>::empty(),
    }
}

/// What `ensure_single_producer` makes of the producers.
pub open spec fn deduplicated(
    c: ComponentsV,
    stages: Seq<ExecutableStage>,
    unfused: Seq<PTransformNode>,
    d: DeduplicationResult,
) -> bool {
    let pms = partial_maps(d.partials@);
    &&& d.partials@.len() == stages.len() + unfused.len()
    &&& forall|k: int| 0 <= k < d.partials@.len() ==> (#[trigger] d.partials@[k]).wf()
    &&& forall|k: int|
        0 <= k < pms.len() ==> partials_right(c, stages, unfused, k, #[trigger] pms[k])
    &&& all_new(c.pcollections, pms)
    &&& d.deduplicated_stages@.len() == stages.len()
    &&& forall|k: int|
        0 <= k < stages.len() ==> stage_right(
            stages[k],
            pms[k],
            #[trigger] d.deduplicated_stages@[k],
        )
    &&& d.deduplicated_transforms@.len() == unfused.len()
    &&& forall|k: int|
        0 <= k < unfused.len() ==> transform_right(
            unfused[k],
            pms[stages.len() + k],
            #[trigger] d.deduplicated_transforms@[k],
        )
    &&& flattens_right(c, stages, unfused, pms, d.introduced_transforms@)
    &&& d.components.wf()
    &&& all_added(c.pcollections, pms, d.components.model().pcollections)
    &&& transforms_added(
        c.transforms,
        d.introduced_transforms@,
        d.components.model().transforms,
    )
    &&& d.components.model() == (ComponentsV {
        transforms: d.components.model().transforms,
        pcollections: d.components.model().pcollections,
        ..c
    })
}

/// The ids of the partial collections for a collection.
fn gather_partials(partials: &Vec<NamedMap<PCollectionNode>>, id: &str) -> (r: Vec<String>)
    requires
        forall|k: int| 0 <= k < partials@.len() ==> (#[trigger] partials@[k]).wf(),
    ensures
        texts(r@) == partial_ids(partial_maps(partials@), id@),
{
    let ghost pms = partial_maps(partials@);
    let n: usize = partials.len();
    let mut out: Vec<String> = Vec::new();
    let mut i: usize = 0;
    assert(pms.take(0) =~= seq![]);
    assert(texts(out@) =~= seq![]);
    while i < n
        invariant
            forall|k: int| 0 <= k < partials@.len() ==> (#[trigger] partials@[k]).wf(),
            pms == partial_maps(partials@),
            n == partials@.len(),
            i <= n,
            texts(out@) == partial_ids(pms.take(i as int), id@),
        decreases n - i,
    {
        let ghost before = out@;
        proof {
            assert(partials@[i as int].wf());
            assert(pms.take(i + 1).drop_last() =~= pms.take(i as int));
            assert(pms.take(i + 1).last() == partial_map(partials@[i as int]));
        }
        match partials[i].get(id) {
            Some(node) => {
                out.push(node.id.clone());
                proof {
                    assert(texts(out@) =~= texts(before).push(node.id@));
                }
            },
            None => {},
        }
        i = i + 1;
    }
    assert(pms.take(n as int) =~= pms);
    out
}

/// The parts of the result that belong to the producers.
struct Rewritten {
    components: Components,
    stages: Vec<Option<ExecutableStage>>,
    transforms: Vec<Option<PTransformNode>>,
    partials: Vec<NamedMap<PCollectionNode>>,
}

/// Adds the partial collections to the components.
fn register(components: &mut Components, partials: &NamedMap<PCollectionNode>)
    requires
        old(components).wf(),
        partials.wf(),
        distinct_ids(partial_map(*partials)),
    ensures
        final(components).wf(),
        adds(
            old(components).model().pcollections,
            partial_map(*partials),
            final(components).model().pcollections,
        ),
        final(components).model() == (ComponentsV {
            pcollections: final(components).model().pcollections,
            ..old(components).model()
        }),
{
    let mut pcollections: NamedMap<PCollection> = NamedMap::new();
    std::mem::swap(&mut pcollections, &mut components.pcollections);
    add_partials(&mut pcollections, partials);
    components.pcollections = pcollections;
}

/// Rewrites the producers.
#[verifier::rlimit(60)]
fn rewrite_producers(
    pipeline: &QueryablePipeline,
    stages: &Vec<ExecutableStage>,
    unfused: &Vec<PTransformNode>,
    outs: &Vec<Vec<PCollectionNode>>,
) -> (r: Result<Rewritten, BeamTranslationError>)
    requires
        pipeline.wf(),
        forall|k: int| 0 <= k < stages@.len() ==> (#[trigger] stages@[k]).wf(),
        nodes_wf(unfused@),
        are_outputs(pipeline.model(), stages@, unfused@, outs@),
    ensures
        match r {
            Ok(d) => {
                let c = pipeline.model();
                let pms = partial_maps(d.partials@);
                &&& !lists_twice(c, stages@, unfused@)
                &&& d.partials@.len() == stages@.len() + unfused@.len()
                &&& forall|k: int| 0 <= k < d.partials@.len() ==> (#[trigger] d.partials@[k]).wf()
                &&& forall|k: int|
                    0 <= k < pms.len() ==> partials_right(c, stages@, unfused@, k, #[trigger] pms[k])
                &&& all_new(c.pcollections, pms)
                &&& d.stages@.len() == stages@.len()
                &&& forall|k: int|
                    0 <= k < stages@.len() ==> stage_right(
                        stages@[k],
                        pms[k],
                        #[trigger] d.stages@[k],
                    )
                &&& d.transforms@.len() == unfused@.len()
                &&& forall|k: int|
                    0 <= k < unfused@.len() ==> transform_right(
                        unfused@[k],
                        pms[stages@.len() + k],
                        #[trigger] d.transforms@[k],
                    )
                &&& d.components.wf()
                &&& all_added(c.pcollections, pms, d.components.model().pcollections)
                &&& d.components.model() == (ComponentsV {
                    pcollections: d.components.model().pcollections,
                    ..c
                })
            },
            Err(e) => e is InvalidArgument && lists_twice(pipeline.model(), stages@, unfused@),
        },
{
    let ghost c = pipeline.model();
    let s: usize = stages.len();
    let u: usize = unfused.len();
    let mut components: Components = pipeline.components.duplicate();
    let mut partials: Vec<NamedMap<PCollectionNode>> = Vec::new();
    let mut new_stages: Vec<Option<ExecutableStage>> = Vec::new();
    let mut new_transforms: Vec<Option<PTransformNode>> = Vec::new();
    let mut k: usize = 0;
    let ghost none = Map::<Seq<char>, PcolV>::empty();
    while k < s
        invariant
            pipeline.wf(),
            c == pipeline.model(),
            none == Map::<Seq<char>, PcolV>::empty(),
            forall|i: int| 0 <= i < stages@.len() ==> (#[trigger] stages@[i]).wf(),
            are_outputs(c, stages@, unfused@, outs@),
            s == stages@.len(),
            u == unfused@.len(),
            k <= s,
            components.wf(),
            components.model() == (ComponentsV {
                pcollections: components.model().pcollections,
                ..c
            }),
            partials@.len() == k,
            new_stages@.len() == k,
            forall|i: int| 0 <= i < k ==> (#[trigger] partials@[i]).wf(),
            all_new(c.pcollections, partial_maps(partials@)),
            all_added(c.pcollections, partial_maps(partials@), components.model().pcollections),
            forall|i: int|
                0 <= i < k ==> partials_right(
                    c,
                    stages@,
                    unfused@,
                    i,
                    #[trigger] partial_maps(partials@)[i],
                ),
            forall|i: int|
                0 <= i < k ==> stage_right(
                    stages@[i],
                    partial_maps(partials@)[i],
                    #[trigger] new_stages@[i],
                ),
            forall|i: int| 0 <= i < k ==> !#[trigger] stage_lists_twice(c, stages@, unfused@, i),
        decreases s - k,
    {
        let ghost cur = components.model();
        let ghost old_partials = partials@;
        let ghost old_pms = partial_maps(partials@);
        let ghost old_stages = new_stages@;
        let dups: Vec<PCollectionNode> = duplicates_of(outs, k);
        let ghost mut m = none;
        proof {
            twice_by_outputs(c, stages@, unfused@, outs@, k as int, dups@);
        }
        if dups.len() == 0 {
            let empty: NamedMap<PCollectionNode> = NamedMap::new();
            proof {
                assert(partial_map(empty) =~= none);
                none_is_right(c, stages@, unfused@, outs@, k as int, dups@);
                assert(pcol_ids(dups@).no_duplicates());
            }
            partials.push(empty);
            new_stages.push(None);
        } else {
            match deduplicate_stage(&stages[k], &dups, &components) {
                Ok(d) => {
                    let StageDeduplication { updated_stage, original_to_partial } = d;
                    proof {
                        m = partial_map(original_to_partial);
                        minted_are_right(
                            c,
                            stages@,
                            unfused@,
                            outs@,
                            k as int,
                            dups@,
                            cur.pcollections.dom(),
                            m,
                        );
                        assert(pcols_model(dups@)[0].id == dups@[0].id@);
                        assert(m.contains_key(dups@[0].id@));
                    }
                    register(&mut components, &original_to_partial);
                    partials.push(original_to_partial);
                    new_stages.push(Some(updated_stage));
                },
                Err(e) => {
                    return Err(e);
                },
            }
        }
        proof {
            one_more_producer(
                c.pcollections,
                old_pms,
                cur.pcollections,
                m,
                components.model().pcollections,
            );
            assert(partial_maps(partials@) =~= old_pms.push(m));
            assert forall|i: int| 0 <= i < k + 1 implies stage_right(
                stages@[i],
                partial_maps(partials@)[i],
                #[trigger] new_stages@[i],
            ) by {
                if i < k {
                    assert(new_stages@[i] == old_stages[i]);
                    assert(partial_maps(partials@)[i] == old_pms[i]);
                }
            }
            assert forall|i: int| 0 <= i < k + 1 implies partials_right(
                c,
                stages@,
                unfused@,
                i,
                #[trigger] partial_maps(partials@)[i],
            ) by {
                if i < k {
                    assert(partial_maps(partials@)[i] == old_pms[i]);
                }
            }
        }
        k = k + 1;
    }
    let mut j: usize = 0;
    let total: usize = outs.len();
    while j < u
        invariant
            total == outs@.len(),
            pipeline.wf(),
            c == pipeline.model(),
            none == Map::<Seq<char>, PcolV>::empty(),
            nodes_wf(unfused@),
            are_outputs(c, stages@, unfused@, outs@),
            s == stages@.len(),
            u == unfused@.len(),
            j <= u,
            components.wf(),
            components.model() == (ComponentsV {
                pcollections: components.model().pcollections,
                ..c
            }),
            partials@.len() == s + j,
            new_stages@.len() == s,
            new_transforms@.len() == j,
            forall|i: int| 0 <= i < s + j ==> (#[trigger] partials@[i]).wf(),
            all_new(c.pcollections, partial_maps(partials@)),
            all_added(c.pcollections, partial_maps(partials@), components.model().pcollections),
            forall|i: int|
                0 <= i < s + j ==> partials_right(
                    c,
                    stages@,
                    unfused@,
                    i,
                    #[trigger] partial_maps(partials@)[i],
                ),
            forall|i: int|
                0 <= i < s ==> stage_right(
                    stages@[i],
                    partial_maps(partials@)[i],
                    #[trigger] new_stages@[i],
                ),
            forall|i: int|
                0 <= i < j ==> transform_right(
                    unfused@[i],
                    partial_maps(partials@)[s + i],
                    #[trigger] new_transforms@[i],
                ),
        decreases u - j,
    {
        let ghost cur = components.model();
        let ghost old_pms = partial_maps(partials@);
        let ghost old_transforms = new_transforms@;
        let at: usize = s + j;
        let dups: Vec<PCollectionNode> = duplicates_of(outs, at);
        let ghost mut m = none;
        assert(unfused@[j as int].wf());
        if dups.len() == 0 {
            let empty: NamedMap<PCollectionNode> = NamedMap::new();
            proof {
                assert(partial_map(empty) =~= none);
                none_is_right(c, stages@, unfused@, outs@, at as int, dups@);
            }
            partials.push(empty);
            new_transforms.push(None);
        } else {
            match deduplicate_transform(&unfused[j], &dups, &components) {
                Ok(d) => {
                    let TransformDeduplication { updated_transform, original_to_partial } = d;
                    proof {
                        m = partial_map(original_to_partial);
                        minted_are_right(
                            c,
                            stages@,
                            unfused@,
                            outs@,
                            at as int,
                            dups@,
                            cur.pcollections.dom(),
                            m,
                        );
                        assert(pcols_model(dups@)[0].id == dups@[0].id@);
                        assert(m.contains_key(dups@[0].id@));
                    }
                    register(&mut components, &original_to_partial);
                    partials.push(original_to_partial);
                    new_transforms.push(Some(updated_transform));
                },
                Err(e) => {
                    proof {
                        assert forall|a: int, b: int|
                            0 <= a < b < outs@[at as int]@.len() implies #[trigger] outs@[at as int]@[a].id@
                            != #[trigger] outs@[at as int]@[b].id@ by {
                            assert(pcol_ids(outs@[at as int]@)[a] != pcol_ids(outs@[at as int]@)[b]);
                        }
                    }
                    return Err(e);
                },
            }
        }
        proof {
            one_more_producer(
                c.pcollections,
                old_pms,
                cur.pcollections,
                m,
                components.model().pcollections,
            );
            assert(partial_maps(partials@) =~= old_pms.push(m));
            assert forall|i: int| 0 <= i < s implies stage_right(
                stages@[i],
                partial_maps(partials@)[i],
                #[trigger] new_stages@[i],
            ) by {
                assert(partial_maps(partials@)[i] == old_pms[i]);
            }
            assert forall|i: int| 0 <= i < j + 1 implies transform_right(
                unfused@[i],
                partial_maps(partials@)[s + i],
                #[trigger] new_transforms@[i],
            ) by {
                if i < j {
                    assert(new_transforms@[i] == old_transforms[i]);
                    assert(partial_maps(partials@)[s + i] == old_pms[s + i]);
                }
            }
            assert forall|i: int| 0 <= i < s + j + 1 implies partials_right(
                c,
                stages@,
                unfused@,
                i,
                #[trigger] partial_maps(partials@)[i],
            ) by {
                if i < s + j {
                    assert(partial_maps(partials@)[i] == old_pms[i]);
                }
            }
        }
        j = j + 1;
    }
    Ok(Rewritten { components, stages: new_stages, transforms: new_transforms, partials })
}

/// A stage lists a contested collection twice just where its list of duplicates
/// does.
proof fn twice_by_outputs(
    c: ComponentsV,
    stages: Seq<ExecutableStage>,
    unfused: Seq<PTransformNode>,
    outs: Seq<Vec<PCollectionNode>>,
    k: int,
    dups: Seq<PCollectionNode>,
)
    requires
        are_outputs(c, stages, unfused, outs),
        0 <= k < stages.len(),
        pcol_ids(dups).no_duplicates() <==> forall|i: int, j: int|
            0 <= i < j < outs[k]@.len() && in_several(outs, outs[k]@[i].id@)
                ==> #[trigger] outs[k]@[i].id@ != #[trigger] outs[k]@[j].id@,
    ensures
        pcol_ids(dups).no_duplicates() <==> !stage_lists_twice(c, stages, unfused, k),
{
    let a = outs[k]@;
    let b = stages[k].output_pcols@;
    same_ids(a, b);
    assert(pcol_ids(a).len() == a.len());
    assert(pcol_ids(b).len() == b.len());
    assert forall|i: int| 0 <= i < a.len() implies (#[trigger] a[i]).id@ == b[i].id@ by {
        assert(pcol_ids(a)[i] == pcol_ids(b)[i]);
    }
    if stage_lists_twice(c, stages, unfused, k) {
        let (i, j) = choose|i: int, j: int|
            0 <= i < j < b.len() && (#[trigger] b[i]).id@ == (#[trigger] b[j]).id@ && contested(
                c,
                stages,
                unfused,
                b[i].id@,
            );
        several_is_contested(c, stages, unfused, outs, b[i].id@);
        assert(a[i].id@ == b[i].id@ && a[j].id@ == b[j].id@);
    } else {
        assert forall|i: int, j: int|
            0 <= i < j < a.len() && in_several(outs, a[i].id@) implies #[trigger] a[i].id@
            != #[trigger] a[j].id@ by {
            several_is_contested(c, stages, unfused, outs, a[i].id@);
            assert(a[i].id@ == b[i].id@ && a[j].id@ == b[j].id@);
            if a[i].id@ == a[j].id@ {
                assert(b[i].id@ == b[j].id@);
            }
        }
    }
}

/// Adding one transform under a new id.
proof fn one_more_transform(
    before: Map<Seq<char>, TransformV>,
    nodes: Seq<PTransformNode>,
    cur: Map<Seq<char>, TransformV>,
    node: PTransformNode,
)
    requires
        transforms_added(before, nodes, cur),
        !cur.contains_key(node.id@),
    ensures
        transforms_added(before, nodes.push(node), cur.insert(node.id@, node.transform.model())),
{
    let all = nodes.push(node);
    let after = cur.insert(node.id@, node.transform.model());
    assert(node_ids(all) =~= node_ids(nodes).push(node.id@));
    let a = node_ids(nodes);
    let b = node_ids(all);
    assert forall|x: Seq<char>| #[trigger] b.contains(x) <==> a.contains(x) || x == node.id@ by {
        if a.contains(x) {
            let i = choose|i: int| 0 <= i < a.len() && a[i] == x;
            assert(b[i] == x);
        }
        if x == node.id@ {
            assert(b[a.len() as int] == x);
        }
    }
    assert forall|i: int, j: int| 0 <= i < b.len() && 0 <= j < b.len() && i != j implies b[i]
        != b[j] by {
        if i < a.len() {
            assert(a.contains(a[i]));
        }
        if j < a.len() {
            assert(a.contains(a[j]));
        }
        assert(cur.contains_key(node.id@) <==> before.contains_key(node.id@) || a.contains(
            node.id@,
        ));
    }
    assert forall|i: int| 0 <= i < all.len() implies after[(#[trigger] all[i]).id@]
        == all[i].transform.model() by {
        if i < nodes.len() {
            assert(all[i] == nodes[i]);
            assert(a[i] == nodes[i].id@);
            assert(a.contains(nodes[i].id@));
            assert(cur.contains_key(nodes[i].id@));
        }
    }
    assert forall|i: int| 0 <= i < all.len() implies !before.contains_key(
        (#[trigger] all[i]).id@,
    ) by {
        if i < nodes.len() {
            assert(all[i] == nodes[i]);
        } else {
            assert(!cur.contains_key(node.id@));
        }
    }
    assert forall|x: Seq<char>|
        #[trigger]
        after.contains_key(x) <==> before.contains_key(x) || b.contains(x) by {
        assert(cur.contains_key(x) <==> before.contains_key(x) || a.contains(x));
    }
    assert forall|x: Seq<char>| #[trigger] before.contains_key(x) implies after[x] == before[x] by {
        assert(cur.contains_key(x));
    }
}

/// Lets each collection have one producer: where several stages or unfused
/// transforms fill one, each fills a partial collection instead, and a flatten
/// merges these.
#[verifier::rlimit(60)]
pub fn ensure_single_producer(
    pipeline: &QueryablePipeline,
    stages: &Vec<ExecutableStage>,
    unfused: &Vec<PTransformNode>,
) -> (r: Result<DeduplicationResult, BeamTranslationError>)
    requires
        pipeline.wf(),
        forall|k: int| 0 <= k < stages@.len() ==> (#[trigger] stages@[k]).wf(),
        nodes_wf(unfused@),
    ensures
        match r {
            Ok(d) => !lists_twice(pipeline.model(), stages@, unfused@) && deduplicated(
                pipeline.model(),
                stages@,
                unfused@,
                d,
            ),
            Err(e) => e is InvalidArgument && lists_twice(pipeline.model(), stages@, unfused@),
        },
{
    let ghost c = pipeline.model();
    let outs: Vec<Vec<PCollectionNode>> = collect_producers(pipeline, stages, unfused);
    let parts: Rewritten = match rewrite_producers(pipeline, stages, unfused, &outs) {
        Ok(d) => d,
        Err(e) => {
            return Err(e);
        },
    };
    let Rewritten { components: with_partials, stages: new_stages, transforms: new_transforms, partials } =
        parts;
    let mut components: Components = with_partials;
    let ghost pms = partial_maps(partials@);
    let ghost pcollections = components.model().pcollections;
    let ids: Vec<String> = contested_ids(&outs);
    let n: usize = ids.len();
    let mut flattens: Vec<PTransformNode> = Vec::new();
    let mut i: usize = 0;
    proof {
        assert(node_ids(flattens@) =~= seq![]);
    }
    while i < n
        invariant
            c == pipeline.model(),
            pms == partial_maps(partials@),
            forall|k: int| 0 <= k < partials@.len() ==> (#[trigger] partials@[k]).wf(),
            n == ids@.len(),
            i <= n,
            flattens@.len() == i,
            components.wf(),
            components.model() == (ComponentsV {
                transforms: components.model().transforms,
                pcollections,
                ..c
            }),
            nodes_wf(flattens@),
            transforms_added(c.transforms, flattens@, components.model().transforms),
            forall|k: int|
                0 <= k < i ==> (#[trigger] flattens@[k]).transform.model() == flatten_of(
                    flattens@[k].id@,
                    ids@[k]@,
                    partial_ids(pms, ids@[k]@),
                ),
        decreases n - i,
    {
        let ghost cur = components.model();
        let ghost old_components = components;
        let ghost before = flattens@;
        let taken: Vec<String> = components.transforms.keys();
        let id: String = unique_id("unzipped_flatten", &taken);
        let inputs: Vec<String> = gather_partials(&partials, ids[i].as_str());
        let flatten: PTransform = create_flatten_of_partials(
            id.as_str(),
            ids[i].as_str(),
            &inputs,
        );
        let node = PTransformNode { id: id.clone(), transform: flatten };
        let copy: PTransform = node.transform.duplicate();
        proof {
            assert(!texts(taken@).to_set().contains(id@));
            assert(!cur.transforms.contains_key(id@));
            one_more_transform(c.transforms, flattens@, cur.transforms, node);
        }
        let mut transforms: NamedMap<PTransform> = NamedMap::new();
        std::mem::swap(&mut transforms, &mut components.transforms);
        transforms.insert(id, copy);
        components.transforms = transforms;
        flattens.push(node);
        proof {
            let now = components.transforms;
            assert(transform_map(now) =~= cur.transforms.insert(node.id@, node.transform.model()));
            assert forall|k: int| 0 <= k < now.entries@.len() implies (
            #[trigger] now.entries@[k]).1.wf() by {
                now.entry_at(k);
                let key = now.entries@[k].0@;
                if key != node.id@ {
                    let b = old_components.transforms.has_entry(key);
                    assert(old_components.transforms.entries@[b].1.wf());
                }
            }
            assert(flattens@ =~= before.push(node));
        }
        i = i + 1;
    }
    let r = DeduplicationResult {
        components,
        introduced_transforms: flattens,
        deduplicated_stages: new_stages,
        deduplicated_transforms: new_transforms,
        partials,
    };
    proof {
        let fl = r.introduced_transforms@;
        assert forall|k: int| 0 <= k < fl.len() implies flattens_into(#[trigger] fl[k])
            == ids@[k]@ by {
            assert(fl[k].transform.model().outputs["output"@] == ids@[k]@);
        }
        assert forall|k: int| 0 <= k < fl.len() implies contested(
            c,
            stages@,
            unfused@,
            flattens_into(#[trigger] fl[k]),
        ) by {
            assert(texts(ids@)[k] == ids@[k]@);
            assert(texts(ids@).contains(ids@[k]@));
            several_is_contested(c, stages@, unfused@, outs@, ids@[k]@);
        }
        assert forall|p: Seq<char>| #[trigger] contested(c, stages@, unfused@, p) implies exists|
            k: int,
        |
            0 <= k < fl.len() && flattens_into(#[trigger] fl[k]) == p by {
            several_is_contested(c, stages@, unfused@, outs@, p);
            assert(texts(ids@).contains(p));
            let k = choose|k: int| 0 <= k < texts(ids@).len() && texts(ids@)[k] == p;
            assert(flattens_into(fl[k]) == p);
        }
        assert forall|a: int, b: int| 0 <= a < b < fl.len() implies flattens_into(
            #[trigger] fl[a],
        ) != flattens_into(#[trigger] fl[b]) by {
            assert(texts(ids@)[a] != texts(ids@)[b]);
        }
    }
    Ok(r)
}

// ---------------------------------------------------------------------------
// What comes out
// ---------------------------------------------------------------------------
/// The `k`th stage, or what stands in place of it.
pub open spec fn stage_after(
    stages: Seq<ExecutableStage>,
    d: DeduplicationResult,
    k: int,
) -> StageV {
    match d.deduplicated_stages@[k] {
        Some(s) => s.model(),
        None => stages[k].model(),
    }
}

/// The `k`th unfused transform, or what stands in place of it.
pub open spec fn node_after(
    unfused: Seq<PTransformNode>,
    d: DeduplicationResult,
    k: int,
) -> NodeV {
    match d.deduplicated_transforms@[k] {
        Some(t) => t.model(),
        None => unfused[k].model(),
    }
}

impl DeduplicationResult {
    pub fn components(&self) -> (r: Components)
        requires
            self.components.wf(),
        ensures
            r.wf(),
            r.model() == self.components.model(),
    {
        self.components.duplicate()
    }

    /// The stages after the rewriting, without dangling inputs.
    pub fn get_sdk_stages(&self, stages: &Vec<ExecutableStage>) -> (r: Vec<ExecutableStage>)
        requires
            self.deduplicated_stages@.len() == stages@.len(),
            forall|k: int| 0 <= k < stages@.len() ==> (#[trigger] stages@[k]).wf(),
            forall|k: int|
                0 <= k < stages@.len() ==> ((#[trigger] self.deduplicated_stages@[k]) is Some
                    ==> self.deduplicated_stages@[k]->0.wf()),
        ensures
            r@.len() == stages@.len(),
            forall|k: int| 0 <= k < r@.len() ==> (#[trigger] r@[k]).wf(),
            forall|k: int|
                0 <= k < r@.len() ==> came_from(stage_after(stages@, *self, k), #[trigger] r@[k]),
    {
        let n: usize = stages.len();
        let mut out: Vec<ExecutableStage> = Vec::new();
        let mut k: usize = 0;
        while k < n
            invariant
                n == stages@.len(),
                k <= n,
                self.deduplicated_stages@.len() == stages@.len(),
                forall|i: int| 0 <= i < stages@.len() ==> (#[trigger] stages@[i]).wf(),
                forall|i: int|
                    0 <= i < stages@.len() ==> ((#[trigger] self.deduplicated_stages@[i]) is Some
                        ==> self.deduplicated_stages@[i]->0.wf()),
                out@.len() == k,
                forall|i: int| 0 <= i < k ==> (#[trigger] out@[i]).wf(),
                forall|i: int|
                    0 <= i < k ==> came_from(
                        stage_after(stages@, *self, i),
                        #[trigger] out@[i],
                    ),
            decreases n - k,
        {
            let stage: ExecutableStage = match &self.deduplicated_stages[k] {
                Some(s) => s.duplicate(),
                None => stages[k].duplicate(),
            };
            let ghost whole = stage;
            let clean: ExecutableStage = sanitize_dangling_ptransform_inputs(stage);
            assert(sanitized(whole, clean));
            out.push(clean);
            k = k + 1;
        }
        out
    }

    /// The unfused transforms after the rewriting, and the flattens.
    pub fn get_runner_stages(&self, unfused: &Vec<PTransformNode>) -> (r: Vec<PTransformNode>)
        requires
            self.deduplicated_transforms@.len() == unfused@.len(),
            nodes_wf(unfused@),
            nodes_wf(self.introduced_transforms@),
            forall|k: int|
                0 <= k < unfused@.len() ==> ((#[trigger] self.deduplicated_transforms@[k]) is Some
                    ==> self.deduplicated_transforms@[k]->0.wf()),
        ensures
            nodes_wf(r@),
            r@.len() == unfused@.len() + self.introduced_transforms@.len(),
            forall|k: int|
                0 <= k < unfused@.len() ==> (#[trigger] r@[k]).model() == node_after(
                    unfused@,
                    *self,
                    k,
                ),
            forall|k: int|
                0 <= k < self.introduced_transforms@.len() ==> r@[unfused@.len() + k].model() == (
                #[trigger] self.introduced_transforms@[k]).model(),
    {
        let n: usize = unfused.len();
        let mut out: Vec<PTransformNode> = Vec::new();
        let mut k: usize = 0;
        while k < n
            invariant
                n == unfused@.len(),
                k <= n,
                self.deduplicated_transforms@.len() == unfused@.len(),
                nodes_wf(unfused@),
                forall|i: int|
                    0 <= i < unfused@.len() ==> ((#[trigger] self.deduplicated_transforms@[i]) is Some
                        ==> self.deduplicated_transforms@[i]->0.wf()),
                out@.len() == k,
                nodes_wf(out@),
                forall|i: int|
                    0 <= i < k ==> (#[trigger] out@[i]).model() == node_after(unfused@, *self, i),
            decreases n - k,
        {
            assert(unfused@[k as int].wf());
            let node: PTransformNode = match &self.deduplicated_transforms[k] {
                Some(t) => t.duplicate(),
                None => unfused[k].duplicate(),
            };
            out.push(node);
            k = k + 1;
        }
        let mut more: Vec<PTransformNode> = duplicate_nodes(&self.introduced_transforms);
        let ghost added = more@;
        let ghost before = out@;
        out.append(&mut more);
        proof {
            assert(nodes_model(added).len() == added.len());
            assert(nodes_model(self.introduced_transforms@).len()
                == self.introduced_transforms@.len());
            assert forall|i: int| 0 <= i < out@.len() implies (#[trigger] out@[i]).wf() by {
                if i < before.len() {
                    assert(out@[i] == before[i]);
                } else {
                    assert(out@[i] == added[i - before.len()]);
                }
            }
            assert forall|i: int| 0 <= i < self.introduced_transforms@.len() implies out@[n
                + i].model() == (#[trigger] self.introduced_transforms@[i]).model() by {
                assert(out@[n + i] == added[i]);
                assert(nodes_model(added)[i] == nodes_model(self.introduced_transforms@)[i]);
            }
        }
        out
    }
}

/// Whether `r` is a stage like `s` without its dangling inputs.
pub open spec fn came_from(s: StageV, r: ExecutableStage) -> bool {
    exists|whole: ExecutableStage| whole.model() == s && #[trigger] sanitized(whole, r)
}

// ---------------------------------------------------------------------------
// Laws
// ---------------------------------------------------------------------------
/// Whether the `k`th producer fills the collection after the rewriting; behind the
/// stages and the unfused transforms come the flattens.
pub open spec fn fills_after(
    stages: Seq<ExecutableStage>,
    unfused: Seq<PTransformNode>,
    d: DeduplicationResult,
    k: int,
    p: Seq<char>,
) -> bool {
    let s = stages.len();
    let n = stages.len() + unfused.len();
    if 0 <= k < s {
        exists|i: int|
            0 <= i < stage_after(stages, d, k).output_pcols.len() && (#[trigger] stage_after(
                stages,
                d,
                k,
            ).output_pcols[i]).id == p
    } else if s <= k < n {
        exists|l: Seq<char>|
            #[trigger]
            node_after(unfused, d, k - s).transform.outputs.contains_key(l) && node_after(
                unfused,
                d,
                k - s,
            ).transform.outputs[l] == p
    } else {
        n <= k < n + d.introduced_transforms@.len() && flattens_into(
            d.introduced_transforms@[k - n],
        ) == p
    }
}

/// Whether the outputs of all producers are collections of the pipeline.
pub open spec fn outputs_belong(
    c: ComponentsV,
    stages: Seq<ExecutableStage>,
    unfused: Seq<PTransformNode>,
) -> bool {
    &&& forall|k: int, p: Seq<char>|
        0 <= k < stages.len() && #[trigger] pcol_ids(stages[k].output_pcols@).contains(p)
            ==> c.pcollections.contains_key(p)
    &&& forall|k: int, l: Seq<char>|
        0 <= k < unfused.len() && #[trigger] unfused[k].transform.model().outputs.contains_key(l)
            ==> c.pcollections.contains_key(unfused[k].transform.model().outputs[l])
}

/// What a producer fills after the rewriting comes from what it filled before.
proof fn filled_before(
    c: ComponentsV,
    stages: Seq<ExecutableStage>,
    unfused: Seq<PTransformNode>,
    d: DeduplicationResult,
    k: int,
    x: Seq<char>,
) -> (p: Seq<char>)
    requires
        deduplicated(c, stages, unfused, d),
        outputs_belong(c, stages, unfused),
        0 <= k < stages.len() + unfused.len(),
        fills_after(stages, unfused, d, k, x),
    ensures
        fills(c, stages, unfused, k, p),
        c.pcollections.contains_key(p),
        x == renamed(partial_maps(d.partials@)[k], p),
{
    let m = partial_maps(d.partials@)[k];
    if k < stages.len() {
        let s = stages[k].model();
        let r = stage_after(stages, d, k);
        assert(stage_right(stages[k], m, d.deduplicated_stages@[k]));
        let i = choose|i: int| 0 <= i < r.output_pcols.len() && (#[trigger] r.output_pcols[i]).id == x;
        match d.deduplicated_stages@[k] {
            Some(t) => {
                assert(r.output_pcols[i] == output_renamed(m, s.output_pcols[i]));
            },
            None => {},
        }
        let p = s.output_pcols[i].id;
        assert(pcol_ids(stages[k].output_pcols@)[i] == p);
        assert(pcol_ids(stages[k].output_pcols@).contains(p));
        p
    } else {
        let j = k - stages.len();
        let t = unfused[j].transform.model();
        let r = node_after(unfused, d, j).transform;
        assert(transform_right(unfused[j], m, d.deduplicated_transforms@[j]));
        let l = choose|l: Seq<char>| #[trigger] r.outputs.contains_key(l) && r.outputs[l] == x;
        assert(t.outputs.contains_key(l));
        let p = t.outputs[l];
        assert(c.pcollections.contains_key(p));
        assert(gives(c, t, p));
        p
    }
}

/// After the rewriting no collection has two producers.
pub proof fn single_producer(
    c: ComponentsV,
    stages: Seq<ExecutableStage>,
    unfused: Seq<PTransformNode>,
    d: DeduplicationResult,
    j: int,
    k: int,
    x: Seq<char>,
)
    requires
        deduplicated(c, stages, unfused, d),
        outputs_belong(c, stages, unfused),
        fills_after(stages, unfused, d, j, x),
        fills_after(stages, unfused, d, k, x),
    ensures
        j == k,
    decreases
            if k < j {
                1nat
            } else {
                0nat
            },
{
    if k < j {
        single_producer(c, stages, unfused, d, k, j, x);
    } else if j < k {
        let pms = partial_maps(d.partials@);
        let n = stages.len() + unfused.len();
        let fl = d.introduced_transforms@;
        if j >= n {
            assert(flattens_into(fl[j - n]) != flattens_into(fl[k - n]));
        } else {
            let p = filled_before(c, stages, unfused, d, j, x);
            assert(partials_right(c, stages, unfused, j, pms[j]));
            if pms[j].contains_key(p) {
                assert(has(pms, j, p));
            }
            if k >= n {
                let f = fl[k - n];
                assert(contested(c, stages, unfused, flattens_into(f)));
                let (a, b) = choose|a: int, b: int|
                    a != b && #[trigger] fills(c, stages, unfused, a, x) && #[trigger] fills(
                        c,
                        stages,
                        unfused,
                        b,
                        x,
                    );
                assert(fills(c, stages, unfused, a, x));
                belongs(c, stages, unfused, a, x);
            } else {
                let q = filled_before(c, stages, unfused, d, k, x);
                assert(partials_right(c, stages, unfused, k, pms[k]));
                if pms[k].contains_key(q) {
                    assert(has(pms, k, q));
                }
                if !pms[j].contains_key(p) && !pms[k].contains_key(q) {
                    assert(p == x && q == x);
                    assert(fills(c, stages, unfused, j, x) && fills(c, stages, unfused, k, x));
                    assert(contested(c, stages, unfused, x));
                }
            }
        }
    }
}

proof fn belongs(
    c: ComponentsV,
    stages: Seq<ExecutableStage>,
    unfused: Seq<PTransformNode>,
    k: int,
    p: Seq<char>,
)
    requires
        outputs_belong(c, stages, unfused),
        fills(c, stages, unfused, k, p),
    ensures
        c.pcollections.contains_key(p),
{
}

/// A collection that several filled is still filled: by the flatten of its partial
/// collections, which are those of its producers.
pub proof fn contested_is_merged(
    c: ComponentsV,
    stages: Seq<ExecutableStage>,
    unfused: Seq<PTransformNode>,
    d: DeduplicationResult,
    p: Seq<char>,
    k: int,
)
    requires
        deduplicated(c, stages, unfused, d),
        contested(c, stages, unfused, p),
        fills(c, stages, unfused, k, p),
    ensures
        exists|i: int|
            0 <= i < d.introduced_transforms@.len() && #[trigger] flattens_into(
                d.introduced_transforms@[i],
            ) == p && exists|l: Seq<char>|
                #[trigger]
                d.introduced_transforms@[i].transform.model().inputs.contains_key(l)
                    && d.introduced_transforms@[i].transform.model().inputs[l] == partial_maps(
                    d.partials@,
                )[k][p].id,
{
    let pms = partial_maps(d.partials@);
    let fl = d.introduced_transforms@;
    let i = choose|i: int| 0 <= i < fl.len() && flattens_into(#[trigger] fl[i]) == p;
    let ids = partial_ids(pms, p);
    assert(partials_right(c, stages, unfused, k, pms[k]));
    partial_is_listed(pms, p, k);
    let a = choose|a: int| 0 <= a < ids.len() && ids[a] == pms[k][p].id;
    flatten_takes_all(ids);
    assert(fl[i].transform.model() == flatten_of(fl[i].id@, p, ids));
    assert(fl[i].transform.model().inputs.contains_key(input_name(a as nat)));
    assert(flattens_into(fl[i]) == p);
}

proof fn partial_is_listed(pms: Seq<Map<Seq<char>, PcolV>>, p: Seq<char>, k: int)
    requires
        has(pms, k, p),
    ensures
        partial_ids(pms, p).contains(pms[k][p].id),
    decreases pms.len(),
{
    let most = pms.drop_last();
    let ids = partial_ids(most, p);
    let all = partial_ids(pms, p);
    if k == pms.len() - 1 {
        assert(all[ids.len() as int] == pms[k][p].id);
    } else {
        assert(most[k] == pms[k]);
        partial_is_listed(most, p, k);
        let i = choose|i: int| 0 <= i < ids.len() && ids[i] == pms[k][p].id;
        assert(all[i] == ids[i]);
    }
}

} // verus!
