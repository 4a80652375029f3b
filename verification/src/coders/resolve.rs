//! From the coders of a pipeline to the coders of the runner.
use crate::coders::primitives::{
    BoolCoder, BytesCoder, DoubleCoder, IterableCoder, LengthPrefixCoder, NullableCoder,
    PickleCoder, StringUtf8Coder, TupleCoder, VarInt32Coder, VarIntCoder, VoidCoder,
};
use crate::coders::StandardBeamCoders;
use crate::jobservice::urns;
use crate::model::{coder_map, Coder, CoderV, FunctionSpec, SpecV};
use crate::named::{has_text, names, texts, NamedMap};
use crate::text::{join2, same_text};
use vstd::prelude::*;
use vstd::string::*;

verus! {

/// What a coder id stands for: the name in the pipeline's entry for it, or the id
/// itself.
pub open spec fn urn_of(coders: Map<Seq<char>, CoderV>, id: Seq<char>) -> Seq<char> {
    if coders.contains_key(id) && coders[id].spec is Some {
        coders[id].spec->0.urn
    } else {
        id
    }
}

/// The components of a coder: those given, or else those of the pipeline's entry.
pub open spec fn components_of(
    coders: Map<Seq<char>, CoderV>,
    id: Seq<char>,
    given: Option<Seq<Seq<char>>>,
) -> Option<Seq<Seq<char>>> {
    match given {
        Some(ids) => Some(ids),
        None => if coders.contains_key(id) {
            Some(coders[id].component_coder_ids)
        } else {
            None
        },
    }
}

/// The names of the coders that are not made of others.
pub open spec fn is_leaf_urn(urn: Seq<char>) -> bool {
    ||| urn == urns::BYTES_CODER@
    ||| urn == urns::STRING_UTF8_CODER@
    ||| urn == urns::VARINT_CODER@
    ||| urn == urns::BOOL_CODER@
    ||| urn == urns::DOUBLE_CODER@
    ||| urn == urns::PYTHON_PICKLE_CODER@
    ||| urn == urns::LENGTH_PREFIX_CODER@
    ||| urn == urns::JAVA_SDK_CODER@
}

/// Whether the id stands for a known coder with the right number of components,
/// at most `depth` levels deep.
pub open spec fn resolvable(
    coders: Map<Seq<char>, CoderV>,
    id: Seq<char>,
    given: Option<Seq<Seq<char>>>,
    depth: nat,
) -> bool
    decreases depth,
{
    let urn = urn_of(coders, id);
    let ids = components_of(coders, id, given);
    if is_leaf_urn(urn) {
        true
    } else if ids is None || depth == 0 {
        false
    } else {
        let below = (depth - 1) as nat;
        let all = forall|i: int|
            0 <= i < ids->0.len() ==> resolvable(coders, #[trigger] (ids->0)[i], None, below);
        if urn == urns::ITERABLE_CODER@ {
            ids->0.len() == 1 && all
        } else if urn == urns::TUPLE_CODER@ {
            ids->0.len() > 0 && all
        } else if urn == urns::NULLABLE_CODER@ {
            ids->0.len() == 1 && all
        } else if urn == urns::KV_CODER@ {
            ids->0.len() == 2 && all
        } else {
            false
        }
    }
}

/// The coder of a name that is not made of others. The Java SDK has one name for
/// many coders, of which two are known by their ids; the others carry opaque
/// bytes.
pub open spec fn leaf_coder(urn: Seq<char>, id: Seq<char>) -> StandardBeamCoders {
    if urn == urns::BYTES_CODER@ {
        StandardBeamCoders::Bytes(BytesCoder)
    } else if urn == urns::STRING_UTF8_CODER@ {
        StandardBeamCoders::StringUtf8(StringUtf8Coder)
    } else if urn == urns::VARINT_CODER@ {
        StandardBeamCoders::VarInt(VarIntCoder)
    } else if urn == urns::BOOL_CODER@ {
        StandardBeamCoders::Bool(BoolCoder)
    } else if urn == urns::DOUBLE_CODER@ {
        StandardBeamCoders::Double(DoubleCoder)
    } else if urn == urns::PYTHON_PICKLE_CODER@ {
        StandardBeamCoders::Pickle(PickleCoder)
    } else if urn == urns::LENGTH_PREFIX_CODER@ {
        StandardBeamCoders::LengthPrefix(LengthPrefixCoder)
    } else if id == "VoidCoder"@ {
        StandardBeamCoders::Void(VoidCoder)
    } else if id == "VarIntCoder"@ {
        StandardBeamCoders::VarInt32(VarInt32Coder)
    } else {
        StandardBeamCoders::Bytes(BytesCoder)
    }
}

/// Whether `c` is the coder that the id stands for. A pair whose value is a list
/// is a group.
pub open spec fn resolves_to(
    coders: Map<Seq<char>, CoderV>,
    id: Seq<char>,
    given: Option<Seq<Seq<char>>>,
    c: StandardBeamCoders,
) -> bool
    decreases c, 0nat,
{
    let urn = urn_of(coders, id);
    let ids = components_of(coders, id, given)->0;
    if is_leaf_urn(urn) {
        c == leaf_coder(urn, id)
    } else {
        match c {
            StandardBeamCoders::Iterable(ic) => urn == urns::ITERABLE_CODER@ && resolves_to(
                coders,
                ids[0],
                None,
                *ic.element_coder,
            ),
            StandardBeamCoders::Tuple(tc) => urn == urns::TUPLE_CODER@
                && tc.component_coders@.len() == ids.len() && components_resolve(
                coders,
                ids,
                tc.component_coders,
                0,
            ),
            StandardBeamCoders::Nullable(nc) => urn == urns::NULLABLE_CODER@ && resolves_to(
                coders,
                ids[0],
                None,
                *nc.value_coder,
            ),
            StandardBeamCoders::Kv(k, v) => urn == urns::KV_CODER@ && resolves_to(
                coders,
                ids[0],
                None,
                *k,
            ) && resolves_to(coders, ids[1], None, *v) && !(*v is Iterable),
            StandardBeamCoders::Gbk(k, ic) => urn == urns::KV_CODER@ && resolves_to(
                coders,
                ids[0],
                None,
                *k,
            ) && !is_leaf_urn(urn_of(coders, ids[1])) && urn_of(coders, ids[1])
                == urns::ITERABLE_CODER@ && resolves_to(
                coders,
                components_of(coders, ids[1], None)->0[0],
                None,
                *ic.element_coder,
            ),
            _ => false,
        }
    }
}

/// Whether the coders from the `i`th on are those that the ids stand for.
pub open spec fn components_resolve(
    coders: Map<Seq<char>, CoderV>,
    ids: Seq<Seq<char>>,
    cs: Vec<StandardBeamCoders>,
    i: nat,
) -> bool
    decreases cs, cs@.len() - i,
{
    i < cs@.len() ==> resolves_to(coders, ids[i as int], None, cs[i as int]) && components_resolve(
        coders,
        ids,
        cs,
        i + 1,
    )
}

proof fn components_resolve_extended(
    coders: Map<Seq<char>, CoderV>,
    ids: Seq<Seq<char>>,
    before: Vec<StandardBeamCoders>,
    after: Vec<StandardBeamCoders>,
    i: nat,
)
    requires
        after@.len() == before@.len() + 1,
        after@.drop_last() =~= before@,
        i <= before@.len(),
        components_resolve(coders, ids, before, i),
        resolves_to(coders, ids[before@.len() as int], None, after@.last()),
    ensures
        components_resolve(coders, ids, after, i),
    decreases before@.len() - i,
{
    if i < before@.len() {
        assert(after@[i as int] == before@[i as int]);
        components_resolve_extended(coders, ids, before, after, i + 1);
    } else {
        assert(components_resolve(coders, ids, after, i + 1));
    }
}

fn make_leaf(urn: &str, id: &str) -> (r: Option<StandardBeamCoders>)
    ensures
        match r {
            Some(c) => is_leaf_urn(urn@) && c == leaf_coder(urn@, id@),
            None => !is_leaf_urn(urn@),
        },
{
    if same_text(urn, urns::BYTES_CODER) {
        Some(StandardBeamCoders::Bytes(BytesCoder))
    } else if same_text(urn, urns::STRING_UTF8_CODER) {
        Some(StandardBeamCoders::StringUtf8(StringUtf8Coder))
    } else if same_text(urn, urns::VARINT_CODER) {
        Some(StandardBeamCoders::VarInt(VarIntCoder))
    } else if same_text(urn, urns::BOOL_CODER) {
        Some(StandardBeamCoders::Bool(BoolCoder))
    } else if same_text(urn, urns::DOUBLE_CODER) {
        Some(StandardBeamCoders::Double(DoubleCoder))
    } else if same_text(urn, urns::PYTHON_PICKLE_CODER) {
        Some(StandardBeamCoders::Pickle(PickleCoder))
    } else if same_text(urn, urns::LENGTH_PREFIX_CODER) {
        Some(StandardBeamCoders::LengthPrefix(LengthPrefixCoder))
    } else if same_text(urn, urns::JAVA_SDK_CODER) {
        if same_text(id, "VoidCoder") {
            Some(StandardBeamCoders::Void(VoidCoder))
        } else if same_text(id, "VarIntCoder") {
            Some(StandardBeamCoders::VarInt32(VarInt32Coder))
        } else {
            Some(StandardBeamCoders::Bytes(BytesCoder))
        }
    } else {
        None
    }
}

/// The texts of optional strings.
pub open spec fn optional_texts(v: Option<Vec<String>>) -> Option<Seq<Seq<char>>> {
    match v {
        Some(v) => Some(texts(v@)),
        None => None,
    }
}

fn resolve(
    id: &str,
    given: Option<&Vec<String>>,
    coders: &NamedMap<Coder>,
    Ghost(depth): Ghost<nat>,
) -> (r: StandardBeamCoders)
    requires
        coders.wf(),
        resolvable(
            coder_map(*coders),
            id@,
            match given {
                Some(v) => Some(texts(v@)),
                None => None,
            },
            depth,
        ),
    ensures
        resolves_to(
            coder_map(*coders),
            id@,
            match given {
                Some(v) => Some(texts(v@)),
                None => None,
            },
            r,
        ),
    decreases depth,
{
    let ghost m = coder_map(*coders);
    let ghost stated = match given {
        Some(v) => Some(texts(v@)),
        None => None,
    };
    let entry: Option<&Coder> = coders.get(id);
    let urn: &str = match entry {
        Some(c) => match &c.spec {
            Some(s) => s.urn.as_str(),
            None => id,
        },
        None => id,
    };
    assert(urn@ == urn_of(m, id@));
    match make_leaf(urn, id) {
        Some(c) => {
            return c;
        },
        None => {},
    }
    let ids: &Vec<String> = match given {
        Some(v) => v,
        None => match entry {
            Some(c) => &c.component_coder_ids,
            None => {
                return StandardBeamCoders::Bytes(BytesCoder);
            },
        },
    };
    let ghost below = (depth - 1) as nat;
    let ghost all = texts(ids@);
    assert(components_of(m, id@, stated) == Some(all));
    if same_text(urn, urns::ITERABLE_CODER) {
        assert(all[0] == ids@[0]@);
        let element = resolve(ids[0].as_str(), None, coders, Ghost(below));
        StandardBeamCoders::Iterable(IterableCoder::new(element))
    } else if same_text(urn, urns::TUPLE_CODER) {
        let n: usize = ids.len();
        let mut component_coders: Vec<StandardBeamCoders> = Vec::new();
        let mut i: usize = 0;
        while i < n
            invariant
                n == ids@.len(),
                i <= n,
                coders.wf(),
                m == coder_map(*coders),
                all == texts(ids@),
                component_coders@.len() == i,
                below < depth,
                forall|j: int|
                    0 <= j < all.len() ==> resolvable(m, #[trigger] all[j], None, below),
                components_resolve(m, all, component_coders, 0),
            decreases n - i,
        {
            assert(all[i as int] == ids@[i as int]@);
            let component = resolve(ids[i].as_str(), None, coders, Ghost(below));
            let ghost before = component_coders;
            component_coders.push(component);
            proof {
                assert(component_coders@.drop_last() =~= before@);
                components_resolve_extended(m, all, before, component_coders, 0);
            }
            i = i + 1;
        }
        StandardBeamCoders::Tuple(TupleCoder { component_coders })
    } else if same_text(urn, urns::NULLABLE_CODER) {
        assert(all[0] == ids@[0]@);
        let value = resolve(ids[0].as_str(), None, coders, Ghost(below));
        StandardBeamCoders::Nullable(NullableCoder::new(value))
    } else {
        assert(all[0] == ids@[0]@);
        assert(all[1] == ids@[1]@);
        let key = resolve(ids[0].as_str(), None, coders, Ghost(below));
        let value = resolve(ids[1].as_str(), None, coders, Ghost(below));
        match value {
            StandardBeamCoders::Iterable(ic) => {
                assert(leaf_coder(urn_of(m, all[1]), all[1]) !is Iterable);
                StandardBeamCoders::Gbk(Box::new(key), ic)
            },
            other => StandardBeamCoders::Kv(Box::new(key), Box::new(other)),
        }
    }
}

/// Whether the id stands for a known coder with the right number of components, at most
/// `depth` levels deep.
pub fn is_resolvable(
    id: &str,
    given: Option<&Vec<String>>,
    coders: &NamedMap<Coder>,
    depth: usize,
) -> (r: bool)
    requires
        coders.wf(),
    ensures
        r == resolvable(
            coder_map(*coders),
            id@,
            match given {
                Some(v) => Some(texts(v@)),
                None => None,
            },
            depth as nat,
        ),
    decreases depth,
{
    let ghost m = coder_map(*coders);
    let ghost stated = match given {
        Some(v) => Some(texts(v@)),
        None => None,
    };
    let entry: Option<&Coder> = coders.get(id);
    let urn: &str = match entry {
        Some(c) => match &c.spec {
            Some(s) => s.urn.as_str(),
            None => id,
        },
        None => id,
    };
    if make_leaf(urn, id).is_some() {
        return true;
    }
    let ids: &Vec<String> = match given {
        Some(v) => v,
        None => match entry {
            Some(c) => &c.component_coder_ids,
            None => {
                return false;
            },
        },
    };
    let n: usize = ids.len();
    let counts: bool = if same_text(urn, urns::ITERABLE_CODER) {
        n == 1
    } else if same_text(urn, urns::TUPLE_CODER) {
        n > 0
    } else if same_text(urn, urns::NULLABLE_CODER) {
        n == 1
    } else if same_text(urn, urns::KV_CODER) {
        n == 2
    } else {
        false
    };
    if depth == 0 || !counts {
        return false;
    }
    let ghost all = texts(ids@);
    assert(components_of(m, id@, stated) == Some(all));
    let mut i: usize = 0;
    while i < n
        invariant
            n == ids@.len(),
            i <= n,
            depth > 0,
            coders.wf(),
            m == coder_map(*coders),
            all == texts(ids@),
            stated == (match given {
                Some(v) => Some(texts(v@)),
                None => None,
            }),
            components_of(m, id@, stated) == Some(all),
            !is_leaf_urn(urn_of(m, id@)),
            forall|j: int|
                0 <= j < i ==> resolvable(m, #[trigger] all[j], None, (depth - 1) as nat),
        decreases n - i,
    {
        assert(all[i as int] == ids@[i as int]@);
        if !is_resolvable(ids[i].as_str(), None, coders, depth - 1) {
            return false;
        }
        i = i + 1;
    }
    true
}

/// The entries of a pipeline's coders, of which there may be none.
pub open spec fn optional_coders(coders: Option<&NamedMap<Coder>>) -> Map<Seq<char>, CoderV> {
    match coders {
        Some(m) => coder_map(*m),
        None => Map::empty(),
    }
}

impl StandardBeamCoders {
    /// The coder that an id stands for.
    ///
    /// The id is first looked up among the pipeline's coders, because several
    /// coders may go by one name. The components are resolved in turn.
    pub fn from_urn(
        id: &str,
        component_coder_ids: Option<Vec<String>>,
        pipeline_coders: Option<&NamedMap<Coder>>,
    ) -> (r: StandardBeamCoders)
        requires
            pipeline_coders matches Some(m) ==> m.wf(),
            exists|depth: nat|
                resolvable(
                    optional_coders(pipeline_coders),
                    id@,
                    optional_texts(component_coder_ids),
                    depth,
                ),
        ensures
            resolves_to(
                optional_coders(pipeline_coders),
                id@,
                optional_texts(component_coder_ids),
                r,
            ),
    {
        let ghost depth = choose|depth: nat|
            resolvable(
                optional_coders(pipeline_coders),
                id@,
                optional_texts(component_coder_ids),
                depth,
            );
        let given: Option<&Vec<String>> = match &component_coder_ids {
            Some(v) => Some(v),
            None => None,
        };
        match pipeline_coders {
            Some(coders) => resolve(id, given, coders, Ghost(depth)),
            None => {
                let none: NamedMap<Coder> = NamedMap::new();
                assert(coder_map(none) =~= Map::<Seq<char>, CoderV>::empty());
                resolve(id, given, &none, Ghost(depth))
            },
        }
    }
}

// ---------------------------------------------------------------------------
// Length prefixes for opaque coders
// ---------------------------------------------------------------------------
/// The id of the wrapper of a coder.
pub open spec fn lp_id(id: Seq<char>) -> Seq<char> {
    id + "_lp"@
}

/// What the id of a wrapper ends in.
pub fn length_prefixed_suffix() -> (r: &'static str)
    ensures
        r@ == "_lp"@,
{
    "_lp"
}

/// The id of the wrapper of a coder.
pub fn length_prefixed_coder_id(id: &str) -> (r: String)
    ensures
        r@ == lp_id(id@),
{
    join2(id, length_prefixed_suffix())
}

/// Whether the id is that of a pickled Python coder.
pub open spec fn is_pickled(coders: Map<Seq<char>, CoderV>, id: Seq<char>) -> bool {
    coders.contains_key(id) && coders[id].spec is Some && coders[id].spec->0.urn
        == urns::PYTHON_PICKLE_CODER@
}

/// Whether the id is that of the wrapper of a pickled Python coder.
pub open spec fn is_wrapper_id(coders: Map<Seq<char>, CoderV>, id: Seq<char>) -> bool {
    id.len() >= 3 && lp_id(id.take(id.len() - 3)) == id && is_pickled(coders, id.take(id.len() - 3))
}

/// A wrapper: the length in front of the coder with this id.
pub open spec fn wrapper_of(id: Seq<char>) -> CoderV {
    CoderV {
        spec: Some(SpecV { urn: urns::LENGTH_PREFIX_CODER@, payload: seq![] }),
        component_coder_ids: seq![id],
    }
}

/// A reference to a coder, moved to its wrapper where it is a pickled one.
pub open spec fn repointed(coders: Map<Seq<char>, CoderV>, id: Seq<char>) -> Seq<char> {
    if is_pickled(coders, id) {
        lp_id(id)
    } else {
        id
    }
}

pub open spec fn repointed_all(coders: Map<Seq<char>, CoderV>, ids: Seq<Seq<char>>) -> Seq<
    Seq<char>,
> {
    Seq::new(ids.len(), |i: int| repointed(coders, ids[i]))
}

/// The coders with the pickled ones wrapped: a wrapper for each that has none, and
/// every reference moved to the wrapper, except in the wrappers themselves.
pub open spec fn wrapped(coders: Map<Seq<char>, CoderV>) -> Map<Seq<char>, CoderV> {
    Map::new(
        |id: Seq<char>| coders.contains_key(id) || is_wrapper_id(coders, id),
        |id: Seq<char>|
            if is_wrapper_id(coders, id) {
                if coders.contains_key(id) {
                    coders[id]
                } else {
                    wrapper_of(id.take(id.len() - 3))
                }
            } else {
                CoderV {
                    spec: coders[id].spec,
                    component_coder_ids: repointed_all(coders, coders[id].component_coder_ids),
                }
            },
    )
}

proof fn lp_id_back(id: Seq<char>)
    ensures
        lp_id(id).len() == id.len() + 3,
        lp_id(id).take(lp_id(id).len() - 3) == id,
{
    reveal_strlit("_lp");
    assert(lp_id(id).take(lp_id(id).len() - 3) =~= id);
}

/// The ids of the pickled coders.
fn pickled_ids(coders: &NamedMap<Coder>) -> (r: Vec<String>)
    requires
        coders.wf(),
    ensures
        forall|id: Seq<char>|
            texts(r@).contains(id) <==> #[trigger] is_pickled(coder_map(*coders), id),
{
    let ghost m = coder_map(*coders);
    let n: usize = coders.entries.len();
    let mut out: Vec<String> = Vec::new();
    let mut i: usize = 0;
    while i < n
        invariant
            n == coders.entries@.len(),
            i <= n,
            coders.wf(),
            m == coder_map(*coders),
            forall|id: Seq<char>|
                texts(out@).contains(id) <==> exists|j: int|
                    0 <= j < i && (#[trigger] coders.entries@[j]).0@ == id && is_pickled(m, id),
        decreases n - i,
    {
        proof {
            coders.entry_at(i as int);
        }
        let ghost before = out@;
        let ghost here = coders.entries@[i as int].0@;
        let found: bool = match &coders.entries[i].1.spec {
            Some(s) => same_text(s.urn.as_str(), urns::PYTHON_PICKLE_CODER),
            None => false,
        };
        assert(found == is_pickled(m, here));
        if found {
            out.push(coders.entries[i].0.clone());
            assert(texts(out@) =~= texts(before).push(here));
        }
        proof {
            assert forall|id: Seq<char>|
                texts(out@).contains(id) <==> exists|j: int|
                    0 <= j < i + 1 && (#[trigger] coders.entries@[j]).0@ == id && is_pickled(
                        m,
                        id,
                    ) by {
                if texts(out@).contains(id) {
                    if texts(before).contains(id) {
                    } else {
                        assert(id == here) by {
                            let k = choose|k: int| 0 <= k < texts(out@).len() && texts(out@)[k]
                                == id;
                            if k < before.len() {
                                assert(texts(before)[k] == id);
                            }
                        }
                        assert(coders.entries@[i as int].0@ == id);
                    }
                }
                if exists|j: int|
                    0 <= j < i + 1 && (#[trigger] coders.entries@[j]).0@ == id && is_pickled(m, id) {
                    let j = choose|j: int|
                        0 <= j < i + 1 && (#[trigger] coders.entries@[j]).0@ == id && is_pickled(
                            m,
                            id,
                        );
                    if j < i {
                        assert(texts(before).contains(id));
                        let k = choose|k: int| 0 <= k < texts(before).len() && texts(before)[k]
                            == id;
                        assert(texts(out@)[k] == id);
                    } else {
                        assert(texts(out@)[before.len() as int] == id);
                    }
                }
            }
        }
        i = i + 1;
    }
    proof {
        assert forall|id: Seq<char>|
            texts(out@).contains(id) <==> #[trigger] is_pickled(m, id) by {
            if is_pickled(m, id) {
                let j = coders.has_entry(id);
                assert(coders.entries@[j].0@ == id);
            }
        }
    }
    out
}

/// Moves the references in `ids` to the wrappers of the pickled coders.
fn repoint(ids: &Vec<String>, pickled: &Vec<String>, Ghost(m): Ghost<Map<Seq<char>, CoderV>>) -> (r:
    Vec<String>)
    requires
        forall|id: Seq<char>| texts(pickled@).contains(id) <==> #[trigger] is_pickled(m, id),
    ensures
        texts(r@) == repointed_all(m, texts(ids@)),
{
    let n: usize = ids.len();
    let mut out: Vec<String> = Vec::new();
    let mut i: usize = 0;
    while i < n
        invariant
            n == ids@.len(),
            i <= n,
            out@.len() == i,
            forall|id: Seq<char>| texts(pickled@).contains(id) <==> #[trigger] is_pickled(m, id),
            forall|j: int| 0 <= j < i ==> (#[trigger] out@[j])@ == repointed(m, ids@[j]@),
        decreases n - i,
    {
        assert(texts(pickled@).contains(ids@[i as int]@) == is_pickled(m, ids@[i as int]@));
        if has_text(pickled, ids[i].as_str()) {
            out.push(length_prefixed_coder_id(ids[i].as_str()));
        } else {
            out.push(ids[i].clone());
        }
        i = i + 1;
    }
    assert(texts(out@) =~= repointed_all(m, texts(ids@)));
    out
}

/// Wraps every pickled Python coder in a length prefix and moves all references to
/// the wrappers.
///
/// Several Python coders go by the name of the pickled one and write different
/// forms. With a length in front their bytes can be kept without looking into
/// them.
pub fn length_prefix_pickled_leaves(coders: &mut NamedMap<Coder>)
    requires
        old(coders).wf(),
    ensures
        final(coders).wf(),
        coder_map(*final(coders)) == wrapped(coder_map(*old(coders))),
{
    let ghost m = coder_map(*coders);
    let pickled: Vec<String> = pickled_ids(coders);
    let ghost start = *coders;
    let n: usize = coders.entries.len();
    let mut out: NamedMap<Coder> = NamedMap::new();
    let mut i: usize = 0;
    // Every entry, its references moved unless it is a wrapper.
    while i < n
        invariant
            n == coders.entries@.len(),
            i <= n,
            *coders == start,
            start.wf(),
            m == coder_map(start),
            forall|id: Seq<char>| texts(pickled@).contains(id) <==> #[trigger] is_pickled(m, id),
            out.wf(),
            forall|id: Seq<char>|
                #[trigger]
                coder_map(out).contains_key(id) <==> exists|j: int|
                    0 <= j < i && (#[trigger] start.entries@[j]).0@ == id,
            forall|id: Seq<char>|
                #[trigger]
                coder_map(out).contains_key(id) ==> coder_map(out)[id] == wrapped(m)[id],
        decreases n - i,
    {
        let ghost before = out;
        let ghost here = start.entries@[i as int].0@;
        proof {
            start.entry_at(i as int);
        }
        let id: &String = &coders.entries[i].0;
        let coder: &Coder = &coders.entries[i].1;
        let moved: Coder = if is_wrapper(id.as_str(), &pickled, Ghost(m)) {
            coder.duplicate()
        } else {
            Coder {
                spec: crate::model::duplicate_spec(&coder.spec),
                component_coder_ids: repoint(&coder.component_coder_ids, &pickled, Ghost(m)),
            }
        };
        assert(m[here] == coder.model());
        assert(moved.model() == wrapped(m)[here]);
        out.insert(id.clone(), moved);
        proof {
            assert(coder_map(out) =~= coder_map(before).insert(here, moved.model()));
            assert forall|id: Seq<char>|
                #[trigger]
                coder_map(out).contains_key(id) <==> exists|j: int|
                    0 <= j < i + 1 && (#[trigger] start.entries@[j]).0@ == id by {
                if coder_map(out).contains_key(id) {
                    if coder_map(before).contains_key(id) {
                        let j = choose|j: int|
                            0 <= j < i && (#[trigger] start.entries@[j]).0@ == id;
                        assert(start.entries@[j].0@ == id);
                    } else {
                        assert(start.entries@[i as int].0@ == id);
                    }
                }
                if exists|j: int| 0 <= j < i + 1 && (#[trigger] start.entries@[j]).0@ == id {
                    let j = choose|j: int|
                        0 <= j < i + 1 && (#[trigger] start.entries@[j]).0@ == id;
                    if j < i {
                        assert(coder_map(before).contains_key(id));
                    }
                }
            }
        }
        i = i + 1;
    }
    // A wrapper for each pickled coder that has none.
    let ghost kept = out;
    proof {
        assert forall|id: Seq<char>| #[trigger] coder_map(kept).contains_key(id) == m.contains_key(
            id,
        ) by {
            if m.contains_key(id) {
                let j = start.has_entry(id);
                assert(start.entries@[j].0@ == id);
            }
            if coder_map(kept).contains_key(id) {
                let j = choose|j: int| 0 <= j < n && (#[trigger] start.entries@[j]).0@ == id;
                start.entry_at(j);
            }
        }
    }
    let k: usize = pickled.len();
    let mut i: usize = 0;
    while i < k
        invariant
            k == pickled@.len(),
            i <= k,
            out.wf(),
            forall|id: Seq<char>| texts(pickled@).contains(id) <==> #[trigger] is_pickled(m, id),
            forall|id: Seq<char>|
                #[trigger]
                coder_map(out).contains_key(id) <==> m.contains_key(id) || exists|j: int|
                    0 <= j < i && lp_id((#[trigger] pickled@[j])@) == id,
            forall|id: Seq<char>|
                #[trigger]
                coder_map(out).contains_key(id) ==> coder_map(out)[id] == wrapped(m)[id],
        decreases k - i,
    {
        let ghost before = out;
        let ghost leaf = pickled@[i as int]@;
        let wrapper_id: String = length_prefixed_coder_id(pickled[i].as_str());
        proof {
            lp_id_back(leaf);
            assert(texts(pickled@)[i as int] == leaf);
            assert(is_pickled(m, leaf));
            assert(is_wrapper_id(m, lp_id(leaf)));
        }
        if !out.contains_key(wrapper_id.as_str()) {
            let mut components: Vec<String> = Vec::new();
            components.push(pickled[i].clone());
            let wrapper = Coder {
                spec: Some(
                    FunctionSpec { urn: urns::LENGTH_PREFIX_CODER.to_owned(), payload: Vec::new() },
                ),
                component_coder_ids: components,
            };
            proof {
                assert(texts(components@) =~= seq![leaf]);
                assert(wrapper.model() == wrapper_of(leaf));
                assert(!coder_map(before).contains_key(lp_id(leaf)));
                assert(!m.contains_key(lp_id(leaf)));
            }
            out.insert(wrapper_id, wrapper);
            assert(coder_map(out) =~= coder_map(before).insert(lp_id(leaf), wrapper_of(leaf)));
        }
        proof {
            assert forall|id: Seq<char>|
                #[trigger]
                coder_map(out).contains_key(id) <==> m.contains_key(id) || exists|j: int|
                    0 <= j < i + 1 && lp_id((#[trigger] pickled@[j])@) == id by {
                if coder_map(out).contains_key(id) && !m.contains_key(id) {
                    if coder_map(before).contains_key(id) {
                        let j = choose|j: int|
                            0 <= j < i && lp_id((#[trigger] pickled@[j])@) == id;
                        assert(lp_id(pickled@[j]@) == id);
                    } else {
                        assert(lp_id(pickled@[i as int]@) == id);
                    }
                }
                if exists|j: int| 0 <= j < i + 1 && lp_id((#[trigger] pickled@[j])@) == id {
                    let j = choose|j: int|
                        0 <= j < i + 1 && lp_id((#[trigger] pickled@[j])@) == id;
                    if j < i {
                        assert(coder_map(before).contains_key(id));
                    }
                }
            }
        }
        i = i + 1;
    }
    proof {
        assert forall|id: Seq<char>|
            #[trigger]
            coder_map(out).dom().contains(id) == wrapped(m).dom().contains(id) by {
            if is_wrapper_id(m, id) {
                let leaf = id.take(id.len() - 3);
                assert(is_pickled(m, leaf));
                assert(texts(pickled@).contains(leaf));
                let j = choose|j: int| 0 <= j < texts(pickled@).len() && texts(pickled@)[j] == leaf;
                assert(lp_id(pickled@[j]@) == id);
            }
            if coder_map(out).contains_key(id) && !m.contains_key(id) {
                let j = choose|j: int| 0 <= j < k && lp_id((#[trigger] pickled@[j])@) == id;
                lp_id_back(pickled@[j]@);
                assert(texts(pickled@)[j] == pickled@[j]@);
                assert(is_pickled(m, pickled@[j]@));
            }
        }
        assert(coder_map(out) =~= wrapped(m));
    }
    *coders = out;
}

fn is_wrapper(id: &str, pickled: &Vec<String>, Ghost(m): Ghost<Map<Seq<char>, CoderV>>) -> (r: bool)
    requires
        forall|x: Seq<char>| texts(pickled@).contains(x) <==> #[trigger] is_pickled(m, x),
    ensures
        r == is_wrapper_id(m, id@),
{
    let n: usize = pickled.len();
    let mut i: usize = 0;
    while i < n
        invariant
            n == pickled@.len(),
            i <= n,
            forall|x: Seq<char>| texts(pickled@).contains(x) <==> #[trigger] is_pickled(m, x),
            forall|j: int| 0 <= j < i ==> lp_id((#[trigger] pickled@[j])@) != id@,
        decreases n - i,
    {
        let candidate: String = length_prefixed_coder_id(pickled[i].as_str());
        if same_text(candidate.as_str(), id) {
            proof {
                lp_id_back(pickled@[i as int]@);
                assert(texts(pickled@)[i as int] == pickled@[i as int]@);
                assert(is_pickled(m, pickled@[i as int]@));
            }
            return true;
        }
        i = i + 1;
    }
    proof {
        if is_wrapper_id(m, id@) {
            let leaf = id@.take(id@.len() - 3);
            assert(texts(pickled@).contains(leaf));
            let j = choose|j: int| 0 <= j < texts(pickled@).len() && texts(pickled@)[j] == leaf;
            assert(lp_id(pickled@[j]@) == id@);
        }
    }
    false
}

/// Wrapping what is wrapped changes nothing, unless the wrapper of a pickled coder
/// is a pickled coder itself.
pub proof fn wrapping_is_idempotent(coders: Map<Seq<char>, CoderV>)
    requires
        forall|id: Seq<char>|
            #[trigger]
            is_pickled(coders, id) ==> !is_pickled(coders, lp_id(id)),
    ensures
        wrapped(wrapped(coders)) == wrapped(coders),
{
    let w = wrapped(coders);
    assert forall|id: Seq<char>| #[trigger] is_pickled(w, id) == is_pickled(coders, id) by {
        reveal_strlit("beam:coder:pickled_python:v1");
        reveal_strlit("beam:coder:length_prefix:v1");
        assert(urns::PYTHON_PICKLE_CODER@.len() != urns::LENGTH_PREFIX_CODER@.len());
    }
    assert forall|id: Seq<char>| #[trigger] is_wrapper_id(w, id) == is_wrapper_id(coders, id) by {
        if id.len() >= 3 {
            assert(is_pickled(w, id.take(id.len() - 3)) == is_pickled(
                coders,
                id.take(id.len() - 3),
            ));
        }
    }
    assert forall|id: Seq<char>| w.contains_key(id) implies #[trigger] wrapped(w)[id] == w[id] by {
        if !is_wrapper_id(coders, id) {
            let ids = coders[id].component_coder_ids;
            let once = repointed_all(coders, ids);
            assert forall|i: int| 0 <= i < once.len() implies repointed(w, #[trigger] once[i])
                == once[i] by {
                if is_pickled(coders, ids[i]) {
                    assert(!is_pickled(coders, lp_id(ids[i])));
                    assert(!is_pickled(w, once[i]));
                } else {
                    assert(!is_pickled(w, once[i]));
                }
            }
            assert(repointed_all(w, once) =~= once);
        }
    }
    assert(wrapped(w) =~= w);
}

/// The coder id to use for a collection whose coder has this id: its wrapper, if
/// there is one.
pub fn resolve_length_prefixed_coder_id(id: &str, coders: &NamedMap<Coder>) -> (r: String)
    requires
        coders.wf(),
    ensures
        r@ == (if coders@.contains_key(lp_id(id@)) {
            lp_id(id@)
        } else {
            id@
        }),
{
    let wrapper_id: String = length_prefixed_coder_id(id);
    if coders.contains_key(wrapper_id.as_str()) {
        wrapper_id
    } else {
        id.to_owned()
    }
}

} // verus!
