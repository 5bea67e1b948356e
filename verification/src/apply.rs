//! The modification applier: one pass over a patch document against one
//! graph. The well-known containers are provisioned first, then every
//! subtracted path is resolved and its subtree destroyed, then every added
//! description is materialized under its effective parent, depth first.
//!
//! A failure partway through the additions leaves the instances already
//! materialized in the graph: there is no rollback, by design.

use vstd::prelude::*;
use crate::graph::{Graph, GraphModel, insert_model, destroy_model, pairs_model};
use crate::json::{JsonValue, JsonModel, json_model};
use crate::props::{PropertyValue, PropModel, DecodeError, Decoded, decoded_outcome,
    decode_property, decode_property_spec, DecodeOutcome};
use crate::provision::{ServiceRefs, ServiceRefsModel, provision_spec, provision_services,
    svc_lookup};
use crate::resolve::{resolve_spec, find_instance_by_path, strings_model};

verus! {

/// One property of an instance description: a type tag and the raw value.
pub struct JsonProperty {
    /// The type tag naming the coercion to apply.
    pub tag: String,
    /// The untyped value.
    pub value: JsonValue,
}

/// One instance description of a patch: not yet part of the graph.
pub struct JsonInstance {
    pub class: String,
    pub name: String,
    /// Property name to description, keys unique.
    pub properties: Vec<(String, JsonProperty)>,
    /// Nested descriptions, materialized under this instance, in order.
    pub children: Vec<JsonInstance>,
    /// Optional path naming the parent; absent means the default container.
    pub target_parent: Option<String>,
}

/// A patch document: subtractions run before additions.
pub struct Modification {
    pub add: Vec<JsonInstance>,
    /// Paths of subtrees to destroy.
    pub subtract: Vec<String>,
}

/// Mathematical image of a [`JsonProperty`].
pub struct JsonPropertyModel {
    pub tag: Seq<char>,
    pub value: JsonModel,
}

/// Mathematical image of a [`JsonInstance`].
#[verifier::ext_equal]
pub struct JsonInstanceModel {
    pub class: Seq<char>,
    pub name: Seq<char>,
    pub properties: Seq<(Seq<char>, JsonPropertyModel)>,
    pub children: Seq<JsonInstanceModel>,
    pub target_parent: Option<Seq<char>>,
}

/// Mathematical image of a [`Modification`].
#[verifier::ext_equal]
pub struct ModificationModel {
    pub add: Seq<JsonInstanceModel>,
    pub subtract: Seq<Seq<char>>,
}

/// Image of a property list.
pub open spec fn prop_list_model(ps: Seq<(String, JsonProperty)>) -> Seq<
    (Seq<char>, JsonPropertyModel),
> {
    ps.map_values(
        |p: (String, JsonProperty)|
            (p.0@, JsonPropertyModel { tag: p.1.tag@, value: json_model(p.1.value) }),
    )
}

pub open spec fn ji_model(inst: JsonInstance) -> JsonInstanceModel
    decreases inst,
{
    JsonInstanceModel {
        class: inst.class@,
        name: inst.name@,
        properties: prop_list_model(inst.properties@),
        children: ji_list_model(inst.children@),
        target_parent: match inst.target_parent {
            Some(t) => Some(t@),
            None => None,
        },
    }
}

pub open spec fn ji_list_model(items: Seq<JsonInstance>) -> Seq<JsonInstanceModel>
    decreases items,
{
    if items.len() == 0 {
        Seq::empty()
    } else {
        seq![ji_model(items[0])] + ji_list_model(items.drop_first())
    }
}

/// The image of a description list is the image of its items, in order.
pub proof fn lemma_ji_list_model(items: Seq<JsonInstance>)
    ensures
        ji_list_model(items).len() == items.len(),
        forall|i: int|
            0 <= i < items.len() ==> ji_list_model(items)[i] == ji_model(#[trigger] items[i]),
    decreases items,
{
    if items.len() > 0 {
        lemma_ji_list_model(items.drop_first());
        assert forall|i: int|
            0 <= i < items.len() implies ji_list_model(items)[i] == ji_model(
            #[trigger] items[i],
        ) by {
            if i > 0 {
                assert(items.drop_first()[i - 1] == items[i]);
                assert(ji_list_model(items)[i] == ji_list_model(items.drop_first())[i - 1]);
            }
        }
    }
}

impl View for JsonInstance {
    type V = JsonInstanceModel;

    open spec fn view(&self) -> JsonInstanceModel {
        ji_model(*self)
    }
}

impl View for Modification {
    type V = ModificationModel;

    open spec fn view(&self) -> ModificationModel {
        ModificationModel {
            add: ji_list_model(self.add@),
            subtract: strings_model(self.subtract@),
        }
    }
}

/// Why a patch application failed.
pub enum ApplyError {
    /// A malformed property value, with the property's name.
    Decode { prop_name: String, error: DecodeError },
    /// The effective parent of an addition is no longer in the graph.
    ParentVanished,
}

/// Mathematical image of an [`ApplyError`].
pub enum ApplyErrorModel {
    Decode { prop_name: Seq<char>, error: DecodeError },
    ParentVanished,
}

impl ApplyError {
    /// A short human-readable account of the failure.
    pub fn describe(&self) -> String {
        match self {
            ApplyError::Decode { prop_name, error } => {
                let mut s = String::new();
                s.append("property '");
                s.append(prop_name.as_str());
                s.append("': ");
                s.append(error.message());
                s
            },
            ApplyError::ParentVanished => "target parent is no longer in the graph".to_owned(),
        }
    }
}

impl View for ApplyError {
    type V = ApplyErrorModel;

    open spec fn view(&self) -> ApplyErrorModel {
        match *self {
            ApplyError::Decode { ref prop_name, error } => ApplyErrorModel::Decode {
                prop_name: prop_name@,
                error,
            },
            ApplyError::ParentVanished => ApplyErrorModel::ParentVanished,
        }
    }
}

/// Decoding an instance description's property list: each property decoded
/// under the description's class, unsupported tags dropped, the first
/// malformed value failing the whole list with its property's name.
pub open spec fn decode_props_spec(
    class: Seq<char>,
    props: Seq<(Seq<char>, JsonPropertyModel)>,
) -> Result<Seq<(Seq<char>, PropModel)>, ApplyErrorModel>
    decreases props,
{
    if props.len() == 0 {
        Ok(Seq::empty())
    } else {
        let pname = props[0].0;
        let p = props[0].1;
        match decode_property_spec(class, pname, p.tag, p.value) {
            DecodeOutcome::Fail(e) => Err(ApplyErrorModel::Decode { prop_name: pname, error: e }),
            DecodeOutcome::Skip => decode_props_spec(class, props.drop_first()),
            DecodeOutcome::Value(pv) => match decode_props_spec(class, props.drop_first()) {
                Ok(tail) => Ok(seq![(pname, pv)] + tail),
                Err(e) => Err(e),
            },
        }
    }
}

/// Joins an already-decoded prefix onto the outcome for a suffix.
pub open spec fn dps_join(
    pre: Seq<(Seq<char>, PropModel)>,
    r: Result<Seq<(Seq<char>, PropModel)>, ApplyErrorModel>,
) -> Result<Seq<(Seq<char>, PropModel)>, ApplyErrorModel> {
    match r {
        Ok(tail) => Ok(pre + tail),
        Err(e) => Err(e),
    }
}

/// Adding one description as a single node: the parent must still be live;
/// the properties are decoded and the node inserted, without its nested
/// children.
pub open spec fn add_one_spec(g: GraphModel, inst: JsonInstanceModel, parent: int) -> (
    GraphModel,
    Result<int, ApplyErrorModel>,
) {
    if !g.live(parent) {
        (g, Err(ApplyErrorModel::ParentVanished))
    } else {
        match decode_props_spec(inst.class, inst.properties) {
            Err(e) => (g, Err(e)),
            Ok(props) => (
                insert_model(g, parent, inst.class, inst.name, props),
                Ok(g.nodes.len() as int),
            ),
        }
    }
}

/// Materializing one description under a parent: the node itself, then each
/// nested child in order under the new node, depth first. A failure in a
/// child leaves the node and its earlier children in the graph.
pub open spec fn process_spec(g: GraphModel, inst: JsonInstanceModel, parent: int) -> (
    GraphModel,
    Result<int, ApplyErrorModel>,
)
    decreases inst, 0int,
{
    let first = add_one_spec(g, inst, parent);
    match first.1 {
        Err(e) => (first.0, Err(e)),
        Ok(r) => {
            let after = process_children_spec(first.0, inst.children, r);
            match after.1 {
                Some(e) => (after.0, Err(e)),
                None => (after.0, Ok(r)),
            }
        },
    }
}

/// Materializing a list of descriptions under one parent, stopping at the
/// first failure.
pub open spec fn process_children_spec(
    g: GraphModel,
    kids: Seq<JsonInstanceModel>,
    parent: int,
) -> (GraphModel, Option<ApplyErrorModel>)
    decreases kids, 1int,
{
    if kids.len() == 0 {
        (g, None)
    } else {
        let first = process_spec(g, kids[0], parent);
        match first.1 {
            Err(e) => (first.0, Some(e)),
            Ok(_) => process_children_spec(first.0, kids.drop_first(), parent),
        }
    }
}

/// One subtraction: the path is resolved from the root; a hit destroys the
/// named subtree, a miss or a hit on the root itself changes nothing.
pub open spec fn subtract_one_spec(g: GraphModel, root: int, path: Seq<char>) -> GraphModel {
    match resolve_spec(g, root, path) {
        Some(id) => if id != GraphModel::root() {
            destroy_model(g, id)
        } else {
            g
        },
        None => g,
    }
}

/// All subtractions, in order.
pub open spec fn subtract_all_spec(g: GraphModel, root: int, paths: Seq<Seq<char>>) -> GraphModel
    decreases paths,
{
    if paths.len() == 0 {
        g
    } else {
        subtract_all_spec(subtract_one_spec(g, root, paths[0]), root, paths.drop_first())
    }
}

/// The parent an addition lands under: a well-known container named
/// directly, else the node its path resolves to, else the default container
/// (the workspace).
pub open spec fn effective_parent_spec(
    g: GraphModel,
    refs: ServiceRefsModel,
    root: int,
    tp: Option<Seq<char>>,
) -> int {
    let workspace = refs.root_refs[0];
    match tp {
        None => workspace,
        Some(t) => match svc_lookup(refs, t) {
            Some(id) => id,
            None => match resolve_spec(g, root, t) {
                Some(id) => id,
                None => workspace,
            },
        },
    }
}

/// All additions, in order, stopping at the first failure and keeping what
/// was already materialized.
pub open spec fn add_all_spec(
    g: GraphModel,
    refs: ServiceRefsModel,
    root: int,
    adds: Seq<JsonInstanceModel>,
) -> (GraphModel, Result<(), ApplyErrorModel>)
    decreases adds,
{
    if adds.len() == 0 {
        (g, Ok(()))
    } else {
        let p = effective_parent_spec(g, refs, root, adds[0].target_parent);
        let first = process_spec(g, adds[0], p);
        match first.1 {
            Err(e) => (first.0, Err(e)),
            Ok(_) => add_all_spec(first.0, refs, root, adds.drop_first()),
        }
    }
}

/// One whole patch application: provision the well-known containers, run
/// every subtraction, then every addition.
pub open spec fn apply_spec(g: GraphModel, m: ModificationModel, root: int) -> (
    GraphModel,
    Result<(), ApplyErrorModel>,
)
{
    let prov = provision_spec(g, root);
    let g2 = subtract_all_spec(prov.0, root, m.subtract);
    add_all_spec(g2, prov.1, root, m.add)
}

/// A subtraction whose path does not resolve leaves the graph exactly as it
/// was, and the remaining subtractions and all additions still run on it.
pub proof fn lemma_subtract_miss_is_noop(
    g: GraphModel,
    root: int,
    paths: Seq<Seq<char>>,
    k: int,
)
    requires
        0 <= k < paths.len(),
        resolve_spec(subtract_all_spec(g, root, paths.take(k)), root, paths[k]) is None,
    ensures
        subtract_all_spec(g, root, paths.take(k + 1)) == subtract_all_spec(g, root, paths.take(k)),
        subtract_all_spec(g, root, paths) == subtract_all_spec(
            subtract_all_spec(g, root, paths.take(k + 1)),
            root,
            paths.skip(k + 1),
        ),
{
    lemma_subtract_split(g, root, paths, k);
    lemma_subtract_split(g, root, paths, k + 1);
    lemma_subtract_split(g, root, paths.take(k + 1), k);
    let gk = subtract_all_spec(g, root, paths.take(k));
    assert(paths.skip(k)[0] == paths[k]);
    assert(subtract_one_spec(gk, root, paths[k]) == gk);
    assert(paths.skip(k).drop_first() =~= paths.skip(k + 1));
    assert(paths.take(k + 1).take(k) =~= paths.take(k));
    assert(paths.take(k + 1)[k] == paths[k]);
    assert(paths.take(k + 1).skip(k) =~= seq![paths[k]]);
    assert(subtract_all_spec(gk, root, seq![paths[k]]) == gk) by {
        assert(seq![paths[k]][0] == paths[k]);
        assert(seq![paths[k]].drop_first() =~= Seq::<Seq<char>>::empty());
        assert(subtract_one_spec(gk, root, paths[k]) == gk);
        assert(subtract_all_spec(gk, root, Seq::<Seq<char>>::empty()) == gk);
    }
}

/// Decodes a description's properties and inserts it as one node under
/// `parent_id`, without its nested children.
pub fn add_instance_to_weakdom(g: &mut Graph, json: &JsonInstance, parent_id: usize) -> (r:
    Result<usize, ApplyError>)
    requires
        old(g)@.wf(),
    ensures
        final(g)@ == add_one_spec(old(g)@, json@, parent_id as int).0,
        final(g)@.wf(),
        (match r {
            Ok(id) => add_one_spec(old(g)@, json@, parent_id as int).1 == Ok::<
                int,
                ApplyErrorModel,
            >(id as int),
            Err(e) => add_one_spec(old(g)@, json@, parent_id as int).1 == Err::<
                int,
                ApplyErrorModel,
            >(e@),
        }),
{
    if !g.is_live(parent_id) {
        return Err(ApplyError::ParentVanished);
    }
    let ghost plist = prop_list_model(json.properties@);
    let ghost cls = json.class@;
    let mut decoded: Vec<(String, PropertyValue)> = Vec::new();
    proof {
        assert(plist.skip(0) =~= plist);
        assert(pairs_model(decoded@) =~= Seq::<(Seq<char>, PropModel)>::empty());
        match decode_props_spec(cls, plist) {
            Ok(tail) => {
                assert(Seq::<(Seq<char>, PropModel)>::empty() + tail =~= tail);
            },
            Err(_) => {},
        }
    }
    let mut i: usize = 0;
    while i < json.properties.len()
        invariant
            i <= json.properties@.len(),
            plist == prop_list_model(json.properties@),
            cls == json.class@,
            plist.len() == json.properties@.len(),
            g@ == old(g)@,
            g@.wf(),
            g@.live(parent_id as int),
            dps_join(pairs_model(decoded@), decode_props_spec(cls, plist.skip(i as int)))
                == decode_props_spec(cls, plist),
        decreases json.properties@.len() - i,
    {
        let pair = &json.properties[i];
        proof {
            assert(plist[i as int] == (pair.0@, JsonPropertyModel {
                tag: pair.1.tag@,
                value: json_model(pair.1.value),
            }));
            assert(plist.skip(i as int)[0] == plist[i as int]);
            assert(plist.skip(i as int).drop_first() =~= plist.skip(i + 1));
        }
        match decode_property(json.class.as_str(), pair.0.as_str(), pair.1.tag.as_str(),
            &pair.1.value) {
            Err(e) => {
                return Err(ApplyError::Decode { prop_name: pair.0.clone(), error: e });
            },
            Ok(Decoded::Skipped) => {
            },
            Ok(Decoded::Keep(pv)) => {
                let ghost predec = decoded@;
                let ghost pvm = pv@;
                decoded.push((pair.0.clone(), pv));
                proof {
                    assert(pairs_model(decoded@) =~= pairs_model(predec).push(
                        (pair.0@, pvm),
                    ));
                    match decode_props_spec(cls, plist.skip(i + 1)) {
                        Ok(tail) => {
                            assert(pairs_model(predec) + (seq![(pair.0@, pvm)] + tail)
                                =~= pairs_model(predec).push((pair.0@, pvm)) + tail);
                        },
                        Err(_) => {},
                    }
                }
            },
        }
        i = i + 1;
    }
    proof {
        assert(plist.skip(plist.len() as int) =~= Seq::<(Seq<char>, JsonPropertyModel)>::empty());
        assert(decode_props_spec(cls, Seq::empty()) == Ok::<
            Seq<(Seq<char>, PropModel)>,
            ApplyErrorModel,
        >(Seq::empty()));
        assert(pairs_model(decoded@) + Seq::<(Seq<char>, PropModel)>::empty() =~= pairs_model(
            decoded@,
        ));
    }
    let id = g.insert(parent_id, json.class.clone(), json.name.clone(), decoded);
    Ok(id)
}

/// Materializes a description and its whole nested subtree under
/// `parent_id`, depth first, keeping the description's child order.
pub fn process_instance_with_children(
    g: &mut Graph,
    instance: &JsonInstance,
    parent_id: usize,
) -> (r: Result<usize, ApplyError>)
    requires
        old(g)@.wf(),
    ensures
        final(g)@ == process_spec(old(g)@, instance@, parent_id as int).0,
        final(g)@.wf(),
        (match r {
            Ok(id) => process_spec(old(g)@, instance@, parent_id as int).1 == Ok::<
                int,
                ApplyErrorModel,
            >(id as int),
            Err(e) => process_spec(old(g)@, instance@, parent_id as int).1 == Err::<
                int,
                ApplyErrorModel,
            >(e@),
        }),
    decreases instance,
{
    let first = add_instance_to_weakdom(g, instance, parent_id);
    let instance_id = match first {
        Ok(id) => id,
        Err(e) => {
            return Err(e);
        },
    };
    let ghost g1 = g@;
    let ghost kidsm = instance@.children;
    proof {
        lemma_ji_list_model(instance.children@);
        assert(kidsm.skip(0) =~= kidsm);
    }
    let mut k: usize = 0;
    while k < instance.children.len()
        invariant
            k <= instance.children@.len(),
            kidsm == ji_list_model(instance.children@),
            kidsm == instance@.children,
            kidsm.len() == instance.children@.len(),
            forall|j: int|
                0 <= j < kidsm.len() ==> kidsm[j] == ji_model(#[trigger] instance.children@[j]),
            g@.wf(),
            add_one_spec(old(g)@, instance@, parent_id as int).0 == g1,
            add_one_spec(old(g)@, instance@, parent_id as int).1 == Ok::<int, ApplyErrorModel>(
                instance_id as int,
            ),
            process_children_spec(g@, kidsm.skip(k as int), instance_id as int)
                == process_children_spec(g1, kidsm, instance_id as int),
        decreases kidsm.len() - k,
    {
        proof {
            assert(kidsm.skip(k as int)[0] == kidsm[k as int]);
            assert(decreases_to!(*instance => instance.children));
            assert(decreases_to!(instance.children => instance.children@));
            assert(decreases_to!(instance.children@ => instance.children@[k as int]));
            assert(decreases_to!(*instance => instance.children@[k as int]));
        }
        let ghost g_pre = g@;
        let res = process_instance_with_children(g, &instance.children[k], instance_id);
        match res {
            Err(e) => {
                proof {
                    assert(process_spec(g_pre, kidsm[k as int], instance_id as int) == (
                        g@,
                        Err::<int, ApplyErrorModel>(e@),
                    ));
                    assert(process_children_spec(g_pre, kidsm.skip(k as int), instance_id as int)
                        == (g@, Some(e@)));
                    assert(process_children_spec(g1, kidsm, instance_id as int) == (
                        g@,
                        Some(e@),
                    ));
                    assert(process_spec(old(g)@, instance@, parent_id as int) == (
                        g@,
                        Err::<int, ApplyErrorModel>(e@),
                    ));
                }
                return Err(e);
            },
            Ok(_) => {
                proof {
                    assert(kidsm.skip(k as int).drop_first() =~= kidsm.skip(k + 1));
                }
            },
        }
        k = k + 1;
    }
    proof {
        assert(kidsm.skip(kidsm.len() as int) =~= Seq::<JsonInstanceModel>::empty());
    }
    Ok(instance_id)
}

/// Applies one patch document to the graph: provisions the well-known
/// containers, destroys every subtracted subtree, then materializes every
/// added description under its effective parent, in order.
pub fn json_to_weakdom(g: &mut Graph, json: &Modification, parent_id: usize) -> (r: Result<
    (),
    ApplyError,
>)
    requires
        old(g)@.wf(),
        parent_id as int == GraphModel::root(),
    ensures
        final(g)@ == apply_spec(old(g)@, json@, parent_id as int).0,
        final(g)@.wf(),
        (match r {
            Ok(_) => apply_spec(old(g)@, json@, parent_id as int).1 == Ok::<(), ApplyErrorModel>(
                (),
            ),
            Err(e) => apply_spec(old(g)@, json@, parent_id as int).1 == Err::<
                (),
                ApplyErrorModel,
            >(e@),
        }),
{
    let refs = provision_services(g, parent_id);
    let ghost refsm = refs@;
    let ghost g1 = g@;
    let ghost subm = json@.subtract;
    // Subtractions first, each a non-fatal attempt.
    proof {
        assert(subm.skip(0) =~= subm);
        assert(strings_model(json.subtract@).len() == json.subtract@.len());
    }
    let mut i: usize = 0;
    while i < json.subtract.len()
        invariant
            i <= json.subtract@.len(),
            subm == strings_model(json.subtract@),
            subm.len() == json.subtract@.len(),
            g@.wf(),
            parent_id as int == GraphModel::root(),
            subtract_all_spec(g@, parent_id as int, subm.skip(i as int)) == subtract_all_spec(
                g1,
                parent_id as int,
                subm,
            ),
        decreases subm.len() - i,
    {
        proof {
            assert(strings_model(json.subtract@)[i as int] == json.subtract@[i as int]@);
            assert(subm.skip(i as int)[0] == subm[i as int]);
            assert(subm.skip(i as int).drop_first() =~= subm.skip(i + 1));
        }
        match find_instance_by_path(g, parent_id, json.subtract[i].as_str()) {
            Some(id) => {
                // A refusal (the root itself) is as non-fatal as a miss.
                let _ = crate::graph::remove_instance(g, id);
            },
            None => {
            },
        }
        i = i + 1;
    }
    proof {
        assert(subm.skip(subm.len() as int) =~= Seq::<Seq<char>>::empty());
    }
    let ghost g2 = g@;
    let ghost addm = json@.add;
    let workspace = refs.root_refs[0];
    proof {
        lemma_ji_list_model(json.add@);
        assert(addm.skip(0) =~= addm);
    }
    let mut k: usize = 0;
    while k < json.add.len()
        invariant
            k <= json.add@.len(),
            addm == ji_list_model(json.add@),
            addm.len() == json.add@.len(),
            forall|j: int| 0 <= j < addm.len() ==> addm[j] == ji_model(#[trigger] json.add@[j]),
            g@.wf(),
            parent_id as int == GraphModel::root(),
            refs.wf(),
            refsm == refs@,
            workspace as int == refsm.root_refs[0],
            apply_spec(old(g)@, json@, parent_id as int) == add_all_spec(
                g2,
                refsm,
                parent_id as int,
                addm,
            ),
            add_all_spec(g@, refsm, parent_id as int, addm.skip(k as int)) == add_all_spec(
                g2,
                refsm,
                parent_id as int,
                addm,
            ),
        decreases addm.len() - k,
    {
        proof {
            assert(addm.skip(k as int)[0] == addm[k as int]);
            assert(addm.skip(k as int).drop_first() =~= addm.skip(k + 1));
        }
        let instance = &json.add[k];
        let target_parent: usize = match &instance.target_parent {
            Some(target) => {
                match refs.lookup(target.as_str()) {
                    Some(id) => id,
                    None => {
                        match find_instance_by_path(g, parent_id, target.as_str()) {
                            Some(id) => id,
                            None => workspace,
                        }
                    },
                }
            },
            None => workspace,
        };
        proof {
            assert(target_parent as int == effective_parent_spec(
                g@,
                refsm,
                parent_id as int,
                addm[k as int].target_parent,
            ));
        }
        let ghost g_pre = g@;
        match process_instance_with_children(g, instance, target_parent) {
            Ok(_) => {
            },
            Err(e) => {
                proof {
                    assert(process_spec(g_pre, addm[k as int], target_parent as int) == (
                        g@,
                        Err::<int, ApplyErrorModel>(e@),
                    ));
                    assert(add_all_spec(g_pre, refsm, parent_id as int, addm.skip(k as int)) == (
                        g@,
                        Err::<(), ApplyErrorModel>(e@),
                    ));
                }
                return Err(e);
            },
        }
        k = k + 1;
    }
    proof {
        assert(addm.skip(addm.len() as int) =~= Seq::<JsonInstanceModel>::empty());
    }
    Ok(())
}

/// Subtractions fold: the whole list equals the first `k` followed by the
/// rest.
pub proof fn lemma_subtract_split(g: GraphModel, root: int, paths: Seq<Seq<char>>, k: int)
    requires
        0 <= k <= paths.len(),
    ensures
        subtract_all_spec(g, root, paths) == subtract_all_spec(
            subtract_all_spec(g, root, paths.take(k)),
            root,
            paths.skip(k),
        ),
    decreases k,
{
    if k == 0 {
        assert(paths.take(0) =~= Seq::<Seq<char>>::empty());
        assert(paths.skip(0) =~= paths);
    } else {
        assert(paths.take(k)[0] == paths[0]);
        assert(paths[0] == paths.take(1)[0]);
        let g1 = subtract_one_spec(g, root, paths[0]);
        assert(paths.take(k).drop_first() =~= paths.drop_first().take(k - 1));
        assert(paths.skip(k) =~= paths.drop_first().skip(k - 1));
        lemma_subtract_split(g1, root, paths.drop_first(), k - 1);
    }
}

} // verus!
