//! The service provisioner: a fixed roster of well-known container nodes is
//! guaranteed to exist, idempotently, before any patch is applied — nine
//! directly under the root, and two more one level down under the starter
//! player container.

use vstd::prelude::*;
use crate::graph::{Graph, GraphModel, insert_model, pairs_model, lemma_insert_wf};
use crate::props::PropertyValue;
use crate::resolve::{first_named, find_service};
use crate::text::str_eq;

verus! {

/// What `get_or_create` yields: the first child with the name where one
/// exists, else the graph grown by one untyped container of that name, whose
/// class tag equals the name.
pub open spec fn goc_spec(g: GraphModel, p: int, name: Seq<char>) -> (GraphModel, int) {
    match first_named(g, g.node(p).children, name) {
        Some(c) => (g, c),
        None => (insert_model(g, p, name, name, Seq::empty()), g.nodes.len() as int),
    }
}

/// A miss means every child's name differs.
pub proof fn lemma_first_named_misses(g: GraphModel, kids: Seq<int>, name: Seq<char>)
    requires
        first_named(g, kids, name) is None,
    ensures
        forall|k: int| 0 <= k < kids.len() ==> g.node(#[trigger] kids[k]).name != name,
    decreases kids,
{
    if kids.len() > 0 {
        lemma_first_named_misses(g, kids.drop_first(), name);
        assert forall|k: int| 0 <= k < kids.len() implies g.node(#[trigger] kids[k]).name
            != name by {
            if k > 0 {
                assert(kids.drop_first()[k - 1] == kids[k]);
            }
        }
    }
}

/// A hit names one of the children, and its name matches.
pub proof fn lemma_first_named_in(g: GraphModel, kids: Seq<int>, name: Seq<char>)
    requires
        first_named(g, kids, name) is Some,
    ensures
        kids.contains(first_named(g, kids, name).unwrap()),
        g.node(first_named(g, kids, name).unwrap()).name == name,
    decreases kids,
{
    let c = first_named(g, kids, name).unwrap();
    if g.node(kids[0]).name == name {
        assert(kids[0] == c);
    } else {
        lemma_first_named_in(g, kids.drop_first(), name);
        let w = choose|w: int| 0 <= w < kids.drop_first().len() && kids.drop_first()[w] == c;
        assert(kids[w + 1] == c);
    }
}

/// The first match depends only on the children's names.
pub proof fn lemma_first_named_same_names(
    g1: GraphModel,
    g2: GraphModel,
    kids: Seq<int>,
    name: Seq<char>,
)
    requires
        forall|k: int|
            0 <= k < kids.len() ==> g2.node(#[trigger] kids[k]).name == g1.node(kids[k]).name,
    ensures
        first_named(g2, kids, name) == first_named(g1, kids, name),
    decreases kids,
{
    if kids.len() > 0 {
        assert(g2.node(kids[0]).name == g1.node(kids[0]).name);
        assert forall|k: int|
            0 <= k < kids.drop_first().len() implies g2.node(
            #[trigger] kids.drop_first()[k],
        ).name == g1.node(kids.drop_first()[k]).name by {
            assert(kids.drop_first()[k] == kids[k + 1]);
        }
        lemma_first_named_same_names(g1, g2, kids.drop_first(), name);
    }
}

/// Appending a child changes the first match only where there was none.
pub proof fn lemma_first_named_push(g: GraphModel, kids: Seq<int>, x: int, name: Seq<char>)
    ensures
        first_named(g, kids.push(x), name) == (if first_named(g, kids, name) is Some {
            first_named(g, kids, name)
        } else if g.node(x).name == name {
            Some(x)
        } else {
            None
        }),
    decreases kids,
{
    if kids.len() == 0 {
        assert(kids.push(x) =~= seq![x]);
        assert(kids.push(x)[0] == x);
        assert(kids.push(x).drop_first() =~= Seq::<int>::empty());
    } else {
        assert(kids.push(x)[0] == kids[0]);
        assert(kids.push(x).drop_first() =~= kids.drop_first().push(x));
        lemma_first_named_push(g, kids.drop_first(), x, name);
    }
}

/// One `get_or_create` step: the graph stays well formed, nothing live is
/// lost or renamed, no other child list moves, the result is live, and the
/// name is found under the parent afterwards. Where the name already had a
/// first match, nothing changes at all.
pub proof fn lemma_goc(g: GraphModel, p: int, name: Seq<char>)
    requires
        g.wf(),
        g.live(p),
    ensures
        ({
            let (g2, c) = goc_spec(g, p, name);
            &&& g2.wf()
            &&& g2.live(c)
            &&& g2.nodes.len() >= g.nodes.len()
            &&& forall|i: int| g.live(i) ==> g2.live(i)
            &&& forall|i: int| g.live(i) ==> #[trigger] g2.node(i).name == g.node(i).name
            &&& forall|i: int|
                g.live(i) && i != p ==> #[trigger] g2.node(i).children == g.node(i).children
            &&& first_named(g2, g2.node(p).children, name) == Some(c)
            &&& (first_named(g, g.node(p).children, name) is Some ==> g2 == g)
        }),
{
    let kids = g.node(p).children;
    match first_named(g, kids, name) {
        Some(c) => {
            lemma_first_named_in(g, kids, name);
            let w = choose|w: int| 0 <= w < kids.len() && kids[w] == c;
            assert(g.node(p).children[w] == c);
            assert(g.live(c));
        },
        None => {
            let g2 = insert_model(g, p, name, name, Seq::empty());
            let n = g.nodes.len() as int;
            lemma_insert_wf(g, p, name, name, Seq::empty());
            assert forall|i: int| g.live(i) implies g2.live(i) && #[trigger] g2.node(i).name
                == g.node(i).name by {}
            assert(g2.node(p).children =~= kids.push(n));
            lemma_first_named_misses(g, kids, name);
            assert forall|k: int|
                0 <= k < kids.len() implies g2.node(#[trigger] kids[k]).name == g.node(
                kids[k],
            ).name by {
                assert(g.live(kids[k]));
            }
            lemma_first_named_same_names(g, g2, kids, name);
            lemma_first_named_push(g2, kids, n, name);
        },
    }
}

/// A `get_or_create` anywhere in the graph leaves an existing first match in
/// place.
pub proof fn lemma_goc_stable(
    g: GraphModel,
    p: int,
    name: Seq<char>,
    p2: int,
    name2: Seq<char>,
)
    requires
        g.wf(),
        g.live(p),
        g.live(p2),
        first_named(g, g.node(p).children, name) is Some,
    ensures
        ({
            let (g2, c2) = goc_spec(g, p2, name2);
            first_named(g2, g2.node(p).children, name) == first_named(
                g,
                g.node(p).children,
                name,
            )
        }),
{
    let kids = g.node(p).children;
    match first_named(g, g.node(p2).children, name2) {
        Some(_) => {},
        None => {
            let g2 = insert_model(g, p2, name2, name2, Seq::empty());
            let n = g.nodes.len() as int;
            assert forall|k: int|
                0 <= k < kids.len() implies g2.node(#[trigger] kids[k]).name == g.node(
                kids[k],
            ).name by {
                assert(g.live(kids[k]));
            }
            lemma_first_named_same_names(g, g2, kids, name);
            if p2 == p {
                // The parent cannot already hold the name, or there would be
                // nothing to create; here `name2` misses, so `name` differs
                // from it or the match stands in the prefix either way.
                assert(g2.node(p).children =~= kids.push(n));
                lemma_first_named_push(g2, kids, n, name);
            } else {
                assert(g2.node(p).children == kids);
            }
        },
    }
}

/// Running `get_or_create` down a list of names under one parent, collecting
/// the references in order.
pub open spec fn goc_chain(g: GraphModel, p: int, names: Seq<Seq<char>>) -> (
    GraphModel,
    Seq<int>,
)
    decreases names,
{
    if names.len() == 0 {
        (g, Seq::empty())
    } else {
        let first = goc_spec(g, p, names[0]);
        let rest = goc_chain(first.0, p, names.drop_first());
        (rest.0, seq![first.1] + rest.1)
    }
}

/// A chain grows one step at a time.
pub proof fn lemma_chain_snoc(g: GraphModel, p: int, names: Seq<Seq<char>>, n: Seq<char>)
    ensures
        ({
            let whole = goc_chain(g, p, names.push(n));
            let pre = goc_chain(g, p, names);
            let last = goc_spec(pre.0, p, n);
            whole == (last.0, pre.1.push(last.1))
        }),
    decreases names,
{
    if names.len() == 0 {
        assert(names.push(n) =~= seq![n]);
        assert(names.push(n).drop_first() =~= Seq::<Seq<char>>::empty());
        assert(names.push(n)[0] == n);
        let first = goc_spec(g, p, n);
        assert(goc_chain(first.0, p, Seq::empty()) == (first.0, Seq::<int>::empty()));
        assert(seq![first.1] + Seq::<int>::empty() =~= Seq::<int>::empty().push(first.1));
    } else {
        assert(names.push(n)[0] == names[0]);
        assert(names.push(n).drop_first() =~= names.drop_first().push(n));
        let first = goc_spec(g, p, names[0]);
        lemma_chain_snoc(first.0, p, names.drop_first(), n);
        let pre = goc_chain(g, p, names);
        let last = goc_spec(pre.0, p, n);
        assert(seq![first.1] + goc_chain(first.0, p, names.drop_first()).1.push(last.1) =~= pre.1.push(
            last.1,
        ));
    }
}

/// An existing first match survives a whole chain.
pub proof fn lemma_chain_stable(
    g: GraphModel,
    p: int,
    name: Seq<char>,
    p2: int,
    names: Seq<Seq<char>>,
)
    requires
        g.wf(),
        g.live(p),
        g.live(p2),
        first_named(g, g.node(p).children, name) is Some,
    ensures
        ({
            let (g2, _) = goc_chain(g, p2, names);
            first_named(g2, g2.node(p).children, name) == first_named(
                g,
                g.node(p).children,
                name,
            )
        }),
    decreases names,
{
    if names.len() > 0 {
        lemma_goc_stable(g, p, name, p2, names[0]);
        lemma_goc(g, p2, names[0]);
        let g1 = goc_spec(g, p2, names[0]).0;
        lemma_chain_stable(g1, p, name, p2, names.drop_first());
    }
}

/// A whole chain: well-formedness and liveness are kept, every name in the
/// list is found under the parent afterwards, with the collected reference as
/// its first match, and no other child list moves.
pub proof fn lemma_chain(g: GraphModel, p: int, names: Seq<Seq<char>>)
    requires
        g.wf(),
        g.live(p),
    ensures
        ({
            let (g2, refs) = goc_chain(g, p, names);
            &&& g2.wf()
            &&& refs.len() == names.len()
            &&& forall|i: int| g.live(i) ==> g2.live(i)
            &&& forall|i: int| g.live(i) ==> #[trigger] g2.node(i).name == g.node(i).name
            &&& forall|i: int|
                g.live(i) && i != p ==> #[trigger] g2.node(i).children == g.node(i).children
            &&& forall|k: int| 0 <= k < names.len() ==> g2.live(#[trigger] refs[k])
            &&& forall|k: int|
                0 <= k < names.len() ==> first_named(g2, g2.node(p).children, #[trigger] names[k])
                    == Some(refs[k])
        }),
    decreases names,
{
    if names.len() > 0 {
        let first = goc_spec(g, p, names[0]);
        lemma_goc(g, p, names[0]);
        lemma_chain(first.0, p, names.drop_first());
        lemma_chain_stable(first.0, p, names[0], p, names.drop_first());
        let (g2, refs) = goc_chain(g, p, names);
        assert forall|k: int|
            0 <= k < names.len() implies first_named(g2, g2.node(p).children, #[trigger] names[k])
            == Some(refs[k]) && g2.live(#[trigger] refs[k]) by {
            if k == 0 {
                assert(refs[0] == first.1);
            } else {
                assert(names.drop_first()[k - 1] == names[k]);
                assert(goc_chain(first.0, p, names.drop_first()).1[k - 1] == refs[k]);
            }
        }
    }
}

/// A chain whose names are all already in place changes nothing and returns
/// the recorded references.
pub proof fn lemma_chain_idem(g: GraphModel, p: int, names: Seq<Seq<char>>, refs: Seq<int>)
    requires
        g.wf(),
        g.live(p),
        refs.len() == names.len(),
        forall|k: int|
            0 <= k < names.len() ==> first_named(g, g.node(p).children, #[trigger] names[k])
                == Some(refs[k]),
    ensures
        goc_chain(g, p, names) == (g, refs),
    decreases names,
{
    if names.len() == 0 {
        assert(refs =~= Seq::<int>::empty());
    } else {
        assert(first_named(g, g.node(p).children, names[0]) == Some(refs[0]));
        let first = goc_spec(g, p, names[0]);
        assert(first == (g, refs[0]));
        assert forall|k: int|
            0 <= k < names.drop_first().len() implies first_named(
            g,
            g.node(p).children,
            #[trigger] names.drop_first()[k],
        ) == Some(refs.drop_first()[k]) by {
            assert(names.drop_first()[k] == names[k + 1]);
            assert(refs.drop_first()[k] == refs[k + 1]);
        }
        lemma_chain_idem(g, p, names.drop_first(), refs.drop_first());
        assert(seq![refs[0]] + refs.drop_first() =~= refs);
    }
}

/// The nine well-known containers provisioned directly under the root, in
/// order.
pub open spec fn roster() -> Seq<Seq<char>> {
    seq![
        "Workspace"@,
        "StarterPlayer"@,
        "Lighting"@,
        "ReplicatedStorage"@,
        "ServerScriptService"@,
        "ServerStorage"@,
        "SoundService"@,
        "Chat"@,
        "Teams"@,
    ]
}

/// References of the provisioned well-known containers.
pub struct ServiceRefs {
    /// References of the roster containers, in roster order; the workspace
    /// first, the starter player container second.
    pub root_refs: Vec<usize>,
    pub starter_player_scripts: usize,
    pub starter_character_scripts: usize,
}

/// Mathematical image of a [`ServiceRefs`].
#[verifier::ext_equal]
pub struct ServiceRefsModel {
    pub root_refs: Seq<int>,
    pub starter_player_scripts: int,
    pub starter_character_scripts: int,
}

impl View for ServiceRefs {
    type V = ServiceRefsModel;

    open spec fn view(&self) -> ServiceRefsModel {
        ServiceRefsModel {
            root_refs: crate::graph::refs_model(self.root_refs@),
            starter_player_scripts: self.starter_player_scripts as int,
            starter_character_scripts: self.starter_character_scripts as int,
        }
    }
}

/// What provisioning yields: the roster chained under the root, then the two
/// starter player containers under the starter player reference.
pub open spec fn provision_spec(g: GraphModel, root: int) -> (GraphModel, ServiceRefsModel) {
    let pass = goc_chain(g, root, roster());
    let sp = pass.1[1];
    let t1 = goc_spec(pass.0, sp, "StarterPlayerScripts"@);
    let t2 = goc_spec(t1.0, sp, "StarterCharacterScripts"@);
    (
        t2.0,
        ServiceRefsModel {
            root_refs: pass.1,
            starter_player_scripts: t1.1,
            starter_character_scripts: t2.1,
        },
    )
}

/// The container a direct service name denotes, if the name is one of the
/// well-known eleven.
pub open spec fn svc_lookup(refs: ServiceRefsModel, name: Seq<char>) -> Option<int> {
    if name == "Workspace"@ {
        Some(refs.root_refs[0])
    } else if name == "StarterPlayer"@ {
        Some(refs.root_refs[1])
    } else if name == "Lighting"@ {
        Some(refs.root_refs[2])
    } else if name == "ReplicatedStorage"@ {
        Some(refs.root_refs[3])
    } else if name == "ServerScriptService"@ {
        Some(refs.root_refs[4])
    } else if name == "ServerStorage"@ {
        Some(refs.root_refs[5])
    } else if name == "SoundService"@ {
        Some(refs.root_refs[6])
    } else if name == "Chat"@ {
        Some(refs.root_refs[7])
    } else if name == "Teams"@ {
        Some(refs.root_refs[8])
    } else if name == "StarterPlayerScripts"@ {
        Some(refs.starter_player_scripts)
    } else if name == "StarterCharacterScripts"@ {
        Some(refs.starter_character_scripts)
    } else {
        None
    }
}

impl ServiceRefs {
    /// Whether the reference table is fully populated.
    pub open spec fn wf(self) -> bool {
        self.root_refs@.len() == 9
    }

    /// Looks a direct service name up in the table.
    pub fn lookup(&self, name: &str) -> (r: Option<usize>)
        requires
            self.wf(),
        ensures
            match r {
                Some(c) => svc_lookup(self@, name@) == Some(c as int),
                None => svc_lookup(self@, name@) is None,
            },
    {
        if str_eq(name, "Workspace") {
            Some(self.root_refs[0])
        } else if str_eq(name, "StarterPlayer") {
            Some(self.root_refs[1])
        } else if str_eq(name, "Lighting") {
            Some(self.root_refs[2])
        } else if str_eq(name, "ReplicatedStorage") {
            Some(self.root_refs[3])
        } else if str_eq(name, "ServerScriptService") {
            Some(self.root_refs[4])
        } else if str_eq(name, "ServerStorage") {
            Some(self.root_refs[5])
        } else if str_eq(name, "SoundService") {
            Some(self.root_refs[6])
        } else if str_eq(name, "Chat") {
            Some(self.root_refs[7])
        } else if str_eq(name, "Teams") {
            Some(self.root_refs[8])
        } else if str_eq(name, "StarterPlayerScripts") {
            Some(self.starter_player_scripts)
        } else if str_eq(name, "StarterCharacterScripts") {
            Some(self.starter_character_scripts)
        } else {
            None
        }
    }
}

/// Finds the first child of `parent` named `service_name`, creating an
/// untyped container of that name when none exists.
pub fn find_or_create_service(g: &mut Graph, parent: usize, service_name: &str) -> (r: usize)
    requires
        old(g)@.wf(),
        old(g)@.live(parent as int),
    ensures
        final(g)@ == goc_spec(old(g)@, parent as int, service_name@).0,
        r as int == goc_spec(old(g)@, parent as int, service_name@).1,
        final(g)@.wf(),
        final(g)@.live(r as int),
        forall|i: int| old(g)@.live(i) ==> final(g)@.live(i),
{
    let result = match find_service(g, parent, service_name) {
        Some(c) => c,
        None => {
            let r = g.insert(parent, service_name.to_owned(), service_name.to_owned(), Vec::new());
            proof {
                assert(pairs_model(Seq::<(String, PropertyValue)>::empty()) =~= Seq::<
                    (Seq<char>, crate::props::PropModel),
                >::empty());
            }
            r
        },
    };
    proof {
        lemma_goc(old(g)@, parent as int, service_name@);
    }
    result
}

/// The roster as executable names.
fn roster_exec() -> (v: Vec<&'static str>)
    ensures
        v@.len() == 9,
        forall|k: int| 0 <= k < 9 ==> (#[trigger] v@[k])@ == roster()[k],
{
    let mut v: Vec<&'static str> = Vec::new();
    v.push("Workspace");
    v.push("StarterPlayer");
    v.push("Lighting");
    v.push("ReplicatedStorage");
    v.push("ServerScriptService");
    v.push("ServerStorage");
    v.push("SoundService");
    v.push("Chat");
    v.push("Teams");
    v
}

/// Provisions the whole roster of well-known containers, returning their
/// references.
pub fn provision_services(g: &mut Graph, root: usize) -> (refs: ServiceRefs)
    requires
        old(g)@.wf(),
        old(g)@.live(root as int),
    ensures
        final(g)@ == provision_spec(old(g)@, root as int).0,
        refs@ == provision_spec(old(g)@, root as int).1,
        refs.wf(),
        final(g)@.wf(),
        final(g)@.live(root as int),
        forall|k: int| 0 <= k < 9 ==> final(g)@.live(#[trigger] refs@.root_refs[k]),
        final(g)@.live(refs@.starter_player_scripts),
        final(g)@.live(refs@.starter_character_scripts),
        forall|i: int| old(g)@.live(i) ==> final(g)@.live(i),
{
    let names = roster_exec();
    let mut rr: Vec<usize> = Vec::new();
    let mut k: usize = 0;
    proof {
        assert(roster().take(0) =~= Seq::<Seq<char>>::empty());
        assert(crate::graph::refs_model(rr@) =~= Seq::<int>::empty());
    }
    while k < 9
        invariant
            k <= 9,
            names@.len() == 9,
            forall|j: int| 0 <= j < 9 ==> (#[trigger] names@[j])@ == roster()[j],
            rr@.len() == k,
            g@ == goc_chain(old(g)@, root as int, roster().take(k as int)).0,
            crate::graph::refs_model(rr@) == goc_chain(
                old(g)@,
                root as int,
                roster().take(k as int),
            ).1,
            g@.wf(),
            g@.live(root as int),
            forall|j: int| 0 <= j < k ==> g@.live(#[trigger] rr@[j] as int),
            forall|i: int| old(g)@.live(i) ==> g@.live(i),
        decreases 9 - k,
    {
        let ghost pre = g@;
        let ghost prefix = roster().take(k as int);
        let r = find_or_create_service(g, root, names[k]);
        rr.push(r);
        proof {
            lemma_chain_snoc(old(g)@, root as int, prefix, roster()[k as int]);
            assert(roster().take(k + 1) =~= prefix.push(roster()[k as int]));
            assert(crate::graph::refs_model(rr@) =~= goc_chain(
                old(g)@,
                root as int,
                roster().take(k + 1),
            ).1);
        }
        k = k + 1;
    }
    proof {
        assert(roster().take(9) =~= roster());
        lemma_chain(old(g)@, root as int, roster());
    }
    let sp = rr[1];
    let ghost g9 = g@;
    let sps = find_or_create_service(g, sp, "StarterPlayerScripts");
    let scs = find_or_create_service(g, sp, "StarterCharacterScripts");
    let refs = ServiceRefs {
        root_refs: rr,
        starter_player_scripts: sps,
        starter_character_scripts: scs,
    };
    proof {
        assert(refs@ =~= provision_spec(old(g)@, root as int).1);
    }
    refs
}

/// Provisioning is idempotent: running the whole step a second time finds
/// every container in place, creates nothing, and returns the same
/// references.
pub proof fn lemma_provision_idempotent(g: GraphModel, root: int)
    requires
        g.wf(),
        g.live(root),
    ensures
        provision_spec(provision_spec(g, root).0, root) == provision_spec(g, root),
{
    let pass = goc_chain(g, root, roster());
    lemma_chain(g, root, roster());
    let g9 = pass.0;
    let rr = pass.1;
    let sp = rr[1];
    // The starter player container is a child of the root, so a different
    // node than the root itself.
    lemma_first_named_in(g9, g9.node(root).children, roster()[1]);
    let w = choose|w: int|
        0 <= w < g9.node(root).children.len() && g9.node(root).children[w] == sp;
    assert(g9.node(root).children[w] == sp);
    assert(root < sp);
    let t1 = goc_spec(g9, sp, "StarterPlayerScripts"@);
    lemma_goc(g9, sp, "StarterPlayerScripts"@);
    let t2 = goc_spec(t1.0, sp, "StarterCharacterScripts"@);
    lemma_goc(t1.0, sp, "StarterCharacterScripts"@);
    let gf = t2.0;
    // The roster entries keep their first matches through the two nested
    // steps, which touch only the starter player container.
    assert forall|k: int|
        0 <= k < roster().len() implies first_named(gf, gf.node(root).children, #[trigger] roster()[k])
        == Some(rr[k]) by {
        lemma_goc_stable(g9, root, roster()[k], sp, "StarterPlayerScripts"@);
        lemma_goc_stable(t1.0, root, roster()[k], sp, "StarterCharacterScripts"@);
    }
    lemma_chain_idem(gf, root, roster(), rr);
    // The two nested containers are found in the final graph as well.
    lemma_goc_stable(t1.0, sp, "StarterPlayerScripts"@, sp, "StarterCharacterScripts"@);
    assert(first_named(gf, gf.node(sp).children, "StarterPlayerScripts"@) == Some(t1.1));
    assert(first_named(gf, gf.node(sp).children, "StarterCharacterScripts"@) == Some(t2.1));
    assert(goc_spec(gf, sp, "StarterPlayerScripts"@) == (gf, t1.1));
    assert(goc_spec(gf, sp, "StarterCharacterScripts"@) == (gf, t2.1));
    assert(provision_spec(gf, root) =~= provision_spec(g, root));
}

/// `get_or_create` run twice with one name under one parent: the second run
/// returns the same reference and leaves the graph untouched, and the two
/// runs together grow the parent's child list by at most one entry.
pub proof fn lemma_get_or_create_idempotent(g: GraphModel, p: int, name: Seq<char>)
    requires
        g.wf(),
        g.live(p),
    ensures
        ({
            let (g1, r1) = goc_spec(g, p, name);
            let (g2, r2) = goc_spec(g1, p, name);
            &&& r2 == r1
            &&& g2 == g1
            &&& g1.node(p).children.len() <= g.node(p).children.len() + 1
        }),
{
    lemma_goc(g, p, name);
    let (g1, r1) = goc_spec(g, p, name);
    match first_named(g, g.node(p).children, name) {
        Some(_) => {},
        None => {
            assert(g1.node(p).children =~= g.node(p).children.push(g.nodes.len() as int));
        },
    }
}

} // verus!
