//! The path resolver: slash-delimited textual paths, resolved by exact,
//! case-sensitive name matching from a chosen start node, the first matching
//! sibling winning.

use vstd::prelude::*;
use crate::graph::{Graph, GraphModel};
use crate::text::str_eq;

verus! {

/// First position of `c` in `s`, if any.
pub open spec fn find_char(s: Seq<char>, c: char) -> Option<int>
    decreases s,
{
    if s.len() == 0 {
        None
    } else if s[0] == c {
        Some(0)
    } else {
        match find_char(s.drop_first(), c) {
            Some(i) => Some(i + 1),
            None => None,
        }
    }
}

/// `find_char` points at the first occurrence.
pub proof fn lemma_find_char_at(s: Seq<char>, c: char, j: int)
    requires
        0 <= j < s.len(),
        s[j] == c,
        forall|k: int| 0 <= k < j ==> s[k] != c,
    ensures
        find_char(s, c) == Some(j),
    decreases j,
{
    if j > 0 {
        lemma_find_char_at(s.drop_first(), c, j - 1);
    }
}

/// Without an occurrence, `find_char` finds nothing.
pub proof fn lemma_find_char_none(s: Seq<char>, c: char)
    requires
        forall|k: int| 0 <= k < s.len() ==> s[k] != c,
    ensures
        find_char(s, c) is None,
    decreases s,
{
    if s.len() > 0 {
        lemma_find_char_none(s.drop_first(), c);
    }
}

/// `find_char` names a position holding `c`, with none before it.
pub proof fn lemma_find_char_found(s: Seq<char>, c: char)
    requires
        find_char(s, c) is Some,
    ensures
        0 <= find_char(s, c).unwrap() < s.len(),
        s[find_char(s, c).unwrap()] == c,
    decreases s,
{
    if s.len() > 0 && s[0] != c {
        lemma_find_char_found(s.drop_first(), c);
    }
}

/// The segments of a path: the text split on the separator, a separator-free
/// text giving one segment, each separator opening another.
pub open spec fn split_chars(s: Seq<char>, sep: char) -> Seq<Seq<char>>
    decreases s.len(),
    via split_chars_decreases
{
    match find_char(s, sep) {
        None => seq![s],
        Some(i) => seq![s.take(i)] + split_chars(s.skip(i + 1), sep),
    }
}

#[via_fn]
proof fn split_chars_decreases(s: Seq<char>, sep: char) {
    match find_char(s, sep) {
        Some(i) => {
            lemma_find_char_found(s, sep);
        },
        None => {},
    }
}

/// Image of a list of strings.
pub open spec fn strings_model(v: Seq<String>) -> Seq<Seq<char>> {
    v.map_values(|x: String| x@)
}

/// Splits a path on `/` into its segments.
pub fn split_path(s: &str) -> (segs: Vec<String>)
    ensures
        strings_model(segs@) == split_chars(s@, '/'),
        segs@.len() >= 1,
    decreases s@.len(),
{
    let n = s.unicode_len();
    let mut i: usize = 0;
    while i < n
        invariant
            i <= n,
            n == s@.len(),
            forall|k: int| 0 <= k < i ==> s@[k] != '/',
        decreases n - i,
    {
        if s.get_char(i) == '/' {
            proof {
                lemma_find_char_at(s@, '/', i as int);
            }
            let head = s.substring_char(0, i);
            let tail = s.substring_char(i + 1, n);
            let mut rest = split_path(tail);
            rest.insert(0, head.to_owned());
            proof {
                assert(strings_model(rest@) =~= seq![s@.take(i as int)] + split_chars(
                    s@.skip(i + 1),
                    '/',
                ));
            }
            return rest;
        }
        i = i + 1;
    }
    proof {
        lemma_find_char_none(s@, '/');
    }
    let mut one: Vec<String> = Vec::new();
    one.push(s.to_owned());
    proof {
        assert(strings_model(one@) =~= seq![s@]);
    }
    one
}

/// First child of the parent whose name is `name`, walking the child list in
/// order.
pub open spec fn first_named(g: GraphModel, kids: Seq<int>, name: Seq<char>) -> Option<int>
    decreases kids,
{
    if kids.len() == 0 {
        None
    } else if g.node(kids[0]).name == name {
        Some(kids[0])
    } else {
        first_named(g, kids.drop_first(), name)
    }
}

/// Finds the first direct child of `parent` named `service_name`, if any.
pub fn find_service(g: &Graph, parent: usize, service_name: &str) -> (r: Option<usize>)
    requires
        g@.wf(),
        g@.live(parent as int),
    ensures
        match r {
            Some(c) => first_named(g@, g@.node(parent as int).children, service_name@) == Some(
                c as int,
            ) && g@.live(c as int),
            None => first_named(g@, g@.node(parent as int).children, service_name@) is None,
        },
{
    let node = g.get_node(parent);
    let ghost kids = g@.node(parent as int).children;
    let mut i: usize = 0;
    proof {
        assert(kids.skip(0) =~= kids);
    }
    while i < node.children.len()
        invariant
            g@.wf(),
            g@.live(parent as int),
            node@ == g@.node(parent as int),
            kids == g@.node(parent as int).children,
            i <= kids.len(),
            first_named(g@, kids.skip(i as int), service_name@) == first_named(
                g@,
                kids,
                service_name@,
            ),
        decreases kids.len() - i,
    {
        let c = node.children[i];
        proof {
            assert(g@.node(parent as int).children[i as int] == c as int);
            assert(g@.live(c as int));
            assert(kids.skip(i as int)[0] == kids[i as int]);
        }
        let child = g.get_node(c);
        if str_eq(child.name.as_str(), service_name) {
            return Some(c);
        }
        proof {
            assert(kids.skip(i as int).drop_first() =~= kids.skip(i + 1));
        }
        i = i + 1;
    }
    proof {
        assert(kids.skip(kids.len() as int) =~= Seq::<int>::empty());
    }
    None
}

/// Resolving a list of segments: each names the first matching child of the
/// node before it; an empty list names the current node itself.
pub open spec fn resolve_segs(g: GraphModel, cur: int, segs: Seq<Seq<char>>) -> Option<int>
    decreases segs,
{
    if segs.len() == 0 {
        Some(cur)
    } else {
        match first_named(g, g.node(cur).children, segs[0]) {
            Some(c) => resolve_segs(g, c, segs.drop_first()),
            None => None,
        }
    }
}

/// What a path names from `start`: the empty path names `start` itself; a
/// leading root sentinel is consumed; every other segment steps to the first
/// matching named child, and a miss resolves to nothing.
pub open spec fn resolve_spec(g: GraphModel, start: int, path: Seq<char>) -> Option<int> {
    let segs = split_chars(path, '/');
    if segs.len() == 1 && segs[0].len() == 0 {
        Some(start)
    } else if segs[0] == "DataModel"@ {
        resolve_segs(g, start, segs.drop_first())
    } else {
        resolve_segs(g, start, segs)
    }
}

/// An empty path always resolves to the start node itself.
pub proof fn lemma_resolve_empty(g: GraphModel, start: int, path: Seq<char>)
    requires
        path.len() == 0,
    ensures
        resolve_spec(g, start, path) == Some(start),
{
    assert(find_char(path, '/') is None);
    assert(split_chars(path, '/') == seq![path]);
}

/// Resolves a slash-delimited path from `start`, returning the node it
/// names, or nothing the moment a segment has no matching child.
pub fn find_instance_by_path(g: &Graph, start: usize, path: &str) -> (r: Option<usize>)
    requires
        g@.wf(),
        g@.live(start as int),
    ensures
        match r {
            Some(id) => resolve_spec(g@, start as int, path@) == Some(id as int) && g@.live(
                id as int,
            ),
            None => resolve_spec(g@, start as int, path@) is None,
        },
{
    let segs = split_path(path);
    let ghost model = split_chars(path@, '/');
    proof {
        assert(strings_model(segs@)[0] == segs@[0]@);
    }
    if segs.len() == 1 && segs[0].as_str().unicode_len() == 0 {
        return Some(start);
    }
    let mut idx: usize = 0;
    if str_eq(segs[0].as_str(), "DataModel") {
        idx = 1;
    }
    let mut cur = start;
    proof {
        if idx == 1 {
            assert(model.skip(1) =~= model.drop_first());
        } else {
            assert(model.skip(0) =~= model);
        }
    }
    while idx < segs.len()
        invariant
            g@.wf(),
            g@.live(cur as int),
            idx <= segs@.len(),
            strings_model(segs@) == model,
            model.len() == segs@.len(),
            resolve_segs(g@, cur as int, model.skip(idx as int)) == resolve_spec(
                g@,
                start as int,
                path@,
            ),
        decreases segs@.len() - idx,
    {
        proof {
            assert(strings_model(segs@)[idx as int] == segs@[idx as int]@);
            assert(model.skip(idx as int)[0] == model[idx as int]);
        }
        match find_service(g, cur, segs[idx].as_str()) {
            Some(c) => {
                proof {
                    assert(model.skip(idx as int).drop_first() =~= model.skip(idx + 1));
                }
                cur = c;
                idx = idx + 1;
            },
            None => {
                return None;
            },
        }
    }
    proof {
        assert(model.skip(segs@.len() as int) =~= Seq::<Seq<char>>::empty());
    }
    Some(cur)
}

} // verus!
