//! The category tree: categories are stored flat, each naming its parent,
//! and are assembled into a forest for display.
use vstd::prelude::*;

use crate::form::{Category, Form, Lemma, Tag};
use crate::text::{clone_opt_string, opt_view};

verus! {

/// A category as it is stored: its parent named by id, no subcategories.
#[derive(Debug, Clone)]
pub struct FlatCategory {
    pub id: i64,
    pub parent_id: Option<i64>,
    pub code: Option<String>,
    pub name_ru: String,
    pub name_en: String,
    pub name_gr: Option<String>,
    pub depth: i32,
    pub sort_order: i32,
    pub description: Option<String>,
}

/// A category with its subcategories, as plain values.
pub struct CatTree {
    pub id: i64,
    pub parent_id: Option<i64>,
    pub code: Option<Seq<char>>,
    pub name_ru: Seq<char>,
    pub name_en: Seq<char>,
    pub name_gr: Option<Seq<char>>,
    pub depth: i32,
    pub sort_order: i32,
    pub description: Option<Seq<char>>,
    pub children: Seq<CatTree>,
}

/// A category's own fields, without subcategories.
pub open spec fn bare_tree(c: Category) -> CatTree {
    CatTree {
        id: c.id,
        parent_id: c.parent_id,
        code: opt_view(c.code),
        name_ru: c.name_ru@,
        name_en: c.name_en@,
        name_gr: opt_view(c.name_gr),
        depth: c.depth,
        sort_order: c.sort_order,
        description: opt_view(c.description),
        children: Seq::empty(),
    }
}

/// The tree of a category value.
pub open spec fn cat_tree(c: Category) -> CatTree
    decreases c,
{
    CatTree {
        id: c.id,
        parent_id: c.parent_id,
        code: opt_view(c.code),
        name_ru: c.name_ru@,
        name_en: c.name_en@,
        name_gr: opt_view(c.name_gr),
        depth: c.depth,
        sort_order: c.sort_order,
        description: opt_view(c.description),
        children: Seq::new(
            c.children@.len(),
            |i: int|
                if 0 <= i < c.children@.len() {
                    cat_tree(c.children@[i])
                } else {
                    bare_tree(c)
                },
        ),
    }
}

/// The trees of a list of categories.
pub open spec fn cat_trees(cs: Seq<Category>) -> Seq<CatTree> {
    Seq::new(cs.len(), |i: int| cat_tree(cs[i]))
}

/// A stored category as a tree without subcategories.
pub open spec fn leaf_of(f: FlatCategory) -> CatTree {
    CatTree {
        id: f.id,
        parent_id: f.parent_id,
        code: opt_view(f.code),
        name_ru: f.name_ru@,
        name_en: f.name_en@,
        name_gr: opt_view(f.name_gr),
        depth: f.depth,
        sort_order: f.sort_order,
        description: opt_view(f.description),
        children: Seq::empty(),
    }
}

/// `t` with `c` added as its last subcategory.
pub open spec fn with_child(t: CatTree, c: CatTree) -> CatTree {
    CatTree { children: t.children.push(c), ..t }
}

/// The first position of a tree with the given id, or -1.
pub open spec fn tree_pos(s: Seq<CatTree>, id: i64) -> int
    decreases s.len(),
{
    if s.len() == 0 {
        -1
    } else if s[0].id == id {
        0
    } else {
        let p = tree_pos(s.drop_first(), id);
        if p < 0 {
            -1
        } else {
            p + 1
        }
    }
}

proof fn lemma_tree_pos(s: Seq<CatTree>, id: i64)
    ensures
        -1 <= tree_pos(s, id) < s.len(),
        tree_pos(s, id) >= 0 ==> s[tree_pos(s, id)].id == id,
        forall|j: int| 0 <= j < s.len() && (tree_pos(s, id) < 0 || j < tree_pos(s, id)) ==> s[j].id != id,
    decreases s.len(),
{
    if s.len() > 0 && s[0].id != id {
        lemma_tree_pos(s.drop_first(), id);
        assert forall|j: int| 0 <= j < s.len() && (tree_pos(s, id) < 0 || j < tree_pos(s, id)) implies s[j].id
            != id by {
            if j > 0 {
                assert(s[j] == s.drop_first()[j - 1]);
            }
        }
    }
}

// ── Stage 1: one node per id ───────────────────────────────────────────────

/// One leaf per id, in order of first appearance; a later category with an
/// id already seen replaces the earlier one.
pub open spec fn initial_trees(flat: Seq<FlatCategory>) -> Seq<CatTree>
    decreases flat.len(),
{
    if flat.len() == 0 {
        Seq::empty()
    } else {
        let prev = initial_trees(flat.drop_last());
        let f = flat.last();
        let p = tree_pos(prev, f.id);
        if p >= 0 {
            prev.update(p, leaf_of(f))
        } else {
            prev.push(leaf_of(f))
        }
    }
}

fn leaf_category(f: &FlatCategory) -> (c: Category)
    ensures
        cat_tree(c) == leaf_of(*f),
{
    let c = Category {
        id: f.id,
        parent_id: f.parent_id,
        code: clone_opt_string(&f.code),
        name_ru: f.name_ru.clone(),
        name_en: f.name_en.clone(),
        name_gr: clone_opt_string(&f.name_gr),
        depth: f.depth,
        sort_order: f.sort_order,
        description: clone_opt_string(&f.description),
        children: Vec::new(),
    };
    assert(cat_tree(c).children =~= Seq::<CatTree>::empty());
    c
}

fn category_pos(nodes: &Vec<Category>, id: i64) -> (r: Option<usize>)
    ensures
        match r {
            Some(i) => i == tree_pos(cat_trees(nodes@), id),
            None => tree_pos(cat_trees(nodes@), id) < 0,
        },
{
    let ghost ts = cat_trees(nodes@);
    proof {
        lemma_tree_pos(ts, id);
    }
    let mut i: usize = 0;
    while i < nodes.len()
        invariant
            ts == cat_trees(nodes@),
            i <= nodes@.len(),
            forall|j: int| 0 <= j < i ==> nodes@[j].id != id,
            -1 <= tree_pos(ts, id) < ts.len(),
            tree_pos(ts, id) >= 0 ==> ts[tree_pos(ts, id)].id == id,
            forall|j: int| 0 <= j < ts.len() && (tree_pos(ts, id) < 0 || j < tree_pos(ts, id)) ==> ts[j].id != id,
        decreases nodes@.len() - i,
    {
        if nodes[i].id == id {
            proof {
                let p = tree_pos(ts, id);
                assert(ts[i as int].id == id);
                if p < 0 || i < p {
                    assert(ts[i as int].id != id);
                }
                if 0 <= p < i {
                    assert(nodes@[p].id != id);
                }
            }
            return Some(i);
        }
        i = i + 1;
    }
    proof {
        let p = tree_pos(ts, id);
        if p >= 0 {
            assert(nodes@[p].id != id);
        }
    }
    None
}

fn initial_nodes(flat: &Vec<FlatCategory>) -> (r: Vec<Category>)
    ensures
        cat_trees(r@) == initial_trees(flat@),
{
    let mut nodes: Vec<Category> = Vec::new();
    let mut i: usize = 0;
    assert(flat@.take(0) =~= Seq::<FlatCategory>::empty());
    assert(cat_trees(nodes@) =~= Seq::<CatTree>::empty());
    while i < flat.len()
        invariant
            i <= flat@.len(),
            cat_trees(nodes@) == initial_trees(flat@.take(i as int)),
        decreases flat@.len() - i,
    {
        assert(flat@.take(i + 1).drop_last() =~= flat@.take(i as int));
        assert(flat@.take(i + 1).last() == flat@[i as int]);
        let ghost prev = cat_trees(nodes@);
        let leaf = leaf_category(&flat[i]);
        proof {
            lemma_tree_pos(prev, flat@[i as int].id);
        }
        match category_pos(&nodes, flat[i].id) {
            Some(p) => {
                nodes.set(p, leaf);
                assert(cat_trees(nodes@) =~= prev.update(p as int, leaf_of(flat@[i as int])));
            },
            None => {
                nodes.push(leaf);
                assert(cat_trees(nodes@) =~= prev.push(leaf_of(flat@[i as int])));
            },
        }
        i = i + 1;
    }
    assert(flat@.take(flat@.len() as int) =~= flat@);
    nodes
}

// ── Stage 2: the order in which nodes are attached ─────────────────────────

/// Id, depth and sort order of a node.
pub type NodeKey = (i64, i32, i32);

pub open spec fn tree_keys(st: Seq<CatTree>) -> Seq<NodeKey> {
    Seq::new(st.len(), |i: int| (st[i].id, st[i].depth, st[i].sort_order))
}

/// Keys by depth, then sort order.
pub open spec fn key_le(a: NodeKey, b: NodeKey) -> bool {
    a.1 < b.1 || (a.1 == b.1 && a.2 <= b.2)
}

/// `x` inserted into `s` after every key that does not come after it.
pub open spec fn key_insert(s: Seq<NodeKey>, x: NodeKey) -> Seq<NodeKey>
    decreases s.len(),
{
    if s.len() == 0 {
        seq![x]
    } else if !key_le(s.last(), x) {
        key_insert(s.drop_last(), x).push(s.last())
    } else {
        s.push(x)
    }
}

/// Stable sort of keys by depth, then sort order.
pub open spec fn key_sort(s: Seq<NodeKey>) -> Seq<NodeKey>
    decreases s.len(),
{
    if s.len() == 0 {
        s
    } else {
        key_insert(key_sort(s.drop_last()), s.last())
    }
}

/// The ids other than 0, last key first.
pub open spec fn nonzero_ids_rev(s: Seq<NodeKey>) -> Seq<i64>
    decreases s.len(),
{
    if s.len() == 0 {
        Seq::empty()
    } else {
        let rest = nonzero_ids_rev(s.drop_first());
        if s[0].0 != 0 {
            rest.push(s[0].0)
        } else {
            rest
        }
    }
}

/// The order in which nodes look for their parent: deepest and last first,
/// the root id 0 never.
pub open spec fn attach_order(st: Seq<CatTree>) -> Seq<i64> {
    nonzero_ids_rev(key_sort(tree_keys(st)))
}

fn node_keys(nodes: &Vec<Category>) -> (r: Vec<NodeKey>)
    ensures
        r@ == tree_keys(cat_trees(nodes@)),
{
    let mut r: Vec<NodeKey> = Vec::new();
    let mut i: usize = 0;
    while i < nodes.len()
        invariant
            i <= nodes@.len(),
            r@ == tree_keys(cat_trees(nodes@)).take(i as int),
        decreases nodes@.len() - i,
    {
        r.push((nodes[i].id, nodes[i].depth, nodes[i].sort_order));
        assert(r@ =~= tree_keys(cat_trees(nodes@)).take(i + 1));
        i = i + 1;
    }
    assert(tree_keys(cat_trees(nodes@)).take(nodes@.len() as int) =~= tree_keys(cat_trees(nodes@)));
    r
}

fn key_le_exec(a: &NodeKey, b: &NodeKey) -> (r: bool)
    ensures
        r == key_le(*a, *b),
{
    a.1 < b.1 || (a.1 == b.1 && a.2 <= b.2)
}

fn sort_keys(keys: &Vec<NodeKey>) -> (r: Vec<NodeKey>)
    ensures
        r@ == key_sort(keys@),
{
    let ghost ks = keys@;
    let mut out: Vec<NodeKey> = Vec::new();
    let mut i: usize = 0;
    assert(ks.take(0) =~= Seq::<NodeKey>::empty());
    while i < keys.len()
        invariant
            ks == keys@,
            i <= keys@.len(),
            out@ == key_sort(ks.take(i as int)),
        decreases keys.len() - i,
    {
        let x = keys[i];
        let ghost s = out@;
        assert(ks.take(i + 1).drop_last() =~= ks.take(i as int));
        assert(ks.take(i + 1).last() == x);
        let mut p = out.len();
        assert(s.take(p as int) =~= s);
        assert(s.skip(p as int) =~= Seq::<NodeKey>::empty());
        assert(key_insert(s, x) =~= key_insert(s.take(p as int), x) + s.skip(p as int));
        while p > 0 && !key_le_exec(&out[p - 1], &x)
            invariant
                s == out@,
                p <= out@.len(),
                key_insert(s, x) == key_insert(s.take(p as int), x) + s.skip(p as int),
            decreases p,
        {
            assert(s.take(p as int).drop_last() =~= s.take(p - 1));
            assert(s.take(p as int).last() == s[p - 1]);
            assert(s.skip(p - 1) =~= seq![s[p - 1]] + s.skip(p as int));
            assert(key_insert(s.take(p as int), x) == key_insert(s.take(p - 1), x).push(s[p - 1]));
            assert(key_insert(s, x) =~= key_insert(s.take(p - 1), x) + s.skip(p - 1));
            p = p - 1;
        }
        if p > 0 {
            assert(s.take(p as int).last() == s[p - 1]);
        }
        assert(key_insert(s.take(p as int), x) =~= s.take(p as int).push(x));
        out.insert(p, x);
        assert(out@ =~= s.take(p as int).push(x) + s.skip(p as int));
        i = i + 1;
    }
    assert(ks.take(keys.len() as int) =~= ks);
    out
}

fn order_ids(sorted: &Vec<NodeKey>) -> (r: Vec<i64>)
    ensures
        r@ == nonzero_ids_rev(sorted@),
{
    let mut r: Vec<i64> = Vec::new();
    let mut i: usize = sorted.len();
    assert(sorted@.skip(i as int) =~= Seq::<NodeKey>::empty());
    while i > 0
        invariant
            i <= sorted@.len(),
            r@ == nonzero_ids_rev(sorted@.skip(i as int)),
        decreases i,
    {
        i = i - 1;
        assert(sorted@.skip(i as int).drop_first() =~= sorted@.skip(i + 1));
        assert(sorted@.skip(i as int)[0] == sorted@[i as int]);
        if sorted[i].0 != 0 {
            r.push(sorted[i].0);
        }
    }
    assert(sorted@.skip(0) =~= sorted@);
    r
}

// ── Stage 3: attaching nodes to their parents ──────────────────────────────

/// One node looks for its parent: if it names a parent other than 0 that
/// is still at the top level, it is taken off the top level and becomes
/// the last subcategory of that parent. A node that names itself is taken
/// off and lost.
pub open spec fn attach_step(st: Seq<CatTree>, id: i64) -> Seq<CatTree> {
    let i = tree_pos(st, id);
    if i < 0 {
        st
    } else {
        match st[i].parent_id {
            Some(pid) => if pid != 0 && tree_pos(st, pid) >= 0 {
                let rest = st.remove(i);
                let j = tree_pos(rest, pid);
                if j >= 0 {
                    rest.update(j, with_child(rest[j], st[i]))
                } else {
                    rest
                }
            } else {
                st
            },
            None => st,
        }
    }
}

/// The nodes look for their parents in the given order.
pub open spec fn attach_all(st: Seq<CatTree>, ids: Seq<i64>) -> Seq<CatTree>
    decreases ids.len(),
{
    if ids.len() == 0 {
        st
    } else {
        attach_step(attach_all(st, ids.drop_last()), ids.last())
    }
}

fn adopt(parent: Category, child: Category) -> (r: Category)
    ensures
        cat_tree(r) == with_child(cat_tree(parent), cat_tree(child)),
{
    let mut p = parent;
    let ghost old_children = p.children@;
    p.children.push(child);
    assert(cat_tree(p).children =~= cat_tree(parent).children.push(cat_tree(child))) by {
        assert(p.children@ == old_children.push(child));
    }
    p
}

fn attach_one(nodes: &mut Vec<Category>, id: i64)
    ensures
        cat_trees(final(nodes)@) == attach_step(cat_trees(old(nodes)@), id),
{
    let ghost st = cat_trees(nodes@);
    proof {
        lemma_tree_pos(st, id);
    }
    match category_pos(nodes, id) {
        None => {},
        Some(i) => {
            assert(st[i as int].parent_id == nodes@[i as int].parent_id);
            match nodes[i].parent_id {
                None => {},
                Some(pid) => {
                    if pid != 0 && category_pos(nodes, pid).is_some() {
                        let child = nodes.remove(i);
                        let ghost rest = cat_trees(nodes@);
                        assert(rest =~= st.remove(i as int));
                        assert(cat_tree(child) == st[i as int]);
                        proof {
                            lemma_tree_pos(rest, pid);
                        }
                        match category_pos(nodes, pid) {
                            Some(j) => {
                                let parent = nodes.remove(j);
                                assert(cat_tree(parent) == rest[j as int]);
                                let adopted = adopt(parent, child);
                                nodes.insert(j, adopted);
                                assert(cat_trees(nodes@) =~= rest.update(
                                    j as int,
                                    with_child(rest[j as int], st[i as int]),
                                ));
                            },
                            None => {},
                        }
                    }
                },
            }
        },
    }
}

fn attach_nodes(nodes: Vec<Category>, order: &Vec<i64>) -> (r: Vec<Category>)
    ensures
        cat_trees(r@) == attach_all(cat_trees(nodes@), order@),
{
    let ghost st = cat_trees(nodes@);
    let mut nodes = nodes;
    let mut k: usize = 0;
    assert(order@.take(0) =~= Seq::<i64>::empty());
    while k < order.len()
        invariant
            k <= order@.len(),
            cat_trees(nodes@) == attach_all(st, order@.take(k as int)),
        decreases order@.len() - k,
    {
        assert(order@.take(k + 1).drop_last() =~= order@.take(k as int));
        assert(order@.take(k + 1).last() == order@[k as int]);
        attach_one(&mut nodes, order[k]);
        k = k + 1;
    }
    assert(order@.take(order@.len() as int) =~= order@);
    nodes
}

// ── Stage 4: the top level, ordered ────────────────────────────────────────

/// The trees other than the root id 0, in order.
pub open spec fn nonzero_trees(st: Seq<CatTree>) -> Seq<CatTree>
    decreases st.len(),
{
    if st.len() == 0 {
        Seq::empty()
    } else {
        let prev = nonzero_trees(st.drop_last());
        if st.last().id != 0 {
            prev.push(st.last())
        } else {
            prev
        }
    }
}

/// `x` inserted into `s` after every tree that does not sort after it.
pub open spec fn top_insert(s: Seq<CatTree>, x: CatTree) -> Seq<CatTree>
    decreases s.len(),
{
    if s.len() == 0 {
        seq![x]
    } else if s.last().sort_order > x.sort_order {
        top_insert(s.drop_last(), x).push(s.last())
    } else {
        s.push(x)
    }
}

/// Stable sort of trees by sort order.
pub open spec fn top_sort(s: Seq<CatTree>) -> Seq<CatTree>
    decreases s.len(),
{
    if s.len() == 0 {
        s
    } else {
        top_insert(top_sort(s.drop_last()), s.last())
    }
}

fn nonzero_nodes(nodes: Vec<Category>) -> (r: Vec<Category>)
    ensures
        cat_trees(r@) == nonzero_trees(cat_trees(nodes@)),
{
    let ghost st = cat_trees(nodes@);
    let ghost n = nodes@.len();
    let mut rest = nodes;
    let mut r: Vec<Category> = Vec::new();
    assert(st.take(0) =~= Seq::<CatTree>::empty());
    assert(cat_trees(r@) =~= Seq::<CatTree>::empty());
    while rest.len() > 0
        invariant
            n == st.len(),
            rest@.len() <= n,
            cat_trees(rest@) == st.skip(n - rest@.len()),
            cat_trees(r@) == nonzero_trees(st.take(n - rest@.len())),
        decreases rest@.len(),
    {
        let ghost i = n - rest@.len();
        let ghost before = rest@;
        let c = rest.remove(0);
        assert(cat_trees(before)[0] == cat_tree(before[0]));
        assert(st.skip(i)[0] == st[i]);
        assert(cat_tree(c) == st[i]);
        assert forall|k: int| 0 <= k < rest@.len() implies cat_trees(rest@)[k] == st.skip(i + 1)[k] by {
            assert(rest@[k] == before[k + 1]);
            assert(cat_trees(before)[k + 1] == st.skip(i)[k + 1]);
        }
        assert(cat_trees(rest@) =~= st.skip(i + 1));
        assert(st.take(i + 1).drop_last() =~= st.take(i));
        assert(st.take(i + 1).last() == st[i]);
        if c.id != 0 {
            let ghost prev = cat_trees(r@);
            r.push(c);
            assert(cat_trees(r@) =~= prev.push(st[i]));
        }
    }
    assert(st.take(n as int) =~= st);
    r
}

fn sort_tops(tops: Vec<Category>) -> (r: Vec<Category>)
    ensures
        cat_trees(r@) == top_sort(cat_trees(tops@)),
{
    let ghost ts = cat_trees(tops@);
    let ghost n = tops@.len();
    let mut rest = tops;
    let mut out: Vec<Category> = Vec::new();
    assert(ts.take(0) =~= Seq::<CatTree>::empty());
    assert(cat_trees(out@) =~= Seq::<CatTree>::empty());
    while rest.len() > 0
        invariant
            n == ts.len(),
            rest@.len() <= n,
            cat_trees(rest@) == ts.skip(n - rest@.len()),
            cat_trees(out@) == top_sort(ts.take(n - rest@.len())),
        decreases rest@.len(),
    {
        let ghost i = n - rest@.len();
        let ghost before = rest@;
        let x = rest.remove(0);
        let ghost xv = cat_tree(x);
        assert(cat_trees(before)[0] == cat_tree(before[0]));
        assert(ts.skip(i)[0] == ts[i]);
        assert(xv == ts[i]);
        assert forall|k: int| 0 <= k < rest@.len() implies cat_trees(rest@)[k] == ts.skip(i + 1)[k] by {
            assert(rest@[k] == before[k + 1]);
            assert(cat_trees(before)[k + 1] == ts.skip(i)[k + 1]);
        }
        assert(cat_trees(rest@) =~= ts.skip(i + 1));
        assert(ts.take(i + 1).drop_last() =~= ts.take(i));
        assert(ts.take(i + 1).last() == xv);
        let ghost s = cat_trees(out@);
        let mut p = out.len();
        assert(s.take(p as int) =~= s);
        assert(s.skip(p as int) =~= Seq::<CatTree>::empty());
        assert(top_insert(s, xv) =~= top_insert(s.take(p as int), xv) + s.skip(p as int));
        while p > 0 && out[p - 1].sort_order > x.sort_order
            invariant
                s == cat_trees(out@),
                xv == cat_tree(x),
                p <= out@.len(),
                top_insert(s, xv) == top_insert(s.take(p as int), xv) + s.skip(p as int),
            decreases p,
        {
            assert(s.take(p as int).drop_last() =~= s.take(p - 1));
            assert(s.take(p as int).last() == s[p - 1]);
            assert(s.skip(p - 1) =~= seq![s[p - 1]] + s.skip(p as int));
            assert(top_insert(s.take(p as int), xv) == top_insert(s.take(p - 1), xv).push(s[p - 1]));
            assert(top_insert(s, xv) =~= top_insert(s.take(p - 1), xv) + s.skip(p - 1));
            p = p - 1;
        }
        if p > 0 {
            assert(s.take(p as int).last() == s[p - 1]);
        }
        assert(top_insert(s.take(p as int), xv) =~= s.take(p as int).push(xv));
        out.insert(p, x);
        assert(cat_trees(out@) =~= s.take(p as int).push(xv) + s.skip(p as int));
    }
    assert(ts.take(n as int) =~= ts);
    out
}

// ── The whole assembly ─────────────────────────────────────────────────────

/// The category forest of the stored categories: one node per id, each node
/// attached below its parent in the order deepest and last first, then the
/// top level without the root id 0, by sort order.
pub open spec fn category_forest(flat: Seq<FlatCategory>) -> Seq<CatTree> {
    let st = initial_trees(flat);
    top_sort(nonzero_trees(attach_all(st, attach_order(st))))
}

/// Assemble the stored categories into the forest of top-level categories
/// with their subcategories.
pub fn build_category_tree(flat: Vec<FlatCategory>) -> (r: Vec<Category>)
    ensures
        cat_trees(r@) == category_forest(flat@),
{
    let nodes = initial_nodes(&flat);
    let keys = node_keys(&nodes);
    let sorted = sort_keys(&keys);
    let order = order_ids(&sorted);
    let attached = attach_nodes(nodes, &order);
    let tops = nonzero_nodes(attached);
    sort_tops(tops)
}

// ── Properties of the forest ───────────────────────────────────────────────

/// Every subcategory, at any depth, names the category above it as parent.
pub open spec fn parented(t: CatTree) -> bool
    decreases t,
{
    forall|i: int|
        0 <= i < t.children.len() ==> (#[trigger] t.children[i]).parent_id == Some(t.id)
            && parented(t.children[i])
}

proof fn lemma_with_child_parented(t: CatTree, c: CatTree)
    requires
        parented(t),
        parented(c),
        c.parent_id == Some(t.id),
    ensures
        parented(with_child(t, c)),
{
    let w = with_child(t, c);
    assert forall|i: int| 0 <= i < w.children.len() implies (#[trigger] w.children[i]).parent_id
        == Some(w.id) && parented(w.children[i]) by {
        if i < t.children.len() {
            assert(w.children[i] == t.children[i]);
        } else {
            assert(w.children[i] == c);
        }
    }
}

proof fn lemma_attach_parented(st: Seq<CatTree>, ids: Seq<i64>)
    requires
        forall|k: int| 0 <= k < st.len() ==> parented(#[trigger] st[k]),
    ensures
        forall|k: int| 0 <= k < attach_all(st, ids).len() ==> parented(#[trigger] attach_all(st, ids)[k]),
    decreases ids.len(),
{
    if ids.len() > 0 {
        lemma_attach_parented(st, ids.drop_last());
        let s0 = attach_all(st, ids.drop_last());
        let id = ids.last();
        let i = tree_pos(s0, id);
        lemma_tree_pos(s0, id);
        if i >= 0 {
            match s0[i].parent_id {
                Some(pid) => {
                    if pid != 0 && tree_pos(s0, pid) >= 0 {
                        let rest = s0.remove(i);
                        lemma_tree_pos(rest, pid);
                        let j = tree_pos(rest, pid);
                        assert forall|k: int| 0 <= k < rest.len() implies parented(#[trigger] rest[k]) by {
                            if k < i {
                                assert(rest[k] == s0[k]);
                            } else {
                                assert(rest[k] == s0[k + 1]);
                            }
                        }
                        if j >= 0 {
                            lemma_with_child_parented(rest[j], s0[i]);
                        }
                    }
                },
                None => {},
            }
        }
    }
}

proof fn lemma_nonzero_trees(st: Seq<CatTree>)
    ensures
        forall|k: int| 0 <= k < nonzero_trees(st).len() ==> #[trigger] st.contains(nonzero_trees(st)[k]) && nonzero_trees(st)[k].id != 0,
    decreases st.len(),
{
    if st.len() > 0 {
        let d = st.drop_last();
        lemma_nonzero_trees(d);
        let r = nonzero_trees(st);
        assert forall|k: int| 0 <= k < r.len() implies #[trigger] st.contains(r[k]) && r[k].id != 0 by {
            if k < nonzero_trees(d).len() {
                assert(r[k] == nonzero_trees(d)[k]);
                assert(d.contains(r[k]));
                let m = choose|m: int| 0 <= m < d.len() && d[m] == r[k];
                assert(st[m] == r[k]);
            } else {
                assert(st[st.len() - 1] == r[k]);
            }
        }
    }
}

proof fn lemma_top_insert(s: Seq<CatTree>, x: CatTree) -> (p: int)
    requires
        forall|i: int, j: int| 0 <= i < j < s.len() ==> (#[trigger] s[i]).sort_order <= (#[trigger] s[j]).sort_order,
    ensures
        0 <= p <= s.len(),
        top_insert(s, x) == s.take(p) + seq![x] + s.skip(p),
        forall|i: int, j: int|
            0 <= i < j < top_insert(s, x).len() ==> (#[trigger] top_insert(s, x)[i]).sort_order
                <= (#[trigger] top_insert(s, x)[j]).sort_order,
    decreases s.len(),
{
    let r = top_insert(s, x);
    if s.len() == 0 {
        assert(r =~= s.take(0) + seq![x] + s.skip(0));
        0
    } else if s.last().sort_order > x.sort_order {
        let d = s.drop_last();
        let q = lemma_top_insert(d, x);
        let m = top_insert(d, x);
        assert(r =~= s.take(q) + seq![x] + s.skip(q)) by {
            assert(s.take(q) =~= d.take(q));
            assert(s.skip(q) =~= d.skip(q).push(s.last()));
        }
        assert forall|i: int, j: int| 0 <= i < j < r.len() implies (#[trigger] r[i]).sort_order
            <= (#[trigger] r[j]).sort_order by {
            if j == r.len() - 1 {
                if i == q {
                    assert(r[i] == x);
                } else if i < q {
                    assert(r[i] == s[i]);
                    assert(s[i].sort_order <= s[s.len() - 1].sort_order);
                } else {
                    assert(r[i] == s[i - 1]);
                    assert(s[i - 1].sort_order <= s[s.len() - 1].sort_order);
                }
            } else {
                assert(r[i] == m[i] && r[j] == m[j]);
            }
        }
        q
    } else {
        assert(r =~= s.take(s.len() as int) + seq![x] + s.skip(s.len() as int));
        assert forall|i: int, j: int| 0 <= i < j < r.len() implies (#[trigger] r[i]).sort_order
            <= (#[trigger] r[j]).sort_order by {
            if j == s.len() {
                assert(r[i] == s[i]);
                if i < s.len() - 1 {
                    assert(s[i].sort_order <= s[s.len() - 1].sort_order);
                }
            } else {
                assert(r[i] == s[i] && r[j] == s[j]);
            }
        }
        s.len() as int
    }
}

proof fn lemma_top_sort(s: Seq<CatTree>)
    ensures
        forall|i: int, j: int|
            0 <= i < j < top_sort(s).len() ==> (#[trigger] top_sort(s)[i]).sort_order
                <= (#[trigger] top_sort(s)[j]).sort_order,
        forall|k: int| 0 <= k < top_sort(s).len() ==> s.contains(#[trigger] top_sort(s)[k]),
        top_sort(s).len() == s.len(),
    decreases s.len(),
{
    if s.len() > 0 {
        let d = s.drop_last();
        lemma_top_sort(d);
        let t = top_sort(d);
        let p = lemma_top_insert(t, s.last());
        let r = top_sort(s);
        assert forall|k: int| 0 <= k < r.len() implies s.contains(#[trigger] r[k]) by {
            if k < p {
                assert(r[k] == t[k]);
                assert(d.contains(t[k]));
            } else if k > p {
                assert(r[k] == t[k - 1]);
                assert(d.contains(t[k - 1]));
            } else {
                assert(s[s.len() - 1] == r[k]);
            }
            if d.contains(r[k]) {
                let m = choose|m: int| 0 <= m < d.len() && d[m] == r[k];
                assert(s[m] == r[k]);
            }
        }
    }
}

/// The assembled forest: its top level is ordered by sort order and holds
/// no root id 0, and every subcategory, at any depth, sits under the
/// category it names as its parent.
pub proof fn lemma_category_forest(flat: Seq<FlatCategory>)
    ensures
        forall|i: int, j: int|
            0 <= i < j < category_forest(flat).len() ==> (#[trigger] category_forest(flat)[i]).sort_order
                <= (#[trigger] category_forest(flat)[j]).sort_order,
        forall|k: int|
            0 <= k < category_forest(flat).len() ==> (#[trigger] category_forest(flat)[k]).id != 0
                && parented(category_forest(flat)[k]),
{
    let st = initial_trees(flat);
    lemma_initial_leaves(flat);
    let att = attach_all(st, attach_order(st));
    lemma_attach_parented(st, attach_order(st));
    let nz = nonzero_trees(att);
    lemma_nonzero_trees(att);
    lemma_top_sort(nz);
    let r = category_forest(flat);
    assert forall|k: int| 0 <= k < r.len() implies (#[trigger] r[k]).id != 0 && parented(r[k]) by {
        assert(nz.contains(r[k]));
        let m = choose|m: int| 0 <= m < nz.len() && nz[m] == r[k];
        assert(att.contains(nz[m]));
        let a = choose|a: int| 0 <= a < att.len() && att[a] == nz[m];
        assert(parented(att[a]));
    }
}

proof fn lemma_initial_leaves(flat: Seq<FlatCategory>)
    ensures
        forall|k: int| 0 <= k < initial_trees(flat).len() ==> parented(#[trigger] initial_trees(flat)[k]),
    decreases flat.len(),
{
    if flat.len() > 0 {
        lemma_initial_leaves(flat.drop_last());
        let prev = initial_trees(flat.drop_last());
        let leaf = leaf_of(flat.last());
        assert(parented(leaf));
        let r = initial_trees(flat);
        let p = tree_pos(prev, flat.last().id);
        lemma_tree_pos(prev, flat.last().id);
        assert forall|k: int| 0 <= k < r.len() implies parented(#[trigger] r[k]) by {
            if p >= 0 {
                if k != p {
                    assert(r[k] == prev[k]);
                } else {
                    assert(r[k] == leaf);
                }
            } else {
                if k < prev.len() {
                    assert(r[k] == prev[k]);
                } else {
                    assert(r[k] == leaf);
                }
            }
        }
    }
}

// ── Which categories the forest holds ──────────────────────────────────────

/// The ids of a tree: its own, then those of its subcategories in order.
pub open spec fn tree_ids(t: CatTree) -> Seq<i64>
    decreases t,
{
    seq![t.id] + forest_ids(t.children)
}

/// The ids of a forest, tree after tree, each tree with all it holds.
pub open spec fn forest_ids(s: Seq<CatTree>) -> Seq<i64>
    decreases s,
{
    if s.len() == 0 {
        Seq::empty()
    } else {
        forest_ids(s.subrange(0, s.len() - 1)) + tree_ids(s[s.len() - 1])
    }
}

proof fn lemma_forest_push(s: Seq<CatTree>, t: CatTree)
    ensures
        forest_ids(s.push(t)) == forest_ids(s) + tree_ids(t),
{
    assert(s.push(t).subrange(0, s.len() as int) =~= s);
}

proof fn lemma_forest_concat(a: Seq<CatTree>, b: Seq<CatTree>)
    ensures
        forest_ids(a + b) == forest_ids(a) + forest_ids(b),
    decreases b.len(),
{
    if b.len() == 0 {
        assert(a + b =~= a);
        assert(forest_ids(a) + forest_ids(b) =~= forest_ids(a));
    } else {
        let d = b.drop_last();
        lemma_forest_concat(a, d);
        assert(a + b =~= (a + d).push(b.last()));
        assert(b =~= d.push(b.last()));
        lemma_forest_push(a + d, b.last());
        lemma_forest_push(d, b.last());
        assert(forest_ids(a) + forest_ids(d) + tree_ids(b.last()) =~= forest_ids(a) + (forest_ids(d)
            + tree_ids(b.last())));
    }
}

proof fn lemma_forest_split(s: Seq<CatTree>, i: int)
    requires
        0 <= i < s.len(),
    ensures
        forest_ids(s) == forest_ids(s.take(i)) + tree_ids(s[i]) + forest_ids(s.skip(i + 1)),
{
    assert(s =~= s.take(i).push(s[i]) + s.skip(i + 1));
    lemma_forest_concat(s.take(i).push(s[i]), s.skip(i + 1));
    lemma_forest_push(s.take(i), s[i]);
}

proof fn lemma_with_child_ids(t: CatTree, c: CatTree)
    ensures
        tree_ids(with_child(t, c)) == tree_ids(t) + tree_ids(c),
{
    lemma_forest_push(t.children, c);
    assert(seq![t.id] + (forest_ids(t.children) + tree_ids(c)) =~= seq![t.id] + forest_ids(t.children)
        + tree_ids(c));
}

/// No top-level tree other than the root 0 names itself as its parent.
pub open spec fn no_self_parent(st: Seq<CatTree>) -> bool {
    forall|k: int| 0 <= k < st.len() && (#[trigger] st[k]).id != 0 ==> st[k].parent_id != Some(st[k].id)
}

/// The root id 0 occurs only on top-level trees without subcategories.
pub open spec fn root_only_on_top(st: Seq<CatTree>) -> bool {
    forall|k: int|
        0 <= k < st.len() ==> ((#[trigger] st[k]).id == 0 ==> st[k].children.len() == 0)
            && !forest_ids(st[k].children).contains(0)
}

proof fn lemma_tree_pos_found(s: Seq<CatTree>, id: i64, k: int)
    requires
        0 <= k < s.len(),
        s[k].id == id,
    ensures
        tree_pos(s, id) >= 0,
{
    lemma_tree_pos(s, id);
}

proof fn lemma_attach_step_ids(st: Seq<CatTree>, id: i64)
    requires
        id != 0,
        no_self_parent(st),
        root_only_on_top(st),
    ensures
        forest_ids(attach_step(st, id)).to_multiset() == forest_ids(st).to_multiset(),
        no_self_parent(attach_step(st, id)),
        root_only_on_top(attach_step(st, id)),
{
    broadcast use vstd::seq_lib::lemma_multiset_commutative;
    broadcast use vstd::multiset::group_multiset_axioms;

    let i = tree_pos(st, id);
    lemma_tree_pos(st, id);
    if i >= 0 {
        match st[i].parent_id {
            Some(pid) => {
                if pid != 0 && tree_pos(st, pid) >= 0 {
                    let c = st[i];
                    let rest = st.remove(i);
                    lemma_tree_pos(st, pid);
                    let q = tree_pos(st, pid);
                    assert(q != i);
                    if q < i {
                        assert(rest[q] == st[q]);
                        lemma_tree_pos_found(rest, pid, q);
                    } else {
                        assert(rest[q - 1] == st[q]);
                        lemma_tree_pos_found(rest, pid, q - 1);
                    }
                    let j = tree_pos(rest, pid);
                    lemma_tree_pos(rest, pid);
                    let w = with_child(rest[j], c);
                    let new = rest.update(j, w);
                    assert forall|k: int| 0 <= k < rest.len() implies (#[trigger] rest[k]) == st[if k < i {
                        k
                    } else {
                        k + 1
                    }] by {}
                    // The ids before and after, piece by piece.
                    lemma_forest_split(st, i);
                    assert(rest =~= st.take(i) + st.skip(i + 1));
                    lemma_forest_concat(st.take(i), st.skip(i + 1));
                    lemma_forest_split(rest, j);
                    lemma_forest_split(new, j);
                    assert(new.take(j) =~= rest.take(j));
                    assert(new.skip(j + 1) =~= rest.skip(j + 1));
                    lemma_with_child_ids(rest[j], c);
                    let sa = forest_ids(st.take(i));
                    let sb = forest_ids(st.skip(i + 1));
                    let tc = tree_ids(c);
                    let p0 = forest_ids(rest.take(j));
                    let r0 = tree_ids(rest[j]);
                    let q0 = forest_ids(rest.skip(j + 1));
                    assert(forest_ids(st).to_multiset() =~= sa.to_multiset().add(tc.to_multiset()).add(
                        sb.to_multiset(),
                    ));
                    assert(forest_ids(rest).to_multiset() =~= sa.to_multiset().add(sb.to_multiset()));
                    assert(forest_ids(rest).to_multiset() =~= p0.to_multiset().add(r0.to_multiset()).add(
                        q0.to_multiset(),
                    ));
                    assert(tree_ids(w).to_multiset() =~= r0.to_multiset().add(tc.to_multiset()));
                    assert(forest_ids(new).to_multiset() =~= p0.to_multiset().add(
                        tree_ids(w).to_multiset(),
                    ).add(q0.to_multiset()));
                    assert forall|x: i64| #[trigger] forest_ids(new).to_multiset().count(x) == forest_ids(
                        st,
                    ).to_multiset().count(x) by {
                        assert(forest_ids(rest).to_multiset().count(x) == sa.to_multiset().count(x)
                            + sb.to_multiset().count(x));
                        assert(forest_ids(rest).to_multiset().count(x) == p0.to_multiset().count(x)
                            + r0.to_multiset().count(x) + q0.to_multiset().count(x));
                    }
                    assert(forest_ids(new).to_multiset() =~= forest_ids(st).to_multiset());
                    // What the trees hold of their parents and of the root.
                    assert(!tree_ids(c).contains(0)) by {
                        assert(tree_ids(c) == seq![c.id] + forest_ids(c.children));
                        if tree_ids(c).contains(0) {
                            let m = choose|m: int| 0 <= m < tree_ids(c).len() && tree_ids(c)[m] == 0;
                            assert(forest_ids(c.children)[m - 1] == 0);
                        }
                    }
                    lemma_forest_push(rest[j].children, c);
                    assert(!forest_ids(w.children).contains(0)) by {
                        if forest_ids(w.children).contains(0) {
                            let m = choose|m: int|
                                0 <= m < forest_ids(w.children).len() && forest_ids(w.children)[m] == 0;
                            if m < forest_ids(rest[j].children).len() {
                                assert(forest_ids(rest[j].children)[m] == 0);
                            } else {
                                assert(tree_ids(c)[m - forest_ids(rest[j].children).len()] == 0);
                            }
                        }
                    }
                    assert forall|k: int| 0 <= k < new.len() && (#[trigger] new[k]).id != 0 implies new[k].parent_id
                        != Some(new[k].id) by {
                        if k != j {
                            assert(new[k] == rest[k]);
                        }
                    }
                    assert forall|k: int| 0 <= k < new.len() implies ((#[trigger] new[k]).id == 0
                        ==> new[k].children.len() == 0) && !forest_ids(new[k].children).contains(0) by {
                        if k != j {
                            assert(new[k] == rest[k]);
                        }
                    }
                }
            },
            None => {},
        }
    }
}

proof fn lemma_attach_all_ids(st: Seq<CatTree>, ids: Seq<i64>)
    requires
        forall|k: int| 0 <= k < ids.len() ==> ids[k] != 0,
        no_self_parent(st),
        root_only_on_top(st),
    ensures
        forest_ids(attach_all(st, ids)).to_multiset() == forest_ids(st).to_multiset(),
        no_self_parent(attach_all(st, ids)),
        root_only_on_top(attach_all(st, ids)),
    decreases ids.len(),
{
    if ids.len() > 0 {
        lemma_attach_all_ids(st, ids.drop_last());
        lemma_attach_step_ids(attach_all(st, ids.drop_last()), ids.last());
    }
}

proof fn lemma_leaf_ids(t: CatTree)
    requires
        t.children.len() == 0,
    ensures
        tree_ids(t) == seq![t.id],
{
    assert(forest_ids(t.children) =~= Seq::<i64>::empty());
    assert(seq![t.id] + Seq::<i64>::empty() =~= seq![t.id]);
}

proof fn lemma_nonzero_ids(st: Seq<CatTree>)
    requires
        root_only_on_top(st),
    ensures
        forall|x: i64|
            x != 0 ==> #[trigger] forest_ids(nonzero_trees(st)).to_multiset().count(x) == forest_ids(
                st,
            ).to_multiset().count(x),
        forest_ids(nonzero_trees(st)).to_multiset().count(0) == 0,
    decreases st.len(),
{
    broadcast use vstd::seq_lib::lemma_multiset_commutative;
    broadcast use vstd::multiset::group_multiset_axioms;
    broadcast use vstd::seq_lib::group_to_multiset_ensures;

    if st.len() == 0 {
        assert(forest_ids(nonzero_trees(st)) =~= Seq::<i64>::empty());
    } else {
        let d = st.drop_last();
        let l = st.last();
        assert forall|k: int| 0 <= k < d.len() implies ((#[trigger] d[k]).id == 0 ==> d[k].children.len()
            == 0) && !forest_ids(d[k].children).contains(0) by {
            assert(d[k] == st[k]);
        }
        lemma_nonzero_ids(d);
        assert(st =~= d.push(l));
        lemma_forest_push(d, l);
        let nd = nonzero_trees(d);
        assert(root_only_on_top(st) ==> !forest_ids(st[st.len() - 1].children).contains(0));
        if l.id != 0 {
            lemma_forest_push(nd, l);
            assert(tree_ids(l) == seq![l.id] + forest_ids(l.children));
            assert(!tree_ids(l).contains(0)) by {
                if tree_ids(l).contains(0) {
                    let m = choose|m: int| 0 <= m < tree_ids(l).len() && tree_ids(l)[m] == 0;
                    assert(forest_ids(l.children)[m - 1] == 0);
                }
            }
        } else {
            lemma_leaf_ids(l);
            assert(seq![0i64] =~= Seq::<i64>::empty().push(0));
            assert forall|x: i64| x != 0 implies #[trigger] forest_ids(nonzero_trees(st)).to_multiset().count(
                x,
            ) == forest_ids(st).to_multiset().count(x) by {
                assert(tree_ids(l).to_multiset().count(x) == 0);
            }
        }
    }
}

proof fn lemma_top_sort_ids(s: Seq<CatTree>)
    ensures
        forest_ids(top_sort(s)).to_multiset() == forest_ids(s).to_multiset(),
    decreases s.len(),
{
    broadcast use vstd::seq_lib::lemma_multiset_commutative;
    broadcast use vstd::multiset::group_multiset_axioms;

    if s.len() > 0 {
        let d = s.drop_last();
        let x = s.last();
        lemma_top_sort_ids(d);
        lemma_top_sort(d);
        let t = top_sort(d);
        let p = lemma_top_insert(t, x);
        assert(s =~= d.push(x));
        lemma_forest_push(d, x);
        lemma_forest_concat(t.take(p) + seq![x], t.skip(p));
        lemma_forest_push(t.take(p), x);
        assert(t.take(p) + seq![x] =~= t.take(p).push(x));
        assert(t =~= t.take(p) + t.skip(p));
        lemma_forest_concat(t.take(p), t.skip(p));
        let a = forest_ids(t.take(p));
        let b = forest_ids(t.skip(p));
        assert forall|y: i64| #[trigger] forest_ids(top_sort(s)).to_multiset().count(y) == forest_ids(
            s,
        ).to_multiset().count(y) by {
            assert(forest_ids(t).to_multiset().count(y) == a.to_multiset().count(y) + b.to_multiset().count(
                y,
            ));
        }
        assert(forest_ids(top_sort(s)).to_multiset() =~= forest_ids(s).to_multiset());
    }
}

proof fn lemma_order_nonzero(s: Seq<NodeKey>)
    ensures
        forall|k: int| 0 <= k < nonzero_ids_rev(s).len() ==> #[trigger] nonzero_ids_rev(s)[k] != 0,
    decreases s.len(),
{
    if s.len() > 0 {
        let rest = nonzero_ids_rev(s.drop_first());
        lemma_order_nonzero(s.drop_first());
        assert forall|k: int| 0 <= k < nonzero_ids_rev(s).len() implies #[trigger] nonzero_ids_rev(s)[k]
            != 0 by {
            if k < rest.len() {
                assert(nonzero_ids_rev(s)[k] == rest[k]);
            }
        }
    }
}

/// Whether some stored category has the id `x`.
pub open spec fn stored_id(flat: Seq<FlatCategory>, x: i64) -> bool {
    exists|k: int| 0 <= k < flat.len() && (#[trigger] flat[k]).id == x
}

proof fn lemma_initial_ids(flat: Seq<FlatCategory>)
    requires
        forall|k: int|
            0 <= k < flat.len() && (#[trigger] flat[k]).id != 0 ==> flat[k].parent_id != Some(flat[k].id),
    ensures
        no_self_parent(initial_trees(flat)),
        forall|k: int|
            0 <= k < initial_trees(flat).len() ==> (#[trigger] initial_trees(flat)[k]).children.len() == 0,
        forall|m: int| 0 <= m < flat.len() ==> tree_pos(initial_trees(flat), (#[trigger] flat[m]).id) >= 0,
        forall|x: i64|
            #[trigger] forest_ids(initial_trees(flat)).to_multiset().count(x) == if stored_id(flat, x) {
                1nat
            } else {
                0nat
            },
    decreases flat.len(),
{
    broadcast use vstd::seq_lib::lemma_multiset_commutative;
    broadcast use vstd::multiset::group_multiset_axioms;
    broadcast use vstd::seq_lib::group_to_multiset_ensures;

    let r = initial_trees(flat);
    if flat.len() == 0 {
        assert(forest_ids(r) =~= Seq::<i64>::empty());
    } else {
        let d = flat.drop_last();
        let f = flat.last();
        assert forall|k: int| 0 <= k < d.len() && (#[trigger] d[k]).id != 0 implies d[k].parent_id != Some(
            d[k].id,
        ) by {
            assert(d[k] == flat[k]);
        }
        lemma_initial_ids(d);
        let prev = initial_trees(d);
        let leaf = leaf_of(f);
        let p = tree_pos(prev, f.id);
        lemma_tree_pos(prev, f.id);
        lemma_leaf_ids(leaf);
        assert(seq![f.id] =~= Seq::<i64>::empty().push(f.id));
        assert forall|x: i64| stored_id(flat, x) <==> (stored_id(d, x) || x == f.id) by {
            if stored_id(flat, x) {
                let k = choose|k: int| 0 <= k < flat.len() && (#[trigger] flat[k]).id == x;
                if k < d.len() {
                    assert(d[k] == flat[k]);
                }
            }
            if stored_id(d, x) {
                let k = choose|k: int| 0 <= k < d.len() && (#[trigger] d[k]).id == x;
                assert(flat[k] == d[k]);
            }
            assert(flat[flat.len() - 1] == f);
        }
        if p >= 0 {
            lemma_leaf_ids(prev[p]);
            lemma_forest_split(prev, p);
            lemma_forest_split(r, p);
            assert(r.take(p) =~= prev.take(p));
            assert(r.skip(p + 1) =~= prev.skip(p + 1));
            assert(forest_ids(r) == forest_ids(prev));
            assert(stored_id(d, f.id)) by {
                let a = forest_ids(prev.take(p));
                assert(forest_ids(prev)[a.len() as int] == f.id);
                assert(forest_ids(prev).to_multiset().count(f.id) > 0);
            }
            assert forall|m: int| 0 <= m < flat.len() implies tree_pos(r, (#[trigger] flat[m]).id) >= 0 by {
                if m < d.len() {
                    assert(d[m] == flat[m]);
                    let y = d[m].id;
                    lemma_tree_pos(prev, y);
                    lemma_tree_pos_found(r, y, tree_pos(prev, y));
                } else {
                    lemma_tree_pos_found(r, f.id, p);
                }
            }
        } else {
            assert(r == prev.push(leaf));
            lemma_forest_push(prev, leaf);
            assert(!stored_id(d, f.id)) by {
                if stored_id(d, f.id) {
                    let k = choose|k: int| 0 <= k < d.len() && (#[trigger] d[k]).id == f.id;
                }
            }
            assert forall|m: int| 0 <= m < flat.len() implies tree_pos(r, (#[trigger] flat[m]).id) >= 0 by {
                if m < d.len() {
                    assert(d[m] == flat[m]);
                    let y = d[m].id;
                    lemma_tree_pos(prev, y);
                    assert(r[tree_pos(prev, y)] == prev[tree_pos(prev, y)]);
                    lemma_tree_pos_found(r, y, tree_pos(prev, y));
                } else {
                    lemma_tree_pos_found(r, f.id, prev.len() as int);
                }
            }
        }
        assert forall|k: int| 0 <= k < r.len() implies (#[trigger] r[k]).children.len() == 0 && (r[k].id != 0
            ==> r[k].parent_id != Some(r[k].id)) by {
            if r[k] != leaf {
                assert(r[k] == prev[k]);
            }
        }
    }
}

/// Every stored category other than the root 0 appears in the assembled
/// forest exactly once, at the top level or somewhere below it, and no other
/// id appears, as long as no stored category other than the root names
/// itself as its parent.
pub proof fn lemma_category_forest_ids(flat: Seq<FlatCategory>)
    requires
        forall|k: int|
            0 <= k < flat.len() && (#[trigger] flat[k]).id != 0 ==> flat[k].parent_id != Some(flat[k].id),
    ensures
        forest_ids(category_forest(flat)).no_duplicates(),
        forall|x: i64|
            #[trigger] forest_ids(category_forest(flat)).contains(x) <==> (x != 0 && stored_id(flat, x)),
{
    broadcast use vstd::multiset::group_multiset_axioms;
    broadcast use vstd::seq_lib::group_to_multiset_ensures;

    let st = initial_trees(flat);
    lemma_initial_ids(flat);
    assert forall|k: int| 0 <= k < st.len() implies ((#[trigger] st[k]).id == 0 ==> st[k].children.len()
        == 0) && !forest_ids(st[k].children).contains(0) by {
        assert(forest_ids(st[k].children) =~= Seq::<i64>::empty());
    }
    let order = attach_order(st);
    lemma_order_nonzero(key_sort(tree_keys(st)));
    lemma_attach_all_ids(st, order);
    let att = attach_all(st, order);
    lemma_nonzero_ids(att);
    let nz = nonzero_trees(att);
    lemma_top_sort_ids(nz);
    let ids = forest_ids(category_forest(flat));
    assert forall|x: i64| #[trigger] ids.to_multiset().count(x) == if x != 0 && stored_id(flat, x) {
        1nat
    } else {
        0nat
    } by {
        if x != 0 {
            assert(ids.to_multiset().count(x) == forest_ids(nz).to_multiset().count(x));
            assert(forest_ids(att).to_multiset().count(x) == forest_ids(st).to_multiset().count(x));
        }
    }
    ids.lemma_multiset_has_no_duplicates_conv();
    assert forall|x: i64| #[trigger] ids.contains(x) <==> (x != 0 && stored_id(flat, x)) by {
        assert(ids.contains(x) <==> ids.to_multiset().count(x) > 0);
    }
}

// ── Where each category ends up ────────────────────────────────────────────

/// No two stored categories share an id.
pub open spec fn distinct_ids(flat: Seq<FlatCategory>) -> bool {
    forall|a: int, b: int| 0 <= a < b < flat.len() ==> (#[trigger] flat[a]).id != (#[trigger] flat[b]).id
}

proof fn lemma_initial_distinct(flat: Seq<FlatCategory>)
    requires
        distinct_ids(flat),
    ensures
        initial_trees(flat) == Seq::new(flat.len(), |m: int| leaf_of(flat[m])),
    decreases flat.len(),
{
    if flat.len() > 0 {
        let d = flat.drop_last();
        assert forall|a: int, b: int| 0 <= a < b < d.len() implies (#[trigger] d[a]).id != (#[trigger] d[b]).id by {
            assert(d[a] == flat[a] && d[b] == flat[b]);
        }
        lemma_initial_distinct(d);
        let prev = initial_trees(d);
        lemma_tree_pos(prev, flat.last().id);
        if tree_pos(prev, flat.last().id) >= 0 {
            let q = tree_pos(prev, flat.last().id);
            assert(flat[q].id == flat[flat.len() - 1].id);
        }
        assert(initial_trees(flat) =~= Seq::new(flat.len(), |m: int| leaf_of(flat[m])));
    }
}

/// The key of a node of `st` with the given id.
pub open spec fn key_of(st: Seq<CatTree>, id: i64) -> NodeKey {
    let q = tree_pos(st, id);
    (id, st[q].depth, st[q].sort_order)
}

/// Every key is that of a node of `st`.
pub open spec fn keys_of(st: Seq<CatTree>, s: Seq<NodeKey>) -> bool {
    forall|i: int| 0 <= i < s.len() ==> tree_pos(st, (#[trigger] s[i]).0) >= 0 && s[i] == key_of(st, s[i].0)
}

proof fn lemma_key_insert(s: Seq<NodeKey>, x: NodeKey) -> (p: int)
    requires
        forall|i: int, j: int| 0 <= i < j < s.len() ==> key_le(#[trigger] s[i], #[trigger] s[j]),
    ensures
        0 <= p <= s.len(),
        key_insert(s, x) == s.take(p) + seq![x] + s.skip(p),
        forall|i: int, j: int|
            0 <= i < j < key_insert(s, x).len() ==> key_le(
                #[trigger] key_insert(s, x)[i],
                #[trigger] key_insert(s, x)[j],
            ),
    decreases s.len(),
{
    let r = key_insert(s, x);
    if s.len() == 0 {
        assert(r =~= s.take(0) + seq![x] + s.skip(0));
        0
    } else if !key_le(s.last(), x) {
        let d = s.drop_last();
        let q = lemma_key_insert(d, x);
        let m = key_insert(d, x);
        assert(r =~= s.take(q) + seq![x] + s.skip(q)) by {
            assert(s.take(q) =~= d.take(q));
            assert(s.skip(q) =~= d.skip(q).push(s.last()));
        }
        assert forall|i: int, j: int| 0 <= i < j < r.len() implies key_le(#[trigger] r[i], #[trigger] r[j]) by {
            if j == r.len() - 1 {
                if i == q {
                    assert(r[i] == x);
                } else if i < q {
                    assert(r[i] == s[i]);
                    assert(key_le(s[i], s[s.len() - 1]));
                } else {
                    assert(r[i] == s[i - 1]);
                    assert(key_le(s[i - 1], s[s.len() - 1]));
                }
            } else {
                assert(r[i] == m[i] && r[j] == m[j]);
            }
        }
        q
    } else {
        assert(r =~= s.take(s.len() as int) + seq![x] + s.skip(s.len() as int));
        assert forall|i: int, j: int| 0 <= i < j < r.len() implies key_le(#[trigger] r[i], #[trigger] r[j]) by {
            if j == s.len() {
                assert(r[i] == s[i]);
                if i < s.len() - 1 {
                    assert(key_le(s[i], s[s.len() - 1]));
                }
            } else {
                assert(r[i] == s[i] && r[j] == s[j]);
            }
        }
        s.len() as int
    }
}

proof fn lemma_key_sort(s: Seq<NodeKey>)
    ensures
        forall|i: int, j: int|
            0 <= i < j < key_sort(s).len() ==> key_le(#[trigger] key_sort(s)[i], #[trigger] key_sort(s)[j]),
        key_sort(s).to_multiset() == s.to_multiset(),
    decreases s.len(),
{
    broadcast use vstd::seq_lib::lemma_multiset_commutative;
    broadcast use vstd::multiset::group_multiset_axioms;
    broadcast use vstd::seq_lib::group_to_multiset_ensures;

    if s.len() > 0 {
        let d = s.drop_last();
        lemma_key_sort(d);
        let t = key_sort(d);
        let p = lemma_key_insert(t, s.last());
        assert(s =~= d.push(s.last()));
        assert(t =~= t.take(p) + t.skip(p));
        assert(t.take(p) + seq![s.last()] =~= t.take(p).push(s.last()));
        assert(key_sort(s).to_multiset() =~= s.to_multiset());
    }
}

/// Some key carries the id `x`.
pub open spec fn has_key_id(s: Seq<NodeKey>, x: i64) -> bool {
    exists|i: int| 0 <= i < s.len() && (#[trigger] s[i]).0 == x
}

proof fn lemma_order_of_keys(st: Seq<CatTree>, s: Seq<NodeKey>)
    requires
        keys_of(st, s),
        s.no_duplicates(),
        forall|i: int, j: int| 0 <= i < j < s.len() ==> key_le(#[trigger] s[i], #[trigger] s[j]),
    ensures
        forall|x: i64|
            #[trigger] nonzero_ids_rev(s).contains(x) <==> (x != 0 && has_key_id(s, x)),
        nonzero_ids_rev(s).no_duplicates(),
        forall|a: int, b: int|
            0 <= a < b < nonzero_ids_rev(s).len() ==> key_le(
                key_of(st, #[trigger] nonzero_ids_rev(s)[b]),
                key_of(st, #[trigger] nonzero_ids_rev(s)[a]),
            ),
    decreases s.len(),
{
    if s.len() > 0 {
        let rest = s.drop_first();
        assert forall|i: int| 0 <= i < rest.len() implies tree_pos(st, (#[trigger] rest[i]).0) >= 0 && rest[i]
            == key_of(st, rest[i].0) by {
            assert(rest[i] == s[i + 1]);
        }
        assert forall|i: int, j: int| 0 <= i < j < rest.len() implies key_le(#[trigger] rest[i], #[trigger] rest[j]) by {
            assert(rest[i] == s[i + 1] && rest[j] == s[j + 1]);
        }
        lemma_order_of_keys(st, rest);
        let rr = nonzero_ids_rev(rest);
        let r = nonzero_ids_rev(s);
        let x0 = s[0].0;
        assert forall|x: i64| #[trigger] has_key_id(s, x) <==> (x == x0 || has_key_id(rest, x)) by {
            if exists|i: int| 0 <= i < s.len() && (#[trigger] s[i]).0 == x {
                let i = choose|i: int| 0 <= i < s.len() && (#[trigger] s[i]).0 == x;
                if i > 0 {
                    assert(rest[i - 1] == s[i]);
                }
            }
            if exists|i: int| 0 <= i < rest.len() && (#[trigger] rest[i]).0 == x {
                let i = choose|i: int| 0 <= i < rest.len() && (#[trigger] rest[i]).0 == x;
                assert(s[i + 1] == rest[i]);
            }
        }
        if x0 != 0 {
            assert(!rr.contains(x0)) by {
                if rr.contains(x0) {
                    let i = choose|i: int| 0 <= i < rest.len() && (#[trigger] rest[i]).0 == x0;
                    assert(s[i + 1] == rest[i]);
                    assert(s[i + 1] == key_of(st, x0));
                    assert(s[0] == key_of(st, x0));
                    assert(s[0] == s[i + 1]);
                }
            }
            assert forall|x: i64| #[trigger] r.contains(x) <==> (x != 0 && has_key_id(s, x)) by {
                if r.contains(x) {
                    let a = choose|a: int| 0 <= a < r.len() && r[a] == x;
                    if a < rr.len() {
                        assert(rr[a] == x);
                    }
                }
                if rr.contains(x) {
                    let a = choose|a: int| 0 <= a < rr.len() && rr[a] == x;
                    assert(r[a] == x);
                }
                assert(r[rr.len() as int] == x0);
            }
            assert forall|a: int, b: int| 0 <= a < b < r.len() implies key_le(
                key_of(st, #[trigger] r[b]),
                key_of(st, #[trigger] r[a]),
            ) by {
                if b < rr.len() {
                    assert(r[a] == rr[a] && r[b] == rr[b]);
                } else {
                    assert(r[a] == rr[a]);
                    assert(rr.contains(rr[a]));
                    assert(has_key_id(rest, rr[a]));
                    let i = choose|i: int| 0 <= i < rest.len() && (#[trigger] rest[i]).0 == rr[a];
                    assert(rest[i] == s[i + 1]);
                    assert(key_le(s[0], s[i + 1]));
                    assert(key_of(st, r[a]) == s[i + 1]);
                    assert(key_of(st, r[b]) == s[0]);
                }
            }
            assert forall|a: int, b: int| 0 <= a < b < r.len() implies r[a] != r[b] by {
                if b < rr.len() {
                    assert(r[a] == rr[a] && r[b] == rr[b]);
                } else {
                    assert(r[a] == rr[a]);
                    assert(rr.contains(rr[a]));
                }
            }
        } else {
            assert forall|x: i64| #[trigger] r.contains(x) <==> (x != 0 && has_key_id(s, x)) by {}
        }
    }
}

/// No two top-level trees share an id.
pub open spec fn distinct_tops(st: Seq<CatTree>) -> bool {
    forall|a: int, b: int| 0 <= a < b < st.len() ==> (#[trigger] st[a]).id != (#[trigger] st[b]).id
}

proof fn lemma_tree_pos_distinct(st: Seq<CatTree>, k: int)
    requires
        distinct_tops(st),
        0 <= k < st.len(),
    ensures
        tree_pos(st, st[k].id) == k,
{
    lemma_tree_pos(st, st[k].id);
    lemma_tree_pos_found(st, st[k].id, k);
}

proof fn lemma_attach_order(st: Seq<CatTree>)
    requires
        distinct_tops(st),
    ensures
        attach_order(st).no_duplicates(),
        forall|x: i64|
            #[trigger] attach_order(st).contains(x) <==> (x != 0 && exists|m: int|
                0 <= m < st.len() && (#[trigger] st[m]).id == x),
        forall|a: int, b: int|
            0 <= a < b < attach_order(st).len() ==> key_le(
                key_of(st, #[trigger] attach_order(st)[b]),
                key_of(st, #[trigger] attach_order(st)[a]),
            ),
        forall|a: int| 0 <= a < attach_order(st).len() ==> tree_pos(st, #[trigger] attach_order(st)[a]) >= 0,
{
    broadcast use vstd::multiset::group_multiset_axioms;
    broadcast use vstd::seq_lib::group_to_multiset_ensures;

    let ks = tree_keys(st);
    assert forall|i: int| 0 <= i < ks.len() implies tree_pos(st, (#[trigger] ks[i]).0) >= 0 && ks[i]
        == key_of(st, ks[i].0) by {
        lemma_tree_pos_distinct(st, i);
    }
    assert forall|i: int, j: int| 0 <= i < j < ks.len() implies ks[i] != ks[j] by {
        assert(ks[i].0 == st[i].id && ks[j].0 == st[j].id);
    }
    lemma_key_sort(ks);
    let sorted = key_sort(ks);
    ks.lemma_multiset_has_no_duplicates();
    assert forall|x: NodeKey| sorted.to_multiset().contains(x) implies sorted.to_multiset().count(x) == 1 by {
        assert(ks.to_multiset().contains(x));
    }
    sorted.lemma_multiset_has_no_duplicates_conv();
    assert forall|i: int| 0 <= i < sorted.len() implies tree_pos(st, (#[trigger] sorted[i]).0) >= 0
        && sorted[i] == key_of(st, sorted[i].0) by {
        assert(sorted.to_multiset().count(sorted[i]) > 0);
        assert(ks.contains(sorted[i]));
        let j = choose|j: int| 0 <= j < ks.len() && ks[j] == sorted[i];
    }
    lemma_order_of_keys(st, sorted);
    assert forall|x: i64| has_key_id(sorted, x) <==> (exists|m: int| 0 <= m < st.len() && (#[trigger] st[m]).id
        == x) by {
        if has_key_id(sorted, x) {
            let i = choose|i: int| 0 <= i < sorted.len() && (#[trigger] sorted[i]).0 == x;
            assert(sorted.to_multiset().count(sorted[i]) > 0);
            assert(ks.contains(sorted[i]));
            let j = choose|j: int| 0 <= j < ks.len() && ks[j] == sorted[i];
            assert(st[j].id == x);
        }
        if exists|m: int| 0 <= m < st.len() && (#[trigger] st[m]).id == x {
            let m = choose|m: int| 0 <= m < st.len() && (#[trigger] st[m]).id == x;
            assert(ks[m].0 == x);
            assert(ks.to_multiset().count(ks[m]) > 0);
            assert(sorted.contains(ks[m]));
            let i = choose|i: int| 0 <= i < sorted.len() && sorted[i] == ks[m];
            assert(sorted[i].0 == x);
        }
    }
    let o = attach_order(st);
    assert forall|a: int| 0 <= a < o.len() implies tree_pos(st, #[trigger] o[a]) >= 0 by {
        assert(o.contains(o[a]));
        assert(has_key_id(sorted, o[a]));
        let i = choose|i: int| 0 <= i < sorted.len() && (#[trigger] sorted[i]).0 == o[a];
    }
}

/// Somewhere in `t`, the category `p` has the category `c` directly below it.
pub open spec fn tree_has_edge(t: CatTree, p: i64, c: i64) -> bool
    decreases t,
{
    (t.id == p && exists|i: int| 0 <= i < t.children.len() && (#[trigger] t.children[i]).id == c)
        || exists|i: int| 0 <= i < t.children.len() && tree_has_edge(#[trigger] t.children[i], p, c)
}

/// Somewhere in the forest, the category `p` has the category `c` directly
/// below it.
pub open spec fn forest_has_edge(s: Seq<CatTree>, p: i64, c: i64) -> bool {
    exists|k: int| 0 <= k < s.len() && tree_has_edge(#[trigger] s[k], p, c)
}

proof fn lemma_with_child_edges(t: CatTree, x: CatTree)
    ensures
        forall|p: i64, c: i64| #[trigger] tree_has_edge(t, p, c) ==> tree_has_edge(with_child(t, x), p, c),
        forall|p: i64, c: i64| #[trigger] tree_has_edge(x, p, c) ==> tree_has_edge(with_child(t, x), p, c),
        tree_has_edge(with_child(t, x), t.id, x.id),
{
    let w = with_child(t, x);
    let n = t.children.len();
    assert(w.children[n as int] == x);
    assert forall|p: i64, c: i64| #[trigger] tree_has_edge(t, p, c) implies tree_has_edge(w, p, c) by {
        if t.id == p && exists|i: int| 0 <= i < t.children.len() && (#[trigger] t.children[i]).id == c {
            let i = choose|i: int| 0 <= i < t.children.len() && (#[trigger] t.children[i]).id == c;
            assert(w.children[i] == t.children[i]);
        } else {
            let i = choose|i: int| 0 <= i < t.children.len() && tree_has_edge(#[trigger] t.children[i], p, c);
            assert(w.children[i] == t.children[i]);
        }
    }
}

/// The node names a parent other than 0 that is among the nodes of `st`.
pub open spec fn placed_under(st: Seq<CatTree>, y: CatTree) -> bool {
    match y.parent_id {
        Some(p) => p != 0 && tree_pos(st, p) >= 0,
        None => false,
    }
}

/// Where the nodes of `st` stand once the ids in `done` have looked for
/// their parents: those that found one sit below it, the others are still
/// on the top level, which holds no one else.
pub open spec fn attach_inv(st: Seq<CatTree>, cur: Seq<CatTree>, done: Seq<i64>) -> bool {
    &&& distinct_tops(cur)
    &&& forall|k: int|
        0 <= k < cur.len() ==> tree_pos(st, (#[trigger] cur[k]).id) >= 0 && cur[k].parent_id == st[tree_pos(
            st,
            cur[k].id,
        )].parent_id
    &&& forall|m: int|
        0 <= m < st.len() ==> (!(done.contains((#[trigger] st[m]).id) && placed_under(st, st[m])) ==> tree_pos(
            cur,
            st[m].id,
        ) >= 0)
    &&& forall|k: int|
        0 <= k < cur.len() ==> !(done.contains((#[trigger] cur[k]).id) && placed_under(
            st,
            st[tree_pos(st, cur[k].id)],
        ))
    &&& forall|m: int|
        0 <= m < st.len() ==> (done.contains((#[trigger] st[m]).id) && placed_under(st, st[m])
            ==> forest_has_edge(cur, st[m].parent_id.unwrap(), st[m].id))
}

proof fn lemma_attach_step_places(st: Seq<CatTree>, cur: Seq<CatTree>, done: Seq<i64>, id: i64)
    requires
        distinct_tops(st),
        attach_inv(st, cur, done),
        !done.contains(id),
        tree_pos(st, id) >= 0,
        placed_under(st, st[tree_pos(st, id)]) ==> !done.contains(st[tree_pos(st, id)].parent_id.unwrap())
            && st[tree_pos(st, id)].parent_id.unwrap() != id,
    ensures
        attach_inv(st, attach_step(cur, id), done.push(id)),
{
    let d2 = done.push(id);
    assert forall|y: i64| #[trigger] d2.contains(y) <==> (done.contains(y) || y == id) by {
        if d2.contains(y) {
            let a = choose|a: int| 0 <= a < d2.len() && d2[a] == y;
            if a < done.len() {
                assert(done[a] == y);
            }
        }
        if done.contains(y) {
            let a = choose|a: int| 0 <= a < done.len() && done[a] == y;
            assert(d2[a] == y);
        }
        assert(d2[done.len() as int] == id);
    }
    let mc = tree_pos(st, id);
    lemma_tree_pos(st, id);
    lemma_tree_pos_distinct(st, mc);
    let cst = st[mc];
    assert(!(done.contains(st[mc].id) && placed_under(st, st[mc])));
    let i = tree_pos(cur, id);
    lemma_tree_pos(cur, id);
    lemma_tree_pos_distinct(cur, i);
    assert(cur[i].parent_id == cst.parent_id);
    let new = attach_step(cur, id);
    if placed_under(st, cst) {
        let pid = cst.parent_id.unwrap();
        let mp = tree_pos(st, pid);
        lemma_tree_pos(st, pid);
        lemma_tree_pos_distinct(st, mp);
        assert(!(done.contains(st[mp].id) && placed_under(st, st[mp])));
        let q = tree_pos(cur, pid);
        lemma_tree_pos(cur, pid);
        assert(q >= 0);
        let c = cur[i];
        let rest = cur.remove(i);
        assert(q != i);
        if q < i {
            assert(rest[q] == cur[q]);
            lemma_tree_pos_found(rest, pid, q);
        } else {
            assert(rest[q - 1] == cur[q]);
            lemma_tree_pos_found(rest, pid, q - 1);
        }
        let j = tree_pos(rest, pid);
        lemma_tree_pos(rest, pid);
        let w = with_child(rest[j], c);
        assert(new == rest.update(j, w));
        assert forall|k: int| 0 <= k < rest.len() implies (#[trigger] rest[k]) == cur[if k < i {
            k
        } else {
            k + 1
        }] by {}
        lemma_with_child_edges(rest[j], c);
        // The top level stays without repeated ids, and keeps its parents.
        assert forall|a: int, b: int| 0 <= a < b < new.len() implies (#[trigger] new[a]).id != (
        #[trigger] new[b]).id by {
            assert(new[a].id == rest[a].id && new[b].id == rest[b].id);
        }
        assert forall|k: int| 0 <= k < new.len() implies tree_pos(st, (#[trigger] new[k]).id) >= 0
            && new[k].parent_id == st[tree_pos(st, new[k].id)].parent_id by {
            assert(new[k].id == rest[k].id && new[k].parent_id == rest[k].parent_id);
        }
        // Those that have not found a parent are still on top.
        assert forall|m: int| 0 <= m < st.len() && !(d2.contains((#[trigger] st[m]).id) && placed_under(
            st,
            st[m],
        )) implies tree_pos(new, st[m].id) >= 0 by {
            let y = st[m].id;
            assert(y != id);
            let qy = tree_pos(cur, y);
            lemma_tree_pos(cur, y);
            assert(qy != i);
            let ry = if qy < i {
                qy
            } else {
                qy - 1
            };
            assert(rest[ry] == cur[qy]);
            assert(new[ry].id == y);
            lemma_tree_pos_found(new, y, ry);
        }
        // The top level holds only those that have not found a parent.
        assert forall|k: int| 0 <= k < new.len() implies !(d2.contains((#[trigger] new[k]).id) && placed_under(
            st,
            st[tree_pos(st, new[k].id)],
        )) by {
            if k == j {
                assert(new[k].id == pid);
                assert(rest[j].id == pid);
            } else {
                assert(new[k] == rest[k]);
                let kc = if k < i {
                    k
                } else {
                    k + 1
                };
                assert(rest[k] == cur[kc]);
                assert(kc != i);
                assert(cur[kc].id != id);
            }
        }
        // Every edge stays, and the new one is added.
        assert forall|m: int| 0 <= m < st.len() && d2.contains((#[trigger] st[m]).id) && placed_under(
            st,
            st[m],
        ) implies forest_has_edge(new, st[m].parent_id.unwrap(), st[m].id) by {
            let pp = st[m].parent_id.unwrap();
            let cc = st[m].id;
            if cc == id {
                assert(m == mc) by {
                    lemma_tree_pos_distinct(st, m);
                }
                assert(tree_has_edge(w, pid, id));
                assert(new[j] == w);
            } else {
                assert(forest_has_edge(cur, pp, cc));
                let k = choose|k: int| 0 <= k < cur.len() && tree_has_edge(#[trigger] cur[k], pp, cc);
                if k == i {
                    assert(tree_has_edge(w, pp, cc));
                    assert(new[j] == w);
                } else {
                    let rk = if k < i {
                        k
                    } else {
                        k - 1
                    };
                    assert(rest[rk] == cur[k]);
                    if rk == j {
                        assert(tree_has_edge(w, pp, cc));
                        assert(new[j] == w);
                    } else {
                        assert(new[rk] == rest[rk]);
                    }
                }
            }
        }
    } else {
        assert(new == cur) by {
            match cur[i].parent_id {
                Some(pid) => {
                    if pid != 0 && tree_pos(cur, pid) >= 0 {
                        lemma_tree_pos(cur, pid);
                        let q = tree_pos(cur, pid);
                        assert(tree_pos(st, cur[q].id) >= 0);
                    }
                },
                None => {},
            }
        }
        assert forall|m: int| 0 <= m < st.len() && !(d2.contains((#[trigger] st[m]).id) && placed_under(
            st,
            st[m],
        )) implies tree_pos(new, st[m].id) >= 0 by {
            if st[m].id != id {
                assert(!(done.contains(st[m].id) && placed_under(st, st[m])));
            }
        }
        assert forall|k: int| 0 <= k < new.len() implies !(d2.contains((#[trigger] new[k]).id) && placed_under(
            st,
            st[tree_pos(st, new[k].id)],
        )) by {
            assert(!(done.contains(cur[k].id) && placed_under(st, st[tree_pos(st, cur[k].id)])));
        }
        assert forall|m: int| 0 <= m < st.len() && d2.contains((#[trigger] st[m]).id) && placed_under(
            st,
            st[m],
        ) implies forest_has_edge(new, st[m].parent_id.unwrap(), st[m].id) by {
            if st[m].id == id {
                lemma_tree_pos_distinct(st, m);
            }
        }
    }
}

/// `a` comes strictly before `b` by depth, then sort order.
pub open spec fn sorts_before(depth_a: i32, order_a: i32, depth_b: i32, order_b: i32) -> bool {
    depth_a < depth_b || (depth_a == depth_b && order_a < order_b)
}

/// Each node's parent, when it has one among the nodes, comes strictly
/// before it by depth, then sort order.
pub open spec fn parents_above(st: Seq<CatTree>) -> bool {
    forall|m: int|
        0 <= m < st.len() && placed_under(st, #[trigger] st[m]) ==> {
            let p = st[tree_pos(st, st[m].parent_id.unwrap())];
            sorts_before(p.depth, p.sort_order, st[m].depth, st[m].sort_order)
        }
}

proof fn lemma_attach_prefix(st: Seq<CatTree>, n: int)
    requires
        distinct_tops(st),
        parents_above(st),
        0 <= n <= attach_order(st).len(),
    ensures
        attach_inv(st, attach_all(st, attach_order(st).take(n)), attach_order(st).take(n)),
    decreases n,
{
    let o = attach_order(st);
    lemma_attach_order(st);
    if n == 0 {
        assert(o.take(0) =~= Seq::<i64>::empty());
        assert forall|k: int| 0 <= k < st.len() implies tree_pos(st, (#[trigger] st[k]).id) >= 0
            && st[k].parent_id == st[tree_pos(st, st[k].id)].parent_id by {
            lemma_tree_pos_distinct(st, k);
        }
        assert forall|m: int| 0 <= m < st.len() implies tree_pos(st, (#[trigger] st[m]).id) >= 0 by {
            lemma_tree_pos_distinct(st, m);
        }
    } else {
        lemma_attach_prefix(st, n - 1);
        let done = o.take(n - 1);
        let id = o[n - 1];
        assert(o.take(n).drop_last() =~= done);
        assert(o.take(n) =~= done.push(id));
        assert(!done.contains(id)) by {
            if done.contains(id) {
                let a = choose|a: int| 0 <= a < done.len() && done[a] == id;
                assert(o[a] == o[n - 1]);
            }
        }
        let mc = tree_pos(st, id);
        lemma_tree_pos(st, id);
        lemma_tree_pos_distinct(st, mc);
        if placed_under(st, st[mc]) {
            let pid = st[mc].parent_id.unwrap();
            lemma_tree_pos(st, pid);
            let mp = tree_pos(st, pid);
            assert(sorts_before(st[mp].depth, st[mp].sort_order, st[mc].depth, st[mc].sort_order));
            assert(!done.contains(pid)) by {
                if done.contains(pid) {
                    let a = choose|a: int| 0 <= a < done.len() && done[a] == pid;
                    assert(o[a] == pid);
                    assert(key_le(key_of(st, o[n - 1]), key_of(st, o[a])));
                }
            }
        }
        lemma_attach_step_places(st, attach_all(st, done), done, id);
    }
}

proof fn lemma_nonzero_keeps(s: Seq<CatTree>)
    ensures
        forall|k: int| 0 <= k < s.len() && (#[trigger] s[k]).id != 0 ==> nonzero_trees(s).contains(s[k]),
    decreases s.len(),
{
    if s.len() > 0 {
        let d = s.drop_last();
        lemma_nonzero_keeps(d);
        let nd = nonzero_trees(d);
        assert forall|k: int| 0 <= k < s.len() && (#[trigger] s[k]).id != 0 implies nonzero_trees(s).contains(
            s[k],
        ) by {
            if k < d.len() {
                assert(d[k] == s[k]);
                let a = choose|a: int| 0 <= a < nd.len() && nd[a] == s[k];
                assert(nonzero_trees(s)[a] == s[k]);
            } else {
                assert(nonzero_trees(s)[nd.len() as int] == s[k]);
            }
        }
    }
}

proof fn lemma_top_sort_keeps(s: Seq<CatTree>)
    ensures
        forall|k: int| 0 <= k < s.len() ==> top_sort(s).contains(#[trigger] s[k]),
    decreases s.len(),
{
    if s.len() > 0 {
        let d = s.drop_last();
        lemma_top_sort_keeps(d);
        lemma_top_sort(d);
        let t = top_sort(d);
        let p = lemma_top_insert(t, s.last());
        let r = top_sort(s);
        assert forall|k: int| 0 <= k < s.len() implies r.contains(#[trigger] s[k]) by {
            if k < d.len() {
                assert(d[k] == s[k]);
                assert(t.contains(d[k]));
                let a = choose|a: int| 0 <= a < t.len() && t[a] == d[k];
                if a < p {
                    assert(r[a] == t[a]);
                } else {
                    assert(r[a + 1] == t[a]);
                }
            } else {
                assert(r[p] == s[k]);
            }
        }
    }
}

/// Every node of `t`, at any depth, is a node of `st` with the parent it
/// names there.
pub open spec fn node_stored(st: Seq<CatTree>, t: CatTree) -> bool
    decreases t,
{
    &&& tree_pos(st, t.id) >= 0
    &&& t.parent_id == st[tree_pos(st, t.id)].parent_id
    &&& forall|i: int| 0 <= i < t.children.len() ==> node_stored(st, #[trigger] t.children[i])
}

proof fn lemma_attach_stored(st: Seq<CatTree>, cur: Seq<CatTree>, ids: Seq<i64>)
    requires
        forall|k: int| 0 <= k < cur.len() ==> node_stored(st, #[trigger] cur[k]),
    ensures
        forall|k: int| 0 <= k < attach_all(cur, ids).len() ==> node_stored(st, #[trigger] attach_all(cur, ids)[k]),
    decreases ids.len(),
{
    if ids.len() > 0 {
        lemma_attach_stored(st, cur, ids.drop_last());
        let s0 = attach_all(cur, ids.drop_last());
        let id = ids.last();
        let i = tree_pos(s0, id);
        lemma_tree_pos(s0, id);
        if i >= 0 {
            match s0[i].parent_id {
                Some(pid) => {
                    if pid != 0 && tree_pos(s0, pid) >= 0 {
                        let rest = s0.remove(i);
                        lemma_tree_pos(rest, pid);
                        let j = tree_pos(rest, pid);
                        assert forall|k: int| 0 <= k < rest.len() implies node_stored(st, #[trigger] rest[k]) by {
                            if k < i {
                                assert(rest[k] == s0[k]);
                            } else {
                                assert(rest[k] == s0[k + 1]);
                            }
                        }
                        if j >= 0 {
                            let w = with_child(rest[j], s0[i]);
                            assert forall|m: int| 0 <= m < w.children.len() implies node_stored(
                                st,
                                #[trigger] w.children[m],
                            ) by {
                                if m < rest[j].children.len() {
                                    assert(w.children[m] == rest[j].children[m]);
                                } else {
                                    assert(w.children[m] == s0[i]);
                                }
                            }
                            assert(node_stored(st, w));
                        }
                    }
                },
                None => {},
            }
        }
    }
}

proof fn lemma_edge_named(st: Seq<CatTree>, t: CatTree, p: i64, c: i64)
    requires
        parented(t),
        node_stored(st, t),
        tree_has_edge(t, p, c),
    ensures
        tree_pos(st, c) >= 0,
        st[tree_pos(st, c)].parent_id == Some(p),
    decreases t,
{
    if t.id == p && exists|i: int| 0 <= i < t.children.len() && (#[trigger] t.children[i]).id == c {
        let i = choose|i: int| 0 <= i < t.children.len() && (#[trigger] t.children[i]).id == c;
        assert(node_stored(st, t.children[i]));
        assert(t.children[i].parent_id == Some(t.id));
    } else {
        let i = choose|i: int| 0 <= i < t.children.len() && tree_has_edge(#[trigger] t.children[i], p, c);
        assert(parented(t.children[i]));
        assert(node_stored(st, t.children[i]));
        lemma_edge_named(st, t.children[i], p, c);
    }
}

/// The category names a parent other than the root 0 that is stored.
pub open spec fn has_stored_parent(flat: Seq<FlatCategory>, e: FlatCategory) -> bool {
    match e.parent_id {
        Some(p) => p != 0 && stored_id(flat, p),
        None => false,
    }
}

/// Every stored parent other than the root comes strictly before its
/// subcategories by depth, then sort order: the order in which the
/// assembly looks at them.
pub open spec fn parents_sorted_first(flat: Seq<FlatCategory>) -> bool {
    forall|a: int, b: int|
        0 <= a < flat.len() && 0 <= b < flat.len() && (#[trigger] flat[a]).parent_id == Some(
            (#[trigger] flat[b]).id,
        ) && flat[b].id != 0 ==> sorts_before(flat[b].depth, flat[b].sort_order, flat[a].depth, flat[a].sort_order)
}

/// The forest once every node has looked for its parent.
spec fn attached(flat: Seq<FlatCategory>) -> Seq<CatTree> {
    attach_all(initial_trees(flat), attach_order(initial_trees(flat)))
}

proof fn lemma_places_attached(flat: Seq<FlatCategory>)
    requires
        distinct_ids(flat),
        parents_sorted_first(flat),
    ensures
        forall|m: int|
            0 <= m < flat.len() ==> tree_pos(initial_trees(flat), (#[trigger] flat[m]).id) == m
                && placed_under(initial_trees(flat), initial_trees(flat)[m]) == has_stored_parent(flat, flat[m])
                && initial_trees(flat)[m].id == flat[m].id && initial_trees(flat)[m].parent_id
                == flat[m].parent_id,
        initial_trees(flat).len() == flat.len(),
        attach_inv(initial_trees(flat), attached(flat), attach_order(initial_trees(flat))),
        forall|x: i64| #[trigger] attach_order(initial_trees(flat)).contains(x) <==> (x != 0 && stored_id(flat, x)),
        forall|k: int|
            0 <= k < attached(flat).len() ==> node_stored(initial_trees(flat), #[trigger] attached(flat)[k])
                && parented(attached(flat)[k]),
        root_only_on_top(attached(flat)),
{
    let st = initial_trees(flat);
    lemma_initial_distinct(flat);
    assert forall|a: int, b: int| 0 <= a < b < st.len() implies (#[trigger] st[a]).id != (#[trigger] st[b]).id by {
        assert(st[a].id == flat[a].id && st[b].id == flat[b].id);
    }
    assert forall|m: int| 0 <= m < st.len() implies tree_pos(st, (#[trigger] flat[m]).id) == m by {
        assert(st[m].id == flat[m].id);
        lemma_tree_pos_distinct(st, m);
    }
    assert forall|x: i64| #[trigger] stored_id(flat, x) <==> tree_pos(st, x) >= 0 by {
        lemma_tree_pos(st, x);
        if stored_id(flat, x) {
            let k = choose|k: int| 0 <= k < flat.len() && (#[trigger] flat[k]).id == x;
            assert(st[k].id == x);
        }
        if tree_pos(st, x) >= 0 {
            assert(flat[tree_pos(st, x)].id == x);
        }
    }
    assert forall|m: int| 0 <= m < st.len() implies placed_under(st, #[trigger] st[m]) == has_stored_parent(
        flat,
        flat[m],
    ) by {
        assert(st[m].parent_id == flat[m].parent_id);
    }
    assert forall|m: int| 0 <= m < st.len() && placed_under(st, #[trigger] st[m]) implies ({
        let p = st[tree_pos(st, st[m].parent_id.unwrap())];
        sorts_before(p.depth, p.sort_order, st[m].depth, st[m].sort_order)
    }) by {
        let pid = st[m].parent_id.unwrap();
        assert(has_stored_parent(flat, flat[m]));
        let b = choose|b: int| 0 <= b < flat.len() && (#[trigger] flat[b]).id == pid;
        assert(tree_pos(st, flat[b].id) == b);
        assert(flat[m].parent_id == Some(flat[b].id));
    }
    let o = attach_order(st);
    lemma_attach_order(st);
    assert forall|x: i64| #[trigger] o.contains(x) <==> (x != 0 && stored_id(flat, x)) by {
        if exists|m: int| 0 <= m < st.len() && (#[trigger] st[m]).id == x {
            let m = choose|m: int| 0 <= m < st.len() && (#[trigger] st[m]).id == x;
            assert(flat[m].id == x);
        }
        if stored_id(flat, x) {
            let k = choose|k: int| 0 <= k < flat.len() && (#[trigger] flat[k]).id == x;
            assert(st[k].id == x);
        }
    }
    lemma_attach_prefix(st, o.len() as int);
    assert(o.take(o.len() as int) =~= o);
    // The root 0 keeps no subcategories, so the trees that go are bare.
    assert forall|k: int| 0 <= k < st.len() && (#[trigger] st[k]).id != 0 implies st[k].parent_id != Some(
        st[k].id,
    ) by {
        if st[k].parent_id == Some(st[k].id) {
            assert(flat[k].parent_id == Some(flat[k].id));
        }
    }
    assert forall|k: int| 0 <= k < st.len() implies ((#[trigger] st[k]).id == 0 ==> st[k].children.len() == 0)
        && !forest_ids(st[k].children).contains(0) by {
        assert(forest_ids(st[k].children) =~= Seq::<i64>::empty());
    }
    lemma_order_nonzero(key_sort(tree_keys(st)));
    lemma_attach_all_ids(st, o);
    assert forall|k: int| 0 <= k < st.len() implies node_stored(st, #[trigger] st[k]) by {
        lemma_tree_pos_distinct(st, k);
    }
    lemma_attach_stored(st, st, o);
    lemma_initial_leaves(flat);
    lemma_attach_parented(st, o);
}

/// Where each stored category ends up, for stored categories with distinct
/// ids whose parents come strictly before their subcategories by depth,
/// then sort order. Below a category other than the root sit exactly the
/// categories other than the root that name it as their parent; the top
/// level holds exactly the categories other than the root that name no
/// stored parent but the root.
pub proof fn lemma_category_forest_places(flat: Seq<FlatCategory>)
    requires
        distinct_ids(flat),
        parents_sorted_first(flat),
    ensures
        forall|a: int, b: int|
            0 <= a < flat.len() && 0 <= b < flat.len() && (#[trigger] flat[a]).id != 0 && (
            #[trigger] flat[b]).id != 0 ==> (forest_has_edge(category_forest(flat), flat[b].id, flat[a].id)
                <==> flat[a].parent_id == Some(flat[b].id)),
        forall|a: int|
            0 <= a < flat.len() ==> ((exists|k: int|
                0 <= k < category_forest(flat).len() && (#[trigger] category_forest(flat)[k]).id == (
                #[trigger] flat[a]).id) <==> (flat[a].id != 0 && !has_stored_parent(flat, flat[a]))),
{
    let st = initial_trees(flat);
    let o = attach_order(st);
    let att = attached(flat);
    lemma_places_attached(flat);
    let nz = nonzero_trees(att);
    lemma_nonzero_keeps(att);
    lemma_nonzero_trees(att);
    lemma_top_sort_keeps(nz);
    lemma_top_sort(nz);
    let r = category_forest(flat);
    assert(r == top_sort(nz));
    assert forall|k: int| 0 <= k < r.len() implies #[trigger] r[k].id != 0 && exists|q: int|
        0 <= q < att.len() && att[q] == r[k] by {
        assert(nz.contains(r[k]));
        let n = choose|n: int| 0 <= n < nz.len() && nz[n] == r[k];
        assert(att.contains(nz[n]));
    }
    assert forall|a: int, b: int|
        0 <= a < flat.len() && 0 <= b < flat.len() && (#[trigger] flat[a]).id != 0 && (#[trigger] flat[b]).id
            != 0 implies (forest_has_edge(r, flat[b].id, flat[a].id) <==> flat[a].parent_id == Some(
        flat[b].id,
    )) by {
        if flat[a].parent_id == Some(flat[b].id) {
            assert(stored_id(flat, flat[b].id));
            assert(has_stored_parent(flat, flat[a]));
            assert(stored_id(flat, flat[a].id));
            assert(o.contains(st[a].id));
            assert(forest_has_edge(att, flat[b].id, flat[a].id));
            let k = choose|k: int| 0 <= k < att.len() && tree_has_edge(#[trigger] att[k], flat[b].id, flat[a].id);
            assert(att[k].id != 0);
            assert(nz.contains(att[k]));
            let n = choose|n: int| 0 <= n < nz.len() && nz[n] == att[k];
            assert(r.contains(nz[n]));
            let q = choose|q: int| 0 <= q < r.len() && r[q] == nz[n];
            assert(tree_has_edge(r[q], flat[b].id, flat[a].id));
        }
        if forest_has_edge(r, flat[b].id, flat[a].id) {
            let k = choose|k: int| 0 <= k < r.len() && tree_has_edge(#[trigger] r[k], flat[b].id, flat[a].id);
            let q = choose|q: int| 0 <= q < att.len() && att[q] == r[k];
            lemma_edge_named(st, att[q], flat[b].id, flat[a].id);
        }
    }
    assert forall|a: int| 0 <= a < flat.len() implies ((exists|k: int|
        0 <= k < r.len() && (#[trigger] r[k]).id == (#[trigger] flat[a]).id) <==> (flat[a].id != 0
        && !has_stored_parent(flat, flat[a]))) by {
        if flat[a].id != 0 && !has_stored_parent(flat, flat[a]) {
            assert(stored_id(flat, flat[a].id));
            assert(o.contains(st[a].id));
            let q = tree_pos(att, st[a].id);
            lemma_tree_pos(att, st[a].id);
            assert(nz.contains(att[q]));
            let n = choose|n: int| 0 <= n < nz.len() && nz[n] == att[q];
            assert(r.contains(nz[n]));
            let k = choose|k: int| 0 <= k < r.len() && r[k] == nz[n];
            assert(r[k].id == flat[a].id);
        }
        if exists|k: int| 0 <= k < r.len() && (#[trigger] r[k]).id == flat[a].id {
            let k = choose|k: int| 0 <= k < r.len() && (#[trigger] r[k]).id == flat[a].id;
            let q = choose|q: int| 0 <= q < att.len() && att[q] == r[k];
            assert(o.contains(att[q].id));
            assert(tree_pos(st, att[q].id) == a);
        }
    }
}

// ── The loaded database ────────────────────────────────────────────────────

/// Everything the embedded database holds, categories as a tree.
#[derive(Debug)]
pub struct LoadedData {
    pub forms: Vec<Form>,
    pub lemmas: Vec<Lemma>,
    pub categories: Vec<Category>,
    pub tags: Vec<Tag>,
}

/// The records read from the database, with the stored categories
/// assembled into their forest.
pub fn assemble_loaded(
    lemmas: Vec<Lemma>,
    forms: Vec<Form>,
    categories: Vec<FlatCategory>,
    tags: Vec<Tag>,
) -> (r: LoadedData)
    ensures
        r.forms@ == forms@,
        r.lemmas@ == lemmas@,
        r.tags@ == tags@,
        cat_trees(r.categories@) == category_forest(categories@),
{
    let categories = build_category_tree(categories);
    LoadedData { forms, lemmas, categories, tags }
}

} // verus!
