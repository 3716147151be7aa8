//! Perception: the accessibility tree and the engine-health verdict.
//!
//! The debugger channel hands back raw nodes; the library filters
//! structural noise, lifts children of dropped nodes under the nearest
//! kept ancestor, computes regions of interest, and counts the clickable
//! elements the think-delay is paced by. Every emitted node's parent, when
//! present, is an earlier emitted node, and no emitted node carries a
//! noise role.

use vstd::prelude::*;

verus! {

use crate::text::{str_eq, seq_contains, lower_seq, str_contains, str_contains_ci};

/// A bounding box in page pixels.
#[derive(Clone, Copy, Debug, PartialEq, Eq, Structural)]
pub struct AxBounds {
    /// Left edge.
    pub x: i64,
    /// Top edge.
    pub y: i64,
    /// Width.
    pub width: i64,
    /// Height.
    pub height: i64,
}

/// A box the tree accepts: non-negative extent, coordinates within range.
pub open spec fn bounds_wf(b: AxBounds) -> bool {
    &&& -1_000_000_000 <= b.x <= 1_000_000_000
    &&& -1_000_000_000 <= b.y <= 1_000_000_000
    &&& 0 <= b.width <= 1_000_000_000
    &&& 0 <= b.height <= 1_000_000_000
}

/// One semantic element of a page.
pub struct AxNode {
    /// Stable node id.
    pub node_id: String,
    /// Role, such as "button" or "link".
    pub role: String,
    /// Accessible name, when present.
    pub name: Option<String>,
    /// Current value, when present.
    pub value: Option<String>,
    /// Id of the nearest kept ancestor, absent for roots.
    pub parent_id: Option<String>,
    /// Screen bounds, when known.
    pub bounds: Option<AxBounds>,
    /// State flags.
    pub state: Vec<String>,
}

/// An ordered sequence of nodes produced by one extraction.
pub struct AxTree {
    /// The emitted nodes, ancestors before descendants.
    pub nodes: Vec<AxNode>,
}

/// A raw node as the debugger channel reports it.
pub struct RawAxNode {
    /// Stable node id.
    pub node_id: String,
    /// Role string.
    pub role: String,
    /// Accessible name, when present.
    pub name: Option<String>,
    /// Current value, when present.
    pub value: Option<String>,
    /// Raw parent id, when present.
    pub parent_id: Option<String>,
    /// Screen bounds, when known.
    pub bounds: Option<AxBounds>,
    /// State flags.
    pub state: Vec<String>,
    /// Ids of the children, in order.
    pub child_ids: Vec<String>,
}

/// The structural-noise roles that are dropped during extraction.
pub open spec fn is_noise_role(role: Seq<char>) -> bool {
    role == "generic"@ || role == "LayoutTable"@ || role == "presentation"@
}

/// A raw node's bounds, when present, are acceptable.
pub open spec fn raw_node_wf(n: &RawAxNode) -> bool {
    match n.bounds {
        Some(b) => bounds_wf(b),
        None => true,
    }
}

/// A tree in which no node has a noise role, every parent reference names
/// an earlier node, and all bounds are acceptable.
pub open spec fn ax_tree_wf(nodes: Seq<AxNode>) -> bool {
    &&& (forall|k: int| 0 <= k < nodes.len() ==> !is_noise_role(#[trigger] nodes[k].role@))
    &&& (forall|k: int|
        0 <= k < nodes.len() ==> (#[trigger] nodes[k].parent_id matches Some(pid) ==> exists|j: int|
            0 <= j < k && (#[trigger] nodes[j].node_id)@ == pid@))
    &&& (forall|k: int|
        0 <= k < nodes.len() ==> (#[trigger] nodes[k].bounds matches Some(b) ==> bounds_wf(b)))
}

/// Whether a role string is one of the noise roles.
fn is_noise_role_exec(role: &str) -> (r: bool)
    ensures
        r == is_noise_role(role@),
{
    str_eq(role, "generic") || str_eq(role, "LayoutTable") || str_eq(role, "presentation")
}

/// Find a raw node by id.
fn find_raw(raw: &Vec<RawAxNode>, id: &str) -> (r: Option<usize>)
    ensures
        match r {
            Some(j) => j < raw@.len() && raw@[j as int].node_id@ == id@,
            None => forall|j: int| 0 <= j < raw@.len() ==> (#[trigger] raw@[j]).node_id@ != id@,
        },
{
    let n = raw.len();
    let mut j: usize = 0;
    while j < n
        invariant
            n == raw@.len(),
            j <= n,
            forall|t: int| 0 <= t < j ==> (#[trigger] raw@[t]).node_id@ != id@,
        decreases n - j,
    {
        if str_eq(raw[j].node_id.as_str(), id) {
            return Some(j);
        }
        j += 1;
    }
    None
}

/// Clone an optional string.
fn clone_opt_string(s: &Option<String>) -> (r: Option<String>)
    ensures
        match s {
            Some(v) => r matches Some(w) && w@ == v@,
            None => r is None,
        },
{
    match s {
        Some(v) => Some(v.clone()),
        None => None,
    }
}

/// Clone a vector of strings.
fn clone_strings(v: &Vec<String>) -> (r: Vec<String>)
    ensures
        r@.len() == v@.len(),
        forall|k: int| 0 <= k < v@.len() ==> (#[trigger] r@[k])@ == v@[k]@,
{
    let mut r: Vec<String> = Vec::new();
    let mut i: usize = 0;
    while i < v.len()
        invariant
            i <= v@.len(),
            r@.len() == i,
            forall|k: int| 0 <= k < i ==> (#[trigger] r@[k])@ == v@[k]@,
        decreases v@.len() - i,
    {
        r.push(v[i].clone());
        i += 1;
    }
    r
}

/// Optional strings with the same contents.
pub open spec fn opt_str_like(a: Option<String>, b: Option<String>) -> bool {
    match (a, b) {
        (Some(x), Some(y)) => x@ == y@,
        (None, None) => true,
        _ => false,
    }
}

/// String vectors with the same contents.
pub open spec fn strings_like(a: Seq<String>, b: Seq<String>) -> bool {
    a.len() == b.len() && forall|t: int| 0 <= t < a.len() ==> (#[trigger] a[t])@ == b[t]@
}

/// The emitted node carries the raw node's id, role, name, value, bounds
/// and state; only the parent is rewritten during extraction.
pub open spec fn node_copies(e: AxNode, r: RawAxNode) -> bool {
    &&& e.node_id@ == r.node_id@
    &&& e.role@ == r.role@
    &&& opt_str_like(e.name, r.name)
    &&& opt_str_like(e.value, r.value)
    &&& e.bounds == r.bounds
    &&& strings_like(e.state@, r.state@)
}

/// A raw root: its parent is absent, or names no node of the input.
pub open spec fn is_root_spec(raw: Seq<RawAxNode>, ri: int) -> bool {
    match raw[ri].parent_id {
        None => true,
        Some(pid) => forall|j: int| 0 <= j < raw.len() ==> (#[trigger] raw[j]).node_id@ != pid@,
    }
}

/// How many nodes the walk has not scheduled yet.
pub open spec fn count_unscheduled(v: Seq<bool>) -> nat
    decreases v.len(),
{
    if v.len() == 0 {
        0
    } else {
        count_unscheduled(v.drop_last()) + if v.last() {
            0
        } else {
            1nat
        }
    }
}

/// Scheduling one unscheduled node lowers the count by one.
proof fn lemma_count_schedule(v: Seq<bool>, i: int)
    requires
        0 <= i < v.len(),
        !v[i],
    ensures
        count_unscheduled(v) >= 1,
        count_unscheduled(v.update(i, true)) == count_unscheduled(v) - 1,
    decreases v.len(),
{
    let u = v.update(i, true);
    if i == v.len() - 1 {
        assert(u.drop_last() =~= v.drop_last());
    } else {
        assert(u.drop_last() =~= v.drop_last().update(i, true));
        lemma_count_schedule(v.drop_last(), i);
        assert(u.last() == v.last());
    }
}

/// A node index that some stack entry schedules.
pub open spec fn on_stack(st: Seq<(usize, Option<usize>)>, i: int) -> bool {
    exists|s: int| 0 <= s < st.len() && (#[trigger] st[s]).0 == i
}

/// Build the clean tree from raw nodes: walk from every root in
/// depth-first order, drop noise-role nodes, and lift their children under
/// the nearest kept ancestor. The result satisfies [`ax_tree_wf`], every
/// emitted node copies a non-noise raw node's fields, and every non-noise
/// root is emitted.
pub fn build_ax_tree(raw: &Vec<RawAxNode>) -> (tree: AxTree)
    requires
        forall|k: int| 0 <= k < raw@.len() ==> raw_node_wf(&#[trigger] raw@[k]),
        raw@.len() < 0xFFFF_FFFF_FFFF_FFFF,
    ensures
        ax_tree_wf(tree.nodes@),
        forall|k: int|
            0 <= k < tree.nodes@.len() ==> exists|ri: int|
                0 <= ri < raw@.len() && node_copies(#[trigger] tree.nodes@[k], raw@[ri])
                    && !is_noise_role(raw@[ri].role@),
        forall|ri: int|
            0 <= ri < raw@.len() && is_root_spec(raw@, ri) && !is_noise_role(
                #[trigger] raw@[ri].role@,
            ) ==> exists|k: int|
                0 <= k < tree.nodes@.len() && node_copies(#[trigger] tree.nodes@[k], raw@[ri]),
{
    let n = raw.len();
    let mut out: Vec<AxNode> = Vec::new();
    let mut scheduled: Vec<bool> = Vec::new();
    let mut t: usize = 0;
    while t < n
        invariant
            scheduled@.len() == t,
            t <= n,
            forall|i: int| 0 <= i < t ==> !(#[trigger] scheduled@[i]),
        decreases n - t,
    {
        scheduled.push(false);
        t += 1;
    }
    proof {
        lemma_count_all_unscheduled(scheduled@);
    }
    // seed the roots in reverse, so the first root is walked first; each
    // seeded or pushed node is marked scheduled once, never twice
    let mut stack: Vec<(usize, Option<usize>)> = Vec::new();
    let mut rix: usize = n;
    while rix > 0
        invariant
            n == raw@.len(),
            rix <= n,
            scheduled@.len() == n,
            forall|k: int|
                0 <= k < stack@.len() ==> (#[trigger] stack@[k]).0 < n && stack@[k].1 is None,
            stack@.len() + count_unscheduled(scheduled@) == n,
            forall|i: int| 0 <= i < rix ==> !(#[trigger] scheduled@[i]),
            forall|ri: int|
                rix <= ri < n && is_root_spec(raw@, ri) ==> scheduled@[ri],
            forall|i: int| 0 <= i < n && scheduled@[i] ==> on_stack(stack@, i),
        decreases rix,
    {
        rix -= 1;
        let is_root = match &raw[rix].parent_id {
            Some(pid) => find_raw(raw, pid.as_str()).is_none(),
            None => true,
        };
        if is_root {
            let ghost st0 = stack@;
            proof {
                lemma_count_schedule(scheduled@, rix as int);
            }
            scheduled.set(rix, true);
            stack.push((rix, None));
            proof {
                assert forall|i: int| 0 <= i < n && scheduled@[i] implies on_stack(stack@, i) by {
                    if i == rix {
                        assert(stack@[st0.len() as int].0 == i);
                    } else {
                        let s = choose|s: int| 0 <= s < st0.len() && (#[trigger] st0[s]).0 == i;
                        assert(stack@[s].0 == i);
                    }
                }
            }
        }
    }
    // one budget unit per scheduled node: the walk drains the stack fully
    let mut fuel: u64 = (n as u64) + 1;
    while stack.len() > 0 && fuel > 0
        invariant
            n == raw@.len(),
            forall|k: int| 0 <= k < raw@.len() ==> raw_node_wf(&#[trigger] raw@[k]),
            scheduled@.len() == n,
            forall|k: int|
                0 <= k < stack@.len() ==> (#[trigger] stack@[k]).0 < n && (stack@[k].1 matches Some(
                    a,
                ) ==> a < out@.len()),
            fuel as int >= stack@.len() + count_unscheduled(scheduled@),
            forall|ri: int| 0 <= ri < n && is_root_spec(raw@, ri) ==> scheduled@[ri],
            forall|i: int|
                0 <= i < n && scheduled@[i] ==> on_stack(stack@, i) || is_noise_role(
                    (#[trigger] raw@[i]).role@,
                ) || (exists|k: int|
                    0 <= k < out@.len() && node_copies(#[trigger] out@[k], raw@[i])),
            forall|k: int|
                0 <= k < out@.len() ==> exists|ri: int|
                    0 <= ri < raw@.len() && node_copies(#[trigger] out@[k], raw@[ri])
                        && !is_noise_role(raw@[ri].role@),
            ax_tree_wf(out@),
        ensures
            stack@.len() == 0,
        decreases fuel,
    {
        fuel -= 1;
        let ghost st_before = stack@;
        let (ri, anc) = stack.pop().unwrap();
        let node = &raw[ri];
        let keep = !is_noise_role_exec(node.role.as_str());
        let child_anc: Option<usize> = if keep {
            let parent_id: Option<String> = match anc {
                Some(a) => Some(out[a].node_id.clone()),
                None => None,
            };
            let emitted = AxNode {
                node_id: node.node_id.clone(),
                role: node.role.clone(),
                name: clone_opt_string(&node.name),
                value: clone_opt_string(&node.value),
                parent_id,
                bounds: node.bounds,
                state: clone_strings(&node.state),
            };
            let ghost out0 = out@;
            out.push(emitted);
            proof {
                assert(out@.len() == out0.len() + 1);
                assert(forall|t2: int| 0 <= t2 < out0.len() ==> out@[t2] == out0[t2]);
                assert(node_copies(out@[out0.len() as int], raw@[ri as int]));
                assert forall|k: int|
                    0 <= k < out@.len() implies (#[trigger] out@[k].parent_id matches Some(pid)
                    ==> exists|j: int|
                    0 <= j < k && (#[trigger] out@[j].node_id)@ == pid@) by {
                    if out@[k].parent_id is Some {
                        let pid = out@[k].parent_id.unwrap();
                        if k < out0.len() {
                            assert(out0[k].parent_id matches Some(p2) ==> exists|j: int|
                                0 <= j < k && (#[trigger] out0[j].node_id)@ == p2@);
                            let j = choose|j: int|
                                0 <= j < k && (#[trigger] out0[j].node_id)@ == pid@;
                            assert(out@[j].node_id@ == pid@);
                        } else {
                            let a = anc.unwrap() as int;
                            assert(out@[a].node_id@ == pid@);
                        }
                    }
                }
                assert forall|k: int| 0 <= k < out@.len() implies !is_noise_role(
                    #[trigger] out@[k].role@,
                ) by {
                    if k < out0.len() {
                        assert(out@[k] == out0[k]);
                    }
                }
                assert forall|k: int|
                    0 <= k < out@.len() implies (#[trigger] out@[k].bounds matches Some(b)
                    ==> bounds_wf(b)) by {
                    if k < out0.len() {
                        assert(out@[k] == out0[k]);
                    } else {
                        assert(raw_node_wf(&raw@[ri as int]));
                    }
                }
            }
            Some(out.len() - 1)
        } else {
            anc
        };
        proof {
            // the popped entry either stood alone for its node, which is
            // now emitted or noise, or the node has another stack entry
            assert forall|i: int|
                0 <= i < n && scheduled@[i] implies on_stack(stack@, i) || is_noise_role(
                (#[trigger] raw@[i]).role@,
            ) || (exists|k: int|
                0 <= k < out@.len() && node_copies(#[trigger] out@[k], raw@[i])) by {
                if i != ri && on_stack(st_before, i) {
                    let s = choose|s: int|
                        0 <= s < st_before.len() && (#[trigger] st_before[s]).0 == i;
                    if s < st_before.len() - 1 {
                        assert(stack@[s].0 == i);
                    }
                }
            }
        }
        // push the children in reverse so the first child is walked first;
        // an already scheduled child is never re-entered
        let mut ci: usize = node.child_ids.len();
        while ci > 0
            invariant
                n == raw@.len(),
                scheduled@.len() == n,
                ci <= node.child_ids@.len(),
                child_anc matches Some(a) ==> a < out@.len(),
                forall|k: int|
                    0 <= k < stack@.len() ==> (#[trigger] stack@[k]).0 < n && (
                    stack@[k].1 matches Some(a) ==> a < out@.len()),
                fuel as int >= stack@.len() + count_unscheduled(scheduled@),
                forall|ri2: int| 0 <= ri2 < n && is_root_spec(raw@, ri2) ==> scheduled@[ri2],
                forall|i: int|
                    0 <= i < n && scheduled@[i] ==> on_stack(stack@, i) || is_noise_role(
                        (#[trigger] raw@[i]).role@,
                    ) || (exists|k: int|
                        0 <= k < out@.len() && node_copies(#[trigger] out@[k], raw@[i])),
            decreases ci,
        {
            ci -= 1;
            match find_raw(raw, node.child_ids[ci].as_str()) {
                Some(cj) => {
                    if !scheduled[cj] {
                        let ghost st0 = stack@;
                        proof {
                            lemma_count_schedule(scheduled@, cj as int);
                        }
                        scheduled.set(cj, true);
                        stack.push((cj, child_anc));
                        proof {
                            assert forall|i: int|
                                0 <= i < n && scheduled@[i] implies on_stack(stack@, i)
                                || is_noise_role((#[trigger] raw@[i]).role@) || (exists|k: int|
                                0 <= k < out@.len() && node_copies(
                                    #[trigger] out@[k],
                                    raw@[i],
                                )) by {
                                if i == cj {
                                    assert(stack@[st0.len() as int].0 == i);
                                } else if on_stack(st0, i) {
                                    let s = choose|s: int|
                                        0 <= s < st0.len() && (#[trigger] st0[s]).0 == i;
                                    assert(stack@[s].0 == i);
                                }
                            }
                        }
                    }
                },
                None => {},
            }
        }
    }
    proof {
        assert forall|ri: int|
            0 <= ri < raw@.len() && is_root_spec(raw@, ri) && !is_noise_role(
                #[trigger] raw@[ri].role@,
            ) implies exists|k: int|
            0 <= k < out@.len() && node_copies(#[trigger] out@[k], raw@[ri]) by {
            assert(scheduled@[ri]);
            assert(!on_stack(stack@, ri));
        }
    }
    AxTree { nodes: out }
}

/// A freshly filled marker vector counts all its entries as unscheduled.
proof fn lemma_count_all_unscheduled(v: Seq<bool>)
    requires
        forall|i: int| 0 <= i < v.len() ==> !(#[trigger] v[i]),
    ensures
        count_unscheduled(v) == v.len(),
    decreases v.len(),
{
    if v.len() > 0 {
        assert(forall|i: int| 0 <= i < v.drop_last().len() ==> !(#[trigger] v.drop_last()[i]));
        lemma_count_all_unscheduled(v.drop_last());
    }
}

// ---------------------------------------------------------------------------
// Region of interest
// ---------------------------------------------------------------------------

/// A node that matches a region-of-interest query: its role contains the
/// role pattern, its name contains the name pattern ignoring ASCII case
/// when one is given, and it has bounds.
pub open spec fn node_matches_roi(
    n: &AxNode,
    role_pat: Seq<char>,
    name_pat: Option<Seq<char>>,
) -> bool {
    &&& seq_contains(n.role@, role_pat)
    &&& (match name_pat {
        None => true,
        Some(np) => match n.name {
            Some(nm) => seq_contains(lower_seq(nm@), lower_seq(np)),
            None => false,
        },
    })
    &&& n.bounds is Some
}

/// Whether one node matches the query.
fn node_matches_roi_exec(n: &AxNode, role_pat: &str, name_pat: Option<&str>) -> (r: bool)
    ensures
        r == node_matches_roi(
            n,
            role_pat@,
            match name_pat {
                Some(np) => Some(np@),
                None => None,
            },
        ),
{
    if !str_contains(n.role.as_str(), role_pat) {
        return false;
    }
    match name_pat {
        Some(np) => {
            match &n.name {
                Some(nm) => {
                    if !str_contains_ci(nm.as_str(), np) {
                        return false;
                    }
                },
                None => {
                    return false;
                },
            }
        },
        None => {},
    }
    n.bounds.is_some()
}

/// The union box of all nodes matching a query: `None` when nothing
/// matches, else the smallest box containing every matching node's box.
pub fn find_roi(tree: &AxTree, role_pattern: &str, name_pattern: Option<&str>) -> (r: Option<
    AxBounds,
>)
    requires
        ax_tree_wf(tree.nodes@),
    ensures
        ({
            let np = match name_pattern {
                Some(np) => Some(np@),
                None => None,
            };
            match r {
                None => forall|k: int|
                    0 <= k < tree.nodes@.len() ==> !node_matches_roi(
                        &#[trigger] tree.nodes@[k],
                        role_pattern@,
                        np,
                    ),
                Some(b) => {
                    &&& (exists|k: int|
                        0 <= k < tree.nodes@.len() && node_matches_roi(
                            &#[trigger] tree.nodes@[k],
                            role_pattern@,
                            np,
                        ))
                    &&& (forall|k: int|
                        0 <= k < tree.nodes@.len() && node_matches_roi(
                            &#[trigger] tree.nodes@[k],
                            role_pattern@,
                            np,
                        ) ==> {
                            let nb = tree.nodes@[k].bounds.unwrap();
                            b.x <= nb.x && b.y <= nb.y && b.x + b.width >= nb.x + nb.width && b.y
                                + b.height >= nb.y + nb.height
                        })
                    &&& (exists|k: int|
                        0 <= k < tree.nodes@.len() && node_matches_roi(
                            &#[trigger] tree.nodes@[k],
                            role_pattern@,
                            np,
                        ) && b.x == tree.nodes@[k].bounds.unwrap().x)
                    &&& (exists|k: int|
                        0 <= k < tree.nodes@.len() && node_matches_roi(
                            &#[trigger] tree.nodes@[k],
                            role_pattern@,
                            np,
                        ) && b.y == tree.nodes@[k].bounds.unwrap().y)
                    &&& (exists|k: int|
                        0 <= k < tree.nodes@.len() && node_matches_roi(
                            &#[trigger] tree.nodes@[k],
                            role_pattern@,
                            np,
                        ) && b.x + b.width == tree.nodes@[k].bounds.unwrap().x
                            + tree.nodes@[k].bounds.unwrap().width)
                    &&& (exists|k: int|
                        0 <= k < tree.nodes@.len() && node_matches_roi(
                            &#[trigger] tree.nodes@[k],
                            role_pattern@,
                            np,
                        ) && b.y + b.height == tree.nodes@[k].bounds.unwrap().y
                            + tree.nodes@[k].bounds.unwrap().height)
                },
            }
        }),
{
    let ghost np = match name_pattern {
        Some(np) => Some(np@),
        None => None,
    };
    let n = tree.nodes.len();
    let mut found = false;
    let mut min_x: i64 = 0;
    let mut min_y: i64 = 0;
    let mut max_x2: i64 = 0;
    let mut max_y2: i64 = 0;
    let mut k: usize = 0;
    while k < n
        invariant
            n == tree.nodes@.len(),
            ax_tree_wf(tree.nodes@),
            np == (match name_pattern {
                Some(v) => Some(v@),
                None => None,
            }),
            k <= n,
            !found ==> forall|t: int|
                0 <= t < k ==> !node_matches_roi(&#[trigger] tree.nodes@[t], role_pattern@, np),
            found ==> exists|t: int|
                0 <= t < k && node_matches_roi(&#[trigger] tree.nodes@[t], role_pattern@, np),
            found ==> -1_000_000_000 <= min_x <= 1_000_000_000 && -1_000_000_000 <= min_y
                <= 1_000_000_000 && -2_000_000_000 <= max_x2 <= 2_000_000_000 && -2_000_000_000
                <= max_y2 <= 2_000_000_000,
            found ==> forall|t: int|
                0 <= t < k && node_matches_roi(&#[trigger] tree.nodes@[t], role_pattern@, np)
                    ==> ({
                    let nb = tree.nodes@[t].bounds.unwrap();
                    min_x <= nb.x && min_y <= nb.y && max_x2 >= nb.x + nb.width && max_y2 >= nb.y
                        + nb.height
                }),
            found ==> exists|t: int|
                0 <= t < k && node_matches_roi(&#[trigger] tree.nodes@[t], role_pattern@, np)
                    && min_x == tree.nodes@[t].bounds.unwrap().x,
            found ==> exists|t: int|
                0 <= t < k && node_matches_roi(&#[trigger] tree.nodes@[t], role_pattern@, np)
                    && min_y == tree.nodes@[t].bounds.unwrap().y,
            found ==> exists|t: int|
                0 <= t < k && node_matches_roi(&#[trigger] tree.nodes@[t], role_pattern@, np)
                    && max_x2 == tree.nodes@[t].bounds.unwrap().x
                    + tree.nodes@[t].bounds.unwrap().width,
            found ==> exists|t: int|
                0 <= t < k && node_matches_roi(&#[trigger] tree.nodes@[t], role_pattern@, np)
                    && max_y2 == tree.nodes@[t].bounds.unwrap().y
                    + tree.nodes@[t].bounds.unwrap().height,
        decreases n - k,
    {
        let node = &tree.nodes[k];
        if node_matches_roi_exec(node, role_pattern, name_pattern) {
            let b = node.bounds.unwrap();
            let x2 = b.x + b.width;
            let y2 = b.y + b.height;
            if !found {
                found = true;
                min_x = b.x;
                min_y = b.y;
                max_x2 = x2;
                max_y2 = y2;
            } else {
                if b.x < min_x {
                    min_x = b.x;
                }
                if b.y < min_y {
                    min_y = b.y;
                }
                if x2 > max_x2 {
                    max_x2 = x2;
                }
                if y2 > max_y2 {
                    max_y2 = y2;
                }
            }
        }
        k += 1;
    }
    if found {
        Some(AxBounds { x: min_x, y: min_y, width: max_x2 - min_x, height: max_y2 - min_y })
    } else {
        None
    }
}

// ---------------------------------------------------------------------------
// Clickable counts
// ---------------------------------------------------------------------------

/// The roles whose count paces the think delay of a click.
pub open spec fn is_clickable_role(role: Seq<char>) -> bool {
    role == "button"@ || role == "link"@ || role == "textbox"@ || role == "checkbox"@ || role
        == "radio"@
}

/// The broader set of interactive roles used for cognitive pacing.
pub open spec fn is_interactive_role(role: Seq<char>) -> bool {
    is_clickable_role(role) || role == "menuitem"@ || role == "tab"@ || role == "option"@
}

/// Count of clickable-role nodes in a prefix.
pub open spec fn spec_count_clickable(nodes: Seq<AxNode>) -> nat
    decreases nodes.len(),
{
    if nodes.len() == 0 {
        0
    } else {
        spec_count_clickable(nodes.drop_last()) + if is_clickable_role(nodes.last().role@) {
            1nat
        } else {
            0nat
        }
    }
}

/// Count of interactive-role nodes in a prefix.
pub open spec fn spec_count_interactive(nodes: Seq<AxNode>) -> nat
    decreases nodes.len(),
{
    if nodes.len() == 0 {
        0
    } else {
        spec_count_interactive(nodes.drop_last()) + if is_interactive_role(nodes.last().role@) {
            1nat
        } else {
            0nat
        }
    }
}

/// Count the clickable-role nodes of a tree.
pub fn count_clickable(tree: &AxTree) -> (r: usize)
    ensures
        r == spec_count_clickable(tree.nodes@),
{
    let n = tree.nodes.len();
    let mut cnt: usize = 0;
    let mut k: usize = 0;
    while k < n
        invariant
            n == tree.nodes@.len(),
            k <= n,
            cnt <= k,
            cnt == spec_count_clickable(tree.nodes@.take(k as int)),
        decreases n - k,
    {
        let node = &tree.nodes[k];
        let is_c = str_eq(node.role.as_str(), "button") || str_eq(node.role.as_str(), "link")
            || str_eq(node.role.as_str(), "textbox") || str_eq(node.role.as_str(), "checkbox")
            || str_eq(node.role.as_str(), "radio");
        proof {
            assert(tree.nodes@.take(k + 1).drop_last() =~= tree.nodes@.take(k as int));
            assert(tree.nodes@.take(k + 1).last() == tree.nodes@[k as int]);
        }
        if is_c {
            cnt += 1;
        }
        k += 1;
    }
    proof {
        assert(tree.nodes@.take(n as int) =~= tree.nodes@);
    }
    cnt
}

/// Count the interactive-role nodes of a tree.
pub fn count_interactive(tree: &AxTree) -> (r: usize)
    ensures
        r == spec_count_interactive(tree.nodes@),
{
    let n = tree.nodes.len();
    let mut cnt: usize = 0;
    let mut k: usize = 0;
    while k < n
        invariant
            n == tree.nodes@.len(),
            k <= n,
            cnt <= k,
            cnt == spec_count_interactive(tree.nodes@.take(k as int)),
        decreases n - k,
    {
        let node = &tree.nodes[k];
        let is_c = str_eq(node.role.as_str(), "button") || str_eq(node.role.as_str(), "link")
            || str_eq(node.role.as_str(), "textbox") || str_eq(node.role.as_str(), "checkbox")
            || str_eq(node.role.as_str(), "radio") || str_eq(node.role.as_str(), "menuitem")
            || str_eq(node.role.as_str(), "tab") || str_eq(node.role.as_str(), "option");
        proof {
            assert(tree.nodes@.take(k + 1).drop_last() =~= tree.nodes@.take(k as int));
            assert(tree.nodes@.take(k + 1).last() == tree.nodes@[k as int]);
        }
        if is_c {
            cnt += 1;
        }
        k += 1;
    }
    proof {
        assert(tree.nodes@.take(n as int) =~= tree.nodes@);
    }
    cnt
}

// ---------------------------------------------------------------------------
// Engine health
// ---------------------------------------------------------------------------

/// What the in-page probe reports about the automation marker.
pub struct EngineProbe {
    /// The `typeof` of the marker property.
    pub type_of: String,
    /// Whether the marker's value is absent.
    pub value_absent: bool,
    /// The `toString()` of the marker's getter, when one exists.
    pub to_string_signature: Option<String>,
}

/// The engine is clean iff the marker's `typeof` is "undefined" and its
/// value is absent. A startup that sees an unclean engine must abort:
/// no mission on a leaking engine can be trusted.
pub fn engine_clean(probe: &EngineProbe) -> (r: bool)
    ensures
        r == (probe.type_of@ == "undefined"@ && probe.value_absent),
{
    str_eq(probe.type_of.as_str(), "undefined") && probe.value_absent
}

/// A getter whose `toString()` does not show native code suggests a
/// wrapped property. The warning is advisory: a getter defined from a
/// user script never shows a native signature, so only the `typeof` check
/// above decides cleanliness.
pub fn tostring_wrapped_warning(probe: &EngineProbe) -> (r: bool)
    ensures
        r == (probe.to_string_signature matches Some(sig) && !seq_contains(
            sig@,
            "native code"@,
        ) && !seq_contains(sig@, "error"@)),
{
    match &probe.to_string_signature {
        Some(sig) => !str_contains(sig.as_str(), "native code") && !str_contains(
            sig.as_str(),
            "error",
        ),
        None => false,
    }
}

// ---------------------------------------------------------------------------
// Fused state
// ---------------------------------------------------------------------------

/// The dual-sense capture of one instant: raster and semantic.
pub struct FusionState {
    /// PNG bytes of the screenshot.
    pub screenshot: Vec<u8>,
    /// The accessibility tree of the same instant.
    pub ax_tree: AxTree,
}

/// A node equals a find query: same role, and same name when one is asked.
pub open spec fn node_matches_find(n: &AxNode, role: Seq<char>, name: Option<Seq<char>>) -> bool {
    &&& n.role@ == role
    &&& (match name {
        None => true,
        Some(nm) => match n.name {
            Some(v) => v@ == nm,
            None => false,
        },
    })
}

impl FusionState {
    /// Find the first node with the given role and, when given, name.
    pub fn find_node(&self, role: &str, name: Option<&str>) -> (r: Option<usize>)
        ensures
            ({
                let nm = match name {
                    Some(v) => Some(v@),
                    None => None,
                };
                match r {
                    Some(j) => j < self.ax_tree.nodes@.len() && node_matches_find(
                        &self.ax_tree.nodes@[j as int],
                        role@,
                        nm,
                    ) && forall|t: int|
                        0 <= t < j ==> !node_matches_find(
                            &#[trigger] self.ax_tree.nodes@[t],
                            role@,
                            nm,
                        ),
                    None => forall|t: int|
                        0 <= t < self.ax_tree.nodes@.len() ==> !node_matches_find(
                            &#[trigger] self.ax_tree.nodes@[t],
                            role@,
                            nm,
                        ),
                }
            }),
    {
        let ghost nm = match name {
            Some(v) => Some(v@),
            None => None,
        };
        let n = self.ax_tree.nodes.len();
        let mut k: usize = 0;
        while k < n
            invariant
                n == self.ax_tree.nodes@.len(),
                nm == (match name {
                    Some(v) => Some(v@),
                    None => None,
                }),
                k <= n,
                forall|t: int|
                    0 <= t < k ==> !node_matches_find(&#[trigger] self.ax_tree.nodes@[t], role@, nm),
            decreases n - k,
        {
            let node = &self.ax_tree.nodes[k];
            let role_ok = str_eq(node.role.as_str(), role);
            let name_ok = match name {
                None => true,
                Some(v) => match &node.name {
                    Some(nv) => str_eq(nv.as_str(), v),
                    None => false,
                },
            };
            if role_ok && name_ok {
                return Some(k);
            }
            k += 1;
        }
        None
    }

    /// Center coordinates of the first node matching the query, when that
    /// node has bounds.
    pub fn get_coordinates(&self, role: &str, name: Option<&str>) -> (r: Option<(i64, i64)>)
        requires
            ax_tree_wf(self.ax_tree.nodes@),
        ensures
            ({
                let nm = match name {
                    Some(v) => Some(v@),
                    None => None,
                };
                match r {
                    Some((x, y)) => exists|j: int|
                        0 <= j < self.ax_tree.nodes@.len() && node_matches_find(
                            &#[trigger] self.ax_tree.nodes@[j],
                            role@,
                            nm,
                        ) && (self.ax_tree.nodes@[j].bounds matches Some(nb) && x == nb.x
                            + nb.width / 2 && y == nb.y + nb.height / 2),
                    None => true,
                }
            }),
    {
        match self.find_node(role, name) {
            Some(j) => {
                let node = &self.ax_tree.nodes[j];
                match node.bounds {
                    Some(b) => Some((b.x + b.width / 2, b.y + b.height / 2)),
                    None => None,
                }
            },
            None => None,
        }
    }

    /// Whether a node matching the query exists.
    pub fn has_element(&self, role: &str, name: Option<&str>) -> (r: bool)
        ensures
            ({
                let nm = match name {
                    Some(v) => Some(v@),
                    None => None,
                };
                r == exists|t: int|
                    0 <= t < self.ax_tree.nodes@.len() && node_matches_find(
                        &#[trigger] self.ax_tree.nodes@[t],
                        role@,
                        nm,
                    )
            }),
    {
        self.find_node(role, name).is_some()
    }
}

} // verus!
