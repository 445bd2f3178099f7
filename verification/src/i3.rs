//! Windows as the i3 window manager arranges them, and the commands that it takes.

use vstd::prelude::*;

use crate::atoms;
use crate::layout;
use crate::text;
use crate::windows;
use crate::windows::{WindowGeometry, WindowInfo};
use crate::x11;
use crate::x11::{Extent, Question, Reply, WindowAttributes};

verus! {

/// How long a workspace takes to settle before one of its windows is focused, in milliseconds.
pub const WORKSPACE_PAUSE_MS: u64 = 60;

/// How long to wait after a window is focused, in milliseconds.
pub const FOCUS_PAUSE_MS: u64 = 40;

/// A workspace as i3 lists it.
#[derive(Debug)]
pub struct WorkspaceEntry {
    pub name: String,
    /// The number, or a negative one for a workspace that has none.
    pub num: i32,
    pub focused: bool,
}

/// A workspace that windows stand on.
#[derive(Debug)]
pub struct WorkspaceInfo {
    pub name: String,
    pub num: Option<i32>,
}

/// A container in the tree that i3 arranges.
#[derive(Debug)]
pub struct TreeNode {
    pub id: i64,
    pub name: Option<String>,
    /// The container is a workspace.
    pub is_workspace: bool,
    /// The X11 window inside, if there is one.
    pub window: Option<i32>,
    pub x: i32,
    pub y: i32,
    pub title: Option<String>,
    pub instance: Option<String>,
    pub class: Option<String>,
    pub urgent: bool,
    pub focused: bool,
    pub nodes: Vec<TreeNode>,
    pub floating_nodes: Vec<TreeNode>,
}

/// A window of the tree, with the workspace that it stands on.
#[derive(Debug)]
pub struct Candidate {
    pub window: u32,
    pub con_id: i64,
    pub x: i16,
    pub y: i16,
    pub name: Option<String>,
    pub title: Option<String>,
    pub instance: Option<String>,
    pub class: Option<String>,
    pub workspace: String,
    pub workspace_num: Option<i32>,
    pub tree_order: usize,
    pub urgent: bool,
    pub focused: bool,
}

/// A signed 32-bit number read as an unsigned one.
pub open spec fn unsigned(number: i32) -> int {
    if number < 0 {
        number + 0x1_0000_0000
    } else {
        number as int
    }
}

/// The low sixteen bits of a number, read as a signed one.
pub open spec fn low_bits(number: i32) -> int {
    layout::wrapped(number as int % 0x1_0000)
}

fn window_number(number: i32) -> (window: u32)
    ensures
        window == unsigned(number),
{
    if number < 0 {
        (number as i64 + 0x1_0000_0000) as u32
    } else {
        number as u32
    }
}

fn coordinate(number: i32) -> (result: i16)
    ensures
        result == low_bits(number),
{
    let shifted: u64 = (number as i64 + 0x8000_0000) as u64;
    let low: u16 = (shifted % 0x1_0000) as u16;
    assert((number + 0x8000_0000) % 0x1_0000 == number as int % 0x1_0000);
    layout::wrap(low)
}

/// The workspace of an entry: a negative number is none.
pub open spec fn workspace_of(entry: WorkspaceEntry) -> WorkspaceInfo {
    WorkspaceInfo {
        name: entry.name,
        num: if entry.num >= 0 {
            Some(entry.num)
        } else {
            None
        },
    }
}

/// The workspace of that name, and the last one where several have it.
pub open spec fn workspace_named(
    entries: Seq<WorkspaceEntry>,
    name: Seq<char>,
) -> Option<WorkspaceInfo>
    decreases entries.len(),
{
    if entries.len() == 0 {
        None
    } else if entries.last().name@ == name {
        Some(workspace_of(entries.last()))
    } else {
        workspace_named(entries.drop_last(), name)
    }
}

fn find_workspace(entries: &Vec<WorkspaceEntry>, name: &str) -> (found: Option<WorkspaceInfo>)
    ensures
        found == workspace_named(entries@, name@),
{
    let mut i: usize = entries.len();
    assert(entries@.take(i as int) =~= entries@);
    while i > 0
        invariant
            i <= entries@.len(),
            workspace_named(entries@, name@) == workspace_named(entries@.take(i as int), name@),
        decreases i,
    {
        i -= 1;
        assert(entries@.take(i + 1).drop_last() =~= entries@.take(i as int));
        let entry: &WorkspaceEntry = &entries[i];
        if text::same_text(entry.name.as_str(), name) {
            let num: Option<i32> = if entry.num >= 0 {
                Some(entry.num)
            } else {
                None
            };
            return Some(WorkspaceInfo { name: entry.name.clone(), num });
        }
    }
    None
}

/// The first workspace that has the focus.
pub open spec fn focused_name(entries: Seq<WorkspaceEntry>) -> Option<Seq<char>>
    decreases entries.len(),
{
    if entries.len() == 0 {
        None
    } else if entries[0].focused {
        Some(entries[0].name@)
    } else {
        focused_name(entries.skip(1))
    }
}

/// The name of the workspace that has the focus.
pub fn current_workspace(entries: &Vec<WorkspaceEntry>) -> (name: Option<String>)
    ensures
        text::option_view(name) == focused_name(entries@),
{
    let mut i: usize = 0;
    assert(entries@.skip(0) =~= entries@);
    while i < entries.len()
        invariant
            i <= entries@.len(),
            focused_name(entries@) == focused_name(entries@.skip(i as int)),
        decreases entries@.len() - i,
    {
        assert(entries@.skip(i as int).skip(1) =~= entries@.skip(i + 1));
        if entries[i].focused {
            return Some(entries[i].name.clone());
        }
        i += 1;
    }
    None
}

impl Clone for WorkspaceInfo {
    fn clone(&self) -> (copy: Self)
        ensures
            copy == *self,
    {
        WorkspaceInfo { name: self.name.clone(), num: self.num }
    }
}

impl TreeNode {
    /// The workspace that the container and what it holds stand on: its own where it is one, if
    /// i3 lists it and does not keep it for itself, and that of its parent otherwise.
    pub open spec fn workspace(
        self,
        entries: Seq<WorkspaceEntry>,
        outer: Option<WorkspaceInfo>,
    ) -> Option<WorkspaceInfo> {
        if !self.is_workspace {
            outer
        } else {
            match self.name {
                Some(name) => {
                    if text::has_prefix(name@, "__i3"@) {
                        None
                    } else {
                        workspace_named(entries, name@)
                    }
                },
                None => None,
            }
        }
    }

    /// The candidate that the container's window makes.
    pub open spec fn candidate(
        self,
        window: i32,
        workspace: WorkspaceInfo,
        order: nat,
    ) -> Candidate {
        Candidate {
            window: unsigned(window) as u32,
            con_id: self.id,
            x: low_bits(self.x) as i16,
            y: low_bits(self.y) as i16,
            name: self.name,
            title: self.title,
            instance: self.instance,
            class: self.class,
            workspace: workspace.name,
            workspace_num: workspace.num,
            tree_order: order as usize,
            urgent: self.urgent,
            focused: self.focused,
        }
    }
}

/// The candidates below a container, after those that were found before: its own window, then
/// the windows tiled inside, then those that float.
pub open spec fn collected(
    node: TreeNode,
    entries: Seq<WorkspaceEntry>,
    outer: Option<WorkspaceInfo>,
    found: Seq<Candidate>,
) -> Seq<Candidate>
    decreases node,
{
    let workspace = node.workspace(entries, outer);
    let own = match (workspace, node.window) {
        (Some(place), Some(window)) => found.push(node.candidate(window, place, found.len())),
        _ => found,
    };
    let tiled = collected_all(node.nodes@, entries, workspace, own);
    collected_all(node.floating_nodes@, entries, workspace, tiled)
}

/// The candidates below containers, after those that were found before.
pub open spec fn collected_all(
    nodes: Seq<TreeNode>,
    entries: Seq<WorkspaceEntry>,
    outer: Option<WorkspaceInfo>,
    found: Seq<Candidate>,
) -> Seq<Candidate>
    decreases nodes,
{
    if nodes.len() == 0 {
        found
    } else {
        let before = collected_all(nodes.drop_last(), entries, outer, found);
        collected(nodes.last(), entries, outer, before)
    }
}

fn copy_workspace(workspace: &Option<WorkspaceInfo>) -> (copy: Option<WorkspaceInfo>)
    ensures
        copy == *workspace,
{
    match workspace {
        Some(place) => Some(place.clone()),
        None => None,
    }
}

fn workspace_for(
    node: &TreeNode,
    entries: &Vec<WorkspaceEntry>,
    outer: &Option<WorkspaceInfo>,
) -> (workspace: Option<WorkspaceInfo>)
    ensures
        workspace == node.workspace(entries@, *outer),
{
    if !node.is_workspace {
        return copy_workspace(outer);
    }
    match &node.name {
        Some(name) => {
            if text::starts_with(name.as_str(), "__i3") {
                None
            } else {
                find_workspace(entries, name.as_str())
            }
        },
        None => None,
    }
}

fn collect_into(
    node: &TreeNode,
    entries: &Vec<WorkspaceEntry>,
    outer: &Option<WorkspaceInfo>,
    found: &mut Vec<Candidate>,
)
    ensures
        final(found)@ == collected(*node, entries@, *outer, old(found)@),
    decreases node,
{
    let workspace: Option<WorkspaceInfo> = workspace_for(node, entries, outer);
    match (&workspace, node.window) {
        (Some(place), Some(window)) => {
            let tree_order: usize = found.len();
            found.push(
                Candidate {
                    window: window_number(window),
                    con_id: node.id,
                    x: coordinate(node.x),
                    y: coordinate(node.y),
                    name: text::copy_option(&node.name),
                    title: text::copy_option(&node.title),
                    instance: text::copy_option(&node.instance),
                    class: text::copy_option(&node.class),
                    workspace: place.name.clone(),
                    workspace_num: place.num,
                    tree_order,
                    urgent: node.urgent,
                    focused: node.focused,
                },
            );
        },
        _ => {},
    }
    let ghost own = found@;
    let mut i: usize = 0;
    assert(node.nodes@.take(0) =~= seq![]);
    while i < node.nodes.len()
        invariant
            i <= node.nodes@.len(),
            found@ == collected_all(node.nodes@.take(i as int), entries@, workspace, own),
        decreases node.nodes@.len() - i,
    {
        assert(node.nodes@.take(i + 1).drop_last() =~= node.nodes@.take(i as int));
        collect_into(&node.nodes[i], entries, &workspace, found);
        i += 1;
    }
    assert(node.nodes@.take(i as int) =~= node.nodes@);
    let ghost tiled = found@;
    let mut j: usize = 0;
    assert(node.floating_nodes@.take(0) =~= seq![]);
    while j < node.floating_nodes.len()
        invariant
            j <= node.floating_nodes@.len(),
            found@ == collected_all(
                node.floating_nodes@.take(j as int),
                entries@,
                workspace,
                tiled,
            ),
        decreases node.floating_nodes@.len() - j,
    {
        assert(node.floating_nodes@.take(j + 1).drop_last() =~= node.floating_nodes@.take(
            j as int,
        ));
        collect_into(&node.floating_nodes[j], entries, &workspace, found);
        j += 1;
    }
    assert(node.floating_nodes@.take(j as int) =~= node.floating_nodes@);
}

/// The windows of the tree, in the order in which the tree holds them.
pub fn collect_candidates(tree: &TreeNode, entries: &Vec<WorkspaceEntry>) -> (found: Vec<Candidate>)
    ensures
        found@ == collected(*tree, entries@, None, seq![]),
{
    let mut found: Vec<Candidate> = Vec::new();
    assert(found@ =~= seq![]);
    collect_into(tree, entries, &None, &mut found);
    found
}

/// The candidates carry their place in the list.
pub open spec fn numbered(found: Seq<Candidate>) -> bool {
    forall|i: int| 0 <= i < found.len() ==> (#[trigger] found[i]).tree_order == i
}

/// i3 lists a workspace of that name, and does not keep it for itself.
pub open spec fn known(name: String, entries: Seq<WorkspaceEntry>) -> bool {
    &&& exists|e: int| 0 <= e < entries.len() && (#[trigger] entries[e]).name == name
    &&& !text::has_prefix(name@, "__i3"@)
}

/// Every candidate stands on a workspace that i3 lists and does not keep for itself.
pub open spec fn placed(found: Seq<Candidate>, entries: Seq<WorkspaceEntry>) -> bool {
    forall|i: int| 0 <= i < found.len() ==> known((#[trigger] found[i]).workspace, entries)
}

proof fn lemma_named_is_known(entries: Seq<WorkspaceEntry>, name: Seq<char>)
    requires
        !text::has_prefix(name, "__i3"@),
    ensures
        workspace_named(entries, name) is Some ==> {
            &&& workspace_named(entries, name)->0.name@ == name
            &&& known(workspace_named(entries, name)->0.name, entries)
        },
    decreases entries.len(),
{
    if entries.len() > 0 {
        let rest = entries.drop_last();
        lemma_named_is_known(rest, name);
        let found = workspace_named(entries, name);
        if entries.last().name@ == name {
            assert(entries[entries.len() - 1].name == found->0.name);
        } else if found is Some {
            let e = choose|e: int|
                0 <= e < rest.len() && (#[trigger] rest[e]).name == found->0.name;
            assert(entries[e].name == found->0.name);
        }
    }
}

proof fn lemma_collected_keeps(
    node: TreeNode,
    entries: Seq<WorkspaceEntry>,
    outer: Option<WorkspaceInfo>,
    found: Seq<Candidate>,
)
    requires
        outer is Some ==> known(outer->0.name, entries),
        placed(found, entries),
    ensures
        placed(collected(node, entries, outer, found), entries),
        collected(node, entries, outer, found).len() >= found.len(),
    decreases node,
{
    let workspace = node.workspace(entries, outer);
    if node.is_workspace && node.name is Some && !text::has_prefix(node.name->0@, "__i3"@) {
        lemma_named_is_known(entries, node.name->0@);
    }
    let own = match (workspace, node.window) {
        (Some(place), Some(window)) => found.push(node.candidate(window, place, found.len())),
        _ => found,
    };
    assert forall|i: int| 0 <= i < own.len() implies known(
        (#[trigger] own[i]).workspace,
        entries,
    ) by {
        if i < found.len() {
            assert(own[i] == found[i]);
        }
    }
    lemma_collected_all_keeps(node.nodes@, entries, workspace, own);
    let tiled = collected_all(node.nodes@, entries, workspace, own);
    lemma_collected_all_keeps(node.floating_nodes@, entries, workspace, tiled);
}

proof fn lemma_collected_all_keeps(
    nodes: Seq<TreeNode>,
    entries: Seq<WorkspaceEntry>,
    outer: Option<WorkspaceInfo>,
    found: Seq<Candidate>,
)
    requires
        outer is Some ==> known(outer->0.name, entries),
        placed(found, entries),
    ensures
        placed(collected_all(nodes, entries, outer, found), entries),
        collected_all(nodes, entries, outer, found).len() >= found.len(),
    decreases nodes,
{
    if nodes.len() > 0 {
        lemma_collected_all_keeps(nodes.drop_last(), entries, outer, found);
        let before = collected_all(nodes.drop_last(), entries, outer, found);
        lemma_collected_keeps(nodes.last(), entries, outer, before);
    }
}

/// Only windows on a workspace that i3 lists are taken, and none that i3 keeps for itself, such
/// as the scratchpad.
pub proof fn law_candidates_stand_on_listed_workspaces(
    tree: TreeNode,
    entries: Seq<WorkspaceEntry>,
)
    ensures
        placed(collected(tree, entries, None, seq![]), entries),
{
    lemma_collected_keeps(tree, entries, None, seq![]);
}

proof fn lemma_collected_numbered(
    node: TreeNode,
    entries: Seq<WorkspaceEntry>,
    outer: Option<WorkspaceInfo>,
    found: Seq<Candidate>,
)
    requires
        numbered(found),
        collected(node, entries, outer, found).len() <= usize::MAX,
    ensures
        numbered(collected(node, entries, outer, found)),
        collected(node, entries, outer, found).len() >= found.len(),
    decreases node,
{
    let workspace = node.workspace(entries, outer);
    let own = match (workspace, node.window) {
        (Some(place), Some(window)) => found.push(node.candidate(window, place, found.len())),
        _ => found,
    };
    let tiled = collected_all(node.nodes@, entries, workspace, own);
    lemma_collected_all_grows(node.nodes@, entries, workspace, own);
    lemma_collected_all_grows(node.floating_nodes@, entries, workspace, tiled);
    lemma_collected_all_numbered(node.nodes@, entries, workspace, own);
    lemma_collected_all_numbered(node.floating_nodes@, entries, workspace, tiled);
}

proof fn lemma_collected_all_numbered(
    nodes: Seq<TreeNode>,
    entries: Seq<WorkspaceEntry>,
    outer: Option<WorkspaceInfo>,
    found: Seq<Candidate>,
)
    requires
        numbered(found),
        collected_all(nodes, entries, outer, found).len() <= usize::MAX,
    ensures
        numbered(collected_all(nodes, entries, outer, found)),
    decreases nodes,
{
    if nodes.len() > 0 {
        let before = collected_all(nodes.drop_last(), entries, outer, found);
        lemma_collected_grows(nodes.last(), entries, outer, before);
        lemma_collected_all_numbered(nodes.drop_last(), entries, outer, found);
        lemma_collected_numbered(nodes.last(), entries, outer, before);
    }
}

proof fn lemma_collected_grows(
    node: TreeNode,
    entries: Seq<WorkspaceEntry>,
    outer: Option<WorkspaceInfo>,
    found: Seq<Candidate>,
)
    ensures
        collected(node, entries, outer, found).len() >= found.len(),
    decreases node,
{
    let workspace = node.workspace(entries, outer);
    let own = match (workspace, node.window) {
        (Some(place), Some(window)) => found.push(node.candidate(window, place, found.len())),
        _ => found,
    };
    let tiled = collected_all(node.nodes@, entries, workspace, own);
    lemma_collected_all_grows(node.nodes@, entries, workspace, own);
    lemma_collected_all_grows(node.floating_nodes@, entries, workspace, tiled);
}

proof fn lemma_collected_all_grows(
    nodes: Seq<TreeNode>,
    entries: Seq<WorkspaceEntry>,
    outer: Option<WorkspaceInfo>,
    found: Seq<Candidate>,
)
    ensures
        collected_all(nodes, entries, outer, found).len() >= found.len(),
    decreases nodes,
{
    if nodes.len() > 0 {
        lemma_collected_all_grows(nodes.drop_last(), entries, outer, found);
        let before = collected_all(nodes.drop_last(), entries, outer, found);
        lemma_collected_grows(nodes.last(), entries, outer, before);
    }
}

/// The windows of the tree are numbered in the order in which the tree holds them.
pub proof fn law_candidates_are_numbered(tree: TreeNode, entries: Seq<WorkspaceEntry>)
    requires
        collected(tree, entries, None, seq![]).len() <= usize::MAX,
    ensures
        numbered(collected(tree, entries, None, seq![])),
{
    lemma_collected_numbered(tree, entries, None, seq![]);
}

/// A container's child: the tiled ones come first, then those that float.
pub open spec fn child(node: TreeNode, step: int) -> TreeNode {
    if step < node.nodes@.len() {
        node.nodes@[step]
    } else {
        node.floating_nodes@[step - node.nodes@.len()]
    }
}

/// The steps lead from a container down to one below it, or to itself where there is none.
pub open spec fn leads_down(node: TreeNode, path: Seq<int>) -> bool
    decreases path.len(),
{
    path.len() > 0 ==> {
        &&& 0 <= path[0] < node.nodes@.len() + node.floating_nodes@.len()
        &&& leads_down(child(node, path[0]), path.skip(1))
    }
}

/// The container that the steps lead to.
pub open spec fn reached(node: TreeNode, path: Seq<int>) -> TreeNode
    decreases path.len(),
{
    if path.len() == 0 {
        node
    } else {
        reached(child(node, path[0]), path.skip(1))
    }
}

/// The nearest workspace on the way to a container, itself included; `outer` is the nearest one
/// around where the way begins.
pub open spec fn nearest_workspace(
    node: TreeNode,
    path: Seq<int>,
    outer: Option<TreeNode>,
) -> Option<TreeNode>
    decreases path.len(),
{
    let own = if node.is_workspace {
        Some(node)
    } else {
        outer
    };
    if path.len() == 0 {
        own
    } else {
        nearest_workspace(child(node, path[0]), path.skip(1), own)
    }
}

/// The way `a` leads to a container that the tree holds before that of `b`.
pub open spec fn earlier(a: Seq<int>, b: Seq<int>) -> bool
    decreases b.len(),
{
    b.len() > 0 && (a.len() == 0 || a[0] < b[0] || (a[0] == b[0] && earlier(a.skip(1), b.skip(1))))
}

/// i3 lists the workspace and does not keep it for itself.
pub open spec fn is_listed(workspace: Option<TreeNode>, entries: Seq<WorkspaceEntry>) -> bool {
    &&& workspace matches Some(place)
    &&& place.name matches Some(name)
    &&& !text::has_prefix(name@, "__i3"@)
    &&& exists|e: int| 0 <= e < entries.len() && (#[trigger] entries[e]).name@ == name@
}

/// The candidate is that of a container on a workspace.
pub open spec fn is_made_from(
    candidate: Candidate,
    node: TreeNode,
    workspace: Option<TreeNode>,
    entries: Seq<WorkspaceEntry>,
) -> bool {
    &&& node.window matches Some(window)
    &&& candidate.window == window || candidate.window == window + 0x1_0000_0000
    &&& candidate.con_id == node.id
    &&& (node.x - candidate.x) % 0x1_0000 == 0
    &&& (node.y - candidate.y) % 0x1_0000 == 0
    &&& candidate.name == node.name
    &&& candidate.title == node.title
    &&& candidate.instance == node.instance
    &&& candidate.class == node.class
    &&& candidate.urgent == node.urgent
    &&& candidate.focused == node.focused
    &&& workspace matches Some(place)
    &&& place.name matches Some(name)
    &&& candidate.workspace@ == name@
    &&& exists|e: int|
        {
            &&& 0 <= e < entries.len()
            &&& (#[trigger] entries[e]).name@ == name@
            &&& entries[e].num >= 0 ==> candidate.workspace_num == Some(entries[e].num)
            &&& entries[e].num < 0 ==> candidate.workspace_num is None
            &&& forall|later: int|
                e < later < entries.len() ==> (#[trigger] entries[later]).name@ != name@
        }
}

/// The workspace that windows below a container stand on.
spec fn place_of(workspace: Option<TreeNode>, entries: Seq<WorkspaceEntry>) -> Option<
    WorkspaceInfo,
> {
    match workspace {
        Some(place) => place.workspace(entries, None),
        None => None,
    }
}

proof fn lemma_last_named(entries: Seq<WorkspaceEntry>, name: Seq<char>) -> (e: int)
    ensures
        match workspace_named(entries, name) {
            Some(place) => {
                &&& 0 <= e < entries.len()
                &&& entries[e].name@ == name
                &&& place == workspace_of(entries[e])
                &&& forall|later: int|
                    e < later < entries.len() ==> (#[trigger] entries[later]).name@ != name
            },
            None => forall|i: int|
                0 <= i < entries.len() ==> (#[trigger] entries[i]).name@ != name,
        },
    decreases entries.len(),
{
    if entries.len() == 0 {
        0
    } else if entries.last().name@ == name {
        entries.len() - 1
    } else {
        let rest = entries.drop_last();
        let e = lemma_last_named(rest, name);
        assert forall|i: int| 0 <= i < entries.len() - 1 implies #[trigger] entries[i]
            == rest[i] by {}
        e
    }
}

/// Of the ways to the children of a container that are numbered from `base` on.
spec fn are_ways_below(
    paths: Seq<Seq<int>>,
    nodes: Seq<TreeNode>,
    base: int,
    entries: Seq<WorkspaceEntry>,
    outer: Option<TreeNode>,
    found: Seq<Candidate>,
) -> bool {
    &&& found.len() == paths.len()
    &&& forall|i: int|
        0 <= i < paths.len() ==> {
            let path = #[trigger] paths[i];
            &&& path.len() > 0
            &&& base <= path[0] < base + nodes.len()
            &&& leads_down(nodes[path[0] - base], path.skip(1))
            &&& is_made_from(
                found[i],
                reached(nodes[path[0] - base], path.skip(1)),
                nearest_workspace(nodes[path[0] - base], path.skip(1), outer),
                entries,
            )
        }
    &&& forall|path: Seq<int>|
        {
            &&& path.len() > 0
            &&& base <= path[0] < base + nodes.len()
            &&& leads_down(nodes[path[0] - base], path.skip(1))
            &&& reached(nodes[path[0] - base], path.skip(1)).window is Some
            &&& is_listed(
                nearest_workspace(nodes[path[0] - base], path.skip(1), outer),
                entries,
            )
        } ==> #[trigger] paths.contains(path)
    &&& forall|i: int, j: int|
        0 <= i < j < paths.len() ==> earlier(#[trigger] paths[i], #[trigger] paths[j])
}

/// Of the ways from a container to itself and those below it.
spec fn are_ways_from(
    paths: Seq<Seq<int>>,
    node: TreeNode,
    entries: Seq<WorkspaceEntry>,
    outer: Option<TreeNode>,
    found: Seq<Candidate>,
) -> bool {
    &&& found.len() == paths.len()
    &&& forall|i: int|
        0 <= i < paths.len() ==> {
            let path = #[trigger] paths[i];
            &&& leads_down(node, path)
            &&& is_made_from(
                found[i],
                reached(node, path),
                nearest_workspace(node, path, outer),
                entries,
            )
        }
    &&& forall|path: Seq<int>|
        {
            &&& leads_down(node, path)
            &&& reached(node, path).window is Some
            &&& is_listed(nearest_workspace(node, path, outer), entries)
        } ==> #[trigger] paths.contains(path)
    &&& forall|i: int, j: int|
        0 <= i < j < paths.len() ==> earlier(#[trigger] paths[i], #[trigger] paths[j])
}

/// A container that a workspace is listed for makes a candidate, and no other does.
proof fn lemma_own_window(
    node: TreeNode,
    entries: Seq<WorkspaceEntry>,
    outer: Option<TreeNode>,
    order: nat,
)
    requires
        outer is Some ==> outer->0.is_workspace,
    ensures
        ({
            let own = nearest_workspace(node, seq![], outer);
            let place = node.workspace(entries, place_of(outer, entries));
            &&& place == place_of(own, entries)
            &&& own is Some ==> own->0.is_workspace
            &&& place is Some <==> is_listed(own, entries)
            &&& place is Some && node.window is Some ==> is_made_from(
                node.candidate(node.window->0, place->0, order),
                node,
                own,
                entries,
            )
        }),
{
    let own = nearest_workspace(node, seq![], outer);
    let place = node.workspace(entries, place_of(outer, entries));
    if own is Some && own->0.name is Some {
        let name = own->0.name->0@;
        let e = lemma_last_named(entries, name);
        if place is Some {
            assert(entries[e].name@ == name);
        }
    }
    assert((node.x - low_bits(node.x)) % 0x1_0000 == 0);
    assert((node.y - low_bits(node.y)) % 0x1_0000 == 0);
}

#[verifier::spinoff_prover]
#[verifier::rlimit(60)]
proof fn lemma_ways_from(
    node: TreeNode,
    entries: Seq<WorkspaceEntry>,
    outer: Option<TreeNode>,
    found: Seq<Candidate>,
) -> (paths: Seq<Seq<int>>)
    requires
        outer is Some ==> outer->0.is_workspace,
    ensures
        collected(node, entries, place_of(outer, entries), found).len() >= found.len(),
        collected(node, entries, place_of(outer, entries), found).take(found.len() as int)
            == found,
        are_ways_from(
            paths,
            node,
            entries,
            outer,
            collected(node, entries, place_of(outer, entries), found).skip(found.len() as int),
        ),
    decreases node,
{
    let before = place_of(outer, entries);
    let all = collected(node, entries, before, found);
    let place = node.workspace(entries, before);
    let none = Seq::<int>::empty();
    let own = nearest_workspace(node, seq![], outer);
    lemma_own_window(node, entries, outer, found.len());
    let makes = place is Some && node.window is Some;
    let first = if makes {
        found.push(node.candidate(node.window->0, place->0, found.len()))
    } else {
        found
    };
    let count = node.nodes@.len();
    let tiled = collected_all(node.nodes@, entries, place, first);
    let own_paths: Seq<Seq<int>> = if makes {
        seq![none]
    } else {
        seq![]
    };
    let tiled_paths = lemma_ways_below(node.nodes@, 0, entries, own, first);
    let floating_paths = lemma_ways_below(
        node.floating_nodes@,
        count as int,
        entries,
        own,
        tiled,
    );
    let paths = own_paths + tiled_paths + floating_paths;
    let start = found.len() as int;
    assert(all.take(start) =~= found) by {
        assert(tiled =~= all.take(tiled.len() as int));
        assert(first =~= tiled.take(first.len() as int));
        assert(found =~= first.take(start));
    }
    let news = all.skip(start);
    let below = own_paths.len() as int;
    assert forall|i: int| 0 <= i < paths.len() implies {
        let path = #[trigger] paths[i];
        &&& leads_down(node, path)
        &&& is_made_from(
            news[i],
            reached(node, path),
            nearest_workspace(node, path, outer),
            entries,
        )
    } by {
        let path = paths[i];
        if i < below {
            assert(first =~= all.take(first.len() as int)) by {
                assert(tiled =~= all.take(tiled.len() as int));
                assert(first =~= tiled.take(first.len() as int));
            }
            assert(path == none);
            assert(news[i] == first[start]);
        } else if i < below + tiled_paths.len() {
            let k = i - below;
            assert(path == tiled_paths[k]);
            assert(news[i] == tiled.skip(first.len() as int)[k]) by {
                assert(tiled =~= all.take(tiled.len() as int));
            }
            assert(child(node, path[0]) == node.nodes@[path[0]]);
        } else {
            let k = i - below - tiled_paths.len();
            assert(path == floating_paths[k]);
            assert(news[i] == all.skip(tiled.len() as int)[k]);
            assert(child(node, path[0]) == node.floating_nodes@[path[0] - count]);
        }
    }
    assert forall|path: Seq<int>|
        {
            &&& leads_down(node, path)
            &&& reached(node, path).window is Some
            &&& is_listed(nearest_workspace(node, path, outer), entries)
        } implies #[trigger] paths.contains(path) by {
        if path.len() == 0 {
            assert(path =~= none);
            assert(makes);
            assert(paths[0] == none);
        } else if path[0] < count {
            assert(child(node, path[0]) == node.nodes@[path[0] - 0]);
            assert(tiled_paths.contains(path));
            let k = tiled_paths.index_of(path);
            assert(paths[below + k] == path);
        } else {
            assert(child(node, path[0]) == node.floating_nodes@[path[0] - count]);
            assert(floating_paths.contains(path));
            let k = floating_paths.index_of(path);
            assert(paths[below + tiled_paths.len() + k] == path);
        }
    }
    assert forall|i: int, j: int| 0 <= i < j < paths.len() implies earlier(
        #[trigger] paths[i],
        #[trigger] paths[j],
    ) by {
        if i < below {
            if j < below + tiled_paths.len() {
                assert(paths[j] == tiled_paths[j - below]);
            } else {
                assert(paths[j] == floating_paths[j - below - tiled_paths.len()]);
            }
        } else if j < below + tiled_paths.len() {
            assert(earlier(tiled_paths[i - below], tiled_paths[j - below]));
        } else if i < below + tiled_paths.len() {
            assert(paths[i] == tiled_paths[i - below]);
            assert(paths[j] == floating_paths[j - below - tiled_paths.len()]);
        } else {
            assert(earlier(
                floating_paths[i - below - tiled_paths.len()],
                floating_paths[j - below - tiled_paths.len()],
            ));
        }
    }
    paths
}

#[verifier::spinoff_prover]
#[verifier::rlimit(60)]
proof fn lemma_ways_below(
    nodes: Seq<TreeNode>,
    base: int,
    entries: Seq<WorkspaceEntry>,
    outer: Option<TreeNode>,
    found: Seq<Candidate>,
) -> (paths: Seq<Seq<int>>)
    requires
        outer is Some ==> outer->0.is_workspace,
    ensures
        collected_all(nodes, entries, place_of(outer, entries), found).len() >= found.len(),
        collected_all(nodes, entries, place_of(outer, entries), found).take(found.len() as int)
            == found,
        are_ways_below(
            paths,
            nodes,
            base,
            entries,
            outer,
            collected_all(nodes, entries, place_of(outer, entries), found).skip(
                found.len() as int,
            ),
        ),
    decreases nodes,
{
    let place = place_of(outer, entries);
    let all = collected_all(nodes, entries, place, found);
    let start = found.len() as int;
    if nodes.len() == 0 {
        assert(all.take(start) =~= found);
        seq![]
    } else {
        let front = nodes.drop_last();
        let last = nodes.last();
        let step = base + front.len();
        let front_paths = lemma_ways_below(front, base, entries, outer, found);
        let before = collected_all(front, entries, place, found);
        let tails = lemma_ways_from(last, entries, outer, before);
        let last_paths = Seq::new(tails.len(), |k: int| seq![step] + tails[k]);
        let paths = front_paths + last_paths;
        assert(all.take(start) =~= found) by {
            assert(before =~= all.take(before.len() as int));
            assert(found =~= before.take(start));
        }
        let news = all.skip(start);
        assert forall|k: int| 0 <= k < tails.len() implies (#[trigger] last_paths[k]).skip(1)
            == tails[k] && last_paths[k].len() > 0 && last_paths[k][0] == step by {
            assert(last_paths[k].skip(1) =~= tails[k]);
        }
        assert forall|i: int| 0 <= i < paths.len() implies {
            let path = #[trigger] paths[i];
            &&& path.len() > 0
            &&& base <= path[0] < base + nodes.len()
            &&& leads_down(nodes[path[0] - base], path.skip(1))
            &&& is_made_from(
                news[i],
                reached(nodes[path[0] - base], path.skip(1)),
                nearest_workspace(nodes[path[0] - base], path.skip(1), outer),
                entries,
            )
        } by {
            let path = paths[i];
            if i < front_paths.len() {
                assert(path == front_paths[i]);
                assert(news[i] == before.skip(start)[i]) by {
                    assert(before =~= all.take(before.len() as int));
                }
                assert(front[path[0] - base] == nodes[path[0] - base]);
            } else {
                let k = i - front_paths.len();
                assert(path == last_paths[k]);
                assert(news[i] == all.skip(before.len() as int)[k]);
                assert(leads_down(last, tails[k]));
            }
        }
        assert forall|path: Seq<int>|
            {
                &&& path.len() > 0
                &&& base <= path[0] < base + nodes.len()
                &&& leads_down(nodes[path[0] - base], path.skip(1))
                &&& reached(nodes[path[0] - base], path.skip(1)).window is Some
                &&& is_listed(
                    nearest_workspace(nodes[path[0] - base], path.skip(1), outer),
                    entries,
                )
            } implies #[trigger] paths.contains(path) by {
            if path[0] < step {
                assert(front[path[0] - base] == nodes[path[0] - base]);
                assert(front_paths.contains(path));
                let k = front_paths.index_of(path);
                assert(paths[k] == path);
            } else {
                assert(nodes[path[0] - base] == last);
                assert(tails.contains(path.skip(1)));
                let k = tails.index_of(path.skip(1));
                assert(path =~= seq![step] + path.skip(1));
                assert(last_paths[k] == path);
                assert(paths[front_paths.len() + k] == path);
            }
        }
        assert forall|i: int, j: int| 0 <= i < j < paths.len() implies earlier(
            #[trigger] paths[i],
            #[trigger] paths[j],
        ) by {
            if j < front_paths.len() {
                assert(earlier(front_paths[i], front_paths[j]));
            } else if i < front_paths.len() {
                assert(paths[i] == front_paths[i]);
                assert(paths[j] == last_paths[j - front_paths.len()]);
            } else {
                assert(paths[i] == last_paths[i - front_paths.len()]);
                assert(paths[j] == last_paths[j - front_paths.len()]);
                assert(earlier(tails[i - front_paths.len()], tails[j - front_paths.len()]));
            }
        }
        paths
    }
}

/// No window is left out and none is taken twice: the candidates are those of the containers that
/// hold a window and whose nearest workspace, themselves included, i3 lists and does not keep
/// for itself, one for each, in the order of the tree, whatever else the containers say of
/// themselves. `paths` are the ways to them.
pub proof fn law_every_listed_window_is_one_candidate(
    tree: TreeNode,
    entries: Seq<WorkspaceEntry>,
) -> (paths: Seq<Seq<int>>)
    ensures
        ({
            let found = collected(tree, entries, None, seq![]);
            &&& paths.len() == found.len()
            &&& forall|i: int|
                0 <= i < paths.len() ==> {
                    &&& leads_down(tree, #[trigger] paths[i])
                    &&& is_listed(nearest_workspace(tree, paths[i], None), entries)
                    &&& is_made_from(
                        found[i],
                        reached(tree, paths[i]),
                        nearest_workspace(tree, paths[i], None),
                        entries,
                    )
                }
            &&& forall|path: Seq<int>|
                {
                    &&& leads_down(tree, path)
                    &&& reached(tree, path).window is Some
                    &&& is_listed(nearest_workspace(tree, path, None), entries)
                } ==> #[trigger] paths.contains(path)
            &&& forall|i: int, j: int|
                0 <= i < j < paths.len() ==> earlier(#[trigger] paths[i], #[trigger] paths[j])
        }),
{
    let found = collected(tree, entries, None, seq![]);
    let paths = lemma_ways_from(tree, entries, None, seq![]);
    assert(found.skip(0) =~= found);
    law_candidates_stand_on_listed_workspaces(tree, entries);
    assert forall|i: int| 0 <= i < paths.len() implies is_listed(
        nearest_workspace(tree, #[trigger] paths[i], None),
        entries,
    ) by {
        let place = nearest_workspace(tree, paths[i], None);
        assert(known(found[i].workspace, entries));
    }
    paths
}

/// What is asked about a candidate, in turn, and what is known of it so far.
#[derive(Debug)]
pub enum CandidateInspection {
    /// Asking for the attributes.
    Attributes,
    /// Asking for the place and size.
    Geometry { visual: u32, viewable: bool },
    /// Asking for the place on the root window.
    Position { visual: u32, extent: Extent },
    /// Asking for the instance and the class.
    Class { geometry: WindowGeometry },
    /// The window is not shown.
    Skipped,
    /// The window, described.
    Found(WindowInfo),
}

/// What i3 says if it says anything, else what the server says.
pub open spec fn either(first: Option<String>, second: Option<Seq<char>>) -> Option<Seq<char>> {
    match first {
        Some(name) => Some(name@),
        None => second,
    }
}

/// The name of a candidate: the title of its window, else the name of its container, else the
/// number of the window.
pub open spec fn candidate_name(candidate: Candidate) -> Seq<char> {
    match (candidate.title, candidate.name) {
        (Some(title), _) => title@,
        (None, Some(name)) => name@,
        (None, None) => windows::number_name(candidate.window),
    }
}

/// The window as i3 and the server describe it.
pub open spec fn describes(
    window: WindowInfo,
    candidate: Candidate,
    class: (Option<Seq<char>>, Option<Seq<char>>),
    geometry: WindowGeometry,
) -> bool {
    &&& window.id == candidate.window
    &&& window.name@ == candidate_name(candidate)
    &&& text::option_view(window.instance) == either(candidate.instance, class.0)
    &&& text::option_view(window.class) == either(candidate.class, class.1)
    &&& window.workspace == candidate.workspace
    &&& window.workspace_num == candidate.workspace_num
    &&& window.i3_con_id == Some(candidate.con_id)
    &&& window.tree_order == candidate.tree_order
    &&& window.urgent == candidate.urgent
    &&& window.focused == candidate.focused
    &&& window.geometry == geometry
}

/// The window can be shown, now or when its workspace is.
pub open spec fn ownable(attributes: WindowAttributes) -> bool {
    !attributes.override_redirect && attributes.input_output
}

impl CandidateInspection {
    /// What to ask about a candidate, if the inspection is not over.
    pub open spec fn asks(self, candidate: Candidate, root: u32) -> Option<Question> {
        match self {
            CandidateInspection::Attributes => {
                Some(Question::Attributes { window: candidate.window })
            },
            CandidateInspection::Geometry { .. } => {
                Some(Question::Geometry { window: candidate.window })
            },
            CandidateInspection::Position { .. } => {
                Some(Question::Position { window: candidate.window, destination: root })
            },
            CandidateInspection::Class { .. } => Some(
                Question::Property {
                    window: candidate.window,
                    property: atoms::WM_CLASS_ATOM,
                    kind: atoms::STRING_ATOM,
                    length: x11::TEXT_LENGTH,
                },
            ),
            CandidateInspection::Skipped | CandidateInspection::Found(_) => None,
        }
    }

    /// What to ask about a candidate, if the inspection is not over.
    pub fn question(&self, candidate: &Candidate, root: u32) -> (question: Option<Question>)
        ensures
            question == self.asks(*candidate, root),
    {
        match self {
            CandidateInspection::Attributes => {
                Some(Question::Attributes { window: candidate.window })
            },
            CandidateInspection::Geometry { .. } => {
                Some(Question::Geometry { window: candidate.window })
            },
            CandidateInspection::Position { .. } => {
                Some(Question::Position { window: candidate.window, destination: root })
            },
            CandidateInspection::Class { .. } => Some(
                Question::Property {
                    window: candidate.window,
                    property: atoms::WM_CLASS_ATOM,
                    kind: atoms::STRING_ATOM,
                    length: x11::TEXT_LENGTH,
                },
            ),
            CandidateInspection::Skipped | CandidateInspection::Found(_) => None,
        }
    }

    /// `next` is what the inspection of a candidate becomes when `reply` comes back. The place
    /// of a window that is not on screen is where i3 keeps its container.
    pub open spec fn leads_to(
        self,
        candidate: Candidate,
        reply: Reply,
        next: CandidateInspection,
    ) -> bool {
        match self {
            CandidateInspection::Attributes => match reply {
                Reply::Attributes(attributes) if ownable(attributes) => {
                    next == CandidateInspection::Geometry {
                        visual: attributes.visual,
                        viewable: attributes.viewable,
                    }
                },
                _ => next == CandidateInspection::Skipped,
            },
            CandidateInspection::Geometry { visual, viewable } => match reply {
                Reply::Geometry(extent) if !extent.is_empty() => {
                    if viewable {
                        next == CandidateInspection::Position { visual, extent }
                    } else {
                        next == CandidateInspection::Class {
                            geometry: windows::geometry_at(
                                extent,
                                visual,
                                (candidate.x, candidate.y),
                            ),
                        }
                    }
                },
                _ => next == CandidateInspection::Skipped,
            },
            CandidateInspection::Position { visual, extent } => {
                next == CandidateInspection::Class {
                    geometry: windows::geometry_at(
                        extent,
                        visual,
                        windows::root_position(extent, reply),
                    ),
                }
            },
            CandidateInspection::Class { geometry } => {
                &&& next is Found
                &&& describes(
                    next->Found_0,
                    candidate,
                    windows::reply_class(reply),
                    geometry,
                )
            },
            CandidateInspection::Skipped => next == CandidateInspection::Skipped,
            CandidateInspection::Found(window) => next == CandidateInspection::Found(window),
        }
    }

    /// No stage past the second holds a window without pixels.
    pub open spec fn sound(self) -> bool {
        match self {
            CandidateInspection::Position { extent, .. } => !extent.is_empty(),
            CandidateInspection::Class { geometry } => geometry.width > 0 && geometry.height > 0,
            CandidateInspection::Found(window) => {
                window.geometry.width > 0 && window.geometry.height > 0
            },
            _ => true,
        }
    }

    /// How many questions may still be asked.
    pub open spec fn questions_left(self) -> nat {
        match self {
            CandidateInspection::Attributes => 4,
            CandidateInspection::Geometry { .. } => 3,
            CandidateInspection::Position { .. } => 2,
            CandidateInspection::Class { .. } => 1,
            CandidateInspection::Skipped | CandidateInspection::Found(_) => 0,
        }
    }

    /// Takes in what came back for a candidate.
    pub fn handle(self, candidate: &Candidate, reply: &Reply) -> (next: CandidateInspection)
        ensures
            self.leads_to(*candidate, *reply, next),
            self.sound() ==> next.sound(),
    {
        match self {
            CandidateInspection::Attributes => match reply {
                Reply::Attributes(attributes) => {
                    if attributes.override_redirect || !attributes.input_output {
                        CandidateInspection::Skipped
                    } else {
                        CandidateInspection::Geometry {
                            visual: attributes.visual,
                            viewable: attributes.viewable,
                        }
                    }
                },
                _ => CandidateInspection::Skipped,
            },
            CandidateInspection::Geometry { visual, viewable } => match reply {
                Reply::Geometry(extent) => {
                    if extent.width == 0 || extent.height == 0 {
                        CandidateInspection::Skipped
                    } else if viewable {
                        CandidateInspection::Position { visual, extent: *extent }
                    } else {
                        CandidateInspection::Class {
                            geometry: geometry_of(extent, visual, (candidate.x, candidate.y)),
                        }
                    }
                },
                _ => CandidateInspection::Skipped,
            },
            CandidateInspection::Position { visual, extent } => {
                let position: (i16, i16) = windows::place_on_root(extent, reply);
                CandidateInspection::Class { geometry: geometry_of(&extent, visual, position) }
            },
            CandidateInspection::Class { geometry } => {
                let (instance, class): (Option<String>, Option<String>) = windows::read_wm_class(
                    reply,
                );
                CandidateInspection::Found(
                    WindowInfo {
                        id: candidate.window,
                        name: name_of(candidate),
                        instance: first_of(&candidate.instance, instance),
                        class: first_of(&candidate.class, class),
                        workspace: candidate.workspace.clone(),
                        workspace_num: candidate.workspace_num,
                        i3_con_id: Some(candidate.con_id),
                        tree_order: candidate.tree_order,
                        urgent: candidate.urgent,
                        focused: candidate.focused,
                        geometry,
                    },
                )
            },
            CandidateInspection::Skipped => CandidateInspection::Skipped,
            CandidateInspection::Found(window) => CandidateInspection::Found(window),
        }
    }
}

/// Every answer brings the inspection of a candidate closer to its end, whatever it is.
pub proof fn law_candidate_inspections_end(
    state: CandidateInspection,
    candidate: Candidate,
    reply: Reply,
    next: CandidateInspection,
)
    requires
        state.leads_to(candidate, reply, next),
        state.questions_left() > 0,
    ensures
        next.questions_left() < state.questions_left(),
{
}

/// A window's geometry as the server gives it now.
pub open spec fn refreshed(extent: Extent, visual: u32) -> WindowGeometry {
    windows::geometry_at(extent, visual, (extent.x, extent.y))
}

/// A window's geometry as the server gives it now.
pub fn refresh_geometry(visual: u32, extent: &Extent) -> (geometry: WindowGeometry)
    ensures
        geometry == windows::geometry_at(*extent, visual, (extent.x, extent.y)),
        geometry == refreshed(*extent, visual),
{
    geometry_of(extent, visual, (extent.x, extent.y))
}

fn geometry_of(extent: &Extent, visual: u32, position: (i16, i16)) -> (geometry: WindowGeometry)
    ensures
        geometry == windows::geometry_at(*extent, visual, position),
{
    WindowGeometry {
        x: position.0,
        y: position.1,
        width: extent.width,
        height: extent.height,
        depth: extent.depth,
        visual,
    }
}

fn first_of(first: &Option<String>, second: Option<String>) -> (result: Option<String>)
    ensures
        text::option_view(result) == either(*first, text::option_view(second)),
{
    match first {
        Some(name) => Some(name.clone()),
        None => second,
    }
}

fn name_of(candidate: &Candidate) -> (name: String)
    ensures
        name@ == candidate_name(*candidate),
{
    match (&candidate.title, &candidate.name) {
        (Some(title), _) => title.clone(),
        (None, Some(name)) => name.clone(),
        (None, None) => windows::fallback_name(candidate.window),
    }
}

/// The number that a window's workspace is ordered by: windows on workspaces without a number
/// come last.
pub open spec fn workspace_rank(window: WindowInfo) -> i32 {
    match window.workspace_num {
        Some(num) => num,
        None => i32::MAX,
    }
}

/// `a` comes before `b` in the overview: by the number of the workspace, then by its name, then
/// by the place in the tree, then by the number of the window.
pub open spec fn before(a: WindowInfo, b: WindowInfo) -> bool {
    if workspace_rank(a) != workspace_rank(b) {
        workspace_rank(a) < workspace_rank(b)
    } else if a.workspace@ != b.workspace@ {
        text::text_before(a.workspace@, b.workspace@)
    } else if a.tree_order != b.tree_order {
        a.tree_order < b.tree_order
    } else {
        a.id < b.id
    }
}

fn comes_before(a: &WindowInfo, b: &WindowInfo) -> (result: bool)
    ensures
        result == before(*a, *b),
{
    let rank_a: i32 = match a.workspace_num {
        Some(num) => num,
        None => i32::MAX,
    };
    let rank_b: i32 = match b.workspace_num {
        Some(num) => num,
        None => i32::MAX,
    };
    if rank_a != rank_b {
        rank_a < rank_b
    } else if !text::same_text(a.workspace.as_str(), b.workspace.as_str()) {
        text::comes_before(a.workspace.as_str(), b.workspace.as_str())
    } else if a.tree_order != b.tree_order {
        a.tree_order < b.tree_order
    } else {
        a.id < b.id
    }
}

/// `window` put in front of the first window of `rest` that does not come before it.
pub open spec fn put_in(window: WindowInfo, rest: Seq<WindowInfo>) -> Seq<WindowInfo>
    decreases rest.len(),
{
    if rest.len() == 0 || !before(rest[0], window) {
        seq![window] + rest
    } else {
        seq![rest[0]] + put_in(window, rest.skip(1))
    }
}

/// The windows in the order of the overview; windows that tie keep their order.
pub open spec fn arranged(list: Seq<WindowInfo>) -> Seq<WindowInfo>
    decreases list.len(),
{
    if list.len() == 0 {
        seq![]
    } else {
        put_in(list[0], arranged(list.skip(1)))
    }
}

proof fn lemma_put_in_at(window: WindowInfo, rest: Seq<WindowInfo>, place: int)
    requires
        0 <= place <= rest.len(),
        forall|i: int| 0 <= i < place ==> before(#[trigger] rest[i], window),
        place < rest.len() ==> !before(rest[place], window),
    ensures
        put_in(window, rest) == rest.insert(place, window),
    decreases place,
{
    if place == 0 {
        assert(seq![window] + rest =~= rest.insert(0, window));
    } else {
        assert(before(rest[0], window));
        assert forall|i: int| 0 <= i < place - 1 implies before(
            #[trigger] rest.skip(1)[i],
            window,
        ) by {
            assert(rest.skip(1)[i] == rest[i + 1]);
        }
        lemma_put_in_at(window, rest.skip(1), place - 1);
        assert(seq![rest[0]] + rest.skip(1).insert(place - 1, window) =~= rest.insert(
            place,
            window,
        ));
    }
}

/// Brings the windows into the order of the overview.
pub fn arrange(list: Vec<WindowInfo>) -> (result: Vec<WindowInfo>)
    ensures
        result@ == arranged(list@),
{
    let mut rest: Vec<WindowInfo> = list;
    let mut result: Vec<WindowInfo> = Vec::new();
    assert(list@.skip(list@.len() as int) =~= seq![]);
    assert(list@.take(list@.len() as int) =~= list@);
    while rest.len() > 0
        invariant
            rest@.len() <= list@.len(),
            rest@ == list@.take(rest@.len() as int),
            result@ == arranged(list@.skip(rest@.len() as int)),
        decreases rest@.len(),
    {
        let ghost count = rest@.len();
        let window: WindowInfo = match rest.pop() {
            Some(window) => window,
            None => return result,
        };
        assert(window == list@[count - 1]);
        let mut place: usize = 0;
        while place < result.len() && comes_before(&result[place], &window)
            invariant
                place <= result@.len(),
                forall|i: int| 0 <= i < place ==> before(#[trigger] result@[i], window),
            decreases result@.len() - place,
        {
            place += 1;
        }
        proof {
            lemma_put_in_at(window, result@, place as int);
            assert(list@.skip(count - 1).skip(1) =~= list@.skip(count as int));
            assert(rest@ =~= list@.take(count - 1));
        }
        result.insert(place, window);
    }
    assert(list@.skip(0) =~= list@);
    result
}

proof fn lemma_text_order(a: Seq<char>, b: Seq<char>, c: Seq<char>)
    ensures
        a == b || text::text_before(a, b) || text::text_before(b, a),
        !(text::text_before(a, b) && text::text_before(b, a)),
        !text::text_before(a, a),
        text::text_before(a, b) && text::text_before(b, c) ==> text::text_before(a, c),
    decreases a.len() + b.len() + c.len(),
{
    if a.len() > 0 && b.len() > 0 && c.len() > 0 {
        lemma_text_order(a.drop_first(), b.drop_first(), c.drop_first());
        assert(a =~= seq![a[0]] + a.drop_first());
        assert(b =~= seq![b[0]] + b.drop_first());
    } else if a.len() > 0 && b.len() > 0 {
        lemma_text_order(a.drop_first(), b.drop_first(), c);
        assert(a =~= seq![a[0]] + a.drop_first());
        assert(b =~= seq![b[0]] + b.drop_first());
    } else {
        if a.len() > 0 {
            lemma_text_order(a.drop_first(), b, c);
        }
        if a.len() == 0 && b.len() == 0 {
            assert(a =~= b);
        }
    }
}

proof fn lemma_before_order(a: WindowInfo, b: WindowInfo, c: WindowInfo)
    ensures
        !before(a, a),
        !(before(a, b) && before(b, a)),
        !before(b, a) && !before(c, b) ==> !before(c, a),
{
    lemma_text_order(a.workspace@, b.workspace@, c.workspace@);
    lemma_text_order(b.workspace@, c.workspace@, a.workspace@);
    lemma_text_order(c.workspace@, a.workspace@, b.workspace@);
    lemma_text_order(c.workspace@, b.workspace@, a.workspace@);
    lemma_text_order(b.workspace@, a.workspace@, c.workspace@);
    lemma_text_order(a.workspace@, c.workspace@, b.workspace@);
}

/// No window comes before one that stands in front of it.
pub open spec fn in_order(list: Seq<WindowInfo>) -> bool {
    forall|i: int, j: int|
        0 <= i < j < list.len() ==> !before(#[trigger] list[j], #[trigger] list[i])
}

proof fn lemma_put_in(window: WindowInfo, rest: Seq<WindowInfo>)
    requires
        in_order(rest),
    ensures
        in_order(put_in(window, rest)),
        put_in(window, rest).to_multiset() == rest.to_multiset().insert(window),
        put_in(window, rest)[0] == window || (rest.len() > 0 && put_in(window, rest)[0] == rest[0]),
        put_in(window, rest).len() == rest.len() + 1,
        forall|x: WindowInfo|
            !before(window, x) && (forall|i: int|
                0 <= i < rest.len() ==> !before(#[trigger] rest[i], x)) ==> forall|i: int|
                0 <= i < put_in(window, rest).len() ==> !before(
                    #[trigger] put_in(window, rest)[i],
                    x,
                ),
    decreases rest.len(),
{
    broadcast use vstd::seq_lib::group_to_multiset_ensures;

    let all = put_in(window, rest);
    if rest.len() == 0 || !before(rest[0], window) {
        assert(all =~= rest.insert(0, window));
        assert forall|i: int, j: int| 0 <= i < j < all.len() implies !before(
            #[trigger] all[j],
            #[trigger] all[i],
        ) by {
            if i == 0 {
                lemma_before_order(window, rest[0], all[j]);
                if j > 1 {
                    assert(!before(rest[j - 1], rest[0]));
                }
            } else {
                assert(!before(rest[j - 1], rest[i - 1]));
            }
        }
    } else {
        let tail = rest.skip(1);
        assert forall|i: int, j: int| 0 <= i < j < tail.len() implies !before(
            #[trigger] tail[j],
            #[trigger] tail[i],
        ) by {
            assert(!before(rest[j + 1], rest[i + 1]));
        }
        lemma_put_in(window, tail);
        let inner = put_in(window, tail);
        lemma_before_order(rest[0], window, window);
        assert forall|i: int| 0 <= i < tail.len() implies !before(
            #[trigger] tail[i],
            rest[0],
        ) by {
            assert(!before(rest[i + 1], rest[0]));
        }
        assert(all =~= seq![rest[0]] + inner);
        assert forall|i: int, j: int| 0 <= i < j < all.len() implies !before(
            #[trigger] all[j],
            #[trigger] all[i],
        ) by {
            if i == 0 {
                assert(!before(inner[j - 1], rest[0]));
            } else {
                assert(!before(inner[j - 1], inner[i - 1]));
            }
        }
        assert(all.to_multiset() =~= rest.to_multiset().insert(window)) by {
            assert(all =~= inner.insert(0, rest[0]));
            assert(rest =~= tail.insert(0, rest[0]));
        }
        assert forall|x: WindowInfo|
            !before(window, x) && (forall|i: int|
                0 <= i < rest.len() ==> !before(#[trigger] rest[i], x)) implies forall|i: int|
            0 <= i < all.len() ==> !before(#[trigger] all[i], x) by {
            assert forall|i: int| 0 <= i < tail.len() implies !before(
                #[trigger] tail[i],
                x,
            ) by {
                assert(!before(rest[i + 1], x));
            }
            assert forall|i: int| 0 <= i < all.len() implies !before(#[trigger] all[i], x) by {
                if i == 0 {
                    assert(!before(rest[0], x));
                } else {
                    assert(!before(inner[i - 1], x));
                }
            }
        }
    }
}

/// Arranging loses and invents no window, and puts each before those that it comes before.
pub proof fn law_arranged_windows_are_in_order(list: Seq<WindowInfo>)
    ensures
        in_order(arranged(list)),
        arranged(list).to_multiset() == list.to_multiset(),
    decreases list.len(),
{
    broadcast use vstd::seq_lib::group_to_multiset_ensures;

    if list.len() > 0 {
        law_arranged_windows_are_in_order(list.skip(1));
        lemma_put_in(list[0], arranged(list.skip(1)));
        assert(list =~= list.skip(1).insert(0, list[0]));
    }
}

/// A character as it stands inside a quoted string of a command.
pub open spec fn escaped_char(ch: char) -> Seq<char> {
    if ch == '\\' {
        seq!['\\', '\\']
    } else if ch == '"' {
        seq!['\\', '"']
    } else {
        seq![ch]
    }
}

/// Text as it stands inside a quoted string of a command.
pub open spec fn escaped(value: Seq<char>) -> Seq<char>
    decreases value.len(),
{
    if value.len() == 0 {
        seq![]
    } else {
        escaped(value.drop_last()) + escaped_char(value.last())
    }
}

/// Writes text so that it can stand inside a quoted string of a command.
pub fn escape_i3_string(value: &str) -> (result: String)
    ensures
        result@ == escaped(value@),
{
    let chars: Vec<char> = text::chars_of(value);
    let mut result: String = String::new();
    let mut i: usize = 0;
    assert(value@.take(0) =~= seq![]);
    assert(result@ =~= seq![]);
    while i < chars.len()
        invariant
            i <= chars@.len(),
            chars@ == value@,
            result@ == escaped(value@.take(i as int)),
        decreases chars@.len() - i,
    {
        let ghost shorter = result@;
        assert(value@.take(i + 1).drop_last() =~= value@.take(i as int));
        let ch: char = chars[i];
        if ch == '\\' {
            result.push('\\');
            result.push('\\');
        } else if ch == '"' {
            result.push('\\');
            result.push('"');
        } else {
            result.push(ch);
        }
        assert(result@ =~= shorter + escaped_char(ch));
        i += 1;
    }
    assert(value@.take(i as int) =~= value@);
    result
}

/// What a reader of a quoted string makes of it: a backslash stands for the character after it,
/// and a quote ends the string.
pub open spec fn unquoted(value: Seq<char>) -> Seq<char>
    decreases value.len(),
{
    if value.len() == 0 || value[0] == '"' {
        seq![]
    } else if value[0] == '\\' && value.len() > 1 {
        seq![value[1]] + unquoted(value.skip(2))
    } else {
        seq![value[0]] + unquoted(value.skip(1))
    }
}

proof fn lemma_escaped_first(value: Seq<char>)
    requires
        value.len() > 0,
    ensures
        escaped(value) == escaped_char(value[0]) + escaped(value.skip(1)),
    decreases value.len(),
{
    if value.len() == 1 {
        assert(value.drop_last() =~= seq![]);
        assert(value.skip(1) =~= seq![]);
        assert(escaped(value) =~= escaped_char(value[0]) + escaped(value.skip(1)));
    } else {
        lemma_escaped_first(value.drop_last());
        assert(value.drop_last().skip(1) =~= value.skip(1).drop_last());
        assert(escaped(value) =~= escaped_char(value[0]) + escaped(value.skip(1)));
    }
}

/// Whatever name is escaped, a reader of the quoted string gets it back, and what follows the
/// closing quote is not taken into it.
pub proof fn law_escaped_names_read_back(value: Seq<char>, after: Seq<char>)
    ensures
        unquoted(escaped(value) + seq!['"'] + after) == value,
    decreases value.len(),
{
    let whole = escaped(value) + seq!['"'] + after;
    if value.len() == 0 {
        assert(whole[0] == '"');
        assert(unquoted(whole) =~= value);
    } else {
        lemma_escaped_first(value);
        law_escaped_names_read_back(value.skip(1), after);
        let rest = escaped(value.skip(1)) + seq!['"'] + after;
        if value[0] == '\\' || value[0] == '"' {
            assert(whole[0] == '\\');
            assert(whole[1] == value[0]);
            assert(whole.skip(2) =~= rest);
        } else {
            assert(whole[0] == value[0]);
            assert(whole.skip(1) =~= rest);
        }
        assert(unquoted(whole) =~= value);
    }
}

/// The command that switches to a workspace.
pub open spec fn switch_command(name: Seq<char>) -> Seq<char> {
    "workspace \""@ + escaped(name) + "\""@
}

/// The command that switches to a workspace.
pub fn switch_workspace(name: &str) -> (command: String)
    ensures
        command@ == switch_command(name@),
{
    let mut command: String = "workspace \"".to_owned();
    command.append(escape_i3_string(name).as_str());
    command.append("\"");
    command
}

/// A command on one container.
pub open spec fn container_command(con_id: i64, verb: Seq<char>) -> Seq<char> {
    "[con_id="@ + text::signed_decimal(con_id as int) + "] "@ + verb
}

fn command_on(con_id: i64, verb: &str) -> (command: String)
    ensures
        command@ == container_command(con_id, verb@),
{
    let mut command: String = "[con_id=".to_owned();
    text::push_signed(&mut command, con_id);
    command.append("] ");
    command.append(verb);
    command
}

/// The command that closes a container.
pub open spec fn close_command(con_id: i64) -> Seq<char> {
    container_command(con_id, "close"@)
}

/// The command that closes a container.
pub fn close_con(con_id: i64) -> (command: String)
    ensures
        command@ == container_command(con_id, "close"@),
        command@ == close_command(con_id),
{
    command_on(con_id, "close")
}

/// A command, and how long to wait after it.
#[derive(Debug)]
pub struct TimedCommand {
    pub command: String,
    pub pause_ms: u64,
}

/// The commands bring a container to the front: its workspace first, then itself.
pub open spec fn brings_to_front(
    commands: Seq<TimedCommand>,
    con_id: i64,
    workspace: Seq<char>,
) -> bool {
    &&& commands.len() == 2
    &&& commands[0].command@ == switch_command(workspace)
    &&& commands[0].pause_ms == WORKSPACE_PAUSE_MS
    &&& commands[1].command@ == container_command(con_id, "focus"@)
    &&& commands[1].pause_ms == FOCUS_PAUSE_MS
}

/// The commands that bring a container to the front: its workspace first, then itself.
pub fn focus_con(con_id: i64, workspace: &str) -> (commands: Vec<TimedCommand>)
    ensures
        commands@.len() == 2,
        commands@[0].command@ == switch_command(workspace@),
        commands@[0].pause_ms == WORKSPACE_PAUSE_MS,
        commands@[1].command@ == container_command(con_id, "focus"@),
        commands@[1].pause_ms == FOCUS_PAUSE_MS,
        brings_to_front(commands@, con_id, workspace@),
{
    let mut commands: Vec<TimedCommand> = Vec::new();
    commands.push(
        TimedCommand { command: switch_workspace(workspace), pause_ms: WORKSPACE_PAUSE_MS },
    );
    commands.push(TimedCommand { command: command_on(con_id, "focus"), pause_ms: FOCUS_PAUSE_MS });
    commands
}

/// What i3 says of one part of a command.
#[derive(Debug)]
pub struct CommandOutcome {
    pub success: bool,
    pub error: Option<String>,
}

/// The first part of a command that failed.
pub open spec fn first_failure(outcomes: Seq<CommandOutcome>) -> Option<CommandOutcome>
    decreases outcomes.len(),
{
    if outcomes.len() == 0 {
        None
    } else if !outcomes[0].success {
        Some(outcomes[0])
    } else {
        first_failure(outcomes.skip(1))
    }
}

/// What to tell of a command of which a part failed.
pub open spec fn rejection(command: Seq<char>, outcome: CommandOutcome) -> Seq<char> {
    let reason = match outcome.error {
        Some(error) => error@,
        None => "unknown error"@,
    };
    "i3 rejected `"@ + command + "`: "@ + reason
}

/// Checks that i3 did all that a command asked for.
pub fn check_outcomes(command: &str, outcomes: &Vec<CommandOutcome>) -> (result: Result<(), String>)
    ensures
        match first_failure(outcomes@) {
            None => result is Ok,
            Some(outcome) => result is Err && result->Err_0@ == rejection(command@, outcome),
        },
{
    let mut i: usize = 0;
    assert(outcomes@.skip(0) =~= outcomes@);
    while i < outcomes.len()
        invariant
            i <= outcomes@.len(),
            first_failure(outcomes@) == first_failure(outcomes@.skip(i as int)),
        decreases outcomes@.len() - i,
    {
        assert(outcomes@.skip(i as int).skip(1) =~= outcomes@.skip(i + 1));
        if !outcomes[i].success {
            let mut message: String = "i3 rejected `".to_owned();
            message.append(command);
            message.append("`: ");
            match &outcomes[i].error {
                Some(error) => message.append(error.as_str()),
                None => message.append("unknown error"),
            }
            return Err(message);
        }
        i += 1;
    }
    Ok(())
}

/// A candidate is asked for its attributes, its place and size, its place on the root window and
/// its class, and for nothing of another window.
pub proof fn law_questions_are_about_the_candidate(
    candidate: Candidate,
    root: u32,
    state: CandidateInspection,
)
    ensures
        state.asks(candidate, root) == (match state {
            CandidateInspection::Attributes => {
                Some(Question::Attributes { window: candidate.window })
            },
            CandidateInspection::Geometry { .. } => {
                Some(Question::Geometry { window: candidate.window })
            },
            CandidateInspection::Position { .. } => {
                Some(Question::Position { window: candidate.window, destination: root })
            },
            CandidateInspection::Class { .. } => Some(
                Question::Property {
                    window: candidate.window,
                    property: 67,
                    kind: 31,
                    length: 1024,
                },
            ),
            CandidateInspection::Skipped => None,
            CandidateInspection::Found(_) => None,
        }),
{
}

/// What i3 and the server say of a candidate is what it is described by: one that can be drawn
/// to, is not left alone by the window manager and has pixels stands where the root window has
/// it if it is on screen, and where i3 has its container if it is not. What i3 says of its
/// names goes before what the server says. Every other candidate is skipped.
pub proof fn law_candidates_are_described_by_their_answers(
    candidate: Candidate,
    attributes: WindowAttributes,
    extent: Extent,
    position: Reply,
    class: Reply,
    states: Seq<CandidateInspection>,
)
    requires
        states.len() == 4,
        CandidateInspection::Attributes.leads_to(
            candidate,
            Reply::Attributes(attributes),
            states[0],
        ),
        states[0].leads_to(candidate, Reply::Geometry(extent), states[1]),
        attributes.viewable ==> states[1].leads_to(candidate, position, states[2]),
        !attributes.viewable ==> states[2] == states[1],
        states[2].leads_to(candidate, class, states[3]),
    ensures
        if !attributes.override_redirect && attributes.input_output && extent.width > 0
            && extent.height > 0 {
            &&& states[3] matches CandidateInspection::Found(window)
            &&& window.id == candidate.window
            &&& window.name@ == (if candidate.title is Some {
                candidate.title->0@
            } else if candidate.name is Some {
                candidate.name->0@
            } else {
                "0x"@ + text::hex(candidate.window as nat, 8)
            })
            &&& text::option_view(window.instance) == (if candidate.instance is Some {
                Some(candidate.instance->0@)
            } else {
                windows::reply_class(class).0
            })
            &&& text::option_view(window.class) == (if candidate.class is Some {
                Some(candidate.class->0@)
            } else {
                windows::reply_class(class).1
            })
            &&& window.workspace@ == candidate.workspace@
            &&& window.workspace_num == candidate.workspace_num
            &&& window.i3_con_id == Some(candidate.con_id)
            &&& window.tree_order == candidate.tree_order
            &&& window.urgent == candidate.urgent
            &&& window.focused == candidate.focused
            &&& window.geometry.width == extent.width
            &&& window.geometry.height == extent.height
            &&& window.geometry.depth == extent.depth
            &&& window.geometry.visual == attributes.visual
            &&& if !attributes.viewable {
                window.geometry.x == candidate.x && window.geometry.y == candidate.y
            } else {
                match position {
                    Reply::Position { same_screen: true, x, y } => {
                        window.geometry.x == x && window.geometry.y == y
                    },
                    _ => window.geometry.x == extent.x && window.geometry.y == extent.y,
                }
            }
        } else {
            states[3] == CandidateInspection::Skipped
        },
{
}

/// An answer of another sort than was asked for, or none, about the attributes or the size skips
/// the candidate.
pub proof fn law_unanswered_candidates_are_skipped(
    candidate: Candidate,
    reply: Reply,
    visual: u32,
    viewable: bool,
    next: CandidateInspection,
    other: CandidateInspection,
)
    requires
        CandidateInspection::Attributes.leads_to(candidate, reply, next),
        (CandidateInspection::Geometry { visual, viewable }).leads_to(candidate, reply, other),
    ensures
        !(reply is Attributes) ==> next == CandidateInspection::Skipped,
        !(reply is Geometry) ==> other == CandidateInspection::Skipped,
{
}

/// The overview shows lower workspace numbers first and workspaces without a number last, then
/// goes by the workspaces' names, then by the place in the tree, then by the window's number.
pub proof fn law_windows_stand_by_workspace_and_tree(
    list: Seq<WindowInfo>,
    i: int,
    j: int,
)
    requires
        0 <= i < j < list.len(),
    ensures
        ({
            let all = arranged(list);
            let a = all[i];
            let b = all[j];
            &&& all.len() == list.len()
            &&& b.workspace_num is Some && a.workspace_num is Some ==> a.workspace_num->0
                <= b.workspace_num->0
            &&& b.workspace_num is Some && a.workspace_num is None ==> b.workspace_num->0
                == i32::MAX
            &&& a.workspace_num == b.workspace_num ==> {
                &&& !text::text_before(b.workspace@, a.workspace@)
                &&& a.workspace@ == b.workspace@ ==> {
                    &&& a.tree_order <= b.tree_order
                    &&& a.tree_order == b.tree_order ==> a.id <= b.id
                }
            }
        }),
{
    broadcast use vstd::seq_lib::group_to_multiset_ensures;

    law_arranged_windows_are_in_order(list);
    let all = arranged(list);
    assert(all.len() == list.len()) by {
        assert(all.to_multiset().len() == list.to_multiset().len());
    }
    assert(!before(all[j], all[i]));
    lemma_text_order(all[i].workspace@, all[j].workspace@, all[i].workspace@);
}

/// The first workspace that has the focus is the current one.
pub proof fn law_first_focused_workspace_is_current(
    before: Seq<WorkspaceEntry>,
    entry: WorkspaceEntry,
    after: Seq<WorkspaceEntry>,
)
    requires
        forall|i: int| 0 <= i < before.len() ==> !(#[trigger] before[i]).focused,
    ensures
        focused_name(before) is None,
        entry.focused ==> focused_name(before + seq![entry] + after) == Some(entry.name@),
    decreases before.len(),
{
    let whole = before + seq![entry] + after;
    if before.len() == 0 {
        assert(whole[0] == entry);
    } else {
        let rest = before.skip(1);
        assert forall|i: int| 0 <= i < rest.len() implies !(#[trigger] rest[i]).focused by {
            assert(rest[i] == before[i + 1]);
        }
        law_first_focused_workspace_is_current(rest, entry, after);
        assert(!before[0].focused);
        assert(whole[0] == before[0]);
        assert(whole.skip(1) =~= rest + seq![entry] + after);
    }
}

/// Commands name what they act on: a workspace by its quoted name, and a container by its number.
pub proof fn law_commands_name_what_they_act_on(name: Seq<char>, con_id: i64, verb: Seq<char>)
    ensures
        ({
            let command = switch_command(name);
            let start = "workspace \""@;
            &&& text::has_prefix(command, start)
            &&& unquoted(command.skip(start.len() as int)) == name
            &&& command.last() == '"'
        }),
        container_command(con_id, verb) == (if con_id < 0 {
            "[con_id=-"@ + text::decimal((-con_id) as nat) + "] "@ + verb
        } else {
            "[con_id="@ + text::decimal(con_id as nat) + "] "@ + verb
        }),
{
    let command = switch_command(name);
    let start = "workspace \""@;
    reveal_strlit("\"");
    reveal_strlit("[con_id=");
    reveal_strlit("[con_id=-");
    assert(command.take(start.len() as int) =~= start);
    law_escaped_names_read_back(name, seq![]);
    assert(command.skip(start.len() as int) =~= escaped(name) + seq!['"'] + seq![]);
    if con_id < 0 {
        assert(container_command(con_id, verb) =~= "[con_id=-"@ + text::decimal((-con_id) as nat)
            + "] "@ + verb);
    }
}

/// A command is done where all its parts are; else the first part that failed is told, with the
/// command and the reason, if there is one.
pub proof fn law_first_failed_part_is_told(
    command: Seq<char>,
    before: Seq<CommandOutcome>,
    outcome: CommandOutcome,
    after: Seq<CommandOutcome>,
)
    requires
        forall|i: int| 0 <= i < before.len() ==> (#[trigger] before[i]).success,
    ensures
        first_failure(before) is None,
        !outcome.success ==> first_failure(before + seq![outcome] + after) == Some(outcome),
        outcome.error matches Some(error) ==> rejection(command, outcome) == "i3 rejected `"@
            + command + "`: "@ + error@,
        outcome.error is None ==> rejection(command, outcome) == "i3 rejected `"@ + command
            + "`: "@ + "unknown error"@,
    decreases before.len(),
{
    let whole = before + seq![outcome] + after;
    if before.len() == 0 {
        assert(whole[0] == outcome);
    } else {
        let rest = before.skip(1);
        assert forall|i: int| 0 <= i < rest.len() implies (#[trigger] rest[i]).success by {
            assert(rest[i] == before[i + 1]);
        }
        law_first_failed_part_is_told(command, rest, outcome, after);
        assert(before[0].success);
        assert(whole[0] == before[0]);
        assert(whole.skip(1) =~= rest + seq![outcome] + after);
    }
}

/// Windows that are in order already stay as they are, and so do those that tie.
pub proof fn law_ordered_windows_stay(list: Seq<WindowInfo>)
    requires
        in_order(list),
    ensures
        arranged(list) == list,
    decreases list.len(),
{
    if list.len() > 0 {
        let rest = list.skip(1);
        assert forall|i: int, j: int| 0 <= i < j < rest.len() implies !before(
            #[trigger] rest[j],
            #[trigger] rest[i],
        ) by {
            assert(!before(list[j + 1], list[i + 1]));
        }
        law_ordered_windows_stay(rest);
        if rest.len() > 0 {
            assert(!before(list[1], list[0]));
        }
        assert(seq![list[0]] + rest =~= list);
    }
}

/// A container comes to the front in two commands: the first names its workspace and lets it
/// settle for 60 milliseconds, the second names the container, and 40 milliseconds follow.
pub proof fn law_the_workspace_comes_before_the_container(
    commands: Seq<TimedCommand>,
    con_id: i64,
    workspace: Seq<char>,
)
    requires
        brings_to_front(commands, con_id, workspace),
    ensures
        commands.len() == 2,
        text::has_prefix(commands[0].command@, "workspace \""@),
        unquoted(commands[0].command@.skip("workspace \""@.len() as int)) == workspace,
        commands[0].pause_ms == 60,
        con_id >= 0 ==> commands[1].command@ == "[con_id="@ + text::decimal(con_id as nat)
            + "] "@ + "focus"@,
        commands[1].pause_ms == 40,
{
    law_commands_name_what_they_act_on(workspace, con_id, "focus"@);
}

/// A refreshed geometry has the place, the size and the depth that the server gives, and the
/// visual that is known.
pub proof fn law_refreshed_geometry_is_the_servers(extent: Extent, visual: u32)
    ensures
        refreshed(extent, visual).x == extent.x,
        refreshed(extent, visual).y == extent.y,
        refreshed(extent, visual).width == extent.width,
        refreshed(extent, visual).height == extent.height,
        refreshed(extent, visual).depth == extent.depth,
        refreshed(extent, visual).visual == visual,
{
}

/// A container is closed by its number, and different containers by different commands.
pub proof fn law_containers_are_closed_by_number(con_id: i64, other: i64)
    requires
        con_id >= 0,
        other >= 0,
    ensures
        close_command(con_id) == "[con_id="@ + text::decimal(con_id as nat) + "] close"@,
        con_id != other ==> close_command(con_id) != close_command(other),
{
    reveal_strlit("] ");
    reveal_strlit("close");
    reveal_strlit("] close");
    assert(close_command(con_id) =~= "[con_id="@ + text::decimal(con_id as nat) + "] close"@);
    assert(close_command(other) =~= "[con_id="@ + text::decimal(other as nat) + "] close"@);
    if con_id != other {
        text::law_decimal_reads_back(con_id as nat);
        text::law_decimal_reads_back(other as nat);
        let a = text::decimal(con_id as nat);
        let b = text::decimal(other as nat);
        let start = "[con_id="@;
        let end = "] close"@;
        if start + a + end == start + b + end {
            assert((start + a + end).len() == (start + b + end).len());
            assert(a =~= (start + a + end).skip(start.len() as int).take(a.len() as int));
            assert(b =~= (start + b + end).skip(start.len() as int).take(b.len() as int));
        }
    }
}

}
