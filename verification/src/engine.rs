//! The traversal engine: a cursor over the question tree, forward movement
//! with auto-skip of plain labels, backward movement to the nearest sibling
//! or ancestor, commits into the parallel result tree, and validation of
//! that tree once the walk reaches the end.

use vstd::prelude::*;

verus! {

use vstd::string::{StringExecFns, StrSliceExecFns};
use crate::nodes::{LeafNodeType, NodeV, ListV, first_selected};
use crate::tree::{
    Tree, TreeV, NodeId, CloneTree, StringTree, StringTreeV, subtree_end, lemma_scan_shallow,
    wf_shape,
};

/// Relies on `String::push`: appends exactly one character at the end.
#[verifier::external_body]
fn push_char(s: &mut String, c: char)
    ensures
        final(s)@ == old(s)@.push(c),
{
    s.push(c);
}

/// The first position at or after `j` that is not a plain label, or the
/// length of the tree if only labels remain.
pub open spec fn next_stop(t: TreeV, j: int) -> int
    decreases t.nodes.len() - j,
{
    if j < 0 || j >= t.nodes.len() {
        t.nodes.len() as int
    } else if !(t.nodes[j] is Text) {
        j
    } else {
        next_stop(t, j + 1)
    }
}

/// What the stop scan returns: a position in range that is not a label,
/// with nothing but labels before it.
pub proof fn lemma_next_stop(t: TreeV, j: int)
    requires
        0 <= j <= t.nodes.len(),
    ensures
        j <= next_stop(t, j) <= t.nodes.len(),
        next_stop(t, j) < t.nodes.len() ==> !(t.nodes[next_stop(t, j)] is Text),
        forall|k: int| j <= k < next_stop(t, j) ==> (#[trigger] t.nodes[k]) is Text,
    decreases t.nodes.len() - j,
{
    if j < t.nodes.len() && t.nodes[j] is Text {
        lemma_next_stop(t, j + 1);
    }
}

/// Where a forward step from `i` lands: the pre-order successor (or, when
/// the subtree of `i` is skipped, the first node past that subtree), carried
/// onward past every plain label.
pub open spec fn advance_land(t: TreeV, i: int, skip_children: bool) -> int {
    next_stop(t, if skip_children { subtree_end(t.depths, i) } else { i + 1 })
}

/// The last position strictly before `j + 1` whose depth does not exceed
/// `lim`, or -1 if there is none.
pub open spec fn back_scan(d: Seq<nat>, lim: nat, j: int) -> int
    decreases j + 1,
{
    if j < 0 || j >= d.len() {
        -1
    } else if d[j] <= lim {
        j
    } else {
        back_scan(d, lim, j - 1)
    }
}

/// Where a backward step from `i` lands: the previous sibling if there is
/// one, else the parent. Both are the nearest earlier node that is no
/// deeper than `i`.
pub open spec fn retreat_target(d: Seq<nat>, i: int) -> int {
    back_scan(d, d[i], i - 1)
}

/// What the backward scan returns: a position at or before `j`, itself
/// shallow enough, with everything after it too deep; it exists whenever
/// any position up to `j` is shallow enough.
proof fn lemma_back_scan(d: Seq<nat>, lim: nat, j: int)
    requires
        -1 <= j < d.len(),
    ensures
        -1 <= back_scan(d, lim, j) <= j,
        back_scan(d, lim, j) >= 0 ==> d[back_scan(d, lim, j)] <= lim,
        forall|k: int| back_scan(d, lim, j) < k <= j ==> #[trigger] d[k] > lim,
        (exists|k: int| 0 <= k <= j && #[trigger] d[k] <= lim) ==> back_scan(d, lim, j) >= 0,
    decreases j + 1,
{
    if 0 <= j && d[j] > lim {
        lemma_back_scan(d, lim, j - 1);
    }
}

/// Backing up lands on the nearest structural neighbour: the node before
/// the cursor that is no deeper than it, with only deeper nodes in between
/// — under a well-formed shape that is the previous sibling (same depth) or
/// the parent (exactly one level up).
pub proof fn lemma_retreat_properties(d: Seq<nat>, i: int)
    requires
        wf_shape(d),
        0 < i < d.len(),
    ensures
        0 <= retreat_target(d, i) < i,
        forall|k: int| retreat_target(d, i) < k < i ==> #[trigger] d[k] > d[i],
        d[retreat_target(d, i)] == d[i] || d[retreat_target(d, i)] == d[i] - 1,
{
    lemma_back_scan(d, d[i], i - 1);
    assert(d[0] <= d[i]);
    let j = retreat_target(d, i);
    if d[j] < d[i] - 1 {
        // the node right after the landing would have to be both deeper
        // than the cursor and at most one deeper than the landing
        assert(d[j + 1] <= d[j] + 1);
        if j + 1 < i {
            assert(d[j + 1] > d[i]);
        }
        assert(false);
    }
}

/// The question shown for a node: free-text nodes ask to type, choice nodes
/// ask to choose; a plain label is never asked about, so it keeps the
/// previous question.
pub open spec fn prompt_of(n: NodeV, prev: Seq<char>) -> Seq<char> {
    match n {
        NodeV::TextInput { name, .. } => "Type in a "@ + name,
        NodeV::Select { name, .. } => "Choose an option for "@ + name,
        NodeV::Text { .. } => prev,
    }
}

/// The result tree after committing the node at position `i` of the
/// question tree: a resolved answer (non-empty input, or the first selected
/// choice) overwrites the result node at the same position with a plain
/// label carrying the answer; everything else leaves the result tree
/// unchanged.
pub open spec fn commit_spec(t: TreeV, i: int, p: TreeV) -> TreeV {
    match t.nodes[i] {
        NodeV::Text { .. } => p,
        NodeV::TextInput { name: _, input } => if input.len() > 0 {
            TreeV { depths: p.depths, nodes: p.nodes.update(i, NodeV::Text { name: input }) }
        } else {
            p
        },
        NodeV::Select { name: _, options } => match first_selected(options.items) {
            Some(lbl) => TreeV {
                depths: p.depths,
                nodes: p.nodes.update(i, NodeV::Text { name: lbl }),
            },
            None => p,
        },
    }
}

/// A result tree is complete when every node below the root is a plain
/// label with a non-empty name.
pub open spec fn complete(p: TreeV) -> bool {
    forall|i: int| 1 <= i < p.nodes.len() ==> ((#[trigger] p.nodes[i]) matches NodeV::Text { name }
        && name.len() > 0)
}

/// The finalized form of a result tree: the same shape, every node reduced
/// to its name.
pub open spec fn finalized(p: TreeV) -> StringTreeV {
    StringTreeV { depths: p.depths, names: p.nodes.map_values(|n: NodeV| n.name()) }
}

/// What validation returns: the finalized tree exactly when the result tree
/// is complete, and nothing otherwise.
pub open spec fn verdict_matches(p: TreeV, r: Option<StringTree>) -> bool {
    &&& complete(p) ==> (r matches Some(st) && st@ == finalized(p))
    &&& !complete(p) ==> r is None
}

/// Validate a result tree: either every node below the root is a resolved
/// plain label and the finalized plain-name tree is handed out, or nothing
/// is handed out at all.
pub fn check_tree(tree: &Tree) -> (r: Option<StringTree>)
    requires
        tree@.wf(),
    ensures
        verdict_matches(tree@, r),
{
    let len = tree.len();
    let mut i: usize = 1;
    while i < len
        invariant
            1 <= i <= len,
            len == tree@.len(),
            tree@.wf(),
            forall|j: int| 1 <= j < i ==> ((#[trigger] tree@.nodes[j]) matches NodeV::Text {
                name,
            } && name.len() > 0),
        decreases len - i,
    {
        match tree.node(i) {
            LeafNodeType::Text { name } => {
                if name.as_str().is_empty() {
                    return None;
                }
            }
            _ => {
                return None;
            }
        }
        i = i + 1;
    }
    let mut depths: Vec<usize> = Vec::new();
    let mut names: Vec<String> = Vec::new();
    let mut k: usize = 0;
    while k < len
        invariant
            k <= len,
            len == tree@.len(),
            tree@.wf(),
            depths@.len() == k,
            names@.len() == k,
            forall|j: int| 0 <= j < k ==> depths@[j] as nat == tree@.depths[j],
            forall|j: int| 0 <= j < k ==> (#[trigger] names@[j])@ == tree@.nodes[j].name(),
        decreases len - k,
    {
        depths.push(tree.depth(k));
        names.push(tree.node(k).get_name().to_owned());
        k = k + 1;
    }
    let st = StringTree::assemble(depths, names);
    proof {
        assert(st@.depths =~= tree@.depths);
        assert(st@.names =~= finalized(tree@).names);
        assert(st@ =~= finalized(tree@));
    }
    Some(st)
}

/// Ghost model of a wizard session.
#[verifier::ext_equal]
pub struct AppV {
    /// The live question tree.
    pub tree: TreeV,
    /// The parallel result tree.
    pub preview: TreeV,
    /// Pre-order position of the current node (also its id).
    pub cursor: nat,
    /// The question currently shown.
    pub question: Seq<char>,
    /// The caret inside the current free-text input.
    pub caret: nat,
}

impl AppV {
    /// Both trees share one pre-order shape, every node is well formed, and
    /// the cursor points at a node.
    pub open spec fn wf(self) -> bool {
        &&& self.tree.wf()
        &&& self.preview.wf()
        &&& self.preview.depths == self.tree.depths
        &&& self.cursor < self.tree.len()
    }

    /// The node under the cursor.
    pub open spec fn current(self) -> NodeV {
        self.tree.nodes[self.cursor as int]
    }
}

/// One wizard session: the live question tree, the result tree cloned from
/// it at start, and the cursor state.
pub struct App {
    tree: Tree,
    preview_tree: Tree,
    cursor: usize,
    question: String,
    cursor_position: usize,
}

impl View for App {
    type V = AppV;

    closed spec fn view(&self) -> AppV {
        AppV {
            tree: self.tree@,
            preview: self.preview_tree@,
            cursor: self.cursor as nat,
            question: self.question@,
            caret: self.cursor_position as nat,
        }
    }
}

/// Clamping the caret: inside the current free-text input it may sit at any
/// position up to the input's length; on any other node it is pinned to 1.
pub open spec fn clamp_spec(cur: NodeV, p: nat) -> nat {
    match cur {
        NodeV::TextInput { name: _, input } => if p <= input.len() {
            p
        } else {
            input.len()
        },
        _ => 1,
    }
}

impl App {
    /// Seed a session: the result tree is cloned from the question tree
    /// exactly once, before any interaction, so the two stay aligned by
    /// pre-order position; the cursor starts at the root.
    pub fn new(tree: Tree) -> (r: App)
        requires
            tree@.wf(),
        ensures
            r@.wf(),
            r@.tree == tree@,
            r@.preview == tree@,
            r@.cursor == 0,
            r@.question == Seq::<char>::empty(),
            r@.caret == 0,
    {
        let preview_tree = tree.clone();
        App { tree, preview_tree, cursor: 0, question: String::new(), cursor_position: 0 }
    }

    /// The question currently shown.
    pub fn question(&self) -> (r: &String)
        ensures
            r@ == self@.question,
    {
        &self.question
    }

    /// The pre-order position of the current node.
    pub fn vertical_index(&self) -> (r: usize)
        ensures
            r == self@.cursor,
    {
        self.cursor
    }

    /// The identity of the current node.
    pub fn node_id(&self) -> (r: NodeId)
        ensures
            r.index == self@.cursor,
    {
        NodeId { index: self.cursor }
    }

    /// The caret inside the current free-text input.
    pub fn cursor_position(&self) -> (r: usize)
        ensures
            r == self@.caret,
    {
        self.cursor_position
    }

    /// A read-only look at the result tree, for rendering.
    pub fn preview(&self) -> (r: &Tree)
        ensures
            r@ == self@.preview,
    {
        &self.preview_tree
    }

    /// A read-only look at the question tree.
    pub fn question_tree(&self) -> (r: &Tree)
        ensures
            r@ == self@.tree,
    {
        &self.tree
    }

    /// A copy of the current node's value.
    pub fn data_cloned(&self) -> (r: Option<LeafNodeType>)
        requires
            self@.wf(),
        ensures
            r matches Some(n) && n@ == self@.current(),
    {
        Some(self.tree.node(self.cursor).clone())
    }

    /// Refresh the shown question from the current node; a plain label
    /// keeps the previous question.
    pub fn set_question(&mut self)
        requires
            old(self)@.wf(),
        ensures
            final(self)@ == (AppV {
                question: prompt_of(old(self)@.current(), old(self)@.question),
                ..old(self)@
            }),
    {
        let q: Option<String> = match self.tree.node(self.cursor) {
            LeafNodeType::TextInput { name, .. } => {
                let mut s = String::from_str("Type in a ");
                s.append(name.as_str());
                Some(s)
            }
            LeafNodeType::Select { name, .. } => {
                let mut s = String::from_str("Choose an option for ");
                s.append(name.as_str());
                Some(s)
            }
            LeafNodeType::Text { .. } => None,
        };
        if let Some(s) = q {
            self.question = s;
        }
        proof {
            assert(self@ =~= (AppV {
                question: prompt_of(old(self)@.current(), old(self)@.question),
                ..old(self)@
            }));
        }
    }

    /// Clamp a caret candidate against the current node (see
    /// [`clamp_spec`]).
    fn clamp_cursor(&self, p: usize) -> (r: usize)
        requires
            self@.wf(),
        ensures
            r as nat == clamp_spec(self@.current(), p as nat),
    {
        match self.tree.node(self.cursor) {
            LeafNodeType::TextInput { input, .. } => {
                let n = input.as_str().unicode_len();
                if p <= n {
                    p
                } else {
                    n
                }
            }
            _ => 1,
        }
    }

    /// Move the caret one place left, clamped into the current input.
    pub fn move_cursor_left(&mut self)
        requires
            old(self)@.wf(),
        ensures
            final(self)@ == (AppV {
                caret: clamp_spec(
                    old(self)@.current(),
                    if old(self)@.caret > 0 { (old(self)@.caret - 1) as nat } else { 0 },
                ),
                ..old(self)@
            }),
    {
        let p = if self.cursor_position > 0 {
            self.cursor_position - 1
        } else {
            0
        };
        let c = self.clamp_cursor(p);
        self.cursor_position = c;
        proof {
            assert(self@ =~= (AppV { caret: self.cursor_position as nat, ..old(self)@ }));
        }
    }

    /// Move the caret one place right (saturating), clamped into the
    /// current input.
    pub fn move_cursor_right(&mut self)
        requires
            old(self)@.wf(),
        ensures
            final(self)@ == (AppV {
                caret: clamp_spec(
                    old(self)@.current(),
                    if old(self)@.caret < usize::MAX {
                        old(self)@.caret + 1
                    } else {
                        usize::MAX as nat
                    },
                ),
                ..old(self)@
            }),
    {
        let p = if self.cursor_position < usize::MAX {
            self.cursor_position + 1
        } else {
            usize::MAX
        };
        let c = self.clamp_cursor(p);
        self.cursor_position = c;
        proof {
            assert(self@ =~= (AppV { caret: c as nat, ..old(self)@ }));
        }
    }

    /// Put the caret at the start of the input.
    pub fn reset_cursor(&mut self)
        ensures
            final(self)@ == (AppV { caret: 0, ..old(self)@ }),
    {
        self.cursor_position = 0;
        proof {
            assert(self@ =~= (AppV { caret: 0, ..old(self)@ }));
        }
    }

    /// Put the caret at the end of the current input; on any other node the
    /// caret stays where it was.
    pub fn cursor_end(&mut self)
        requires
            old(self)@.wf(),
        ensures
            final(self)@ == (AppV {
                caret: match old(self)@.current() {
                    NodeV::TextInput { name: _, input } => input.len(),
                    _ => old(self)@.caret,
                },
                ..old(self)@
            }),
    {
        let p: Option<usize> = match self.tree.node(self.cursor) {
            LeafNodeType::TextInput { input, .. } => Some(input.as_str().unicode_len()),
            _ => None,
        };
        if let Some(p) = p {
            self.cursor_position = p;
        }
        proof {
            assert(self@ =~= (AppV {
                caret: match old(self)@.current() {
                    NodeV::TextInput { name: _, input } => input.len(),
                    _ => old(self)@.caret,
                },
                ..old(self)@
            }));
        }
    }

    /// Type one character into the current free-text input, at the caret
    /// (clamped into the input); the caret moves right past it. On any
    /// other node nothing changes.
    pub fn enter_char(&mut self, c: char)
        requires
            old(self)@.wf(),
        ensures
            final(self)@.wf(),
            (match old(self)@.current() {
                NodeV::TextInput { name, input } => {
                    let p: int = if old(self)@.caret <= input.len() {
                        old(self)@.caret as int
                    } else {
                        input.len() as int
                    };
                    final(self)@ == (AppV {
                        tree: TreeV {
                            depths: old(self)@.tree.depths,
                            nodes: old(self)@.tree.nodes.update(
                                old(self)@.cursor as int,
                                NodeV::TextInput { name, input: input.insert(p, c) },
                            ),
                        },
                        caret: (p + 1) as nat,
                        ..old(self)@
                    })
                },
                _ => final(self)@ == old(self)@,
            }),
    {
        let i = self.cursor;
        let built: Option<(LeafNodeType, usize)> = match self.tree.node(i) {
            LeafNodeType::TextInput { name, input } => {
                let n = input.as_str().unicode_len();
                let p = if self.cursor_position <= n {
                    self.cursor_position
                } else {
                    n
                };
                let mut s = input.as_str().substring_char(0, p).to_owned();
                push_char(&mut s, c);
                s.append(input.as_str().substring_char(p, n));
                proof {
                    assert(s@ =~= input@.insert(p as int, c));
                }
                Some((LeafNodeType::TextInput { name: name.clone(), input: s }, p))
            }
            _ => None,
        };
        if let Some((node, p)) = built {
            // measuring the grown input bounds its length by usize::MAX, so
            // the caret one past the insertion point fits in a usize
            let total = match &node {
                LeafNodeType::TextInput { input, .. } => input.as_str().unicode_len(),
                _ => 0,
            };
            assert(p < total);
            self.tree.set_node(i, node);
            self.cursor_position = p + 1;
        }
        proof {
            match old(self)@.current() {
                NodeV::TextInput { name, input } => {
                    assert(self@ =~= (AppV {
                        tree: TreeV {
                            depths: old(self)@.tree.depths,
                            nodes: old(self)@.tree.nodes.update(
                                old(self)@.cursor as int,
                                NodeV::TextInput {
                                    name,
                                    input: input.insert(
                                        if old(self)@.caret <= input.len() {
                                            old(self)@.caret as int
                                        } else {
                                            input.len() as int
                                        },
                                        c,
                                    ),
                                },
                            ),
                        },
                        caret: self@.caret,
                        ..old(self)@
                    }));
                }
                _ => {
                    assert(self@ =~= old(self)@);
                }
            }
        }
    }

    /// Delete the character left of the caret (clamped into the input) in
    /// the current free-text input; with the caret at the start, or on any
    /// other node, nothing changes.
    pub fn delete_char(&mut self)
        requires
            old(self)@.wf(),
        ensures
            final(self)@.wf(),
            (match old(self)@.current() {
                NodeV::TextInput { name, input } => {
                    let p: int = if old(self)@.caret <= input.len() {
                        old(self)@.caret as int
                    } else {
                        input.len() as int
                    };
                    if p > 0 {
                        final(self)@ == (AppV {
                            tree: TreeV {
                                depths: old(self)@.tree.depths,
                                nodes: old(self)@.tree.nodes.update(
                                    old(self)@.cursor as int,
                                    NodeV::TextInput { name, input: input.remove(p - 1) },
                                ),
                            },
                            caret: (p - 1) as nat,
                            ..old(self)@
                        })
                    } else {
                        final(self)@ == old(self)@
                    }
                },
                _ => final(self)@ == old(self)@,
            }),
    {
        let i = self.cursor;
        let built: Option<(LeafNodeType, usize)> = match self.tree.node(i) {
            LeafNodeType::TextInput { name, input } => {
                let n = input.as_str().unicode_len();
                let p = if self.cursor_position <= n {
                    self.cursor_position
                } else {
                    n
                };
                if p > 0 {
                    let mut s = input.as_str().substring_char(0, p - 1).to_owned();
                    s.append(input.as_str().substring_char(p, n));
                    proof {
                        assert(s@ =~= input@.remove(p - 1));
                    }
                    Some((LeafNodeType::TextInput { name: name.clone(), input: s }, p))
                } else {
                    None
                }
            }
            _ => None,
        };
        match built {
            Some((node, p)) => {
                self.tree.set_node(i, node);
                self.cursor_position = p - 1;
                proof {
                    assert(self@ =~= (AppV {
                        tree: self@.tree,
                        caret: self@.caret,
                        ..old(self)@
                    }));
                }
            }
            None => {
                proof {
                    assert(self@ =~= old(self)@);
                }
            }
        }
    }

    /// Move the highlight of the current choice list one entry down.
    pub fn option_next(&mut self)
        requires
            old(self)@.wf(),
        ensures
            final(self)@.wf(),
            (match old(self)@.current() {
                NodeV::Select { name, options } => final(self)@ == (AppV {
                    tree: TreeV {
                        depths: old(self)@.tree.depths,
                        nodes: old(self)@.tree.nodes.update(
                            old(self)@.cursor as int,
                            NodeV::Select { name, options: list_next(options) },
                        ),
                    },
                    ..old(self)@
                }),
                _ => final(self)@ == old(self)@,
            }),
    {
        let i = self.cursor;
        let built: Option<LeafNodeType> = match self.tree.node(i) {
            LeafNodeType::Select { name, options } => {
                let mut l = options.clone();
                l.next();
                proof {
                    assert(l@ =~= list_next(old(self)@.current()->Select_options));
                }
                Some(LeafNodeType::Select { name: name.clone(), options: l })
            }
            _ => None,
        };
        if let Some(node) = built {
            self.tree.set_node(i, node);
        }
        proof {
            match old(self)@.current() {
                NodeV::Select { name, options } => {
                    assert(self@ =~= (AppV {
                        tree: TreeV {
                            depths: old(self)@.tree.depths,
                            nodes: old(self)@.tree.nodes.update(
                                old(self)@.cursor as int,
                                NodeV::Select { name, options: list_next(options) },
                            ),
                        },
                        ..old(self)@
                    }));
                }
                _ => {
                    assert(self@ =~= old(self)@);
                }
            }
        }
    }

    /// Move the highlight of the current choice list one entry up.
    pub fn option_previous(&mut self)
        requires
            old(self)@.wf(),
        ensures
            final(self)@.wf(),
            (match old(self)@.current() {
                NodeV::Select { name, options } => final(self)@ == (AppV {
                    tree: TreeV {
                        depths: old(self)@.tree.depths,
                        nodes: old(self)@.tree.nodes.update(
                            old(self)@.cursor as int,
                            NodeV::Select { name, options: list_previous(options) },
                        ),
                    },
                    ..old(self)@
                }),
                _ => final(self)@ == old(self)@,
            }),
    {
        let i = self.cursor;
        let built: Option<LeafNodeType> = match self.tree.node(i) {
            LeafNodeType::Select { name, options } => {
                let mut l = options.clone();
                l.previous();
                proof {
                    assert(l@ =~= list_previous(old(self)@.current()->Select_options));
                }
                Some(LeafNodeType::Select { name: name.clone(), options: l })
            }
            _ => None,
        };
        if let Some(node) = built {
            self.tree.set_node(i, node);
        }
        proof {
            match old(self)@.current() {
                NodeV::Select { name, options } => {
                    assert(self@ =~= (AppV {
                        tree: TreeV {
                            depths: old(self)@.tree.depths,
                            nodes: old(self)@.tree.nodes.update(
                                old(self)@.cursor as int,
                                NodeV::Select { name, options: list_previous(options) },
                            ),
                        },
                        ..old(self)@
                    }));
                }
                _ => {
                    assert(self@ =~= old(self)@);
                }
            }
        }
    }

    /// Mark the highlighted entry of the current choice list; on an empty
    /// list, or on a node that is no choice list, an advisory message may
    /// come back and nothing changes.
    pub fn mark_item(&mut self) -> (r: Option<String>)
        requires
            old(self)@.wf(),
        ensures
            final(self)@.wf(),
            (match old(self)@.current() {
                NodeV::Select { name, options } => {
                    if options.items.len() == 0 {
                        final(self)@ == old(self)@ && (r matches Some(m) && m@
                            == "please make a selection"@)
                    } else {
                        final(self)@ == (AppV {
                            tree: TreeV {
                                depths: old(self)@.tree.depths,
                                nodes: old(self)@.tree.nodes.update(
                                    old(self)@.cursor as int,
                                    NodeV::Select { name, options: list_marked(options) },
                                ),
                            },
                            ..old(self)@
                        }) && r is None
                    }
                },
                _ => final(self)@ == old(self)@ && r is None,
            }),
    {
        let i = self.cursor;
        let built: Option<(LeafNodeType, Option<String>)> = match self.tree.node(i) {
            LeafNodeType::Select { name, options } => {
                let mut l = options.clone();
                let msg = l.mark_item();
                proof {
                    let opts = old(self)@.current()->Select_options;
                    if opts.items.len() == 0 {
                        assert(l@ =~= opts);
                    } else {
                        assert(l@ =~= list_marked(opts));
                    }
                }
                Some((LeafNodeType::Select { name: name.clone(), options: l }, msg))
            }
            _ => None,
        };
        match built {
            Some((node, msg)) => {
                self.tree.set_node(i, node);
                proof {
                    match old(self)@.current() {
                        NodeV::Select { name, options } => {
                            if options.items.len() == 0 {
                                assert(self@.tree.nodes =~= old(self)@.tree.nodes);
                                assert(self@ =~= old(self)@);
                            } else {
                                assert(self@ =~= (AppV {
                                    tree: TreeV {
                                        depths: old(self)@.tree.depths,
                                        nodes: old(self)@.tree.nodes.update(
                                            old(self)@.cursor as int,
                                            NodeV::Select {
                                                name,
                                                options: list_marked(options),
                                            },
                                        ),
                                    },
                                    ..old(self)@
                                }));
                            }
                        }
                        _ => {}
                    }
                }
                msg
            }
            None => {
                proof {
                    assert(self@ =~= old(self)@);
                }
                None
            }
        }
    }

    /// Move forward: to the first child (unless children are skipped), else
    /// to the next sibling, else up to the first ancestor with a later
    /// sibling — which in pre-order is simply the next position, or the end
    /// of the subtree when children are skipped. Plain labels are passed
    /// over, never stopped on. Reaching the end of the tree leaves the
    /// cursor on the root and validates the result tree.
    pub fn next_item(&mut self, skip_child: bool) -> (r: Option<StringTree>)
        requires
            old(self)@.wf(),
        ensures
            final(self)@.wf(),
            final(self)@.tree == old(self)@.tree,
            final(self)@.preview == old(self)@.preview,
            final(self)@.caret == old(self)@.caret,
            ({
                let t = old(self)@.tree;
                let land = advance_land(t, old(self)@.cursor as int, skip_child);
                if land < t.len() {
                    &&& final(self)@.cursor == land
                    &&& !(t.nodes[land] is Text)
                    &&& final(self)@.question == prompt_of(t.nodes[land], old(self)@.question)
                    &&& r is None
                } else {
                    &&& final(self)@.cursor == 0
                    &&& final(self)@.question == old(self)@.question
                    &&& verdict_matches(old(self)@.preview, r)
                }
            }),
    {
        let len = self.tree.len();
        let start = if skip_child {
            self.tree.subtree_end_at(self.cursor)
        } else {
            self.cursor + 1
        };
        let ghost t = self@.tree;
        let mut j = start;
        while j < len && self.tree.node(j).is_label()
            invariant
                start <= j <= len,
                len == t.len(),
                t == self@.tree,
                self@.wf(),
                next_stop(t, start as int) == next_stop(t, j as int),
            decreases len - j,
        {
            j = j + 1;
        }
        proof {
            lemma_next_stop(t, start as int);
        }
        if j < len {
            self.cursor = j;
            self.set_question();
            None
        } else {
            self.cursor = 0;
            check_tree(&self.preview_tree)
        }
    }

    /// Move backward: to the previous sibling if there is one, else to the
    /// parent; the root stays put. Plain labels are not passed over — the
    /// asymmetry with forward movement is deliberate, backing up lands on
    /// the nearest structural neighbour.
    pub fn previous_item(&mut self)
        requires
            old(self)@.wf(),
        ensures
            final(self)@.wf(),
            ({
                let t = old(self)@.tree;
                let i = old(self)@.cursor as int;
                if i == 0 {
                    final(self)@ == old(self)@
                } else {
                    let j = retreat_target(t.depths, i);
                    &&& 0 <= j < i
                    &&& final(self)@ == (AppV {
                        cursor: j as nat,
                        question: prompt_of(t.nodes[j], old(self)@.question),
                        ..old(self)@
                    })
                }
            }),
    {
        if self.cursor == 0 {
            proof {
                assert(self@ =~= old(self)@);
            }
            return;
        }
        let ghost t = self@.tree;
        let lim = self.tree.depth(self.cursor);
        let mut j = self.cursor - 1;
        while self.tree.depth(j) > lim
            invariant
                0 <= j < self@.cursor,
                self@.cursor < t.len(),
                t == self@.tree,
                self@.wf(),
                lim as nat == t.depths[self@.cursor as int],
                back_scan(t.depths, lim as nat, self@.cursor - 1) == back_scan(
                    t.depths,
                    lim as nat,
                    j as int,
                ),
            decreases j,
        {
            j = j - 1;
        }
        self.cursor = j;
        self.set_question();
    }

    /// Commit the current node into the result tree (see [`commit_spec`]):
    /// called before every forward move, so the result tree reflects the
    /// node being left.
    pub fn update_preview_tree(&mut self)
        requires
            old(self)@.wf(),
        ensures
            final(self)@.wf(),
            final(self)@ == (AppV {
                preview: commit_spec(
                    old(self)@.tree,
                    old(self)@.cursor as int,
                    old(self)@.preview,
                ),
                ..old(self)@
            }),
    {
        let i = self.cursor;
        let replacement: Option<String> = match self.tree.node(i) {
            LeafNodeType::Text { .. } => None,
            LeafNodeType::TextInput { input, .. } => {
                if !input.as_str().is_empty() {
                    Some(input.clone())
                } else {
                    None
                }
            }
            LeafNodeType::Select { options, .. } => options.get_selected(),
        };
        if let Some(name) = replacement {
            self.preview_tree.set_node(i, LeafNodeType::Text { name });
        }
        proof {
            assert(self@ =~= (AppV {
                preview: commit_spec(
                    old(self)@.tree,
                    old(self)@.cursor as int,
                    old(self)@.preview,
                ),
                ..old(self)@
            }));
        }
    }
}

/// A choice list after moving the highlight one entry down (wrapping).
pub open spec fn list_next(l: ListV) -> ListV {
    if l.items.len() == 0 {
        l
    } else {
        ListV { selected: (l.selected + 1) % l.items.len(), ..l }
    }
}

/// A choice list after moving the highlight one entry up (wrapping).
pub open spec fn list_previous(l: ListV) -> ListV {
    if l.items.len() == 0 {
        l
    } else if l.selected == 0 {
        ListV { selected: (l.items.len() - 1) as nat, ..l }
    } else {
        ListV { selected: (l.selected - 1) as nat, ..l }
    }
}

/// A choice list after marking the highlighted entry.
pub open spec fn list_marked(l: ListV) -> ListV {
    ListV { items: l.marked_items(), ..l }
}

/// Committing twice in a row, without changing the current question node,
/// gives the same result tree as committing once.
pub proof fn lemma_commit_idempotent(t: TreeV, i: int, p: TreeV)
    requires
        0 <= i < t.nodes.len(),
        p.nodes.len() == t.nodes.len(),
    ensures
        commit_spec(t, i, commit_spec(t, i, p)) == commit_spec(t, i, p),
{
    let once = commit_spec(t, i, p);
    match t.nodes[i] {
        NodeV::Text { .. } => {}
        NodeV::TextInput { name: _, input } => {
            if input.len() > 0 {
                assert(commit_spec(t, i, once).nodes =~= once.nodes);
                assert(commit_spec(t, i, once) =~= once);
            }
        }
        NodeV::Select { name: _, options } => {
            if first_selected(options.items) is Some {
                assert(commit_spec(t, i, once).nodes =~= once.nodes);
                assert(commit_spec(t, i, once) =~= once);
            }
        }
    }
}

/// Forward movement always gains ground, never rests on a plain label, and
/// passes over nothing but plain labels: repeated advancing therefore
/// visits every non-label node at or after the starting point exactly once,
/// in pre-order, until it runs off the end of the tree.
pub proof fn lemma_advance_properties(t: TreeV, i: int, skip_children: bool)
    requires
        t.wf(),
        0 <= i < t.len(),
    ensures
        i < advance_land(t, i, skip_children) <= t.len(),
        advance_land(t, i, skip_children) < t.len() ==> !(t.nodes[advance_land(
            t,
            i,
            skip_children,
        )] is Text),
        forall|k: int|
            (if skip_children {
                subtree_end(t.depths, i)
            } else {
                i + 1
            }) <= k < advance_land(t, i, skip_children) ==> (#[trigger] t.nodes[k]) is Text,
{
    if skip_children {
        lemma_scan_shallow(t.depths, t.depths[i], i + 1);
        lemma_next_stop(t, subtree_end(t.depths, i));
    } else {
        lemma_next_stop(t, i + 1);
    }
}

} // verus!
