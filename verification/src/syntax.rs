//! Python syntax trees as plain data: the nodes in the order in which a walk from the root meets
//! them, each with its depth. The depths alone say which node stands under which.
use vstd::prelude::*;
use vstd::string::*;
use vstd::utf8::*;

use crate::text::{opt_view, same};

verus! {

/// Why a source text has no syntax tree.
#[derive(Copy, Clone, Debug, PartialEq, Eq, Structural)]
pub enum SyntaxError {
    /// The Python grammar could not be loaded.
    Grammar,
    /// The parser gave no tree.
    NoTree,
}

impl SyntaxError {
    /// The message for this failure.
    pub fn message(&self) -> (r: String)
        ensures
            r@ == syntax_error_text(*self),
    {
        match self {
            SyntaxError::Grammar => "failed to load tree-sitter Python grammar".to_owned(),
            SyntaxError::NoTree => "tree-sitter returned no tree".to_owned(),
        }
    }
}

/// The message for a failure.
pub open spec fn syntax_error_text(e: SyntaxError) -> Seq<char> {
    match e {
        SyntaxError::Grammar => "failed to load tree-sitter Python grammar"@,
        SyntaxError::NoTree => "tree-sitter returned no tree"@,
    }
}

/// A node as the parser hands it out: its place in the source is a range of bytes.
#[derive(Debug)]
pub struct RawNode {
    pub kind: String,
    pub field: Option<String>,
    pub named: bool,
    pub depth: u32,
    pub row: usize,
    pub start: usize,
    pub end: usize,
}

/// What a `RawNode` says.
#[verifier::ext_equal]
pub struct RawModel {
    pub kind: Seq<char>,
    pub field: Option<Seq<char>>,
    pub named: bool,
    pub depth: nat,
    pub row: nat,
    pub start: nat,
    pub end: nat,
}

impl View for RawNode {
    type V = RawModel;

    open spec fn view(&self) -> RawModel {
        RawModel {
            kind: self.kind@,
            field: opt_view(self.field),
            named: self.named,
            depth: self.depth as nat,
            row: self.row as nat,
            start: self.start as nat,
            end: self.end as nat,
        }
    }
}

/// One node of a syntax tree.
#[derive(Debug)]
pub struct SyntaxNode {
    /// The grammar's name for this kind of node.
    pub kind: String,
    /// The name under which its parent holds it, if it has one.
    pub field: Option<String>,
    /// Whether the grammar names it, as opposed to a bare token.
    pub named: bool,
    /// How many nodes stand above it.
    pub depth: usize,
    /// The line it starts on, counted from zero.
    pub row: usize,
    /// The source text it spans.
    pub text: Option<String>,
}

/// What a `SyntaxNode` says.
#[verifier::ext_equal]
pub struct NodeModel {
    pub kind: Seq<char>,
    pub field: Option<Seq<char>>,
    pub named: bool,
    pub depth: nat,
    pub row: nat,
    pub text: Option<Seq<char>>,
}

impl View for SyntaxNode {
    type V = NodeModel;

    open spec fn view(&self) -> NodeModel {
        NodeModel {
            kind: self.kind@,
            field: opt_view(self.field),
            named: self.named,
            depth: self.depth as nat,
            row: self.row as nat,
            text: opt_view(self.text),
        }
    }
}

/// A syntax tree: its nodes in the order in which a walk from the root meets them.
#[derive(Debug)]
pub struct SyntaxTree {
    pub nodes: Vec<SyntaxNode>,
}

impl View for SyntaxTree {
    type V = Seq<NodeModel>;

    open spec fn view(&self) -> Seq<NodeModel> {
        Seq::new(self.nodes@.len(), |i: int| self.nodes@[i]@)
    }
}

/// `tree_sitter::Tree`, the tree that a parse gives.
#[verifier::external_type_specification]
#[verifier::external_body]
pub struct ExTree(tree_sitter::Tree);

/// The nodes that a tree holds, in the order in which a walk from the root meets them.
pub uninterp spec fn tree_contents(tree: tree_sitter::Tree) -> Seq<RawModel>;

/// What parsing `source` as Python gives.
pub uninterp spec fn python_syntax(source: Seq<char>) -> Result<Seq<RawModel>, SyntaxError>;

/// `tree_sitter::Parser::parse` with the grammar of `tree_sitter_python`, on a parser made for
/// this one call. Claims that what comes back depends on the source alone: the nodes of a tree,
/// or which of the two steps failed.
#[verifier::external_body]
fn parse_tree(source: &str) -> (r: Result<tree_sitter::Tree, SyntaxError>)
    ensures
        match r {
            Ok(tree) => python_syntax(source@) == Ok::<Seq<RawModel>, SyntaxError>(
                tree_contents(tree),
            ),
            Err(e) => python_syntax(source@) == Err::<Seq<RawModel>, SyntaxError>(e),
        },
{
    let mut parser = tree_sitter::Parser::new();
    match parser.set_language(&tree_sitter_python::LANGUAGE.into()) {
        Ok(()) => parser.parse(source, None).ok_or(SyntaxError::NoTree),
        Err(_) => Err(SyntaxError::Grammar),
    }
}

/// `tree_sitter::Node::descendant_count` of the root. Claims that this is how many nodes the tree
/// holds.
#[verifier::external_body]
fn tree_size(tree: &tree_sitter::Tree) -> (r: usize)
    ensures
        r == tree_contents(*tree).len(),
{
    tree.root_node().descendant_count()
}

/// `tree_sitter::TreeCursor::goto_descendant` from the root, and what the cursor and its node say
/// there. Claims that this is the node at that place in a walk from the root.
#[verifier::external_body]
fn tree_node(tree: &tree_sitter::Tree, index: usize) -> (r: RawNode)
    requires
        index < tree_contents(*tree).len(),
    ensures
        r@ == tree_contents(*tree)[index as int],
{
    let mut cursor = tree.walk();
    cursor.goto_descendant(index);
    let node = cursor.node();
    RawNode {
        kind: node.kind().to_string(),
        field: cursor.field_name().map(str::to_string),
        named: node.is_named(),
        depth: cursor.depth(),
        row: node.start_position().row,
        start: node.start_byte(),
        end: node.end_byte(),
    }
}

/// The nodes that a tree holds.
fn tree_nodes(tree: &tree_sitter::Tree) -> (r: Vec<RawNode>)
    ensures
        Seq::new(r@.len(), |i: int| r@[i]@) == tree_contents(*tree),
{
    let size: usize = tree_size(tree);
    let mut nodes: Vec<RawNode> = Vec::new();
    while nodes.len() < size
        invariant
            size == tree_contents(*tree).len(),
            nodes@.len() <= size,
            forall|k: int| 0 <= k < nodes@.len() ==> (#[trigger] nodes@[k])@ == tree_contents(*tree)[k],
        decreases size - nodes@.len(),
    {
        let node = tree_node(tree, nodes.len());
        nodes.push(node);
    }
    assert(Seq::new(nodes@.len(), |i: int| nodes@[i]@) =~= tree_contents(*tree));
    nodes
}

/// The part of `source` from byte `start` up to byte `end`, where both stand between characters.
pub open spec fn byte_range(source: Seq<char>, start: int, end: int) -> Option<Seq<char>> {
    let bytes = encode_utf8(source);
    if 0 <= start <= end <= bytes.len() && is_char_boundary(bytes, start) && is_char_boundary(
        bytes,
        end,
    ) {
        Some(decode_utf8(bytes.subrange(start, end)))
    } else {
        None
    }
}

/// The node that a raw node of the tree of `source` stands for.
pub open spec fn node_of(raw: RawModel, source: Seq<char>) -> NodeModel {
    NodeModel {
        kind: raw.kind,
        field: raw.field,
        named: raw.named,
        depth: raw.depth,
        row: raw.row,
        text: byte_range(source, raw.start as int, raw.end as int),
    }
}

/// The tree that the raw nodes of the tree of `source` stand for.
pub open spec fn tree_of(raw: Seq<RawModel>, source: Seq<char>) -> Seq<NodeModel> {
    Seq::new(raw.len(), |i: int| node_of(raw[i], source))
}

fn text_between(source: &str, start: usize, end: usize) -> (r: Option<String>)
    ensures
        opt_view(r) == byte_range(source@, start as int, end as int),
{
    let ghost bytes = source.spec_bytes();
    proof {
        encode_utf8_valid_utf8(source@);
    }
    if start > end || end > source.as_bytes().len() || !source.is_char_boundary(start)
        || !source.is_char_boundary(end) {
        return None;
    }
    let (front, back) = source.split_at(end);
    proof {
        encode_utf8_valid_utf8(front@);
        is_char_boundary_start_end_of_seq(front.spec_bytes());
        if start < end {
            is_char_boundary_iff_not_is_continuation_byte(bytes, start as int);
            is_char_boundary_iff_not_is_continuation_byte(front.spec_bytes(), start as int);
        }
    }
    let (before, wanted) = front.split_at(start);
    proof {
        assert(wanted.spec_bytes() =~= bytes.subrange(start as int, end as int));
        encode_utf8_decode_utf8(wanted@);
    }
    Some(wanted.to_owned())
}

/// The syntax tree of a Python source text.
pub fn parse_source(source: &str) -> (r: Result<SyntaxTree, SyntaxError>)
    ensures
        match python_syntax(source@) {
            Ok(raw) => r is Ok && r->Ok_0@ == tree_of(raw, source@),
            Err(e) => r == Err::<SyntaxTree, SyntaxError>(e),
        },
{
    let tree = match parse_tree(source) {
        Ok(tree) => tree,
        Err(e) => {
            return Err(e);
        },
    };
    let raw = tree_nodes(&tree);
    Ok(SyntaxTree::from_raw(&raw, source))
}

/// The positions from `from` up to `to` at which `p` holds, in order.
pub open spec fn select(from: int, to: int, p: spec_fn(int) -> bool) -> Seq<int>
    decreases to - from,
{
    if from >= to {
        Seq::empty()
    } else if p(to - 1) {
        select(from, to - 1, p).push(to - 1)
    } else {
        select(from, to - 1, p)
    }
}

/// The first of a list of positions.
pub open spec fn first(s: Seq<int>) -> Option<int> {
    if s.len() > 0 {
        Some(s[0])
    } else {
        None
    }
}

/// The first position at or after `k` whose node is no deeper than `depth`.
pub open spec fn end_from(t: Seq<NodeModel>, depth: nat, k: int) -> int
    decreases t.len() - k,
{
    if k < 0 || k >= t.len() || t[k].depth <= depth {
        k
    } else {
        end_from(t, depth, k + 1)
    }
}

/// Where the part of the tree that stands under node `i` ends.
pub open spec fn end_of(t: Seq<NodeModel>, i: int) -> int {
    end_from(t, t[i].depth, i + 1)
}

/// Being a child of node `i`, among the positions under it.
pub open spec fn child_test(t: Seq<NodeModel>, i: int) -> spec_fn(int) -> bool {
    |k: int| t[k].depth == t[i].depth + 1
}

/// Being a child of node `i` that the grammar names.
pub open spec fn named_child_test(t: Seq<NodeModel>, i: int) -> spec_fn(int) -> bool {
    |k: int| t[k].depth == t[i].depth + 1 && t[k].named
}

/// Being a child that node `i` holds under the name `field`.
pub open spec fn field_test(t: Seq<NodeModel>, i: int, field: Seq<char>) -> spec_fn(int) -> bool {
    |k: int| t[k].depth == t[i].depth + 1 && t[k].field == Some(field)
}

/// Being a node of kind `kind`.
pub open spec fn kind_test(t: Seq<NodeModel>, kind: Seq<char>) -> spec_fn(int) -> bool {
    |k: int| t[k].kind == kind
}

/// The children of node `i`.
pub open spec fn children(t: Seq<NodeModel>, i: int) -> Seq<int> {
    select(i + 1, end_of(t, i), child_test(t, i))
}

/// The children of node `i` that the grammar names.
pub open spec fn named_children(t: Seq<NodeModel>, i: int) -> Seq<int> {
    select(i + 1, end_of(t, i), named_child_test(t, i))
}

/// The first child of node `i` that the grammar names.
pub open spec fn named_child(t: Seq<NodeModel>, i: int) -> Option<int> {
    first(named_children(t, i))
}

/// The first child that node `i` holds under the name `field`.
pub open spec fn child_by_field(t: Seq<NodeModel>, i: int, field: Seq<char>) -> Option<int> {
    first(select(i + 1, end_of(t, i), field_test(t, i, field)))
}

/// The nodes of kind `kind` at or under node `i`.
pub open spec fn descendants(t: Seq<NodeModel>, i: int, kind: Seq<char>) -> Seq<int> {
    select(i, end_of(t, i), kind_test(t, kind))
}

/// The last position before `k` whose node is less deep than `depth`.
pub open spec fn parent_before(t: Seq<NodeModel>, depth: nat, k: int) -> Option<int>
    decreases k,
{
    if k <= 0 || k > t.len() {
        None
    } else if t[k - 1].depth < depth {
        Some(k - 1)
    } else {
        parent_before(t, depth, k - 1)
    }
}

/// The node that node `i` stands under.
pub open spec fn parent(t: Seq<NodeModel>, i: int) -> Option<int> {
    parent_before(t, t[i].depth, i)
}

/// The positions that machine indices stand for.
pub open spec fn positions(v: Seq<usize>) -> Seq<int> {
    Seq::new(v.len(), |i: int| v[i] as int)
}

/// The position that an optional machine index stands for.
pub open spec fn position(o: Option<usize>) -> Option<int> {
    match o {
        Some(i) => Some(i as int),
        None => None,
    }
}

/// The first position at which the test holds is the first of the selection.
proof fn lemma_first_of(from: int, to: int, p: spec_fn(int) -> bool, at: int)
    requires
        from <= at < to,
        p(at),
        forall|k: int| from <= k < at ==> !(#[trigger] p(k)),
    ensures
        first(select(from, to, p)) == Some(at),
    decreases to - from,
{
    if at < to - 1 {
        lemma_first_of(from, to - 1, p, at);
    } else {
        lemma_none_of(from, to - 1, p);
    }
}

/// Nothing is selected where the test holds nowhere.
proof fn lemma_none_of(from: int, to: int, p: spec_fn(int) -> bool)
    requires
        forall|k: int| from <= k < to ==> !(#[trigger] p(k)),
    ensures
        select(from, to, p) == Seq::<int>::empty(),
    decreases to - from,
{
    if from < to {
        lemma_none_of(from, to - 1, p);
    }
}

impl SyntaxTree {
    /// The tree that raw nodes stand for, each with its text cut out of the source.
    pub fn from_raw(raw: &Vec<RawNode>, source: &str) -> (r: SyntaxTree)
        ensures
            r@ == tree_of(Seq::new(raw@.len(), |i: int| raw@[i]@), source@),
    {
        let ghost model = Seq::new(raw@.len(), |i: int| raw@[i]@);
        let mut nodes: Vec<SyntaxNode> = Vec::new();
        let mut i: usize = 0;
        while i < raw.len()
            invariant
                i <= raw@.len(),
                nodes@.len() == i,
                forall|k: int| 0 <= k < i ==> (#[trigger] nodes@[k])@ == node_of(raw@[k]@, source@),
            decreases raw@.len() - i,
        {
            let n = &raw[i];
            let node = SyntaxNode {
                kind: n.kind.clone(),
                field: n.field.clone(),
                named: n.named,
                depth: n.depth as usize,
                row: n.row,
                text: text_between(source, n.start, n.end),
            };
            proof {
                assert(opt_view(node.field) == opt_view(n.field));
                assert(node@ =~= node_of(raw@[i as int]@, source@));
            }
            nodes.push(node);
            i += 1;
        }
        let r = SyntaxTree { nodes };
        assert(r@ =~= tree_of(model, source@));
        r
    }

    /// Whether node `i` is of the kind `kind`.
    pub fn is_kind(&self, i: usize, kind: &str) -> (r: bool)
        requires
            i < self@.len(),
        ensures
            r == (self@[i as int].kind == kind@),
    {
        same(&self.nodes[i].kind, kind)
    }

    /// Where the part of the tree under node `i` ends.
    pub fn end(&self, i: usize) -> (r: usize)
        requires
            i < self@.len(),
        ensures
            r == end_of(self@, i as int),
            i < r <= self@.len(),
    {
        let count: usize = self.nodes.len();
        let depth: usize = self.nodes[i].depth;
        let mut k: usize = i + 1;
        while k < count && self.nodes[k].depth > depth
            invariant
                i < k <= self@.len(),
                count == self@.len(),
                self@.len() == self.nodes@.len(),
                depth == self@[i as int].depth,
                end_from(self@, depth as nat, k as int) == end_of(self@, i as int),
            decreases self@.len() - k,
        {
            k += 1;
        }
        k
    }

    /// The children of node `i`.
    pub fn children_of(&self, i: usize) -> (r: Vec<usize>)
        requires
            i < self@.len(),
        ensures
            positions(r@) == children(self@, i as int),
            forall|n: int| 0 <= n < r@.len() ==> i < #[trigger] r@[n] < self@.len(),
    {
        let end: usize = self.end(i);
        let depth: usize = self.nodes[i].depth;
        let mut out: Vec<usize> = Vec::new();
        let mut k: usize = i + 1;
        assert(positions(out@) =~= select(i + 1, k as int, child_test(self@, i as int)));
        while k < end
            invariant
                i < k <= end <= self@.len(),
                self@.len() == self.nodes@.len(),
                depth == self@[i as int].depth,
                positions(out@) == select(i + 1, k as int, child_test(self@, i as int)),
                forall|n: int| 0 <= n < out@.len() ==> i < #[trigger] out@[n] < self@.len(),
            decreases end - k,
        {
            let ghost before = out@;
            if self.nodes[k].depth > 0 && self.nodes[k].depth - 1 == depth {
                out.push(k);
                assert(positions(out@) =~= positions(before).push(k as int));
            }
            k += 1;
        }
        out
    }

    /// The children of node `i` that the grammar names.
    pub fn named_children_of(&self, i: usize) -> (r: Vec<usize>)
        requires
            i < self@.len(),
        ensures
            positions(r@) == named_children(self@, i as int),
            forall|n: int| 0 <= n < r@.len() ==> i < #[trigger] r@[n] < self@.len(),
    {
        let end: usize = self.end(i);
        let depth: usize = self.nodes[i].depth;
        let mut out: Vec<usize> = Vec::new();
        let mut k: usize = i + 1;
        assert(positions(out@) =~= select(i + 1, k as int, named_child_test(self@, i as int)));
        while k < end
            invariant
                i < k <= end <= self@.len(),
                self@.len() == self.nodes@.len(),
                depth == self@[i as int].depth,
                positions(out@) == select(i + 1, k as int, named_child_test(self@, i as int)),
                forall|n: int| 0 <= n < out@.len() ==> i < #[trigger] out@[n] < self@.len(),
            decreases end - k,
        {
            let ghost before = out@;
            if self.nodes[k].depth > 0 && self.nodes[k].depth - 1 == depth && self.nodes[k].named {
                out.push(k);
                assert(positions(out@) =~= positions(before).push(k as int));
            }
            k += 1;
        }
        out
    }

    /// The first child of node `i` that the grammar names.
    pub fn first_named_child(&self, i: usize) -> (r: Option<usize>)
        requires
            i < self@.len(),
        ensures
            position(r) == named_child(self@, i as int),
            r matches Some(k) ==> i < k < self@.len(),
    {
        let found = self.named_children_of(i);
        assert(positions(found@).len() == found@.len());
        if found.len() > 0 {
            Some(found[0])
        } else {
            None
        }
    }

    /// The first child that node `i` holds under the name `field`.
    pub fn child(&self, i: usize, field: &str) -> (r: Option<usize>)
        requires
            i < self@.len(),
        ensures
            position(r) == child_by_field(self@, i as int, field@),
            r matches Some(k) ==> i < k < self@.len(),
    {
        let end: usize = self.end(i);
        let depth: usize = self.nodes[i].depth;
        let ghost p = field_test(self@, i as int, field@);
        let mut k: usize = i + 1;
        while k < end
            invariant
                i < k <= end <= self@.len(),
                end == end_of(self@, i as int),
                self@.len() == self.nodes@.len(),
                depth == self@[i as int].depth,
                p == field_test(self@, i as int, field@),
                forall|j: int| i < j < k ==> !(#[trigger] p(j)),
            decreases end - k,
        {
            if self.nodes[k].depth > 0 && self.nodes[k].depth - 1 == depth {
                if let Some(name) = &self.nodes[k].field {
                    if same(name, field) {
                        proof {
                            lemma_first_of(i + 1, end as int, p, k as int);
                        }
                        return Some(k);
                    }
                }
            }
            k += 1;
        }
        proof {
            lemma_none_of(i + 1, end as int, p);
        }
        None
    }

    /// The nodes of kind `kind` at or under node `i`.
    pub fn descendants_of(&self, i: usize, kind: &str) -> (r: Vec<usize>)
        requires
            i < self@.len(),
        ensures
            positions(r@) == descendants(self@, i as int, kind@),
            forall|n: int| 0 <= n < r@.len() ==> i <= #[trigger] r@[n] < self@.len(),
    {
        let end: usize = self.end(i);
        let mut out: Vec<usize> = Vec::new();
        let mut k: usize = i;
        assert(positions(out@) =~= select(i as int, k as int, kind_test(self@, kind@)));
        while k < end
            invariant
                i <= k <= end <= self@.len(),
                positions(out@) == select(i as int, k as int, kind_test(self@, kind@)),
                forall|n: int| 0 <= n < out@.len() ==> i <= #[trigger] out@[n] < self@.len(),
            decreases end - k,
        {
            let ghost before = out@;
            if self.is_kind(k, kind) {
                out.push(k);
                assert(positions(out@) =~= positions(before).push(k as int));
            }
            k += 1;
        }
        out
    }

    /// The node that node `i` stands under.
    pub fn parent_of(&self, i: usize) -> (r: Option<usize>)
        requires
            i < self@.len(),
        ensures
            position(r) == parent(self@, i as int),
            r matches Some(k) ==> k < i,
    {
        let depth: usize = self.nodes[i].depth;
        let mut k: usize = i;
        while k > 0
            invariant
                k <= i < self@.len(),
                self@.len() == self.nodes@.len(),
                depth == self@[i as int].depth,
                parent_before(self@, depth as nat, k as int) == parent(self@, i as int),
            decreases k,
        {
            if self.nodes[k - 1].depth < depth {
                return Some(k - 1);
            }
            k -= 1;
        }
        None
    }

    /// The source text of node `i`.
    pub fn text_of(&self, i: usize) -> (r: Option<&String>)
        requires
            i < self@.len(),
        ensures
            match r {
                Some(s) => self@[i as int].text == Some(s@),
                None => self@[i as int].text is None,
            },
    {
        self.nodes[i].text.as_ref()
    }
}

} // verus!
