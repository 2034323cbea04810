use crate::markdown::{push_chars, push_str};
use crate::text::chars_of;
use crate::walker::RepoEntry;
use vstd::prelude::*;
use vstd::string::*;

verus! {

/// A directory or a file of the tree that is drawn, with what it holds.
pub struct TreeNode {
    pub name: Vec<char>,
    pub is_dir: bool,
    pub children: Vec<TreeNode>,
}

/// A tree that is drawn, as a mathematical value.
pub ghost struct TreeView {
    pub name: Seq<char>,
    pub is_dir: bool,
    pub children: Seq<TreeView>,
}

/// The tree under `node` as a mathematical value.
pub open spec fn tree_view(node: TreeNode) -> TreeView
    decreases node,
{
    TreeView {
        name: node.name@,
        is_dir: node.is_dir,
        children: Seq::new(
            node.children@.len(),
            |i: int|
                if 0 <= i < node.children@.len() {
                    tree_view(node.children@[i])
                } else {
                    arbitrary()
                },
        ),
    }
}

impl View for TreeNode {
    type V = TreeView;

    open spec fn view(&self) -> TreeView {
        tree_view(*self)
    }
}

impl TreeNode {
    /// The children of the view are the views of the children.
    pub proof fn lemma_view_children(&self)
        ensures
            self@.children.len() == self.children@.len(),
            forall|i: int|
                0 <= i < self.children@.len() ==> self@.children[i] == (#[trigger] self.children@[i])@,
    {
    }
}

/// The views of a list of nodes.
pub open spec fn views(nodes: Seq<TreeNode>) -> Seq<TreeView> {
    Seq::new(nodes.len(), |i: int| nodes[i]@)
}

/// Whether `a` comes before `b` in the order of texts: at the first place
/// where they differ `a` has the smaller character, or `a` ends there and
/// `b` does not.
pub open spec fn chars_before(a: Seq<char>, b: Seq<char>) -> bool
    decreases a.len(),
{
    if b.len() == 0 {
        false
    } else if a.len() == 0 {
        true
    } else if a[0] != b[0] {
        (a[0] as u32) < (b[0] as u32)
    } else {
        chars_before(a.drop_first(), b.drop_first())
    }
}

/// Whether `a` comes before `b` in the order of texts.
pub fn chars_lt(a: &Vec<char>, b: &Vec<char>) -> (r: bool)
    ensures
        r == chars_before(a@, b@),
{
    let mut i: usize = 0;
    assert(a@.subrange(0, a.len() as int) == a@);
    assert(b@.subrange(0, b.len() as int) == b@);
    while i < a.len() && i < b.len() && a[i] == b[i]
        invariant
            i <= a.len(),
            i <= b.len(),
            chars_before(a@, b@) == chars_before(
                a@.subrange(i as int, a.len() as int),
                b@.subrange(i as int, b.len() as int),
            ),
        decreases a.len() - i,
    {
        assert(a@.subrange(i as int, a.len() as int).drop_first() == a@.subrange(
            i + 1,
            a.len() as int,
        ));
        assert(b@.subrange(i as int, b.len() as int).drop_first() == b@.subrange(
            i + 1,
            b.len() as int,
        ));
        i = i + 1;
    }
    if i >= b.len() {
        false
    } else if i >= a.len() {
        true
    } else {
        (a[i] as u32) < (b[i] as u32)
    }
}

/// Whether two texts hold the same characters.
pub fn chars_eq(a: &Vec<char>, b: &Vec<char>) -> (r: bool)
    ensures
        r == (a@ == b@),
{
    if a.len() != b.len() {
        return false;
    }
    let mut i: usize = 0;
    while i < a.len()
        invariant
            i <= a.len(),
            a.len() == b.len(),
            forall|k: int| 0 <= k < i ==> a@[k] == b@[k],
        decreases a.len() - i,
    {
        if a[i] != b[i] {
            return false;
        }
        i = i + 1;
    }
    assert(a@ =~= b@);
    true
}

/// The parts of `path[at..]` between slashes, after the part `current` that
/// is being read; empty parts are left out.
pub open spec fn split_parts(path: Seq<char>, at: int, current: Seq<char>) -> Seq<Seq<char>>
    decreases path.len() - at,
{
    let done = if current.len() > 0 {
        seq![current]
    } else {
        Seq::empty()
    };
    if at < 0 || at >= path.len() {
        done
    } else if path[at] == '/' {
        done + split_parts(path, at + 1, Seq::empty())
    } else {
        split_parts(path, at + 1, current.push(path[at]))
    }
}

/// The parts of a path between slashes; empty parts are left out.
pub open spec fn parts_of(path: Seq<char>) -> Seq<Seq<char>> {
    split_parts(path, 0, Seq::empty())
}

/// The parts of a path as mathematical values.
pub open spec fn texts(parts: Seq<Vec<char>>) -> Seq<Seq<char>> {
    Seq::new(parts.len(), |i: int| parts[i]@)
}

/// The parts of a path between slashes; empty parts are left out.
pub fn path_parts(path: &str) -> (out: Vec<Vec<char>>)
    ensures
        texts(out@) == parts_of(path@),
{
    let chars = chars_of(path);
    let mut out: Vec<Vec<char>> = Vec::new();
    let mut current: Vec<char> = Vec::new();
    let mut i: usize = 0;
    assert(texts(out@) =~= Seq::empty());
    while i < chars.len()
        invariant
            i <= chars.len(),
            chars@ == path@,
            parts_of(path@) == texts(out@) + split_parts(path@, i as int, current@),
        decreases chars.len() - i,
    {
        let c = chars[i];
        if c == '/' {
            let ghost before = out@;
            let ghost word = current@;
            if current.len() > 0 {
                out.push(current);
                assert(texts(out@) =~= texts(before) + seq![word]);
            }
            current = Vec::new();
            assert(texts(out@) + split_parts(path@, i + 1, current@) =~= texts(before)
                + split_parts(path@, i as int, word));
        } else {
            current.push(c);
        }
        i = i + 1;
    }
    if current.len() > 0 {
        let ghost before = out@;
        let ghost word = current@;
        out.push(current);
        assert(texts(out@) =~= texts(before) + seq![word]);
    } else {
        assert(texts(out@) + Seq::<Seq<char>>::empty() =~= texts(out@));
    }
    out
}

/// The place among `children`, which stand in the order of their names,
/// where the name `name` stands or would stand.
pub open spec fn slot(children: Seq<TreeView>, name: Seq<char>) -> int
    decreases children.len(),
{
    if children.len() == 0 || !chars_before(children[0].name, name) {
        0
    } else {
        1 + slot(children.drop_first(), name)
    }
}

/// The slot of a name is behind the children that come before it and at
/// the first child that does not.
pub proof fn lemma_slot(children: Seq<TreeView>, name: Seq<char>, at: int)
    requires
        0 <= at <= children.len(),
        forall|k: int| 0 <= k < at ==> chars_before((#[trigger] children[k]).name, name),
        at == children.len() || !chars_before(children[at].name, name),
    ensures
        slot(children, name) == at,
    decreases at,
{
    if at > 0 {
        let t = children.drop_first();
        assert forall|k: int| 0 <= k < at - 1 implies chars_before((#[trigger] t[k]).name, name) by {
            assert(t[k] == children[k + 1]);
        }
        lemma_slot(t, name, at - 1);
    }
}

/// A node like `node`, but a directory or not as `is_dir` says.
pub open spec fn marked(node: TreeView, is_dir: bool) -> TreeView {
    TreeView { name: node.name, is_dir, children: node.children }
}

/// A node like `node`, but with these children.
pub open spec fn holding(node: TreeView, children: Seq<TreeView>) -> TreeView {
    TreeView { name: node.name, is_dir: node.is_dir, children }
}

/// A new node of this name without children.
pub open spec fn leaf(name: Seq<char>, is_dir: bool) -> TreeView {
    TreeView { name, is_dir, children: Seq::empty() }
}

/// The tree under `node` with the path `parts` put in. Each part but the
/// last is a directory where it is new; the last part is a directory or not
/// as `is_dir` says, whether it is new or not.
pub open spec fn inserted(node: TreeView, parts: Seq<Seq<char>>, is_dir: bool) -> TreeView
    decreases parts.len(),
{
    if parts.len() == 0 {
        node
    } else {
        let last = parts.len() == 1;
        let at = slot(node.children, parts[0]);
        if 0 <= at < node.children.len() && node.children[at].name == parts[0] {
            let child = if last {
                marked(node.children[at], is_dir)
            } else {
                node.children[at]
            };
            holding(node, node.children.update(at, inserted(child, parts.drop_first(), is_dir)))
        } else {
            let child = leaf(parts[0], !last || is_dir);
            holding(node, node.children.insert(at, inserted(child, parts.drop_first(), is_dir)))
        }
    }
}

/// Of two texts exactly one comes before the other, or they are equal.
pub proof fn lemma_chars_before_total(a: Seq<char>, b: Seq<char>)
    ensures
        !(chars_before(a, b) && chars_before(b, a)),
        chars_before(a, b) || chars_before(b, a) || a == b,
    decreases a.len(),
{
    if a.len() == 0 || b.len() == 0 {
        if a.len() == 0 && b.len() == 0 {
            assert(a =~= b);
        }
    } else {
        lemma_chars_before_total(a.drop_first(), b.drop_first());
        vstd::utf8::char_u32_cast(a[0], a[0] as u32);
        vstd::utf8::char_u32_cast(b[0], b[0] as u32);
        if a[0] == b[0] && a.drop_first() == b.drop_first() {
            assert(a =~= seq![a[0]] + a.drop_first());
            assert(b =~= seq![b[0]] + b.drop_first());
        }
    }
}

/// What comes before a text comes before all that it comes before.
pub proof fn lemma_chars_before_transitive(a: Seq<char>, b: Seq<char>, c: Seq<char>)
    requires
        chars_before(a, b),
        chars_before(b, c),
    ensures
        chars_before(a, c),
    decreases a.len(),
{
    if a.len() > 0 && a[0] == b[0] && b[0] == c[0] {
        lemma_chars_before_transitive(a.drop_first(), b.drop_first(), c.drop_first());
    }
}

/// Whether the children of every node of the tree stand in the order of
/// their names, no name twice.
pub open spec fn names_in_order(node: TreeView) -> bool
    decreases node,
{
    &&& forall|i: int, j: int|
        0 <= i < j < node.children.len() ==> chars_before(
            (#[trigger] node.children[i]).name,
            (#[trigger] node.children[j]).name,
        )
    &&& forall|i: int| 0 <= i < node.children.len() ==> names_in_order(#[trigger] node.children[i])
}

proof fn lemma_slot_bounds(children: Seq<TreeView>, name: Seq<char>)
    ensures
        0 <= slot(children, name) <= children.len(),
        forall|k: int| 0 <= k < slot(children, name) ==> chars_before((#[trigger] children[k]).name, name),
        slot(children, name) == children.len() || !chars_before(
            children[slot(children, name)].name,
            name,
        ),
    decreases children.len(),
{
    if children.len() > 0 && chars_before(children[0].name, name) {
        let t = children.drop_first();
        lemma_slot_bounds(t, name);
        assert forall|k: int| 0 <= k < slot(children, name) implies chars_before(
            (#[trigger] children[k]).name,
            name,
        ) by {
            if k > 0 {
                assert(children[k] == t[k - 1]);
            }
        }
        if slot(t, name) < t.len() {
            assert(t[slot(t, name)] == children[slot(children, name)]);
        }
    }
}

/// Putting a path into a tree keeps the names in order, and the name of the
/// root.
pub proof fn lemma_inserted_in_order(node: TreeView, parts: Seq<Seq<char>>, is_dir: bool)
    requires
        names_in_order(node),
    ensures
        names_in_order(inserted(node, parts, is_dir)),
        inserted(node, parts, is_dir).name == node.name,
    decreases parts.len(),
{
    if parts.len() > 0 {
        let last = parts.len() == 1;
        let name = parts[0];
        let at = slot(node.children, name);
        lemma_slot_bounds(node.children, name);
        let out = inserted(node, parts, is_dir);
        if 0 <= at < node.children.len() && node.children[at].name == name {
            let child = if last {
                marked(node.children[at], is_dir)
            } else {
                node.children[at]
            };
            assert(names_in_order(node.children[at]));
            assert(names_in_order(child));
            lemma_inserted_in_order(child, parts.drop_first(), is_dir);
            assert forall|i: int, j: int| 0 <= i < j < out.children.len() implies chars_before(
                (#[trigger] out.children[i]).name,
                (#[trigger] out.children[j]).name,
            ) by {
                assert(out.children[i].name == node.children[i].name);
                assert(out.children[j].name == node.children[j].name);
            }
            assert forall|i: int| 0 <= i < out.children.len() implies names_in_order(
                #[trigger] out.children[i],
            ) by {
                if i != at {
                    assert(out.children[i] == node.children[i]);
                }
            }
        } else {
            let child = leaf(name, !last || is_dir);
            lemma_inserted_in_order(child, parts.drop_first(), is_dir);
            assert forall|i: int, j: int| 0 <= i < j < out.children.len() implies chars_before(
                (#[trigger] out.children[i]).name,
                (#[trigger] out.children[j]).name,
            ) by {
                if j < at {
                    assert(out.children[i] == node.children[i]);
                    assert(out.children[j] == node.children[j]);
                } else if j == at {
                    assert(out.children[i] == node.children[i]);
                } else if i == at {
                    assert(out.children[j] == node.children[j - 1]);
                    lemma_chars_before_total(name, node.children[at].name);
                    if j - 1 > at {
                        assert(chars_before(node.children[at].name, node.children[j - 1].name));
                        lemma_chars_before_transitive(
                            name,
                            node.children[at].name,
                            node.children[j - 1].name,
                        );
                    }
                } else if i < at {
                    assert(out.children[i] == node.children[i]);
                    assert(out.children[j] == node.children[j - 1]);
                } else {
                    assert(out.children[i] == node.children[i - 1]);
                    assert(out.children[j] == node.children[j - 1]);
                }
            }
            assert forall|i: int| 0 <= i < out.children.len() implies names_in_order(
                #[trigger] out.children[i],
            ) by {
                if i < at {
                    assert(out.children[i] == node.children[i]);
                } else if i > at {
                    assert(out.children[i] == node.children[i - 1]);
                }
            }
        }
    }
}

/// In the tree of the entries every name stands once among its siblings,
/// and they stand in the order of their names.
pub proof fn lemma_tree_of_in_order(entries: Seq<RepoEntry>)
    ensures
        names_in_order(tree_of(entries)),
    decreases entries.len(),
{
    if entries.len() > 0 {
        lemma_tree_of_in_order(entries.drop_last());
        lemma_inserted_in_order(
            tree_of(entries.drop_last()),
            parts_of(entries.last().path@),
            entries.last().is_dir,
        );
    }
}

/// The tree of the entries: each path put in, in the order of the entries.
pub open spec fn tree_of(entries: Seq<RepoEntry>) -> TreeView
    decreases entries.len(),
{
    if entries.len() == 0 {
        leaf(Seq::empty(), true)
    } else {
        inserted(tree_of(entries.drop_last()), parts_of(entries.last().path@), entries.last().is_dir)
    }
}

fn find_slot(children: &Vec<TreeNode>, name: &Vec<char>) -> (at: usize)
    ensures
        at == slot(views(children@), name@),
        at <= children.len(),
{
    let mut at: usize = 0;
    while at < children.len() && chars_lt(&children[at].name, name)
        invariant
            at <= children.len(),
            forall|k: int| 0 <= k < at ==> chars_before((#[trigger] views(children@)[k]).name, name@),
        decreases children.len() - at,
    {
        at = at + 1;
    }
    proof {
        lemma_slot(views(children@), name@, at as int);
    }
    at
}

/// Puts the path `parts[from..]` into the tree under `node`.
pub fn insert_path(node: TreeNode, parts: &Vec<Vec<char>>, from: usize, is_dir: bool) -> (out:
    TreeNode)
    requires
        from <= parts.len(),
    ensures
        out@ == inserted(node@, texts(parts@).subrange(from as int, parts.len() as int), is_dir),
    decreases parts.len() - from,
{
    let ghost rest = texts(parts@).subrange(from as int, parts.len() as int);
    if from >= parts.len() {
        return node;
    }
    let mut node = node;
    let ghost before = node@;
    proof {
        node.lemma_view_children();
        assert(views(node.children@) =~= before.children);
        assert(rest.drop_first() =~= texts(parts@).subrange(from + 1, parts.len() as int));
        assert(rest[0] == parts@[from as int]@);
    }
    let last = from + 1 == parts.len();
    let name = &parts[from];
    let at = find_slot(&node.children, name);
    if at < node.children.len() && chars_eq(&node.children[at].name, name) {
        let mut child = node.children.remove(at);
        assert(child@ == before.children[at as int]);
        if last {
            child.is_dir = is_dir;
        }
        proof {
            child.lemma_view_children();
        }
        let child = insert_path(child, parts, from + 1, is_dir);
        node.children.insert(at, child);
        proof {
            node.lemma_view_children();
            assert(node@.children =~= before.children.update(at as int, child@));
        }
        node
    } else {
        let mut fresh_name: Vec<char> = Vec::new();
        push_chars(&mut fresh_name, name);
        let fresh = TreeNode { name: fresh_name, is_dir: !last || is_dir, children: Vec::new() };
        proof {
            fresh.lemma_view_children();
            assert(fresh@.children =~= Seq::empty());
            assert(fresh@.name =~= name@);
        }
        let child = insert_path(fresh, parts, from + 1, is_dir);
        node.children.insert(at, child);
        proof {
            node.lemma_view_children();
            assert(node@.children =~= before.children.insert(at as int, child@));
        }
        node
    }
}

/// The tree of the entries.
pub fn build_tree(entries: &Vec<RepoEntry>) -> (out: TreeNode)
    ensures
        out@ == tree_of(entries@),
{
    let mut root = TreeNode { name: Vec::new(), is_dir: true, children: Vec::new() };
    proof {
        root.lemma_view_children();
        assert(root@.children =~= Seq::empty());
        assert(root@.name =~= Seq::empty());
        assert(entries@.subrange(0, 0) =~= Seq::empty());
    }
    let mut i: usize = 0;
    while i < entries.len()
        invariant
            i <= entries.len(),
            root@ == tree_of(entries@.subrange(0, i as int)),
        decreases entries.len() - i,
    {
        let entry = &entries[i];
        let parts = path_parts(entry.path.as_str());
        assert(entries@.subrange(0, i + 1).drop_last() =~= entries@.subrange(0, i as int));
        assert(texts(parts@).subrange(0, parts.len() as int) =~= texts(parts@));
        root = insert_path(root, &parts, 0, entry.is_dir);
        i = i + 1;
    }
    assert(entries@.subrange(0, entries.len() as int) =~= entries@);
    root
}

/// The place of the last child that is a directory, or that is none, as
/// `dirs` says; `-1` where there is no such child.
pub open spec fn last_where(children: Seq<TreeView>, dirs: bool) -> int
    decreases children.len(),
{
    if children.len() == 0 {
        -1
    } else if children.last().is_dir == dirs {
        children.len() - 1
    } else {
        last_where(children.drop_last(), dirs)
    }
}

/// The place of the child that is drawn last: directories are drawn before
/// files.
pub open spec fn last_drawn(children: Seq<TreeView>) -> int {
    if last_where(children, false) >= 0 {
        last_where(children, false)
    } else {
        last_where(children, true)
    }
}

/// The sign before a name: one for the last of its siblings, one for the
/// others.
pub open spec fn branch(last: bool) -> Seq<char> {
    if last {
        "└── "@
    } else {
        "├── "@
    }
}

/// What stands before the lines below a name.
pub open spec fn pad(last: bool) -> Seq<char> {
    if last {
        "    "@
    } else {
        "│   "@
    }
}

/// The lines for the first `upto` children of `node` that are directories,
/// or that are none, as `dirs` says: for each its name behind `prefix` and
/// its sign, and below it the lines of its own children, directories first.
pub open spec fn drawn(node: TreeView, prefix: Seq<char>, dirs: bool, upto: int) -> Seq<Seq<char>>
    decreases node, upto,
{
    if upto <= 0 || upto > node.children.len() {
        Seq::empty()
    } else {
        let child = node.children[upto - 1];
        let before = drawn(node, prefix, dirs, upto - 1);
        if child.is_dir == dirs {
            let last = upto - 1 == last_drawn(node.children);
            let below = prefix + pad(last);
            before + seq![prefix + branch(last) + child.name] + drawn(
                child,
                below,
                true,
                child.children.len() as int,
            ) + drawn(child, below, false, child.children.len() as int)
        } else {
            before
        }
    }
}

/// The lines for all that `node` holds.
pub open spec fn drawn_below(node: TreeView, prefix: Seq<char>) -> Seq<Seq<char>> {
    drawn(node, prefix, true, node.children.len() as int) + drawn(
        node,
        prefix,
        false,
        node.children.len() as int,
    )
}

/// The drawing of the entries: a dot for the root and the tree below it.
pub open spec fn tree_lines(entries: Seq<RepoEntry>) -> Seq<Seq<char>> {
    if entries.len() == 0 {
        seq!["."@]
    } else {
        seq!["."@] + drawn_below(tree_of(entries), Seq::empty())
    }
}

/// The lines as mathematical values.
pub open spec fn line_texts(lines: Seq<Vec<char>>) -> Seq<Seq<char>> {
    Seq::new(lines.len(), |i: int| lines[i]@)
}

fn last_child_where(children: &Vec<TreeNode>, dirs: bool) -> (at: Option<usize>)
    ensures
        match at {
            Some(i) => last_where(views(children@), dirs) == i,
            None => last_where(views(children@), dirs) == -1,
        },
{
    let mut n: usize = children.len();
    assert(views(children@).subrange(0, n as int) =~= views(children@));
    while n > 0
        invariant
            n <= children.len(),
            last_where(views(children@), dirs) == last_where(
                views(children@).subrange(0, n as int),
                dirs,
            ),
        decreases n,
    {
        assert(views(children@).subrange(0, n as int).drop_last() =~= views(children@).subrange(
            0,
            n - 1,
        ));
        assert(views(children@).subrange(0, n as int).last() == children@[n - 1]@);
        if children[n - 1].is_dir == dirs {
            return Some(n - 1);
        }
        n = n - 1;
    }
    None
}

fn draw_pass(node: &TreeNode, prefix: &Vec<char>, dirs: bool, last: Option<usize>, out: &mut Vec<
    Vec<char>,
>)
    requires
        match last {
            Some(i) => last_drawn(node@.children) == i,
            None => last_drawn(node@.children) == -1,
        },
    ensures
        line_texts(final(out)@) == line_texts(old(out)@) + drawn(
            node@,
            prefix@,
            dirs,
            node@.children.len() as int,
        ),
    decreases node, 0nat,
{
    let mut i: usize = 0;
    proof {
        node.lemma_view_children();
        assert(line_texts(out@) + Seq::<Seq<char>>::empty() =~= line_texts(out@));
    }
    while i < node.children.len()
        invariant
            i <= node.children.len(),
            node@.children.len() == node.children@.len(),
            match last {
                Some(k) => last_drawn(node@.children) == k,
                None => last_drawn(node@.children) == -1,
            },
            line_texts(out@) == line_texts(old(out)@) + drawn(node@, prefix@, dirs, i as int),
        decreases node.children.len() - i,
    {
        let child = &node.children[i];
        proof {
            node.lemma_view_children();
            child.lemma_view_children();
        }
        assert(child@ == node@.children[i as int]);
        if child.is_dir == dirs {
            let is_last = match last {
                Some(k) => k == i,
                None => false,
            };
            let ghost lines_before = out@;
            let mut line: Vec<char> = Vec::new();
            push_chars(&mut line, prefix);
            push_str(&mut line, if is_last { "└── " } else { "├── " });
            push_chars(&mut line, &child.name);
            assert(line@ =~= prefix@ + branch(is_last) + child@.name);
            let ghost line_text = line@;
            out.push(line);
            assert(line_texts(out@) =~= line_texts(lines_before) + seq![line_text]);
            let mut below: Vec<char> = Vec::new();
            push_chars(&mut below, prefix);
            push_str(&mut below, if is_last { "    " } else { "│   " });
            assert(below@ =~= prefix@ + pad(is_last));
            render_children(child, &below, out);
            assert(line_texts(out@) =~= line_texts(old(out)@) + drawn(
                node@,
                prefix@,
                dirs,
                i + 1,
            ));
        }
        i = i + 1;
    }
}

/// Draws all that `node` holds, directories first, at the end of `out`.
pub fn render_children(node: &TreeNode, prefix: &Vec<char>, out: &mut Vec<Vec<char>>)
    ensures
        line_texts(final(out)@) == line_texts(old(out)@) + drawn_below(node@, prefix@),
    decreases node, 1nat,
{
    proof {
        node.lemma_view_children();
        assert(views(node.children@) =~= node@.children);
    }
    let last = match last_child_where(&node.children, false) {
        Some(i) => Some(i),
        None => last_child_where(&node.children, true),
    };
    let ghost start = line_texts(out@);
    draw_pass(node, prefix, true, last, out);
    let ghost middle = line_texts(out@);
    draw_pass(node, prefix, false, last, out);
    assert(line_texts(out@) =~= start + drawn_below(node@, prefix@));
}

/// The drawing of the entries.
pub fn render_repo_tree(entries: &Vec<RepoEntry>) -> (out: Vec<Vec<char>>)
    ensures
        line_texts(out@) == tree_lines(entries@),
{
    let mut out: Vec<Vec<char>> = Vec::new();
    out.push(chars_of("."));
    assert(line_texts(out@) =~= seq!["."@]);
    if entries.len() == 0 {
        return out;
    }
    let root = build_tree(entries);
    let prefix: Vec<char> = Vec::new();
    assert(prefix@ =~= Seq::empty());
    render_children(&root, &prefix, &mut out);
    out
}

} // verus!
