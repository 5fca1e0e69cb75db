use vstd::prelude::*;

verus! {

/// A path as its sequence of components.
pub type PathParts = Seq<Seq<char>>;

/// A file tree as read from disk, below a root.
pub enum Node {
    /// A regular file, with its path.
    File(Vec<String>),
    /// A directory, with its path and the entries that listing it gave.
    Dir(Vec<String>, Vec<Node>),
    /// Anything else: neither a regular file nor a directory, or an entry
    /// that could not be read.
    Other,
}

/// Copies a path.
pub fn clone_parts(p: &Vec<String>) -> (r: Vec<String>)
    ensures
        r.deep_view() == p.deep_view(),
{
    let r = p.clone();
    proof {
        assert forall|i: int| 0 <= i < p.len() implies r[i] == p[i] by {
            assert(cloned::<String>(p[i], r[i]));
        }
        assert(r.deep_view() =~= p.deep_view());
    }
    r
}

/// The files of `n` that lie at most `limit` levels below it, in listing order.
pub open spec fn node_files(n: Node, limit: nat) -> Seq<PathParts>
    decreases limit, 0nat,
{
    match n {
        Node::File(p) => seq![p.deep_view()],
        Node::Dir(_, entries) => {
            if limit == 0 {
                Seq::empty()
            } else {
                forest_files(entries@, (limit - 1) as nat)
            }
        },
        Node::Other => Seq::empty(),
    }
}

/// The files of a list of sibling entries that lie at most `limit` levels
/// below those entries.
pub open spec fn forest_files(entries: Seq<Node>, limit: nat) -> Seq<PathParts>
    decreases limit, entries.len() + 1,
{
    if entries.len() == 0 {
        Seq::empty()
    } else {
        forest_files(entries.drop_last(), limit) + node_files(entries.last(), limit)
    }
}

/// The node reached from `n` by following `route`, one entry index per level.
pub open spec fn node_at(n: Node, route: Seq<int>) -> Option<Node>
    decreases route.len(),
{
    if route.len() == 0 {
        Some(n)
    } else {
        match n {
            Node::Dir(_, entries) => {
                if 0 <= route[0] < entries.len() {
                    node_at(entries@[route[0]], route.drop_first())
                } else {
                    None
                }
            },
            _ => None,
        }
    }
}

/// Whether following `route` from `n` leads to a regular file with path `p`.
pub open spec fn is_file_at(n: Node, route: Seq<int>, p: PathParts) -> bool {
    node_at(n, route) matches Some(Node::File(q)) && q.deep_view() == p
}

/// Whether a regular file with path `p` lies at most `limit` levels below `n`
/// (at depth 0 when `n` is that file).
pub open spec fn file_within(n: Node, p: PathParts, limit: nat) -> bool {
    exists|route: Seq<int>| route.len() <= limit && #[trigger] is_file_at(n, route, p)
}

/// Whether a regular file with path `p` lies at most `limit` levels below one
/// of the sibling entries.
pub open spec fn entry_file_within(entries: Seq<Node>, p: PathParts, limit: nat) -> bool {
    exists|i: int| 0 <= i < entries.len() && #[trigger] file_within(entries[i], p, limit)
}

/// Collects the files of `n` down to `limit` levels below it.
fn collect(n: &Node, limit: u16) -> (r: Vec<Vec<String>>)
    ensures
        r.deep_view() == node_files(*n, limit as nat),
    decreases limit, 0nat,
{
    match n {
        Node::File(p) => {
            let mut r: Vec<Vec<String>> = Vec::new();
            r.push(clone_parts(p));
            assert(r.deep_view() =~= node_files(*n, limit as nat));
            r
        },
        Node::Dir(_, entries) => {
            if limit == 0 {
                let r: Vec<Vec<String>> = Vec::new();
                assert(r.deep_view() =~= node_files(*n, limit as nat));
                r
            } else {
                collect_entries(entries, limit - 1)
            }
        },
        Node::Other => {
            let r: Vec<Vec<String>> = Vec::new();
            assert(r.deep_view() =~= node_files(*n, limit as nat));
            r
        },
    }
}

/// Collects the files of sibling entries down to `limit` levels below them.
fn collect_entries(entries: &Vec<Node>, limit: u16) -> (r: Vec<Vec<String>>)
    ensures
        r.deep_view() == forest_files(entries@, limit as nat),
    decreases limit, 1nat,
{
    let mut r: Vec<Vec<String>> = Vec::new();
    let mut i: usize = 0;
    assert(entries@.subrange(0, 0) =~= Seq::<Node>::empty());
    while i < entries.len()
        invariant
            i <= entries.len(),
            r.deep_view() == forest_files(entries@.subrange(0, i as int), limit as nat),
        decreases entries.len() - i,
    {
        let mut part = collect(&entries[i], limit);
        let ghost before = r.deep_view();
        r.append(&mut part);
        proof {
            let next = entries@.subrange(0, i as int + 1);
            assert(next.drop_last() =~= entries@.subrange(0, i as int));
            assert(next.last() == entries@[i as int]);
            assert(r.deep_view() =~= before + node_files(entries@[i as int], limit as nat));
        }
        i = i + 1;
    }
    assert(entries@.subrange(0, i as int) =~= entries@);
    r
}

/// Whether the entries of a directory at `depth` below the root are visited
/// when traversal stops `max_depth` levels below the root.
pub fn descends(depth: u16, max_depth: u16) -> (r: bool)
    ensures
        r == (depth < max_depth),
{
    depth < max_depth
}

/// Flattens a file tree into the list of its files that lie at most
/// `max_depth` levels below the root. A root that is a file gives itself,
/// whatever the bound; entries that could not be read are skipped.
pub fn flatten(root: &Node, max_depth: u16) -> (r: Vec<Vec<String>>)
    ensures
        r.deep_view() == node_files(*root, max_depth as nat),
{
    collect(root, max_depth)
}

proof fn lemma_concat_contains(a: Seq<PathParts>, b: Seq<PathParts>, p: PathParts)
    ensures
        (a + b).contains(p) <==> a.contains(p) || b.contains(p),
{
    if (a + b).contains(p) {
        let k = choose|k: int| 0 <= k < (a + b).len() && (a + b)[k] == p;
        if k < a.len() {
            assert(a[k] == p);
        } else {
            assert(b[k - a.len()] == p);
        }
    }
    if a.contains(p) {
        let k = choose|k: int| 0 <= k < a.len() && a[k] == p;
        assert((a + b)[k] == p);
    }
    if b.contains(p) {
        let k = choose|k: int| 0 <= k < b.len() && b[k] == p;
        assert((a + b)[a.len() + k] == p);
    }
}

/// The files collected from a node are exactly the regular files that lie at
/// most `limit` levels below it: every collected path names such a file, and
/// every such file is collected.
pub proof fn lemma_node_files_exact(n: Node, limit: nat, p: PathParts)
    ensures
        node_files(n, limit).contains(p) <==> file_within(n, p, limit),
    decreases limit, 0nat,
{
    let empty_route = Seq::<int>::empty();
    match n {
        Node::File(q) => {
            assert(node_files(n, limit)[0] == q.deep_view());
            if q.deep_view() == p {
                assert(is_file_at(n, empty_route, p));
            }
            if file_within(n, p, limit) {
                let route = choose|route: Seq<int>|
                    route.len() <= limit && #[trigger] is_file_at(n, route, p);
                assert(route.len() == 0);
            }
        },
        Node::Other => {
            if file_within(n, p, limit) {
                let route = choose|route: Seq<int>|
                    route.len() <= limit && #[trigger] is_file_at(n, route, p);
                assert(route.len() == 0);
            }
        },
        Node::Dir(_, entries) => {
            if limit == 0 {
                if file_within(n, p, limit) {
                    let route = choose|route: Seq<int>|
                        route.len() <= limit && #[trigger] is_file_at(n, route, p);
                    assert(route.len() == 0);
                }
            } else {
                let below = (limit - 1) as nat;
                lemma_forest_files_exact(entries@, below, p);
                if entry_file_within(entries@, p, below) {
                    let i = choose|i: int|
                        0 <= i < entries@.len() && #[trigger] file_within(entries@[i], p, below);
                    let inner = choose|route: Seq<int>|
                        route.len() <= below && #[trigger] is_file_at(entries@[i], route, p);
                    let route = seq![i] + inner;
                    assert(route.drop_first() =~= inner);
                    assert(is_file_at(n, route, p));
                }
                if file_within(n, p, limit) {
                    let route = choose|route: Seq<int>|
                        route.len() <= limit && #[trigger] is_file_at(n, route, p);
                    assert(route.len() > 0);
                    let i = route[0];
                    assert(is_file_at(entries@[i], route.drop_first(), p));
                    assert(file_within(entries@[i], p, below));
                }
            }
        },
    }
}

/// The files collected from sibling entries are exactly the regular files
/// that lie at most `limit` levels below one of them.
pub proof fn lemma_forest_files_exact(entries: Seq<Node>, limit: nat, p: PathParts)
    ensures
        forest_files(entries, limit).contains(p) <==> entry_file_within(entries, p, limit),
    decreases limit, entries.len() + 1,
{
    if entries.len() > 0 {
        let rest = entries.drop_last();
        lemma_forest_files_exact(rest, limit, p);
        lemma_node_files_exact(entries.last(), limit, p);
        lemma_concat_contains(forest_files(rest, limit), node_files(entries.last(), limit), p);
        if entry_file_within(entries, p, limit) {
            let i = choose|i: int|
                0 <= i < entries.len() && #[trigger] file_within(entries[i], p, limit);
            if i < rest.len() {
                assert(rest[i] == entries[i]);
                assert(entry_file_within(rest, p, limit));
            }
        }
        if entry_file_within(rest, p, limit) {
            let i = choose|i: int| 0 <= i < rest.len() && #[trigger] file_within(rest[i], p, limit);
            assert(rest[i] == entries[i]);
        }
        if file_within(entries.last(), p, limit) {
            assert(file_within(entries[entries.len() - 1], p, limit));
        }
    }
}

/// `flatten` returns exactly the regular files that lie at most `max_depth`
/// levels below the root, and none that lie deeper.
pub proof fn lemma_flatten_exact(root: Node, max_depth: u16, p: PathParts)
    ensures
        node_files(root, max_depth as nat).contains(p) <==> file_within(root, p, max_depth as nat),
{
    lemma_node_files_exact(root, max_depth as nat, p);
}

/// A root that is a regular file flattens to that one file, whatever the
/// depth bound.
pub proof fn lemma_flatten_single_file(path: Vec<String>, max_depth: u16)
    ensures
        node_files(Node::File(path), max_depth as nat) == seq![path.deep_view()],
{
}

/// The path of a file or directory node.
pub open spec fn node_path(n: Node) -> Option<PathParts> {
    match n {
        Node::File(p) => Some(p.deep_view()),
        Node::Dir(p, _) => Some(p.deep_view()),
        Node::Other => None,
    }
}

/// Whether an entry's path is `parent` followed by one more component.
pub open spec fn is_child_of(c: Node, parent: PathParts) -> bool {
    node_path(c) matches Some(q) ==> q.len() == parent.len() + 1 && q.subrange(
        0,
        parent.len() as int,
    ) == parent
}

/// Whether a tree is shaped as listing a directory gives it, down to `limit`
/// levels: each entry's path extends its directory's path by one component,
/// and no two entries of a directory share a path.
pub open spec fn well_formed(n: Node, limit: nat) -> bool
    decreases limit, 0nat,
{
    match n {
        Node::Dir(p, entries) => limit == 0 || well_formed_entries(
            entries@,
            p.deep_view(),
            (limit - 1) as nat,
        ),
        _ => true,
    }
}

/// Whether sibling entries below `parent` are shaped as listing gives them.
pub open spec fn well_formed_entries(entries: Seq<Node>, parent: PathParts, limit: nat) -> bool
    decreases limit, entries.len() + 1,
{
    if entries.len() == 0 {
        true
    } else {
        &&& well_formed_entries(entries.drop_last(), parent, limit)
        &&& is_child_of(entries.last(), parent)
        &&& forall|i: int|
            0 <= i < entries.len() - 1 ==> node_path(entries.last()) is None || #[trigger] node_path(
                entries[i],
            ) != node_path(entries.last())
        &&& well_formed(entries.last(), limit)
    }
}

proof fn lemma_concat_no_duplicates(a: Seq<PathParts>, b: Seq<PathParts>)
    requires
        a.no_duplicates(),
        b.no_duplicates(),
        forall|x: PathParts| a.contains(x) ==> !b.contains(x),
    ensures
        (a + b).no_duplicates(),
{
    assert forall|i: int, j: int|
        0 <= i < (a + b).len() && 0 <= j < (a + b).len() && i != j implies (a + b)[i] != (a
        + b)[j] by {
        if i < a.len() && j >= a.len() {
            assert(a.contains(a[i]));
            assert(b[j - a.len()] == (a + b)[j]);
        } else if j < a.len() && i >= a.len() {
            assert(a.contains(a[j]));
            assert(b[i - a.len()] == (a + b)[i]);
        }
    }
}

/// The files collected from a well-formed node lie below its path, and none
/// is collected twice.
pub proof fn lemma_node_files_distinct(n: Node, limit: nat)
    requires
        well_formed(n, limit),
    ensures
        node_files(n, limit).no_duplicates(),
        forall|q: PathParts|
            #![trigger node_files(n, limit).contains(q)]
            node_files(n, limit).contains(q) ==> (node_path(n) matches Some(p) && p.len()
                <= q.len() && q.subrange(0, p.len() as int) == p),
    decreases limit, 0nat,
{
    match n {
        Node::File(p) => {
            assert forall|q: PathParts| node_files(n, limit).contains(q) implies (node_path(
                n,
            ) matches Some(r) && r.len() <= q.len() && q.subrange(0, r.len() as int) == r) by {
                assert(node_files(n, limit)[0] == p.deep_view());
                assert(q == p.deep_view());
                assert(q.subrange(0, q.len() as int) =~= q);
            }
        },
        Node::Dir(p, entries) => {
            if limit > 0 {
                let below = (limit - 1) as nat;
                lemma_entries_files_distinct(entries@, p.deep_view(), below);
                assert forall|q: PathParts| node_files(n, limit).contains(q) implies (node_path(
                    n,
                ) matches Some(r) && r.len() <= q.len() && q.subrange(0, r.len() as int) == r) by {
                    assert(forest_files(entries@, below).contains(q));
                }
            }
        },
        Node::Other => {},
    }
}

/// The files collected from well-formed siblings below `parent` each start
/// with the path of the entry they were found under, and none is collected
/// twice.
pub proof fn lemma_entries_files_distinct(entries: Seq<Node>, parent: PathParts, limit: nat)
    requires
        well_formed_entries(entries, parent, limit),
    ensures
        forest_files(entries, limit).no_duplicates(),
        forall|q: PathParts|
            #![trigger forest_files(entries, limit).contains(q)]
            forest_files(entries, limit).contains(q) ==> parent.len() < q.len() && q.subrange(
                0,
                parent.len() as int,
            ) == parent && exists|i: int|
                0 <= i < entries.len() && node_path(entries[i]) == Some(
                    q.subrange(0, parent.len() + 1 as int),
                ),
    decreases limit, entries.len() + 1,
{
    if entries.len() > 0 {
        let rest = entries.drop_last();
        let last = entries.last();
        let a = forest_files(rest, limit);
        let b = node_files(last, limit);
        lemma_entries_files_distinct(rest, parent, limit);
        lemma_node_files_distinct(last, limit);
        assert forall|x: PathParts| a.contains(x) implies !b.contains(x) by {
            let i = choose|i: int|
                0 <= i < rest.len() && node_path(rest[i]) == Some(x.subrange(0, parent.len() + 1 as int));
            assert(rest[i] == entries[i]);
            if b.contains(x) {
                let c = node_path(last)->Some_0;
                assert(c.len() == parent.len() + 1 as int);
                assert(x.subrange(0, c.len() as int) == c);
                assert(node_path(entries[i]) == Some(c));
            }
        }
        lemma_concat_no_duplicates(a, b);
        assert forall|q: PathParts| forest_files(entries, limit).contains(q) implies parent.len()
            < q.len() && q.subrange(0, parent.len() as int) == parent && exists|i: int|
            0 <= i < entries.len() && node_path(entries[i]) == Some(
                q.subrange(0, parent.len() + 1 as int),
            ) by {
            lemma_concat_contains(a, b, q);
            if a.contains(q) {
                let i = choose|i: int|
                    0 <= i < rest.len() && node_path(rest[i]) == Some(
                        q.subrange(0, parent.len() + 1 as int),
                    );
                assert(rest[i] == entries[i]);
            } else {
                let c = node_path(last)->Some_0;
                assert(q.subrange(0, c.len() as int) == c);
                assert(q.subrange(0, parent.len() as int) =~= c.subrange(0, parent.len() as int));
                assert(q.subrange(0, parent.len() + 1 as int) =~= c);
                assert(node_path(entries[entries.len() - 1]) == Some(
                    q.subrange(0, parent.len() + 1 as int),
                ));
            }
        }
    }
}

/// On a tree shaped as listing directories gives it, `flatten` lists no path
/// twice: its result is exactly the set of files within the bound.
pub proof fn lemma_flatten_no_duplicates(root: Node, max_depth: u16)
    requires
        well_formed(root, max_depth as nat),
    ensures
        node_files(root, max_depth as nat).no_duplicates(),
{
    lemma_node_files_distinct(root, max_depth as nat);
}

} // verus!
