//! The order of a listing: a directory stands before everything below it,
//! and no path is listed twice.

use vstd::prelude::*;
use crate::json::{has_member, lookup, member_index, JsonTree};
use crate::listing::{
    document_listing, files_key, leaf_fields, listing, member_count, EntryView,
};
use crate::path::{join, separator};

verus! {

/// A name that can be one component of a path: not empty, and free of the
/// separator.
pub open spec fn plain(name: Seq<char>) -> bool {
    name.len() > 0 && forall|i: int| 0 <= i < name.len() ==> #[trigger] name[i] != '/'
}

/// A tree of directories and files whose names can stand in paths: the
/// members of the object have plain names, no two of them equal, and the same
/// holds of what stands under `files` in each member that is a directory.
/// Names that enter no path (those of a node's own fields) are left alone.
pub open spec fn tidy(tree: JsonTree) -> bool
    decreases tree,
{
    match tree {
        JsonTree::Object(members) => {
            &&& forall|i: int| 0 <= i < members.len() ==> plain((#[trigger] members[i]).name)
            &&& forall|i: int, j: int|
                0 <= i < j < members.len() ==> (#[trigger] members[i]).name
                    != (#[trigger] members[j]).name
            &&& forall|i: int|
                0 <= i < members.len() ==> match (#[trigger] members[i]).value {
                    JsonTree::Object(fields) => has_member(fields, files_key()) ==> tidy(
                        fields[member_index(fields, files_key())].value,
                    ),
                    _ => true,
                }
        },
        _ => true,
    }
}

/// Whether what stands under `files` in a node, if the node is a directory,
/// is tidy.
pub open spec fn tidy_below(node: JsonTree) -> bool {
    match node {
        JsonTree::Object(fields) => has_member(fields, files_key()) ==> tidy(
            fields[member_index(fields, files_key())].value,
        ),
        _ => true,
    }
}

/// A document whose tree of directories and files, if it has one, is tidy.
pub open spec fn tidy_document(document: JsonTree) -> bool {
    match document {
        JsonTree::Object(fields) => match lookup(fields, files_key()) {
            Some(files) => tidy(files),
            None => true,
        },
        _ => true,
    }
}

/// Whether `path` lies strictly below the directory `dir`: it begins with
/// `dir` and a separator.
pub open spec fn is_descendant(path: Seq<char>, dir: Seq<char>) -> bool {
    (dir + separator()).is_prefix_of(path)
}

/// Whether `path` is `dir` itself or lies below it.
pub open spec fn under(dir: Seq<char>, path: Seq<char>) -> bool {
    path == dir || is_descendant(path, dir)
}

/// Whether every directory among the entries stands before each entry whose
/// path lies strictly below it.
pub open spec fn directories_first(entries: Seq<EntryView>) -> bool {
    forall|i: int, j: int|
        0 <= i < entries.len() && 0 <= j < entries.len() && (#[trigger] entries[i]) is Dir
            && is_descendant((#[trigger] entries[j]).path(), entries[i].path()) ==> i < j
}

spec fn none_below(later: Seq<EntryView>, earlier: Seq<EntryView>) -> bool {
    forall|x: int, y: int|
        0 <= x < later.len() && 0 <= y < earlier.len() ==> !under(
            (#[trigger] later[x]).path(),
            (#[trigger] earlier[y]).path(),
        )
}

spec fn all_under(dir: Seq<char>, entries: Seq<EntryView>) -> bool {
    forall|x: int| 0 <= x < entries.len() ==> under(dir, (#[trigger] entries[x]).path())
}

spec fn member_name(tree: JsonTree, place: int) -> Seq<char> {
    match tree {
        JsonTree::Object(members) => members[place].name,
        _ => Seq::empty(),
    }
}

spec fn owned(tree: JsonTree, root: Seq<char>, from: int, path: Seq<char>) -> bool {
    exists|k: int|
        from <= k < member_count(tree) && under(join(root, #[trigger] member_name(tree, k)), path)
}

spec fn all_owned(tree: JsonTree, root: Seq<char>, from: int, entries: Seq<EntryView>) -> bool {
    forall|x: int| 0 <= x < entries.len() ==> owned(tree, root, from, (#[trigger] entries[x]).path())
}

/// Whether no two of the entries have the same path.
pub open spec fn distinct_paths(entries: Seq<EntryView>) -> bool {
    forall|i: int, j: int|
        0 <= i < j < entries.len() ==> (#[trigger] entries[i]).path() != (
        #[trigger] entries[j]).path()
}

/// The place of a member, from `from` on, at or below which `path` lies.
spec fn owner(tree: JsonTree, root: Seq<char>, from: int, path: Seq<char>) -> int {
    choose|k: int|
        from <= k < member_count(tree) && under(join(root, #[trigger] member_name(tree, k)), path)
}

proof fn lemma_descendant_chars(path: Seq<char>, dir: Seq<char>)
    ensures
        is_descendant(path, dir) <==> {
            &&& path.len() > dir.len()
            &&& path[dir.len() as int] == '/'
            &&& forall|t: int| 0 <= t < dir.len() ==> path[t] == dir[t]
        },
{
    let head = dir + separator();
    assert(head.len() == dir.len() + 1);
    assert(head[dir.len() as int] == '/');
    assert(forall|t: int| 0 <= t < dir.len() ==> head[t] == dir[t]);
    if is_descendant(path, dir) {
        let cut = path.subrange(0, head.len() as int);
        assert(head =~= cut);
        assert(cut[dir.len() as int] == path[dir.len() as int]);
        assert forall|t: int| 0 <= t < dir.len() implies path[t] == dir[t] by {
            assert(cut[t] == path[t]);
        }
    }
    if path.len() > dir.len() && path[dir.len() as int] == '/' && (forall|t: int|
        0 <= t < dir.len() ==> path[t] == dir[t]) {
        assert(head =~= path.subrange(0, head.len() as int));
    }
}

proof fn lemma_under_chars(dir: Seq<char>, path: Seq<char>)
    requires
        under(dir, path),
    ensures
        path.len() >= dir.len(),
        forall|t: int| 0 <= t < dir.len() ==> path[t] == dir[t],
        path.len() > dir.len() ==> path[dir.len() as int] == '/',
{
    lemma_descendant_chars(path, dir);
}

proof fn lemma_descendant_of_under(top: Seq<char>, dir: Seq<char>, path: Seq<char>)
    requires
        under(top, dir),
        is_descendant(path, dir),
    ensures
        is_descendant(path, top),
{
    lemma_under_chars(top, dir);
    lemma_descendant_chars(path, dir);
    lemma_descendant_chars(path, top);
}

proof fn lemma_join_below(root: Seq<char>, name: Seq<char>, path: Seq<char>)
    requires
        root.len() > 0,
        under(join(root, name), path),
    ensures
        is_descendant(path, root),
        path.len() > root.len(),
{
    let joined = join(root, name);
    assert(joined.len() == root.len() + 1 + name.len());
    assert(joined[root.len() as int] == '/');
    assert(forall|t: int| 0 <= t < root.len() ==> joined[t] == root[t]);
    lemma_descendant_chars(joined, root);
    if path != joined {
        lemma_descendant_of_under(root, joined, path);
    }
    lemma_descendant_chars(path, root);
}

proof fn lemma_one_owner(root: Seq<char>, first: Seq<char>, second: Seq<char>, path: Seq<char>)
    requires
        plain(first),
        plain(second),
        under(join(root, first), path),
        under(join(root, second), path),
    ensures
        first == second,
{
    let lead = if root.len() == 0 {
        root
    } else {
        root + separator()
    };
    let a = join(root, first);
    let b = join(root, second);
    assert(a =~= lead + first);
    assert(b =~= lead + second);
    lemma_under_chars(a, path);
    lemma_under_chars(b, path);
    if first.len() < second.len() {
        let at: int = (lead.len() + first.len()) as int;
        assert(path[at] == '/');
        assert(path[at] == b[at]);
        assert(b[at] == second[first.len() as int]);
        assert(false);
    }
    if second.len() < first.len() {
        let at: int = (lead.len() + second.len()) as int;
        assert(path[at] == '/');
        assert(path[at] == a[at]);
        assert(a[at] == first[second.len() as int]);
        assert(false);
    }
    assert forall|t: int| 0 <= t < first.len() implies first[t] == second[t] by {
        assert(a[lead.len() + t] == first[t]);
        assert(b[lead.len() + t] == second[t]);
        assert(path[lead.len() + t] == a[lead.len() + t]);
        assert(path[lead.len() + t] == b[lead.len() + t]);
    }
    assert(first =~= second);
}

proof fn lemma_joined(a: Seq<EntryView>, b: Seq<EntryView>)
    requires
        directories_first(a),
        directories_first(b),
        none_below(b, a),
    ensures
        directories_first(a + b),
{
    let all = a + b;
    assert forall|i: int, j: int|
        0 <= i < all.len() && 0 <= j < all.len() && (#[trigger] all[i]) is Dir && is_descendant(
            (#[trigger] all[j]).path(),
            all[i].path(),
        ) implies i < j by {
        if i < a.len() && j < a.len() {
            assert(all[i] == a[i] && all[j] == a[j]);
        } else if i >= a.len() && j >= a.len() {
            assert(all[i] == b[i - a.len()] && all[j] == b[j - a.len()]);
        } else if i >= a.len() {
            assert(all[i] == b[i - a.len()] && all[j] == a[j]);
        }
    }
}

proof fn lemma_alone(entry: EntryView)
    ensures
        directories_first(seq![entry]),
{
    lemma_descendant_chars(entry.path(), entry.path());
}

/// The entries that the member at `from` itself gives: its own entry and,
/// for a directory, right after it the walk of what stands in it.
pub open spec fn block_of(tree: JsonTree, root: Seq<char>, from: int) -> Seq<EntryView> {
    match tree {
        JsonTree::Object(members) => {
            let path = join(root, members[from].name);
            match members[from].value {
                JsonTree::Object(fields) => {
                    if has_member(fields, files_key()) {
                        seq![EntryView::Dir { path }] + listing(
                            fields[member_index(fields, files_key())].value,
                            path,
                            0,
                        ).entries
                    } else {
                        match leaf_fields(fields) {
                            Some((size, offset)) => seq![EntryView::File { path, offset, size }],
                            None => Seq::empty(),
                        }
                    }
                },
                _ => Seq::empty(),
            }
        },
        _ => Seq::empty(),
    }
}

/// A walk that reaches the end is made of blocks, one for each member and in
/// the members' order: the block of the first member, then the walk of the
/// members after it. So what stands below a directory follows its entry as
/// one run, and the runs of two members do not mix.
pub proof fn lemma_walk_blocks(tree: JsonTree, root: Seq<char>, from: int)
    requires
        0 <= from < member_count(tree),
        listing(tree, root, from).complete,
    ensures
        listing(tree, root, from + 1).complete,
        listing(tree, root, from).entries == block_of(tree, root, from) + listing(
            tree,
            root,
            from + 1,
        ).entries,
{
    assert(listing(tree, root, from).entries =~= block_of(tree, root, from) + listing(
        tree,
        root,
        from + 1,
    ).entries);
}

/// The path that a chain of names spells below `root`, outermost name first.
pub open spec fn path_of(root: Seq<char>, names: Seq<Seq<char>>) -> Seq<char>
    decreases names.len(),
{
    if names.len() == 0 {
        root
    } else {
        path_of(join(root, names[0]), names.drop_first())
    }
}

/// The `(size, offset)` of the file that a chain of names leads to in a
/// tree: every name but the last is that of a directory, found under
/// `files` of the one before, and the last is that of a file.
pub open spec fn leaf_at(tree: JsonTree, names: Seq<Seq<char>>) -> Option<(u64, u64)>
    decreases names.len(),
{
    match tree {
        JsonTree::Object(members) => {
            if names.len() == 0 || !has_member(members, names[0]) {
                None
            } else {
                match members[member_index(members, names[0])].value {
                    JsonTree::Object(fields) => {
                        if has_member(fields, files_key()) {
                            if names.len() == 1 {
                                None
                            } else {
                                leaf_at(
                                    fields[member_index(fields, files_key())].value,
                                    names.drop_first(),
                                )
                            }
                        } else if names.len() == 1 {
                            leaf_fields(fields)
                        } else {
                            None
                        }
                    },
                    _ => None,
                }
            }
        },
        _ => None,
    }
}

/// In a walk that reaches the end, the walk from any later member reaches
/// the end too, and what that member's block holds is listed.
proof fn lemma_block_listed(tree: JsonTree, root: Seq<char>, from: int, place: int, entry: EntryView)
    requires
        listing(tree, root, from).complete,
        0 <= from <= place < member_count(tree),
        block_of(tree, root, place).contains(entry),
    ensures
        listing(tree, root, place).complete,
        listing(tree, root, from).entries.contains(entry),
    decreases place - from,
{
    lemma_walk_blocks(tree, root, from);
    let all = listing(tree, root, from).entries;
    let block = block_of(tree, root, from);
    let tail = listing(tree, root, from + 1).entries;
    if from == place {
        let i = choose|i: int| 0 <= i < block.len() && block[i] == entry;
        assert(all[i] == entry);
    } else {
        lemma_block_listed(tree, root, from + 1, place, entry);
        let i = choose|i: int| 0 <= i < tail.len() && tail[i] == entry;
        assert(all[block.len() + i] == entry);
    }
}

/// A walk that reaches the end lists every file of the tree under the path
/// that its ancestors' names and its own spell, with its size and offset as
/// the index gives them.
pub proof fn lemma_leaf_listed(
    tree: JsonTree,
    root: Seq<char>,
    names: Seq<Seq<char>>,
    size: u64,
    offset: u64,
)
    requires
        listing(tree, root, 0).complete,
        leaf_at(tree, names) == Some((size, offset)),
    ensures
        listing(tree, root, 0).entries.contains(
            EntryView::File { path: path_of(root, names), offset, size },
        ),
    decreases names.len(),
{
    let entry = EntryView::File { path: path_of(root, names), offset, size };
    match tree {
        JsonTree::Object(members) => {
            let place = member_index(members, names[0]);
            let path = join(root, members[place].name);
            let block = block_of(tree, root, place);
            assert(path_of(root, names) == path_of(path, names.drop_first()));
            match members[place].value {
                JsonTree::Object(fields) => {
                    if has_member(fields, files_key()) {
                        let below = fields[member_index(fields, files_key())].value;
                        let inner = listing(below, path, 0).entries;
                        assert(block[0] == EntryView::Dir { path });
                        lemma_block_listed(tree, root, 0, place, block[0]);
                        lemma_leaf_listed(below, path, names.drop_first(), size, offset);
                        let i = choose|i: int| 0 <= i < inner.len() && inner[i] == entry;
                        assert(block[i + 1] == entry);
                    } else {
                        assert(names.drop_first().len() == 0);
                        assert(path_of(path, names.drop_first()) == path);
                        assert(block[0] == entry);
                    }
                    lemma_block_listed(tree, root, 0, place, entry);
                },
                _ => {},
            }
        },
        _ => {},
    }
}

/// Every entry of a walk lies at or below one of the members walked.
proof fn lemma_owned(tree: JsonTree, root: Seq<char>, from: int)
    requires
        tidy(tree),
    ensures
        all_owned(tree, root, from, listing(tree, root, from).entries),
    decreases tree, member_count(tree) - from, 1nat,
{
    let all = listing(tree, root, from).entries;
    if 0 <= from < member_count(tree) {
        let path = join(root, member_name(tree, from));
        let block = block_of(tree, root, from);
        let tail = listing(tree, root, from + 1).entries;
        lemma_block(tree, root, from);
        lemma_owned(tree, root, from + 1);
        assert forall|x: int| 0 <= x < all.len() implies owned(
            tree,
            root,
            from,
            (#[trigger] all[x]).path(),
        ) by {
            if x < block.len() {
                assert(all[x] == block[x]);
                assert(under(path, block[x].path()));
            } else {
                assert(all[x] == tail[x - block.len()]);
                let k = owner(tree, root, from + 1, tail[x - block.len()].path());
                assert(from <= k < member_count(tree) && under(
                    join(root, member_name(tree, k)),
                    all[x].path(),
                ));
            }
        }
    }
}

/// Every entry of a walk inside a directory lies strictly below it.
proof fn lemma_walk_below(tree: JsonTree, root: Seq<char>, from: int)
    requires
        tidy(tree),
        root.len() > 0,
    ensures
        forall|x: int|
            0 <= x < listing(tree, root, from).entries.len() ==> is_descendant(
                (#[trigger] listing(tree, root, from).entries[x]).path(),
                root,
            ) && listing(tree, root, from).entries[x].path().len() > root.len(),
    decreases tree, member_count(tree) - from, 2nat,
{
    let all = listing(tree, root, from).entries;
    lemma_owned(tree, root, from);
    assert forall|x: int| 0 <= x < all.len() implies is_descendant(
        (#[trigger] all[x]).path(),
        root,
    ) && all[x].path().len() > root.len() by {
        let k = owner(tree, root, from, all[x].path());
        lemma_join_below(root, member_name(tree, k), all[x].path());
    }
}

/// A path that belongs to the member at `from` lies neither at nor below a
/// path that belongs to a later member.
proof fn lemma_apart(
    tree: JsonTree,
    root: Seq<char>,
    from: int,
    here: Seq<char>,
    there: Seq<char>,
)
    requires
        tidy(tree),
        0 <= from < member_count(tree),
        under(join(root, member_name(tree, from)), here),
        owned(tree, root, from + 1, there),
    ensures
        !under(there, here),
{
    if under(there, here) {
        let k = owner(tree, root, from + 1, there);
        let other = join(root, member_name(tree, k));
        if here != there {
            lemma_descendant_of_under(other, there, here);
        }
        match tree {
            JsonTree::Object(members) => {
                assert(plain(members[k].name));
                assert(plain(members[from].name));
                lemma_one_owner(root, members[k].name, members[from].name, here);
                assert(members[from].name != members[k].name);
            },
            _ => {},
        }
    }
}

/// A walk is the block of its first member, followed by the walk of the
/// other members or by nothing; the block lies at or below that member, and
/// it keeps the order and the distinctness that the rest has.
proof fn lemma_block(tree: JsonTree, root: Seq<char>, from: int)
    requires
        tidy(tree),
        0 <= from < member_count(tree),
    ensures
        listing(tree, root, from).entries == block_of(tree, root, from) + listing(
            tree,
            root,
            from + 1,
        ).entries || listing(tree, root, from).entries == block_of(tree, root, from),
        all_under(join(root, member_name(tree, from)), block_of(tree, root, from)),
        directories_first(listing(tree, root, from + 1).entries) ==> directories_first(
            listing(tree, root, from).entries,
        ),
        distinct_paths(listing(tree, root, from + 1).entries) ==> distinct_paths(
            listing(tree, root, from).entries,
        ),
    decreases tree, member_count(tree) - from, 0nat,
{
    let all = listing(tree, root, from).entries;
    let block = block_of(tree, root, from);
    let tail = listing(tree, root, from + 1).entries;
    match tree {
        JsonTree::Object(members) => {
            let path = join(root, members[from].name);
            assert(plain(members[from].name));
            match members[from].value {
                JsonTree::Object(fields) => {
                    if has_member(fields, files_key()) {
                        let below = fields[member_index(fields, files_key())].value;
                        assert(tidy(below));
                        let inner = listing(below, path, 0).entries;
                        let first = seq![EntryView::Dir { path }];
                        lemma_walk_below(below, path, 0);
                        lemma_order(below, path, 0);
                        lemma_distinct(below, path, 0);
                        assert forall|x: int| 0 <= x < block.len() implies under(
                            path,
                            (#[trigger] block[x]).path(),
                        ) by {
                            if x > 0 {
                                assert(block[x] == inner[x - 1]);
                            }
                        }
                        assert(all =~= block + tail || all =~= block);
                        lemma_alone(EntryView::Dir { path });
                        lemma_joined(first, inner);
                        assert forall|i: int, j: int| 0 <= i < j < block.len() implies (
                        #[trigger] block[i]).path() != (#[trigger] block[j]).path() by {
                            assert(block[j] == inner[j - 1]);
                            if i > 0 {
                                assert(block[i] == inner[i - 1]);
                            }
                        }
                    } else {
                        match leaf_fields(fields) {
                            Some((size, offset)) => {
                                lemma_alone(EntryView::File { path, offset, size });
                            },
                            None => {},
                        }
                        assert(all =~= block + tail || all =~= block);
                    }
                },
                _ => {
                    assert(all =~= block);
                },
            }
            assert(directories_first(block));
            assert(distinct_paths(block));
            if all == block + tail {
                lemma_owned(tree, root, from + 1);
                assert forall|x: int, y: int|
                    0 <= x < tail.len() && 0 <= y < block.len() implies !under(
                    (#[trigger] tail[x]).path(),
                    (#[trigger] block[y]).path(),
                ) by {
                    lemma_apart(tree, root, from, block[y].path(), tail[x].path());
                }
                if directories_first(tail) {
                    lemma_joined(block, tail);
                }
                if distinct_paths(tail) {
                    assert forall|i: int, j: int| 0 <= i < j < all.len() implies (
                    #[trigger] all[i]).path() != (#[trigger] all[j]).path() by {
                        if j < block.len() {
                            assert(all[i] == block[i] && all[j] == block[j]);
                        } else if i >= block.len() {
                            assert(all[i] == tail[i - block.len()] && all[j] == tail[j
                                - block.len()]);
                        } else {
                            assert(all[i] == block[i] && all[j] == tail[j - block.len()]);
                        }
                    }
                }
            }
        },
        _ => {},
    }
}

/// In the walk of a tidy tree, every directory stands before each entry
/// whose path lies strictly below its own.
pub proof fn lemma_order(tree: JsonTree, root: Seq<char>, from: int)
    requires
        tidy(tree),
    ensures
        directories_first(listing(tree, root, from).entries),
    decreases tree, member_count(tree) - from, 1nat,
{
    if 0 <= from < member_count(tree) {
        lemma_order(tree, root, from + 1);
        lemma_block(tree, root, from);
    }
}

/// In the walk of a tidy tree, no path is listed twice.
pub proof fn lemma_distinct(tree: JsonTree, root: Seq<char>, from: int)
    requires
        tidy(tree),
    ensures
        distinct_paths(listing(tree, root, from).entries),
    decreases tree, member_count(tree) - from, 1nat,
{
    if 0 <= from < member_count(tree) {
        lemma_distinct(tree, root, from + 1);
        lemma_block(tree, root, from);
    }
}

/// In the listing of a document whose tree is tidy, every directory stands
/// before each entry whose path lies strictly below its own, and no path is
/// listed twice.
pub proof fn lemma_document_order(document: JsonTree, entries: Seq<EntryView>)
    requires
        tidy_document(document),
        document_listing(document) == Some(entries),
    ensures
        directories_first(entries),
        distinct_paths(entries),
{
    match document {
        JsonTree::Object(fields) => {
            let files = fields[member_index(fields, files_key())].value;
            lemma_order(files, Seq::empty(), 0);
            lemma_distinct(files, Seq::empty(), 0);
        },
        _ => {},
    }
}

} // verus!
