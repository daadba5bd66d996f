//! The listing of an archive: the tree of its JSON index, flattened in
//! pre-order into files and directories.

use vstd::prelude::*;
use crate::json::{decimal_u64, has_member, lookup, member_index, JsonTree, Member};
use crate::path::join;

verus! {

/// A file of the archive: where it goes and where its bytes are.
#[derive(Debug, PartialEq, Eq)]
pub struct AsarFileEntry {
    /// Path inside the archive, components separated by `/`.
    pub filename: String,
    /// Where the content starts, counted from the start of the content region.
    pub offset: u64,
    /// Length of the content in bytes.
    pub size: u64,
}

/// One line of an archive's listing.
#[derive(Debug, PartialEq, Eq)]
pub enum AsarEntry {
    File(AsarFileEntry),
    /// A directory, by its path inside the archive.
    Dir(String),
}

/// The mathematical value of an entry.
pub enum EntryView {
    File { path: Seq<char>, offset: u64, size: u64 },
    Dir { path: Seq<char> },
}

impl EntryView {
    /// The path of the entry inside the archive.
    pub open spec fn path(self) -> Seq<char> {
        match self {
            EntryView::File { path, .. } => path,
            EntryView::Dir { path } => path,
        }
    }
}

impl View for AsarEntry {
    type V = EntryView;

    open spec fn view(&self) -> EntryView {
        match self {
            AsarEntry::File(file) => EntryView::File {
                path: file.filename@,
                offset: file.offset,
                size: file.size,
            },
            AsarEntry::Dir(path) => EntryView::Dir { path: path@ },
        }
    }
}

/// The values of a sequence of entries, one for one.
pub open spec fn entry_views(entries: Seq<AsarEntry>) -> Seq<EntryView> {
    entries.map_values(|entry: AsarEntry| entry@)
}

/// The name that marks an object as a directory, and holds its children.
pub open spec fn files_key() -> Seq<char> {
    "files"@
}

/// The name under which a file's length stands.
pub open spec fn size_key() -> Seq<char> {
    "size"@
}

/// The name under which a file's offset stands, as a decimal string.
pub open spec fn offset_key() -> Seq<char> {
    "offset"@
}

/// The `(size, offset)` of a file object: `size` an unsigned integer,
/// `offset` a string that spells one. `None` where either is missing or of
/// another kind.
pub open spec fn leaf_fields(fields: Seq<Member>) -> Option<(u64, u64)> {
    match (lookup(fields, size_key()), lookup(fields, offset_key())) {
        (Some(JsonTree::Unsigned(size)), Some(JsonTree::Text(text))) => match decimal_u64(text) {
            Some(offset) => Some((size, offset)),
            None => None,
        },
        _ => None,
    }
}

/// How many members an object has; zero for any other value.
pub open spec fn member_count(tree: JsonTree) -> nat {
    match tree {
        JsonTree::Object(members) => members.len(),
        _ => 0,
    }
}

/// The outcome of walking a tree: the entries met before the walk ended, and
/// whether it reached the end without meeting a malformed node. Only a walk
/// that reached the end is a listing; of another, the entries serve to say
/// how far it came.
pub struct Listing {
    pub entries: Seq<EntryView>,
    pub complete: bool,
}

/// Walks the members of the object `tree` from place `from` on, in order,
/// with `root` as the path of the directory that they stand in. A member
/// that has a `files` member is a directory: its entry comes first, then the
/// walk of what stands under `files`. Any other member is a file. The walk
/// ends at the first malformed node, with what it had met until then.
pub open spec fn listing(tree: JsonTree, root: Seq<char>, from: int) -> Listing
    decreases tree, member_count(tree) - from,
{
    match tree {
        JsonTree::Object(members) => {
            if from < 0 || from >= members.len() {
                Listing { entries: Seq::empty(), complete: true }
            } else {
                let path = join(root, members[from].name);
                let rest = listing(tree, root, from + 1);
                match members[from].value {
                    JsonTree::Object(fields) => {
                        if has_member(fields, files_key()) {
                            let inner = listing(
                                fields[member_index(fields, files_key())].value,
                                path,
                                0,
                            );
                            if inner.complete {
                                Listing {
                                    entries: seq![EntryView::Dir { path }] + inner.entries
                                        + rest.entries,
                                    complete: rest.complete,
                                }
                            } else {
                                Listing {
                                    entries: seq![EntryView::Dir { path }] + inner.entries,
                                    complete: false,
                                }
                            }
                        } else {
                            match leaf_fields(fields) {
                                Some((size, offset)) => Listing {
                                    entries: seq![EntryView::File { path, offset, size }]
                                        + rest.entries,
                                    complete: rest.complete,
                                },
                                None => Listing { entries: Seq::empty(), complete: false },
                            }
                        }
                    },
                    _ => Listing { entries: Seq::empty(), complete: false },
                }
            }
        },
        _ => Listing { entries: Seq::empty(), complete: false },
    }
}

/// The listing of a whole document: the walk of what stands under `files` in
/// the root object, or `None` where the document has no such tree or the
/// tree has a malformed node.
pub open spec fn document_listing(document: JsonTree) -> Option<Seq<EntryView>> {
    match document {
        JsonTree::Object(fields) => match lookup(fields, files_key()) {
            Some(files) => {
                let walk = listing(files, Seq::empty(), 0);
                if walk.complete {
                    Some(walk.entries)
                } else {
                    None
                }
            },
            None => None,
        },
        _ => None,
    }
}

/// How many directories stand among the members of the object `tree` from
/// place `from` on, and below them: the objects that have a `files` member.
pub open spec fn directory_count(tree: JsonTree, from: int) -> nat
    decreases tree, member_count(tree) - from,
{
    match tree {
        JsonTree::Object(members) => {
            if from < 0 || from >= members.len() {
                0
            } else {
                let rest = directory_count(tree, from + 1);
                match members[from].value {
                    JsonTree::Object(fields) => {
                        if has_member(fields, files_key()) {
                            1 + directory_count(
                                fields[member_index(fields, files_key())].value,
                                0,
                            ) + rest
                        } else {
                            rest
                        }
                    },
                    _ => rest,
                }
            }
        },
        _ => 0,
    }
}

/// How many files stand among the members of the object `tree` from place
/// `from` on, and below them: the objects that have no `files` member.
pub open spec fn file_count(tree: JsonTree, from: int) -> nat
    decreases tree, member_count(tree) - from,
{
    match tree {
        JsonTree::Object(members) => {
            if from < 0 || from >= members.len() {
                0
            } else {
                let rest = file_count(tree, from + 1);
                match members[from].value {
                    JsonTree::Object(fields) => {
                        if has_member(fields, files_key()) {
                            file_count(fields[member_index(fields, files_key())].value, 0) + rest
                        } else {
                            1 + rest
                        }
                    },
                    _ => rest,
                }
            }
        },
        _ => 0,
    }
}

/// The directories among some entries, in their order.
pub open spec fn directories(entries: Seq<EntryView>) -> Seq<EntryView> {
    entries.filter(|entry: EntryView| entry is Dir)
}

/// The files among some entries, in their order.
pub open spec fn files(entries: Seq<EntryView>) -> Seq<EntryView> {
    entries.filter(|entry: EntryView| entry is File)
}

/// A walk that reaches the end lists each directory of the tree once and each
/// file once: it has as many directory entries as the tree has objects with
/// a `files` member, and as many file entries as it has objects without.
pub proof fn lemma_listing_counts(tree: JsonTree, root: Seq<char>, from: int)
    requires
        listing(tree, root, from).complete,
    ensures
        directories(listing(tree, root, from).entries).len() == directory_count(tree, from),
        files(listing(tree, root, from).entries).len() == file_count(tree, from),
        listing(tree, root, from).entries.len() == directory_count(tree, from) + file_count(
            tree,
            from,
        ),
    decreases tree, member_count(tree) - from,
{
    let is_dir = |entry: EntryView| entry is Dir;
    let is_file = |entry: EntryView| entry is File;
    let empty = Seq::<EntryView>::empty();
    assert(empty.filter(is_dir) =~= empty) by {
        reveal(Seq::filter);
    }
    assert(empty.filter(is_file) =~= empty) by {
        reveal(Seq::filter);
    }
    match tree {
        JsonTree::Object(members) => {
            if 0 <= from < members.len() {
                let path = join(root, members[from].name);
                let rest = listing(tree, root, from + 1);
                match members[from].value {
                    JsonTree::Object(fields) => {
                        if has_member(fields, files_key()) {
                            let below = fields[member_index(fields, files_key())].value;
                            let inner = listing(below, path, 0);
                            let first = seq![EntryView::Dir { path }];
                            lemma_listing_counts(below, path, 0);
                            lemma_listing_counts(tree, root, from + 1);
                            lemma_filter_one(EntryView::Dir { path });
                            Seq::filter_distributes_over_add(first, inner.entries, is_dir);
                            Seq::filter_distributes_over_add(first, inner.entries, is_file);
                            Seq::filter_distributes_over_add(
                                first + inner.entries,
                                rest.entries,
                                is_dir,
                            );
                            Seq::filter_distributes_over_add(
                                first + inner.entries,
                                rest.entries,
                                is_file,
                            );
                        } else {
                            let (size, offset) = leaf_fields(fields)->0;
                            let first = seq![EntryView::File { path, offset, size }];
                            lemma_listing_counts(tree, root, from + 1);
                            lemma_filter_one(EntryView::File { path, offset, size });
                            Seq::filter_distributes_over_add(first, rest.entries, is_dir);
                            Seq::filter_distributes_over_add(first, rest.entries, is_file);
                        }
                    },
                    _ => {},
                }
            }
        },
        _ => {},
    }
}

proof fn lemma_filter_one(entry: EntryView)
    ensures
        directories(seq![entry]).len() == (if entry is Dir { 1nat } else { 0nat }),
        files(seq![entry]).len() == (if entry is File { 1nat } else { 0nat }),
{
    let one = seq![entry];
    let empty = Seq::<EntryView>::empty();
    assert(one.drop_last() =~= empty);
    assert(one.last() == entry);
    reveal_with_fuel(Seq::filter, 2);
}

} // verus!
