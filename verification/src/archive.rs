//! An opened archive: the two lengths of its fixed prefix and its JSON index.

use vstd::prelude::*;
use vstd::slice::{slice_subrange, slice_to_vec};
use vstd::string::{StrSliceExecFns, StringExecFns};
use crate::error::AsarError;
use crate::header::{header_fields, parse_header, PREFIX_LEN};
use crate::json::{
    has_member, member_index, as_object, as_str, as_u64, lossy_text, member, members, object_members, parse_document,
    parse_u64, parsed_document, utf8_lossy, value_tree, JsonTree,
};
use crate::listing::{
    files_key, document_listing, entry_views, leaf_fields, listing, AsarEntry, AsarFileEntry, EntryView,
};
use crate::order::{
    directories_first, distinct_paths, lemma_document_order, plain, tidy, tidy_below,
    tidy_document,
};
use crate::path::{join, join_path};

verus! {

/// Distance from the end of the announced header to the first content byte.
pub const CONTENT_GAP: u64 = 8;

/// An archive whose prefix and index have been read.
pub struct AsarFile {
    header_size: u64,
    json_size: u64,
    header: serde_json::Value,
}

/// Where in the archive the content of a file at `offset` starts.
pub open spec fn content_start(header_size: u64, offset: u64) -> int {
    header_size + 8 + offset
}

/// The position in the archive at which the content of a file at `offset`
/// starts, for a caller that reads part of a file itself. There is none
/// where 64 bits cannot hold it.
pub fn content_position(header_size: u64, offset: u64) -> (position: Option<u64>)
    ensures
        position == if content_start(header_size, offset) <= u64::MAX {
            Some(content_start(header_size, offset) as u64)
        } else {
            None
        },
{
    if header_size > u64::MAX - CONTENT_GAP || offset > u64::MAX - CONTENT_GAP - header_size {
        None
    } else {
        Some(header_size + CONTENT_GAP + offset)
    }
}

/// The bytes of an entry in an archive: those of its range for a file that
/// lies inside the archive, none for a directory, `None` for a file whose
/// range passes the archive's end.
pub open spec fn entry_content(header_size: u64, entry: EntryView, archive: Seq<u8>) -> Option<
    Seq<u8>,
> {
    match entry {
        EntryView::Dir { .. } => Some(Seq::empty()),
        EntryView::File { offset, size, .. } => {
            let start = content_start(header_size, offset);
            if start + size <= archive.len() {
                Some(archive.subrange(start, start + size))
            } else {
                None
            }
        },
    }
}

/// Reads the `size` and `offset` of a file object.
fn read_leaf(fields: &serde_json::Map<String, serde_json::Value>) -> (leaf: Option<(u64, u64)>)
    ensures
        leaf == leaf_fields(object_members(*fields)),
{
    let size: u64 = match member(fields, "size") {
        Some(value) => match as_u64(value) {
            Some(n) => n,
            None => { return None; },
        },
        None => { return None; },
    };
    let text = match member(fields, "offset") {
        Some(value) => match as_str(value) {
            Some(s) => s,
            None => { return None; },
        },
        None => { return None; },
    };
    match parse_u64(text) {
        Some(offset) => Some((size, offset)),
        None => None,
    }
}

/// Whether a name can be one component of a path: it is not empty and holds
/// no separator.
pub fn is_plain(name: &str) -> (answer: bool)
    ensures
        answer == plain(name@),
{
    let length: usize = name.unicode_len();
    if length == 0 {
        return false;
    }
    let mut i: usize = 0;
    while i < length
        invariant
            length == name@.len(),
            i <= length,
            forall|k: int| 0 <= k < i ==> name@[k] != '/',
        decreases length - i,
    {
        if name.get_char(i) == '/' {
            return false;
        }
        i = i + 1;
    }
    true
}

/// Whether the names in a tree of directories and files can all stand in
/// paths. That no two members of an object share a name needs no look: the
/// parsed document holds one value for each name.
fn has_tidy_names(value: &serde_json::Value) -> (answer: bool)
    ensures
        answer == tidy(value_tree(*value)),
    decreases value_tree(*value),
{
    let object = match as_object(value) {
        Some(object) => object,
        None => { return true; },
    };
    let pairs = members(object);
    let mut i: usize = 0;
    while i < pairs.len()
        invariant
            i <= pairs@.len(),
            value_tree(*value) == JsonTree::Object(object_members(*object)),
            pairs@.len() == object_members(*object).len(),
            forall|a: int, b: int|
                0 <= a < b < pairs@.len() ==> (#[trigger] pairs@[a]).0@ != (#[trigger] pairs@[b]).0@,
            forall|k: int|
                0 <= k < pairs@.len() ==> {
                    &&& (#[trigger] pairs@[k]).0@ == object_members(*object)[k].name
                    &&& value_tree(*pairs@[k].1) == object_members(*object)[k].value
                },
            forall|k: int|
                0 <= k < i ==> plain((#[trigger] object_members(*object)[k]).name) && tidy_below(
                    object_members(*object)[k].value,
                ),
        decreases pairs@.len() - i,
    {
        let ghost here = object_members(*object)[i as int];
        assert(pairs@[i as int].0@ == here.name);
        if !is_plain(pairs[i].0.as_str()) {
            return false;
        }
        match as_object(pairs[i].1) {
            Some(fields) => match member(fields, "files") {
                Some(files) => {
                    proof {
                        let inside = object_members(*fields);
                        assert(here.value == JsonTree::Object(inside));
                        assert(has_member(inside, files_key()));
                        let at = member_index(inside, files_key());
                        assert(value_tree(*files) == inside[at].value);
                        assert(decreases_to!(object_members(*object) => here));
                        assert(decreases_to!(inside => inside[at]));
                        assert(here.value->Object_0 == inside);
                        assert(value_tree(*value)->Object_0 == object_members(*object));
                    }
                    if !has_tidy_names(files) {
                        assert(!tidy_below(here.value));
                        return false;
                    }
                },
                None => {},
            },
            None => {},
        }
        assert(tidy_below(here.value));
        i = i + 1;
    }
    proof {
        let all = object_members(*object);
        assert forall|a: int, b: int| 0 <= a < b < all.len() implies (#[trigger] all[a]).name != (
        #[trigger] all[b]).name by {
            assert(pairs@[a].0@ == all[a].name && pairs@[b].0@ == all[b].name);
        }
        assert forall|k: int| 0 <= k < all.len() implies tidy_below((#[trigger] all[k]).value) by {}
    }
    true
}

impl AsarFile {
    /// The `header_size` of the fixed prefix.
    pub closed spec fn spec_header_size(&self) -> u64 {
        self.header_size
    }

    /// The `json_size` of the fixed prefix.
    pub closed spec fn spec_json_size(&self) -> u64 {
        self.json_size
    }

    /// The tree of the JSON index.
    pub closed spec fn document(&self) -> JsonTree {
        value_tree(self.header)
    }

    /// Opens an archive from its leading bytes: the sixteen bytes of the
    /// prefix and the `json_size` bytes of the index after them. Whatever
    /// follows is not looked at. Fewer than sixteen bytes is a format error;
    /// bytes that end before the announced index does is an I/O error, as
    /// of a read that came short.
    pub fn new(bytes: &[u8]) -> (opened: Result<AsarFile, AsarError>)
        ensures
            match opened {
                Ok(file) => match header_fields(bytes@) {
                    Some((header_size, json_size)) => {
                        &&& 16 + json_size <= bytes@.len()
                        &&& file.spec_header_size() == header_size
                        &&& file.spec_json_size() == json_size
                        &&& parsed_document(bytes@.subrange(16, 16 + json_size)) == Some(
                            file.document(),
                        )
                    },
                    None => false,
                },
                Err(e) => match header_fields(bytes@) {
                    None => e is FormatError,
                    Some((_, json_size)) => if 16 + json_size > bytes@.len() {
                        e is IO
                    } else {
                        e is JsonHeaderError && parsed_document(
                            bytes@.subrange(16, 16 + json_size),
                        ) is None
                    },
                },
            },
    {
        let (header_size, json_size) = match parse_header(bytes) {
            Ok(pair) => pair,
            Err(_) => { return Err(AsarError::FormatError); },
        };
        if bytes.len() - PREFIX_LEN < json_size as usize {
            return Err(AsarError::IO(String::from_str("failed to fill whole buffer")));
        }
        let index = slice_subrange(bytes, PREFIX_LEN, PREFIX_LEN + json_size as usize);
        match parse_document(index) {
            Ok(value) => Ok(
                AsarFile {
                    header_size: header_size as u64,
                    json_size: json_size as u64,
                    header: value,
                },
            ),
            Err(_) => Err(AsarError::JsonHeaderError),
        }
    }

    /// The `header_size` of the fixed prefix.
    pub fn header_size(&self) -> (size: u64)
        ensures
            size == self.spec_header_size(),
    {
        self.header_size
    }

    /// The `json_size` of the fixed prefix.
    pub fn json_size(&self) -> (size: u64)
        ensures
            size == self.spec_json_size(),
    {
        self.json_size
    }

    /// Walks the object `value` and appends its entries to `result`, with
    /// `root_entry` as the path of the directory that the object's members
    /// stand in. The walk succeeds as a whole or not at all: at the first
    /// malformed node it ends with an error and `result` is as it was.
    pub fn read_header(
        value: &serde_json::Value,
        result: &mut Vec<AsarEntry>,
        root_entry: String,
    ) -> (outcome: Result<(), AsarError>)
        ensures
            old(result)@.is_prefix_of(final(result)@),
            match outcome {
                Ok(_) => {
                    &&& listing(value_tree(*value), root_entry@, 0).complete
                    &&& entry_views(final(result)@) == entry_views(old(result)@) + listing(
                        value_tree(*value),
                        root_entry@,
                        0,
                    ).entries
                },
                Err(e) => {
                    &&& e is JsonHeaderError
                    &&& !listing(value_tree(*value), root_entry@, 0).complete
                    &&& final(result)@ == old(result)@
                },
            },
        decreases value_tree(*value),
    {
        let ghost tree = value_tree(*value);
        let ghost root = root_entry@;
        let ghost start = result@;
        let kept: usize = result.len();
        let object = match as_object(value) {
            Some(object) => object,
            None => { return Err(AsarError::JsonHeaderError); },
        };
        let pairs = members(object);
        let mut i: usize = 0;
        assert(start.subrange(0, kept as int) =~= start);
        while i < pairs.len()
            invariant
                i <= pairs@.len(),
                tree == value_tree(*value),
                root == root_entry@,
                start == old(result)@,
                kept == start.len(),
                kept <= result@.len(),
                result@.subrange(0, kept as int) == start,
                tree == JsonTree::Object(object_members(*object)),
                pairs@.len() == object_members(*object).len(),
                forall|k: int|
                    0 <= k < pairs@.len() ==> {
                        &&& (#[trigger] pairs@[k]).0@ == object_members(*object)[k].name
                        &&& value_tree(*pairs@[k].1) == object_members(*object)[k].value
                    },
                entry_views(result@) + listing(tree, root, i as int).entries == entry_views(start)
                    + listing(tree, root, 0).entries,
                listing(tree, root, i as int).complete == listing(tree, root, 0).complete,
            decreases pairs@.len() - i,
        {
            let key: &String = pairs[i].0;
            let item: &serde_json::Value = pairs[i].1;
            let ghost so_far = entry_views(result@);
            let ghost here = listing(tree, root, i as int);
            let ghost rest = listing(tree, root, i as int + 1);
            let fields = match as_object(item) {
                Some(fields) => fields,
                None => {
                    result.truncate(kept);
                    return Err(AsarError::JsonHeaderError);
                },
            };
            let path = join_path(root_entry.as_str(), key.as_str());
            match member(fields, "files") {
                Some(files) => {
                    let inner_root = path.clone();
                    let ghost held = result@;
                    result.push(AsarEntry::Dir(path));
                    let ghost with_dir = result@;
                    let ghost inner = listing(value_tree(*files), inner_root@, 0);
                    assert(entry_views(with_dir) =~= so_far.push(
                        EntryView::Dir { path: inner_root@ },
                    ));
                    let walked = AsarFile::read_header(files, result, inner_root);
                    assert(result@.subrange(0, kept as int) =~= with_dir.subrange(0, kept as int));
                    assert(with_dir.subrange(0, kept as int) =~= held.subrange(0, kept as int));
                    match walked {
                        Ok(_) => {
                            assert(here.entries =~= seq![EntryView::Dir { path: join(root, key@) }]
                                + inner.entries + rest.entries);
                            assert(entry_views(result@) + rest.entries =~= so_far + here.entries);
                        },
                        Err(_) => {
                            result.truncate(kept);
                            return Err(AsarError::JsonHeaderError);
                        },
                    }
                },
                None => {
                    match read_leaf(fields) {
                        Some((size, offset)) => {
                            let ghost held = result@;
                            result.push(
                                AsarEntry::File(AsarFileEntry { filename: path, offset, size }),
                            );
                            assert(result@.subrange(0, kept as int) =~= held.subrange(
                                0,
                                kept as int,
                            ));
                            assert(entry_views(result@) =~= so_far.push(
                                EntryView::File { path: join(root, key@), offset, size },
                            ));
                            assert(entry_views(result@) + rest.entries =~= so_far + here.entries);
                        },
                        None => {
                            result.truncate(kept);
                            return Err(AsarError::JsonHeaderError);
                        },
                    }
                },
            }
            i = i + 1;
        }
        assert(entry_views(result@) + Seq::<EntryView>::empty() =~= entry_views(result@));
        Ok(())
    }

    /// Whether the names of the archive's directories and files can all stand
    /// in paths: none is empty, none holds a separator, and no two in one
    /// directory are equal. Of such an archive the listing puts every
    /// directory before what lies below it, and lists no path twice.
    pub fn has_plain_names(&self) -> (answer: bool)
        ensures
            answer == tidy_document(self.document()),
    {
        let object = match as_object(&self.header) {
            Some(object) => object,
            None => { return true; },
        };
        match member(object, "files") {
            Some(files) => has_tidy_names(files),
            None => true,
        }
    }

    /// Lists the archive: every directory and file of the index, in
    /// pre-order. Nothing is listed of an index with a malformed node. Where
    /// the names are plain, every directory stands before what lies below
    /// it, and no path is listed twice.
    pub fn list_files(&self) -> (entries: Result<Vec<AsarEntry>, AsarError>)
        ensures
            match entries {
                Ok(list) => {
                    &&& document_listing(self.document()) == Some(entry_views(list@))
                    &&& tidy_document(self.document()) ==> directories_first(entry_views(list@))
                        && distinct_paths(entry_views(list@))
                },
                Err(e) => e is JsonHeaderError && document_listing(self.document()) is None,
            },
    {
        let mut list: Vec<AsarEntry> = Vec::new();
        let object = match as_object(&self.header) {
            Some(object) => object,
            None => { return Err(AsarError::JsonHeaderError); },
        };
        let files = match member(object, "files") {
            Some(files) => files,
            None => { return Err(AsarError::JsonHeaderError); },
        };
        assert(entry_views(list@) =~= Seq::<EntryView>::empty());
        match AsarFile::read_header(files, &mut list, String::new()) {
            Ok(_) => {
                assert(entry_views(list@) =~= listing(
                    value_tree(*files),
                    Seq::empty(),
                    0,
                ).entries);
                proof {
                    if tidy_document(self.document()) {
                        lemma_document_order(self.document(), entry_views(list@));
                    }
                }
                Ok(list)
            },
            Err(_) => Err(AsarError::JsonHeaderError),
        }
    }

    /// The content of an entry, cut out of the bytes of the whole archive:
    /// the file's range, or nothing for a directory. A range that passes the
    /// end of the archive is an I/O error.
    pub fn read_content(&self, entry: &AsarEntry, archive: &[u8]) -> (content: Result<
        Vec<u8>,
        AsarError,
    >)
        ensures
            match content {
                Ok(bytes) => entry_content(self.spec_header_size(), entry@, archive@) == Some(
                    bytes@,
                ),
                Err(e) => e is IO && entry_content(self.spec_header_size(), entry@, archive@)
                    is None,
            },
    {
        match entry {
            AsarEntry::File(file) => {
                let start: u128 = self.header_size as u128 + CONTENT_GAP as u128
                    + file.offset as u128;
                let end: u128 = start + file.size as u128;
                if end > archive.len() as u128 {
                    return Err(AsarError::IO(String::from_str("failed to fill whole buffer")));
                }
                let range = slice_subrange(archive, start as usize, end as usize);
                Ok(slice_to_vec(range))
            },
            AsarEntry::Dir(_) => Ok(Vec::new()),
        }
    }

    /// The content of an entry as text: its bytes read as UTF-8, with the
    /// replacement character in place of each invalid sequence.
    pub fn read_string(&self, entry: &AsarEntry, archive: &[u8]) -> (text: Result<
        String,
        AsarError,
    >)
        ensures
            match text {
                Ok(s) => match entry_content(self.spec_header_size(), entry@, archive@) {
                    Some(bytes) => s@ == lossy_text(bytes),
                    None => false,
                },
                Err(e) => e is IO && entry_content(self.spec_header_size(), entry@, archive@)
                    is None,
            },
    {
        match self.read_content(entry, archive) {
            Ok(content) => Ok(utf8_lossy(content.as_slice())),
            Err(err) => Err(err),
        }
    }
}

} // verus!
