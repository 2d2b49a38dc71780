//! The index of a vault: its notes, files and folders, their relative
//! paths, the notes of each tag, and the folder tree.

use vstd::prelude::*;

use indexmap::IndexMap;

use crate::chars::{chars_of, copy_range, string_of};
use crate::dataview::or_empty;
use crate::front_matter::{Property, front_matter_pairs, front_matter_properties, properties_match};
use crate::order::{lemma_sorted_distinct, lemma_text_lt_irreflexive, texts};
use crate::slots::{
    lemma_insert_positional, lemma_key_index_positional, positional, slot_entries, slots_get,
    slots_insert, slots_new,
};
use crate::tags::{code_erased, erase_code, extract_tags, hash_words, levels_of_all, plain_text_tags};
use crate::tree::{ItemType, Tree, TreeNode, child_added};

verus! {

/// The separator of the relative paths that the index keeps.
pub const SEPARATOR: char = '\\';

/// A folder of the vault. It does not list its children: the tree does.
#[derive(Debug)]
pub struct FolderItem {
    pub name: String,
    pub path: String,
    pub local_path: String,
}

/// A file of the vault that is not a note.
#[derive(Debug)]
pub struct FileItem {
    pub name: String,
    pub file_type: String,
    pub path: String,
    pub local_path: String,
}

/// A note of the vault: its name is the file name without its extension, and
/// so is the last part of its relative path.
#[derive(Debug)]
pub struct NoteItem {
    pub name: String,
    pub file_type: String,
    pub path: String,
    pub local_path: String,
    pub properties: Vec<(String, Property)>,
    pub tags: Vec<String>,
}

/// A note or a file of the index.
#[derive(Debug)]
pub enum VaultItem<'a> {
    Note(&'a NoteItem),
    File(&'a FileItem),
}

impl<'a> VaultItem<'a> {
    pub fn unwrap_note(&self) -> (r: &'a NoteItem)
        requires
            self is Note,
        ensures
            *self == VaultItem::Note(r),
    {
        match self {
            VaultItem::Note(n) => *n,
            VaultItem::File(_) => {
                proof {
                    assert(false);
                }
                unreached()
            },
        }
    }

    pub fn unwrap_file(&self) -> (r: &'a FileItem)
        requires
            self is File,
        ensures
            *self == VaultItem::File(r),
    {
        match self {
            VaultItem::File(f) => *f,
            VaultItem::Note(_) => {
                proof {
                    assert(false);
                }
                unreached()
            },
        }
    }
}

/// What an entry of a directory becomes in the index.
#[derive(Debug, Clone, Copy, PartialEq, Eq, Structural)]
pub enum EntryKind {
    Skip,
    Folder,
    Note,
    File,
}

/// The position of the last `.` of `s`, or -1.
pub open spec fn last_dot(s: Seq<char>) -> int
    decreases s.len(),
{
    if s.len() == 0 {
        -1
    } else if s.last() == '.' {
        s.len() - 1
    } else {
        last_dot(s.drop_last())
    }
}

/// A file name's extension: what follows its last `.`, unless that dot is
/// its first character.
pub open spec fn extension_of(name: Seq<char>) -> Option<Seq<char>> {
    if last_dot(name) > 0 {
        Some(name.skip(last_dot(name) + 1))
    } else {
        None
    }
}

/// A file name without its extension and the dot before it.
pub open spec fn stem_of(name: Seq<char>) -> Seq<char> {
    if last_dot(name) > 0 {
        name.take(last_dot(name))
    } else {
        name
    }
}

/// The file type that the index records: the extension, or nothing.
pub open spec fn file_type_of(name: Seq<char>) -> Seq<char> {
    match extension_of(name) {
        Some(e) => e,
        None => Seq::empty(),
    }
}

pub open spec fn is_config_folder(name: Seq<char>) -> bool {
    name == seq!['.', 'o', 'b', 's', 'i', 'd', 'i', 'a', 'n']
}

/// A directory is a folder, but for the configuration folder where it is left
/// out; a file with the extension `md` is a note; any other file is a file.
pub open spec fn kind_of_entry(name: Seq<char>, is_dir: bool, include_config_folder: bool) -> EntryKind {
    if is_dir {
        if !include_config_folder && is_config_folder(name) {
            EntryKind::Skip
        } else {
            EntryKind::Folder
        }
    } else if extension_of(name) == Some(seq!['m', 'd']) {
        EntryKind::Note
    } else {
        EntryKind::File
    }
}

/// A relative path one level below `parent`.
pub open spec fn join_path(parent: Seq<char>, name: Seq<char>) -> Seq<char> {
    if parent.len() == 0 {
        name
    } else {
        parent + seq![SEPARATOR] + name
    }
}

/// The position of `k` in `keys`, or -1.
pub open spec fn position_of(keys: Seq<Seq<char>>, k: Seq<char>) -> int {
    if keys.contains(k) {
        choose|i: int| 0 <= i < keys.len() && keys[i] == k
    } else {
        -1
    }
}

/// The value stored beside key `k`, if `k` is one of `keys`.
pub open spec fn keyed_lookup<V>(keys: Seq<Seq<char>>, values: Seq<V>, k: Seq<char>) -> Option<V> {
    let j = position_of(keys, k);
    if j >= 0 {
        Some(values[j])
    } else {
        None
    }
}

pub open spec fn note_names(notes: Seq<NoteItem>) -> Seq<Seq<char>> {
    notes.map_values(|n: NoteItem| n.name@)
}

pub open spec fn file_names(files: Seq<FileItem>) -> Seq<Seq<char>> {
    files.map_values(|f: FileItem| f.name@)
}

/// The notes after storing `note`: it takes the place of a note of the same
/// name, or goes last.
pub open spec fn put_note(notes: Seq<NoteItem>, note: NoteItem) -> Seq<NoteItem> {
    let j = position_of(note_names(notes), note.name@);
    if j >= 0 {
        notes.update(j, note)
    } else {
        notes.push(note)
    }
}

/// The files after storing `file`: it takes the place of a file of the same
/// name, or goes last.
pub open spec fn put_file(files: Seq<FileItem>, file: FileItem) -> Seq<FileItem> {
    let j = position_of(file_names(files), file.name@);
    if j >= 0 {
        files.update(j, file)
    } else {
        files.push(file)
    }
}

/// A list of keys after appending `k`, unless it equals the last one.
pub open spec fn push_unless_last(s: Seq<Seq<char>>, k: Seq<char>) -> Seq<Seq<char>> {
    if s.len() > 0 && s.last() == k {
        s
    } else {
        s.push(k)
    }
}

/// A list of keys after appending each of `ks` in turn, skipping each that
/// equals the one before it.
pub open spec fn push_all_unless_last(s: Seq<Seq<char>>, ks: Seq<Seq<char>>) -> Seq<Seq<char>>
    decreases ks.len(),
{
    if ks.len() == 0 {
        s
    } else {
        push_unless_last(push_all_unless_last(s, ks.drop_last()), ks.last())
    }
}

/// `/` read as the index's separator.
pub open spec fn normalized(q: Seq<char>) -> Seq<char> {
    q.map_values(|c: char| if c == '/' { SEPARATOR } else { c })
}

/// The index's separator written as `/`.
pub open spec fn with_forward_slashes(q: Seq<char>) -> Seq<char> {
    q.map_values(|c: char| if c == SEPARATOR { '/' } else { c })
}

/// Everything in a vault: its notes and files by name, its folders, the
/// relative path of each note and file, the notes that carry each tag, the
/// property keys seen, and the folder tree.
#[derive(Debug)]
pub struct VaultIndex {
    name: String,
    path: String,
    note_slots: IndexMap<String, usize>,
    notes: Vec<NoteItem>,
    file_slots: IndexMap<String, usize>,
    files: Vec<FileItem>,
    folders: Vec<FolderItem>,
    path_slots: IndexMap<String, usize>,
    path_keys: Vec<String>,
    path_names: Vec<String>,
    tag_slots: IndexMap<String, usize>,
    tag_keys: Vec<String>,
    tag_notes: Vec<Vec<String>>,
    properties: Vec<String>,
    tree: Tree,
    node_paths: Vec<String>,
}

impl VaultIndex {
    pub closed spec fn spec_name(&self) -> Seq<char> {
        self.name@
    }

    pub closed spec fn spec_path(&self) -> Seq<char> {
        self.path@
    }

    /// The notes, in the order their names were first seen.
    pub closed spec fn spec_notes(&self) -> Seq<NoteItem> {
        self.notes@
    }

    /// The files, in the order their names were first seen.
    pub closed spec fn spec_files(&self) -> Seq<FileItem> {
        self.files@
    }

    pub closed spec fn spec_folders(&self) -> Seq<FolderItem> {
        self.folders@
    }

    /// The relative paths that resolve to a name, in the order first seen.
    pub closed spec fn spec_path_keys(&self) -> Seq<Seq<char>> {
        texts(self.path_keys@)
    }

    /// The name that each relative path resolves to.
    pub closed spec fn spec_path_names(&self) -> Seq<Seq<char>> {
        texts(self.path_names@)
    }

    /// The tags seen, in the order first seen.
    pub closed spec fn spec_tag_keys(&self) -> Seq<Seq<char>> {
        texts(self.tag_keys@)
    }

    /// The names of the notes that carry each tag, in the order added.
    pub closed spec fn spec_tag_notes(&self) -> Seq<Seq<Seq<char>>> {
        self.tag_notes@.map_values(|v: Vec<String>| texts(v@))
    }

    pub closed spec fn spec_properties(&self) -> Seq<Seq<char>> {
        texts(self.properties@)
    }

    pub closed spec fn spec_tree(&self) -> Seq<TreeNode> {
        self.tree@
    }

    /// The relative path of each tree node; the root's is empty.
    pub closed spec fn spec_node_paths(&self) -> Seq<Seq<char>> {
        texts(self.node_paths@)
    }

    pub closed spec fn wf(&self) -> bool {
        &&& positional(slot_entries(self.note_slots), note_names(self.notes@))
        &&& positional(slot_entries(self.file_slots), file_names(self.files@))
        &&& positional(slot_entries(self.path_slots), texts(self.path_keys@))
        &&& self.path_names@.len() == self.path_keys@.len()
        &&& positional(slot_entries(self.tag_slots), texts(self.tag_keys@))
        &&& self.tag_notes@.len() == self.tag_keys@.len()
        &&& self.tree.wf()
        &&& self.node_paths@.len() == self.tree@.len()
    }

    /// The name that `q` stands for: a path (it holds a separator once `/` is
    /// read as one) resolves through the relative paths; anything else is a
    /// name already.
    pub open spec fn resolved_name(&self, q: Seq<char>) -> Option<Seq<char>> {
        if normalized(q).contains(SEPARATOR) {
            self.path_target(normalized(q))
        } else {
            Some(q)
        }
    }

    /// The position of the note that `q` names, or -1.
    pub open spec fn note_position(&self, q: Seq<char>) -> int {
        match self.resolved_name(q) {
            Some(n) => position_of(note_names(self.spec_notes()), n),
            None => -1,
        }
    }

    /// The position of the file that `q` names, or -1.
    pub open spec fn file_position(&self, q: Seq<char>) -> int {
        match self.resolved_name(q) {
            Some(n) => position_of(file_names(self.spec_files()), n),
            None => -1,
        }
    }

    /// The names of the notes that carry tag `t`, if any note does.
    pub open spec fn tag_matches(&self, t: Seq<char>) -> Option<Seq<Seq<char>>> {
        keyed_lookup(self.spec_tag_keys(), self.spec_tag_notes(), t)
    }

    /// The name that relative path `p` resolves to, if any.
    pub open spec fn path_target(&self, p: Seq<char>) -> Option<Seq<char>> {
        keyed_lookup(self.spec_path_keys(), self.spec_path_names(), p)
    }

    /// The relative path of tree node `i`.
    pub open spec fn node_path(&self, i: int) -> Seq<char> {
        self.spec_node_paths()[i]
    }

    /// Node `parent` can take a child: it is the root or a folder, and not at
    /// the largest depth.
    pub open spec fn can_hold(&self, parent: usize) -> bool {
        &&& parent < self.spec_tree().len()
        &&& (self.spec_tree()[parent as int].item == ItemType::Root || self.spec_tree()[parent as int].item
            == ItemType::Folder)
        &&& self.spec_tree()[parent as int].depth < u32::MAX
    }
}

proof fn lemma_position(keys: Seq<Seq<char>>, k: Seq<char>, j: int)
    requires
        keys.no_duplicates(),
        0 <= j < keys.len(),
        keys[j] == k,
    ensures
        position_of(keys, k) == j,
{
    assert(keys.contains(k));
}

proof fn lemma_texts_push(v: Seq<String>, s: String)
    ensures
        texts(v.push(s)) == texts(v).push(s@),
{
    assert(texts(v.push(s)) =~= texts(v).push(s@));
}

/// Looks `key` up in a map whose entries are positions into `keys`.
fn lookup(m: &IndexMap<String, usize>, Ghost(keys): Ghost<Seq<Seq<char>>>, key: &str) -> (r: Option<
    usize,
>)
    requires
        positional(slot_entries(*m), keys),
        keys.len() <= usize::MAX,
    ensures
        match r {
            Some(j) => j == position_of(keys, key@) && j < keys.len() && keys[j as int] == key@,
            None => position_of(keys, key@) == -1 && !keys.contains(key@),
        },
{
    let r = slots_get(m, key);
    proof {
        lemma_key_index_positional(slot_entries(*m), keys, key@);
        if keys.contains(key@) {
            let j = crate::slots::key_index(slot_entries(*m), key@);
            assert(slot_entries(*m)[j] == (keys[j], j as usize));
            lemma_position(keys, key@, j);
            assert(r == Some(j as usize));
        }
    }
    r
}

/// Adds a new key to a map of positions, at the next position.
fn store(
    m: &mut IndexMap<String, usize>,
    Ghost(keys): Ghost<Seq<Seq<char>>>,
    key: String,
    next: usize,
)
    requires
        positional(slot_entries(*old(m)), keys),
        next == keys.len(),
        !keys.contains(key@),
    ensures
        positional(slot_entries(*final(m)), keys.push(key@)),
{
    proof {
        lemma_insert_positional(slot_entries(*m), keys, key@);
    }
    slots_insert(m, key, next);
}

fn put_note_into(m: &mut IndexMap<String, usize>, notes: &mut Vec<NoteItem>, note: NoteItem)
    requires
        positional(slot_entries(*old(m)), note_names(old(notes)@)),
    ensures
        positional(slot_entries(*final(m)), note_names(final(notes)@)),
        final(notes)@ == put_note(old(notes)@, note),
{
    let ghost names = note_names(notes@);
    let count = notes.len();
    assert(names.len() == count);
    match lookup(m, Ghost(names), note.name.as_str()) {
        Some(j) => {
            let ghost nn = note.name@;
            notes.set(j, note);
            assert(note_names(notes@) =~= names.update(j as int, nn));
            assert(names.update(j as int, nn) =~= names);
        },
        None => {
            let ghost note_v = note;
            let key = note.name.clone();
            store(m, Ghost(names), key, notes.len());
            notes.push(note);
            assert(note_names(notes@) =~= names.push(note_v.name@));
        },
    }
}

fn put_file_into(m: &mut IndexMap<String, usize>, files: &mut Vec<FileItem>, file: FileItem)
    requires
        positional(slot_entries(*old(m)), file_names(old(files)@)),
    ensures
        positional(slot_entries(*final(m)), file_names(final(files)@)),
        final(files)@ == put_file(old(files)@, file),
{
    let ghost names = file_names(files@);
    let count = files.len();
    assert(names.len() == count);
    match lookup(m, Ghost(names), file.name.as_str()) {
        Some(j) => {
            let ghost nn = file.name@;
            files.set(j, file);
            assert(file_names(files@) =~= names.update(j as int, nn));
            assert(names.update(j as int, nn) =~= names);
        },
        None => {
            let ghost file_v = file;
            let key = file.name.clone();
            store(m, Ghost(names), key, files.len());
            files.push(file);
            assert(file_names(files@) =~= names.push(file_v.name@));
        },
    }
}

/// Records that relative path `key` resolves to `name`.
fn put_path_into(
    m: &mut IndexMap<String, usize>,
    keys: &mut Vec<String>,
    names: &mut Vec<String>,
    key: String,
    name: String,
)
    requires
        positional(slot_entries(*old(m)), texts(old(keys)@)),
        old(names)@.len() == old(keys)@.len(),
    ensures
        positional(slot_entries(*final(m)), texts(final(keys)@)),
        final(names)@.len() == final(keys)@.len(),
        keyed_lookup(texts(final(keys)@), texts(final(names)@), key@) == Some(name@),
        forall|p: Seq<char>|
            p != key@ ==> keyed_lookup(texts(final(keys)@), texts(final(names)@), p) == keyed_lookup(
                texts(old(keys)@),
                texts(old(names)@),
                p,
            ),
{
    let ghost ks = texts(keys@);
    let ghost ns = texts(names@);
    let count = keys.len();
    assert(ks.len() == count);
    match lookup(m, Ghost(ks), key.as_str()) {
        Some(j) => {
            let ghost nv = name@;
            names.set(j, name);
            assert(texts(names@) =~= ns.update(j as int, nv));
        },
        None => {
            let ghost kv = key@;
            let ghost nv = name@;
            let k2 = key.clone();
            store(m, Ghost(ks), k2, keys.len());
            keys.push(key);
            names.push(name);
            proof {
                lemma_texts_push(old(keys)@, keys@.last());
                lemma_texts_push(old(names)@, names@.last());
                assert(texts(keys@) == ks.push(kv));
                assert(texts(keys@).no_duplicates());
                lemma_position(texts(keys@), kv, ks.len() as int);
                assert forall|p: Seq<char>| p != kv implies keyed_lookup(
                    texts(keys@),
                    texts(names@),
                    p,
                ) == keyed_lookup(ks, ns, p) by {
                    if ks.contains(p) {
                        let i = choose|i: int| 0 <= i < ks.len() && ks[i] == p;
                        lemma_position(ks, p, i);
                        assert(texts(keys@)[i] == p);
                        lemma_position(texts(keys@), p, i);
                    } else if texts(keys@).contains(p) {
                        let i = choose|i: int| 0 <= i < texts(keys@).len() && texts(keys@)[i] == p;
                        assert(i < ks.len() ==> ks[i] == p);
                    }
                }
            }
        },
    }
}

pub open spec fn lists_view(l: Seq<Vec<String>>) -> Seq<Seq<Seq<char>>> {
    l.map_values(|v: Vec<String>| texts(v@))
}

/// The keys of a list of properties.
pub open spec fn property_keys(props: Seq<(String, Property)>) -> Seq<Seq<char>> {
    props.map_values(|p: (String, Property)| p.0@)
}

proof fn lemma_lookup_update<V>(keys: Seq<Seq<char>>, vals: Seq<V>, j: int, v: V, t: Seq<char>)
    requires
        keys.no_duplicates(),
        vals.len() == keys.len(),
        0 <= j < keys.len(),
    ensures
        keyed_lookup(keys, vals.update(j, v), t) == (if t == keys[j] {
            Some(v)
        } else {
            keyed_lookup(keys, vals, t)
        }),
{
    if t == keys[j] {
        lemma_position(keys, t, j);
    } else if keys.contains(t) {
        let i = choose|i: int| 0 <= i < keys.len() && keys[i] == t;
        lemma_position(keys, t, i);
    }
}

proof fn lemma_lookup_push<V>(keys: Seq<Seq<char>>, vals: Seq<V>, k: Seq<char>, v: V, t: Seq<char>)
    requires
        keys.no_duplicates(),
        !keys.contains(k),
        vals.len() == keys.len(),
    ensures
        keys.push(k).no_duplicates(),
        keyed_lookup(keys.push(k), vals.push(v), t) == (if t == k {
            Some(v)
        } else {
            keyed_lookup(keys, vals, t)
        }),
{
    let ks = keys.push(k);
    assert forall|a: int, b: int| 0 <= a < b < ks.len() implies ks[a] != ks[b] by {
        if b == ks.len() - 1 {
            assert(keys[a] == ks[a]);
        }
    }
    if t == k {
        lemma_position(ks, t, keys.len() as int);
    } else if keys.contains(t) {
        let i = choose|i: int| 0 <= i < keys.len() && keys[i] == t;
        lemma_position(keys, t, i);
        lemma_position(ks, t, i);
    } else if ks.contains(t) {
        let i = choose|i: int| 0 <= i < ks.len() && ks[i] == t;
        assert(i < keys.len() ==> keys[i] == t);
    }
}

/// Adds `name` to the list of each tag of `tags`, starting a list for a tag
/// not seen before.
fn add_tags_into(
    m: &mut IndexMap<String, usize>,
    keys: &mut Vec<String>,
    lists: &mut Vec<Vec<String>>,
    tags: &Vec<String>,
    name: &String,
)
    requires
        positional(slot_entries(*old(m)), texts(old(keys)@)),
        old(lists)@.len() == old(keys)@.len(),
        texts(tags@).no_duplicates(),
    ensures
        positional(slot_entries(*final(m)), texts(final(keys)@)),
        final(lists)@.len() == final(keys)@.len(),
        forall|t: Seq<char>|
            #[trigger] keyed_lookup(texts(final(keys)@), lists_view(final(lists)@), t) == if texts(
                tags@,
            ).contains(t) {
                Some(
                    or_empty(keyed_lookup(texts(old(keys)@), lists_view(old(lists)@), t)).push(name@),
                )
            } else {
                keyed_lookup(texts(old(keys)@), lists_view(old(lists)@), t)
            },
{
    let ghost ts = texts(tags@);
    let ghost k0 = texts(keys@);
    let ghost l0 = lists_view(lists@);
    let mut i: usize = 0;
    while i < tags.len()
        invariant
            ts == texts(tags@),
            ts.no_duplicates(),
            i <= tags@.len(),
            positional(slot_entries(*m), texts(keys@)),
            lists@.len() == keys@.len(),
            forall|t: Seq<char>|
                #[trigger] keyed_lookup(texts(keys@), lists_view(lists@), t) == if ts.take(
                    i as int,
                ).contains(t) {
                    Some(or_empty(keyed_lookup(k0, l0, t)).push(name@))
                } else {
                    keyed_lookup(k0, l0, t)
                },
        decreases tags@.len() - i,
    {
        let tag = &tags[i];
        let ghost tv = tag@;
        let ghost ks = texts(keys@);
        let ghost lv = lists_view(lists@);
        assert(ts[i as int] == tv);
        assert(!ts.take(i as int).contains(tv)) by {
            if ts.take(i as int).contains(tv) {
                let a = choose|a: int| 0 <= a < i && ts.take(i as int)[a] == tv;
                assert(ts[a] == ts[i as int]);
            }
        }
        assert forall|t: Seq<char>| ts.take(i + 1).contains(t) <==> (ts.take(i as int).contains(t)
            || t == tv) by {
            let next = ts.take(i + 1);
            if next.contains(t) {
                let a = choose|a: int| 0 <= a < next.len() && next[a] == t;
                if a < i {
                    assert(ts.take(i as int)[a] == t);
                }
            }
            if ts.take(i as int).contains(t) {
                let a = choose|a: int| 0 <= a < i && ts.take(i as int)[a] == t;
                assert(ts.take(i + 1)[a] == t);
            }
            if t == tv {
                assert(ts.take(i + 1)[i as int] == t);
            }
        }
        let count = keys.len();
        assert(ks.len() == count);
        match lookup(m, Ghost(ks), tag.as_str()) {
            Some(j) => {
                let ghost old_list = lists@[j as int];
                lists[j].push(name.clone());
                proof {
                    lemma_texts_push(old_list@, lists@[j as int]@.last());
                    assert(lists_view(lists@) =~= lv.update(j as int, lv[j as int].push(name@)));
                    assert forall|t: Seq<char>| #[trigger] keyed_lookup(texts(keys@), lists_view(lists@), t)
                        == keyed_lookup(ks, lv.update(j as int, lv[j as int].push(name@)), t) by {}
                    assert forall|t: Seq<char>| keyed_lookup(ks, lv.update(j as int, lv[j as int].push(name@)), t)
                        == (if t == ks[j as int] { Some(lv[j as int].push(name@)) } else { keyed_lookup(ks, lv, t) }) by {
                        lemma_lookup_update(ks, lv, j as int, lv[j as int].push(name@), t);
                    }
                    assert(keyed_lookup(ks, lv, tv) == Some(lv[j as int]));
                }
            },
            None => {
                let k2 = tag.clone();
                store(m, Ghost(ks), k2, keys.len());
                keys.push(tag.clone());
                let mut fresh: Vec<String> = Vec::new();
                fresh.push(name.clone());
                lists.push(fresh);
                proof {
                    lemma_texts_push(old(keys)@, keys@.last());
                    assert(texts(keys@) =~= ks.push(tv));
                    assert(texts(lists@.last()@) =~= seq![name@]);
                    assert(lists_view(lists@) =~= lv.push(seq![name@]));
                    assert(seq![name@] =~= Seq::<Seq<char>>::empty().push(name@));
                    assert forall|t: Seq<char>| #[trigger] keyed_lookup(texts(keys@), lists_view(lists@), t)
                        == (if t == tv { Some(seq![name@]) } else { keyed_lookup(ks, lv, t) }) by {
                        lemma_lookup_push(ks, lv, tv, seq![name@], t);
                    }
                }
            },
        }
        i = i + 1;
    }
    assert(ts.take(tags@.len() as int) =~= ts);
}

/// Appends the keys of `props` to `keys`, skipping each that equals the last.
fn push_property_keys(keys: &mut Vec<String>, props: &Vec<(String, Property)>)
    ensures
        texts(final(keys)@) == push_all_unless_last(texts(old(keys)@), property_keys(props@)),
{
    let ghost start = texts(keys@);
    let mut i: usize = 0;
    while i < props.len()
        invariant
            i <= props@.len(),
            texts(keys@) == push_all_unless_last(start, property_keys(props@).take(i as int)),
        decreases props@.len() - i,
    {
        assert(property_keys(props@).take(i + 1).drop_last() =~= property_keys(props@).take(i as int));
        let k = &props[i].0;
        let n = keys.len();
        if n == 0 || keys[n - 1] != *k {
            keys.push(k.clone());
            proof {
                lemma_texts_push(old(keys)@, keys@.last());
            }
            assert(texts(keys@) =~= texts(keys@).drop_last().push(k@));
        }
        i = i + 1;
    }
    assert(property_keys(props@).take(props@.len() as int) =~= property_keys(props@));
}

fn chars_equal(a: &Vec<char>, b: &Vec<char>) -> (r: bool)
    ensures
        r == (a@ == b@),
{
    if a.len() != b.len() {
        return false;
    }
    let mut i: usize = 0;
    while i < a.len()
        invariant
            a@.len() == b@.len(),
            i <= a@.len(),
            forall|k: int| 0 <= k < i ==> a@[k] == b@[k],
        decreases a@.len() - i,
    {
        if a[i] != b[i] {
            return false;
        }
        i = i + 1;
    }
    assert(a@ =~= b@);
    true
}

/// Where the last `.` of the name stands.
fn find_last_dot(cs: &Vec<char>) -> (r: Option<usize>)
    ensures
        match r {
            Some(k) => k as int == last_dot(cs@) && k < cs@.len(),
            None => last_dot(cs@) == -1,
        },
{
    let mut i: usize = cs.len();
    assert(cs@.take(i as int) =~= cs@);
    while i > 0 && cs[i - 1] != '.'
        invariant
            i <= cs@.len(),
            last_dot(cs@) == last_dot(cs@.take(i as int)),
        decreases i,
    {
        assert(cs@.take(i as int).drop_last() =~= cs@.take(i - 1));
        i = i - 1;
    }
    if i == 0 {
        None
    } else {
        Some(i - 1)
    }
}

/// A file name's stem (without the extension) and its file type (the
/// extension, or nothing).
pub fn split_file_name(name: &str) -> (r: (String, String))
    ensures
        r.0@ == stem_of(name@),
        r.1@ == file_type_of(name@),
{
    let cs = chars_of(name);
    let n = cs.len();
    match find_last_dot(&cs) {
        Some(k) if k > 0 => {
            let stem = copy_range(&cs, 0, k);
            let ext = copy_range(&cs, k + 1, n);
            assert(cs@.subrange(0, k as int) =~= name@.take(k as int));
            assert(cs@.subrange(k + 1, cs@.len() as int) =~= name@.skip(k + 1));
            (string_of(&stem), string_of(&ext))
        },
        _ => {
            let empty: Vec<char> = Vec::new();
            assert(empty@ =~= Seq::<char>::empty());
            (string_of(&cs), string_of(&empty))
        },
    }
}

/// What a directory entry of this name becomes in the index.
pub fn classify(file_name: &str, is_dir: bool, include_config_folder: bool) -> (r: EntryKind)
    ensures
        r == kind_of_entry(file_name@, is_dir, include_config_folder),
{
    let cs = chars_of(file_name);
    if is_dir {
        let config = vec!['.', 'o', 'b', 's', 'i', 'd', 'i', 'a', 'n'];
        if !include_config_folder && chars_equal(&cs, &config) {
            EntryKind::Skip
        } else {
            EntryKind::Folder
        }
    } else {
        let md = vec!['m', 'd'];
        let n = cs.len();
        match find_last_dot(&cs) {
            Some(k) if k > 0 => {
                let ext = copy_range(&cs, k + 1, n);
                assert(cs@.subrange(k + 1, cs@.len() as int) =~= file_name@.skip(k + 1));
                if chars_equal(&ext, &md) {
                    EntryKind::Note
                } else {
                    EntryKind::File
                }
            },
            _ => EntryKind::File,
        }
    }
}

/// `parent` and `name` joined by the separator; `name` alone below the root.
fn join(parent: &str, name: &str) -> (r: String)
    ensures
        r@ == join_path(parent@, name@),
{
    let p = chars_of(parent);
    let n = chars_of(name);
    if p.len() == 0 {
        return string_of(&n);
    }
    let mut out = p;
    out.push(SEPARATOR);
    let mut i: usize = 0;
    let ghost base = out@;
    while i < n.len()
        invariant
            i <= n@.len(),
            out@ == base + n@.take(i as int),
        decreases n@.len() - i,
    {
        out.push(n[i]);
        assert(out@ =~= base + n@.take(i + 1));
        i = i + 1;
    }
    assert(n@.take(n@.len() as int) =~= n@);
    assert(base =~= parent@ + seq![SEPARATOR]);
    string_of(&out)
}

impl VaultIndex {
    /// An index of no vault: nothing in it, and a tree that holds the root
    /// alone, named `root`.
    pub fn empty() -> (r: Self)
        ensures
            r.wf(),
            r.spec_name().len() == 0,
            r.spec_path().len() == 0,
            r.spec_notes().len() == 0,
            r.spec_files().len() == 0,
            r.spec_folders().len() == 0,
            r.spec_path_keys().len() == 0,
            r.spec_tag_keys().len() == 0,
            r.spec_properties().len() == 0,
            r.spec_tree().len() == 1,
            r.spec_tree()[0].name@ == "root"@,
            r.spec_node_paths() == seq![Seq::<char>::empty()],
    {
        let tree = Tree::new();
        Self::start(String::new(), String::new(), tree)
    }

    /// An index of the vault at `path`, named `name`, before any entry of it
    /// is added: the tree holds the root alone, under the vault's name.
    pub fn with_root(name: String, path: String) -> (r: Self)
        ensures
            r.wf(),
            r.spec_name() == name@,
            r.spec_path() == path@,
            r.spec_notes().len() == 0,
            r.spec_files().len() == 0,
            r.spec_folders().len() == 0,
            r.spec_path_keys().len() == 0,
            r.spec_tag_keys().len() == 0,
            r.spec_properties().len() == 0,
            r.spec_tree().len() == 1,
            r.spec_tree()[0].name@ == name@,
            r.spec_node_paths() == seq![Seq::<char>::empty()],
    {
        let tree = Tree::with_root_name(name.clone());
        Self::start(name, path, tree)
    }

    fn start(name: String, path: String, tree: Tree) -> (r: Self)
        requires
            tree.wf(),
            tree@.len() == 1,
        ensures
            r.wf(),
            r.name == name,
            r.path == path,
            r.tree == tree,
            r.notes@.len() == 0,
            r.files@.len() == 0,
            r.folders@.len() == 0,
            r.path_keys@.len() == 0,
            r.tag_keys@.len() == 0,
            r.properties@.len() == 0,
            r.spec_node_paths() == seq![Seq::<char>::empty()],
    {
        let mut node_paths: Vec<String> = Vec::new();
        node_paths.push(String::new());
        let r = VaultIndex {
            name,
            path,
            note_slots: slots_new(),
            notes: Vec::new(),
            file_slots: slots_new(),
            files: Vec::new(),
            folders: Vec::new(),
            path_slots: slots_new(),
            path_keys: Vec::new(),
            path_names: Vec::new(),
            tag_slots: slots_new(),
            tag_keys: Vec::new(),
            tag_notes: Vec::new(),
            properties: Vec::new(),
            tree,
            node_paths,
        };
        assert(note_names(r.notes@) =~= Seq::<Seq<char>>::empty());
        assert(file_names(r.files@) =~= Seq::<Seq<char>>::empty());
        assert(texts(r.path_keys@) =~= Seq::<Seq<char>>::empty());
        assert(texts(r.tag_keys@) =~= Seq::<Seq<char>>::empty());
        assert(r.spec_node_paths() =~= seq![Seq::<char>::empty()]);
        r
    }

    /// Adds a node under `parent` to the tree and records its relative path.
    fn grow(&mut self, parent: usize, node_name: String, item: ItemType) -> (r: (usize, String))
        requires
            old(self).wf(),
            old(self).can_hold(parent),
        ensures
            final(self).wf(),
            r.0 == old(self).spec_tree().len(),
            r.1@ == join_path(old(self).node_path(parent as int), node_name@),
            child_added(old(self).spec_tree(), final(self).spec_tree(), parent as int, node_name@, item),
            final(self).spec_node_paths() == old(self).spec_node_paths().push(r.1@),
            final(self).spec_tree().last().name == node_name,
            *final(self) == (VaultIndex { tree: final(self).tree, node_paths: final(self).node_paths, ..*old(self) }),
    {
        let local = join(self.node_paths[parent].as_str(), node_name.as_str());
        let idx = self.tree.add_child(parent, node_name, item);
        let idx = match idx {
            Some(i) => i,
            None => {
                proof {
                    assert(false);
                }
                0
            },
        };
        self.node_paths.push(local.clone());
        proof {
            lemma_texts_push(old(self).node_paths@, local);
        }
        (idx, local)
    }

    fn holds(&self, parent: usize) -> (r: bool)
        requires
            self.wf(),
        ensures
            r == self.can_hold(parent),
    {
        match self.tree.get_node(parent) {
            Some(node) => (node.item == ItemType::Root || node.item == ItemType::Folder) && node.depth
                < u32::MAX,
            None => false,
        }
    }

    /// Adds a folder below tree node `parent`, which must be the root or a
    /// folder, and returns its tree index; otherwise returns `None` and
    /// changes nothing.
    pub fn add_folder(&mut self, parent: usize, name: String, path: String) -> (r: Option<usize>)
        requires
            old(self).wf(),
        ensures
            final(self).wf(),
            !old(self).can_hold(parent) ==> r is None && *final(self) == *old(self),
            old(self).can_hold(parent) ==> {
                let local = join_path(old(self).node_path(parent as int), name@);
                &&& r == Some(old(self).spec_tree().len() as usize)
                &&& child_added(old(self).spec_tree(), final(self).spec_tree(), parent as int, name@, ItemType::Folder)
                &&& final(self).spec_node_paths() == old(self).spec_node_paths().push(local)
                &&& final(self).spec_folders().len() == old(self).spec_folders().len() + 1
                &&& final(self).spec_folders().drop_last() == old(self).spec_folders()
                &&& final(self).spec_folders().last().name == name
                &&& final(self).spec_folders().last().path == path
                &&& final(self).spec_folders().last().local_path@ == local
                &&& final(self).spec_notes() == old(self).spec_notes()
                &&& final(self).spec_files() == old(self).spec_files()
                &&& final(self).spec_path_keys() == old(self).spec_path_keys()
                &&& final(self).spec_path_names() == old(self).spec_path_names()
                &&& final(self).spec_tag_keys() == old(self).spec_tag_keys()
                &&& final(self).spec_tag_notes() == old(self).spec_tag_notes()
                &&& final(self).spec_properties() == old(self).spec_properties()
                &&& final(self).spec_name() == old(self).spec_name()
                &&& final(self).spec_path() == old(self).spec_path()
            },
    {
        if !self.holds(parent) {
            return None;
        }
        let (idx, local) = self.grow(parent, name.clone(), ItemType::Folder);
        self.folders.push(FolderItem { name, path, local_path: local });
        assert(self.folders@.drop_last() =~= old(self).folders@);
        Some(idx)
    }

    /// Adds a file that is not a note below tree node `parent`, which must be
    /// the root or a folder, and returns its tree index; otherwise returns
    /// `None` and changes nothing. The file is stored under its full name,
    /// in place of a file of the same name, and its relative path resolves
    /// to that name.
    pub fn add_file(&mut self, parent: usize, file_name: String, path: String) -> (r: Option<usize>)
        requires
            old(self).wf(),
        ensures
            final(self).wf(),
            !old(self).can_hold(parent) ==> r is None && *final(self) == *old(self),
            old(self).can_hold(parent) ==> {
                let local = join_path(old(self).node_path(parent as int), file_name@);
                let j = position_of(file_names(final(self).spec_files()), file_name@);
                &&& r == Some(old(self).spec_tree().len() as usize)
                &&& child_added(old(self).spec_tree(), final(self).spec_tree(), parent as int, file_name@, ItemType::File)
                &&& final(self).spec_node_paths() == old(self).spec_node_paths().push(local)
                &&& 0 <= j < final(self).spec_files().len()
                &&& final(self).spec_files() == put_file(old(self).spec_files(), final(self).spec_files()[j])
                &&& final(self).spec_files()[j].name == file_name
                &&& final(self).spec_files()[j].file_type@ == file_type_of(file_name@)
                &&& final(self).spec_files()[j].path == path
                &&& final(self).spec_files()[j].local_path@ == local
                &&& final(self).path_target(local) == Some(file_name@)
                &&& forall|p: Seq<char>| p != local ==> #[trigger] final(self).path_target(p) == old(self).path_target(p)
                &&& final(self).spec_notes() == old(self).spec_notes()
                &&& final(self).spec_folders() == old(self).spec_folders()
                &&& final(self).spec_tag_keys() == old(self).spec_tag_keys()
                &&& final(self).spec_tag_notes() == old(self).spec_tag_notes()
                &&& final(self).spec_properties() == old(self).spec_properties()
                &&& final(self).spec_name() == old(self).spec_name()
                &&& final(self).spec_path() == old(self).spec_path()
            },
    {
        if !self.holds(parent) {
            return None;
        }
        let (idx, local) = self.grow(parent, file_name.clone(), ItemType::File);
        let (_stem, file_type) = split_file_name(file_name.as_str());
        put_path_into(&mut self.path_slots, &mut self.path_keys, &mut self.path_names, local.clone(), file_name.clone());
        let file = FileItem { name: file_name, file_type, path, local_path: local };
        let ghost fv = file;
        put_file_into(&mut self.file_slots, &mut self.files, file);
        proof {
            let names = file_names(self.files@);
            let j0 = position_of(file_names(old(self).files@), fv.name@);
            let j = if j0 >= 0 { j0 } else { old(self).files@.len() as int };
            assert(self.files@[j] == fv);
            assert(names[j] == fv.name@);
            assert(names.no_duplicates());
            lemma_position(names, fv.name@, j);
        }
        Some(idx)
    }

    /// Adds a note below tree node `parent`, which must be the root or a
    /// folder, and returns its tree index; otherwise returns `None` and
    /// changes nothing. The note is named after the file name without its
    /// extension; it is stored in place of a note of that name; its relative
    /// path resolves to that name; its tags and properties are those of
    /// `contents` once fenced and inline code are erased; its name is added
    /// to the list of each of its tags; and its property keys are appended to
    /// the keys seen, each unless it equals the one before.
    pub fn add_note(&mut self, parent: usize, file_name: String, path: String, contents: &str) -> (r: Option<usize>)
        requires
            old(self).wf(),
        ensures
            final(self).wf(),
            !old(self).can_hold(parent) ==> r is None && *final(self) == *old(self),
            old(self).can_hold(parent) ==> {
                let stem = stem_of(file_name@);
                let local = join_path(old(self).node_path(parent as int), stem);
                let plain = code_erased(contents@);
                let tags = plain_text_tags(plain);
                let j = position_of(note_names(final(self).spec_notes()), stem);
                let note = final(self).spec_notes()[j];
                &&& r == Some(old(self).spec_tree().len() as usize)
                &&& child_added(old(self).spec_tree(), final(self).spec_tree(), parent as int, stem, ItemType::Note)
                &&& final(self).spec_node_paths() == old(self).spec_node_paths().push(local)
                &&& 0 <= j < final(self).spec_notes().len()
                &&& final(self).spec_notes() == put_note(old(self).spec_notes(), note)
                &&& note.name@ == stem
                &&& note.file_type@ == file_type_of(file_name@)
                &&& note.path == path
                &&& note.local_path@ == local
                &&& texts(note.tags@) == tags
                &&& properties_match(note.properties@, front_matter_pairs(plain))
                &&& final(self).path_target(local) == Some(stem)
                &&& forall|p: Seq<char>| p != local ==> #[trigger] final(self).path_target(p) == old(self).path_target(p)
                &&& forall|t: Seq<char>| #[trigger] final(self).tag_matches(t) == if tags.contains(t) {
                    Some(or_empty(old(self).tag_matches(t)).push(stem))
                } else {
                    old(self).tag_matches(t)
                }
                &&& final(self).spec_properties() == push_all_unless_last(old(self).spec_properties(), property_keys(note.properties@))
                &&& final(self).spec_files() == old(self).spec_files()
                &&& final(self).spec_folders() == old(self).spec_folders()
                &&& final(self).spec_name() == old(self).spec_name()
                &&& final(self).spec_path() == old(self).spec_path()
            },
    {
        if !self.holds(parent) {
            return None;
        }
        let (stem, file_type) = split_file_name(file_name.as_str());
        let (idx, local) = self.grow(parent, stem.clone(), ItemType::Note);
        let plain = erase_code(contents);
        let tags = extract_tags(plain.as_str());
        let properties = front_matter_properties(plain.as_str());
        proof {
            lemma_sorted_distinct(levels_of_all(hash_words(plain@)));
            let ts = texts(tags@);
            assert forall|a: int, b: int| 0 <= a < b < ts.len() implies ts[a] != ts[b] by {
                lemma_text_lt_irreflexive(ts[a]);
            }
        }
        put_path_into(&mut self.path_slots, &mut self.path_keys, &mut self.path_names, local.clone(), stem.clone());
        add_tags_into(&mut self.tag_slots, &mut self.tag_keys, &mut self.tag_notes, &tags, &stem);
        push_property_keys(&mut self.properties, &properties);
        let note = NoteItem { name: stem, file_type, path, local_path: local, properties, tags };
        let ghost nv = note;
        put_note_into(&mut self.note_slots, &mut self.notes, note);
        proof {
            let names = note_names(self.notes@);
            let j0 = position_of(note_names(old(self).notes@), nv.name@);
            let j = if j0 >= 0 { j0 } else { old(self).notes@.len() as int };
            assert(self.notes@[j] == nv);
            assert(names[j] == nv.name@);
            assert(names.no_duplicates());
            lemma_position(names, nv.name@, j);
            assert(self.spec_tag_notes() == lists_view(self.tag_notes@));
        }
        Some(idx)
    }
}

/// A copy of a list of strings.
pub fn copy_texts(v: &Vec<String>) -> (r: Vec<String>)
    ensures
        texts(r@) == texts(v@),
{
    let mut out: Vec<String> = Vec::new();
    let mut i: usize = 0;
    while i < v.len()
        invariant
            i <= v@.len(),
            texts(out@) == texts(v@).take(i as int),
        decreases v@.len() - i,
    {
        let c = v[i].clone();
        assert(c@ == v@[i as int]@);
        let ghost before = out@;
        out.push(c);
        proof {
            lemma_texts_push(before, c);
        }
        assert(texts(out@) =~= texts(v@).take(i + 1));
        i = i + 1;
    }
    assert(texts(v@).take(v@.len() as int) =~= texts(v@));
    out
}

/// `q` with each `/` read as the index's separator, and whether it holds a
/// separator then.
fn normalize(q: &str) -> (r: (String, bool))
    ensures
        r.0@ == normalized(q@),
        r.1 == normalized(q@).contains(SEPARATOR),
{
    let cs = chars_of(q);
    let mut out: Vec<char> = Vec::new();
    let mut found = false;
    let mut i: usize = 0;
    while i < cs.len()
        invariant
            cs@ == q@,
            i <= cs@.len(),
            out@ == normalized(q@).take(i as int),
            found == out@.contains(SEPARATOR),
        decreases cs@.len() - i,
    {
        let c = if cs[i] == '/' {
            SEPARATOR
        } else {
            cs[i]
        };
        let ghost before = out@;
        out.push(c);
        assert(out@ =~= normalized(q@).take(i + 1));
        if c == SEPARATOR {
            assert(out@[i as int] == c);
            found = true;
        } else {
            assert forall|x: char| out@.contains(x) && x == SEPARATOR implies before.contains(x) by {
                let k = choose|k: int| 0 <= k < out@.len() && out@[k] == x;
                assert(before[k] == x);
            }
            assert(before.contains(SEPARATOR) ==> out@.contains(SEPARATOR)) by {
                if before.contains(SEPARATOR) {
                    let k = choose|k: int| 0 <= k < before.len() && before[k] == SEPARATOR;
                    assert(out@[k] == SEPARATOR);
                }
            }
        }
        i = i + 1;
    }
    assert(normalized(q@).take(cs@.len() as int) =~= normalized(q@));
    (string_of(&out), found)
}

impl VaultIndex {
    /// The name that a name or a relative path stands for.
    fn resolve<'a>(&'a self, local_path: &'a str) -> (r: Option<&'a str>)
        requires
            self.wf(),
        ensures
            match r {
                Some(n) => self.resolved_name(local_path@) == Some(n@),
                None => self.resolved_name(local_path@) is None,
            },
    {
        let (norm, has_separator) = normalize(local_path);
        if has_separator {
            let count = self.path_keys.len();
            match lookup(&self.path_slots, Ghost(texts(self.path_keys@)), norm.as_str()) {
                Some(j) => {
                    assert(texts(self.path_names@)[j as int] == self.path_names@[j as int]@);
                    Some(self.path_names[j].as_str())
                },
                None => None,
            }
        } else {
            Some(local_path)
        }
    }

    /// The note or the file that a name or a relative path stands for. A
    /// relative path may use `/` or the index's separator; it resolves to a
    /// name through the relative paths recorded. A note comes before a file of
    /// the same name.
    pub fn get_item(&self, local_path: &str) -> (r: Option<VaultItem<'_>>)
        requires
            self.wf(),
        ensures
            match r {
                Some(VaultItem::Note(n)) => self.note_position(local_path@) >= 0 && *n
                    == self.spec_notes()[self.note_position(local_path@)],
                Some(VaultItem::File(f)) => self.note_position(local_path@) < 0 && self.file_position(
                    local_path@,
                ) >= 0 && *f == self.spec_files()[self.file_position(local_path@)],
                None => self.note_position(local_path@) < 0 && self.file_position(local_path@) < 0,
            },
    {
        let name = match self.resolve(local_path) {
            Some(n) => n,
            None => {
                return None;
            },
        };
        let note_count = self.notes.len();
        match lookup(&self.note_slots, Ghost(note_names(self.notes@)), name) {
            Some(j) => {
                return Some(VaultItem::Note(&self.notes[j]));
            },
            None => {},
        }
        let file_count = self.files.len();
        match lookup(&self.file_slots, Ghost(file_names(self.files@)), name) {
            Some(j) => Some(VaultItem::File(&self.files[j])),
            None => None,
        }
    }

    /// The note that a name or a relative path stands for.
    pub fn get_note(&self, local_path: &str) -> (r: Option<&NoteItem>)
        requires
            self.wf(),
        ensures
            match r {
                Some(n) => self.note_position(local_path@) >= 0 && *n == self.spec_notes()[self.note_position(
                    local_path@,
                )],
                None => self.note_position(local_path@) < 0,
            },
    {
        let name = match self.resolve(local_path) {
            Some(n) => n,
            None => {
                return None;
            },
        };
        let note_count = self.notes.len();
        match lookup(&self.note_slots, Ghost(note_names(self.notes@)), name) {
            Some(j) => Some(&self.notes[j]),
            None => None,
        }
    }

    /// The names of the notes that carry `tag`, in the order added, if any
    /// note does.
    pub fn tag_notes(&self, tag: &str) -> (r: Option<Vec<String>>)
        requires
            self.wf(),
        ensures
            crate::dataview::match_texts(r) == self.tag_matches(tag@),
    {
        let count = self.tag_keys.len();
        match lookup(&self.tag_slots, Ghost(texts(self.tag_keys@)), tag) {
            Some(j) => {
                let v = copy_texts(&self.tag_notes[j]);
                assert(self.spec_tag_notes()[j as int] == texts(self.tag_notes@[j as int]@));
                Some(v)
            },
            None => None,
        }
    }

    pub fn name(&self) -> (r: &String)
        ensures
            r@ == self.spec_name(),
    {
        &self.name
    }

    /// The vault's path; empty for an index of no vault.
    pub fn path(&self) -> (r: &String)
        ensures
            r@ == self.spec_path(),
    {
        &self.path
    }

    pub fn notes(&self) -> (r: &Vec<NoteItem>)
        ensures
            r@ == self.spec_notes(),
    {
        &self.notes
    }

    pub fn files(&self) -> (r: &Vec<FileItem>)
        ensures
            r@ == self.spec_files(),
    {
        &self.files
    }

    pub fn folders(&self) -> (r: &Vec<FolderItem>)
        ensures
            r@ == self.spec_folders(),
    {
        &self.folders
    }

    /// The property keys seen, note after note, without adjacent repeats.
    pub fn properties(&self) -> (r: &Vec<String>)
        ensures
            texts(r@) == self.spec_properties(),
    {
        &self.properties
    }

    /// The tags seen, in the order first seen.
    pub fn tag_keys(&self) -> (r: &Vec<String>)
        ensures
            texts(r@) == self.spec_tag_keys(),
    {
        &self.tag_keys
    }

    /// The relative paths recorded, in the order first seen.
    pub fn path_keys(&self) -> (r: &Vec<String>)
        ensures
            texts(r@) == self.spec_path_keys(),
    {
        &self.path_keys
    }

    /// The name that each relative path resolves to, beside `path_keys`.
    pub fn path_names(&self) -> (r: &Vec<String>)
        ensures
            texts(r@) == self.spec_path_names(),
    {
        &self.path_names
    }

    pub fn tree(&self) -> (r: &Tree)
        requires
            self.wf(),
        ensures
            r@ == self.spec_tree(),
            r.wf(),
    {
        &self.tree
    }
}

/// A relative path resolves to the same item whether it is written with `/`
/// or with the index's separator, and to the same item as the name that it
/// is recorded for.
pub proof fn lemma_path_forms_agree(vi: &VaultIndex, p: Seq<char>, n: Seq<char>)
    requires
        p.contains(SEPARATOR),
        !p.contains('/'),
        vi.path_target(p) == Some(n),
        !n.contains(SEPARATOR),
        !n.contains('/'),
    ensures
        vi.note_position(with_forward_slashes(p)) == vi.note_position(p),
        vi.note_position(n) == vi.note_position(p),
        vi.file_position(with_forward_slashes(p)) == vi.file_position(p),
        vi.file_position(n) == vi.file_position(p),
{
    assert(normalized(p) =~= p) by {
        assert forall|k: int| 0 <= k < p.len() implies p[k] != '/' by {
            if p[k] == '/' {
                assert(p.contains('/'));
            }
        }
    }
    assert(normalized(with_forward_slashes(p)) =~= p) by {
        assert forall|k: int| 0 <= k < p.len() implies p[k] != '/' by {
            if p[k] == '/' {
                assert(p.contains('/'));
            }
        }
    }
    assert(normalized(n) =~= n) by {
        assert forall|k: int| 0 <= k < n.len() implies n[k] != '/' by {
            if n[k] == '/' {
                assert(n.contains('/'));
            }
        }
    }
}

} // verus!
