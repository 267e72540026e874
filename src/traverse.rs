//! The traversal engine: from the entries of a directory hierarchy to the
//! filtered, sorted and annotated tree.

use vstd::prelude::*;
use crate::item::{FsError, Item, Node, annotate, view_items, lemma_view_items};
use crate::options::{FolderStructureOptions, OptionsView};
use crate::filter::{entry_skipped, file_included, should_include_file, should_skip_entry};
use crate::sort::{sort_nodes, sort_siblings};

verus! {

/// What the filesystem shows of one entry. A name is `None` where the entry
/// has no final path component or its name is not valid text.
#[derive(Debug)]
pub enum DiskEntry {
    /// A regular file.
    File(Option<String>),
    /// A directory with its direct children, in the order they were listed.
    Dir(Option<String>, Vec<DiskEntry>),
    /// A directory whose listing failed.
    Unreadable(Option<String>),
}

/// Mathematical model of a [`DiskEntry`].
pub enum Disk {
    File(Option<Seq<char>>),
    Dir(Option<Seq<char>>, Seq<Disk>),
    Unreadable(Option<Seq<char>>),
}

pub open spec fn name_view(n: Option<String>) -> Option<Seq<char>> {
    match n {
        Some(s) => Some(s@),
        None => None,
    }
}

pub open spec fn view_entry(e: DiskEntry) -> Disk
    decreases e,
{
    match e {
        DiskEntry::File(n) => Disk::File(name_view(n)),
        DiskEntry::Dir(n, children) => Disk::Dir(name_view(n), view_entries(children@)),
        DiskEntry::Unreadable(n) => Disk::Unreadable(name_view(n)),
    }
}

pub open spec fn view_entries(es: Seq<DiskEntry>) -> Seq<Disk>
    decreases es,
{
    if es.len() == 0 {
        Seq::empty()
    } else {
        view_entries(es.drop_last()).push(view_entry(es.last()))
    }
}

pub proof fn lemma_view_entries(es: Seq<DiskEntry>)
    ensures
        view_entries(es).len() == es.len(),
        forall|i: int| 0 <= i < es.len() ==> #[trigger] view_entries(es)[i] == view_entry(es[i]),
    decreases es.len(),
{
    if es.len() > 0 {
        lemma_view_entries(es.drop_last());
    }
}

impl View for DiskEntry {
    type V = Disk;

    open spec fn view(&self) -> Disk {
        view_entry(*self)
    }
}

/// The displayed name of an entry: its name, or empty text without one.
pub open spec fn display_name(n: Option<Seq<char>>) -> Seq<char> {
    match n {
        Some(s) => s,
        None => Seq::empty(),
    }
}

pub open spec fn disk_name(d: Disk) -> Option<Seq<char>> {
    match d {
        Disk::File(n) => n,
        Disk::Dir(n, _) => n,
        Disk::Unreadable(n) => n,
    }
}

/// The name shown for a folder: `.` for the current directory, else its own.
pub open spec fn folder_name(n: Option<Seq<char>>, current_dir: bool) -> Seq<char> {
    if current_dir {
        seq!['.']
    } else {
        display_name(n)
    }
}

/// What a traversal of `d` gives, before annotation. `current_dir` tells
/// whether `d` was named by the current-directory token.
pub open spec fn outcome(d: Disk, current_dir: bool, o: OptionsView) -> Result<Node, FsError>
    decreases d,
{
    match d {
        Disk::File(n) => if file_included(display_name(n), o) {
            Ok(Node::File(display_name(n)))
        } else {
            Err(FsError::Filtered)
        },
        Disk::Unreadable(_) => Err(FsError::IoError),
        Disk::Dir(n, children) => match collect(children, o) {
            Err(e) => Err(e),
            Ok(kept) => {
                let sorted = sort_nodes(kept);
                if sorted.len() == 0 && !o.show_empty_folder {
                    Err(FsError::EmptyFolder)
                } else {
                    Ok(Node::Folder(folder_name(n, current_dir), sorted, None))
                }
            },
        },
    }
}

/// The nodes that the children `ds` of a folder give, in listing order:
/// skipped, filtered and empty ones are left out, and a failed listing
/// fails the whole.
pub open spec fn collect(ds: Seq<Disk>, o: OptionsView) -> Result<Seq<Node>, FsError>
    decreases ds,
{
    if ds.len() == 0 {
        Ok(Seq::empty())
    } else {
        match collect(ds.drop_last(), o) {
            Err(e) => Err(e),
            Ok(prev) => {
                let d = ds.last();
                if entry_skipped(disk_name(d), o) {
                    Ok(prev)
                } else {
                    match outcome(d, false, o) {
                        Ok(node) => Ok(prev.push(node)),
                        Err(FsError::IoError) => Err(FsError::IoError),
                        Err(_) => Ok(prev),
                    }
                }
            },
        }
    }
}

/// What [`get_folder_structure`] returns for `d`: the traversal, annotated.
pub open spec fn structure(d: Disk, current_dir: bool, o: OptionsView) -> Result<Node, FsError> {
    match outcome(d, current_dir, o) {
        Ok(n) => Ok(annotate(n)),
        Err(e) => Err(e),
    }
}

/// The name of an entry as shown: its name, or empty text.
pub fn get_path_name(entry: &DiskEntry) -> (r: String)
    ensures
        r@ == display_name(disk_name(entry@)),
{
    let name = match entry {
        DiskEntry::File(n) => n,
        DiskEntry::Dir(n, _) => n,
        DiskEntry::Unreadable(n) => n,
    };
    match name {
        Some(s) => s.clone(),
        None => String::new(),
    }
}

/// A file node for `name`, or `Filtered` where the extension filters
/// reject it.
pub fn handle_file(name: String, options: &FolderStructureOptions) -> (r: Result<Item, FsError>)
    ensures
        r == (if file_included(name@, options@) {
            Ok(Item::File(name))
        } else {
            Err(FsError::Filtered)
        }),
{
    if should_include_file(name.as_str(), options) {
        Ok(Item::File(name))
    } else {
        Err(FsError::Filtered)
    }
}

/// A folder node over `items`, or `EmptyFolder` where there are none and
/// empty folders are hidden.
pub fn create_folder_item(
    current_dir: bool,
    name: String,
    items: Vec<Item>,
    options: &FolderStructureOptions,
) -> (r: Result<Item, FsError>)
    ensures
        items.len() == 0 && !options@.show_empty_folder ==> r == Err::<Item, FsError>(FsError::EmptyFolder),
        !(items.len() == 0 && !options@.show_empty_folder) ==> (r matches Ok(i) && i@ == Node::Folder(
            if current_dir { seq!['.'] } else { name@ },
            view_items(items@),
            None,
        )),
{
    if items.len() == 0 && !options.show_empty_folder() {
        return Err(FsError::EmptyFolder);
    }
    let folder_name = if current_dir {
        let dot = String::from_str(".");
        proof {
            reveal_strlit(".");
        }
        dot
    } else {
        name
    };
    proof {
        if current_dir {
            assert(folder_name@ =~= seq!['.']);
        }
    }
    Ok(Item::Folder(folder_name, items, None))
}

pub open spec fn result_view(r: Result<Item, FsError>) -> Result<Node, FsError> {
    match r {
        Ok(i) => Ok(i@),
        Err(e) => Err(e),
    }
}

/// Once the children listed first fail, all of them do.
pub proof fn lemma_collect_err_extends(ds: Seq<Disk>, k: int, o: OptionsView)
    requires
        0 <= k <= ds.len(),
        collect(ds.take(k), o) is Err,
    ensures
        collect(ds, o) == collect(ds.take(k), o),
    decreases ds.len() - k,
{
    if k < ds.len() {
        assert(ds.take(k + 1).drop_last() =~= ds.take(k));
        lemma_collect_err_extends(ds, k + 1, o);
    } else {
        assert(ds.take(k) =~= ds);
    }
}

fn entry_name(entry: &DiskEntry) -> (r: &Option<String>)
    ensures
        name_view(*r) == disk_name(entry@),
{
    match entry {
        DiskEntry::File(n) => n,
        DiskEntry::Dir(n, _) => n,
        DiskEntry::Unreadable(n) => n,
    }
}

/// The children of a folder that survive traversal, in sibling order; a
/// failed listing below fails the whole.
pub fn process_directory(children: &Vec<DiskEntry>, options: &FolderStructureOptions) -> (r: Result<
    Vec<Item>,
    FsError,
>)
    ensures
        match collect(view_entries(children@), options@) {
            Ok(kept) => r matches Ok(items) && view_items(items@) == sort_nodes(kept),
            Err(e) => r == Err::<Vec<Item>, FsError>(e),
        },
    decreases children, 0nat,
{
    let ghost ds = view_entries(children@);
    proof {
        lemma_view_entries(children@);
        assert(ds.take(0) =~= Seq::empty());
        assert(view_items(Seq::<Item>::empty()) =~= Seq::empty());
    }
    let mut items: Vec<Item> = Vec::new();
    let mut i: usize = 0;
    while i < children.len()
        invariant
            ds == view_entries(children@),
            ds.len() == children.len(),
            forall|j: int| 0 <= j < children.len() ==> #[trigger] ds[j] == view_entry(children@[j]),
            i <= children.len(),
            collect(ds.take(i as int), options@) == Ok::<Seq<Node>, FsError>(view_items(items@)),
        decreases children.len() - i,
    {
        let child = &children[i];
        proof {
            assert(ds.take(i + 1).drop_last() =~= ds.take(i as int));
            assert(ds.take(i + 1).last() == view_entry(*child));
            lemma_view_items(items@);
        }
        if !should_skip_entry(entry_name(child), options) {
            proof {
                assert(decreases_to!(children => children@[i as int]));
            }
            match build_entry(child, false, options) {
                Ok(item) => {
                    let ghost before = items@;
                    items.push(item);
                    proof {
                        lemma_view_items(items@);
                        assert(view_items(items@) =~= view_items(before).push(item@));
                    }
                },
                Err(FsError::IoError) => {
                    proof {
                        lemma_collect_err_extends(ds, i + 1, options@);
                    }
                    return Err(FsError::IoError);
                },
                Err(_) => {},
            }
        }
        i = i + 1;
    }
    proof {
        assert(ds.take(i as int) =~= ds);
    }
    Ok(sort_siblings(items))
}

/// The traversal of `entry`, not yet annotated.
fn build_entry(entry: &DiskEntry, current_dir: bool, options: &FolderStructureOptions) -> (r: Result<
    Item,
    FsError,
>)
    ensures
        result_view(r) == outcome(entry@, current_dir, options@),
    decreases entry, 1nat,
{
    let name = get_path_name(entry);
    match entry {
        DiskEntry::File(_) => handle_file(name, options),
        DiskEntry::Unreadable(_) => Err(FsError::IoError),
        DiskEntry::Dir(_, children) => {
            proof {
                assert(decreases_to!(entry => entry->Dir_1));
            }
            match process_directory(children, options) {
                Ok(items) => {
                    proof {
                        crate::sort::lemma_sort_nodes_sorted(
                            match collect(view_entries(children@), options@) {
                                Ok(kept) => kept,
                                Err(_) => Seq::empty(),
                            },
                        );
                        lemma_view_items(items@);
                    }
                    create_folder_item(current_dir, name, items, options)
                },
                Err(e) => Err(e),
            }
        },
    }
}

/// The tree of `entry`, filtered, sorted and annotated. `current_dir` tells
/// whether `entry` was named by the current-directory token; its folder is
/// then shown as `.`.
pub fn get_folder_structure(entry: &DiskEntry, current_dir: bool, options: &FolderStructureOptions) -> (r:
    Result<Item, FsError>)
    ensures
        result_view(r) == structure(entry@, current_dir, options@),
{
    match build_entry(entry, current_dir, options) {
        Ok(item) => {
            let mut folder = item;
            crate::item::update_has_terminal_file(&mut folder);
            Ok(folder)
        },
        Err(e) => Err(e),
    }
}

} // verus!
