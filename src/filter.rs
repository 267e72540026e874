//! The filter policy: which files and names a traversal keeps.

use vstd::prelude::*;
use vstd::string::StrSliceExecFns;
use crate::options::{FolderStructureOptions, OptionsView, pattern_matches};

verus! {

/// Whether `name` ends with `suffix`.
pub open spec fn is_suffix(suffix: Seq<char>, name: Seq<char>) -> bool {
    suffix.len() <= name.len() && name.subrange(name.len() - suffix.len(), name.len() as int)
        =~= suffix
}

/// Whether `name` is hidden: it starts with a dot.
pub open spec fn is_hidden(name: Seq<char>) -> bool {
    name.len() > 0 && name[0] == '.'
}

/// Whether `name` ends with one of `extensions`.
pub open spec fn has_extension_in(name: Seq<char>, extensions: Seq<Seq<char>>) -> bool {
    exists|i: int| 0 <= i < extensions.len() && is_suffix(#[trigger] extensions[i], name)
}

/// The extension policy for a file named `name`.
pub open spec fn file_included(name: Seq<char>, o: OptionsView) -> bool {
    if o.exclude_extension.len() == 0 && o.include_extension_only.len() == 0 {
        true
    } else if o.exclude_extension.len() > 0 {
        !has_extension_in(name, o.exclude_extension)
    } else {
        has_extension_in(name, o.include_extension_only)
    }
}

/// The pattern policy for an entry named `name`.
pub open spec fn item_included(name: Seq<char>, o: OptionsView) -> bool {
    !exists|i: int|
        0 <= i < o.exclude_by_filter.len() && pattern_matches(#[trigger] o.exclude_by_filter[i], name)
}

/// Whether a directory entry is left out before any traversal of it: it has
/// no usable name, is hidden, or matches an exclusion pattern.
pub open spec fn entry_skipped(name: Option<Seq<char>>, o: OptionsView) -> bool {
    match name {
        None => true,
        Some(n) => is_hidden(n) || !item_included(n, o),
    }
}

/// Whether `name` ends with `suffix`.
pub fn ends_with(name: &str, suffix: &str) -> (r: bool)
    ensures
        r == is_suffix(suffix@, name@),
{
    let n = name.unicode_len();
    let m = suffix.unicode_len();
    if m > n {
        return false;
    }
    let off = n - m;
    let mut i: usize = 0;
    while i < m
        invariant
            n == name@.len(),
            m == suffix@.len(),
            off == n - m,
            i <= m,
            forall|j: int| 0 <= j < i ==> name@[off + j] == suffix@[j],
        decreases m - i,
    {
        if name.get_char(off + i) != suffix.get_char(i) {
            proof {
                assert(name@.subrange(off as int, n as int)[i as int] != suffix@[i as int]);
            }
            return false;
        }
        i = i + 1;
    }
    proof {
        assert(name@.subrange(off as int, n as int) =~= suffix@);
    }
    true
}

/// Whether `name` ends with one of `extensions`.
fn ends_with_any(name: &str, extensions: &Vec<String>) -> (r: bool)
    ensures
        r == has_extension_in(name@, crate::options::views_of(extensions@)),
{
    let ghost exts = crate::options::views_of(extensions@);
    let mut i: usize = 0;
    while i < extensions.len()
        invariant
            exts == crate::options::views_of(extensions@),
            i <= extensions.len(),
            forall|j: int| 0 <= j < i ==> !is_suffix(#[trigger] exts[j], name@),
        decreases extensions.len() - i,
    {
        if ends_with(name, extensions[i].as_str()) {
            proof {
                assert(is_suffix(exts[i as int], name@));
            }
            return true;
        }
        i = i + 1;
    }
    false
}

/// Whether a file named `file_name` passes the extension filters: with no
/// extension lists every file does; with excluded extensions, those that end
/// with none of them; otherwise those that end with an included extension.
pub fn should_include_file(file_name: &str, options: &FolderStructureOptions) -> (r: bool)
    ensures
        r == file_included(file_name@, options@),
{
    let excluded = options.exclude_extension();
    let included = options.include_extension_only();
    if excluded.len() == 0 && included.len() == 0 {
        return true;
    }
    if excluded.len() > 0 {
        return !ends_with_any(file_name, excluded);
    }
    ends_with_any(file_name, included)
}

/// Whether an entry named `item_name` matches no exclusion pattern.
pub fn should_include_item(item_name: &str, options: &FolderStructureOptions) -> (r: bool)
    ensures
        r == item_included(item_name@, options@),
{
    let patterns = options.exclude_by_filter();
    let ghost pats = options@.exclude_by_filter;
    let mut i: usize = 0;
    while i < patterns.len()
        invariant
            pats == crate::options::pattern_views(patterns@),
            pats == options@.exclude_by_filter,
            i <= patterns.len(),
            forall|j: int| 0 <= j < i ==> !pattern_matches(#[trigger] pats[j], item_name@),
        decreases patterns.len() - i,
    {
        if patterns[i].is_match(item_name) {
            proof {
                assert(pattern_matches(pats[i as int], item_name@));
            }
            return false;
        }
        i = i + 1;
    }
    true
}

/// Whether an entry named `name` is left out: `None` stands for a name that
/// is missing or not valid text.
pub fn should_skip_entry(name: &Option<String>, options: &FolderStructureOptions) -> (r: bool)
    ensures
        r == entry_skipped(
            match name {
                Some(n) => Some(n@),
                None => None,
            },
            options@,
        ),
{
    match name {
        Some(n) => {
            let s = n.as_str();
            let hidden = s.unicode_len() > 0 && s.get_char(0) == '.';
            hidden || !should_include_item(s, options)
        },
        None => true,
    }
}

} // verus!
