//! Traversal options, their builder, and the name patterns that exclude
//! entries.

use vstd::prelude::*;
use regex::Regex;

verus! {

#[verifier::external_type_specification]
#[verifier::external_body]
pub struct ExRegex(regex::Regex);

#[verifier::external_type_specification]
#[verifier::external_body]
pub struct ExRegexError(regex::Error);

/// Whether the regular expression written `pattern` matches somewhere in
/// `text`.
pub uninterp spec fn pattern_matches(pattern: Seq<char>, text: Seq<char>) -> bool;

/// A regular expression together with the text it was compiled from.
pub struct ExclusionPattern {
    source: String,
    compiled: Regex,
}

/// A pattern that failed to compile, with the reason in words.
#[derive(Debug)]
pub struct InvalidPattern {
    pub message: String,
}

/// Relies on regex::Regex::new: compiles `source` with the default settings.
#[verifier::external_body]
fn compile_regex(source: &str) -> (r: Result<Regex, regex::Error>) {
    Regex::new(source)
}

/// Relies on regex::Error's Display impl: a description of the failure.
#[verifier::external_body]
fn regex_error_message(e: &regex::Error) -> (r: String) {
    e.to_string()
}

/// Relies on regex::Regex::is_match: true iff the expression matches somewhere
/// in `text`. `p.compiled` was built by `Regex::new` from `p.source` with the
/// default settings, so the answer depends on the source text alone.
#[verifier::external_body]
fn regex_is_match(p: &ExclusionPattern, text: &str) -> (r: bool)
    ensures
        r == pattern_matches(p@, text@),
{
    p.compiled.is_match(text)
}

impl View for ExclusionPattern {
    type V = Seq<char>;

    closed spec fn view(&self) -> Seq<char> {
        self.source@
    }
}

impl ExclusionPattern {
    /// Compiles `source` as a regular expression.
    pub fn new(source: &str) -> (r: Result<ExclusionPattern, InvalidPattern>)
        ensures
            r matches Ok(p) ==> p@ == source@,
    {
        match compile_regex(source) {
            Ok(compiled) => Ok(ExclusionPattern { source: source.to_string(), compiled }),
            Err(e) => Err(InvalidPattern { message: regex_error_message(&e) }),
        }
    }

    /// The text the pattern was compiled from.
    pub fn as_str(&self) -> (r: &str)
        ensures
            r@ == self@,
    {
        self.source.as_str()
    }

    /// Whether the pattern matches somewhere in `text`.
    pub fn is_match(&self, text: &str) -> (r: bool)
        ensures
            r == pattern_matches(self@, text@),
    {
        regex_is_match(self, text)
    }
}

pub open spec fn views_of(v: Seq<String>) -> Seq<Seq<char>> {
    v.map_values(|s: String| s@)
}

pub open spec fn pattern_views(v: Seq<ExclusionPattern>) -> Seq<Seq<char>> {
    v.map_values(|p: ExclusionPattern| p@)
}

/// Mathematical model of [`FolderStructureOptions`].
pub struct OptionsView {
    pub exclude_extension: Seq<Seq<char>>,
    pub exclude_by_filter: Seq<Seq<char>>,
    pub include_extension_only: Seq<Seq<char>>,
    pub show_empty_folder: bool,
}

impl OptionsView {
    /// Excluded and exclusively included extensions are never both given.
    pub open spec fn wf(self) -> bool {
        !(self.exclude_extension.len() > 0 && self.include_extension_only.len() > 0)
    }
}

/// What to filter out of a traversal and what to show.
pub struct FolderStructureOptions {
    exclude_extension: Vec<String>,
    exclude_by_filter: Vec<ExclusionPattern>,
    include_extension_only: Vec<String>,
    show_empty_folder: bool,
}

impl View for FolderStructureOptions {
    type V = OptionsView;

    closed spec fn view(&self) -> OptionsView {
        OptionsView {
            exclude_extension: views_of(self.exclude_extension@),
            exclude_by_filter: pattern_views(self.exclude_by_filter@),
            include_extension_only: views_of(self.include_extension_only@),
            show_empty_folder: self.show_empty_folder,
        }
    }
}

impl FolderStructureOptions {
    pub fn exclude_extension(&self) -> (r: &Vec<String>)
        ensures
            views_of(r@) == self@.exclude_extension,
    {
        &self.exclude_extension
    }

    pub fn exclude_by_filter(&self) -> (r: &Vec<ExclusionPattern>)
        ensures
            pattern_views(r@) == self@.exclude_by_filter,
    {
        &self.exclude_by_filter
    }

    pub fn include_extension_only(&self) -> (r: &Vec<String>)
        ensures
            views_of(r@) == self@.include_extension_only,
    {
        &self.include_extension_only
    }

    pub fn show_empty_folder(&self) -> (r: bool)
        ensures
            r == self@.show_empty_folder,
    {
        self.show_empty_folder
    }
}

/// Collects option values one at a time; unset values default to empty
/// lists and `false`.
pub struct FolderStructureOptionsBuilder {
    exclude_extension: Option<Vec<String>>,
    exclude_by_filter: Option<Vec<ExclusionPattern>>,
    include_extension_only: Option<Vec<String>>,
    show_empty_folder: Option<bool>,
}

/// The views of a list that may not have been set; unset counts as empty.
pub open spec fn set_views(v: Option<Vec<String>>) -> Seq<Seq<char>> {
    match v {
        Some(v) => views_of(v@),
        None => Seq::empty(),
    }
}

impl View for FolderStructureOptionsBuilder {
    type V = OptionsView;

    /// The options that a build would produce.
    closed spec fn view(&self) -> OptionsView {
        OptionsView {
            exclude_extension: set_views(self.exclude_extension),
            exclude_by_filter: match self.exclude_by_filter {
                Some(v) => pattern_views(v@),
                None => Seq::empty(),
            },
            include_extension_only: set_views(self.include_extension_only),
            show_empty_folder: match self.show_empty_folder {
                Some(b) => b,
                None => false,
            },
        }
    }
}

impl Default for FolderStructureOptionsBuilder {
    fn default() -> (r: FolderStructureOptionsBuilder)
        ensures
            r@ == (OptionsView {
                exclude_extension: Seq::empty(),
                exclude_by_filter: Seq::empty(),
                include_extension_only: Seq::empty(),
                show_empty_folder: false,
            }),
    {
        FolderStructureOptionsBuilder {
            exclude_extension: None,
            exclude_by_filter: None,
            include_extension_only: None,
            show_empty_folder: None,
        }
    }
}

impl FolderStructureOptionsBuilder {
    pub fn exclude_extension(&mut self, value: Vec<String>)
        ensures
            final(self)@ == (OptionsView { exclude_extension: views_of(value@), ..old(self)@ }),
    {
        self.exclude_extension = Some(value);
    }

    pub fn exclude_by_filter(&mut self, value: Vec<ExclusionPattern>)
        ensures
            final(self)@ == (OptionsView { exclude_by_filter: pattern_views(value@), ..old(self)@ }),
    {
        self.exclude_by_filter = Some(value);
    }

    pub fn include_extension_only(&mut self, value: Vec<String>)
        ensures
            final(self)@ == (OptionsView { include_extension_only: views_of(value@), ..old(self)@ }),
    {
        self.include_extension_only = Some(value);
    }

    pub fn show_empty_folder(&mut self, value: bool)
        ensures
            final(self)@ == (OptionsView { show_empty_folder: value, ..old(self)@ }),
    {
        self.show_empty_folder = Some(value);
    }

    /// Refuses excluded and exclusively included extensions given together.
    pub fn validate(&self) -> (r: Result<(), String>)
        ensures
            r is Ok <==> self@.wf(),
    {
        let excluding = match &self.exclude_extension {
            Some(v) => v.len() > 0,
            None => false,
        };
        let including = match &self.include_extension_only {
            Some(v) => v.len() > 0,
            None => false,
        };
        if excluding && including {
            return Err("Cannot specify both exclude_extension and include_extension_only".to_string());
        }
        Ok(())
    }

    /// Builds the options, or refuses them as [`Self::validate`] does.
    pub fn build(self) -> (r: Result<FolderStructureOptions, String>)
        ensures
            r is Ok <==> self@.wf(),
            r matches Ok(o) ==> o@ == self@,
    {
        self.validate()?;
        let exclude_extension = match self.exclude_extension {
            Some(v) => v,
            None => Vec::new(),
        };
        let exclude_by_filter = match self.exclude_by_filter {
            Some(v) => v,
            None => Vec::new(),
        };
        let include_extension_only = match self.include_extension_only {
            Some(v) => v,
            None => Vec::new(),
        };
        let show_empty_folder = match self.show_empty_folder {
            Some(b) => b,
            None => false,
        };
        proof {
            assert(views_of(Seq::<String>::empty()) =~= Seq::empty());
            assert(pattern_views(Seq::<ExclusionPattern>::empty()) =~= Seq::empty());
        }
        Ok(FolderStructureOptions {
            exclude_extension,
            exclude_by_filter,
            include_extension_only,
            show_empty_folder,
        })
    }
}

} // verus!
