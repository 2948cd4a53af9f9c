//! The command tree: a path entity, leaf command files with their
//! discovered configuration, command directories, and the builder that
//! turns a plain directory listing into the tree.

use vstd::prelude::*;

use crate::config::{
    opt_config_view, spec_parse_config, get_command_configuration, CommandConfiguration, ConfigV,
};
use crate::file_type::{
    is_supported, spec_command_file_type, CommandFileType, FileTypeSpecifier, FileTypeV,
};
use crate::listing::{
    dir_listing_view, dir_listings_view, lemma_dir_listings_view, DirListing, DirListingV,
    FileListing, FileListingV,
};
use crate::text::{
    contains_subseq, contains_substring, extension_of, extension_of_name, is_hidden_name,
    starts_with_dot, stem_of, stem_of_name, str_eq,
};

verus! {

/// The two kinds of nodes a command tree holds.
#[derive(Clone, Copy, Debug, PartialEq, Eq, Structural)]
pub enum ClixObject {
    CommandDirectory,
    CommandFile,
}

/// Spec-level mirror of [`ClixPath`].
#[verifier::ext_equal]
pub struct PathV {
    pub segments: Seq<Seq<char>>,
    pub is_file: bool,
}

/// A filesystem path, held as its components, together with whether it
/// designates a file.  The logical name of a file is its stem; the logical
/// name of a directory is its final component.
#[derive(Debug)]
pub struct ClixPath {
    segments: Vec<String>,
    is_file: bool,
}

impl View for ClixPath {
    type V = PathV;

    closed spec fn view(&self) -> PathV {
        PathV { segments: self.segments.deep_view(), is_file: self.is_file }
    }
}

/// The logical name of a path: the stem of the final component for a file,
/// the final component itself for a directory.
pub open spec fn spec_path_name(p: PathV) -> Seq<char> {
    if p.is_file {
        stem_of(p.segments.last())
    } else {
        p.segments.last()
    }
}

/// The extension of a path's final component, empty when there is none.
pub open spec fn spec_path_extension(p: PathV) -> Seq<char> {
    extension_of(p.segments.last())
}

impl Clone for ClixPath {
    fn clone(&self) -> (r: Self)
        ensures
            r@ == self@,
    {
        let r = ClixPath { segments: self.segments.clone(), is_file: self.is_file };
        proof {
            assert(r.segments.deep_view() =~= self.segments.deep_view());
        }
        r
    }
}

impl ClixPath {
    /// A path has at least one component.
    pub open spec fn wf(&self) -> bool {
        self@.segments.len() > 0
    }

    /// Wrap a path given as its components.
    pub fn new(segments: Vec<String>, is_file: bool) -> (r: Self)
        ensures
            r@ == (PathV { segments: segments.deep_view(), is_file }),
    {
        ClixPath { segments, is_file }
    }

    /// The components of the path.
    pub fn path(&self) -> (r: &Vec<String>)
        ensures
            r.deep_view() == self@.segments,
    {
        &self.segments
    }

    /// Does the path designate a file?
    pub fn is_file(&self) -> (r: bool)
        ensures
            r == self@.is_file,
    {
        self.is_file
    }

    /// The logical name of the path.
    pub fn name(&self) -> (r: String)
        requires
            self.wf(),
        ensures
            r@ == spec_path_name(self@),
    {
        let last = &self.segments[self.segments.len() - 1];
        if self.is_file {
            stem_of_name(last.as_str())
        } else {
            last.clone()
        }
    }

    /// The extension of the path's final component, empty when there is
    /// none.
    pub fn extension(&self) -> (r: String)
        requires
            self.wf(),
        ensures
            r@ == spec_path_extension(self@),
    {
        let last = &self.segments[self.segments.len() - 1];
        extension_of_name(last.as_str())
    }

    /// The classified file type: `None` for a directory, the extension's
    /// classification for a file.
    pub fn file_type(&self) -> (r: Option<CommandFileType>)
        requires
            self.wf(),
        ensures
            match r {
                Some(t) => self@.is_file && t@ == spec_command_file_type(
                    spec_path_extension(self@),
                ),
                None => !self@.is_file,
            },
    {
        if self.is_file {
            let ext = self.extension();
            Some(CommandFileType::from_extension(ext.as_str()))
        } else {
            None
        }
    }
}

/// The final path component, as a string.
pub fn get_last_path_component_as_string(path: &ClixPath) -> (r: String)
    requires
        path.wf(),
    ensures
        r@ == path@.segments.last(),
{
    let segments = path.path();
    segments[segments.len() - 1].clone()
}

/// Is the sibling named `sib_name` the configuration candidate of the file
/// named `file_name`?  It is when it is another file whose full name
/// contains the file's stem.  The containment is deliberately loose — a
/// sibling `boshrc.sh` also matches a script `bosh.sh` — and is kept for
/// compatibility with how configuration files have always been found.
pub open spec fn spec_is_config_candidate(sib_name: Seq<char>, file_name: Seq<char>) -> bool {
    sib_name != file_name && contains_subseq(sib_name, stem_of(file_name))
}

/// The first sibling, in enumeration order, that is a configuration
/// candidate of the file named `file_name`.
pub open spec fn spec_find_config(file_name: Seq<char>, sibs: Seq<FileListingV>) -> Option<
    FileListingV,
>
    decreases sibs.len(),
{
    if sibs.len() == 0 {
        None
    } else {
        match spec_find_config(file_name, sibs.drop_last()) {
            Some(c) => Some(c),
            None => if spec_is_config_candidate(sibs.last().name, file_name) {
                Some(sibs.last())
            } else {
                None
            },
        }
    }
}

/// A candidate found in a prefix is the candidate of the whole sequence.
proof fn lemma_find_config_extend(file_name: Seq<char>, sibs: Seq<FileListingV>, i: int)
    requires
        0 <= i <= sibs.len(),
        spec_find_config(file_name, sibs.take(i)) is Some,
    ensures
        spec_find_config(file_name, sibs) == spec_find_config(file_name, sibs.take(i)),
    decreases sibs.len(),
{
    if i == sibs.len() {
        assert(sibs.take(i) =~= sibs);
    } else {
        assert(sibs.drop_last().take(i) =~= sibs.take(i));
        lemma_find_config_extend(file_name, sibs.drop_last(), i);
    }
}

/// The path of a configuration file found beside `file`.
pub open spec fn spec_config_path(file: PathV, config_name: Seq<char>) -> PathV {
    PathV { segments: file.segments.drop_last().push(config_name), is_file: true }
}

/// Spec-level mirror of [`ClixFile`].
#[verifier::ext_equal]
pub struct FileV {
    pub path: PathV,
    pub config_path: Option<PathV>,
    pub config: Option<ConfigV>,
    pub file_type: FileTypeV,
}

/// What constructing a command file from its path and the sibling listing
/// yields: the classified type, and the first configuration candidate among
/// the siblings, parsed.
pub open spec fn spec_new_file(file: PathV, sibs: Seq<FileListingV>) -> FileV {
    let file_type = spec_command_file_type(spec_path_extension(file));
    match spec_find_config(file.segments.last(), sibs) {
        None => FileV { path: file, config_path: None, config: None, file_type },
        Some(c) => FileV {
            path: file,
            config_path: Some(spec_config_path(file, c.name)),
            config: spec_parse_config(c.content),
            file_type,
        },
    }
}

/// A leaf of the command tree: one script file, its classified type, and
/// the sibling configuration that discovery associated with it, parsed once
/// at construction.
#[derive(Debug)]
pub struct ClixFile {
    file: ClixPath,
    config_file: Option<ClixPath>,
    config: Option<CommandConfiguration>,
    file_type: CommandFileType,
}

impl View for ClixFile {
    type V = FileV;

    closed spec fn view(&self) -> FileV {
        FileV {
            path: self.file@,
            config_path: match self.config_file {
                None => None,
                Some(p) => Some(p@),
            },
            config: opt_config_view(self.config),
            file_type: self.file_type@,
        }
    }
}

impl Clone for ClixFile {
    fn clone(&self) -> (r: Self)
        ensures
            r@ == self@,
    {
        ClixFile {
            file: self.file.clone(),
            config_file: match &self.config_file {
                None => None,
                Some(p) => Some(p.clone()),
            },
            config: match &self.config {
                None => None,
                Some(c) => Some(c.clone()),
            },
            file_type: self.file_type.clone(),
        }
    }
}

impl ClixFile {
    /// Construct a command file from its path and the listing of its
    /// visible siblings (used for configuration discovery).
    pub fn new(file: ClixPath, siblings: &Vec<FileListing>) -> (r: Self)
        requires
            file.wf(),
            file@.is_file,
        ensures
            r@ == spec_new_file(file@, siblings.deep_view()),
    {
        let ghost sibs = siblings.deep_view();
        let full_name = get_last_path_component_as_string(&file);
        let stem = stem_of_name(full_name.as_str());
        let file_type = CommandFileType::from_extension(file.extension().as_str());
        let mut i: usize = 0;
        while i < siblings.len()
            invariant
                i <= siblings.len(),
                sibs == siblings.deep_view(),
                file.wf(),
                file@.is_file,
                full_name@ == file@.segments.last(),
                stem@ == stem_of(full_name@),
                file_type@ == spec_command_file_type(spec_path_extension(file@)),
                spec_find_config(full_name@, sibs.take(i as int)) is None,
            decreases siblings.len() - i,
        {
            let sib_name = &siblings[i].name;
            if !str_eq(sib_name.as_str(), full_name.as_str()) && contains_substring(
                sib_name.as_str(),
                stem.as_str(),
            ) {
                proof {
                    assert(sibs.take(i + 1).drop_last() =~= sibs.take(i as int));
                    assert(sibs.take(i + 1).last() == sibs[i as int]);
                    assert(spec_find_config(full_name@, sibs.take(i + 1)) == Some(
                        sibs[i as int],
                    ));
                    lemma_find_config_extend(full_name@, sibs, i + 1);
                }
                let mut segments = file.path().clone();
                proof {
                    assert(segments.deep_view() =~= file@.segments);
                }
                segments.pop();
                segments.push(sib_name.clone());
                proof {
                    assert(segments.deep_view() =~= file@.segments.drop_last().push(
                        sibs[i as int].name,
                    ));
                }
                let config_path = ClixPath::new(segments, true);
                let config = get_command_configuration(siblings[i].content.as_str());
                let r = ClixFile {
                    file,
                    config_file: Some(config_path),
                    config,
                    file_type,
                };
                proof {
                    let s = spec_new_file(r.file@, sibs);
                    assert(spec_find_config(full_name@, sibs) == Some(sibs[i as int]));
                    assert(r@.path == s.path);
                    assert(r@.config_path == s.config_path);
                    assert(r@.config == s.config);
                    assert(r@.file_type == s.file_type);
                    assert(r@ =~= s);
                }
                return r;
            }
            proof {
                assert(sibs.take(i + 1).drop_last() =~= sibs.take(i as int));
                assert(sibs.take(i + 1).last() == sibs[i as int]);
                assert(!spec_is_config_candidate(sibs[i as int].name, full_name@));
            }
            i = i + 1;
        }
        proof {
            assert(sibs.take(siblings.len() as int) =~= sibs);
        }
        let r = ClixFile { file, config_file: None, config: None, file_type };
        proof {
            assert(r@ =~= spec_new_file(r.file@, sibs));
        }
        r
    }

    /// Construct a command file with an explicitly given configuration.
    pub fn new_with_config(
        file: ClixPath,
        config_file: Option<ClixPath>,
        config: Option<CommandConfiguration>,
    ) -> (r: Self)
        requires
            file.wf(),
            file@.is_file,
        ensures
            r@.path == file@,
            r@.config_path == (match config_file {
                None => None::<PathV>,
                Some(p) => Some(p@),
            }),
            r@.config == opt_config_view(config),
            r@.file_type == spec_command_file_type(spec_path_extension(file@)),
    {
        let file_type = CommandFileType::from_extension(file.extension().as_str());
        ClixFile { file, config_file, config, file_type }
    }

    /// The path of the script file.
    pub fn file_path(&self) -> (r: &ClixPath)
        ensures
            r@ == self@.path,
    {
        &self.file
    }

    /// The logical name of the file: its stem.
    pub fn file_name(&self) -> (r: String)
        requires
            self@.path.segments.len() > 0,
        ensures
            r@ == spec_path_name(self@.path),
    {
        self.file.name()
    }

    /// The logical name of the file: its stem.
    pub fn get_file_name(&self) -> (r: String)
        requires
            self@.path.segments.len() > 0,
        ensures
            r@ == spec_path_name(self@.path),
    {
        self.file.name()
    }

    /// The logical name of the file, as the command it answers to.
    pub fn get_command_name(&self) -> (r: String)
        requires
            self@.path.segments.len() > 0,
        ensures
            r@ == spec_path_name(self@.path),
    {
        self.file.name()
    }

    /// The extension of the file's name.
    pub fn get_file_extension(&self) -> (r: String)
        requires
            self@.path.segments.len() > 0,
        ensures
            r@ == spec_path_extension(self@.path),
    {
        self.file.extension()
    }

    /// The classified type of the file.
    pub fn file_type(&self) -> (r: &CommandFileType)
        ensures
            r@ == self@.file_type,
    {
        &self.file_type
    }

    /// The configuration record discovered for this file, if any.
    pub fn get_config(&self) -> (r: Option<CommandConfiguration>)
        ensures
            opt_config_view(r) == self@.config,
    {
        match &self.config {
            None => None,
            Some(c) => Some(c.clone()),
        }
    }

    /// The configuration record discovered for this file, if any.
    pub fn try_get_config(&self) -> (r: Option<CommandConfiguration>)
        ensures
            opt_config_view(r) == self@.config,
    {
        self.get_config()
    }

    /// The configuration record discovered for this file, if any.
    pub fn get_config_file(&self) -> (r: Option<CommandConfiguration>)
        ensures
            opt_config_view(r) == self@.config,
    {
        self.get_config()
    }
}

/// The kind of a directory, read off its name: hidden directories hold
/// configuration, all others hold commands.
#[derive(Clone, Copy, Debug, PartialEq, Eq, Structural)]
pub enum DirectoryType {
    Command,
    Configuration,
}

/// The kind a directory name classifies to.
pub open spec fn spec_directory_type(name: Seq<char>) -> DirectoryType {
    if is_hidden_name(name) {
        DirectoryType::Configuration
    } else {
        DirectoryType::Command
    }
}

impl DirectoryType {
    /// Classify a directory by its name.
    pub fn from_directory_name(name: &str) -> (r: Self)
        ensures
            r == spec_directory_type(name@),
    {
        if starts_with_dot(name) {
            DirectoryType::Configuration
        } else {
            DirectoryType::Command
        }
    }
}

/// Spec-level mirror of [`ClixDirectory`].
#[verifier::ext_equal]
pub struct DirV {
    pub path: PathV,
    pub files: Seq<FileV>,
    pub sub_dirs: Seq<DirV>,
    pub dir_type: DirectoryType,
}

/// An internal node of the command tree: one directory, its command files
/// and its subdirectories, each in enumeration order.
#[derive(Debug)]
pub struct ClixDirectory {
    dir: ClixPath,
    files: Vec<ClixFile>,
    sub_dirs: Vec<ClixDirectory>,
    dir_type: DirectoryType,
}

/// The view of one command directory.
pub closed spec fn clix_dir_view(d: ClixDirectory) -> DirV
    decreases d,
{
    DirV {
        path: d.dir@,
        files: d.files@.map_values(|f: ClixFile| f@),
        sub_dirs: clix_dirs_view(d.sub_dirs@),
        dir_type: d.dir_type,
    }
}

/// The views of a sequence of command directories.
pub closed spec fn clix_dirs_view(s: Seq<ClixDirectory>) -> Seq<DirV>
    decreases s,
{
    if s.len() == 0 {
        Seq::empty()
    } else {
        clix_dirs_view(s.drop_last()).push(clix_dir_view(s.last()))
    }
}

impl View for ClixDirectory {
    type V = DirV;

    closed spec fn view(&self) -> DirV {
        clix_dir_view(*self)
    }
}

/// The element-wise reading of [`clix_dirs_view`].
pub proof fn lemma_clix_dirs_view(s: Seq<ClixDirectory>)
    ensures
        clix_dirs_view(s).len() == s.len(),
        forall|i: int| 0 <= i < s.len() ==> #[trigger] clix_dirs_view(s)[i] == s[i]@,
    decreases s.len(),
{
    if s.len() > 0 {
        lemma_clix_dirs_view(s.drop_last());
    }
}

impl ClixDirectory {
    /// Construct a directory node; its kind is classified from its name.
    pub fn new(dir: ClixPath, files: Vec<ClixFile>, sub_dirs: Vec<ClixDirectory>) -> (r: Self)
        requires
            dir.wf(),
        ensures
            r@ == (DirV {
                path: dir@,
                files: files@.map_values(|f: ClixFile| f@),
                sub_dirs: clix_dirs_view(sub_dirs@),
                dir_type: spec_directory_type(spec_path_name(dir@)),
            }),
    {
        let name = dir.name();
        let dir_type = DirectoryType::from_directory_name(name.as_str());
        ClixDirectory { dir, files, sub_dirs, dir_type }
    }

    /// The kind of this directory.
    pub fn dir_type(&self) -> (r: &DirectoryType)
        ensures
            *r == self@.dir_type,
    {
        &self.dir_type
    }

    /// The logical name of the directory, as the command it answers to.
    pub fn get_command_name(&self) -> (r: String)
        requires
            self@.path.segments.len() > 0,
        ensures
            r@ == spec_path_name(self@.path),
    {
        self.dir.name()
    }

    /// The command files directly inside this directory.
    pub fn files(&self) -> (r: &Vec<ClixFile>)
        ensures
            r@.len() == self@.files.len(),
            forall|i: int| 0 <= i < r@.len() ==> #[trigger] r@[i]@ == self@.files[i],
    {
        &self.files
    }

    /// The child directories of this directory.  Each child is smaller
    /// than the directory itself, so callers can recurse through it.
    pub fn sub_dirs(&self) -> (r: &Vec<ClixDirectory>)
        ensures
            r@.len() == self@.sub_dirs.len(),
            forall|i: int| 0 <= i < r@.len() ==> #[trigger] r@[i]@ == self@.sub_dirs[i],
            forall|i: int| 0 <= i < r@.len() ==> decreases_to!(*self => #[trigger] r@[i]),
    {
        proof {
            lemma_clix_dirs_view(self.sub_dirs@);
            assert forall|i: int| 0 <= i < self.sub_dirs@.len() implies decreases_to!(
                *self => #[trigger] self.sub_dirs@[i]) by {
                assert(decreases_to!(*self => self.sub_dirs));
                assert(decreases_to!(self.sub_dirs => self.sub_dirs@[i]));
            }
        }
        &self.sub_dirs
    }
}

/// The path of a file entry directly inside `dir`.
pub open spec fn spec_child_file_path(dir: PathV, name: Seq<char>) -> PathV {
    PathV { segments: dir.segments.push(name), is_file: true }
}

/// The path of a directory entry directly inside `dir`.
pub open spec fn spec_child_dir_path(dir: PathV, name: Seq<char>) -> PathV {
    PathV { segments: dir.segments.push(name), is_file: false }
}

/// The diagnostic emitted when a file's extension is not supported.
pub open spec fn spec_diag_message(name: Seq<char>) -> Seq<char> {
    "unhandled file type: "@ + name
}

/// An entry name the builder skips outright: a hidden name, or an empty
/// one (which no real filesystem produces, and which would give a node an
/// empty logical name).
pub open spec fn spec_name_skipped(name: Seq<char>) -> bool {
    name.len() == 0 || is_hidden_name(name)
}

/// Is this an entry name the builder skips?
pub fn name_skipped(name: &str) -> (r: bool)
    ensures
        r == spec_name_skipped(name@),
{
    name.unicode_len() == 0 || starts_with_dot(name)
}

/// The visible files of a listing prefix: those the builder does not skip,
/// in order.
pub open spec fn spec_visible_files(prefix: Seq<FileListingV>) -> Seq<FileListingV>
    decreases prefix.len(),
{
    if prefix.len() == 0 {
        Seq::empty()
    } else {
        let rest = spec_visible_files(prefix.drop_last());
        if !spec_name_skipped(prefix.last().name) {
            rest.push(prefix.last())
        } else {
            rest
        }
    }
}

/// The command files admitted from a listing prefix: the visible files
/// with a supported extension, each constructed against the visible
/// sibling list `vis`.
pub open spec fn spec_admitted_files(
    path: PathV,
    prefix: Seq<FileListingV>,
    vis: Seq<FileListingV>,
) -> Seq<FileV>
    decreases prefix.len(),
{
    if prefix.len() == 0 {
        Seq::empty()
    } else {
        let rest = spec_admitted_files(path, prefix.drop_last(), vis);
        let f = prefix.last();
        if !spec_name_skipped(f.name) && is_supported(spec_command_file_type(extension_of(f.name))) {
            rest.push(spec_new_file(spec_child_file_path(path, f.name), vis))
        } else {
            rest
        }
    }
}

/// The diagnostics a listing prefix produces: one message for every
/// visible file whose extension is not supported.
pub open spec fn spec_file_diags(prefix: Seq<FileListingV>) -> Seq<Seq<char>>
    decreases prefix.len(),
{
    if prefix.len() == 0 {
        Seq::empty()
    } else {
        let rest = spec_file_diags(prefix.drop_last());
        let f = prefix.last();
        if !spec_name_skipped(f.name) && !is_supported(spec_command_file_type(extension_of(f.name))) {
            rest.push(spec_diag_message(f.name))
        } else {
            rest
        }
    }
}

/// The subtrees built from a prefix of a directory's subdirectory listing:
/// one for every visible subdirectory, in order.
pub open spec fn spec_build_sub_dirs(path: PathV, prefix: Seq<DirListingV>) -> Seq<DirV>
    decreases prefix,
{
    if prefix.len() == 0 {
        Seq::empty()
    } else {
        let rest = spec_build_sub_dirs(path, prefix.drop_last());
        let d = prefix.last();
        if !spec_name_skipped(d.name) {
            rest.push(spec_build_dir(spec_child_dir_path(path, d.name), d))
        } else {
            rest
        }
    }
}

/// The command tree built from the listing `l` of the directory at `path`:
/// hidden entries are skipped entirely, files with an unsupported extension
/// are dropped, and every admitted file carries the configuration found
/// among its visible siblings.
pub open spec fn spec_build_dir(path: PathV, l: DirListingV) -> DirV
    decreases l,
{
    DirV {
        path,
        files: spec_admitted_files(path, l.files, spec_visible_files(l.files)),
        sub_dirs: spec_build_sub_dirs(path, l.dirs),
        dir_type: spec_directory_type(spec_path_name(path)),
    }
}

/// The diagnostics building the tree from `l` emits, in emission order:
/// this directory's file diagnostics, then each visible subdirectory's,
/// recursively.
pub open spec fn spec_build_diags(l: DirListingV) -> Seq<Seq<char>>
    decreases l,
{
    spec_file_diags(l.files) + spec_sub_dir_diags(l.dirs)
}

/// The diagnostics of a prefix of a directory's subdirectory listing.
pub open spec fn spec_sub_dir_diags(prefix: Seq<DirListingV>) -> Seq<Seq<char>>
    decreases prefix,
{
    if prefix.len() == 0 {
        Seq::empty()
    } else {
        let rest = spec_sub_dir_diags(prefix.drop_last());
        let d = prefix.last();
        if !spec_name_skipped(d.name) {
            rest + spec_build_diags(d)
        } else {
            rest
        }
    }
}

/// Build the command tree for the directory at `path` from its listing,
/// appending a diagnostic for every visible file whose extension is not
/// supported.
pub fn read_directory(path: ClixPath, listing: &DirListing, diagnostics: &mut Vec<String>) -> (r:
    ClixDirectory)
    requires
        path.wf(),
        !path@.is_file,
    ensures
        r@ == spec_build_dir(path@, listing@),
        final(diagnostics).deep_view() == old(diagnostics).deep_view() + spec_build_diags(
            listing@,
        ),
    decreases *listing,
{
    let ghost path_v = path@;
    let ghost lf = listing.files@.map_values(|f: FileListing| f@);
    let ghost old_diags = diagnostics.deep_view();

    // The visible files, used as the sibling list for configuration
    // discovery.
    let mut visible: Vec<FileListing> = Vec::new();
    let mut i: usize = 0;
    while i < listing.files.len()
        invariant
            i <= listing.files.len(),
            lf == listing.files@.map_values(|f: FileListing| f@),
            visible.deep_view() == spec_visible_files(lf.take(i as int)),
        decreases listing.files.len() - i,
    {
        proof {
            assert(lf.take(i + 1).drop_last() =~= lf.take(i as int));
            assert(lf.take(i + 1).last() == lf[i as int]);
        }
        if !name_skipped(listing.files[i].name.as_str()) {
            let ghost pre = visible.deep_view();
            visible.push(listing.files[i].clone());
            proof {
                assert(visible.deep_view() =~= pre.push(lf[i as int]));
            }
        }
        i = i + 1;
    }
    proof {
        assert(lf.take(listing.files@.len() as int) =~= lf);
    }
    let ghost vis_v = visible.deep_view();

    // Admit the supported visible files, with a diagnostic for every
    // visible file that is not supported.
    let mut files: Vec<ClixFile> = Vec::new();
    let mut j: usize = 0;
    while j < listing.files.len()
        invariant
            j <= listing.files.len(),
            lf == listing.files@.map_values(|f: FileListing| f@),
            vis_v == visible.deep_view(),
            vis_v == spec_visible_files(lf),
            path.wf(),
            !path@.is_file,
            path@ == path_v,
            files@.map_values(|f: ClixFile| f@) == spec_admitted_files(
                path_v,
                lf.take(j as int),
                vis_v,
            ),
            diagnostics.deep_view() == old_diags + spec_file_diags(lf.take(j as int)),
        decreases listing.files.len() - j,
    {
        proof {
            assert(lf.take(j + 1).drop_last() =~= lf.take(j as int));
            assert(lf.take(j + 1).last() == lf[j as int]);
        }
        let entry_name = &listing.files[j].name;
        if !name_skipped(entry_name.as_str()) {
            let ext = extension_of_name(entry_name.as_str());
            let file_type = CommandFileType::from_extension(ext.as_str());
            if file_type.is_supported() {
                let mut segments = path.path().clone();
                proof {
                    assert(segments.deep_view() =~= path@.segments);
                }
                segments.push(entry_name.clone());
                proof {
                    assert(segments.deep_view() =~= path_v.segments.push(lf[j as int].name));
                }
                let child = ClixPath::new(segments, true);
                let ghost pre = files@.map_values(|f: ClixFile| f@);
                files.push(ClixFile::new(child, &visible));
                proof {
                    assert(files@.map_values(|f: ClixFile| f@) =~= pre.push(
                        spec_new_file(spec_child_file_path(path_v, lf[j as int].name), vis_v),
                    ));
                }
            } else {
                let message = entry_name.as_str().to_owned();
                let full = "unhandled file type: ".to_owned().concat(message.as_str());
                let ghost pre = diagnostics.deep_view();
                diagnostics.push(full);
                proof {
                    assert(diagnostics.deep_view() =~= pre.push(
                        spec_diag_message(lf[j as int].name),
                    ));
                }
            }
        }
        j = j + 1;
    }
    proof {
        assert(lf.take(listing.files@.len() as int) =~= lf);
    }

    // Recurse into the visible subdirectories.
    let mut sub_dirs: Vec<ClixDirectory> = Vec::new();
    let ghost ld = dir_listings_view(listing.dirs@);
    proof {
        lemma_dir_listings_view(listing.dirs@);
    }
    let mut k: usize = 0;
    while k < listing.dirs.len()
        invariant
            k <= listing.dirs.len(),
            ld == dir_listings_view(listing.dirs@),
            ld.len() == listing.dirs@.len(),
            forall|m: int| 0 <= m < ld.len() ==> ld[m] == dir_listing_view(listing.dirs@[m]),
            path.wf(),
            !path@.is_file,
            path@ == path_v,
            clix_dirs_view(sub_dirs@) == spec_build_sub_dirs(path_v, ld.take(k as int)),
            diagnostics.deep_view() == old_diags + spec_file_diags(lf) + spec_sub_dir_diags(
                ld.take(k as int),
            ),
        decreases listing.dirs.len() - k,
    {
        proof {
            assert(ld.take(k + 1).drop_last() =~= ld.take(k as int));
            assert(ld.take(k + 1).last() == ld[k as int]);
        }
        let dir_name = &listing.dirs[k].name;
        if !name_skipped(dir_name.as_str()) {
            let mut segments = path.path().clone();
            proof {
                assert(segments.deep_view() =~= path@.segments);
            }
            segments.push(dir_name.clone());
            proof {
                assert(segments.deep_view() =~= path_v.segments.push(ld[k as int].name));
            }
            let child = ClixPath::new(segments, false);
            proof {
                assert(child@ =~= spec_child_dir_path(path_v, ld[k as int].name));
                assert(decreases_to!(*listing => listing.dirs@[k as int]));
            }
            let ghost pre_seq = sub_dirs@;
            let ghost pre_dirs = clix_dirs_view(sub_dirs@);
            let sub = read_directory(child, &listing.dirs[k], diagnostics);
            sub_dirs.push(sub);
            proof {
                assert(sub_dirs@.drop_last() =~= pre_seq);
                assert(sub_dirs@.last() == sub);
                assert(clix_dirs_view(sub_dirs@) =~= pre_dirs.push(
                    spec_build_dir(spec_child_dir_path(path_v, ld[k as int].name), ld[k as int]),
                ));
                assert(diagnostics.deep_view() =~= old_diags + spec_file_diags(lf)
                    + spec_sub_dir_diags(ld.take(k + 1)));
            }
        }
        k = k + 1;
    }
    proof {
        assert(ld.take(listing.dirs@.len() as int) =~= ld);
    }

    let r = ClixDirectory::new(path, files, sub_dirs);
    proof {
        assert(r@ =~= spec_build_dir(path_v, listing@));
        assert(diagnostics.deep_view() =~= old_diags + spec_build_diags(listing@));
    }
    r
}

/// Spec-level mirror of [`ClixRepo`].
#[verifier::ext_equal]
pub struct RepoV {
    pub root: DirV,
    pub diagnostics: Seq<Seq<char>>,
}

/// The repository handle: the root of the command tree, together with the
/// diagnostics its build emitted.
#[derive(Debug)]
pub struct ClixRepo {
    root: ClixDirectory,
    diagnostics: Vec<String>,
}

impl View for ClixRepo {
    type V = RepoV;

    closed spec fn view(&self) -> RepoV {
        RepoV { root: self.root@, diagnostics: self.diagnostics.deep_view() }
    }
}

impl ClixRepo {
    /// Wrap a built command tree, with no diagnostics.
    pub fn new(root: ClixDirectory) -> (r: Self)
        ensures
            r@.root == root@,
            r@.diagnostics == Seq::<Seq<char>>::empty(),
    {
        let diagnostics: Vec<String> = Vec::new();
        proof {
            assert(diagnostics.deep_view() =~= Seq::<Seq<char>>::empty());
        }
        ClixRepo { root, diagnostics }
    }

    /// The root of the command tree.
    pub fn root_dir(&self) -> (r: &ClixDirectory)
        ensures
            r@ == self@.root,
    {
        &self.root
    }

    /// The diagnostics the build emitted, in emission order.
    pub fn diagnostics(&self) -> (r: &Vec<String>)
        ensures
            r.deep_view() == self@.diagnostics,
    {
        &self.diagnostics
    }
}

/// Build the repository rooted at `root_path` from its directory listing.
/// The tree mirrors the listing with hidden entries skipped and
/// unsupported files dropped; the diagnostics name every dropped file,
/// followed by every subcommand name the grammar compiler would skip.
pub fn load_directory(root_path: Vec<String>, listing: &DirListing) -> (r: ClixRepo)
    requires
        root_path@.len() > 0,
    ensures
        r@.root == spec_build_dir(
            PathV { segments: root_path.deep_view(), is_file: false },
            listing@,
        ),
        r@.diagnostics == spec_build_diags(listing@) + crate::command::spec_skip_diags(
            spec_build_dir(PathV { segments: root_path.deep_view(), is_file: false }, listing@),
        ),
{
    let ghost segments = root_path.deep_view();
    let ghost root_v = PathV { segments, is_file: false };
    let path = ClixPath::new(root_path, false);
    let mut diagnostics: Vec<String> = Vec::new();
    proof {
        assert(diagnostics.deep_view() =~= Seq::<Seq<char>>::empty());
    }
    let root = read_directory(path, listing, &mut diagnostics);
    proof {
        crate::laws::lemma_build_dir_wf(root_v, listing@);
    }
    crate::command::skipped_subcommand_diagnostics(&root, &mut diagnostics);
    proof {
        assert(Seq::<Seq<char>>::empty() + spec_build_diags(listing@)
            + crate::command::spec_skip_diags(spec_build_dir(root_v, listing@))
            =~= spec_build_diags(listing@) + crate::command::spec_skip_diags(
            spec_build_dir(root_v, listing@),
        ));
    }
    ClixRepo { root, diagnostics }
}

} // verus!
