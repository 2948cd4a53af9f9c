//! Resolving a parsed invocation against the command tree, and compiling
//! the tree into the grammar handed to the generic hierarchical parser.

use vstd::prelude::*;

use crate::config::{
    opt_config_view, spec_args_wf, spec_valid_arg_name, valid_arg_name, ArgumentEntry, ArgV,
    CommandConfiguration, ConfigV,
};
use crate::repo::{ClixDirectory, ClixFile, DirV, FileV, spec_path_name};
use crate::text::str_eq;

verus! {

/// One bound argument of an invocation: the flag's name and the value the
/// user supplied for it.
#[derive(Debug)]
pub struct BoundArg {
    pub name: String,
    pub value: String,
}

/// Spec-level mirror of [`BoundArg`].
pub struct BindV {
    pub name: Seq<char>,
    pub value: Seq<char>,
}

impl View for BoundArg {
    type V = BindV;

    open spec fn view(&self) -> BindV {
        BindV { name: self.name@, value: self.value@ }
    }
}

impl DeepView for BoundArg {
    type V = BindV;

    open spec fn deep_view(&self) -> BindV {
        self.view()
    }
}

impl Clone for BoundArg {
    fn clone(&self) -> (r: Self)
        ensures
            r@ == self@,
    {
        BoundArg { name: self.name.clone(), value: self.value.clone() }
    }
}

/// What the generic parser hands back: the chain of matched subcommand
/// names, ending at the leaf, and the argument values bound at the leaf.
#[derive(Debug)]
pub struct ParsedInvocation {
    pub chain: Vec<String>,
    pub bindings: Vec<BoundArg>,
}

/// Spec-level mirror of [`ParsedInvocation`].
#[verifier::ext_equal]
pub struct InvocationV {
    pub chain: Seq<Seq<char>>,
    pub bindings: Seq<BindV>,
}

impl View for ParsedInvocation {
    type V = InvocationV;

    open spec fn view(&self) -> InvocationV {
        InvocationV { chain: self.chain.deep_view(), bindings: self.bindings.deep_view() }
    }
}

/// A resolved command: the file the invocation names, and the argument
/// values bound for it.
#[derive(Debug)]
pub struct ClixCommand {
    file: ClixFile,
    command: Vec<BoundArg>,
}

/// Spec-level mirror of [`ClixCommand`].
#[verifier::ext_equal]
pub struct CommandV {
    pub file: FileV,
    pub command: Seq<BindV>,
}

impl View for ClixCommand {
    type V = CommandV;

    closed spec fn view(&self) -> CommandV {
        CommandV { file: self.file@, command: self.command.deep_view() }
    }
}

impl ClixCommand {
    /// The resolved file.
    pub fn file(&self) -> (r: &ClixFile)
        ensures
            r@ == self@.file,
    {
        &self.file
    }

    /// The argument values bound at the leaf.
    pub fn command(&self) -> (r: &Vec<BoundArg>)
        ensures
            r.deep_view() == self@.command,
    {
        &self.command
    }
}

/// Why a resolution failed: the chain named no file, or a required
/// argument was not bound.
#[derive(Debug)]
pub enum ResolutionError {
    NoSuchCommand,
    MissingRequiredArgument { name: String, command: Vec<String> },
}

/// Spec-level mirror of [`ResolutionError`].
pub enum ResolutionErrorV {
    NoSuchCommand,
    MissingRequiredArgument { name: Seq<char>, command: Seq<Seq<char>> },
}

impl View for ResolutionError {
    type V = ResolutionErrorV;

    open spec fn view(&self) -> ResolutionErrorV {
        match self {
            ResolutionError::NoSuchCommand => ResolutionErrorV::NoSuchCommand,
            ResolutionError::MissingRequiredArgument { name, command } => {
                ResolutionErrorV::MissingRequiredArgument {
                    name: name@,
                    command: command.deep_view(),
                }
            },
        }
    }
}

/// A path's components joined by `/`.
pub open spec fn spec_join_path(segments: Seq<Seq<char>>) -> Seq<char>
    decreases segments.len(),
{
    if segments.len() == 0 {
        Seq::empty()
    } else if segments.len() == 1 {
        segments.last()
    } else {
        spec_join_path(segments.drop_last()) + "/"@ + segments.last()
    }
}

/// The report a resolution failure carries.
pub open spec fn spec_resolution_message(e: ResolutionErrorV) -> Seq<char> {
    match e {
        ResolutionErrorV::NoSuchCommand => "no such command"@,
        ResolutionErrorV::MissingRequiredArgument { name, command } => "missing required argument "@
            + name + " for command "@ + spec_join_path(command),
    }
}

impl ResolutionError {
    /// The failure, reported in words: `no such command`, or
    /// `missing required argument <name> for command <path>`.
    pub fn message(&self) -> (r: String)
        ensures
            r@ == spec_resolution_message(self@),
    {
        match self {
            ResolutionError::NoSuchCommand => "no such command".to_owned(),
            ResolutionError::MissingRequiredArgument { name, command } => {
                let ghost segments = command.deep_view();
                let mut path = String::new();
                let mut i: usize = 0;
                while i < command.len()
                    invariant
                        i <= command.len(),
                        segments == command.deep_view(),
                        path@ == spec_join_path(segments.take(i as int)),
                    decreases command.len() - i,
                {
                    proof {
                        assert(segments.take(i + 1).drop_last() =~= segments.take(i as int));
                        assert(segments.take(i + 1).last() == segments[i as int]);
                    }
                    if i > 0 {
                        path.append("/");
                    }
                    path.append(command[i].as_str());
                    i = i + 1;
                }
                proof {
                    assert(segments.take(command@.len() as int) =~= segments);
                }
                let mut out = "missing required argument ".to_owned();
                out.append(name.as_str());
                out.append(" for command ");
                out.append(path.as_str());
                out
            },
        }
    }
}

/// The view of a resolution result.
pub open spec fn resolution_view(r: Result<ClixCommand, ResolutionError>) -> Result<
    CommandV,
    ResolutionErrorV,
> {
    match r {
        Ok(c) => Ok(c@),
        Err(e) => Err(e@),
    }
}

/// Is `name` bound in the invocation?
pub open spec fn spec_has_binding(binds: Seq<BindV>, name: Seq<char>) -> bool {
    exists|i: int| 0 <= i < binds.len() && binds[i].name == name
}

/// The first declared argument, in declaration order, that is required but
/// not bound.
pub open spec fn spec_first_missing_required(decls: Seq<ArgV>, binds: Seq<BindV>) -> Option<
    Seq<char>,
>
    decreases decls.len(),
{
    if decls.len() == 0 {
        None
    } else {
        match spec_first_missing_required(decls.drop_last(), binds) {
            Some(n) => Some(n),
            None => {
                let d = decls.last();
                if d.required && !spec_has_binding(binds, d.name) {
                    Some(d.name)
                } else {
                    None
                }
            },
        }
    }
}

/// The first required-but-unbound argument a configuration declares, if
/// any; a file without a configuration, or one that declares no arguments,
/// demands nothing.
pub open spec fn spec_missing_required(config: Option<ConfigV>, binds: Seq<BindV>) -> Option<
    Seq<char>,
> {
    match config {
        None => None,
        Some(c) => match c.arguments {
            None => None,
            Some(decls) => spec_first_missing_required(decls, binds),
        },
    }
}

/// The first file, in order, whose logical name is `name`.
pub open spec fn spec_find_file(files: Seq<FileV>, name: Seq<char>) -> Option<FileV>
    decreases files.len(),
{
    if files.len() == 0 {
        None
    } else {
        match spec_find_file(files.drop_last(), name) {
            Some(f) => Some(f),
            None => if spec_path_name(files.last().path) == name {
                Some(files.last())
            } else {
                None
            },
        }
    }
}

/// The first subdirectory, in order, whose logical name is `name`.
pub open spec fn spec_find_dir(dirs: Seq<DirV>, name: Seq<char>) -> Option<DirV>
    decreases dirs.len(),
{
    if dirs.len() == 0 {
        None
    } else {
        match spec_find_dir(dirs.drop_last(), name) {
            Some(d) => Some(d),
            None => if spec_path_name(dirs.last().path) == name {
                Some(dirs.last())
            } else {
                None
            },
        }
    }
}

/// A file found in a prefix is the one found in the whole sequence.
proof fn lemma_find_file_extend(files: Seq<FileV>, name: Seq<char>, i: int)
    requires
        0 <= i <= files.len(),
        spec_find_file(files.take(i), name) is Some,
    ensures
        spec_find_file(files, name) == spec_find_file(files.take(i), name),
    decreases files.len(),
{
    if i == files.len() {
        assert(files.take(i) =~= files);
    } else {
        assert(files.drop_last().take(i) =~= files.take(i));
        lemma_find_file_extend(files.drop_last(), name, i);
    }
}

/// A directory found in a prefix is the one found in the whole sequence.
proof fn lemma_find_dir_extend(dirs: Seq<DirV>, name: Seq<char>, i: int)
    requires
        0 <= i <= dirs.len(),
        spec_find_dir(dirs.take(i), name) is Some,
    ensures
        spec_find_dir(dirs, name) == spec_find_dir(dirs.take(i), name),
    decreases dirs.len(),
{
    if i == dirs.len() {
        assert(dirs.take(i) =~= dirs);
    } else {
        assert(dirs.drop_last().take(i) =~= dirs.take(i));
        lemma_find_dir_extend(dirs.drop_last(), name, i);
    }
}

/// A missing argument found in a prefix of the declarations is the one
/// found among them all.
proof fn lemma_first_missing_extend(decls: Seq<ArgV>, binds: Seq<BindV>, i: int)
    requires
        0 <= i <= decls.len(),
        spec_first_missing_required(decls.take(i), binds) is Some,
    ensures
        spec_first_missing_required(decls, binds) == spec_first_missing_required(
            decls.take(i),
            binds,
        ),
    decreases decls.len(),
{
    if i == decls.len() {
        assert(decls.take(i) =~= decls);
    } else {
        assert(decls.drop_last().take(i) =~= decls.take(i));
        lemma_first_missing_extend(decls.drop_last(), binds, i);
    }
}

/// What resolving a subcommand chain against a directory yields, walking
/// tree and chain in lockstep.  While the chain continues past the current
/// name, only subdirectories are searched; the final name of the chain
/// names a file.  A resolution that reaches a file still fails, with the
/// argument's name, when the file's configuration declares a required
/// argument the invocation does not bind.
pub open spec fn spec_walk(d: DirV, chain: Seq<Seq<char>>, binds: Seq<BindV>) -> Result<
    CommandV,
    ResolutionErrorV,
>
    decreases chain.len(),
{
    if chain.len() == 0 {
        Err(ResolutionErrorV::NoSuchCommand)
    } else if chain.len() == 1 {
        match spec_find_file(d.files, chain[0]) {
            Some(f) => match spec_missing_required(f.config, binds) {
                Some(n) => Err(
                    ResolutionErrorV::MissingRequiredArgument {
                        name: n,
                        command: f.path.segments,
                    },
                ),
                None => Ok(CommandV { file: f, command: binds }),
            },
            None => Err(ResolutionErrorV::NoSuchCommand),
        }
    } else {
        match spec_find_dir(d.sub_dirs, chain[0]) {
            Some(sub) => spec_walk(sub, chain.drop_first(), binds),
            None => Err(ResolutionErrorV::NoSuchCommand),
        }
    }
}

/// Every path in the tree has at least one component: true of every tree
/// the builder produces, and needed to read names off the nodes.
pub open spec fn files_wf(files: Seq<FileV>) -> bool {
    forall|i: int| 0 <= i < files.len() ==> (#[trigger] files[i]).path.segments.len() > 0
}

/// Well-formedness of a sequence of subtrees.
pub open spec fn dirs_wf(dirs: Seq<DirV>) -> bool
    decreases dirs,
{
    if dirs.len() == 0 {
        true
    } else {
        dirs_wf(dirs.drop_last()) && dir_tree_wf(dirs.last())
    }
}

/// Well-formedness of a command tree: every node's path has at least one
/// component.
pub open spec fn dir_tree_wf(d: DirV) -> bool
    decreases d,
{
    d.path.segments.len() > 0 && files_wf(d.files) && dirs_wf(d.sub_dirs)
}

/// The element-wise reading of [`dirs_wf`].
pub proof fn lemma_dirs_wf(dirs: Seq<DirV>)
    requires
        dirs_wf(dirs),
    ensures
        forall|i: int| 0 <= i < dirs.len() ==> dir_tree_wf(#[trigger] dirs[i]),
    decreases dirs.len(),
{
    if dirs.len() > 0 {
        lemma_dirs_wf(dirs.drop_last());
        assert(forall|i: int|
            0 <= i < dirs.len() - 1 ==> dirs.drop_last()[i] == #[trigger] dirs[i]);
    }
}

/// Is `name` bound in the invocation?
pub fn has_binding(bindings: &Vec<BoundArg>, name: &str) -> (r: bool)
    ensures
        r == spec_has_binding(bindings.deep_view(), name@),
{
    let mut i: usize = 0;
    while i < bindings.len()
        invariant
            i <= bindings.len(),
            forall|j: int| 0 <= j < i ==> bindings.deep_view()[j].name != name@,
        decreases bindings.len() - i,
    {
        if str_eq(bindings[i].name.as_str(), name) {
            proof {
                assert(bindings.deep_view()[i as int].name == name@);
            }
            return true;
        }
        i = i + 1;
    }
    false
}

/// The first argument the configuration declares as required but the
/// invocation leaves unbound.
fn first_missing_required(config: &Option<CommandConfiguration>, bindings: &Vec<BoundArg>) -> (r:
    Option<String>)
    ensures
        match r {
            Some(n) => spec_missing_required(
                opt_config_view(*config),
                bindings.deep_view(),
            ) == Some(n@),
            None => spec_missing_required(opt_config_view(*config), bindings.deep_view())
                is None,
        },
{
    let c = match config {
        None => {
            return None;
        },
        Some(c) => c,
    };
    let decls = match &c.arguments {
        None => {
            return None;
        },
        Some(decls) => decls,
    };
    let ghost decls_v = decls@.map_values(|a: ArgumentEntry| a@);
    proof {
        assert(spec_missing_required(opt_config_view(*config), bindings.deep_view())
            == spec_first_missing_required(decls_v, bindings.deep_view()));
    }
    let mut i: usize = 0;
    while i < decls.len()
        invariant
            i <= decls.len(),
            decls_v == decls@.map_values(|a: ArgumentEntry| a@),
            spec_missing_required(opt_config_view(*config), bindings.deep_view())
                == spec_first_missing_required(decls_v, bindings.deep_view()),
            spec_first_missing_required(decls_v.take(i as int), bindings.deep_view()) is None,
        decreases decls.len() - i,
    {
        proof {
            assert(decls_v.take(i + 1).drop_last() =~= decls_v.take(i as int));
            assert(decls_v.take(i + 1).last() == decls_v[i as int]);
        }
        let d = &decls[i];
        if d.required && !has_binding(bindings, d.name.as_str()) {
            proof {
                lemma_first_missing_extend(decls_v, bindings.deep_view(), i + 1);
            }
            return Some(d.name.clone());
        }
        i = i + 1;
    }
    proof {
        assert(decls_v.take(decls@.len() as int) =~= decls_v);
    }
    None
}

/// The first subdirectory whose logical name is `name`, if any.
fn find_sub_dir<'a>(sub_dirs: &'a Vec<ClixDirectory>, name: &str) -> (r: Option<
    &'a ClixDirectory,
>)
    requires
        forall|m: int|
            0 <= m < sub_dirs@.len() ==> (#[trigger] sub_dirs@[m])@.path.segments.len() > 0,
    ensures
        match r {
            Some(d) => spec_find_dir(
                sub_dirs@.map_values(|d2: ClixDirectory| d2@),
                name@,
            ) == Some(d@),
            None => spec_find_dir(sub_dirs@.map_values(|d2: ClixDirectory| d2@), name@)
                is None,
        },
{
    let ghost dirs_v = sub_dirs@.map_values(|d2: ClixDirectory| d2@);
    let mut j: usize = 0;
    while j < sub_dirs.len()
        invariant
            j <= sub_dirs.len(),
            dirs_v == sub_dirs@.map_values(|d2: ClixDirectory| d2@),
            forall|m: int|
                0 <= m < sub_dirs@.len() ==> (#[trigger] sub_dirs@[m])@.path.segments.len()
                    > 0,
            spec_find_dir(dirs_v.take(j as int), name@) is None,
        decreases sub_dirs.len() - j,
    {
        proof {
            assert(dirs_v.take(j + 1).drop_last() =~= dirs_v.take(j as int));
            assert(dirs_v.take(j + 1).last() == dirs_v[j as int]);
        }
        let sub = &sub_dirs[j];
        let sub_name = sub.get_command_name();
        if str_eq(sub_name.as_str(), name) {
            proof {
                lemma_find_dir_extend(dirs_v, name@, j + 1);
            }
            return Some(sub);
        }
        j = j + 1;
    }
    proof {
        assert(dirs_v.take(sub_dirs@.len() as int) =~= dirs_v);
    }
    None
}

/// The first file whose logical name is `name`, if any.
fn find_file<'a>(files: &'a Vec<ClixFile>, name: &str) -> (r: Option<&'a ClixFile>)
    requires
        forall|m: int| 0 <= m < files@.len() ==> (#[trigger] files@[m])@.path.segments.len() > 0,
    ensures
        match r {
            Some(f) => spec_find_file(files@.map_values(|f2: ClixFile| f2@), name@) == Some(
                f@,
            ),
            None => spec_find_file(files@.map_values(|f2: ClixFile| f2@), name@) is None,
        },
{
    let ghost files_v = files@.map_values(|f2: ClixFile| f2@);
    let mut j: usize = 0;
    while j < files.len()
        invariant
            j <= files.len(),
            files_v == files@.map_values(|f2: ClixFile| f2@),
            forall|m: int|
                0 <= m < files@.len() ==> (#[trigger] files@[m])@.path.segments.len() > 0,
            spec_find_file(files_v.take(j as int), name@) is None,
        decreases files.len() - j,
    {
        proof {
            assert(files_v.take(j + 1).drop_last() =~= files_v.take(j as int));
            assert(files_v.take(j + 1).last() == files_v[j as int]);
        }
        let file = &files[j];
        let file_name = file.get_file_name();
        if str_eq(file_name.as_str(), name) {
            proof {
                lemma_find_file_extend(files_v, name@, j + 1);
            }
            return Some(file);
        }
        j = j + 1;
    }
    proof {
        assert(files_v.take(files@.len() as int) =~= files_v);
    }
    None
}

/// Resolve a parsed invocation against the tree rooted at `clix_dir`:
/// follow the chain down the subdirectories, find the file the final name
/// names, and check its required arguments — exactly the outcome
/// [`spec_walk`] describes.
pub fn walk_repo(invocation: &ParsedInvocation, clix_dir: &ClixDirectory) -> (r: Result<
    ClixCommand,
    ResolutionError,
>)
    requires
        dir_tree_wf(clix_dir@),
    ensures
        resolution_view(r) == spec_walk(clix_dir@, invocation@.chain, invocation@.bindings),
{
    let ghost chain_v = invocation@.chain;
    let ghost binds_v = invocation@.bindings;
    let n = invocation.chain.len();
    if n == 0 {
        return Err(ResolutionError::NoSuchCommand);
    }
    let mut cur: &ClixDirectory = clix_dir;
    let mut i: usize = 0;
    proof {
        assert(chain_v.skip(0) =~= chain_v);
    }
    while i < n - 1
        invariant
            i < n,
            n == chain_v.len(),
            chain_v == invocation@.chain,
            binds_v == invocation@.bindings,
            dir_tree_wf(cur@),
            spec_walk(clix_dir@, chain_v, binds_v) == spec_walk(
                cur@,
                chain_v.skip(i as int),
                binds_v,
            ),
        decreases n - i,
    {
        let name = &invocation.chain[i];
        let sub_dirs = cur.sub_dirs();
        let ghost dirs_v = cur@.sub_dirs;
        proof {
            lemma_dirs_wf(dirs_v);
            assert(sub_dirs@.map_values(|d2: ClixDirectory| d2@) =~= dirs_v);
        }
        match find_sub_dir(sub_dirs, name.as_str()) {
            Some(sub) => {
                proof {
                    assert(spec_find_dir(dirs_v, chain_v[i as int]) == Some(sub@));
                    assert(chain_v.skip(i as int).drop_first() =~= chain_v.skip(i + 1));
                    assert(exists|m: int|
                        0 <= m < dirs_v.len() && #[trigger] dirs_v[m] == sub@) by {
                        lemma_find_dir_is_element(dirs_v, chain_v[i as int]);
                    }
                }
                cur = sub;
                i = i + 1;
            },
            None => {
                return Err(ResolutionError::NoSuchCommand);
            },
        }
    }
    // The chain ends here: its final name names a file of `cur`.
    let name = &invocation.chain[i];
    let files = cur.files();
    let ghost files_v = cur@.files;
    proof {
        assert(files@.map_values(|f2: ClixFile| f2@) =~= files_v);
        assert(chain_v.skip(i as int).len() == 1);
        assert(chain_v.skip(i as int)[0] == chain_v[i as int]);
    }
    match find_file(files, name.as_str()) {
        None => Err(ResolutionError::NoSuchCommand),
        Some(file) => {
            let config = file.get_config();
            match first_missing_required(&config, &invocation.bindings) {
                Some(missing) => {
                    let command = file.file_path().path().clone();
                    proof {
                        assert(command.deep_view() =~= file@.path.segments);
                    }
                    Err(ResolutionError::MissingRequiredArgument { name: missing, command })
                },
                None => {
                    let bindings = invocation.bindings.clone();
                    proof {
                        assert(bindings.deep_view() =~= binds_v);
                    }
                    let r = ClixCommand { file: file.clone(), command: bindings };
                    proof {
                        assert(r@ =~= (CommandV { file: file@, command: binds_v }));
                    }
                    Ok(r)
                },
            }
        },
    }
}

/// One node of the grammar handed to the generic hierarchical parser: a
/// named subcommand, the value-taking flags it accepts, and its child
/// subcommands.
#[derive(Debug)]
pub struct CommandSpec {
    pub name: String,
    pub arguments: Vec<ArgumentEntry>,
    pub subcommands: Vec<CommandSpec>,
}

/// Spec-level mirror of [`CommandSpec`].
#[verifier::ext_equal]
pub struct CommandSpecV {
    pub name: Seq<char>,
    pub arguments: Seq<ArgV>,
    pub subcommands: Seq<CommandSpecV>,
}

/// The view of one grammar node.
pub open spec fn command_spec_view(c: CommandSpec) -> CommandSpecV
    decreases c,
{
    CommandSpecV {
        name: c.name@,
        arguments: c.arguments@.map_values(|a: ArgumentEntry| a@),
        subcommands: command_specs_view(c.subcommands@),
    }
}

/// The views of a sequence of grammar nodes.
pub open spec fn command_specs_view(s: Seq<CommandSpec>) -> Seq<CommandSpecV>
    decreases s,
{
    if s.len() == 0 {
        Seq::empty()
    } else {
        command_specs_view(s.drop_last()).push(command_spec_view(s.last()))
    }
}

impl View for CommandSpec {
    type V = CommandSpecV;

    open spec fn view(&self) -> CommandSpecV {
        command_spec_view(*self)
    }
}

/// The element-wise reading of [`command_specs_view`].
pub proof fn lemma_command_specs_view(s: Seq<CommandSpec>)
    ensures
        command_specs_view(s).len() == s.len(),
        forall|i: int|
            0 <= i < s.len() ==> #[trigger] command_specs_view(s)[i] == command_spec_view(s[i]),
    decreases s.len(),
{
    if s.len() > 0 {
        lemma_command_specs_view(s.drop_last());
    }
}

/// Does the list already hold a subcommand of this name?
pub open spec fn spec_has_subcommand(subs: Seq<CommandSpecV>, name: Seq<char>) -> bool {
    exists|i: int| 0 <= i < subs.len() && (#[trigger] subs[i]).name == name
}

/// The flags a file's subcommand accepts: its configuration's argument
/// declarations, or none.
pub open spec fn spec_file_arguments(f: FileV) -> Seq<ArgV> {
    match f.config {
        None => Seq::empty(),
        Some(c) => match c.arguments {
            None => Seq::empty(),
            Some(decls) => decls,
        },
    }
}

/// Is `name` already declared among these?
pub open spec fn spec_arg_name_taken(decls: Seq<ArgV>, name: Seq<char>) -> bool {
    exists|i: int| 0 <= i < decls.len() && (#[trigger] decls[i]).name == name
}

/// The declarations the grammar keeps of a list: the first declaration of
/// each usable name; a later duplicate, a reserved or an unusable name is
/// dropped, since the parser layer would refuse it.  On a record that
/// satisfies the record invariant — every record the parser produces —
/// this is the identity.
pub open spec fn spec_sanitize_arguments(decls: Seq<ArgV>) -> Seq<ArgV>
    decreases decls.len(),
{
    if decls.len() == 0 {
        Seq::empty()
    } else {
        let rest = spec_sanitize_arguments(decls.drop_last());
        let d = decls.last();
        if spec_valid_arg_name(d.name) && !spec_arg_name_taken(rest, d.name) {
            rest.push(d)
        } else {
            rest
        }
    }
}

/// Sanitization yields a list satisfying the record invariant.
pub proof fn lemma_sanitize_arguments_wf(decls: Seq<ArgV>)
    ensures
        spec_args_wf(spec_sanitize_arguments(decls)),
    decreases decls.len(),
{
    if decls.len() > 0 {
        lemma_sanitize_arguments_wf(decls.drop_last());
        let rest = spec_sanitize_arguments(decls.drop_last());
        let cur = spec_sanitize_arguments(decls);
        let d = decls.last();
        if spec_valid_arg_name(d.name) && !spec_arg_name_taken(rest, d.name) {
            assert(cur == rest.push(d));
            assert forall|i: int| 0 <= i < cur.len() implies spec_valid_arg_name(
                (#[trigger] cur[i]).name,
            ) by {
                if i < rest.len() {
                    assert(cur[i] == rest[i]);
                } else {
                    assert(cur[i] == d);
                }
            }
            assert forall|i: int, j: int| 0 <= i < j < cur.len() implies (
            #[trigger] cur[i]).name != (#[trigger] cur[j]).name by {
                if j < rest.len() {
                    assert(cur[i] == rest[i]);
                    assert(cur[j] == rest[j]);
                } else {
                    assert(cur[i] == rest[i]);
                    assert(cur[j] == d);
                    if cur[i].name == d.name {
                        assert(spec_arg_name_taken(rest, d.name));
                        assert(false);
                    }
                }
            }
        } else {
            assert(cur == rest);
        }
    }
}

/// On a list satisfying the record invariant, sanitization keeps every
/// declaration: the grammar's flags are exactly the record's.
pub proof fn lemma_sanitize_arguments_identity(decls: Seq<ArgV>)
    requires
        spec_args_wf(decls),
    ensures
        spec_sanitize_arguments(decls) == decls,
    decreases decls.len(),
{
    if decls.len() == 0 {
        assert(spec_sanitize_arguments(decls) =~= decls);
    } else {
        assert(spec_args_wf(decls.drop_last())) by {
            assert forall|i: int| 0 <= i < decls.drop_last().len() implies spec_valid_arg_name(
                (#[trigger] decls.drop_last()[i]).name,
            ) by {
                assert(decls.drop_last()[i] == decls[i]);
            }
            assert forall|i: int, j: int| 0 <= i < j < decls.drop_last().len() implies (
            #[trigger] decls.drop_last()[i]).name != (#[trigger] decls.drop_last()[j]).name by {
                assert(decls.drop_last()[i] == decls[i]);
                assert(decls.drop_last()[j] == decls[j]);
            }
        }
        lemma_sanitize_arguments_identity(decls.drop_last());
        let d = decls.last();
        assert(d == decls[decls.len() - 1]);
        assert(spec_valid_arg_name(d.name));
        assert(!spec_arg_name_taken(decls.drop_last(), d.name)) by {
            if spec_arg_name_taken(decls.drop_last(), d.name) {
                let i = choose|i: int|
                    0 <= i < decls.drop_last().len() && (#[trigger] decls.drop_last()[i]).name
                        == d.name;
                assert(decls[i] == decls.drop_last()[i]);
                assert(decls[i].name != decls[decls.len() - 1].name);
                assert(false);
            }
        }
        assert(spec_sanitize_arguments(decls) == decls.drop_last().push(d));
        assert(decls.drop_last().push(d) =~= decls);
    }
}

/// The grammar leaf of one command file: its configuration's usable
/// declarations as flags.
pub open spec fn spec_file_command(f: FileV) -> CommandSpecV {
    CommandSpecV {
        name: spec_path_name(f.path),
        arguments: spec_sanitize_arguments(spec_file_arguments(f)),
        subcommands: Seq::empty(),
    }
}

/// Append, left to right, a subcommand for every file of the prefix whose
/// name is usable and not already taken.
pub open spec fn spec_add_file_commands(acc: Seq<CommandSpecV>, files: Seq<FileV>) -> Seq<
    CommandSpecV,
>
    decreases files.len(),
{
    if files.len() == 0 {
        acc
    } else {
        let rest = spec_add_file_commands(acc, files.drop_last());
        let c = spec_file_command(files.last());
        if c.name == "help"@ || spec_has_subcommand(rest, c.name) {
            rest
        } else {
            rest.push(c)
        }
    }
}

/// Append, left to right, a subcommand for every subdirectory of the
/// prefix whose name is usable and not already taken.
pub open spec fn spec_add_dir_commands(acc: Seq<CommandSpecV>, dirs: Seq<DirV>) -> Seq<
    CommandSpecV,
>
    decreases dirs,
{
    if dirs.len() == 0 {
        acc
    } else {
        let rest = spec_add_dir_commands(acc, dirs.drop_last());
        let c = spec_compile(dirs.last());
        if c.name == "help"@ || spec_has_subcommand(rest, c.name) {
            rest
        } else {
            rest.push(c)
        }
    }
}

/// The grammar compiled from a command tree: an order-preserving image of
/// the tree, one subcommand per file (its flags taken from its
/// configuration) and one per subdirectory, files first.
///
/// Two deliberate departures from a literal one-subcommand-per-entry
/// image, both diagnosed (see [`spec_skip_diags`]): a subcommand whose
/// name an earlier sibling already took is skipped — the parser layer
/// refuses duplicate sibling names outright, and resolution picks the
/// first match either way — and a subcommand named `help` is skipped,
/// since the parser layer reserves that name for its built-in help.
pub open spec fn spec_compile(d: DirV) -> CommandSpecV
    decreases d,
{
    CommandSpecV {
        name: spec_path_name(d.path),
        arguments: Seq::empty(),
        subcommands: spec_add_dir_commands(
            spec_add_file_commands(Seq::empty(), d.files),
            d.sub_dirs,
        ),
    }
}

/// A set of sibling subcommands the parser layer accepts: names unique,
/// none the reserved `help`.
pub open spec fn spec_subcommands_admissible(subs: Seq<CommandSpecV>) -> bool {
    &&& forall|i: int| 0 <= i < subs.len() ==> (#[trigger] subs[i]).name != "help"@
    &&& forall|i: int, j: int|
        0 <= i < j < subs.len() ==> (#[trigger] subs[i]).name != (#[trigger] subs[j]).name
}

/// A grammar the parser layer accepts without complaint: every command's
/// argument names usable and unique, every sibling set admissible, at
/// every depth.  On a grammar violating this the parser layer aborts a
/// debug build.
pub open spec fn spec_grammar_wf(g: CommandSpecV) -> bool
    decreases g,
{
    &&& spec_args_wf(g.arguments)
    &&& spec_subcommands_admissible(g.subcommands)
    &&& spec_grammars_wf(g.subcommands)
}

/// Well-formedness of a sequence of grammar nodes.
pub open spec fn spec_grammars_wf(subs: Seq<CommandSpecV>) -> bool
    decreases subs,
{
    if subs.len() == 0 {
        true
    } else {
        spec_grammars_wf(subs.drop_last()) && spec_grammar_wf(subs.last())
    }
}

/// Appending file subcommands keeps the sibling set admissible and
/// well-formed.
proof fn lemma_add_file_commands_wf(acc: Seq<CommandSpecV>, files: Seq<FileV>)
    requires
        spec_subcommands_admissible(acc),
        spec_grammars_wf(acc),
    ensures
        spec_subcommands_admissible(spec_add_file_commands(acc, files)),
        spec_grammars_wf(spec_add_file_commands(acc, files)),
    decreases files.len(),
{
    if files.len() > 0 {
        lemma_add_file_commands_wf(acc, files.drop_last());
        let rest = spec_add_file_commands(acc, files.drop_last());
        let cur = spec_add_file_commands(acc, files);
        let c = spec_file_command(files.last());
        if c.name == "help"@ || spec_has_subcommand(rest, c.name) {
            assert(cur == rest);
        } else {
            assert(cur == rest.push(c));
            lemma_sanitize_arguments_wf(spec_file_arguments(files.last()));
            assert(spec_grammar_wf(c)) by {
                assert(spec_grammars_wf(Seq::<CommandSpecV>::empty()));
            }
            lemma_admissible_push(rest, c);
            assert(cur.drop_last() =~= rest);
            assert(cur.last() == c);
        }
    }
}

/// Appending subdirectory subcommands keeps the sibling set admissible
/// and well-formed.
proof fn lemma_add_dir_commands_wf(acc: Seq<CommandSpecV>, dirs: Seq<DirV>)
    requires
        spec_subcommands_admissible(acc),
        spec_grammars_wf(acc),
    ensures
        spec_subcommands_admissible(spec_add_dir_commands(acc, dirs)),
        spec_grammars_wf(spec_add_dir_commands(acc, dirs)),
    decreases dirs,
{
    if dirs.len() > 0 {
        lemma_add_dir_commands_wf(acc, dirs.drop_last());
        let rest = spec_add_dir_commands(acc, dirs.drop_last());
        let cur = spec_add_dir_commands(acc, dirs);
        let c = spec_compile(dirs.last());
        if c.name == "help"@ || spec_has_subcommand(rest, c.name) {
            assert(cur == rest);
        } else {
            assert(cur == rest.push(c));
            lemma_compile_grammar_wf(dirs.last());
            lemma_admissible_push(rest, c);
            assert(cur.drop_last() =~= rest);
            assert(cur.last() == c);
        }
    }
}

/// Pushing a fresh, non-reserved name keeps a sibling set admissible.
proof fn lemma_admissible_push(rest: Seq<CommandSpecV>, c: CommandSpecV)
    requires
        spec_subcommands_admissible(rest),
        c.name != "help"@,
        !spec_has_subcommand(rest, c.name),
    ensures
        spec_subcommands_admissible(rest.push(c)),
{
    let cur = rest.push(c);
    assert forall|i: int| 0 <= i < cur.len() implies (#[trigger] cur[i]).name != "help"@ by {
        if i < rest.len() {
            assert(cur[i] == rest[i]);
        } else {
            assert(cur[i] == c);
        }
    }
    assert forall|i: int, j: int| 0 <= i < j < cur.len() implies (#[trigger] cur[i]).name != (
    #[trigger] cur[j]).name by {
        if j < rest.len() {
            assert(cur[i] == rest[i]);
            assert(cur[j] == rest[j]);
        } else {
            assert(cur[i] == rest[i]);
            assert(cur[j] == c);
            if cur[i].name == c.name {
                assert(spec_has_subcommand(rest, c.name));
                assert(false);
            }
        }
    }
}

/// Every compiled grammar is one the parser layer accepts: the compiler's
/// sanitization and skips leave nothing the parser would refuse.
pub proof fn lemma_compile_grammar_wf(d: DirV)
    ensures
        spec_grammar_wf(spec_compile(d)),
    decreases d,
{
    assert(spec_subcommands_admissible(Seq::<CommandSpecV>::empty()));
    assert(spec_grammars_wf(Seq::<CommandSpecV>::empty()));
    lemma_add_file_commands_wf(Seq::empty(), d.files);
    lemma_add_dir_commands_wf(spec_add_file_commands(Seq::empty(), d.files), d.sub_dirs);
}

/// The diagnostic naming a subcommand skipped over a name an earlier
/// sibling took.
pub open spec fn spec_duplicate_message(name: Seq<char>) -> Seq<char> {
    "duplicate command name: "@ + name
}

/// The diagnostic naming a subcommand skipped over a reserved name.
pub open spec fn spec_reserved_message(name: Seq<char>) -> Seq<char> {
    "reserved command name: "@ + name
}

/// The diagnostics the compiler emits for a prefix of a directory's
/// files: one entry per skipped subcommand, in order.
pub open spec fn spec_file_skip_diags(acc: Seq<CommandSpecV>, files: Seq<FileV>) -> Seq<
    Seq<char>,
>
    decreases files.len(),
{
    if files.len() == 0 {
        Seq::empty()
    } else {
        let rest = spec_file_skip_diags(acc, files.drop_last());
        let prior = spec_add_file_commands(acc, files.drop_last());
        let c = spec_file_command(files.last());
        if c.name == "help"@ {
            rest.push(spec_reserved_message(c.name))
        } else if spec_has_subcommand(prior, c.name) {
            rest.push(spec_duplicate_message(c.name))
        } else {
            rest
        }
    }
}

/// The diagnostics the compiler emits for a prefix of a directory's
/// subdirectories: each subtree's own diagnostics, then the entry for the
/// subtree's name if it is skipped.
pub open spec fn spec_dir_skip_diags(acc: Seq<CommandSpecV>, dirs: Seq<DirV>) -> Seq<Seq<char>>
    decreases dirs,
{
    if dirs.len() == 0 {
        Seq::empty()
    } else {
        let rest = spec_dir_skip_diags(acc, dirs.drop_last());
        let prior = spec_add_dir_commands(acc, dirs.drop_last());
        let name = spec_path_name(dirs.last().path);
        let own = if name == "help"@ {
            seq![spec_reserved_message(name)]
        } else if spec_has_subcommand(prior, name) {
            seq![spec_duplicate_message(name)]
        } else {
            Seq::empty()
        };
        rest + spec_skip_diags(dirs.last()) + own
    }
}

/// The diagnostics compiling this tree's grammar emits: one entry for
/// every subcommand skipped over a reserved or duplicated name, files
/// first, subdirectories after, in compilation order.
pub open spec fn spec_skip_diags(d: DirV) -> Seq<Seq<char>>
    decreases d,
{
    spec_file_skip_diags(Seq::empty(), d.files) + spec_dir_skip_diags(
        spec_add_file_commands(Seq::empty(), d.files),
        d.sub_dirs,
    )
}

/// Is a subcommand of this name already present?
fn has_subcommand(subs: &Vec<CommandSpec>, name: &str) -> (r: bool)
    ensures
        r == spec_has_subcommand(command_specs_view(subs@), name@),
{
    proof {
        lemma_command_specs_view(subs@);
    }
    let mut i: usize = 0;
    while i < subs.len()
        invariant
            i <= subs.len(),
            command_specs_view(subs@).len() == subs@.len(),
            forall|j: int|
                0 <= j < subs@.len() ==> #[trigger] command_specs_view(subs@)[j]
                    == command_spec_view(subs@[j]),
            forall|j: int| 0 <= j < i ==> command_specs_view(subs@)[j].name != name@,
        decreases subs.len() - i,
    {
        if str_eq(subs[i].name.as_str(), name) {
            proof {
                assert(command_specs_view(subs@)[i as int].name == name@);
            }
            return true;
        }
        i = i + 1;
    }
    false
}

/// Is `name` already declared among these?
fn arg_name_taken(decls: &Vec<ArgumentEntry>, name: &str) -> (r: bool)
    ensures
        r == spec_arg_name_taken(decls@.map_values(|a: ArgumentEntry| a@), name@),
{
    let ghost decls_v = decls@.map_values(|a: ArgumentEntry| a@);
    let mut i: usize = 0;
    while i < decls.len()
        invariant
            i <= decls.len(),
            decls_v == decls@.map_values(|a: ArgumentEntry| a@),
            forall|k: int| 0 <= k < i ==> (#[trigger] decls_v[k]).name != name@,
        decreases decls.len() - i,
    {
        if str_eq(decls[i].name.as_str(), name) {
            proof {
                assert(decls_v[i as int].name == name@);
            }
            return true;
        }
        i = i + 1;
    }
    false
}

/// Keep the first declaration of each usable name.
fn sanitize_arguments(decls: Vec<ArgumentEntry>) -> (r: Vec<ArgumentEntry>)
    ensures
        r@.map_values(|a: ArgumentEntry| a@) == spec_sanitize_arguments(
            decls@.map_values(|a: ArgumentEntry| a@),
        ),
{
    let ghost decls_v = decls@.map_values(|a: ArgumentEntry| a@);
    let mut out: Vec<ArgumentEntry> = Vec::new();
    proof {
        assert(out@.map_values(|a: ArgumentEntry| a@) =~= spec_sanitize_arguments(
            decls_v.take(0),
        ));
    }
    let mut i: usize = 0;
    while i < decls.len()
        invariant
            i <= decls.len(),
            decls_v == decls@.map_values(|a: ArgumentEntry| a@),
            out@.map_values(|a: ArgumentEntry| a@) == spec_sanitize_arguments(
                decls_v.take(i as int),
            ),
        decreases decls.len() - i,
    {
        proof {
            assert(decls_v.take(i + 1).drop_last() =~= decls_v.take(i as int));
            assert(decls_v.take(i + 1).last() == decls_v[i as int]);
        }
        let d = &decls[i];
        if valid_arg_name(d.name.as_str()) && !arg_name_taken(&out, d.name.as_str()) {
            let ghost pre = out@.map_values(|a: ArgumentEntry| a@);
            out.push(d.clone());
            proof {
                assert(out@.drop_last() =~= out@.subrange(0, out@.len() - 1));
                assert(out@.map_values(|a: ArgumentEntry| a@) =~= pre.push(
                    decls_v[i as int],
                ));
            }
        }
        i = i + 1;
    }
    proof {
        assert(decls_v.take(decls@.len() as int) =~= decls_v);
    }
    out
}

/// Compile one directory, appending a diagnostic for every subcommand
/// skipped over a reserved or duplicated name.
fn compile_command(dir: &ClixDirectory, diagnostics: &mut Vec<String>) -> (r: CommandSpec)
    requires
        dir_tree_wf(dir@),
    ensures
        r@ == spec_compile(dir@),
        final(diagnostics).deep_view() == old(diagnostics).deep_view() + spec_skip_diags(dir@),
    decreases *dir,
{
    let name = dir.get_command_name();
    let ghost old_diags = diagnostics.deep_view();
    let mut subcommands: Vec<CommandSpec> = Vec::new();

    let files = dir.files();
    let ghost files_v = dir@.files;
    let mut j: usize = 0;
    while j < files.len()
        invariant
            j <= files.len(),
            files@.len() == files_v.len(),
            forall|m: int| 0 <= m < files_v.len() ==> #[trigger] files@[m]@ == files_v[m],
            files_wf(files_v),
            command_specs_view(subcommands@) == spec_add_file_commands(
                Seq::empty(),
                files_v.take(j as int),
            ),
            diagnostics.deep_view() == old_diags + spec_file_skip_diags(
                Seq::empty(),
                files_v.take(j as int),
            ),
        decreases files.len() - j,
    {
        proof {
            assert(files_v.take(j + 1).drop_last() =~= files_v.take(j as int));
            assert(files_v.take(j + 1).last() == files_v[j as int]);
        }
        let file = &files[j];
        let file_name = file.get_file_name();
        if str_eq(file_name.as_str(), "help") {
            let message = "reserved command name: ".to_owned().concat(file_name.as_str());
            let ghost pre = diagnostics.deep_view();
            diagnostics.push(message);
            proof {
                assert(diagnostics.deep_view() =~= pre.push(
                    spec_reserved_message(spec_path_name(files_v[j as int].path)),
                ));
            }
        } else if has_subcommand(&subcommands, file_name.as_str()) {
            let message = "duplicate command name: ".to_owned().concat(file_name.as_str());
            let ghost pre = diagnostics.deep_view();
            diagnostics.push(message);
            proof {
                assert(diagnostics.deep_view() =~= pre.push(
                    spec_duplicate_message(spec_path_name(files_v[j as int].path)),
                ));
            }
        } else {
            let raw: Vec<ArgumentEntry> = match file.get_config() {
                None => Vec::new(),
                Some(cfg) => match cfg.arguments {
                    None => Vec::new(),
                    Some(decls) => decls,
                },
            };
            proof {
                assert(raw@.map_values(|a: ArgumentEntry| a@) =~= spec_file_arguments(
                    files_v[j as int],
                ));
            }
            let arguments = sanitize_arguments(raw);
            let ghost pre = subcommands@;
            let leaf = CommandSpec { name: file_name, arguments, subcommands: Vec::new() };
            proof {
                assert(command_specs_view(leaf.subcommands@) =~= Seq::<CommandSpecV>::empty());
                assert(leaf@ =~= spec_file_command(files_v[j as int]));
            }
            subcommands.push(leaf);
            proof {
                assert(subcommands@.drop_last() =~= pre);
                assert(command_specs_view(subcommands@) =~= command_specs_view(pre).push(
                    spec_file_command(files_v[j as int]),
                ));
            }
        }
        j = j + 1;
    }
    proof {
        assert(files_v.take(files@.len() as int) =~= files_v);
    }
    let ghost file_part = spec_add_file_commands(Seq::empty(), files_v);
    let ghost file_diags = spec_file_skip_diags(Seq::empty(), files_v);

    let sub_dirs = dir.sub_dirs();
    let ghost dirs_v = dir@.sub_dirs;
    proof {
        lemma_dirs_wf(dirs_v);
    }
    let mut k: usize = 0;
    while k < sub_dirs.len()
        invariant
            k <= sub_dirs.len(),
            sub_dirs@.len() == dirs_v.len(),
            forall|m: int| 0 <= m < dirs_v.len() ==> #[trigger] sub_dirs@[m]@ == dirs_v[m],
            forall|m: int| 0 <= m < dirs_v.len() ==> dir_tree_wf(#[trigger] dirs_v[m]),
            forall|m: int|
                0 <= m < sub_dirs@.len() ==> decreases_to!(*dir => #[trigger] sub_dirs@[m]),
            command_specs_view(subcommands@) == spec_add_dir_commands(
                file_part,
                dirs_v.take(k as int),
            ),
            diagnostics.deep_view() == old_diags + file_diags + spec_dir_skip_diags(
                file_part,
                dirs_v.take(k as int),
            ),
        decreases sub_dirs.len() - k,
    {
        proof {
            assert(dirs_v.take(k + 1).drop_last() =~= dirs_v.take(k as int));
            assert(dirs_v.take(k + 1).last() == dirs_v[k as int]);
        }
        let sub = &sub_dirs[k];
        let ghost pre_diags = diagnostics.deep_view();
        let compiled = compile_command(sub, diagnostics);
        if str_eq(compiled.name.as_str(), "help") {
            let message = "reserved command name: ".to_owned().concat(compiled.name.as_str());
            let ghost pre = diagnostics.deep_view();
            diagnostics.push(message);
            proof {
                assert(diagnostics.deep_view() =~= pre.push(
                    spec_reserved_message(spec_path_name(dirs_v[k as int].path)),
                ));
                assert(diagnostics.deep_view() =~= old_diags + file_diags
                    + spec_dir_skip_diags(file_part, dirs_v.take(k + 1)));
            }
        } else if has_subcommand(&subcommands, compiled.name.as_str()) {
            let message = "duplicate command name: ".to_owned().concat(compiled.name.as_str());
            let ghost pre = diagnostics.deep_view();
            diagnostics.push(message);
            proof {
                assert(diagnostics.deep_view() =~= pre.push(
                    spec_duplicate_message(spec_path_name(dirs_v[k as int].path)),
                ));
                assert(diagnostics.deep_view() =~= old_diags + file_diags
                    + spec_dir_skip_diags(file_part, dirs_v.take(k + 1)));
            }
        } else {
            let ghost pre = subcommands@;
            subcommands.push(compiled);
            proof {
                assert(subcommands@.drop_last() =~= pre);
                assert(command_specs_view(subcommands@) =~= command_specs_view(pre).push(
                    spec_compile(dirs_v[k as int]),
                ));
                assert(diagnostics.deep_view() =~= old_diags + file_diags
                    + spec_dir_skip_diags(file_part, dirs_v.take(k + 1)));
            }
        }
        k = k + 1;
    }
    proof {
        assert(dirs_v.take(sub_dirs@.len() as int) =~= dirs_v);
        assert(old_diags + file_diags + spec_dir_skip_diags(file_part, dirs_v) =~= old_diags
            + spec_skip_diags(dir@));
    }

    let r = CommandSpec { name, arguments: Vec::new(), subcommands };
    proof {
        assert(r.arguments@.map_values(|a: ArgumentEntry| a@) =~= Seq::<ArgV>::empty());
        assert(r@ =~= spec_compile(dir@));
    }
    r
}

/// Compile a command tree into the grammar for the generic hierarchical
/// parser.
pub fn create_command(dir: &ClixDirectory) -> (r: CommandSpec)
    requires
        dir_tree_wf(dir@),
    ensures
        r@ == spec_compile(dir@),
{
    let mut diagnostics: Vec<String> = Vec::new();
    compile_command(dir, &mut diagnostics)
}

/// Append the diagnostics compiling this tree's grammar would emit: one
/// entry for every subcommand skipped over a reserved or duplicated name.
pub fn skipped_subcommand_diagnostics(dir: &ClixDirectory, diagnostics: &mut Vec<String>)
    requires
        dir_tree_wf(dir@),
    ensures
        final(diagnostics).deep_view() == old(diagnostics).deep_view() + spec_skip_diags(dir@),
{
    let _ = compile_command(dir, diagnostics);
}

/// A directory that is found is an element of the sequence searched.
proof fn lemma_find_dir_is_element(dirs: Seq<DirV>, name: Seq<char>)
    requires
        spec_find_dir(dirs, name) is Some,
    ensures
        exists|m: int|
            0 <= m < dirs.len() && #[trigger] dirs[m] == spec_find_dir(dirs, name)->Some_0,
    decreases dirs.len(),
{
    if dirs.len() > 0 {
        if spec_find_dir(dirs.drop_last(), name) is Some {
            lemma_find_dir_is_element(dirs.drop_last(), name);
            let m = choose|m: int|
                0 <= m < dirs.drop_last().len() && #[trigger] dirs.drop_last()[m]
                    == spec_find_dir(dirs.drop_last(), name)->Some_0;
            assert(dirs[m] == dirs.drop_last()[m]);
        } else {
            assert(dirs[dirs.len() - 1] == dirs.last());
        }
    }
}

} // verus!
