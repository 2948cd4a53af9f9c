//! The bridge to `clap`, the generic hierarchical argument parser: the
//! compiled grammar is turned into a `clap::Command`, `argv` is parsed
//! under it, and the parse result is read back as a plain
//! [`ParsedInvocation`] and resolved against the tree.
//!
//! `clap`'s parse is deterministic in the grammar and the arguments
//! alone, so its outcome is named ([`spec_clap_parse`]) and the whole
//! pipeline's result is fixed by its contract: parse, then resolve,
//! exactly as [`spec_pipeline`] says.

use vstd::prelude::*;

use crate::command::{
    create_command, dir_tree_wf, lemma_compile_grammar_wf, resolution_view, spec_compile,
    spec_grammar_wf, spec_walk, BoundArg, ClixCommand, CommandSpec, CommandSpecV, CommandV,
    InvocationV, ParsedInvocation, ResolutionError, ResolutionErrorV, walk_repo,
};
use crate::repo::{ClixFile, ClixRepo, DirV};

verus! {

#[verifier::external_type_specification]
#[verifier::external_body]
pub struct ExClapCommand(clap::Command);

/// What parsing `argv` (program name first) under a grammar yields: the
/// matched subcommand chain and the values bound at its leaf, or `None`
/// when the parser rejects the input (an unknown name, a help request, a
/// missing value).  The result is a function of the grammar and the
/// arguments alone.
pub uninterp spec fn spec_clap_parse(grammar: CommandSpecV, argv: Seq<Seq<char>>) -> Option<
    InvocationV,
>;

/// The view of an optional parsed invocation.
pub open spec fn invocation_result_view(r: Option<ParsedInvocation>) -> Option<InvocationV> {
    match r {
        None => None,
        Some(inv) => Some(inv@),
    }
}

/// Relies on `clap`'s builder API (`Command::new`, `Command::arg`,
/// `Arg::new`, `Arg::long`, `Command::subcommand`): the `clap` command a
/// grammar node denotes — one value-taking `--name` flag per declared
/// argument and one child per subcommand, in grammar order.  Building
/// alone runs none of `clap`'s grammar checks, so this is total; parsing
/// under the result is what demands a well-formed grammar.
#[verifier::external_body]
fn clap_command_of(grammar: &CommandSpec) -> clap::Command {
    let mut command = clap::Command::new(grammar.name.clone());
    for arg in &grammar.arguments {
        command = command.arg(clap::Arg::new(arg.name.clone()).long(arg.name.clone()));
    }
    for sub in &grammar.subcommands {
        command = command.subcommand(clap_command_of(sub));
    }
    command
}

/// Relies on `clap::Command::try_get_matches_from` and on the
/// `ArgMatches` accessors `subcommand`, `ids` and
/// `try_get_one::<String>`: parses `argv` under the grammar's command and
/// reads the matched chain and the leaf's bound values back out as plain
/// data.  Any parse error — an unknown name, a help request — becomes
/// `None`.  The grammar must be well-formed: on one with duplicate or
/// reserved names `clap` aborts a debug build ([`spec_grammar_wf`]
/// excludes exactly those, and every compiled grammar satisfies it by
/// [`lemma_compile_grammar_wf`]).
#[verifier::external_body]
fn clap_parse(grammar: &CommandSpec, argv: Vec<String>) -> (r: Option<ParsedInvocation>)
    requires
        spec_grammar_wf(grammar@),
    ensures
        invocation_result_view(r) == spec_clap_parse(grammar@, argv.deep_view()),
{
    let mut cur = clap_command_of(grammar).try_get_matches_from(argv).ok()?;
    let mut chain: Vec<String> = Vec::new();
    while let Some((name, inner)) = cur.subcommand().map(|(n, m)| (n.to_string(), m.clone())) {
        chain.push(name);
        cur = inner;
    }
    let mut bindings: Vec<BoundArg> = Vec::new();
    for id in cur.ids().map(|i| i.as_str().to_string()).collect::<Vec<String>>() {
        if let Ok(Some(value)) = cur.try_get_one::<String>(id.as_str()) {
            bindings.push(BoundArg { name: id, value: value.clone() });
        }
    }
    Some(ParsedInvocation { chain, bindings })
}

/// The grammar of the repository's tree, as a `clap` command.  For every
/// repository the builder produces, the grammar is one `clap` accepts
/// ([`lemma_compile_grammar_wf`]); the precondition is discharged by
/// [`crate::laws::lemma_build_dir_wf`] for built trees.
pub fn clap(dir: &ClixRepo) -> clap::Command
    requires
        dir_tree_wf(dir@.root),
{
    clap_command_of(&create_command(dir.root_dir()))
}

/// The outcome of the parse-and-resolve pipeline on a tree: the
/// invocation the parser produces, resolved; a parse failure is a
/// grammar/invocation mismatch, reported as no such command.
pub open spec fn spec_pipeline(root: DirV, argv: Seq<Seq<char>>) -> Result<
    CommandV,
    ResolutionErrorV,
> {
    match spec_clap_parse(spec_compile(root), argv) {
        Some(inv) => spec_walk(root, inv.chain, inv.bindings),
        None => Err(ResolutionErrorV::NoSuchCommand),
    }
}

/// Parse `input` (the program name first) with the grammar compiled from
/// the repository's tree and resolve the parsed invocation against that
/// tree: the resolved command, or the failure to report.  The
/// `dir_tree_wf` precondition holds of every built repository
/// ([`crate::laws::lemma_build_dir_wf`]).
pub fn clap_command_from_str(repo: &ClixRepo, input: Vec<String>) -> (r: Result<
    ClixCommand,
    ResolutionError,
>)
    requires
        dir_tree_wf(repo@.root),
    ensures
        resolution_view(r) == spec_pipeline(repo@.root, input.deep_view()),
{
    let grammar = create_command(repo.root_dir());
    proof {
        lemma_compile_grammar_wf(repo@.root);
    }
    match clap_parse(&grammar, input) {
        None => Err(ResolutionError::NoSuchCommand),
        Some(invocation) => walk_repo(&invocation, repo.root_dir()),
    }
}

/// The view of an optional resolved command.
pub open spec fn command_result_view(r: Option<ClixCommand>) -> Option<CommandV> {
    match r {
        None => None,
        Some(c) => Some(c@),
    }
}

/// Parse `input` and resolve it, keeping only the command: `Some` exactly
/// when parse and resolution both succeed.
pub fn clap_file_from_str(repo: &ClixRepo, input: Vec<String>) -> (r: Option<ClixCommand>)
    requires
        dir_tree_wf(repo@.root),
    ensures
        command_result_view(r) == (match spec_pipeline(repo@.root, input.deep_view()) {
            Ok(cmd) => Some(cmd),
            Err(_) => None,
        }),
{
    match clap_command_from_str(repo, input) {
        Ok(resolved) => Some(resolved),
        Err(_) => None,
    }
}

impl ClixRepo {
    /// The grammar of this repository, as a `clap` command.
    pub fn clap(&self) -> clap::Command
        requires
            dir_tree_wf(self@.root),
    {
        clap(self)
    }

    /// Parse `input` and resolve it to the file it names, if any.
    pub fn clap_file(&self, input: Vec<String>) -> (r: Option<ClixFile>)
        requires
            dir_tree_wf(self@.root),
        ensures
            match spec_pipeline(self@.root, input.deep_view()) {
                Ok(cmd) => r matches Some(file) && file@ == cmd.file,
                Err(_) => r is None,
            },
    {
        match clap_file_from_str(self, input) {
            None => None,
            Some(resolved) => Some(resolved.file().clone()),
        }
    }
}

} // verus!
