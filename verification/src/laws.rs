//! The properties the library warrants, stated and proved over the same
//! specifications its public contracts use: what the tree builder keeps
//! out of the tree, that a faithful listing is reproduced exactly, and how
//! resolution treats required arguments.

use vstd::prelude::*;

use crate::command::{
    spec_find_dir, spec_find_file, spec_first_missing_required, spec_has_binding,
    spec_missing_required, spec_walk, BindV, CommandV, ResolutionErrorV,
};
use crate::config::ArgV;
use crate::file_type::{is_supported, spec_command_file_type};
use crate::listing::{DirListingV, FileListingV};
use crate::parser::spec_pipeline;
use crate::repo::{
    spec_admitted_files, spec_build_diags, spec_build_dir, spec_build_sub_dirs,
    spec_child_dir_path, spec_child_file_path, spec_config_path, spec_diag_message,
    spec_file_diags, spec_find_config, spec_is_config_candidate, spec_name_skipped,
    spec_new_file, spec_sub_dir_diags, spec_visible_files, DirV, FileV, PathV,
};
use crate::text::{extension_of, is_hidden_name};

verus! {

// ------------------------------------------------------------------
// Resolution determinism
// ------------------------------------------------------------------

/// Resolution is deterministic: two resolutions of the same chain and
/// bindings against the same tree yield the same outcome — never two
/// different files.
pub proof fn lemma_resolution_deterministic(
    d: DirV,
    chain: Seq<Seq<char>>,
    binds: Seq<BindV>,
    r1: Result<CommandV, ResolutionErrorV>,
    r2: Result<CommandV, ResolutionErrorV>,
)
    requires
        r1 == spec_walk(d, chain, binds),
        r2 == spec_walk(d, chain, binds),
    ensures
        r1 == r2,
{
}

/// The whole pipeline is deterministic: the same tree and the same input
/// parse and resolve to the same outcome every time.
pub proof fn lemma_pipeline_deterministic(
    root: DirV,
    argv: Seq<Seq<char>>,
    r1: Result<CommandV, ResolutionErrorV>,
    r2: Result<CommandV, ResolutionErrorV>,
)
    requires
        r1 == spec_pipeline(root, argv),
        r2 == spec_pipeline(root, argv),
    ensures
        r1 == r2,
{
}

// ------------------------------------------------------------------
// Required arguments
// ------------------------------------------------------------------

/// When no required argument is reported missing, every required
/// declaration is in fact bound.
proof fn lemma_no_missing_means_bound(decls: Seq<ArgV>, binds: Seq<BindV>)
    requires
        spec_first_missing_required(decls, binds) is None,
    ensures
        forall|i: int|
            0 <= i < decls.len() && (#[trigger] decls[i]).required ==> spec_has_binding(
                binds,
                decls[i].name,
            ),
    decreases decls.len(),
{
    if decls.len() > 0 {
        lemma_no_missing_means_bound(decls.drop_last(), binds);
        assert(forall|i: int|
            0 <= i < decls.len() - 1 ==> decls.drop_last()[i] == #[trigger] decls[i]);
    }
}

/// A resolution that succeeds binds every required argument: whenever the
/// resolved file's configuration declares an argument as required, the
/// invocation binds it.  An invocation that omits a required argument is
/// reported as a failure, never resolved silently.
pub proof fn lemma_required_arguments_bound(d: DirV, chain: Seq<Seq<char>>, binds: Seq<BindV>)
    ensures
        spec_walk(d, chain, binds) matches Ok(cmd) ==> {
            &&& cmd.command == binds
            &&& match cmd.file.config {
                Some(cfg) => match cfg.arguments {
                    Some(decls) => forall|i: int|
                        0 <= i < decls.len() && (#[trigger] decls[i]).required
                            ==> spec_has_binding(binds, decls[i].name),
                    None => true,
                },
                None => true,
            }
        },
    decreases chain.len(),
{
    if chain.len() == 1 {
        match spec_find_file(d.files, chain[0]) {
            Some(f) => {
                if spec_missing_required(f.config, binds) is None {
                    match f.config {
                        Some(cfg) => match cfg.arguments {
                            Some(decls) => {
                                lemma_no_missing_means_bound(decls, binds);
                            },
                            None => {},
                        },
                        None => {},
                    }
                }
            },
            None => {},
        }
    } else if chain.len() > 1 {
        match spec_find_dir(d.sub_dirs, chain[0]) {
            Some(sub) => {
                lemma_required_arguments_bound(sub, chain.drop_first(), binds);
            },
            None => {},
        }
    }
}

/// A reported missing argument really is missing: it was declared
/// required and the invocation does not bind it.
proof fn lemma_first_missing_is_missing(decls: Seq<ArgV>, binds: Seq<BindV>, n: Seq<char>)
    requires
        spec_first_missing_required(decls, binds) == Some(n),
    ensures
        !spec_has_binding(binds, n),
        exists|i: int|
            0 <= i < decls.len() && (#[trigger] decls[i]).required && decls[i].name == n,
    decreases decls.len(),
{
    if decls.len() > 0 {
        if spec_first_missing_required(decls.drop_last(), binds) is Some {
            lemma_first_missing_is_missing(decls.drop_last(), binds, n);
            let i = choose|i: int|
                0 <= i < decls.drop_last().len() && (#[trigger] decls.drop_last()[i]).required
                    && decls.drop_last()[i].name == n;
            assert(decls[i] == decls.drop_last()[i]);
        } else {
            assert(decls[decls.len() - 1] == decls.last());
        }
    }
}

/// The counterpart: when resolution fails with a missing-required-argument
/// report, the reported name is genuinely unbound in the invocation.
pub proof fn lemma_missing_required_reported(d: DirV, chain: Seq<Seq<char>>, binds: Seq<BindV>)
    ensures
        spec_walk(d, chain, binds) matches Err(ResolutionErrorV::MissingRequiredArgument {
            name,
            command,
        }) ==> !spec_has_binding(binds, name),
    decreases chain.len(),
{
    if chain.len() == 1 {
        match spec_find_file(d.files, chain[0]) {
            Some(f) => {
                match spec_missing_required(f.config, binds) {
                    Some(n) => {
                        match f.config {
                            Some(cfg) => match cfg.arguments {
                                Some(decls) => {
                                    lemma_first_missing_is_missing(decls, binds, n);
                                },
                                None => {},
                            },
                            None => {},
                        }
                    },
                    None => {},
                }
            },
            None => {},
        }
    } else if chain.len() > 1 {
        match spec_find_dir(d.sub_dirs, chain[0]) {
            Some(sub) => {
                lemma_missing_required_reported(sub, chain.drop_first(), binds);
            },
            None => {},
        }
    }
}

// ------------------------------------------------------------------
// Hidden entries never enter the tree
// ------------------------------------------------------------------

/// A file node free of hidden names: neither its own name nor the name of
/// its discovered configuration file starts with `.`.
pub open spec fn file_not_hidden(f: FileV) -> bool {
    &&& f.path.segments.len() > 0 && !is_hidden_name(f.path.segments.last())
    &&& match f.config_path {
        Some(p) => p.segments.len() > 0 && !is_hidden_name(p.segments.last()),
        None => true,
    }
}

/// No hidden entry anywhere below this node.
pub open spec fn no_hidden_entries(d: DirV) -> bool
    decreases d,
{
    &&& forall|i: int| 0 <= i < d.files.len() ==> file_not_hidden(#[trigger] d.files[i])
    &&& no_hidden_dirs(d.sub_dirs)
}

/// No hidden entry in any of these subtrees, nor a hidden name among
/// their roots.
pub open spec fn no_hidden_dirs(dirs: Seq<DirV>) -> bool
    decreases dirs,
{
    if dirs.len() == 0 {
        true
    } else {
        &&& no_hidden_dirs(dirs.drop_last())
        &&& dirs.last().path.segments.len() > 0
        &&& !is_hidden_name(dirs.last().path.segments.last())
        &&& no_hidden_entries(dirs.last())
    }
}

/// Every element of the visible-file list is itself visible.
proof fn lemma_visible_files_visible(prefix: Seq<FileListingV>)
    ensures
        forall|i: int|
            0 <= i < spec_visible_files(prefix).len() ==> !spec_name_skipped(
                (#[trigger] spec_visible_files(prefix)[i]).name,
            ),
    decreases prefix.len(),
{
    if prefix.len() > 0 {
        lemma_visible_files_visible(prefix.drop_last());
        let rest = spec_visible_files(prefix.drop_last());
        let cur = spec_visible_files(prefix);
        if !spec_name_skipped(prefix.last().name) {
            assert(cur == rest.push(prefix.last()));
            assert forall|i: int| 0 <= i < cur.len() implies !spec_name_skipped(
                (#[trigger] cur[i]).name,
            ) by {
                if i < rest.len() {
                    assert(cur[i] == rest[i]);
                } else {
                    assert(cur[i] == prefix.last());
                }
            }
        } else {
            assert(cur == rest);
        }
    }
}

/// A discovered configuration candidate is an element of the sibling
/// list searched.
proof fn lemma_find_config_is_element(file_name: Seq<char>, sibs: Seq<FileListingV>)
    requires
        spec_find_config(file_name, sibs) is Some,
    ensures
        exists|m: int|
            0 <= m < sibs.len() && #[trigger] sibs[m] == spec_find_config(
                file_name,
                sibs,
            )->Some_0,
    decreases sibs.len(),
{
    if sibs.len() > 0 {
        if spec_find_config(file_name, sibs.drop_last()) is Some {
            lemma_find_config_is_element(file_name, sibs.drop_last());
            let m = choose|m: int|
                0 <= m < sibs.drop_last().len() && #[trigger] sibs.drop_last()[m]
                    == spec_find_config(file_name, sibs.drop_last())->Some_0;
            assert(sibs[m] == sibs.drop_last()[m]);
        } else {
            assert(sibs[sibs.len() - 1] == sibs.last());
        }
    }
}

/// Every file the builder admits from a visible sibling list is free of
/// hidden names.
proof fn lemma_admitted_files_not_hidden(
    path: PathV,
    prefix: Seq<FileListingV>,
    vis: Seq<FileListingV>,
)
    requires
        path.segments.len() > 0,
        forall|i: int| 0 <= i < vis.len() ==> !spec_name_skipped((#[trigger] vis[i]).name),
    ensures
        forall|i: int|
            0 <= i < spec_admitted_files(path, prefix, vis).len() ==> file_not_hidden(
                #[trigger] spec_admitted_files(path, prefix, vis)[i],
            ),
    decreases prefix.len(),
{
    if prefix.len() > 0 {
        lemma_admitted_files_not_hidden(path, prefix.drop_last(), vis);
        let rest = spec_admitted_files(path, prefix.drop_last(), vis);
        let cur = spec_admitted_files(path, prefix, vis);
        let f = prefix.last();
        if !spec_name_skipped(f.name) && is_supported(
            spec_command_file_type(extension_of(f.name)),
        ) {
            let nf = spec_new_file(spec_child_file_path(path, f.name), vis);
            assert(nf.path.segments.last() == f.name);
            match spec_find_config(f.name, vis) {
                Some(c) => {
                    lemma_find_config_is_element(f.name, vis);
                    assert(nf.config_path == Some(
                        spec_config_path(spec_child_file_path(path, f.name), c.name),
                    ));
                },
                None => {},
            }
            assert(file_not_hidden(nf));
            assert(cur == rest.push(nf));
            assert forall|i: int| 0 <= i < cur.len() implies file_not_hidden(
                #[trigger] cur[i],
            ) by {
                if i < rest.len() {
                    assert(cur[i] == rest[i]);
                } else {
                    assert(cur[i] == nf);
                }
            }
        } else {
            assert(cur == rest);
        }
    }
}

/// Hidden entries never appear in the built tree, at any depth: not as a
/// command file, not as a directory, and not as a discovered
/// configuration file.
pub proof fn lemma_build_excludes_hidden(path: PathV, l: DirListingV)
    requires
        path.segments.len() > 0,
    ensures
        no_hidden_entries(spec_build_dir(path, l)),
    decreases l,
{
    lemma_visible_files_visible(l.files);
    lemma_admitted_files_not_hidden(path, l.files, spec_visible_files(l.files));
    lemma_build_sub_dirs_exclude_hidden(path, l.dirs);
}

/// Hidden entries never appear below any of the built subtrees.
proof fn lemma_build_sub_dirs_exclude_hidden(path: PathV, prefix: Seq<DirListingV>)
    requires
        path.segments.len() > 0,
    ensures
        no_hidden_dirs(spec_build_sub_dirs(path, prefix)),
    decreases prefix,
{
    if prefix.len() > 0 {
        lemma_build_sub_dirs_exclude_hidden(path, prefix.drop_last());
        let rest = spec_build_sub_dirs(path, prefix.drop_last());
        let cur = spec_build_sub_dirs(path, prefix);
        let d = prefix.last();
        if !spec_name_skipped(d.name) {
            let built = spec_build_dir(spec_child_dir_path(path, d.name), d);
            lemma_build_excludes_hidden(spec_child_dir_path(path, d.name), d);
            assert(built.path.segments.last() == d.name);
            assert(cur == rest.push(built));
            assert(cur.drop_last() =~= rest);
            assert(cur.last() == built);
        } else {
            assert(cur == rest);
        }
    }
}

// ------------------------------------------------------------------
// Built trees are well-formed
// ------------------------------------------------------------------

/// Every file the builder admits has a non-empty path.
proof fn lemma_admitted_files_wf(path: PathV, prefix: Seq<FileListingV>, vis: Seq<FileListingV>)
    requires
        path.segments.len() > 0,
    ensures
        crate::command::files_wf(spec_admitted_files(path, prefix, vis)),
    decreases prefix.len(),
{
    if prefix.len() > 0 {
        lemma_admitted_files_wf(path, prefix.drop_last(), vis);
        let rest = spec_admitted_files(path, prefix.drop_last(), vis);
        let cur = spec_admitted_files(path, prefix, vis);
        let f = prefix.last();
        if !spec_name_skipped(f.name) && is_supported(
            spec_command_file_type(extension_of(f.name)),
        ) {
            let nf = spec_new_file(spec_child_file_path(path, f.name), vis);
            assert(cur == rest.push(nf));
            assert forall|i: int| 0 <= i < cur.len() implies (
                #[trigger] cur[i]).path.segments.len() > 0 by {
                if i < rest.len() {
                    assert(cur[i] == rest[i]);
                } else {
                    assert(cur[i] == nf);
                }
            }
        } else {
            assert(cur == rest);
        }
    }
}

/// The tree the builder produces is well-formed: every node's path has at
/// least one component — which is what resolution and compilation ask of
/// the trees they are handed.
pub proof fn lemma_build_dir_wf(path: PathV, l: DirListingV)
    requires
        path.segments.len() > 0,
    ensures
        crate::command::dir_tree_wf(spec_build_dir(path, l)),
    decreases l,
{
    lemma_admitted_files_wf(path, l.files, spec_visible_files(l.files));
    lemma_build_sub_dirs_wf(path, l.dirs);
}

/// The built subtrees are well-formed.
proof fn lemma_build_sub_dirs_wf(path: PathV, prefix: Seq<DirListingV>)
    requires
        path.segments.len() > 0,
    ensures
        crate::command::dirs_wf(spec_build_sub_dirs(path, prefix)),
    decreases prefix,
{
    if prefix.len() > 0 {
        lemma_build_sub_dirs_wf(path, prefix.drop_last());
        let rest = spec_build_sub_dirs(path, prefix.drop_last());
        let cur = spec_build_sub_dirs(path, prefix);
        let d = prefix.last();
        if !spec_name_skipped(d.name) {
            let built = spec_build_dir(spec_child_dir_path(path, d.name), d);
            lemma_build_dir_wf(spec_child_dir_path(path, d.name), d);
            assert(cur == rest.push(built));
            assert(cur.drop_last() =~= rest);
            assert(cur.last() == built);
        } else {
            assert(cur == rest);
        }
    }
}

// ------------------------------------------------------------------
// Unsupported extensions never enter the tree; they are diagnosed
// ------------------------------------------------------------------

/// Every file below this node carries a supported type.
pub open spec fn all_files_supported(d: DirV) -> bool
    decreases d,
{
    &&& forall|i: int| 0 <= i < d.files.len() ==> is_supported((#[trigger] d.files[i]).file_type)
    &&& all_dirs_supported(d.sub_dirs)
}

/// Every file below any of these subtrees carries a supported type.
pub open spec fn all_dirs_supported(dirs: Seq<DirV>) -> bool
    decreases dirs,
{
    if dirs.len() == 0 {
        true
    } else {
        all_dirs_supported(dirs.drop_last()) && all_files_supported(dirs.last())
    }
}

/// Every file the builder admits carries a supported type.
proof fn lemma_admitted_files_supported(
    path: PathV,
    prefix: Seq<FileListingV>,
    vis: Seq<FileListingV>,
)
    requires
        path.segments.len() > 0,
    ensures
        forall|i: int|
            0 <= i < spec_admitted_files(path, prefix, vis).len() ==> is_supported(
                (#[trigger] spec_admitted_files(path, prefix, vis)[i]).file_type,
            ),
    decreases prefix.len(),
{
    if prefix.len() > 0 {
        lemma_admitted_files_supported(path, prefix.drop_last(), vis);
        let rest = spec_admitted_files(path, prefix.drop_last(), vis);
        let cur = spec_admitted_files(path, prefix, vis);
        let f = prefix.last();
        if !spec_name_skipped(f.name) && is_supported(
            spec_command_file_type(extension_of(f.name)),
        ) {
            let nf = spec_new_file(spec_child_file_path(path, f.name), vis);
            assert(nf.path.segments.last() == f.name);
            assert(nf.file_type == spec_command_file_type(extension_of(f.name)));
            assert(cur == rest.push(nf));
            assert forall|i: int| 0 <= i < cur.len() implies is_supported(
                (#[trigger] cur[i]).file_type,
            ) by {
                if i < rest.len() {
                    assert(cur[i] == rest[i]);
                } else {
                    assert(cur[i] == nf);
                }
            }
        } else {
            assert(cur == rest);
        }
    }
}

/// A file with an unsupported extension never appears in the built tree's
/// file lists, at any depth.
pub proof fn lemma_build_admits_supported_only(path: PathV, l: DirListingV)
    requires
        path.segments.len() > 0,
    ensures
        all_files_supported(spec_build_dir(path, l)),
    decreases l,
{
    lemma_admitted_files_supported(path, l.files, spec_visible_files(l.files));
    lemma_build_sub_dirs_supported(path, l.dirs);
}

/// Every file below the built subtrees carries a supported type.
proof fn lemma_build_sub_dirs_supported(path: PathV, prefix: Seq<DirListingV>)
    requires
        path.segments.len() > 0,
    ensures
        all_dirs_supported(spec_build_sub_dirs(path, prefix)),
    decreases prefix,
{
    if prefix.len() > 0 {
        lemma_build_sub_dirs_supported(path, prefix.drop_last());
        let rest = spec_build_sub_dirs(path, prefix.drop_last());
        let cur = spec_build_sub_dirs(path, prefix);
        let d = prefix.last();
        if !spec_name_skipped(d.name) {
            let built = spec_build_dir(spec_child_dir_path(path, d.name), d);
            lemma_build_admits_supported_only(spec_child_dir_path(path, d.name), d);
            assert(cur == rest.push(built));
            assert(cur.drop_last() =~= rest);
            assert(cur.last() == built);
        } else {
            assert(cur == rest);
        }
    }
}

/// A visible file whose extension is not supported is named by a
/// diagnostic of its own directory's build.
proof fn lemma_file_diag_emitted(prefix: Seq<FileListingV>, i: int)
    requires
        0 <= i < prefix.len(),
        !spec_name_skipped(prefix[i].name),
        !is_supported(spec_command_file_type(extension_of(prefix[i].name))),
    ensures
        spec_file_diags(prefix).contains(spec_diag_message(prefix[i].name)),
    decreases prefix.len(),
{
    if i == prefix.len() - 1 {
        assert(spec_file_diags(prefix).last() == spec_diag_message(prefix[i].name));
    } else {
        lemma_file_diag_emitted(prefix.drop_last(), i);
        assert(prefix.drop_last()[i] == prefix[i]);
        let msg = spec_diag_message(prefix[i].name);
        let j = choose|j: int|
            0 <= j < spec_file_diags(prefix.drop_last()).len() && spec_file_diags(
                prefix.drop_last(),
            )[j] == msg;
        assert(spec_file_diags(prefix)[j] == msg);
    }
}

/// A visible file of the listing whose extension is not supported is
/// dropped with a diagnostic naming it among the build's diagnostics.
pub proof fn lemma_unsupported_file_diagnosed(l: DirListingV, i: int)
    requires
        0 <= i < l.files.len(),
        !spec_name_skipped(l.files[i].name),
        !is_supported(spec_command_file_type(extension_of(l.files[i].name))),
    ensures
        spec_build_diags(l).contains(spec_diag_message(l.files[i].name)),
{
    lemma_file_diag_emitted(l.files, i);
    let msg = spec_diag_message(l.files[i].name);
    let j = choose|j: int|
        0 <= j < spec_file_diags(l.files).len() && spec_file_diags(l.files)[j] == msg;
    assert(spec_build_diags(l)[j] == msg);
}

/// Every diagnostic of a visible subdirectory's build is among its
/// parent's diagnostics: what the lower levels report is never lost.
pub proof fn lemma_sub_dir_diags_contained(l: DirListingV, k: int, x: Seq<char>)
    requires
        0 <= k < l.dirs.len(),
        !spec_name_skipped(l.dirs[k].name),
        spec_build_diags(l.dirs[k]).contains(x),
    ensures
        spec_build_diags(l).contains(x),
{
    lemma_sub_dir_diag_prefix(l.dirs, k, x);
    let j = choose|j: int|
        0 <= j < spec_sub_dir_diags(l.dirs).len() && spec_sub_dir_diags(l.dirs)[j] == x;
    assert(spec_build_diags(l)[spec_file_diags(l.files).len() + j] == x);
}

/// A diagnostic of one visible subdirectory is among the diagnostics of
/// the subdirectory sequence.
proof fn lemma_sub_dir_diag_prefix(prefix: Seq<DirListingV>, k: int, x: Seq<char>)
    requires
        0 <= k < prefix.len(),
        !spec_name_skipped(prefix[k].name),
        spec_build_diags(prefix[k]).contains(x),
    ensures
        spec_sub_dir_diags(prefix).contains(x),
    decreases prefix.len(),
{
    if k == prefix.len() - 1 {
        let rest = spec_sub_dir_diags(prefix.drop_last());
        let j = choose|j: int|
            0 <= j < spec_build_diags(prefix[k]).len() && spec_build_diags(prefix[k])[j] == x;
        assert(spec_sub_dir_diags(prefix)[rest.len() + j] == x);
    } else {
        lemma_sub_dir_diag_prefix(prefix.drop_last(), k, x);
        assert(prefix.drop_last()[k] == prefix[k]);
        let j = choose|j: int|
            0 <= j < spec_sub_dir_diags(prefix.drop_last()).len() && spec_sub_dir_diags(
                prefix.drop_last(),
            )[j] == x;
        assert(spec_sub_dir_diags(prefix)[j] == x);
    }
}

// ------------------------------------------------------------------
// A faithful listing is reproduced exactly
// ------------------------------------------------------------------

/// The bare structure of a tree: a name, the file names, the
/// substructures.
#[verifier::ext_equal]
pub struct ShapeV {
    pub name: Seq<char>,
    pub file_names: Seq<Seq<char>>,
    pub dirs: Seq<ShapeV>,
}

/// The structure of a directory listing.
pub open spec fn listing_shape(l: DirListingV) -> ShapeV
    decreases l,
{
    ShapeV {
        name: l.name,
        file_names: l.files.map_values(|f: FileListingV| f.name),
        dirs: listing_dir_shapes(l.dirs),
    }
}

/// The structures of a sequence of listings.
pub open spec fn listing_dir_shapes(dirs: Seq<DirListingV>) -> Seq<ShapeV>
    decreases dirs,
{
    if dirs.len() == 0 {
        Seq::empty()
    } else {
        listing_dir_shapes(dirs.drop_last()).push(listing_shape(dirs.last()))
    }
}

/// The structure of a built tree, file names taken with their extension.
pub open spec fn dir_shape(d: DirV) -> ShapeV
    decreases d,
{
    ShapeV {
        name: d.path.segments.last(),
        file_names: d.files.map_values(|f: FileV| f.path.segments.last()),
        dirs: dir_shapes(d.sub_dirs),
    }
}

/// The structures of a sequence of built trees.
pub open spec fn dir_shapes(dirs: Seq<DirV>) -> Seq<ShapeV>
    decreases dirs,
{
    if dirs.len() == 0 {
        Seq::empty()
    } else {
        dir_shapes(dirs.drop_last()).push(dir_shape(dirs.last()))
    }
}

/// A listing with no hidden entry and only supported extensions, at any
/// depth: the builder loses nothing of such a listing.
pub open spec fn listing_faithful(l: DirListingV) -> bool
    decreases l,
{
    &&& forall|i: int|
        0 <= i < l.files.len() ==> !spec_name_skipped((#[trigger] l.files[i]).name) && is_supported(
            spec_command_file_type(extension_of(l.files[i].name)),
        )
    &&& listings_faithful(l.dirs)
}

/// Faithfulness of a sequence of listings.
pub open spec fn listings_faithful(dirs: Seq<DirListingV>) -> bool
    decreases dirs,
{
    if dirs.len() == 0 {
        true
    } else {
        &&& listings_faithful(dirs.drop_last())
        &&& !spec_name_skipped(dirs.last().name)
        &&& listing_faithful(dirs.last())
    }
}

/// On a faithful listing the visible files are all the files.
proof fn lemma_visible_files_all(prefix: Seq<FileListingV>)
    requires
        forall|i: int| 0 <= i < prefix.len() ==> !spec_name_skipped((#[trigger] prefix[i]).name),
    ensures
        spec_visible_files(prefix) == prefix,
    decreases prefix.len(),
{
    if prefix.len() > 0 {
        assert(forall|i: int|
            0 <= i < prefix.len() - 1 ==> prefix.drop_last()[i] == #[trigger] prefix[i]);
        lemma_visible_files_all(prefix.drop_last());
        assert(spec_visible_files(prefix) =~= prefix);
    } else {
        assert(spec_visible_files(prefix) =~= prefix);
    }
}

/// On a faithful listing the admitted file names are exactly the listing's
/// file names, in order.
proof fn lemma_admitted_file_names(path: PathV, prefix: Seq<FileListingV>, vis: Seq<FileListingV>)
    requires
        path.segments.len() > 0,
        forall|i: int|
            0 <= i < prefix.len() ==> !spec_name_skipped((#[trigger] prefix[i]).name)
                && is_supported(spec_command_file_type(extension_of(prefix[i].name))),
    ensures
        spec_admitted_files(path, prefix, vis).map_values(|f: FileV| f.path.segments.last())
            == prefix.map_values(|f: FileListingV| f.name),
    decreases prefix.len(),
{
    if prefix.len() == 0 {
        assert(spec_admitted_files(path, prefix, vis).map_values(
            |f: FileV| f.path.segments.last(),
        ) =~= prefix.map_values(|f: FileListingV| f.name));
    } else {
        assert(forall|i: int|
            0 <= i < prefix.len() - 1 ==> prefix.drop_last()[i] == #[trigger] prefix[i]);
        lemma_admitted_file_names(path, prefix.drop_last(), vis);
        let rest = spec_admitted_files(path, prefix.drop_last(), vis);
        let cur = spec_admitted_files(path, prefix, vis);
        let f = prefix.last();
        assert(prefix[prefix.len() - 1] == f);
        assert(!spec_name_skipped(f.name) && is_supported(
            spec_command_file_type(extension_of(f.name)),
        ));
        let nf = spec_new_file(spec_child_file_path(path, f.name), vis);
        assert(nf.path.segments.last() == f.name);
        assert(cur == rest.push(nf));
        assert(rest.len() == prefix.len() - 1) by {
            assert(rest.map_values(|f2: FileV| f2.path.segments.last()).len()
                == prefix.drop_last().map_values(|f2: FileListingV| f2.name).len());
        }
        let cur_names = cur.map_values(|f2: FileV| f2.path.segments.last());
        let listing_names = prefix.map_values(|f2: FileListingV| f2.name);
        assert forall|i: int| 0 <= i < prefix.len() implies cur_names[i] == listing_names[i] by {
            if i < prefix.len() - 1 {
                assert(cur[i] == rest[i]);
                assert(rest.map_values(|f2: FileV| f2.path.segments.last())[i]
                    == prefix.drop_last().map_values(|f2: FileListingV| f2.name)[i]);
            } else {
                assert(cur[i] == nf);
            }
        }
        assert(cur_names =~= listing_names);
    }
}

/// Building a command tree from a faithful listing — no hidden entries,
/// only supported extensions — reproduces the listing's structure
/// exactly: the same directory names, the same file names, in the same
/// order, at every depth.
pub proof fn lemma_build_reproduces_shape(path: PathV, l: DirListingV)
    requires
        path.segments.len() > 0,
        path.segments.last() == l.name,
        listing_faithful(l),
    ensures
        dir_shape(spec_build_dir(path, l)) == listing_shape(l),
    decreases l,
{
    lemma_admitted_file_names(path, l.files, spec_visible_files(l.files));
    lemma_build_sub_dir_shapes(path, l.dirs);
    assert(dir_shape(spec_build_dir(path, l)) =~= listing_shape(l));
}

/// The built subtrees of a faithful listing sequence have exactly the
/// listings' structures.
proof fn lemma_build_sub_dir_shapes(path: PathV, prefix: Seq<DirListingV>)
    requires
        path.segments.len() > 0,
        listings_faithful(prefix),
    ensures
        dir_shapes(spec_build_sub_dirs(path, prefix)) == listing_dir_shapes(prefix),
    decreases prefix,
{
    if prefix.len() == 0 {
        assert(dir_shapes(spec_build_sub_dirs(path, prefix)) =~= listing_dir_shapes(prefix));
    } else {
        lemma_build_sub_dir_shapes(path, prefix.drop_last());
        let d = prefix.last();
        let child = spec_child_dir_path(path, d.name);
        assert(child.segments.last() == d.name);
        lemma_build_reproduces_shape(child, d);
        let rest = spec_build_sub_dirs(path, prefix.drop_last());
        let cur = spec_build_sub_dirs(path, prefix);
        let built = spec_build_dir(child, d);
        assert(cur == rest.push(built));
        assert(cur.drop_last() =~= rest);
        assert(cur.last() == built);
        assert(dir_shapes(cur) == dir_shapes(rest).push(dir_shape(built)));
        assert(dir_shapes(cur) =~= listing_dir_shapes(prefix));
    }
}

} // verus!
