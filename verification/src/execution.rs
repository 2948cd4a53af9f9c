//! Turning a resolved command into a dispatch plan: which interpreter to
//! spawn, and the argument vector to hand it.  The plan is computed and
//! checked here; actually spawning the interpreter is the caller's
//! business.

use vstd::prelude::*;

use crate::command::{BindV, BoundArg, ClixCommand, CommandV};
use crate::config::{ArgumentEntry, ArgV, CommandConfiguration, ConfigV};
use crate::repo::{ClixPath, PathV, spec_path_extension};
use crate::text::str_eq;

verus! {

/// The platform a dispatch would run on.
#[derive(Clone, Copy, Debug, PartialEq, Eq, Structural)]
pub enum Platform {
    Linux,
    Windows,
}

/// A fully determined dispatch: the interpreter to spawn, the script to
/// hand it, and the bound argument values in declaration order.
#[derive(Debug)]
pub struct ExecutionPlan {
    pub interpreter: String,
    pub script: ClixPath,
    pub arguments: Vec<String>,
}

/// Spec-level mirror of [`ExecutionPlan`].
#[verifier::ext_equal]
pub struct PlanV {
    pub interpreter: Seq<char>,
    pub script: PathV,
    pub arguments: Seq<Seq<char>>,
}

impl View for ExecutionPlan {
    type V = PlanV;

    open spec fn view(&self) -> PlanV {
        PlanV {
            interpreter: self.interpreter@,
            script: self.script@,
            arguments: self.arguments.deep_view(),
        }
    }
}

/// Why no dispatch plan could be made.
#[derive(Debug)]
pub enum ExecutionError {
    UnhandledFileType(String),
    MissingRequiredArgument(String),
}

/// Spec-level mirror of [`ExecutionError`].
pub enum ExecutionErrorV {
    UnhandledFileType(Seq<char>),
    MissingRequiredArgument(Seq<char>),
}

impl View for ExecutionError {
    type V = ExecutionErrorV;

    open spec fn view(&self) -> ExecutionErrorV {
        match self {
            ExecutionError::UnhandledFileType(e) => ExecutionErrorV::UnhandledFileType(e@),
            ExecutionError::MissingRequiredArgument(n) => {
                ExecutionErrorV::MissingRequiredArgument(n@)
            },
        }
    }
}

/// The value the invocation bound for `name`: the first binding of that
/// name, if any.
pub open spec fn spec_binding_value(binds: Seq<BindV>, name: Seq<char>) -> Option<Seq<char>>
    decreases binds.len(),
{
    if binds.len() == 0 {
        None
    } else {
        match spec_binding_value(binds.drop_last(), name) {
            Some(v) => Some(v),
            None => if binds.last().name == name {
                Some(binds.last().value)
            } else {
                None
            },
        }
    }
}

/// A binding found in a prefix is the one found in the whole sequence.
proof fn lemma_binding_value_extend(binds: Seq<BindV>, name: Seq<char>, i: int)
    requires
        0 <= i <= binds.len(),
        spec_binding_value(binds.take(i), name) is Some,
    ensures
        spec_binding_value(binds, name) == spec_binding_value(binds.take(i), name),
    decreases binds.len(),
{
    if i == binds.len() {
        assert(binds.take(i) =~= binds);
    } else {
        assert(binds.drop_last().take(i) =~= binds.take(i));
        lemma_binding_value_extend(binds.drop_last(), name, i);
    }
}

/// The values the declarations collect from the bindings, in declaration
/// order: a bound argument contributes its value, an unbound optional one
/// nothing, and the first unbound required one fails the collection with
/// its name.
pub open spec fn spec_collect_arg_values(decls: Seq<ArgV>, binds: Seq<BindV>) -> Result<
    Seq<Seq<char>>,
    Seq<char>,
>
    decreases decls.len(),
{
    if decls.len() == 0 {
        Ok(Seq::empty())
    } else {
        match spec_collect_arg_values(decls.drop_last(), binds) {
            Err(n) => Err(n),
            Ok(vals) => {
                let d = decls.last();
                match spec_binding_value(binds, d.name) {
                    Some(v) => Ok(vals.push(v)),
                    None => if d.required {
                        Err(d.name)
                    } else {
                        Ok(vals)
                    },
                }
            },
        }
    }
}

/// A collection that fails on a prefix fails the same way on the whole.
proof fn lemma_collect_err_extend(decls: Seq<ArgV>, binds: Seq<BindV>, i: int)
    requires
        0 <= i <= decls.len(),
        spec_collect_arg_values(decls.take(i), binds) is Err,
    ensures
        spec_collect_arg_values(decls, binds) == spec_collect_arg_values(decls.take(i), binds),
    decreases decls.len(),
{
    if i == decls.len() {
        assert(decls.take(i) =~= decls);
    } else {
        assert(decls.drop_last().take(i) =~= decls.take(i));
        lemma_collect_err_extend(decls.drop_last(), binds, i);
    }
}

/// What extending a command line by a configuration's arguments yields:
/// the base arguments followed by the collected values, or the name of the
/// first required argument that is unbound.
pub open spec fn spec_handle_arguments(
    config: ConfigV,
    binds: Seq<BindV>,
    base: Seq<Seq<char>>,
) -> Result<Seq<Seq<char>>, Seq<char>> {
    match config.arguments {
        None => Ok(base),
        Some(decls) => match spec_collect_arg_values(decls, binds) {
            Ok(vals) => Ok(base + vals),
            Err(n) => Err(n),
        },
    }
}

/// The value bound for `name`, if any.
fn binding_value(args: &Vec<BoundArg>, name: &str) -> (r: Option<String>)
    ensures
        match r {
            Some(v) => spec_binding_value(args.deep_view(), name@) == Some(v@),
            None => spec_binding_value(args.deep_view(), name@) is None,
        },
{
    let ghost binds = args.deep_view();
    let mut i: usize = 0;
    while i < args.len()
        invariant
            i <= args.len(),
            binds == args.deep_view(),
            spec_binding_value(binds.take(i as int), name@) is None,
        decreases args.len() - i,
    {
        proof {
            assert(binds.take(i + 1).drop_last() =~= binds.take(i as int));
            assert(binds.take(i + 1).last() == binds[i as int]);
        }
        if str_eq(args[i].name.as_str(), name) {
            proof {
                lemma_binding_value_extend(binds, name@, i + 1);
            }
            return Some(args[i].value.clone());
        }
        i = i + 1;
    }
    proof {
        assert(binds.take(args@.len() as int) =~= binds);
    }
    None
}

/// Extend the command line `command` by the values the configuration's
/// declarations collect from the bound arguments; fail with the first
/// required argument that is unbound.
pub fn handle_arguments(
    args: &Vec<BoundArg>,
    command: Vec<String>,
    config: &CommandConfiguration,
) -> (r: Result<Vec<String>, ExecutionError>)
    ensures
        match r {
            Ok(v) => spec_handle_arguments(config@, args.deep_view(), command.deep_view())
                == Ok::<Seq<Seq<char>>, Seq<char>>(v.deep_view()),
            Err(e) => spec_handle_arguments(config@, args.deep_view(), command.deep_view())
                matches Err(n) && e@ == ExecutionErrorV::MissingRequiredArgument(n),
        },
{
    let ghost base = command.deep_view();
    let ghost binds = args.deep_view();
    let mut out = command;
    let decls = match &config.arguments {
        None => {
            return Ok(out);
        },
        Some(decls) => decls,
    };
    let ghost decls_v = decls@.map_values(|a: ArgumentEntry| a@);
    proof {
        assert(config@.arguments == Some(decls_v));
        assert(spec_collect_arg_values(decls_v.take(0), binds) == Ok::<Seq<Seq<char>>, Seq<char>>(
            Seq::<Seq<char>>::empty(),
        ));
        assert(out.deep_view() =~= base + Seq::<Seq<char>>::empty());
    }
    let mut j: usize = 0;
    while j < decls.len()
        invariant
            j <= decls.len(),
            binds == args.deep_view(),
            decls_v == decls@.map_values(|a: ArgumentEntry| a@),
            config@.arguments == Some(decls_v),
            spec_collect_arg_values(decls_v.take(j as int), binds) matches Ok(vals)
                && out.deep_view() == base + vals,
        decreases decls.len() - j,
    {
        proof {
            assert(decls_v.take(j + 1).drop_last() =~= decls_v.take(j as int));
            assert(decls_v.take(j + 1).last() == decls_v[j as int]);
        }
        let d = &decls[j];
        match binding_value(args, d.name.as_str()) {
            Some(value) => {
                let ghost pre = out.deep_view();
                out.push(value);
                proof {
                    let vals = spec_collect_arg_values(decls_v.take(j as int), binds)->Ok_0;
                    assert(out.deep_view() =~= pre.push(
                        spec_binding_value(binds, decls_v[j as int].name)->Some_0,
                    ));
                    assert(base + vals.push(spec_binding_value(binds, decls_v[j as int].name)->Some_0)
                        =~= (base + vals).push(
                        spec_binding_value(binds, decls_v[j as int].name)->Some_0,
                    ));
                }
            },
            None => {
                if d.required {
                    proof {
                        lemma_collect_err_extend(decls_v, binds, j + 1);
                    }
                    return Err(ExecutionError::MissingRequiredArgument(d.name.clone()));
                }
            },
        }
        j = j + 1;
    }
    proof {
        assert(decls_v.take(decls@.len() as int) =~= decls_v);
    }
    Ok(out)
}

/// The view of a plan result.
pub open spec fn plan_result_view(r: Result<ExecutionPlan, ExecutionError>) -> Result<
    PlanV,
    ExecutionErrorV,
> {
    match r {
        Ok(p) => Ok(p@),
        Err(e) => Err(e@),
    }
}

/// The dispatch plan for a resolved command under a given interpreter:
/// the script itself, then the collected argument values.
pub open spec fn spec_build_plan(c: CommandV, interpreter: Seq<char>) -> Result<
    PlanV,
    ExecutionErrorV,
> {
    match c.file.config {
        None => Ok(PlanV { interpreter, script: c.file.path, arguments: Seq::empty() }),
        Some(cfg) => match spec_handle_arguments(cfg, c.command, Seq::empty()) {
            Ok(vals) => Ok(PlanV { interpreter, script: c.file.path, arguments: vals }),
            Err(n) => Err(ExecutionErrorV::MissingRequiredArgument(n)),
        },
    }
}

/// Build the dispatch plan for a resolved command under `interpreter`.
fn build_plan(command: &ClixCommand, interpreter: &str) -> (r: Result<
    ExecutionPlan,
    ExecutionError,
>)
    ensures
        plan_result_view(r) == spec_build_plan(command@, interpreter@),
{
    let script = command.file().file_path().clone();
    match command.file().get_config() {
        None => {
            let arguments: Vec<String> = Vec::new();
            proof {
                assert(arguments.deep_view() =~= Seq::<Seq<char>>::empty());
            }
            Ok(ExecutionPlan { interpreter: interpreter.to_owned(), script, arguments })
        },
        Some(cfg) => {
            let base: Vec<String> = Vec::new();
            proof {
                assert(base.deep_view() =~= Seq::<Seq<char>>::empty());
            }
            match handle_arguments(command.command(), base, &cfg) {
                Ok(arguments) => {
                    proof {
                        assert(Seq::<Seq<char>>::empty() + spec_handle_arguments(
                            cfg@,
                            command@.command,
                            Seq::<Seq<char>>::empty(),
                        )->Ok_0 =~= spec_handle_arguments(
                            cfg@,
                            command@.command,
                            Seq::<Seq<char>>::empty(),
                        )->Ok_0);
                    }
                    Ok(ExecutionPlan { interpreter: interpreter.to_owned(), script, arguments })
                },
                Err(e) => Err(e),
            }
        },
    }
}

/// The dispatch plan a platform makes of a resolved command: the
/// platform's own script kind runs through its interpreter, everything
/// else is unhandled there.
pub open spec fn spec_execute_os_command(c: CommandV, platform: Platform) -> Result<
    PlanV,
    ExecutionErrorV,
> {
    let ext = spec_path_extension(c.file.path);
    match platform {
        Platform::Linux => if ext == "sh"@ {
            spec_build_plan(c, "bash"@)
        } else {
            Err(ExecutionErrorV::UnhandledFileType(ext))
        },
        Platform::Windows => if ext == "ps1"@ {
            spec_build_plan(c, "powershell"@)
        } else {
            Err(ExecutionErrorV::UnhandledFileType(ext))
        },
    }
}

/// The dispatch plan of a resolved command: Python scripts run through
/// `python` on every platform, everything else is the platform's business.
pub open spec fn spec_execute_command(c: CommandV, platform: Platform) -> Result<
    PlanV,
    ExecutionErrorV,
> {
    if spec_path_extension(c.file.path) == "py"@ {
        spec_build_plan(c, "python"@)
    } else {
        spec_execute_os_command(c, platform)
    }
}

/// Build the platform-specific dispatch plan for a resolved command.
pub fn execute_os_command(command: &ClixCommand, platform: Platform) -> (r: Result<
    ExecutionPlan,
    ExecutionError,
>)
    requires
        command@.file.path.segments.len() > 0,
    ensures
        plan_result_view(r) == spec_execute_os_command(command@, platform),
{
    let ext = command.file().get_file_extension();
    match platform {
        Platform::Linux => {
            if str_eq(ext.as_str(), "sh") {
                build_plan(command, "bash")
            } else {
                Err(ExecutionError::UnhandledFileType(ext))
            }
        },
        Platform::Windows => {
            if str_eq(ext.as_str(), "ps1") {
                build_plan(command, "powershell")
            } else {
                Err(ExecutionError::UnhandledFileType(ext))
            }
        },
    }
}

/// Build the dispatch plan for a Python command.
pub fn execute_python_command(command: &ClixCommand) -> (r: Result<
    ExecutionPlan,
    ExecutionError,
>)
    ensures
        plan_result_view(r) == spec_build_plan(command@, "python"@),
{
    build_plan(command, "python")
}

/// Build the dispatch plan for a resolved command on the given platform.
pub fn execute_command(command: ClixCommand, platform: Platform) -> (r: Result<
    ExecutionPlan,
    ExecutionError,
>)
    requires
        command@.file.path.segments.len() > 0,
    ensures
        plan_result_view(r) == spec_execute_command(command@, platform),
{
    let ext = command.file().get_file_extension();
    if str_eq(ext.as_str(), "py") {
        execute_python_command(&command)
    } else {
        execute_os_command(&command, platform)
    }
}

} // verus!
