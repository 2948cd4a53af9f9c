//! The configuration record that an optional sibling file declares for a
//! command: a command name and an ordered list of argument declarations.
//!
//! The text of such a file is a TOML document; parsing it is delegated to
//! the `toml` crate behind the trusted items below.  A record that does not
//! parse is treated as absent: a malformed sibling never makes the script
//! itself unusable.

use vstd::prelude::*;

use crate::text::str_eq;

verus! {

/// One declared argument of a command: its flag name and whether an
/// invocation must bind it.
#[derive(Debug)]
pub struct ArgumentEntry {
    pub name: String,
    pub required: bool,
}

/// Spec-level mirror of [`ArgumentEntry`].
pub struct ArgV {
    pub name: Seq<char>,
    pub required: bool,
}

impl View for ArgumentEntry {
    type V = ArgV;

    open spec fn view(&self) -> ArgV {
        ArgV { name: self.name@, required: self.required }
    }
}

impl Clone for ArgumentEntry {
    fn clone(&self) -> (r: Self)
        ensures
            r@ == self@,
    {
        ArgumentEntry { name: self.name.clone(), required: self.required }
    }
}

/// The record parsed from a command's configuration file.
#[derive(Debug)]
pub struct CommandConfiguration {
    pub command_name: String,
    pub arguments: Option<Vec<ArgumentEntry>>,
}

/// Spec-level mirror of [`CommandConfiguration`].
#[verifier::ext_equal]
pub struct ConfigV {
    pub command_name: Seq<char>,
    pub arguments: Option<Seq<ArgV>>,
}

impl View for CommandConfiguration {
    type V = ConfigV;

    open spec fn view(&self) -> ConfigV {
        ConfigV {
            command_name: self.command_name@,
            arguments: match self.arguments {
                None => None,
                Some(v) => Some(v@.map_values(|a: ArgumentEntry| a@)),
            },
        }
    }
}

impl Clone for CommandConfiguration {
    fn clone(&self) -> (r: Self)
        ensures
            r@ == self@,
    {
        let arguments = match &self.arguments {
            None => None,
            Some(v) => {
                let mut out: Vec<ArgumentEntry> = Vec::new();
                let mut i: usize = 0;
                while i < v.len()
                    invariant
                        i <= v.len(),
                        out.len() == i,
                        forall|j: int| 0 <= j < i ==> out@[j]@ == v@[j]@,
                    decreases v.len() - i,
                {
                    out.push(v[i].clone());
                    i = i + 1;
                }
                Some(out)
            },
        };
        let r = CommandConfiguration { command_name: self.command_name.clone(), arguments };
        proof {
            assert(r@.arguments matches Some(s) ==> self@.arguments matches Some(t) && s =~= t);
            assert(r@ =~= self@);
        }
        r
    }
}

/// The view of an optional configuration.
pub open spec fn opt_config_view(r: Option<CommandConfiguration>) -> Option<ConfigV> {
    match r {
        None => None,
        Some(c) => Some(c@),
    }
}

/// A usable flag name: non-empty, not starting with `-` (the parser
/// layer's own prefix), and not `help` (which the parser layer reserves
/// for its built-in flag).
pub open spec fn spec_valid_arg_name(name: Seq<char>) -> bool {
    name.len() > 0 && name[0] != '-' && name != "help"@
}

/// The record invariant on a declaration list: every name usable, no name
/// declared twice.
pub open spec fn spec_args_wf(decls: Seq<ArgV>) -> bool {
    &&& forall|i: int|
        0 <= i < decls.len() ==> spec_valid_arg_name((#[trigger] decls[i]).name)
    &&& forall|i: int, j: int|
        0 <= i < j < decls.len() ==> (#[trigger] decls[i]).name != (#[trigger] decls[j]).name
}

/// Is the name usable as a flag name?
pub fn valid_arg_name(name: &str) -> (r: bool)
    ensures
        r == spec_valid_arg_name(name@),
{
    name.unicode_len() > 0 && name.get_char(0) != '-' && !str_eq(name, "help")
}

/// Does the declaration list satisfy the record invariant?
pub fn arg_names_wf(decls: &Vec<ArgumentEntry>) -> (r: bool)
    ensures
        r == spec_args_wf(decls@.map_values(|a: ArgumentEntry| a@)),
{
    let ghost decls_v = decls@.map_values(|a: ArgumentEntry| a@);
    let mut i: usize = 0;
    while i < decls.len()
        invariant
            i <= decls.len(),
            decls_v == decls@.map_values(|a: ArgumentEntry| a@),
            forall|k: int| 0 <= k < i ==> spec_valid_arg_name((#[trigger] decls_v[k]).name),
            forall|k: int, k2: int|
                0 <= k < k2 < i ==> (#[trigger] decls_v[k]).name != (#[trigger] decls_v[k2]).name,
        decreases decls.len() - i,
    {
        if !valid_arg_name(decls[i].name.as_str()) {
            proof {
                assert(!spec_valid_arg_name(decls_v[i as int].name));
            }
            return false;
        }
        let mut j: usize = 0;
        while j < i
            invariant
                j <= i,
                i < decls.len(),
                decls_v == decls@.map_values(|a: ArgumentEntry| a@),
                forall|k: int| 0 <= k < j ==> (#[trigger] decls_v[k]).name != decls_v[i as int].name,
            decreases i - j,
        {
            if str_eq(decls[j].name.as_str(), decls[i].name.as_str()) {
                proof {
                    assert(decls_v[j as int].name == decls_v[i as int].name);
                }
                return false;
            }
            j = j + 1;
        }
        i = i + 1;
    }
    true
}

/// What `toml` reads out of the top level of a configuration document: the
/// `command_name` string and, when present, the raw list of values under
/// `arguments`.  `None` when the document does not parse to that shape.
/// The result is a function of the text alone.
pub uninterp spec fn spec_config_table(text: Seq<char>) -> Option<
    (Seq<char>, Option<Seq<toml::Value>>),
>;

/// What `toml` reads out of one entry of the `arguments` list: its `name`
/// string and `required` flag, or `None` when the entry lacks them.  The
/// result is a function of the value alone.
pub uninterp spec fn spec_argument_entry(value: toml::Value) -> Option<ArgV>;

#[verifier::external_type_specification]
#[verifier::external_body]
pub struct ExTomlValue(toml::Value);

/// The view of the raw top-level parse result.
pub open spec fn table_result_view(r: Option<(String, Option<Vec<toml::Value>>)>) -> Option<
    (Seq<char>, Option<Seq<toml::Value>>),
> {
    match r {
        None => None,
        Some((name, None)) => Some((name@, None)),
        Some((name, Some(items))) => Some((name@, Some(items@))),
    }
}

/// Relies on `toml::from_str::<toml::Table>` and on `toml::Value::as_str` /
/// `toml::Value::as_array`: parses the document and takes the
/// `command_name` string and the raw `arguments` list out of the table.
#[verifier::external_body]
fn parse_config_table(text: &str) -> (r: Option<(String, Option<Vec<toml::Value>>)>)
    ensures
        table_result_view(r) == spec_config_table(text@),
{
    let table: toml::Table = toml::from_str(text).ok()?;
    let command_name = table.get("command_name")?.as_str()?.to_string();
    let arguments = match table.get("arguments") {
        None => None,
        Some(v) => Some(v.as_array()?.clone()),
    };
    Some((command_name, arguments))
}

/// The view of one parsed argument entry.
pub open spec fn arg_result_view(r: Option<ArgumentEntry>) -> Option<ArgV> {
    match r {
        None => None,
        Some(a) => Some(a@),
    }
}

/// Relies on `toml::Value::get`, `toml::Value::as_str` and
/// `toml::Value::as_bool`: reads one argument declaration (`name`,
/// `required`) out of a TOML value.
#[verifier::external_body]
fn parse_argument_entry(value: &toml::Value) -> (r: Option<ArgumentEntry>)
    ensures
        arg_result_view(r) == spec_argument_entry(*value),
{
    let name = value.get("name")?.as_str()?.to_string();
    let required = value.get("required")?.as_bool()?;
    Some(ArgumentEntry { name, required })
}

/// The record a configuration text parses to: the top-level fields, with
/// every entry of the `arguments` list well-formed and the declared names
/// usable and unique (the record invariant) — any violation makes the
/// whole record absent.
pub open spec fn spec_parse_config(text: Seq<char>) -> Option<ConfigV> {
    match spec_config_table(text) {
        None => None,
        Some((name, None)) => Some(ConfigV { command_name: name, arguments: None }),
        Some((name, Some(items))) => {
            if forall|i: int| 0 <= i < items.len() ==> (#[trigger] spec_argument_entry(items[i]))
                is Some {
                let decls = Seq::new(items.len(), |i: int| spec_argument_entry(items[i])->Some_0);
                if spec_args_wf(decls) {
                    Some(ConfigV { command_name: name, arguments: Some(decls) })
                } else {
                    None
                }
            } else {
                None
            }
        },
    }
}

/// A parsed record's declarations always satisfy the record invariant.
pub proof fn lemma_parsed_config_args_wf(text: Seq<char>)
    ensures
        spec_parse_config(text) matches Some(c) ==> match c.arguments {
            Some(decls) => spec_args_wf(decls),
            None => true,
        },
{
}

/// Parse the text of a configuration file into a record; a text that does
/// not parse to the expected shape gives `None`.
pub fn get_command_configuration(text: &str) -> (r: Option<CommandConfiguration>)
    ensures
        opt_config_view(r) == spec_parse_config(text@),
{
    match parse_config_table(text) {
        None => None,
        Some((command_name, None)) => Some(
            CommandConfiguration { command_name, arguments: None },
        ),
        Some((command_name, Some(items))) => {
            let ghost items_v = items@;
            let ghost cn = command_name@;
            proof {
                assert(spec_config_table(text@) == Some((cn, Some(items_v))));
            }
            let mut entries: Vec<ArgumentEntry> = Vec::new();
            let mut i: usize = 0;
            while i < items.len()
                invariant
                    i <= items.len(),
                    items@ == items_v,
                    spec_config_table(text@) == Some((cn, Some(items_v))),
                    entries.len() == i,
                    forall|j: int|
                        0 <= j < i ==> (#[trigger] spec_argument_entry(items_v[j])) is Some,
                    forall|j: int|
                        0 <= j < i ==> entries@[j]@ == spec_argument_entry(items_v[j])->Some_0,
                decreases items.len() - i,
            {
                match parse_argument_entry(&items[i]) {
                    None => {
                        proof {
                            let spec_items = spec_config_table(text@)->Some_0.1->Some_0;
                            assert(spec_items == items_v);
                            assert(!(spec_argument_entry(spec_items[i as int]) is Some));
                            assert(!(forall|j: int|
                                0 <= j < spec_items.len() ==> (#[trigger] spec_argument_entry(
                                    spec_items[j],
                                )) is Some));
                            assert(spec_parse_config(text@) is None);
                        }
                        return None;
                    },
                    Some(e) => {
                        entries.push(e);
                    },
                }
                i = i + 1;
            }
            proof {
                assert(entries@.map_values(|a: ArgumentEntry| a@) =~= Seq::new(
                    items_v.len(),
                    |j: int| spec_argument_entry(items_v[j])->Some_0,
                ));
            }
            if !arg_names_wf(&entries) {
                return None;
            }
            let r = CommandConfiguration { command_name, arguments: Some(entries) };
            proof {
                let parsed = spec_parse_config(text@);
                assert(parsed matches Some(c) && c.arguments matches Some(s) && s =~= entries@
                    .map_values(|a: ArgumentEntry| a@));
                assert(opt_config_view(Some(r)) matches Some(c1) && parsed matches Some(c2)
                    ==> c1 =~= c2);
            }
            Some(r)
        },
    }
}

} // verus!
