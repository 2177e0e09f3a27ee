//! Loading and validating the configuration.
//!
//! Reading files and parsing the configuration's format are the caller's
//! part.  The library says where a configuration is looked for, turns the
//! file's bytes into text, applies what the command line overrides, and
//! checks every target.
//!
//! What must hold of a configuration is asked in two ways.  A function named
//! `check_..` or `find_..` takes any input and says what it found.  Its
//! counterpart named `validate_..` or `first_..` is for the caller who knows
//! that all is well: it demands so, and has no answer for the other case.

pub mod schema;

use crate::cli::CliArgs;
use crate::config::schema::{Schema, Target, TargetCommand};
use crate::extract::{extracted, ExtractError, Observation};
use crate::pattern::{
    capture_names, compiles, group_names, multiline, multiline_pattern, names_view,
};
use crate::shell_commands::Outcome;
use crate::text::{chars_of, decode_utf8_text, push_all, string_of};
use vstd::pervasive::unreached;
use vstd::prelude::*;

verus! {

/// Why a configuration is refused.
#[derive(Clone, Debug, PartialEq, Eq)]
pub enum ConfigError {
    /// The file is not UTF-8.
    NotText,
    /// The name of target `target` is no metric name.
    InvalidName { target: usize },
    /// The engine refuses the pattern of target `target`; `reason` is its
    /// message.
    InvalidRegex { target: usize, reason: String },
    /// The pattern of target `target` has no group with the name of the
    /// target's value.
    MissingGroup { target: usize },
}

/// A character that a metric name may begin with: a letter or `_`.
pub open spec fn name_start(c: char) -> bool {
    ||| 'a' <= c <= 'z'
    ||| 'A' <= c <= 'Z'
    ||| c == '_'
}

/// A character that a metric name may go on with: a letter, a digit or `_`.
pub open spec fn name_part(c: char) -> bool {
    ||| name_start(c)
    ||| '0' <= c <= '9'
}

/// A metric name: one `name_start`, then any number of `name_part`.
pub open spec fn valid_name(name: Seq<char>) -> bool {
    &&& name.len() > 0
    &&& name_start(name[0])
    &&& forall|i: int| 0 < i < name.len() ==> name_part(#[trigger] name[i])
}

/// The pattern of `target`, in multi-line mode as it is handed to the engine
/// for every run, is accepted by the engine and has a capture group with the
/// name of the target's value.
pub open spec fn valid_regex(target: Target) -> bool {
    &&& compiles(multiline(target.regex@))
    &&& group_names(multiline(target.regex@)).contains(Some(target.regex_named_group@))
}

/// Every target's name is a metric name.
pub open spec fn names_valid(targets: Seq<Target>) -> bool {
    forall|i: int| 0 <= i < targets.len() ==> valid_name((#[trigger] targets[i]).name@)
}

/// `e` names the first target whose name is no metric name.
pub open spec fn name_fault(targets: Seq<Target>, e: ConfigError) -> bool {
    &&& e matches ConfigError::InvalidName { target }
    &&& target < targets.len()
    &&& !valid_name(targets[target as int].name@)
    &&& forall|i: int| 0 <= i < target ==> valid_name((#[trigger] targets[i]).name@)
}

/// Every target's pattern is accepted and has the group of its value.
pub open spec fn regexes_valid(targets: Seq<Target>) -> bool {
    forall|i: int| 0 <= i < targets.len() ==> valid_regex(#[trigger] targets[i])
}

/// `e` names the first target whose pattern fails, and says how it fails: the
/// engine refuses it, or else it lacks the group.
pub open spec fn regex_fault(targets: Seq<Target>, e: ConfigError) -> bool {
    let target = match e {
        ConfigError::InvalidRegex { target, .. } => target as int,
        ConfigError::MissingGroup { target } => target as int,
        _ => -1,
    };
    &&& 0 <= target < targets.len()
    &&& forall|i: int| 0 <= i < target ==> valid_regex(#[trigger] targets[i])
    &&& e is InvalidRegex <==> !compiles(multiline(targets[target].regex@))
    &&& e is MissingGroup <==> compiles(multiline(targets[target].regex@)) && !group_names(
        multiline(targets[target].regex@),
    ).contains(Some(targets[target].regex_named_group@))
}

/// A path with nothing to expand: no `$`, and no `~` at its start.
pub open spec fn plain_path(template: Seq<char>) -> bool {
    &&& !template.contains('$')
    &&& template.len() == 0 || template[0] != '~'
}

/// The byte order mark of UTF-8.
pub open spec fn bom() -> Seq<u8> {
    seq![0xEFu8, 0xBBu8, 0xBFu8]
}

/// `bytes` without a byte order mark at their start.
pub open spec fn without_bom(bytes: Seq<u8>) -> Seq<u8> {
    if bytes.len() >= 3 && bytes.take(3) == bom() {
        bytes.skip(3)
    } else {
        bytes
    }
}

/// `dir` and `file` as one path: `file` alone where `dir` is empty, else the
/// two with one `separator` between them.
pub open spec fn joined(dir: Seq<char>, file: Seq<char>, separator: char) -> Seq<char> {
    if dir.len() == 0 {
        file
    } else if dir.last() == separator {
        dir + file
    } else {
        dir + seq![separator] + file
    }
}

/// The first candidate whose directory and file both exist, or -1.
pub open spec fn first_found(found: Seq<(bool, bool)>) -> int
    decreases found.len(),
{
    if found.len() == 0 {
        -1
    } else if found[0].0 && found[0].1 {
        0
    } else {
        let rest = first_found(found.skip(1));
        if rest < 0 {
            -1
        } else {
            rest + 1
        }
    }
}

/// A target whose pattern passed the check is not refused at a run: the check
/// asks the engine what every run asks it, so extraction never fails with
/// `InvalidPattern` for it.
pub proof fn lemma_valid_target_is_matched(
    target: Target,
    command: TargetCommand,
    outcome: Outcome,
    parsed: Option<u64>,
    res: Result<Observation, ExtractError>,
)
    requires
        valid_regex(target),
        extracted(res, target, command, outcome, parsed),
    ensures
        !(res matches Err(ExtractError::InvalidPattern(_))),
{
}

fn is_name_start(c: char) -> (res: bool)
    ensures
        res == name_start(c),
{
    ('a' <= c && c <= 'z') || ('A' <= c && c <= 'Z') || c == '_'
}

fn is_name_part(c: char) -> (res: bool)
    ensures
        res == name_part(c),
{
    is_name_start(c) || ('0' <= c && c <= '9')
}

/// Tests whether `name` is a metric name.
pub fn is_valid_name(name: &str) -> (res: bool)
    ensures
        res == valid_name(name@),
{
    let letters = chars_of(name);
    if letters.len() == 0 || !is_name_start(letters[0]) {
        return false;
    }
    let mut i: usize = 1;
    while i < letters.len()
        invariant
            1 <= i <= letters.len(),
            letters@ == name@,
            forall|k: int| 0 < k < i ==> name_part(#[trigger] letters@[k]),
        decreases letters.len() - i,
    {
        if !is_name_part(letters[i]) {
            assert(!name_part(name@[i as int]));
            return false;
        }
        i += 1;
    }
    true
}

/// Tests whether `bytes` begin with a byte order mark.
pub fn has_bom(bytes: &Vec<u8>) -> (res: bool)
    ensures
        res == (bytes@.len() >= 3 && bytes@.take(3) == bom()),
{
    if bytes.len() >= 3 && bytes[0] == 0xEF && bytes[1] == 0xBB && bytes[2] == 0xBF {
        assert(bytes@.take(3) =~= bom());
        true
    } else {
        proof {
            if bytes.len() >= 3 {
                assert(bytes@.take(3)[0] == bytes@[0]);
                assert(bytes@.take(3)[1] == bytes@[1]);
                assert(bytes@.take(3)[2] == bytes@[2]);
            }
        }
        false
    }
}

/// Removes a byte order mark from the start of `bytes`.
pub fn strip_bom(bytes: Vec<u8>) -> (res: Vec<u8>)
    ensures
        res@ == without_bom(bytes@),
{
    if has_bom(&bytes) {
        let mut out: Vec<u8> = Vec::new();
        let mut i: usize = 3;
        while i < bytes.len()
            invariant
                3 <= i <= bytes.len(),
                out@ == bytes@.subrange(3, i as int),
            decreases bytes.len() - i,
        {
            out.push(bytes[i]);
            i += 1;
        }
        assert(out@ =~= bytes@.skip(3));
        out
    } else {
        bytes
    }
}

/// The text of a configuration file: its bytes, without a byte order mark,
/// as UTF-8.
pub fn config_text(bytes: Vec<u8>) -> (res: Result<String, ConfigError>)
    ensures
        vstd::utf8::valid_utf8(without_bom(bytes@)) ==> (res matches Ok(text) && text@
            == vstd::utf8::decode_utf8(without_bom(bytes@))),
        !vstd::utf8::valid_utf8(without_bom(bytes@)) ==> res == Err::<String, ConfigError>(
            ConfigError::NotText,
        ),
{
    match decode_utf8_text(strip_bom(bytes)) {
        Some(text) => Ok(text),
        None => Err(ConfigError::NotText),
    }
}

/// The configuration with the host and port of the command line, where it
/// names them.
pub fn apply_cli_overrides(config: Schema, cli: &CliArgs) -> (res: Schema)
    ensures
        res.targets == config.targets,
        res.host@ == match cli.host {
            Some(host) => host@,
            None => config.host@,
        },
        res.port == match cli.port {
            Some(port) => port,
            None => config.port,
        },
{
    let Schema { targets, host, port } = config;
    Schema {
        targets,
        host: match &cli.host {
            Some(cli_host) => cli_host.clone(),
            None => host,
        },
        port: match cli.port {
            Some(cli_port) => cli_port,
            None => port,
        },
    }
}

/// Checks that every target's name is a metric name.  Names the first target
/// whose name is none.
pub fn check_config_labels(config: &Schema) -> (res: Result<(), ConfigError>)
    ensures
        res is Ok <==> names_valid(config.targets@),
        res matches Err(e) ==> name_fault(config.targets@, e),
{
    let mut i: usize = 0;
    while i < config.targets.len()
        invariant
            i <= config.targets.len(),
            forall|k: int| 0 <= k < i ==> valid_name((#[trigger] config.targets@[k]).name@),
        decreases config.targets.len() - i,
    {
        if !is_valid_name(config.targets[i].name.as_str()) {
            return Err(ConfigError::InvalidName { target: i });
        }
        i += 1;
    }
    Ok(())
}

/// Passes a configuration in which every target's name is a metric name.
pub fn validate_config_labels(config: &Schema)
    requires
        names_valid(config.targets@),
{
    match check_config_labels(config) {
        Ok(()) => {},
        Err(_) => unreached(),
    }
}

/// Tests whether one of `names` is `group`.
pub fn has_group(names: &Vec<Option<String>>, group: &String) -> (res: bool)
    ensures
        res == names_view(names@).contains(Some(group@)),
{
    let mut i: usize = 0;
    while i < names.len()
        invariant
            i <= names.len(),
            forall|k: int| 0 <= k < i ==> names_view(names@)[k] != Some(group@),
        decreases names.len() - i,
    {
        let found = match &names[i] {
            Some(name) => *name == *group,
            None => false,
        };
        if found {
            assert(names_view(names@)[i as int] == Some(group@));
            return true;
        }
        i += 1;
    }
    false
}

/// Checks the pattern of one target, given what the engine said of it: its
/// message where it refused the pattern, and else the names of the pattern's
/// capture groups.  An accepted pattern must have a group with the name of
/// the target's value.
pub fn check_regex(
    target: &Target,
    index: usize,
    answer: Result<Vec<Option<String>>, String>,
) -> (res: Result<(), ConfigError>)
    ensures
        answer matches Err(reason) ==> res == Err::<(), ConfigError>(
            ConfigError::InvalidRegex { target: index, reason },
        ),
        answer matches Ok(names) ==> res == if names_view(names@).contains(
            Some(target.regex_named_group@),
        ) {
            Ok::<(), ConfigError>(())
        } else {
            Err::<(), ConfigError>(ConfigError::MissingGroup { target: index })
        },
{
    match answer {
        Err(reason) => Err(ConfigError::InvalidRegex { target: index, reason }),
        Ok(names) => {
            if has_group(&names, &target.regex_named_group) {
                Ok(())
            } else {
                Err(ConfigError::MissingGroup { target: index })
            }
        },
    }
}

/// Checks that every target's pattern is accepted by the engine and has the
/// group of the target's value.  Names the first target that fails, and how.
pub fn check_config_regex(config: &Schema) -> (res: Result<(), ConfigError>)
    ensures
        res is Ok <==> regexes_valid(config.targets@),
        res matches Err(e) ==> regex_fault(config.targets@, e),
{
    let mut i: usize = 0;
    while i < config.targets.len()
        invariant
            i <= config.targets.len(),
            forall|k: int| 0 <= k < i ==> valid_regex(#[trigger] config.targets@[k]),
        decreases config.targets.len() - i,
    {
        let target = &config.targets[i];
        let pattern = multiline_pattern(target.regex.as_str());
        let answer = capture_names(pattern.as_str());
        match check_regex(target, i, answer) {
            Ok(()) => {},
            Err(e) => {
                assert(!valid_regex(config.targets@[i as int]));
                return Err(e);
            },
        }
        i += 1;
    }
    Ok(())
}

/// Passes a configuration in which every target's pattern is accepted by the
/// engine and has the group of the target's value.
pub fn validate_config_regex(config: &Schema)
    requires
        regexes_valid(config.targets@),
{
    match check_config_regex(config) {
        Ok(()) => {},
        Err(_) => unreached(),
    }
}

/// Finishes a configuration that has been read: applies what the command
/// line overrides, then checks the names of the targets, then their patterns.
pub fn finish_config(config: Schema, cli: &CliArgs) -> (res: Result<Schema, ConfigError>)
    ensures
        res is Ok <==> names_valid(config.targets@) && regexes_valid(config.targets@),
        res matches Ok(done) ==> {
            &&& done.targets == config.targets
            &&& done.host@ == match cli.host {
                Some(host) => host@,
                None => config.host@,
            }
            &&& done.port == match cli.port {
                Some(port) => port,
                None => config.port,
            }
        },
        res matches Err(e) ==> if names_valid(config.targets@) {
            regex_fault(config.targets@, e)
        } else {
            name_fault(config.targets@, e)
        },
{
    let done = apply_cli_overrides(config, cli);
    match check_config_labels(&done) {
        Ok(()) => {},
        Err(e) => {
            return Err(e);
        },
    }
    match check_config_regex(&done) {
        Ok(()) => {},
        Err(e) => {
            return Err(e);
        },
    }
    validate_config_labels(&done);
    validate_config_regex(&done);
    Ok(done)
}

/// The name of the directory that holds the configuration.
pub fn config_dir_name() -> (res: String)
    ensures
        res@ == "prometheus_periodic_commands"@,
{
    "prometheus_periodic_commands".to_owned()
}

/// The name of the configuration file.
pub fn config_file_name() -> (res: String)
    ensures
        res@ == "config.yaml"@,
{
    "config.yaml".to_owned()
}

/// Where a configuration is looked for on Linux, first choice first: the
/// empty directory, which leaves the file's name alone as its path, the
/// system's directory, the user's directory.
pub fn linux_config_dirs() -> (res: Vec<String>)
    ensures
        res@.len() == 3,
        res@[0]@ == ""@,
        res@[1]@ == "/etc/"@ + "prometheus_periodic_commands"@,
        res@[2]@ == "~/.config/"@ + "prometheus_periodic_commands"@,
{
    let mut dirs: Vec<String> = Vec::new();
    dirs.push("".to_owned());
    dirs.push(with_dir_name("/etc/"));
    dirs.push(with_dir_name("~/.config/"));
    dirs
}

/// Where a configuration is looked for on Windows, first choice first: the
/// user's directory, the empty directory.
pub fn windows_config_dirs() -> (res: Vec<String>)
    ensures
        res@.len() == 2,
        res@[0]@ == "~\\AppData\\Local\\"@ + "prometheus_periodic_commands"@,
        res@[1]@ == ""@,
{
    let mut dirs: Vec<String> = Vec::new();
    dirs.push(with_dir_name("~\\AppData\\Local\\"));
    dirs.push("".to_owned());
    dirs
}

fn with_dir_name(parent: &str) -> (res: String)
    ensures
        res@ == parent@ + "prometheus_periodic_commands"@,
{
    let mut out = chars_of(parent);
    let name = config_dir_name();
    let letters = chars_of(name.as_str());
    push_all(&mut out, &letters);
    string_of(&out)
}

/// Expands `~` and environment variables in `template` with
/// `shellexpand::full`; `None` stands for the expansion's failure.  What
/// comes back depends on the user and the environment, with two exceptions:
/// the expansion fails only on a variable, so never without a `$`, and a
/// template without a `$` and without a `~` at its start comes back as it
/// is.
#[verifier::external_body]
pub(crate) fn expand_path(template: &str) -> (res: Option<String>)
    ensures
        res is None ==> template@.contains('$'),
        res matches Some(path) ==> (plain_path(template@) ==> path@ == template@),
{
    shellexpand::full(template).ok().map(|expanded| expanded.into_owned())
}

/// Expands each directory of `templates` for the user and the environment
/// that the process runs in.  A directory whose expansion fails gives `None`;
/// one without a `$` does not fail, and one with nothing to expand stays as
/// it is.
pub fn expand_dirs(templates: &Vec<String>) -> (res: Vec<Option<String>>)
    ensures
        res@.len() == templates@.len(),
        forall|i: int|
            0 <= i < templates@.len() && !templates@[i]@.contains('$') ==> (
            #[trigger] res@[i]) is Some,
        forall|i: int|
            0 <= i < templates@.len() && plain_path(templates@[i]@) ==> ((
            #[trigger] res@[i]) matches Some(path) && path@ == templates@[i]@),
{
    let mut out: Vec<Option<String>> = Vec::new();
    let mut i: usize = 0;
    while i < templates.len()
        invariant
            i <= templates.len(),
            out@.len() == i,
            forall|k: int|
                0 <= k < i && !templates@[k]@.contains('$') ==> (#[trigger] out@[k]) is Some,
            forall|k: int|
                0 <= k < i && plain_path(templates@[k]@) ==> ((
                #[trigger] out@[k]) matches Some(path) && path@ == templates@[k]@),
        decreases templates.len() - i,
    {
        out.push(expand_path(templates[i].as_str()));
        i += 1;
    }
    out
}

/// The path of the configuration file in `dir`.
pub fn config_file_in(dir: &str, separator: char) -> (res: String)
    ensures
        res@ == joined(dir@, "config.yaml"@, separator),
{
    let mut out = chars_of(dir);
    if out.len() > 0 && out[out.len() - 1] != separator {
        out.push(separator);
    }
    let name = config_file_name();
    let letters = chars_of(name.as_str());
    push_all(&mut out, &letters);
    assert(out@ =~= joined(dir@, "config.yaml"@, separator));
    string_of(&out)
}

/// Looks for the configuration among the candidates, first choice first.
/// For each candidate `found` says whether its directory exists and whether
/// the file exists in it.  The first candidate with both is taken; `None`
/// where there is none.
pub fn find_config(found: &Vec<(bool, bool)>) -> (res: Option<usize>)
    ensures
        res is None <==> first_found(found@) < 0,
        res matches Some(i) ==> (i == first_found(found@) && i < found@.len() && found@[i as int].0
            && found@[i as int].1),
        res matches Some(i) ==> forall|k: int|
            0 <= k < i ==> !((#[trigger] found@[k]).0 && found@[k].1),
        res is None ==> forall|k: int|
            0 <= k < found@.len() ==> !((#[trigger] found@[k]).0 && found@[k].1),
{
    let mut i: usize = 0;
    proof {
        assert(found@.skip(0) =~= found@);
    }
    while i < found.len()
        invariant
            i <= found.len(),
            forall|k: int| 0 <= k < i ==> !((#[trigger] found@[k]).0 && found@[k].1),
            first_found(found@) == if first_found(found@.skip(i as int)) < 0 {
                -1
            } else {
                first_found(found@.skip(i as int)) + i
            },
        decreases found.len() - i,
    {
        proof {
            assert(found@.skip(i as int)[0] == found@[i as int]);
            assert(found@.skip(i as int).skip(1) =~= found@.skip(i + 1));
        }
        if found[i].0 && found[i].1 {
            return Some(i);
        }
        i += 1;
    }
    None
}

/// Picks the configuration among candidates of which one has its directory
/// and its file: the first such candidate.
pub fn first_config(found: &Vec<(bool, bool)>) -> (res: usize)
    requires
        first_found(found@) >= 0,
    ensures
        res == first_found(found@),
        res < found@.len(),
        found@[res as int].0 && found@[res as int].1,
        forall|k: int| 0 <= k < res ==> !((#[trigger] found@[k]).0 && found@[k].1),
{
    match find_config(found) {
        Some(i) => i,
        None => unreached(),
    }
}

} // verus!
