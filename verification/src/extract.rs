//! From a command's output to an observation.
//!
//! The target's pattern is matched, in multi-line mode, against the trimmed
//! output.  The named group of the target gives the text of the value; the
//! other named groups fill the placeholders of the command's label
//! templates.
//!
//! A value is a double-precision number.  The library holds it as its 64-bit
//! pattern and leaves it to the caller to read the captured text as a number:
//! `capture` gives the text, and `extract` takes the bits that the caller
//! read from it and does the whole, the matching once more included.

use crate::config::schema::{Target, TargetCommand};
use crate::labels::{
    label_map, lemma_label_map, lemma_label_map_append, lemma_position, lemma_position_append,
    lemma_with_label, pairs, position, set_label, unique_names, with_label, Labels,
};
use crate::pattern::{
    capture_names, compiles, first_match, groups_view, multiline, multiline_pattern, search,
    CaptureGroup, Group,
};
use crate::shell_commands::Outcome;
use crate::text::{
    chars_of, decimal, decode_lossy, format_signed, format_unsigned, lemma_replaced_absent,
    lossy_text, occurs, push_all, replace_all, replaced, string_of, trim, trimmed,
};
use vstd::prelude::*;

verus! {

/// Why a run of a command gave no observation.
#[derive(Clone, Debug, PartialEq, Eq)]
pub enum ExtractError {
    /// The command could not be started.
    LaunchFailure,
    /// The engine refused the target's pattern; the text is its message.
    InvalidPattern(String),
    /// The pattern did not match, or the value's group took no part in the
    /// match.
    NoCapture,
    /// The captured text is not a finite number; the text names the capture
    /// groups and the output.
    NonNumeric(String),
}

/// A match from which a value can be read.
#[derive(Clone, Debug, PartialEq, Eq)]
pub struct Captured {
    /// The capture groups of the match.
    pub groups: Vec<CaptureGroup>,
    /// The text that the value's group captured.
    pub value_text: String,
    /// The command's output as text, untrimmed.
    pub stdout: String,
}

/// One extracted value with its labels.
#[derive(Clone, Debug, PartialEq, Eq)]
pub struct Observation {
    /// The label set, no name twice.
    pub labels: Vec<(String, String)>,
    /// The value, as the bits of a double-precision number.
    pub value_bits: u64,
    /// The run time in milliseconds.
    pub duration_ms: i64,
}

/// The text captured by the first group named `name`; `None` where no group
/// has the name or the group took no part in the match.
pub open spec fn group_text(groups: Seq<Group>, name: Seq<char>) -> Option<Seq<char>>
    decreases groups.len(),
{
    if groups.len() == 0 {
        None
    } else if groups[0].0 == Some(name) {
        groups[0].1
    } else {
        group_text(groups.skip(1), name)
    }
}

/// The placeholder for the group `name`: the name in braces.
pub open spec fn placeholder(name: Seq<char>) -> Seq<char> {
    seq!['{'] + name + seq!['}']
}

/// What a group puts in place of its placeholder: its text, or nothing where
/// it took no part in the match.
pub open spec fn substitute(group: Group) -> Seq<char> {
    match group.1 {
        Some(t) => t,
        None => Seq::empty(),
    }
}

/// `template` after one group has filled its placeholders.  A group without
/// a name fills none.
pub open spec fn filled(template: Seq<char>, group: Group) -> Seq<char> {
    match group.0 {
        Some(name) => replaced(template, placeholder(name), substitute(group)),
        None => template,
    }
}

/// `template` after each group in turn has filled its placeholders.  What no
/// group fills stays as it is written.
pub open spec fn resolved(template: Seq<char>, groups: Seq<Group>) -> Seq<char>
    decreases groups.len(),
{
    if groups.len() == 0 {
        template
    } else {
        resolved(filled(template, groups[0]), groups.skip(1))
    }
}

/// `base` with each template of `templates` resolved and set, in order.
pub open spec fn labelled(base: Labels, templates: Labels, groups: Seq<Group>) -> Labels
    decreases templates.len(),
{
    if templates.len() == 0 {
        base
    } else {
        labelled(
            with_label(base, templates[0].0, resolved(templates[0].1, groups)),
            templates.skip(1),
            groups,
        )
    }
}

/// The two labels that every observation has.
pub open spec fn fixed_labels(target_name: Seq<char>, exit_code: int) -> Labels {
    seq![
        (seq!['n', 'a', 'm', 'e'], target_name),
        (seq!['e', 'x', 'i', 't', '_', 'c', 'o', 'd', 'e'], decimal(exit_code)),
    ]
}

/// The label set of an observation: the target's name and the exit code, then
/// the command's labels, which override the two where they have their names.
pub open spec fn label_set(
    target_name: Seq<char>,
    exit_code: int,
    templates: Labels,
    groups: Seq<Group>,
) -> Labels {
    labelled(fixed_labels(target_name, exit_code), templates, groups)
}

/// Placeholders of unknown groups stay: a template in which the placeholder
/// of no named group stands is left as it is written.
pub proof fn lemma_resolved_without_placeholders(template: Seq<char>, groups: Seq<Group>)
    requires
        forall|i: int|
            0 <= i < groups.len() ==> ((#[trigger] groups[i]).0 matches Some(name) ==> !occurs(
                template,
                placeholder(name),
            )),
    ensures
        resolved(template, groups) == template,
    decreases groups.len(),
{
    if groups.len() > 0 {
        if let Some(name) = groups[0].0 {
            lemma_replaced_absent(template, placeholder(name), substitute(groups[0]));
        }
        assert forall|i: int| 0 <= i < groups.skip(1).len() implies ((
        #[trigger] groups.skip(1)[i]).0 matches Some(name) ==> !occurs(
            template,
            placeholder(name),
        )) by {
            assert(groups.skip(1)[i] == groups[i + 1]);
        }
        lemma_resolved_without_placeholders(template, groups.skip(1));
    }
}

/// The labels of `templates`, each with its template resolved.
pub open spec fn resolved_labels(templates: Labels, groups: Seq<Group>) -> Labels {
    Seq::new(templates.len(), |i: int| (templates[i].0, resolved(templates[i].1, groups)))
}

/// Setting the resolved labels one after the other spells out the same as
/// writing them behind the labels that were there, and brings no name twice.
pub proof fn lemma_labelled(base: Labels, templates: Labels, groups: Seq<Group>)
    ensures
        label_map(labelled(base, templates, groups)) == label_map(
            base + resolved_labels(templates, groups),
        ),
        unique_names(base) ==> unique_names(labelled(base, templates, groups)),
    decreases templates.len(),
{
    let written = resolved_labels(templates, groups);
    if templates.len() == 0 {
        assert(base + written =~= base);
    } else {
        let first = (templates[0].0, resolved(templates[0].1, groups));
        let next = with_label(base, first.0, first.1);
        let rest = resolved_labels(templates.skip(1), groups);
        lemma_with_label(base, first.0, first.1);
        lemma_labelled(next, templates.skip(1), groups);
        assert(base.push(first).drop_last() =~= base);
        lemma_label_map_append(next, base.push(first), rest);
        assert(base.push(first) + rest =~= base + written);
    }
}

/// Labels override: in the label set of an observation a name that the
/// command's labels have stands for the resolved template of the last label
/// of that name.  Only a name that they do not have keeps what the fixed
/// pair says: the target's name for `name`, the exit code for `exit_code`.
/// No other name is in the set.
pub proof fn lemma_labels_override(
    target_name: Seq<char>,
    exit_code: int,
    templates: Labels,
    groups: Seq<Group>,
    name: Seq<char>,
)
    ensures
        ({
            let set = label_map(label_set(target_name, exit_code, templates, groups));
            let fixed = fixed_labels(target_name, exit_code);
            let last = position(templates, name);
            &&& unique_names(label_set(target_name, exit_code, templates, groups))
            &&& last >= 0 ==> set.dom().contains(name) && set[name] == resolved(
                templates[last].1,
                groups,
            )
            &&& last < 0 ==> (set.dom().contains(name) <==> name == fixed[0].0 || name
                == fixed[1].0)
            &&& last < 0 && name == fixed[0].0 ==> set[name] == target_name
            &&& last < 0 && name == fixed[1].0 ==> set[name] == decimal(exit_code)
        }),
{
    let fixed = fixed_labels(target_name, exit_code);
    let written = resolved_labels(templates, groups);
    assert(fixed[0].0[0] != fixed[1].0[0]);
    lemma_labelled(fixed, templates, groups);
    lemma_label_map(fixed + written, name);
    lemma_position_append(fixed, written, name);
    lemma_position(fixed + written, name);
    lemma_position(fixed, name);
    lemma_same_names(templates, groups, name);
    reveal_with_fuel(position, 3);
    assert(fixed.drop_last() =~= seq![fixed[0]]);
}

/// Resolving the templates keeps the names where they are.
proof fn lemma_same_names(templates: Labels, groups: Seq<Group>, name: Seq<char>)
    ensures
        position(resolved_labels(templates, groups), name) == position(templates, name),
    decreases templates.len(),
{
    let written = resolved_labels(templates, groups);
    if templates.len() > 0 {
        assert(written.drop_last() =~= resolved_labels(templates.drop_last(), groups));
        lemma_same_names(templates.drop_last(), groups, name);
    }
}

/// The bits of a finite double-precision number: the exponent field is not
/// all ones.
pub open spec fn finite_bits(bits: u64) -> bool {
    (bits >> 52) & 0x7ff != 0x7ff
}

/// The whole milliseconds of `nanos` nanoseconds, wrapped into 64 bits and
/// read as a signed number.
pub open spec fn gauge_millis(nanos: int) -> int {
    let low = (nanos / 1_000_000) % 0x1_0000_0000_0000_0000;
    if low < 0x8000_0000_0000_0000 {
        low
    } else {
        low - 0x1_0000_0000_0000_0000
    }
}

/// How group `index` is written in a message: its name, or its index where it
/// has none, then `=` and the captured text in double quotes, or `-` where
/// the group took no part in the match.
pub open spec fn rendered_group(index: int, group: Group) -> Seq<char> {
    let label = match group.0 {
        Some(name) => name,
        None => decimal(index),
    };
    let text = match group.1 {
        Some(t) => seq!['"'] + t + seq!['"'],
        None => seq!['-'],
    };
    label + seq!['='] + text
}

/// How the groups of a match are written in a message: one after the other,
/// with `, ` between them.
pub open spec fn rendered_groups(groups: Seq<Group>) -> Seq<char>
    decreases groups.len(),
{
    if groups.len() == 0 {
        Seq::empty()
    } else if groups.len() == 1 {
        rendered_group(0, groups[0])
    } else {
        rendered_groups(groups.drop_last()) + seq![',', ' '] + rendered_group(
            groups.len() - 1,
            groups.last(),
        )
    }
}

/// The message of a capture that is no finite number.
pub open spec fn non_numeric_message(groups: Seq<Group>, stdout: Seq<char>) -> Seq<char> {
    "Could not parse capture to a finite number.\nCaptures: "@ + rendered_groups(groups)
        + "\nStdout:"@ + stdout
}

/// What `select_capture` gives for what the engine answered.
pub open spec fn capture_matches(
    res: Result<Captured, ExtractError>,
    found: Option<Seq<Group>>,
    group: Seq<char>,
    stdout: Seq<char>,
) -> bool {
    match found {
        None => res == Err::<Captured, ExtractError>(ExtractError::NoCapture),
        Some(groups) => match group_text(groups, group) {
            None => res == Err::<Captured, ExtractError>(ExtractError::NoCapture),
            Some(text) => res matches Ok(c) && c.value_text@ == text && groups_view(c.groups@)
                == groups && c.stdout@ == stdout,
        },
    }
}

/// What `observe` gives for a run that completed and a match from which a
/// value can be read.
pub open spec fn observed(
    res: Result<Observation, ExtractError>,
    target_name: Seq<char>,
    templates: Labels,
    exit_code: int,
    duration: int,
    groups: Seq<Group>,
    stdout: Seq<char>,
    parsed: Option<u64>,
) -> bool {
    match parsed {
        Some(bits) if finite_bits(bits) => res matches Ok(o) && o.value_bits == bits
            && o.duration_ms == gauge_millis(duration) && unique_names(pairs(o.labels@)) && pairs(
            o.labels@,
        ) == label_set(target_name, exit_code, templates, groups),
        _ => res matches Err(ExtractError::NonNumeric(m)) && m@ == non_numeric_message(
            groups,
            stdout,
        ),
    }
}

/// The groups of the match from which the value of a run is read: those of
/// the leftmost match of the target's pattern, in multi-line mode, in the
/// trimmed output.  `None` where the command did not start, the engine
/// refuses the pattern, nothing matches, or the value's group took no part
/// in the match.
pub open spec fn value_match(target: Target, outcome: Outcome) -> Option<Seq<Group>> {
    match outcome {
        Outcome::LaunchFailed => None,
        Outcome::Completed { stdout, .. } => {
            let pattern = multiline(target.regex@);
            if !compiles(pattern) {
                None
            } else {
                match first_match(pattern, trimmed(lossy_text(stdout@))) {
                    None => None,
                    Some(groups) => match group_text(groups, target.regex_named_group@) {
                        None => None,
                        Some(_) => Some(groups),
                    },
                }
            }
        },
    }
}

/// A run gives an observation: a value can be read from a match, and
/// `parsed` holds the bits of a finite number.
pub open spec fn yields_value(target: Target, outcome: Outcome, parsed: Option<u64>) -> bool {
    &&& value_match(target, outcome) is Some
    &&& parsed matches Some(bits)
    &&& finite_bits(bits)
}

/// What extraction gives for a run, from the output to the observation.
pub open spec fn extracted(
    res: Result<Observation, ExtractError>,
    target: Target,
    command: TargetCommand,
    outcome: Outcome,
    parsed: Option<u64>,
) -> bool {
    match outcome {
        Outcome::LaunchFailed => res == Err::<Observation, ExtractError>(
            ExtractError::LaunchFailure,
        ),
        Outcome::Completed { stdout, exit_code, duration } => {
            let text = lossy_text(stdout@);
            let pattern = multiline(target.regex@);
            if !compiles(pattern) {
                res matches Err(ExtractError::InvalidPattern(_))
            } else {
                match value_match(target, outcome) {
                    None => res == Err::<Observation, ExtractError>(ExtractError::NoCapture),
                    Some(groups) => observed(
                        res,
                        target.name@,
                        pairs(command.labels@),
                        exit_code as int,
                        duration as int,
                        groups,
                        text,
                        parsed,
                    ),
                }
            }
        },
    }
}

impl ExtractError {
    /// The error in words.
    pub fn message(&self) -> (res: String)
        ensures
            self matches ExtractError::LaunchFailure ==> res@ == "Error executing command"@,
            self matches ExtractError::InvalidPattern(m) ==> res@ == m@,
            self matches ExtractError::NoCapture ==> res@
                == "RegEx did not find any captures in stdout"@,
            self matches ExtractError::NonNumeric(m) ==> res@ == m@,
    {
        match self {
            ExtractError::LaunchFailure => "Error executing command".to_owned(),
            ExtractError::InvalidPattern(m) => m.clone(),
            ExtractError::NoCapture => "RegEx did not find any captures in stdout".to_owned(),
            ExtractError::NonNumeric(m) => m.clone(),
        }
    }
}

/// Looks up the text captured by the first group named `name`.
pub fn find_group(groups: &Vec<CaptureGroup>, name: &String) -> (res: Option<String>)
    ensures
        crate::pattern::text_view(res) == group_text(groups_view(groups@), name@),
{
    let ghost all = groups_view(groups@);
    let mut i: usize = 0;
    proof {
        assert(all.skip(0) =~= all);
    }
    while i < groups.len()
        invariant
            i <= groups.len(),
            all == groups_view(groups@),
            group_text(all, name@) == group_text(all.skip(i as int), name@),
        decreases groups.len() - i,
    {
        proof {
            assert(all.skip(i as int)[0] == all[i as int]);
            assert(all.skip(i as int).skip(1) =~= all.skip(i + 1));
        }
        let named = match &groups[i].name {
            Some(n) => *n == *name,
            None => false,
        };
        if named {
            return match &groups[i].text {
                Some(t) => Some(t.clone()),
                None => None,
            };
        }
        i += 1;
    }
    None
}

/// Picks the value's text out of what the engine found in the output.
/// `found` is the engine's answer for the target's pattern and the trimmed
/// output, `group` the name of the value's group, `stdout` the output as
/// text.
pub fn select_capture(
    found: Result<Option<Vec<CaptureGroup>>, String>,
    group: &String,
    stdout: String,
) -> (res: Result<Captured, ExtractError>)
    ensures
        found matches Err(message) ==> res == Err::<Captured, ExtractError>(
            ExtractError::InvalidPattern(message),
        ),
        found matches Ok(None) ==> capture_matches(res, None, group@, stdout@),
        found matches Ok(Some(groups)) ==> capture_matches(
            res,
            Some(groups_view(groups@)),
            group@,
            stdout@,
        ),
{
    match found {
        Err(message) => Err(ExtractError::InvalidPattern(message)),
        Ok(None) => Err(ExtractError::NoCapture),
        Ok(Some(groups)) => match find_group(&groups, group) {
            None => Err(ExtractError::NoCapture),
            Some(value_text) => Ok(Captured { groups, value_text, stdout }),
        },
    }
}

/// Matches the target's pattern against what a run of one of its commands
/// wrote, and picks the text of the value.
///
/// Fails with `LaunchFailure` where the command did not start, with
/// `InvalidPattern` where the engine refuses the pattern, and with
/// `NoCapture` where the pattern does not match the trimmed output or the
/// value's group took no part in the match.
pub fn capture(target: &Target, outcome: &Outcome) -> (res: Result<Captured, ExtractError>)
    ensures
        outcome is LaunchFailed ==> res == Err::<Captured, ExtractError>(
            ExtractError::LaunchFailure,
        ),
        outcome matches Outcome::Completed { stdout, .. } ==> {
            let text = lossy_text(stdout@);
            let pattern = multiline(target.regex@);
            if compiles(pattern) {
                capture_matches(
                    res,
                    first_match(pattern, trimmed(text)),
                    target.regex_named_group@,
                    text,
                )
            } else {
                res matches Err(ExtractError::InvalidPattern(_))
            }
        },
{
    match outcome {
        Outcome::LaunchFailed => Err(ExtractError::LaunchFailure),
        Outcome::Completed { stdout, .. } => {
            let text = decode_lossy(stdout);
            let haystack = string_of(&trim(&chars_of(text.as_str())));
            let pattern = multiline_pattern(target.regex.as_str());
            let found = search(pattern.as_str(), haystack.as_str());
            select_capture(found, &target.regex_named_group, text)
        },
    }
}

/// Fills the placeholders of `template` from the groups of a match.
pub fn resolve_template(template: &str, groups: &Vec<CaptureGroup>) -> (res: String)
    ensures
        res@ == resolved(template@, groups_view(groups@)),
{
    let ghost all = groups_view(groups@);
    let mut current = chars_of(template);
    let mut i: usize = 0;
    proof {
        assert(all.skip(0) =~= all);
    }
    while i < groups.len()
        invariant
            i <= groups.len(),
            all == groups_view(groups@),
            resolved(current@, all.skip(i as int)) == resolved(template@, all),
        decreases groups.len() - i,
    {
        proof {
            assert(all.skip(i as int)[0] == all[i as int]);
            assert(all.skip(i as int).skip(1) =~= all.skip(i + 1));
        }
        match &groups[i].name {
            Some(name) => {
                let mut from: Vec<char> = Vec::new();
                from.push('{');
                let letters = chars_of(name.as_str());
                push_all(&mut from, &letters);
                from.push('}');
                assert(from@ =~= placeholder(name@));
                let to = match &groups[i].text {
                    Some(t) => chars_of(t.as_str()),
                    None => Vec::new(),
                };
                assert(to@ =~= substitute(all[i as int]));
                current = replace_all(&current, &from, &to);
            },
            None => {},
        }
        i += 1;
    }
    string_of(&current)
}

/// Assembles the label set of an observation.
pub fn assemble_labels(
    target: &Target,
    command: &TargetCommand,
    groups: &Vec<CaptureGroup>,
    exit_code: i32,
) -> (res: Vec<(String, String)>)
    ensures
        pairs(res@) == label_set(
            target.name@,
            exit_code as int,
            pairs(command.labels@),
            groups_view(groups@),
        ),
        unique_names(pairs(res@)),
{
    let ghost templates = pairs(command.labels@);
    let ghost all = groups_view(groups@);
    let mut labels: Vec<(String, String)> = Vec::new();
    let code = string_of(&format_signed(exit_code as i64));
    let name_key = "name".to_owned();
    let code_key = "exit_code".to_owned();
    proof {
        reveal_strlit("name");
        reveal_strlit("exit_code");
        assert(name_key@ =~= seq!['n', 'a', 'm', 'e']);
        assert(code_key@ =~= seq!['e', 'x', 'i', 't', '_', 'c', 'o', 'd', 'e']);
        assert(name_key@[0] != code_key@[0]);
    }
    labels.push((name_key, target.name.clone()));
    labels.push((code_key, code));
    proof {
        assert(pairs(labels@) =~= fixed_labels(target.name@, exit_code as int));
        assert(templates.skip(0) =~= templates);
    }
    let mut i: usize = 0;
    while i < command.labels.len()
        invariant
            i <= command.labels.len(),
            templates == pairs(command.labels@),
            all == groups_view(groups@),
            unique_names(pairs(labels@)),
            labelled(pairs(labels@), templates.skip(i as int), all) == label_set(
                target.name@,
                exit_code as int,
                templates,
                all,
            ),
        decreases command.labels.len() - i,
    {
        proof {
            assert(templates.skip(i as int)[0] == templates[i as int]);
            assert(templates.skip(i as int).skip(1) =~= templates.skip(i + 1));
        }
        let value = resolve_template(command.labels[i].1.as_str(), groups);
        set_label(&mut labels, command.labels[i].0.clone(), value);
        i += 1;
    }
    labels
}

/// Tests whether `bits` are the bits of a finite double-precision number.
pub fn is_finite(bits: u64) -> (res: bool)
    ensures
        res == finite_bits(bits),
{
    (bits >> 52) & 0x7ff != 0x7ff
}

/// The run time that a gauge shows for `nanos` nanoseconds.
pub fn duration_millis(nanos: u128) -> (res: i64)
    ensures
        res == gauge_millis(nanos as int),
{
    let millis: u128 = nanos / 1_000_000;
    let low: u128 = millis % 0x1_0000_0000_0000_0000;
    if low < 0x8000_0000_0000_0000 {
        low as i64
    } else {
        let over: u128 = low - 0x8000_0000_0000_0000;
        (over as i64) + i64::MIN
    }
}

fn render_groups(groups: &Vec<CaptureGroup>) -> (res: Vec<char>)
    ensures
        res@ == rendered_groups(groups_view(groups@)),
{
    let ghost all = groups_view(groups@);
    let mut out: Vec<char> = Vec::new();
    let mut i: usize = 0;
    while i < groups.len()
        invariant
            i <= groups.len(),
            all == groups_view(groups@),
            out@ == rendered_groups(all.take(i as int)),
        decreases groups.len() - i,
    {
        proof {
            assert(all.take(i + 1).drop_last() =~= all.take(i as int));
            assert(all.take(i + 1).last() == all[i as int]);
        }
        let ghost before = out@;
        if i > 0 {
            out.push(',');
            out.push(' ');
        }
        let ghost lead = out@;
        match &groups[i].name {
            Some(name) => {
                let letters = chars_of(name.as_str());
                push_all(&mut out, &letters);
            },
            None => {
                let digits = format_unsigned(i as u64);
                push_all(&mut out, &digits);
            },
        }
        out.push('=');
        match &groups[i].text {
            Some(t) => {
                out.push('"');
                let letters = chars_of(t.as_str());
                push_all(&mut out, &letters);
                out.push('"');
            },
            None => {
                out.push('-');
            },
        }
        proof {
            assert(out@ =~= lead + rendered_group(i as int, all[i as int]));
            if i > 0 {
                assert(lead =~= before + seq![',', ' ']);
            } else {
                assert(lead =~= Seq::<char>::empty());
                assert(out@ =~= rendered_group(0, all[0]));
            }
        }
        i += 1;
    }
    proof {
        assert(all.take(i as int) =~= all);
    }
    out
}

/// Makes an observation of what was captured from a run of `command`.
/// `outcome` is how the run ended, `captured` what `capture` made of it, and
/// `parsed` the bits of the number that the value's text reads as, or
/// nothing where it reads as none.
///
/// Fails with `LaunchFailure` where the command did not start, and with
/// `NonNumeric` where `parsed` holds nothing or a number that is not finite.
pub fn observe(
    target: &Target,
    command: &TargetCommand,
    outcome: &Outcome,
    captured: &Captured,
    parsed: Option<u64>,
) -> (res: Result<Observation, ExtractError>)
    ensures
        outcome is LaunchFailed ==> res == Err::<Observation, ExtractError>(
            ExtractError::LaunchFailure,
        ),
        outcome matches Outcome::Completed { exit_code, duration, .. } ==> observed(
            res,
            target.name@,
            pairs(command.labels@),
            exit_code as int,
            duration as int,
            groups_view(captured.groups@),
            captured.stdout@,
            parsed,
        ),
{
    let (exit_code, duration) = match outcome {
        Outcome::LaunchFailed => {
            return Err(ExtractError::LaunchFailure);
        },
        Outcome::Completed { exit_code, duration, .. } => (*exit_code, *duration),
    };
    let finite = match parsed {
        Some(bits) => is_finite(bits),
        None => false,
    };
    if finite {
        let labels = assemble_labels(target, command, &captured.groups, exit_code);
        Ok(
            Observation {
                labels,
                value_bits: parsed.unwrap(),
                duration_ms: duration_millis(duration),
            },
        )
    } else {
        let mut message = chars_of("Could not parse capture to a finite number.\nCaptures: ");
        let groups = render_groups(&captured.groups);
        push_all(&mut message, &groups);
        let middle = chars_of("\nStdout:");
        push_all(&mut message, &middle);
        let tail = chars_of(captured.stdout.as_str());
        push_all(&mut message, &tail);
        Err(ExtractError::NonNumeric(string_of(&message)))
    }
}

/// Asks the engine whether it takes the target's pattern, as it will be
/// handed to it for every run.  To be asked before a command of the target
/// is run.
pub fn check_pattern(target: &Target) -> (res: Result<(), ExtractError>)
    ensures
        res is Ok <==> compiles(multiline(target.regex@)),
        res matches Err(e) ==> e is InvalidPattern,
{
    let pattern = multiline_pattern(target.regex.as_str());
    match capture_names(pattern.as_str()) {
        Ok(_) => Ok(()),
        Err(message) => Err(ExtractError::InvalidPattern(message)),
    }
}

/// Extraction whole: matches the target's pattern against what a run of
/// `command` wrote, reads the value and assembles the labels.  `parsed`
/// holds the bits of the number that the text captured by the value's group
/// reads as, or nothing where it reads as none or there is no such text.
///
/// Fails with `LaunchFailure` where the command did not start, with
/// `InvalidPattern` where the engine refuses the pattern, with `NoCapture`
/// where the pattern does not match the trimmed output or the value's group
/// took no part in the match, and with `NonNumeric` where `parsed` holds
/// nothing or a number that is not finite.
pub fn extract(
    target: &Target,
    command: &TargetCommand,
    outcome: &Outcome,
    parsed: Option<u64>,
) -> (res: Result<Observation, ExtractError>)
    ensures
        res is Ok <==> yields_value(*target, *outcome, parsed),
        extracted(res, *target, *command, *outcome, parsed),
{
    match capture(target, outcome) {
        Err(e) => Err(e),
        Ok(captured) => observe(target, command, outcome, &captured, parsed),
    }
}

} // verus!
