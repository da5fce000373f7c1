//! Validation of the delivered, least-privilege `[pty]` configuration projection.
//!
//! This crate never resolves cloud secrets. The projection is materialized
//! outside the PTY trust boundary, and the validator rejects any evidence that a
//! broker config, cloud reference, or unresolved `${secrets.*}` value leaked into
//! it.
use crate::admin_auth::{parse_verifier_hash, verifier_of};
use crate::clock::{from_secs, SECOND};
use crate::projection::{
    entry_trees, lemma_entry_trees, lemma_trees, read_document, toml_document, tree, trees,
    TomlTree, TomlValue,
};
use crate::text::{
    all_digits, chars_of, contains_text, decimal, decimal_text, digits_value, find, find_entry,
    find_from, has_text, is_digit, joined, lemma_find_entry_prefix,
    lemma_find_from, occurs_at, same_text, text_of,
};
use crate::{quoted, quoted_text, Error};
use vstd::prelude::*;

verus! {

#[derive(Clone, Copy, Debug, PartialEq, Eq, Structural)]
pub enum KillDomainRequirement {
    Tier1Allowed,
    Tier2Required,
}

/// A validated projection.
#[derive(Clone, Debug)]
pub struct PtyConfig {
    pub enabled: bool,
    pub listen: String,
    pub tls_terminated_upstream: bool,
    /// Absolute path of the program a session runs.
    pub command: String,
    pub max_sessions: usize,
    /// Nanoseconds.
    pub absolute_session_ttl: u128,
    pub scrollback_kib: usize,
    pub scrollback_replay: bool,
    /// Literal `sha256:<64 lowercase hex>`; retained as a verifier, never a
    /// credential.
    pub admin_credential_hash: String,
    pub replay_queue_kib: usize,
    pub outbound_backlog_kib: usize,
    pub fixed_session_overhead_kib: usize,
    pub runtime_baseline_kib: usize,
    pub container_memory_request_kib: usize,
    pub per_session_disk_kib: usize,
    pub volume_capacity_kib: usize,
    pub volume_overhead_kib: usize,
    pub kill_domain_requirement: KillDomainRequirement,
}

/// The content of a [`PtyConfig`].
#[verifier::ext_equal]
pub struct ConfigModel {
    pub enabled: bool,
    pub listen: Seq<char>,
    pub tls_terminated_upstream: bool,
    pub command: Seq<char>,
    pub max_sessions: nat,
    pub absolute_session_ttl: nat,
    pub scrollback_kib: nat,
    pub scrollback_replay: bool,
    pub admin_credential_hash: Seq<char>,
    pub replay_queue_kib: nat,
    pub outbound_backlog_kib: nat,
    pub fixed_session_overhead_kib: nat,
    pub runtime_baseline_kib: nat,
    pub container_memory_request_kib: nat,
    pub per_session_disk_kib: nat,
    pub volume_capacity_kib: nat,
    pub volume_overhead_kib: nat,
    pub kill_domain_requirement: KillDomainRequirement,
}

impl View for PtyConfig {
    type V = ConfigModel;

    open spec fn view(&self) -> ConfigModel {
        ConfigModel {
            enabled: self.enabled,
            listen: self.listen@,
            tls_terminated_upstream: self.tls_terminated_upstream,
            command: self.command@,
            max_sessions: self.max_sessions as nat,
            absolute_session_ttl: self.absolute_session_ttl as nat,
            scrollback_kib: self.scrollback_kib as nat,
            scrollback_replay: self.scrollback_replay,
            admin_credential_hash: self.admin_credential_hash@,
            replay_queue_kib: self.replay_queue_kib as nat,
            outbound_backlog_kib: self.outbound_backlog_kib as nat,
            fixed_session_overhead_kib: self.fixed_session_overhead_kib as nat,
            runtime_baseline_kib: self.runtime_baseline_kib as nat,
            container_memory_request_kib: self.container_memory_request_kib as nat,
            per_session_disk_kib: self.per_session_disk_kib as nat,
            volume_capacity_kib: self.volume_capacity_kib as nat,
            volume_overhead_kib: self.volume_overhead_kib as nat,
            kill_domain_requirement: self.kill_domain_requirement,
        }
    }
}

impl ConfigModel {
    /// Memory one session may take.
    pub open spec fn per_session_memory(self) -> nat {
        self.scrollback_kib + self.replay_queue_kib + self.outbound_backlog_kib
            + self.fixed_session_overhead_kib
    }

    /// Memory a full house of sessions takes, with the runtime itself.
    pub open spec fn required_memory(self) -> nat {
        self.max_sessions * self.per_session_memory() + self.runtime_baseline_kib
    }

    /// Disk a full house of sessions takes, with the volume's own overhead.
    pub open spec fn required_disk(self) -> nat {
        self.max_sessions * self.per_session_disk_kib + self.volume_overhead_kib
    }
}

/// Whether a fallible size computation gave `amount`, or refused it with
/// `reason` because it does not fit in a `usize`.
pub open spec fn sized(result: Result<usize, Error>, amount: nat, reason: Seq<char>) -> bool {
    if amount <= usize::MAX {
        result matches Ok(value) && value == amount
    } else {
        result matches Err(Error::Config(message)) && message@ == reason
    }
}

impl PtyConfig {
    pub fn per_session_memory_kib(&self) -> (total: Result<usize, Error>)
        ensures
            sized(total, self@.per_session_memory(), "per-session memory budget overflows usize"@),
    {
        if let Some(a) = self.scrollback_kib.checked_add(self.replay_queue_kib) {
            if let Some(b) = a.checked_add(self.outbound_backlog_kib) {
                if let Some(c) = b.checked_add(self.fixed_session_overhead_kib) {
                    return Ok(c);
                }
            }
        }
        Err(Error::Config("per-session memory budget overflows usize".to_owned()))
    }

    pub fn required_memory_kib(&self) -> (total: Result<usize, Error>)
        ensures
            if self@.per_session_memory() > usize::MAX {
                total matches Err(Error::Config(message)) && message@
                    == "per-session memory budget overflows usize"@
            } else {
                sized(
                    total,
                    self@.required_memory(),
                    "total memory admission formula overflows usize"@,
                )
            },
    {
        let each = match self.per_session_memory_kib() {
            Ok(each) => each,
            Err(error) => return Err(error),
        };
        if let Some(a) = self.max_sessions.checked_mul(each) {
            if let Some(b) = a.checked_add(self.runtime_baseline_kib) {
                return Ok(b);
            }
        }
        Err(Error::Config("total memory admission formula overflows usize".to_owned()))
    }

    pub fn required_disk_kib(&self) -> (total: Result<usize, Error>)
        ensures
            sized(
                total,
                self@.required_disk(),
                "total disk admission formula overflows usize"@,
            ),
    {
        if let Some(a) = self.max_sessions.checked_mul(self.per_session_disk_kib) {
            if let Some(b) = a.checked_add(self.volume_overhead_kib) {
                return Ok(b);
            }
        }
        Err(Error::Config("total disk admission formula overflows usize".to_owned()))
    }
}

/// The environment as name and value pairs.
pub open spec fn env_view(env: Seq<(String, String)>) -> Seq<(Seq<char>, Seq<char>)> {
    Seq::new(env.len(), |i: int| (env[i].0@, env[i].1@))
}

/// The keys a `[pty]` table may hold.
pub open spec fn is_pty_key(key: Seq<char>) -> bool {
    ||| key == "enabled"@
    ||| key == "listen"@
    ||| key == "tls_terminated_upstream"@
    ||| key == "command"@
    ||| key == "max_sessions"@
    ||| key == "absolute_session_ttl"@
    ||| key == "scrollback_kib"@
    ||| key == "scrollback_replay"@
    ||| key == "admin_credential_hash"@
    ||| key == "replay_queue_kib"@
    ||| key == "outbound_backlog_kib"@
    ||| key == "fixed_session_overhead_kib"@
    ||| key == "runtime_baseline_kib"@
    ||| key == "container_memory_request_kib"@
    ||| key == "per_session_disk_kib"@
    ||| key == "volume_capacity_kib"@
    ||| key == "volume_overhead_kib"@
    ||| key == "kill_domain_tier"@
}

/// Why a string may not stand anywhere in a projection.
pub open spec fn text_fault(text: Seq<char>) -> Option<Seq<char>> {
    if contains_text(text, "${secrets."@) {
        Some("${secrets.*} interpolation is forbidden in a PTY projection"@)
    } else if contains_text(text, "://"@) {
        Some("remote/cloud URI references are forbidden in a PTY projection"@)
    } else {
        None
    }
}

/// The first forbidden string in a value, at any depth, in document order.
pub open spec fn value_fault(value: TomlTree) -> Option<Seq<char>>
    decreases value,
{
    match value {
        TomlTree::Text(text) => text_fault(text),
        TomlTree::Array(values) => list_fault(values),
        TomlTree::Table(entries) => table_fault(entries),
        _ => None,
    }
}

/// The first forbidden string in a list of values.
pub open spec fn list_fault(values: Seq<TomlTree>) -> Option<Seq<char>>
    decreases values,
{
    if values.len() == 0 {
        None
    } else {
        match list_fault(values.drop_last()) {
            Some(fault) => Some(fault),
            None => value_fault(values[values.len() - 1]),
        }
    }
}

/// The first forbidden string in a table.
pub open spec fn table_fault(entries: Seq<(Seq<char>, TomlTree)>) -> Option<Seq<char>>
    decreases entries,
{
    if entries.len() == 0 {
        None
    } else {
        match table_fault(entries.drop_last()) {
            Some(fault) => Some(fault),
            None => value_fault(entries[entries.len() - 1].1),
        }
    }
}

/// Whether a fallible step ended as `fault` says: refused with that reason, or
/// done.
pub open spec fn refused(result: Result<(), Error>, fault: Option<Seq<char>>) -> bool {
    match fault {
        Some(reason) => result matches Err(Error::Config(message)) && message@ == reason,
        None => result is Ok,
    }
}

/// Refuse a projection in which a forbidden string stands anywhere.
fn reject_unsafe_values(value: &TomlValue) -> (result: Result<(), Error>)
    ensures
        refused(result, value_fault(tree(*value))),
    decreases value,
{
    match value {
        TomlValue::Text(text) => {
            if has_text(text.as_str(), "${secrets.") {
                return Err(
                    Error::Config(
                        "${secrets.*} interpolation is forbidden in a PTY projection".to_owned(),
                    ),
                );
            }
            if has_text(text.as_str(), "://") {
                return Err(
                    Error::Config(
                        "remote/cloud URI references are forbidden in a PTY projection".to_owned(),
                    ),
                );
            }
            Ok(())
        },
        TomlValue::Array(values) => {
            let mut i: usize = 0;
            proof {
                lemma_trees(values@);
                assert(trees(values@).take(0) =~= Seq::empty());
            }
            while i < values.len()
                invariant
                    0 <= i <= values.len(),
                    *value == TomlValue::Array(*values),
                    list_fault(trees(values@).take(i as int)) is None,
                    trees(values@).len() == values@.len(),
                    forall|j: int|
                        0 <= j < values@.len() ==> #[trigger] trees(values@)[j] == tree(values@[j]),
                decreases values.len() - i,
            {
                assert(trees(values@).take(i + 1).drop_last() =~= trees(values@).take(i as int));
                if let Err(error) = reject_unsafe_values(&values[i]) {
                    proof {
                        lemma_list_fault_prefix(trees(values@), i + 1);
                    }
                    return Err(error);
                }
                i += 1;
            }
            assert(trees(values@).take(i as int) =~= trees(values@));
            Ok(())
        },
        TomlValue::Table(entries) => {
            let mut i: usize = 0;
            proof {
                lemma_entry_trees(entries@);
                assert(entry_trees(entries@).take(0) =~= Seq::empty());
            }
            while i < entries.len()
                invariant
                    0 <= i <= entries.len(),
                    *value == TomlValue::Table(*entries),
                    table_fault(entry_trees(entries@).take(i as int)) is None,
                    entry_trees(entries@).len() == entries@.len(),
                    forall|j: int|
                        0 <= j < entries@.len() ==> #[trigger] entry_trees(entries@)[j] == (
                            entries@[j].0@,
                            tree(entries@[j].1),
                        ),
                decreases entries.len() - i,
            {
                assert(entry_trees(entries@).take(i + 1).drop_last() =~= entry_trees(
                    entries@,
                ).take(i as int));
                if let Err(error) = reject_unsafe_values(&entries[i].1) {
                    proof {
                        lemma_table_fault_prefix(entry_trees(entries@), i + 1);
                    }
                    return Err(error);
                }
                i += 1;
            }
            assert(entry_trees(entries@).take(i as int) =~= entry_trees(entries@));
            Ok(())
        },
        _ => Ok(()),
    }
}

/// A fault in a prefix is the fault of the whole list.
proof fn lemma_list_fault_prefix(values: Seq<TomlTree>, n: int)
    requires
        0 <= n <= values.len(),
        list_fault(values.take(n)) is Some,
    ensures
        list_fault(values) == list_fault(values.take(n)),
    decreases values.len() - n,
{
    if n < values.len() {
        assert(values.take(n + 1).drop_last() =~= values.take(n));
        lemma_list_fault_prefix(values, n + 1);
    } else {
        assert(values.take(n) =~= values);
    }
}

/// A fault in a prefix is the fault of the whole table.
proof fn lemma_table_fault_prefix(entries: Seq<(Seq<char>, TomlTree)>, n: int)
    requires
        0 <= n <= entries.len(),
        table_fault(entries.take(n)) is Some,
    ensures
        table_fault(entries) == table_fault(entries.take(n)),
    decreases entries.len() - n,
{
    if n < entries.len() {
        assert(entries.take(n + 1).drop_last() =~= entries.take(n));
        lemma_table_fault_prefix(entries, n + 1);
    } else {
        assert(entries.take(n) =~= entries);
    }
}

/// The characters an environment name may begin with.
pub open spec fn is_name_start(c: char) -> bool {
    ('a' <= c <= 'z') || ('A' <= c <= 'Z') || c == '_'
}

/// Environment names are `[A-Za-z_][A-Za-z0-9_]*`.
pub open spec fn is_env_name(name: Seq<char>) -> bool {
    &&& name.len() > 0
    &&& is_name_start(name[0])
    &&& forall|i: int|
        0 <= i < name.len() ==> is_name_start(#[trigger] name[i]) || is_digit(name[i])
}

/// `input` from position `at` on, with every `${VAR}` replaced by its value in
/// `env`; or the reason the first offending `${..}` is refused.
pub open spec fn interpolated_from(
    input: Seq<char>,
    at: int,
    env: Seq<(Seq<char>, Seq<char>)>,
) -> Result<Seq<char>, Seq<char>>
    decreases input.len() - at,
    when 0 <= at <= input.len()
{
    proof {
        lemma_find_from(input, "${"@, at);
        if let Some(start) = find_from(input, "${"@, at) {
            reveal_strlit("${");
            lemma_find_from(input, "}"@, start + 2);
            if let Some(end) = find_from(input, "}"@, start + 2) {
                reveal_strlit("}");
                assert(end + 1 <= input.len());
            }
        }
    }
    match find_from(input, "${"@, at) {
        None => Ok(input.skip(at)),
        Some(start) => match find_from(input, "}"@, start + 2) {
            None => Err("unterminated ${VAR} interpolation"@),
            Some(end) => {
                let name = input.subrange(start + 2, end);
                if !is_env_name(name) {
                    Err(
                        "invalid interpolation ${"@ + name
                            + "}; only ${VAR} environment values are allowed"@,
                    )
                } else {
                    match find_entry(env, name) {
                        None => Err(
                            "environment variable "@ + quoted_text(name)
                                + " required by PTY projection is unset"@,
                        ),
                        Some(value) => if contains_text(value, "://"@) || contains_text(
                            value,
                            "${secrets."@,
                        ) {
                            Err(
                                "environment value "@ + quoted_text(name)
                                    + " resolves to a forbidden remote/cloud reference"@,
                            )
                        } else {
                            match interpolated_from(input, end + 1, env) {
                                Err(reason) => Err(reason),
                                Ok(rest) => Ok(input.subrange(at, start) + value + rest),
                            }
                        },
                    }
                }
            },
        },
    }
}

/// `input` with every `${VAR}` replaced.
pub open spec fn interpolated(
    input: Seq<char>,
    env: Seq<(Seq<char>, Seq<char>)>,
) -> Result<Seq<char>, Seq<char>> {
    interpolated_from(input, 0, env)
}

/// Whether a name may stand in `${..}`.
fn names_variable(name: &str) -> (ok: bool)
    ensures
        ok == is_env_name(name@),
{
    let chars = chars_of(name);
    if chars.len() == 0 {
        return false;
    }
    let mut i: usize = 0;
    while i < chars.len()
        invariant
            chars@ == name@,
            chars.len() > 0,
            0 <= i <= chars.len(),
            i > 0 ==> is_name_start(name@[0]),
            forall|j: int|
                0 <= j < i ==> is_name_start(#[trigger] name@[j]) || is_digit(name@[j]),
        decreases chars.len() - i,
    {
        let c = chars[i];
        let start: bool = (c >= 'a' && c <= 'z') || (c >= 'A' && c <= 'Z') || c == '_';
        if !start && (i == 0 || !(c >= '0' && c <= '9')) {
            return false;
        }
        i += 1;
    }
    true
}

/// The value of an environment variable.
fn variable<'a>(env: &'a Vec<(String, String)>, name: &str) -> (found: Option<&'a String>)
    ensures
        match find_entry(env_view(env@), name@) {
            Some(value) => found matches Some(text) && text@ == value,
            None => found is None,
        },
{
    let mut i: usize = 0;
    assert(env_view(env@).take(0) =~= Seq::empty());
    while i < env.len()
        invariant
            0 <= i <= env.len(),
            find_entry(env_view(env@).take(i as int), name@) is None,
        decreases env.len() - i,
    {
        assert(env_view(env@).take(i + 1).drop_last() =~= env_view(env@).take(i as int));
        if same_text(env[i].0.as_str(), name) {
            proof {
                lemma_find_entry_prefix(env_view(env@), name@, i + 1);
            }
            return Some(&env[i].1);
        }
        i += 1;
    }
    assert(env_view(env@).take(i as int) =~= env_view(env@));
    None
}

/// Whether a fallible text computation ended as `expected` says.
pub open spec fn text_outcome(
    result: Result<String, Error>,
    expected: Result<Seq<char>, Seq<char>>,
) -> bool {
    match expected {
        Ok(text) => result matches Ok(value) && value@ == text,
        Err(reason) => result matches Err(Error::Config(message)) && message@ == reason,
    }
}

/// Replace every `${VAR}` in `input` by its value in `env`.
fn interpolate_env(input: &str, env: &Vec<(String, String)>) -> (result: Result<String, Error>)
    ensures
        text_outcome(result, interpolated(input@, env_view(env@))),
{
    let chars = chars_of(input);
    let open = chars_of("${");
    let close = chars_of("}");
    let mut output = String::new();
    let mut at: usize = 0;
    proof {
        reveal_strlit("${");
        reveal_strlit("}");
        let whole = interpolated(input@, env_view(env@));
        if let Ok(text) = whole {
            assert(Seq::<char>::empty() + text =~= text);
        }
    }
    loop
        invariant
            chars@ == input@,
            open@ == "${"@,
            close@ == "}"@,
            open@.len() == 2,
            close@.len() == 1,
            0 <= at <= chars.len(),
            interpolated(input@, env_view(env@)) == (match interpolated_from(
                input@,
                at as int,
                env_view(env@),
            ) {
                Ok(rest) => Ok::<Seq<char>, Seq<char>>(output@ + rest),
                Err(reason) => Err::<Seq<char>, Seq<char>>(reason),
            }),
        decreases chars.len() - at,
    {
        let start = match find(&chars, &open, at) {
            Some(start) => start,
            None => {
                let rest = text_of(&chars, at, chars.len());
                assert(rest@ =~= input@.skip(at as int));
                output.append(rest.as_str());
                return Ok(output);
            },
        };
        let end = match find(&chars, &close, start + 2) {
            Some(end) => end,
            None => return Err(Error::Config("unterminated ${VAR} interpolation".to_owned())),
        };
        let name = text_of(&chars, start + 2, end);
        if !names_variable(name.as_str()) {
            return Err(
                Error::Config(
                    joined(
                        joined("invalid interpolation ${", name.as_str()).as_str(),
                        "}; only ${VAR} environment values are allowed",
                    ),
                ),
            );
        }
        let value = match variable(env, name.as_str()) {
            Some(value) => value,
            None => return Err(
                Error::Config(
                    joined(
                        joined("environment variable ", quoted(name.as_str()).as_str()).as_str(),
                        " required by PTY projection is unset",
                    ),
                ),
            ),
        };
        if has_text(value.as_str(), "://") || has_text(value.as_str(), "${secrets.") {
            return Err(
                Error::Config(
                    joined(
                        joined("environment value ", quoted(name.as_str()).as_str()).as_str(),
                        " resolves to a forbidden remote/cloud reference",
                    ),
                ),
            );
        }
        let before = text_of(&chars, at, start);
        let ghost earlier = output@;
        output.append(before.as_str());
        output.append(value.as_str());
        proof {
            if let Ok(rest) = interpolated_from(input@, end + 1, env_view(env@)) {
                assert(earlier + (input@.subrange(at as int, start as int) + value@ + rest)
                    =~= output@ + rest);
            }
        }
        at = end + 1;
    }
}

/// One entry after interpolation: strings are expanded, the verifier and
/// everything that is not a string stay as they are.
pub open spec fn interpolated_entry(
    entry: (Seq<char>, TomlTree),
    env: Seq<(Seq<char>, Seq<char>)>,
) -> Result<(Seq<char>, TomlTree), Seq<char>> {
    if entry.0 == "admin_credential_hash"@ {
        Ok(entry)
    } else {
        match entry.1 {
            TomlTree::Text(text) => match interpolated(text, env) {
                Ok(expanded) => Ok((entry.0, TomlTree::Text(expanded))),
                Err(reason) => Err(reason),
            },
            _ => Ok(entry),
        }
    }
}

/// A table after interpolation, or the first reason it is refused.
pub open spec fn interpolated_table(
    entries: Seq<(Seq<char>, TomlTree)>,
    env: Seq<(Seq<char>, Seq<char>)>,
) -> Result<Seq<(Seq<char>, TomlTree)>, Seq<char>>
    decreases entries.len(),
{
    if entries.len() == 0 {
        Ok(Seq::empty())
    } else {
        match interpolated_table(entries.drop_last(), env) {
            Err(reason) => Err(reason),
            Ok(done) => match interpolated_entry(entries.last(), env) {
                Err(reason) => Err(reason),
                Ok(entry) => Ok(done.push(entry)),
            },
        }
    }
}

/// A refused prefix refuses the whole table, for the same reason.
proof fn lemma_interpolated_prefix(
    entries: Seq<(Seq<char>, TomlTree)>,
    env: Seq<(Seq<char>, Seq<char>)>,
    n: int,
)
    requires
        0 <= n <= entries.len(),
        interpolated_table(entries.take(n), env) is Err,
    ensures
        interpolated_table(entries, env) == interpolated_table(entries.take(n), env),
    decreases entries.len() - n,
{
    if n < entries.len() {
        assert(entries.take(n + 1).drop_last() =~= entries.take(n));
        lemma_interpolated_prefix(entries, env, n + 1);
    } else {
        assert(entries.take(n) =~= entries);
    }
}

/// Expand the strings of a `[pty]` table in place.
fn interpolate_table(
    table: Vec<(String, TomlValue)>,
    env: &Vec<(String, String)>,
) -> (result: Result<Vec<(String, TomlValue)>, Error>)
    ensures
        match interpolated_table(entry_trees(table@), env_view(env@)) {
            Ok(entries) => result matches Ok(done) && entry_trees(done@) == entries,
            Err(reason) => result matches Err(Error::Config(message)) && message@ == reason,
        },
{
    let ghost before = entry_trees(table@);
    let ghost vars = env_view(env@);
    let mut done: Vec<(String, TomlValue)> = Vec::new();
    proof {
        lemma_entry_trees(table@);
        assert(before.take(0) =~= Seq::empty());
        assert(entry_trees(done@) =~= Seq::empty());
    }
    for entry in it: table
        invariant
            it.seq() == table@,
            before == entry_trees(table@),
            vars == env_view(env@),
            before.len() == table@.len(),
            forall|j: int|
                0 <= j < table@.len() ==> #[trigger] before[j] == (
                    table@[j].0@,
                    tree(table@[j].1),
                ),
            interpolated_table(before.take(it.index() as int), vars) == Ok::<
                Seq<(Seq<char>, TomlTree)>,
                Seq<char>,
            >(entry_trees(done@)),
    {
        let ghost i = it.index() as int;
        assert(before.take(i + 1).drop_last() =~= before.take(i));
        assert(before.take(i + 1).last() == before[i]);
        let (key, value) = entry;
        let ghost key_view = key@;
        let ghost value_tree = tree(value);
        assert(before[i] == (key_view, value_tree));
        let ghost earlier = done@;
        let fixed: bool = same_text(key.as_str(), "admin_credential_hash");
        let expanded = match value {
            TomlValue::Text(text) => if fixed {
                TomlValue::Text(text)
            } else {
                match interpolate_env(text.as_str(), env) {
                    Ok(expanded) => TomlValue::Text(expanded),
                    Err(error) => {
                        proof {
                            lemma_interpolated_prefix(before, vars, i + 1);
                        }
                        return Err(error);
                    },
                }
            },
            other => other,
        };
        let ghost after = (key_view, tree(expanded));
        assert(interpolated_entry(before[i], vars) == Ok::<(Seq<char>, TomlTree), Seq<char>>(after));
        done.push((key, expanded));
        assert(done@.drop_last() =~= earlier);
        assert(entry_trees(done@) == entry_trees(earlier).push(after));
    }
    assert(before.take(before.len() as int) =~= before);
    Ok(done)
}

/// `[pty].<key><what>`: the shape of every message about one key.
pub open spec fn key_message(key: Seq<char>, what: Seq<char>) -> Seq<char> {
    "[pty]."@ + key + what
}

fn key_error(key: &str, what: &str) -> (error: Error)
    ensures
        error matches Error::Config(message) && message@ == key_message(key@, what@),
{
    Error::Config(joined(joined("[pty].", key).as_str(), what))
}

/// A required string.
pub open spec fn required_text(
    table: Seq<(Seq<char>, TomlTree)>,
    key: Seq<char>,
) -> Result<Seq<char>, Seq<char>> {
    match find_entry(table, key) {
        Some(TomlTree::Text(text)) => Ok(text),
        _ => Err(key_message(key, " must be a string and is required"@)),
    }
}

/// A string, or its default where the key is absent.
pub open spec fn text_or(
    table: Seq<(Seq<char>, TomlTree)>,
    key: Seq<char>,
    default: Seq<char>,
) -> Result<Seq<char>, Seq<char>> {
    match find_entry(table, key) {
        None => Ok(default),
        Some(TomlTree::Text(text)) => Ok(text),
        Some(_) => Err(key_message(key, " must be a string"@)),
    }
}

/// A boolean, or its default where the key is absent.
pub open spec fn bool_or(
    table: Seq<(Seq<char>, TomlTree)>,
    key: Seq<char>,
    default: bool,
) -> Result<bool, Seq<char>> {
    match find_entry(table, key) {
        None => Ok(default),
        Some(TomlTree::Boolean(value)) => Ok(value),
        Some(_) => Err(key_message(key, " must be a boolean"@)),
    }
}

/// A size, or its default where the key is absent.
pub open spec fn usize_or(
    table: Seq<(Seq<char>, TomlTree)>,
    key: Seq<char>,
    default: nat,
) -> Result<nat, Seq<char>> {
    match find_entry(table, key) {
        None => Ok(default),
        Some(TomlTree::Integer(value)) => if value < 0 {
            Err(key_message(key, " must be a non-negative integer"@))
        } else if value > usize::MAX {
            Err(key_message(key, " is too large"@))
        } else {
            Ok(value as nat)
        },
        Some(_) => Err(key_message(key, " must be a non-negative integer"@)),
    }
}

/// The first entry under `key`.
fn entry<'a>(table: &'a Vec<(String, TomlValue)>, key: &str) -> (found: Option<&'a TomlValue>)
    ensures
        match find_entry(entry_trees(table@), key@) {
            Some(expected) => found matches Some(value) && tree(*value) == expected,
            None => found is None,
        },
{
    let ghost all = entry_trees(table@);
    let mut i: usize = 0;
    proof {
        lemma_entry_trees(table@);
        assert(all.take(0) =~= Seq::empty());
    }
    while i < table.len()
        invariant
            0 <= i <= table.len(),
            all == entry_trees(table@),
            all.len() == table@.len(),
            forall|j: int|
                0 <= j < table@.len() ==> #[trigger] all[j] == (table@[j].0@, tree(table@[j].1)),
            find_entry(all.take(i as int), key@) is None,
        decreases table.len() - i,
    {
        assert(all.take(i + 1).drop_last() =~= all.take(i as int));
        assert(all.take(i + 1).last() == all[i as int]);
        if same_text(table[i].0.as_str(), key) {
            proof {
                lemma_find_entry_prefix(all, key@, i + 1);
            }
            return Some(&table[i].1);
        }
        i += 1;
    }
    assert(all.take(i as int) =~= all);
    None
}

fn required_string(table: &Vec<(String, TomlValue)>, key: &str) -> (result: Result<String, Error>)
    ensures
        text_outcome(result, required_text(entry_trees(table@), key@)),
{
    match entry(table, key) {
        Some(TomlValue::Text(text)) => Ok(text.clone()),
        _ => Err(key_error(key, " must be a string and is required")),
    }
}

fn string_with_default(table: &Vec<(String, TomlValue)>, key: &str, default: &str) -> (result:
    Result<String, Error>)
    ensures
        text_outcome(result, text_or(entry_trees(table@), key@, default@)),
{
    match entry(table, key) {
        None => Ok(default.to_owned()),
        Some(TomlValue::Text(text)) => Ok(text.clone()),
        Some(_) => Err(key_error(key, " must be a string")),
    }
}

/// Whether a fallible read ended as `expected` says.
pub open spec fn bool_outcome(
    result: Result<bool, Error>,
    expected: Result<bool, Seq<char>>,
) -> bool {
    match expected {
        Ok(value) => result == Ok::<bool, Error>(value),
        Err(reason) => result matches Err(Error::Config(message)) && message@ == reason,
    }
}

/// Whether a fallible read ended as `expected` says.
pub open spec fn usize_outcome(
    result: Result<usize, Error>,
    expected: Result<nat, Seq<char>>,
) -> bool {
    match expected {
        Ok(value) => result matches Ok(actual) && actual == value,
        Err(reason) => result matches Err(Error::Config(message)) && message@ == reason,
    }
}

fn bool_with_default(table: &Vec<(String, TomlValue)>, key: &str, default: bool) -> (result: Result<
    bool,
    Error,
>)
    ensures
        bool_outcome(result, bool_or(entry_trees(table@), key@, default)),
{
    match entry(table, key) {
        None => Ok(default),
        Some(TomlValue::Boolean(value)) => Ok(*value),
        Some(_) => Err(key_error(key, " must be a boolean")),
    }
}

fn usize_with_default(table: &Vec<(String, TomlValue)>, key: &str, default: usize) -> (result:
    Result<usize, Error>)
    ensures
        usize_outcome(result, usize_or(entry_trees(table@), key@, default as nat)),
{
    match entry(table, key) {
        None => Ok(default),
        Some(TomlValue::Integer(value)) => {
            let value: i64 = *value;
            if value < 0 {
                Err(key_error(key, " must be a non-negative integer"))
            } else if value as u64 as u128 > usize::MAX as u128 {
                Err(key_error(key, " is too large"))
            } else {
                Ok(value as u64 as usize)
            }
        },
        Some(_) => Err(key_error(key, " must be a non-negative integer")),
    }
}

/// How many decimal digits a text begins with.
pub open spec fn leading_digits(text: Seq<char>) -> nat
    decreases text.len(),
{
    if text.len() == 0 || !is_digit(text[0]) {
        0
    } else {
        1 + leading_digits(text.drop_first())
    }
}

/// The seconds in one unit of a TTL.
pub open spec fn unit_seconds(unit: Seq<char>) -> Option<nat> {
    if unit == "s"@ {
        Some(1)
    } else if unit == "m"@ {
        Some(60)
    } else if unit == "h"@ {
        Some(60 * 60)
    } else if unit == "d"@ {
        Some(24 * 60 * 60)
    } else {
        None
    }
}

/// The span, in nanoseconds, that a TTL such as `12h` stands for.
pub open spec fn duration_of(text: Seq<char>) -> Result<nat, Seq<char>> {
    let split = leading_digits(text) as int;
    let amount = digits_value(text.take(split));
    if split == text.len() {
        Err("absolute_session_ttl needs a unit (s, m, h, d)"@)
    } else if split == 0 || amount > u64::MAX {
        Err("absolute_session_ttl has an invalid number"@)
    } else if amount == 0 {
        Err("absolute_session_ttl must be non-zero"@)
    } else {
        match unit_seconds(text.skip(split)) {
            None => Err("absolute_session_ttl unit must be s, m, h, or d"@),
            Some(unit) => if amount * unit > u64::MAX {
                Err("absolute_session_ttl overflows"@)
            } else {
                Ok((amount * unit * SECOND) as nat)
            },
        }
    }
}

/// [`leading_digits`] is the position of the first character that is no digit.
proof fn lemma_leading_digits(text: Seq<char>, n: int)
    requires
        0 <= n <= text.len(),
        all_digits(text.take(n)),
        n < text.len() ==> !is_digit(text[n]),
    ensures
        leading_digits(text) == n,
    decreases text.len(),
{
    if n > 0 {
        assert(is_digit(text.take(n)[0]));
        let rest = text.drop_first();
        assert forall|i: int| 0 <= i < n - 1 implies is_digit(#[trigger] rest.take(n - 1)[i]) by {
            assert(rest.take(n - 1)[i] == text.take(n)[i + 1]);
        }
        lemma_leading_digits(rest, n - 1);
    }
}

/// A longer number is no smaller.
proof fn lemma_digits_grow(text: Seq<char>, n: int)
    requires
        0 <= n <= text.len(),
        all_digits(text),
    ensures
        digits_value(text.take(n)) <= digits_value(text),
    decreases text.len() - n,
{
    if n < text.len() {
        assert(text.take(n + 1).drop_last() =~= text.take(n));
        assert(is_digit(text[n]));
        lemma_digits_grow(text, n + 1);
    } else {
        assert(text.take(n) =~= text);
    }
}

/// The 64-bit number that decimal digits stand for, if it fits.
fn parse_u64(chars: &Vec<char>, to: usize) -> (value: Option<u64>)
    requires
        to <= chars.len(),
        all_digits(chars@.take(to as int)),
    ensures
        match value {
            Some(n) => n == digits_value(chars@.take(to as int)),
            None => digits_value(chars@.take(to as int)) > u64::MAX,
        },
{
    let ghost digits = chars@.take(to as int);
    let mut value: u64 = 0;
    let mut i: usize = 0;
    assert(digits.take(0) =~= Seq::empty());
    while i < to
        invariant
            0 <= i <= to <= chars.len(),
            digits == chars@.take(to as int),
            all_digits(digits),
            value == digits_value(digits.take(i as int)),
        decreases to - i,
    {
        assert(digits.take(i + 1).drop_last() =~= digits.take(i as int));
        assert(digits.take(i + 1).last() == chars@[i as int]);
        assert(is_digit(digits[i as int]));
        let c = chars[i];
        let wide: u128 = value as u128 * 10 + (c as u32 - 48) as u128;
        assert(wide == digits_value(digits.take(i + 1)));
        if wide > u64::MAX as u128 {
            proof {
                lemma_digits_grow(digits, i + 1);
            }
            return None;
        }
        value = wide as u64;
        i += 1;
    }
    assert(digits.take(to as int) =~= digits);
    Some(value)
}

fn parse_duration(value: &str) -> (result: Result<u128, Error>)
    ensures
        match duration_of(value@) {
            Ok(span) => result matches Ok(actual) && actual == span,
            Err(reason) => result matches Err(Error::Config(message)) && message@ == reason,
        },
{
    let chars = chars_of(value);
    let mut split: usize = 0;
    while split < chars.len() && chars[split] >= '0' && chars[split] <= '9'
        invariant
            chars@ == value@,
            0 <= split <= chars.len(),
            forall|j: int| 0 <= j < split ==> is_digit(#[trigger] chars@[j]),
        decreases chars.len() - split,
    {
        split += 1;
    }
    proof {
        lemma_leading_digits(value@, split as int);
    }
    if split == chars.len() {
        return Err(Error::Config("absolute_session_ttl needs a unit (s, m, h, d)".to_owned()));
    }
    let amount = match parse_u64(&chars, split) {
        Some(amount) => amount,
        None => return Err(
            Error::Config("absolute_session_ttl has an invalid number".to_owned()),
        ),
    };
    if split == 0 {
        return Err(Error::Config("absolute_session_ttl has an invalid number".to_owned()));
    }
    if amount == 0 {
        return Err(Error::Config("absolute_session_ttl must be non-zero".to_owned()));
    }
    let unit = text_of(&chars, split, chars.len());
    assert(unit@ =~= value@.skip(split as int));
    let seconds = if same_text(unit.as_str(), "s") {
        Some(amount)
    } else if same_text(unit.as_str(), "m") {
        amount.checked_mul(60)
    } else if same_text(unit.as_str(), "h") {
        amount.checked_mul(60 * 60)
    } else if same_text(unit.as_str(), "d") {
        amount.checked_mul(24 * 60 * 60)
    } else {
        return Err(
            Error::Config("absolute_session_ttl unit must be s, m, h, or d".to_owned()),
        );
    };
    match seconds {
        Some(seconds) => Ok(from_secs(seconds)),
        None => Err(Error::Config("absolute_session_ttl overflows".to_owned())),
    }
}

/// What a kill-domain setting asks for.
pub open spec fn kill_domain_of(value: Seq<char>) -> Result<KillDomainRequirement, Seq<char>> {
    if value == "tier1"@ {
        Ok(KillDomainRequirement::Tier1Allowed)
    } else if value == "tier2-required"@ {
        Ok(KillDomainRequirement::Tier2Required)
    } else {
        Err("kill_domain_tier must be tier1 or tier2-required"@)
    }
}

fn parse_kill_domain(value: &str) -> (result: Result<KillDomainRequirement, Error>)
    ensures
        match kill_domain_of(value@) {
            Ok(requirement) => result == Ok::<KillDomainRequirement, Error>(requirement),
            Err(reason) => result matches Err(Error::Config(message)) && message@ == reason,
        },
{
    if same_text(value, "tier1") {
        Ok(KillDomainRequirement::Tier1Allowed)
    } else if same_text(value, "tier2-required") {
        Ok(KillDomainRequirement::Tier2Required)
    } else {
        Err(Error::Config("kill_domain_tier must be tier1 or tier2-required".to_owned()))
    }
}

/// How a kill-domain requirement is written in a projection.
pub open spec fn kill_domain_text(requirement: KillDomainRequirement) -> Seq<char> {
    match requirement {
        KillDomainRequirement::Tier1Allowed => "tier1"@,
        KillDomainRequirement::Tier2Required => "tier2-required"@,
    }
}

impl KillDomainRequirement {
    /// The setting that asks for this.
    pub fn as_config_value(self) -> (value: &'static str)
        ensures
            value@ == kill_domain_text(self),
    {
        match self {
            KillDomainRequirement::Tier1Allowed => "tier1",
            KillDomainRequirement::Tier2Required => "tier2-required",
        }
    }
}

/// A kill-domain requirement reads back as itself from the setting it is written
/// as.
pub proof fn law_kill_domain_reads_back(requirement: KillDomainRequirement)
    ensures
        kill_domain_of(kill_domain_text(requirement)) == Ok::<KillDomainRequirement, Seq<char>>(
            requirement,
        ),
{
    reveal_strlit("tier1");
    reveal_strlit("tier2-required");
    assert("tier1"@.len() != "tier2-required"@.len());
}

/// Why a configuration is not admitted, if it is not.
pub open spec fn admission_fault(config: ConfigModel) -> Option<Seq<char>> {
    if config.max_sessions == 0 {
        Some("max_sessions must be non-zero"@)
    } else if config.command.len() == 0 || config.command[0] != '/' {
        Some("command must be a non-empty absolute local path"@)
    } else if config.per_session_memory() > usize::MAX {
        Some("per-session memory budget overflows usize"@)
    } else if config.required_memory() > usize::MAX {
        Some("total memory admission formula overflows usize"@)
    } else if config.required_memory() > config.container_memory_request_kib {
        Some(
            "memory admission failed: "@ + decimal(config.required_memory())
                + " KiB required exceeds container_memory_request_kib "@ + decimal(
                config.container_memory_request_kib,
            ) + " KiB"@,
        )
    } else if config.required_disk() > usize::MAX {
        Some("total disk admission formula overflows usize"@)
    } else if config.required_disk() > config.volume_capacity_kib {
        Some(
            "disk admission failed: "@ + decimal(config.required_disk())
                + " KiB required exceeds volume_capacity_kib "@ + decimal(
                config.volume_capacity_kib,
            ) + " KiB"@,
        )
    } else {
        None
    }
}

/// Refuse a configuration that its container or volume cannot hold.
fn validate_admission(config: &PtyConfig) -> (result: Result<(), Error>)
    ensures
        refused(result, admission_fault(config@)),
{
    if config.max_sessions == 0 {
        return Err(Error::Config("max_sessions must be non-zero".to_owned()));
    }
    let command = chars_of(config.command.as_str());
    if command.len() == 0 || command[0] != '/' {
        return Err(Error::Config("command must be a non-empty absolute local path".to_owned()));
    }
    let memory = match config.required_memory_kib() {
        Ok(memory) => memory,
        Err(error) => return Err(error),
    };
    if memory > config.container_memory_request_kib {
        let need = joined("memory admission failed: ", decimal_text(memory as u128).as_str());
        let bound = joined(
            need.as_str(),
            " KiB required exceeds container_memory_request_kib ",
        );
        let message = joined(
            bound.as_str(),
            decimal_text(config.container_memory_request_kib as u128).as_str(),
        );
        return Err(Error::Config(joined(message.as_str(), " KiB")));
    }
    let disk = match config.required_disk_kib() {
        Ok(disk) => disk,
        Err(error) => return Err(error),
    };
    if disk > config.volume_capacity_kib {
        let need = joined("disk admission failed: ", decimal_text(disk as u128).as_str());
        let bound = joined(need.as_str(), " KiB required exceeds volume_capacity_kib ");
        let message = joined(
            bound.as_str(),
            decimal_text(config.volume_capacity_kib as u128).as_str(),
        );
        return Err(Error::Config(joined(message.as_str(), " KiB")));
    }
    Ok(())
}

/// The configuration that a checked and interpolated table spells out. The first
/// offending key decides the refusal.
pub open spec fn read_model(table: Seq<(Seq<char>, TomlTree)>, hash: Seq<char>) -> Result<
    ConfigModel,
    Seq<char>,
> {
    let enabled = bool_or(table, "enabled"@, false);
    let listen = text_or(table, "listen"@, "0.0.0.0:8090"@);
    let tls_terminated_upstream = bool_or(table, "tls_terminated_upstream"@, true);
    let command = text_or(table, "command"@, "/bin/bash"@);
    let max_sessions = usize_or(table, "max_sessions"@, 4);
    let absolute_session_ttl = match text_or(table, "absolute_session_ttl"@, "12h"@) {
        Ok(text) => duration_of(text),
        Err(reason) => Err(reason),
    };
    let scrollback_kib = usize_or(table, "scrollback_kib"@, 1024);
    let scrollback_replay = bool_or(table, "scrollback_replay"@, false);
    let replay_queue_kib = usize_or(table, "replay_queue_kib"@, 256);
    let outbound_backlog_kib = usize_or(table, "outbound_backlog_kib"@, 256);
    let fixed_session_overhead_kib = usize_or(table, "fixed_session_overhead_kib"@, 512);
    let runtime_baseline_kib = usize_or(table, "runtime_baseline_kib"@, 16 * 1024);
    let container_memory_request_kib = usize_or(table, "container_memory_request_kib"@, 32 * 1024);
    let per_session_disk_kib = usize_or(table, "per_session_disk_kib"@, 1024 * 1024);
    let volume_capacity_kib = usize_or(table, "volume_capacity_kib"@, 5 * 1024 * 1024);
    let volume_overhead_kib = usize_or(table, "volume_overhead_kib"@, 1024 * 1024);
    let kill_domain_tier = match text_or(table, "kill_domain_tier"@, "tier1"@) {
        Ok(text) => kill_domain_of(text),
        Err(reason) => Err(reason),
    };
    if enabled is Err {
        Err(enabled->Err_0)
    } else if listen is Err {
        Err(listen->Err_0)
    } else if tls_terminated_upstream is Err {
        Err(tls_terminated_upstream->Err_0)
    } else if command is Err {
        Err(command->Err_0)
    } else if max_sessions is Err {
        Err(max_sessions->Err_0)
    } else if absolute_session_ttl is Err {
        Err(absolute_session_ttl->Err_0)
    } else if scrollback_kib is Err {
        Err(scrollback_kib->Err_0)
    } else if scrollback_replay is Err {
        Err(scrollback_replay->Err_0)
    } else if replay_queue_kib is Err {
        Err(replay_queue_kib->Err_0)
    } else if outbound_backlog_kib is Err {
        Err(outbound_backlog_kib->Err_0)
    } else if fixed_session_overhead_kib is Err {
        Err(fixed_session_overhead_kib->Err_0)
    } else if runtime_baseline_kib is Err {
        Err(runtime_baseline_kib->Err_0)
    } else if container_memory_request_kib is Err {
        Err(container_memory_request_kib->Err_0)
    } else if per_session_disk_kib is Err {
        Err(per_session_disk_kib->Err_0)
    } else if volume_capacity_kib is Err {
        Err(volume_capacity_kib->Err_0)
    } else if volume_overhead_kib is Err {
        Err(volume_overhead_kib->Err_0)
    } else if kill_domain_tier is Err {
        Err(kill_domain_tier->Err_0)
    } else {
        Ok(
            ConfigModel {
                enabled: enabled->Ok_0,
                listen: listen->Ok_0,
                tls_terminated_upstream: tls_terminated_upstream->Ok_0,
                command: command->Ok_0,
                max_sessions: max_sessions->Ok_0,
                absolute_session_ttl: absolute_session_ttl->Ok_0,
                scrollback_kib: scrollback_kib->Ok_0,
                scrollback_replay: scrollback_replay->Ok_0,
                admin_credential_hash: hash,
                replay_queue_kib: replay_queue_kib->Ok_0,
                outbound_backlog_kib: outbound_backlog_kib->Ok_0,
                fixed_session_overhead_kib: fixed_session_overhead_kib->Ok_0,
                runtime_baseline_kib: runtime_baseline_kib->Ok_0,
                container_memory_request_kib: container_memory_request_kib->Ok_0,
                per_session_disk_kib: per_session_disk_kib->Ok_0,
                volume_capacity_kib: volume_capacity_kib->Ok_0,
                volume_overhead_kib: volume_overhead_kib->Ok_0,
                kill_domain_requirement: kill_domain_tier->Ok_0,
            },
        )
    }
}

/// Whether a fallible configuration ended as `expected` says.
pub open spec fn config_outcome(
    result: Result<PtyConfig, Error>,
    expected: Result<ConfigModel, Seq<char>>,
) -> bool {
    match expected {
        Ok(model) => result matches Ok(config) && config@ == model,
        Err(reason) => result matches Err(Error::Config(message)) && message@ == reason,
    }
}

fn read_config(table: &Vec<(String, TomlValue)>, hash: String) -> (result: Result<PtyConfig, Error>)
    ensures
        config_outcome(result, read_model(entry_trees(table@), hash@)),
{
    let enabled = match bool_with_default(table, "enabled", false) {
        Ok(value) => value,
        Err(error) => return Err(error),
    };
    let listen = match string_with_default(table, "listen", "0.0.0.0:8090") {
        Ok(value) => value,
        Err(error) => return Err(error),
    };
    let tls_terminated_upstream = match bool_with_default(table, "tls_terminated_upstream", true) {
        Ok(value) => value,
        Err(error) => return Err(error),
    };
    let command = match string_with_default(table, "command", "/bin/bash") {
        Ok(value) => value,
        Err(error) => return Err(error),
    };
    let max_sessions = match usize_with_default(table, "max_sessions", 4) {
        Ok(value) => value,
        Err(error) => return Err(error),
    };
    let ttl_text = match string_with_default(table, "absolute_session_ttl", "12h") {
        Ok(value) => value,
        Err(error) => return Err(error),
    };
    let absolute_session_ttl = match parse_duration(ttl_text.as_str()) {
        Ok(value) => value,
        Err(error) => return Err(error),
    };
    let scrollback_kib = match usize_with_default(table, "scrollback_kib", 1024) {
        Ok(value) => value,
        Err(error) => return Err(error),
    };
    let scrollback_replay = match bool_with_default(table, "scrollback_replay", false) {
        Ok(value) => value,
        Err(error) => return Err(error),
    };
    let replay_queue_kib = match usize_with_default(table, "replay_queue_kib", 256) {
        Ok(value) => value,
        Err(error) => return Err(error),
    };
    let outbound_backlog_kib = match usize_with_default(table, "outbound_backlog_kib", 256) {
        Ok(value) => value,
        Err(error) => return Err(error),
    };
    let fixed_session_overhead_kib = match usize_with_default(table, "fixed_session_overhead_kib", 512) {
        Ok(value) => value,
        Err(error) => return Err(error),
    };
    let runtime_baseline_kib = match usize_with_default(table, "runtime_baseline_kib", 16 * 1024) {
        Ok(value) => value,
        Err(error) => return Err(error),
    };
    let container_memory_request_kib = match usize_with_default(table, "container_memory_request_kib", 32 * 1024) {
        Ok(value) => value,
        Err(error) => return Err(error),
    };
    let per_session_disk_kib = match usize_with_default(table, "per_session_disk_kib", 1024 * 1024) {
        Ok(value) => value,
        Err(error) => return Err(error),
    };
    let volume_capacity_kib = match usize_with_default(table, "volume_capacity_kib", 5 * 1024 * 1024) {
        Ok(value) => value,
        Err(error) => return Err(error),
    };
    let volume_overhead_kib = match usize_with_default(table, "volume_overhead_kib", 1024 * 1024) {
        Ok(value) => value,
        Err(error) => return Err(error),
    };
    let tier_text = match string_with_default(table, "kill_domain_tier", "tier1") {
        Ok(value) => value,
        Err(error) => return Err(error),
    };
    let kill_domain_tier = match parse_kill_domain(tier_text.as_str()) {
        Ok(value) => value,
        Err(error) => return Err(error),
    };
    Ok(
        PtyConfig {
            enabled,
            listen,
            tls_terminated_upstream,
            command,
            max_sessions,
            absolute_session_ttl,
            scrollback_kib,
            scrollback_replay,
            admin_credential_hash: hash,
            replay_queue_kib,
            outbound_backlog_kib,
            fixed_session_overhead_kib,
            runtime_baseline_kib,
            container_memory_request_kib,
            per_session_disk_kib,
            volume_capacity_kib,
            volume_overhead_kib,
            kill_domain_requirement: kill_domain_tier,
        },
    )
}

/// The first key that a `[pty]` table may not hold.
pub open spec fn unknown_key(table: Seq<(Seq<char>, TomlTree)>) -> Option<Seq<char>>
    decreases table.len(),
{
    if table.len() == 0 {
        None
    } else {
        match unknown_key(table.drop_last()) {
            Some(key) => Some(key),
            None => if is_pty_key(table.last().0) {
                None
            } else {
                Some(table.last().0)
            },
        }
    }
}

/// An unknown key in a prefix is the one of the whole table.
proof fn lemma_unknown_key_prefix(table: Seq<(Seq<char>, TomlTree)>, n: int)
    requires
        0 <= n <= table.len(),
        unknown_key(table.take(n)) is Some,
    ensures
        unknown_key(table) == unknown_key(table.take(n)),
    decreases table.len() - n,
{
    if n < table.len() {
        assert(table.take(n + 1).drop_last() =~= table.take(n));
        lemma_unknown_key_prefix(table, n + 1);
    } else {
        assert(table.take(n) =~= table);
    }
}

fn knows_key(key: &str) -> (known: bool)
    ensures
        known == is_pty_key(key@),
{
    same_text(key, "enabled")
        || same_text(key, "listen")
        || same_text(key, "tls_terminated_upstream")
        || same_text(key, "command")
        || same_text(key, "max_sessions")
        || same_text(key, "absolute_session_ttl")
        || same_text(key, "scrollback_kib")
        || same_text(key, "scrollback_replay")
        || same_text(key, "admin_credential_hash")
        || same_text(key, "replay_queue_kib")
        || same_text(key, "outbound_backlog_kib")
        || same_text(key, "fixed_session_overhead_kib")
        || same_text(key, "runtime_baseline_kib")
        || same_text(key, "container_memory_request_kib")
        || same_text(key, "per_session_disk_kib")
        || same_text(key, "volume_capacity_kib")
        || same_text(key, "volume_overhead_kib")
        || same_text(key, "kill_domain_tier")
}

/// Refuse a table with a key that means nothing here.
fn reject_unknown_keys(table: &Vec<(String, TomlValue)>) -> (result: Result<(), Error>)
    ensures
        match unknown_key(entry_trees(table@)) {
            Some(key) => result matches Err(Error::Config(message)) && message@
                == "unknown [pty] key "@ + quoted_text(key),
            None => result is Ok,
        },
{
    let ghost all = entry_trees(table@);
    let mut i: usize = 0;
    proof {
        lemma_entry_trees(table@);
        assert(all.take(0) =~= Seq::empty());
    }
    while i < table.len()
        invariant
            0 <= i <= table.len(),
            all == entry_trees(table@),
            all.len() == table@.len(),
            forall|j: int|
                0 <= j < table@.len() ==> #[trigger] all[j] == (table@[j].0@, tree(table@[j].1)),
            unknown_key(all.take(i as int)) is None,
        decreases table.len() - i,
    {
        assert(all.take(i + 1).drop_last() =~= all.take(i as int));
        assert(all.take(i + 1).last() == all[i as int]);
        if !knows_key(table[i].0.as_str()) {
            proof {
                lemma_unknown_key_prefix(all, i + 1);
            }
            return Err(
                Error::Config(joined("unknown [pty] key ", quoted(table[i].0.as_str()).as_str())),
            );
        }
        i += 1;
    }
    assert(all.take(i as int) =~= all);
    Ok(())
}

/// What a `[pty]` table is worth: a configuration, or the reason it is refused.
/// The verifier is judged before any interpolation.
pub open spec fn project_pty(
    table: Seq<(Seq<char>, TomlTree)>,
    env: Seq<(Seq<char>, Seq<char>)>,
) -> Result<ConfigModel, Seq<char>> {
    match unknown_key(table) {
        Some(key) => Err("unknown [pty] key "@ + quoted_text(key)),
        None => match required_text(table, "admin_credential_hash"@) {
            Err(reason) => Err(reason),
            Ok(hash) => if hash.len() == 0 || contains_text(hash, "${"@) {
                Err(
                    "admin_credential_hash must be a non-empty literal verifier hash; interpolation is forbidden"@,
                )
            } else {
                match verifier_of(hash) {
                    Err(reason) => Err(reason),
                    Ok(_) => match interpolated_table(table, env) {
                        Err(reason) => Err(reason),
                        Ok(expanded) => match read_model(expanded, hash) {
                            Err(reason) => Err(reason),
                            Ok(model) => match admission_fault(model) {
                                Some(reason) => Err(reason),
                                None => Ok(model),
                            },
                        },
                    },
                }
            },
        },
    }
}

/// Validate a `[pty]` table.
fn validate_pty(table: Vec<(String, TomlValue)>, env: &Vec<(String, String)>) -> (result: Result<
    PtyConfig,
    Error,
>)
    ensures
        config_outcome(result, project_pty(entry_trees(table@), env_view(env@))),
{
    if let Err(error) = reject_unknown_keys(&table) {
        return Err(error);
    }
    let hash = match required_string(&table, "admin_credential_hash") {
        Ok(hash) => hash,
        Err(error) => return Err(error),
    };
    if hash.as_str().is_empty() || has_text(hash.as_str(), "${") {
        return Err(
            Error::Config(
                "admin_credential_hash must be a non-empty literal verifier hash; interpolation is forbidden".to_owned(),
            ),
        );
    }
    if let Err(error) = parse_verifier_hash(hash.as_str()) {
        return Err(error);
    }
    let expanded = match interpolate_table(table, env) {
        Ok(expanded) => expanded,
        Err(error) => return Err(error),
    };
    let config = match read_config(&expanded, hash) {
        Ok(config) => config,
        Err(error) => return Err(error),
    };
    if let Err(error) = validate_admission(&config) {
        return Err(error);
    }
    Ok(config)
}

/// The section names of a document, separated by commas.
pub open spec fn section_list(entries: Seq<(Seq<char>, TomlTree)>) -> Seq<char>
    decreases entries.len(),
{
    if entries.len() == 0 {
        Seq::empty()
    } else if entries.len() == 1 {
        entries[0].0
    } else {
        section_list(entries.drop_last()) + ", "@ + entries.last().0
    }
}

fn list_sections(entries: &Vec<(String, TomlValue)>) -> (list: String)
    ensures
        list@ == section_list(entry_trees(entries@)),
{
    let ghost all = entry_trees(entries@);
    let mut list = String::new();
    let mut i: usize = 0;
    proof {
        lemma_entry_trees(entries@);
        assert(all.take(0) =~= Seq::empty());
        assert(list@ =~= Seq::empty());
    }
    while i < entries.len()
        invariant
            0 <= i <= entries.len(),
            all == entry_trees(entries@),
            all.len() == entries@.len(),
            forall|j: int|
                0 <= j < entries@.len() ==> #[trigger] all[j] == (
                    entries@[j].0@,
                    tree(entries@[j].1),
                ),
            list@ == section_list(all.take(i as int)),
        decreases entries.len() - i,
    {
        assert(all.take(i + 1).drop_last() =~= all.take(i as int));
        assert(all.take(i + 1).last() == all[i as int]);
        if i > 0 {
            list.append(", ");
        } else {
            assert(list@ + entries@[0].0@ =~= entries@[0].0@);
        }
        list.append(entries[i].0.as_str());
        i += 1;
    }
    assert(all.take(i as int) =~= all);
    list
}

/// Whether a document holds the `[pty]` section and no other.
pub open spec fn only_pty(entries: Seq<(Seq<char>, TomlTree)>) -> bool {
    &&& entries.len() > 0
    &&& forall|i: int| 0 <= i < entries.len() ==> (#[trigger] entries[i]).0 == "pty"@
}

/// What a parsed projection is worth: a configuration, or the reason it is
/// refused.
pub open spec fn project(document: TomlTree, env: Seq<(Seq<char>, Seq<char>)>) -> Result<
    ConfigModel,
    Seq<char>,
> {
    match value_fault(document) {
        Some(reason) => Err(reason),
        None => match document {
            TomlTree::Table(entries) => if find_entry(entries, "secrets"@) is Some {
                Err("[secrets.refs] is forbidden in a delivered PTY projection"@)
            } else if !only_pty(entries) {
                Err(
                    "PTY projection may contain only [pty], found ["@ + section_list(entries)
                        + "]; broker sections and shared source config are forbidden"@,
                )
            } else {
                match find_entry(entries, "pty"@) {
                    Some(TomlTree::Table(table)) => project_pty(table, env),
                    _ => Err("[pty] must be a table"@),
                }
            },
            _ => Err("PTY projection root must be a TOML table"@),
        },
    }
}

/// Validate a parsed projection against an environment.
pub fn validate_document(document: TomlValue, env: &Vec<(String, String)>) -> (result: Result<
    PtyConfig,
    Error,
>)
    ensures
        config_outcome(result, project(tree(document), env_view(env@))),
{
    if let Err(error) = reject_unsafe_values(&document) {
        return Err(error);
    }
    let mut entries = match document {
        TomlValue::Table(entries) => entries,
        _ => return Err(Error::Config("PTY projection root must be a TOML table".to_owned())),
    };
    let ghost all = entry_trees(entries@);
    proof {
        lemma_entry_trees(entries@);
    }
    if entry(&entries, "secrets").is_some() {
        return Err(
            Error::Config(
                "[secrets.refs] is forbidden in a delivered PTY projection".to_owned(),
            ),
        );
    }
    let mut only: bool = entries.len() > 0;
    let mut i: usize = 0;
    while only && i < entries.len()
        invariant
            0 <= i <= entries.len(),
            all == entry_trees(entries@),
            all.len() == entries@.len(),
            only ==> entries.len() > 0,
            forall|j: int|
                0 <= j < entries@.len() ==> #[trigger] all[j] == (
                    entries@[j].0@,
                    tree(entries@[j].1),
                ),
            only ==> forall|j: int| 0 <= j < i ==> (#[trigger] all[j]).0 == "pty"@,
            !only ==> !only_pty(all),
        decreases entries.len() - i + if only { 1int } else { 0int },
    {
        assert(all[i as int] == (entries@[i as int].0@, tree(entries@[i as int].1)));
        if same_text(entries[i].0.as_str(), "pty") {
            i += 1;
        } else {
            only = false;
        }
    }
    if !only {
        let list = list_sections(&entries);
        let found = joined("PTY projection may contain only [pty], found [", list.as_str());
        return Err(
            Error::Config(
                joined(
                    found.as_str(),
                    "]; broker sections and shared source config are forbidden",
                ),
            ),
        );
    }
    proof {
        assert(all.take(1).drop_last() =~= Seq::empty());
        assert(all.take(1).last() == all[0]);
        assert(find_entry(all.take(1).drop_last(), "pty"@) is None);
        assert(find_entry(all.take(1), "pty"@) == Some(all[0].1));
        lemma_find_entry_prefix(all, "pty"@, 1);
        assert(only_pty(all));
        assert(tree(document) == TomlTree::Table(all));
    }
    let (_, section) = entries.remove(0);
    assert(tree(section) == all[0].1);
    match section {
        TomlValue::Table(table) => validate_pty(table, env),
        _ => Err(Error::Config("[pty] must be a table".to_owned())),
    }
}

/// Parse and fail-closed validate a delivered PTY projection.
///
/// It accepts literals and `${VAR}` expansion only; no cloud resolver is linked
/// or invoked here. `admin_credential_hash` is stricter: it is literal only, so
/// an unset or poisoned expression can never disable admin authentication. `env`
/// holds the environment that `${VAR}` refers to.
pub fn validate_projection(input: &str, env: &Vec<(String, String)>) -> (result: Result<
    PtyConfig,
    Error,
>)
    ensures
        match toml_document(input@) {
            Ok(document) => config_outcome(result, project(document, env_view(env@))),
            Err(complaint) => result matches Err(Error::Config(message)) && message@
                == "invalid TOML projection: "@ + complaint,
        },
{
    match read_document(input) {
        Ok(document) => validate_document(document, env),
        Err(reason) => Err(Error::Config(joined("invalid TOML projection: ", reason.as_str()))),
    }
}

/// An accepted projection fits its container and its volume, runs an absolute
/// command, and admits at least one session.
pub proof fn law_accepted_projection_is_admissible(
    document: TomlTree,
    env: Seq<(Seq<char>, Seq<char>)>,
)
    requires
        project(document, env) is Ok,
    ensures
        ({
            let config = project(document, env)->Ok_0;
            &&& config.max_sessions > 0
            &&& config.command.len() > 0 && config.command[0] == '/'
            &&& config.required_memory() <= config.container_memory_request_kib
            &&& config.required_disk() <= config.volume_capacity_kib
        }),
{
}

/// An accepted projection carries a literal, well-formed verifier: exactly the
/// one that stands in the document, whatever the environment holds.
pub proof fn law_accepted_verifier_is_literal(
    document: TomlTree,
    env: Seq<(Seq<char>, Seq<char>)>,
)
    requires
        project(document, env) is Ok,
    ensures
        ({
            let hash = project(document, env)->Ok_0.admin_credential_hash;
            &&& verifier_of(hash) is Ok
            &&& !contains_text(hash, "${"@)
            &&& document matches TomlTree::Table(entries)
            &&& find_entry(entries, "pty"@) matches Some(TomlTree::Table(table))
            &&& find_entry(table, "admin_credential_hash"@) == Some(TomlTree::Text(hash))
        }),
{
}

/// A projection in which a forbidden string stands anywhere is refused.
pub proof fn law_forbidden_strings_refuse(document: TomlTree, env: Seq<(Seq<char>, Seq<char>)>)
    requires
        value_fault(document) is Some,
    ensures
        project(document, env) is Err,
{
}

/// A projection with any section besides `[pty]` is refused.
pub proof fn law_foreign_sections_refuse(
    entries: Seq<(Seq<char>, TomlTree)>,
    section: int,
    env: Seq<(Seq<char>, Seq<char>)>,
)
    requires
        0 <= section < entries.len(),
        entries[section].0 != "pty"@,
    ensures
        project(TomlTree::Table(entries), env) is Err,
{
}

/// A configuration is admitted exactly where a full house fits: every session's buffers
/// and the runtime's own memory within the container's request, every session's disk and
/// the volume's own overhead within the volume, at least one session, and a command that
/// is an absolute path.
pub proof fn law_admitted_where_a_full_house_fits(config: ConfigModel)
    requires
        config.container_memory_request_kib <= usize::MAX,
        config.volume_capacity_kib <= usize::MAX,
    ensures
        admission_fault(config) is None <==> {
            &&& config.max_sessions >= 1
            &&& config.command.len() > 0 && config.command[0] == '/'
            &&& config.max_sessions * (config.scrollback_kib + config.replay_queue_kib
                + config.outbound_backlog_kib + config.fixed_session_overhead_kib)
                + config.runtime_baseline_kib <= config.container_memory_request_kib
            &&& config.max_sessions * config.per_session_disk_kib + config.volume_overhead_kib
                <= config.volume_capacity_kib
        },
{
    let each = config.scrollback_kib + config.replay_queue_kib + config.outbound_backlog_kib
        + config.fixed_session_overhead_kib;
    if config.max_sessions >= 1 {
        assert(config.max_sessions * each >= each) by (nonlinear_arith)
            requires
                config.max_sessions >= 1,
                each >= 0,
        ;
    }
}

/// An accepted projection never promises more than the container and the volume have,
/// counted over the fields of the accepted configuration.
pub proof fn law_accepted_projection_fits_its_container(
    document: TomlTree,
    env: Seq<(Seq<char>, Seq<char>)>,
)
    requires
        project(document, env) is Ok,
    ensures
        ({
            let config = project(document, env)->Ok_0;
            &&& config.max_sessions * (config.scrollback_kib + config.replay_queue_kib
                + config.outbound_backlog_kib + config.fixed_session_overhead_kib)
                + config.runtime_baseline_kib <= config.container_memory_request_kib
            &&& config.max_sessions * config.per_session_disk_kib + config.volume_overhead_kib
                <= config.volume_capacity_kib
            &&& config.max_sessions >= 1
            &&& config.command.len() > 0 && config.command[0] == '/'
        }),
{
}

/// A key that is written is taken as written, and one that is not has its documented
/// default.
pub proof fn law_configuration_is_what_was_written(
    table: Seq<(Seq<char>, TomlTree)>,
    hash: Seq<char>,
)
    requires
        read_model(table, hash) is Ok,
    ensures
        ({
            let config = read_model(table, hash)->Ok_0;
            &&& find_entry(table, "enabled"@) is None ==> !config.enabled
            &&& find_entry(table, "enabled"@) matches Some(value) ==> value == TomlTree::Boolean(
                config.enabled,
            )
            &&& find_entry(table, "listen"@) is None ==> config.listen == "0.0.0.0:8090"@
            &&& find_entry(table, "listen"@) matches Some(value) ==> value == TomlTree::Text(
                config.listen,
            )
            &&& find_entry(table, "tls_terminated_upstream"@) is None
                ==> config.tls_terminated_upstream
            &&& find_entry(table, "tls_terminated_upstream"@) matches Some(value) ==> value
                == TomlTree::Boolean(config.tls_terminated_upstream)
            &&& find_entry(table, "command"@) is None ==> config.command == "/bin/bash"@
            &&& find_entry(table, "command"@) matches Some(value) ==> value == TomlTree::Text(
                config.command,
            )
            &&& find_entry(table, "scrollback_replay"@) is None ==> !config.scrollback_replay
            &&& find_entry(table, "scrollback_replay"@) matches Some(value) ==> value
                == TomlTree::Boolean(config.scrollback_replay)
            &&& config.admin_credential_hash == hash
            &&& find_entry(table, "kill_domain_tier"@) is None ==> config.kill_domain_requirement
                == KillDomainRequirement::Tier1Allowed
            &&& find_entry(table, "kill_domain_tier"@) == Some(TomlTree::Text("tier1"@))
                ==> config.kill_domain_requirement == KillDomainRequirement::Tier1Allowed
            &&& find_entry(table, "kill_domain_tier"@) == Some(TomlTree::Text("tier2-required"@))
                ==> config.kill_domain_requirement == KillDomainRequirement::Tier2Required
        }),
{
    reveal_strlit("tier1");
    reveal_strlit("tier2-required");
    assert("tier1"@.len() == 5 && "tier2-required"@.len() == 14);
}

/// Whether a size is what was written under a key, or the default where nothing was.
pub open spec fn size_as_written(
    table: Seq<(Seq<char>, TomlTree)>,
    key: Seq<char>,
    default: nat,
    size: nat,
) -> bool {
    match find_entry(table, key) {
        None => size == default,
        Some(TomlTree::Integer(value)) => value == size,
        Some(_) => false,
    }
}

/// Every size is what was written for it, or its documented default.
pub proof fn law_sizes_are_what_was_written(table: Seq<(Seq<char>, TomlTree)>, hash: Seq<char>)
    requires
        read_model(table, hash) is Ok,
    ensures
        ({
            let config = read_model(table, hash)->Ok_0;
            &&& size_as_written(table, "max_sessions"@, 4, config.max_sessions)
            &&& size_as_written(table, "scrollback_kib"@, 1024, config.scrollback_kib)
            &&& size_as_written(table, "replay_queue_kib"@, 256, config.replay_queue_kib)
            &&& size_as_written(table, "outbound_backlog_kib"@, 256, config.outbound_backlog_kib)
            &&& size_as_written(
                table,
                "fixed_session_overhead_kib"@,
                512,
                config.fixed_session_overhead_kib,
            )
            &&& size_as_written(
                table,
                "runtime_baseline_kib"@,
                16384,
                config.runtime_baseline_kib,
            )
            &&& size_as_written(
                table,
                "container_memory_request_kib"@,
                32768,
                config.container_memory_request_kib,
            )
            &&& size_as_written(
                table,
                "per_session_disk_kib"@,
                1048576,
                config.per_session_disk_kib,
            )
            &&& size_as_written(
                table,
                "volume_capacity_kib"@,
                5242880,
                config.volume_capacity_kib,
            )
            &&& size_as_written(
                table,
                "volume_overhead_kib"@,
                1048576,
                config.volume_overhead_kib,
            )
        }),
{
}

proof fn lemma_digits_lead(number: Seq<char>, rest: Seq<char>)
    requires
        all_digits(number),
        rest.len() == 0 || !is_digit(rest[0]),
    ensures
        leading_digits(number + rest) == number.len(),
    decreases number.len(),
{
    let text = number + rest;
    if number.len() == 0 {
        assert(text =~= rest);
    } else {
        assert(text[0] == number[0]);
        assert(is_digit(number[0]));
        assert(text.drop_first() =~= number.drop_first() + rest);
        assert forall|i: int| 0 <= i < number.drop_first().len() implies is_digit(
            #[trigger] number.drop_first()[i],
        ) by {
            assert(is_digit(number[i + 1]));
        }
        lemma_digits_lead(number.drop_first(), rest);
    }
}

proof fn lemma_duration(n: nat, unit: Seq<char>, seconds: nat)
    requires
        n > 0,
        unit_seconds(unit) == Some(seconds),
        unit.len() > 0,
        !is_digit(unit[0]),
        n * seconds <= u64::MAX,
        n <= u64::MAX,
    ensures
        duration_of(decimal(n) + unit) == Ok::<nat, Seq<char>>(
            (n * seconds * 1_000_000_000) as nat,
        ),
{
    crate::text::law_decimal_reads_back(n);
    let number = decimal(n);
    let text = number + unit;
    lemma_digits_lead(number, unit);
    assert(text.take(number.len() as int) =~= number);
    assert(text.skip(number.len() as int) =~= unit);
}

/// A TTL is a number and a unit: so many seconds, minutes, hours or days.
pub proof fn law_duration_is_number_times_unit(n: nat)
    requires
        n > 0,
        n * 86400 <= u64::MAX,
    ensures
        duration_of(decimal(n) + "s"@) == Ok::<nat, Seq<char>>(n * 1_000_000_000),
        duration_of(decimal(n) + "m"@) == Ok::<nat, Seq<char>>(n * 60_000_000_000),
        duration_of(decimal(n) + "h"@) == Ok::<nat, Seq<char>>(n * 3_600_000_000_000),
        duration_of(decimal(n) + "d"@) == Ok::<nat, Seq<char>>(n * 86_400_000_000_000),
        duration_of(decimal(n)) is Err,
{
    crate::text::law_decimal_reads_back(n);
    reveal_strlit("s");
    reveal_strlit("m");
    reveal_strlit("h");
    reveal_strlit("d");
    let number = decimal(n);
    assert("s"@[0] == 's' && "m"@[0] == 'm' && "h"@[0] == 'h' && "d"@[0] == 'd');
    lemma_digits_lead(number, Seq::empty());
    assert(number + Seq::<char>::empty() =~= number);
    lemma_duration(n, "s"@, 1);
    lemma_duration(n, "m"@, 60);
    lemma_duration(n, "h"@, 3600);
    lemma_duration(n, "d"@, 86400);
}

/// A zero TTL, a TTL in any other unit, and one without a number are refused.
pub proof fn law_other_durations_are_refused(text: Seq<char>)
    ensures
        duration_of(text) matches Ok(span) ==> {
            &&& span > 0
            &&& text.len() >= 2
            &&& is_digit(text[0])
            &&& text.last() == 's' || text.last() == 'm' || text.last() == 'h' || text.last() == 'd'
            &&& span % 1_000_000_000 == 0
        },
{
    reveal_strlit("s");
    reveal_strlit("m");
    reveal_strlit("h");
    reveal_strlit("d");
    if duration_of(text) is Ok {
        let split = leading_digits(text) as int;
        lemma_leading_digits_bound(text);
        let unit = text.skip(split);
        assert(unit.len() == 1);
        assert(unit[0] == text.last());
        assert(is_digit(text[0]));
        let amount = digits_value(text.take(split)) as int;
        let seconds = unit_seconds(unit)->Some_0 as int;
        assert(amount * seconds > 0) by (nonlinear_arith)
            requires
                amount > 0,
                seconds > 0,
        ;
    }
}

proof fn lemma_leading_digits_bound(text: Seq<char>)
    ensures
        leading_digits(text) <= text.len(),
    decreases text.len(),
{
    if text.len() > 0 && is_digit(text[0]) {
        lemma_leading_digits_bound(text.drop_first());
    }
}

/// Text without a reference is kept as it is.
pub proof fn law_text_without_references_is_kept(
    input: Seq<char>,
    env: Seq<(Seq<char>, Seq<char>)>,
)
    requires
        forall|at: int| !occurs_at(input, "${"@, at),
    ensures
        interpolated(input, env) == Ok::<Seq<char>, Seq<char>>(input),
{
    lemma_find_from(input, "${"@, 0);
    assert(input.skip(0) =~= input);
}

/// A reference to a variable is replaced by its value, between the text before it and
/// what the rest of the text comes to; a variable that is not set, or whose value points
/// elsewhere, refuses the whole.
pub proof fn law_reference_is_replaced_by_its_value(
    input: Seq<char>,
    env: Seq<(Seq<char>, Seq<char>)>,
    start: int,
    end: int,
)
    requires
        0 <= start,
        start + 2 <= end < input.len(),
        occurs_at(input, "${"@, start),
        forall|at: int| at < start ==> !#[trigger] occurs_at(input, "${"@, at),
        occurs_at(input, "}"@, end),
        forall|at: int| start + 2 <= at < end ==> !#[trigger] occurs_at(input, "}"@, at),
    ensures
        ({
            let name = input.subrange(start + 2, end);
            let rest = interpolated_from(input, end + 1, env);
            match find_entry(env, name) {
                Some(value) => interpolated(input, env) is Ok ==> {
                    &&& rest is Ok
                    &&& interpolated(input, env)->Ok_0 == input.take(start) + value + rest->Ok_0
                    &&& !contains_text(value, "://"@)
                    &&& !contains_text(value, "${secrets."@)
                },
                None => interpolated(input, env) is Err,
            }
        }),
        ({
            let name = input.subrange(start + 2, end);
            &&& is_env_name(name)
            &&& find_entry(env, name) is Some
            &&& !contains_text(find_entry(env, name)->Some_0, "://"@)
            &&& !contains_text(find_entry(env, name)->Some_0, "${secrets."@)
            &&& interpolated_from(input, end + 1, env) is Ok
        }) ==> interpolated(input, env) is Ok,
{
    lemma_find_from(input, "${"@, 0);
    let found = find_from(input, "${"@, 0);
    assert(found is Some);
    lemma_first_occurrence(input, "${"@, 0, start);
    lemma_first_occurrence(input, "}"@, start + 2, end);
    assert(input.subrange(0, start) =~= input.take(start));
}

proof fn lemma_first_occurrence(s: Seq<char>, pattern: Seq<char>, from: int, at: int)
    requires
        0 <= from <= at,
        occurs_at(s, pattern, at),
        forall|k: int| from <= k < at ==> !#[trigger] occurs_at(s, pattern, k),
    ensures
        find_from(s, pattern, from) == Some(at),
    decreases at - from,
{
    if from < at {
        assert(!occurs_at(s, pattern, from));
        lemma_first_occurrence(s, pattern, from + 1, at);
    }
}

/// Only the documented keys may stand in the table: one of any other name refuses it.
pub proof fn law_unknown_keys_refuse(
    table: Seq<(Seq<char>, TomlTree)>,
    env: Seq<(Seq<char>, Seq<char>)>,
    i: int,
)
    requires
        project_pty(table, env) is Ok,
        0 <= i < table.len(),
    ensures
        ({
            let key = table[i].0;
            ||| key == "enabled"@ || key == "listen"@ || key == "tls_terminated_upstream"@
            ||| key == "command"@ || key == "max_sessions"@ || key == "absolute_session_ttl"@
            ||| key == "scrollback_kib"@ || key == "scrollback_replay"@
            ||| key == "admin_credential_hash"@ || key == "replay_queue_kib"@
            ||| key == "outbound_backlog_kib"@ || key == "fixed_session_overhead_kib"@
            ||| key == "runtime_baseline_kib"@ || key == "container_memory_request_kib"@
            ||| key == "per_session_disk_kib"@ || key == "volume_capacity_kib"@
            ||| key == "volume_overhead_kib"@ || key == "kill_domain_tier"@
        }),
{
    lemma_known_keys(table, i);
}

proof fn lemma_known_keys(table: Seq<(Seq<char>, TomlTree)>, i: int)
    requires
        unknown_key(table) is None,
        0 <= i < table.len(),
    ensures
        is_pty_key(table[i].0),
    decreases table.len(),
{
    if i < table.len() - 1 {
        lemma_known_keys(table.drop_last(), i);
    }
}

/// A string that names a secret or a remote place refuses the projection at whatever
/// depth it stands, and no other string does.
pub proof fn law_only_forbidden_strings_are_faults(
    text: Seq<char>,
    values: Seq<TomlTree>,
    entries: Seq<(Seq<char>, TomlTree)>,
    i: int,
)
    ensures
        value_fault(TomlTree::Text(text)) is Some <==> contains_text(text, "${secrets."@)
            || contains_text(text, "://"@),
        0 <= i < values.len() && value_fault(values[i]) is Some ==> value_fault(
            TomlTree::Array(values),
        ) is Some,
        0 <= i < entries.len() && value_fault(entries[i].1) is Some ==> value_fault(
            TomlTree::Table(entries),
        ) is Some,
        (forall|k: int| 0 <= k < values.len() ==> value_fault(#[trigger] values[k]) is None)
            ==> value_fault(TomlTree::Array(values)) is None,
        (forall|k: int| 0 <= k < entries.len() ==> value_fault((#[trigger] entries[k]).1) is None)
            ==> value_fault(TomlTree::Table(entries)) is None,
{
    if 0 <= i < values.len() && value_fault(values[i]) is Some {
        lemma_list_fault(values, i);
    }
    if 0 <= i < entries.len() && value_fault(entries[i].1) is Some {
        lemma_table_fault(entries, i);
    }
    if forall|k: int| 0 <= k < values.len() ==> value_fault(#[trigger] values[k]) is None {
        lemma_no_list_fault(values);
    }
    if forall|k: int| 0 <= k < entries.len() ==> value_fault((#[trigger] entries[k]).1) is None {
        lemma_no_table_fault(entries);
    }
}

proof fn lemma_list_fault(values: Seq<TomlTree>, i: int)
    requires
        0 <= i < values.len(),
        value_fault(values[i]) is Some,
    ensures
        list_fault(values) is Some,
    decreases values.len(),
{
    if i < values.len() - 1 {
        lemma_list_fault(values.drop_last(), i);
    }
}

proof fn lemma_table_fault(entries: Seq<(Seq<char>, TomlTree)>, i: int)
    requires
        0 <= i < entries.len(),
        value_fault(entries[i].1) is Some,
    ensures
        table_fault(entries) is Some,
    decreases entries.len(),
{
    if i < entries.len() - 1 {
        lemma_table_fault(entries.drop_last(), i);
    }
}

proof fn lemma_no_list_fault(values: Seq<TomlTree>)
    requires
        forall|k: int| 0 <= k < values.len() ==> value_fault(#[trigger] values[k]) is None,
    ensures
        list_fault(values) is None,
    decreases values.len(),
{
    if values.len() > 0 {
        assert forall|k: int| 0 <= k < values.drop_last().len() implies value_fault(
            #[trigger] values.drop_last()[k],
        ) is None by {
            assert(value_fault(values[k]) is None);
        }
        lemma_no_list_fault(values.drop_last());
        assert(value_fault(values[values.len() - 1]) is None);
    }
}

proof fn lemma_no_table_fault(entries: Seq<(Seq<char>, TomlTree)>)
    requires
        forall|k: int| 0 <= k < entries.len() ==> value_fault((#[trigger] entries[k]).1) is None,
    ensures
        table_fault(entries) is None,
    decreases entries.len(),
{
    if entries.len() > 0 {
        assert forall|k: int| 0 <= k < entries.drop_last().len() implies value_fault(
            (#[trigger] entries.drop_last()[k]).1,
        ) is None by {
            assert(value_fault(entries[k].1) is None);
        }
        lemma_no_table_fault(entries.drop_last());
        assert(value_fault(entries[entries.len() - 1].1) is None);
    }
}

/// Whether nothing, or a size that can be held, was written under a key.
pub open spec fn is_size_or_absent(table: Seq<(Seq<char>, TomlTree)>, key: Seq<char>) -> bool {
    match find_entry(table, key) {
        None => true,
        Some(TomlTree::Integer(value)) => 0 <= value <= usize::MAX,
        Some(_) => false,
    }
}

/// A table is read exactly where each of its keys is absent or holds a value of its kind:
/// switches are booleans, sizes are whole numbers from zero on, the TTL is a duration, and
/// the kill domain is one of the two tiers.
pub proof fn law_well_typed_tables_are_read(table: Seq<(Seq<char>, TomlTree)>, hash: Seq<char>)
    ensures
        read_model(table, hash) is Ok <==> {
            &&& find_entry(table, "enabled"@) matches Some(value) ==> value is Boolean
            &&& find_entry(table, "tls_terminated_upstream"@) matches Some(value)
                ==> value is Boolean
            &&& find_entry(table, "scrollback_replay"@) matches Some(value) ==> value is Boolean
            &&& find_entry(table, "listen"@) matches Some(value) ==> value is Text
            &&& find_entry(table, "command"@) matches Some(value) ==> value is Text
            &&& find_entry(table, "absolute_session_ttl"@) matches Some(value) ==> (
            value matches TomlTree::Text(text) && duration_of(text) is Ok)
            &&& find_entry(table, "kill_domain_tier"@) matches Some(value) ==> value
                == TomlTree::Text("tier1"@) || value == TomlTree::Text("tier2-required"@)
            &&& is_size_or_absent(table, "max_sessions"@)
            &&& is_size_or_absent(table, "scrollback_kib"@)
            &&& is_size_or_absent(table, "replay_queue_kib"@)
            &&& is_size_or_absent(table, "outbound_backlog_kib"@)
            &&& is_size_or_absent(table, "fixed_session_overhead_kib"@)
            &&& is_size_or_absent(table, "runtime_baseline_kib"@)
            &&& is_size_or_absent(table, "container_memory_request_kib"@)
            &&& is_size_or_absent(table, "per_session_disk_kib"@)
            &&& is_size_or_absent(table, "volume_capacity_kib"@)
            &&& is_size_or_absent(table, "volume_overhead_kib"@)
        },
{
    lemma_default_ttl();
}

proof fn lemma_default_ttl()
    ensures
        duration_of("12h"@) == Ok::<nat, Seq<char>>(43_200_000_000_000),
{
    reveal_strlit("12h");
    reveal_strlit("h");
    reveal_with_fuel(crate::text::decimal, 2);
    law_duration_is_number_times_unit(12);
    assert(decimal(12) + "h"@ =~= "12h"@);
}

/// The absolute TTL is the duration that was written, or twelve hours.
pub proof fn law_absolute_ttl_is_what_was_written(
    table: Seq<(Seq<char>, TomlTree)>,
    hash: Seq<char>,
)
    requires
        read_model(table, hash) is Ok,
    ensures
        ({
            let config = read_model(table, hash)->Ok_0;
            match find_entry(table, "absolute_session_ttl"@) {
                None => config.absolute_session_ttl == 43_200_000_000_000,
                Some(TomlTree::Text(text)) => duration_of(text) == Ok::<nat, Seq<char>>(
                    config.absolute_session_ttl,
                ),
                Some(_) => false,
            }
        }),
{
    lemma_default_ttl();
}

/// The name in a reference begins with a letter or an underscore and goes on with those
/// and digits; no other name is looked up.
pub proof fn law_names_are_letters_digits_and_underscores(name: Seq<char>)
    ensures
        is_env_name(name) <==> {
            &&& name.len() >= 1
            &&& !(48 <= name[0] as int <= 57)
            &&& forall|i: int|
                0 <= i < name.len() ==> {
                    ||| 65 <= #[trigger] name[i] as int <= 90
                    ||| 97 <= name[i] as int <= 122
                    ||| 48 <= name[i] as int <= 57
                    ||| name[i] == '_'
                }
        },
{
    if name.len() >= 1 {
        let first = name[0];
        assert(first == '_' ==> first as int == 95);
        if forall|i: int|
            0 <= i < name.len() ==> {
                ||| 65 <= #[trigger] name[i] as int <= 90
                ||| 97 <= name[i] as int <= 122
                ||| 48 <= name[i] as int <= 57
                ||| name[i] == '_'
            } {
            assert(0 <= 0 < name.len());
            assert forall|i: int| 0 <= i < name.len() implies is_name_start(#[trigger] name[i])
                || is_digit(name[i]) by {}
        }
    }
}

/// Interpolation goes over a table entry by entry: every string is expanded but the
/// verifier, and nothing else is touched.
pub proof fn law_interpolation_touches_strings_only(
    table: Seq<(Seq<char>, TomlTree)>,
    env: Seq<(Seq<char>, Seq<char>)>,
    i: int,
)
    requires
        interpolated_table(table, env) is Ok,
        0 <= i < table.len(),
    ensures
        ({
            let after = interpolated_table(table, env)->Ok_0;
            &&& after.len() == table.len()
            &&& after[i].0 == table[i].0
            &&& table[i].0 == "admin_credential_hash"@ || !(table[i].1 is Text) ==> after[i]
                == table[i]
            &&& table[i].0 != "admin_credential_hash"@ ==> (table[i].1 matches TomlTree::Text(text)
                ==> interpolated(text, env) is Ok && after[i].1 == TomlTree::Text(
                interpolated(text, env)->Ok_0,
            ))
        }),
    decreases table.len(),
{
    let head = table.drop_last();
    if i < table.len() - 1 {
        law_interpolation_touches_strings_only(head, env, i);
        assert(head[i] == table[i]);
    } else if head.len() > 0 {
        law_interpolation_touches_strings_only(head, env, 0);
    }
}

/// Sections are listed in order with a comma between any two.
pub proof fn law_section_lists_join(
    first: Seq<(Seq<char>, TomlTree)>,
    rest: Seq<(Seq<char>, TomlTree)>,
)
    requires
        first.len() > 0,
        rest.len() > 0,
    ensures
        section_list(first + rest) == section_list(first) + ", "@ + section_list(rest),
        section_list(seq![rest[0]]) == rest[0].0,
    decreases rest.len(),
{
    let all = first + rest;
    assert(all.last() == rest.last());
    if rest.len() == 1 {
        assert(all.drop_last() =~= first);
        assert(rest =~= seq![rest[0]]);
    } else {
        law_section_lists_join(first, rest.drop_last());
        assert(all.drop_last() =~= first + rest.drop_last());
        assert(section_list(first) + ", "@ + section_list(rest) =~= section_list(first) + ", "@
            + section_list(rest.drop_last()) + ", "@ + rest.last().0);
    }
}

/// A `[pty]` table whose keys are all known, whose verifier is literal and well formed, and
/// which expands and reads as a configuration that fits, is that configuration; nothing
/// else is needed, and nothing less is enough.
pub proof fn law_projection_is_what_the_table_says(
    table: Seq<(Seq<char>, TomlTree)>,
    env: Seq<(Seq<char>, Seq<char>)>,
    config: ConfigModel,
)
    requires
        value_fault(TomlTree::Table(seq![("pty"@, TomlTree::Table(table))])) is None,
    ensures
        project(TomlTree::Table(seq![("pty"@, TomlTree::Table(table))]), env) == Ok::<
            ConfigModel,
            Seq<char>,
        >(config) <==> {
            &&& forall|i: int| 0 <= i < table.len() ==> is_pty_key((#[trigger] table[i]).0)
            &&& find_entry(table, "admin_credential_hash"@) matches Some(TomlTree::Text(hash))
            &&& verifier_of(hash) is Ok
            &&& interpolated_table(table, env) matches Ok(expanded)
            &&& read_model(expanded, hash) == Ok::<ConfigModel, Seq<char>>(config)
            &&& admission_fault(config) is None
        },
{
    let entries = seq![("pty"@, TomlTree::Table(table))];
    reveal_strlit("secrets");
    reveal_strlit("pty");
    assert("secrets"@.len() == 7 && "pty"@.len() == 3);
    assert(entries.drop_last() =~= Seq::<(Seq<char>, TomlTree)>::empty());
    reveal_with_fuel(find_entry, 2);
    assert(find_entry(entries, "secrets"@) is None);
    assert(find_entry(entries, "pty"@) == Some(TomlTree::Table(table)));
    if forall|i: int| 0 <= i < table.len() ==> is_pty_key((#[trigger] table[i]).0) {
        lemma_all_keys_known(table);
    }
    if unknown_key(table) is None {
        assert forall|i: int| 0 <= i < table.len() implies is_pty_key((#[trigger] table[i]).0) by {
            lemma_known_keys(table, i);
        }
    }
    if let Some(TomlTree::Text(hash)) = find_entry(table, "admin_credential_hash"@) {
        if verifier_of(hash) is Ok {
            lemma_verifiers_hold_no_reference(hash);
        }
    }
}

proof fn lemma_all_keys_known(table: Seq<(Seq<char>, TomlTree)>)
    requires
        forall|i: int| 0 <= i < table.len() ==> is_pty_key((#[trigger] table[i]).0),
    ensures
        unknown_key(table) is None,
    decreases table.len(),
{
    if table.len() > 0 {
        assert forall|i: int| 0 <= i < table.drop_last().len() implies is_pty_key(
            (#[trigger] table.drop_last()[i]).0,
        ) by {
            assert(is_pty_key(table[i].0));
        }
        lemma_all_keys_known(table.drop_last());
        assert(is_pty_key(table[table.len() - 1].0));
    }
}

proof fn lemma_verifiers_hold_no_reference(hash: Seq<char>)
    requires
        verifier_of(hash) is Ok,
    ensures
        hash.len() > 0,
        !contains_text(hash, "${"@),
{
    crate::admin_auth::law_verifier_has_one_form(hash);
    reveal_strlit("${");
    reveal_strlit("sha256:");
    if contains_text(hash, "${"@) {
        let at = choose|at: int| occurs_at(hash, "${"@, at);
        assert(hash.subrange(at, at + 2)[0] == hash[at]);
        if at < 7 {
            assert(hash.subrange(0, 7)[at] == hash[at]);
            assert("sha256:"@[at] != '$');
        }
    }
}

} // verus!
