//! The queue's per-repository configuration.
//!
//! Read from `sasse.toml` in the repository, and specifically from the base
//! branch tip rather than from the candidate under test: the worker runs the
//! gate on a developer's own machine as their own user, so taking the command
//! from a commit that has not yet passed the queue would make enqueuing a branch
//! equivalent to granting it code execution.

use vstd::prelude::*;

use crate::bytes::size_read;
use crate::bytes::ByteSize;
use crate::text;
use crate::text::trimmed;

verus! {

/// Where the configuration lives, relative to the repository root.
pub const CONFIG_PATH: &'static str = "sasse.toml";

pub const DEFAULT_MAX_BATCH: usize = 8;

pub const DEFAULT_MAX_ATTEMPTS: u32 = 3;

/// 200MB.
pub const DEFAULT_LOG_BUDGET: u64 = 209_715_200;

/// 2MB.
pub const DEFAULT_MAX_LOG_SIZE: u64 = 2_097_152;

#[derive(Debug, PartialEq, Eq)]
pub struct Config {
    /// The command run against a candidate to decide whether it may land.
    pub gate: String,
    /// Most entries in one candidate.
    ///
    /// A larger batch lands more per gate run when everything is green, and
    /// costs more bisection rounds when it is not.
    pub max_batch: usize,
    /// How many times an entry may be the culprit of a failed candidate before
    /// it is evicted.
    ///
    /// Without a budget a flaky gate destroys throughput; with an unlimited one
    /// a genuinely broken branch blocks the queue.
    pub max_attempts: u32,
    /// How many bytes the merge gate logs may take together.
    pub log_budget: ByteSize,
    /// How many bytes one gate log may take.
    pub max_log_size: ByteSize,
    /// The command run for each entry that settles.
    pub on_settle: Option<String>,
}

/// What a configuration says.
pub struct ConfigView {
    pub gate: Seq<char>,
    pub max_batch: usize,
    pub max_attempts: u32,
    pub log_budget: u64,
    pub max_log_size: u64,
    pub on_settle: Option<Seq<char>>,
}

impl View for Config {
    type V = ConfigView;

    open spec fn view(&self) -> ConfigView {
        ConfigView {
            gate: self.gate@,
            max_batch: self.max_batch,
            max_attempts: self.max_attempts,
            log_budget: self.log_budget@,
            max_log_size: self.max_log_size@,
            on_settle: text::optional(self.on_settle),
        }
    }
}

impl Clone for Config {
    fn clone(&self) -> (r: Self)
        ensures
            r == *self,
    {
        Config {
            gate: self.gate.clone(),
            max_batch: self.max_batch,
            max_attempts: self.max_attempts,
            log_budget: self.log_budget,
            max_log_size: self.max_log_size,
            on_settle: text::copy_optional(&self.on_settle),
        }
    }
}

/// One setting: a text, a whole number, or neither of the two.
#[derive(Debug, PartialEq, Eq)]
pub struct Setting {
    pub key: String,
    pub text: Option<String>,
    pub number: Option<i64>,
}

impl View for Setting {
    type V = (Seq<char>, Option<Seq<char>>, Option<i64>);

    open spec fn view(&self) -> (Seq<char>, Option<Seq<char>>, Option<i64>) {
        (self.key@, text::optional(self.text), self.number)
    }
}

/// The settings of a list.
pub open spec fn settings(list: Seq<Setting>) -> Seq<
    (Seq<char>, Option<Seq<char>>, Option<i64>),
> {
    Seq::new(list.len(), |i: int| list[i]@)
}

/// A configuration that cannot be used.
#[derive(Debug, PartialEq, Eq)]
pub enum ConfigError {
    /// It is not TOML.
    Malformed { why: String },
    /// It sets something that does not exist.
    Unknown { key: String },
    /// A setting is missing, or not of its kind, or out of range.
    Unusable { key: String },
    EmptyGate,
    ZeroBatch,
    ZeroAttempts,
}

/// The settings at the top level of a TOML document, or why it is not one.
pub uninterp spec fn toml_settings(source: Seq<char>) -> Result<
    Seq<(Seq<char>, Option<Seq<char>>, Option<i64>)>,
    Seq<char>,
>;

/// `toml::Table`, read from a string. What TOML is, is not stated, only that
/// the settings, or the complaint, are a function of the text, and that no key
/// is set twice.
#[verifier::external_body]
fn read_toml(source: &str) -> (r: Result<Vec<Setting>, String>)
    ensures
        match r {
            Ok(list) => toml_settings(source@) == Ok::<
                Seq<(Seq<char>, Option<Seq<char>>, Option<i64>)>,
                Seq<char>,
            >(settings(list@)) && forall|i: int, j: int|
                0 <= i < j < list@.len() ==> (#[trigger] list@[i]).key@ != (
                #[trigger] list@[j]).key@,
            Err(why) => toml_settings(source@) == Err::<
                Seq<(Seq<char>, Option<Seq<char>>, Option<i64>)>,
                Seq<char>,
            >(why@),
        },
{
    let table = source.parse::<toml::Table>().map_err(|e| e.to_string())?;
    let plain = table.into_iter().map(
        |(key, value)|
            match value {
                toml::Value::String(text) => Setting { key, text: Some(text), number: None },
                toml::Value::Integer(n) => Setting { key, text: None, number: Some(n) },
                toml::Value::Float(_) | toml::Value::Boolean(_) | toml::Value::Datetime(_)
                | toml::Value::Array(_) | toml::Value::Table(_) => {
                    Setting { key, text: None, number: None }
                },
            },
    );
    Ok(plain.collect())
}

/// The setting with a key, if it is set.
pub open spec fn setting(
    list: Seq<(Seq<char>, Option<Seq<char>>, Option<i64>)>,
    key: Seq<char>,
) -> Option<(Option<Seq<char>>, Option<i64>)>
    decreases list.len(),
{
    if list.len() == 0 {
        None
    } else if list.last().0 == key {
        Some((list.last().1, list.last().2))
    } else {
        setting(list.drop_last(), key)
    }
}

/// The settings there are.
pub open spec fn is_known(key: Seq<char>) -> bool {
    key == "gate"@ || key == "max_batch"@ || key == "max_attempts"@ || key == "log_budget"@ || key
        == "max_log_size"@ || key == "on_settle"@
}

/// Everything that is set exists.
pub open spec fn all_known(list: Seq<(Seq<char>, Option<Seq<char>>, Option<i64>)>) -> bool {
    forall|i: int| 0 <= i < list.len() ==> is_known((#[trigger] list[i]).0)
}

/// The merge gate that is set.
pub open spec fn gate_set(list: Seq<(Seq<char>, Option<Seq<char>>, Option<i64>)>) -> Option<
    Seq<char>,
> {
    match setting(list, "gate"@) {
        Some((Some(text), _)) => Some(text),
        _ => None,
    }
}

/// A count that is set, or its default. Nothing if it is set to anything but a
/// whole number from zero to a largest one.
pub open spec fn count_set(
    list: Seq<(Seq<char>, Option<Seq<char>>, Option<i64>)>,
    key: Seq<char>,
    default: int,
    largest: int,
) -> Option<int> {
    match setting(list, key) {
        None => Some(default),
        Some((_, Some(n))) => if 0 <= n <= largest {
            Some(n as int)
        } else {
            None
        },
        Some(_) => None,
    }
}

/// A size that is set, spelled out or as a number of bytes, or its default.
/// Nothing if it is set to anything else.
pub open spec fn size_set(
    list: Seq<(Seq<char>, Option<Seq<char>>, Option<i64>)>,
    key: Seq<char>,
    default: u64,
) -> Option<u64> {
    match setting(list, key) {
        None => Some(default),
        Some((_, Some(n))) => if n >= 0 {
            Some(n as u64)
        } else {
            None
        },
        Some((Some(text), None)) => size_read(text),
        Some((None, None)) => None,
    }
}

/// A command that may be set. Nothing if it is set to anything but a text.
pub open spec fn command_set(
    list: Seq<(Seq<char>, Option<Seq<char>>, Option<i64>)>,
    key: Seq<char>,
) -> Option<Option<Seq<char>>> {
    match setting(list, key) {
        None => Some(None),
        Some((Some(text), _)) => Some(Some(text)),
        Some((None, _)) => None,
    }
}

pub open spec fn batch_set(list: Seq<(Seq<char>, Option<Seq<char>>, Option<i64>)>) -> Option<int> {
    count_set(list, "max_batch"@, DEFAULT_MAX_BATCH as int, usize::MAX as int)
}

pub open spec fn attempts_set(list: Seq<(Seq<char>, Option<Seq<char>>, Option<i64>)>) -> Option<
    int,
> {
    count_set(list, "max_attempts"@, DEFAULT_MAX_ATTEMPTS as int, u32::MAX as int)
}

pub open spec fn budget_set(list: Seq<(Seq<char>, Option<Seq<char>>, Option<i64>)>) -> Option<u64> {
    size_set(list, "log_budget"@, DEFAULT_LOG_BUDGET)
}

pub open spec fn log_size_set(list: Seq<(Seq<char>, Option<Seq<char>>, Option<i64>)>) -> Option<
    u64,
> {
    size_set(list, "max_log_size"@, DEFAULT_MAX_LOG_SIZE)
}

/// Every setting exists and is of its kind, and the merge gate is set.
pub open spec fn readable(list: Seq<(Seq<char>, Option<Seq<char>>, Option<i64>)>) -> bool {
    &&& all_known(list)
    &&& gate_set(list) is Some
    &&& batch_set(list) is Some
    &&& attempts_set(list) is Some
    &&& budget_set(list) is Some
    &&& log_size_set(list) is Some
    &&& command_set(list, "on_settle"@) is Some
}

/// What the settings amount to.
pub open spec fn configured(list: Seq<(Seq<char>, Option<Seq<char>>, Option<i64>)>) -> ConfigView {
    ConfigView {
        gate: gate_set(list)->0,
        max_batch: batch_set(list)->0 as usize,
        max_attempts: attempts_set(list)->0 as u32,
        log_budget: budget_set(list)->0,
        max_log_size: log_size_set(list)->0,
        on_settle: command_set(list, "on_settle"@)->0,
    }
}

/// The first thing that is set and does not exist.
pub open spec fn first_unknown(
    list: Seq<(Seq<char>, Option<Seq<char>>, Option<i64>)>,
    key: Seq<char>,
) -> bool {
    !is_known(key) && exists|i: int|
        0 <= i < list.len() && (#[trigger] list[i]).0 == key && all_known(list.take(i))
}

/// The setting that keeps the settings from being read: of several the first,
/// in the order in which they are looked up.
pub open spec fn spoiler(list: Seq<(Seq<char>, Option<Seq<char>>, Option<i64>)>) -> Seq<char> {
    if gate_set(list) is None {
        "gate"@
    } else if batch_set(list) is None {
        "max_batch"@
    } else if attempts_set(list) is None {
        "max_attempts"@
    } else if budget_set(list) is None {
        "log_budget"@
    } else if log_size_set(list) is None {
        "max_log_size"@
    } else {
        "on_settle"@
    }
}

/// What a reading of settings comes to.
pub open spec fn reads(
    list: Seq<(Seq<char>, Option<Seq<char>>, Option<i64>)>,
    r: Result<Config, ConfigError>,
) -> bool {
    match r {
        Ok(config) => {
            &&& readable(list)
            &&& config@ == configured(list)
            &&& trimmed(config@.gate).len() > 0
            &&& config@.max_batch > 0
            &&& config@.max_attempts > 0
        },
        Err(ConfigError::Malformed { .. }) => false,
        Err(ConfigError::Unknown { key }) => first_unknown(list, key@),
        Err(ConfigError::Unusable { key }) => all_known(list) && !readable(list) && key@
            == spoiler(list),
        Err(ConfigError::EmptyGate) => readable(list) && trimmed(configured(list).gate).len() == 0,
        Err(ConfigError::ZeroBatch) => {
            &&& readable(list)
            &&& trimmed(configured(list).gate).len() > 0
            &&& configured(list).max_batch == 0
        },
        Err(ConfigError::ZeroAttempts) => {
            &&& readable(list)
            &&& trimmed(configured(list).gate).len() > 0
            &&& configured(list).max_batch > 0
            &&& configured(list).max_attempts == 0
        },
    }
}

fn find<'a>(list: &'a Vec<Setting>, key: &str) -> (r: Option<&'a Setting>)
    ensures
        match r {
            Some(s) => setting(settings(list@), key@) == Some((s@.1, s@.2)),
            None => setting(settings(list@), key@) is None,
        },
{
    let ghost all = settings(list@);
    let mut i: usize = list.len();
    assert(all.take(all.len() as int) =~= all);
    while i > 0
        invariant
            i <= list@.len(),
            all == settings(list@),
            setting(all, key@) == setting(all.take(i as int), key@),
        decreases i,
    {
        i = i - 1;
        assert(all.take(i + 1).drop_last() =~= all.take(i as int));
        assert(all.take(i + 1).last() == list@[i as int]@);
        if text::same(&list[i].key, key) {
            return Some(&list[i]);
        }
    }
    None
}

fn known(key: &str) -> (r: bool)
    ensures
        r == is_known(key@),
{
    text::same(key, "gate") || text::same(key, "max_batch") || text::same(key, "max_attempts")
        || text::same(key, "log_budget") || text::same(key, "max_log_size") || text::same(
        key,
        "on_settle",
    )
}

fn read_count(list: &Vec<Setting>, key: &str, default: u64, largest: u64) -> (r: Option<u64>)
    ensures
        match r {
            Some(n) => count_set(settings(list@), key@, default as int, largest as int) == Some(
                n as int,
            ),
            None => count_set(settings(list@), key@, default as int, largest as int) is None,
        },
{
    match find(list, key) {
        None => Some(default),
        Some(s) => match s.number {
            Some(n) => if n >= 0 && n as u64 <= largest {
                Some(n as u64)
            } else {
                None
            },
            None => None,
        },
    }
}

fn read_size(list: &Vec<Setting>, key: &str, default: u64) -> (r: Option<ByteSize>)
    ensures
        match r {
            Some(size) => size_set(settings(list@), key@, default) == Some(size@),
            None => size_set(settings(list@), key@, default) is None,
        },
{
    match find(list, key) {
        None => Some(ByteSize::new(default)),
        Some(s) => match s.number {
            Some(n) => if n >= 0 {
                Some(ByteSize::new(n as u64))
            } else {
                None
            },
            None => match &s.text {
                Some(text) => match ByteSize::parse(text) {
                    Ok(size) => Some(size),
                    Err(_) => None,
                },
                None => None,
            },
        },
    }
}

fn unusable(key: &str) -> (r: Result<Config, ConfigError>)
    ensures
        r matches Err(ConfigError::Unusable { key: given }) && given@ == key@,
{
    Err(ConfigError::Unusable { key: key.to_string() })
}

impl Config {
    /// Parse the configuration, rejecting anything unusable.
    ///
    /// There is deliberately no default gate. A worker that fell back to a
    /// built-in command when the config was missing or malformed would be a
    /// second route to running something nobody chose.
    pub fn parse(toml_source: &str) -> (r: Result<Self, ConfigError>)
        ensures
            match toml_settings(toml_source@) {
                Ok(list) => reads(list, r),
                Err(why) => r matches Err(ConfigError::Malformed { why: given }) && given@ == why,
            },
    {
        match read_toml(toml_source) {
            Ok(list) => Config::from_settings(&list),
            Err(why) => Err(ConfigError::Malformed { why }),
        }
    }

    /// The configuration that settings amount to.
    pub fn from_settings(list: &Vec<Setting>) -> (r: Result<Self, ConfigError>)
        ensures
            reads(settings(list@), r),
    {
        let ghost all = settings(list@);
        for i in 0..list.len()
            invariant
                all == settings(list@),
                forall|j: int| 0 <= j < i ==> is_known((#[trigger] all[j]).0),
        {
            assert(all[i as int] == list@[i as int]@);
            if !known(&list[i].key) {
                return Err(ConfigError::Unknown { key: list[i].key.clone() });
            }
        }
        assert(all_known(all));
        let gate: String = match find(list, "gate") {
            Some(s) => match &s.text {
                Some(text) => text.clone(),
                None => {
                    return unusable("gate");
                },
            },
            None => {
                return unusable("gate");
            },
        };
        let max_batch: usize = match read_count(
            list,
            "max_batch",
            DEFAULT_MAX_BATCH as u64,
            usize::MAX as u64,
        ) {
            Some(n) => n as usize,
            None => {
                return unusable("max_batch");
            },
        };
        let max_attempts: u32 = match read_count(
            list,
            "max_attempts",
            DEFAULT_MAX_ATTEMPTS as u64,
            u32::MAX as u64,
        ) {
            Some(n) => n as u32,
            None => {
                return unusable("max_attempts");
            },
        };
        let log_budget: ByteSize = match read_size(list, "log_budget", DEFAULT_LOG_BUDGET) {
            Some(size) => size,
            None => {
                return unusable("log_budget");
            },
        };
        let max_log_size: ByteSize = match read_size(list, "max_log_size", DEFAULT_MAX_LOG_SIZE) {
            Some(size) => size,
            None => {
                return unusable("max_log_size");
            },
        };
        let on_settle: Option<String> = match find(list, "on_settle") {
            None => None,
            Some(s) => match &s.text {
                Some(text) => Some(text.clone()),
                None => {
                    return unusable("on_settle");
                },
            },
        };
        assert(readable(all));
        let config = Config {
            gate,
            max_batch,
            max_attempts,
            log_budget,
            max_log_size,
            on_settle,
        };
        assert(config@ == configured(all));
        if text::chars_of(&text::trim(&config.gate)).len() == 0 {
            return Err(ConfigError::EmptyGate);
        }
        if config.max_batch == 0 {
            return Err(ConfigError::ZeroBatch);
        }
        if config.max_attempts == 0 {
            return Err(ConfigError::ZeroAttempts);
        }
        Ok(config)
    }
}

impl ConfigError {
    /// What the error says.
    pub open spec fn said(self) -> Seq<char> {
        match self {
            ConfigError::Malformed { why } => "parsing sasse.toml: "@ + why@,
            ConfigError::Unknown { key } => "parsing sasse.toml: there is no setting "@
                + text::quoted_text(key@),
            ConfigError::Unusable { key } => "parsing sasse.toml: the setting "@
                + text::quoted_text(key@) + " is missing or unusable"@,
            ConfigError::EmptyGate => "sasse.toml declares an empty gate"@,
            ConfigError::ZeroBatch =>
            "sasse.toml sets max_batch to 0, which would queue forever without ever gating"@,
            ConfigError::ZeroAttempts =>
            "sasse.toml sets max_attempts to 0, which would evict every entry on its first failure"@,
        }
    }

    pub fn message(&self) -> (r: String)
        ensures
            r@ == self.said(),
    {
        match self {
            ConfigError::Malformed { why } => {
                let mut r = "parsing sasse.toml: ".to_string();
                r.append(why);
                r
            },
            ConfigError::Unknown { key } => {
                let mut r = "parsing sasse.toml: there is no setting ".to_string();
                r.append(&text::quoted(key));
                r
            },
            ConfigError::Unusable { key } => {
                let mut r = "parsing sasse.toml: the setting ".to_string();
                r.append(&text::quoted(key));
                r.append(" is missing or unusable");
                r
            },
            ConfigError::EmptyGate => "sasse.toml declares an empty gate".to_string(),
            ConfigError::ZeroBatch => {
                "sasse.toml sets max_batch to 0, which would queue forever without ever gating".to_string()
            },
            ConfigError::ZeroAttempts => {
                "sasse.toml sets max_attempts to 0, which would evict every entry on its first failure".to_string()
            },
        }
    }
}

} // verus!
