//! What the settings of a configuration mean, one by one.

use vstd::prelude::*;

use crate::bytes::size_read;
use crate::config::setting;
use crate::config::settings;
use crate::config::toml_settings;
use crate::config::Config;
use crate::config::ConfigError;
use crate::config::Setting;
use crate::text;
use crate::text::trimmed;

verus! {

/// The setting with this number is of this key.
pub open spec fn sets(list: Seq<Setting>, i: int, key: Seq<char>) -> bool {
    0 <= i < list.len() && list[i].key@ == key
}

/// The key is set.
pub open spec fn is_set(list: Seq<Setting>, key: Seq<char>) -> bool {
    exists|i: int| #[trigger] sets(list, i, key)
}

/// A count is as it is set, a whole number that is not negative, and the default
/// where it is not.
pub open spec fn counts(list: Seq<Setting>, key: Seq<char>, default: int, n: int) -> bool {
    &&& !is_set(list, key) ==> n == default
    &&& forall|i: int| #[trigger]
        sets(list, i, key) ==> list[i].number is Some && list[i].number->0 == n
}

/// A size is as it is set, as a number of bytes or spelled out, and the default
/// where it is not.
pub open spec fn sizes(list: Seq<Setting>, key: Seq<char>, default: int, n: int) -> bool {
    &&& !is_set(list, key) ==> n == default
    &&& forall|i: int| #[trigger]
        sets(list, i, key) ==> match (list[i].number, list[i].text) {
            (Some(bytes), _) => n == bytes,
            (None, Some(spelled)) => size_read(spelled@) is Some && n == size_read(spelled@)->0,
            (None, None) => false,
        }
}

/// No key is set twice.
pub open spec fn set_once(list: Seq<Setting>) -> bool {
    forall|i: int, j: int|
        0 <= i < j < list.len() ==> (#[trigger] list[i]).key@ != (#[trigger] list[j]).key@
}

/// A setting is found where it is.
proof fn a_setting_is_found(list: Seq<Setting>, key: Seq<char>)
    requires
        set_once(list),
    ensures
        setting(settings(list), key) is Some <==> is_set(list, key),
        forall|i: int| #[trigger]
            sets(list, i, key) ==> setting(settings(list), key) == Some(
                (text::optional(list[i].text), list[i].number),
            ),
    decreases list.len(),
{
    let all = settings(list);
    if list.len() > 0 {
        let rest = list.drop_last();
        let n = list.len() - 1;
        assert forall|i: int, j: int| 0 <= i < j < rest.len() implies (#[trigger] rest[i]).key@ != (
        #[trigger] rest[j]).key@ by {
            assert(list[i].key@ != list[j].key@);
        }
        a_setting_is_found(rest, key);
        assert(all.drop_last() =~= settings(rest));
        assert(all.last() == list[n]@);
        if list[n].key@ == key {
            assert(sets(list, n, key));
            assert forall|i: int| #[trigger] sets(list, i, key) implies i == n by {
                if i < n {
                    assert(list[i].key@ != list[n].key@);
                }
            }
        } else {
            assert forall|i: int| #[trigger] sets(list, i, key) == sets(rest, i, key) by {}
            if is_set(list, key) {
                let i = choose|i: int| #[trigger] sets(list, i, key);
                assert(sets(rest, i, key));
            }
            if is_set(rest, key) {
                let i = choose|i: int| #[trigger] sets(rest, i, key);
                assert(sets(list, i, key));
            }
        }
    } else {
        assert(all =~= Seq::empty());
    }
}

/// The key is one of those there are.
pub open spec fn exists_as_setting(key: Seq<char>) -> bool {
    key == "gate"@ || key == "max_batch"@ || key == "max_attempts"@ || key == "log_budget"@ || key
        == "max_log_size"@ || key == "on_settle"@
}

/// A configuration that was read is what was set, each of its parts from its own
/// setting: a gate command that is not blank, a batch and a number of attempts of
/// at least one, two sizes, and a hook if one is set. Nothing is set that does not
/// exist.
pub proof fn what_is_set_is_what_is_read(list: &Vec<Setting>, config: Config)
    requires
        set_once(list@),
        call_ensures(Config::from_settings, (list,), Ok::<Config, ConfigError>(config)),
    ensures
        forall|i: int| 0 <= i < list@.len() ==> exists_as_setting((#[trigger] list@[i]).key@),
        is_set(list@, "gate"@),
        forall|i: int| #[trigger]
            sets(list@, i, "gate"@) ==> list@[i].text is Some && list@[i].text->0@ == config.gate@,
        trimmed(config.gate@).len() > 0,
        counts(list@, "max_batch"@, 8, config.max_batch as int),
        config.max_batch >= 1,
        counts(list@, "max_attempts"@, 3, config.max_attempts as int),
        config.max_attempts >= 1,
        sizes(list@, "log_budget"@, 200 * 1_048_576int, config.log_budget@ as int),
        sizes(list@, "max_log_size"@, 2 * 1_048_576int, config.max_log_size@ as int),
        config.on_settle is Some <==> is_set(list@, "on_settle"@),
        forall|i: int| #[trigger]
            sets(list@, i, "on_settle"@) ==> list@[i].text is Some && config.on_settle is Some
                && list@[i].text->0@ == config.on_settle->0@,
{
    each_is_found(list@);
    let all = settings(list@);
    assert forall|i: int| 0 <= i < list@.len() implies exists_as_setting(
        (#[trigger] list@[i]).key@,
    ) by {
        assert(crate::config::is_known(all[i].0));
    }
}

proof fn each_is_found(list: Seq<Setting>)
    requires
        set_once(list),
    ensures
        forall|key: Seq<char>| #[trigger]
            setting(settings(list), key) is Some <==> is_set(list, key),
        forall|i: int, key: Seq<char>| #[trigger]
            sets(list, i, key) ==> setting(settings(list), key) == Some(
                (text::optional(list[i].text), list[i].number),
            ),
{
    assert forall|key: Seq<char>| #[trigger] setting(settings(list), key) is Some <==> is_set(
        list,
        key,
    ) by {
        a_setting_is_found(list, key);
    }
    assert forall|i: int, key: Seq<char>| #[trigger] sets(list, i, key) implies setting(
        settings(list),
        key,
    ) == Some((text::optional(list[i].text), list[i].number)) by {
        a_setting_is_found(list, key);
    }
}

/// Settings that mean something: all of them exist, the merge gate is a command, what is
/// counted is a whole number of at least one that fits, what is sized is a size,
/// and the hook is a command.
pub open spec fn are_good(list: Seq<Setting>) -> bool {
    &&& forall|i: int| 0 <= i < list.len() ==> exists_as_setting((#[trigger] list[i]).key@)
    &&& is_set(list, "gate"@)
    &&& forall|i: int| #[trigger]
        sets(list, i, "gate"@) ==> list[i].text is Some && trimmed(list[i].text->0@).len() > 0
    &&& forall|i: int| #[trigger]
        sets(list, i, "max_batch"@) ==> list[i].number is Some && 1 <= list[i].number->0
            <= usize::MAX
    &&& forall|i: int| #[trigger]
        sets(list, i, "max_attempts"@) ==> list[i].number is Some && 1 <= list[i].number->0
            <= u32::MAX
    &&& forall|i: int| #[trigger] sets(list, i, "log_budget"@) ==> is_a_size(list[i])
    &&& forall|i: int| #[trigger] sets(list, i, "max_log_size"@) ==> is_a_size(list[i])
    &&& forall|i: int| #[trigger] sets(list, i, "on_settle"@) ==> list[i].text is Some
}

/// The setting is a size: a number of bytes, or one spelled out.
pub open spec fn is_a_size(s: Setting) -> bool {
    match (s.number, s.text) {
        (Some(bytes), _) => bytes >= 0,
        (None, Some(spelled)) => size_read(spelled@) is Some,
        (None, None) => false,
    }
}

/// Settings are refused exactly where they mean nothing.
pub proof fn settings_that_mean_something_are_taken(
    list: &Vec<Setting>,
    r: Result<Config, ConfigError>,
)
    requires
        set_once(list@),
        call_ensures(Config::from_settings, (list,), r),
    ensures
        r is Ok <==> are_good(list@),
{
    each_is_found(list@);
    let all = settings(list@);
    if are_good(list@) {
        let i = choose|i: int| #[trigger] sets(list@, i, "gate"@);
        assert(list@[i].text is Some);
        assert forall|i: int| 0 <= i < all.len() implies crate::config::is_known(
            (#[trigger] all[i]).0,
        ) by {
            assert(exists_as_setting(list@[i].key@));
        }
        if is_set(list@, "max_batch"@) {
            let k = choose|k: int| #[trigger] sets(list@, k, "max_batch"@);
            assert(list@[k].number is Some);
        }
        if is_set(list@, "max_attempts"@) {
            let k = choose|k: int| #[trigger] sets(list@, k, "max_attempts"@);
            assert(list@[k].number is Some);
        }
        if is_set(list@, "log_budget"@) {
            let k = choose|k: int| #[trigger] sets(list@, k, "log_budget"@);
            assert(is_a_size(list@[k]));
        }
        if is_set(list@, "max_log_size"@) {
            let k = choose|k: int| #[trigger] sets(list@, k, "max_log_size"@);
            assert(is_a_size(list@[k]));
        }
        if is_set(list@, "on_settle"@) {
            let k = choose|k: int| #[trigger] sets(list@, k, "on_settle"@);
            assert(list@[k].text is Some);
        }
        assert(crate::config::readable(all));
        if let Err(ConfigError::Unknown { key }) = r {
            let k = choose|k: int|
                0 <= k < all.len() && (#[trigger] all[k]).0 == key@ && crate::config::all_known(
                    all.take(k),
                );
            assert(crate::config::is_known(all[k].0));
        }
    }
    if let Ok(config) = r {
        assert forall|i: int| 0 <= i < list@.len() implies exists_as_setting(
            (#[trigger] list@[i]).key@,
        ) by {
            assert(crate::config::is_known(all[i].0));
        }
    }
}

/// Something that is set and does not exist is named as such, whatever else is
/// wrong.
pub proof fn what_does_not_exist_is_named(list: &Vec<Setting>, i: int, r: Result<Config, ConfigError>)
    requires
        0 <= i < list@.len(),
        !exists_as_setting(list@[i].key@),
        call_ensures(Config::from_settings, (list,), r),
    ensures
        r matches Err(ConfigError::Unknown { key }) && !exists_as_setting(key@) && exists|k: int|
            0 <= k <= i && (#[trigger] list@[k]).key@ == key@,
{
    let all = settings(list@);
    assert(all[i].0 == list@[i].key@);
    assert(!crate::config::is_known(all[i].0));
    assert(!crate::config::all_known(all));
    if let Err(ConfigError::Unknown { key }) = r {
        let k = choose|k: int|
            0 <= k < all.len() && (#[trigger] all[k]).0 == key@ && crate::config::all_known(
                all.take(k),
            );
        if i < k {
            assert(all.take(k)[i] == all[i]);
        }
        assert(list@[k].key@ == key@);
    }
}

/// The setting cannot be used: the merge gate is not there or is no text, a count
/// is no whole number that fits, a size is none, the hook is no text.
pub open spec fn is_spoiled(list: Seq<Setting>, key: Seq<char>) -> bool {
    ||| key == "gate"@ && !is_set(list, key)
    ||| (key == "gate"@ || key == "on_settle"@) && exists|i: int| #[trigger]
        sets(list, i, key) && list[i].text is None
    ||| key == "max_batch"@ && exists|i: int| #[trigger]
        sets(list, i, key) && !(list[i].number is Some && 0 <= list[i].number->0 <= usize::MAX)
    ||| key == "max_attempts"@ && exists|i: int| #[trigger]
        sets(list, i, key) && !(list[i].number is Some && 0 <= list[i].number->0 <= u32::MAX)
    ||| (key == "log_budget"@ || key == "max_log_size"@) && exists|i: int| #[trigger]
        sets(list, i, key) && !is_a_size(list[i])
}

/// The merge gate is set to a blank text.
pub open spec fn is_blank_gate(list: Seq<Setting>) -> bool {
    exists|i: int| #[trigger]
        sets(list, i, "gate"@) && list[i].text is Some && trimmed(list[i].text->0@).len() == 0
}

/// A count is set to none.
pub open spec fn is_none_at_all(list: Seq<Setting>, key: Seq<char>) -> bool {
    exists|i: int| #[trigger] sets(list, i, key) && list[i].number == Some(0i64)
}

/// A refusal says what is wrong, and what it says is wrong: a setting that does
/// not exist, else one that cannot be used, else a blank gate, else a batch of
/// none, else no attempt at all.
pub proof fn a_refusal_says_what_is_wrong(list: &Vec<Setting>, e: ConfigError)
    requires
        set_once(list@),
        call_ensures(Config::from_settings, (list,), Err::<Config, ConfigError>(e)),
    ensures
        match e {
            ConfigError::Malformed { .. } => false,
            ConfigError::Unknown { key } => !exists_as_setting(key@) && is_set(list@, key@),
            ConfigError::Unusable { key } => is_spoiled(list@, key@),
            ConfigError::EmptyGate => is_blank_gate(list@),
            ConfigError::ZeroBatch => !is_blank_gate(list@) && is_none_at_all(
                list@,
                "max_batch"@,
            ),
            ConfigError::ZeroAttempts => !is_blank_gate(list@) && !is_none_at_all(
                list@,
                "max_batch"@,
            ) && is_none_at_all(list@, "max_attempts"@),
        },
{
    each_is_found(list@);
    let all = settings(list@);
    match e {
        ConfigError::Unknown { key } => {
            let k = choose|k: int|
                0 <= k < all.len() && (#[trigger] all[k]).0 == key@ && crate::config::all_known(
                    all.take(k),
                );
            assert(sets(list@, k, key@));
        },
        ConfigError::Unusable { key } => {
            if is_set(list@, key@) {
                let i = choose|i: int| #[trigger] sets(list@, i, key@);
                assert(setting(all, key@) == Some(
                    (text::optional(list@[i].text), list@[i].number),
                ));
            }
        },
        ConfigError::EmptyGate => {
            let i = choose|i: int| #[trigger] sets(list@, i, "gate"@);
            assert(sets(list@, i, "gate"@));
        },
        ConfigError::ZeroBatch => {
            let i = choose|i: int| #[trigger] sets(list@, i, "max_batch"@);
            assert(is_set(list@, "max_batch"@));
            assert(sets(list@, i, "max_batch"@));
        },
        ConfigError::ZeroAttempts => {
            let i = choose|i: int| #[trigger] sets(list@, i, "max_attempts"@);
            assert(is_set(list@, "max_attempts"@));
            assert(sets(list@, i, "max_attempts"@));
        },
        ConfigError::Malformed { .. } => {},
    }
}

/// A configuration in a text is the one that its settings amount to: it is refused
/// where they are, and is the same where they are not. A text that cannot be read is
/// refused with the reason.
pub proof fn a_text_is_read_as_its_settings(
    source: &str,
    list: &Vec<Setting>,
    from_text: Result<Config, ConfigError>,
    from_list: Result<Config, ConfigError>,
)
    requires
        call_ensures(Config::parse, (source,), from_text),
        call_ensures(Config::from_settings, (list,), from_list),
    ensures
        toml_settings(source@) matches Ok(read) ==> read == settings(list@) ==> {
            &&& from_text is Ok <==> from_list is Ok
            &&& from_text is Ok ==> from_text->Ok_0@ == from_list->Ok_0@
            &&& from_text is Err ==> from_text->Err_0.said() == from_list->Err_0.said()
        },
        toml_settings(source@) matches Err(why) ==> {
            &&& from_text is Err
            &&& from_text->Err_0 is Malformed
            &&& from_text->Err_0->why@ == why
        },
{
    if let Ok(read) = toml_settings(source@) {
        if read == settings(list@) {
            match (from_text, from_list) {
                (
                    Err(ConfigError::Unknown { key: a }),
                    Err(ConfigError::Unknown { key: b }),
                ) => {
                    let i = choose|i: int|
                        0 <= i < read.len() && (#[trigger] read[i]).0 == a@
                            && crate::config::all_known(read.take(i));
                    let j = choose|j: int|
                        0 <= j < read.len() && (#[trigger] read[j]).0 == b@
                            && crate::config::all_known(read.take(j));
                    if i < j {
                        assert(crate::config::is_known(read.take(j)[i].0));
                    }
                    if j < i {
                        assert(crate::config::is_known(read.take(i)[j].0));
                    }
                },
                (Err(ConfigError::Unknown { key: a }), _) => {
                    let i = choose|i: int|
                        0 <= i < read.len() && (#[trigger] read[i]).0 == a@
                            && crate::config::all_known(read.take(i));
                    assert(!crate::config::is_known(read[i].0));
                },
                (_, Err(ConfigError::Unknown { key: b })) => {
                    let j = choose|j: int|
                        0 <= j < read.len() && (#[trigger] read[j]).0 == b@
                            && crate::config::all_known(read.take(j));
                    assert(!crate::config::is_known(read[j].0));
                },
                _ => {},
            }
        }
    }
}

/// A listing counts attempts by the configuration that a tick would go by, and
/// counts none where there is no configuration that can be used.
pub proof fn a_listing_goes_by_the_same_budget(
    source: &Option<String>,
    raw: &str,
    given: Result<Config, ConfigError>,
    r: Option<u32>,
)
    requires
        call_ensures(crate::report::gate_budget, (source,), r),
        call_ensures(Config::parse, (raw,), given),
        source matches Some(text) ==> text@ == raw@,
    ensures
        *source is None ==> r is None,
        *source is Some ==> r == (match given {
            Ok(config) => Some(config.max_attempts),
            Err(_) => None,
        }),
{
    if let Some(text) = source {
        let other = choose|other: Result<Config, ConfigError>|
            {
                &&& #[trigger] crate::tick::config_gives(text@, other)
                &&& r == (match other {
                    Ok(config) => Some(config.max_attempts),
                    Err(_) => None,
                })
            };
        if let Ok(read) = toml_settings(raw@) {
            if let Err(ConfigError::Unknown { key }) = other {
                let i = choose|i: int|
                    0 <= i < read.len() && (#[trigger] read[i]).0 == key@
                        && crate::config::all_known(read.take(i));
                assert(!crate::config::is_known(read[i].0));
            }
            if let Err(ConfigError::Unknown { key }) = given {
                let i = choose|i: int|
                    0 <= i < read.len() && (#[trigger] read[i]).0 == key@
                        && crate::config::all_known(read.take(i));
                assert(!crate::config::is_known(read[i].0));
            }
        }
    }
}

} // verus!
