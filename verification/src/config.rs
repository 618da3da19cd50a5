//! Typed values out of the configuration file.
//!
//! The file is held by a `configparser::ini::Ini`. Looking a key up is
//! left to it; what the text of a value means is decided here.

use vstd::prelude::*;
use vstd::string::StrSliceExecFns;
use configparser::ini::Ini;
use crate::decimal::{decimal_micro, integer_i64, parse_decimal, parse_integer};
use crate::fault::{Fault, KeyError};

verus! {

#[verifier::external_type_specification]
#[verifier::external_body]
pub struct ExIni(configparser::ini::Ini);

/// The text that a configuration yields for a section and key, for each
/// pair for which it yields one.
pub uninterp spec fn ini_values(ini: Ini) -> Map<(Seq<char>, Seq<char>), Seq<char>>;

/// The names of the sections of a configuration.
pub uninterp spec fn ini_sections(ini: Ini) -> Set<Seq<char>>;

/// Calls `Ini::get`, which returns the text stored for `key` in `section`,
/// or nothing where the section or the key is absent or the key was
/// written without a value. `ini_values` stands for what it yields.
#[verifier::external_body]
fn lookup(config: &Ini, section: &str, key: &str) -> (r: Option<String>)
    ensures
        r is Some <==> ini_values(*config).contains_key((section@, key@)),
        r matches Some(text) ==> text@ == ini_values(*config)[(section@, key@)],
{
    config.get(section, key)
}

/// Calls `Ini::sections`, which returns the name of each section once, in
/// no particular order. `ini_sections` stands for the set of them.
#[verifier::external_body]
fn sections(config: &Ini) -> (r: Vec<String>)
    ensures
        forall|name: Seq<char>|
            ini_sections(*config).contains(name) <==> exists|i: int|
                0 <= i < r@.len() && #[trigger] r@[i]@ == name,
        forall|i: int, j: int| 0 <= i < j < r@.len() ==> r@[i]@ != r@[j]@,
{
    config.sections()
}

/// `fault` reports `error` for `key` of `section`.
pub open spec fn is_key_fault(
    fault: Fault,
    section: Seq<char>,
    key: Seq<char>,
    error: KeyError,
) -> bool {
    fault matches Fault::Config { section: s, key: k, error: e } && s@ == section && k@ == key
        && e == error
}

/// The size that a text writes: a decimal integer that fits 64 bits with
/// a sign, is not negative, and fits the machine's sizes.
pub open spec fn size_of_text(text: Seq<char>) -> Result<usize, KeyError> {
    match integer_i64(text) {
        None => Err(KeyError::Invalid),
        Some(v) => if 0 <= v <= usize::MAX {
            Ok(v as usize)
        } else {
            Err(KeyError::OutOfBounds)
        },
    }
}

/// What was found for a key.
pub open spec fn found(
    values: Map<(Seq<char>, Seq<char>), Seq<char>>,
    section: Seq<char>,
    key: Seq<char>,
) -> Option<Seq<char>> {
    if values.contains_key((section, key)) {
        Some(values[(section, key)])
    } else {
        None
    }
}

/// The size that a configuration holds for a key that must be there.
pub open spec fn wanted_size(
    values: Map<(Seq<char>, Seq<char>), Seq<char>>,
    section: Seq<char>,
    key: Seq<char>,
) -> Result<usize, KeyError> {
    match found(values, section, key) {
        None => Err(KeyError::Missing),
        Some(text) => size_of_text(text),
    }
}

/// The size that a configuration holds for a key that may be absent.
pub open spec fn optional_size(
    values: Map<(Seq<char>, Seq<char>), Seq<char>>,
    section: Seq<char>,
    key: Seq<char>,
) -> Result<Option<usize>, KeyError> {
    match found(values, section, key) {
        None => Ok(None),
        Some(text) => match size_of_text(text) {
            Ok(v) => Ok(Some(v)),
            Err(e) => Err(e),
        },
    }
}

/// The decimal, in millionths, that a configuration holds for a key that
/// must be there.
pub open spec fn wanted_decimal(
    values: Map<(Seq<char>, Seq<char>), Seq<char>>,
    section: Seq<char>,
    key: Seq<char>,
) -> Result<i64, KeyError> {
    match found(values, section, key) {
        None => Err(KeyError::Missing),
        Some(text) => decimal_micro(text),
    }
}

/// The text that a configuration holds for a key that must be there.
pub open spec fn wanted_text(
    values: Map<(Seq<char>, Seq<char>), Seq<char>>,
    section: Seq<char>,
    key: Seq<char>,
) -> Result<Seq<char>, KeyError> {
    match found(values, section, key) {
        None => Err(KeyError::Missing),
        Some(text) => Ok(text),
    }
}

/// A problem with one key: its section, its name, and what is wrong.
pub type KeyIssue = (Seq<char>, Seq<char>, KeyError);

/// The problem that a reading of a key shows, if it failed.
pub open spec fn issue<T>(section: Seq<char>, key: Seq<char>, read: Result<T, KeyError>) -> Option<
    KeyIssue,
> {
    match read {
        Ok(_) => None,
        Err(error) => Some((section, key, error)),
    }
}

/// The problem of `key`, where `broken` holds.
pub open spec fn issue_if(broken: bool, section: Seq<char>, key: Seq<char>, error: KeyError) -> Option<
    KeyIssue,
> {
    if broken {
        Some((section, key, error))
    } else {
        None
    }
}

/// The first of two problems.
pub open spec fn first_of(a: Option<KeyIssue>, b: Option<KeyIssue>) -> Option<KeyIssue> {
    if a is Some {
        a
    } else {
        b
    }
}

/// `fault` reports the problem `issue`.
pub open spec fn reports(fault: Fault, issue: Option<KeyIssue>) -> bool {
    issue matches Some((section, key, error)) && is_key_fault(fault, section, key, error)
}

/// The fault that reports `error` for `key` of `section`.
pub fn key_fault(section: &str, key: &str, error: KeyError) -> (r: Fault)
    ensures
        is_key_fault(r, section@, key@, error),
{
    Fault::Config { section: section.to_owned(), key: key.to_owned(), error }
}

/// Reads a text as a size.
pub fn size_from_text(text: &str) -> (r: Result<usize, KeyError>)
    ensures
        r == size_of_text(text@),
{
    match parse_integer(text) {
        None => Err(KeyError::Invalid),
        Some(v) => {
            if v < 0 {
                Err(KeyError::OutOfBounds)
            } else if v as u64 > usize::MAX as u64 {
                Err(KeyError::OutOfBounds)
            } else {
                Ok(v as usize)
            }
        },
    }
}

/// Reads the integer of a key that must be there, as a size.
///
/// The key is missing where the configuration has no text for it. The
/// text is invalid unless it is a decimal integer that fits 64 bits with a
/// sign, and out of bounds where that integer is negative or too large for
/// a size.
pub fn parse_int(config: &Ini, section: &str, key: &str) -> (r: Result<usize, Fault>)
    ensures
        match r {
            Ok(v) => wanted_size(ini_values(*config), section@, key@) == Ok::<usize, KeyError>(v),
            Err(fault) => exists|error: KeyError|
                wanted_size(ini_values(*config), section@, key@) == Err::<usize, KeyError>(error)
                    && is_key_fault(fault, section@, key@, error),
        },
{
    match lookup(config, section, key) {
        None => Err(key_fault(section, key, KeyError::Missing)),
        Some(text) => match size_from_text(text.as_str()) {
            Ok(v) => Ok(v),
            Err(error) => Err(key_fault(section, key, error)),
        },
    }
}

/// Reads the integer of a key that may be absent, as a size.
pub fn parse_opt_int(config: &Ini, section: &str, key: &str) -> (r: Result<Option<usize>, Fault>)
    ensures
        match r {
            Ok(v) => optional_size(ini_values(*config), section@, key@) == Ok::<
                Option<usize>,
                KeyError,
            >(v),
            Err(fault) => exists|error: KeyError|
                optional_size(ini_values(*config), section@, key@) == Err::<
                    Option<usize>,
                    KeyError,
                >(error) && is_key_fault(fault, section@, key@, error),
        },
{
    match lookup(config, section, key) {
        None => Ok(None),
        Some(text) => match size_from_text(text.as_str()) {
            Ok(v) => Ok(Some(v)),
            Err(error) => Err(key_fault(section, key, error)),
        },
    }
}

/// Reads the decimal number of a key that must be there, in millionths.
///
/// The text is invalid unless it is a decimal number, which the words for
/// infinity and not-a-number are not, and out of bounds where its
/// magnitude is above a million.
pub fn parse_float(config: &Ini, section: &str, key: &str) -> (r: Result<i64, Fault>)
    ensures
        match r {
            Ok(v) => wanted_decimal(ini_values(*config), section@, key@) == Ok::<i64, KeyError>(
                v,
            ),
            Err(fault) => exists|error: KeyError|
                wanted_decimal(ini_values(*config), section@, key@) == Err::<i64, KeyError>(
                    error,
                ) && is_key_fault(fault, section@, key@, error),
        },
{
    match lookup(config, section, key) {
        None => Err(key_fault(section, key, KeyError::Missing)),
        Some(text) => match parse_decimal(text.as_str()) {
            Ok(v) => Ok(v),
            Err(error) => Err(key_fault(section, key, error)),
        },
    }
}

/// Reads the text of a key that must be there.
pub fn parse_string(config: &Ini, section: &str, key: &str) -> (r: Result<String, Fault>)
    ensures
        match r {
            Ok(text) => wanted_text(ini_values(*config), section@, key@) == Ok::<
                Seq<char>,
                KeyError,
            >(text@),
            Err(fault) => wanted_text(ini_values(*config), section@, key@) is Err && is_key_fault(
                fault,
                section@,
                key@,
                KeyError::Missing,
            ),
        },
{
    match lookup(config, section, key) {
        None => Err(key_fault(section, key, KeyError::Missing)),
        Some(text) => Ok(text),
    }
}

/// What is left of `s` after `prefix`, where `s` starts with it.
pub open spec fn stripped(s: Seq<char>, prefix: Seq<char>) -> Option<Seq<char>> {
    if prefix.is_prefix_of(s) {
        Some(s.skip(prefix.len() as int))
    } else {
        None
    }
}

/// Takes `prefix` off the front of `s`, where `s` starts with it.
pub fn strip_prefix(s: &str, prefix: &str) -> (r: Option<String>)
    ensures
        match r {
            Some(rest) => stripped(s@, prefix@) == Some(rest@),
            None => stripped(s@, prefix@) is None,
        },
{
    let n: usize = s.unicode_len();
    let m: usize = prefix.unicode_len();
    if m > n {
        return None;
    }
    let mut i: usize = 0;
    while i < m
        invariant
            i <= m <= n,
            n == s@.len(),
            m == prefix@.len(),
            forall|j: int| 0 <= j < i ==> s@[j] == prefix@[j],
        decreases m - i,
    {
        if s.get_char(i) != prefix.get_char(i) {
            proof {
                if prefix@.is_prefix_of(s@) {
                    assert(s@.subrange(0, m as int)[i as int] == prefix@[i as int]);
                }
            }
            return None;
        }
        i = i + 1;
    }
    proof {
        assert(s@.subrange(0, m as int) =~= prefix@);
    }
    Some(s.substring_char(m, n).to_owned())
}

/// The speakers that a list of section names tells of: what follows
/// `Speaker/` in each name that starts so, in the order of the list.
pub open spec fn speakers_among(names: Seq<Seq<char>>) -> Seq<Seq<char>>
    decreases names.len(),
{
    if names.len() == 0 {
        Seq::empty()
    } else {
        match stripped(names.last(), "Speaker/"@) {
            Some(name) => speakers_among(names.drop_last()).push(name),
            None => speakers_among(names.drop_last()),
        }
    }
}

/// The views of a list of strings.
pub open spec fn texts(v: Seq<String>) -> Seq<Seq<char>> {
    v.map_values(|s: String| s@)
}

/// Picks the speakers out of a list of section names.
pub fn speaker_names(names: &Vec<String>) -> (r: Vec<String>)
    ensures
        texts(r@) == speakers_among(texts(names@)),
{
    let mut found: Vec<String> = Vec::new();
    let mut i: usize = 0;
    while i < names.len()
        invariant
            i <= names.len(),
            texts(found@) == speakers_among(texts(names@).take(i as int)),
        decreases names.len() - i,
    {
        let ghost before = texts(names@).take(i as int);
        let ghost now = texts(names@).take(i + 1);
        proof {
            assert(now.drop_last() =~= before);
            assert(now.last() == names@[i as int]@);
        }
        match strip_prefix(names[i].as_str(), "Speaker/") {
            Some(name) => {
                let ghost old_found = texts(found@);
                found.push(name);
                proof {
                    assert(texts(found@) =~= old_found.push(name@));
                }
            },
            None => {},
        }
        i = i + 1;
    }
    proof {
        assert(texts(names@).take(names@.len() as int) =~= texts(names@));
    }
    found
}

/// The names of the speakers that a configuration describes: one for each
/// section named `Speaker/` and a name, in no particular order.
pub fn get_speakers(config: &Ini) -> (r: Vec<String>)
    ensures
        exists|names: Seq<Seq<char>>|
            {
                &&& texts(r@) == speakers_among(names)
                &&& names.no_duplicates()
                &&& names.to_set() == ini_sections(*config)
            },
{
    let names = sections(config);
    proof {
        let t = texts(names@);
        assert(t.no_duplicates());
        assert(t.to_set() =~= ini_sections(*config)) by {
            assert forall|name: Seq<char>| t.to_set().contains(name) implies ini_sections(
                *config,
            ).contains(name) by {
                let i = choose|i: int| 0 <= i < t.len() && t[i] == name;
                assert(names@[i]@ == name);
            }
            assert forall|name: Seq<char>| ini_sections(*config).contains(
                name,
            ) implies t.to_set().contains(name) by {
                let i = choose|i: int| 0 <= i < names@.len() && #[trigger] names@[i]@ == name;
                assert(t[i] == name);
            }
        }
    }
    speaker_names(&names)
}

} // verus!
