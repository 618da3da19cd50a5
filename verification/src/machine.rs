//! Which machine this is, and what follows from it.
//!
//! The platform describes a machine by a list of strings, each ended by a
//! NUL, of which the first reads `maker,model`. Letters at the end of the
//! model tell variants apart that share one configuration, and are dropped.

use vstd::prelude::*;
use vstd::string::StrSliceExecFns;
use vstd::string::StringExecFns;
use crate::text::push_char;

verus! {

/// The index of the first `c` in `s` at or after `i`, or the length of
/// `s` if there is none.
pub open spec fn find_from(s: Seq<char>, c: char, i: int) -> int
    decreases s.len() - i,
{
    if i < 0 || i >= s.len() {
        s.len() as int
    } else if s[i] == c {
        i
    } else {
        find_from(s, c, i + 1)
    }
}

/// Whether `c` is an ASCII letter.
pub open spec fn is_letter(c: char) -> bool {
    ('a' <= c <= 'z') || ('A' <= c <= 'Z')
}

/// How much of `s` is left once the ASCII letters at its end are dropped.
pub open spec fn trimmed_len(s: Seq<char>) -> int
    decreases s.len(),
{
    if s.len() > 0 && is_letter(s.last()) {
        trimmed_len(s.drop_last())
    } else {
        s.len() as int
    }
}

/// `c` in lower case if it is an ASCII capital, else `c`.
pub open spec fn lower(c: char) -> char {
    if 'A' <= c <= 'Z' {
        ((c as u32) + 32) as char
    } else {
        c
    }
}

/// `c` as a capital if it is an ASCII small letter, else `c`.
pub open spec fn upper(c: char) -> char {
    if 'a' <= c <= 'z' {
        ((c as u32) - 32) as char
    } else {
        c
    }
}

/// `s` with each ASCII capital in lower case.
pub open spec fn lowered(s: Seq<char>) -> Seq<char> {
    Seq::new(s.len(), |i: int| lower(s[i]))
}

/// `s` with each ASCII small letter as a capital.
pub open spec fn uppered(s: Seq<char>) -> Seq<char> {
    Seq::new(s.len(), |i: int| upper(s[i]))
}

/// The machine that a platform description names: its first string, up
/// to the first NUL, without the ASCII letters at its end. `None` where
/// the description holds no NUL.
pub open spec fn machine_of(compatible: Seq<char>) -> Option<Seq<char>> {
    let end = find_from(compatible, '\0', 0);
    if end < compatible.len() {
        Some(compatible.take(trimmed_len(compatible.take(end))))
    } else {
        None
    }
}

/// Maker and model of a machine, in lower case: what stands before and
/// after its first comma. `None` where it holds no comma.
pub open spec fn maker_and_model(machine: Seq<char>) -> Option<(Seq<char>, Seq<char>)> {
    let comma = find_from(machine, ',', 0);
    if comma < machine.len() {
        Some((lowered(machine.take(comma)), lowered(machine.skip(comma + 1))))
    } else {
        None
    }
}

/// The name of the sound device of a machine: `hw:`, the maker with a
/// capital first letter, and the model in capitals. `None` where the maker
/// is empty.
pub open spec fn device_of(maker: Seq<char>, model: Seq<char>) -> Option<Seq<char>> {
    if maker.len() == 0 {
        None
    } else {
        Some("hw:"@ + maker.take(1).map_values(|c: char| upper(c)) + maker.skip(1) + uppered(model))
    }
}

/// Where the configuration of a machine is kept, below the directory of
/// all configurations.
pub open spec fn config_file_of(maker: Seq<char>, model: Seq<char>) -> Seq<char> {
    maker + "/"@ + model + ".conf"@
}

/// Puts each ASCII capital into lower case.
fn ascii_lowercase(s: &str) -> (r: String)
    ensures
        r@ == lowered(s@),
{
    let n: usize = s.unicode_len();
    let mut out = String::new();
    let mut i: usize = 0;
    while i < n
        invariant
            i <= n,
            n == s@.len(),
            out@ == lowered(s@.take(i as int)),
        decreases n - i,
    {
        let c: char = s.get_char(i);
        let l: char = if c >= 'A' && c <= 'Z' {
            ((c as u8) + 32) as char
        } else {
            c
        };
        push_char(&mut out, l);
        proof {
            assert(out@ =~= lowered(s@.take(i + 1)));
        }
        i = i + 1;
    }
    proof {
        assert(s@.take(n as int) =~= s@);
    }
    out
}

/// Puts each ASCII small letter into capitals.
fn ascii_uppercase(s: &str) -> (r: String)
    ensures
        r@ == uppered(s@),
{
    let n: usize = s.unicode_len();
    let mut out = String::new();
    let mut i: usize = 0;
    while i < n
        invariant
            i <= n,
            n == s@.len(),
            out@ == uppered(s@.take(i as int)),
        decreases n - i,
    {
        let c: char = s.get_char(i);
        let u: char = if c >= 'a' && c <= 'z' {
            ((c as u8) - 32) as char
        } else {
            c
        };
        push_char(&mut out, u);
        proof {
            assert(out@ =~= uppered(s@.take(i + 1)));
        }
        i = i + 1;
    }
    proof {
        assert(s@.take(n as int) =~= s@);
    }
    out
}

/// The first `c` at or after `i` is not before `i` and not past the end,
/// and no `c` stands between `i` and it.
proof fn lemma_find_from(s: Seq<char>, c: char, i: int)
    requires
        0 <= i <= s.len(),
    ensures
        i <= find_from(s, c, i) <= s.len(),
        find_from(s, c, i) < s.len() ==> s[find_from(s, c, i)] == c,
        forall|j: int| i <= j < find_from(s, c, i) ==> s[j] != c,
    decreases s.len() - i,
{
    if i < s.len() && s[i] != c {
        lemma_find_from(s, c, i + 1);
    }
}

/// Finds the first `c` in `s`.
fn find(s: &str, c: char) -> (r: usize)
    ensures
        r == find_from(s@, c, 0),
        r <= s@.len(),
{
    let n: usize = s.unicode_len();
    let mut i: usize = 0;
    while i < n
        invariant
            i <= n,
            n == s@.len(),
            find_from(s@, c, 0) == find_from(s@, c, i as int),
        decreases n - i,
    {
        if s.get_char(i) == c {
            return i;
        }
        i = i + 1;
    }
    i
}

/// Tells which machine a platform description names.
pub fn machine_name(compatible: &str) -> (r: Option<String>)
    ensures
        match r {
            Some(machine) => machine_of(compatible@) == Some(machine@),
            None => machine_of(compatible@) is None,
        },
{
    let n: usize = compatible.unicode_len();
    let end: usize = find(compatible, '\0');
    if end >= n {
        return None;
    }
    let ghost token = compatible@.take(end as int);
    let mut keep: usize = end;
    let mut done: bool = false;
    proof {
        assert(token.take(end as int) =~= token);
    }
    while keep > 0 && !done
        invariant
            keep <= end < n,
            n == compatible@.len(),
            token == compatible@.take(end as int),
            trimmed_len(token) == trimmed_len(token.take(keep as int)),
            done ==> keep > 0 && !is_letter(token[keep - 1]),
        decreases keep + (if done { 0int } else { 1 }),
    {
        let c: char = compatible.get_char(keep - 1);
        proof {
            assert(token.take(keep as int).last() == c);
            assert(token.take(keep as int).drop_last() =~= token.take(keep - 1));
        }
        if (c >= 'a' && c <= 'z') || (c >= 'A' && c <= 'Z') {
            keep = keep - 1;
        } else {
            done = true;
        }
    }
    proof {
        if done {
            assert(token.take(keep as int).last() == token[keep - 1]);
        }
        assert(trimmed_len(token) == keep);
        assert(token.take(keep as int) =~= compatible@.take(keep as int));
        assert(compatible@.subrange(0, keep as int) =~= compatible@.take(keep as int));
    }
    Some(compatible.substring_char(0, keep).to_owned())
}

/// Splits a machine into maker and model, each in lower case.
pub fn split_machine(machine: &str) -> (r: Option<(String, String)>)
    ensures
        match r {
            Some((maker, model)) => maker_and_model(machine@) == Some((maker@, model@)),
            None => maker_and_model(machine@) is None,
        },
{
    let n: usize = machine.unicode_len();
    let comma: usize = find(machine, ',');
    if comma >= n {
        return None;
    }
    proof {
        assert(machine@.subrange(0, comma as int) =~= machine@.take(comma as int));
        assert(machine@.subrange(comma + 1, n as int) =~= machine@.skip(comma + 1));
    }
    let maker = ascii_lowercase(machine.substring_char(0, comma));
    let model = ascii_lowercase(machine.substring_char(comma + 1, n));
    Some((maker, model))
}

/// Names the sound device of a machine.
pub fn device_name(maker: &str, model: &str) -> (r: Option<String>)
    ensures
        match r {
            Some(device) => device_of(maker@, model@) == Some(device@),
            None => device_of(maker@, model@) is None,
        },
{
    let n: usize = maker.unicode_len();
    if n == 0 {
        return None;
    }
    proof {
        assert(maker@.subrange(0, 1) =~= maker@.take(1));
        assert(maker@.subrange(1, n as int) =~= maker@.skip(1));
        assert(uppered(maker@.take(1)) =~= maker@.take(1).map_values(|c: char| upper(c)));
    }
    let mut device = String::from_str("hw:");
    let initial = ascii_uppercase(maker.substring_char(0, 1));
    device.append(initial.as_str());
    device.append(maker.substring_char(1, n));
    let rest = ascii_uppercase(model);
    device.append(rest.as_str());
    Some(device)
}

/// Names the file that holds the configuration of a machine, below the
/// directory of all configurations.
pub fn config_file(maker: &str, model: &str) -> (r: String)
    ensures
        r@ == config_file_of(maker@, model@),
{
    let mut path = String::from_str(maker);
    path.append("/");
    path.append(model);
    path.append(".conf");
    path
}

} // verus!
