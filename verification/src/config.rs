//! Program configuration: turns the command list and the optional
//! comma-separated name list into per-process configurations.
//!
//! A name may carry trailing option suffixes: `!` disables the
//! focus-exit key for that process and `:w` enables line wrapping. The
//! suffixes are stripped repeatedly, in any order, to read the flags —
//! but the stored name keeps its original form, so names stay unique.

use crate::digits::{dec_chars, dec_string};
use crate::supervisor::ProcessConfig;
use vstd::prelude::*;

verus! {

/// ASCII whitespace trimmed from around each name.
pub open spec fn is_space(c: char) -> bool {
    c == ' ' || c == '\t' || c == '\n' || c == '\r'
}

/// `s[a..b]` with whitespace trimmed from both ends.
pub open spec fn trim_from(s: Seq<char>, a: int, b: int) -> Seq<char>
    decreases b - a,
{
    if a < b && is_space(s[a]) {
        trim_from(s, a + 1, b)
    } else if a < b && is_space(s[b - 1]) {
        trim_from(s, a, b - 1)
    } else {
        s.subrange(a, b)
    }
}

/// `s` with whitespace trimmed from both ends.
pub open spec fn trimmed(s: Seq<char>) -> Seq<char> {
    trim_from(s, 0, s.len() as int)
}

/// The comma-separated segments of `s`, scanning from position `i`
/// (everything before `i` is known to be comma-free).
pub open spec fn split_from(s: Seq<char>, i: int) -> Seq<Seq<char>>
    decreases s.len() - i, s.len() + 1 - i,
{
    if i < 0 || i >= s.len() {
        seq![s]
    } else if s[i] == ',' {
        seq![s.take(i)] + split_from(s.skip(i + 1), 0)
    } else {
        split_from(s, i + 1)
    }
}

/// The comma-separated segments of `s`.
pub open spec fn split_commas(s: Seq<char>) -> Seq<Seq<char>> {
    split_from(s, 0)
}

/// The option flags carried by trailing suffixes of `s[..e]`:
/// repeatedly strips a trailing `!` (disables the focus-exit key) or a
/// trailing `:w` (enables wrapping) until neither remains.
pub open spec fn strip_flags(s: Seq<char>, e: int, no_st: bool, wrap: bool) -> (bool, bool)
    decreases e,
{
    if e > 0 && s[e - 1] == '!' {
        strip_flags(s, e - 1, true, wrap)
    } else if e >= 2 && s[e - 1] == 'w' && s[e - 2] == ':' {
        strip_flags(s, e - 2, no_st, true)
    } else {
        (no_st, wrap)
    }
}

/// The option flags of a raw name: `(no_shift_tab, wrap_enabled)`.
pub open spec fn name_flags(s: Seq<char>) -> (bool, bool) {
    strip_flags(s, s.len() as int, false, false)
}

/// The name used for the process at position `i`: the `i`-th trimmed
/// entry of the name list, or `proc{i+1}` when the list is shorter.
pub open spec fn name_at(names: Option<String>, i: int) -> Seq<char> {
    let list = match names {
        Some(ns) => split_commas(ns@).map_values(|x: Seq<char>| trimmed(x)),
        None => Seq::<Seq<char>>::empty(),
    };
    if 0 <= i < list.len() {
        list[i]
    } else {
        seq!['p', 'r', 'o', 'c'] + dec_chars((i + 1) as nat)
    }
}

/// The whole program configuration.
pub struct PanexConfig {
    pub processes: Vec<ProcessConfig>,
    pub no_shift_tab: bool,
    pub timeout: u64,
}

/// Trims ASCII whitespace from both ends of `s`.
fn trim_str(s: &str) -> (r: String)
    ensures
        r@ == trimmed(s@),
{
    let n = s.unicode_len();
    let mut a: usize = 0;
    let mut b: usize = n;
    loop
        invariant
            0 <= a <= b <= n,
            n == s@.len(),
            trim_from(s@, a as int, b as int) == trimmed(s@),
        ensures
            0 <= a <= b <= n,
            trim_from(s@, a as int, b as int) == trimmed(s@),
            !(a < b && is_space(s@[a as int])),
            !(a < b && is_space(s@[b as int - 1])),
        decreases b - a,
    {
        if a < b && is_space_char(s.get_char(a)) {
            a = a + 1;
        } else if a < b && is_space_char(s.get_char(b - 1)) {
            b = b - 1;
        } else {
            break ;
        }
    }
    let r = s.substring_char(a, b).to_owned();
    proof {
        assert(r@ == s@.subrange(a as int, b as int));
    }
    r
}

/// Whether `c` is trimmed whitespace.
fn is_space_char(c: char) -> (r: bool)
    ensures
        r == is_space(c),
{
    c == ' ' || c == '\t' || c == '\n' || c == '\r'
}

/// Splits `s` at commas.
fn split_names(s: &str) -> (r: Vec<String>)
    ensures
        r@.map_values(|x: String| x@) == split_commas(s@),
    decreases s@.len(),
{
    let n = s.unicode_len();
    let mut i: usize = 0;
    loop
        invariant
            0 <= i <= n,
            n == s@.len(),
            split_from(s@, i as int) == split_commas(s@),
        ensures
            0 <= i <= n,
            split_from(s@, i as int) == split_commas(s@),
            i < n ==> s@[i as int] == ',',
        decreases n - i,
    {
        if i >= n {
            break ;
        }
        if s.get_char(i) == ',' {
            break ;
        }
        i = i + 1;
    }
    if i >= n {
        let mut r: Vec<String> = Vec::new();
        r.push(s.to_owned());
        proof {
            assert(r@.map_values(|x: String| x@) =~= split_commas(s@));
        }
        r
    } else {
        let head = s.substring_char(0, i).to_owned();
        let rest = s.substring_char(i + 1, n);
        proof {
            assert(rest@ == s@.skip(i as int + 1));
            assert(head@ == s@.take(i as int));
        }
        let mut tail = split_names(rest);
        tail.insert(0, head);
        proof {
            assert(tail@.map_values(|x: String| x@) =~= seq![s@.take(i as int)] + split_commas(
                s@.skip(i as int + 1),
            ));
        }
        tail
    }
}

/// Reads the option flags off a raw name's trailing suffixes.
fn read_flags(s: &str) -> (r: (bool, bool))
    ensures
        r == name_flags(s@),
{
    let n = s.unicode_len();
    let mut e: usize = n;
    let mut no_st = false;
    let mut wrap = false;
    loop
        invariant
            0 <= e <= n,
            n == s@.len(),
            strip_flags(s@, e as int, no_st, wrap) == name_flags(s@),
        ensures
            0 <= e <= n,
            strip_flags(s@, e as int, no_st, wrap) == name_flags(s@),
            !(e > 0 && s@[e as int - 1] == '!'),
            !(e >= 2 && s@[e as int - 1] == 'w' && s@[e as int - 2] == ':'),
        decreases e,
    {
        if e > 0 && s.get_char(e - 1) == '!' {
            e = e - 1;
            no_st = true;
        } else if e >= 2 && s.get_char(e - 1) == 'w' && s.get_char(e - 2) == ':' {
            e = e - 2;
            wrap = true;
        } else {
            break ;
        }
    }
    (no_st, wrap)
}

impl PanexConfig {
    /// Builds the configuration from the command-line pieces: one
    /// process per command, named from the trimmed name list (or
    /// `proc1`, `proc2`, ... past its end), with the `!` and `:w` name
    /// suffixes read into the per-process flags while the stored name
    /// keeps its raw form.
    pub fn from_args(
        commands: Vec<String>,
        names: Option<String>,
        no_shift_tab: bool,
        timeout: u64,
    ) -> (r: PanexConfig)
        ensures
            r.no_shift_tab == no_shift_tab,
            r.timeout == timeout,
            r.processes@.len() == commands@.len(),
            forall|i: int|
                0 <= i < commands@.len() ==> {
                    let raw = name_at(names, i);
                    &&& (#[trigger] r.processes@[i]).name@ == raw
                    &&& r.processes@[i].command@ == commands@[i]@
                    &&& r.processes@[i].no_shift_tab == name_flags(raw).0
                    &&& r.processes@[i].wrap_enabled == name_flags(raw).1
                },
    {
        let name_list: Vec<String> = match &names {
            Some(ns) => {
                let segments = split_names(ns.as_str());
                let m = segments.len();
                let mut list: Vec<String> = Vec::new();
                let mut j: usize = 0;
                while j < m
                    invariant
                        0 <= j <= m,
                        m == segments@.len(),
                        list@.len() == j,
                        forall|k: int|
                            0 <= k < j ==> (#[trigger] list@[k])@ == trimmed(segments@[k]@),
                    decreases m - j,
                {
                    list.push(trim_str(segments[j].as_str()));
                    j = j + 1;
                }
                list
            },
            None => Vec::new(),
        };
        proof {
            match names {
                Some(ns) => {
                    assert(name_list@.map_values(|x: String| x@) =~= split_commas(
                        ns@,
                    ).map_values(|x: Seq<char>| trimmed(x)));
                },
                None => {
                    assert(name_list@.map_values(|x: String| x@) =~= Seq::<Seq<char>>::empty());
                },
            }
        }
        let n = commands.len();
        let mut processes: Vec<ProcessConfig> = Vec::new();
        let mut i: usize = 0;
        while i < n
            invariant
                0 <= i <= n,
                n == commands@.len(),
                name_list@.map_values(|x: String| x@) == (match names {
                    Some(ns) => split_commas(ns@).map_values(|x: Seq<char>| trimmed(x)),
                    None => Seq::<Seq<char>>::empty(),
                }),
                processes@.len() == i,
                forall|k: int|
                    0 <= k < i ==> {
                        let raw = name_at(names, k);
                        &&& (#[trigger] processes@[k]).name@ == raw
                        &&& processes@[k].command@ == commands@[k]@
                        &&& processes@[k].no_shift_tab == name_flags(raw).0
                        &&& processes@[k].wrap_enabled == name_flags(raw).1
                    },
            decreases n - i,
        {
            let raw_name: String = if i < name_list.len() {
                name_list[i].clone()
            } else {
                let mut s: String = ("proc").to_owned();
                s.append(dec_string(i + 1).as_str());
                proof {
                    reveal_strlit("proc");
                    assert(s@ =~= seq!['p', 'r', 'o', 'c'] + dec_chars((i + 1) as nat));
                }
                s
            };
            proof {
                assert(raw_name@ == name_at(names, i as int));
            }
            let flags = read_flags(raw_name.as_str());
            let command = commands[i].clone();
            processes.push(
                ProcessConfig {
                    name: raw_name,
                    command,
                    no_shift_tab: flags.0,
                    wrap_enabled: flags.1,
                },
            );
            i = i + 1;
        }
        PanexConfig { processes, no_shift_tab, timeout }
    }
}

} // verus!
