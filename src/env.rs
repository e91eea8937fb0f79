use vstd::prelude::*;

use crate::text::{chars_of, same_text};
use vstd::string::StrSliceExecFns;
use vstd::string::StringExecFns;

verus! {

/// Errors while substituting variables into a string.
pub enum Error {
    /// The named variable is not set.
    EnvVarNotFound(String),
    /// A character that may not stand in a name, inside `${...}`, at this
    /// character position.
    InvalidBraceChar(usize, char),
    /// A `${` at this character position has no closing `}`.
    NonTerminatedBrace(usize),
    /// References were still left after this many scans: the values refer
    /// to themselves, directly or through others.
    TooManySubstitutions(usize),
}

/// A character that may appear in a variable name: `[A-Za-z0-9_]`.
pub open spec fn is_var_char(c: char) -> bool {
    ('a' <= c && c <= 'z') || ('A' <= c && c <= 'Z') || ('0' <= c && c <= '9') || c == '_'
}

/// Where the scanner stands while looking for the next variable reference.
pub enum ScanState {
    Idle,
    Dollar(usize),
    InBrace(usize),
    InName(usize),
}

/// What one scan of a string finds: the first variable reference, or none, or
/// a malformed `${...}`.
pub enum VarScan {
    NoVar,
    /// The text `start..stop` is a reference to the name `name_start..name_end`.
    Found { start: usize, stop: usize, name_start: usize, name_end: usize },
    InvalidBraceChar(usize, char),
    NonTerminatedBrace(usize),
}

/// The scan as a state machine over the characters from position `i` on.
pub open spec fn scan_from(s: Seq<char>, i: int, st: ScanState) -> VarScan
    decreases s.len() - i,
{
    if i >= s.len() {
        match st {
            ScanState::InName(b) => VarScan::Found {
                start: b,
                stop: s.len() as usize,
                name_start: (b + 1) as usize,
                name_end: s.len() as usize,
            },
            ScanState::InBrace(b) => VarScan::NonTerminatedBrace(b),
            _ => VarScan::NoVar,
        }
    } else {
        let c = s[i];
        match st {
            ScanState::Idle => if c == '$' {
                scan_from(s, i + 1, ScanState::Dollar(i as usize))
            } else {
                scan_from(s, i + 1, ScanState::Idle)
            },
            ScanState::Dollar(b) => if c == '{' {
                scan_from(s, i + 1, ScanState::InBrace(b))
            } else if is_var_char(c) {
                scan_from(s, i + 1, ScanState::InName(b))
            } else {
                scan_from(s, i + 1, ScanState::Idle)
            },
            ScanState::InBrace(b) => if c == '}' {
                VarScan::Found {
                    start: b,
                    stop: (i + 1) as usize,
                    name_start: (b + 2) as usize,
                    name_end: i as usize,
                }
            } else if !is_var_char(c) {
                VarScan::InvalidBraceChar(i as usize, c)
            } else {
                scan_from(s, i + 1, ScanState::InBrace(b))
            },
            ScanState::InName(b) => if !is_var_char(c) {
                VarScan::Found {
                    start: b,
                    stop: i as usize,
                    name_start: (b + 1) as usize,
                    name_end: i as usize,
                }
            } else {
                scan_from(s, i + 1, ScanState::InName(b))
            },
        }
    }
}

/// The first variable reference in `s`, if any.
pub open spec fn scan(s: Seq<char>) -> VarScan {
    scan_from(s, 0, ScanState::Idle)
}

pub open spec fn state_ok(st: ScanState, i: int) -> bool {
    match st {
        ScanState::Idle => true,
        ScanState::Dollar(b) => b + 1 == i,
        ScanState::InBrace(b) => b + 2 <= i,
        ScanState::InName(b) => b + 2 <= i,
    }
}

/// A found reference lies inside the string, its name inside it.
pub open spec fn found_ok(r: VarScan, len: int) -> bool {
    match r {
        VarScan::Found { start, stop, name_start, name_end } => start < name_start
            <= name_end < stop <= len || (start < name_start <= name_end == stop <= len),
        _ => true,
    }
}

proof fn lemma_scan_bounds(s: Seq<char>, i: int, st: ScanState)
    requires
        0 <= i <= s.len(),
        s.len() <= usize::MAX,
        state_ok(st, i),
    ensures
        found_ok(scan_from(s, i, st), s.len() as int),
    decreases s.len() - i,
{
    if i < s.len() {
        let c = s[i];
        match st {
            ScanState::Idle => if c == '$' {
                lemma_scan_bounds(s, i + 1, ScanState::Dollar(i as usize));
            } else {
                lemma_scan_bounds(s, i + 1, ScanState::Idle);
            },
            ScanState::Dollar(b) => if c == '{' {
                lemma_scan_bounds(s, i + 1, ScanState::InBrace(b));
            } else if is_var_char(c) {
                lemma_scan_bounds(s, i + 1, ScanState::InName(b));
            } else {
                lemma_scan_bounds(s, i + 1, ScanState::Idle);
            },
            ScanState::InBrace(b) => if c != '}' && is_var_char(c) {
                lemma_scan_bounds(s, i + 1, ScanState::InBrace(b));
            },
            ScanState::InName(b) => if is_var_char(c) {
                lemma_scan_bounds(s, i + 1, ScanState::InName(b));
            },
        }
    }
}

fn var_char(c: char) -> (r: bool)
    ensures
        r == is_var_char(c),
{
    ('a' <= c && c <= 'z') || ('A' <= c && c <= 'Z') || ('0' <= c && c <= '9') || c == '_'
}

/// Finds the first variable reference in `s`: `$name` (the longest run of
/// name characters) or `${name}`.
pub fn scan_vars(s: &Vec<char>) -> (r: VarScan)
    ensures
        r == scan(s@),
        found_ok(r, s@.len() as int),
{
    let n = s.len();
    proof {
        lemma_scan_bounds(s@, 0, ScanState::Idle);
    }
    let mut i: usize = 0;
    let mut st = ScanState::Idle;
    while i < n
        invariant
            n == s@.len(),
            i <= n,
            state_ok(st, i as int),
            scan_from(s@, i as int, st) == scan(s@),
        decreases n - i,
    {
        let c = s[i];
        match st {
            ScanState::Idle => {
                if c == '$' {
                    st = ScanState::Dollar(i);
                }
            },
            ScanState::Dollar(b) => {
                if c == '{' {
                    st = ScanState::InBrace(b);
                } else if var_char(c) {
                    st = ScanState::InName(b);
                } else {
                    st = ScanState::Idle;
                }
            },
            ScanState::InBrace(b) => {
                if c == '}' {
                    return VarScan::Found { start: b, stop: i + 1, name_start: b + 2, name_end: i };
                } else if !var_char(c) {
                    return VarScan::InvalidBraceChar(i, c);
                }
            },
            ScanState::InName(b) => {
                if !var_char(c) {
                    return VarScan::Found { start: b, stop: i, name_start: b + 1, name_end: i };
                }
            },
        }
        i = i + 1;
    }
    match st {
        ScanState::InName(b) => VarScan::Found { start: b, stop: n, name_start: b + 1, name_end: n },
        ScanState::InBrace(b) => VarScan::NonTerminatedBrace(b),
        _ => VarScan::NoVar,
    }
}

/// The value of the first entry of `vars` named `name`.
pub open spec fn lookup(vars: Seq<(String, String)>, name: Seq<char>) -> Option<Seq<char>>
    decreases vars.len(),
{
    if vars.len() == 0 {
        None
    } else if vars[0].0@ == name {
        Some(vars[0].1@)
    } else {
        lookup(vars.drop_first(), name)
    }
}

/// The end of an expansion: the finished text, or why it stopped.
pub enum Expansion {
    Done(Seq<char>),
    Missing(Seq<char>),
    BadChar(usize, char),
    Unterminated(usize),
}

/// `s` with the reference `start..stop` replaced by `value`.
pub open spec fn splice(s: Seq<char>, start: int, stop: int, value: Seq<char>) -> Seq<char> {
    s.subrange(0, start) + value + s.subrange(stop, s.len() as int)
}

/// Substitutes the first reference and scans the result again, at most `fuel`
/// times; `None` where that is not enough to reach a string without
/// references.
pub open spec fn expand(s: Seq<char>, vars: Seq<(String, String)>, fuel: nat) -> Option<Expansion>
    decreases fuel,
{
    if fuel == 0 {
        None
    } else {
        match scan(s) {
            VarScan::NoVar => Some(Expansion::Done(s)),
            VarScan::InvalidBraceChar(i, c) => Some(Expansion::BadChar(i, c)),
            VarScan::NonTerminatedBrace(i) => Some(Expansion::Unterminated(i)),
            VarScan::Found { start, stop, name_start, name_end } => {
                let name = s.subrange(name_start as int, name_end as int);
                match lookup(vars, name) {
                    None => Some(Expansion::Missing(name)),
                    Some(v) => expand(splice(s, start as int, stop as int, v), vars, (fuel - 1) as nat),
                }
            },
        }
    }
}

/// Substitution of `s` comes to an end (it does not where a value refers to
/// itself, directly or through others).
pub open spec fn expands(s: Seq<char>, vars: Seq<(String, String)>) -> bool {
    exists|n: nat| #[trigger] expand(s, vars, n) is Some
}

pub open spec fn expansion_fuel(s: Seq<char>, vars: Seq<(String, String)>) -> nat {
    choose|n: nat| #[trigger] expand(s, vars, n) is Some
}

/// Where substitution of `s` ends.
pub open spec fn expansion(s: Seq<char>, vars: Seq<(String, String)>) -> Expansion {
    expand(s, vars, expansion_fuel(s, vars))->0
}

/// `r`, `before` and `after` are what a substitution that ends in `x`
/// returns and leaves.
pub open spec fn reports(x: Expansion, r: Result<(), Error>, before: Seq<char>, after: Seq<char>) -> bool {
    match x {
        Expansion::Done(t) => r is Ok && after == t,
        Expansion::Missing(name) => (r matches Err(Error::EnvVarNotFound(n)) && n@ == name) && after
            == before,
        Expansion::BadChar(i, c) => r == Err::<(), Error>(Error::InvalidBraceChar(i, c)) && after
            == before,
        Expansion::Unterminated(i) => r == Err::<(), Error>(Error::NonTerminatedBrace(i)) && after
            == before,
    }
}

/// The value of the first entry of `vars` named `name`.
pub fn lookup_var<'a>(vars: &'a Vec<(String, String)>, name: &str) -> (r: Option<&'a str>)
    ensures
        r matches Some(v) ==> lookup(vars@, name@) == Some(v@),
        r is None ==> lookup(vars@, name@) is None,
{
    let n = vars.len();
    let mut i: usize = 0;
    proof {
        assert(vars@.subrange(0, n as int) =~= vars@);
    }
    while i < n
        invariant
            n == vars@.len(),
            i <= n,
            lookup(vars@, name@) == lookup(vars@.subrange(i as int, n as int), name@),
        decreases n - i,
    {
        proof {
            assert(vars@.subrange(i as int, n as int).drop_first() =~= vars@.subrange(
                i + 1,
                n as int,
            ));
        }
        if same_text(vars[i].0.as_str(), name) {
            return Some(vars[i].1.as_str());
        }
        i = i + 1;
    }
    None
}

/// Replaces each `$NAME` and `${NAME}` in `s` by the value of `NAME` in
/// `vars`, then scans the result again, until no reference is left. On an
/// error `s` is left as it was.
pub fn replace_vars(s: &mut String, vars: &Vec<(String, String)>) -> (r: Result<(), Error>)
    requires
        expands(old(s)@, vars@),
    ensures
        reports(expansion(old(s)@, vars@), r, old(s)@, final(s)@),
{
    let ghost s0 = s@;
    let ghost fuel0 = expansion_fuel(s0, vars@);
    let ghost mut k: nat = fuel0;
    let mut cur: String = s.clone();
    loop
        invariant
            s@ == s0,
            old(s)@ == s0,
            fuel0 == expansion_fuel(s0, vars@),
            expand(s0, vars@, fuel0) is Some,
            expand(cur@, vars@, k) == expand(s0, vars@, fuel0),
        decreases k,
    {
        let chars = chars_of(cur.as_str());
        let found = scan_vars(&chars);
        match found {
            VarScan::NoVar => {
                *s = cur;
                return Ok(());
            },
            VarScan::InvalidBraceChar(i, c) => {
                return Err(Error::InvalidBraceChar(i, c));
            },
            VarScan::NonTerminatedBrace(i) => {
                return Err(Error::NonTerminatedBrace(i));
            },
            VarScan::Found { start, stop, name_start, name_end } => {
                let text = cur.as_str();
                let name = text.substring_char(name_start, name_end);
                match lookup_var(vars, name) {
                    None => {
                        return Err(Error::EnvVarNotFound(name.to_owned()));
                    },
                    Some(v) => {
                        let mut next = text.substring_char(0, start).to_owned();
                        next.append(v);
                        next.append(text.substring_char(stop, chars.len()));
                        proof {
                            assert(next@ =~= splice(cur@, start as int, stop as int, v@));
                            k = (k - 1) as nat;
                        }
                        cur = next;
                    },
                }
            },
        }
    }
}

/// Substitutes as `replace_vars` does, scanning at most `limit` times; where
/// references are still left then, it stops with an error and leaves `s` as
/// it was.
pub fn replace_vars_limited(s: &mut String, vars: &Vec<(String, String)>, limit: usize) -> (r: Result<
    (),
    Error,
>)
    ensures
        match expand(old(s)@, vars@, limit as nat) {
            Some(x) => reports(x, r, old(s)@, final(s)@),
            None => (r matches Err(Error::TooManySubstitutions(l)) && l == limit) && final(s)@ == old(s)@,
        },
{
    let ghost s0 = s@;
    let mut k: usize = limit;
    let mut cur: String = s.clone();
    loop
        invariant
            s@ == s0,
            old(s)@ == s0,
            expand(cur@, vars@, k as nat) == expand(s0, vars@, limit as nat),
        decreases k,
    {
        if k == 0 {
            return Err(Error::TooManySubstitutions(limit));
        }
        let chars = chars_of(cur.as_str());
        let found = scan_vars(&chars);
        match found {
            VarScan::NoVar => {
                *s = cur;
                return Ok(());
            },
            VarScan::InvalidBraceChar(i, c) => {
                return Err(Error::InvalidBraceChar(i, c));
            },
            VarScan::NonTerminatedBrace(i) => {
                return Err(Error::NonTerminatedBrace(i));
            },
            VarScan::Found { start, stop, name_start, name_end } => {
                let text = cur.as_str();
                let name = text.substring_char(name_start, name_end);
                match lookup_var(vars, name) {
                    None => {
                        return Err(Error::EnvVarNotFound(name.to_owned()));
                    },
                    Some(v) => {
                        let mut next = text.substring_char(0, start).to_owned();
                        next.append(v);
                        next.append(text.substring_char(stop, chars.len()));
                        proof {
                            assert(next@ =~= splice(cur@, start as int, stop as int, v@));
                        }
                        cur = next;
                        k = k - 1;
                    },
                }
            },
        }
    }
}

} // verus!
