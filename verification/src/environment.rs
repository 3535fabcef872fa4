//! Expansion of shell-style references in path strings.
//!
//! The process environment is not read here: callers hand it over as an
//! [`Environment`], a snapshot of the home directory and of the variables.

use crate::text::{push_range, to_chars};
use vstd::prelude::*;

verus! {

/// A snapshot of what expansion may substitute: the home directory, if one
/// is known, and the defined variables. Where a name stands twice, the
/// first entry counts.
#[derive(Debug)]
pub struct Environment {
    pub home: Option<String>,
    pub vars: Vec<(String, String)>,
}

/// The value of the first entry of `vars`, at or after `from`, whose name
/// is `name`.
pub open spec fn lookup_from(vars: Seq<(String, String)>, name: Seq<char>, from: int) -> Option<
    Seq<char>,
>
    decreases vars.len() - from,
{
    if from < 0 || from >= vars.len() {
        None
    } else if vars[from].0@ == name {
        Some(vars[from].1@)
    } else {
        lookup_from(vars, name, from + 1)
    }
}

impl Environment {
    /// The value of the variable `name`, if it is defined.
    pub open spec fn var(&self, name: Seq<char>) -> Option<Seq<char>> {
        lookup_from(self.vars@, name, 0)
    }

    /// An environment that defines nothing.
    pub fn empty() -> (env: Environment)
        ensures
            env.home is None,
            env.vars@.len() == 0,
    {
        Environment { home: None, vars: Vec::new() }
    }

    /// Looks a variable up by name.
    pub fn get(&self, name: &str) -> (r: Option<&String>)
        ensures
            match r {
                Some(v) => self.var(name@) == Some(v@),
                None => self.var(name@) is None,
            },
    {
        let key = to_chars(name);
        let mut i: usize = 0;
        while i < self.vars.len()
            invariant
                i <= self.vars.len(),
                key@ == name@,
                self.var(name@) == lookup_from(self.vars@, name@, i as int),
            decreases self.vars.len() - i,
        {
            let candidate = to_chars(self.vars[i].0.as_str());
            if crate::text::same_chars(&candidate, &key) {
                return Some(&self.vars[i].1);
            }
            i += 1;
        }
        None
    }
}

/// Whether `c` may stand in a bare `$NAME` reference.
pub open spec fn is_name_char(c: char) -> bool {
    ('a' <= c && c <= 'z') || ('A' <= c && c <= 'Z') || ('0' <= c && c <= '9') || c == '_'
}

/// The least index at or after `from` that holds `c`.
pub open spec fn index_of(chars: Seq<char>, c: char, from: int) -> Option<int>
    decreases chars.len() - from,
{
    if from < 0 || from >= chars.len() {
        None
    } else if chars[from] == c {
        Some(from)
    } else {
        index_of(chars, c, from + 1)
    }
}

/// The end of the longest run of name characters that starts at `from`.
pub open spec fn name_end(chars: Seq<char>, from: int) -> int
    decreases chars.len() - from,
{
    if from < 0 || from >= chars.len() || !is_name_char(chars[from]) {
        from
    } else {
        name_end(chars, from + 1)
    }
}

/// A variable reference found in a string: where its name starts and ends
/// and where the text after the reference begins.
pub struct Reference {
    pub name_start: int,
    pub name_end: int,
    pub next: int,
}

/// The reference that starts at index `at`, if one does: `%NAME%`,
/// `${NAME}` or `$NAME`, each with a non-empty name.
pub open spec fn reference_at(chars: Seq<char>, at: int) -> Option<Reference> {
    if at < 0 || at >= chars.len() {
        None
    } else if chars[at] == '%' {
        match index_of(chars, '%', at + 1) {
            Some(close) => if close > at + 1 {
                Some(Reference { name_start: at + 1, name_end: close, next: close + 1 })
            } else {
                None
            },
            None => None,
        }
    } else if chars[at] == '$' {
        if at + 1 < chars.len() && chars[at + 1] == '{' {
            match index_of(chars, '}', at + 2) {
                Some(close) => if close > at + 2 {
                    Some(Reference { name_start: at + 2, name_end: close, next: close + 1 })
                } else {
                    None
                },
                None => None,
            }
        } else {
            let end = name_end(chars, at + 1);
            if end > at + 1 {
                Some(Reference { name_start: at + 1, name_end: end, next: end })
            } else {
                None
            }
        }
    } else {
        None
    }
}

/// `index_of` answers with an index inside the string.
pub proof fn lemma_index_of_bounds(chars: Seq<char>, c: char, from: int)
    requires
        0 <= from,
    ensures
        index_of(chars, c, from) matches Some(i) ==> from <= i < chars.len() && chars[i] == c,
    decreases chars.len() - from,
{
    if from < chars.len() && chars[from] != c {
        lemma_index_of_bounds(chars, c, from + 1);
    }
}

/// `name_end` stays inside the string.
pub proof fn lemma_name_end_bounds(chars: Seq<char>, from: int)
    requires
        0 <= from <= chars.len(),
    ensures
        from <= name_end(chars, from) <= chars.len(),
    decreases chars.len() - from,
{
    if from < chars.len() && is_name_char(chars[from]) {
        lemma_name_end_bounds(chars, from + 1);
    }
}

/// A reference lies inside the string and is not empty.
pub proof fn lemma_reference_bounds(chars: Seq<char>, at: int)
    ensures
        reference_at(chars, at) matches Some(r) ==> {
            &&& 0 <= at < r.name_start < r.name_end <= r.next <= chars.len()
        },
{
    if 0 <= at < chars.len() {
        lemma_index_of_bounds(chars, '%', at + 1);
        lemma_index_of_bounds(chars, '}', at + 2);
        lemma_name_end_bounds(chars, at + 1);
    }
}

/// The expansion of `chars` from index `from` on: each reference to a
/// defined variable gives the variable's value, every other character
/// stands as it is.
pub open spec fn expand_from(chars: Seq<char>, from: int, env: Environment) -> Seq<char>
    decreases chars.len() - from,
    via expand_from_decreases
{
    if from < 0 || from >= chars.len() {
        Seq::empty()
    } else {
        match reference_at(chars, from) {
            Some(r) => {
                let name = chars.subrange(r.name_start, r.name_end);
                let text = match env.var(name) {
                    Some(value) => value,
                    None => chars.subrange(from, r.next),
                };
                text + expand_from(chars, r.next, env)
            },
            None => seq![chars[from]] + expand_from(chars, from + 1, env),
        }
    }
}

#[via_fn]
proof fn expand_from_decreases(chars: Seq<char>, from: int, env: Environment) {
    lemma_reference_bounds(chars, from);
}

/// Whether the string begins with a `~` that stands for the home
/// directory: alone, or before a path separator.
pub open spec fn has_home_prefix(chars: Seq<char>) -> bool {
    &&& chars.len() > 0
    &&& chars[0] == '~'
    &&& (chars.len() == 1 || chars[1] == '\\' || chars[1] == '/')
}

/// The expansion of a whole string: a leading `~` gives the home
/// directory, where one is known, and the rest is expanded reference by
/// reference.
pub open spec fn expand_spec(input: Seq<char>, env: Environment) -> Seq<char> {
    if has_home_prefix(input) && env.home is Some {
        env.home->0@ + expand_from(input, 1, env)
    } else {
        expand_from(input, 0, env)
    }
}

/// Where nothing is defined, every reference stays as it is: expanding
/// from an index on gives back the text from that index on.
pub proof fn lemma_expand_from_undefined(chars: Seq<char>, from: int, env: Environment)
    requires
        env.vars@.len() == 0,
        0 <= from <= chars.len(),
    ensures
        expand_from(chars, from, env) == chars.subrange(from, chars.len() as int),
    decreases chars.len() - from,
{
    if from < chars.len() {
        lemma_reference_bounds(chars, from);
        match reference_at(chars, from) {
            Some(r) => {
                lemma_expand_from_undefined(chars, r.next, env);
            },
            None => {
                lemma_expand_from_undefined(chars, from + 1, env);
            },
        }
    }
}

/// With no home directory known and no variable defined, expansion
/// leaves every string as it is.
pub proof fn lemma_expand_undefined_is_verbatim(input: Seq<char>, env: Environment)
    requires
        env.home is None,
        env.vars@.len() == 0,
    ensures
        expand_spec(input, env) == input,
{
    lemma_expand_from_undefined(input, 0, env);
}

fn is_name(c: char) -> (b: bool)
    ensures
        b == is_name_char(c),
{
    ('a' <= c && c <= 'z') || ('A' <= c && c <= 'Z') || ('0' <= c && c <= '9') || c == '_'
}

fn find_char(chars: &Vec<char>, c: char, from: usize) -> (r: Option<usize>)
    ensures
        match r {
            Some(i) => index_of(chars@, c, from as int) == Some(i as int) && from <= i < chars.len(),
            None => index_of(chars@, c, from as int) is None,
        },
{
    let mut i: usize = from;
    while i < chars.len()
        invariant
            from <= i,
            index_of(chars@, c, from as int) == index_of(chars@, c, i as int),
        decreases chars.len() - i,
    {
        if chars[i] == c {
            return Some(i);
        }
        i += 1;
    }
    None
}

fn scan_name(chars: &Vec<char>, from: usize) -> (end: usize)
    requires
        from <= chars.len(),
    ensures
        end == name_end(chars@, from as int),
        from <= end <= chars.len(),
{
    let mut end: usize = from;
    while end < chars.len() && is_name(chars[end])
        invariant
            from <= end <= chars.len(),
            name_end(chars@, from as int) == name_end(chars@, end as int),
        decreases chars.len() - end,
    {
        end += 1;
    }
    end
}

/// The reference that starts at `at`, as `(name_start, name_end, next)`.
fn parse_reference(chars: &Vec<char>, at: usize) -> (r: Option<(usize, usize, usize)>)
    requires
        at < chars.len(),
    ensures
        match r {
            Some(t) => reference_at(chars@, at as int) == Some(
                Reference { name_start: t.0 as int, name_end: t.1 as int, next: t.2 as int },
            ) && at < t.0 < t.1 <= t.2 <= chars.len(),
            None => reference_at(chars@, at as int) is None,
        },
{
    let ch = chars[at];
    if ch == '%' {
        match find_char(chars, '%', at + 1) {
            Some(close) => {
                if close > at + 1 {
                    Some((at + 1, close, close + 1))
                } else {
                    None
                }
            },
            None => None,
        }
    } else if ch == '$' {
        if at + 1 < chars.len() && chars[at + 1] == '{' {
            match find_char(chars, '}', at + 2) {
                Some(close) => {
                    if close > at + 2 {
                        Some((at + 2, close, close + 1))
                    } else {
                        None
                    }
                },
                None => None,
            }
        } else {
            let end = scan_name(chars, at + 1);
            if end > at + 1 {
                Some((at + 1, end, end))
            } else {
                None
            }
        }
    } else {
        None
    }
}

/// Expands the references in `input`: a leading `~`, alone or before `/`
/// or `\`, becomes the home directory where `env` knows one; `%NAME%`,
/// `${NAME}` and `$NAME` become the value of `NAME` where `env` defines it
/// and stay as they are where it does not.
pub fn expand_env_vars(input: &str, env: &Environment) -> (out: String)
    ensures
        out@ == expand_spec(input@, *env),
{
    let chars = to_chars(input);
    let mut out = String::new();
    let mut i: usize = 0;
    if chars.len() > 0 && chars[0] == '~' && (chars.len() == 1 || chars[1] == '\\' || chars[1]
        == '/') {
        match &env.home {
            Some(home) => {
                out.append(home.as_str());
                i = 1;
            },
            None => {},
        }
    }
    while i < chars.len()
        invariant
            i <= chars.len(),
            chars@ == input@,
            out@ + expand_from(chars@, i as int, *env) == expand_spec(input@, *env),
        decreases chars.len() - i,
    {
        match parse_reference(&chars, i) {
            Some((name_start, name_end, next)) => {
                let mut name = String::new();
                push_range(&mut name, &chars, name_start, name_end);
                match env.get(name.as_str()) {
                    Some(value) => {
                        out.append(value.as_str());
                    },
                    None => {
                        push_range(&mut out, &chars, i, next);
                    },
                }
                i = next;
            },
            None => {
                out.push(chars[i]);
                i += 1;
            },
        }
    }
    out
}

} // verus!
