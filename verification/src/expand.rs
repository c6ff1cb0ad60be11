//! Expansion of `%NAME%` tokens against a snapshot of the environment.
use crate::text::{appended, chars_of, matches_at, slice_of, string_of};
use vstd::prelude::*;

verus! {

/// Whether `s` holds a token: a percent sign, and a second one after it.
/// The text between the two is the name that the token refers to. It may
/// be empty: `%%` is a token, as it is in expansion, where it stands for
/// the variable with the empty name. A single percent sign is no token.
pub open spec fn has_token(s: Seq<char>) -> bool {
    exists|i: int, j: int| 0 <= i < j < s.len() && s[i] == '%' && s[j] == '%'
}

/// Tells whether `s` holds a token.
pub fn holds_token(s: &Vec<char>) -> (r: bool)
    ensures
        r == has_token(s@),
{
    let mut opened: Option<usize> = None;
    let mut k: usize = 0;
    while k < s.len()
        invariant
            k <= s@.len(),
            match opened {
                Some(i) => i < k && s@[i as int] == '%' && forall|m: int|
                    0 <= m < k && m != i ==> s@[m] != '%',
                None => forall|m: int| 0 <= m < k ==> s@[m] != '%',
            },
        decreases s.len() - k,
    {
        if s[k] == '%' {
            match opened {
                Some(i) => {
                    assert(0 <= i < k < s@.len() && s@[i as int] == '%' && s@[k as int] == '%');
                    return true;
                },
                None => {
                    opened = Some(k);
                },
            }
        }
        k += 1;
    }
    false
}

/// A snapshot of variables as plain (name, value) pairs.
pub open spec fn pairs(v: Seq<(String, String)>) -> Seq<(Seq<char>, Seq<char>)> {
    v.map_values(|p: (String, String)| (p.0@, p.1@))
}

/// The value of the first pair named `name`, from position `from` on.
pub open spec fn lookup_from(vars: Seq<(Seq<char>, Seq<char>)>, name: Seq<char>, from: int) -> Option<
    Seq<char>,
>
    decreases vars.len() - from,
{
    if from < 0 || from >= vars.len() {
        None
    } else if vars[from].0 == name {
        Some(vars[from].1)
    } else {
        lookup_from(vars, name, from + 1)
    }
}

/// The value that the snapshot gives `name`, if it defines it.
pub open spec fn lookup(vars: Seq<(Seq<char>, Seq<char>)>, name: Seq<char>) -> Option<Seq<char>> {
    lookup_from(vars, name, 0)
}

/// How many characters of `s`, from position `from` on, stand before the
/// next percent sign (or before the end, where there is none).
pub open spec fn name_len(s: Seq<char>, from: int) -> nat
    decreases s.len() - from,
{
    if from < 0 || from >= s.len() || s[from] == '%' {
        0
    } else {
        1 + name_len(s, from + 1)
    }
}

/// The expansion of `s` from position `i` on. A percent sign opens a token
/// where another one follows and the text between them names a variable of
/// the snapshot: the token then gives way to the value, which is not read
/// again. Any other character stays as it is.
pub open spec fn expand_from(s: Seq<char>, vars: Seq<(Seq<char>, Seq<char>)>, i: int) -> Seq<char>
    decreases s.len() - i,
{
    if i < 0 || i >= s.len() {
        Seq::<char>::empty()
    } else {
        let j = i + 1 + name_len(s, i + 1);
        let plain = seq![s[i]] + expand_from(s, vars, i + 1);
        if s[i] == '%' && j < s.len() {
            match lookup(vars, s.subrange(i + 1, j)) {
                Some(value) => value + expand_from(s, vars, j + 1),
                None => plain,
            }
        } else {
            plain
        }
    }
}

/// `s` with every token of a defined variable replaced by its value, in a
/// single pass from the left.
pub open spec fn expand_seq(s: Seq<char>, vars: Seq<(Seq<char>, Seq<char>)>) -> Seq<char> {
    expand_from(s, vars, 0)
}

proof fn lemma_expand_plain_from(s: Seq<char>, vars: Seq<(Seq<char>, Seq<char>)>, i: int)
    requires
        !s.contains('%'),
        0 <= i <= s.len(),
    ensures
        expand_from(s, vars, i) == s.skip(i),
    decreases s.len() - i,
{
    if i < s.len() {
        lemma_expand_plain_from(s, vars, i + 1);
        assert(s.contains(s[i]));
        assert(seq![s[i]] + s.skip(i + 1) =~= s.skip(i));
    } else {
        assert(s.skip(i) =~= Seq::<char>::empty());
    }
}

/// Expansion changes nothing in a string without a percent sign, whatever
/// the snapshot holds.
pub proof fn lemma_expand_without_percent(s: Seq<char>, vars: Seq<(Seq<char>, Seq<char>)>)
    requires
        !s.contains('%'),
    ensures
        expand_seq(s, vars) == s,
{
    lemma_expand_plain_from(s, vars, 0);
    assert(s.skip(0) =~= s);
}

proof fn lemma_name_ends_at_percent(s: Seq<char>, from: int)
    requires
        0 <= from,
        from + name_len(s, from) < s.len(),
    ensures
        s[from + name_len(s, from)] == '%',
    decreases s.len() - from,
{
    if s[from] != '%' {
        lemma_name_ends_at_percent(s, from + 1);
    }
}

proof fn lemma_expand_plain_tail(s: Seq<char>, vars: Seq<(Seq<char>, Seq<char>)>, i: int)
    requires
        !has_token(s),
        0 <= i <= s.len(),
    ensures
        expand_from(s, vars, i) == s.skip(i),
    decreases s.len() - i,
{
    if i < s.len() {
        lemma_expand_plain_tail(s, vars, i + 1);
        let j = i + 1 + name_len(s, i + 1);
        if s[i] == '%' && j < s.len() {
            lemma_name_ends_at_percent(s, i + 1);
            assert(0 <= i < j < s.len() && s[i] == '%' && s[j] == '%');
        }
        assert(seq![s[i]] + s.skip(i + 1) =~= s.skip(i));
    } else {
        assert(s.skip(i) =~= Seq::<char>::empty());
    }
}

/// Expansion changes nothing in a string without a token, whatever the
/// snapshot holds: a single percent sign stays as it is.
pub proof fn lemma_expand_without_token(s: Seq<char>, vars: Seq<(Seq<char>, Seq<char>)>)
    requires
        !has_token(s),
    ensures
        expand_seq(s, vars) == s,
{
    lemma_expand_plain_tail(s, vars, 0);
    assert(s.skip(0) =~= s);
}

/// The value of the first variable of the snapshot named `name`.
pub fn find_value(vars: &Vec<(String, String)>, name: &Vec<char>) -> (r: Option<Vec<char>>)
    ensures
        match r {
            Some(v) => lookup(pairs(vars@), name@) == Some(v@),
            None => lookup(pairs(vars@), name@).is_none(),
        },
{
    let mut k: usize = 0;
    while k < vars.len()
        invariant
            k <= vars@.len(),
            lookup(pairs(vars@), name@) == lookup_from(pairs(vars@), name@, k as int),
        decreases vars.len() - k,
    {
        let key: Vec<char> = chars_of(vars[k].0.as_str());
        assert(pairs(vars@)[k as int].0 == key@);
        if key.len() == name.len() && matches_at(&key, name, 0) {
            assert(key@.subrange(0, key@.len() as int) =~= key@);
            let value: Vec<char> = chars_of(vars[k].1.as_str());
            return Some(value);
        }
        assert(key@ == name@ ==> key@.subrange(0, name@.len() as int) =~= name@);
        k += 1;
    }
    None
}

/// Replaces each `%NAME%` in `path` by the value that `vars` gives `NAME`,
/// and leaves the tokens of names that `vars` does not define as they are.
pub fn expand_env_vars(path: &str, vars: &Vec<(String, String)>) -> (r: String)
    ensures
        r@ == expand_seq(path@, pairs(vars@)),
        !path@.contains('%') ==> r@ == path@,
        !has_token(path@) ==> r@ == path@,
{
    let s: Vec<char> = chars_of(path);
    let n: usize = s.len();
    let ghost snapshot = pairs(vars@);
    let mut out: Vec<char> = Vec::new();
    let mut i: usize = 0;
    while i < n
        invariant
            n == s@.len(),
            i <= n,
            snapshot == pairs(vars@),
            out@ + expand_from(s@, snapshot, i as int) == expand_seq(s@, snapshot),
        decreases n - i,
    {
        let c: char = s[i];
        let ghost rest = expand_from(s@, snapshot, i as int);
        let mut value: Option<Vec<char>> = None;
        let mut j: usize = i + 1;
        if c == '%' {
            while j < n && s[j] != '%'
                invariant
                    n == s@.len(),
                    i + 1 <= j <= n,
                    i + 1 + name_len(s@, i + 1) == j + name_len(s@, j as int),
                decreases n - j,
            {
                j += 1;
            }
            if j < n {
                let name: Vec<char> = slice_of(&s, i + 1, j);
                value = find_value(vars, &name);
            }
        }
        match value {
            Some(v) => {
                assert(rest == v@ + expand_from(s@, snapshot, j + 1));
                assert((out@ + v@) + expand_from(s@, snapshot, j + 1) =~= out@ + rest);
                out = appended(&out, &v);
                i = j + 1;
            },
            None => {
                assert(rest == seq![c] + expand_from(s@, snapshot, i + 1));
                assert(out@.push(c) + expand_from(s@, snapshot, i + 1) =~= out@ + rest);
                out.push(c);
                i += 1;
            },
        }
    }
    assert(out@ + expand_from(s@, snapshot, n as int) =~= out@);
    proof {
        if !path@.contains('%') {
            lemma_expand_without_percent(path@, snapshot);
        }
        if !has_token(path@) {
            lemma_expand_without_token(path@, snapshot);
        }
    }
    string_of(&out)
}

} // verus!
