//! Key discovery without a dotenv dependency. The reading of files and of the
//! process environment happens at the edge; what is decided here is which
//! line of a `.env` text names a key, and which source wins.
use crate::text::{
    chars_of, eq_ignore_ascii_case, eq_ignore_case_chars, find_char, lemma_find_char, split_once,
    split_once_chars, string_of, strip_prefix, strip_prefix_chars, sub_chars, trim, trim_chars,
    trim_quote_chars, trim_quotes,
};
use vstd::prelude::*;

verus! {

/// The `export ` prefix a `.env` line may carry.
pub open spec fn export_prefix() -> Seq<char> {
    seq!['e', 'x', 'p', 'o', 'r', 't', ' ']
}

/// Whether `key` is one of `names`, ignoring ASCII case.
pub open spec fn name_listed(names: Seq<Seq<char>>, key: Seq<char>) -> bool {
    exists|i: int| 0 <= i < names.len() && eq_ignore_ascii_case(#[trigger] names[i], key)
}

/// The value one `.env` line gives for `names`: blank lines and `#` comments
/// give nothing, an `export ` prefix is dropped, the line must hold `=`, the
/// key must be listed, and the value is trimmed, unquoted and trimmed again;
/// an empty value gives nothing.
pub open spec fn dotenv_line_value(line: Seq<char>, names: Seq<Seq<char>>) -> Option<Seq<char>> {
    let t = trim(line);
    if t.len() == 0 || t[0] == '#' {
        None
    } else {
        let l = match strip_prefix(t, export_prefix()) {
            Some(rest) => rest,
            None => t,
        };
        match split_once(l, '=') {
            None => None,
            Some((key, value)) => {
                if name_listed(names, trim(key)) {
                    let v = trim(trim_quotes(trim(value)));
                    if v.len() > 0 {
                        Some(v)
                    } else {
                        None
                    }
                } else {
                    None
                }
            },
        }
    }
}

/// The first value any line of `text` gives, lines being separated by `\n`.
pub open spec fn dotenv_scan(text: Seq<char>, names: Seq<Seq<char>>) -> Option<Seq<char>>
    decreases text.len(),
{
    let i = find_char(text, '\n');
    if 0 <= i < text.len() {
        match dotenv_line_value(text.take(i), names) {
            Some(v) => Some(v),
            None => dotenv_scan(text.skip(i + 1), names),
        }
    } else {
        dotenv_line_value(text, names)
    }
}

/// The characters of each name.
pub open spec fn names_view(names: Seq<Vec<char>>) -> Seq<Seq<char>> {
    names.map_values(|n: Vec<char>| n@)
}

/// The characters of each name.
pub open spec fn strs_view(names: Seq<&str>) -> Seq<Seq<char>> {
    names.map_values(|n: &str| n@)
}

fn listed(names: &Vec<Vec<char>>, key: &Vec<char>) -> (b: bool)
    ensures
        b == name_listed(names_view(names@), key@),
{
    let ghost nv = names_view(names@);
    let mut i: usize = 0;
    while i < names.len()
        invariant
            i <= names.len(),
            nv == names_view(names@),
            forall|j: int| 0 <= j < i ==> !eq_ignore_ascii_case(#[trigger] nv[j], key@),
        decreases names.len() - i,
    {
        if eq_ignore_case_chars(&names[i], key) {
            assert(nv[i as int] == names@[i as int]@);
            return true;
        }
        i += 1;
    }
    proof {
        assert forall|j: int| 0 <= j < nv.len() implies !eq_ignore_ascii_case(
            #[trigger] nv[j],
            key@,
        ) by {}
    }
    false
}

fn line_value(line: &Vec<char>, names: &Vec<Vec<char>>) -> (r: Option<Vec<char>>)
    ensures
        match dotenv_line_value(line@, names_view(names@)) {
            None => r is None,
            Some(v) => r matches Some(x) && x@ == v,
        },
{
    let t = trim_chars(line);
    if t.len() == 0 || t[0] == '#' {
        return None;
    }
    let prefix = vec!['e', 'x', 'p', 'o', 'r', 't', ' '];
    assert(prefix@ =~= export_prefix());
    let l = match strip_prefix_chars(&t, &prefix) {
        Some(rest) => rest,
        None => t,
    };
    match split_once_chars(&l, '=') {
        None => None,
        Some((key, value)) => {
            let k = trim_chars(&key);
            if !listed(names, &k) {
                return None;
            }
            let v1 = trim_chars(&value);
            let v2 = trim_quote_chars(&v1);
            let v3 = trim_chars(&v2);
            if v3.len() > 0 {
                Some(v3)
            } else {
                None
            }
        },
    }
}

/// Characters of every name.
pub fn name_chars(names: &[&str]) -> (r: Vec<Vec<char>>)
    ensures
        names_view(r@) == strs_view(names@),
{
    let mut r: Vec<Vec<char>> = Vec::new();
    let mut i: usize = 0;
    while i < names.len()
        invariant
            i <= names.len(),
            r@.len() == i,
            forall|j: int| 0 <= j < i ==> (#[trigger] r@[j])@ == names@[j]@,
        decreases names.len() - i,
    {
        r.push(chars_of(names[i]));
        i += 1;
    }
    assert(names_view(r@) =~= strs_view(names@));
    r
}

/// The first value `text` gives for one of `names`, scanning line by line.
pub fn dotenv_scan_chars(text: &Vec<char>, names: &Vec<Vec<char>>) -> (r: Option<Vec<char>>)
    ensures
        match dotenv_scan(text@, names_view(names@)) {
            None => r is None,
            Some(v) => r matches Some(x) && x@ == v,
        },
{
    let ghost nv = names_view(names@);
    let mut rest = sub_chars(text, 0, text.len());
    assert(rest@ =~= text@);
    loop
        invariant
            nv == names_view(names@),
            dotenv_scan(text@, nv) == dotenv_scan(rest@, nv),
        decreases rest.len(),
    {
        proof {
            lemma_find_char(rest@, '\n');
        }
        match split_once_chars(&rest, '\n') {
            None => {
                return line_value(&rest, names);
            },
            Some((line, tail)) => {
                if let Some(v) = line_value(&line, names) {
                    return Some(v);
                }
                rest = tail;
            },
        }
    }
}

/// The value a `.env` style `text` gives for the first line naming one of
/// `names` (ASCII case ignored) with a non-empty value. `export ` prefixes and
/// quotes are dropped; `#` lines are comments.
pub fn dotenv_value(text: &str, names: &[&str]) -> (r: Option<String>)
    ensures
        match dotenv_scan(text@, strs_view(names@)) {
            None => r is None,
            Some(v) => r matches Some(s) && s@ == v,
        },
{
    let chars = chars_of(text);
    let nc = name_chars(names);
    match dotenv_scan_chars(&chars, &nc) {
        None => None,
        Some(v) => Some(string_of(&v)),
    }
}

/// `text` trimmed, when that leaves anything.
pub open spec fn trimmed_nonempty(text: Seq<char>) -> Option<Seq<char>> {
    if trim(text).len() > 0 {
        Some(trim(text))
    } else {
        None
    }
}

/// `text.trim()` as a string, or `None` when that is empty.
pub fn trimmed_value(text: &str) -> (r: Option<String>)
    ensures
        match trimmed_nonempty(text@) {
            None => r is None,
            Some(v) => r matches Some(s) && s@ == v,
        },
{
    let c = chars_of(text);
    let t = trim_chars(&c);
    if t.len() > 0 {
        Some(string_of(&t))
    } else {
        None
    }
}

/// The first name whose environment value is non-empty once trimmed, as
/// that trimmed value.
pub open spec fn first_env_value(env: Seq<Option<Seq<char>>>) -> Option<Seq<char>>
    decreases env.len(),
{
    if env.len() == 0 {
        None
    } else {
        match env[0] {
            Some(v) if trim(v).len() > 0 => Some(trim(v)),
            _ => first_env_value(env.drop_first()),
        }
    }
}

/// The characters of each environment value that is set.
pub open spec fn env_view(env: Seq<Option<String>>) -> Seq<Option<Seq<char>>> {
    env.map_values(
        |e: Option<String>|
            match e {
                Some(s) => Some(s@),
                None => None,
            },
    )
}

/// Which source a key comes from: an explicit key file wins (its trimmed
/// text, or nothing when that is blank), then the environment under the
/// names in order, then the `.env` text.
pub open spec fn resolved_key(
    names: Seq<Seq<char>>,
    env: Seq<Option<Seq<char>>>,
    env_file_text: Option<Seq<char>>,
    key_file_text: Option<Seq<char>>,
) -> Option<Seq<char>> {
    match key_file_text {
        Some(k) => trimmed_nonempty(k),
        None => match first_env_value(env) {
            Some(v) => Some(v),
            None => match env_file_text {
                Some(t) => dotenv_scan(t, names),
                None => None,
            },
        },
    }
}

/// Whether an environment value is missing or blank once trimmed.
pub open spec fn blank_env(e: Option<Seq<char>>) -> bool {
    match e {
        Some(v) => trim(v).len() == 0,
        None => true,
    }
}

proof fn lemma_first_env_value_at(env: Seq<Option<Seq<char>>>, i: int)
    requires
        0 <= i < env.len(),
        !blank_env(env[i]),
        forall|j: int| 0 <= j < i ==> blank_env(#[trigger] env[j]),
    ensures
        first_env_value(env) == Some(trim(env[i]->0)),
    decreases i,
{
    if i > 0 {
        let d = env.drop_first();
        assert(blank_env(env[0]));
        assert forall|j: int| 0 <= j < i - 1 implies blank_env(#[trigger] d[j]) by {
            assert(d[j] == env[j + 1]);
        }
        assert(d[i - 1] == env[i]);
        lemma_first_env_value_at(d, i - 1);
    }
}

proof fn lemma_first_env_value_none(env: Seq<Option<Seq<char>>>)
    requires
        forall|j: int| 0 <= j < env.len() ==> blank_env(#[trigger] env[j]),
    ensures
        first_env_value(env) is None,
    decreases env.len(),
{
    if env.len() > 0 {
        let d = env.drop_first();
        assert(blank_env(env[0]));
        assert forall|j: int| 0 <= j < d.len() implies blank_env(#[trigger] d[j]) by {
            assert(d[j] == env[j + 1]);
        }
        lemma_first_env_value_none(d);
    }
}

/// Without a key file, the names are tried in order: the first whose
/// environment value is non-blank gives the key, trimmed, whatever later
/// names hold; when every value is missing or blank, the environment has no
/// say and the `.env` text decides as if it were empty.
pub proof fn lemma_first_name_wins(
    names: Seq<Seq<char>>,
    env: Seq<Option<Seq<char>>>,
    env_file_text: Option<Seq<char>>,
    i: int,
)
    ensures
        (0 <= i < env.len() && !blank_env(env[i]) && forall|j: int|
            0 <= j < i ==> blank_env(#[trigger] env[j])) ==> resolved_key(names, env, env_file_text, None)
            == Some(trim(env[i]->0)),
        (forall|j: int| 0 <= j < env.len() ==> blank_env(#[trigger] env[j])) ==> resolved_key(
            names,
            env,
            env_file_text,
            None,
        ) == resolved_key(names, Seq::<Option<Seq<char>>>::empty(), env_file_text, None),
{
    if 0 <= i < env.len() && !blank_env(env[i]) && forall|j: int| 0 <= j < i ==> blank_env(#[trigger] env[j]) {
        lemma_first_env_value_at(env, i);
    }
    if forall|j: int| 0 <= j < env.len() ==> blank_env(#[trigger] env[j]) {
        lemma_first_env_value_none(env);
    }
}

/// Resolve a key from its sources. `env[i]` is the process environment's
/// value under `names[i]`; `env_file_text` and `key_file_text` are the
/// contents of the `.env` file and the key file when those were given and
/// exist. `None` means nothing was found.
pub fn resolve_key(
    names: &[&str],
    env: &Vec<Option<String>>,
    env_file_text: Option<&str>,
    key_file_text: Option<&str>,
) -> (r: Option<String>)
    ensures
        match resolved_key(
            strs_view(names@),
            env_view(env@),
            match env_file_text {
                Some(t) => Some(t@),
                None => None,
            },
            match key_file_text {
                Some(t) => Some(t@),
                None => None,
            },
        ) {
            None => r is None,
            Some(v) => r matches Some(s) && s@ == v,
        },
{
    if let Some(text) = key_file_text {
        return trimmed_value(text);
    }
    let ghost ev = env_view(env@);
    assert(ev.skip(0) =~= ev);
    let mut i: usize = 0;
    while i < env.len()
        invariant
            key_file_text is None,
            i <= env.len(),
            ev == env_view(env@),
            first_env_value(ev) == first_env_value(ev.skip(i as int)),
        decreases env.len() - i,
    {
        let ghost rest = ev.skip(i as int);
        assert(rest[0] == ev[i as int]);
        assert(rest.drop_first() =~= ev.skip(i + 1));
        if let Some(value) = &env[i] {
            assert(ev[i as int] == Some(value@));
            if let Some(v) = trimmed_value(value.as_str()) {
                return Some(v);
            }
        }
        i += 1;
    }
    assert(ev.skip(i as int) =~= Seq::<Option<Seq<char>>>::empty());
    match env_file_text {
        Some(text) => dotenv_value(text, names),
        None => None,
    }
}

} // verus!
