//! The agent adapter's MCP tool logic: which request gets which reply, how
//! `act` arguments are checked before anything is sent, and the bounded
//! buffer of recent events the tools read.
use crate::audiogen::join;
use crate::protocol::{idle_action, Action, WeaponType};
use crate::text::{chars_eq, chars_of, extend_chars, extend_str, owned, string_of, trim, trim_chars};
use vstd::prelude::*;

verus! {

/// How many recent events the tool state keeps.
pub const RECENT_EVENTS_CAP: usize = 50;

/// A JSON-RPC error object.
#[derive(Debug, Clone, PartialEq, Eq)]
pub struct McpError {
    pub code: i32,
    pub message: String,
}

/// One JSON value as the `act` checks see it.
#[derive(Debug, Clone, PartialEq, Eq)]
pub enum ArgValue {
    Null,
    Bool(bool),
    Text(String),
    /// A number, an array or an object.
    Other,
}

/// The `arguments` of a tool call: absent or `null`, something other than an
/// object, or an object's members in order.
#[derive(Debug, Clone, PartialEq, Eq)]
pub enum ActArguments {
    Null,
    NotObject,
    Object(Vec<(String, ArgValue)>),
}

/// The keys `act` accepts.
pub open spec fn act_keys() -> Seq<Seq<char>> {
    seq![
        "forward"@,
        "back"@,
        "left"@,
        "right"@,
        "turn_left"@,
        "turn_right"@,
        "fire"@,
        "weapon_swap"@,
    ]
}

/// The keys of `entries` that `act` does not accept, in order.
pub open spec fn unknown_keys(entries: Seq<(String, ArgValue)>) -> Seq<Seq<char>>
    decreases entries.len(),
{
    if entries.len() == 0 {
        Seq::<Seq<char>>::empty()
    } else {
        let rest = unknown_keys(entries.drop_last());
        if act_keys().contains(entries.last().0@) {
            rest
        } else {
            rest.push(entries.last().0@)
        }
    }
}

/// Lexicographic order by code point, the order `String` sorts in.
pub open spec fn lex_lt(a: Seq<char>, b: Seq<char>) -> bool
    decreases a.len(),
{
    if a.len() == 0 {
        b.len() > 0
    } else if b.len() == 0 {
        false
    } else if a[0] != b[0] {
        (a[0] as u32) < (b[0] as u32)
    } else {
        lex_lt(a.drop_first(), b.drop_first())
    }
}

/// Insert `x` before the first element of `s` that is not below it.
pub open spec fn insert_sorted(x: Seq<char>, s: Seq<Seq<char>>) -> Seq<Seq<char>>
    decreases s.len(),
{
    if s.len() == 0 {
        seq![x]
    } else if lex_lt(s[0], x) {
        seq![s[0]] + insert_sorted(x, s.drop_first())
    } else {
        seq![x] + s
    }
}

/// `s` sorted ascending.
pub open spec fn sort_keys(s: Seq<Seq<char>>) -> Seq<Seq<char>>
    decreases s.len(),
{
    if s.len() == 0 {
        s
    } else {
        insert_sorted(s.last(), sort_keys(s.drop_last()))
    }
}

/// The refusal for unknown keys, listed sorted and quoted.
pub open spec fn unknown_fields_text(keys: Seq<Seq<char>>) -> Seq<char> {
    let listed = join(keys.map_values(|k: Seq<char>| "'"@ + k + "'"@), ", "@);
    if keys.len() == 1 {
        "schema error: unknown act field "@ + listed
    } else {
        "schema error: unknown act fields "@ + listed
    }
}

/// The value of the first member named `key`.
pub open spec fn member(entries: Seq<(String, ArgValue)>, key: Seq<char>) -> Option<ArgValue>
    decreases entries.len(),
{
    if entries.len() == 0 {
        None
    } else if entries[0].0@ == key {
        Some(entries[0].1)
    } else {
        member(entries.drop_first(), key)
    }
}

/// A flag: the member's value when it is a boolean, else off.
pub open spec fn flag(entries: Seq<(String, ArgValue)>, key: Seq<char>) -> bool {
    match member(entries, key) {
        Some(ArgValue::Bool(b)) => b,
        _ => false,
    }
}

/// The refusal of a `weapon_swap` that is not a string.
pub open spec fn weapon_not_string_text() -> Seq<char> {
    "schema error: weapon_swap must be a string (flechette|rail|scatter)"@
}

/// The refusal of an unknown weapon name.
pub open spec fn weapon_unknown_text(got: Seq<char>) -> Seq<char> {
    "schema error: weapon_swap must be flechette|rail|scatter, got '"@ + got + "'"@
}

/// The weapon a `weapon_swap` member asks for: none when absent or `null`, a
/// weapon for its exact lowercase name, a refusal otherwise.
pub open spec fn weapon_member(entries: Seq<(String, ArgValue)>) -> Result<Option<WeaponType>, Seq<char>> {
    match member(entries, "weapon_swap"@) {
        None => Ok(None),
        Some(ArgValue::Null) => Ok(None),
        Some(ArgValue::Text(s)) => if s@ == "flechette"@ {
            Ok(Some(WeaponType::Flechette))
        } else if s@ == "rail"@ {
            Ok(Some(WeaponType::Rail))
        } else if s@ == "scatter"@ {
            Ok(Some(WeaponType::Scatter))
        } else {
            Err(weapon_unknown_text(s@))
        },
        Some(_) => Err(weapon_not_string_text()),
    }
}

/// What `act` makes of its arguments: no arguments is the idle action; a
/// non-object, unknown keys or a bad weapon are refused, in that order;
/// otherwise each flag is read, missing or non-boolean ones off.
pub open spec fn act_check(args: ActArguments) -> Result<Action, Seq<char>> {
    match args {
        ActArguments::Null => Ok(idle_action()),
        ActArguments::NotObject => Err("schema error: act arguments must be an object"@),
        ActArguments::Object(entries) => {
            let e = entries@;
            let unknown = unknown_keys(e);
            if unknown.len() > 0 {
                Err(unknown_fields_text(sort_keys(unknown)))
            } else {
                match weapon_member(e) {
                    Err(m) => Err(m),
                    Ok(w) => Ok(
                        Action {
                            forward: flag(e, "forward"@),
                            back: flag(e, "back"@),
                            left: flag(e, "left"@),
                            right: flag(e, "right"@),
                            turn_left: flag(e, "turn_left"@),
                            turn_right: flag(e, "turn_right"@),
                            fire: flag(e, "fire"@),
                            weapon_swap: w,
                        },
                    ),
                }
            }
        },
    }
}

/// The flag of `a` at position `k` of `act_keys`: forward, back, left,
/// right, turn_left, turn_right, fire.
pub open spec fn action_flag(a: Action, k: int) -> bool {
    if k == 0 {
        a.forward
    } else if k == 1 {
        a.back
    } else if k == 2 {
        a.left
    } else if k == 3 {
        a.right
    } else if k == 4 {
        a.turn_left
    } else if k == 5 {
        a.turn_right
    } else {
        a.fire
    }
}

proof fn lemma_member_first(e: Seq<(String, ArgValue)>, key: Seq<char>, i: int)
    requires
        0 <= i < e.len(),
        e[i].0@ == key,
        forall|j: int| 0 <= j < i ==> e[j].0@ != key,
    ensures
        member(e, key) == Some(e[i].1),
    decreases i,
{
    if i > 0 {
        let d = e.drop_first();
        assert forall|j: int| 0 <= j < i - 1 implies d[j].0@ != key by {
            assert(d[j] == e[j + 1]);
        }
        assert(d[i - 1] == e[i]);
        lemma_member_first(d, key, i - 1);
    }
}

proof fn lemma_member_absent(e: Seq<(String, ArgValue)>, key: Seq<char>)
    requires
        forall|j: int| 0 <= j < e.len() ==> e[j].0@ != key,
    ensures
        member(e, key) is None,
    decreases e.len(),
{
    if e.len() > 0 {
        let d = e.drop_first();
        assert forall|j: int| 0 <= j < d.len() implies d[j].0@ != key by {
            assert(d[j] == e[j + 1]);
        }
        lemma_member_absent(d, key);
    }
}

proof fn lemma_no_unknown_keys(e: Seq<(String, ArgValue)>)
    requires
        forall|j: int| 0 <= j < e.len() ==> act_keys().contains(#[trigger] e[j].0@),
    ensures
        unknown_keys(e).len() == 0,
    decreases e.len(),
{
    if e.len() > 0 {
        let d = e.drop_last();
        assert forall|j: int| 0 <= j < d.len() implies act_keys().contains(#[trigger] d[j].0@) by {
            assert(d[j] == e[j]);
        }
        lemma_no_unknown_keys(d);
        assert(e.last() == e[e.len() - 1]);
    }
}

/// An `act` object whose members all name flags is accepted, and each flag
/// of the action is the value of the first member with that flag's own name
/// when it is a boolean, and off when that member is not a boolean or there
/// is none; no weapon is asked for.
pub proof fn lemma_act_reads_each_flag(entries: Vec<(String, ArgValue)>, k: int)
    requires
        0 <= k < 7,
        forall|j: int|
            0 <= j < entries@.len() ==> act_keys().contains(#[trigger] entries@[j].0@)
                && entries@[j].0@ != "weapon_swap"@,
    ensures
        act_check(ActArguments::Object(entries)) is Ok,
        act_check(ActArguments::Object(entries))->Ok_0.weapon_swap is None,
        forall|i: int|
            0 <= i < entries@.len() && #[trigger] entries@[i].0@ == act_keys()[k] && (forall|j: int|
                0 <= j < i ==> entries@[j].0@ != act_keys()[k]) ==> action_flag(
                act_check(ActArguments::Object(entries))->Ok_0,
                k,
            ) == match entries@[i].1 {
                ArgValue::Bool(b) => b,
                _ => false,
            },
        (forall|j: int| 0 <= j < entries@.len() ==> entries@[j].0@ != act_keys()[k]) ==> !action_flag(
            act_check(ActArguments::Object(entries))->Ok_0,
            k,
        ),
{
    let e = entries@;
    lemma_no_unknown_keys(e);
    assert forall|j: int| 0 <= j < e.len() implies e[j].0@ != "weapon_swap"@ by {
        assert(act_keys().contains(e[j].0@));
    }
    lemma_member_absent(e, "weapon_swap"@);
    let key = act_keys()[k];
    assert forall|i: int|
        0 <= i < e.len() && #[trigger] e[i].0@ == key && (forall|j: int| 0 <= j < i ==> e[j].0@ != key) implies action_flag(
        act_check(ActArguments::Object(entries))->Ok_0,
        k,
    ) == match e[i].1 {
        ArgValue::Bool(b) => b,
        _ => false,
    } by {
        lemma_member_first(e, key, i);
    }
    if forall|j: int| 0 <= j < e.len() ==> e[j].0@ != key {
        lemma_member_absent(e, key);
    }
}

/// The weapon asked for by the first `weapon_swap` member of an `act`
/// object of known keys: its exact lowercase name picks the flechette, the
/// rail or the scatter gun; `null` asks for none; any other text is refused
/// naming it.
pub proof fn lemma_act_reads_the_weapon(entries: Vec<(String, ArgValue)>, i: int)
    requires
        forall|j: int| 0 <= j < entries@.len() ==> act_keys().contains(#[trigger] entries@[j].0@),
        0 <= i < entries@.len(),
        entries@[i].0@ == "weapon_swap"@,
        forall|j: int| 0 <= j < i ==> entries@[j].0@ != "weapon_swap"@,
    ensures
        ({
            let r = act_check(ActArguments::Object(entries));
            match entries@[i].1 {
                ArgValue::Null => r is Ok && r->Ok_0.weapon_swap is None,
                ArgValue::Text(s) => if s@ == "flechette"@ {
                    r is Ok && r->Ok_0.weapon_swap == Some(WeaponType::Flechette)
                } else if s@ == "rail"@ {
                    r is Ok && r->Ok_0.weapon_swap == Some(WeaponType::Rail)
                } else if s@ == "scatter"@ {
                    r is Ok && r->Ok_0.weapon_swap == Some(WeaponType::Scatter)
                } else {
                    r == Err::<Action, Seq<char>>(
                        "schema error: weapon_swap must be flechette|rail|scatter, got '"@ + s@ + "'"@,
                    )
                },
                _ => r == Err::<Action, Seq<char>>(
                    "schema error: weapon_swap must be a string (flechette|rail|scatter)"@,
                ),
            }
        }),
{
    lemma_no_unknown_keys(entries@);
    lemma_member_first(entries@, "weapon_swap"@, i);
}

fn is_act_key(k: &Vec<char>) -> (b: bool)
    ensures
        b == act_keys().contains(k@),
{
    let keys: [&str; 8] = [
        "forward",
        "back",
        "left",
        "right",
        "turn_left",
        "turn_right",
        "fire",
        "weapon_swap",
    ];
    let ghost kv = keys@.map_values(|s: &str| s@);
    assert(kv =~= act_keys());
    let mut i: usize = 0;
    while i < 8
        invariant
            i <= 8,
            kv == keys@.map_values(|s: &str| s@),
            kv == act_keys(),
            forall|j: int| 0 <= j < i ==> kv[j] != k@,
        decreases 8 - i,
    {
        let c = chars_of(keys[i]);
        if chars_eq(&c, k) {
            assert(kv[i as int] == k@);
            return true;
        }
        i += 1;
    }
    false
}

fn lex_less(a: &Vec<char>, b: &Vec<char>) -> (r: bool)
    ensures
        r == lex_lt(a@, b@),
{
    let mut i: usize = 0;
    assert(a@.skip(0) =~= a@);
    assert(b@.skip(0) =~= b@);
    while i < a.len() && i < b.len() && a[i] == b[i]
        invariant
            i <= a.len(),
            i <= b.len(),
            lex_lt(a@, b@) == lex_lt(a@.skip(i as int), b@.skip(i as int)),
        decreases a.len() - i,
    {
        assert(a@.skip(i as int).drop_first() =~= a@.skip(i + 1));
        assert(b@.skip(i as int).drop_first() =~= b@.skip(i + 1));
        i += 1;
    }
    if i == a.len() {
        i < b.len()
    } else if i == b.len() {
        false
    } else {
        (a[i] as u32) < (b[i] as u32)
    }
}

proof fn lemma_insert_sorted_at(x: Seq<char>, s: Seq<Seq<char>>, p: int)
    requires
        0 <= p <= s.len(),
        forall|j: int| 0 <= j < p ==> lex_lt(#[trigger] s[j], x),
        p == s.len() || !lex_lt(s[p], x),
    ensures
        insert_sorted(x, s) == s.take(p) + seq![x] + s.skip(p),
    decreases p,
{
    if p == 0 {
        assert(s.take(0) + seq![x] + s.skip(0) =~= seq![x] + s);
        if s.len() > 0 {
        }
    } else {
        let t = s.drop_first();
        assert forall|j: int| 0 <= j < p - 1 implies lex_lt(#[trigger] t[j], x) by {
            assert(t[j] == s[j + 1]);
        }
        if p < s.len() {
            assert(t[p - 1] == s[p]);
        }
        lemma_insert_sorted_at(x, t, p - 1);
        assert(lex_lt(s[0], x));
        assert(seq![s[0]] + (t.take(p - 1) + seq![x] + t.skip(p - 1)) =~= s.take(p) + seq![x]
            + s.skip(p));
    }
}

fn insert_key(sorted: &mut Vec<Vec<char>>, x: Vec<char>)
    ensures
        final(sorted)@.map_values(|v: Vec<char>| v@) == insert_sorted(
            x@,
            old(sorted)@.map_values(|v: Vec<char>| v@),
        ),
{
    let ghost sv = old(sorted)@.map_values(|v: Vec<char>| v@);
    let mut p: usize = 0;
    while p < sorted.len() && lex_less(&sorted[p], &x)
        invariant
            p <= sorted.len(),
            sorted@ == old(sorted)@,
            sv == old(sorted)@.map_values(|v: Vec<char>| v@),
            forall|j: int| 0 <= j < p ==> lex_lt(#[trigger] sv[j], x@),
        decreases sorted.len() - p,
    {
        assert(sv[p as int] == sorted@[p as int]@);
        p += 1;
    }
    proof {
        if p < sorted.len() {
            assert(sv[p as int] == sorted@[p as int]@);
        }
        lemma_insert_sorted_at(x@, sv, p as int);
    }
    sorted.insert(p, x);
    assert(final(sorted)@.map_values(|v: Vec<char>| v@) =~= sv.take(p as int) + seq![x@] + sv.skip(
        p as int,
    ));
}

fn unknown_key_list(entries: &Vec<(String, ArgValue)>) -> (r: Vec<Vec<char>>)
    ensures
        r@.map_values(|v: Vec<char>| v@) == unknown_keys(entries@),
{
    let mut r: Vec<Vec<char>> = Vec::new();
    let mut i: usize = 0;
    while i < entries.len()
        invariant
            i <= entries.len(),
            r@.map_values(|v: Vec<char>| v@) == unknown_keys(entries@.take(i as int)),
        decreases entries.len() - i,
    {
        let ghost before = r@.map_values(|v: Vec<char>| v@);
        let k = chars_of(entries[i].0.as_str());
        proof {
            let cur = entries@.take(i + 1);
            assert(cur.drop_last() =~= entries@.take(i as int));
            assert(cur.last() == entries@[i as int]);
        }
        if !is_act_key(&k) {
            r.push(k);
            assert(r@.map_values(|v: Vec<char>| v@) =~= before.push(entries@[i as int].0@));
        }
        i += 1;
    }
    assert(entries@.take(entries.len() as int) =~= entries@);
    r
}

fn sorted_keys(keys: &Vec<Vec<char>>) -> (r: Vec<Vec<char>>)
    ensures
        r@.map_values(|v: Vec<char>| v@) == sort_keys(keys@.map_values(|v: Vec<char>| v@)),
{
    let ghost kv = keys@.map_values(|v: Vec<char>| v@);
    let mut r: Vec<Vec<char>> = Vec::new();
    let mut i: usize = 0;
    assert(kv.take(0) =~= Seq::<Seq<char>>::empty());
    assert(r@.map_values(|v: Vec<char>| v@) =~= Seq::<Seq<char>>::empty());
    while i < keys.len()
        invariant
            i <= keys.len(),
            kv == keys@.map_values(|v: Vec<char>| v@),
            r@.map_values(|v: Vec<char>| v@) == sort_keys(kv.take(i as int)),
        decreases keys.len() - i,
    {
        let k = crate::text::sub_chars(&keys[i], 0, keys[i].len());
        assert(k@ =~= kv[i as int]);
        insert_key(&mut r, k);
        proof {
            let cur = kv.take(i + 1);
            assert(cur.drop_last() =~= kv.take(i as int));
            assert(cur.last() == kv[i as int]);
        }
        i += 1;
    }
    assert(kv.take(keys.len() as int) =~= kv);
    r
}

fn quoted_list(keys: &Vec<Vec<char>>) -> (r: Vec<char>)
    ensures
        r@ == join(keys@.map_values(|v: Vec<char>| v@).map_values(|k: Seq<char>| "'"@ + k + "'"@), ", "@),
{
    let mut parts: Vec<Vec<char>> = Vec::new();
    let mut i: usize = 0;
    while i < keys.len()
        invariant
            i <= keys.len(),
            parts@.len() == i,
            forall|j: int| 0 <= j < i ==> (#[trigger] parts@[j])@ == "'"@ + keys@[j]@ + "'"@,
        decreases keys.len() - i,
    {
        let mut q: Vec<char> = Vec::new();
        extend_str(&mut q, "'");
        extend_chars(&mut q, &keys[i]);
        extend_str(&mut q, "'");
        parts.push(q);
        i += 1;
    }
    assert(parts@.map_values(|p: Vec<char>| p@) =~= keys@.map_values(|v: Vec<char>| v@).map_values(
        |k: Seq<char>| "'"@ + k + "'"@,
    ));
    crate::audiogen::join_chars(&parts, ", ")
}

fn lookup<'a>(entries: &'a Vec<(String, ArgValue)>, key: &str) -> (r: Option<&'a ArgValue>)
    ensures
        match member(entries@, key@) {
            None => r is None,
            Some(v) => r matches Some(x) && *x == v,
        },
{
    let k = chars_of(key);
    let mut i: usize = 0;
    assert(entries@.skip(0) =~= entries@);
    while i < entries.len()
        invariant
            i <= entries.len(),
            k@ == key@,
            member(entries@, key@) == member(entries@.skip(i as int), key@),
        decreases entries.len() - i,
    {
        assert(entries@.skip(i as int)[0] == entries@[i as int]);
        assert(entries@.skip(i as int).drop_first() =~= entries@.skip(i + 1));
        let c = chars_of(entries[i].0.as_str());
        if chars_eq(&c, &k) {
            return Some(&entries[i].1);
        }
        i += 1;
    }
    None
}

fn flag_of(entries: &Vec<(String, ArgValue)>, key: &str) -> (b: bool)
    ensures
        b == flag(entries@, key@),
{
    match lookup(entries, key) {
        Some(ArgValue::Bool(b)) => *b,
        _ => false,
    }
}

fn text_is(s: &String, lit: &str) -> (b: bool)
    ensures
        b == (s@ == lit@),
{
    let a = chars_of(s.as_str());
    let l = chars_of(lit);
    chars_eq(&a, &l)
}

/// Check MCP `act` arguments. Missing or `null` arguments are the idle
/// action; unknown keys and bad `weapon_swap` values are schema errors.
pub fn validate_act_arguments(arguments: &ActArguments) -> (r: Result<Action, String>)
    ensures
        match act_check(*arguments) {
            Ok(a) => r == Ok::<Action, String>(a),
            Err(m) => r matches Err(s) && s@ == m,
        },
{
    match arguments {
        ActArguments::Null => Ok(Action::idle()),
        ActArguments::NotObject => Err(owned("schema error: act arguments must be an object")),
        ActArguments::Object(entries) => {
            let unknown = unknown_key_list(entries);
            if unknown.len() > 0 {
                let sorted = sorted_keys(&unknown);
                let listed = quoted_list(&sorted);
                let mut out: Vec<char> = Vec::new();
                proof {
                    lemma_sort_keys_len(unknown@.map_values(|v: Vec<char>| v@));
                }
                if sorted.len() == 1 {
                    extend_str(&mut out, "schema error: unknown act field ");
                } else {
                    extend_str(&mut out, "schema error: unknown act fields ");
                }
                extend_chars(&mut out, &listed);
                return Err(string_of(&out));
            }
            let weapon = match lookup(entries, "weapon_swap") {
                None => None,
                Some(ArgValue::Null) => None,
                Some(ArgValue::Text(s)) => {
                    if text_is(s, "flechette") {
                        Some(WeaponType::Flechette)
                    } else if text_is(s, "rail") {
                        Some(WeaponType::Rail)
                    } else if text_is(s, "scatter") {
                        Some(WeaponType::Scatter)
                    } else {
                        let mut out: Vec<char> = Vec::new();
                        extend_str(
                            &mut out,
                            "schema error: weapon_swap must be flechette|rail|scatter, got '",
                        );
                        extend_str(&mut out, s.as_str());
                        extend_str(&mut out, "'");
                        return Err(string_of(&out));
                    }
                },
                Some(_) => {
                    return Err(
                        owned("schema error: weapon_swap must be a string (flechette|rail|scatter)"),
                    );
                },
            };
            Ok(
                Action {
                    forward: flag_of(entries, "forward"),
                    back: flag_of(entries, "back"),
                    left: flag_of(entries, "left"),
                    right: flag_of(entries, "right"),
                    turn_left: flag_of(entries, "turn_left"),
                    turn_right: flag_of(entries, "turn_right"),
                    fire: flag_of(entries, "fire"),
                    weapon_swap: weapon,
                },
            )
        },
    }
}

/// Inserting a key adds exactly one element.
pub proof fn lemma_insert_sorted_len(x: Seq<char>, s: Seq<Seq<char>>)
    ensures
        insert_sorted(x, s).len() == s.len() + 1,
    decreases s.len(),
{
    if s.len() > 0 && lex_lt(s[0], x) {
        lemma_insert_sorted_len(x, s.drop_first());
    }
}

/// Sorting keeps the number of keys.
pub proof fn lemma_sort_keys_len(s: Seq<Seq<char>>)
    ensures
        sort_keys(s).len() == s.len(),
    decreases s.len(),
{
    if s.len() > 0 {
        lemma_sort_keys_len(s.drop_last());
        lemma_insert_sorted_len(s.last(), sort_keys(s.drop_last()));
    }
}


/// In-memory tool state mirrored from the WebSocket receive loop.
#[derive(Debug, Default)]
pub struct ToolState {
    pub last_snapshot: Option<serde_json::Value>,
    pub recent_events: Vec<serde_json::Value>,
    pub player_id: Option<uuid::Uuid>,
}

/// The event buffer after one more event: appended, and the oldest dropped
/// when that makes more than fifty.
pub open spec fn recent_window<T>(events: Seq<T>, e: T) -> Seq<T> {
    let s = events.push(e);
    if s.len() > RECENT_EVENTS_CAP {
        s.drop_first()
    } else {
        s
    }
}

/// Buffer an event into `recent_events`, keeping at most fifty.
pub fn push_recent_event(state: &mut ToolState, event_value: serde_json::Value)
    ensures
        final(state).recent_events@ == recent_window(old(state).recent_events@, event_value),
        final(state).last_snapshot == old(state).last_snapshot,
        final(state).player_id == old(state).player_id,
{
    state.recent_events.push(event_value);
    if state.recent_events.len() > RECENT_EVENTS_CAP {
        state.recent_events.remove(0);
        assert(state.recent_events@ =~= old(state).recent_events@.push(event_value).drop_first());
    }
}

/// The buffer after pushing every event of `es` in order.
pub open spec fn push_all<T>(buf: Seq<T>, es: Seq<T>) -> Seq<T>
    decreases es.len(),
{
    if es.len() == 0 {
        buf
    } else {
        recent_window(push_all(buf, es.drop_last()), es.last())
    }
}

/// The newest `n` elements of `s`.
pub open spec fn newest<T>(s: Seq<T>, n: nat) -> Seq<T> {
    if s.len() <= n {
        s
    } else {
        s.skip(s.len() - n)
    }
}

/// However many events arrive, a buffer that starts with at most fifty holds
/// exactly the newest fifty of everything it has seen, oldest first.
pub proof fn lemma_recent_events_keep_newest<T>(buf: Seq<T>, es: Seq<T>)
    requires
        buf.len() <= RECENT_EVENTS_CAP,
    ensures
        push_all(buf, es) == newest(buf + es, RECENT_EVENTS_CAP as nat),
    decreases es.len(),
{
    if es.len() > 0 {
        let prev = es.drop_last();
        lemma_recent_events_keep_newest(buf, prev);
        let all_prev = buf + prev;
        let all = buf + es;
        assert(all =~= all_prev.push(es.last()));
        let w = newest(all_prev, RECENT_EVENTS_CAP as nat);
        assert(recent_window(w, es.last()) =~= newest(all, RECENT_EVENTS_CAP as nat));
    } else {
        assert(buf + es =~= buf);
    }
}

/// Server text frames larger than this are ignored unread.
pub const MAX_SERVER_TEXT_BYTES: usize = 1000000;

/// Whether an inbound server frame is small enough to read.
pub fn server_text_accepted(text: &str) -> (b: bool)
    ensures
        b == (text.len() <= MAX_SERVER_TEXT_BYTES),
{
    text.len() <= MAX_SERVER_TEXT_BYTES
}

/// MCP request lines longer than this are ignored unread.
pub const MAX_MCP_LINE_BYTES: usize = 100000;

/// Whether an MCP request line is small enough to read.
pub fn mcp_line_accepted(line: &str) -> (b: bool)
    ensures
        b == (line.len() <= MAX_MCP_LINE_BYTES),
{
    line.len() <= MAX_MCP_LINE_BYTES
}

/// What an inbound server frame carries for the tools.
pub enum ServerFrame {
    /// A snapshot, as JSON.
    Snapshot(serde_json::Value),
    /// An event, parsed or not, as JSON.
    Event(serde_json::Value),
    /// A welcome, an unreadable frame or anything else.
    Ignored,
}

/// Apply one inbound frame: a snapshot replaces the last one, an event is
/// buffered, anything else leaves the state alone.
pub fn ingest_server_frame(state: &mut ToolState, frame: ServerFrame)
    ensures
        match frame {
            ServerFrame::Snapshot(v) => final(state).last_snapshot == Some(v)
                && final(state).recent_events@ == old(state).recent_events@,
            ServerFrame::Event(v) => final(state).last_snapshot == old(state).last_snapshot
                && final(state).recent_events@ == recent_window(old(state).recent_events@, v),
            ServerFrame::Ignored => final(state).last_snapshot == old(state).last_snapshot
                && final(state).recent_events@ == old(state).recent_events@,
        },
        final(state).player_id == old(state).player_id,
{
    match frame {
        ServerFrame::Snapshot(v) => {
            state.last_snapshot = Some(v);
        },
        ServerFrame::Event(v) => {
            push_recent_event(state, v);
        },
        ServerFrame::Ignored => {},
    }
}

/// How the adapter answers one MCP request.
#[derive(Debug, Clone, PartialEq, Eq)]
pub enum McpReply {
    /// `initialize`: protocol version and server info.
    Initialize,
    /// `tools/list`: the three tools and their schemas.
    ToolsList,
    /// `observe`: the last snapshot with recent events and the own id.
    Observe,
    /// `act` with valid arguments: this action is sent to the server.
    ActSent(Action),
    /// `act` with invalid arguments: this schema error is reported.
    ActRejected(String),
    /// `get_events`: the recent events, cleared afterwards when asked.
    Events { clear: bool },
    /// `tools/call` of another tool, with the text to report.
    UnknownTool(String),
    /// Any other method: this JSON-RPC error.
    MethodNotFound(McpError),
}

/// The `clear` flag of `get_events` arguments.
pub open spec fn clear_flag(args: ActArguments) -> bool {
    match args {
        ActArguments::Object(e) => flag(e@, "clear"@),
        _ => false,
    }
}

/// Whether `r` is the reply to a request with `method`, the called tool's
/// name `tool` (empty when absent) and its arguments.
pub open spec fn reply_is(r: McpReply, method: Seq<char>, tool: Seq<char>, args: ActArguments) -> bool {
    if method == "initialize"@ {
        r == McpReply::Initialize
    } else if method == "tools/list"@ {
        r == McpReply::ToolsList
    } else if method == "tools/call"@ {
        if tool == "observe"@ {
            r == McpReply::Observe
        } else if tool == "act"@ {
            match act_check(args) {
                Ok(a) => r == McpReply::ActSent(a),
                Err(m) => r matches McpReply::ActRejected(s) && s@ == m,
            }
        } else if tool == "get_events"@ {
            r == McpReply::Events { clear: clear_flag(args) }
        } else {
            r matches McpReply::UnknownTool(s) && s@ == "Unknown tool: "@ + tool
        }
    } else {
        r matches McpReply::MethodNotFound(e) && e.code == -32601 && e.message@
            == "Method not found: "@ + method
    }
}

/// Dispatch one JSON-RPC MCP request.
pub fn dispatch_mcp_request(method: &str, tool: &str, arguments: &ActArguments) -> (r: McpReply)
    ensures
        reply_is(r, method@, tool@, *arguments),
{
    let m = chars_of(method);
    let t = chars_of(tool);
    if chars_eq(&m, &chars_of("initialize")) {
        McpReply::Initialize
    } else if chars_eq(&m, &chars_of("tools/list")) {
        McpReply::ToolsList
    } else if chars_eq(&m, &chars_of("tools/call")) {
        if chars_eq(&t, &chars_of("observe")) {
            McpReply::Observe
        } else if chars_eq(&t, &chars_of("act")) {
            match validate_act_arguments(arguments) {
                Ok(a) => McpReply::ActSent(a),
                Err(e) => McpReply::ActRejected(e),
            }
        } else if chars_eq(&t, &chars_of("get_events")) {
            let clear = match arguments {
                ActArguments::Object(e) => flag_of(e, "clear"),
                _ => false,
            };
            McpReply::Events { clear }
        } else {
            let mut out: Vec<char> = Vec::new();
            extend_str(&mut out, "Unknown tool: ");
            extend_chars(&mut out, &t);
            McpReply::UnknownTool(string_of(&out))
        }
    } else {
        let mut out: Vec<char> = Vec::new();
        extend_str(&mut out, "Method not found: ");
        extend_chars(&mut out, &m);
        McpReply::MethodNotFound(McpError { code: -32601, message: string_of(&out) })
    }
}

/// The display name an agent joins with: the trimmed command-line name,
/// else the trimmed environment name, else the default; a blank one counts
/// as absent.
pub open spec fn agent_name(cli: Option<Seq<char>>, env: Option<Seq<char>>, default: Seq<char>) -> Seq<char> {
    if cli is Some && trim(cli->0).len() > 0 {
        trim(cli->0)
    } else if env is Some && trim(env->0).len() > 0 {
        trim(env->0)
    } else {
        default
    }
}

/// Resolve the name sent in `Hello`. `env_name` is the value of
/// `FRAGR_AGENT_NAME` when it is set.
pub fn resolve_agent_name(cli_name: Option<&str>, env_name: Option<&str>, default: &str) -> (s: String)
    ensures
        s@ == agent_name(
            match cli_name { Some(c) => Some(c@), None => None },
            match env_name { Some(e) => Some(e@), None => None },
            default@,
        ),
{
    if let Some(raw) = cli_name {
        let t = trim_chars(&chars_of(raw));
        if t.len() > 0 {
            return string_of(&t);
        }
    }
    if let Some(raw) = env_name {
        let t = trim_chars(&chars_of(raw));
        if t.len() > 0 {
            return string_of(&t);
        }
    }
    owned(default)
}

} // verus!
