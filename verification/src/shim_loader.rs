//! What the shim-loader hook computes from the registered manifests: the
//! libraries to preload, the extra environment, and the credential routing
//! table for the probe; and how it reads its arguments. Reading the
//! manifests and writing the files are the caller's.

use vstd::prelude::*;
use crate::manifest::{Effect, Manifest, ProxyRule};
use crate::text::{chars_of, is_suffix, join, join_strings, push_str, str_ends_with, str_eq, views};

verus! {

/// A directory entry named `name` is a manifest when its extension is
/// `toml`: the name ends in `.toml` with something before that dot (a name
/// that is only `.toml` has no extension).
pub open spec fn is_manifest_name(name: Seq<char>) -> bool {
    name.len() > 5 && is_suffix(".toml"@, name)
}

/// Whether the directory entry `name` is a manifest to load.
pub fn is_manifest_file(name: &str) -> (r: bool)
    ensures
        r == is_manifest_name(name@),
{
    proof {
        reveal_strlit(".toml");
    }
    let cs = chars_of(name);
    cs.len() > 5 && str_ends_with(name, ".toml")
}

/// Where `flag` first occurs among the arguments, from position `i` on.
pub open spec fn first_occurrence(args: Seq<Seq<char>>, flag: Seq<char>, i: int) -> Option<int>
    decreases args.len() - i,
{
    if i < 0 || i >= args.len() {
        None
    } else if args[i] == flag {
        Some(i)
    } else {
        first_occurrence(args, flag, i + 1)
    }
}

/// The argument after the first occurrence of `flag`, if both exist.
pub open spec fn arg_after(args: Seq<Seq<char>>, flag: Seq<char>) -> Option<Seq<char>> {
    match first_occurrence(args, flag, 0) {
        Some(i) => if i + 1 < args.len() {
            Some(args[i + 1])
        } else {
            None
        },
        None => None,
    }
}

/// The value given for `flag`: the argument that follows its first
/// occurrence.
pub fn find_arg(args: &[String], flag: &str) -> (r: Option<String>)
    ensures
        match r {
            Some(v) => arg_after(views(args@), flag@) == Some(v@),
            None => arg_after(views(args@), flag@) == None::<Seq<char>>,
        },
{
    let ghost va = views(args@);
    let mut i: usize = 0;
    while i < args.len()
        invariant
            i <= args@.len(),
            va == views(args@),
            first_occurrence(va, flag@, 0) == first_occurrence(va, flag@, i as int),
        decreases args.len() - i,
    {
        if str_eq(args[i].as_str(), flag) {
            if i + 1 < args.len() {
                return Some(args[i + 1].clone());
            }
            return None;
        }
        i = i + 1;
    }
    None
}

/// Every effect of the manifests, manifest by manifest, in order.
pub open spec fn all_effects(manifests: Seq<Manifest>) -> Seq<Effect>
    decreases manifests.len(),
{
    if manifests.len() == 0 {
        Seq::empty()
    } else {
        all_effects(manifests.drop_last()) + manifests.last().effects@
    }
}

/// The environment pairs of an effect, in its table's key order.
pub open spec fn effect_env(e: Effect) -> Seq<(Seq<char>, Seq<char>)> {
    e.env.key_seq().map_values(|k: Seq<char>| (k, e.env@[k]@))
}

/// The environment pairs of every effect, in order.
pub open spec fn all_env(effects: Seq<Effect>) -> Seq<(Seq<char>, Seq<char>)>
    decreases effects.len(),
{
    if effects.len() == 0 {
        Seq::empty()
    } else {
        all_env(effects.drop_last()) + effect_env(effects.last())
    }
}

/// Every proxy rule of the manifests, in order.
pub open spec fn all_rules(manifests: Seq<Manifest>) -> Seq<ProxyRule>
    decreases manifests.len(),
{
    if manifests.len() == 0 {
        Seq::empty()
    } else {
        all_rules(manifests.drop_last()) + match manifests.last().proxy_rules {
            Some(pr) => pr.rules@,
            None => Seq::empty(),
        }
    }
}

/// A `KEY=VALUE` line.
pub open spec fn env_line(kv: (Seq<char>, Seq<char>)) -> Seq<char> {
    kv.0 + "="@ + kv.1
}

/// A `pattern|key|target` line of the credential routing table.
pub open spec fn route_line(r: ProxyRule) -> Seq<char> {
    r.match_pattern@ + "|"@ + r.credential_key@ + "|"@ + r.target_address@
}

/// The shim library of every effect, in order.
pub fn collect_preloads(manifests: &[Manifest]) -> (r: Vec<String>)
    ensures
        views(r@) == all_effects(manifests@).map_values(|e: Effect| e.shim_library@),
{
    let mut r: Vec<String> = Vec::new();
    let mut m: usize = 0;
    while m < manifests.len()
        invariant
            m <= manifests@.len(),
            views(r@) == all_effects(manifests@.take(m as int)).map_values(|e: Effect| e.shim_library@),
        decreases manifests.len() - m,
    {
        let effects = &manifests[m].effects;
        let ghost before = views(r@);
        assert(manifests@.take(m + 1).drop_last() =~= manifests@.take(m as int));
        let mut k: usize = 0;
        while k < effects.len()
            invariant
                k <= effects@.len(),
                views(r@) == before + effects@.take(k as int).map_values(|e: Effect| e.shim_library@),
            decreases effects.len() - k,
        {
            let ghost rv = r@;
            let lib = effects[k].shim_library.clone();
            r.push(lib);
            assert(views(r@) =~= views(rv).push(lib@));
            assert(effects@.take(k + 1).map_values(|e: Effect| e.shim_library@) =~= effects@.take(
                k as int,
            ).map_values(|e: Effect| e.shim_library@).push(effects@[k as int].shim_library@));
            k = k + 1;
        }
        assert(effects@.take(effects@.len() as int) =~= effects@);
        assert(all_effects(manifests@.take(m + 1)).map_values(|e: Effect| e.shim_library@) =~= before
            + effects@.map_values(|e: Effect| e.shim_library@));
        m = m + 1;
    }
    assert(manifests@.take(manifests@.len() as int) =~= manifests@);
    r
}

/// The extra environment of every effect, in order.
pub fn collect_env_vars(manifests: &[Manifest]) -> (r: Vec<(String, String)>)
    ensures
        r@.map_values(|p: (String, String)| (p.0@, p.1@)) == all_env(all_effects(manifests@)),
{
    let mut r: Vec<(String, String)> = Vec::new();
    let mut m: usize = 0;
    while m < manifests.len()
        invariant
            m <= manifests@.len(),
            r@.map_values(|p: (String, String)| (p.0@, p.1@)) == all_env(all_effects(manifests@.take(m as int))),
        decreases manifests.len() - m,
    {
        let effects = &manifests[m].effects;
        let ghost done = all_effects(manifests@.take(m as int));
        assert(manifests@.take(m + 1).drop_last() =~= manifests@.take(m as int));
        let mut k: usize = 0;
        while k < effects.len()
            invariant
                k <= effects@.len(),
                r@.map_values(|p: (String, String)| (p.0@, p.1@)) == all_env(done + effects@.take(k as int)),
            decreases effects.len() - k,
        {
            let env = &effects[k].env;
            let n = env.len();
            let ghost before = r@.map_values(|p: (String, String)| (p.0@, p.1@));
            let mut j: usize = 0;
            while j < n
                invariant
                    k < effects@.len(),
                    *env == effects@[k as int].env,
                    n == env.key_seq().len(),
                    env.key_seq().to_set() == env@.dom(),
                    j <= n,
                    r@.map_values(|p: (String, String)| (p.0@, p.1@)) == before + effect_env(effects@[k as int]).take(j as int),
                decreases n - j,
            {
                let ghost rv = r@;
                let key = env.key_at(j).clone();
                let value = env.value_at(j).clone();
                r.push((key, value));
                assert(r@.map_values(|p: (String, String)| (p.0@, p.1@)) =~= rv.map_values(
                    |p: (String, String)| (p.0@, p.1@),
                ).push((key@, value@)));
                assert(effect_env(effects@[k as int]).take(j + 1) =~= effect_env(effects@[k as int]).take(
                    j as int,
                ).push((key@, value@)));
                j = j + 1;
            }
            assert(effect_env(effects@[k as int]).take(n as int) =~= effect_env(effects@[k as int]));
            assert((done + effects@.take(k + 1)).drop_last() =~= done + effects@.take(k as int));
            k = k + 1;
        }
        assert(effects@.take(effects@.len() as int) =~= effects@);
        m = m + 1;
    }
    assert(manifests@.take(manifests@.len() as int) =~= manifests@);
    r
}

/// The `ld_preload` file's text: the libraries joined by `:`; nothing to
/// write when there are none.
pub fn ld_preload_text(preloads: &Vec<String>) -> (r: Option<String>)
    ensures
        preloads@.len() == 0 ==> r is None,
        preloads@.len() > 0 ==> (r matches Some(t) && t@ == join(views(preloads@), ":"@)),
{
    if preloads.len() == 0 {
        None
    } else {
        Some(join_strings(preloads, ":"))
    }
}

/// The `extra_env` file's text: a `KEY=VALUE` line per pair, joined by
/// newlines; nothing to write when there are none.
pub fn extra_env_text(env_vars: &Vec<(String, String)>) -> (r: Option<String>)
    ensures
        env_vars@.len() == 0 ==> r is None,
        env_vars@.len() > 0 ==> (r matches Some(t) && t@ == join(
            env_vars@.map_values(|p: (String, String)| env_line((p.0@, p.1@))),
            "\n"@,
        )),
{
    if env_vars.len() == 0 {
        return None;
    }
    let mut lines: Vec<String> = Vec::new();
    let mut i: usize = 0;
    while i < env_vars.len()
        invariant
            i <= env_vars@.len(),
            views(lines@) == env_vars@.take(i as int).map_values(|p: (String, String)| env_line((p.0@, p.1@))),
        decreases env_vars.len() - i,
    {
        let ghost lv = lines@;
        let mut line = env_vars[i].0.clone();
        push_str(&mut line, "=");
        push_str(&mut line, env_vars[i].1.as_str());
        lines.push(line);
        assert(views(lines@) =~= views(lv).push(line@));
        assert(env_vars@.take(i + 1).map_values(|p: (String, String)| env_line((p.0@, p.1@))) =~= env_vars@.take(
            i as int,
        ).map_values(|p: (String, String)| env_line((p.0@, p.1@))).push(line@));
        i = i + 1;
    }
    assert(env_vars@.take(env_vars@.len() as int) =~= env_vars@);
    Some(join_strings(&lines, "\n"))
}

/// The credential routing table: a `pattern|key|target` line per proxy
/// rule of the manifests, joined by newlines; nothing to write when there
/// is no rule.
pub fn credential_routes_text(manifests: &[Manifest]) -> (r: Option<String>)
    ensures
        all_rules(manifests@).len() == 0 ==> r is None,
        all_rules(manifests@).len() > 0 ==> (r matches Some(t) && t@ == join(
            all_rules(manifests@).map_values(|p: ProxyRule| route_line(p)),
            "\n"@,
        )),
{
    let mut lines: Vec<String> = Vec::new();
    let mut m: usize = 0;
    while m < manifests.len()
        invariant
            m <= manifests@.len(),
            views(lines@) == all_rules(manifests@.take(m as int)).map_values(|p: ProxyRule| route_line(p)),
        decreases manifests.len() - m,
    {
        assert(manifests@.take(m + 1).drop_last() =~= manifests@.take(m as int));
        let ghost before = views(lines@);
        match &manifests[m].proxy_rules {
            Some(pr) => {
                let rules = &pr.rules;
                let mut k: usize = 0;
                while k < rules.len()
                    invariant
                        k <= rules@.len(),
                        views(lines@) == before + rules@.take(k as int).map_values(|p: ProxyRule| route_line(p)),
                    decreases rules.len() - k,
                {
                    let ghost lv = lines@;
                    let rule = &rules[k];
                    let mut line = rule.match_pattern.clone();
                    push_str(&mut line, "|");
                    push_str(&mut line, rule.credential_key.as_str());
                    push_str(&mut line, "|");
                    push_str(&mut line, rule.target_address.as_str());
                    lines.push(line);
                    assert(views(lines@) =~= views(lv).push(line@));
                    assert(rules@.take(k + 1).map_values(|p: ProxyRule| route_line(p)) =~= rules@.take(
                        k as int,
                    ).map_values(|p: ProxyRule| route_line(p)).push(line@));
                    k = k + 1;
                }
                assert(rules@.take(rules@.len() as int) =~= rules@);
                assert(all_rules(manifests@.take(m + 1)).map_values(|p: ProxyRule| route_line(p)) =~= before
                    + rules@.map_values(|p: ProxyRule| route_line(p)));
            },
            None => {
                assert(all_rules(manifests@.take(m + 1)).map_values(|p: ProxyRule| route_line(p)) =~= before);
            },
        }
        m = m + 1;
    }
    assert(manifests@.take(manifests@.len() as int) =~= manifests@);
    if lines.len() == 0 {
        None
    } else {
        Some(join_strings(&lines, "\n"))
    }
}

/// How many proxy rules a manifest has.
pub open spec fn rule_count(m: Manifest) -> nat {
    match m.proxy_rules {
        Some(pr) => pr.rules@.len(),
        None => 0,
    }
}

/// How many proxy rules the manifests have in all.
pub open spec fn rule_total(manifests: Seq<Manifest>) -> nat
    decreases manifests.len(),
{
    if manifests.len() == 0 {
        0
    } else {
        rule_total(manifests.drop_last()) + rule_count(manifests.last())
    }
}

/// The rules of the routing table are every proxy rule of every manifest,
/// manifest by manifest, each in its place: there are as many as the
/// manifests have in all, and rule `k` of manifest `i` comes after the
/// rules of the manifests before it, at position `k` among its own.
pub proof fn lemma_routes_hold_every_rule(manifests: Seq<Manifest>)
    ensures
        all_rules(manifests).len() == rule_total(manifests),
        forall|i: int, k: int|
            0 <= i < manifests.len() && manifests[i].proxy_rules is Some && 0 <= k
                < manifests[i].proxy_rules->0.rules@.len() ==> all_rules(manifests)[rule_total(manifests.take(i)) + k]
                == #[trigger] manifests[i].proxy_rules->0.rules@[k],
    decreases manifests.len(),
{
    if manifests.len() > 0 {
        let p = manifests.drop_last();
        let n = manifests.len() - 1;
        lemma_routes_hold_every_rule(p);
        assert(manifests.take(n) =~= p);
        assert forall|i: int, k: int|
            0 <= i < manifests.len() && manifests[i].proxy_rules is Some && 0 <= k
                < manifests[i].proxy_rules->0.rules@.len() implies all_rules(manifests)[rule_total(manifests.take(i))
                + k] == #[trigger] manifests[i].proxy_rules->0.rules@[k] by {
            if i < n {
                assert(manifests[i] == p[i]);
                assert(manifests.take(i) =~= p.take(i));
                lemma_rule_total_prefix(p, i);
            }
        }
    }
}

/// The rules of the first `i` manifests are no more than those of all.
proof fn lemma_rule_total_prefix(manifests: Seq<Manifest>, i: int)
    requires
        0 <= i < manifests.len(),
    ensures
        rule_total(manifests.take(i)) + rule_count(manifests[i]) <= rule_total(manifests),
    decreases manifests.len(),
{
    let p = manifests.drop_last();
    if i < manifests.len() - 1 {
        lemma_rule_total_prefix(p, i);
        assert(manifests.take(i) =~= p.take(i));
        assert(manifests[i] == p[i]);
    } else {
        assert(manifests.take(i) =~= p);
    }
}

/// How many extra environment entries the effects have in all.
pub open spec fn env_total(effects: Seq<Effect>) -> nat
    decreases effects.len(),
{
    if effects.len() == 0 {
        0
    } else {
        env_total(effects.drop_last()) + effects.last().env@.dom().len()
    }
}

/// An effect's environment gives one pair per entry of its `env` map, each
/// key with its value unchanged, whatever characters the value holds.
pub proof fn lemma_effect_env_is_every_entry(e: Effect)
    requires
        e.env.key_seq().no_duplicates(),
    ensures
        effect_env(e).len() == e.env@.dom().len(),
        forall|k: Seq<char>| #[trigger] e.env@.dom().contains(k) ==> effect_env(e).contains((k, e.env@[k]@)),
        forall|i: int|
            0 <= i < effect_env(e).len() ==> e.env@.dom().contains((#[trigger] effect_env(e)[i]).0)
                && effect_env(e)[i].1 == e.env@[effect_env(e)[i].0]@,
{
    e.env.lemma_key_seq_is_dom();
    e.env.key_seq().unique_seq_to_set();
    assert forall|k: Seq<char>| #[trigger] e.env@.dom().contains(k) implies effect_env(e).contains((k, e.env@[k]@)) by {
        assert(e.env.key_seq().to_set().contains(k));
        let i = choose|i: int| 0 <= i < e.env.key_seq().len() && e.env.key_seq()[i] == k;
        assert(effect_env(e)[i] == (k, e.env@[k]@));
    }
    assert forall|i: int| 0 <= i < effect_env(e).len() implies e.env@.dom().contains((#[trigger] effect_env(e)[i]).0)
        && effect_env(e)[i].1 == e.env@[effect_env(e)[i].0]@ by {
        assert(e.env.key_seq().to_set().contains(e.env.key_seq()[i]));
    }
}

/// The collected environment has one pair per entry of every effect's
/// `env`, effect by effect: as many pairs as the effects have entries in
/// all, and each entry's key with its value unchanged.
pub proof fn lemma_env_holds_every_entry(effects: Seq<Effect>)
    requires
        forall|j: int| 0 <= j < effects.len() ==> (#[trigger] effects[j]).env.key_seq().no_duplicates(),
    ensures
        all_env(effects).len() == env_total(effects),
        forall|j: int, k: Seq<char>|
            0 <= j < effects.len() && #[trigger] effects[j].env@.dom().contains(k) ==> all_env(effects).contains(
                (k, effects[j].env@[k]@),
            ),
    decreases effects.len(),
{
    if effects.len() > 0 {
        let p = effects.drop_last();
        let n = effects.len() - 1;
        assert forall|j: int| 0 <= j < p.len() implies (#[trigger] p[j]).env.key_seq().no_duplicates() by {
            assert(p[j] == effects[j]);
        }
        lemma_env_holds_every_entry(p);
        lemma_effect_env_is_every_entry(effects[n]);
        let whole = all_env(effects);
        assert(whole == all_env(p) + effect_env(effects.last()));
        assert forall|j: int, k: Seq<char>|
            0 <= j < effects.len() && #[trigger] effects[j].env@.dom().contains(k) implies whole.contains(
                (k, effects[j].env@[k]@),
            ) by {
            if j < n {
                assert(effects[j] == p[j]);
                assert(p[j].env@.dom().contains(k));
                let x = choose|x: int| 0 <= x < all_env(p).len() && all_env(p)[x] == (k, p[j].env@[k]@);
                assert(whole[x] == all_env(p)[x]);
            } else {
                assert(effects[n].env@.dom().contains(k));
                let x = choose|x: int|
                    0 <= x < effect_env(effects[n]).len() && effect_env(effects[n])[x] == (k, effects[n].env@[k]@);
                assert(whole[all_env(p).len() + x] == effect_env(effects[n])[x]);
            }
        }
    }
}

} // verus!
