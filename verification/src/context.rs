//! The context that tells an agent inside the sandbox which tools it has and
//! how to ask for more (written as `/run/aether/context.json` by the caller).

use vstd::prelude::*;
use crate::manifest::{clone_toml_value, Binary, Effect, Manifest};
use crate::paths::{trim_leading_slashes, trim_start_slashes};
use crate::strmap::StrMap;
use crate::text::{chars_ends_with, chars_of, is_suffix, push_str};

verus! {

/// Where the context file lives.
pub const CONTEXT_PATH: &'static str = "/run/aether/context.json";

/// The whole context.
pub struct AgentContext {
    pub version: &'static str,
    pub request_tools: RequestTools,
    pub tools: Vec<Tool>,
}

/// How to ask for more tools.
pub struct RequestTools {
    pub ttrpc_socket: &'static str,
    pub request_file: &'static str,
}

/// One tool: the command, where it is, which add-in and version provide it,
/// and the add-in's freeform metadata for it.
pub struct Tool {
    pub command: String,
    pub path: String,
    pub addin: String,
    pub version: String,
    pub meta: StrMap<toml::Value>,
}

/// The first binary, from position `i` on, whose path ends with `name`.
pub open spec fn first_binary_ending(bins: Seq<Binary>, name: Seq<char>, i: int) -> Option<int>
    decreases bins.len() - i,
{
    if i < 0 || i >= bins.len() {
        None
    } else if is_suffix(name, bins[i].path@) {
        Some(i)
    } else {
        first_binary_ending(bins, name, i + 1)
    }
}

/// Where a command is: `/` and the path of the first binary that ends with
/// it (less its leading slashes), or `/usr/bin/<command>` if none does.
pub open spec fn tool_path(bins: Seq<Binary>, name: Seq<char>) -> Seq<char> {
    match first_binary_ending(bins, name, 0) {
        Some(j) => seq!['/'] + trim_leading_slashes(bins[j].path@),
        None => "/usr/bin/"@ + name,
    }
}

/// The tool for effect `e` of manifest `m` of add-in `id`.
pub open spec fn tool_of(t: Tool, id: Seq<char>, m: Manifest, e: Effect) -> bool {
    &&& t.command@ == e.binary_name@
    &&& t.path@ == tool_path(m.binaries@, e.binary_name@)
    &&& t.addin@ == id
    &&& t.version@ == m.package.version@
    &&& t.meta@ == e.meta@
}

/// Every (add-in id, manifest, effect), add-in by add-in, effect by effect.
pub open spec fn effect_sources(addins: Seq<(&str, &Manifest)>) -> Seq<(Seq<char>, Manifest, Effect)>
    decreases addins.len(),
{
    if addins.len() == 0 {
        Seq::empty()
    } else {
        let (id, m) = addins.last();
        effect_sources(addins.drop_last()) + m.effects@.map_values(|e: Effect| (id@, *m, e))
    }
}

/// A copy of a metadata table.
fn copy_meta(m: &StrMap<toml::Value>) -> (r: StrMap<toml::Value>)
    ensures
        r@ == m@,
{
    let mut r: StrMap<toml::Value> = StrMap::new();
    let n = m.len();
    let ghost keys = m.key_seq();
    let mut j: usize = 0;
    while j < n
        invariant
            n == keys.len(),
            keys == m.key_seq(),
            keys.to_set() == m@.dom(),
            j <= n,
            r@ == m@.restrict(keys.take(j as int).to_set()),
        decreases n - j,
    {
        let k = m.key_at(j).clone();
        let v = clone_toml_value(m.value_at(j));
        let ghost kv = k@;
        r.insert(k, v);
        proof {
            assert(keys.take(j + 1) =~= keys.take(j as int).push(kv));
            keys.take(j as int).lemma_push_to_set_commute(kv);
            assert(r@ =~= m@.restrict(keys.take(j + 1).to_set()));
        }
        j = j + 1;
    }
    assert(keys.take(n as int) =~= keys);
    assert(r@ =~= m@);
    r
}

/// Where the command `name` is (see `tool_path`).
fn find_tool_path(bins: &Vec<Binary>, name: &str) -> (p: String)
    ensures
        p@ == tool_path(bins@, name@),
{
    let nc = chars_of(name);
    let mut i: usize = 0;
    while i < bins.len()
        invariant
            i <= bins@.len(),
            nc@ == name@,
            first_binary_ending(bins@, name@, 0) == first_binary_ending(bins@, name@, i as int),
        decreases bins.len() - i,
    {
        let pc = chars_of(bins[i].path.as_str());
        if chars_ends_with(&pc, &nc) {
            let mut p = String::new();
            p.push('/');
            let rest = trim_start_slashes(bins[i].path.as_str());
            push_str(&mut p, rest.as_str());
            assert(p@ =~= seq!['/'] + trim_leading_slashes(bins@[i as int].path@));
            return p;
        }
        i = i + 1;
    }
    let mut p = String::new();
    push_str(&mut p, "/usr/bin/");
    push_str(&mut p, name);
    p
}

/// The context for the given add-ins: one tool per effect of each
/// manifest, in order; version "1"; the request socket and file.
pub fn build(addins: &[(&str, &Manifest)]) -> (ctx: AgentContext)
    ensures
        ctx.version@ == "1"@,
        ctx.request_tools.ttrpc_socket@ == "unix:///run/aether/agent.sock"@,
        ctx.request_tools.request_file@ == "/run/aether/requests/tool_request.json"@,
        ctx.tools@.len() == effect_sources(addins@).len(),
        forall|i: int|
            0 <= i < ctx.tools@.len() ==> tool_of(
                #[trigger] ctx.tools@[i],
                effect_sources(addins@)[i].0,
                effect_sources(addins@)[i].1,
                effect_sources(addins@)[i].2,
            ),
{
    let mut tools: Vec<Tool> = Vec::new();
    let mut a: usize = 0;
    while a < addins.len()
        invariant
            a <= addins@.len(),
            tools@.len() == effect_sources(addins@.take(a as int)).len(),
            forall|i: int|
                0 <= i < tools@.len() ==> tool_of(
                    #[trigger] tools@[i],
                    effect_sources(addins@.take(a as int))[i].0,
                    effect_sources(addins@.take(a as int))[i].1,
                    effect_sources(addins@.take(a as int))[i].2,
                ),
        decreases addins.len() - a,
    {
        let (addin_id, manifest) = addins[a];
        let ghost done = effect_sources(addins@.take(a as int));
        let ghost added = manifest.effects@.map_values(|e: Effect| (addin_id@, *manifest, e));
        assert(addins@.take(a + 1).drop_last() =~= addins@.take(a as int));
        assert(effect_sources(addins@.take(a + 1)) == done + added);
        let mut k: usize = 0;
        while k < manifest.effects.len()
            invariant
                k <= manifest.effects@.len(),
                added == manifest.effects@.map_values(|e: Effect| (addin_id@, *manifest, e)),
                tools@.len() == done.len() + k,
                forall|i: int|
                    0 <= i < tools@.len() ==> tool_of(
                        #[trigger] tools@[i],
                        (done + added)[i].0,
                        (done + added)[i].1,
                        (done + added)[i].2,
                    ),
            decreases manifest.effects.len() - k,
        {
            let effect = &manifest.effects[k];
            let path = find_tool_path(&manifest.binaries, effect.binary_name.as_str());
            let tool = Tool {
                command: effect.binary_name.clone(),
                path,
                addin: addin_id.to_owned(),
                version: manifest.package.version.clone(),
                meta: copy_meta(&effect.meta),
            };
            tools.push(tool);
            assert((done + added)[done.len() + k] == (addin_id@, *manifest, manifest.effects@[k as int]));
            k = k + 1;
        }
        a = a + 1;
    }
    assert(addins@.take(addins@.len() as int) =~= addins@);
    AgentContext {
        version: "1",
        request_tools: RequestTools {
            ttrpc_socket: "unix:///run/aether/agent.sock",
            request_file: "/run/aether/requests/tool_request.json",
        },
        tools,
    }
}

/// The first binary whose path ends with `name` from position `i` on is
/// one that does, and no binary between `i` and it does; if none is found,
/// none from `i` on ends with `name`.
proof fn lemma_first_binary_ending(bins: Seq<Binary>, name: Seq<char>, i: int)
    requires
        0 <= i,
    ensures
        match first_binary_ending(bins, name, i) {
            Some(j) => {
                &&& i <= j < bins.len()
                &&& bins[j].path@.len() >= name.len()
                &&& bins[j].path@.skip(bins[j].path@.len() - name.len()) == name
                &&& forall|k: int|
                    i <= k < j ==> !(#[trigger] bins[k].path@.len() >= name.len() && bins[k].path@.skip(
                        bins[k].path@.len() - name.len(),
                    ) == name)
            },
            None => forall|k: int|
                i <= k < bins.len() ==> !(#[trigger] bins[k].path@.len() >= name.len() && bins[k].path@.skip(
                    bins[k].path@.len() - name.len(),
                ) == name),
        },
    decreases bins.len() - i,
{
    if i < bins.len() && !is_suffix(name, bins[i].path@) {
        lemma_first_binary_ending(bins, name, i + 1);
    }
}

/// A tool's path comes from the first binary whose path ends with the
/// command name: `/` and that path less its leading slashes. A binary whose
/// path does not end with the name is never chosen; only when no binary's
/// path ends with it is the path `/usr/bin/<name>`.
pub proof fn lemma_tool_path_is_first_ending_binary(bins: Seq<Binary>, name: Seq<char>, j: int)
    requires
        0 <= j < bins.len(),
        bins[j].path@.len() >= name.len(),
        bins[j].path@.skip(bins[j].path@.len() - name.len()) == name,
        forall|k: int|
            0 <= k < j ==> !(#[trigger] bins[k].path@.len() >= name.len() && bins[k].path@.skip(
                bins[k].path@.len() - name.len(),
            ) == name),
    ensures
        tool_path(bins, name) == seq!['/'] + trim_leading_slashes(bins[j].path@),
{
    lemma_first_binary_ending(bins, name, 0);
    match first_binary_ending(bins, name, 0) {
        Some(f) => {
            if f < j {
            } else if f > j {
                assert(!(bins[j].path@.len() >= name.len() && bins[j].path@.skip(bins[j].path@.len() - name.len())
                    == name));
            }
        },
        None => {
            assert(!(bins[j].path@.len() >= name.len() && bins[j].path@.skip(bins[j].path@.len() - name.len())
                == name));
        },
    }
}

/// When no binary's path ends with the command name, the tool is at
/// `/usr/bin/<name>`.
pub proof fn lemma_tool_path_default(bins: Seq<Binary>, name: Seq<char>)
    requires
        forall|k: int|
            0 <= k < bins.len() ==> !(#[trigger] bins[k].path@.len() >= name.len() && bins[k].path@.skip(
                bins[k].path@.len() - name.len(),
            ) == name),
    ensures
        tool_path(bins, name) == "/usr/bin/"@ + name,
{
    lemma_first_binary_ending(bins, name, 0);
    if let Some(f) = first_binary_ending(bins, name, 0) {
        assert(!(bins[f].path@.len() >= name.len() && bins[f].path@.skip(bins[f].path@.len() - name.len()) == name));
    }
}

} // verus!
