//! Add-in manifests. Aether reads a few fields (binary names, shim
//! libraries, env, binaries, proxy rules); everything else an add-in says
//! is freeform metadata, carried through untouched as TOML values.
//! Parsing the TOML text into these types is the caller's.

use vstd::prelude::*;
use crate::strmap::StrMap;

verus! {

#[verifier::external_type_specification]
#[verifier::external_body]
pub struct ExTomlValue(toml::Value);

/// `<toml::Value as Clone>::clone`. Claimed: the copy is the same value.
#[verifier::external_body]
pub(crate) fn clone_toml_value(v: &toml::Value) -> (r: toml::Value)
    ensures
        r == *v,
{
    v.clone()
}

/// A parsed add-in manifest.
#[derive(Debug, Clone)]
pub struct Manifest {
    pub package: Package,
    pub effects: Vec<Effect>,
    pub binaries: Vec<Binary>,
    pub proxy_rules: Option<ProxyRules>,
}

/// The package an add-in provides.
#[derive(Debug, Clone)]
pub struct Package {
    pub name: String,
    pub version: String,
    /// Everything else the add-in says about itself.
    pub extra: StrMap<toml::Value>,
}

/// An effect: the command that triggers it, the library preloaded for it,
/// extra environment, and freeform metadata passed through.
#[derive(Debug, Clone)]
pub struct Effect {
    pub binary_name: String,
    pub shim_library: String,
    pub env: StrMap<String>,
    pub meta: StrMap<toml::Value>,
}

/// A file of the package.
#[derive(Debug, Clone)]
pub struct Binary {
    pub path: String,
}

/// The credential routing rules of a package.
#[derive(Debug, Clone)]
pub struct ProxyRules {
    pub rules: Vec<ProxyRule>,
}

/// A credential routing rule: hostname glob, credential key, optional target.
#[derive(Debug, Clone)]
pub struct ProxyRule {
    pub match_pattern: String,
    pub credential_key: String,
    pub target_address: String,
}

} // verus!
