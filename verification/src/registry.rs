//! The registry of add-in packages, keyed by a deterministic id made from
//! the package's name and version. Reading the manifest text, parsing it
//! and writing it out for the shim-loader are the caller's; `manifest_path`
//! says where it goes.

use vstd::prelude::*;
use vstd::utf8::encode_utf8;
use crate::manifest::Manifest;
use crate::paths::{joined, path_join};
use crate::strmap::StrMap;
use crate::text::push_str;

verus! {

/// The SHA-256 digest of some bytes.
pub uninterp spec fn sha256_digest(data: Seq<u8>) -> Seq<u8>;

/// `sha2::Sha256::digest`: the SHA-256 digest of `data`. Claimed: the
/// result is `sha256_digest` of the bytes, and it is 32 bytes long.
#[verifier::external_body]
fn sha256(data: &[u8]) -> (r: Vec<u8>)
    ensures
        r@ == sha256_digest(data@),
        r@.len() == 32,
{
    <sha2::Sha256 as sha2::Digest>::digest(data).to_vec()
}

/// The lowercase hexadecimal digit of `n` (below 16).
pub open spec fn hex_digit(n: nat) -> char {
    if n < 10 {
        crate::text::digit_char(n)
    } else if n == 10 { 'a' } else if n == 11 { 'b' } else if n == 12 { 'c' }
    else if n == 13 { 'd' } else if n == 14 { 'e' } else { 'f' }
}

/// Bytes in lowercase hexadecimal, two digits a byte, high digit first.
pub open spec fn hex_lower(bytes: Seq<u8>) -> Seq<char>
    decreases bytes.len(),
{
    if bytes.len() == 0 {
        Seq::empty()
    } else {
        hex_lower(bytes.drop_last()) + seq![
            hex_digit((bytes.last() / 16) as nat),
            hex_digit((bytes.last() % 16) as nat),
        ]
    }
}

/// `hex::encode`: the bytes in lowercase hexadecimal, two digits a byte,
/// high digit first (as its documentation states). Claimed: the result is
/// `hex_lower` of the bytes.
#[verifier::external_body]
fn hex_encode(bytes: &[u8]) -> (s: String)
    ensures
        s@ == hex_lower(bytes@),
{
    hex::encode(bytes)
}

/// A lowercase hexadecimal digit.
pub open spec fn is_lower_hex_digit(c: char) -> bool {
    ('0' <= c && c <= '9') || ('a' <= c && c <= 'f')
}

proof fn lemma_hex_digit_is_hex(n: nat)
    requires
        n < 16,
    ensures
        is_lower_hex_digit(hex_digit(n)),
{
}

/// Hexadecimal takes two digits a byte, each a lowercase hex digit.
proof fn lemma_hex_lower_shape(bytes: Seq<u8>)
    ensures
        hex_lower(bytes).len() == 2 * bytes.len(),
        forall|i: int| 0 <= i < hex_lower(bytes).len() ==> is_lower_hex_digit(#[trigger] hex_lower(bytes)[i]),
    decreases bytes.len(),
{
    if bytes.len() > 0 {
        let p = bytes.drop_last();
        lemma_hex_lower_shape(p);
        let hi = (bytes.last() / 16) as nat;
        let lo = (bytes.last() % 16) as nat;
        lemma_hex_digit_is_hex(hi);
        lemma_hex_digit_is_hex(lo);
        let h = hex_lower(bytes);
        assert forall|i: int| 0 <= i < h.len() implies is_lower_hex_digit(#[trigger] h[i]) by {
            if i < hex_lower(p).len() {
                assert(h[i] == hex_lower(p)[i]);
            } else if i == hex_lower(p).len() {
                assert(h[i] == hex_digit(hi));
            } else {
                assert(h[i] == hex_digit(lo));
            }
        }
    }
}

/// The id of a package: its name, `-`, and the hexadecimal of the first
/// 8 bytes of the SHA-256 of `name:version` (as UTF-8).
pub open spec fn addin_id(name: Seq<char>, version: Seq<char>) -> Seq<char> {
    name + "-"@ + hex_lower(
        sha256_digest(encode_utf8(name) + seq![58u8] + encode_utf8(version)).take(8),
    )
}

/// The deterministic id of a package from its name and version.
pub fn generate_id(name: &str, version: &str) -> (id: String)
    ensures
        id@ == addin_id(name@, version@),
        id@.len() == name@.len() + 17,
        crate::text::is_prefix(name@ + "-"@, id@),
        forall|i: int| name@.len() + 1 <= i < id@.len() ==> is_lower_hex_digit(#[trigger] id@[i]),
{
    let mut data: Vec<u8> = Vec::new();
    let nb = name.as_bytes();
    let vb = version.as_bytes();
    let mut i: usize = 0;
    while i < nb.len()
        invariant
            i <= nb@.len(),
            data@ == nb@.take(i as int),
        decreases nb.len() - i,
    {
        data.push(nb[i]);
        assert(nb@.take(i + 1) =~= nb@.take(i as int).push(nb@[i as int]));
        i = i + 1;
    }
    data.push(58u8);
    let ghost head = data@;
    let mut j: usize = 0;
    while j < vb.len()
        invariant
            j <= vb@.len(),
            data@ == head + vb@.take(j as int),
        decreases vb.len() - j,
    {
        data.push(vb[j]);
        assert(vb@.take(j + 1) =~= vb@.take(j as int).push(vb@[j as int]));
        j = j + 1;
    }
    assert(data@ =~= encode_utf8(name@) + seq![58u8] + encode_utf8(version@));
    let hash = sha256(data.as_slice());
    let mut first: Vec<u8> = Vec::new();
    let mut k: usize = 0;
    while k < 8
        invariant
            k <= 8,
            hash@.len() == 32,
            first@ == hash@.take(k as int),
        decreases 8 - k,
    {
        first.push(hash[k]);
        assert(hash@.take(k + 1) =~= hash@.take(k as int).push(hash@[k as int]));
        k = k + 1;
    }
    let hex = hex_encode(first.as_slice());
    let mut id = String::new();
    push_str(&mut id, name);
    push_str(&mut id, "-");
    push_str(&mut id, hex.as_str());
    assert(id@ =~= addin_id(name@, version@));
    proof {
        reveal_strlit("-");
        assert(first@.len() == 8);
        lemma_hex_lower_shape(first@);
        lemma_id_starts_with_name(name@, version@);
        let nl = name@.len() + 1;
        assert(id@.len() == name@.len() + 17);
        assert forall|i: int| nl <= i < id@.len() implies is_lower_hex_digit(#[trigger] id@[i]) by {
            assert(id@[i] == hex_lower(first@)[i - nl]);
        }
    }
    id
}

/// A registered add-in: its id, package name and version, content address,
/// parsed manifest and the manifest's text.
#[derive(Debug, Clone)]
pub struct RegisteredAddIn {
    pub id: String,
    pub name: String,
    pub version: String,
    pub content_address: String,
    pub manifest: Manifest,
    pub raw_toml: String,
}

/// The add-ins registered so far.
pub struct AddInRegistry {
    addins: StrMap<RegisteredAddIn>,
    manifest_dir: String,
}

impl AddInRegistry {
    /// The registered add-ins, by id.
    pub closed spec fn addins(&self) -> Map<Seq<char>, RegisteredAddIn> {
        self.addins@
    }

    /// Where manifests are written for the shim-loader.
    pub closed spec fn manifest_dir(&self) -> Seq<char> {
        self.manifest_dir@
    }

    /// An empty registry writing manifests to `manifest_dir`.
    pub fn new(manifest_dir: &str) -> (r: AddInRegistry)
        ensures
            r.addins() == Map::<Seq<char>, RegisteredAddIn>::empty(),
            r.manifest_dir() == manifest_dir@,
    {
        AddInRegistry { addins: StrMap::new(), manifest_dir: manifest_dir.to_owned() }
    }

    /// The directory that the manifests are written to.
    pub fn manifest_dir_path(&self) -> (r: &str)
        ensures
            r@ == self.manifest_dir(),
    {
        self.manifest_dir.as_str()
    }

    /// Where the manifest of add-in `addin_id` is written: `<id>.toml` in
    /// the manifest directory.
    pub fn manifest_path(&self, addin_id: &str) -> (p: String)
        ensures
            p@ == joined(self.manifest_dir(), addin_id@ + ".toml"@),
    {
        let mut file = String::new();
        push_str(&mut file, addin_id);
        push_str(&mut file, ".toml");
        path_join(self.manifest_dir.as_str(), file.as_str())
    }

    /// Registers a package with its parsed manifest (replacing an earlier
    /// registration of the same name and version); gives back its id.
    pub fn register(
        &mut self,
        name: &str,
        version: &str,
        manifest: Manifest,
        raw_toml: &str,
        content_address: &str,
    ) -> (id: String)
        ensures
            id@ == addin_id(name@, version@),
            final(self).manifest_dir() == old(self).manifest_dir(),
            final(self).addins().contains_key(id@),
            final(self).addins()[id@].id@ == id@,
            final(self).addins()[id@].name@ == name@,
            final(self).addins()[id@].version@ == version@,
            final(self).addins()[id@].content_address@ == content_address@,
            final(self).addins()[id@].manifest == manifest,
            final(self).addins()[id@].raw_toml@ == raw_toml@,
            final(self).addins().remove(id@) == old(self).addins().remove(id@),
    {
        let id = generate_id(name, version);
        let entry = RegisteredAddIn {
            id: id.clone(),
            name: name.to_owned(),
            version: version.to_owned(),
            content_address: content_address.to_owned(),
            manifest,
            raw_toml: raw_toml.to_owned(),
        };
        self.addins.insert(id.clone(), entry);
        assert(self.addins().remove(id@) =~= old(self).addins().remove(id@));
        id
    }

    /// The add-in registered under `addin_id`.
    pub fn get(&self, addin_id: &str) -> (r: Option<&RegisteredAddIn>)
        ensures
            match r {
                Some(a) => self.addins().contains_key(addin_id@) && *a == self.addins()[addin_id@],
                None => !self.addins().contains_key(addin_id@),
            },
    {
        self.addins.get(addin_id)
    }

    /// Every registered add-in, each once.
    pub fn list(&self) -> (r: Vec<&RegisteredAddIn>)
        ensures
            r@.len() == self.addins().dom().len(),
            forall|i: int| 0 <= i < r@.len() ==> #[trigger] self.addins().values().contains(*r@[i]),
            forall|k: Seq<char>| #[trigger] self.addins().contains_key(k) ==> exists|i: int|
                0 <= i < r@.len() && *r@[i] == self.addins()[k],
    {
        let n = self.addins.len();
        let ghost keys = self.addins.key_seq();
        let mut r: Vec<&RegisteredAddIn> = Vec::new();
        let mut i: usize = 0;
        while i < n
            invariant
                n == keys.len(),
                keys == self.addins.key_seq(),
                keys.to_set() == self.addins@.dom(),
                keys.no_duplicates(),
                i <= n,
                r@.len() == i,
                forall|j: int| 0 <= j < i ==> self.addins@.contains_key(keys[j]) && *(#[trigger] r@[j]) == self.addins@[keys[j]],
            decreases n - i,
        {
            let a = self.addins.value_at(i);
            r.push(a);
            i = i + 1;
        }
        proof {
            keys.unique_seq_to_set();
            assert forall|j: int| 0 <= j < r@.len() implies #[trigger] self.addins().values().contains(*r@[j]) by {
                assert(self.addins().contains_key(keys[j]));
                assert(self.addins()[keys[j]] == *r@[j]);
            }
            assert forall|k: Seq<char>| #[trigger] self.addins@.contains_key(k) implies exists|j: int|
                0 <= j < r@.len() && *r@[j] == self.addins@[k] by {
                assert(keys.contains(k));
                let j = choose|j: int| 0 <= j < keys.len() && keys[j] == k;
                assert(*r@[j] == self.addins@[k]);
            }
        }
        r
    }

    /// Removes an add-in, giving it back if it was registered.
    pub fn remove(&mut self, addin_id: &str) -> (r: Option<RegisteredAddIn>)
        ensures
            final(self).manifest_dir() == old(self).manifest_dir(),
            final(self).addins() == old(self).addins().remove(addin_id@),
            match r {
                Some(a) => old(self).addins().contains_key(addin_id@) && a == old(self).addins()[addin_id@],
                None => !old(self).addins().contains_key(addin_id@),
            },
    {
        self.addins.remove(addin_id)
    }
}


/// An add-in's id starts with its package name and a dash.
pub proof fn lemma_id_starts_with_name(name: Seq<char>, version: Seq<char>)
    ensures
        crate::text::is_prefix(name + "-"@, addin_id(name, version)),
{
    let id = addin_id(name, version);
    assert(id.take((name + "-"@).len() as int) =~= name + "-"@);
}

} // verus!
