//! `.dxp` plugin packages and the loader that installs them, checking
//! their structure and, when required, their signature.
use vstd::prelude::*;
use crate::host_types::PackageAsset;
use crate::lifecycle::HostError;
use crate::plugin_manifest::PluginManifest;
use crate::signature::{bad_length_message, key_usable, SignatureVerifier, SIGNATURE_LEN};
use crate::text::{push_str, str_equal};

verus! {

/// A plugin package: its manifest, optional signature and WebAssembly
/// module, and its assets.
#[derive(Debug, Clone)]
pub struct DxpPackage {
    pub manifest: PluginManifest,
    pub signature: Option<Vec<u8>>,
    pub wasm_bytes: Option<Vec<u8>>,
    pub assets: Vec<PackageAsset>,
}

/// `e` is a plugin error of `id` with message `msg`.
pub open spec fn plugin_error_is(e: HostError, id: Seq<char>, msg: Seq<char>) -> bool {
    match e {
        HostError::Plugin { plugin_id, message } => plugin_id@ == id && message@ == msg,
        _ => false,
    }
}

/// The package declares a WebAssembly plugin.
pub open spec fn declares_wasm(p: DxpPackage) -> bool {
    p.manifest.plugin_type@ == "wasm"@
}

/// What checking a signature of `sig_len` bytes against `keys` gives: an
/// error message, or whether a trusted key accepted it.
pub open spec fn signature_verdict(keys: Seq<Seq<u8>>, sig_len: nat) -> Result<bool, Seq<char>> {
    if keys.len() == 0 {
        Err("no trusted keys configured"@)
    } else if sig_len != SIGNATURE_LEN {
        Err(bad_length_message(sig_len))
    } else {
        Ok(exists|k: int| 0 <= k < keys.len() && key_usable(#[trigger] keys[k]))
    }
}

impl DxpPackage {
    /// A package of `manifest` with no signature, module or assets.
    pub fn from_parsed_manifest(manifest: PluginManifest) -> (p: Self)
        ensures
            p.manifest == manifest,
            p.signature is None,
            p.wasm_bytes is None,
            p.assets@.len() == 0,
    {
        DxpPackage { manifest, signature: None, wasm_bytes: None, assets: Vec::new() }
    }

    /// The plugin id, from the manifest.
    pub fn plugin_id(&self) -> (id: String)
        ensures
            id@ == self.manifest.id@,
    {
        self.manifest.id.clone()
    }

    /// Whether this is a WebAssembly plugin.
    pub fn is_wasm(&self) -> (b: bool)
        ensures
            b == declares_wasm(*self),
    {
        proof {
            reveal_strlit("wasm");
        }
        str_equal(self.manifest.plugin_type.as_str(), "wasm")
    }

    /// Whether the package carries a signature.
    pub fn is_signed(&self) -> (b: bool)
        ensures
            b == self.signature is Some,
    {
        self.signature.is_some()
    }

    /// Sets the package signature.
    pub fn set_signature(&mut self, signature: Vec<u8>)
        ensures
            *final(self) == (DxpPackage { signature: Some(signature), ..*old(self) }),
    {
        self.signature = Some(signature);
    }

    /// Checks the package structure: a WebAssembly plugin must carry its
    /// module.
    pub fn validate(&self) -> (r: Result<(), HostError>)
        ensures
            declares_wasm(*self) && self.wasm_bytes is None ==> (r matches Err(e)
                && plugin_error_is(e, self.manifest.id@, "WASM plugin package missing wasm module"@)),
            !(declares_wasm(*self) && self.wasm_bytes is None) ==> r is Ok,
    {
        if self.is_wasm() && self.wasm_bytes.is_none() {
            return Err(HostError::Plugin {
                plugin_id: self.manifest.id.clone(),
                message: "WASM plugin package missing wasm module".to_string(),
            });
        }
        Ok(())
    }
}

/// The installed package with plugin id `id`, if any.
pub open spec fn package_with_id(ps: Seq<DxpPackage>, id: Seq<char>) -> Option<DxpPackage> {
    if exists|k: int| 0 <= k < ps.len() && (#[trigger] ps[k]).manifest.id@ == id {
        Some(ps[choose|k: int| 0 <= k < ps.len() && (#[trigger] ps[k]).manifest.id@ == id])
    } else {
        None
    }
}

/// No plugin id occurs twice.
pub open spec fn package_ids_distinct(ps: Seq<DxpPackage>) -> bool {
    forall|i: int, j: int| 0 <= i < ps.len() && 0 <= j < ps.len() && i != j ==> (#[trigger] ps[i]).manifest.id@ != (#[trigger] ps[j]).manifest.id@
}

/// Installed plugin packages, one per plugin id.
pub struct PluginLoader {
    installed: Vec<DxpPackage>,
    verifier: SignatureVerifier,
    require_signature: bool,
}

impl PluginLoader {
    /// The installed packages, in the order installed.
    pub closed spec fn packages(self) -> Seq<DxpPackage> {
        self.installed@
    }

    /// The trusted keys.
    pub closed spec fn trusted_keys(self) -> Seq<Seq<u8>> {
        self.verifier@
    }

    /// Whether packages must be signed.
    pub closed spec fn requires_signature(self) -> bool {
        self.require_signature
    }

    /// One package per plugin id.
    pub closed spec fn wf(self) -> bool {
        package_ids_distinct(self.installed@)
    }

    /// A loader with nothing installed and no trusted key.
    pub fn new(require_signature: bool) -> (l: Self)
        ensures
            l.wf(),
            l.packages().len() == 0,
            l.trusted_keys().len() == 0,
            l.requires_signature() == require_signature,
    {
        PluginLoader { installed: Vec::new(), verifier: SignatureVerifier::new(), require_signature }
    }

    /// Trusts a publisher's public key.
    pub fn add_trusted_key(&mut self, key: Vec<u8>)
        ensures
            final(self).wf() == old(self).wf(),
            final(self).packages() == old(self).packages(),
            final(self).trusted_keys() == old(self).trusted_keys().push(key@),
            final(self).requires_signature() == old(self).requires_signature(),
    {
        self.verifier.add_trusted_key(key);
    }

    fn find(&self, id: &str) -> (r: Option<usize>)
        requires
            self.wf(),
        ensures
            r is None <==> package_with_id(self.packages(), id@) is None,
            r matches Some(i) ==> i < self.packages().len() && package_with_id(self.packages(), id@) == Some(self.packages()[i as int])
                && self.packages()[i as int].manifest.id@ == id@,
    {
        let mut i: usize = 0;
        while i < self.installed.len()
            invariant
                self.wf(),
                i <= self.installed@.len(),
                forall|k: int| 0 <= k < i ==> (#[trigger] self.installed@[k]).manifest.id@ != id@,
            decreases self.installed.len() - i,
        {
            if str_equal(self.installed[i].manifest.id.as_str(), id) {
                proof {
                    let ps = self.installed@;
                    let c = choose|k: int| 0 <= k < ps.len() && (#[trigger] ps[k]).manifest.id@ == id@;
                    if c != i {
                        assert(ps[c].manifest.id@ != ps[i as int].manifest.id@);
                    }
                }
                return Some(i);
            }
            i = i + 1;
        }
        None
    }

    /// Installs a package whose manifest serialises to `manifest_bytes`.
    /// Refused when the plugin is already installed, when the package
    /// structure is invalid, and, when signatures are required, when it is
    /// unsigned or its signature does not pass over the manifest bytes.
    pub fn install(&mut self, package: DxpPackage, manifest_bytes: &[u8]) -> (r: Result<String, HostError>)
        requires
            old(self).wf(),
        ensures
            final(self).wf(),
            final(self).trusted_keys() == old(self).trusted_keys(),
            final(self).requires_signature() == old(self).requires_signature(),
            r is Err ==> final(self).packages() == old(self).packages(),
            r matches Ok(id) ==> id@ == package.manifest.id@ && final(self).packages() == old(self).packages().push(package),
            package_with_id(old(self).packages(), package.manifest.id@) is Some ==> (r matches Err(e)
                && plugin_error_is(e, package.manifest.id@, "plugin already installed"@)),
            package_with_id(old(self).packages(), package.manifest.id@) is None ==> {
                let id = package.manifest.id@;
                if declares_wasm(package) && package.wasm_bytes is None {
                    r matches Err(e) && plugin_error_is(e, id, "WASM plugin package missing wasm module"@)
                } else if !old(self).requires_signature() {
                    r is Ok
                } else {
                    match package.signature {
                        None => r matches Err(e) && plugin_error_is(e, id, "package signature required but not provided"@),
                        Some(sig) => match signature_verdict(old(self).trusted_keys(), sig@.len()) {
                            Ok(true) => r is Ok,
                            Ok(false) => r matches Err(e) && plugin_error_is(e, id, "package signature verification failed"@),
                            Err(m) => r matches Err(e) && plugin_error_is(e, id, "signature verification error: "@ + m),
                        },
                    }
                }
            },
    {
        let plugin_id = package.plugin_id();
        if self.find(plugin_id.as_str()).is_some() {
            return Err(HostError::Plugin { plugin_id, message: "plugin already installed".to_string() });
        }
        package.validate()?;
        if self.require_signature {
            match &package.signature {
                None => {
                    return Err(HostError::Plugin {
                        plugin_id,
                        message: "package signature required but not provided".to_string(),
                    });
                },
                Some(sig) => {
                    match self.verifier.verify(manifest_bytes, sig.as_slice()) {
                        Ok(true) => {},
                        Ok(false) => {
                            return Err(HostError::Plugin {
                                plugin_id,
                                message: "package signature verification failed".to_string(),
                            });
                        },
                        Err(e) => {
                            let mut message = String::new();
                            push_str(&mut message, "signature verification error: ");
                            match &e {
                                HostError::Plugin { message: m, .. } => push_str(&mut message, m.as_str()),
                                HostError::PluginNotFound(m) => push_str(&mut message, m.as_str()),
                                HostError::PluginActivation { reason, .. } => push_str(&mut message, reason.as_str()),
                                HostError::Config(m) | HostError::AuthFailed(m) | HostError::SessionNotFound(m) | HostError::Unauthorized(m) => {
                                    push_str(&mut message, m.as_str())
                                },
                            }
                            return Err(HostError::Plugin { plugin_id, message });
                        },
                    }
                },
            }
        }
        let ghost before = self.installed@;
        proof {
            assert forall|k: int| 0 <= k < before.len() implies (#[trigger] before[k]).manifest.id@ != package.manifest.id@ by {}
        }
        self.installed.push(package);
        proof {
            let ps = self.installed@;
            assert forall|i: int, j: int| 0 <= i < ps.len() && 0 <= j < ps.len() && i != j implies (#[trigger] ps[i]).manifest.id@ != (#[trigger] ps[j]).manifest.id@ by {
                if i < before.len() {
                    assert(ps[i] == before[i]);
                }
                if j < before.len() {
                    assert(ps[j] == before[j]);
                }
            }
        }
        Ok(plugin_id)
    }

    /// Removes the package of plugin `id`; not found when none is installed.
    pub fn uninstall(&mut self, id: &str) -> (r: Result<(), HostError>)
        requires
            old(self).wf(),
        ensures
            final(self).wf(),
            final(self).trusted_keys() == old(self).trusted_keys(),
            final(self).requires_signature() == old(self).requires_signature(),
            package_with_id(old(self).packages(), id@) is None ==> (r matches Err(HostError::PluginNotFound(m)) && m@ == id@
                && final(self).packages() == old(self).packages()),
            package_with_id(old(self).packages(), id@) is Some ==> (r is Ok && exists|k: int|
                0 <= k < old(self).packages().len() && (#[trigger] old(self).packages()[k]).manifest.id@ == id@
                && final(self).packages() == old(self).packages().remove(k)),
            package_with_id(final(self).packages(), id@) is None,
    {
        match self.find(id) {
            None => Err(HostError::PluginNotFound(id.to_string())),
            Some(i) => {
                let ghost before = self.installed@;
                self.installed.remove(i);
                proof {
                    let ps = self.installed@;
                    assert(ps =~= before.remove(i as int));
                    assert forall|a: int, b: int| 0 <= a < ps.len() && 0 <= b < ps.len() && a != b implies (#[trigger] ps[a]).manifest.id@ != (#[trigger] ps[b]).manifest.id@ by {
                        let fa = if a < i { a } else { a + 1 };
                        let fb = if b < i { b } else { b + 1 };
                        assert(ps[a] == before[fa] && ps[b] == before[fb]);
                    }
                    assert forall|k: int| 0 <= k < ps.len() implies (#[trigger] ps[k]).manifest.id@ != id@ by {
                        let fk = if k < i { k } else { k + 1 };
                        assert(ps[k] == before[fk]);
                    }
                }
                Ok(())
            },
        }
    }

    /// The installed package of plugin `id`, if any.
    pub fn get_package(&self, id: &str) -> (r: Option<&DxpPackage>)
        requires
            self.wf(),
        ensures
            match package_with_id(self.packages(), id@) {
                Some(q) => r matches Some(p) && *p == q,
                None => r is None,
            },
    {
        match self.find(id) {
            Some(i) => Some(&self.installed[i]),
            None => None,
        }
    }

    /// The installed packages, in the order installed.
    pub fn list_installed(&self) -> (v: Vec<&DxpPackage>)
        ensures
            v@.len() == self.packages().len(),
            forall|k: int| 0 <= k < v@.len() ==> *(#[trigger] v@[k]) == self.packages()[k],
    {
        let mut v: Vec<&DxpPackage> = Vec::new();
        let mut i: usize = 0;
        while i < self.installed.len()
            invariant
                i <= self.installed@.len(),
                v@.len() == i,
                forall|k: int| 0 <= k < i ==> *(#[trigger] v@[k]) == self.installed@[k],
            decreases self.installed.len() - i,
        {
            v.push(&self.installed[i]);
            i = i + 1;
        }
        v
    }

    /// Number of installed packages.
    pub fn installed_count(&self) -> (n: usize)
        ensures
            n == self.packages().len(),
    {
        self.installed.len()
    }
}

} // verus!
