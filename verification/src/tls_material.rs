//! The certificates and keys that a connection is set up with.

use vstd::prelude::*;
use vstd::string::*;
use zeroize::{Zeroize, Zeroizing};
use crate::collections::NameMap;
use crate::error;
use crate::error::{ErrorKind, ErrorModel, EvaError};
use crate::http_reply;
use crate::http_session;
use crate::http_session::bool_str;
use crate::text;
use crate::text::{chars_of, decimal_usize, starts_with};

verus! {

/// How many bytes one piece of material may have.
pub const MAX_TLS_MATERIAL_BYTES: usize = 1_048_576;

// ---------------------------------------------------------------------------
// Secrets
// ---------------------------------------------------------------------------

/// Bytes in a `Zeroizing` of `zeroize`, which are overwritten when they are
/// dropped.
#[verifier::external_body]
pub struct SecretBytes {
    bytes: Zeroizing<Vec<u8>>,
}

/// The bytes that a secret holds.
pub uninterp spec fn secret_bytes(secret: SecretBytes) -> Seq<u8>;

/// `Zeroizing::new` of `zeroize` takes the bytes in as they are. That they are
/// overwritten when the secret is dropped is not stated.
#[verifier::external_body]
fn seal(bytes: Vec<u8>) -> (secret: SecretBytes)
    ensures
        secret_bytes(secret) == bytes@,
{
    SecretBytes { bytes: Zeroizing::new(bytes) }
}

/// `Deref` of `Zeroizing` in `zeroize` gives the bytes that the secret holds.
#[verifier::external_body]
pub(crate) fn unseal(secret: &SecretBytes) -> (bytes: &[u8])
    ensures
        bytes@ == secret_bytes(*secret),
{
    secret.bytes.as_slice()
}

/// `Zeroize::zeroize` of `zeroize` overwrites the bytes of a vector with zeros
/// and leaves it empty. That the memory was overwritten is not stated.
#[verifier::external_body]
fn wipe(bytes: &mut Vec<u8>)
    ensures
        final(bytes)@ == Seq::<u8>::empty(),
{
    bytes.zeroize();
}

// ---------------------------------------------------------------------------
// Material
// ---------------------------------------------------------------------------

pub open spec fn empty_material_model(material: Seq<char>) -> ErrorModel {
    ErrorModel::new(ErrorKind::InvalidArgument, "MCP TLS material is empty"@).code(
        "mcp_tls_material_empty"@,
    ).ctx("material"@, material)
}

pub open spec fn large_material_model(material: Seq<char>) -> ErrorModel {
    ErrorModel::new(ErrorKind::Conflict, "MCP TLS material exceeded size limit"@).code(
        "mcp_tls_material_too_large"@,
    ).ctx("material"@, material).ctx(
        "material_limit_bytes"@,
        text::decimal(MAX_TLS_MATERIAL_BYTES as nat),
    )
}

/// Why material of a given size is refused, if it is.
pub open spec fn size_refusal(size: nat, material: Seq<char>) -> Option<ErrorModel> {
    if size == 0 {
        Some(empty_material_model(material))
    } else if size > MAX_TLS_MATERIAL_BYTES {
        Some(large_material_model(material))
    } else {
        None
    }
}

/// Refuse material that is empty or too large.
pub fn validate_material_size(bytes: &[u8], material: &str) -> (outcome: Result<(), EvaError>)
    ensures
        http_reply::refused_as(outcome, size_refusal(bytes@.len(), material@)),
{
    if bytes.len() == 0 {
        return Err(
            EvaError::invalid_argument("MCP TLS material is empty").with_provider_code(
                "mcp_tls_material_empty",
            ).with_context("material", material),
        );
    }
    if bytes.len() > MAX_TLS_MATERIAL_BYTES {
        return Err(
            EvaError::conflict("MCP TLS material exceeded size limit").with_provider_code(
                "mcp_tls_material_too_large",
            ).with_context("material", material).with_context(
                "material_limit_bytes",
                decimal_usize(MAX_TLS_MATERIAL_BYTES).as_str(),
            ),
        );
    }
    Ok(())
}

/// What a connection is set up with.
#[verifier::ext_equal]
pub struct MaterialModel {
    /// The directory that trust roots in files are read from.
    pub project_root: Option<Seq<char>>,
    /// The trust roots that were handed in, by the reference that names each.
    pub indirect_trust_roots: Map<Seq<char>, Seq<u8>>,
    pub client_certificate: Option<Seq<u8>>,
    pub client_private_key: Option<Seq<u8>>,
}

/// What a connection is set up with.
pub struct McpTlsMaterial {
    project_root: Option<String>,
    indirect_trust_roots: NameMap<SecretBytes>,
    client_certificate: Option<SecretBytes>,
    client_private_key: Option<SecretBytes>,
}

/// The bytes of an optional secret.
pub open spec fn optional_secret(secret: Option<SecretBytes>) -> Option<Seq<u8>> {
    match secret {
        Some(secret) => Some(secret_bytes(secret)),
        None => None,
    }
}

impl View for McpTlsMaterial {
    type V = MaterialModel;

    closed spec fn view(&self) -> MaterialModel {
        MaterialModel {
            project_root: error::option_text(self.project_root),
            indirect_trust_roots: self.indirect_trust_roots@.map_values(
                |s: SecretBytes| secret_bytes(s),
            ),
            client_certificate: optional_secret(self.client_certificate),
            client_private_key: optional_secret(self.client_private_key),
        }
    }
}

pub open spec fn no_material() -> MaterialModel {
    MaterialModel {
        project_root: None,
        indirect_trust_roots: Map::empty(),
        client_certificate: None,
        client_private_key: None,
    }
}

/// Why a trust root is not taken in, if it is not.
pub open spec fn trust_root_refusal(material: MaterialModel, reference: Seq<char>, size: nat) -> Option<
    ErrorModel,
> {
    if !text::stands_at(reference, "pem:"@, 0) || reference.len() <= 4 {
        Some(
            ErrorModel::new(
                ErrorKind::InvalidArgument,
                "MCP indirect TLS trust material requires a pem: reference"@,
            ).code("mcp_tls_material_reference_invalid"@),
        )
    } else if size_refusal(size, "trust_root"@) is Some {
        size_refusal(size, "trust_root"@)
    } else if material.indirect_trust_roots.dom().contains(reference) {
        Some(
            ErrorModel::new(
                ErrorKind::Conflict,
                "MCP indirect TLS trust material reference is duplicated"@,
            ).code("mcp_tls_material_duplicate"@),
        )
    } else {
        None
    }
}

/// Why a client certificate and its key are not taken in, if they are not.
pub open spec fn client_auth_refusal(material: MaterialModel, certificate_size: nat, key_size: nat) -> Option<
    ErrorModel,
> {
    if material.client_certificate is Some || material.client_private_key is Some {
        Some(
            ErrorModel::new(
                ErrorKind::Conflict,
                "MCP TLS client authentication material is already configured"@,
            ).code("mcp_tls_client_auth_material_duplicate"@),
        )
    } else if size_refusal(certificate_size, "client_certificate"@) is Some {
        size_refusal(certificate_size, "client_certificate"@)
    } else {
        size_refusal(key_size, "client_private_key"@)
    }
}

/// How material is described, without any of it.
pub open spec fn material_description(material: MaterialModel) -> Seq<char> {
    "McpTlsMaterial { project_root_present: "@ + http_session::bool_text(
        material.project_root is Some,
    ) + ", indirect_trust_root_count: "@ + text::decimal(
        material.indirect_trust_roots.dom().len(),
    ) + ", client_certificate_present: "@ + http_session::bool_text(
        material.client_certificate is Some,
    ) + ", client_private_key_present: "@ + http_session::bool_text(
        material.client_private_key is Some,
    ) + " }"@
}

impl Default for McpTlsMaterial {
    fn default() -> (material: McpTlsMaterial)
        ensures
            material.wf(),
            material@ == no_material(),
    {
        McpTlsMaterial::new()
    }
}

impl McpTlsMaterial {
    pub closed spec fn wf(&self) -> bool {
        self.indirect_trust_roots.wf()
    }

    /// No material.
    pub fn new() -> (material: McpTlsMaterial)
        ensures
            material.wf(),
            material@ == no_material(),
    {
        let material = McpTlsMaterial {
            project_root: None,
            indirect_trust_roots: NameMap::new(),
            client_certificate: None,
            client_private_key: None,
        };
        assert(material@.indirect_trust_roots =~= no_material().indirect_trust_roots);
        material
    }

    /// Read trust roots in files from below the given directory.
    pub fn with_project_root(self, project_root: &str) -> (material: McpTlsMaterial)
        requires
            self.wf(),
        ensures
            material.wf(),
            material@ == (MaterialModel { project_root: Some(project_root@), ..self@ }),
    {
        McpTlsMaterial { project_root: Some(project_root.to_owned()), ..self }
    }

    /// Take in the trust root that a reference stands for. What is refused is
    /// overwritten.
    pub fn with_indirect_trust_root(self, reference: &str, bytes: Vec<u8>) -> (outcome: Result<
        McpTlsMaterial,
        EvaError,
    >)
        requires
            self.wf(),
        ensures
            match outcome {
                Ok(material) => {
                    &&& material.wf()
                    &&& trust_root_refusal(self@, reference@, bytes@.len()) is None
                    &&& material@ == (MaterialModel {
                        indirect_trust_roots: self@.indirect_trust_roots.insert(
                            reference@,
                            bytes@,
                        ),
                        ..self@
                    })
                },
                Err(error) => trust_root_refusal(self@, reference@, bytes@.len()) == Some(error@),
            },
    {
        let ghost was = self@;
        assert(was.indirect_trust_roots.dom() =~= self.indirect_trust_roots@.dom());
        let mut bytes = bytes;
        let ghost content = bytes@;
        if !starts_with(reference, "pem:") || chars_of(reference).len() <= 4 {
            wipe(&mut bytes);
            return Err(
                EvaError::invalid_argument(
                    "MCP indirect TLS trust material requires a pem: reference",
                ).with_provider_code("mcp_tls_material_reference_invalid"),
            );
        }
        match validate_material_size(bytes.as_slice(), "trust_root") {
            Ok(()) => {},
            Err(error) => {
                wipe(&mut bytes);
                return Err(error);
            },
        }
        let mut material = self;
        if material.indirect_trust_roots.contains(reference) {
            wipe(&mut bytes);
            return Err(
                EvaError::conflict(
                    "MCP indirect TLS trust material reference is duplicated",
                ).with_provider_code("mcp_tls_material_duplicate"),
            );
        }
        material.indirect_trust_roots.insert(reference.to_owned(), seal(bytes));
        assert(material@.indirect_trust_roots =~= was.indirect_trust_roots.insert(
            reference@,
            content,
        ));
        Ok(material)
    }

    /// Take in a client certificate and its key. What is refused is overwritten.
    pub fn with_client_auth(self, certificate_pem: Vec<u8>, private_key_pem: Vec<u8>) -> (outcome:
        Result<McpTlsMaterial, EvaError>)
        requires
            self.wf(),
        ensures
            match outcome {
                Ok(material) => {
                    &&& material.wf()
                    &&& client_auth_refusal(
                        self@,
                        certificate_pem@.len(),
                        private_key_pem@.len(),
                    ) is None
                    &&& material@ == (MaterialModel {
                        client_certificate: Some(certificate_pem@),
                        client_private_key: Some(private_key_pem@),
                        ..self@
                    })
                },
                Err(error) => client_auth_refusal(
                    self@,
                    certificate_pem@.len(),
                    private_key_pem@.len(),
                ) == Some(error@),
            },
    {
        let mut certificate_pem = certificate_pem;
        let mut private_key_pem = private_key_pem;
        if self.client_certificate.is_some() || self.client_private_key.is_some() {
            wipe(&mut certificate_pem);
            wipe(&mut private_key_pem);
            return Err(
                EvaError::conflict(
                    "MCP TLS client authentication material is already configured",
                ).with_provider_code("mcp_tls_client_auth_material_duplicate"),
            );
        }
        match validate_material_size(certificate_pem.as_slice(), "client_certificate") {
            Ok(()) => {},
            Err(error) => {
                wipe(&mut certificate_pem);
                wipe(&mut private_key_pem);
                return Err(error);
            },
        }
        match validate_material_size(private_key_pem.as_slice(), "client_private_key") {
            Ok(()) => {},
            Err(error) => {
                wipe(&mut certificate_pem);
                wipe(&mut private_key_pem);
                return Err(error);
            },
        }
        Ok(
            McpTlsMaterial {
                client_certificate: Some(seal(certificate_pem)),
                client_private_key: Some(seal(private_key_pem)),
                ..self
            },
        )
    }

    /// A description of the material that holds none of it.
    pub fn describe(&self) -> (text: String)
        requires
            self.wf(),
        ensures
            text@ == material_description(self@),
    {
        assert(self@.indirect_trust_roots.dom() =~= self.indirect_trust_roots@.dom());
        let mut text = String::new();
        text.append("McpTlsMaterial { project_root_present: ");
        text.append(bool_str(self.project_root.is_some()));
        text.append(", indirect_trust_root_count: ");
        text.append(decimal_usize(self.indirect_trust_roots.len()).as_str());
        text.append(", client_certificate_present: ");
        text.append(bool_str(self.client_certificate.is_some()));
        text.append(", client_private_key_present: ");
        text.append(bool_str(self.client_private_key.is_some()));
        text.append(" }");
        assert(text@ =~= material_description(self@));
        text
    }

    /// The directory that trust roots in files are read from.
    pub fn project_root(&self) -> (root: Option<&str>)
        ensures
            match root {
                Some(root) => self@.project_root == Some(root@),
                None => self@.project_root is None,
            },
    {
        match &self.project_root {
            Some(root) => Some(root.as_str()),
            None => None,
        }
    }

    /// Take out the trust root that a reference stands for.
    pub(crate) fn take_trust_root(&mut self, reference: &str) -> (root: Option<SecretBytes>)
        requires
            old(self).wf(),
        ensures
            final(self).wf(),
            match root {
                Some(root) => {
                    &&& old(self)@.indirect_trust_roots.dom().contains(reference@)
                    &&& secret_bytes(root) == old(self)@.indirect_trust_roots[reference@]
                    &&& final(self)@ == (MaterialModel {
                        indirect_trust_roots: old(self)@.indirect_trust_roots.remove(reference@),
                        ..old(self)@
                    })
                },
                None => !old(self)@.indirect_trust_roots.dom().contains(reference@) && final(self)@
                    == old(self)@,
            },
    {
        let root = self.indirect_trust_roots.remove(reference);
        if root.is_some() {
            assert(self@.indirect_trust_roots =~= old(self)@.indirect_trust_roots.remove(
                reference@,
            ));
        }
        root
    }

    /// Whether trust roots are left that were not taken out.
    pub(crate) fn has_trust_roots(&self) -> (left: bool)
        requires
            self.wf(),
        ensures
            left == (self@.indirect_trust_roots.dom().len() > 0),
            self@.indirect_trust_roots.dom().finite(),
    {
        assert(self@.indirect_trust_roots.dom() =~= self.indirect_trust_roots@.dom());
        self.indirect_trust_roots.len() > 0
    }

    /// The client certificate.
    pub(crate) fn certificate(&self) -> (certificate: Option<&SecretBytes>)
        ensures
            match certificate {
                Some(secret) => self@.client_certificate == Some(secret_bytes(*secret)),
                None => self@.client_certificate is None,
            },
    {
        self.client_certificate.as_ref()
    }

    /// The key of the client certificate.
    pub(crate) fn private_key(&self) -> (key: Option<&SecretBytes>)
        ensures
            match key {
                Some(secret) => self@.client_private_key == Some(secret_bytes(*secret)),
                None => self@.client_private_key is None,
            },
    {
        self.client_private_key.as_ref()
    }
}

/// Two sets of material that hold as many pieces of each kind are described
/// alike, whatever the pieces are.
pub proof fn law_descriptions_hold_no_material(a: MaterialModel, b: MaterialModel)
    requires
        a.project_root is Some <==> b.project_root is Some,
        a.indirect_trust_roots.dom().len() == b.indirect_trust_roots.dom().len(),
        a.client_certificate is Some <==> b.client_certificate is Some,
        a.client_private_key is Some <==> b.client_private_key is Some,
    ensures
        material_description(a) == material_description(b),
{
}

} // verus!
