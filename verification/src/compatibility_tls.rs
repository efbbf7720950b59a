//! The identity of the TLS server that a compatibility measurement runs against.

use vstd::prelude::*;
use rustls::pki_types::{CertificateDer, PrivateKeyDer};
use rustls::ServerConfig;
use crate::error::{ErrorKind, ErrorModel, EvaError};
use crate::text::bytes_of;
use crate::tls_config;
use crate::tls_config::{
    read_pem_section, section_left, IdentityModel, KeyForm, PemSection, SectionModel,
};

verus! {

// ---------------------------------------------------------------------------
// The server
// ---------------------------------------------------------------------------

/// `ServerConfig` of `rustls`: how a server is configured.
#[verifier::external_type_specification]
#[verifier::external_body]
pub struct ExServerConfig(ServerConfig);

/// The certificate that a configured server shows, with its key.
pub uninterp spec fn server_identity(config: ServerConfig) -> IdentityModel;

/// How `with_single_cert` of `rustls` describes its refusal of a certificate chain
/// with a key while the random source of the system works, if it refuses them:
/// the key cannot be loaded, there is no certificate, or it is seen to belong to
/// another key.
pub uninterp spec fn server_identity_refusal(
    chain: Seq<Seq<u8>>,
    form: KeyForm,
    key: Seq<u8>,
) -> Option<Seq<char>>;

/// The builder of `ServerConfig` in `rustls`, with the `ring` provider and the
/// default protocol versions, which that provider supports, and with
/// `with_single_cert`: a server that asks clients for no certificate and shows
/// the given chain, or how the refusal describes itself. To load a key on an
/// elliptic curve `ring` draws on the random source of the system, after it has
/// found the algorithm of the key to be the expected bytes. That source can fail,
/// so only of the other keys is it stated that what can be accepted is, and what
/// the description says.
#[verifier::external_body]
fn known_server(chain: Vec<Vec<u8>>, form: KeyForm, key: Vec<u8>) -> (config: Result<
    ServerConfig,
    String,
>)
    ensures
        config is Ok ==> server_identity_refusal(
            tls_config::contents(chain@),
            form,
            key@,
        ) is None,
        tls_config::loads_without_chance(form, key@) ==> server_identity_refusal(
            tls_config::contents(chain@),
            form,
            key@,
        ) == match config {
            Ok(_) => None,
            Err(description) => Some(description@),
        },
        config is Ok ==> server_identity(config->Ok_0) == (IdentityModel {
            chain: tls_config::contents(chain@),
            form,
            key: key@,
        }),
{
    let provider = std::sync::Arc::new(rustls::crypto::ring::default_provider());
    let builder = ServerConfig::builder_with_provider(provider);
    let builder = builder.with_safe_default_protocol_versions().map_err(|e| e.to_string())?;
    let chain = chain.into_iter().map(CertificateDer::from).collect();
    let key = match form {
        KeyForm::Pkcs1 => PrivateKeyDer::Pkcs1(key.into()),
        KeyForm::Pkcs8 => PrivateKeyDer::Pkcs8(key.into()),
        KeyForm::Sec1 => PrivateKeyDer::Sec1(key.into()),
    };
    builder.with_no_client_auth().with_single_cert(chain, key).map_err(|e| e.to_string())
}

// ---------------------------------------------------------------------------
// What PEM texts hold
// ---------------------------------------------------------------------------

/// The certificates among the sections of a PEM text, behind those already read,
/// or what is wrong with the text.
pub open spec fn certificates_among(pem: Seq<u8>, read: Seq<Seq<u8>>) -> Result<
    Seq<Seq<u8>>,
    Seq<char>,
>
    decreases pem.len(),
{
    let section = tls_config::pem_section(pem);
    match section {
        SectionModel::Malformed { description } => Err(description),
        SectionModel::End => Ok(read),
        SectionModel::Certificate { der, left } => if left < pem.len() {
            certificates_among(pem.skip(pem.len() - left), read.push(der))
        } else {
            Ok(read.push(der))
        },
        _ => if section.left() < pem.len() {
            certificates_among(pem.skip(pem.len() - section.left()), read)
        } else {
            Ok(read)
        },
    }
}

/// The first key among the sections of a PEM text, if there is one, or what is
/// wrong with the text before it.
pub open spec fn key_among(pem: Seq<u8>) -> Result<Option<(KeyForm, Seq<u8>)>, Seq<char>>
    decreases pem.len(),
{
    let section = tls_config::pem_section(pem);
    match section {
        SectionModel::Malformed { description } => Err(description),
        SectionModel::End => Ok(None),
        SectionModel::Key { form, der, .. } => Ok(Some((form, der))),
        _ => if section.left() < pem.len() {
            key_among(pem.skip(pem.len() - section.left()))
        } else {
            Ok(None)
        },
    }
}

fn read_certificates(pem: &[u8]) -> (outcome: Result<Vec<Vec<u8>>, String>)
    ensures
        match outcome {
            Ok(certificates) => certificates_among(pem@, Seq::empty()) == Ok::<
                Seq<Seq<u8>>,
                Seq<char>,
            >(tls_config::contents(certificates@)),
            Err(description) => certificates_among(pem@, Seq::empty()) == Err::<
                Seq<Seq<u8>>,
                Seq<char>,
            >(description@),
        },
{
    let mut certificates: Vec<Vec<u8>> = Vec::new();
    let mut rest = bytes_of(pem, 0, pem.len());
    assert(rest@ =~= pem@);
    assert(tls_config::contents(certificates@) =~= Seq::<Seq<u8>>::empty());
    loop
        invariant
            certificates_among(pem@, Seq::empty()) == certificates_among(
                rest@,
                tls_config::contents(certificates@),
            ),
        decreases rest@.len(),
    {
        let section = read_pem_section(rest.as_slice());
        let left: usize = section_left(&section);
        let ghost before = rest@;
        match section {
            PemSection::Malformed(description) => return Err(description),
            PemSection::End => return Ok(certificates),
            PemSection::Certificate(der, _) => {
                let ghost read = tls_config::contents(certificates@);
                let ghost added = der@;
                certificates.push(der);
                assert(tls_config::contents(certificates@) =~= read.push(added));
            },
            _ => {},
        }
        rest = bytes_of(rest.as_slice(), rest.len() - left, rest.len());
        assert(rest@ =~= before.skip(before.len() - left));
    }
}

fn read_private_key(pem: &[u8]) -> (outcome: Result<Option<(KeyForm, Vec<u8>)>, String>)
    ensures
        match outcome {
            Ok(None) => key_among(pem@) == Ok::<Option<(KeyForm, Seq<u8>)>, Seq<char>>(None),
            Ok(Some((form, der))) => key_among(pem@) == Ok::<
                Option<(KeyForm, Seq<u8>)>,
                Seq<char>,
            >(Some((form, der@))),
            Err(description) => key_among(pem@) == Err::<
                Option<(KeyForm, Seq<u8>)>,
                Seq<char>,
            >(description@),
        },
{
    let mut rest = bytes_of(pem, 0, pem.len());
    assert(rest@ =~= pem@);
    loop
        invariant
            key_among(pem@) == key_among(rest@),
        decreases rest@.len(),
    {
        let section = read_pem_section(rest.as_slice());
        let left: usize = section_left(&section);
        let ghost before = rest@;
        match section {
            PemSection::Malformed(description) => return Err(description),
            PemSection::End => return Ok(None),
            PemSection::Key(form, der, _) => return Ok(Some((form, der))),
            _ => {},
        }
        rest = bytes_of(rest.as_slice(), rest.len() - left, rest.len());
        assert(rest@ =~= before.skip(before.len() - left));
    }
}

// ---------------------------------------------------------------------------
// The configuration
// ---------------------------------------------------------------------------

pub open spec fn fixture_model(message: Seq<char>) -> ErrorModel {
    ErrorModel::new(ErrorKind::Internal, message).code("mcp_compatibility_tls_fixture_invalid"@)
}

/// The identity that two PEM texts hold, or why they hold none.
pub open spec fn fixture_identity(certificate: Seq<u8>, private_key: Seq<u8>) -> Result<
    IdentityModel,
    ErrorModel,
> {
    match certificates_among(certificate, Seq::empty()) {
        Err(description) => Err(
            fixture_model("MCP compatibility TLS certificate is invalid"@).ctx(
                "tls_error"@,
                description,
            ),
        ),
        Ok(chain) => match key_among(private_key) {
            Err(description) => Err(
                fixture_model("MCP compatibility TLS private key is invalid"@).ctx(
                    "tls_error"@,
                    description,
                ),
            ),
            Ok(None) => Err(fixture_model("MCP compatibility TLS private key is missing"@)),
            Ok(Some((form, key))) => Ok(IdentityModel { chain, form, key }),
        },
    }
}

/// The refusal of an identity that was read, with a description of the reason.
pub open spec fn identity_refused(description: Seq<char>) -> ErrorModel {
    fixture_model("MCP compatibility TLS identity configuration failed"@).ctx(
        "tls_error"@,
        description,
    )
}

/// Whether a configured server is the one with the given identity, or an error is
/// what its refusal is reported as. An identity that can be accepted is refused
/// only where random bytes were wanted for its key.
pub open spec fn configured_as(
    outcome: Result<ServerConfig, EvaError>,
    identity: Result<IdentityModel, ErrorModel>,
) -> bool {
    match (outcome, identity) {
        (Ok(config), Ok(identity)) => {
            &&& server_identity(config) == identity
            &&& server_identity_refusal(identity.chain, identity.form, identity.key) is None
        },
        (Err(error), Ok(identity)) => exists|description: Seq<char>|
            {
                &&& error@ == #[trigger] identity_refused(description)
                &&& tls_config::loads_without_chance(identity.form, identity.key)
                    ==> server_identity_refusal(identity.chain, identity.form, identity.key)
                    == Some(description)
            },
        (Err(error), Err(expected)) => error@ == expected,
        (Ok(_), Err(_)) => false,
    }
}

/// Report why a server was not configured with an identity, if it was not.
pub fn require_server_identity(config: Result<ServerConfig, String>) -> (outcome: Result<
    ServerConfig,
    EvaError,
>)
    ensures
        match config {
            Ok(config) => outcome == Ok::<ServerConfig, EvaError>(config),
            Err(description) => outcome matches Err(error) && error@ == identity_refused(
                description@,
            ),
        },
{
    match config {
        Ok(config) => Ok(config),
        Err(description) => Err(
            fixture_error(
                "MCP compatibility TLS identity configuration failed",
                description.as_str(),
            ),
        ),
    }
}

fn fixture_error(message: &str, description: &str) -> (error: EvaError)
    ensures
        error@ == fixture_model(message@).ctx("tls_error"@, description@),
{
    EvaError::internal(message).with_provider_code(
        "mcp_compatibility_tls_fixture_invalid",
    ).with_context("tls_error", description)
}

/// Configure the server of a measurement with the certificates and the key that
/// two PEM texts hold.
pub fn compatibility_tls_server_config(certificate: &[u8], private_key: &[u8]) -> (outcome: Result<
    ServerConfig,
    EvaError,
>)
    ensures
        configured_as(outcome, fixture_identity(certificate@, private_key@)),
{
    let chain = match read_certificates(certificate) {
        Ok(chain) => chain,
        Err(description) => return Err(
            fixture_error("MCP compatibility TLS certificate is invalid", description.as_str()),
        ),
    };
    let (form, key) = match read_private_key(private_key) {
        Ok(Some((form, key))) => (form, key),
        Ok(None) => return Err(
            EvaError::internal("MCP compatibility TLS private key is missing").with_provider_code(
                "mcp_compatibility_tls_fixture_invalid",
            ),
        ),
        Err(description) => return Err(
            fixture_error("MCP compatibility TLS private key is invalid", description.as_str()),
        ),
    };
    require_server_identity(known_server(chain, form, key))
}

} // verus!
