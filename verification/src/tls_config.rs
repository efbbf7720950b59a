//! How a TLS client is configured: which certificates it trusts, and which one
//! it shows.

use vstd::prelude::*;
use vstd::string::*;
use vstd::utf8::*;
use rustls::pki_types::{CertificateDer, PrivateKeyDer};
use rustls::{ClientConfig, RootCertStore};
use rustls_pemfile::{read_one, Item};
use crate::error::{ErrorKind, ErrorModel, EvaError};
use crate::text;
use crate::text::{bytes_of, chars_of, starts_with, str_eq, string_of};
use crate::tls_material;
use crate::tls_material::{unseal, validate_material_size, MaterialModel, McpTlsMaterial};

verus! {

// ---------------------------------------------------------------------------
// PEM
// ---------------------------------------------------------------------------

/// The form in which a private key is written.
#[derive(Debug, Clone, Copy, PartialEq, Eq, Structural)]
pub enum KeyForm {
    Pkcs1,
    Pkcs8,
    Sec1,
}

/// What comes next in a PEM text, and how many bytes are left behind it.
pub enum SectionModel {
    End,
    /// What is wrong, as the error describes it.
    Malformed { description: Seq<char> },
    Certificate { der: Seq<u8>, left: nat },
    Key { form: KeyForm, der: Seq<u8>, left: nat },
    Other { left: nat },
}

/// What comes next in a PEM text, and how many bytes are left behind it.
pub enum PemSection {
    End,
    /// What is wrong, as the error describes it.
    Malformed(String),
    Certificate(Vec<u8>, usize),
    Key(KeyForm, Vec<u8>, usize),
    Other(usize),
}

impl View for PemSection {
    type V = SectionModel;

    open spec fn view(&self) -> SectionModel {
        match self {
            PemSection::End => SectionModel::End,
            PemSection::Malformed(description) => SectionModel::Malformed {
                description: description@,
            },
            PemSection::Certificate(der, left) => SectionModel::Certificate {
                der: der@,
                left: *left as nat,
            },
            PemSection::Key(form, der, left) => SectionModel::Key {
                form: *form,
                der: der@,
                left: *left as nat,
            },
            PemSection::Other(left) => SectionModel::Other { left: *left as nat },
        }
    }
}

impl SectionModel {
    /// How many bytes are left behind the section.
    pub open spec fn left(self) -> nat {
        match self {
            SectionModel::End => 0,
            SectionModel::Malformed { .. } => 0,
            SectionModel::Certificate { left, .. } => left,
            SectionModel::Key { left, .. } => left,
            SectionModel::Other { left } => left,
        }
    }

    /// Whether a section was found.
    pub open spec fn found(self) -> bool {
        !(self is End) && !(self is Malformed)
    }
}

/// What `read_one` of `rustls_pemfile` finds first in bytes.
pub uninterp spec fn pem_section(pem: Seq<u8>) -> SectionModel;

/// `read_one` of `rustls_pemfile` on the bytes: the first section of a kind that
/// it knows, decoded, or none, or an error. What it finds is a function of the
/// bytes. A section that is found takes at least one byte. What the function
/// skips, how it decodes and how an error describes itself is not stated.
#[verifier::external_body]
pub(crate) fn read_pem_section(pem: &[u8]) -> (section: PemSection)
    ensures
        section@ == pem_section(pem@),
        section@.found() ==> section@.left() < pem@.len(),
{
    let mut rest: &[u8] = pem;
    let item = match read_one(&mut rest) {
        Err(error) => return PemSection::Malformed(error.to_string()),
        Ok(None) => return PemSection::End,
        Ok(Some(item)) => item,
    };
    let left = rest.len();
    match item {
        Item::X509Certificate(c) => PemSection::Certificate(c.to_vec(), left),
        Item::Pkcs1Key(k) => PemSection::Key(KeyForm::Pkcs1, k.secret_pkcs1_der().to_vec(), left),
        Item::Pkcs8Key(k) => PemSection::Key(KeyForm::Pkcs8, k.secret_pkcs8_der().to_vec(), left),
        Item::Sec1Key(k) => PemSection::Key(KeyForm::Sec1, k.secret_sec1_der().to_vec(), left),
        _ => PemSection::Other(left),
    }
}

/// The contents of several byte strings.
pub open spec fn contents(list: Seq<Vec<u8>>) -> Seq<Seq<u8>> {
    list.map_values(|v: Vec<u8>| v@)
}

pub open spec fn certificate_pem_model(message: Seq<char>, code: Seq<char>, purpose: Seq<char>) -> ErrorModel {
    ErrorModel::new(ErrorKind::InvalidArgument, message).code(code).ctx("material"@, purpose)
}

/// The certificates that the sections of a PEM text hold, behind those already
/// read. Any other section is refused, and so is a text without certificates.
pub open spec fn certificates_from(pem: Seq<u8>, read: Seq<Seq<u8>>, purpose: Seq<char>) -> Result<
    Seq<Seq<u8>>,
    ErrorModel,
>
    decreases pem.len(),
{
    match pem_section(pem) {
        SectionModel::Malformed { .. } => Err(
            certificate_pem_model(
                "MCP TLS certificate PEM is malformed"@,
                "mcp_tls_certificate_pem_invalid"@,
                purpose,
            ),
        ),
        SectionModel::End => if read.len() == 0 {
            Err(
                certificate_pem_model(
                    "MCP TLS certificate PEM contains no certificates"@,
                    "mcp_tls_certificate_pem_empty"@,
                    purpose,
                ),
            )
        } else {
            Ok(read)
        },
        SectionModel::Certificate { der, left } => if left < pem.len() {
            certificates_from(pem.skip(pem.len() - left), read.push(der), purpose)
        } else {
            Ok(read.push(der))
        },
        _ => Err(
            certificate_pem_model(
                "MCP TLS certificate PEM contains a non-certificate block"@,
                "mcp_tls_certificate_pem_invalid"@,
                purpose,
            ),
        ),
    }
}

/// The certificates that a PEM text holds.
pub open spec fn certificates_of(pem: Seq<u8>, purpose: Seq<char>) -> Result<
    Seq<Seq<u8>>,
    ErrorModel,
> {
    match tls_material::size_refusal(pem.len(), purpose) {
        Some(error) => Err(error),
        None => certificates_from(pem, Seq::empty(), purpose),
    }
}

/// What is read next from a list of sections, for reading that goes on.
pub enum Gathered<T> {
    More(T),
    Done(T),
    Refused(EvaError),
}

/// Take in the next section of a certificate text.
pub fn gather_certificate(section: PemSection, read: Vec<Vec<u8>>, purpose: &str) -> (gathered:
    Gathered<Vec<Vec<u8>>>)
    ensures
        match section@ {
            SectionModel::Malformed { .. } => gathered matches Gathered::Refused(error) && error@
                == certificate_pem_model(
                "MCP TLS certificate PEM is malformed"@,
                "mcp_tls_certificate_pem_invalid"@,
                purpose@,
            ),
            SectionModel::End => if read@.len() == 0 {
                gathered matches Gathered::Refused(error) && error@ == certificate_pem_model(
                    "MCP TLS certificate PEM contains no certificates"@,
                    "mcp_tls_certificate_pem_empty"@,
                    purpose@,
                )
            } else {
                gathered matches Gathered::Done(all) && contents(all@) == contents(read@)
            },
            SectionModel::Certificate { der, .. } => gathered matches Gathered::More(all)
                && contents(all@) == contents(read@).push(der),
            _ => gathered matches Gathered::Refused(error) && error@ == certificate_pem_model(
                "MCP TLS certificate PEM contains a non-certificate block"@,
                "mcp_tls_certificate_pem_invalid"@,
                purpose@,
            ),
        },
{
    match section {
        PemSection::Malformed(_) => Gathered::Refused(
            EvaError::invalid_argument("MCP TLS certificate PEM is malformed").with_provider_code(
                "mcp_tls_certificate_pem_invalid",
            ).with_context("material", purpose),
        ),
        PemSection::End => if read.len() == 0 {
            Gathered::Refused(
                EvaError::invalid_argument(
                    "MCP TLS certificate PEM contains no certificates",
                ).with_provider_code("mcp_tls_certificate_pem_empty").with_context(
                    "material",
                    purpose,
                ),
            )
        } else {
            Gathered::Done(read)
        },
        PemSection::Certificate(der, _) => {
            let ghost before = contents(read@);
            let ghost added = der@;
            let mut all = read;
            all.push(der);
            assert(contents(all@) =~= before.push(added));
            Gathered::More(all)
        },
        _ => Gathered::Refused(
            EvaError::invalid_argument(
                "MCP TLS certificate PEM contains a non-certificate block",
            ).with_provider_code("mcp_tls_certificate_pem_invalid").with_context(
                "material",
                purpose,
            ),
        ),
    }
}

pub(crate) fn section_left(section: &PemSection) -> (left: usize)
    ensures
        left == section@.left(),
{
    match section {
        PemSection::End => 0,
        PemSection::Malformed(_) => 0,
        PemSection::Certificate(_, left) => *left,
        PemSection::Key(_, _, left) => *left,
        PemSection::Other(left) => *left,
    }
}

/// The certificates that a PEM text holds.
pub fn parse_certificate_pem(pem: &[u8], purpose: &str) -> (outcome: Result<
    Vec<Vec<u8>>,
    EvaError,
>)
    ensures
        match outcome {
            Ok(certificates) => certificates_of(pem@, purpose@) == Ok::<Seq<Seq<u8>>, ErrorModel>(
                contents(certificates@),
            ),
            Err(error) => certificates_of(pem@, purpose@) == Err::<Seq<Seq<u8>>, ErrorModel>(
                error@,
            ),
        },
{
    match validate_material_size(pem, purpose) {
        Ok(()) => {},
        Err(error) => return Err(error),
    }
    let mut certificates: Vec<Vec<u8>> = Vec::new();
    let mut rest = bytes_of(pem, 0, pem.len());
    assert(rest@ =~= pem@);
    assert(contents(certificates@) =~= Seq::<Seq<u8>>::empty());
    loop
        invariant
            tls_material::size_refusal(pem@.len(), purpose@) is None,
            certificates_from(pem@, Seq::empty(), purpose@) == certificates_from(
                rest@,
                contents(certificates@),
                purpose@,
            ),
        decreases rest@.len(),
    {
        let section = read_pem_section(rest.as_slice());
        let left: usize = section_left(&section);
        let ghost before = rest@;
        match gather_certificate(section, certificates, purpose) {
            Gathered::Refused(error) => return Err(error),
            Gathered::Done(all) => return Ok(all),
            Gathered::More(all) => {
                certificates = all;
            },
        }
        rest = bytes_of(rest.as_slice(), rest.len() - left, rest.len());
        assert(rest@ =~= before.skip(before.len() - left));
    }
}

pub open spec fn key_pem_model(message: Seq<char>, code: Seq<char>) -> ErrorModel {
    ErrorModel::new(ErrorKind::InvalidArgument, message).code(code)
}

/// The one key that the sections of a PEM text hold, with the one already read.
pub open spec fn key_from(pem: Seq<u8>, read: Option<(KeyForm, Seq<u8>)>) -> Result<
    (KeyForm, Seq<u8>),
    ErrorModel,
>
    decreases pem.len(),
{
    match pem_section(pem) {
        SectionModel::Malformed { .. } => Err(
            key_pem_model(
                "MCP TLS private key PEM is malformed"@,
                "mcp_tls_private_key_pem_invalid"@,
            ),
        ),
        SectionModel::End => match read {
            Some(key) => Ok(key),
            None => Err(
                key_pem_model(
                    "MCP TLS private key PEM contains no private key"@,
                    "mcp_tls_private_key_pem_empty"@,
                ),
            ),
        },
        SectionModel::Key { form, der, left } => if read is Some {
            Err(
                key_pem_model(
                    "MCP TLS private key PEM contains multiple keys"@,
                    "mcp_tls_private_key_pem_ambiguous"@,
                ),
            )
        } else if left < pem.len() {
            key_from(pem.skip(pem.len() - left), Some((form, der)))
        } else {
            Ok((form, der))
        },
        _ => Err(
            key_pem_model(
                "MCP TLS private key PEM contains a non-key block"@,
                "mcp_tls_private_key_pem_invalid"@,
            ),
        ),
    }
}

/// The one key that a PEM text holds.
pub open spec fn key_of(pem: Seq<u8>) -> Result<(KeyForm, Seq<u8>), ErrorModel> {
    match tls_material::size_refusal(pem.len(), "client_private_key"@) {
        Some(error) => Err(error),
        None => key_from(pem, None),
    }
}

/// A key that was read, if one was.
pub open spec fn key_model(key: Option<(KeyForm, Vec<u8>)>) -> Option<(KeyForm, Seq<u8>)> {
    match key {
        Some((form, der)) => Some((form, der@)),
        None => None,
    }
}

/// Take in the next section of a key text.
pub fn gather_key(section: PemSection, read: Option<(KeyForm, Vec<u8>)>) -> (gathered: Gathered<
    Option<(KeyForm, Vec<u8>)>,
>)
    ensures
        match section@ {
            SectionModel::Malformed { .. } => gathered matches Gathered::Refused(error) && error@
                == key_pem_model(
                "MCP TLS private key PEM is malformed"@,
                "mcp_tls_private_key_pem_invalid"@,
            ),
            SectionModel::End => if read is None {
                gathered matches Gathered::Refused(error) && error@ == key_pem_model(
                    "MCP TLS private key PEM contains no private key"@,
                    "mcp_tls_private_key_pem_empty"@,
                )
            } else {
                gathered matches Gathered::Done(key) && key == read
            },
            SectionModel::Key { form, der, .. } => if read is Some {
                gathered matches Gathered::Refused(error) && error@ == key_pem_model(
                    "MCP TLS private key PEM contains multiple keys"@,
                    "mcp_tls_private_key_pem_ambiguous"@,
                )
            } else {
                gathered matches Gathered::More(key) && key_model(key) == Some((form, der))
            },
            _ => gathered matches Gathered::Refused(error) && error@ == key_pem_model(
                "MCP TLS private key PEM contains a non-key block"@,
                "mcp_tls_private_key_pem_invalid"@,
            ),
        },
{
    match section {
        PemSection::Malformed(_) => Gathered::Refused(
            EvaError::invalid_argument("MCP TLS private key PEM is malformed").with_provider_code(
                "mcp_tls_private_key_pem_invalid",
            ),
        ),
        PemSection::End => if read.is_none() {
            Gathered::Refused(
                EvaError::invalid_argument(
                    "MCP TLS private key PEM contains no private key",
                ).with_provider_code("mcp_tls_private_key_pem_empty"),
            )
        } else {
            Gathered::Done(read)
        },
        PemSection::Key(form, der, _) => if read.is_some() {
            Gathered::Refused(
                EvaError::invalid_argument(
                    "MCP TLS private key PEM contains multiple keys",
                ).with_provider_code("mcp_tls_private_key_pem_ambiguous"),
            )
        } else {
            Gathered::More(Some((form, der)))
        },
        _ => Gathered::Refused(
            EvaError::invalid_argument(
                "MCP TLS private key PEM contains a non-key block",
            ).with_provider_code("mcp_tls_private_key_pem_invalid"),
        ),
    }
}

/// The one key that a PEM text holds.
pub fn parse_private_key_pem(pem: &[u8]) -> (outcome: Result<(KeyForm, Vec<u8>), EvaError>)
    ensures
        match outcome {
            Ok((form, der)) => key_of(pem@) == Ok::<(KeyForm, Seq<u8>), ErrorModel>((form, der@)),
            Err(error) => key_of(pem@) == Err::<(KeyForm, Seq<u8>), ErrorModel>(error@),
        },
{
    match validate_material_size(pem, "client_private_key") {
        Ok(()) => {},
        Err(error) => return Err(error),
    }
    let mut key: Option<(KeyForm, Vec<u8>)> = None;
    let mut rest = bytes_of(pem, 0, pem.len());
    assert(rest@ =~= pem@);
    loop
        invariant
            tls_material::size_refusal(pem@.len(), "client_private_key"@) is None,
            key_from(pem@, None) == key_from(rest@, key_model(key)),
        decreases rest@.len(),
    {
        let section = read_pem_section(rest.as_slice());
        let left: usize = section_left(&section);
        let ghost before = rest@;
        match gather_key(section, key) {
            Gathered::Refused(error) => return Err(error),
            Gathered::Done(found) => {
                match found {
                    Some((form, der)) => return Ok((form, der)),
                    None => {
                        return Err(
                            EvaError::invalid_argument(
                                "MCP TLS private key PEM contains no private key",
                            ).with_provider_code("mcp_tls_private_key_pem_empty"),
                        );
                    },
                }
            },
            Gathered::More(found) => {
                key = found;
            },
        }
        rest = bytes_of(rest.as_slice(), rest.len() - left, rest.len());
        assert(rest@ =~= before.skip(before.len() - left));
    }
}

// ---------------------------------------------------------------------------
// Trust roots
// ---------------------------------------------------------------------------

/// `RootCertStore` of `rustls`: the certificates that a client trusts.
#[verifier::external_type_specification]
#[verifier::external_body]
pub struct ExRootCertStore(RootCertStore);

/// `ClientConfig` of `rustls`: how a client is configured.
#[verifier::external_type_specification]
#[verifier::external_body]
pub struct ExClientConfig(ClientConfig);

/// The trust anchors that a store holds, in the order in which they were added.
pub uninterp spec fn anchors(store: RootCertStore) -> Seq<Seq<u8>>;

/// The trust anchor that `RootCertStore::add` of `rustls` reads out of an
/// encoded certificate, if it can.
pub uninterp spec fn trust_anchor(der: Seq<u8>) -> Option<Seq<u8>>;

/// `RootCertStore::empty` of `rustls`: a store without anchors.
#[verifier::external_body]
fn empty_roots() -> (roots: RootCertStore)
    ensures
        anchors(roots) == Seq::<Seq<u8>>::empty(),
{
    RootCertStore::empty()
}

/// `RootCertStore::add` of `rustls` adds the anchor of a certificate behind the
/// others. A certificate that it cannot read is refused, and nothing is added.
#[verifier::external_body]
fn add_root(roots: &mut RootCertStore, der: &[u8]) -> (added: bool)
    ensures
        added == trust_anchor(der@) is Some,
        anchors(*final(roots)) == match trust_anchor(der@) {
            Some(anchor) => anchors(*old(roots)).push(anchor),
            None => anchors(*old(roots)),
        },
{
    roots.add(CertificateDer::from(der)).is_ok()
}

/// The anchors of those of the certificates that can be read.
pub open spec fn anchors_of(certificates: Seq<Seq<u8>>) -> Seq<Seq<u8>>
    decreases certificates.len(),
{
    if certificates.len() == 0 {
        Seq::empty()
    } else {
        match trust_anchor(certificates.last()) {
            Some(anchor) => anchors_of(certificates.drop_last()).push(anchor),
            None => anchors_of(certificates.drop_last()),
        }
    }
}

/// `RootCertStore::add_parsable_certificates` of `rustls` adds the anchors of
/// those certificates that it can read behind the others, in their order, and
/// says how many these are.
#[verifier::external_body]
fn add_parsable_roots(roots: &mut RootCertStore, certificates: Vec<Vec<u8>>) -> (valid: usize)
    ensures
        anchors(*final(roots)) == anchors(*old(roots)) + anchors_of(contents(certificates@)),
        valid == anchors_of(contents(certificates@)).len(),
{
    roots.add_parsable_certificates(
        certificates.into_iter().map(CertificateDer::from),
    ).0
}

/// `RootCertStore::is_empty` of `rustls`: whether there are no anchors.
#[verifier::external_body]
fn no_roots(roots: &RootCertStore) -> (empty: bool)
    ensures
        empty == (anchors(*roots).len() == 0),
{
    roots.is_empty()
}

/// Whether one of the certificates cannot be read.
pub open spec fn has_unreadable(certificates: Seq<Seq<u8>>) -> bool {
    exists|i: int| 0 <= i < certificates.len() && trust_anchor(#[trigger] certificates[i]) is None
}

pub open spec fn invalid_root_model() -> ErrorModel {
    ErrorModel::new(
        ErrorKind::InvalidArgument,
        "MCP TLS trust root certificate is invalid"@,
    ).code("mcp_tls_trust_root_invalid"@)
}

pub open spec fn no_system_roots_model() -> ErrorModel {
    ErrorModel::new(
        ErrorKind::Unavailable,
        "MCP TLS platform trust store has no usable certificates"@,
    ).code("mcp_tls_system_roots_unavailable"@)
}

/// The anchors of the roots in a PEM text; all of them must be readable.
pub open spec fn pem_anchors(pem: Seq<u8>) -> Result<Seq<Seq<u8>>, ErrorModel> {
    match certificates_of(pem, "trust_root"@) {
        Err(error) => Err(error),
        Ok(certificates) => if has_unreadable(certificates) {
            Err(invalid_root_model())
        } else {
            Ok(anchors_of(certificates))
        },
    }
}

fn add_pem_roots(roots: &mut RootCertStore, pem: &[u8]) -> (outcome: Result<(), EvaError>)
    ensures
        match outcome {
            Ok(()) => pem_anchors(pem@) matches Ok(added) && anchors(*final(roots)) == anchors(
                *old(roots),
            ) + added,
            Err(error) => pem_anchors(pem@) == Err::<Seq<Seq<u8>>, ErrorModel>(error@),
        },
{
    let certificates = match parse_certificate_pem(pem, "trust_root") {
        Ok(certificates) => certificates,
        Err(error) => return Err(error),
    };
    let ghost all = contents(certificates@);
    let ghost before = anchors(*roots);
    let mut i: usize = 0;
    assert(all.take(0) =~= Seq::<Seq<u8>>::empty());
    assert(before + Seq::<Seq<u8>>::empty() =~= before);
    while i < certificates.len()
        invariant
            i <= certificates@.len(),
            all == contents(certificates@),
            certificates_of(pem@, "trust_root"@) == Ok::<Seq<Seq<u8>>, ErrorModel>(all),
            anchors(*roots) == before + anchors_of(all.take(i as int)),
            forall|k: int| 0 <= k < i ==> trust_anchor(#[trigger] all[k]) is Some,
        decreases certificates@.len() - i,
    {
        assert(all[i as int] == certificates@[i as int]@);
        let ghost upto = all.take(i + 1);
        if !add_root(roots, certificates[i].as_slice()) {
            assert(has_unreadable(all));
            return Err(
                EvaError::invalid_argument(
                    "MCP TLS trust root certificate is invalid",
                ).with_provider_code("mcp_tls_trust_root_invalid"),
            );
        }
        assert(upto.drop_last() =~= all.take(i as int));
        assert(upto.last() == all[i as int]);
        assert(anchors(*roots) =~= before + anchors_of(upto));
        i += 1;
    }
    assert(all.take(i as int) =~= all);
    Ok(())
}

fn add_system_roots(roots: &mut RootCertStore, certificates: Vec<Vec<u8>>) -> (outcome: Result<
    (),
    EvaError,
>)
    ensures
        anchors(*final(roots)) == anchors(*old(roots)) + anchors_of(contents(certificates@)),
        match outcome {
            Ok(()) => anchors_of(contents(certificates@)).len() > 0,
            Err(error) => anchors_of(contents(certificates@)).len() == 0 && error@
                == no_system_roots_model(),
        },
{
    if add_parsable_roots(roots, certificates) == 0 {
        return Err(
            EvaError::unavailable(
                "MCP TLS platform trust store has no usable certificates",
            ).with_provider_code("mcp_tls_system_roots_unavailable"),
        );
    }
    Ok(())
}

// ---------------------------------------------------------------------------
// The configuration
// ---------------------------------------------------------------------------

/// The certificate that a client shows, with its key.
pub struct IdentityModel {
    pub chain: Seq<Seq<u8>>,
    pub form: KeyForm,
    pub key: Seq<u8>,
}

/// The trust anchors that a configured client accepts servers by.
pub uninterp spec fn config_anchors(config: ClientConfig) -> Seq<Seq<u8>>;

/// The certificate that a configured client shows, if it shows one.
pub uninterp spec fn config_identity(config: ClientConfig) -> Option<IdentityModel>;

/// The application protocols that a configured client offers.
pub uninterp spec fn config_protocols(config: ClientConfig) -> Seq<Seq<u8>>;

/// The object identifier of elliptic curve public keys in DER, with its tag and
/// length. A PKCS#8 key on such a curve holds it as the start of its algorithm.
pub open spec fn curve_key_identifier() -> Seq<u8> {
    seq![0x06u8, 0x07, 0x2a, 0x86, 0x48, 0xce, 0x3d, 0x02, 0x01]
}

/// Whether some bytes stand somewhere among others.
pub open spec fn bytes_within(part: Seq<u8>, whole: Seq<u8>) -> bool {
    exists|at: int|
        0 <= at && at + part.len() <= whole.len() && #[trigger] whole.subrange(
            at,
            at + part.len(),
        ) == part
}

/// Whether a key is loaded without the random source of the system: it is written
/// in the form of RSA keys, or in the form of all kinds of keys and names no
/// elliptic curve. Only keys on such a curve are loaded with random bytes.
pub open spec fn loads_without_chance(form: KeyForm, key: Seq<u8>) -> bool {
    match form {
        KeyForm::Pkcs1 => true,
        KeyForm::Pkcs8 => !bytes_within(curve_key_identifier(), key),
        KeyForm::Sec1 => false,
    }
}

/// Whether `with_client_auth_cert` of `rustls` accepts a certificate chain with a
/// key while the random source of the system works: the key can be loaded, and is
/// not seen to belong to another certificate.
pub uninterp spec fn identity_accepted(chain: Seq<Seq<u8>>, form: KeyForm, key: Seq<u8>) -> bool;

/// The builder of `ClientConfig` in `rustls`, with the `ring` provider and the
/// default protocol versions, which that provider supports: a client that
/// trusts the given roots, shows no certificate and offers the given
/// application protocols. How it verifies servers is not stated.
#[verifier::external_body]
fn anonymous_client(roots: RootCertStore, protocols: Vec<Vec<u8>>) -> (config: Option<ClientConfig>)
    ensures
        config is Some,
        config_anchors(config->0) == anchors(roots),
        config_identity(config->0) is None,
        config_protocols(config->0) == contents(protocols@),
{
    let provider = std::sync::Arc::new(rustls::crypto::ring::default_provider());
    let builder = ClientConfig::builder_with_provider(provider);
    let builder = builder.with_safe_default_protocol_versions().ok()?;
    let mut config = builder.with_root_certificates(roots).with_no_client_auth();
    config.alpn_protocols = protocols;
    Some(config)
}

/// The builder of `ClientConfig` in `rustls`, as for a client without a
/// certificate, but with `with_client_auth_cert`: a client that shows the given
/// chain, if the chain and the key are accepted. To load a key on an elliptic
/// curve `ring` draws on the random source of the system, after it has found the
/// algorithm of the key to be the expected bytes. That source can fail, so only
/// of the other keys is it stated that what can be accepted is.
#[verifier::external_body]
fn known_client(roots: RootCertStore, chain: Vec<Vec<u8>>, form: KeyForm, key: Vec<u8>, protocols: Vec<Vec<u8>>) -> (config: Option<ClientConfig>)
    requires
        chain@.len() > 0,
    ensures
        config is Some ==> identity_accepted(contents(chain@), form, key@),
        loads_without_chance(form, key@) ==> config is Some == identity_accepted(
            contents(chain@),
            form,
            key@,
        ),
        config is Some ==> config_anchors(config->0) == anchors(roots),
        config is Some ==> config_identity(config->0) == Some(
            (IdentityModel { chain: contents(chain@), form, key: key@ }),
        ),
        config is Some ==> config_protocols(config->0) == contents(protocols@),
{
    let provider = std::sync::Arc::new(rustls::crypto::ring::default_provider());
    let builder = ClientConfig::builder_with_provider(provider);
    let builder = builder.with_safe_default_protocol_versions().ok()?;
    let chain = chain.into_iter().map(CertificateDer::from).collect();
    let key = match form {
        KeyForm::Pkcs1 => PrivateKeyDer::Pkcs1(key.into()),
        KeyForm::Pkcs8 => PrivateKeyDer::Pkcs8(key.into()),
        KeyForm::Sec1 => PrivateKeyDer::Sec1(key.into()),
    };
    let mut config = builder.with_root_certificates(roots).with_client_auth_cert(chain, key).ok()?;
    config.alpn_protocols = protocols;
    Some(config)
}

// ---------------------------------------------------------------------------
// Assembly
// ---------------------------------------------------------------------------

/// A configuration that is being put together.
#[verifier::ext_equal]
pub struct AssemblyModel {
    pub anchors: Seq<Seq<u8>>,
    /// The references that name what is trusted, in their order.
    pub references: Seq<Seq<char>>,
    /// How many of them were resolved.
    pub at: int,
    pub material: MaterialModel,
}

/// A configuration that is being put together. Trust roots that are not handed
/// in have to be fetched; whoever puts the configuration together does so when
/// asked.
pub struct TlsAssembly {
    roots: RootCertStore,
    references: Vec<String>,
    at: usize,
    material: McpTlsMaterial,
}

impl View for TlsAssembly {
    type V = AssemblyModel;

    closed spec fn view(&self) -> AssemblyModel {
        AssemblyModel {
            anchors: anchors(self.roots),
            references: text::texts(self.references@),
            at: self.at as int,
            material: self.material@,
        }
    }
}

/// What is to be fetched next.
pub enum TrustStep {
    /// The certificates that the platform trusts.
    System,
    /// A file below a directory.
    File { project_root: String, path: String },
    /// Nothing.
    Done,
    /// Nothing, because the configuration is refused.
    Refused(EvaError),
}

/// What is to be fetched next.
pub enum StepModel {
    System,
    File { project_root: Seq<char>, path: Seq<char> },
    Done,
    Refused(ErrorModel),
}

impl View for TrustStep {
    type V = StepModel;

    open spec fn view(&self) -> StepModel {
        match self {
            TrustStep::System => StepModel::System,
            TrustStep::File { project_root, path } => StepModel::File {
                project_root: project_root@,
                path: path@,
            },
            TrustStep::Done => StepModel::Done,
            TrustStep::Refused(error) => StepModel::Refused(error@),
        }
    }
}

/// The references that stand for what is trusted: none given stand for what the
/// platform trusts.
pub open spec fn effective_references(references: Seq<Seq<char>>) -> Seq<Seq<char>> {
    if references.len() == 0 {
        seq!["system"@]
    } else {
        references
    }
}

pub open spec fn project_root_required_model() -> ErrorModel {
    ErrorModel::new(
        ErrorKind::PermissionDenied,
        "MCP file trust root requires an explicit controlled project root"@,
    ).code("mcp_tls_project_root_required"@)
}

pub open spec fn indirect_unavailable_model() -> ErrorModel {
    ErrorModel::new(
        ErrorKind::PermissionDenied,
        "MCP indirect trust root material resolver is unavailable"@,
    ).code("mcp_tls_indirect_material_unavailable"@)
}

/// The configuration after the next step, and what is to be fetched for it. A
/// reference to material that was handed in is resolved at once; one of an
/// unknown kind is passed over.
pub open spec fn next_step(m: AssemblyModel) -> (AssemblyModel, StepModel)
    decreases m.references.len() - m.at,
{
    if m.at < 0 || m.at >= m.references.len() {
        (m, StepModel::Done)
    } else {
        let reference = m.references[m.at];
        let passed = AssemblyModel { at: m.at + 1, ..m };
        if reference == "system"@ {
            (passed, StepModel::System)
        } else if text::stands_at(reference, "file:"@, 0) {
            match m.material.project_root {
                None => (m, StepModel::Refused(project_root_required_model())),
                Some(project_root) => (
                    passed,
                    StepModel::File { project_root, path: reference.skip(5) },
                ),
            }
        } else if text::stands_at(reference, "pem:"@, 0) {
            if !m.material.indirect_trust_roots.dom().contains(reference) {
                (m, StepModel::Refused(indirect_unavailable_model()))
            } else {
                let taken = MaterialModel {
                    indirect_trust_roots: m.material.indirect_trust_roots.remove(reference),
                    ..m.material
                };
                match pem_anchors(m.material.indirect_trust_roots[reference]) {
                    Err(error) => (m, StepModel::Refused(error)),
                    Ok(added) => next_step(
                        AssemblyModel {
                            anchors: m.anchors + added,
                            at: m.at + 1,
                            material: taken,
                            ..m
                        },
                    ),
                }
            }
        } else {
            next_step(passed)
        }
    }
}

pub open spec fn unused_roots_model() -> ErrorModel {
    ErrorModel::new(
        ErrorKind::InvalidArgument,
        "MCP TLS material contains unconfigured indirect trust roots"@,
    ).code("mcp_tls_material_unused"@)
}

pub open spec fn empty_store_model() -> ErrorModel {
    ErrorModel::new(
        ErrorKind::PermissionDenied,
        "MCP TLS trust policy resolved to no usable certificates"@,
    ).code("mcp_tls_trust_store_empty"@)
}

pub open spec fn client_auth_invalid_model() -> ErrorModel {
    ErrorModel::new(
        ErrorKind::InvalidArgument,
        "MCP TLS client certificate and private key are invalid or mismatched"@,
    ).code("mcp_tls_client_auth_invalid"@)
}

pub open spec fn client_auth_unavailable_model() -> ErrorModel {
    ErrorModel::new(
        ErrorKind::PermissionDenied,
        "MCP TLS client authentication material is unavailable"@,
    ).code("mcp_tls_client_auth_material_unavailable"@)
}

pub open spec fn unused_client_auth_model() -> ErrorModel {
    ErrorModel::new(
        ErrorKind::InvalidArgument,
        "MCP TLS material contains unconfigured client authentication bytes"@,
    ).code("mcp_tls_material_unused"@)
}

/// What a client shows that is configured to show a certificate or not.
pub open spec fn identity_of(material: MaterialModel, client_auth: bool) -> Result<
    Option<IdentityModel>,
    ErrorModel,
> {
    match (material.client_certificate, material.client_private_key) {
        (None, None) => if client_auth {
            Err(client_auth_unavailable_model())
        } else {
            Ok(None)
        },
        (Some(certificate), Some(key)) => if !client_auth {
            Err(unused_client_auth_model())
        } else {
            match certificates_of(certificate, "client_certificate"@) {
                Err(error) => Err(error),
                Ok(chain) => match key_of(key) {
                    Err(error) => Err(error),
                    Ok((form, key)) => if identity_accepted(chain, form, key) {
                        Ok(Some(IdentityModel { chain, form, key }))
                    } else {
                        Err(client_auth_invalid_model())
                    },
                },
            }
        },
        _ => if client_auth {
            Err(client_auth_unavailable_model())
        } else {
            Err(unused_client_auth_model())
        },
    }
}

/// Whether an error is one that a client is refused with: the one that its
/// configuration has, or that of a certificate which can be accepted but was not,
/// because random bytes were wanted for its key and did not come.
pub open spec fn is_client_refusal(
    error: ErrorModel,
    configuration: Result<Option<IdentityModel>, ErrorModel>,
) -> bool {
    match configuration {
        Err(expected) => error == expected,
        Ok(None) => false,
        Ok(Some(identity)) => error == client_auth_invalid_model() && !loads_without_chance(
            identity.form,
            identity.key,
        ),
    }
}

/// What the configuration of a client holds, or why it is refused: material is
/// left over, nothing is trusted, or what the client is to show is not at hand.
pub open spec fn configuration_of(m: AssemblyModel, client_auth: bool) -> Result<
    Option<IdentityModel>,
    ErrorModel,
> {
    if m.material.indirect_trust_roots.dom().len() > 0 {
        Err(unused_roots_model())
    } else if m.anchors.len() == 0 {
        Err(empty_store_model())
    } else {
        identity_of(m.material, client_auth)
    }
}

/// The application protocol that a client offers.
pub open spec fn offered_protocols() -> Seq<Seq<u8>> {
    seq![encode_utf8("http/1.1"@)]
}

fn http_protocols() -> (protocols: Vec<Vec<u8>>)
    ensures
        contents(protocols@) == offered_protocols(),
{
    let name = "http/1.1".as_bytes();
    let bytes = bytes_of(name, 0, name.len());
    assert(bytes@ =~= encode_utf8("http/1.1"@));
    let protocols = vec![bytes];
    assert(contents(protocols@) =~= offered_protocols());
    protocols
}

impl TlsAssembly {
    pub closed spec fn wf(&self) -> bool {
        self.material.wf() && self.at <= self.references@.len()
    }

    /// Start to put a configuration together.
    pub fn new(references: &Vec<String>, material: McpTlsMaterial) -> (assembly: TlsAssembly)
        requires
            material.wf(),
        ensures
            assembly.wf(),
            assembly@ == (AssemblyModel {
                anchors: Seq::empty(),
                references: effective_references(text::texts(references@)),
                at: 0,
                material: material@,
            }),
    {
        let mut all: Vec<String> = Vec::new();
        if references.len() == 0 {
            all.push("system".to_owned());
            assert(text::texts(all@) =~= effective_references(text::texts(references@)));
        } else {
            let mut i: usize = 0;
            while i < references.len()
                invariant
                    i <= references@.len(),
                    text::texts(all@) == text::texts(references@).take(i as int),
                decreases references@.len() - i,
            {
                let ghost before = text::texts(all@);
                let reference = references[i].as_str().to_owned();
                let ghost added = reference@;
                all.push(reference);
                assert(text::texts(all@) =~= before.push(added));
                assert(text::texts(references@).take(i + 1) =~= text::texts(references@).take(
                    i as int,
                ).push(added));
                i += 1;
            }
            assert(text::texts(all@) =~= text::texts(references@));
        }
        TlsAssembly { roots: empty_roots(), references: all, at: 0, material }
    }

    /// Go on until something is to be fetched, or nothing is left to do.
    pub fn step(&mut self) -> (step: TrustStep)
        requires
            old(self).wf(),
        ensures
            final(self).wf(),
            step@ == next_step(old(self)@).1,
            !(step is Refused) ==> final(self)@ == next_step(old(self)@).0,
    {
        while self.at < self.references.len()
            invariant
                self.wf(),
                next_step(old(self)@) == next_step(self@),
            decreases self.references@.len() - self.at,
        {
            let reference = self.references[self.at].as_str().to_owned();
            assert(self@.references[self@.at] == reference@);
            if str_eq(reference.as_str(), "system") {
                self.at = self.at + 1;
                return TrustStep::System;
            }
            if starts_with(reference.as_str(), "file:") {
                let project_root = match self.material.project_root() {
                    Some(root) => root.to_owned(),
                    None => return TrustStep::Refused(
                        EvaError::permission_denied(
                            "MCP file trust root requires an explicit controlled project root",
                        ).with_provider_code("mcp_tls_project_root_required"),
                    ),
                };
                proof {
                    reveal_strlit("file:");
                    assert("file:"@.len() == 5);
                }
                let chars = chars_of(reference.as_str());
                let path = string_of(chars.as_slice(), 5, chars.len());
                assert(path@ =~= reference@.skip(5));
                self.at = self.at + 1;
                return TrustStep::File { project_root, path };
            }
            if starts_with(reference.as_str(), "pem:") {
                match self.material.take_trust_root(reference.as_str()) {
                    None => return TrustStep::Refused(
                        EvaError::permission_denied(
                            "MCP indirect trust root material resolver is unavailable",
                        ).with_provider_code("mcp_tls_indirect_material_unavailable"),
                    ),
                    Some(root) => match add_pem_roots(&mut self.roots, unseal(&root)) {
                        Ok(()) => {},
                        Err(error) => return TrustStep::Refused(error),
                    },
                }
            }
            self.at = self.at + 1;
        }
        TrustStep::Done
    }
}

impl TlsAssembly {
    /// Trust the certificates that the platform trusts.
    pub fn add_system(&mut self, certificates: Vec<Vec<u8>>) -> (outcome: Result<(), EvaError>)
        requires
            old(self).wf(),
        ensures
            final(self).wf(),
            match outcome {
                Ok(()) => {
                    &&& anchors_of(contents(certificates@)).len() > 0
                    &&& final(self)@ == (AssemblyModel {
                        anchors: old(self)@.anchors + anchors_of(contents(certificates@)),
                        ..old(self)@
                    })
                },
                Err(error) => anchors_of(contents(certificates@)).len() == 0 && error@
                    == no_system_roots_model(),
            },
    {
        add_system_roots(&mut self.roots, certificates)
    }

    /// Trust the certificates in a file.
    pub fn add_file(&mut self, pem: &[u8]) -> (outcome: Result<(), EvaError>)
        requires
            old(self).wf(),
        ensures
            final(self).wf(),
            match outcome {
                Ok(()) => pem_anchors(pem@) matches Ok(added) && final(self)@ == (AssemblyModel {
                    anchors: old(self)@.anchors + added,
                    ..old(self)@
                }),
                Err(error) => pem_anchors(pem@) == Err::<Seq<Seq<u8>>, ErrorModel>(error@),
            },
    {
        add_pem_roots(&mut self.roots, pem)
    }

    /// Finish the configuration, with or without a certificate to show.
    pub fn finish(self, client_auth: bool) -> (outcome: Result<ClientConfig, EvaError>)
        requires
            self.wf(),
        ensures
            match outcome {
                Ok(config) => {
                    &&& configuration_of(self@, client_auth) == Ok::<
                        Option<IdentityModel>,
                        ErrorModel,
                    >(config_identity(config))
                    &&& config_anchors(config) == self@.anchors
                    &&& config_protocols(config) == offered_protocols()
                },
                Err(error) => is_client_refusal(
                    error@,
                    configuration_of(self@, client_auth),
                ),
            },
    {
        if self.material.has_trust_roots() {
            return Err(
                EvaError::invalid_argument(
                    "MCP TLS material contains unconfigured indirect trust roots",
                ).with_provider_code("mcp_tls_material_unused"),
            );
        }
        if no_roots(&self.roots) {
            return Err(
                EvaError::permission_denied(
                    "MCP TLS trust policy resolved to no usable certificates",
                ).with_provider_code("mcp_tls_trust_store_empty"),
            );
        }
        match (self.material.certificate(), self.material.private_key()) {
            (None, None) => {
                if client_auth {
                    return Err(client_auth_unavailable());
                }
                match anonymous_client(self.roots, http_protocols()) {
                    Some(config) => Ok(config),
                    None => Err(
                        EvaError::internal(
                            "failed to configure MCP TLS protocol versions",
                        ).with_provider_code("mcp_tls_protocol_config_invalid"),
                    ),
                }
            },
            (Some(certificate), Some(key)) => {
                if !client_auth {
                    return Err(unused_client_auth());
                }
                let chain = match parse_certificate_pem(unseal(certificate), "client_certificate") {
                    Ok(chain) => chain,
                    Err(error) => return Err(error),
                };
                proof {
                    lemma_certificates_exist(
                        self@.material.client_certificate->0,
                        Seq::empty(),
                        "client_certificate"@,
                    );
                }
                let (form, der) = match parse_private_key_pem(unseal(key)) {
                    Ok((form, der)) => (form, der),
                    Err(error) => return Err(error),
                };
                require_identity(known_client(self.roots, chain, form, der, http_protocols()))
            },
            _ => if client_auth {
                Err(client_auth_unavailable())
            } else {
                Err(unused_client_auth())
            },
        }
    }
}

/// Refuse a client whose certificate and key were not accepted.
pub fn require_identity(config: Option<ClientConfig>) -> (outcome: Result<ClientConfig, EvaError>)
    ensures
        match config {
            Some(config) => outcome == Ok::<ClientConfig, EvaError>(config),
            None => outcome matches Err(error) && error@ == client_auth_invalid_model(),
        },
{
    match config {
        Some(config) => Ok(config),
        None => Err(
            EvaError::invalid_argument(
                "MCP TLS client certificate and private key are invalid or mismatched",
            ).with_provider_code("mcp_tls_client_auth_invalid"),
        ),
    }
}

fn client_auth_unavailable() -> (error: EvaError)
    ensures
        error@ == client_auth_unavailable_model(),
{
    EvaError::permission_denied(
        "MCP TLS client authentication material is unavailable",
    ).with_provider_code("mcp_tls_client_auth_material_unavailable")
}

fn unused_client_auth() -> (error: EvaError)
    ensures
        error@ == unused_client_auth_model(),
{
    EvaError::invalid_argument(
        "MCP TLS material contains unconfigured client authentication bytes",
    ).with_provider_code("mcp_tls_material_unused")
}

proof fn lemma_certificates_exist(pem: Seq<u8>, read: Seq<Seq<u8>>, purpose: Seq<char>)
    ensures
        certificates_from(pem, read, purpose) matches Ok(all) ==> all.len() > 0,
    decreases pem.len(),
{
    match pem_section(pem) {
        SectionModel::Certificate { der, left } => {
            if left < pem.len() {
                lemma_certificates_exist(pem.skip(pem.len() - left), read.push(der), purpose);
            }
        },
        _ => {},
    }
}

// ---------------------------------------------------------------------------
// Laws
// ---------------------------------------------------------------------------

/// A client that is configured trusts something, and shows a certificate exactly
/// if it is configured to.
pub proof fn law_configured_clients_trust_something(m: AssemblyModel, client_auth: bool)
    ensures
        configuration_of(m, client_auth) matches Ok(identity) ==> {
            &&& m.anchors.len() > 0
            &&& identity is Some <==> client_auth
            &&& m.material.indirect_trust_roots.dom().len() == 0
        },
{
}

/// A client that shows no certificate, or one whose key is loaded without random
/// bytes, is refused only with the error that its configuration has.
pub proof fn law_chance_refuses_only_curve_keys(
    error: ErrorModel,
    configuration: Result<Option<IdentityModel>, ErrorModel>,
)
    requires
        is_client_refusal(error, configuration),
        configuration matches Ok(Some(identity)) ==> loads_without_chance(
            identity.form,
            identity.key,
        ),
    ensures
        configuration == Err::<Option<IdentityModel>, ErrorModel>(error),
{
}

/// Certificate and key bytes that are not configured are never used: where no
/// certificate is to be shown, material for one is refused.
pub proof fn law_unconfigured_identities_are_refused(m: AssemblyModel)
    requires
        m.material.client_certificate is Some || m.material.client_private_key is Some,
    ensures
        configuration_of(m, false) is Err,
{
}

proof fn lemma_step_keeps(m: AssemblyModel)
    requires
        0 <= m.at <= m.references.len(),
    ensures
        ({
            let (after, step) = next_step(m);
            &&& after.references == m.references
            &&& after.material.project_root == m.material.project_root
            &&& after.material.client_certificate == m.material.client_certificate
            &&& after.material.client_private_key == m.material.client_private_key
            &&& m.at <= after.at <= after.references.len()
            &&& step is Done ==> after.at == after.references.len()
            &&& after.anchors.len() >= m.anchors.len()
        }),
    decreases m.references.len() - m.at,
{
    if m.at < m.references.len() {
        let reference = m.references[m.at];
        let passed = AssemblyModel { at: m.at + 1, ..m };
        if reference == "system"@ || text::stands_at(reference, "file:"@, 0) {
        } else if text::stands_at(reference, "pem:"@, 0) {
            if m.material.indirect_trust_roots.dom().contains(reference) {
                let taken = MaterialModel {
                    indirect_trust_roots: m.material.indirect_trust_roots.remove(reference),
                    ..m.material
                };
                match pem_anchors(m.material.indirect_trust_roots[reference]) {
                    Ok(added) => {
                        lemma_step_keeps(
                            AssemblyModel {
                                anchors: m.anchors + added,
                                at: m.at + 1,
                                material: taken,
                                ..m
                            },
                        );
                    },
                    Err(_) => {},
                }
            }
        } else {
            lemma_step_keeps(passed);
        }
    }
}

/// The steps of a configuration go through the references in order, never back,
/// and are done exactly at their end; they take nothing away that is trusted
/// already.
pub proof fn law_steps_go_through_the_references(m: AssemblyModel)
    requires
        0 <= m.at <= m.references.len(),
    ensures
        ({
            let (after, step) = next_step(m);
            &&& after.references == m.references
            &&& m.at <= after.at <= after.references.len()
            &&& step is Done ==> after.at == after.references.len()
            &&& step is System || step is File ==> m.at < after.at
            &&& after.anchors.len() >= m.anchors.len()
        }),
    decreases m.references.len() - m.at,
{
    lemma_step_keeps(m);
    if m.at < m.references.len() {
        let reference = m.references[m.at];
        if !(reference == "system"@ || text::stands_at(reference, "file:"@, 0)) {
            if text::stands_at(reference, "pem:"@, 0) {
                if m.material.indirect_trust_roots.dom().contains(reference) {
                    match pem_anchors(m.material.indirect_trust_roots[reference]) {
                        Ok(added) => {
                            lemma_step_keeps(
                                AssemblyModel {
                                    anchors: m.anchors + added,
                                    at: m.at + 1,
                                    material: MaterialModel {
                                        indirect_trust_roots: m.material.indirect_trust_roots.remove(
                                            reference,
                                        ),
                                        ..m.material
                                    },
                                    ..m
                                },
                            );
                        },
                        Err(_) => {},
                    }
                }
            } else {
                lemma_step_keeps(AssemblyModel { at: m.at + 1, ..m });
            }
        }
    }
}

} // verus!
