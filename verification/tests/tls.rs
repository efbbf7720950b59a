//! TLS material, trust files and connections.

use eva_mcp::compatibility_tls::{compatibility_tls_server_config, require_server_identity};
use eva_mcp::connection::{
    abort_outcome, acquire_resolver, attempts_failed, check_resolution,
    classify_certificate_error, connect_error, connector_kind, map_http_read_error,
    map_http_write_error, map_tls_handshake_error, remaining_timeout, require_scheme,
    require_server_name, resolvers_exhausted, transfer_counts, CertificateFault, ConnectFault, ConnectorKind,
    HandshakeFault, McpSocketTimeout, Resolution, SocketShutdown, MAX_DNS_ADDRESSES,
};
use eva_mcp::error::{ErrorKind, EvaError};
use eva_mcp::tls_config::{
    parse_certificate_pem, parse_private_key_pem, require_identity, KeyForm, TlsAssembly, TrustStep,
};
use eva_mcp::tls_material::{validate_material_size, McpTlsMaterial, MAX_TLS_MATERIAL_BYTES};
use eva_mcp::trust_file::{
    trust_path_components, EntryKind, PathStyle, TrustFileAction, TrustFileCheck, TrustFileEvent,
    TrustFileOutcome,
};
use eva_mcp::wide_path::{
    name_byte_length, os_string_eq_ignore_ascii_case, path_is_below, paths_equal, MAX_NAME_UNITS,
};

const TEST_CA_PEM: &[u8] = b"-----BEGIN CERTIFICATE-----
MIHpMIGcoAMCAQICAQcwBQYDK2VwMBQxEjAQBgNVBAMMCXRlc3Qgcm9vdDAeFw0y
NTAxMDEwMDAwMDBaFw00OTAxMDEwMDAwMDBaMBQxEjAQBgNVBAMMCXRlc3Qgcm9v
dDAqMAUGAytlcAMhAHm1Vi6P5lT5QHixEuipi6eQH4U65pW+1+DjkQutBJZkoxMw
ETAPBgNVHRMBAf8EBTADAQH/MAUGAytlcANBAC2Yef5A1l50o88OZHrjUoM6d2EY
0RgbsTSDQKDTfGe8nnshWa3qyxIQx1v1kbumHWNUmY0RVJZMsJtGMRw4Mww=
-----END CERTIFICATE-----
";

const TEST_CLIENT_PEM: &[u8] = b"-----BEGIN CERTIFICATE-----
MIHoMIGboAMCAQICAQcwBQYDK2VwMBQxEjAQBgNVBAMMCXRlc3Qgcm9vdDAeFw0y
NTAxMDEwMDAwMDBaFw00OTAxMDEwMDAwMDBaMBYxFDASBgNVBAMMC3Rlc3QgY2xp
ZW50MCowBQYDK2VwAyEAQ83AI9ItX54QfRoGk0V9NdHRDrfSHHIRkvVvXeQGZdOj
EDAOMAwGA1UdEwEB/wQCMAAwBQYDK2VwA0EAHUEA/HYEhS4mVMOSBB8KMg/SZF25
o9/qpSH5txgPZh0O8QKB7xtw4QexpBHJwBdbjsbjI4ifX06JhuCfdxZ9Bw==
-----END CERTIFICATE-----
";

fn assert_provider_code(error: &EvaError, expected: &str) {
    assert_eq!(error.provider_code(), Some(expected), "unexpected error: {error:?}");
}

fn base64(bytes: &[u8]) -> String {
    const DIGITS: &[u8] = b"ABCDEFGHIJKLMNOPQRSTUVWXYZabcdefghijklmnopqrstuvwxyz0123456789+/";
    let mut text = String::new();
    for group in bytes.chunks(3) {
        let mut bits: u32 = 0;
        for at in 0..3 {
            bits = (bits << 8) | u32::from(group.get(at).copied().unwrap_or(0));
        }
        for at in 0..4 {
            if at <= group.len() {
                text.push(char::from(DIGITS[(bits >> (18 - 6 * at) & 63) as usize]));
            } else {
                text.push('=');
            }
        }
    }
    text
}

fn pem(label: &str, der: &[u8]) -> Vec<u8> {
    format!("-----BEGIN {label}-----\n{}\n-----END {label}-----\n", base64(der)).into_bytes()
}

/// An Ed25519 key made of counted bytes.
fn key_der(first: u8) -> Vec<u8> {
    let mut der =
        vec![0x30, 0x2e, 2, 1, 0, 0x30, 5, 6, 3, 0x2b, 0x65, 0x70, 4, 0x22, 4, 0x20];
    der.extend((0..32).map(|at| first + at));
    der
}

/// The key that goes with the certificate of the client.
fn client_key() -> Vec<u8> {
    pem("PRIVATE KEY", &key_der(2))
}

fn roots() -> McpTlsMaterial {
    McpTlsMaterial::new()
        .with_indirect_trust_root("pem:test-ca", TEST_CA_PEM.to_vec())
        .ok()
        .unwrap()
}

/// Put a configuration together that trusts the given material alone.
fn assemble(material: McpTlsMaterial, client_auth: bool) -> Result<usize, EvaError> {
    let mut assembly = TlsAssembly::new(&vec!["pem:test-ca".to_owned()], material);
    match assembly.step() {
        TrustStep::Done => {}
        TrustStep::Refused(error) => return Err(error),
        _ => panic!("nothing has to be fetched"),
    }
    assembly.finish(client_auth).map(|config| config.alpn_protocols.len())
}

#[test]
fn tls_material_debug_never_contains_paths_references_or_bytes() {
    let material = McpTlsMaterial::new()
        .with_project_root("C:/secret/project")
        .with_indirect_trust_root("pem:secret-root", b"secret-cert".to_vec())
        .ok()
        .unwrap()
        .with_client_auth(b"secret-client-cert".to_vec(), b"secret-key".to_vec())
        .ok()
        .unwrap();

    let debug = material.describe();
    assert!(!debug.contains("secret"));
    assert!(!debug.contains("C:/secret/project"));
    assert!(!debug.contains("pem:secret-root"));
    assert!(!debug.contains("secret-client-cert"));
    assert!(debug.contains("indirect_trust_root_count: 1"));
    assert!(debug.contains("client_certificate_present: true"));
}

#[test]
fn certificate_error_classification_is_stable() {
    assert_eq!(
        classify_certificate_error(CertificateFault::Expired).1,
        "mcp_tls_certificate_expired"
    );
    assert_eq!(
        classify_certificate_error(CertificateFault::UnknownIssuer).1,
        "mcp_tls_unknown_ca"
    );
    assert_eq!(
        classify_certificate_error(CertificateFault::NotValidForName).1,
        "mcp_tls_hostname_mismatch"
    );
}

#[test]
fn handshake_faults_have_their_codes() {
    for (fault, code) in [
        (CertificateFault::Expired, "mcp_tls_certificate_expired"),
        (CertificateFault::UnknownIssuer, "mcp_tls_unknown_ca"),
        (CertificateFault::NotValidForName, "mcp_tls_hostname_mismatch"),
    ] {
        let error =
            map_tls_handshake_error(HandshakeFault::Certificate(fault), "https://localhost:1");
        assert_provider_code(&error, code);
    }
}

#[test]
fn missing_and_bad_client_auth_material_fail_before_network_io() {
    let error = assemble(roots(), true).unwrap_err();
    assert_provider_code(&error, "mcp_tls_client_auth_material_unavailable");

    let mismatched = roots()
        .with_client_auth(TEST_CLIENT_PEM.to_vec(), pem("PRIVATE KEY", &key_der(9)))
        .ok()
        .unwrap();
    let error = assemble(mismatched, true).unwrap_err();
    assert_provider_code(&error, "mcp_tls_client_auth_invalid");

    let unread = roots()
        .with_client_auth(TEST_CLIENT_PEM.to_vec(), pem("RSA PRIVATE KEY", &[0x30, 0]))
        .ok()
        .unwrap();
    let error = assemble(unread, true).unwrap_err();
    assert_provider_code(&error, "mcp_tls_client_auth_invalid");

    let malformed = McpTlsMaterial::new()
        .with_indirect_trust_root("pem:test-ca", b"not a certificate".to_vec())
        .ok()
        .unwrap()
        .with_client_auth(TEST_CLIENT_PEM.to_vec(), client_key())
        .ok()
        .unwrap();
    let error = assemble(malformed, true).unwrap_err();
    assert_provider_code(&error, "mcp_tls_certificate_pem_empty");

    let duplicate = McpTlsMaterial::new()
        .with_client_auth(TEST_CLIENT_PEM.to_vec(), client_key())
        .ok()
        .unwrap()
        .with_client_auth(TEST_CLIENT_PEM.to_vec(), client_key())
        .err()
        .unwrap();
    assert_provider_code(&duplicate, "mcp_tls_client_auth_material_duplicate");
}

#[test]
fn clients_show_the_certificate_they_were_given() {
    let material =
        roots().with_client_auth(TEST_CLIENT_PEM.to_vec(), client_key()).ok().unwrap();
    let mut assembly = TlsAssembly::new(&vec!["pem:test-ca".to_owned()], material);
    assert!(matches!(assembly.step(), TrustStep::Done));
    let config = assembly.finish(true).ok().unwrap();
    assert!(config.client_auth_cert_resolver.has_certs());
    assert_eq!(config.alpn_protocols, vec![b"http/1.1".to_vec()]);

    let mut assembly = TlsAssembly::new(&vec!["pem:test-ca".to_owned()], roots());
    assert!(matches!(assembly.step(), TrustStep::Done));
    let config = assembly.finish(false).ok().unwrap();
    assert!(!config.client_auth_cert_resolver.has_certs());
    assert_eq!(config.alpn_protocols, vec![b"http/1.1".to_vec()]);
}

#[test]
fn indirect_root_without_material_fails_closed() {
    let error = assemble(McpTlsMaterial::new(), false).unwrap_err();
    assert_provider_code(&error, "mcp_tls_indirect_material_unavailable");
}

#[test]
fn unused_material_is_refused() {
    let material = roots()
        .with_indirect_trust_root("pem:other", TEST_CA_PEM.to_vec())
        .ok()
        .unwrap();
    let error = assemble(material, false).unwrap_err();
    assert_provider_code(&error, "mcp_tls_material_unused");

    let material =
        roots().with_client_auth(TEST_CLIENT_PEM.to_vec(), client_key()).ok().unwrap();
    let error = assemble(material, false).unwrap_err();
    assert_provider_code(&error, "mcp_tls_material_unused");
}

#[test]
fn trusted_certificates_are_parsed() {
    let broken = McpTlsMaterial::new()
        .with_indirect_trust_root("pem:test-ca", pem("CERTIFICATE", b"not der"))
        .ok()
        .unwrap();
    let error = assemble(broken, false).unwrap_err();
    assert_provider_code(&error, "mcp_tls_trust_root_invalid");

    let der = parse_certificate_pem(TEST_CA_PEM, "root").ok().unwrap().remove(0);
    let mut system = TlsAssembly::new(&Vec::new(), McpTlsMaterial::new());
    assert!(matches!(system.step(), TrustStep::System));
    assert!(system.add_system(vec![b"junk".to_vec()]).is_err());
    let mut system = TlsAssembly::new(&vec!["system".to_owned()], McpTlsMaterial::new());
    assert!(matches!(system.step(), TrustStep::System));
    system.add_system(vec![b"junk".to_vec(), der]).unwrap();
    assert!(matches!(system.step(), TrustStep::Done));
    assert!(system.finish(false).is_ok());
}

#[test]
fn clients_without_roots_are_refused() {
    let mut assembly = TlsAssembly::new(&vec!["other".to_owned()], McpTlsMaterial::new());
    assert!(matches!(assembly.step(), TrustStep::Done));
    assert_provider_code(
        &assembly.finish(false).err().unwrap(),
        "mcp_tls_trust_store_empty",
    );
}

#[test]
fn pem_sections_are_told_apart() {
    let both = [TEST_CA_PEM, TEST_CLIENT_PEM].concat();
    let certificates = parse_certificate_pem(&both, "root").ok().unwrap();
    assert_eq!(certificates.len(), 2);
    assert_eq!(certificates[0][0], 0x30);
    assert_ne!(certificates[0], certificates[1]);
    let mixed = [TEST_CA_PEM, &client_key()].concat();
    assert!(parse_certificate_pem(&mixed, "root").is_err());
    assert!(parse_certificate_pem(b"", "root").is_err());
    assert!(parse_certificate_pem(b"-----BEGIN CERTIFICATE-----\n!", "root").is_err());

    assert_eq!(parse_private_key_pem(&client_key()).ok(), Some((KeyForm::Pkcs8, key_der(2))));
    assert_eq!(
        parse_private_key_pem(&pem("RSA PRIVATE KEY", b"abc")).ok(),
        Some((KeyForm::Pkcs1, b"abc".to_vec()))
    );
    assert_eq!(
        parse_private_key_pem(&pem("EC PRIVATE KEY", b"abc")).ok(),
        Some((KeyForm::Sec1, b"abc".to_vec()))
    );
    assert!(parse_private_key_pem(TEST_CA_PEM).is_err());
    assert!(parse_private_key_pem(&[client_key(), client_key()].concat()).is_err());
}

#[test]
fn material_is_bounded_and_named() {
    assert!(validate_material_size(b"", "root").is_err());
    assert!(validate_material_size(&vec![b'x'; MAX_TLS_MATERIAL_BYTES], "root").is_ok());
    assert!(validate_material_size(&vec![b'x'; MAX_TLS_MATERIAL_BYTES + 1], "root").is_err());
    assert!(McpTlsMaterial::new()
        .with_indirect_trust_root("file:a", b"x".to_vec())
        .is_err());
    assert!(roots().with_indirect_trust_root("pem:test-ca", b"x".to_vec()).is_err());
}

// ---------------------------------------------------------------------------
// Trust files
// ---------------------------------------------------------------------------

/// A file system in which every path is what it seems, but for one.
fn read_trust_file(
    root: &str,
    path: &str,
    canonical: &str,
    odd: Option<(usize, EntryKind)>,
    length: u64,
) -> Result<Vec<u8>, EvaError> {
    let absolute = root.starts_with('/');
    let mut check = match TrustFileCheck::begin(root, absolute, path, PathStyle::Slash) {
        Ok(check) => check,
        Err(error) => return Err(error),
    };
    let count = check.component_count();
    loop {
        let event = match check.action() {
            TrustFileAction::InspectRoot | TrustFileAction::InspectCanonicalRoot => {
                TrustFileEvent::Entry(Some(EntryKind::Directory))
            }
            TrustFileAction::CanonicalizeRoot => {
                TrustFileEvent::Canonical(Some(canonical.to_owned()))
            }
            TrustFileAction::InspectComponent(at) => TrustFileEvent::Entry(Some(match odd {
                Some((place, kind)) if place == at => kind,
                _ if at == count => EntryKind::File,
                _ => EntryKind::Directory,
            })),
            TrustFileAction::Open => TrustFileEvent::Opened(true),
            TrustFileAction::InspectFile => {
                TrustFileEvent::FileEntry(Some((EntryKind::File, length)))
            }
            TrustFileAction::Read => TrustFileEvent::Bytes(Some(TEST_CA_PEM.to_vec())),
        };
        match check.take(event) {
            TrustFileOutcome::Next => {}
            TrustFileOutcome::Use(bytes) => return Ok(bytes),
            TrustFileOutcome::Refuse(error) => return Err(error),
            TrustFileOutcome::Unexpected => panic!("the check asked for something else"),
        }
    }
}

#[test]
fn file_root_is_read_only_below_explicit_canonical_project_root() {
    let length = TEST_CA_PEM.len() as u64;
    let bytes = read_trust_file("/project", "certs/ca.pem", "/project", None, length).ok().unwrap();
    let mut assembly = TlsAssembly::new(
        &vec!["file:certs/ca.pem".to_owned()],
        McpTlsMaterial::new().with_project_root("/project"),
    );
    match assembly.step() {
        TrustStep::File { project_root, path } => {
            assert_eq!((project_root.as_str(), path.as_str()), ("/project", "certs/ca.pem"));
        }
        _ => panic!("the file has to be read"),
    }
    assembly.add_file(&bytes).unwrap();
    assert!(matches!(assembly.step(), TrustStep::Done));
    assert!(assembly.finish(false).is_ok());

    for relative in ["certs/ca.pem:stream", "certs/ca.pem::$DATA"] {
        let error = read_trust_file("/project", relative, "/project", None, length).unwrap_err();
        assert_provider_code(&error, "mcp_tls_trust_root_escape");
    }
}

#[test]
fn file_root_rejects_symlink_or_reparse_escape() {
    for at in [1, 2] {
        let error =
            read_trust_file("/project", "certs/ca.pem", "/project", Some((at, EntryKind::Link)), 9)
                .unwrap_err();
        assert_provider_code(&error, "mcp_tls_trust_root_link");
    }
}

#[test]
fn noncanonical_or_missing_project_root_fails_closed() {
    let mut assembly =
        TlsAssembly::new(&vec!["file:certs/ca.pem".to_owned()], McpTlsMaterial::new());
    match assembly.step() {
        TrustStep::Refused(error) => assert_provider_code(&error, "mcp_tls_project_root_required"),
        _ => panic!("there is no directory"),
    }

    let error =
        read_trust_file("/project/.", "certs/ca.pem", "/project", None, 9).unwrap_err();
    assert_provider_code(&error, "mcp_tls_project_root_not_canonical");
}

#[test]
fn paths_of_trust_files_stay_below_their_directory() {
    let slash = |path: &str| trust_path_components(path, PathStyle::Slash);
    let either = |path: &str| trust_path_components(path, PathStyle::SlashOrBackslash);
    assert_eq!(slash("a/b.pem").ok().unwrap(), vec!["a", "b.pem"]);
    assert_eq!(slash("a//./b\\c/").ok().unwrap(), vec!["a", "b\\c"]);
    assert_eq!(either("a//.\\b\\c/").ok().unwrap(), vec!["a", "b", "c"]);
    for path in ["", "/a", "a/../b", "../a", ".", "a:b", "a\\b:c"] {
        assert!(slash(path).is_err(), "{path}");
        assert!(either(path).is_err(), "{path}");
    }
    assert_eq!(slash("a\\..\\b").ok().unwrap(), vec!["a\\..\\b"]);
    for path in ["a\\..\\b", "\\a", "..\\a", ".\\a"] {
        assert_provider_code(&either(path).unwrap_err(), "mcp_tls_trust_root_escape");
    }
    let error = read_trust_file("/p", "a", "/p", None, u64::MAX).unwrap_err();
    assert!(error.provider_code().is_some(), "{error:?}");
    assert!(read_trust_file("/p", "a", "/p", Some((1, EntryKind::Other)), 9).is_err());
    assert!(read_trust_file("p", "a", "p", None, 9).is_err());
}

// ---------------------------------------------------------------------------
// Connections
// ---------------------------------------------------------------------------

#[test]
fn timeouts_of_connections_are_classified() {
    let origin = "https://localhost";
    assert_provider_code(
        &connect_error(ConnectFault::TimedOut, origin),
        "mcp_http_connect_timeout",
    );
    assert_provider_code(
        &map_tls_handshake_error(HandshakeFault::TimedOut, origin),
        "mcp_tls_handshake_timeout",
    );
    assert_provider_code(&map_http_read_error(true, origin), "mcp_http_read_timeout");
    assert_provider_code(&map_http_write_error(true, origin), "mcp_http_write_timeout");
    assert_provider_code(&map_http_read_error(false, origin), "mcp_http_read_failed");
    assert_provider_code(&map_http_write_error(false, origin), "mcp_http_write_failed");
    assert_eq!(attempts_failed(true, false), ConnectFault::TimedOut);
    assert_eq!(attempts_failed(false, true), ConnectFault::TimedOut);
    assert_eq!(attempts_failed(false, false), ConnectFault::Failed);
    assert_eq!(remaining_timeout(McpSocketTimeout::Deadline(0)), None);
    assert_eq!(remaining_timeout(McpSocketTimeout::Deadline(7)), Some(7));
    assert!(!transfer_counts(McpSocketTimeout::Deadline(0)));
    assert!(transfer_counts(McpSocketTimeout::Idle(5)));
}

#[test]
fn dns_resolution_obeys_the_caller_deadline_and_address_bound() {
    for late in [
        Resolution::Expired,
        Resolution::TimedOut,
        Resolution::Answered { in_time: false, addresses: Some(1) },
    ] {
        let error = check_resolution(late, "http://dns-timeout.invalid").unwrap_err();
        assert_provider_code(&error, "mcp_http_dns_timeout");
    }

    let answered =
        |count: usize| Resolution::Answered { in_time: true, addresses: Some(count) };
    let error = check_resolution(answered(MAX_DNS_ADDRESSES + 1), "http://dns-limit.invalid")
        .unwrap_err();
    assert_provider_code(&error, "mcp_http_dns_address_limit");
    check_resolution(answered(MAX_DNS_ADDRESSES), "http://dns-limit.invalid").unwrap();

    assert_eq!(acquire_resolver(0, 1), Some(1));
    assert_eq!(acquire_resolver(1, 1), None);
    let error = resolvers_exhausted("http://dns-busy.invalid");
    assert_provider_code(&error, "mcp_http_dns_capacity_exhausted");
    assert!(error.is_retryable());
    assert_eq!(error.kind(), ErrorKind::Unavailable);
}

#[test]
fn connectors_and_sockets_are_told_apart() {
    assert!(matches!(connector_kind("http"), Ok(ConnectorKind::Plaintext)));
    assert!(matches!(connector_kind("https"), Ok(ConnectorKind::Tls)));
    assert!(connector_kind("ftp").is_err());
    assert!(require_scheme(ConnectorKind::Tls, "https", "o").is_ok());
    assert!(require_scheme(ConnectorKind::Tls, "http", "o").is_err());
    assert!(abort_outcome(SocketShutdown::Done).is_ok());
    assert!(abort_outcome(SocketShutdown::NotConnected).is_ok());
    assert_provider_code(
        &abort_outcome(SocketShutdown::Failed("other".to_owned())).unwrap_err(),
        "mcp_http_abort_failed",
    );
}

#[test]
fn servers_are_named_by_dns_names_and_addresses() {
    for host in ["localhost", "example.test", "127.0.0.1", "::1"] {
        require_server_name(host, "https://o").unwrap();
    }
    for host in ["", "a b", "-", "exa mple"] {
        assert_provider_code(
            &require_server_name(host, "https://o").unwrap_err(),
            "mcp_tls_server_name_invalid",
        );
    }
}

#[test]
fn servers_of_a_measurement_need_an_identity() {
    let noted = [b"a note\n".as_slice(), TEST_CA_PEM, &client_key()].concat();
    assert!(compatibility_tls_server_config(TEST_CLIENT_PEM, &client_key()).is_ok());
    assert!(compatibility_tls_server_config(TEST_CLIENT_PEM, &noted).is_ok());
    let failed = |certificate: &[u8], key: &[u8]| {
        let error = compatibility_tls_server_config(certificate, key).err().unwrap();
        assert_provider_code(&error, "mcp_compatibility_tls_fixture_invalid");
        error
    };
    let broken = b"-----BEGIN CERTIFICATE-----\n!\n-----END CERTIFICATE-----\n";
    let error = failed(broken, &client_key());
    assert_eq!(error.message(), "MCP compatibility TLS certificate is invalid");
    assert!(error.context_value("tls_error").is_some());
    let error = failed(TEST_CLIENT_PEM, broken);
    assert_eq!(error.message(), "MCP compatibility TLS private key is invalid");
    let error = failed(TEST_CLIENT_PEM, TEST_CA_PEM);
    assert_eq!(error.message(), "MCP compatibility TLS private key is missing");
    let error = failed(TEST_CA_PEM, &client_key());
    assert_eq!(error.message(), "MCP compatibility TLS identity configuration failed");
    let again = failed(TEST_CA_PEM, &client_key());
    assert!(again.context_value("tls_error").is_some());
    assert_eq!(again.context_value("tls_error"), error.context_value("tls_error"));
    let unread = failed(TEST_CLIENT_PEM, &pem("RSA PRIVATE KEY", &[0x30, 0]));
    assert_eq!(unread.message(), "MCP compatibility TLS identity configuration failed");
    assert_ne!(unread.context_value("tls_error"), error.context_value("tls_error"));
    failed(b"", &client_key());
}

// ---------------------------------------------------------------------------
// Wide paths
// ---------------------------------------------------------------------------

fn wide(name: &str) -> Vec<u16> {
    name.encode_utf16().collect()
}

fn wide_path(names: &[&str]) -> Vec<Vec<u16>> {
    names.iter().map(|name| wide(name)).collect()
}

#[test]
fn wide_paths_are_compared_without_regard_to_case() {
    assert!(os_string_eq_ignore_ascii_case(&wide("AbZ[@1"), &wide("aBz[@1")));
    assert!(!os_string_eq_ignore_ascii_case(&wide("\u{c9}"), &wide("\u{e9}")));
    assert!(!os_string_eq_ignore_ascii_case(&wide("a"), &wide("ab")));
    let root = wide_path(&["C:", "Project"]);
    assert!(paths_equal(&root, &wide_path(&["c:", "project"])));
    assert!(!paths_equal(&root, &wide_path(&["c:", "project", "a"])));
    assert!(path_is_below(&root, &wide_path(&["c:", "PROJECT", "certs", "ca.pem"])));
    assert!(!path_is_below(&root, &root));
    assert!(!path_is_below(&root, &wide_path(&["c:", "projects", "a"])));
    assert_eq!(name_byte_length(&wide("abc")), Some(6));
    assert_eq!(name_byte_length(&wide("a\0c")), None);
    assert_eq!(name_byte_length(&[]), None);
    assert_eq!(name_byte_length(&vec![1; MAX_NAME_UNITS]), Some(65_534));
    assert_eq!(name_byte_length(&vec![1; MAX_NAME_UNITS + 1]), None);
}

#[test]
fn identities_that_were_not_accepted_are_refused() {
    assert_provider_code(&require_identity(None).unwrap_err(), "mcp_tls_client_auth_invalid");
    let error = require_server_identity(Err("no key".to_owned())).err().unwrap();
    assert_eq!(error.message(), "MCP compatibility TLS identity configuration failed");
    assert_eq!(error.context_value("tls_error"), Some("no key"));
    assert!(McpTlsMaterial::default().describe() == McpTlsMaterial::new().describe());
}
