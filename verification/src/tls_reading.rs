//! What TLS material, the paths to it and the connections that use it have to be.

use vstd::prelude::*;
use crate::compatibility_tls;
use crate::connection;
use crate::connection::{ConnectorKind, Resolution};
use crate::error::ErrorModel;
use crate::text;
use crate::tls_config;
use crate::tls_config::{AssemblyModel, IdentityModel, KeyForm, SectionModel, StepModel};
use crate::tls_material;
use crate::tls_material::{MaterialModel, MAX_TLS_MATERIAL_BYTES};
use crate::trust_file;
use crate::trust_file::{
    CheckModel, CheckStep, EntryKind, PathStyle, TrustFileEvent, TrustFileState,
};
use crate::wide_path;

verus! {

// ---------------------------------------------------------------------------
// Material
// ---------------------------------------------------------------------------

/// Material is taken exactly if it has at least one byte and no more than the limit.
pub proof fn law_sizes_that_are_taken(size: nat, material: Seq<char>)
    ensures
        tls_material::size_refusal(size, material) is None <==> 1 <= size
            <= MAX_TLS_MATERIAL_BYTES,
{
}

/// A trust root is taken exactly if its reference is `pem:` with a name behind it, it
/// has a size that is taken, and no other root has that reference.
pub proof fn law_trust_roots_that_are_taken(
    material: MaterialModel,
    reference: Seq<char>,
    size: nat,
)
    ensures
        tls_material::trust_root_refusal(material, reference, size) is None <==> {
            &&& exists|name: Seq<char>| name.len() > 0 && reference == #[trigger] ("pem:"@ + name)
            &&& 1 <= size <= MAX_TLS_MATERIAL_BYTES
            &&& !material.indirect_trust_roots.dom().contains(reference)
        },
{
    reveal_strlit("pem:");
    assert("pem:"@.len() == 4);
    if text::stands_at(reference, "pem:"@, 0) && reference.len() > 4 {
        let name = reference.skip(4);
        assert(reference =~= "pem:"@ + name);
    }
    if exists|name: Seq<char>| name.len() > 0 && reference == #[trigger] ("pem:"@ + name) {
        let name = choose|name: Seq<char>| name.len() > 0 && reference == #[trigger] ("pem:"@ + name);
        assert(reference.subrange(0, 4) =~= "pem:"@);
    }
}

/// A certificate and its key are taken exactly if both have a size that is taken and
/// neither was given before.
pub proof fn law_client_auth_that_is_taken(material: MaterialModel, certificate: nat, key: nat)
    ensures
        tls_material::client_auth_refusal(material, certificate, key) is None <==> {
            &&& material.client_certificate is None
            &&& material.client_private_key is None
            &&& 1 <= certificate <= MAX_TLS_MATERIAL_BYTES
            &&& 1 <= key <= MAX_TLS_MATERIAL_BYTES
        },
{
}

// ---------------------------------------------------------------------------
// PEM
// ---------------------------------------------------------------------------

/// Whether a PEM text consists of the given certificates, one section behind the
/// other, up to its end.
pub open spec fn holds_certificates(pem: Seq<u8>, certificates: Seq<Seq<u8>>) -> bool
    decreases certificates.len(),
{
    if certificates.len() == 0 {
        tls_config::pem_section(pem) is End
    } else {
        tls_config::pem_section(pem) matches SectionModel::Certificate { der, left } && der
            == certificates[0] && left <= pem.len() && if left == pem.len() {
            certificates.len() == 1
        } else {
            holds_certificates(pem.skip(pem.len() - left), certificates.drop_first())
        }
    }
}

proof fn lemma_certificates(
    pem: Seq<u8>,
    read: Seq<Seq<u8>>,
    certificates: Seq<Seq<u8>>,
    purpose: Seq<char>,
)
    requires
        holds_certificates(pem, certificates),
        read.len() + certificates.len() > 0,
    ensures
        tls_config::certificates_from(pem, read, purpose) == Ok::<Seq<Seq<u8>>, ErrorModel>(
            read + certificates,
        ),
    decreases certificates.len(),
{
    if certificates.len() == 0 {
        assert(read + certificates =~= read);
    } else {
        let der = certificates[0];
        assert(read.push(der) + certificates.drop_first() =~= read + certificates);
        match tls_config::pem_section(pem) {
            SectionModel::Certificate { der: _, left } => {
                if left < pem.len() {
                    lemma_certificates(
                        pem.skip(pem.len() - left),
                        read.push(der),
                        certificates.drop_first(),
                        purpose,
                    );
                } else {
                    assert(read.push(der) =~= read + certificates);
                }
            },
            _ => {},
        }
    }
}

/// A text of one or more certificates and nothing else is read as these, in order.
pub proof fn law_certificates_are_read(pem: Seq<u8>, certificates: Seq<Seq<u8>>, purpose: Seq<char>)
    requires
        certificates.len() > 0,
        holds_certificates(pem, certificates),
        1 <= pem.len() <= MAX_TLS_MATERIAL_BYTES,
    ensures
        tls_config::certificates_of(pem, purpose) == Ok::<Seq<Seq<u8>>, ErrorModel>(certificates),
{
    lemma_certificates(pem, Seq::empty(), certificates, purpose);
    assert(Seq::<Seq<u8>>::empty() + certificates =~= certificates);
}

/// A text with no certificate, with another section in front, or with something
/// malformed in front gives no certificates.
pub proof fn law_other_texts_hold_no_certificates(pem: Seq<u8>, purpose: Seq<char>)
    requires
        !(tls_config::pem_section(pem) is Certificate) || pem.len() == 0 || pem.len()
            > MAX_TLS_MATERIAL_BYTES,
    ensures
        tls_config::certificates_of(pem, purpose) is Err,
{
}

/// A text whose first section is a certificate is refused exactly if something follows
/// that is neither the end nor more certificates.
pub proof fn law_what_follows_must_be_certificates(
    pem: Seq<u8>,
    der: Seq<u8>,
    left: nat,
    purpose: Seq<char>,
)
    requires
        tls_config::pem_section(pem) == (SectionModel::Certificate { der, left }),
        1 <= pem.len() <= MAX_TLS_MATERIAL_BYTES,
        0 < left < pem.len(),
    ensures
        tls_config::certificates_of(pem, purpose) is Ok <==> tls_config::pem_section(
            pem.skip(pem.len() - left),
        ) is End || tls_config::certificates_of(pem.skip(pem.len() - left), purpose) is Ok,
{
    let rest = pem.skip(pem.len() - left);
    let none: Seq<Seq<u8>> = Seq::empty();
    lemma_read_so_far(rest, none.push(der), none, purpose);
}

proof fn lemma_read_so_far(pem: Seq<u8>, a: Seq<Seq<u8>>, b: Seq<Seq<u8>>, purpose: Seq<char>)
    requires
        a.len() > 0,
    ensures
        tls_config::certificates_from(pem, a, purpose) is Ok <==> tls_config::pem_section(pem) is End
            || tls_config::certificates_from(pem, b, purpose) is Ok,
    decreases pem.len(),
{
    match tls_config::pem_section(pem) {
        SectionModel::Certificate { der, left } => {
            if left < pem.len() {
                let rest = pem.skip(pem.len() - left);
                lemma_read_so_far(rest, a.push(der), b.push(der), purpose);
                lemma_read_so_far(rest, b.push(der), b.push(der), purpose);
            }
        },
        _ => {},
    }
}

/// A text gives a key exactly if its first section is that key and nothing follows.
pub proof fn law_keys_are_read(pem: Seq<u8>, form: KeyForm, key: Seq<u8>)
    requires
        1 <= pem.len() <= MAX_TLS_MATERIAL_BYTES,
    ensures
        tls_config::key_of(pem) == Ok::<(KeyForm, Seq<u8>), ErrorModel>((form, key)) <==> (
        tls_config::pem_section(pem) matches SectionModel::Key { form: f, der, left } && f == form
            && der == key && (left >= pem.len() || tls_config::pem_section(
            pem.skip(pem.len() - left),
        ) is End)),
{
    reveal_with_fuel(tls_config::key_from, 3);
}

/// Roots are trusted exactly if every certificate of the text has an anchor, and each
/// gives its own, in order.
pub proof fn law_roots_are_trusted(pem: Seq<u8>, anchors: Seq<Seq<u8>>)
    ensures
        tls_config::pem_anchors(pem) == Ok::<Seq<Seq<u8>>, ErrorModel>(anchors) <==> (
        tls_config::certificates_of(pem, "trust_root"@) matches Ok(certificates)
            && certificates.len() == anchors.len() && forall|i: int|
            0 <= i < anchors.len() ==> tls_config::trust_anchor(#[trigger] certificates[i]) == Some(
                anchors[i],
            )),
{
    if tls_config::certificates_of(pem, "trust_root"@) is Ok {
        let certificates = tls_config::certificates_of(pem, "trust_root"@)->Ok_0;
        if !tls_config::has_unreadable(certificates) {
            lemma_anchors(certificates);
            let found = tls_config::anchors_of(certificates);
            if certificates.len() == anchors.len() && forall|i: int|
                0 <= i < anchors.len() ==> tls_config::trust_anchor(#[trigger] certificates[i])
                    == Some(anchors[i]) {
                assert forall|i: int| 0 <= i < anchors.len() implies found[i] == anchors[i] by {
                    assert(tls_config::trust_anchor(certificates[i]) == Some(found[i]));
                }
                assert(found =~= anchors);
            }
        } else {
            let i = choose|i: int|
                0 <= i < certificates.len() && tls_config::trust_anchor(
                    #[trigger] certificates[i],
                ) is None;
            assert(tls_config::trust_anchor(certificates[i]) is None);
        }
    }
}

proof fn lemma_anchors(certificates: Seq<Seq<u8>>)
    requires
        !tls_config::has_unreadable(certificates),
    ensures
        tls_config::anchors_of(certificates).len() == certificates.len(),
        forall|i: int|
            0 <= i < certificates.len() ==> tls_config::trust_anchor(#[trigger] certificates[i])
                == Some(tls_config::anchors_of(certificates)[i]),
    decreases certificates.len(),
{
    if certificates.len() > 0 {
        let shorter = certificates.drop_last();
        assert(!tls_config::has_unreadable(shorter)) by {
            if tls_config::has_unreadable(shorter) {
                let i = choose|i: int|
                    0 <= i < shorter.len() && tls_config::trust_anchor(#[trigger] shorter[i])
                        is None;
                assert(tls_config::trust_anchor(certificates[i]) is None);
            }
        }
        lemma_anchors(shorter);
        assert(tls_config::trust_anchor(certificates[certificates.len() - 1]) is Some);
        assert forall|i: int| 0 <= i < certificates.len() implies tls_config::trust_anchor(
            #[trigger] certificates[i],
        ) == Some(tls_config::anchors_of(certificates)[i]) by {
            if i < shorter.len() {
                assert(shorter[i] == certificates[i]);
            }
        }
    }
}

/// Of a text in a measurement the certificates count, wherever other sections stand,
/// and of another the first key.
pub proof fn law_other_sections_are_passed_over(pem: Seq<u8>, read: Seq<Seq<u8>>)
    ensures
        ({
            let section = tls_config::pem_section(pem);
            let rest = pem.skip(pem.len() - section.left());
            &&& section is Malformed ==> compatibility_tls::certificates_among(pem, read) is Err
                && compatibility_tls::key_among(pem) is Err
            &&& section is End ==> compatibility_tls::certificates_among(pem, read) == Ok::<
                Seq<Seq<u8>>,
                Seq<char>,
            >(read) && compatibility_tls::key_among(pem) == Ok::<
                Option<(KeyForm, Seq<u8>)>,
                Seq<char>,
            >(None)
            &&& section.left() < pem.len() && section.found() ==> {
                &&& section is Certificate ==> compatibility_tls::certificates_among(pem, read)
                    == compatibility_tls::certificates_among(
                    rest,
                    read.push(section->Certificate_der),
                )
                &&& !(section is Certificate) ==> compatibility_tls::certificates_among(pem, read)
                    == compatibility_tls::certificates_among(rest, read)
                &&& !(section is Key) ==> compatibility_tls::key_among(pem)
                    == compatibility_tls::key_among(rest)
            }
            &&& section is Key ==> compatibility_tls::key_among(pem) == Ok::<
                Option<(KeyForm, Seq<u8>)>,
                Seq<char>,
            >(Some((section->Key_form, section->Key_der)))
        }),
{
}

// ---------------------------------------------------------------------------
// Configurations
// ---------------------------------------------------------------------------

/// A client shows nothing exactly if it is not to and has nothing to show.
pub proof fn law_clients_that_show_nothing(material: MaterialModel, client_auth: bool)
    ensures
        tls_config::identity_of(material, client_auth) == Ok::<Option<IdentityModel>, ErrorModel>(
            None,
        ) <==> !client_auth && material.client_certificate is None && material.client_private_key
            is None,
{
}

/// A client shows an identity exactly if it is to, and the identity is the chain and
/// the key that were given, which fit one another.
pub proof fn law_clients_that_show_an_identity(
    material: MaterialModel,
    client_auth: bool,
    identity: IdentityModel,
)
    ensures
        tls_config::identity_of(material, client_auth) == Ok::<Option<IdentityModel>, ErrorModel>(
            Some(identity),
        ) <==> {
            &&& client_auth
            &&& material.client_certificate matches Some(certificate)
                && tls_config::certificates_of(certificate, "client_certificate"@) == Ok::<
                Seq<Seq<u8>>,
                ErrorModel,
            >(identity.chain)
            &&& material.client_private_key matches Some(key) && tls_config::key_of(key) == Ok::<
                (KeyForm, Seq<u8>),
                ErrorModel,
            >((identity.form, identity.key))
            &&& tls_config::identity_accepted(identity.chain, identity.form, identity.key)
        },
{
}

/// A configuration holds exactly if no handed-in root is left over, something is
/// trusted, and what the client shows is in order.
pub proof fn law_configurations_hold(m: AssemblyModel, client_auth: bool)
    requires
        m.material.indirect_trust_roots.dom().finite(),
    ensures
        tls_config::configuration_of(m, client_auth) is Ok <==> {
            &&& forall|r: Seq<char>| !#[trigger] m.material.indirect_trust_roots.dom().contains(r)
            &&& m.anchors.len() > 0
            &&& tls_config::identity_of(m.material, client_auth) is Ok
        },
        tls_config::configuration_of(m, client_auth) is Ok ==> tls_config::configuration_of(
            m,
            client_auth,
        ) == tls_config::identity_of(m.material, client_auth),
{
    let left = m.material.indirect_trust_roots.dom();
    if left.len() == 0 {
        vstd::set_lib::lemma_set_empty_equivalency_len(left);
    } else {
        assert(left.contains(left.choose()));
    }
}

/// The step that a reference stands for: `system` is fetched from the platform, a file
/// from its path below the project, and handed-in roots join what is trusted.
pub proof fn law_references_stand_for_steps(m: AssemblyModel, name: Seq<char>)
    requires
        0 <= m.at < m.references.len(),
    ensures
        ({
            let reference = m.references[m.at];
            let (after, step) = tls_config::next_step(m);
            let passed = AssemblyModel { at: m.at + 1, ..m };
            &&& reference == "system"@ ==> step == StepModel::System && after == passed
            &&& reference == "file:"@ + name ==> match m.material.project_root {
                Some(project_root) => step == (StepModel::File { project_root, path: name })
                    && after == passed,
                None => step is Refused && after == m,
            }
            &&& reference == "pem:"@ + name ==> {
                let roots = m.material.indirect_trust_roots;
                if !roots.dom().contains(reference) || tls_config::pem_anchors(roots[reference])
                    is Err {
                    step is Refused && after == m
                } else {
                    tls_config::next_step(m) == tls_config::next_step(
                        AssemblyModel {
                            anchors: m.anchors + tls_config::pem_anchors(roots[reference])->Ok_0,
                            material: MaterialModel {
                                indirect_trust_roots: roots.remove(reference),
                                ..m.material
                            },
                            ..passed
                        },
                    )
                }
            }
        }),
{
    let reference = m.references[m.at];
    reveal_strlit("system");
    reveal_strlit("file:");
    reveal_strlit("pem:");
    assert("file:"@.len() == 5 && "pem:"@.len() == 4 && "system"@.len() == 6);
    assert("system"@[0] == 's');
    if reference == "file:"@ + name {
        assert(reference[0] == 'f');
        assert(reference.subrange(0, 5) =~= "file:"@);
        assert(reference.skip(5) =~= name);
    }
    if reference == "pem:"@ + name {
        assert(reference[0] == 'p');
        assert(reference.subrange(0, 4) =~= "pem:"@);
        if text::stands_at(reference, "file:"@, 0) {
            assert(reference.subrange(0, 5)[0] == 'f');
        }
    }
}

// ---------------------------------------------------------------------------
// Paths
// ---------------------------------------------------------------------------

/// Whether a piece of a text stands between separators or the ends of the text.
pub open spec fn is_piece(s: Seq<char>, separator: char, from: int, to: int) -> bool {
    &&& 0 <= from <= to <= s.len()
    &&& from == 0 || s[from - 1] == separator
    &&& to == s.len() || s[to] == separator
    &&& forall|i: int| from <= i < to ==> #[trigger] s[i] != separator
}

/// Whether a text stands as a piece of another.
pub open spec fn has_piece(s: Seq<char>, separator: char, piece: Seq<char>) -> bool {
    exists|from: int, to: int| #[trigger]
        is_piece(s, separator, from, to) && s.subrange(from, to) == piece
}

proof fn lemma_pieces(s: Seq<char>, separator: char, at: int, piece: Seq<char>)
    requires
        0 <= at <= s.len(),
        at == 0 || s[at - 1] == separator,
    ensures
        text::parts_from(s, separator, at).contains(piece) <==> exists|from: int, to: int|
            at <= from && #[trigger] is_piece(s, separator, from, to) && s.subrange(from, to)
                == piece,
    decreases s.len() - at,
{
    let end = text::char_position(s, separator, at);
    text::lemma_char_position(s, separator, at);
    let parts = text::parts_from(s, separator, at);
    assert(is_piece(s, separator, at, end));
    let first = s.subrange(at, end);
    if end < s.len() {
        let rest = text::parts_from(s, separator, end + 1);
        lemma_pieces(s, separator, end + 1, piece);
        assert(parts =~= seq![first] + rest);
        if parts.contains(piece) && piece != first {
            let k = choose|k: int| 0 <= k < parts.len() && parts[k] == piece;
            assert(rest[k - 1] == piece);
            assert(rest.contains(piece));
        }
        if piece == first {
            assert(parts[0] == piece);
        }
        if rest.contains(piece) {
            let k = choose|k: int| 0 <= k < rest.len() && rest[k] == piece;
            assert(parts[k + 1] == piece);
        }
        if exists|from: int, to: int|
            at <= from && #[trigger] is_piece(s, separator, from, to) && s.subrange(from, to)
                == piece {
            let (from, to) = choose|from: int, to: int|
                at <= from && #[trigger] is_piece(s, separator, from, to) && s.subrange(from, to)
                    == piece;
            if from <= end {
                if from > at {
                    assert(s[from - 1] == separator);
                }
                assert(from == at);
                if to < end {
                    assert(s[to] == separator);
                }
                if to > end {
                    assert(s[end] != separator);
                }
                assert(to == end);
            } else {
                assert(end + 1 <= from && is_piece(s, separator, from, to));
            }
        }
    } else {
        assert(parts =~= seq![first]);
        assert(parts[0] == first);
        if exists|from: int, to: int|
            at <= from && #[trigger] is_piece(s, separator, from, to) && s.subrange(from, to)
                == piece {
            let (from, to) = choose|from: int, to: int|
                at <= from && #[trigger] is_piece(s, separator, from, to) && s.subrange(from, to)
                    == piece;
            if from > at {
                assert(s[from - 1] == separator);
            }
            assert(from == at);
            if to < end {
                assert(s[to] == separator);
            }
        }
    }
}

/// The parts of a text are exactly what stands between its separators.
pub proof fn law_parts_stand_between_separators(s: Seq<char>, separator: char, piece: Seq<char>)
    ensures
        text::split(s, separator).contains(piece) <==> has_piece(s, separator, piece),
{
    lemma_pieces(s, separator, 0, piece);
    if has_piece(s, separator, piece) {
        let (from, to) = choose|from: int, to: int| #[trigger]
            is_piece(s, separator, from, to) && s.subrange(from, to) == piece;
        assert(0 <= from && is_piece(s, separator, from, to));
    }
}

/// Where separators are written as slashes, every other character stays.
pub proof fn law_separators(path: Seq<char>, style: PathStyle, i: int)
    requires
        0 <= i < path.len(),
    ensures
        trust_file::with_slashes(path, style).len() == path.len(),
        trust_file::with_slashes(path, style)[i] == '/' <==> path[i] == '/' || (path[i] == '\\'
            && style == PathStyle::SlashOrBackslash),
        trust_file::with_slashes(path, style)[i] != '/' ==> trust_file::with_slashes(
            path,
            style,
        )[i] == path[i],
{
}

/// A path stays below its directory exactly if it is not empty, does not start with a
/// separator, holds no colon, no part of it is two dots, and it does not start with
/// the part of one dot.
pub proof fn law_paths_that_stay_below(path: Seq<char>, style: PathStyle)
    ensures
        ({
            let slashed = trust_file::with_slashes(path, style);
            trust_file::stays_below(path, style) <==> {
                &&& path.len() > 0
                &&& slashed[0] != '/'
                &&& forall|i: int| 0 <= i < path.len() ==> #[trigger] path[i] != ':'
                &&& !has_piece(slashed, '/', ".."@)
                &&& !(slashed[0] == '.' && (slashed.len() == 1 || slashed[1] == '/'))
            }
        }),
{
    let slashed = trust_file::with_slashes(path, style);
    let parts = trust_file::path_parts(path, style);
    law_parts_stand_between_separators(slashed, '/', ".."@);
    reveal_strlit(".");
    assert("."@.len() == 1 && "."@[0] == '.');
    if path.len() > 0 {
        let end = text::char_position(slashed, '/', 0);
        text::lemma_char_position(slashed, '/', 0);
        assert(parts[0] == slashed.subrange(0, end));
        if parts[0] == "."@ {
            assert(end == 1);
            assert(slashed.subrange(0, end)[0] == slashed[0]);
        }
        if slashed[0] == '.' && (slashed.len() == 1 || slashed[1] == '/') {
            assert(end == 1) by {
                if end == 0 {
                    assert(slashed[0] == '/');
                }
                if end > 1 {
                    assert(slashed[1] != '/');
                }
            }
            assert(slashed.subrange(0, 1) =~= "."@);
        }
        assert(parts.contains(".."@) <==> exists|i: int|
            0 <= i < parts.len() && (#[trigger] parts[i]) == ".."@);
    }
}

/// Components are the parts in their order, without those that are empty or one dot.
pub proof fn law_components_are_the_named_parts(a: Seq<Seq<char>>, part: Seq<char>, b: Seq<Seq<char>>)
    ensures
        trust_file::named_parts(a + b) == trust_file::named_parts(a) + trust_file::named_parts(b),
        trust_file::named_parts(seq![part]) == if part == ""@ || part == "."@ {
            Seq::<Seq<char>>::empty()
        } else {
            seq![part]
        },
    decreases b.len(),
{
    reveal_strlit("");
    reveal_with_fuel(trust_file::named_parts, 2);
    assert(seq![part].drop_last() =~= Seq::<Seq<char>>::empty());
    if part.len() == 0 {
        assert(part =~= ""@);
    }
    if b.len() == 0 {
        assert(a + b =~= a);
        assert(trust_file::named_parts(a) + Seq::<Seq<char>>::empty() =~= trust_file::named_parts(a));
    } else {
        law_components_are_the_named_parts(a, part, b.drop_last());
        assert((a + b).drop_last() =~= a + b.drop_last());
        assert((a + b).last() == b.last());
        let x = trust_file::named_parts(a);
        let y = trust_file::named_parts(b.drop_last());
        assert(x + y.push(b.last()) =~= (x + y).push(b.last()));
    }
    assert(Seq::<Seq<char>>::empty().push(part) =~= seq![part]);
}

/// A check goes on exactly if it finds what has to be there: a directory that is its
/// own canonical path, a directory for every component but the last, a file for that,
/// which can be opened, is a file of a size that is taken, and can be read.
pub proof fn law_checks_go_on(check: CheckModel, event: TrustFileEvent)
    ensures
        ({
            let step = trust_file::check_step(check, event);
            let count = check.components.len();
            match check.state {
                TrustFileState::Root => step is Next <==> event == TrustFileEvent::Entry(
                    Some(EntryKind::Directory),
                ),
                TrustFileState::Canonical => step is Next <==> (
                event matches TrustFileEvent::Canonical(Some(path)) && path@ == check.project_root),
                TrustFileState::CanonicalRoot => step is Next <==> event == TrustFileEvent::Entry(
                    Some(EntryKind::Directory),
                ),
                TrustFileState::Component(at) => step is Next <==> event == TrustFileEvent::Entry(
                    Some(
                        if at == count - 1 {
                            EntryKind::File
                        } else {
                            EntryKind::Directory
                        },
                    ),
                ),
                TrustFileState::Opening => step is Next <==> event == TrustFileEvent::Opened(true),
                TrustFileState::FileEntry => step is Next <==> (
                event matches TrustFileEvent::FileEntry(Some((kind, length))) && kind
                    == EntryKind::File && length <= MAX_TLS_MATERIAL_BYTES),
                TrustFileState::Reading => !(step is Next),
            }
        }),
        (trust_file::check_step(check, event) is Use) <==> check.state == TrustFileState::Reading
            && (event matches TrustFileEvent::Bytes(Some(bytes)) && 1 <= bytes@.len()
            <= MAX_TLS_MATERIAL_BYTES),
        trust_file::check_step(check, event) matches CheckStep::Use(used)
            ==> event matches TrustFileEvent::Bytes(Some(bytes)) && used == bytes@,
{
}

/// How far a check has come, counted in what it has looked at.
pub open spec fn progress_of(state: TrustFileState, count: int) -> int {
    match state {
        TrustFileState::Root => 0,
        TrustFileState::Canonical => 1,
        TrustFileState::CanonicalRoot => 2,
        TrustFileState::Component(at) => 3 + at,
        TrustFileState::Opening => 3 + count,
        TrustFileState::FileEntry => 4 + count,
        TrustFileState::Reading => 5 + count,
    }
}

/// Nothing is left out: a check that goes on has come exactly one further.
pub proof fn law_checks_leave_nothing_out(check: CheckModel, event: TrustFileEvent)
    requires
        check.state matches TrustFileState::Component(at) ==> at < check.components.len(),
        check.components.len() <= usize::MAX,
    ensures
        trust_file::check_step(check, event) matches CheckStep::Next(state) ==> progress_of(
            state,
            check.components.len() as int,
        ) == progress_of(check.state, check.components.len() as int) + 1,
{
}

/// Whether two units are the same, or the same ASCII letter in two cases.
pub open spec fn same_letter(a: u16, b: u16) -> bool {
    ||| a == b
    ||| 0x41 <= a <= 0x5a && b == a + 0x20
    ||| 0x41 <= b <= 0x5a && a == b + 0x20
}

/// Two names are the same but for case exactly if they are as long, and unit for unit
/// the same letter.
pub proof fn law_names_but_for_case(a: Seq<u16>, b: Seq<u16>)
    ensures
        wide_path::small_name(a) == wide_path::small_name(b) <==> a.len() == b.len() && forall|i: int|
            0 <= i < a.len() ==> same_letter(#[trigger] a[i], b[i]),
{
    let x = wide_path::small_name(a);
    let y = wide_path::small_name(b);
    assert(a.len() == x.len() && b.len() == y.len());
    if x == y {
        assert forall|i: int| 0 <= i < a.len() implies same_letter(#[trigger] a[i], b[i]) by {
            assert(x[i] == wide_path::small_unit(a[i]));
            assert(y[i] == wide_path::small_unit(b[i]));
        }
    }
    if a.len() == b.len() && forall|i: int| 0 <= i < a.len() ==> same_letter(#[trigger] a[i], b[i]) {
        assert forall|i: int| 0 <= i < a.len() implies x[i] == y[i] by {
            assert(same_letter(a[i], b[i]));
        }
        assert(x =~= y);
    }
}

/// A path is below another exactly if it is that path with at least one name more.
pub proof fn law_below_is_more(root: Seq<Seq<u16>>, path: Seq<Seq<u16>>)
    ensures
        wide_path::is_below(root, path) <==> exists|more: Seq<Seq<u16>>|
            more.len() > 0 && path == #[trigger] (root + more),
{
    if wide_path::is_below(root, path) {
        assert(path =~= root + path.skip(root.len() as int));
        assert(path.skip(root.len() as int).len() > 0);
    }
    if exists|more: Seq<Seq<u16>>| more.len() > 0 && path == #[trigger] (root + more) {
        let more = choose|more: Seq<Seq<u16>>| more.len() > 0 && path == #[trigger] (root + more);
        assert((root + more).take(root.len() as int) =~= root);
    }
}

// ---------------------------------------------------------------------------
// Connections
// ---------------------------------------------------------------------------

/// A resolution is used exactly if it was answered in time, with addresses within the
/// limit.
pub proof fn law_resolutions_that_are_used(resolution: Resolution, origin: Seq<char>)
    ensures
        connection::resolution_refusal(resolution, origin) is None <==> (
        resolution matches Resolution::Answered { in_time, addresses } && in_time && (
        addresses matches Some(count) && count <= connection::MAX_DNS_ADDRESSES)),
{
}

/// Only `https` is spoken over TLS, only `http` in the clear, and nothing else at all.
pub proof fn law_schemes_have_connectors(scheme: Seq<char>)
    ensures
        connection::connector_of(scheme) == Some(ConnectorKind::Tls) <==> scheme == "https"@,
        connection::connector_of(scheme) == Some(ConnectorKind::Plaintext) <==> scheme == "http"@,
{
    reveal_strlit("https");
    reveal_strlit("http");
    assert("https"@.len() == 5 && "http"@.len() == 4);
}

/// References that are given stand for themselves; without any, what the platform
/// trusts is trusted.
pub proof fn law_references_that_are_followed(references: Seq<Seq<char>>)
    ensures
        tls_config::effective_references(references).len() > 0,
        references.len() > 0 ==> tls_config::effective_references(references) == references,
        references.len() == 0 ==> forall|i: int|
            0 <= i < tls_config::effective_references(references).len()
                ==> #[trigger] tls_config::effective_references(references)[i] == "system"@,
{
}

/// An identity for a measurement is read exactly if both texts can be read and the
/// second holds a key; then it is the certificates of the first and that key.
pub proof fn law_measured_identities(certificate: Seq<u8>, key: Seq<u8>, identity: IdentityModel)
    ensures
        compatibility_tls::fixture_identity(certificate, key) == Ok::<IdentityModel, ErrorModel>(
            identity,
        ) <==> {
            &&& compatibility_tls::certificates_among(certificate, Seq::empty()) == Ok::<
                Seq<Seq<u8>>,
                Seq<char>,
            >(identity.chain)
            &&& compatibility_tls::key_among(key) == Ok::<Option<(KeyForm, Seq<u8>)>, Seq<char>>(
                Some((identity.form, identity.key)),
            )
        },
{
}

} // verus!
