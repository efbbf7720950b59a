//! Trust roots in files: which paths may be read, and what has to be found on
//! the way to a file before its bytes are used.
//!
//! Nothing here touches a file. The check says what is to be looked at, takes in
//! what was found there, and goes on or refuses.

use vstd::prelude::*;
use crate::error::{ErrorKind, ErrorModel, EvaError};
use crate::text;
use crate::text::{chars_of, contains_char, split_text, str_eq, string_of};
use crate::tls_material;
use crate::tls_material::{validate_material_size, MAX_TLS_MATERIAL_BYTES};

verus! {

// ---------------------------------------------------------------------------
// Paths
// ---------------------------------------------------------------------------

/// The parts of a path that name something: neither empty nor a dot.
pub open spec fn named_parts(parts: Seq<Seq<char>>) -> Seq<Seq<char>>
    decreases parts.len(),
{
    if parts.len() == 0 {
        Seq::empty()
    } else if parts.last().len() == 0 || parts.last() == "."@ {
        named_parts(parts.drop_last())
    } else {
        named_parts(parts.drop_last()).push(parts.last())
    }
}

/// How a system writes paths.
#[derive(Debug, Clone, Copy, PartialEq, Eq, Structural)]
pub enum PathStyle {
    /// A slash stands between components, and a backslash is part of a name.
    Slash,
    /// A slash or a backslash stands between components.
    SlashOrBackslash,
}

/// A character of a path with a slash for whatever stands between components.
pub open spec fn separator_as_slash(c: char, style: PathStyle) -> char {
    if c == '\\' && style == PathStyle::SlashOrBackslash {
        '/'
    } else {
        c
    }
}

/// A path with a slash for whatever stands between its components.
pub open spec fn with_slashes(path: Seq<char>, style: PathStyle) -> Seq<char> {
    path.map_values(|c: char| separator_as_slash(c, style))
}

/// What stands between the separators of a path.
pub open spec fn path_parts(path: Seq<char>, style: PathStyle) -> Seq<Seq<char>> {
    text::split(with_slashes(path, style), '/')
}

/// The components of a path: the parts of it that name something.
pub open spec fn path_components(path: Seq<char>, style: PathStyle) -> Seq<Seq<char>> {
    named_parts(path_parts(path, style))
}

/// Whether a path leads below the directory that it is relative to: it is not
/// empty, not absolute, does not start at a dot, goes nowhere up and holds no
/// colon.
pub open spec fn stays_below(path: Seq<char>, style: PathStyle) -> bool {
    let parts = path_parts(path, style);
    &&& path.len() > 0
    &&& separator_as_slash(path[0], style) != '/'
    &&& !text::has_char(path, ':')
    &&& parts[0] != "."@
    &&& forall|i: int| 0 <= i < parts.len() ==> (#[trigger] parts[i]) != ".."@
}

pub open spec fn escape_model() -> ErrorModel {
    ErrorModel::new(
        ErrorKind::PermissionDenied,
        "MCP TLS trust root path escapes its controlled project root"@,
    ).code("mcp_tls_trust_root_escape"@)
}

fn escape() -> (error: EvaError)
    ensures
        error@ == escape_model(),
{
    EvaError::permission_denied(
        "MCP TLS trust root path escapes its controlled project root",
    ).with_provider_code("mcp_tls_trust_root_escape")
}

fn slashed(path: &str, style: PathStyle) -> (out: String)
    ensures
        out@ == with_slashes(path@, style),
{
    let mut chars = chars_of(path);
    let ghost all = with_slashes(path@, style);
    let mut i: usize = 0;
    while i < chars.len()
        invariant
            i <= chars@.len(),
            chars@.len() == path@.len(),
            all == with_slashes(path@, style),
            forall|k: int| 0 <= k < i ==> chars@[k] == #[trigger] all[k],
            forall|k: int| i <= k < chars@.len() ==> chars@[k] == #[trigger] path@[k],
        decreases chars@.len() - i,
    {
        if chars[i] == '\\' && style == PathStyle::SlashOrBackslash {
            chars.set(i, '/');
        }
        assert(all[i as int] == separator_as_slash(path@[i as int], style));
        i += 1;
    }
    assert(chars@ =~= all);
    assert(chars@.subrange(0, chars@.len() as int) =~= chars@);
    string_of(chars.as_slice(), 0, chars.len())
}

/// The components of a path that leads below the directory that it is relative
/// to.
pub fn trust_path_components(path: &str, style: PathStyle) -> (outcome: Result<
    Vec<String>,
    EvaError,
>)
    ensures
        match outcome {
            Ok(components) => stays_below(path@, style) && text::texts(components@)
                == path_components(path@, style),
            Err(error) => !stays_below(path@, style) && error@ == escape_model(),
        },
{
    let path_text = slashed(path, style);
    let chars = chars_of(path_text.as_str());
    if chars.len() == 0 || chars[0] == '/' || contains_char(path, ':') {
        assert(path@.len() > 0 ==> chars@[0] == separator_as_slash(path@[0], style));
        return Err(escape());
    }
    let parts = split_text(path_text.as_str(), '/');
    let ghost all = path_parts(path@, style);
    assert(all == text::texts(parts@));
    assert(all.len() == parts@.len());
    assert(all.len() > 0);
    assert(all[0] == parts@[0]@);
    if str_eq(parts[0].as_str(), ".") {
        return Err(escape());
    }
    let mut components: Vec<String> = Vec::new();
    let mut i: usize = 0;
    assert(all.take(0) =~= Seq::<Seq<char>>::empty());
    assert(text::texts(components@) =~= Seq::<Seq<char>>::empty());
    while i < parts.len()
        invariant
            i <= parts@.len(),
            all == path_parts(path@, style),
            all == text::texts(parts@),
            path@.len() > 0,
            separator_as_slash(path@[0], style) != '/',
            !text::has_char(path@, ':'),
            all[0] != "."@,
            forall|k: int| 0 <= k < i ==> (#[trigger] all[k]) != ".."@,
            text::texts(components@) == named_parts(all.take(i as int)),
        decreases parts@.len() - i,
    {
        let part = parts[i].as_str();
        let ghost upto = all.take(i + 1);
        assert(all[i as int] == part@);
        assert(upto.drop_last() =~= all.take(i as int));
        assert(upto.last() == part@);
        if str_eq(part, "..") {
            return Err(escape());
        }
        if !part.is_empty() && !str_eq(part, ".") {
            let ghost before = text::texts(components@);
            components.push(part.to_owned());
            assert(text::texts(components@) =~= before.push(part@));
        }
        i += 1;
    }
    assert(all.take(i as int) =~= all);
    Ok(components)
}

// ---------------------------------------------------------------------------
// What is found
// ---------------------------------------------------------------------------

/// What stands at a path.
#[derive(Debug, Clone, Copy, PartialEq, Eq, Structural)]
pub enum EntryKind {
    Link,
    Directory,
    File,
    Other,
}

/// What is to be looked at next.
pub enum TrustFileAction {
    /// What stands at the directory.
    InspectRoot,
    /// The canonical path of the directory.
    CanonicalizeRoot,
    /// What stands at the canonical path.
    InspectCanonicalRoot,
    /// What stands at the path of the first so many components.
    InspectComponent(usize),
    /// Open the file, component by component.
    Open,
    /// What was opened, and how long it is.
    InspectFile,
    /// The bytes of the file, one more than the limit at most.
    Read,
}

/// What was found where the check looked.
pub enum TrustFileEvent {
    Entry(Option<EntryKind>),
    Canonical(Option<String>),
    Opened(bool),
    FileEntry(Option<(EntryKind, u64)>),
    Bytes(Option<Vec<u8>>),
}

/// How far a check has come.
#[derive(Debug, Clone, Copy, PartialEq, Eq, Structural)]
pub enum TrustFileState {
    Root,
    Canonical,
    CanonicalRoot,
    Component(usize),
    Opening,
    FileEntry,
    Reading,
}

/// A check of one file.
pub struct TrustFileCheck {
    project_root: String,
    components: Vec<String>,
    state: TrustFileState,
}

/// A check of one file.
#[verifier::ext_equal]
pub struct CheckModel {
    pub project_root: Seq<char>,
    pub components: Seq<Seq<char>>,
    pub state: TrustFileState,
}

impl View for TrustFileCheck {
    type V = CheckModel;

    closed spec fn view(&self) -> CheckModel {
        CheckModel {
            project_root: self.project_root@,
            components: text::texts(self.components@),
            state: self.state,
        }
    }
}

pub open spec fn root_not_absolute_model() -> ErrorModel {
    ErrorModel::new(
        ErrorKind::PermissionDenied,
        "MCP TLS project root must be an absolute path"@,
    ).code("mcp_tls_project_root_invalid"@)
}

pub open spec fn root_unavailable_model() -> ErrorModel {
    ErrorModel::new(
        ErrorKind::NotFound,
        "MCP TLS controlled project root is unavailable"@,
    ).code("mcp_tls_project_root_unavailable"@)
}

pub open spec fn root_invalid_model() -> ErrorModel {
    ErrorModel::new(
        ErrorKind::PermissionDenied,
        "MCP TLS controlled project root is not a regular directory"@,
    ).code("mcp_tls_project_root_invalid"@)
}

pub open spec fn root_not_canonical_model() -> ErrorModel {
    ErrorModel::new(
        ErrorKind::PermissionDenied,
        "MCP TLS project root must already be canonical"@,
    ).code("mcp_tls_project_root_not_canonical"@)
}

pub open spec fn component_unavailable_model() -> ErrorModel {
    ErrorModel::new(
        ErrorKind::NotFound,
        "MCP TLS trust root path component is unavailable"@,
    ).code("mcp_tls_trust_root_unavailable"@)
}

pub open spec fn component_link_model() -> ErrorModel {
    ErrorModel::new(
        ErrorKind::PermissionDenied,
        "MCP TLS trust root path contains a symlink or reparse point"@,
    ).code("mcp_tls_trust_root_link"@)
}

pub open spec fn component_invalid_model() -> ErrorModel {
    ErrorModel::new(
        ErrorKind::PermissionDenied,
        "MCP TLS trust root path has an invalid entry type"@,
    ).code("mcp_tls_trust_root_entry_invalid"@)
}

pub open spec fn open_denied_model() -> ErrorModel {
    ErrorModel::new(
        ErrorKind::PermissionDenied,
        "MCP TLS trust root file could not be opened safely"@,
    ).code("mcp_tls_trust_root_open_denied"@)
}

pub open spec fn file_unavailable_model() -> ErrorModel {
    ErrorModel::new(
        ErrorKind::Unavailable,
        "MCP TLS trust root metadata is unavailable"@,
    ).code("mcp_tls_trust_root_unavailable"@)
}

pub open spec fn file_link_model() -> ErrorModel {
    ErrorModel::new(
        ErrorKind::PermissionDenied,
        "MCP TLS trust root must be a regular non-link file"@,
    ).code("mcp_tls_trust_root_link"@)
}

pub open spec fn file_large_model() -> ErrorModel {
    ErrorModel::new(
        ErrorKind::Conflict,
        "MCP TLS trust root file exceeded size limit"@,
    ).code("mcp_tls_material_too_large"@)
}

pub open spec fn read_failed_model() -> ErrorModel {
    ErrorModel::new(
        ErrorKind::Unavailable,
        "failed to read MCP TLS trust root file"@,
    ).code("mcp_tls_trust_root_unavailable"@)
}

/// Why the directory is refused, if it is.
pub open spec fn root_refusal(found: Option<EntryKind>) -> Option<ErrorModel> {
    match found {
        None => Some(root_unavailable_model()),
        Some(kind) => if kind == EntryKind::Directory {
            None
        } else {
            Some(root_invalid_model())
        },
    }
}

/// Why a component of the path is refused, if it is: the last one has to be a
/// file, the others directories.
pub open spec fn component_refusal(found: Option<EntryKind>, is_last: bool) -> Option<ErrorModel> {
    match found {
        None => Some(component_unavailable_model()),
        Some(kind) => if kind == EntryKind::Link {
            Some(component_link_model())
        } else if kind == (if is_last {
            EntryKind::File
        } else {
            EntryKind::Directory
        }) {
            None
        } else {
            Some(component_invalid_model())
        },
    }
}

/// Why the file that was opened is refused, if it is.
pub open spec fn file_refusal(found: Option<(EntryKind, u64)>) -> Option<ErrorModel> {
    match found {
        None => Some(file_unavailable_model()),
        Some((kind, length)) => if kind != EntryKind::File {
            Some(file_link_model())
        } else if length > MAX_TLS_MATERIAL_BYTES {
            Some(file_large_model())
        } else {
            None
        },
    }
}

/// What a check comes to after it has looked.
pub enum CheckStep {
    /// It looks further.
    Next(TrustFileState),
    /// The bytes can be used.
    Use(Seq<u8>),
    /// The file is refused.
    Refuse(ErrorModel),
    /// What was found is not what the check was looking at.
    Unexpected,
}

/// What a check comes to after it has looked at what it asked for.
pub open spec fn check_step(check: CheckModel, event: TrustFileEvent) -> CheckStep {
    match (check.state, event) {
        (TrustFileState::Root, TrustFileEvent::Entry(found)) => match root_refusal(found) {
            Some(error) => CheckStep::Refuse(error),
            None => CheckStep::Next(TrustFileState::Canonical),
        },
        (TrustFileState::Canonical, TrustFileEvent::Canonical(found)) => match found {
            None => CheckStep::Refuse(root_unavailable_model()),
            Some(path) => if path@ == check.project_root {
                CheckStep::Next(TrustFileState::CanonicalRoot)
            } else {
                CheckStep::Refuse(root_not_canonical_model())
            },
        },
        (TrustFileState::CanonicalRoot, TrustFileEvent::Entry(found)) => match root_refusal(found) {
            Some(error) => CheckStep::Refuse(error),
            None => CheckStep::Next(
                if check.components.len() == 0 {
                    TrustFileState::Opening
                } else {
                    TrustFileState::Component(0)
                },
            ),
        },
        (TrustFileState::Component(at), TrustFileEvent::Entry(found)) => match component_refusal(
            found,
            at + 1 == check.components.len(),
        ) {
            Some(error) => CheckStep::Refuse(error),
            None => CheckStep::Next(
                if at + 1 < check.components.len() {
                    TrustFileState::Component((at + 1) as usize)
                } else {
                    TrustFileState::Opening
                },
            ),
        },
        (TrustFileState::Opening, TrustFileEvent::Opened(opened)) => if opened {
            CheckStep::Next(TrustFileState::FileEntry)
        } else {
            CheckStep::Refuse(open_denied_model())
        },
        (TrustFileState::FileEntry, TrustFileEvent::FileEntry(found)) => match file_refusal(found) {
            Some(error) => CheckStep::Refuse(error),
            None => CheckStep::Next(TrustFileState::Reading),
        },
        (TrustFileState::Reading, TrustFileEvent::Bytes(found)) => match found {
            None => CheckStep::Refuse(read_failed_model()),
            Some(bytes) => match tls_material::size_refusal(bytes@.len(), "trust_root"@) {
                Some(error) => CheckStep::Refuse(error),
                None => CheckStep::Use(bytes@),
            },
        },
        _ => CheckStep::Unexpected,
    }
}

/// What a check comes to after it has looked.
pub enum TrustFileOutcome {
    Next,
    Use(Vec<u8>),
    Refuse(EvaError),
    Unexpected,
}

fn check_root(found: Option<EntryKind>) -> (outcome: Result<(), EvaError>)
    ensures
        crate::http_reply::refused_as(outcome, root_refusal(found)),
{
    match found {
        None => Err(
            EvaError::not_found(
                "MCP TLS controlled project root is unavailable",
            ).with_provider_code("mcp_tls_project_root_unavailable"),
        ),
        Some(kind) => if kind == EntryKind::Directory {
            Ok(())
        } else {
            Err(
                EvaError::permission_denied(
                    "MCP TLS controlled project root is not a regular directory",
                ).with_provider_code("mcp_tls_project_root_invalid"),
            )
        },
    }
}

fn check_component(found: Option<EntryKind>, is_last: bool) -> (outcome: Result<(), EvaError>)
    ensures
        crate::http_reply::refused_as(outcome, component_refusal(found, is_last)),
{
    let kind = match found {
        None => return Err(
            EvaError::not_found(
                "MCP TLS trust root path component is unavailable",
            ).with_provider_code("mcp_tls_trust_root_unavailable"),
        ),
        Some(kind) => kind,
    };
    if kind == EntryKind::Link {
        return Err(
            EvaError::permission_denied(
                "MCP TLS trust root path contains a symlink or reparse point",
            ).with_provider_code("mcp_tls_trust_root_link"),
        );
    }
    let wanted = if is_last {
        EntryKind::File
    } else {
        EntryKind::Directory
    };
    if kind != wanted {
        return Err(
            EvaError::permission_denied(
                "MCP TLS trust root path has an invalid entry type",
            ).with_provider_code("mcp_tls_trust_root_entry_invalid"),
        );
    }
    Ok(())
}

fn check_file(found: Option<(EntryKind, u64)>) -> (outcome: Result<(), EvaError>)
    ensures
        crate::http_reply::refused_as(outcome, file_refusal(found)),
{
    match found {
        None => Err(
            EvaError::unavailable("MCP TLS trust root metadata is unavailable").with_provider_code(
                "mcp_tls_trust_root_unavailable",
            ),
        ),
        Some((kind, length)) => if kind != EntryKind::File {
            Err(
                EvaError::permission_denied(
                    "MCP TLS trust root must be a regular non-link file",
                ).with_provider_code("mcp_tls_trust_root_link"),
            )
        } else if length > MAX_TLS_MATERIAL_BYTES as u64 {
            Err(
                EvaError::conflict(
                    "MCP TLS trust root file exceeded size limit",
                ).with_provider_code("mcp_tls_material_too_large"),
            )
        } else {
            Ok(())
        },
    }
}

impl TrustFileCheck {
    /// The component that is looked at is one of the path.
    pub closed spec fn wf(&self) -> bool {
        self.state matches TrustFileState::Component(at) ==> at < self.components@.len()
    }

    /// Start to check a file. The path is looked at first, and nothing else where
    /// it does not lead below the directory.
    pub fn begin(
        project_root: &str,
        root_is_absolute: bool,
        relative_path: &str,
        style: PathStyle,
    ) -> (outcome: Result<TrustFileCheck, EvaError>)
        ensures
            match outcome {
                Ok(check) => {
                    &&& check.wf()
                    &&& root_is_absolute
                    &&& stays_below(relative_path@, style)
                    &&& check@ == (CheckModel {
                        project_root: project_root@,
                        components: path_components(relative_path@, style),
                        state: TrustFileState::Root,
                    })
                },
                Err(error) => if root_is_absolute {
                    !stays_below(relative_path@, style) && error@ == escape_model()
                } else {
                    error@ == root_not_absolute_model()
                },
            },
    {
        if !root_is_absolute {
            return Err(
                EvaError::permission_denied(
                    "MCP TLS project root must be an absolute path",
                ).with_provider_code("mcp_tls_project_root_invalid"),
            );
        }
        match trust_path_components(relative_path, style) {
            Ok(components) => Ok(
                TrustFileCheck {
                    project_root: project_root.to_owned(),
                    components,
                    state: TrustFileState::Root,
                },
            ),
            Err(error) => Err(error),
        }
    }

    /// What is to be looked at next.
    pub fn action(&self) -> (action: TrustFileAction)
        requires
            self.wf(),
        ensures
            match self@.state {
                TrustFileState::Root => action is InspectRoot,
                TrustFileState::Canonical => action is CanonicalizeRoot,
                TrustFileState::CanonicalRoot => action is InspectCanonicalRoot,
                TrustFileState::Component(at) => action matches TrustFileAction::InspectComponent(
                    count,
                ) && count == at + 1,
                TrustFileState::Opening => action is Open,
                TrustFileState::FileEntry => action is InspectFile,
                TrustFileState::Reading => action is Read,
            },
    {
        let count: usize = self.components.len();
        match self.state {
            TrustFileState::Root => TrustFileAction::InspectRoot,
            TrustFileState::Canonical => TrustFileAction::CanonicalizeRoot,
            TrustFileState::CanonicalRoot => TrustFileAction::InspectCanonicalRoot,
            TrustFileState::Component(at) => TrustFileAction::InspectComponent(
                if at < count {
                    at + 1
                } else {
                    count
                },
            ),
            TrustFileState::Opening => TrustFileAction::Open,
            TrustFileState::FileEntry => TrustFileAction::InspectFile,
            TrustFileState::Reading => TrustFileAction::Read,
        }
    }

    /// How many components the path has.
    pub fn component_count(&self) -> (count: usize)
        ensures
            count == self@.components.len(),
    {
        self.components.len()
    }

    /// The component at the given place of the path.
    pub fn component_at(&self, index: usize) -> (component: &str)
        requires
            index < self@.components.len(),
        ensures
            component@ == self@.components[index as int],
    {
        self.components[index].as_str()
    }

    fn go(&mut self, outcome: Result<(), EvaError>, state: TrustFileState) -> (next:
        TrustFileOutcome)
        requires
            state matches TrustFileState::Component(at) ==> at < old(self)@.components.len(),
            old(self).wf(),
        ensures
            final(self).wf(),
            match outcome {
                Ok(()) => next is Next && final(self)@ == (CheckModel { state, ..old(self)@ }),
                Err(error) => next == TrustFileOutcome::Refuse(error) && final(self)@
                    == old(self)@,
            },
    {
        match outcome {
            Ok(()) => {
                self.state = state;
                TrustFileOutcome::Next
            },
            Err(error) => TrustFileOutcome::Refuse(error),
        }
    }

    /// Take in what was found.
    pub fn take(&mut self, event: TrustFileEvent) -> (outcome: TrustFileOutcome)
        requires
            old(self).wf(),
        ensures
            final(self).wf(),
            match check_step(old(self)@, event) {
                CheckStep::Next(state) => outcome is Next && final(self)@ == (CheckModel {
                    state,
                    ..old(self)@
                }),
                CheckStep::Use(content) => outcome matches TrustFileOutcome::Use(bytes) && bytes@
                    == content,
                CheckStep::Refuse(model) => outcome matches TrustFileOutcome::Refuse(error)
                    && error@ == model,
                CheckStep::Unexpected => outcome is Unexpected && final(self)@ == old(self)@,
            },
    {
        let count: usize = self.components.len();
        match (self.state, event) {
            (TrustFileState::Root, TrustFileEvent::Entry(found)) => self.go(
                check_root(found),
                TrustFileState::Canonical,
            ),
            (TrustFileState::Canonical, TrustFileEvent::Canonical(found)) => match found {
                None => TrustFileOutcome::Refuse(
                    EvaError::not_found(
                        "MCP TLS controlled project root is unavailable",
                    ).with_provider_code("mcp_tls_project_root_unavailable"),
                ),
                Some(path) => if str_eq(path.as_str(), self.project_root.as_str()) {
                    self.go(Ok(()), TrustFileState::CanonicalRoot)
                } else {
                    TrustFileOutcome::Refuse(
                        EvaError::permission_denied(
                            "MCP TLS project root must already be canonical",
                        ).with_provider_code("mcp_tls_project_root_not_canonical"),
                    )
                },
            },
            (TrustFileState::CanonicalRoot, TrustFileEvent::Entry(found)) => {
                let next = if count == 0 {
                    TrustFileState::Opening
                } else {
                    TrustFileState::Component(0)
                };
                self.go(check_root(found), next)
            },
            (TrustFileState::Component(at), TrustFileEvent::Entry(found)) => {
                let is_last = at + 1 == count;
                let next = if at + 1 < count {
                    TrustFileState::Component(at + 1)
                } else {
                    TrustFileState::Opening
                };
                self.go(check_component(found, is_last), next)
            },
            (TrustFileState::Opening, TrustFileEvent::Opened(opened)) => if opened {
                self.go(Ok(()), TrustFileState::FileEntry)
            } else {
                TrustFileOutcome::Refuse(
                    EvaError::permission_denied(
                        "MCP TLS trust root file could not be opened safely",
                    ).with_provider_code("mcp_tls_trust_root_open_denied"),
                )
            },
            (TrustFileState::FileEntry, TrustFileEvent::FileEntry(found)) => self.go(
                check_file(found),
                TrustFileState::Reading,
            ),
            (TrustFileState::Reading, TrustFileEvent::Bytes(found)) => match found {
                None => TrustFileOutcome::Refuse(
                    EvaError::unavailable(
                        "failed to read MCP TLS trust root file",
                    ).with_provider_code("mcp_tls_trust_root_unavailable"),
                ),
                Some(bytes) => match validate_material_size(bytes.as_slice(), "trust_root") {
                    Ok(()) => TrustFileOutcome::Use(bytes),
                    Err(error) => TrustFileOutcome::Refuse(error),
                },
            },
            _ => TrustFileOutcome::Unexpected,
        }
    }
}

// ---------------------------------------------------------------------------
// Laws
// ---------------------------------------------------------------------------

proof fn lemma_named_parts(parts: Seq<Seq<char>>, part: Seq<char>)
    ensures
        named_parts(parts).contains(part) ==> parts.contains(part) && part.len() > 0 && part
            != "."@,
    decreases parts.len(),
{
    if parts.len() > 0 {
        let front = parts.drop_last();
        lemma_named_parts(front, part);
        if named_parts(parts).contains(part) {
            let all = named_parts(parts);
            let k = choose|k: int| 0 <= k < all.len() && all[k] == part;
            if k < named_parts(front).len() {
                assert(named_parts(front)[k] == part);
                assert(named_parts(front).contains(part));
                let j = choose|j: int| 0 <= j < front.len() && front[j] == part;
                assert(parts[j] == part);
            } else {
                assert(parts[parts.len() - 1] == part);
            }
        }
    }
}

proof fn lemma_parts_hold_what_is_between(path: Seq<char>, at: int, part: Seq<char>)
    requires
        0 <= at <= path.len(),
        text::parts_from(path, '/', at).contains(part),
    ensures
        !text::has_char(part, '/'),
        forall|c: char| text::has_char(part, c) ==> text::has_char(path, c),
    decreases path.len() - at,
{
    let parts = text::parts_from(path, '/', at);
    let end = text::char_position(path, '/', at);
    let stop = if end < path.len() {
        end
    } else {
        path.len() as int
    };
    text::lemma_char_position(path, '/', at);
    let k = choose|k: int| 0 <= k < parts.len() && parts[k] == part;
    if k == 0 {
        assert(part == path.subrange(at, stop));
        assert forall|i: int| 0 <= i < part.len() implies #[trigger] part[i] == path[at + i]
            && part[i] != '/' by {}
        assert forall|c: char| text::has_char(part, c) implies text::has_char(path, c) by {
            let i = choose|i: int| 0 <= i < part.len() && #[trigger] part[i] == c;
            assert(path[at + i] == c);
        }
    } else {
        let rest = text::parts_from(path, '/', end + 1);
        assert(parts =~= seq![path.subrange(at, end)] + rest);
        assert(rest[k - 1] == part);
        assert(rest.contains(part));
        lemma_parts_hold_what_is_between(path, end + 1, part);
    }
}

/// No component of a path that is followed leads up, stays where it is or holds a
/// separator.
pub proof fn law_followed_components_lead_down(
    path: Seq<char>,
    style: PathStyle,
    component: Seq<char>,
)
    requires
        stays_below(path, style),
        path_components(path, style).contains(component),
    ensures
        component.len() > 0,
        component != "."@,
        component != ".."@,
        !text::has_char(component, '/'),
        style == PathStyle::SlashOrBackslash ==> !text::has_char(component, '\\'),
{
    let parts = path_parts(path, style);
    lemma_named_parts(parts, component);
    let k = choose|k: int| 0 <= k < parts.len() && parts[k] == component;
    assert(parts[k] != ".."@);
    lemma_parts_hold_what_is_between(with_slashes(path, style), 0, component);
}

/// Bytes are used only if they are not empty and within the limit.
pub proof fn law_used_bytes_are_bounded(check: CheckModel, event: TrustFileEvent)
    ensures
        check_step(check, event) matches CheckStep::Use(bytes) ==> check.state
            == TrustFileState::Reading && 0 < bytes.len() <= MAX_TLS_MATERIAL_BYTES,
{
}

/// A link in place of the directory or of a component of the path is refused.
pub proof fn law_links_are_not_followed(check: CheckModel, at: usize)
    requires
        check.state == TrustFileState::Component(at) || check.state == TrustFileState::Root
            || check.state == TrustFileState::CanonicalRoot,
    ensures
        check_step(check, TrustFileEvent::Entry(Some(EntryKind::Link))) is Refuse,
{
}

} // verus!
