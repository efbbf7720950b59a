//! Default-deny allowlists for MCP tools, resources and prompts.
//!
//! A request for a name that is not listed is refused before any process is
//! started and before any byte is sent.

use vstd::prelude::*;
use crate::collections::NameSet;
use crate::error::{ErrorKind, ErrorModel, EvaError};
use crate::text;
use crate::text::{contains_whitespace, str_eq, trim};

verus! {

pub const RESPONSIBILITY: &'static str = "MCP policy helper evaluation";

/// The names that a client may use.
#[derive(Debug, Clone, PartialEq, Eq)]
pub struct McpAllowlist {
    tools: NameSet,
    resources: NameSet,
    prompts: NameSet,
}

/// Why a text cannot stand in an allowlist, if it cannot.
pub open spec fn token_refusal(field: Seq<char>, value: Seq<char>) -> Option<ErrorModel> {
    if value.len() == 0 || text::trimmed(value) != value {
        Some(
            ErrorModel::new(
                ErrorKind::InvalidArgument,
                "MCP allowlist token must be non-empty and trimmed"@,
            ).ctx("field"@, field).ctx("value"@, value),
        )
    } else if text::has_whitespace(value) {
        Some(
            ErrorModel::new(
                ErrorKind::InvalidArgument,
                "MCP allowlist token cannot contain whitespace"@,
            ).ctx("field"@, field).ctx("value"@, value),
        )
    } else {
        None
    }
}

/// A token that is refused or accepted as `token_refusal` says.
pub open spec fn token_outcome(outcome: Result<(), EvaError>, field: Seq<char>, value: Seq<char>) -> bool {
    match outcome {
        Ok(()) => token_refusal(field, value) is None,
        Err(error) => token_refusal(field, value) == Some(error@),
    }
}

fn validate_token(field: &str, value: &str) -> (outcome: Result<(), EvaError>)
    ensures
        token_outcome(outcome, field@, value@),
{
    if value.is_empty() || !str_eq(trim(value).as_str(), value) {
        return Err(
            EvaError::invalid_argument(
                "MCP allowlist token must be non-empty and trimmed",
            ).with_context("field", field).with_context("value", value),
        );
    }
    if contains_whitespace(value) {
        return Err(
            EvaError::invalid_argument(
                "MCP allowlist token cannot contain whitespace",
            ).with_context("field", field).with_context("value", value),
        );
    }
    Ok(())
}

/// The refusal of a tool that is not listed.
pub open spec fn tool_not_allowlisted(tool: Seq<char>) -> ErrorModel {
    ErrorModel::new(ErrorKind::PermissionDenied, "MCP tool is not allowlisted"@).ctx("tool"@, tool)
}

/// Whether a text can stand in an allowlist: it is not empty and holds no
/// whitespace.
pub open spec fn is_token(value: Seq<char>) -> bool {
    value.len() > 0 && !text::has_whitespace(value)
}

/// Whether all names of a set can stand in an allowlist.
pub open spec fn all_tokens(names: Set<Seq<char>>) -> bool {
    forall|n: Seq<char>| #[trigger] names.contains(n) ==> is_token(n)
}

impl Default for McpAllowlist {
    fn default() -> (list: McpAllowlist)
        ensures
            list.wf(),
            list.tool_set() == Set::<Seq<char>>::empty(),
            list.resource_set() == Set::<Seq<char>>::empty(),
            list.prompt_set() == Set::<Seq<char>>::empty(),
    {
        McpAllowlist::new()
    }
}

impl McpAllowlist {
    /// Every listed name is a token.
    pub closed spec fn wf(&self) -> bool {
        &&& self.tools.wf()
        &&& self.resources.wf()
        &&& self.prompts.wf()
        &&& all_tokens(self.tools@)
        &&& all_tokens(self.resources@)
        &&& all_tokens(self.prompts@)
    }

    /// The tools that are listed.
    pub closed spec fn tool_set(&self) -> Set<Seq<char>> {
        self.tools@
    }

    /// The resources that are listed.
    pub closed spec fn resource_set(&self) -> Set<Seq<char>> {
        self.resources@
    }

    /// The prompts that are listed.
    pub closed spec fn prompt_set(&self) -> Set<Seq<char>> {
        self.prompts@
    }

    /// Nothing is listed.
    pub fn new() -> (list: McpAllowlist)
        ensures
            list.wf(),
            list.tool_set() == Set::<Seq<char>>::empty(),
            list.resource_set() == Set::<Seq<char>>::empty(),
            list.prompt_set() == Set::<Seq<char>>::empty(),
    {
        McpAllowlist { tools: NameSet::new(), resources: NameSet::new(), prompts: NameSet::new() }
    }

    /// Exactly the given tools are listed. The first tool that is no token
    /// decides the error.
    pub fn from_tools(tools: &[&str]) -> (outcome: Result<McpAllowlist, EvaError>)
        ensures
            match outcome {
                Ok(list) => {
                    &&& list.wf()
                    &&& forall|i: int|
                        0 <= i < tools@.len() ==> token_refusal(
                            "tool"@,
                            (#[trigger] tools@[i])@,
                        ) is None
                    &&& forall|name: Seq<char>| #[trigger]
                        list.tool_set().contains(name) <==> exists|i: int|
                            0 <= i < tools@.len() && (#[trigger] tools@[i])@ == name
                    &&& list.resource_set() == Set::<Seq<char>>::empty()
                    &&& list.prompt_set() == Set::<Seq<char>>::empty()
                },
                Err(error) => exists|i: int|
                    {
                        &&& 0 <= i < tools@.len()
                        &&& token_refusal("tool"@, (#[trigger] tools@[i])@) == Some(error@)
                        &&& forall|j: int|
                            0 <= j < i ==> token_refusal("tool"@, (#[trigger] tools@[j])@) is None
                    },
            },
    {
        let mut list = McpAllowlist::new();
        let mut i: usize = 0;
        while i < tools.len()
            invariant
                i <= tools@.len(),
                list.wf(),
                forall|k: int|
                    0 <= k < i ==> token_refusal("tool"@, (#[trigger] tools@[k])@) is None,
                forall|name: Seq<char>| #[trigger]
                    list.tool_set().contains(name) <==> exists|k: int|
                        0 <= k < i && (#[trigger] tools@[k])@ == name,
                list.resource_set() == Set::<Seq<char>>::empty(),
                list.prompt_set() == Set::<Seq<char>>::empty(),
            decreases tools@.len() - i,
        {
            let ghost before = list.tool_set();
            match list.allow_tool(tools[i]) {
                Ok(()) => {},
                Err(error) => {
                    return Err(error);
                },
            }
            proof {
                assert forall|name: Seq<char>| #[trigger]
                    list.tool_set().contains(name) <==> exists|k: int|
                        0 <= k < i + 1 && (#[trigger] tools@[k])@ == name by {
                    if name == tools@[i as int]@ {
                        assert(tools@[i as int]@ == name);
                    } else if before.contains(name) {
                        let k = choose|k: int| 0 <= k < i && (#[trigger] tools@[k])@ == name;
                        assert(tools@[k]@ == name);
                    }
                }
            }
            i += 1;
        }
        Ok(list)
    }

    /// List one more tool.
    pub fn allow_tool(&mut self, tool: &str) -> (outcome: Result<(), EvaError>)
        requires
            old(self).wf(),
        ensures
            final(self).wf(),
            token_outcome(outcome, "tool"@, tool@),
            outcome is Ok ==> final(self).tool_set() == old(self).tool_set().insert(tool@),
            outcome is Err ==> *final(self) == *old(self),
            final(self).resource_set() == old(self).resource_set(),
            final(self).prompt_set() == old(self).prompt_set(),
    {
        match validate_token("tool", tool) {
            Ok(()) => {},
            Err(error) => return Err(error),
        }
        self.tools.insert(tool.to_owned());
        Ok(())
    }

    /// List one more resource.
    pub fn allow_resource(&mut self, resource: &str) -> (outcome: Result<(), EvaError>)
        requires
            old(self).wf(),
        ensures
            final(self).wf(),
            token_outcome(outcome, "resource"@, resource@),
            outcome is Ok ==> final(self).resource_set() == old(self).resource_set().insert(
                resource@,
            ),
            outcome is Err ==> *final(self) == *old(self),
            final(self).tool_set() == old(self).tool_set(),
            final(self).prompt_set() == old(self).prompt_set(),
    {
        match validate_token("resource", resource) {
            Ok(()) => {},
            Err(error) => return Err(error),
        }
        self.resources.insert(resource.to_owned());
        Ok(())
    }

    /// List one more prompt.
    pub fn allow_prompt(&mut self, prompt: &str) -> (outcome: Result<(), EvaError>)
        requires
            old(self).wf(),
        ensures
            final(self).wf(),
            token_outcome(outcome, "prompt"@, prompt@),
            outcome is Ok ==> final(self).prompt_set() == old(self).prompt_set().insert(prompt@),
            outcome is Err ==> *final(self) == *old(self),
            final(self).tool_set() == old(self).tool_set(),
            final(self).resource_set() == old(self).resource_set(),
    {
        match validate_token("prompt", prompt) {
            Ok(()) => {},
            Err(error) => return Err(error),
        }
        self.prompts.insert(prompt.to_owned());
        Ok(())
    }

    /// The listed tools, each once, in name order.
    pub fn tools(&self) -> (list: Vec<String>)
        requires
            self.wf(),
        ensures
            crate::collections::in_order(text::texts(list@)),
            forall|name: Seq<char>| #[trigger]
                text::texts(list@).contains(name) <==> self.tool_set().contains(name),
            all_tokens(self.tool_set()),
    {
        proof {
            self.tools.lemma_names();
        }
        self.tools.to_vec()
    }

    /// The listed resources, each once, in name order.
    pub fn resources(&self) -> (list: Vec<String>)
        requires
            self.wf(),
        ensures
            crate::collections::in_order(text::texts(list@)),
            forall|name: Seq<char>| #[trigger]
                text::texts(list@).contains(name) <==> self.resource_set().contains(name),
            all_tokens(self.resource_set()),
    {
        proof {
            self.resources.lemma_names();
        }
        self.resources.to_vec()
    }

    /// The listed prompts, each once, in name order.
    pub fn prompts(&self) -> (list: Vec<String>)
        requires
            self.wf(),
        ensures
            crate::collections::in_order(text::texts(list@)),
            forall|name: Seq<char>| #[trigger]
                text::texts(list@).contains(name) <==> self.prompt_set().contains(name),
            all_tokens(self.prompt_set()),
    {
        proof {
            self.prompts.lemma_names();
        }
        self.prompts.to_vec()
    }

    /// Whether the tool is listed.
    pub fn permits_tool(&self, tool: &str) -> (permitted: bool)
        requires
            self.wf(),
        ensures
            permitted == self.tool_set().contains(tool@),
    {
        self.tools.contains(tool)
    }

    /// Refuse a tool that is not listed.
    pub fn require_tool(&self, tool: &str) -> (outcome: Result<(), EvaError>)
        requires
            self.wf(),
        ensures
            match outcome {
                Ok(()) => self.tool_set().contains(tool@),
                Err(error) => !self.tool_set().contains(tool@) && error@ == tool_not_allowlisted(
                    tool@,
                ),
            },
    {
        if self.permits_tool(tool) {
            Ok(())
        } else {
            Err(
                EvaError::permission_denied("MCP tool is not allowlisted").with_context(
                    "tool",
                    tool,
                ),
            )
        }
    }
}

/// The names of an allowlist are not empty and hold no whitespace. In order, each
/// once, they are exactly what is permitted.
pub proof fn law_listed_names_are_tokens(list: McpAllowlist, tools: Seq<Seq<char>>)
    requires
        list.wf(),
        crate::collections::in_order(tools),
        forall|n: Seq<char>| #[trigger] tools.contains(n) <==> list.tool_set().contains(n),
    ensures
        all_tokens(list.tool_set()),
        all_tokens(list.resource_set()),
        all_tokens(list.prompt_set()),
        tools == crate::collections::sorted(list.tool_set()),
        forall|i: int|
            0 <= i < tools.len() ==> is_token(#[trigger] tools[i]) && list.tool_set().contains(
                tools[i],
            ),
        forall|i: int, j: int|
            0 <= i < j < tools.len() ==> (#[trigger] tools[i]) != (#[trigger] tools[j]),
{
    crate::collections::lemma_sorted(tools, list.tool_set());
    assert forall|i: int| 0 <= i < tools.len() implies is_token(#[trigger] tools[i])
        && list.tool_set().contains(tools[i]) by {
        assert(tools.contains(tools[i]));
    }
    assert forall|i: int, j: int| 0 <= i < j < tools.len() implies (#[trigger] tools[i])
        != (#[trigger] tools[j]) by {
        assert(crate::collections::name_less(tools[i], tools[j]));
        crate::collections::lemma_name_less_irreflexive(tools[i]);
    }
}

/// A name with whitespace, or without anything, is refused by every list.
pub proof fn law_unstable_names_are_not_listed(list: McpAllowlist, tool: Seq<char>)
    requires
        list.wf(),
        !is_token(tool),
    ensures
        !list.tool_set().contains(tool),
        !list.resource_set().contains(tool),
        !list.prompt_set().contains(tool),
{
}

} // verus!
