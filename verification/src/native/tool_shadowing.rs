//! The guard that keeps servers that are not trusted from offering a tool
//! under a protected name.
use crate::decision::{
    DecisionView, DenyReason, DenyReasonView, ErrorView, GuardContext, GuardDecision, GuardResult,
    result_view, texts_view,
};
use crate::native::names::{find_name, name_position};
use crate::order::{first_where, lemma_first_where_is};
use crate::tool::{Tool, ToolView, tools_view};
use vstd::prelude::*;

verus! {

/// Configuration of the guard.
#[derive(Debug)]
pub struct ToolShadowingConfig {
    /// The names of tools that only trusted servers may offer.
    pub protected_names: Vec<String>,
    /// The servers that may offer tools under protected names.
    pub trusted_servers: Vec<String>,
}

/// The guard.
pub struct ToolShadowingDetector {
    config: ToolShadowingConfig,
}

/// Whether a tool has one of the names `protected`.
pub open spec fn is_protected(protected: Seq<Seq<char>>) -> spec_fn(ToolView) -> bool {
    |t: ToolView| name_position(protected, t.name) < protected.len()
}

/// The decision on the list of tools of `server`: denied for the first tool
/// with a protected name, unless the server is trusted.
pub open spec fn shadowing_decision(
    protected: Seq<Seq<char>>,
    trusted: Seq<Seq<char>>,
    server: Seq<char>,
    tools: Seq<ToolView>,
) -> DecisionView {
    let at = first_where(tools, is_protected(protected));
    if name_position(trusted, server) >= trusted.len() && at < tools.len() {
        DecisionView::Deny(
            DenyReasonView {
                code: "tool_shadowing_detected"@,
                message: "Tool '"@ + tools[at].name + "' of server '"@ + server
                    + "' shadows a protected tool"@,
                details: None,
            },
        )
    } else {
        DecisionView::Allow
    }
}

impl ToolShadowingDetector {
    /// The names of tools that only trusted servers may offer.
    pub closed spec fn protected_names(&self) -> Seq<Seq<char>> {
        texts_view(self.config.protected_names@)
    }

    /// The servers that may offer tools under protected names.
    pub closed spec fn trusted_servers(&self) -> Seq<Seq<char>> {
        texts_view(self.config.trusted_servers@)
    }

    /// A guard with the given configuration.
    pub fn new(config: ToolShadowingConfig) -> (res: ToolShadowingDetector)
        ensures
            res.protected_names() == texts_view(config.protected_names@),
            res.trusted_servers() == texts_view(config.trusted_servers@),
    {
        ToolShadowingDetector { config }
    }

    /// Decides on a list of tools of the server that the context names.
    pub fn evaluate_tools_list(&self, tools: &Vec<Tool>, context: &GuardContext) -> (res:
        GuardResult)
        ensures
            result_view(res) == Ok::<DecisionView, ErrorView>(
                shadowing_decision(
                    self.protected_names(),
                    self.trusted_servers(),
                    context@.server_name,
                    tools_view(tools@),
                ),
            ),
    {
        let ghost tv = tools_view(tools@);
        let ghost protected = is_protected(self.protected_names());
        if find_name(&self.config.trusted_servers, context.server_name.as_str())
            < self.config.trusted_servers.len() {
            return Ok(GuardDecision::Allow);
        }
        let mut i: usize = 0;
        while i < tools.len()
            invariant
                i <= tools.len(),
                tv == tools_view(tools@),
                protected == is_protected(self.protected_names()),
                forall|k: int| 0 <= k < i ==> !protected(#[trigger] tv[k]),
            decreases tools.len() - i,
        {
            proof {
                assert(tv[i as int] == tools@[i as int]@);
            }
            if find_name(&self.config.protected_names, tools[i].name.as_str())
                < self.config.protected_names.len() {
                proof {
                    lemma_first_where_is(tv, protected, i as int);
                }
                let mut message = "Tool '".to_owned();
                message.append(tools[i].name.as_str());
                message.append("' of server '");
                message.append(context.server_name.as_str());
                message.append("' shadows a protected tool");
                return Ok(
                    GuardDecision::Deny(
                        DenyReason {
                            code: "tool_shadowing_detected".to_owned(),
                            message,
                            details: None,
                        },
                    ),
                );
            }
            i += 1;
        }
        proof {
            lemma_first_where_is(tv, protected, tv.len() as int);
        }
        Ok(GuardDecision::Allow)
    }
}

} // verus!
