//! The guard that lets connections through to whitelisted servers only, and
//! names the servers whose name is a near miss of a whitelisted one.
use crate::decision::{
    DecisionView, DenyReason, DenyReasonView, ErrorView, GuardContext, GuardDecision, GuardResult,
    result_view, texts_view,
};
use crate::native::names::{find_name, find_near_miss, is_near, name_position};
use crate::order::first_where;
use vstd::prelude::*;

verus! {

/// Configuration of the guard.
#[derive(Debug)]
pub struct ServerWhitelistConfig {
    /// The names of the servers that may be connected to.
    pub allowed_servers: Vec<String>,
    /// The URLs that may be connected to; with none given, every URL may.
    pub allowed_urls: Vec<String>,
    /// Whether a name that is a near miss of an allowed one is reported as
    /// such.
    pub detect_typosquats: bool,
}

/// The guard.
pub struct ServerWhitelistChecker {
    config: ServerWhitelistConfig,
}

/// A denial without details.
pub open spec fn denial(code: Seq<char>, message: Seq<char>) -> DecisionView {
    DecisionView::Deny(DenyReasonView { code, message, details: None })
}

/// The decision on a connection to the server `name` at `url`.
///
/// A name on the whitelist is allowed, unless URLs are listed and the URL is
/// given and is not among them. A name that is not on the whitelist is
/// denied: as a typosquat if that check is on and the name is a near miss of
/// a name on the list, else as not whitelisted.
pub open spec fn connection_decision(
    allowed: Seq<Seq<char>>,
    urls: Seq<Seq<char>>,
    typosquats: bool,
    name: Seq<char>,
    url: Option<Seq<char>>,
) -> DecisionView {
    let near = first_where(allowed, is_near(name));
    if name_position(allowed, name) < allowed.len() {
        if url is Some && urls.len() > 0 && name_position(urls, url->Some_0) >= urls.len() {
            denial(
                "server_url_not_whitelisted"@,
                "URL '"@ + url->Some_0 + "' of server '"@ + name + "' is not whitelisted"@,
            )
        } else {
            DecisionView::Allow
        }
    } else if typosquats && near < allowed.len() {
        denial(
            "typosquat_detected"@,
            "Server '"@ + name + "' resembles whitelisted server '"@ + allowed[near] + "'"@,
        )
    } else {
        denial("server_not_whitelisted"@, "Server '"@ + name + "' is not whitelisted"@)
    }
}

fn deny(code: &str, message: String) -> (res: GuardResult)
    ensures
        result_view(res) == Ok::<DecisionView, ErrorView>(denial(code@, message@)),
{
    Ok(GuardDecision::Deny(DenyReason { code: code.to_owned(), message, details: None }))
}

impl ServerWhitelistChecker {
    /// The names of the servers that may be connected to.
    pub closed spec fn allowed_servers(&self) -> Seq<Seq<char>> {
        texts_view(self.config.allowed_servers@)
    }

    /// The URLs that may be connected to.
    pub closed spec fn allowed_urls(&self) -> Seq<Seq<char>> {
        texts_view(self.config.allowed_urls@)
    }

    /// Whether near misses of allowed names are reported as such.
    pub closed spec fn detect_typosquats(&self) -> bool {
        self.config.detect_typosquats
    }

    /// A guard with the given configuration.
    pub fn new(config: ServerWhitelistConfig) -> (res: ServerWhitelistChecker)
        ensures
            res.allowed_servers() == texts_view(config.allowed_servers@),
            res.allowed_urls() == texts_view(config.allowed_urls@),
            res.detect_typosquats() == config.detect_typosquats,
    {
        ServerWhitelistChecker { config }
    }

    /// Decides on a connection to a server.
    pub fn evaluate_connection(
        &self,
        server_name: &str,
        server_url: Option<&str>,
        context: &GuardContext,
    ) -> (res: GuardResult)
        ensures
            result_view(res) == Ok::<DecisionView, ErrorView>(
                connection_decision(
                    self.allowed_servers(),
                    self.allowed_urls(),
                    self.detect_typosquats(),
                    server_name@,
                    match server_url {
                        Some(u) => Some(u@),
                        None => None,
                    },
                ),
            ),
    {
        let at = find_name(&self.config.allowed_servers, server_name);
        if at < self.config.allowed_servers.len() {
            match server_url {
                Some(url) => {
                    if self.config.allowed_urls.len() > 0 && find_name(
                        &self.config.allowed_urls,
                        url,
                    ) >= self.config.allowed_urls.len() {
                        let mut message = "URL '".to_owned();
                        message.append(url);
                        message.append("' of server '");
                        message.append(server_name);
                        message.append("' is not whitelisted");
                        return deny("server_url_not_whitelisted", message);
                    }
                },
                None => {},
            }
            return Ok(GuardDecision::Allow);
        }
        if self.config.detect_typosquats {
            let near = find_near_miss(&self.config.allowed_servers, server_name);
            if near < self.config.allowed_servers.len() {
                let mut message = "Server '".to_owned();
                message.append(server_name);
                message.append("' resembles whitelisted server '");
                message.append(self.config.allowed_servers[near].as_str());
                message.append("'");
                proof {
                    assert(texts_view(self.config.allowed_servers@)[near as int]
                        == self.config.allowed_servers@[near as int]@);
                }
                return deny("typosquat_detected", message);
            }
        }
        let mut message = "Server '".to_owned();
        message.append(server_name);
        message.append("' is not whitelisted");
        deny("server_not_whitelisted", message)
    }
}

} // verus!
