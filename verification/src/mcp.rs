//! MCP (Model Context Protocol) configuration, errors and tool routing.

use vstd::prelude::*;

use vstd::string::*;

use crate::chars::{concat, to_chars};

verus! {

/// Errors that occur during MCP operations.
#[derive(Debug, Clone, PartialEq)]
pub enum McpError {
    /// Failed to load or parse MCP configuration.
    ConfigError(String),
    /// Failed to connect to an MCP server.
    ConnectionError {
        /// Name of the server that failed.
        server: String,
        /// Error message.
        message: String,
    },
    /// A tool call failed.
    ToolError(String),
    /// I/O error during MCP operations.
    IoError(String),
}

/// The text shown for an MCP error.
pub open spec fn mcp_error_text(e: McpError) -> Seq<char> {
    match e {
        McpError::ConfigError(m) => "MCP config error: "@ + m@,
        McpError::ConnectionError { server, message } => "MCP connection error for server '"@
            + server@ + "': "@ + message@,
        McpError::ToolError(m) => "MCP tool error: "@ + m@,
        McpError::IoError(m) => "MCP IO error: "@ + m@,
    }
}

impl McpError {
    /// The human-readable description of this error.
    pub fn to_string(&self) -> (r: String)
        ensures
            r@ == mcp_error_text(*self),
    {
        match self {
            McpError::ConfigError(m) => concat("MCP config error: ", m.as_str()),
            McpError::ConnectionError { server, message } => {
                let a = concat("MCP connection error for server '", server.as_str());
                let b = concat(a.as_str(), "': ");
                concat(b.as_str(), message.as_str())
            },
            McpError::ToolError(m) => concat("MCP tool error: ", m.as_str()),
            McpError::IoError(m) => concat("MCP IO error: ", m.as_str()),
        }
    }
}

/// How to start one MCP server: a command, its arguments and its environment.
#[derive(Debug, Clone)]
pub struct McpServerConfig {
    /// Command to execute (e.g. "npx", "uvx", "/usr/bin/server").
    pub command: String,
    /// Command-line arguments.
    pub args: Vec<String>,
    /// Environment variables for the server process, as name and value.
    pub env: Vec<(String, String)>,
}

/// The MCP configuration: the servers by name.
#[derive(Debug, Clone)]
pub struct McpConfig {
    /// Servers, as name and configuration.
    pub mcp_servers: Vec<(String, McpServerConfig)>,
}

/// A tool offered by an MCP server.
#[derive(Debug, Clone)]
pub struct ToolDefinition {
    /// Tool name.
    pub name: String,
    /// Human-readable description.
    pub description: Option<String>,
    /// JSON Schema of the tool's input, as JSON text.
    pub input_schema: String,
}

/// The default MCP configuration file, relative to the home directory.
pub const DEFAULT_MCP_CONFIG: &'static str = ".config/synapse/mcp_servers.json";

/// `rel` joined onto the directory `dir` as `Path::join` does for a relative `rel`.
pub open spec fn join_path(dir: Seq<char>, rel: Seq<char>) -> Seq<char> {
    if dir.len() == 0 {
        rel
    } else if dir.last() == '/' {
        dir + rel
    } else {
        dir + "/"@ + rel
    }
}

/// Where the MCP configuration is read from: `SYNAPSE_MCP_CONFIG` when set and not empty,
/// else the configured path, else the default file under the home directory.
pub open spec fn mcp_config_path_spec(
    env_path: Option<Seq<char>>,
    config_path: Option<Seq<char>>,
    home: Option<Seq<char>>,
) -> Option<Seq<char>> {
    if env_path matches Some(p) && p.len() > 0 {
        env_path
    } else if config_path is Some {
        config_path
    } else {
        match home {
            Some(h) => Some(join_path(h, DEFAULT_MCP_CONFIG@)),
            None => None,
        }
    }
}

/// The text of an optional string.
pub open spec fn opt_view(s: Option<String>) -> Option<Seq<char>> {
    match s {
        Some(t) => Some(t@),
        None => None,
    }
}

/// Resolve the MCP configuration path from the `SYNAPSE_MCP_CONFIG` value, the configured
/// path and the home directory.
pub fn resolve_config_path(env_path: Option<String>, config_path: Option<String>, home: Option<String>) -> (r:
    Option<String>)
    ensures
        opt_view(r) == mcp_config_path_spec(opt_view(env_path), opt_view(config_path), opt_view(home)),
{
    match env_path {
        Some(p) => {
            if !p.as_str().is_empty() {
                return Some(p);
            }
        },
        None => {},
    }
    match config_path {
        Some(p) => {
            return Some(p);
        },
        None => {},
    }
    match home {
        Some(h) => {
            let v = to_chars(h.as_str());
            let mut out = h;
            if v.len() > 0 && v[v.len() - 1] != '/' {
                out.append("/");
            }
            out.append(DEFAULT_MCP_CONFIG);
            proof {
                if v@.len() > 0 {
                    assert(v@.last() == v@[v@.len() - 1]);
                }
            }
            Some(out)
        },
        None => None,
    }
}

/// The MCP client's routing state: which server serves each tool, the servers that are
/// connected, and the tools offered.
#[derive(Debug)]
pub struct McpClient {
    routes: Vec<(String, String)>,
    servers: Vec<String>,
    definitions: Vec<ToolDefinition>,
}

/// The server of `tool` by the latest route registered for it.
pub open spec fn route_of(routes: Seq<(String, String)>, tool: Seq<char>) -> Option<Seq<char>>
    decreases routes.len(),
{
    if routes.len() == 0 {
        None
    } else if routes.last().0@ == tool {
        Some(routes.last().1@)
    } else {
        route_of(routes.drop_last(), tool)
    }
}

/// The latest route registered for a tool is the one calls follow.
pub proof fn lemma_latest_route_wins(routes: Seq<(String, String)>, entry: (String, String))
    ensures
        route_of(routes.push(entry), entry.0@) == Some(entry.1@),
{
    assert(routes.push(entry).last() == entry);
}

/// Whether `name` is among `servers`.
pub open spec fn has_server(servers: Seq<String>, name: Seq<char>) -> bool {
    exists|i: int| 0 <= i < servers.len() && (#[trigger] servers[i])@ == name
}

/// What a call of `tool` is routed to: its server when that is connected, else the error
/// the call fails with.
pub open spec fn route_spec(routes: Seq<(String, String)>, servers: Seq<String>, tool: Seq<char>) -> Result<
    Seq<char>,
    Seq<char>,
> {
    match route_of(routes, tool) {
        None => Err("unknown tool: "@ + tool),
        Some(server) => if has_server(servers, server) {
            Ok(server)
        } else {
            Err("server '"@ + server + "' not connected"@)
        },
    }
}

fn str_equal(a: &String, b: &str) -> (r: bool)
    ensures
        r == (a@ == b@),
{
    crate::chars::str_eq(a.as_str(), b)
}

impl McpClient {
    /// The routes, latest last.
    pub closed spec fn routes(&self) -> Seq<(String, String)> {
        self.routes@
    }

    /// The connected servers.
    pub closed spec fn servers(&self) -> Seq<String> {
        self.servers@
    }

    /// The tools offered, in discovery order.
    pub closed spec fn definitions(&self) -> Seq<ToolDefinition> {
        self.definitions@
    }

    /// A registry without servers or tools.
    pub fn empty() -> (r: McpClient)
        ensures
            r.routes().len() == 0,
            r.servers().len() == 0,
            r.definitions().len() == 0,
    {
        McpClient { routes: Vec::new(), servers: Vec::new(), definitions: Vec::new() }
    }

    /// Record a connected server and the tools it offers; a tool offered again by a later
    /// server is routed to that server.
    pub fn add_server(&mut self, server: &str, tools: Vec<ToolDefinition>)
        ensures
            final(self).servers().len() == old(self).servers().len() + 1,
            final(self).servers().drop_last() == old(self).servers(),
            final(self).servers().last()@ == server@,
            final(self).definitions() == old(self).definitions() + tools@,
            final(self).routes().len() == old(self).routes().len() + tools@.len(),
            final(self).routes().take(old(self).routes().len() as int) == old(self).routes(),
            forall|i: int|
                0 <= i < tools@.len() ==> (#[trigger] final(self).routes()[old(self).routes().len() + i]).0
                    == tools@[i].name && final(self).routes()[old(self).routes().len() + i].1@
                    == server@,
    {
        let ghost r0 = self.routes@;
        let mut i: usize = 0;
        while i < tools.len()
            invariant
                i <= tools@.len(),
                self.routes@.len() == r0.len() + i,
                self.routes@.take(r0.len() as int) == r0,
                self.servers == old(self).servers,
                self.definitions == old(self).definitions,
                forall|j: int|
                    0 <= j < i ==> (#[trigger] self.routes@[r0.len() + j]).0 == tools@[j].name
                        && self.routes@[r0.len() + j].1@ == server@,
            decreases tools.len() - i,
        {
            let ghost before = self.routes@;
            self.routes.push((tools[i].name.clone(), String::from_str(server)));
            assert(self.routes@.take(r0.len() as int) =~= before.take(r0.len() as int));
            i = i + 1;
        }
        let ghost d0 = self.definitions@;
        let mut tools = tools;
        self.definitions.append(&mut tools);
        self.servers.push(String::from_str(server));
        assert(self.servers@.drop_last() =~= old(self).servers@);
    }

    /// A registry routing each of `tools` to a server called `test-server`, which is not
    /// connected.
    pub fn with_test_tools(tools: Vec<ToolDefinition>) -> (r: McpClient)
        ensures
            r.servers().len() == 0,
            r.definitions() == tools@,
            r.routes().len() == tools@.len(),
            forall|i: int|
                0 <= i < tools@.len() ==> (#[trigger] r.routes()[i]).0 == tools@[i].name
                    && r.routes()[i].1@ == "test-server"@,
    {
        let mut routes: Vec<(String, String)> = Vec::new();
        let mut i: usize = 0;
        while i < tools.len()
            invariant
                i <= tools@.len(),
                routes@.len() == i,
                forall|j: int|
                    0 <= j < i ==> (#[trigger] routes@[j]).0 == tools@[j].name && routes@[j].1@
                        == "test-server"@,
            decreases tools.len() - i,
        {
            routes.push((tools[i].name.clone(), String::from_str("test-server")));
            i = i + 1;
        }
        McpClient { routes, servers: Vec::new(), definitions: tools }
    }

    /// The tools offered.
    pub fn tool_definitions(&self) -> (r: &[ToolDefinition])
        ensures
            r@ == self.definitions(),
    {
        self.definitions.as_slice()
    }

    /// Whether any tool is offered.
    pub fn has_tools(&self) -> (r: bool)
        ensures
            r == (self.definitions().len() > 0),
    {
        self.definitions.len() > 0
    }

    /// The server to send a call of `tool` to, or the error the call fails with: an
    /// unknown tool, or a server that is not connected.
    pub fn route(&self, tool: &str) -> (r: Result<String, McpError>)
        ensures
            match route_spec(self.routes(), self.servers(), tool@) {
                Ok(server) => r matches Ok(s) && s@ == server,
                Err(text) => r matches Err(McpError::ToolError(m)) && m@ == text,
            },
    {
        let mut k: usize = self.routes.len();
        assert(self.routes@.take(k as int) =~= self.routes@);
        while k > 0
            invariant
                k <= self.routes@.len(),
                route_of(self.routes@, tool@) == route_of(self.routes@.take(k as int), tool@),
            decreases k,
        {
            assert(self.routes@.take(k as int).drop_last() =~= self.routes@.take(k - 1));
            assert(self.routes@.take(k as int).last() == self.routes@[k - 1]);
            if str_equal(&self.routes[k - 1].0, tool) {
                let server = &self.routes[k - 1].1;
                assert(route_of(self.routes@, tool@) == Some(server@));
                let mut j: usize = 0;
                while j < self.servers.len()
                    invariant
                        j <= self.servers@.len(),
                        route_of(self.routes@, tool@) == Some(server@),
                        forall|x: int| 0 <= x < j ==> (#[trigger] self.servers@[x])@ != server@,
                    decreases self.servers.len() - j,
                {
                    if str_equal(&self.servers[j], server.as_str()) {
                        assert(self.servers@[j as int]@ == server@);
                        assert(has_server(self.servers@, server@));
                        return Ok(server.clone());
                    }
                    j = j + 1;
                }
                let mut e = String::from_str("server '");
                e.append(server.as_str());
                e.append("' not connected");
                return Err(McpError::ToolError(e));
            }
            k = k - 1;
        }
        assert(self.routes@.take(0) =~= Seq::<(String, String)>::empty());
        let mut e = String::from_str("unknown tool: ");
        e.append(tool);
        Err(McpError::ToolError(e))
    }
}

/// The text a tool call answers with: the text items of its result, one per line.
pub open spec fn joined_lines(items: Seq<String>) -> Seq<char>
    decreases items.len(),
{
    if items.len() == 0 {
        seq![]
    } else if items.len() == 1 {
        items[0]@
    } else {
        joined_lines(items.drop_last()) + "\n"@ + items.last()@
    }
}

/// Join the text items of a tool result with newlines.
pub fn tool_result_text(items: &[String]) -> (r: String)
    ensures
        r@ == joined_lines(items@),
{
    let mut out = String::new();
    let mut i: usize = 0;
    while i < items.len()
        invariant
            i <= items@.len(),
            out@ == joined_lines(items@.take(i as int)),
        decreases items.len() - i,
    {
        assert(items@.take(i + 1).drop_last() =~= items@.take(i as int));
        if i > 0 {
            out.append("\n");
        }
        out.append(items[i].as_str());
        i = i + 1;
    }
    assert(items@.take(items@.len() as int) =~= items@);
    out
}

} // verus!
