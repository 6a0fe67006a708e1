//! Shell scripts that install MCP servers inside a coast container and hand their
//! client configuration to MCP clients.

use vstd::prelude::*;
use vstd::string::*;
use crate::text::{string_views, chars_of, string_from_chars, extend_chars};
use crate::lifecycle::{parent_or_empty, parent_text};

verus! {

/// `s` with every leading `./` removed (std `str::trim_start_matches("./")`).
pub open spec fn trim_dot_slash(s: Seq<char>) -> Seq<char>
    decreases s.len(),
{
    if s.len() >= 2 && s[0] == '.' && s[1] == '/' { trim_dot_slash(s.skip(2)) } else { s }
}

/// `s` with every leading `./` removed.
pub fn trim_leading_dot_slash(s: &str) -> (r: String)
    ensures
        r@ == trim_dot_slash(s@),
{
    let chars = chars_of(s);
    let n = chars.len();
    let mut i: usize = 0;
    assert(chars@.skip(0) =~= chars@);
    while n - i >= 2 && chars[i] == '.' && chars[i + 1] == '/'
        invariant
            i <= n,
            n == chars@.len(),
            chars@ == s@,
            trim_dot_slash(s@) == trim_dot_slash(chars@.skip(i as int)),
        decreases n - i,
    {
        proof {
            let t = chars@.skip(i as int);
            assert(t[0] == '.' && t[1] == '/');
            assert(t.skip(2) =~= chars@.skip(i + 2));
        }
        i = i + 2;
    }
    let mut out: Vec<char> = Vec::new();
    let mut j: usize = i;
    while j < n
        invariant
            i <= j <= n,
            n == chars@.len(),
            out@ == chars@.subrange(i as int, j as int),
        decreases n - j,
    {
        out.push(chars[j]);
        j = j + 1;
        assert(out@ =~= chars@.subrange(i as int, j as int));
    }
    proof {
        let t = chars@.skip(i as int);
        assert(out@ =~= t);
        if t.len() >= 2 {
            assert(t[0] == chars@[i as int] && t[1] == chars@[i + 1]);
        }
    }
    string_from_chars(out.as_slice())
}

/// The scripts that install one MCP server under `/mcp/{name}`, in order: create
/// the directory, copy the source from the workspace when there is one, then run
/// each install command there. A host-proxied server is not installed.
pub open spec fn mcp_server_scripts_spec(
    name: Seq<char>,
    host_proxied: bool,
    source: Option<Seq<char>>,
    install: Seq<Seq<char>>,
) -> Seq<Seq<char>> {
    if host_proxied {
        Seq::empty()
    } else {
        seq!["mkdir -p /mcp/"@ + name]
            + (match source {
                Some(src) => seq!["cp -a /workspace/"@ + trim_dot_slash(src) + "/.  /mcp/"@ + name + "/"@],
                None => Seq::empty(),
            })
            + install.map_values(|c: Seq<char>| "cd /mcp/"@ + name + " && "@ + c)
    }
}

/// The `sh -c` scripts that install one MCP server inside the coast container.
pub fn mcp_server_scripts(name: &str, host_proxied: bool, source: Option<&str>, install: &[String]) -> (r: Vec<String>)
    ensures
        string_views(r@) == mcp_server_scripts_spec(name@, host_proxied,
            match source { Some(s) => Some(s@), None => None }, string_views(install@)),
{
    let mut out: Vec<String> = Vec::new();
    if host_proxied {
        assert(string_views(out@) =~= Seq::<Seq<char>>::empty());
        return out;
    }
    let mut mk: Vec<char> = Vec::new();
    extend_chars(&mut mk, "mkdir -p /mcp/");
    extend_chars(&mut mk, name);
    out.push(string_from_chars(mk.as_slice()));
    let ghost first = seq!["mkdir -p /mcp/"@ + name@];
    assert(string_views(out@) =~= first);
    match source {
        Some(src) => {
            let trimmed = trim_leading_dot_slash(src);
            let mut cp: Vec<char> = Vec::new();
            extend_chars(&mut cp, "cp -a /workspace/");
            extend_chars(&mut cp, trimmed.as_str());
            extend_chars(&mut cp, "/.  /mcp/");
            extend_chars(&mut cp, name);
            extend_chars(&mut cp, "/");
            out.push(string_from_chars(cp.as_slice()));
            assert(string_views(out@) =~= first
                + seq!["cp -a /workspace/"@ + trim_dot_slash(src@) + "/.  /mcp/"@ + name@ + "/"@]);
        },
        None => {
            assert(string_views(out@) =~= first + Seq::<Seq<char>>::empty());
        },
    }
    let ghost base = string_views(out@);
    let ghost cmds = string_views(install@).map_values(|c: Seq<char>| "cd /mcp/"@ + name@ + " && "@ + c);
    let mut j: usize = 0;
    while j < install.len()
        invariant
            j <= install@.len(),
            cmds == string_views(install@).map_values(|c: Seq<char>| "cd /mcp/"@ + name@ + " && "@ + c),
            string_views(out@) == base + cmds.take(j as int),
        decreases install@.len() - j,
    {
        let mut c: Vec<char> = Vec::new();
        extend_chars(&mut c, "cd /mcp/");
        extend_chars(&mut c, name);
        extend_chars(&mut c, " && ");
        extend_chars(&mut c, install[j].as_str());
        let ghost before = string_views(out@);
        let line = string_from_chars(c.as_slice());
        out.push(line);
        proof {
            assert(string_views(out@) =~= before.push(line@));
            assert(cmds[j as int] == "cd /mcp/"@ + name@ + " && "@ + install@[j as int]@);
            assert(cmds.take(j + 1) =~= cmds.take(j as int).push(cmds[j as int]));
        }
        j = j + 1;
    }
    assert(cmds.take(install@.len() as int) =~= cmds);
    out
}

/// The script that writes an MCP client configuration file (creating its
/// directory first), given the parent directory of the configuration path.
pub open spec fn mcp_config_write_spec(config_path: Seq<char>, json: Seq<char>, parent: Seq<char>) -> Seq<char> {
    "mkdir -p '"@ + parent + "' && cat > '"@ + config_path + "' << 'COAST_MCP_EOF'\n"@ + json + "\nCOAST_MCP_EOF"@
}

/// The `sh -c` script that writes `json` to an MCP client's configuration path,
/// given the path's parent directory.
pub fn mcp_config_write_script_in(config_path: &str, json: &str, parent: &str) -> (r: String)
    ensures
        r@ == mcp_config_write_spec(config_path@, json@, parent@),
{
    let mut out: Vec<char> = Vec::new();
    extend_chars(&mut out, "mkdir -p '");
    extend_chars(&mut out, parent);
    extend_chars(&mut out, "' && cat > '");
    extend_chars(&mut out, config_path);
    extend_chars(&mut out, "' << 'COAST_MCP_EOF'\n");
    extend_chars(&mut out, json);
    extend_chars(&mut out, "\nCOAST_MCP_EOF");
    string_from_chars(out.as_slice())
}

/// The `sh -c` script that writes `json` to an MCP client's configuration path.
pub fn mcp_config_write_script(config_path: &str, json: &str) -> (r: String)
    ensures
        r@ == mcp_config_write_spec(config_path@, json@, parent_text(config_path@)),
{
    let parent = parent_or_empty(config_path);
    mcp_config_write_script_in(config_path, json, parent.as_str())
}

/// The script that pipes the MCP manifest into a client's registration command.
pub open spec fn mcp_config_pipe_spec(run_cmd: Seq<char>, json: Seq<char>) -> Seq<char> {
    "cat << 'COAST_MCP_EOF' | "@ + run_cmd + "\n"@ + json + "\nCOAST_MCP_EOF"@
}

/// The `sh -c` script that pipes `json` into an MCP client's `run` command.
pub fn mcp_config_pipe_script(run_cmd: &str, json: &str) -> (r: String)
    ensures
        r@ == mcp_config_pipe_spec(run_cmd@, json@),
{
    let mut out: Vec<char> = Vec::new();
    extend_chars(&mut out, "cat << 'COAST_MCP_EOF' | ");
    extend_chars(&mut out, run_cmd);
    extend_chars(&mut out, "\n");
    extend_chars(&mut out, json);
    extend_chars(&mut out, "\nCOAST_MCP_EOF");
    string_from_chars(out.as_slice())
}

/// Whether client configurations are written: only when there are both MCP servers
/// and MCP clients.
pub fn writes_client_configs(server_count: usize, client_count: usize) -> (b: bool)
    ensures
        b == (server_count > 0 && client_count > 0),
{
    server_count > 0 && client_count > 0
}

/// How an MCP client learns about the servers.
#[derive(Debug, Clone, Copy, PartialEq, Eq, Structural)]
pub enum ClientConfigStep {
    /// Write a configuration file in the client's format.
    WriteFile,
    /// Pipe the manifest into the client's registration command.
    PipeToRun,
    /// The client has neither a format nor a command: nothing is done.
    Skip,
}

/// A client with a configuration format gets a file; otherwise one with a `run`
/// command gets the manifest piped into it.
pub fn client_config_step(has_format: bool, has_run: bool) -> (s: ClientConfigStep)
    ensures
        s == (if has_format {
            ClientConfigStep::WriteFile
        } else if has_run {
            ClientConfigStep::PipeToRun
        } else {
            ClientConfigStep::Skip
        }),
{
    if has_format {
        ClientConfigStep::WriteFile
    } else if has_run {
        ClientConfigStep::PipeToRun
    } else {
        ClientConfigStep::Skip
    }
}

/// Where a client's configuration file goes: its own path when set, else the
/// format's default path.
pub fn client_config_path(resolved: Option<&str>, default_path: &str) -> (p: String)
    ensures
        p@ == match resolved { Some(r) => r@, None => default_path@ },
{
    match resolved {
        Some(r) => r.to_owned(),
        None => default_path.to_owned(),
    }
}

} // verus!
