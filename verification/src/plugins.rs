//! The built-in tools: reading and writing files, searching, and running
//! commands. Each tool's description — name, description text, parameter
//! schema, required permission — and its argument validation live here;
//! the file, process and directory I/O that actually performs the work
//! stays outside and receives validated parameters.

use vstd::prelude::*;
use vstd::string::StringExecFns;
use vstd::string::StringSliceAdditionalSpecFns;

use crate::patterns;
use crate::plugin::Permission;
use crate::plugin::PluginError;
use crate::plugin::PluginSpec;

verus! {

/// The default cap on search results.
pub fn default_max_results() -> (r: usize)
    ensures
        r == 100,
{
    100
}

/// Whether a path found during a search walk should be skipped, by the
/// same patterns that gate indexing.
pub fn should_skip(path: &str, exclude_patterns: &Vec<String>) -> (r: bool)
    ensures
        r == patterns::spec_should_exclude(
            path.spec_bytes(),
            exclude_patterns.deep_view(),
        ),
{
    patterns::should_exclude(path, exclude_patterns)
}

/// Reads a file's contents.
#[derive(Debug, Clone, Copy, PartialEq, Eq)]
pub struct ReadFilePlugin;

/// Parameters of a file read.
#[derive(Debug, Clone, PartialEq, Eq)]
pub struct ReadFileParams {
    pub path: String,
}

impl ReadFileParams {
    /// Validate decoded arguments: the path is required.
    pub fn from_fields(path: Option<String>) -> (r: Result<ReadFileParams, PluginError>)
        ensures
            match r {
                Ok(p) => path matches Some(v) && p.path@ == v@,
                Err(e) => path is None && e is InvalidInput,
            },
    {
        match path {
            Some(p) => Ok(ReadFileParams { path: p }),
            None => Err(PluginError::InvalidInput(String::from_str("missing field: path"))),
        }
    }
}

impl ReadFilePlugin {
    pub fn new() -> (r: ReadFilePlugin)
        ensures
            r == ReadFilePlugin,
    {
        ReadFilePlugin
    }

    pub fn name(&self) -> (r: &'static str)
        ensures
            r@ == "read_file"@,
    {
        "read_file"
    }

    pub fn description(&self) -> (r: &'static str)
        ensures
            r@ == "Read the contents of a file"@,
    {
        "Read the contents of a file"
    }

    pub fn parameter_schema(&self) -> (r: &'static str)
        ensures
            r@
                == "{\"type\":\"object\",\"required\":[\"path\"],\"properties\":{\"path\":{\"type\":\"string\",\"description\":\"Absolute or relative path to the file to read\"}}}"@,
    {
        "{\"type\":\"object\",\"required\":[\"path\"],\"properties\":{\"path\":{\"type\":\"string\",\"description\":\"Absolute or relative path to the file to read\"}}}"
    }

    pub fn required_permission(&self) -> (r: Permission)
        ensures
            r == (Permission { read: true, write: false, execute: false }),
    {
        Permission::read_only()
    }

    /// This tool as a registry entry.
    pub fn descriptor(&self) -> (r: PluginSpec)
        ensures
            r.name@ == "read_file"@,
            r.required_permission == (Permission { read: true, write: false, execute: false }),
    {
        PluginSpec {
            name: String::from_str(self.name()),
            description: String::from_str(self.description()),
            parameter_schema: String::from_str(self.parameter_schema()),
            required_permission: self.required_permission(),
        }
    }
}

/// Writes (overwrites) a file.
#[derive(Debug, Clone, Copy, PartialEq, Eq)]
pub struct WriteFilePlugin;

/// Parameters of a file write.
#[derive(Debug, Clone, PartialEq, Eq)]
pub struct WriteFileParams {
    pub path: String,
    pub content: String,
}

impl WriteFileParams {
    /// Validate decoded arguments: path and content are both required.
    pub fn from_fields(path: Option<String>, content: Option<String>) -> (r: Result<
        WriteFileParams,
        PluginError,
    >)
        ensures
            match r {
                Ok(p) => {
                    &&& path matches Some(pv) && p.path@ == pv@
                    &&& content matches Some(cv) && p.content@ == cv@
                },
                Err(e) => (path is None || content is None) && e is InvalidInput,
            },
    {
        match (path, content) {
            (Some(p), Some(c)) => Ok(WriteFileParams { path: p, content: c }),
            _ => Err(
                PluginError::InvalidInput(String::from_str("missing field: path or content")),
            ),
        }
    }
}

impl WriteFilePlugin {
    pub fn new() -> (r: WriteFilePlugin)
        ensures
            r == WriteFilePlugin,
    {
        WriteFilePlugin
    }

    pub fn name(&self) -> (r: &'static str)
        ensures
            r@ == "write_file"@,
    {
        "write_file"
    }

    pub fn description(&self) -> (r: &'static str)
        ensures
            r@ == "Write changes or additions to file"@,
    {
        "Write changes or additions to file"
    }

    pub fn parameter_schema(&self) -> (r: &'static str)
        ensures
            r@
                == "{\"type\":\"object\",\"required\":[\"path\",\"content\"],\"properties\":{\"path\":{\"type\":\"string\",\"description\":\"Absolute or relative path to the file to write to\"},\"content\":{\"type\":\"string\",\"description\":\"Content to write to the file\"}}}"@,
    {
        "{\"type\":\"object\",\"required\":[\"path\",\"content\"],\"properties\":{\"path\":{\"type\":\"string\",\"description\":\"Absolute or relative path to the file to write to\"},\"content\":{\"type\":\"string\",\"description\":\"Content to write to the file\"}}}"
    }

    pub fn required_permission(&self) -> (r: Permission)
        ensures
            r == (Permission { read: true, write: true, execute: false }),
    {
        Permission::read_write()
    }

    /// This tool as a registry entry.
    pub fn descriptor(&self) -> (r: PluginSpec)
        ensures
            r.name@ == "write_file"@,
            r.required_permission == (Permission { read: true, write: true, execute: false }),
    {
        PluginSpec {
            name: String::from_str(self.name()),
            description: String::from_str(self.description()),
            parameter_schema: String::from_str(self.parameter_schema()),
            required_permission: self.required_permission(),
        }
    }
}

/// Runs a subprocess.
#[derive(Debug, Clone, Copy, PartialEq, Eq)]
pub struct ExecPlugin {
    /// Whether commands considered risky may run.
    pub allow_dangerous: bool,
}

/// Parameters of a command execution.
#[derive(Debug, Clone, PartialEq, Eq)]
pub struct ExecParams {
    pub command: String,
    pub args: Vec<String>,
    pub cwd: String,
}

impl ExecParams {
    /// Validate decoded arguments: command and working directory are
    /// required; arguments default to none.
    pub fn from_fields(
        command: Option<String>,
        args: Option<Vec<String>>,
        cwd: Option<String>,
    ) -> (r: Result<ExecParams, PluginError>)
        ensures
            match r {
                Ok(p) => {
                    &&& command matches Some(cv) && p.command@ == cv@
                    &&& cwd matches Some(wv) && p.cwd@ == wv@
                    &&& match args {
                        Some(a) => p.args@ == a@,
                        None => p.args@.len() == 0,
                    }
                },
                Err(e) => (command is None || cwd is None) && e is InvalidInput,
            },
    {
        match (command, cwd) {
            (Some(c), Some(w)) => {
                let a = match args {
                    Some(a) => a,
                    None => Vec::new(),
                };
                Ok(ExecParams { command: c, args: a, cwd: w })
            },
            _ => Err(
                PluginError::InvalidInput(String::from_str("missing field: command or cwd")),
            ),
        }
    }
}

impl ExecPlugin {
    /// A new command runner; risky commands stay off.
    pub fn new() -> (r: ExecPlugin)
        ensures
            !r.allow_dangerous,
    {
        ExecPlugin { allow_dangerous: false }
    }

    pub fn name(&self) -> (r: &'static str)
        ensures
            r@ == "exec"@,
    {
        "exec"
    }

    pub fn description(&self) -> (r: &'static str)
        ensures
            r@
                == "Execute a shell command. Can run any command available in the devices shell, such as git, grep, ls, etc."@,
    {
        "Execute a shell command. Can run any command available in the devices shell, such as git, grep, ls, etc."
    }

    pub fn parameter_schema(&self) -> (r: &'static str)
        ensures
            r@
                == "{\"type\":\"object\",\"required\":[\"command\",\"cwd\"],\"properties\":{\"command\":{\"type\":\"string\",\"description\":\"Command to execute (e.g., 'git', 'grep', 'ls')\"},\"args\":{\"type\":\"array\",\"items\":{\"type\":\"string\"},\"description\":\"Command arguments\"},\"cwd\":{\"type\":\"string\",\"description\":\"Working directory\"}}}"@,
    {
        "{\"type\":\"object\",\"required\":[\"command\",\"cwd\"],\"properties\":{\"command\":{\"type\":\"string\",\"description\":\"Command to execute (e.g., 'git', 'grep', 'ls')\"},\"args\":{\"type\":\"array\",\"items\":{\"type\":\"string\"},\"description\":\"Command arguments\"},\"cwd\":{\"type\":\"string\",\"description\":\"Working directory\"}}}"
    }

    pub fn required_permission(&self) -> (r: Permission)
        ensures
            r == (Permission { read: true, write: true, execute: true }),
    {
        Permission::all_capabilities()
    }

    /// This tool as a registry entry.
    pub fn descriptor(&self) -> (r: PluginSpec)
        ensures
            r.name@ == "exec"@,
            r.required_permission == (Permission { read: true, write: true, execute: true }),
    {
        PluginSpec {
            name: String::from_str(self.name()),
            description: String::from_str(self.description()),
            parameter_schema: String::from_str(self.parameter_schema()),
            required_permission: self.required_permission(),
        }
    }
}

/// Searches text in files under a directory.
#[derive(Debug, Clone, Copy, PartialEq, Eq)]
pub struct SearchPlugin;

/// Parameters of a search.
#[derive(Debug, Clone, PartialEq, Eq)]
pub struct SearchParams {
    pub query: String,
    pub path: Option<String>,
    pub regex: bool,
    pub case_sensitive: bool,
    pub max_results: usize,
    pub exclude_patterns: Vec<String>,
}

impl SearchParams {
    /// Validate decoded arguments: the query is required; the switches
    /// default to off, the cap to 100, the excludes to the defaults.
    pub fn from_fields(
        query: Option<String>,
        path: Option<String>,
        regex: Option<bool>,
        case_sensitive: Option<bool>,
        max_results: Option<usize>,
        exclude_patterns: Option<Vec<String>>,
    ) -> (r: Result<SearchParams, PluginError>)
        ensures
            match r {
                Ok(p) => {
                    &&& query matches Some(qv) && p.query@ == qv@
                    &&& p.path == path
                    &&& p.regex == (regex matches Some(true))
                    &&& p.case_sensitive == (case_sensitive matches Some(true))
                    &&& p.max_results == (match max_results {
                        Some(m) => m,
                        None => 100,
                    })
                    &&& match exclude_patterns {
                        Some(e) => p.exclude_patterns@ == e@,
                        None => p.exclude_patterns.deep_view()
                            == patterns::spec_default_exclude_patterns(),
                    }
                },
                Err(e) => query is None && e is InvalidInput,
            },
    {
        match query {
            Some(q) => Ok(
                SearchParams {
                    query: q,
                    path,
                    regex: match regex {
                        Some(b) => b,
                        None => false,
                    },
                    case_sensitive: match case_sensitive {
                        Some(b) => b,
                        None => false,
                    },
                    max_results: match max_results {
                        Some(m) => m,
                        None => default_max_results(),
                    },
                    exclude_patterns: match exclude_patterns {
                        Some(e) => e,
                        None => patterns::default_exclude_patterns(),
                    },
                },
            ),
            None => Err(PluginError::InvalidInput(String::from_str("missing field: query"))),
        }
    }
}

impl SearchPlugin {
    pub fn new() -> (r: SearchPlugin)
        ensures
            r == SearchPlugin,
    {
        SearchPlugin
    }

    pub fn name(&self) -> (r: &'static str)
        ensures
            r@ == "search"@,
    {
        "search"
    }

    pub fn description(&self) -> (r: &'static str)
        ensures
            r@ == "Search for text patterns in files and/or directories"@,
    {
        "Search for text patterns in files and/or directories"
    }

    pub fn parameter_schema(&self) -> (r: &'static str)
        ensures
            r@
                == "{\"type\":\"object\",\"required\":[\"query\"],\"properties\":{\"query\":{\"type\":\"string\",\"description\":\"Text or regex pattern to search for\"},\"path\":{\"type\":\"string\",\"description\":\"Directory to search in (defaults to current directory)\"},\"regex\":{\"type\":\"boolean\",\"description\":\"Treat query as regex pattern\",\"default\":false},\"case_sensitive\":{\"type\":\"boolean\",\"description\":\"Case sensitive search\",\"default\":false},\"max_results\":{\"type\":\"number\",\"description\":\"Maximum number of results to return\",\"default\":100}}}"@,
    {
        "{\"type\":\"object\",\"required\":[\"query\"],\"properties\":{\"query\":{\"type\":\"string\",\"description\":\"Text or regex pattern to search for\"},\"path\":{\"type\":\"string\",\"description\":\"Directory to search in (defaults to current directory)\"},\"regex\":{\"type\":\"boolean\",\"description\":\"Treat query as regex pattern\",\"default\":false},\"case_sensitive\":{\"type\":\"boolean\",\"description\":\"Case sensitive search\",\"default\":false},\"max_results\":{\"type\":\"number\",\"description\":\"Maximum number of results to return\",\"default\":100}}}"
    }

    pub fn required_permission(&self) -> (r: Permission)
        ensures
            r == (Permission { read: true, write: false, execute: false }),
    {
        Permission::read_only()
    }

    /// This tool as a registry entry.
    pub fn descriptor(&self) -> (r: PluginSpec)
        ensures
            r.name@ == "search"@,
            r.required_permission == (Permission { read: true, write: false, execute: false }),
    {
        PluginSpec {
            name: String::from_str(self.name()),
            description: String::from_str(self.description()),
            parameter_schema: String::from_str(self.parameter_schema()),
            required_permission: self.required_permission(),
        }
    }
}

} // verus!
