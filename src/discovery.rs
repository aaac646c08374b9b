//! What is decided about a service from its dev command and its config
//! files: the framework it runs, the port it listens on, and whether a
//! directory or a script is to be skipped.
use vstd::prelude::*;
use vstd::string::*;
use crate::text::{contains_text, has_substring, parse_u16, parsed_u16};

verus! {

/// The dev server a service runs.
#[derive(Clone, Copy, Debug, PartialEq, Eq, Structural)]
pub enum FrameworkType {
    NextJs,
    Vite,
    Wrangler,
    Unknown,
}

/// A runnable service of the workspace.
#[derive(Debug)]
pub struct Service {
    pub name: String,
    pub path: String,
    pub dev_command: String,
    pub framework: FrameworkType,
    pub port: Option<u16>,
}

/// The config files of a service directory that port detection reads:
/// `Some` with the text of each file that exists (empty when it cannot be
/// read), `None` for each that does not.
#[derive(Debug)]
pub struct ConfigFiles {
    pub vite_config_ts: Option<String>,
    pub vite_config_js: Option<String>,
    pub vite_config_mts: Option<String>,
    pub vite_config_mjs: Option<String>,
    pub wrangler_jsonc: Option<String>,
    pub wrangler_toml: Option<String>,
}

/// What the first match of `pattern` in `text` captures in its first group,
/// as the regex crate finds it.
pub uninterp spec fn regex_capture_of(pattern: Seq<char>, text: Seq<char>) -> Option<Seq<char>>;

/// Relies on `regex::Regex::new` and `Regex::captures`: the text of group 1
/// of the leftmost match, if the pattern compiles, matches, and the group
/// took part in the match.
#[verifier::external_body]
fn first_capture(pattern: &str, text: &str) -> (r: Option<String>)
    ensures
        r is None ==> regex_capture_of(pattern@, text@) is None,
        r matches Some(c) ==> regex_capture_of(pattern@, text@) == Some(c@),
{
    let re = regex::Regex::new(pattern).ok()?;
    let caps = re.captures(text)?;
    caps.get(1).map(|m| m.as_str().to_string())
}

/// The integer at `table.key` of a TOML document, as the toml crate reads it.
pub uninterp spec fn toml_integer_of(content: Seq<char>, table: Seq<char>, key: Seq<char>) -> Option<i64>;

/// Relies on `toml::Value`'s `FromStr`, `Value::get` and `Value::as_integer`:
/// the integer under `key` of `table`, when the text parses as a document.
#[verifier::external_body]
fn toml_integer(content: &str, table: &str, key: &str) -> (r: Option<i64>)
    ensures
        r == toml_integer_of(content@, table@, key@),
{
    let value = content.parse::<toml::Value>().ok()?;
    value.get(table)?.get(key)?.as_integer()
}

/// The last component of a path, as `std::path::Path::file_name` gives it.
pub uninterp spec fn file_name_of(path: Seq<char>) -> Option<Seq<char>>;

/// Relies on `std::path::Path::file_name`: the final component of the path,
/// or `None` when it ends in `..` or has no component.
#[verifier::external_body]
fn file_name(path: &str) -> (r: Option<String>)
    ensures
        r is None ==> file_name_of(path@) is None,
        r matches Some(n) ==> file_name_of(path@) == Some(n@),
{
    std::path::Path::new(path).file_name().and_then(|n| n.to_str()).map(|n| n.to_string())
}

/// A decimal port captured by `pattern` in `text`.
pub open spec fn captured_port(pattern: Seq<char>, text: Seq<char>) -> Option<u16> {
    match regex_capture_of(pattern, text) {
        Some(d) => parsed_u16(d),
        None => None,
    }
}

fn capture_port(pattern: &str, text: &str) -> (r: Option<u16>)
    ensures
        r == captured_port(pattern@, text@),
{
    match first_capture(pattern, text) {
        Some(d) => parse_u16(d.as_str()),
        None => None,
    }
}

/// A `-p N`, `--port N`, `-p=N` or `--port=N` option in a command.
pub open spec fn port_option(command: Seq<char>) -> Option<u16> {
    captured_port("(?:-p|--port)[=\\s]+(\\d+)"@, command)
}

/// A `port: N` setting in a Vite config.
pub open spec fn vite_setting(content: Seq<char>) -> Option<u16> {
    captured_port("port\\s*:\\s*(\\d+)"@, content)
}

/// A `"port": N` setting in a Wrangler JSON config.
pub open spec fn wrangler_json_setting(content: Seq<char>) -> Option<u16> {
    captured_port("\"port\"\\s*:\\s*(\\d+)"@, content)
}

/// The port that a config file gives, when it exists and sets one.
pub open spec fn file_setting(file: Option<String>, setting: spec_fn(Seq<char>) -> Option<u16>) -> Option<u16> {
    match file {
        Some(c) => setting(c@),
        None => None,
    }
}

/// The Vite port: from the first config file (`.ts`, `.js`, `.mts`, `.mjs`)
/// that sets one, else Vite's default 5173.
pub open spec fn vite_port(files: &ConfigFiles) -> u16 {
    let s = |c: Seq<char>| vite_setting(c);
    if file_setting(files.vite_config_ts, s) is Some {
        file_setting(files.vite_config_ts, s)->Some_0
    } else if file_setting(files.vite_config_js, s) is Some {
        file_setting(files.vite_config_js, s)->Some_0
    } else if file_setting(files.vite_config_mts, s) is Some {
        file_setting(files.vite_config_mts, s)->Some_0
    } else if file_setting(files.vite_config_mjs, s) is Some {
        file_setting(files.vite_config_mjs, s)->Some_0
    } else {
        5173
    }
}

/// The Wrangler port: from `wrangler.jsonc`, else `dev.port` of
/// `wrangler.toml` (its low 16 bits), else Wrangler's default 8787.
pub open spec fn wrangler_port(files: &ConfigFiles) -> u16 {
    let s = |c: Seq<char>| wrangler_json_setting(c);
    if file_setting(files.wrangler_jsonc, s) is Some {
        file_setting(files.wrangler_jsonc, s)->Some_0
    } else if files.wrangler_toml is Some && toml_integer_of(files.wrangler_toml->Some_0@, "dev"@, "port"@) is Some {
        toml_integer_of(files.wrangler_toml->Some_0@, "dev"@, "port"@)->Some_0 as u16
    } else {
        8787
    }
}

/// The port a service listens on, by framework.
pub open spec fn port_for(framework: FrameworkType, command: Seq<char>, files: &ConfigFiles) -> Option<u16> {
    match framework {
        FrameworkType::NextJs => if port_option(command) is Some {
            port_option(command)
        } else {
            Some(3000)
        },
        FrameworkType::Vite => Some(vite_port(files)),
        FrameworkType::Wrangler => Some(wrangler_port(files)),
        FrameworkType::Unknown => port_option(command),
    }
}

fn vite_file_port(file: &Option<String>) -> (r: Option<u16>)
    ensures
        r == file_setting(*file, |c: Seq<char>| vite_setting(c)),
{
    match file {
        Some(c) => capture_port("port\\s*:\\s*(\\d+)", c.as_str()),
        None => None,
    }
}

/// The port a service listens on: from its command for Next.js (default
/// 3000) and unknown frameworks, from its config files for Vite and Wrangler.
pub fn detect_port(framework: &FrameworkType, dev_command: &str, files: &ConfigFiles) -> (r: Option<u16>)
    ensures
        r == port_for(*framework, dev_command@, files),
{
    match framework {
        FrameworkType::NextJs => {
            let p = capture_port("(?:-p|--port)[=\\s]+(\\d+)", dev_command);
            if p.is_some() {
                p
            } else {
                Some(3000)
            }
        },
        FrameworkType::Vite => {
            let a = vite_file_port(&files.vite_config_ts);
            if let Some(p) = a {
                return Some(p);
            }
            let b = vite_file_port(&files.vite_config_js);
            if let Some(p) = b {
                return Some(p);
            }
            let c = vite_file_port(&files.vite_config_mts);
            if let Some(p) = c {
                return Some(p);
            }
            let d = vite_file_port(&files.vite_config_mjs);
            if let Some(p) = d {
                return Some(p);
            }
            Some(5173)
        },
        FrameworkType::Wrangler => {
            if let Some(c) = &files.wrangler_jsonc {
                let p = capture_port("\"port\"\\s*:\\s*(\\d+)", c.as_str());
                if p.is_some() {
                    return p;
                }
            }
            if let Some(c) = &files.wrangler_toml {
                if let Some(v) = toml_integer(c.as_str(), "dev", "port") {
                    return Some(v as u16);
                }
            }
            Some(8787)
        },
        FrameworkType::Unknown => capture_port("(?:-p|--port)[=\\s]+(\\d+)", dev_command),
    }
}

/// A dev script that only runs other packages' scripts (turbo, pnpm, npm and
/// yarn workspaces, lerna) rather than a server of its own.
pub open spec fn orchestrates(command: Seq<char>) -> bool {
    has_substring(command, "turbo dev"@) || has_substring(command, "turbo run dev"@)
        || has_substring(command, "pnpm -r"@) || has_substring(command, "pnpm --filter"@)
        || has_substring(command, "pnpm run -r"@) || has_substring(command, "npm run --workspaces"@)
        || has_substring(command, "yarn workspaces"@) || has_substring(command, "lerna run"@)
}

/// Whether a dev script is an orchestrator, to be skipped.
pub fn is_orchestrator_script(dev_command: &str) -> (r: bool)
    ensures
        r == orchestrates(dev_command@),
{
    contains_text(dev_command, "turbo dev") || contains_text(dev_command, "turbo run dev")
        || contains_text(dev_command, "pnpm -r") || contains_text(dev_command, "pnpm --filter")
        || contains_text(dev_command, "pnpm run -r") || contains_text(
        dev_command,
        "npm run --workspaces",
    ) || contains_text(dev_command, "yarn workspaces") || contains_text(dev_command, "lerna run")
}

/// Directory names that discovery does not enter.
pub open spec fn ignored_name(name: Seq<char>) -> bool {
    name == "node_modules"@ || name == ".git"@ || name == "dist"@ || name == "build"@ || name
        == ".next"@ || name == ".turbo"@
}

fn same_text(a: &String, b: &str) -> (r: bool)
    ensures
        r == (a@ == b@),
{
    let c = String::from_str(b);
    *a == c
}

/// Whether discovery skips the directory at `path`, by its last component.
pub fn is_ignored(path: &str) -> (r: bool)
    ensures
        r == (file_name_of(path@) matches Some(n) && ignored_name(n)),
{
    match file_name(path) {
        Some(n) => same_text(&n, "node_modules") || same_text(&n, ".git") || same_text(&n, "dist")
            || same_text(&n, "build") || same_text(&n, ".next") || same_text(&n, ".turbo"),
        None => false,
    }
}

/// The framework of a service, from its dev command and which config files
/// exist: Wrangler first, then Next.js, then Vite.
pub open spec fn framework_for(command: Seq<char>, files: &ConfigFiles) -> FrameworkType {
    if has_substring(command, "wrangler"@) || files.wrangler_jsonc is Some
        || files.wrangler_toml is Some {
        FrameworkType::Wrangler
    } else if has_substring(command, "next"@) {
        FrameworkType::NextJs
    } else if has_substring(command, "vite"@) || files.vite_config_ts is Some
        || files.vite_config_js is Some {
        FrameworkType::Vite
    } else {
        FrameworkType::Unknown
    }
}

/// Detects the framework of a service.
pub fn detect_framework(dev_command: &str, files: &ConfigFiles) -> (r: FrameworkType)
    ensures
        r == framework_for(dev_command@, files),
{
    if contains_text(dev_command, "wrangler") {
        return FrameworkType::Wrangler;
    }
    if files.wrangler_jsonc.is_some() || files.wrangler_toml.is_some() {
        return FrameworkType::Wrangler;
    }
    if contains_text(dev_command, "next") {
        return FrameworkType::NextJs;
    }
    if contains_text(dev_command, "vite") || files.vite_config_ts.is_some()
        || files.vite_config_js.is_some() {
        return FrameworkType::Vite;
    }
    FrameworkType::Unknown
}

/// The name of a project: the last component of its root, else `unknown`.
pub open spec fn project_name_of(root: Seq<char>) -> Seq<char> {
    match file_name_of(root) {
        Some(n) => n,
        None => "unknown"@,
    }
}

/// The name of the project rooted at `git_root`.
pub fn get_project_name(git_root: &str) -> (r: String)
    ensures
        r@ == project_name_of(git_root@),
{
    match file_name(git_root) {
        Some(n) => n,
        None => String::from_str("unknown"),
    }
}

/// A service's name from its directory relative to the workspace root:
/// every `/` becomes `:` (`apps/web` is `apps:web`).
pub open spec fn service_name_of(relative: Seq<char>) -> Seq<char> {
    relative.map_values(|c: char| if c == '/' { ':' } else { c })
}

/// Names the service in directory `relative` of the workspace.
pub fn service_name(relative: &str) -> (r: String)
    ensures
        r@ == service_name_of(relative@),
{
    let n = relative.unicode_len();
    let mut r = String::new();
    let mut i: usize = 0;
    while i < n
        invariant
            n == relative@.len(),
            i <= n,
            r@ == service_name_of(relative@).subrange(0, i as int),
        decreases n - i,
    {
        let c = relative.get_char(i);
        let ghost before = r@;
        if c == '/' {
            r.append(":");
            proof {
                reveal_strlit(":");
                assert(":"@.len() == 1 && ":"@[0] == ':');
                assert(r@[i as int] == ':');
            }
        } else {
            let piece = relative.substring_char(i, i + 1);
            r.append(piece);
            proof {
                assert(piece@.len() == 1 && piece@[0] == c);
                assert(r@[i as int] == c);
            }
        }
        proof {
            assert(r@.len() == i + 1);
            assert forall|j: int| 0 <= j < i implies r@[j] == before[j] by {}
            assert(r@ =~= service_name_of(relative@).subrange(0, i + 1));
        }
        i = i + 1;
    }
    proof {
        assert(r@ =~= service_name_of(relative@));
    }
    r
}

/// The service that a package with dev script `dev_script` in directory
/// `service_dir` makes: none without a dev script or with an orchestrator
/// script; else one named after its directory relative to the workspace
/// root (`relative`), or after its last component when that is unknown.
pub fn service_for_script(
    service_dir: &str,
    relative: Option<&str>,
    dev_script: Option<String>,
    files: &ConfigFiles,
) -> (r: Option<Service>)
    ensures
        r is None <==> (dev_script is None || orchestrates(dev_script->Some_0@)),
        r matches Some(s) ==> {
            &&& s.dev_command@ == dev_script->Some_0@
            &&& s.path@ == service_dir@
            &&& s.name@ == match relative {
                Some(rel) => service_name_of(rel@),
                None => project_name_of(service_dir@),
            }
            &&& s.framework == framework_for(s.dev_command@, files)
            &&& s.port == port_for(s.framework, s.dev_command@, files)
        },
{
    let dev_command = match dev_script {
        Some(cmd) => cmd,
        None => return None,
    };
    if is_orchestrator_script(dev_command.as_str()) {
        return None;
    }
    let framework = detect_framework(dev_command.as_str(), files);
    let port = detect_port(&framework, dev_command.as_str(), files);
    let name = match relative {
        Some(rel) => service_name(rel),
        None => get_project_name(service_dir),
    };
    Some(Service { name, path: String::from_str(service_dir), dev_command, framework, port })
}

} // verus!
