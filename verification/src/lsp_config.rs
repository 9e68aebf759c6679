//! Language-server configuration: which server handles which file
//! extension, and how the command that starts a server is put together.

use vstd::prelude::*;

use crate::chars::chars_of;
use crate::textutil::{
    all_ascii, ascii_lower, chars_eq_ignore_ascii_case, eq_ignore_ascii_case, is_blank, lowercase, str_eq,
    to_lowercase, trimmed, whitespace,
};
use crate::paths::{last_part, slash_path};
use crate::types::Template;

verus! {

/// A language a server handles: its protocol identifier and the key of the
/// server configuration.
#[derive(Clone, Copy, Debug)]
pub struct LspLanguage {
    pub language_id: &'static str,
    pub server_key: &'static str,
}

/// How to locate and run a language server.
#[derive(Clone, Copy, Debug)]
pub struct LspServerConfig {
    /// Unique identifier of the configuration.
    pub key: &'static str,
    /// Environment variables naming a custom server program, checked in order.
    pub env_vars: &'static [&'static str],
    /// The default program and its arguments.
    pub default_command: &'static [&'static str],
}

/// The program and arguments that start a server.
#[derive(Clone, Debug)]
pub struct LspCommand {
    pub program: String,
    pub args: Vec<String>,
}

/// A language as a pair of character sequences.
pub open spec fn language_view(l: LspLanguage) -> (Seq<char>, Seq<char>) {
    (l.language_id@, l.server_key@)
}

/// An optional language as an optional pair of character sequences.
pub open spec fn opt_language_view(l: Option<LspLanguage>) -> Option<(Seq<char>, Seq<char>)> {
    match l {
        Some(x) => Some(language_view(x)),
        None => None,
    }
}

/// The language for a (lower-cased) file extension, compared up to ASCII case.
pub open spec fn extension_language(e: Seq<char>) -> Option<(Seq<char>, Seq<char>)> {
    if eq_ignore_ascii_case(e, "rs"@) {
        Some(("rust"@, "rust-analyzer"@))
    } else if eq_ignore_ascii_case(e, "py"@) {
        Some(("python"@, "pyright"@))
    } else if eq_ignore_ascii_case(e, "js"@) || eq_ignore_ascii_case(e, "jsx"@) {
        Some(("javascript"@, "typescript-language-server"@))
    } else if eq_ignore_ascii_case(e, "ts"@) || eq_ignore_ascii_case(e, "tsx"@) {
        Some(("typescript"@, "typescript-language-server"@))
    } else if eq_ignore_ascii_case(e, "lua"@) {
        Some(("lua"@, "lua-language-server"@))
    } else if eq_ignore_ascii_case(e, "go"@) {
        Some(("go"@, "gopls"@))
    } else {
        None
    }
}

fn ext_is(lower: &Vec<char>, ext: &str) -> (res: bool)
    ensures
        res == eq_ignore_ascii_case(lower@, ext@),
{
    let e = chars_of(ext);
    chars_eq_ignore_ascii_case(lower, &e)
}

/// The language configured for a file extension, if any.  The extension is
/// lower-cased, then compared with the known ones up to ASCII case.
pub fn lsp_language_for_extension(extension: &str) -> (res: Option<LspLanguage>)
    ensures
        opt_language_view(res) == extension_language(lowercase(extension@)),
        all_ascii(extension@) ==> opt_language_view(res) == extension_language(
            extension@.map_values(|c: char| ascii_lower(c)),
        ),
{
    let lower = to_lowercase(extension);
    let l = chars_of(lower.as_str());
    proof {
        reveal_strlit("rs");
        reveal_strlit("py");
        reveal_strlit("js");
        reveal_strlit("jsx");
        reveal_strlit("ts");
        reveal_strlit("tsx");
        reveal_strlit("lua");
        reveal_strlit("go");
    }
    if ext_is(&l, "rs") {
        Some(LspLanguage { language_id: "rust", server_key: "rust-analyzer" })
    } else if ext_is(&l, "py") {
        Some(LspLanguage { language_id: "python", server_key: "pyright" })
    } else if ext_is(&l, "js") || ext_is(&l, "jsx") {
        Some(LspLanguage { language_id: "javascript", server_key: "typescript-language-server" })
    } else if ext_is(&l, "ts") || ext_is(&l, "tsx") {
        Some(LspLanguage { language_id: "typescript", server_key: "typescript-language-server" })
    } else if ext_is(&l, "lua") {
        Some(LspLanguage { language_id: "lua", server_key: "lua-language-server" })
    } else if ext_is(&l, "go") {
        Some(LspLanguage { language_id: "go", server_key: "gopls" })
    } else {
        None
    }
}

/// A path that is one plain file name on every platform: it holds no path
/// separator (`/`, `\\`), no drive colon, and is not the parent directory.
pub open spec fn plain_name(p: Seq<char>) -> bool {
    !p.contains('/') && !p.contains('\\') && !p.contains(':') && p != ".."@
}

/// The index of the last dot in `p`, if it holds one.
pub open spec fn last_dot(p: Seq<char>) -> Option<int>
    decreases p.len(),
{
    if p.len() == 0 {
        None
    } else if p.last() == '.' {
        Some(p.len() - 1)
    } else {
        last_dot(p.drop_last())
    }
}

/// The extension of a file name: what follows its last dot, and none when
/// it holds no dot or its only dot begins it (`.bashrc`).
pub open spec fn name_extension(name: Seq<char>) -> Option<Seq<char>> {
    match last_dot(name) {
        Some(k) => if k == 0 {
            None
        } else {
            Some(name.skip(k + 1))
        },
        None => None,
    }
}

/// `Path::extension` of `path`, as a string.  The result holds no dot, and
/// there is none when the path holds no dot at all.  For a path that is one
/// plain file name, or a path of named parts separated by `/` (no `\`, no
/// `:`), it is the part after the last dot of the last part, as the
/// documentation of `Path::file_name` and `Path::extension` gives it.  How
/// the file name of any other path is found depends on the platform's path
/// separators, so nothing more is stated there.
#[verifier::external_body]
fn path_extension(path: &str) -> (res: Option<String>)
    ensures
        res matches Some(e) ==> !e@.contains('.'),
        !path@.contains('.') ==> res is None,
        plain_name(path@) ==> match res {
            Some(e) => name_extension(path@) == Some(e@),
            None => name_extension(path@) is None,
        },
        slash_path(path@) ==> match res {
            Some(e) => name_extension(last_part(path@)) == Some(e@),
            None => name_extension(last_part(path@)) is None,
        },
{
    std::path::Path::new(path).extension().and_then(|e| e.to_str()).map(String::from)
}

/// The language configured for the extension of `path`, if any.  For a path
/// that is one plain file name, or whose parts are separated by `/`, that
/// is the language of the part after the last dot of its file name.
pub fn lsp_language_for_path(path: &str) -> (res: Option<LspLanguage>)
    ensures
        res matches Some(l) ==> exists|e: Seq<char>|
            !e.contains('.') && extension_language(lowercase(e)) == Some(language_view(l)),
        !path@.contains('.') ==> res is None,
        plain_name(path@) ==> opt_language_view(res) == match name_extension(path@) {
            Some(e) => extension_language(lowercase(e)),
            None => None,
        },
        plain_name(path@) && (name_extension(path@) matches Some(e) && all_ascii(e)) ==> opt_language_view(res)
            == extension_language(name_extension(path@)->0.map_values(|c: char| ascii_lower(c))),
        slash_path(path@) ==> opt_language_view(res) == match name_extension(last_part(path@)) {
            Some(e) => extension_language(lowercase(e)),
            None => None,
        },
        slash_path(path@) && (name_extension(last_part(path@)) matches Some(e) && all_ascii(e)) ==> opt_language_view(
            res,
        ) == extension_language(name_extension(last_part(path@))->0.map_values(|c: char| ascii_lower(c))),
{
    match path_extension(path) {
        Some(e) => lsp_language_for_extension(e.as_str()),
        None => None,
    }
}

/// The language of a template: every built-in template is Lua.
pub fn lsp_language_for_template(template: Template) -> (res: Option<LspLanguage>)
    ensures
        opt_language_view(res) == Some(("lua"@, "lua-language-server"@)),
{
    let ext: &str = match template {
        Template::Empty => "lua",
        Template::HelloWorld => "lua",
        Template::Fibonacci => "lua",
        Template::Factorial => "lua",
    };
    proof {
        reveal_strlit("lua");
        assert(all_ascii(ext@));
    }
    let res = lsp_language_for_extension(ext);
    proof {
        let l = "lua"@;
        reveal_strlit("rs");
        reveal_strlit("py");
        reveal_strlit("js");
        reveal_strlit("jsx");
        reveal_strlit("ts");
        reveal_strlit("tsx");
        assert(ext@.map_values(|c: char| ascii_lower(c)) =~= l);
        assert(ascii_lower(l[0]) != ascii_lower("jsx"@[0]));
        assert(ascii_lower(l[0]) != ascii_lower("tsx"@[0]));
        assert(eq_ignore_ascii_case(l, l));
    }
    res
}

/// A server configuration as its key, environment variables and default
/// command, each a character sequence.
pub open spec fn config_view(c: LspServerConfig) -> (Seq<char>, Seq<Seq<char>>, Seq<Seq<char>>) {
    (
        c.key@,
        c.env_vars@.map_values(|s: &str| s@),
        c.default_command@.map_values(|s: &str| s@),
    )
}

/// The configuration of the server named `key`.
pub open spec fn server_config(key: Seq<char>) -> Option<(Seq<char>, Seq<Seq<char>>, Seq<Seq<char>>)> {
    if key == "rust-analyzer"@ {
        Some(("rust-analyzer"@, seq!["RUST_ANALYZER"@, "RUST_ANALYZER_PATH"@], seq!["rust-analyzer"@]))
    } else if key == "pyright"@ {
        Some(("pyright"@, seq!["PYRIGHT_LANGSERVER"@, "PYRIGHT_LANGSERVER_PATH"@], seq!["pyright-langserver"@, "--stdio"@]))
    } else if key == "typescript-language-server"@ {
        Some(("typescript-language-server"@, seq!["TYPESCRIPT_LANGUAGE_SERVER"@, "TYPESCRIPT_LANGUAGE_SERVER_PATH"@], seq!["typescript-language-server"@, "--stdio"@]))
    } else if key == "lua-language-server"@ {
        Some(("lua-language-server"@, seq!["LUA_LANGUAGE_SERVER"@, "LUA_LANGUAGE_SERVER_PATH"@], seq!["lua-language-server"@]))
    } else if key == "gopls"@ {
        Some(("gopls"@, seq!["GOPLS"@, "GOPLS_PATH"@], seq!["gopls"@]))
    } else {
        None
    }
}

/// The configuration of the server named `key`, if there is one.
pub fn lsp_server_config(key: &str) -> (res: Option<LspServerConfig>)
    ensures
        match res {
            Some(c) => server_config(key@) == Some(config_view(c)),
            None => server_config(key@) is None,
        },
{
    if str_eq(key, "rust-analyzer") {
        let c = LspServerConfig {
            key: "rust-analyzer",
            env_vars: &["RUST_ANALYZER", "RUST_ANALYZER_PATH"],
            default_command: &["rust-analyzer"],
        };
        proof {
            assert(config_view(c).1 =~= seq!["RUST_ANALYZER"@, "RUST_ANALYZER_PATH"@]);
            assert(config_view(c).2 =~= seq!["rust-analyzer"@]);
        }
        Some(c)
    } else if str_eq(key, "pyright") {
        let c = LspServerConfig {
            key: "pyright",
            env_vars: &["PYRIGHT_LANGSERVER", "PYRIGHT_LANGSERVER_PATH"],
            default_command: &["pyright-langserver", "--stdio"],
        };
        proof {
            assert(config_view(c).1 =~= seq!["PYRIGHT_LANGSERVER"@, "PYRIGHT_LANGSERVER_PATH"@]);
            assert(config_view(c).2 =~= seq!["pyright-langserver"@, "--stdio"@]);
        }
        Some(c)
    } else if str_eq(key, "typescript-language-server") {
        let c = LspServerConfig {
            key: "typescript-language-server",
            env_vars: &["TYPESCRIPT_LANGUAGE_SERVER", "TYPESCRIPT_LANGUAGE_SERVER_PATH"],
            default_command: &["typescript-language-server", "--stdio"],
        };
        proof {
            assert(config_view(c).1 =~= seq!["TYPESCRIPT_LANGUAGE_SERVER"@, "TYPESCRIPT_LANGUAGE_SERVER_PATH"@]);
            assert(config_view(c).2 =~= seq!["typescript-language-server"@, "--stdio"@]);
        }
        Some(c)
    } else if str_eq(key, "lua-language-server") {
        let c = LspServerConfig {
            key: "lua-language-server",
            env_vars: &["LUA_LANGUAGE_SERVER", "LUA_LANGUAGE_SERVER_PATH"],
            default_command: &["lua-language-server"],
        };
        proof {
            assert(config_view(c).1 =~= seq!["LUA_LANGUAGE_SERVER"@, "LUA_LANGUAGE_SERVER_PATH"@]);
            assert(config_view(c).2 =~= seq!["lua-language-server"@]);
        }
        Some(c)
    } else if str_eq(key, "gopls") {
        let c = LspServerConfig {
            key: "gopls",
            env_vars: &["GOPLS", "GOPLS_PATH"],
            default_command: &["gopls"],
        };
        proof {
            assert(config_view(c).1 =~= seq!["GOPLS"@, "GOPLS_PATH"@]);
            assert(config_view(c).2 =~= seq!["gopls"@]);
        }
        Some(c)
    } else {
        None
    }
}

/// Where the program of a server comes from.
#[derive(Clone, Copy, PartialEq, Eq, Debug)]
pub enum ProgramLookup {
    /// rust-analyzer: its environment variables, then the program on the
    /// path, then the one rustup knows of.
    RustAnalyzer,
    /// gopls: its environment variables, then the program on the path,
    /// then `GOBIN` and the `bin` directories of `GOPATH`.
    Gopls,
    /// The configuration's environment variables, then its default program.
    Environment,
}

/// How the program of the server configured by `config` is found.
pub fn program_lookup(config: &LspServerConfig) -> (res: ProgramLookup)
    ensures
        res == if config.key@ == "rust-analyzer"@ {
            ProgramLookup::RustAnalyzer
        } else if config.key@ == "gopls"@ {
            ProgramLookup::Gopls
        } else {
            ProgramLookup::Environment
        },
{
    if str_eq(config.key, "rust-analyzer") {
        ProgramLookup::RustAnalyzer
    } else if str_eq(config.key, "gopls") {
        ProgramLookup::Gopls
    } else {
        ProgramLookup::Environment
    }
}

/// The text holds something other than whitespace.
pub open spec fn not_blank(s: Seq<char>) -> bool {
    exists|j: int| 0 <= j < s.len() && !whitespace(#[trigger] s[j])
}

/// The first value that is set and not blank.
pub open spec fn first_configured(values: Seq<Option<Seq<char>>>) -> Option<Seq<char>>
    decreases values.len(),
{
    if values.len() == 0 {
        None
    } else {
        match values[0] {
            Some(v) => if not_blank(v) {
                Some(v)
            } else {
                first_configured(values.drop_first())
            },
            None => first_configured(values.drop_first()),
        }
    }
}

/// The values of some environment variables, as character sequences.
pub open spec fn env_view(values: Seq<Option<String>>) -> Seq<Option<Seq<char>>> {
    values.map_values(|v: Option<String>| match v {
        Some(s) => Some(s@),
        None => None,
    })
}

proof fn lemma_first_configured_skip(values: Seq<Option<Seq<char>>>, i: int)
    requires
        0 <= i <= values.len(),
        forall|j: int| 0 <= j < i ==> match #[trigger] values[j] {
            Some(v) => !not_blank(v),
            None => true,
        },
    ensures
        first_configured(values) == first_configured(values.skip(i)),
    decreases i,
{
    if i > 0 {
        let t = values.drop_first();
        assert forall|j: int| 0 <= j < i - 1 implies match #[trigger] t[j] {
            Some(v) => !not_blank(v),
            None => true,
        } by {
            assert(t[j] == values[j + 1]);
        }
        lemma_first_configured_skip(t, i - 1);
        assert(t.skip(i - 1) =~= values.skip(i));
        let first = values[0];
        match first {
            Some(v) => {
                assert(!not_blank(v));
            },
            None => {},
        }
        assert(first_configured(values) == first_configured(t));
    } else {
        assert(values.skip(0) =~= values);
    }
}

/// The first of the environment values (read in the order of the
/// configuration's variables) that is set and not blank.
pub fn program_from_envs(values: &Vec<Option<String>>) -> (res: Option<String>)
    ensures
        match res {
            Some(s) => first_configured(env_view(values@)) == Some(s@),
            None => first_configured(env_view(values@)) is None,
        },
{
    let ghost vs = env_view(values@);
    let n = values.len();
    let mut i: usize = 0;
    while i < n
        invariant
            n == values@.len(),
            vs == env_view(values@),
            i <= n,
            forall|j: int| 0 <= j < i ==> match #[trigger] vs[j] {
                Some(v) => !not_blank(v),
                None => true,
            },
        decreases n - i,
    {
        match &values[i] {
            Some(v) => {
                if !is_blank(v.as_str()) {
                    proof {
                        lemma_first_configured_skip(vs, i as int);
                        assert(vs[i as int] == Some(v@));
                        assert(vs.skip(i as int)[0] == vs[i as int]);
                        assert(not_blank(v@));
                    }
                    return Some(v.clone());
                }
            },
            None => {},
        }
        proof {
            assert(vs[i as int] == match values@[i as int] {
                Some(s) => Some(s@),
                None => None,
            });
        }
        i = i + 1;
    }
    proof {
        lemma_first_configured_skip(vs, n as int);
        assert(vs.skip(n as int) =~= Seq::<Option<Seq<char>>>::empty());
    }
    None
}

/// The program found in the environment, or the configuration's default one.
pub fn program_or_default(config: &LspServerConfig, from_env: Option<String>) -> (res: String)
    requires
        config.default_command@.len() >= 1,
    ensures
        res@ == match from_env {
            Some(s) => s@,
            None => config.default_command@[0]@,
        },
{
    match from_env {
        Some(s) => s,
        None => config.default_command[0].to_owned(),
    }
}

/// The arguments of a default command: all but its first word.
pub open spec fn command_args(cmd: Seq<Seq<char>>) -> Seq<Seq<char>> {
    if cmd.len() == 0 {
        Seq::empty()
    } else {
        cmd.skip(1)
    }
}

/// The command that starts the server of `config`, once its program is
/// resolved: the program, then the default command's arguments.  A program
/// that could not be found gives its error back.
pub fn resolve_lsp_command(config: &LspServerConfig, program: Result<String, String>) -> (res: Result<LspCommand, String>)
    ensures
        match program {
            Ok(p) => res matches Ok(c) && c.program@ == p@ && c.args@.map_values(|a: String| a@)
                == command_args(config.default_command@.map_values(|s: &str| s@)),
            Err(e) => res matches Err(e2) && e2@ == e@,
        },
{
    match program {
        Ok(p) => {
            let mut args: Vec<String> = Vec::new();
            let n = config.default_command.len();
            let mut i: usize = 1;
            let ghost cmd = config.default_command@.map_values(|s: &str| s@);
            while i < n
                invariant
                    n == config.default_command@.len(),
                    cmd == config.default_command@.map_values(|s: &str| s@),
                    1 <= i <= n || (n == 0 && i == 1),
                    i <= n ==> args@.map_values(|a: String| a@) == cmd.subrange(1, i as int),
                    n == 0 ==> args@.len() == 0,
                decreases n - i,
            {
                let ghost before = args@;
                args.push(config.default_command[i].to_owned());
                proof {
                    assert(args@.map_values(|a: String| a@) =~= before.map_values(|a: String| a@).push(cmd[i as int]));
                    assert(cmd.subrange(1, i + 1) =~= cmd.subrange(1, i as int).push(cmd[i as int]));
                }
                i = i + 1;
            }
            proof {
                if n >= 1 {
                    assert(cmd.subrange(1, n as int) =~= cmd.skip(1));
                } else {
                    assert(args@.map_values(|a: String| a@) =~= command_args(cmd));
                }
            }
            Ok(LspCommand { program: p, args })
        },
        Err(e) => Err(e),
    }
}


/// The pieces of `s` between the separators `sep` (one more than there
/// are separators).
pub open spec fn pieces(s: Seq<char>, sep: char) -> Seq<Seq<char>>
    decreases s.len(),
{
    if s.len() == 0 {
        seq![Seq::<char>::empty()]
    } else {
        let p = pieces(s.drop_last(), sep);
        if s.last() == sep {
            p.push(Seq::empty())
        } else {
            p.update(p.len() - 1, p.last().push(s.last()))
        }
    }
}

proof fn lemma_pieces_nonempty(s: Seq<char>, sep: char)
    ensures
        pieces(s, sep).len() >= 1,
    decreases s.len(),
{
    if s.len() > 0 {
        lemma_pieces_nonempty(s.drop_last(), sep);
    }
}

/// The pieces that hold more than whitespace, without surrounding
/// whitespace, in order.
pub open spec fn kept_pieces(ps: Seq<Seq<char>>) -> Seq<Seq<char>>
    decreases ps.len(),
{
    if ps.len() == 0 {
        Seq::empty()
    } else {
        let prev = kept_pieces(ps.drop_last());
        let t = trimmed(ps.last());
        if t.len() == 0 {
            prev
        } else {
            prev.push(t)
        }
    }
}

/// The directories a `GOPATH` value names: its `:`-separated entries
/// without surrounding whitespace, empty ones left out.
pub open spec fn gopath_entries(s: Seq<char>) -> Seq<Seq<char>> {
    kept_pieces(pieces(s, ':'))
}

/// The directories a `GOPATH` value names, in order.
pub fn gopath_dirs(value: &str) -> (res: Vec<String>)
    ensures
        res@.map_values(|d: String| d@) == gopath_entries(value@),
{
    let cs = chars_of(value);
    let mut ps: Vec<Vec<char>> = Vec::new();
    ps.push(Vec::new());
    let mut i: usize = 0;
    proof {
        assert(cs@.take(0) =~= Seq::<char>::empty());
        assert(ps@.map_values(|v: Vec<char>| v@) =~= pieces(Seq::<char>::empty(), ':'));
    }
    while i < cs.len()
        invariant
            i <= cs@.len(),
            cs@ == value@,
            ps@.map_values(|v: Vec<char>| v@) == pieces(cs@.take(i as int), ':'),
            ps@.len() >= 1,
        decreases cs@.len() - i,
    {
        let ghost before = ps@.map_values(|v: Vec<char>| v@);
        proof {
            assert(cs@.take(i + 1).drop_last() =~= cs@.take(i as int));
            assert(cs@.take(i + 1).last() == cs@[i as int]);
        }
        if cs[i] == ':' {
            ps.push(Vec::new());
            proof {
                assert(ps@.map_values(|v: Vec<char>| v@) =~= before.push(Seq::empty()));
            }
        } else {
            let last = ps.len() - 1;
            let mut cur = ps.remove(last);
            cur.push(cs[i]);
            ps.push(cur);
            proof {
                assert(ps@.map_values(|v: Vec<char>| v@) =~= before.update(
                    before.len() - 1,
                    before.last().push(cs@[i as int]),
                ));
            }
        }
        i = i + 1;
    }
    proof {
        assert(cs@.take(cs@.len() as int) =~= cs@);
    }
    let ghost pv = ps@.map_values(|v: Vec<char>| v@);
    let mut out: Vec<String> = Vec::new();
    let mut k: usize = 0;
    proof {
        assert(pv.take(0) =~= Seq::<Seq<char>>::empty());
        assert(out@.map_values(|d: String| d@) =~= Seq::<Seq<char>>::empty());
    }
    while k < ps.len()
        invariant
            k <= ps@.len(),
            pv == ps@.map_values(|v: Vec<char>| v@),
            pv == pieces(value@, ':'),
            out@.map_values(|d: String| d@) == kept_pieces(pv.take(k as int)),
        decreases ps@.len() - k,
    {
        let ghost prev = out@.map_values(|d: String| d@);
        proof {
            assert(pv.take(k + 1).drop_last() =~= pv.take(k as int));
            assert(pv.take(k + 1).last() == pv[k as int]);
            assert(pv[k as int] == ps@[k as int]@);
        }
        let piece = crate::chars::string_from_chars(ps[k].as_slice());
        let t = crate::textutil::trim(piece.as_str());
        if !t.as_str().is_empty() {
            out.push(t);
            proof {
                assert(out@.map_values(|d: String| d@) =~= prev.push(trimmed(pv[k as int])));
            }
        }
        k = k + 1;
    }
    proof {
        assert(pv.take(pv.len() as int) =~= pv);
    }
    out
}

} // verus!
