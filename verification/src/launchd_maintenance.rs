//! The launch agent that runs maintenance: its property list, and how it is installed.
use vstd::prelude::*;
use vstd::string::*;
use crate::config::Config;
use crate::file_paths::{join_path, sibling_path};
use crate::text::{cat2, cat3, cat5, decimal, join_texts, owned, trim};
use crate::{file_paths, text};

verus! {

/// The label of the launch agent.
pub const DEFAULT_LABEL: &'static str = "com.dukememory.maintenance";

/// What the launch agent is to run, and how often.
#[derive(Debug, Clone, PartialEq, Eq)]
pub struct MaintenanceLaunchdOptions {
    pub command: String,
    pub label: String,
    pub interval_seconds: u64,
    pub project: Option<String>,
    pub apply: bool,
    pub all: bool,
    pub backup: bool,
    pub stdout_path: String,
    pub stderr_path: String,
}

/// What was installed, and where what it replaced went.
#[derive(Debug, Clone, PartialEq, Eq)]
pub struct LaunchdInstallResult {
    pub plist_path: String,
    pub backup_path: Option<String>,
    pub installed: bool,
}

// ---------------------------------------------------------------------------
// Escaping
// ---------------------------------------------------------------------------

/// A character as it stands in XML text.
pub open spec fn escaped_char(c: char) -> Seq<char> {
    if c == '&' {
        "&amp;"@
    } else if c == '<' {
        "&lt;"@
    } else if c == '>' {
        "&gt;"@
    } else if c == '"' {
        "&quot;"@
    } else if c == '\'' {
        "&apos;"@
    } else {
        seq![c]
    }
}

/// A text as it stands in XML text.
pub open spec fn xml_escaped(s: Seq<char>) -> Seq<char>
    decreases s.len(),
{
    if s.len() == 0 {
        Seq::empty()
    } else {
        escaped_char(s[0]) + xml_escaped(s.drop_first())
    }
}

/// Writes a text as it stands in XML text.
pub fn xml_escape(value: &str) -> (r: String)
    ensures
        r@ == xml_escaped(value@),
{
    let chars = text::chars_of(value);
    let mut r = String::new();
    let mut i: usize = 0;
    assert(chars@.skip(0) =~= chars@);
    assert(r@ + xml_escaped(chars@) =~= xml_escaped(chars@));
    while i < chars.len()
        invariant
            i <= chars.len(),
            chars@ == value@,
            r@ + xml_escaped(chars@.skip(i as int)) == xml_escaped(value@),
        decreases chars.len() - i,
    {
        let c = chars[i];
        let ghost before = r@;
        let ghost rest = chars@.skip(i as int);
        assert(rest[0] == c);
        assert(rest.drop_first() =~= chars@.skip(i + 1));
        if c == '&' {
            r.append("&amp;");
        } else if c == '<' {
            r.append("&lt;");
        } else if c == '>' {
            r.append("&gt;");
        } else if c == '"' {
            r.append("&quot;");
        } else if c == '\'' {
            r.append("&apos;");
        } else {
            r.push(c);
            assert(r@ =~= before + seq![c]);
        }
        assert(before + (escaped_char(c) + xml_escaped(chars@.skip(i + 1))) =~= (before
            + escaped_char(c)) + xml_escaped(chars@.skip(i + 1)));
        i += 1;
    }
    assert(chars@.skip(i as int) =~= Seq::<char>::empty());
    assert(r@ + Seq::<char>::empty() =~= r@);
    r
}

/// What is escaped holds no character that ends a text or an attribute in XML.
pub proof fn escaped_text_is_inert(s: Seq<char>)
    ensures
        !xml_escaped(s).contains('<'),
        !xml_escaped(s).contains('>'),
        !xml_escaped(s).contains('"'),
        !xml_escaped(s).contains('\''),
    decreases s.len(),
{
    reveal_strlit("&amp;");
    reveal_strlit("&lt;");
    reveal_strlit("&gt;");
    reveal_strlit("&quot;");
    reveal_strlit("&apos;");
    if s.len() > 0 {
        escaped_text_is_inert(s.drop_first());
        let a = escaped_char(s[0]);
        let b = xml_escaped(s.drop_first());
        assert forall|x: char| (a + b).contains(x) implies a.contains(x) || b.contains(x) by {
            let i = choose|i: int| 0 <= i < (a + b).len() && (a + b)[i] == x;
            if i < a.len() {
                assert(a[i] == x);
            } else {
                assert(b[i - a.len()] == x);
            }
        }
    }
}

/// Different texts are different when escaped: what was escaped can be read back.
pub proof fn escaping_loses_nothing(a: Seq<char>, b: Seq<char>)
    requires
        xml_escaped(a) == xml_escaped(b),
    ensures
        a == b,
    decreases a.len(),
{
    reveal_strlit("&amp;");
    reveal_strlit("&lt;");
    reveal_strlit("&gt;");
    reveal_strlit("&quot;");
    reveal_strlit("&apos;");
    if a.len() == 0 {
        if b.len() > 0 {
            assert(escaped_char(b[0]).len() > 0);
            assert(xml_escaped(b).len() > 0);
        }
        assert(a =~= b);
    } else if b.len() == 0 {
        assert(escaped_char(a[0]).len() > 0);
        assert(xml_escaped(a).len() > 0);
    } else {
        let x = escaped_char(a[0]);
        let y = escaped_char(b[0]);
        let s = xml_escaped(a);
        assert(s[0] == x[0] && s[0] == y[0]);
        assert(x.len() > 1 ==> s[1] == x[1]);
        assert(y.len() > 1 ==> s[1] == y[1]);
        assert(x.len() > 2 ==> s[2] == x[2]);
        assert(y.len() > 2 ==> s[2] == y[2]);
        assert(a[0] == b[0]);
        assert(xml_escaped(a.drop_first()) =~= s.skip(x.len() as int));
        assert(xml_escaped(b.drop_first()) =~= s.skip(y.len() as int));
        escaping_loses_nothing(a.drop_first(), b.drop_first());
        assert(a =~= seq![a[0]] + a.drop_first());
        assert(b =~= seq![b[0]] + b.drop_first());
    }
}

// ---------------------------------------------------------------------------
// The property list
// ---------------------------------------------------------------------------

/// Texts with one more, where the condition holds.
pub open spec fn with_arg_if(args: Seq<Seq<char>>, given: bool, arg: Seq<char>) -> Seq<Seq<char>> {
    if given {
        args.push(arg)
    } else {
        args
    }
}

/// The arguments that the launch agent runs with.
pub open spec fn program_arguments(o: MaintenanceLaunchdOptions) -> Seq<Seq<char>> {
    let a = seq![o.command@, "maintenance"@];
    let b = with_arg_if(a, o.all, "--all"@);
    let c = with_arg_if(b, o.backup, "--backup"@);
    let d = with_arg_if(c, o.apply, "--apply"@);
    match o.project {
        Some(project) => d.push("--project"@).push(project@),
        None => d,
    }
}

/// A text as an element of the arguments.
pub open spec fn argument_line(arg: Seq<char>) -> Seq<char> {
    "    <string>"@ + xml_escaped(arg) + "</string>"@
}

/// The elements of the arguments, one on a line.
pub open spec fn argument_lines(args: Seq<Seq<char>>) -> Seq<char> {
    text::joined(args.map_values(|a: Seq<char>| argument_line(a)), "\n"@)
}

/// An environment variable with its value.
pub open spec fn environment_entry(key: Seq<char>, value: Seq<char>) -> Seq<char> {
    "    <key>"@ + key + "</key>\n    <string>"@ + xml_escaped(value) + "</string>\n"@
}

/// The environment variables that the launch agent runs with.
pub open spec fn environment_entries(c: Config) -> Seq<char> {
    environment_entry("DUKEMEMORY_DATABASE_URL"@, c.database_url@) + environment_entry(
        "DUKEMEMORY_DATABASE_MARKER"@,
        c.database_marker@,
    ) + environment_entry("DUKEMEMORY_DB"@, c.database_marker@) + environment_entry(
        "OLLAMA_BASE_URL"@,
        c.ollama_base_url@,
    ) + environment_entry("DUKEMEMORY_EMBED_MODEL"@, c.ollama_embed_model@) + environment_entry(
        "DUKEMEMORY_FAST_EMBED_MODEL"@,
        c.fast_embed_model@,
    ) + environment_entry("DUKEMEMORY_EXTRACT_MODEL"@, c.ollama_llm_model@) + environment_entry(
        "DUKEMEMORY_VALIDATE_MODEL"@,
        c.validate_model@,
    ) + environment_entry("DUKEMEMORY_FAST_CODE_MODEL"@, c.fast_code_model@) + environment_entry(
        "DUKEMEMORY_DEEP_CODE_MODEL"@,
        c.deep_code_model@,
    ) + environment_entry("DUKEMEMORY_AGENT_CODE_MODEL"@, c.agent_code_model@) + environment_entry(
        "DUKEMEMORY_EXPERIMENT_MODEL"@,
        c.experiment_model@,
    )
}

/// How often the launch agent runs: every five minutes at most.
pub open spec fn start_interval(seconds: nat) -> nat {
    if seconds < 300 {
        300
    } else {
        seconds
    }
}

/// What stands before the label.
pub open spec fn plist_head() -> Seq<char> {
    "<?xml version=\"1.0\" encoding=\"UTF-8\"?>\n<!DOCTYPE plist PUBLIC \"-//Apple//DTD PLIST 1.0//EN\"\n  \"http://www.apple.com/DTDs/PropertyList-1.0.dtd\">\n<plist version=\"1.0\">\n<dict>\n  <key>Label</key>\n  <string>"@
}

/// The property list of the launch agent.
pub open spec fn plist_text(c: Config, o: MaintenanceLaunchdOptions) -> Seq<char> {
    plist_head() + xml_escaped(o.label@)
        + "</string>\n\n  <key>ProgramArguments</key>\n  <array>\n"@ + argument_lines(
        program_arguments(o),
    ) + "\n  </array>\n\n  <key>EnvironmentVariables</key>\n  <dict>\n"@ + environment_entries(c)
        + "  </dict>\n\n  <key>RunAtLoad</key>\n  <true/>\n\n  <key>StartInterval</key>\n  <integer>"@
        + text::decimal_text(start_interval(o.interval_seconds as nat))
        + "</integer>\n\n  <key>StandardOutPath</key>\n  <string>"@ + xml_escaped(o.stdout_path@)
        + "</string>\n\n  <key>StandardErrorPath</key>\n  <string>"@ + xml_escaped(o.stderr_path@)
        + "</string>\n</dict>\n</plist>\n"@
}

/// The arguments that the launch agent runs with.
fn collect_arguments(options: &MaintenanceLaunchdOptions) -> (r: Vec<String>)
    ensures
        text::texts(r@) == program_arguments(*options),
{
    let mut args: Vec<String> = Vec::new();
    args.push(options.command.clone());
    args.push(owned("maintenance"));
    assert(text::texts(args@) =~= seq![options.command@, "maintenance"@]);
    let ghost a = args@;
    if options.all {
        args.push(owned("--all"));
        assert(text::texts(args@) =~= text::texts(a).push("--all"@));
    }
    let ghost b = args@;
    if options.backup {
        args.push(owned("--backup"));
        assert(text::texts(args@) =~= text::texts(b).push("--backup"@));
    }
    let ghost c = args@;
    if options.apply {
        args.push(owned("--apply"));
        assert(text::texts(args@) =~= text::texts(c).push("--apply"@));
    }
    let ghost d = args@;
    if let Some(project) = &options.project {
        args.push(owned("--project"));
        args.push(project.clone());
        assert(text::texts(args@) =~= text::texts(d).push("--project"@).push(project@));
    }
    args
}

/// The elements of the arguments, one on a line.
fn write_argument_lines(args: &Vec<String>) -> (r: String)
    ensures
        r@ == argument_lines(text::texts(args@)),
{
    let mut lines: Vec<String> = Vec::new();
    let mut i: usize = 0;
    while i < args.len()
        invariant
            i <= args.len(),
            lines.len() == i,
            forall|j: int| 0 <= j < i ==> (#[trigger] lines@[j])@ == argument_line(args@[j]@),
        decreases args.len() - i,
    {
        let escaped = xml_escape(args[i].as_str());
        lines.push(cat3("    <string>", escaped.as_str(), "</string>"));
        i += 1;
    }
    assert(text::texts(lines@) =~= text::texts(args@).map_values(
        |a: Seq<char>| argument_line(a),
    ));
    join_texts(lines.as_slice(), "\n")
}

/// Appends an environment variable with its value.
fn append_entry(out: &mut String, key: &str, value: &str)
    ensures
        final(out)@ == old(out)@ + environment_entry(key@, value@),
{
    let escaped = xml_escape(value);
    let entry = cat5("    <key>", key, "</key>\n    <string>", escaped.as_str(), "</string>\n");
    out.append(entry.as_str());
}

/// The environment variables that the launch agent runs with.
fn write_environment(config: &Config) -> (r: String)
    ensures
        r@ == environment_entries(*config),
{
    let mut r = String::new();
    append_entry(&mut r, "DUKEMEMORY_DATABASE_URL", config.database_url.as_str());
    assert(r@ =~= environment_entry("DUKEMEMORY_DATABASE_URL"@, config.database_url@));
    append_entry(&mut r, "DUKEMEMORY_DATABASE_MARKER", config.database_marker.as_str());
    append_entry(&mut r, "DUKEMEMORY_DB", config.database_marker.as_str());
    append_entry(&mut r, "OLLAMA_BASE_URL", config.ollama_base_url.as_str());
    append_entry(&mut r, "DUKEMEMORY_EMBED_MODEL", config.memory_embed_model());
    append_entry(&mut r, "DUKEMEMORY_FAST_EMBED_MODEL", config.code_embed_model());
    append_entry(&mut r, "DUKEMEMORY_EXTRACT_MODEL", config.extract_model());
    append_entry(&mut r, "DUKEMEMORY_VALIDATE_MODEL", config.validate_model.as_str());
    append_entry(&mut r, "DUKEMEMORY_FAST_CODE_MODEL", config.fast_code_model.as_str());
    append_entry(&mut r, "DUKEMEMORY_DEEP_CODE_MODEL", config.deep_code_model.as_str());
    append_entry(&mut r, "DUKEMEMORY_AGENT_CODE_MODEL", config.agent_code_model.as_str());
    append_entry(&mut r, "DUKEMEMORY_EXPERIMENT_MODEL", config.experiment_model.as_str());
    r
}

/// Writes the property list of the launch agent.
pub fn maintenance_launchd_plist(config: &Config, options: &MaintenanceLaunchdOptions) -> (r:
    String)
    ensures
        r@ == plist_text(*config, *options),
{
    let args = collect_arguments(options);
    let arg_lines = write_argument_lines(&args);
    let environment = write_environment(config);
    let label = xml_escape(options.label.as_str());
    let interval = decimal(
        if options.interval_seconds < 300 {
            300
        } else {
            options.interval_seconds
        },
    );
    let stdout = xml_escape(options.stdout_path.as_str());
    let stderr = xml_escape(options.stderr_path.as_str());
    let mut r = owned(
        "<?xml version=\"1.0\" encoding=\"UTF-8\"?>\n<!DOCTYPE plist PUBLIC \"-//Apple//DTD PLIST 1.0//EN\"\n  \"http://www.apple.com/DTDs/PropertyList-1.0.dtd\">\n<plist version=\"1.0\">\n<dict>\n  <key>Label</key>\n  <string>",
    );
    r.append(label.as_str());
    r.append("</string>\n\n  <key>ProgramArguments</key>\n  <array>\n");
    r.append(arg_lines.as_str());
    r.append("\n  </array>\n\n  <key>EnvironmentVariables</key>\n  <dict>\n");
    r.append(environment.as_str());
    r.append(
        "  </dict>\n\n  <key>RunAtLoad</key>\n  <true/>\n\n  <key>StartInterval</key>\n  <integer>",
    );
    r.append(interval.as_str());
    r.append("</integer>\n\n  <key>StandardOutPath</key>\n  <string>");
    r.append(stdout.as_str());
    r.append("</string>\n\n  <key>StandardErrorPath</key>\n  <string>");
    r.append(stderr.as_str());
    r.append("</string>\n</dict>\n</plist>\n");
    r
}

// ---------------------------------------------------------------------------
// Installation
// ---------------------------------------------------------------------------

/// Where the property list of a user stands.
pub fn default_plist_path(home: &str) -> (r: String)
    ensures
        r@ == file_paths::joined_path(
            file_paths::joined_path(file_paths::joined_path(home@, "Library"@), "LaunchAgents"@),
            "com.dukememory.maintenance.plist"@,
        ),
{
    let library = join_path(home, "Library");
    let agents = join_path(library.as_str(), "LaunchAgents");
    join_path(agents.as_str(), "com.dukememory.maintenance.plist")
}

/// Where the logs of a user stand.
pub open spec fn log_directory(home: Seq<char>) -> Seq<char> {
    file_paths::joined_path(
        file_paths::joined_path(file_paths::joined_path(home, "Library"@), "Logs"@),
        "dukememory"@,
    )
}

/// Where what the launch agent writes goes: its output and its errors.
pub fn default_log_paths(home: &str) -> (r: (String, String))
    ensures
        r.0@ == file_paths::joined_path(log_directory(home@), "maintenance.out.log"@),
        r.1@ == file_paths::joined_path(log_directory(home@), "maintenance.err.log"@),
{
    let library = join_path(home, "Library");
    let logs = join_path(library.as_str(), "Logs");
    let dir = join_path(logs.as_str(), "dukememory");
    (join_path(dir.as_str(), "maintenance.out.log"), join_path(dir.as_str(), "maintenance.err.log"))
}

/// Where a property list goes before it is replaced: beside it, under its name and the time.
pub open spec fn backup_path_text(plist_path: Seq<char>, stamp: nat) -> Seq<char> {
    let name = match file_paths::path_file_name(plist_path) {
        Some(name) => name,
        None => "com.dukememory.maintenance.plist"@,
    };
    file_paths::sibling(plist_path, name + ".bak-dukememory-"@ + text::decimal_text(stamp))
}

/// Where a property list goes before it is replaced.
pub fn backup_path(plist_path: &str, stamp: u64) -> (r: String)
    ensures
        r@ == backup_path_text(plist_path@, stamp as nat),
{
    let name = match file_paths::file_name(plist_path) {
        Some(name) => name,
        None => owned("com.dukememory.maintenance.plist"),
    };
    let time = decimal(stamp);
    let backup = cat3(name.as_str(), ".bak-dukememory-", time.as_str());
    sibling_path(plist_path, backup.as_str())
}

/// Plans an installation: a property list that is there is replaced only by force, and then kept
/// under another name.
pub fn plan_launchd_install(plist_path: &str, exists: bool, force: bool, stamp: u64) -> (r: Result<
    LaunchdInstallResult,
    String,
>)
    ensures
        r is Err <==> exists && !force,
        r matches Err(message) ==> message@ == plist_path@
            + " already exists; rerun with --force to replace it"@,
        r matches Ok(result) ==> {
            &&& result.plist_path@ == plist_path@
            &&& result.installed
            &&& text::opt_text(result.backup_path) == (if exists {
                Some(backup_path_text(plist_path@, stamp as nat))
            } else {
                None
            })
        },
{
    if exists && !force {
        return Err(cat2(plist_path, " already exists; rerun with --force to replace it"));
    }
    Ok(
        LaunchdInstallResult {
            plist_path: owned(plist_path),
            backup_path: if exists {
                Some(backup_path(plist_path, stamp))
            } else {
                None
            },
            installed: true,
        },
    )
}

/// The domain of launch agents of the user whose number `id` printed.
pub fn launchctl_domain(id_output: &str) -> (r: String)
    ensures
        r@ == "gui/"@ + text::trimmed(id_output@),
{
    let uid = trim(id_output);
    cat2("gui/", uid.as_str())
}

} // verus!
