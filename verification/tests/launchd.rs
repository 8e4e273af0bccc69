use dukememory::commands::{launchd_action, launchd_options, LaunchdAction};
use dukememory::config::Config;
use dukememory::launchd_maintenance::{
    backup_path, default_log_paths, default_plist_path, launchctl_domain,
    maintenance_launchd_plist, plan_launchd_install, xml_escape, MaintenanceLaunchdOptions,
    DEFAULT_LABEL,
};

#[test]
fn plist_contains_maintenance_command_and_env() {
    let config = test_config();
    let options = test_options();
    let plist = maintenance_launchd_plist(&config, &options);
    assert!(plist.contains("<string>/tmp/dukememory</string>"));
    assert!(plist.contains("<string>maintenance</string>"));
    assert!(plist.contains("<string>--all</string>"));
    assert!(plist.contains("<string>--backup</string>"));
    assert!(plist.contains("<string>--apply</string>"));
    assert!(plist.contains("<string>game-a</string>"));
    assert!(plist.contains("<integer>300</integer>"));
    assert!(plist.contains("<key>DUKEMEMORY_DB</key>"));
    assert!(plist.contains("<string>qwen3-embedding:8b</string>"));
}

#[test]
fn plist_is_written_in_full() {
    let config = Config {
        database_url: "db?a&b".to_string(),
        database_marker: "marker".to_string(),
        ollama_base_url: "base".to_string(),
        ollama_embed_model: "embed".to_string(),
        ollama_llm_model: "llm".to_string(),
        fast_embed_model: "fast".to_string(),
        validate_model: "validate".to_string(),
        fast_code_model: "code".to_string(),
        deep_code_model: "deep".to_string(),
        agent_code_model: "agent".to_string(),
        experiment_model: "experiment".to_string(),
    };
    let options = MaintenanceLaunchdOptions {
        command: "/bin/<tool>".to_string(),
        label: DEFAULT_LABEL.to_string(),
        interval_seconds: 3600,
        project: None,
        apply: false,
        all: true,
        backup: false,
        stdout_path: "/tmp/out".to_string(),
        stderr_path: "/tmp/err".to_string(),
    };
    let expected = r#"<?xml version="1.0" encoding="UTF-8"?>
<!DOCTYPE plist PUBLIC "-//Apple//DTD PLIST 1.0//EN"
  "http://www.apple.com/DTDs/PropertyList-1.0.dtd">
<plist version="1.0">
<dict>
  <key>Label</key>
  <string>com.dukememory.maintenance</string>

  <key>ProgramArguments</key>
  <array>
    <string>/bin/&lt;tool&gt;</string>
    <string>maintenance</string>
    <string>--all</string>
  </array>

  <key>EnvironmentVariables</key>
  <dict>
    <key>DUKEMEMORY_DATABASE_URL</key>
    <string>db?a&amp;b</string>
    <key>DUKEMEMORY_DATABASE_MARKER</key>
    <string>marker</string>
    <key>DUKEMEMORY_DB</key>
    <string>marker</string>
    <key>OLLAMA_BASE_URL</key>
    <string>base</string>
    <key>DUKEMEMORY_EMBED_MODEL</key>
    <string>embed</string>
    <key>DUKEMEMORY_FAST_EMBED_MODEL</key>
    <string>fast</string>
    <key>DUKEMEMORY_EXTRACT_MODEL</key>
    <string>llm</string>
    <key>DUKEMEMORY_VALIDATE_MODEL</key>
    <string>validate</string>
    <key>DUKEMEMORY_FAST_CODE_MODEL</key>
    <string>code</string>
    <key>DUKEMEMORY_DEEP_CODE_MODEL</key>
    <string>deep</string>
    <key>DUKEMEMORY_AGENT_CODE_MODEL</key>
    <string>agent</string>
    <key>DUKEMEMORY_EXPERIMENT_MODEL</key>
    <string>experiment</string>
  </dict>

  <key>RunAtLoad</key>
  <true/>

  <key>StartInterval</key>
  <integer>3600</integer>

  <key>StandardOutPath</key>
  <string>/tmp/out</string>

  <key>StandardErrorPath</key>
  <string>/tmp/err</string>
</dict>
</plist>
"#;
    assert_eq!(maintenance_launchd_plist(&config, &options), expected);
}

#[test]
fn escaped_text_holds_no_markup() {
    assert_eq!(xml_escape("a<b>&\"c\"'d'"), "a&lt;b&gt;&amp;&quot;c&quot;&apos;d&apos;");
    assert_eq!(xml_escape("&amp;"), "&amp;amp;");
    assert_eq!(xml_escape(""), "");
    assert_ne!(xml_escape("&lt;"), xml_escape("<"));
}

#[test]
fn install_replaces_only_by_force() {
    let path = "/home/me/Library/LaunchAgents/com.dukememory.maintenance.plist";
    let error = plan_launchd_install(path, true, false, 7).unwrap_err();
    assert_eq!(
        error,
        format!("{path} already exists; rerun with --force to replace it")
    );

    let result = plan_launchd_install(path, true, true, 7).unwrap();
    assert!(result.installed);
    assert_eq!(result.plist_path, path);
    assert_eq!(
        result.backup_path.as_deref(),
        Some("/home/me/Library/LaunchAgents/com.dukememory.maintenance.plist.bak-dukememory-7")
    );

    assert!(plan_launchd_install(path, false, false, 7)
        .unwrap()
        .backup_path
        .is_none());
}

#[test]
fn backups_stand_beside_what_they_replace() {
    assert_eq!(backup_path("agent.plist", 12), "agent.plist.bak-dukememory-12");
    assert_eq!(backup_path("/agent.plist", 0), "/agent.plist.bak-dukememory-0");
    assert_eq!(
        backup_path("/", 3),
        "/com.dukememory.maintenance.plist.bak-dukememory-3"
    );
}

#[test]
fn default_paths_stand_below_home() {
    assert_eq!(
        default_plist_path("/home/me"),
        "/home/me/Library/LaunchAgents/com.dukememory.maintenance.plist"
    );
    assert_eq!(
        default_plist_path("/"),
        "/Library/LaunchAgents/com.dukememory.maintenance.plist"
    );
    let (out, err) = default_log_paths("/home/me");
    assert_eq!(out, "/home/me/Library/Logs/dukememory/maintenance.out.log");
    assert_eq!(err, "/home/me/Library/Logs/dukememory/maintenance.err.log");
}

#[test]
fn agents_live_in_the_domain_of_the_user() {
    assert_eq!(launchctl_domain("501\n"), "gui/501");
}

#[test]
fn unloading_comes_before_all_else() {
    assert_eq!(launchd_action(true, true, true), LaunchdAction::Unload);
    assert_eq!(launchd_action(true, true, false), LaunchdAction::InstallAndLoad);
    assert_eq!(launchd_action(true, false, false), LaunchdAction::Install);
    assert_eq!(launchd_action(false, true, false), LaunchdAction::Load);
    assert_eq!(launchd_action(false, false, false), LaunchdAction::Print);
}

#[test]
fn launch_options_turn_flags_around() {
    let options = launchd_options(
        "tool".to_string(),
        60,
        "game".to_string(),
        true,
        false,
        true,
        "out".to_string(),
        "err".to_string(),
    );
    assert_eq!(options.label, DEFAULT_LABEL);
    assert!(!options.apply);
    assert!(options.all);
    assert!(!options.backup);
    assert_eq!(options.project.as_deref(), Some("game"));
}

fn test_options() -> MaintenanceLaunchdOptions {
    MaintenanceLaunchdOptions {
        command: "/tmp/dukememory".to_string(),
        label: DEFAULT_LABEL.to_string(),
        interval_seconds: 60,
        project: Some("game-a".to_string()),
        apply: true,
        all: true,
        backup: true,
        stdout_path: "/tmp/dukememory.out.log".to_string(),
        stderr_path: "/tmp/dukememory.err.log".to_string(),
    }
}

fn test_config() -> Config {
    Config {
        database_url: "postgresql://dukememory-test@localhost:55432/dukememory_test".to_string(),
        database_marker: "/tmp/dukeschema.marker".to_string(),
        ollama_base_url: "http://127.0.0.1:11435".to_string(),
        ollama_embed_model: "qwen3-embedding:8b".to_string(),
        ollama_llm_model: "qwen3:14b".to_string(),
        fast_embed_model: "bge-m3".to_string(),
        validate_model: "qwen3:14b".to_string(),
        fast_code_model: "qwen2.5-coder:14b".to_string(),
        deep_code_model: "qwen3-coder:30b-a3b-q4_K_M".to_string(),
        agent_code_model: "north-mini-code-1.0:q4_k_m".to_string(),
        experiment_model: "huihui-gemma4-12b-coder:q4_k_m".to_string(),
    }
}
