use rust_style::badge::{gist_patch_body, loc_badge_json, u64_to_string};
use rust_style::hooks::append_custom_lines;
use rust_style::labels::{check_duplicate_colors, parse_label, plan_label_sync};
use rust_style::manifest_edit::process_cargo_lines;
use rust_style::text::usize_to_string;
use rust_style::version_bump::{
    bump_crate, find_cargo_hash, get_cargo_hash_from_build_output, get_current_version,
    parse_args, to_partial_semver, update_cargo_hash, update_src_hash, update_version, BumpPlan,
    CrateConfig, InstallMode,
};
use rust_style::smells::filter_duplication_report;
use rust_style::workspace::workspace_members;

#[test]
fn partial_semver_keeps_major_and_minor() {
    assert_eq!(to_partial_semver("0.2.22"), "0.2");
    assert_eq!(to_partial_semver("1.2.3.4"), "1.2");
    assert_eq!(to_partial_semver("7"), "7");
    assert_eq!(to_partial_semver(""), "");
}

#[test]
fn decimal_rendering_is_exact() {
    assert_eq!(usize_to_string(0), "0");
    assert_eq!(usize_to_string(42), "42");
    assert_eq!(usize_to_string(90301), "90301");
    assert_eq!(u64_to_string(1234567890), "1234567890");
}

fn argv(parts: &[&str]) -> Vec<String> {
    parts.iter().map(|p| p.to_string()).collect()
}

#[test]
fn bump_arguments_parse_into_configs() {
    let args = argv(&[
        "bump",
        "--crate",
        "tracey:binstall",
        "--crate",
        "codestyle:source",
        "--version-var-postfix",
        "Version",
    ]);
    let (configs, postfix) = parse_args(&args).expect("valid arguments");
    assert_eq!(postfix, "Version");
    assert_eq!(configs.len(), 2);
    assert_eq!(configs[0].name, "tracey");
    assert_eq!(configs[0].version_var, "traceyVersion");
    assert_eq!(configs[0].mode, InstallMode::Binstall);
    assert_eq!(configs[1].name, "codestyle");
    assert_eq!(configs[1].version_var, "codestyleVersion");
    assert_eq!(configs[1].mode, InstallMode::Source);
}

#[test]
fn bump_argument_errors_are_exact() {
    assert_eq!(parse_args(&argv(&["bump", "--help"])).unwrap_err(), "help");
    assert_eq!(parse_args(&argv(&["bump", "--crate"])).unwrap_err(), "--crate requires an argument");
    assert_eq!(parse_args(&argv(&["bump", "--crate", "nomode"])).unwrap_err(), "Invalid crate spec 'nomode': expected 'name:mode'");
    assert_eq!(parse_args(&argv(&["bump", "--crate", "x:zip"])).unwrap_err(), "Unknown mode 'zip': expected 'binstall' or 'source'");
    assert_eq!(parse_args(&argv(&["bump", "--crate", "x:source"])).unwrap_err(), "--version-var-postfix is required");
    assert_eq!(parse_args(&argv(&["bump", "--version-var-postfix", "V"])).unwrap_err(), "At least one --crate argument is required");
    assert_eq!(parse_args(&argv(&["bump", "--frobnicate"])).unwrap_err(), "Unknown argument: --frobnicate");
}

const FLAKE: &str = "{\n  traceyVersion = \"0.2\";\n  codestyleVersion = \"1.4\";\n}\n";

#[test]
fn version_variable_is_read_and_rewritten() {
    assert_eq!(get_current_version(FLAKE, "traceyVersion"), Some("0.2".to_string()));
    assert_eq!(get_current_version(FLAKE, "codestyleVersion"), Some("1.4".to_string()));
    assert_eq!(get_current_version(FLAKE, "missingVersion"), None);
    let updated = update_version(FLAKE, "traceyVersion", "0.3");
    assert_eq!(
        updated,
        "{\n  traceyVersion = \"0.3\";\n  codestyleVersion = \"1.4\";\n}\n"
    );
    // The other variable is untouched; updating it changes only its line.
    let updated = update_version(FLAKE, "codestyleVersion", "2.0");
    assert!(updated.contains("codestyleVersion = \"2.0\""));
    assert!(updated.contains("traceyVersion = \"0.2\""));
}

#[test]
fn version_lookup_skips_an_empty_assignment() {
    // An assignment with an empty value cannot match; the next one does.
    let content = "v = \"\"\nv = \"1\"\n";
    assert_eq!(get_current_version(content, "v"), Some("1".to_string()));
}

#[test]
fn every_matching_assignment_is_rewritten() {
    let content = "v = \"1\" and v = \"2\"";
    assert_eq!(update_version(content, "v", "3"), "v = \"3\" and v = \"3\"");
}

#[test]
fn bump_binstall_uses_partial_semver() {
    let cfg = CrateConfig {
        name: "tracey".to_string(),
        version_var: "traceyVersion".to_string(),
        mode: InstallMode::Binstall,
    };
    match bump_crate(&cfg, FLAKE, FLAKE, "0.3.7") {
        Ok(BumpPlan::Update { flake_content, rs_content, version }) => {
            assert_eq!(version, "0.3");
            assert!(flake_content.contains("traceyVersion = \"0.3\""));
            assert!(rs_content.contains("traceyVersion = \"0.3\""));
        },
        other => panic!("expected an update plan, got {:?}", other),
    }
    // Already at 0.2: the partial target matches the recorded version.
    match bump_crate(&cfg, FLAKE, FLAKE, "0.2.9") {
        Ok(BumpPlan::UpToDate) => {},
        other => panic!("expected up to date, got {:?}", other),
    }
}

#[test]
fn bump_source_uses_the_full_version() {
    let cfg = CrateConfig {
        name: "tracey".to_string(),
        version_var: "traceyVersion".to_string(),
        mode: InstallMode::Source,
    };
    match bump_crate(&cfg, FLAKE, FLAKE, "0.2.9") {
        Ok(BumpPlan::Update { version, .. }) => assert_eq!(version, "0.2.9"),
        other => panic!("expected an update plan, got {:?}", other),
    }
}

#[test]
fn bump_reports_a_missing_variable() {
    let cfg = CrateConfig {
        name: "ghost".to_string(),
        version_var: "ghostVersion".to_string(),
        mode: InstallMode::Binstall,
    };
    match bump_crate(&cfg, FLAKE, FLAKE, "1.0.0") {
        Err(m) => assert_eq!(m, "Could not find ghostVersion in flake.nix"),
        other => panic!("expected an error, got {:?}", other),
    }
}

const NIX_STANZA: &str = "src = pkgs.fetchCrate {\n  pname = \"tracey\";\n  version = \"0.2.9\";\n  hash = \"sha256-OLDOLD\";\n};\ncargoHash = \"sha256-CARGOOLD\";\n";

#[test]
fn source_hash_is_replaced_inside_the_stanza() {
    let updated = update_src_hash(NIX_STANZA, "tracey", "sha256-NEWNEW");
    assert!(updated.contains("hash = \"sha256-NEWNEW\""));
    assert!(!updated.contains("sha256-OLDOLD"));
    assert!(updated.contains("cargoHash = \"sha256-CARGOOLD\""));
    // A stanza for another crate is left alone.
    let untouched = update_src_hash(NIX_STANZA, "other", "sha256-NEWNEW");
    assert_eq!(untouched, NIX_STANZA);
}

#[test]
fn cargo_hash_is_replaced_after_the_pname_marker() {
    let updated = update_cargo_hash(NIX_STANZA, "tracey", "sha256-CARGONEW");
    assert!(updated.contains("cargoHash = \"sha256-CARGONEW\""));
    assert!(!updated.contains("sha256-CARGOOLD"));
    assert_eq!(find_cargo_hash(NIX_STANZA, "tracey"), Some("sha256-CARGOOLD".to_string()));
    assert_eq!(find_cargo_hash(NIX_STANZA, "absent"), None);
}

#[test]
fn build_output_hash_is_extracted() {
    let stderr = "error: hash mismatch in fixed-output derivation\n  specified: sha256-AAAA\n     got:    sha256-RIGHTONE\n";
    assert_eq!(
        get_cargo_hash_from_build_output(stderr),
        Some("sha256-RIGHTONE".to_string())
    );
    assert_eq!(get_cargo_hash_from_build_output("nothing here"), None);
    // A got: line without a sha256 prefix is passed over.
    assert_eq!(get_cargo_hash_from_build_output("got: md5-xyz\n"), None);
}

#[test]
fn labels_parse_name_and_hex_color() {
    assert_eq!(parse_label("bug:ff0000"), Ok(("bug".to_string(), "ff0000".to_string())));
    assert_eq!(parse_label("bug:#ff0000"), Ok(("bug".to_string(), "ff0000".to_string())));
    assert_eq!(
        parse_label("nocolon"),
        Err("Invalid label format 'nocolon', expected 'name:color'".to_string())
    );
    assert_eq!(
        parse_label("bug:zzz"),
        Err("Invalid color 'zzz', expected 6-digit hex".to_string())
    );
    assert_eq!(
        parse_label("bug:ff00"),
        Err("Invalid color 'ff00', expected 6-digit hex".to_string())
    );
}

#[test]
fn duplicate_colors_are_rejected_case_insensitively() {
    let ok = vec![
        ("bug".to_string(), "ff0000".to_string()),
        ("docs".to_string(), "00ff00".to_string()),
    ];
    assert!(check_duplicate_colors(&ok).is_ok());
    let dup = vec![
        ("bug".to_string(), "FF0000".to_string()),
        ("docs".to_string(), "00ff00".to_string()),
        ("urgent".to_string(), "ff0000".to_string()),
    ];
    assert_eq!(
        check_duplicate_colors(&dup),
        Err("Duplicate color #ff0000: 'bug' and 'urgent'".to_string())
    );
}

#[test]
fn sync_plan_partitions_creates_updates_deletes() {
    let local = vec![
        ("bug".to_string(), "ff0000".to_string()),
        ("docs".to_string(), "00ff00".to_string()),
        ("new".to_string(), "0000ff".to_string()),
    ];
    let remote = vec![
        ("bug".to_string(), "FF0000".to_string()),
        ("docs".to_string(), "123456".to_string()),
        ("stale".to_string(), "999999".to_string()),
    ];
    let plan = plan_label_sync(&local, &remote);
    assert_eq!(plan.creates, vec![("new".to_string(), "0000ff".to_string())]);
    assert_eq!(plan.updates, vec![("docs".to_string(), "00ff00".to_string())]);
    assert_eq!(plan.deletes, vec!["stale".to_string()]);
}

#[test]
fn hook_stanza_is_inserted_before_the_last_line() {
    let lines = vec![
        "#!/bin/sh".to_string(),
        "run_checks".to_string(),
        "".to_string(),
        "exit 0".to_string(),
    ];
    let out = append_custom_lines(&lines).expect("qualifying file");
    assert_eq!(out.len(), 6);
    assert_eq!(out[0], "#!/bin/sh");
    assert_eq!(out[1], "run_checks");
    assert_eq!(out[2], "");
    assert_eq!(out[3], "script_dir=$(dirname \"$(realpath \"${BASH_SOURCE[0]}\")\")");
    assert_eq!(out[4], "source \"$script_dir\"/custom.sh");
    assert_eq!(out[5], "exit 0");
    // A file whose second-to-last line is not blank is left untouched.
    let lines = vec!["a".to_string(), "b".to_string(), "c".to_string()];
    assert!(append_custom_lines(&lines).is_none());
    assert!(append_custom_lines(&vec!["only".to_string()]).is_none());
}

#[test]
fn workspace_members_are_read_from_the_manifest() {
    let manifest = "[package]\nname = \"root\"\n[workspace]\nmembers = [\"core\", 'cli', \"tools/*\", \"\"]\n[dependencies]\nmembers = [\"not-in-workspace\"]\n";
    assert_eq!(workspace_members(manifest), vec!["core".to_string(), "cli".to_string()]);
    assert_eq!(workspace_members("no workspace here").len(), 0);
}

#[test]
fn manifest_directives_rewrite_dependency_lines() {
    let lines = vec![
        "[dependencies]".to_string(),
        "local = { path = \"../local\", version = \"1\" } #ga: rm path".to_string(),
        "plain = \"1\"".to_string(),
    ];
    let (out, modified) = process_cargo_lines(&lines);
    assert!(modified);
    assert_eq!(out[0], "[dependencies]");
    assert_eq!(out[1], "local = {  version = \"1\" } #ga: rm path");
    assert_eq!(out[2], "plain = \"1\"");
}

#[test]
fn manifest_lines_outside_dependencies_are_untouched() {
    let lines = vec![
        "[package]".to_string(),
        "desc = \"path = nothing\" #ga: rm path".to_string(),
    ];
    let (out, modified) = process_cargo_lines(&lines);
    assert!(!modified);
    assert_eq!(out, lines);
}

#[test]
fn substitute_directive_swaps_path_for_a_wildcard_version() {
    let lines = vec![
        "[dev-dependencies]".to_string(),
        "local = { path = \"../local\" } #ga: sub path".to_string(),
    ];
    let (out, modified) = process_cargo_lines(&lines);
    assert!(modified);
    // The directive keeps the prefix before `path =`, retains the comment,
    // and splices in the wildcard version assignment.
    assert_eq!(
        out[1],
        "local = { #ga: sub pathversion = \"*\" #ga: sub path"
    );
}

#[test]
fn comment_directive_prefixes_the_line() {
    let lines = vec!["anything at all #ga: comment out".to_string()];
    let (out, modified) = process_cargo_lines(&lines);
    assert!(modified);
    assert_eq!(out[0], "# anything at all #ga: comment out");
}

#[test]
fn duplication_report_keeps_only_similar_code_blocks() {
    let lines = vec![
        "src/a.rs".to_string(),
        "    12:1 similar code with src/b.rs".to_string(),
        "        fn f() {}".to_string(),
        "    40:2 high complexity".to_string(),
        "        fn g() {}".to_string(),
        "src/clean.rs".to_string(),
        "    7:1 high complexity".to_string(),
        "src/b.rs".to_string(),
        "    3:1 similar code with src/a.rs".to_string(),
    ];
    let (out, found) = filter_duplication_report(&lines);
    assert!(found);
    assert_eq!(
        out,
        vec![
            "src/a.rs".to_string(),
            "    12:1 similar code with src/b.rs".to_string(),
            "        fn f() {}".to_string(),
            "".to_string(),
            "src/b.rs".to_string(),
            "    3:1 similar code with src/a.rs".to_string(),
            "".to_string(),
        ]
    );
}

#[test]
fn duplication_report_without_findings_is_empty() {
    let lines = vec![
        "src/a.rs".to_string(),
        "    40:2 high complexity".to_string(),
        "        fn g() {}".to_string(),
    ];
    let (out, found) = filter_duplication_report(&lines);
    assert!(!found);
    assert_eq!(out.len(), 0);
}

#[test]
fn badge_payloads_are_exact() {
    assert_eq!(
        loc_badge_json(90301),
        "{\"schemaVersion\": 1, \"label\": \"LoC\", \"message\": \"90301\", \"color\": \"lightblue\"}"
    );
    assert_eq!(
        gist_patch_body("proj-loc.json", "{}"),
        "{\"files\": {\"proj-loc.json\": {\"content\": \"{}\"}}}"
    );
}
