use gamepath_engine::policy::{
    check_hostname, compile, folder_prefix, normalize_ip_network, RuleSpec,
};

fn rule(kind: &str, value: &str) -> RuleSpec {
    RuleSpec {
        kind: kind.into(),
        value: value.into(),
    }
}

#[test]
fn all_traffic_uses_wintun_without_rules() {
    let plan = compile("all", &[]).unwrap();
    assert_eq!(plan.backend, "wintun");
}

#[test]
fn split_rules_compile_to_wfp_policy() {
    let rules = vec![
        RuleSpec {
            kind: "application".into(),
            value: r"C:\Games\Demo\game.exe".into(),
        },
        RuleSpec {
            kind: "folder".into(),
            value: r"C:\Games\Demo".into(),
        },
        RuleSpec {
            kind: "hostname".into(),
            value: "*.Game.Example.COM".into(),
        },
        RuleSpec {
            kind: "ip".into(),
            value: "203.0.113.0/24".into(),
        },
    ];
    let plan = compile("split", &rules).unwrap();
    assert_eq!(plan.backend, "wfp");
    assert_eq!(plan.hostnames, ["*.game.example.com"]);
    assert_eq!(plan.ip_networks, ["203.0.113.0/24"]);
}

#[test]
fn bad_cidr_is_rejected() {
    let rules = [RuleSpec {
        kind: "ip".into(),
        value: "10.0.0.0/44".into(),
    }];
    assert!(compile("split", &rules).is_err());
}

#[test]
fn each_bad_rule_is_refused() {
    assert_eq!(
        compile("some", &[]).unwrap_err(),
        "traffic mode must be all or split"
    );
    assert!(compile("split", &[]).is_err());
    assert!(compile("split", &[rule("planet", "Earth")]).is_err());
    assert!(compile("split", &[rule("hostname", "-bad-.example")]).is_err());
    assert!(compile("split", &[rule("application", "   ")]).is_err());
    assert!(compile("split", &[rule("ip", "not-an-address")]).is_err());
}

#[test]
fn every_target_is_kept_in_its_list_and_in_order() {
    let rules = [
        rule("hostname", "b.example"),
        rule("ip", "203.0.113.7"),
        rule("hostname", "a.example."),
        rule("folder", r"D:/Games\"),
    ];
    let plan = compile("split", &rules).unwrap();
    assert_eq!(plan.hostnames, ["b.example", "a.example"]);
    assert_eq!(plan.ip_networks, ["203.0.113.7/32"]);
    assert_eq!(plan.folder_prefixes, [r"d:\games"]);
    assert_eq!(plan.protocols, ["udp", "tcp"]);
}

#[test]
fn names_outside_ascii_are_lowered_as_well() {
    let plan = compile("split", &[rule("application", r"C:\Spiele\ÄÖÜ.EXE")]).unwrap();
    assert_eq!(plan.application_paths, [r"c:\spiele\äöü.exe"]);
}

#[test]
fn a_folder_loses_its_trailing_separators() {
    assert_eq!(folder_prefix(r"c:\games\demo\\"), r"c:\games\demo");
}

#[test]
fn a_network_is_written_in_one_way() {
    assert_eq!(normalize_ip_network("10.0.0.0/8").unwrap(), "10.0.0.0/8");
    assert!(normalize_ip_network("10.0.0.0/x").is_err());
    assert!(normalize_ip_network("2001:db8::/129").is_err());
    assert_eq!(
        normalize_ip_network("2001:DB8::/32").unwrap(),
        "2001:db8::/32"
    );
    assert!(check_hostname("").is_err());
    assert_eq!(check_hostname("*.example.org").unwrap(), "*.example.org");
}

#[test]
fn a_path_is_read_as_windows_reads_it() {
    let program = |path: &str| compile("split", &[rule("application", path)]).is_ok();
    let folder = |path: &str| compile("split", &[rule("folder", path)]).is_ok();
    assert!(program(r"\\server\share\game.exe"));
    assert!(program(r"\\.\pipe\game.exe"));
    assert!(program(r"C:\Games\game.exe\."));
    // What a prefix swallows is no name.
    assert!(!program(r"\\server\share.exe"));
    assert!(!program(r"\\?\UNC\server\share.exe"));
    assert!(!program(r"\\?\game.exe"));
    assert!(program(r"\\?\UNC\server\share\game.exe"));
    assert!(program(r"\\?\C:\Games\game.exe"));
    // A literal path keeps its dots and slashes.
    assert!(!program(r"\\?\C:\foo.exe\."));
    assert!(program(r"\\?\C:\Games/game.exe"));
    assert!(program(r"\\?\C:\game.exe\\"));
    assert!(folder(r"\\?\"));
    // With a slash in the prefix, the question mark is a server.
    assert!(!folder("//?/"));
    assert!(folder("//?/share"));
    assert!(!folder("C:Games"));
    assert!(!folder(r"\Games"));
}

#[test]
fn an_ascii_target_comes_out_in_ascii_lower_case() {
    let rules = [
        rule("hostname", "PLAY.Example.ORG."),
        rule("application", "C:/Games/GAME.Exe"),
    ];
    let plan = compile("split", &rules).unwrap();
    assert_eq!(plan.hostnames, ["play.example.org"]);
    assert_eq!(plan.application_paths, [r"c:\games\game.exe"]);
}
