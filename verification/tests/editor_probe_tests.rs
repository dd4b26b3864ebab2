use repo_sync::editors::{
    bundle_candidates, cli_path_from, confine, confine_to_root, first_icns, icon_file_name,
};

fn texts(v: &[&str]) -> Vec<String> {
    v.iter().map(|s| s.to_string()).collect()
}

#[test]
fn cli_path_is_the_first_line_trimmed() {
    assert_eq!(cli_path_from(true, "/usr/bin/code\n/opt/code\n"), Some("/usr/bin/code".to_string()));
    assert_eq!(cli_path_from(true, "  C:\\Tools\\code.cmd \r\nC:\\x\r\n"), Some("C:\\Tools\\code.cmd".to_string()));
    assert_eq!(cli_path_from(false, "/usr/bin/code\n"), None);
    assert_eq!(cli_path_from(true, ""), None);
    assert_eq!(cli_path_from(true, "   \n/usr/bin/code\n"), None);
}

#[test]
fn icon_file_named_by_the_bundle() {
    assert_eq!(icon_file_name(true, "AppIcon\n"), Some("AppIcon.icns".to_string()));
    assert_eq!(icon_file_name(true, "  Code.icns \n"), Some("Code.icns".to_string()));
    assert_eq!(icon_file_name(true, " \n"), None);
    assert_eq!(icon_file_name(false, "AppIcon\n"), None);
}

#[test]
fn first_icns_in_sorted_order() {
    let names = texts(&["b.icns", "Info.plist", "a.icns", "c.png", ".icns", "Z.ICNS"]);
    assert_eq!(first_icns(&names), Some("a.icns".to_string()));
    let names = texts(&["b.icns", "..icns"]);
    assert_eq!(first_icns(&names), Some("..icns".to_string()));
    let names = texts(&["B.icns", "a.icns"]);
    assert_eq!(first_icns(&names), Some("B.icns".to_string()));
    assert_eq!(first_icns(&texts(&[".icns", "x.png"])), None);
    assert_eq!(first_icns(&Vec::new()), None);
}

#[test]
fn bundles_are_looked_for_in_applications_then_home() {
    assert_eq!(bundle_candidates("Zed", None), texts(&["/Applications/Zed.app"]));
    let c = bundle_candidates("Visual Studio Code", Some("/Users/me".to_string()));
    assert_eq!(c.len(), 2);
    assert_eq!(c[0], "/Applications/Visual Studio Code.app");
    assert_eq!(c[1], "/Users/me/Applications/Visual Studio Code.app");
}

#[test]
fn open_requests_are_confined_to_the_root() {
    assert_eq!(
        confine(Err("permission denied".to_string()), None, "/r/a", false),
        Err("bad root: permission denied".to_string())
    );
    assert_eq!(
        confine(Ok("/r".to_string()), None, "/r/missing", true),
        Err("path does not exist: /r/missing".to_string())
    );
    assert_eq!(confine(Ok("/r".to_string()), Some("/r/a".to_string()), "a", true), Ok("/r/a".to_string()));
    assert_eq!(
        confine(Ok("/r".to_string()), Some("/etc".to_string()), "/etc", false),
        Err("path is outside the configured root folder".to_string())
    );
}

#[test]
fn root_prefix_is_by_whole_components() {
    let root = || Ok("/home/me/code".to_string());
    assert_eq!(
        confine_to_root(root(), Some("/home/me/code/svc/api".to_string()), "svc/api"),
        Ok("/home/me/code/svc/api".to_string())
    );
    assert_eq!(
        confine_to_root(root(), Some("/home/me/code-other/x".to_string()), "../code-other/x"),
        Err("path is outside the configured root folder".to_string())
    );
    assert_eq!(
        confine_to_root(root(), Some("/etc/passwd".to_string()), "/etc/passwd"),
        Err("path is outside the configured root folder".to_string())
    );
    assert_eq!(
        confine_to_root(root(), None, "/nope"),
        Err("path does not exist: /nope".to_string())
    );
}
