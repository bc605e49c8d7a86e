use herdr_mirror::bytes::{join, paths_equal};
use herdr_mirror::cwd_policy::{
    config_source, fixed_path, fixed_path_in, inherit, parse, path_from_help, path_from_output,
    policy_of, remote_command, same_path, ConfigSource, Policy, Setting, READER,
};
use herdr_mirror::text;
use std::path::Path;

#[test]
fn parses_policies_without_treating_current_as_follow() {
    for (text, expected) in [
        ("", Some(Policy::Follow)),
        ("[terminal]\nnew_cwd = ' follow '", Some(Policy::Follow)),
        ("[terminal]\nnew_cwd = ''", Some(Policy::Follow)),
        ("[terminal]\nnew_cwd = 'home'", Some(Policy::Home)),
        ("[terminal]\nnew_cwd = 'current'", Some(Policy::Current)),
        ("[terminal]\nnew_cwd = '~'", Some(Policy::Path("~".into()))),
        ("[terminal]\nnew_cwd = 2", None),
        ("[broken", None),
    ] {
        assert_eq!(parse(text), expected, "{text}");
    }
}

#[test]
fn expands_only_resolvable_fixed_paths() {
    let home = "/home/person".as_bytes();
    for (policy, expected) in [
        (Policy::Home, Some("/home/person")),
        (Policy::Path("~".into()), Some("/home/person")),
        (Policy::Path("~/projects".into()), Some("/home/person/projects")),
        (Policy::Path("/projects".into()), Some("/projects")),
        (Policy::Path("relative".into()), None),
        (Policy::Follow, None),
        (Policy::Current, None),
    ] {
        assert_eq!(fixed_path(&policy, home), expected.map(|p| p.as_bytes().to_vec()));
    }
}

#[test]
fn only_fixed_policy_changes_tab_and_workspace_inheritance() {
    for kind in ["tab", "workspace", "split"] {
        assert!(inherit(kind, None));
        assert!(inherit(kind, Some(&Policy::Follow)));
        for policy in [Policy::Home, Policy::Current, Policy::Path("/projects".into())] {
            assert_eq!(inherit(kind, Some(&policy)), kind == "split");
        }
    }
}

#[test]
fn reads_the_binarys_reported_config_path() {
    assert_eq!(
        path_from_help("Usage: herdr\nConfig: /tmp/herdr-dev/config.toml\nLogs: elsewhere"),
        Some("/tmp/herdr-dev/config.toml".into())
    );
    assert_eq!(path_from_help("Config: relative/config.toml"), None);
    assert_eq!(path_from_help("no config path"), None);
}

#[test]
fn reads_odd_documents() {
    assert_eq!(parse("terminal = 3"), None);
    assert_eq!(parse("[terminal]\nother = 1"), Some(Policy::Follow));
    assert_eq!(parse("new_cwd = 'home'"), Some(Policy::Follow));
    assert_eq!(parse("[terminal]\nnew_cwd = [\"home\"]"), None);
    assert_eq!(parse("[terminal]\nnew_cwd = \" /a b \""), Some(Policy::Path(" /a b ".into())));
    assert_eq!(parse("[terminal]\nnew_cwd = \"\\u00a0home\\t\""), Some(Policy::Home));
}

#[test]
fn settings_name_policies() {
    assert_eq!(policy_of(&Setting::Unset), Some(Policy::Follow));
    assert_eq!(policy_of(&Setting::Unreadable), None);
    assert_eq!(policy_of(&Setting::Text("  ".into())), Some(Policy::Follow));
    assert_eq!(policy_of(&Setting::Text("Home".into())), Some(Policy::Path("Home".into())));
    assert_eq!(policy_of(&Setting::Text("\ncurrent".into())), Some(Policy::Current));
}

#[test]
fn trims_what_the_standard_library_trims() {
    for n in 0..=0x10ffffu32 {
        if let Some(c) = char::from_u32(n) {
            assert_eq!(text::white_space(c), c.is_whitespace(), "{n:x}");
        }
    }
    for s in ["", " ", "a", " a", "a ", "\u{3000}a b\u{2028}", "\t\n", "é "] {
        assert_eq!(text::trim(s), s.trim());
    }
}

#[test]
fn joins_as_the_standard_library_joins() {
    for home in ["/home/person", "/home/person/", "/", ""] {
        for rest in ["", "a", "a/b", "/etc", "./x", "../x"] {
            assert_eq!(
                join(home.as_bytes(), rest.as_bytes()),
                Path::new(home).join(rest).to_str().unwrap().as_bytes().to_vec()
            );
        }
    }
    assert_eq!(
        fixed_path(&Policy::Path("~//etc".into()), b"/home/person"),
        Some(b"/etc".to_vec())
    );
    assert_eq!(
        fixed_path(&Policy::Path("~/".into()), b"/home/person"),
        Some(b"/home/person/".to_vec())
    );
    assert_eq!(fixed_path(&Policy::Path("~user".into()), b"/home/person"), None);
    assert_eq!(fixed_path(&Policy::Home, b"relative"), None);
    assert_eq!(fixed_path(&Policy::Home, b"/h\xff"), Some(b"/h\xff".to_vec()));
}

#[test]
fn compares_paths_as_the_standard_library_does() {
    let paths = [
        "", "/", ".", "./", "..", "/.", "//", "a", "./a", "a/", "a/.", "a//b", "a/b", "/a", "/a/",
        "//a", "/./a", "/a/./b", "/a/b", "/a/../b", "a/../b", "./.", "././a", ".a", "a.",
    ];
    for a in paths {
        for b in paths {
            assert_eq!(
                paths_equal(a.as_bytes(), b.as_bytes()),
                Path::new(a) == Path::new(b),
                "{a:?} {b:?}"
            );
        }
    }
}

#[test]
fn same_path_goes_by_what_paths_resolve_to() {
    assert!(same_path(b"/a/b", b"/a//b/", None, None));
    assert!(!same_path(b"/a", b"/b", None, None));
    assert!(same_path(b"/a", b"/b", Some(b"/real"), Some(b"/real/")));
    assert!(!same_path(b"/a", b"/b", Some(b"/real"), None));
    assert!(!same_path(b"/a", b"/b", None, Some(b"/real")));
    assert!(!same_path(b"/a", b"/b", Some(b"/x"), Some(b"/y")));
}

#[test]
fn help_lines_end_as_lines_do() {
    for (help, expected) in [
        ("Config: /a\r\n", Some("/a")),
        ("Config: /a\r", Some("/a\r")),
        ("\nConfig: /a\n\n", Some("/a")),
        (" Config: /a", None),
        ("Config: b\nConfig: /a", None),
        ("Config: ", None),
        ("Config:", None),
        ("", None),
        ("x\r\nConfig: /ü/é\r\ny", Some("/ü/é")),
    ] {
        assert_eq!(path_from_help(help), expected.map(String::from), "{help:?}");
        let std = help.lines().find_map(|l| l.strip_prefix("Config: "));
        let std = std.filter(|p| Path::new(p).is_absolute());
        assert_eq!(expected, std);
    }
}

#[test]
fn only_a_successful_run_that_printed_text_counts() {
    assert_eq!(path_from_output(true, b"Config: /a\n"), Some("/a".into()));
    assert_eq!(path_from_output(false, b"Config: /a\n"), None);
    assert_eq!(path_from_output(true, b"Config: /a\n\xff"), None);
}

#[test]
fn the_environment_names_the_configuration() {
    assert_eq!(config_source(Some(b"c"), Some(b"b")), ConfigSource::File(b"c".to_vec()));
    assert_eq!(config_source(Some(b""), Some(b"b")), ConfigSource::Binary(b"b".to_vec()));
    assert_eq!(config_source(None, Some(b"b")), ConfigSource::Binary(b"b".to_vec()));
    assert_eq!(config_source(None, Some(b"")), ConfigSource::Unknown);
    assert_eq!(config_source(None, None), ConfigSource::Unknown);
}

#[test]
fn a_configuration_fixes_a_directory_or_not() {
    assert_eq!(fixed_path_in("[terminal]\nnew_cwd = '~/p'", b"/h"), Some(b"/h/p".to_vec()));
    assert_eq!(fixed_path_in("[terminal]\nnew_cwd = 'current'", b"/h"), None);
    assert_eq!(fixed_path_in("", b"/h"), None);
    assert_eq!(fixed_path_in("[broken", b"/h"), None);
}

#[test]
fn the_remote_command_pipes_the_path_as_data() {
    assert_eq!(
        remote_command("herdr", "'x'"),
        "herdr --help | sed -n 's/^Config: //p' | sh -c 'x'"
    );
    assert_eq!(READER.lines().count(), 3);
    assert!(READER.starts_with("IFS= read -r config || exit 1\n"));
}

#[test]
fn an_unreadable_configuration_inherits() {
    for kind in ["tab", "workspace", "split"] {
        assert!(inherit(kind, parse("[broken").as_ref()));
        assert!(inherit(kind, parse("[terminal]\nnew_cwd = 2").as_ref()));
    }
}
