use misfit_engine::environment::{expand_env_vars, Environment};
use misfit_engine::path::{
    declared_parts, has_parent_dir, normalize_parts, normalize_rel_path, resolve_path,
    sanitize_component_name, PathError, PathPart, RelativePath,
};

fn env() -> Environment {
    Environment {
        home: Some("/home/u".to_string()),
        vars: vec![
            ("APPDATA".to_string(), "/data".to_string()),
            ("X".to_string(), "1".to_string()),
            ("X".to_string(), "second".to_string()),
            ("LONG_name_9".to_string(), "v".to_string()),
        ],
    }
}

fn names(p: &RelativePath) -> Vec<&str> {
    p.segments.iter().map(|s| s.as_str()).collect()
}

#[test]
fn normalize_keeps_ordinary_names() {
    let p = normalize_rel_path("a/b/c.txt", false).unwrap();
    assert_eq!(names(&p), vec!["a", "b", "c.txt"]);
    assert_eq!(p.to_path_string(), "a/b/c.txt");
    assert!(!p.is_current());
}

#[test]
fn normalize_drops_current_dir_and_whitespace() {
    let p = normalize_rel_path("  ./a/./b/ \n", false).unwrap();
    assert_eq!(names(&p), vec!["a", "b"]);
    let q = normalize_rel_path("a//b", false).unwrap();
    assert_eq!(names(&q), vec!["a", "b"]);
}

#[test]
fn normalize_refuses_parent_dir_wherever_it_stands() {
    for path in ["..", "../a", "a/..", "a/../b", "a/b/c/../../d", "./..", "x/y/z/.."] {
        assert_eq!(
            normalize_rel_path(path, false).unwrap_err(),
            PathError::ParentDir,
            "{}",
            path
        );
        assert_eq!(
            normalize_rel_path(path, true).unwrap_err(),
            PathError::ParentDir,
            "{}",
            path
        );
    }
}

#[test]
fn normalize_refuses_rooted_paths() {
    assert_eq!(normalize_rel_path("/etc/passwd", false).unwrap_err(), PathError::NotRelative);
    assert_eq!(normalize_rel_path("/", true).unwrap_err(), PathError::NotRelative);
    assert_eq!(normalize_rel_path("/a/../b", true).unwrap_err(), PathError::NotRelative);
}

#[test]
fn normalize_empty_and_current() {
    assert_eq!(normalize_rel_path("", false).unwrap_err(), PathError::Empty);
    assert_eq!(normalize_rel_path("   ", false).unwrap_err(), PathError::Empty);
    assert_eq!(normalize_rel_path(".", false).unwrap_err(), PathError::CurrentDir);
    assert_eq!(normalize_rel_path("./.", false).unwrap_err(), PathError::CurrentDir);
    let here = normalize_rel_path("", true).unwrap();
    assert!(here.is_current());
    assert_eq!(here.to_path_string(), ".");
    let dot = normalize_rel_path(".", true).unwrap();
    assert!(dot.is_current());
    assert_eq!(dot.join_onto("/base"), "/base/.");
}

#[test]
fn normalize_parts_first_violation_counts() {
    let parts = vec![
        PathPart::Normal("a".to_string()),
        PathPart::RootDir,
        PathPart::ParentDir,
    ];
    assert_eq!(normalize_parts(&parts, true).unwrap_err(), PathError::NotRelative);
    let parts = vec![
        PathPart::CurDir,
        PathPart::ParentDir,
        PathPart::Prefix("C:".to_string()),
    ];
    assert_eq!(normalize_parts(&parts, true).unwrap_err(), PathError::ParentDir);
    let parts = vec![PathPart::Prefix("C:".to_string()), PathPart::Normal("x".to_string())];
    assert_eq!(normalize_parts(&parts, false).unwrap_err(), PathError::NotRelative);
    let parts = vec![PathPart::CurDir, PathPart::Normal("x".to_string()), PathPart::CurDir];
    assert_eq!(names(&normalize_parts(&parts, false).unwrap()), vec!["x"]);
    assert_eq!(normalize_parts(&vec![], false).unwrap_err(), PathError::CurrentDir);
    assert_eq!(normalize_parts(&vec![PathPart::CurDir], false).unwrap_err(), PathError::CurrentDir);
    assert!(normalize_parts(&vec![], true).unwrap().is_current());
}

#[test]
fn path_error_messages() {
    assert_eq!(PathError::Empty.message(), "Path cannot be empty");
    assert_eq!(PathError::CurrentDir.message(), "Path cannot be '.'");
    assert_eq!(PathError::ParentDir.message(), "Path cannot contain '..'");
    assert_eq!(PathError::NotRelative.message(), "Path must be relative");
}

#[test]
fn join_onto_base() {
    let p = normalize_rel_path("payload/hello.txt", false).unwrap();
    assert_eq!(p.join_onto("/work/app"), "/work/app/payload/hello.txt");
    assert_eq!(p.join_onto("rel"), "rel/payload/hello.txt");
}

#[test]
fn sanitize_replaces_unsafe_characters() {
    assert_eq!(sanitize_component_name("C:"), "C_");
    assert_eq!(sanitize_component_name("a b/c\\d"), "a_b_c_d");
    assert_eq!(sanitize_component_name("ok-name_1.0"), "ok-name_1.0");
    assert_eq!(sanitize_component_name("é✓"), "__");
    assert_eq!(sanitize_component_name(""), "_");
}

#[test]
fn sanitize_result_is_never_empty_and_always_safe() {
    for s in ["", " ", "\\\\server\\share", "日本語", "a\u{0}b", "...", "-", "A:Z"] {
        let out = sanitize_component_name(s);
        assert!(!out.is_empty());
        assert!(out
            .chars()
            .all(|c| c.is_ascii_alphanumeric() || c == '.' || c == '_' || c == '-'));
        assert_eq!(out.chars().count(), s.chars().count().max(1));
    }
}

#[test]
fn expand_home_prefix() {
    let e = env();
    assert_eq!(expand_env_vars("~", &e), "/home/u");
    assert_eq!(expand_env_vars("~/x", &e), "/home/u/x");
    assert_eq!(expand_env_vars("~\\x", &e), "/home/u\\x");
    assert_eq!(expand_env_vars("~user/x", &e), "~user/x");
    assert_eq!(expand_env_vars("a/~/x", &e), "a/~/x");
    let none = Environment { home: None, vars: vec![] };
    assert_eq!(expand_env_vars("~/x", &none), "~/x");
}

#[test]
fn expand_percent_references() {
    let e = env();
    assert_eq!(expand_env_vars("%APPDATA%/Code", &e), "/data/Code");
    assert_eq!(expand_env_vars("%NOPE%/x", &e), "%NOPE%/x");
    assert_eq!(expand_env_vars("%%", &e), "%%");
    assert_eq!(expand_env_vars("100%", &e), "100%");
    assert_eq!(expand_env_vars("a%X%b%X%", &e), "a1b1");
    assert_eq!(expand_env_vars("%a$X%", &e), "%a$X%");
    assert_eq!(expand_env_vars("%%X%", &e), "%1");
}

#[test]
fn expand_dollar_references() {
    let e = env();
    assert_eq!(expand_env_vars("${X}y", &e), "1y");
    assert_eq!(expand_env_vars("${NOPE}y", &e), "${NOPE}y");
    assert_eq!(expand_env_vars("${}", &e), "${}");
    assert_eq!(expand_env_vars("${X", &e), "${X");
    assert_eq!(expand_env_vars("$X/y", &e), "1/y");
    assert_eq!(expand_env_vars("$NOPE/y", &e), "$NOPE/y");
    assert_eq!(expand_env_vars("$", &e), "$");
    assert_eq!(expand_env_vars("$-", &e), "$-");
    assert_eq!(expand_env_vars("$LONG_name_9.x", &e), "v.x");
    assert_eq!(expand_env_vars("$Xé", &e), "1é");
    assert_eq!(expand_env_vars("$$X", &e), "$1");
}

#[test]
fn expand_first_definition_counts() {
    let e = env();
    assert_eq!(e.get("X").map(|s| s.as_str()), Some("1"));
    assert_eq!(e.get("NOPE"), None);
    assert_eq!(expand_env_vars("%X%", &e), "1");
}

#[test]
fn expand_does_not_expand_what_it_inserted() {
    let e = Environment {
        home: Some("$B".to_string()),
        vars: vec![
            ("A".to_string(), "%B%".to_string()),
            ("B".to_string(), "deep".to_string()),
        ],
    };
    assert_eq!(expand_env_vars("%A%", &e), "%B%");
    assert_eq!(expand_env_vars("~/$A", &e), "$B/%B%");
}

#[test]
fn expand_leaves_plain_text_alone() {
    assert_eq!(expand_env_vars("", &env()), "");
    assert_eq!(expand_env_vars("out/hello.txt", &env()), "out/hello.txt");
    assert_eq!(Environment::empty().vars.len(), 0);
    assert_eq!(expand_env_vars("%X%", &Environment::empty()), "%X%");
}

#[test]
fn resolve_joins_relative_and_keeps_absolute() {
    let e = env();
    assert_eq!(resolve_path("/work/app", "out/hello.txt", &e), "/work/app/out/hello.txt");
    assert_eq!(resolve_path("/work/app", "/etc/x", &e), "/etc/x");
    assert_eq!(resolve_path("/work/app", "~/cfg.json", &e), "/home/u/cfg.json");
    assert_eq!(resolve_path("/work/app", "%APPDATA%/c.json", &e), "/data/c.json");
    assert_eq!(resolve_path("/work/app", "%NOPE%/c.json", &e), "/work/app/%NOPE%/c.json");
    assert_eq!(resolve_path("/work/app", "", &e), "/work/app/");
}

#[test]
fn expand_with_nothing_defined_is_verbatim() {
    let none = Environment::empty();
    for s in ["", "~", "~/x", "%A%", "${A}/$B", "100% $", "%%", "a%b%c${d}e$f_1"] {
        assert_eq!(expand_env_vars(s, &none), s);
    }
}

#[test]
fn blank_path_is_decided_without_components() {
    assert_eq!(declared_parts(""), None);
    assert_eq!(declared_parts(" \t\n"), None);
    assert_eq!(
        declared_parts(" a/../b "),
        Some(vec![
            PathPart::Normal("a".to_string()),
            PathPart::ParentDir,
            PathPart::Normal("b".to_string()),
        ])
    );
    assert!(has_parent_dir(&declared_parts("a/../b").unwrap()));
    assert!(!has_parent_dir(&declared_parts("a/b").unwrap()));
    assert!(!has_parent_dir(&vec![]));
}
