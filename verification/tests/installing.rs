use misfit_engine::environment::Environment;
use misfit_engine::install::{
    advance, backup_targets, check_target, next_state, payload_source, pending_action, plan_step,
    InstallAction, InstallContext, InstallError, InstallState, StepAction,
};
use misfit_engine::json::{set_json_value, JsonValue};
use misfit_engine::manifest::{InstallManifest, InstallStep};
use misfit_engine::path::PathError;

fn ctx() -> InstallContext {
    InstallContext {
        manifest_dir: "/work/app".to_string(),
        backup_base: "/docs/MisfitBackups".to_string(),
        env: Environment {
            home: Some("/home/u".to_string()),
            vars: vec![("APPDATA".to_string(), "/data".to_string())],
        },
    }
}

fn manifest(steps: Vec<InstallStep>) -> InstallManifest {
    InstallManifest {
        app_name: "My App".to_string(),
        version: "1.0".to_string(),
        publisher: "P".to_string(),
        description: "D".to_string(),
        logo_path: None,
        advanced_mode: None,
        targets: vec!["windows".to_string()],
        payload_dir: "payload".to_string(),
        install_steps: steps,
    }
}

fn copy(src: &str, dest: &str) -> InstallStep {
    InstallStep::Copy { src: src.to_string(), dest: dest.to_string() }
}

fn set_json(file: &str, key_path: &str, n: i64) -> InstallStep {
    InstallStep::SetJsonValue {
        file: file.to_string(),
        key_path: key_path.to_string(),
        value: JsonValue::Number(serde_json::Number::from(n)),
    }
}

fn patch(file: &str, content_file: Option<&str>) -> InstallStep {
    InstallStep::PatchBlock {
        file: file.to_string(),
        start_marker: "<s>".to_string(),
        end_marker: "<e>".to_string(),
        content_file: content_file.map(|s| s.to_string()),
        replacements: Some(vec![("{{A}}".to_string(), "a".to_string())]),
    }
}

fn embed(file: &str, input: &str) -> InstallStep {
    InstallStep::Base64Embed {
        file: file.to_string(),
        placeholder: "{{DATA}}".to_string(),
        input_file: input.to_string(),
    }
}

fn run(cmd: &str) -> InstallStep {
    InstallStep::RunCommand { command: cmd.to_string(), args: vec!["-x".to_string()] }
}

#[test]
fn target_check() {
    assert_eq!(check_target("out/hello.txt", false), None);
    assert_eq!(check_target("~/cfg.json", false), None);
    assert_eq!(check_target("%APPDATA%/cfg.json", false), None);
    assert_eq!(check_target("../x", false), Some(PathError::ParentDir));
    assert_eq!(check_target("a/../../x", true), Some(PathError::ParentDir));
    assert_eq!(check_target("/etc/x", false), Some(PathError::NotRelative));
    assert_eq!(check_target("/etc/x", true), None);
    assert_eq!(check_target("/etc/../x", true), Some(PathError::ParentDir));
    assert_eq!(check_target("/etc/../x", false), Some(PathError::NotRelative));
    assert_eq!(check_target("/..", true), Some(PathError::ParentDir));
    assert_eq!(check_target("", false), Some(PathError::Empty));
    assert_eq!(check_target(".", true), Some(PathError::CurrentDir));
}

#[test]
fn plan_copy_step() {
    let c = ctx();
    match plan_step(&copy("hello.txt", "out/hello.txt"), &c, "/work/app/payload", false).unwrap() {
        StepAction::Copy { source, dest } => {
            assert_eq!(source, "/work/app/payload/hello.txt");
            assert_eq!(dest, "/work/app/out/hello.txt");
        }
        other => panic!("{:?}", other),
    }
    match plan_step(&copy("./sub/../x", "out"), &c, "/p", false).unwrap_err() {
        InstallError::PathViolation { path, error } => {
            assert_eq!(path, "./sub/../x");
            assert_eq!(error, PathError::ParentDir);
        }
        other => panic!("{:?}", other),
    }
    match plan_step(&copy("/abs", "../out"), &c, "/p", true).unwrap_err() {
        InstallError::PathViolation { path, error } => {
            assert_eq!(path, "/abs");
            assert_eq!(error, PathError::NotRelative);
        }
        other => panic!("{:?}", other),
    }
    match plan_step(&copy("x", "../out"), &c, "/p", true).unwrap_err() {
        InstallError::PathViolation { path, error } => {
            assert_eq!(path, "../out");
            assert_eq!(error, PathError::ParentDir);
        }
        other => panic!("{:?}", other),
    }
    match plan_step(&copy("x", "~/out"), &c, "/p", false).unwrap() {
        StepAction::Copy { dest, .. } => assert_eq!(dest, "/home/u/out"),
        other => panic!("{:?}", other),
    }
}

#[test]
fn plan_patch_step() {
    let c = ctx();
    match plan_step(&patch("cfg/a.txt", Some("blocks/a.txt")), &c, "/p", true).unwrap() {
        StepAction::Patch {
            target,
            content_file,
            start_marker,
            end_marker,
            replacements,
            strip_markers,
        } => {
            assert_eq!(target, "/work/app/cfg/a.txt");
            assert_eq!(content_file, "/p/blocks/a.txt");
            assert_eq!(start_marker, "<s>");
            assert_eq!(end_marker, "<e>");
            assert_eq!(replacements, vec![("{{A}}".to_string(), "a".to_string())]);
            assert!(strip_markers);
        }
        other => panic!("{:?}", other),
    }
    match plan_step(&patch("cfg/a.txt", Some("b")), &c, "/p", false).unwrap() {
        StepAction::Patch { strip_markers, .. } => assert!(!strip_markers),
        other => panic!("{:?}", other),
    }
    let err = plan_step(&patch("cfg/a.txt", None), &c, "/p", false).unwrap_err();
    assert_eq!(err, InstallError::MissingContentFile { file: "cfg/a.txt".to_string() });
    assert_eq!(err.message(), "PatchBlock requires contentFile: cfg/a.txt");
    let err = plan_step(&patch("../a.txt", None), &c, "/p", false).unwrap_err();
    assert_eq!(
        err,
        InstallError::PathViolation { path: "../a.txt".to_string(), error: PathError::ParentDir }
    );
    assert_eq!(err.message(), "Path cannot contain '..': ../a.txt");
    let err = plan_step(&patch("a.txt", Some("")), &c, "/p", false).unwrap_err();
    assert_eq!(
        err,
        InstallError::PathViolation { path: "".to_string(), error: PathError::Empty }
    );
}

#[test]
fn plan_other_steps() {
    let c = ctx();
    match plan_step(&set_json("config.json", "a.b", 42), &c, "/p", false).unwrap() {
        StepAction::SetJson { target, key_path, value } => {
            assert_eq!(target, "/work/app/config.json");
            assert_eq!(key_path, "a.b");
            assert_eq!(value, JsonValue::Number(serde_json::Number::from(42)));
        }
        other => panic!("{:?}", other),
    }
    match plan_step(&run("tool"), &c, "/p", false).unwrap() {
        StepAction::Run { command, args } => {
            assert_eq!(command, "tool");
            assert_eq!(args, vec!["-x"]);
        }
        other => panic!("{:?}", other),
    }
    match plan_step(&embed("page.html", "img/logo.png"), &c, "/p", false).unwrap() {
        StepAction::Embed { target, placeholder, input_file } => {
            assert_eq!(target, "/work/app/page.html");
            assert_eq!(placeholder, "{{DATA}}");
            assert_eq!(input_file, "/p/img/logo.png");
        }
        other => panic!("{:?}", other),
    }
    assert!(plan_step(&embed("page.html", "../logo.png"), &c, "/p", false).is_err());
    assert!(plan_step(&embed("/page.html", "logo.png"), &c, "/p", false).is_err());
    assert!(plan_step(&embed("/page.html", "logo.png"), &c, "/p", true).is_ok());
}

#[test]
fn backup_targets_are_sorted_and_unique() {
    let steps = vec![
        copy("a", "z/copied"),
        set_json("z.json", "k", 1),
        patch("b.txt", Some("c")),
        run("tool"),
        embed("m.html", "i"),
        set_json("./z.json", "k2", 2),
        set_json("z.json", "k3", 3),
        patch("%APPDATA%/b.txt", None),
        embed("../escape", "i"),
        set_json("/abs.json", "k", 1),
    ];
    let paths = backup_targets(&steps, &ctx(), false);
    assert_eq!(
        paths,
        vec![
            "/data/b.txt",
            "/work/app/./z.json",
            "/work/app/b.txt",
            "/work/app/m.html",
            "/work/app/z.json",
        ]
    );
    let advanced = backup_targets(&steps, &ctx(), true);
    assert_eq!(
        advanced,
        vec![
            "/abs.json",
            "/data/b.txt",
            "/work/app/./z.json",
            "/work/app/b.txt",
            "/work/app/m.html",
            "/work/app/z.json",
        ]
    );
    assert!(backup_targets(&vec![copy("a", "b"), run("x")], &ctx(), false).is_empty());
}

#[test]
fn states_follow_one_another() {
    assert_eq!(next_state(InstallState::NotStarted, true, 2), InstallState::PayloadResolved);
    assert_eq!(next_state(InstallState::PayloadResolved, true, 2), InstallState::BackedUp);
    assert_eq!(next_state(InstallState::BackedUp, true, 2), InstallState::Executing(0));
    assert_eq!(next_state(InstallState::Executing(0), true, 2), InstallState::Executing(1));
    assert_eq!(next_state(InstallState::Executing(1), true, 2), InstallState::Completed);
    assert_eq!(next_state(InstallState::BackedUp, true, 0), InstallState::Completed);
    assert_eq!(next_state(InstallState::Executing(usize::MAX), true, usize::MAX), InstallState::Completed);
    for s in [InstallState::NotStarted, InstallState::PayloadResolved, InstallState::BackedUp, InstallState::Executing(0), InstallState::Executing(1)] {
        assert_eq!(next_state(s, false, 2), InstallState::Failed);
    }
    for ok in [true, false] {
        assert_eq!(next_state(InstallState::Completed, ok, 2), InstallState::Completed);
        assert_eq!(next_state(InstallState::Failed, ok, 2), InstallState::Failed);
    }
}

#[test]
fn payload_source_of_manifest() {
    let mut m = manifest(vec![]);
    assert_eq!(payload_source(&m, &ctx()).unwrap(), "/work/app/payload");
    m.payload_dir = "".to_string();
    assert_eq!(payload_source(&m, &ctx()).unwrap(), "/work/app/.");
    m.payload_dir = "../outside".to_string();
    assert_eq!(
        payload_source(&m, &ctx()).unwrap_err(),
        InstallError::PathViolation {
            path: "../outside".to_string(),
            error: PathError::ParentDir
        }
    );
    m.payload_dir = "/abs".to_string();
    assert!(payload_source(&m, &ctx()).is_err());
    match pending_action(&m, &ctx(), InstallState::NotStarted) {
        InstallAction::Abort(InstallError::PathViolation { error, .. }) => {
            assert_eq!(error, PathError::NotRelative)
        }
        other => panic!("{:?}", other),
    }
}

#[test]
fn run_with_copy_and_json_steps() {
    let m = manifest(vec![copy("hello.txt", "out/hello.txt"), set_json("config.json", "a.b", 42)]);
    let c = ctx();
    match pending_action(&m, &c, InstallState::NotStarted) {
        InstallAction::CheckPayload { path } => assert_eq!(path, "/work/app/payload"),
        other => panic!("{:?}", other),
    }
    let (state, action) = advance(&m, &c, InstallState::NotStarted, true);
    assert_eq!(state, InstallState::PayloadResolved);
    match action {
        InstallAction::Backup { paths, backup_root } => {
            assert_eq!(paths, vec!["/work/app/config.json"]);
            assert_eq!(backup_root, "/docs/MisfitBackups/My_App");
        }
        other => panic!("{:?}", other),
    }
    let (state, action) = advance(&m, &c, state, true);
    assert_eq!(state, InstallState::BackedUp);
    assert!(matches!(action, InstallAction::Proceed));
    let (state, action) = advance(&m, &c, state, true);
    assert_eq!(state, InstallState::Executing(0));
    match action {
        InstallAction::Execute { index, action: StepAction::Copy { source, dest } } => {
            assert_eq!(index, 0);
            assert_eq!(source, "/work/app/payload/hello.txt");
            assert_eq!(dest, "/work/app/out/hello.txt");
        }
        other => panic!("{:?}", other),
    }
    let (state, action) = advance(&m, &c, state, true);
    assert_eq!(state, InstallState::Executing(1));
    match action {
        InstallAction::Execute { index, action: StepAction::SetJson { target, key_path, value } } => {
            assert_eq!(index, 1);
            assert_eq!(target, "/work/app/config.json");
            let written = set_json_value(None, &key_path, value).unwrap();
            let compact: String = written.chars().filter(|c| !c.is_whitespace()).collect();
            assert_eq!(compact, "{\"a\":{\"b\":42}}");
        }
        other => panic!("{:?}", other),
    }
    let (state, action) = advance(&m, &c, state, true);
    assert_eq!(state, InstallState::Completed);
    assert!(matches!(action, InstallAction::Halt));
}

#[test]
fn run_without_targets_skips_the_backup() {
    let m = manifest(vec![copy("a", "b"), run("tool")]);
    let (state, action) = advance(&m, &ctx(), InstallState::NotStarted, true);
    assert_eq!(state, InstallState::PayloadResolved);
    assert!(matches!(action, InstallAction::Proceed));
}

#[test]
fn run_stops_at_the_first_failure() {
    let m = manifest(vec![copy("a", "b"), run("tool"), copy("c", "d")]);
    let c = ctx();
    let (state, action) = advance(&m, &c, InstallState::NotStarted, false);
    assert_eq!(state, InstallState::Failed);
    match action {
        InstallAction::Abort(e) => {
            assert_eq!(e, InstallError::PayloadMissing { path: "/work/app/payload".to_string() });
            assert_eq!(e.message(), "Payload directory not found: /work/app/payload");
        }
        other => panic!("{:?}", other),
    }
    let (state, action) = advance(&m, &c, InstallState::PayloadResolved, false);
    assert_eq!(state, InstallState::Failed);
    assert!(matches!(action, InstallAction::Halt));
    let (state, action) = advance(&m, &c, InstallState::Executing(1), false);
    assert_eq!(state, InstallState::Failed);
    assert!(matches!(action, InstallAction::Halt));
    let (state, action) = advance(&m, &c, state, true);
    assert_eq!(state, InstallState::Failed);
    assert!(matches!(action, InstallAction::Halt));
}

#[test]
fn run_aborts_at_a_refused_path() {
    let m = manifest(vec![copy("a", "b"), copy("../c", "d")]);
    let c = ctx();
    let (state, action) = advance(&m, &c, InstallState::Executing(0), true);
    assert_eq!(state, InstallState::Executing(1));
    match action {
        InstallAction::Abort(e) => assert_eq!(
            e,
            InstallError::PathViolation { path: "../c".to_string(), error: PathError::ParentDir }
        ),
        other => panic!("{:?}", other),
    }
    assert_eq!(next_state(state, false, 2), InstallState::Failed);
}

#[test]
fn run_of_empty_manifest_completes() {
    let m = manifest(vec![]);
    let c = ctx();
    let mut state = InstallState::NotStarted;
    let mut rounds = 0;
    while state != InstallState::Completed {
        let (next, _) = advance(&m, &c, state, true);
        state = next;
        rounds += 1;
        assert!(rounds <= 3);
    }
    assert_eq!(rounds, 3);
}

#[test]
fn run_passes_every_step_in_order() {
    let steps: Vec<InstallStep> = (0..5).map(|i| run(&format!("tool{}", i))).collect();
    let m = manifest(steps);
    let c = ctx();
    let mut state = InstallState::NotStarted;
    let mut seen = Vec::new();
    loop {
        match pending_action(&m, &c, state) {
            InstallAction::Halt => break,
            InstallAction::Execute { index, action: StepAction::Run { command, .. } } => {
                seen.push((index, command))
            }
            _ => {}
        }
        state = next_state(state, true, m.install_steps.len());
    }
    assert_eq!(state, InstallState::Completed);
    let expected: Vec<(usize, String)> = (0..5).map(|i| (i, format!("tool{}", i))).collect();
    assert_eq!(seen, expected);
}

#[test]
fn error_messages() {
    assert_eq!(
        InstallError::PayloadMissing { path: "/p".to_string() }.message(),
        "Payload directory not found: /p"
    );
    assert_eq!(
        InstallError::PathViolation { path: "/x".to_string(), error: PathError::NotRelative }
            .message(),
        "Path must be relative: /x"
    );
}

#[test]
fn advanced_flag_of_manifest() {
    let mut m = manifest(vec![]);
    assert!(!m.advanced());
    m.advanced_mode = Some(false);
    assert!(!m.advanced());
    m.advanced_mode = Some(true);
    assert!(m.advanced());
    match advance(&manifest_with(patch("a", Some("b")), true), &ctx(), InstallState::BackedUp, true) {
        (InstallState::Executing(0), InstallAction::Execute { action: StepAction::Patch { strip_markers, .. }, .. }) => {
            assert!(strip_markers)
        }
        other => panic!("{:?}", other),
    }
}

fn manifest_with(step: InstallStep, advanced: bool) -> InstallManifest {
    let mut m = manifest(vec![step]);
    m.advanced_mode = Some(advanced);
    m
}

#[test]
fn step_with_parent_dir_is_never_planned() {
    let c = ctx();
    let escaping = vec![
        copy("../a", "b"),
        copy("a", "b/../../c"),
        copy("a", "/abs/../c"),
        patch("../t", Some("c")),
        patch("t", Some("c/..")),
        set_json("x/../../y.json", "k", 1),
        embed("/p/../q", "i"),
        embed("p", "i/../../j"),
    ];
    for step in &escaping {
        for advanced in [false, true] {
            assert!(plan_step(step, &c, "/p", advanced).is_err(), "{:?}", step);
        }
    }
}
