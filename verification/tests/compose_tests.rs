use mycel::compose::generate::{generate, ready_check_script, validate, ComposeError, ReadyProblem};
use mycel::compose::schema::{counts, default_type, Cmd, Service};

fn svc(name: &str, kind: &str) -> Service {
    Service {
        name: name.to_string(),
        kind: kind.to_string(),
        exec_cmd: None,
        setup: vec![],
        user: None,
        finish: None,
        run: None,
        ready: None,
        log: false,
        up: None,
        down: None,
        contents: vec![],
        needs: vec![],
        bundles: vec![],
        dbus_name: None,
        polkit_allow: None,
    }
}

fn file<'a>(g: &'a mycel::compose::generate::Generated, path: &str) -> Option<&'a mycel::compose::generate::OutFile> {
    g.files.iter().find(|f| f.path == path)
}

#[test]
fn render_single_command_keeps_it_verbatim() {
    assert_eq!(Cmd::One("udevadm settle".to_string()).render(), "udevadm settle\n");
}

#[test]
fn render_command_list_escapes_quotes_and_backslashes() {
    let c = Cmd::Many(vec!["echo \"hi\"".to_string(), "a\\b".to_string()]);
    assert_eq!(c.render(), "/bin/sh -c \"\necho \\\"hi\\\"\na\\\\b\n\"\n");
}

#[test]
fn default_kind_is_longrun() {
    assert_eq!(default_type(), "longrun");
}

#[test]
fn service_kind_predicates() {
    assert!(svc("a", "bundle").is_bundle());
    assert!(svc("a", "oneshot").is_oneshot());
    assert!(svc("a", "longrun").is_longrun());
    assert!(!svc("a", "longrun").is_bundle());
}

#[test]
fn counts_by_kind() {
    let v = vec![svc("a", "longrun"), svc("b", "oneshot"), svc("c", "longrun"), svc("d", "bundle")];
    assert_eq!(counts(&v), (2, 1, 1));
}

#[test]
fn validate_accepts_resolved_references() {
    let mut a = svc("a", "longrun");
    a.needs = vec!["b".to_string()];
    a.bundles = vec!["default".to_string()];
    let b = svc("b", "longrun");
    let mut d = svc("default", "bundle");
    d.contents = vec!["a".to_string()];
    assert_eq!(validate(&vec![a, b, d]), Ok(()));
}

#[test]
fn validate_reports_the_first_unknown_dependency() {
    let mut a = svc("a", "longrun");
    a.needs = vec!["b".to_string(), "nope".to_string()];
    let b = svc("b", "longrun");
    assert_eq!(validate(&vec![a, b]), Err(ComposeError::UnknownDependency { service: 0, index: 1 }));
}

#[test]
fn validate_reports_unknown_member_and_bundle() {
    let mut d = svc("d", "bundle");
    d.contents = vec!["ghost".to_string()];
    assert_eq!(validate(&vec![d]), Err(ComposeError::UnknownMember { service: 0, index: 0 }));
    let mut a = svc("a", "longrun");
    a.bundles = vec!["nobundle".to_string()];
    assert_eq!(validate(&vec![a]), Err(ComposeError::UnknownBundle { service: 0, index: 0 }));
}

#[test]
fn ready_scripts_by_kind() {
    assert_eq!(
        ready_check_script("dbus:org.freedesktop.login1").unwrap(),
        "#!/bin/sh\ndbus-send --system --print-reply --dest=org.freedesktop.DBus /org/freedesktop/DBus org.freedesktop.DBus.NameHasOwner string:org.freedesktop.login1 2>/dev/null | grep -q true\n"
    );
    assert_eq!(ready_check_script("path:/run/foo.sock").unwrap(), "#!/bin/sh\ntest -e /run/foo.sock\n");
    assert_eq!(ready_check_script("exec:mytool --healthcheck").unwrap(), "#!/bin/sh\nmytool --healthcheck\n");
    assert_eq!(ready_check_script("nocolon"), Err(ReadyProblem::NoColon));
    assert_eq!(ready_check_script("tcp:80"), Err(ReadyProblem::UnknownKind));
}

fn daemon(name: &str) -> Service {
    let mut s = svc(name, "longrun");
    s.exec_cmd = Some(format!("{}-daemon", name));
    s
}

#[test]
fn generate_longrun_with_setup_user_and_log() {
    let mut a = svc("nm", "longrun");
    a.exec_cmd = Some("NetworkManager --no-daemon".to_string());
    a.setup = vec!["mkdir -p /run/foo".to_string()];
    a.user = Some("alice".to_string());
    a.log = true;
    a.needs = vec!["udevd".to_string(), "dbus".to_string(), "dbus".to_string()];
    let g = generate(&vec![a, daemon("udevd"), daemon("dbus")]);
    assert_eq!(g.result, Ok(()));
    assert_eq!(file(&g, "nm/type").unwrap().content, "longrun\n");
    let run = file(&g, "nm/run").unwrap();
    assert!(run.executable);
    assert_eq!(run.content, "#!/bin/sh\nmkdir -p /run/foo\nexec s6-setuidgid alice NetworkManager --no-daemon 2>&1\n");
    assert_eq!(file(&g, "nm/dependencies").unwrap().content, "dbus\nudevd\n");
    assert_eq!(file(&g, "nm/producer-for").unwrap().content, "nm-log\n");
    assert_eq!(file(&g, "nm-log/consumer-for").unwrap().content, "nm\n");
    assert_eq!(
        file(&g, "nm-log/run").unwrap().content,
        "#!/bin/sh\nmkdir -p /var/log/nm\nexec s6-log -b n10 s1000000 T /var/log/nm\n"
    );
    assert_eq!(file(&g, "udevd/run").unwrap().content, "#!/bin/sh\nexec udevd-daemon\n");
}

#[test]
fn generate_stops_at_an_unknown_kind() {
    let g = generate(&vec![daemon("a"), svc("b", "timer")]);
    assert_eq!(g.result, Err(ComposeError::UnknownKind { service: 1 }));
    assert_eq!(file(&g, "b/type").unwrap().content, "timer\n");
    assert!(file(&g, "a/run").is_some());
}

#[test]
fn unresolved_references_write_nothing() {
    let mut a = daemon("a");
    a.needs = vec!["ghost".to_string()];
    let g = generate(&vec![a, svc("b", "timer")]);
    assert_eq!(g.result, Err(ComposeError::UnknownDependency { service: 0, index: 0 }));
    assert!(g.files.is_empty());
}

#[test]
fn generate_collects_bundle_membership() {
    let mut a = svc("a", "longrun");
    a.exec_cmd = Some("a-daemon".to_string());
    a.log = true;
    a.bundles = vec!["default".to_string()];
    let mut b = svc("b", "oneshot");
    b.up = Some(Cmd::One("true".to_string()));
    b.bundles = vec!["default".to_string()];
    let mut d = svc("default", "bundle");
    d.contents = vec!["c".to_string()];
    let mut c = svc("c", "longrun");
    c.exec_cmd = Some("c-daemon".to_string());
    let g = generate(&vec![a, b, d, c]);
    assert_eq!(g.result, Ok(()));
    assert_eq!(file(&g, "default/contents").unwrap().content, "a\na-log\nb\nc\n");
    assert_eq!(file(&g, "b/up").unwrap().content, "true\n");
}

#[test]
fn generate_reports_empty_bundle_and_missing_exec() {
    let g = generate(&vec![svc("empty", "bundle")]);
    assert_eq!(g.result, Err(ComposeError::EmptyBundle { service: 0 }));
    let g = generate(&vec![svc("x", "longrun")]);
    assert_eq!(g.result, Err(ComposeError::MissingExec { service: 0 }));
    assert_eq!(g.files.len(), 1);
}

#[test]
fn generate_ready_longrun_gets_notification_and_check() {
    let mut a = svc("elogind", "longrun");
    a.exec_cmd = Some("elogind".to_string());
    a.ready = Some("path:/run/systemd/seats".to_string());
    let g = generate(&vec![a]);
    assert_eq!(g.result, Ok(()));
    assert_eq!(file(&g, "elogind/notification-fd").unwrap().content, "3\n");
    assert_eq!(file(&g, "elogind/data/check").unwrap().content, "#!/bin/sh\ntest -e /run/systemd/seats\n");
    assert_eq!(
        file(&g, "elogind/run").unwrap().content,
        "#!/bin/sh\nexec s6-notifyoncheck -t 1500 -w 250 -T 30000 elogind\n"
    );
}

#[test]
fn precheck_errors_write_nothing() {
    let mut a = svc("a", "oneshot");
    a.ready = Some("path:/x".to_string());
    let g = generate(&vec![a]);
    assert_eq!(g.result, Err(ComposeError::ReadyNotLongrun { service: 0 }));
    assert!(g.files.is_empty());

    let mut b = daemon("b");
    b.run = Some("#!/bin/sh\nexec b".to_string());
    b.ready = Some("path:/x".to_string());
    assert_eq!(generate(&vec![b]).result, Err(ComposeError::ReadyWithRun { service: 0 }));

    let mut c = svc("c", "bundle");
    c.log = true;
    assert_eq!(generate(&vec![c]).result, Err(ComposeError::LogNotLongrun { service: 0 }));

    let mut d = daemon("d");
    d.log = true;
    let g = generate(&vec![d, daemon("d-log")]);
    assert_eq!(g.result, Err(ComposeError::LogNameTaken { service: 0 }));
    assert!(g.files.is_empty());
}

#[test]
fn weaving_errors_by_declaration() {
    let mut a = daemon("a");
    a.ready = Some("socket".to_string());
    let g = generate(&vec![a]);
    assert_eq!(g.result, Err(ComposeError::BadReadySpec { service: 0 }));
    assert_eq!(file(&g, "a/notification-fd").unwrap().content, "3\n");

    let mut b = daemon("b");
    b.ready = Some("tcp:80".to_string());
    assert_eq!(generate(&vec![b]).result, Err(ComposeError::UnknownReadyKind { service: 0 }));

    assert_eq!(generate(&vec![svc("c", "oneshot")]).result, Err(ComposeError::MissingUp { service: 0 }));
}

#[test]
fn raw_run_scripts_end_in_a_newline() {
    let mut a = svc("a", "longrun");
    a.run = Some("#!/bin/sh\nexec a".to_string());
    a.exec_cmd = Some("ignored".to_string());
    let g = generate(&vec![a]);
    assert_eq!(g.result, Ok(()));
    assert_eq!(file(&g, "a/run").unwrap().content, "#!/bin/sh\nexec a\n");
}

#[test]
fn oneshot_down_and_finish_scripts() {
    let mut a = svc("mount", "oneshot");
    a.up = Some(Cmd::Many(vec!["mount -a".to_string(), "swapon -a".to_string()]));
    a.down = Some(Cmd::One("umount -a".to_string()));
    let mut b = daemon("b");
    b.finish = Some("echo bye".to_string());
    let g = generate(&vec![a, b]);
    assert_eq!(g.result, Ok(()));
    assert_eq!(file(&g, "mount/up").unwrap().content, "/bin/sh -c \"\nmount -a\nswapon -a\n\"\n");
    assert_eq!(file(&g, "mount/down").unwrap().content, "umount -a\n");
    let fin = file(&g, "b/finish").unwrap();
    assert!(fin.executable);
    assert_eq!(fin.content, "#!/bin/sh\necho bye\n");
}

fn unescape(s: &str) -> String {
    let mut out = String::new();
    let mut it = s.chars();
    while let Some(c) = it.next() {
        if c == '\\' {
            match it.next() {
                Some(d) => out.push(d),
                None => out.push(c),
            }
        } else {
            out.push(c);
        }
    }
    out
}

#[test]
fn command_list_body_reads_back_as_the_lines() {
    let lines = vec!["echo \"a \\\"b\\\"\"".to_string(), "printf '%s\\n' x".to_string(), String::new()];
    let r = Cmd::Many(lines.clone()).render();
    let body = r.strip_prefix("/bin/sh -c \"\n").unwrap().strip_suffix("\"\n").unwrap();
    let expected: String = lines.iter().map(|l| format!("{l}\n")).collect();
    assert_eq!(unescape(body), expected);
}
