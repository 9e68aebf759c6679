use iced_code_editor::probe::{probe_start, ProbeAction, ProbeEvent};

fn is_run(a: &ProbeAction, program: &str, args: &[&str]) -> bool {
    matches!(a, ProbeAction::Run(p, v) if p == program && v.iter().map(|s| s.as_str()).eq(args.iter().copied()))
}

fn is_output(a: &ProbeAction, program: &str, args: &[&str]) -> bool {
    matches!(a, ProbeAction::Output(p, v) if p == program && v.iter().map(|s| s.as_str()).eq(args.iter().copied()))
}

fn is_check(a: &ProbeAction, dir: &str, parts: &[&str]) -> bool {
    matches!(a, ProbeAction::CheckFile(d, v) if d == dir && v.iter().map(|s| s.as_str()).eq(parts.iter().copied()))
}

#[test]
fn environment_program_is_used_first() {
    let (_, a) = probe_start(true, Some("/opt/gopls".to_string()));
    assert!(matches!(a, ProbeAction::Found(p) if p == "/opt/gopls"));
}

#[test]
fn rust_analyzer_falls_back_to_rustup() {
    let (mut p, a) = probe_start(false, None);
    assert!(is_run(&a, "rust-analyzer", &["--version"]));
    let a = p.step(ProbeEvent::Started(false));
    assert!(is_output(&a, "rustup", &["which", "rust-analyzer"]));
    let a = p.step(ProbeEvent::Printed(Some("  /home/u/.cargo/bin/rust-analyzer\n".to_string())));
    assert!(matches!(a, ProbeAction::Found(ref s) if s == "/home/u/.cargo/bin/rust-analyzer"));
}

#[test]
fn rust_analyzer_on_the_path_is_found_at_once() {
    let (mut p, _) = probe_start(false, None);
    let a = p.step(ProbeEvent::Started(true));
    assert!(matches!(a, ProbeAction::Found(ref s) if s == "rust-analyzer"));
}

#[test]
fn rust_analyzer_missing_gives_the_install_hint() {
    let (mut p, _) = probe_start(false, None);
    p.step(ProbeEvent::Started(false));
    let a = p.step(ProbeEvent::Printed(Some("   ".to_string())));
    assert!(matches!(a, ProbeAction::NotFound(ref m) if m.starts_with("rust-analyzer not found")));
}

#[test]
fn gopls_tries_gobin_then_each_gopath_entry() {
    let (mut p, a) = probe_start(true, None);
    assert!(is_run(&a, "gopls", &["version"]));
    let a = p.step(ProbeEvent::Started(false));
    assert!(is_output(&a, "go", &["env", "GOBIN"]));
    let a = p.step(ProbeEvent::Printed(Some("/gobin\n".to_string())));
    assert!(is_check(&a, "/gobin", &["gopls"]));
    let a = p.step(ProbeEvent::FileFound(None));
    assert!(is_output(&a, "go", &["env", "GOPATH"]));
    let a = p.step(ProbeEvent::Printed(Some("/a::/b\n".to_string())));
    assert!(is_check(&a, "/a", &["bin", "gopls"]));
    let a = p.step(ProbeEvent::FileFound(None));
    assert!(is_check(&a, "/b", &["bin", "gopls"]));
    let a = p.step(ProbeEvent::FileFound(Some("/b/bin/gopls".to_string())));
    assert!(matches!(a, ProbeAction::Found(ref s) if s == "/b/bin/gopls"));
}

#[test]
fn gopls_missing_gives_the_install_hint() {
    let (mut p, _) = probe_start(true, None);
    p.step(ProbeEvent::Started(false));
    p.step(ProbeEvent::Printed(None));
    let a = p.step(ProbeEvent::Printed(Some("".to_string())));
    assert!(matches!(a, ProbeAction::NotFound(ref m) if m.starts_with("gopls not found")));
}
