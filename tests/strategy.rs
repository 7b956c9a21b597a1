use sailfish_minify::cache::{GlobalCache, RunCache};
use sailfish_minify::minifier::{
    select_minifier, split_command, ConfigError, MinifyError, MinifyOptions, Minifier, ProcessReport,
};

fn b(s: &str) -> Vec<u8> {
    s.as_bytes().to_vec()
}

#[test]
fn split_command_keeps_empty_pieces() {
    assert_eq!(split_command(&b("terser -c")), vec![b("terser"), b("-c")]);
    assert_eq!(split_command(&b("a  b")), vec![b("a"), b(""), b("b")]);
    assert_eq!(split_command(&b("")), vec![b("")]);
}

#[test]
fn default_command_line() {
    let o = MinifyOptions { minifier: Minifier::HTMLMinifier };
    let argv = o.command_line(&b("/i"), &b("/o"));
    assert_eq!(argv, vec![b("html-minifier"), b("--collapse-whitespace"), b("/i"), b("-o"), b("/o")]);
}

#[test]
fn custom_command_line_appends_files() {
    let o = MinifyOptions { minifier: Minifier::Custom(b("mini --fast")) };
    let argv = o.command_line(&b("/f"), &b("/f"));
    assert_eq!(argv, vec![b("mini"), b("--fast"), b("/f"), b("-o"), b("/f")]);
}

#[test]
fn checked_strategy_refuses_diagnostics() {
    let report = ProcessReport { started: true, stderr: b("warning: x") };
    let checked = MinifyOptions { minifier: Minifier::Custom(b("m")) };
    let unchecked = MinifyOptions { minifier: Minifier::CustomUnchecked(b("m")) };
    let default = MinifyOptions { minifier: Minifier::HTMLMinifier };
    assert_eq!(checked.check_report(&report), Err(MinifyError::Diagnostics(b("warning: x"))));
    assert_eq!(default.check_report(&report), Err(MinifyError::Diagnostics(b("warning: x"))));
    assert_eq!(unchecked.check_report(&report), Ok(()));
}

#[test]
fn unstarted_process_fails_every_strategy() {
    let report = ProcessReport { started: false, stderr: Vec::new() };
    let unchecked = MinifyOptions { minifier: Minifier::CustomUnchecked(b("m")) };
    assert_eq!(unchecked.check_report(&report), Err(MinifyError::NotStarted));
    let clean = ProcessReport { started: true, stderr: Vec::new() };
    assert_eq!(MinifyOptions { minifier: Minifier::Custom(b("m")) }.check_report(&clean), Ok(()));
}

#[test]
fn selectors() {
    assert_eq!(select_minifier(&b("HTMLMinifier"), None), Ok(Minifier::HTMLMinifier));
    assert_eq!(select_minifier(&b("Custom"), Some(b("c"))), Ok(Minifier::Custom(b("c"))));
    assert_eq!(select_minifier(&b("CustomUnchecked"), Some(b("c"))), Ok(Minifier::CustomUnchecked(b("c"))));
    assert_eq!(select_minifier(&b("Other"), None), Err(ConfigError::UnknownMinifier(b("Other"))));
    assert_eq!(select_minifier(&b("HTMLMinifier"), Some(b("c"))), Err(ConfigError::UnknownMinifier(b("HTMLMinifier"))));
    assert_eq!(select_minifier(&b("Custom"), None), Err(ConfigError::UnknownMinifier(b("Custom"))));
}

#[test]
fn caches_record_entries() {
    let mut run = RunCache::new();
    assert!(!run.contains(&b("/a")));
    run.insert(b("/a"));
    run.insert(b("/a"));
    assert!(run.contains(&b("/a")));
    let mut g = GlobalCache::new();
    assert_eq!(g.get(&b("/a")), None);
    g.insert(b("/a"), b("/o1"));
    g.insert(b("/b"), b("/o2"));
    g.insert(b("/a"), b("/o3"));
    assert_eq!(g.get(&b("/a")), Some(b("/o3")));
    assert_eq!(g.get(&b("/b")), Some(b("/o2")));
}
