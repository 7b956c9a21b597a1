use sailfish_minify::cache::GlobalCache;
use sailfish_minify::minifier::{MinifyError, MinifyOptions, Minifier, ProcessReport};
use sailfish_minify::walk::{Action, Event, WalkError, Walker};
use std::collections::HashMap;

fn b(s: &str) -> Vec<u8> {
    s.as_bytes().to_vec()
}

fn directive(name: &str) -> String {
    format!("<% {}!(\"{}\"); %>", ["inc", "lude"].concat(), name)
}

fn has(hay: &[u8], needle: &[u8]) -> bool {
    hay.windows(needle.len()).any(|w| w == needle)
}

/// An in-memory file system and a minifier that drops newlines.
struct World {
    files: HashMap<Vec<u8>, Vec<u8>>,
    minified: Vec<Vec<u8>>,
    stderr: Vec<u8>,
    broken: Option<Vec<u8>>,
}

impl World {
    fn new(files: &[(&str, String)]) -> World {
        World {
            files: files.iter().map(|(p, t)| (b(p), b(t))).collect(),
            minified: Vec::new(),
            stderr: Vec::new(),
            broken: None,
        }
    }

    fn walk(&mut self, root: &str, shadow: &str, m: Minifier, cache: &mut GlobalCache) -> Result<Vec<u8>, WalkError> {
        let (mut w, mut a) = Walker::start(b(root), b(shadow), MinifyOptions { minifier: m });
        loop {
            let ev = match a {
                Action::Resolve(p) => Event::Resolved(if self.files.contains_key(&p) { Some(p) } else { None }),
                Action::CheckExists(p) => Event::Exists(self.files.contains_key(&p)),
                Action::Copy(from, to) => match self.files.get(&from).cloned() {
                    Some(t) => {
                        self.files.insert(to, t);
                        Event::Copied(true)
                    }
                    None => Event::Copied(false),
                },
                Action::Read(p) => Event::Read(self.files.get(&p).cloned()),
                Action::Write(p, t) => {
                    self.files.insert(p, t);
                    Event::Written(true)
                }
                Action::Minify(argv) => {
                    let path = argv[argv.len() - 1].clone();
                    self.minified.push(path.clone());
                    let text: Vec<u8> = self.files[&path].iter().copied().filter(|c| *c != b'\n').collect();
                    let stderr = if self.broken.as_ref() == Some(&path) { b("boom") } else { self.stderr.clone() };
                    self.files.insert(path, text);
                    Event::Minified(ProcessReport { started: true, stderr })
                }
                Action::Finish(p) => return Ok(p),
                Action::Fail => {
                    let e = w.failure().unwrap();
                    return Err(match e {
                        WalkError::Cycle(x) => WalkError::Cycle(x.clone()),
                        WalkError::Unresolved(x) => WalkError::Unresolved(x.clone()),
                        WalkError::MinifyFailed(x, m) => WalkError::MinifyFailed(x.clone(), m.clone()),
                        WalkError::ReadFailed(x) => WalkError::ReadFailed(x.clone()),
                        WalkError::WriteFailed(x) => WalkError::WriteFailed(x.clone()),
                        WalkError::CopyFailed(x) => WalkError::CopyFailed(x.clone()),
                        WalkError::UnexpectedEvent => WalkError::UnexpectedEvent,
                    });
                }
            };
            a = w.step(cache, ev);
        }
    }

    fn count(&self, p: &str) -> usize {
        self.minified.iter().filter(|x| **x == b(p)).count()
    }
}

fn diamond() -> World {
    World::new(&[
        ("/t/r.tpl", format!("<main>\n{}\n{}\n</main>", directive("a.tpl"), directive("b.tpl"))),
        ("/t/a.tpl", format!("<a>\n{}\n</a>", directive("c.tpl"))),
        ("/t/b.tpl", format!("<b>\n{}\n</b>", directive("c.tpl"))),
        ("/t/c.tpl", "<c>\n</c>".to_string()),
    ])
}

#[test]
fn walk_leaf_template() {
    let mut w = World::new(&[("/t/x.tpl", "<p>\nx\n</p>".to_string())]);
    let mut cache = GlobalCache::new();
    let out = w.walk("/t/x.tpl", "/s", Minifier::HTMLMinifier, &mut cache).unwrap();
    assert_eq!(out, b("/s/t/x.tpl.min"));
    assert_eq!(w.files[&out], b("<p>x</p>"));
    assert_eq!(cache.get(&b("/t/x.tpl")), Some(b("/s/t/x.tpl.min")));
}

#[test]
fn walk_rewrites_directives_to_minified_copies() {
    let mut w = diamond();
    let mut cache = GlobalCache::new();
    let out = w.walk("/t/r.tpl", "/s", Minifier::HTMLMinifier, &mut cache).unwrap();
    let text = &w.files[&out];
    assert!(!has(text, directive("a.tpl").as_bytes()));
    assert!(!has(text, directive("b.tpl").as_bytes()));
    assert!(has(text, directive("/s/t/a.tpl.min").as_bytes()));
    assert!(has(text, directive("/s/t/b.tpl.min").as_bytes()));
}

#[test]
fn walk_twice_with_fresh_cache_gives_same_bytes() {
    let mut w1 = diamond();
    let mut w2 = diamond();
    let o1 = w1.walk("/t/r.tpl", "/s", Minifier::HTMLMinifier, &mut GlobalCache::new()).unwrap();
    let first = w1.files.clone();
    let o2 = w1.walk("/t/r.tpl", "/s", Minifier::HTMLMinifier, &mut GlobalCache::new()).unwrap();
    let o3 = w2.walk("/t/r.tpl", "/s", Minifier::HTMLMinifier, &mut GlobalCache::new()).unwrap();
    assert_eq!(o1, o2);
    assert_eq!(first[&o1], w1.files[&o2]);
    assert_eq!(first[&o1], w2.files[&o3]);
    assert_eq!(first[&b("/s/t/c.tpl.min")], w1.files[&b("/s/t/c.tpl.min")]);
}

#[test]
fn diamond_minifies_shared_component_once() {
    let mut w = diamond();
    let mut cache = GlobalCache::new();
    w.walk("/t/r.tpl", "/s", Minifier::HTMLMinifier, &mut cache).unwrap();
    assert_eq!(w.count("/s/t/c.tpl.min"), 1);
    assert_eq!(w.minified.len(), 4);
    let c_ref = directive("/s/t/c.tpl.min");
    assert!(has(&w.files[&b("/s/t/a.tpl.min")], c_ref.as_bytes()));
    assert!(has(&w.files[&b("/s/t/b.tpl.min")], c_ref.as_bytes()));
}

#[test]
fn second_root_reuses_cached_component() {
    let mut w = diamond();
    w.files.insert(b("/t/r2.tpl"), b(&format!("<x>{}</x>", directive("c.tpl"))));
    let mut cache = GlobalCache::new();
    w.walk("/t/a.tpl", "/s", Minifier::HTMLMinifier, &mut cache).unwrap();
    let c1 = w.files[&b("/s/t/c.tpl.min")].clone();
    w.walk("/t/r2.tpl", "/s", Minifier::HTMLMinifier, &mut cache).unwrap();
    assert_eq!(w.count("/s/t/c.tpl.min"), 1);
    assert_eq!(w.files[&b("/s/t/c.tpl.min")], c1);
    // another shadow root gets a byte-identical copy, still without a new run
    w.walk("/t/b.tpl", "/s2", Minifier::HTMLMinifier, &mut cache).unwrap();
    assert_eq!(w.count("/s/t/c.tpl.min") + w.count("/s2/t/c.tpl.min"), 1);
    assert_eq!(w.count("/s2/t/b.tpl.min"), 1);
    assert_eq!(w.files[&b("/s2/t/c.tpl.min")], c1);
}

#[test]
fn missing_cached_copy_is_produced_again() {
    let mut w = World::new(&[("/t/c.tpl", "c".to_string())]);
    let mut cache = GlobalCache::new();
    w.walk("/t/c.tpl", "/s", Minifier::HTMLMinifier, &mut cache).unwrap();
    w.files.remove(&b("/s/t/c.tpl.min"));
    w.walk("/t/c.tpl", "/s", Minifier::HTMLMinifier, &mut cache).unwrap();
    assert_eq!(w.count("/s/t/c.tpl.min"), 2);
}

#[test]
fn failing_component_fails_the_root() {
    let mut w = diamond();
    w.broken = Some(b("/s/t/c.tpl.min"));
    let mut cache = GlobalCache::new();
    let r = w.walk("/t/r.tpl", "/s", Minifier::Custom(b("m")), &mut cache);
    assert_eq!(r, Err(WalkError::MinifyFailed(b("/s/t/c.tpl.min"), MinifyError::Diagnostics(b("boom")))));
    assert_eq!(cache.get(&b("/t/r.tpl")), None);
    assert_eq!(cache.get(&b("/t/a.tpl")), None);
    assert_eq!(cache.get(&b("/t/c.tpl")), None);
    assert!(!w.files.contains_key(&b("/s/t/r.tpl.min")));
}

#[test]
fn unchecked_strategy_tolerates_diagnostics() {
    let mut w = diamond();
    w.stderr = b("note: something");
    let r = w.walk("/t/r.tpl", "/s", Minifier::CustomUnchecked(b("m")), &mut GlobalCache::new());
    assert_eq!(r, Ok(b("/s/t/r.tpl.min")));
    let mut w2 = diamond();
    w2.stderr = b("note: something");
    let r2 = w2.walk("/t/r.tpl", "/s", Minifier::Custom(b("m")), &mut GlobalCache::new());
    assert!(matches!(r2, Err(WalkError::MinifyFailed(_, MinifyError::Diagnostics(_)))));
}

#[test]
fn cycle_is_rejected() {
    let mut w = World::new(&[
        ("/t/a.tpl", directive("b.tpl")),
        ("/t/b.tpl", directive("a.tpl")),
    ]);
    let r = w.walk("/t/a.tpl", "/s", Minifier::HTMLMinifier, &mut GlobalCache::new());
    assert_eq!(r, Err(WalkError::Cycle(b("/t/a.tpl"))));
    assert!(w.minified.is_empty());
}

#[test]
fn missing_component_is_unresolved() {
    let mut w = World::new(&[("/t/a.tpl", directive("gone.tpl"))]);
    let r = w.walk("/t/a.tpl", "/s", Minifier::HTMLMinifier, &mut GlobalCache::new());
    assert_eq!(r, Err(WalkError::Unresolved(b("/t/gone.tpl"))));
}

#[test]
fn failed_walk_stays_failed() {
    let (mut w, _) = Walker::start(b("/t/a.tpl"), b("/s"), MinifyOptions { minifier: Minifier::HTMLMinifier });
    let mut cache = GlobalCache::new();
    assert!(matches!(w.step(&mut cache, Event::Exists(true)), Action::Fail));
    assert_eq!(w.failure(), Some(&WalkError::UnexpectedEvent));
    assert!(matches!(w.step(&mut cache, Event::Resolved(Some(b("/t/a.tpl")))), Action::Fail));
    assert_eq!(w.failure(), Some(&WalkError::UnexpectedEvent));
}

#[test]
fn failed_read_and_write_are_reported() {
    let (mut w, _) = Walker::start(b("/t/a.tpl"), b("/s"), MinifyOptions { minifier: Minifier::HTMLMinifier });
    let mut cache = GlobalCache::new();
    assert!(matches!(w.step(&mut cache, Event::Resolved(Some(b("/t/a.tpl")))), Action::Read(_)));
    assert!(matches!(w.step(&mut cache, Event::Read(None)), Action::Fail));
    assert_eq!(w.failure(), Some(&WalkError::ReadFailed(b("/t/a.tpl"))));
    let (mut w, _) = Walker::start(b("/t/a.tpl"), b("/s"), MinifyOptions { minifier: Minifier::HTMLMinifier });
    w.step(&mut cache, Event::Resolved(Some(b("/t/a.tpl"))));
    assert!(matches!(w.step(&mut cache, Event::Read(Some(b("x")))), Action::Write(_, _)));
    assert!(matches!(w.step(&mut cache, Event::Written(false)), Action::Fail));
    assert_eq!(w.failure(), Some(&WalkError::WriteFailed(b("/s/t/a.tpl.min"))));
    assert_eq!(cache.get(&b("/t/a.tpl")), None);
}

#[test]
fn failed_copy_is_reported() {
    let mut cache = GlobalCache::new();
    cache.insert(b("/t/a.tpl"), b("/old/t/a.tpl.min"));
    let (mut w, _) = Walker::start(b("/t/a.tpl"), b("/s"), MinifyOptions { minifier: Minifier::HTMLMinifier });
    match w.step(&mut cache, Event::Resolved(Some(b("/t/a.tpl")))) {
        Action::CheckExists(p) => assert_eq!(p, b("/old/t/a.tpl.min")),
        other => panic!("unexpected {:?}", other),
    }
    match w.step(&mut cache, Event::Exists(true)) {
        Action::Copy(from, to) => {
            assert_eq!(from, b("/old/t/a.tpl.min"));
            assert_eq!(to, b("/s/t/a.tpl.min"));
        }
        other => panic!("unexpected {:?}", other),
    }
    assert!(matches!(w.step(&mut cache, Event::Copied(false)), Action::Fail));
    assert_eq!(w.failure(), Some(&WalkError::CopyFailed(b("/s/t/a.tpl.min"))));
    assert_eq!(cache.get(&b("/t/a.tpl")), Some(b("/old/t/a.tpl.min")));
}

#[test]
fn malformed_directive_is_left_alone() {
    let kw = ["inc", "lude"].concat();
    let bad = format!("<% {}!('a.tpl'); %><% {}!(\"a.tpl\") %>", kw, kw);
    let mut w = World::new(&[("/t/r.tpl", bad.clone()), ("/t/a.tpl", "a".to_string())]);
    let out = w.walk("/t/r.tpl", "/s", Minifier::HTMLMinifier, &mut GlobalCache::new()).unwrap();
    assert_eq!(w.minified, vec![b("/s/t/r.tpl.min")]);
    assert_eq!(w.files[&out], b(&bad));
    assert!(!w.files.contains_key(&b("/s/t/a.tpl.min")));
}
