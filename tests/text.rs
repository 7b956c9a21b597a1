use sailfish_minify::attribute::{extract_template_path, template_path_of};
use sailfish_minify::directive::{replacement_bytes, rewrite, scan};
use sailfish_minify::paths::{output_for, sibling_path};

fn b(s: &str) -> Vec<u8> {
    s.as_bytes().to_vec()
}

fn directive(name: &str) -> String {
    format!("<% {}!(\"{}\"); %>", ["inc", "lude"].concat(), name)
}

fn has(hay: &[u8], needle: &[u8]) -> bool {
    hay.windows(needle.len()).any(|w| w == needle)
}

#[test]
fn scan_finds_directives_in_order() {
    let text = format!("<p>{}</p>{}", directive("a.tpl"), directive("b.tpl"));
    let t = b(&text);
    let ds = scan(&t);
    assert_eq!(ds.len(), 2);
    assert_eq!(&t[ds[0].name_start..ds[0].name_end], b"a.tpl");
    assert_eq!(&t[ds[1].name_start..ds[1].name_end], b"b.tpl");
    assert_eq!(ds[0].start, 3);
    assert_eq!(&t[ds[0].start..ds[0].end], directive("a.tpl").as_bytes());
}

#[test]
fn scan_accepts_spaces_and_no_spaces() {
    let kw = ["inc", "lude"].concat();
    let text = format!("<%{}!(\"x\");%>|<%    {}!(\"y\");   %>", kw, kw);
    let t = b(&text);
    let ds = scan(&t);
    assert_eq!(ds.len(), 2);
    assert_eq!(&t[ds[0].name_start..ds[0].name_end], b"x");
    assert_eq!(&t[ds[1].name_start..ds[1].name_end], b"y");
    assert_eq!(ds[1].end, t.len());
}

#[test]
fn scan_ignores_malformed_directives() {
    let kw = ["inc", "lude"].concat();
    let text = format!("<% {}!(\"\"); %> <% {}(\"a\"); %> <% {}!(\"a\") %> <% {}!(\"a\"); >", kw, kw, kw, kw);
    assert!(scan(&b(&text)).is_empty());
    assert!(scan(&Vec::new()).is_empty());
}

#[test]
fn scan_keeps_duplicates() {
    let text = format!("{}{}", directive("c.tpl"), directive("c.tpl"));
    assert_eq!(scan(&b(&text)).len(), 2);
}

#[test]
fn rewrite_replaces_both_directives() {
    let text = format!("<div>{}<hr>{}</div>", directive("a.tpl"), directive("b.tpl"));
    let t = b(&text);
    let ds = scan(&t);
    let outs = vec![b("/tmp/s/t/a.tpl.min"), b("/tmp/s/t/b.tpl.min")];
    let r = rewrite(&t, &ds, &outs);
    assert!(!has(&r, directive("a.tpl").as_bytes()));
    assert!(!has(&r, directive("b.tpl").as_bytes()));
    assert!(has(&r, directive("/tmp/s/t/a.tpl.min").as_bytes()));
    assert!(has(&r, directive("/tmp/s/t/b.tpl.min").as_bytes()));
    let expected = format!(
        "<div>{}<hr>{}</div>",
        directive("/tmp/s/t/a.tpl.min"),
        directive("/tmp/s/t/b.tpl.min")
    );
    assert_eq!(r, b(&expected));
}

#[test]
fn rewrite_without_directives_keeps_text() {
    let t = b("<p>plain</p>");
    let ds = scan(&t);
    assert_eq!(rewrite(&t, &ds, &Vec::new()), t);
}

#[test]
fn replacement_uses_canonical_spacing() {
    assert_eq!(replacement_bytes(&b("/o/x.min")), b(&directive("/o/x.min")));
}

#[test]
fn output_for_mirrors_path_under_root() {
    assert_eq!(output_for(&b("/tmp/sailfish-minify"), &b("/src/t/a.stpl")), b("/tmp/sailfish-minify/src/t/a.stpl.min"));
    assert_eq!(output_for(&b("/tmp/m"), &b("t/a.stpl")), b("/tmp/m/t/a.stpl.min"));
}

#[test]
fn sibling_path_uses_parent_directory() {
    assert_eq!(sibling_path(&b("./templates/page.stpl"), &b("part.stpl")), b("./templates/part.stpl"));
    assert_eq!(sibling_path(&b("page.stpl"), &b("part.stpl")), b("part.stpl"));
    assert_eq!(sibling_path(&b("/t/page.stpl"), &b("/abs/part.stpl")), b("/abs/part.stpl"));
    assert_eq!(sibling_path(&b("/page.stpl"), &b("sub/x")), b("/sub/x"));
}

#[test]
fn template_path_from_attribute() {
    assert_eq!(
        extract_template_path("#[derive(TemplateSimple)] #[template(path = \"hello.stpl\")] struct A;"),
        Some(b("./templates/hello.stpl"))
    );
    assert_eq!(
        extract_template_path("#[template(escape = false, path=\"x/y.stpl\", rm_whitespace = true)] struct A;"),
        Some(b("./templates/x/y.stpl"))
    );
    assert_eq!(extract_template_path("#[other(path = \"hello.stpl\")] struct A;"), None);
    assert_eq!(extract_template_path("struct A;"), None);
    assert_eq!(template_path_of(b("p.stpl")), b("./templates/p.stpl"));
    assert_eq!(template_path_of(b("/abs/p.stpl")), b("/abs/p.stpl"));
}
