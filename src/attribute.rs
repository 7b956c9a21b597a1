//! Where a template lies, as written in its `#[template(path = "...")]`
//! attribute.
use vstd::prelude::*;
use crate::paths::is_absolute;

verus! {

/// Matches a `#[template(...)]` attribute whose arguments hold `path = "..."`;
/// its first group is the path.
pub const TEMPLATE_ATTRIBUTE: &'static str = r#"#\[template\([^)]*path\s*=\s*"([^"]+)"[^)]*\)\]"#;

/// The bytes of the first group of the leftmost match of the regular
/// expression `pattern` in `text`; `None` where nothing matches or the
/// pattern does not compile.
pub uninterp spec fn first_group_of(pattern: Seq<char>, text: Seq<char>) -> Option<Seq<u8>>;

/// Relies on regex::Regex::new, Regex::captures and Captures::get: the
/// leftmost match of the compiled pattern, and the text of its first group.
#[verifier::external_body]
fn first_group(pattern: &str, text: &str) -> (r: Option<Vec<u8>>)
    ensures
        match r {
            Some(g) => first_group_of(pattern@, text@) == Some(g@),
            None => first_group_of(pattern@, text@) is None,
        },
{
    let re = match regex::Regex::new(pattern) {
        Ok(re) => re,
        Err(_) => return None,
    };
    let caps = re.captures(text)?;
    let group = caps.get(1)?;
    Some(group.as_str().as_bytes().to_vec())
}

/// The directory that template paths are relative to: `./templates`.
pub open spec fn templates_dir() -> Seq<u8> {
    seq![46u8, 47u8, 116u8, 101u8, 109u8, 112u8, 108u8, 97u8, 116u8, 101u8, 115u8]
}

/// `name` taken relative to the templates directory; an absolute name stands
/// as it is.
pub open spec fn in_templates(name: Seq<u8>) -> Seq<u8> {
    if is_absolute(name) {
        name
    } else {
        templates_dir() + seq![47u8] + name
    }
}

/// The path of the template `name`, under the templates directory.
pub fn template_path_of(name: Vec<u8>) -> (r: Vec<u8>)
    ensures
        r@ == in_templates(name@),
{
    if name.len() > 0 && name[0] == 47u8 {
        return name;
    }
    let mut p: Vec<u8> = vec![46u8, 47u8, 116u8, 101u8, 109u8, 112u8, 108u8, 97u8, 116u8, 101u8, 115u8];
    assert(p@ =~= templates_dir());
    p.push(47u8);
    let mut k: usize = 0;
    while k < name.len()
        invariant
            k <= name.len(),
            p@ == templates_dir() + seq![47u8] + name@.subrange(0, k as int),
        decreases name.len() - k,
    {
        p.push(name[k]);
        assert(name@.subrange(0, k + 1) =~= name@.subrange(0, k as int).push(name@[k as int]));
        k = k + 1;
    }
    assert(name@.subrange(0, name@.len() as int) =~= name@);
    p
}

/// The template path named by the attribute in the derive input `tokens`,
/// under the templates directory, or `None` where there is no such attribute.
pub fn extract_template_path(tokens: &str) -> (r: Option<Vec<u8>>)
    ensures
        match first_group_of(TEMPLATE_ATTRIBUTE@, tokens@) {
            Some(g) => r matches Some(p) && p@ == in_templates(g),
            None => r is None,
        },
{
    match first_group(TEMPLATE_ATTRIBUTE, tokens) {
        None => None,
        Some(g) => Some(template_path_of(g)),
    }
}

} // verus!
