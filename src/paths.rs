//! Paths as byte strings: where a component referenced from a template lies,
//! and where the minified copy of a template goes in the shadow workspace.
use vstd::prelude::*;
use crate::bytes::append_range;

verus! {

pub open spec fn is_absolute(p: Seq<u8>) -> bool {
    p.len() > 0 && p[0] == 47u8
}

/// The suffix of a minified file: `.min`.
pub open spec fn min_suffix() -> Seq<u8> {
    seq![46u8, 109u8, 105u8, 110u8]
}

/// Where the minified copy of the template `id` goes under the shadow root:
/// the root, the template's path, and the suffix.
pub open spec fn shadow_path(root: Seq<u8>, id: Seq<u8>) -> Seq<u8> {
    root + (if is_absolute(id) {
        Seq::empty()
    } else {
        seq![47u8]
    }) + id + min_suffix()
}

/// Position of the last `/` among the first `n` bytes of `p`, or -1.
pub open spec fn last_slash(p: Seq<u8>, n: int) -> int
    decreases n,
{
    if n <= 0 {
        -1
    } else if p[n - 1] == 47u8 {
        n - 1
    } else {
        last_slash(p, n - 1)
    }
}

/// The directory part of `p`, with its trailing `/`; empty where `p` has no `/`.
pub open spec fn dir_prefix(p: Seq<u8>) -> Seq<u8> {
    p.subrange(0, last_slash(p, p.len() as int) + 1)
}

/// The component `name` referenced from the template at `parent`: an absolute
/// name stands as it is, a relative one is taken from the parent's directory.
pub open spec fn sibling(parent: Seq<u8>, name: Seq<u8>) -> Seq<u8> {
    if is_absolute(name) {
        name
    } else {
        dir_prefix(parent) + name
    }
}

proof fn lemma_last_slash_range(p: Seq<u8>, n: int)
    requires
        n <= p.len(),
    ensures
        -1 <= last_slash(p, n) < (if n < 0 { 0 } else { n }),
    decreases n,
{
    if n > 0 && p[n - 1] != 47u8 {
        lemma_last_slash_range(p, n - 1);
    }
}

/// Where the minified copy of the template `id` goes under `root`.
pub fn output_for(root: &Vec<u8>, id: &Vec<u8>) -> (r: Vec<u8>)
    ensures
        r@ == shadow_path(root@, id@),
{
    let mut r: Vec<u8> = Vec::new();
    append_range(&mut r, root, 0, root.len());
    if !(id.len() > 0 && id[0] == 47u8) {
        r.push(47u8);
    }
    append_range(&mut r, id, 0, id.len());
    r.push(46u8);
    r.push(109u8);
    r.push(105u8);
    r.push(110u8);
    assert(r@ =~= shadow_path(root@, id@));
    r
}

/// The path of the component `name` referenced from the template at `parent`.
pub fn sibling_path(parent: &Vec<u8>, name: &Vec<u8>) -> (r: Vec<u8>)
    ensures
        r@ == sibling(parent@, name@),
{
    if name.len() > 0 && name[0] == 47u8 {
        return name.clone();
    }
    let mut n: usize = parent.len();
    while n > 0 && parent[n - 1] != 47u8
        invariant
            n <= parent.len(),
            last_slash(parent@, parent.len() as int) == last_slash(parent@, n as int),
        decreases n,
    {
        n = n - 1;
    }
    let mut r: Vec<u8> = Vec::new();
    append_range(&mut r, parent, 0, n);
    append_range(&mut r, name, 0, name.len());
    assert(name@.subrange(0, name@.len() as int) =~= name@);
    assert(r@ =~= sibling(parent@, name@));
    r
}

/// Two absolute template paths share a minified copy only if they are the
/// same path: the shadow workspace mirrors the source tree one to one.
pub proof fn lemma_shadow_path_injective(root: Seq<u8>, a: Seq<u8>, b: Seq<u8>)
    requires
        is_absolute(a),
        is_absolute(b),
        shadow_path(root, a) == shadow_path(root, b),
    ensures
        a == b,
{
    let pa = shadow_path(root, a);
    let pb = shadow_path(root, b);
    assert(pa.len() == root.len() + a.len() + 4);
    assert(pa.subrange(root.len() as int, (root.len() + a.len()) as int) =~= a);
    assert(pb.subrange(root.len() as int, (root.len() + b.len()) as int) =~= b);
}

} // verus!
