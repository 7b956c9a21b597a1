//! Template directives that reference a component: `<% KEYWORD("name"); %>`,
//! where KEYWORD is the component keyword followed by `!`, and the name is a
//! non-empty run of bytes without a double quote. Spaces may stand after `<%`
//! and before `%>`.
use vstd::prelude::*;
use crate::bytes::{append_all, append_range};

verus! {

pub open spec fn opener() -> Seq<u8> {
    seq![60u8, 37u8]
}

/// The component keyword, the `!`, the `(` and the opening quote.
pub open spec fn keyword() -> Seq<u8> {
    seq![105u8, 110u8, 99u8, 108u8, 117u8, 100u8, 101u8, 33u8, 40u8, 34u8]
}

/// The closing quote, `)` and `;`.
pub open spec fn closer() -> Seq<u8> {
    seq![34u8, 41u8, 59u8]
}

pub open spec fn terminator() -> Seq<u8> {
    seq![37u8, 62u8]
}

/// `lit` stands in `t` at position `i`.
pub open spec fn has_at(t: Seq<u8>, i: int, lit: Seq<u8>) -> bool {
    0 <= i && i + lit.len() <= t.len() && t.subrange(i, i + lit.len()) == lit
}

/// Number of consecutive spaces in `t` from position `i`.
pub open spec fn space_run(t: Seq<u8>, i: int) -> nat
    decreases t.len() - i,
{
    if 0 <= i < t.len() && t[i] == 32u8 {
        1 + space_run(t, i + 1)
    } else {
        0
    }
}

/// Number of consecutive bytes other than a double quote in `t` from position `i`.
pub open spec fn name_run(t: Seq<u8>, i: int) -> nat
    decreases t.len() - i,
{
    if 0 <= i < t.len() && t[i] != 34u8 {
        1 + name_run(t, i + 1)
    } else {
        0
    }
}

/// Where a directive lies in a text: `start..end` is the whole directive,
/// `name_start..name_end` the referenced component name.
pub ghost struct Span {
    pub start: int,
    pub end: int,
    pub name_start: int,
    pub name_end: int,
}

/// The directive that begins at position `i` of `t`, if any.
pub open spec fn directive_at(t: Seq<u8>, i: int) -> Option<Span> {
    let j = i + 2 + space_run(t, i + 2);
    let ns = j + 10;
    let ne = ns + name_run(t, ns);
    let k = ne + 3 + space_run(t, ne + 3);
    if has_at(t, i, opener()) && has_at(t, j, keyword()) && ne > ns && has_at(t, ne, closer())
        && has_at(t, k, terminator()) {
        Some(Span { start: i, end: k + 2, name_start: ns, name_end: ne })
    } else {
        None
    }
}

/// The directives of `t` from position `i` on, leftmost first and without overlap.
pub open spec fn scan_from(t: Seq<u8>, i: int) -> Seq<Span>
    decreases t.len() - i,
{
    if i < 0 || i >= t.len() {
        Seq::empty()
    } else {
        match directive_at(t, i) {
            Some(s) => seq![s] + scan_from(t, s.end),
            None => scan_from(t, i + 1),
        }
    }
}

/// The directives of a whole text.
pub open spec fn directives_of(t: Seq<u8>) -> Seq<Span> {
    scan_from(t, 0)
}

/// A directive found in a text, by position.
#[derive(Clone, Copy, Debug, PartialEq, Eq)]
pub struct Directive {
    pub start: usize,
    pub end: usize,
    pub name_start: usize,
    pub name_end: usize,
}

impl View for Directive {
    type V = Span;

    open spec fn view(&self) -> Span {
        Span {
            start: self.start as int,
            end: self.end as int,
            name_start: self.name_start as int,
            name_end: self.name_end as int,
        }
    }
}

pub open spec fn spans_of(ds: Seq<Directive>) -> Seq<Span> {
    ds.map_values(|d: Directive| d@)
}

fn bytes_at(t: &Vec<u8>, i: usize, lit: &Vec<u8>) -> (r: bool)
    ensures
        r == has_at(t@, i as int, lit@),
{
    if i > t.len() || lit.len() > t.len() - i {
        return false;
    }
    let mut k: usize = 0;
    while k < lit.len()
        invariant
            i + lit.len() <= t.len(),
            k <= lit.len(),
            forall|m: int| 0 <= m < k ==> t@[i + m] == lit@[m],
        decreases lit.len() - k,
    {
        if t[i + k] != lit[k] {
            assert(t@.subrange(i as int, i + lit.len())[k as int] != lit@[k as int]);
            return false;
        }
        k = k + 1;
    }
    assert(t@.subrange(i as int, i + lit.len()) =~= lit@);
    true
}

fn count_spaces(t: &Vec<u8>, i: usize) -> (r: usize)
    requires
        i <= t.len(),
    ensures
        r == space_run(t@, i as int),
        i + r <= t.len(),
{
    let mut j: usize = i;
    while j < t.len() && t[j] == 32u8
        invariant
            i <= j <= t.len(),
            space_run(t@, i as int) == (j - i) + space_run(t@, j as int),
        decreases t.len() - j,
    {
        j = j + 1;
    }
    j - i
}

fn count_name(t: &Vec<u8>, i: usize) -> (r: usize)
    requires
        i <= t.len(),
    ensures
        r == name_run(t@, i as int),
        i + r <= t.len(),
{
    let mut j: usize = i;
    while j < t.len() && t[j] != 34u8
        invariant
            i <= j <= t.len(),
            name_run(t@, i as int) == (j - i) + name_run(t@, j as int),
        decreases t.len() - j,
    {
        j = j + 1;
    }
    j - i
}

pub fn opener_bytes() -> (r: Vec<u8>)
    ensures
        r@ == opener(),
{
    let r = vec![60u8, 37u8];
    assert(r@ =~= opener());
    r
}

pub fn keyword_bytes() -> (r: Vec<u8>)
    ensures
        r@ == keyword(),
{
    let r = vec![105u8, 110u8, 99u8, 108u8, 117u8, 100u8, 101u8, 33u8, 40u8, 34u8];
    assert(r@ =~= keyword());
    r
}

pub fn closer_bytes() -> (r: Vec<u8>)
    ensures
        r@ == closer(),
{
    let r = vec![34u8, 41u8, 59u8];
    assert(r@ =~= closer());
    r
}

pub fn terminator_bytes() -> (r: Vec<u8>)
    ensures
        r@ == terminator(),
{
    let r = vec![37u8, 62u8];
    assert(r@ =~= terminator());
    r
}

/// The directive that begins at position `i` of `t`, if any.
pub fn directive_at_pos(t: &Vec<u8>, i: usize) -> (r: Option<Directive>)
    requires
        i <= t.len(),
    ensures
        match r {
            Some(d) => directive_at(t@, i as int) == Some(d@),
            None => directive_at(t@, i as int).is_none(),
        },
{
    if !bytes_at(t, i, &opener_bytes()) {
        return None;
    }
    let j = i + 2 + count_spaces(t, i + 2);
    if !bytes_at(t, j, &keyword_bytes()) {
        return None;
    }
    let ns = j + 10;
    let ne = ns + count_name(t, ns);
    if ne == ns || !bytes_at(t, ne, &closer_bytes()) {
        return None;
    }
    let k = ne + 3 + count_spaces(t, ne + 3);
    if !bytes_at(t, k, &terminator_bytes()) {
        return None;
    }
    Some(Directive { start: i, end: k + 2, name_start: ns, name_end: ne })
}

/// The bytes of `t` from `a` to `b`.
pub fn slice_bytes(t: &Vec<u8>, a: usize, b: usize) -> (r: Vec<u8>)
    requires
        a <= b <= t.len(),
    ensures
        r@ == t@.subrange(a as int, b as int),
{
    let mut r: Vec<u8> = Vec::new();
    append_range(&mut r, t, a, b);
    assert(r@ =~= t@.subrange(a as int, b as int));
    r
}

/// Finds every directive of `t`, leftmost first and without overlap.
pub fn scan(t: &Vec<u8>) -> (r: Vec<Directive>)
    ensures
        spans_of(r@) == directives_of(t@),
{
    let mut r: Vec<Directive> = Vec::new();
    let mut i: usize = 0;
    while i < t.len()
        invariant
            i <= t.len(),
            spans_of(r@) + scan_from(t@, i as int) == directives_of(t@),
        decreases t.len() - i,
    {
        match directive_at_pos(t, i) {
            Some(d) => {
                assert(spans_of(r@.push(d)) =~= spans_of(r@).push(d@));
                assert(seq![d@] + scan_from(t@, d@.end) =~= scan_from(t@, i as int));
                assert(spans_of(r@.push(d)) + scan_from(t@, d@.end) =~= spans_of(r@) + (seq![d@]
                    + scan_from(t@, d@.end)));
                r.push(d);
                i = d.end;
            },
            None => {
                i = i + 1;
            },
        }
    }
    assert(scan_from(t@, i as int) =~= Seq::<Span>::empty());
    assert(spans_of(r@) + scan_from(t@, i as int) =~= spans_of(r@));
    r
}


/// The spans lie in order within a text of length `len`, from position `lo` on,
/// each with a non-empty name strictly inside it.
pub open spec fn placed_from(len: int, ss: Seq<Span>, lo: int) -> bool {
    forall|k: int|
        0 <= k < ss.len() ==> {
            &&& (if k == 0 { lo } else { ss[k - 1].end }) <= #[trigger] ss[k].start
            &&& ss[k].start < ss[k].name_start < ss[k].name_end < ss[k].end <= len
        }
}

pub proof fn lemma_scan_placed(t: Seq<u8>, i: int)
    requires
        0 <= i,
    ensures
        placed_from(t.len() as int, scan_from(t, i), i),
    decreases t.len() - i,
{
    if i < t.len() {
        match directive_at(t, i) {
            Some(s) => {
                lemma_scan_placed(t, s.end);
                let ss = scan_from(t, i);
                assert(ss == seq![s] + scan_from(t, s.end));
                assert forall|k: int| 0 < k < ss.len() implies ss[k] == scan_from(t, s.end)[k - 1]
                    by {}
            },
            None => {
                lemma_scan_placed(t, i + 1);
            },
        }
    }
}

/// A directive that references `path`, in the canonical spacing.
pub open spec fn replacement(path: Seq<u8>) -> Seq<u8> {
    opener() + seq![32u8] + keyword() + path + closer() + seq![32u8] + terminator()
}

/// Where the text before the `k`-th directive begins.
pub open spec fn gap_start(ss: Seq<Span>, k: int) -> int {
    if k <= 0 {
        0
    } else {
        ss[k - 1].end
    }
}

/// The text up to the end of the `n`-th directive, with the first `n`
/// directives replaced by directives that reference `outs`.
pub open spec fn rewrite_upto(t: Seq<u8>, ss: Seq<Span>, outs: Seq<Seq<u8>>, n: int) -> Seq<u8>
    decreases n,
{
    if n <= 0 {
        Seq::empty()
    } else {
        rewrite_upto(t, ss, outs, n - 1) + t.subrange(gap_start(ss, n - 1), ss[n - 1].start)
            + replacement(outs[n - 1])
    }
}

/// `t` with its `k`-th directive replaced by one that references `outs[k]`,
/// everything else kept.
pub open spec fn rewritten(t: Seq<u8>, ss: Seq<Span>, outs: Seq<Seq<u8>>) -> Seq<u8> {
    rewrite_upto(t, ss, outs, ss.len() as int) + t.subrange(
        gap_start(ss, ss.len() as int),
        t.len() as int,
    )
}

pub open spec fn views_of(vs: Seq<Vec<u8>>) -> Seq<Seq<u8>> {
    vs.map_values(|v: Vec<u8>| v@)
}

/// `t` contains `needle`.
pub open spec fn contains(t: Seq<u8>, needle: Seq<u8>) -> bool {
    exists|i: int| has_at(t, i, needle)
}

/// A directive that references `path`.
pub fn replacement_bytes(path: &Vec<u8>) -> (r: Vec<u8>)
    ensures
        r@ == replacement(path@),
{
    let mut r = opener_bytes();
    r.push(32u8);
    append_all(&mut r, &keyword_bytes());
    append_all(&mut r, path);
    append_all(&mut r, &closer_bytes());
    r.push(32u8);
    append_all(&mut r, &terminator_bytes());
    assert(r@ =~= replacement(path@));
    r
}

/// Replaces the `k`-th directive of `t` by one that references `outs[k]`,
/// and keeps the rest of the text as it is.
pub fn rewrite(t: &Vec<u8>, ds: &Vec<Directive>, outs: &Vec<Vec<u8>>) -> (r: Vec<u8>)
    requires
        spans_of(ds@) == directives_of(t@),
        outs.len() == ds.len(),
    ensures
        r@ == rewritten(t@, spans_of(ds@), views_of(outs@)),
{
    proof {
        lemma_scan_placed(t@, 0);
    }
    let ghost ss = spans_of(ds@);
    let ghost os = views_of(outs@);
    let mut r: Vec<u8> = Vec::new();
    let mut k: usize = 0;
    let mut pos: usize = 0;
    while k < ds.len()
        invariant
            placed_from(t@.len() as int, ss, 0),
            ss == spans_of(ds@),
            os == views_of(outs@),
            outs.len() == ds.len(),
            k <= ds.len(),
            pos as int == gap_start(ss, k as int),
            r@ == rewrite_upto(t@, ss, os, k as int),
        decreases ds.len() - k,
    {
        let d = ds[k];
        assert(ss[k as int] == d@);
        assert(ss[k as int].start == d.start as int);
        append_range(&mut r, t, pos, d.start);
        let rep = replacement_bytes(&outs[k]);
        append_all(&mut r, &rep);
        pos = d.end;
        k = k + 1;
        assert(r@ =~= rewrite_upto(t@, ss, os, k as int));
    }
    if ds.len() > 0 {
        assert(ss[ds.len() - 1] == ds@[ds.len() - 1]@);
        assert(ss[ds.len() - 1].start == ds@[ds.len() - 1].start as int);
    }
    append_range(&mut r, t, pos, t.len());
    r
}

proof fn lemma_upto_prefix(t: Seq<u8>, ss: Seq<Span>, outs: Seq<Seq<u8>>, n: int, m: int)
    requires
        0 <= n <= m,
    ensures
        rewrite_upto(t, ss, outs, n).len() <= rewrite_upto(t, ss, outs, m).len(),
        rewrite_upto(t, ss, outs, m).subrange(0, rewrite_upto(t, ss, outs, n).len() as int)
            == rewrite_upto(t, ss, outs, n),
    decreases m,
{
    if n < m {
        lemma_upto_prefix(t, ss, outs, n, m - 1);
        let a = rewrite_upto(t, ss, outs, n);
        let b = rewrite_upto(t, ss, outs, m - 1);
        let c = rewrite_upto(t, ss, outs, m);
        assert(c.subrange(0, b.len() as int) =~= b);
        assert(c.subrange(0, a.len() as int) =~= b.subrange(0, a.len() as int));
    } else {
        assert(rewrite_upto(t, ss, outs, m).subrange(0, rewrite_upto(t, ss, outs, m).len() as int)
            =~= rewrite_upto(t, ss, outs, m));
    }
}

/// After rewriting, the text holds, for every directive that was found, a
/// directive that references the path put in its place.
pub proof fn lemma_rewritten_references_each(
    t: Seq<u8>,
    ss: Seq<Span>,
    outs: Seq<Seq<u8>>,
    k: int,
)
    requires
        0 <= k < ss.len(),
    ensures
        contains(rewritten(t, ss, outs), replacement(outs[k])),
{
    let n = ss.len() as int;
    lemma_upto_prefix(t, ss, outs, k + 1, n);
    let a = rewrite_upto(t, ss, outs, k + 1);
    let full = rewritten(t, ss, outs);
    let rep = replacement(outs[k]);
    let i = a.len() - rep.len();
    assert(full.subrange(0, a.len() as int) =~= a);
    assert(full.subrange(i, i + rep.len()) =~= a.subrange(i, i + rep.len()));
    assert(a.subrange(i, i + rep.len()) =~= rep);
    assert(has_at(full, i, rep));
}

proof fn lemma_name_run_exact(t: Seq<u8>, i: int, n: int)
    requires
        0 <= i,
        0 <= n,
        i + n < t.len(),
        t[i + n] == 34u8,
        forall|m: int| i <= m < i + n ==> t[m] != 34u8,
    ensures
        name_run(t, i) == n,
    decreases n,
{
    if n > 0 {
        lemma_name_run_exact(t, i + 1, n - 1);
    }
}

/// The directive put in place of another is itself a directive, the whole of
/// it, and references `path`, provided `path` is a name a directive can hold.
pub proof fn lemma_replacement_is_directive(path: Seq<u8>)
    requires
        path.len() > 0,
        forall|m: int| 0 <= m < path.len() ==> path[m] != 34u8,
    ensures
        ({
            let r = replacement(path);
            &&& directive_at(r, 0) == Some(
                Span { start: 0, end: r.len() as int, name_start: 13, name_end: 13 + path.len() as int },
            )
            &&& r.subrange(13, 13 + path.len() as int) == path
        }),
{
    let r = replacement(path);
    let n = path.len() as int;
    assert(r.len() == 19 + n);
    assert(r[2] == 32u8);
    assert(r[3] == 105u8);
    assert(space_run(r, 3) == 0);
    assert(space_run(r, 2) == 1);
    assert(r.subrange(0, 2) =~= opener());
    assert(r.subrange(3, 13) =~= keyword());
    assert forall|m: int| 13 <= m < 13 + n implies r[m] != 34u8 by {
        assert(r[m] == path[m - 13]);
    }
    assert(r[13 + n] == 34u8);
    lemma_name_run_exact(r, 13, n);
    assert(r.subrange(13 + n, 16 + n) =~= closer());
    assert(r[16 + n] == 32u8);
    assert(r[17 + n] == 37u8);
    assert(space_run(r, 17 + n) == 0);
    assert(space_run(r, 16 + n) == 1);
    assert(r.subrange(17 + n, 19 + n) =~= terminator());
    assert(r.subrange(13, 13 + n) =~= path);
}

} // verus!
