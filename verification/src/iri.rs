//! Relative-IRI algebra: decomposition of an IRI reference into its
//! components and standard reference resolution (scheme, authority, path,
//! query and fragment merging, with dot-segment removal).

use vstd::prelude::*;

use crate::scan::{is_alnum, is_alpha};

verus! {

// ---------------------------------------------------------------------------
// Component decomposition
// ---------------------------------------------------------------------------

/// Mathematical value of a decomposed IRI reference.
pub struct IriPartsV {
    /// The scheme, without the trailing `:`.
    pub scheme: Option<Seq<char>>,
    /// The authority, without the leading `//`.
    pub authority: Option<Seq<char>>,
    /// The path (possibly empty).
    pub path: Seq<char>,
    /// The query, without the leading `?`.
    pub query: Option<Seq<char>>,
    /// The fragment, without the leading `#`.
    pub fragment: Option<Seq<char>>,
}

/// A decomposed IRI reference.
#[derive(Debug, Clone, PartialEq, Eq)]
pub struct IriParts {
    /// The scheme, without the trailing `:`.
    pub scheme: Option<Vec<char>>,
    /// The authority, without the leading `//`.
    pub authority: Option<Vec<char>>,
    /// The path (possibly empty).
    pub path: Vec<char>,
    /// The query, without the leading `?`.
    pub query: Option<Vec<char>>,
    /// The fragment, without the leading `#`.
    pub fragment: Option<Vec<char>>,
}

impl View for IriParts {
    type V = IriPartsV;

    open spec fn view(&self) -> IriPartsV {
        IriPartsV {
            scheme: match self.scheme {
                Some(ref v) => Some(v@),
                None => None,
            },
            authority: match self.authority {
                Some(ref v) => Some(v@),
                None => None,
            },
            path: self.path@,
            query: match self.query {
                Some(ref v) => Some(v@),
                None => None,
            },
            fragment: match self.fragment {
                Some(ref v) => Some(v@),
                None => None,
            },
        }
    }
}

/// A character allowed in a scheme after its leading letter.
pub open spec fn is_scheme_char(c: char) -> bool {
    is_alnum(c) || c == '+' || c == '-' || c == '.'
}

fn scheme_char(c: char) -> (r: bool)
    ensures
        r == is_scheme_char(c),
{
    (('A' <= c && c <= 'Z') || ('a' <= c && c <= 'z') || ('0' <= c && c <= '9')) || c == '+'
        || c == '-' || c == '.'
}

/// End of the run of scheme characters starting at `i`.
pub open spec fn spec_scheme_run(s: Seq<char>, i: int) -> int
    decreases s.len() - i,
{
    if i < s.len() && is_scheme_char(s[i]) {
        spec_scheme_run(s, i + 1)
    } else {
        i
    }
}

/// Position of the `:` ending a scheme at the start of `s`, if `s` has one.
pub open spec fn spec_scheme_colon(s: Seq<char>) -> Option<int> {
    if s.len() > 0 && is_alpha(s[0]) {
        let j = spec_scheme_run(s, 1);
        if j < s.len() && s[j] == ':' {
            Some(j)
        } else {
            None
        }
    } else {
        None
    }
}

/// First position at or after `i` holding `/`, `?` or `#`, or the length.
pub open spec fn spec_authority_end(s: Seq<char>, i: int) -> int
    decreases s.len() - i,
{
    if i < s.len() && !(s[i] == '/' || s[i] == '?' || s[i] == '#') {
        spec_authority_end(s, i + 1)
    } else {
        i
    }
}

/// First position at or after `i` holding `?` or `#`, or the length.
pub open spec fn spec_path_end(s: Seq<char>, i: int) -> int
    decreases s.len() - i,
{
    if i < s.len() && !(s[i] == '?' || s[i] == '#') {
        spec_path_end(s, i + 1)
    } else {
        i
    }
}

/// First position at or after `i` holding `#`, or the length.
pub open spec fn spec_query_end(s: Seq<char>, i: int) -> int
    decreases s.len() - i,
{
    if i < s.len() && s[i] != '#' {
        spec_query_end(s, i + 1)
    } else {
        i
    }
}

/// Decomposition of an IRI reference into scheme, authority, path, query and
/// fragment.
pub open spec fn spec_parse_iri(s: Seq<char>) -> IriPartsV {
    let (scheme, r0) = match spec_scheme_colon(s) {
        Some(j) => (Some(s.subrange(0, j)), j + 1),
        None => (None, 0int),
    };
    let (authority, p0) = if r0 + 2 <= s.len() && s[r0] == '/' && s[r0 + 1] == '/' {
        let a_end = spec_authority_end(s, r0 + 2);
        (Some(s.subrange(r0 + 2, a_end)), a_end)
    } else {
        (None, r0)
    };
    let p_end = spec_path_end(s, p0);
    let path = s.subrange(p0, p_end);
    let (query, f0) = if p_end < s.len() && s[p_end] == '?' {
        let q_end = spec_query_end(s, p_end + 1);
        (Some(s.subrange(p_end + 1, q_end)), q_end)
    } else {
        (None, p_end)
    };
    let fragment = if f0 < s.len() && s[f0] == '#' {
        Some(s.subrange(f0 + 1, s.len() as int))
    } else {
        None
    };
    IriPartsV { scheme, authority, path, query, fragment }
}

/// Whether an IRI reference carries a non-empty fragment, which a base IRI
/// must not.
pub open spec fn spec_has_nonempty_fragment(s: Seq<char>) -> bool {
    match spec_parse_iri(s).fragment {
        Some(f) => f.len() > 0,
        None => false,
    }
}

fn scheme_run(s: &Vec<char>, i: usize) -> (j: usize)
    requires
        i <= s@.len(),
    ensures
        j == spec_scheme_run(s@, i as int),
        i <= j <= s@.len(),
    decreases s@.len() - i,
{
    if i < s.len() && scheme_char(s[i]) {
        scheme_run(s, i + 1)
    } else {
        i
    }
}

fn authority_end(s: &Vec<char>, i: usize) -> (j: usize)
    requires
        i <= s@.len(),
    ensures
        j == spec_authority_end(s@, i as int),
        i <= j <= s@.len(),
    decreases s@.len() - i,
{
    if i < s.len() && !(s[i] == '/' || s[i] == '?' || s[i] == '#') {
        authority_end(s, i + 1)
    } else {
        i
    }
}

fn path_end(s: &Vec<char>, i: usize) -> (j: usize)
    requires
        i <= s@.len(),
    ensures
        j == spec_path_end(s@, i as int),
        i <= j <= s@.len(),
    decreases s@.len() - i,
{
    if i < s.len() && !(s[i] == '?' || s[i] == '#') {
        path_end(s, i + 1)
    } else {
        i
    }
}

fn query_end(s: &Vec<char>, i: usize) -> (j: usize)
    requires
        i <= s@.len(),
    ensures
        j == spec_query_end(s@, i as int),
        i <= j <= s@.len(),
    decreases s@.len() - i,
{
    if i < s.len() && s[i] != '#' {
        query_end(s, i + 1)
    } else {
        i
    }
}

/// Decomposes an IRI reference into its components.
pub fn parse_iri(s: &Vec<char>) -> (r: IriParts)
    ensures
        r@ == spec_parse_iri(s@),
{
    let len = s.len();
    let mut r0: usize = 0;
    let mut scheme: Option<Vec<char>> = None;
    if len > 0 && alpha_char(s[0]) {
        let j = scheme_run(s, 1);
        if j < len && s[j] == ':' {
            scheme = Some(crate::text::chars_range(s, 0, j));
            r0 = j + 1;
        }
    }
    let mut p0: usize = r0;
    let mut authority: Option<Vec<char>> = None;
    if len - r0 >= 2 && s[r0] == '/' && s[r0 + 1] == '/' {
        let a_end = authority_end(s, r0 + 2);
        authority = Some(crate::text::chars_range(s, r0 + 2, a_end));
        p0 = a_end;
    }
    let p_end = path_end(s, p0);
    let path = crate::text::chars_range(s, p0, p_end);
    let mut f0: usize = p_end;
    let mut query: Option<Vec<char>> = None;
    if p_end < len && s[p_end] == '?' {
        let q_end = query_end(s, p_end + 1);
        query = Some(crate::text::chars_range(s, p_end + 1, q_end));
        f0 = q_end;
    }
    let fragment: Option<Vec<char>> = if f0 < len && s[f0] == '#' {
        Some(crate::text::chars_range(s, f0 + 1, len))
    } else {
        None
    };
    IriParts { scheme, authority, path, query, fragment }
}

fn alpha_char(c: char) -> (r: bool)
    ensures
        r == is_alpha(c),
{
    ('A' <= c && c <= 'Z') || ('a' <= c && c <= 'z')
}

// ---------------------------------------------------------------------------
// Dot-segment removal
// ---------------------------------------------------------------------------

/// Position after the last `/` at or before `j` in `p`, or zero.
pub open spec fn spec_dir_end(p: Seq<char>, j: int) -> int
    decreases j,
{
    if j <= 0 {
        0
    } else if 0 <= j - 1 < p.len() && p[j - 1] == '/' {
        j
    } else {
        spec_dir_end(p, j - 1)
    }
}

/// The directory part of a path: everything up to and including the last
/// `/`, or empty if the path has no `/`.
pub open spec fn spec_dirname(p: Seq<char>) -> Seq<char> {
    p.subrange(0, spec_dir_end(p, p.len() as int))
}

/// End of `out` once its last segment and the `/` before it are removed.
pub open spec fn spec_pop_end(out: Seq<char>, j: int) -> int
    decreases j,
{
    if j <= 0 {
        0
    } else if 0 <= j - 1 < out.len() && out[j - 1] == '/' {
        j - 1
    } else {
        spec_pop_end(out, j - 1)
    }
}

/// `out` with its last segment and the `/` before it removed.
pub open spec fn spec_pop_segment(out: Seq<char>) -> Seq<char> {
    out.subrange(0, spec_pop_end(out, out.len() as int))
}

/// First position at or after `i` holding `/`, or the length.
pub open spec fn spec_seg_end(s: Seq<char>, i: int) -> int
    decreases s.len() - i,
{
    if i < s.len() && s[i] != '/' {
        spec_seg_end(s, i + 1)
    } else {
        i
    }
}

/// Dot-segment removal over a remaining input and an accumulated output, as
/// in standard reference resolution.
pub open spec fn spec_remove_dots(inp: Seq<char>, out: Seq<char>) -> Seq<char>
    decreases inp.len(),
        via spec_remove_dots_dec
{
    if inp.len() == 0 {
        out
    } else if inp.len() >= 3 && inp[0] == '.' && inp[1] == '.' && inp[2] == '/' {
        spec_remove_dots(inp.skip(3), out)
    } else if inp.len() >= 2 && inp[0] == '.' && inp[1] == '/' {
        spec_remove_dots(inp.skip(2), out)
    } else if inp.len() >= 3 && inp[0] == '/' && inp[1] == '.' && inp[2] == '/' {
        spec_remove_dots(inp.skip(2), out)
    } else if inp.len() == 2 && inp[0] == '/' && inp[1] == '.' {
        spec_remove_dots(seq!['/'], out)
    } else if inp.len() >= 4 && inp[0] == '/' && inp[1] == '.' && inp[2] == '.' && inp[3] == '/' {
        spec_remove_dots(inp.skip(3), spec_pop_segment(out))
    } else if inp.len() == 3 && inp[0] == '/' && inp[1] == '.' && inp[2] == '.' {
        spec_remove_dots(seq!['/'], spec_pop_segment(out))
    } else if inp.len() == 1 && inp[0] == '.' {
        out
    } else if inp.len() == 2 && inp[0] == '.' && inp[1] == '.' {
        out
    } else {
        let e = if inp[0] == '/' {
            spec_seg_end(inp, 1)
        } else {
            spec_seg_end(inp, 0)
        };
        spec_remove_dots(inp.skip(e), out + inp.subrange(0, e))
    }
}

#[via_fn]
proof fn spec_remove_dots_dec(inp: Seq<char>, out: Seq<char>) {
    if inp.len() == 0 {
    } else if inp.len() >= 3 && inp[0] == '.' && inp[1] == '.' && inp[2] == '/' {
    } else if inp.len() >= 2 && inp[0] == '.' && inp[1] == '/' {
    } else if inp.len() >= 3 && inp[0] == '/' && inp[1] == '.' && inp[2] == '/' {
    } else if inp.len() == 2 && inp[0] == '/' && inp[1] == '.' {
    } else if inp.len() >= 4 && inp[0] == '/' && inp[1] == '.' && inp[2] == '.' && inp[3] == '/' {
    } else if inp.len() == 3 && inp[0] == '/' && inp[1] == '.' && inp[2] == '.' {
    } else if inp.len() == 1 && inp[0] == '.' {
    } else if inp.len() == 2 && inp[0] == '.' && inp[1] == '.' {
    } else {
        lemma_seg_end_bounds(inp, 1);
        if inp[0] != '/' {
            assert(spec_seg_end(inp, 0) == spec_seg_end(inp, 1));
        }
    }
}

/// Dot-segment removal moves a lone slash through unchanged.
proof fn lemma_rds_single_slash(out: Seq<char>)
    ensures
        spec_remove_dots(seq!['/'], out) =~= out + seq!['/'],
{
    reveal_with_fuel(spec_remove_dots, 2);
    let one = seq!['/'];
    assert(spec_seg_end(one, 1) == 1);
    assert(one.skip(1) =~= Seq::<char>::empty());
    assert(one.subrange(0, 1) =~= one);
    assert(spec_remove_dots(Seq::<char>::empty(), out + one) == out + one);
}

proof fn lemma_seg_end_bounds(s: Seq<char>, i: int)
    requires
        0 <= i <= s.len(),
    ensures
        i <= spec_seg_end(s, i) <= s.len(),
    decreases s.len() - i,
{
    if i < s.len() && s[i] != '/' {
        lemma_seg_end_bounds(s, i + 1);
    }
}

fn seg_end(s: &Vec<char>, i: usize) -> (j: usize)
    requires
        i <= s@.len(),
    ensures
        j == spec_seg_end(s@, i as int),
        i <= j <= s@.len(),
    decreases s@.len() - i,
{
    if i < s.len() && s[i] != '/' {
        seg_end(s, i + 1)
    } else {
        i
    }
}

fn pop_end(out: &Vec<char>, j: usize) -> (r: usize)
    requires
        j <= out@.len(),
    ensures
        r == spec_pop_end(out@, j as int),
        r <= j,
    decreases j,
{
    if j == 0 {
        0
    } else if out[j - 1] == '/' {
        j - 1
    } else {
        pop_end(out, j - 1)
    }
}

/// Removes the last segment and its leading `/` from `out`.
fn pop_segment(out: &mut Vec<char>)
    ensures
        final(out)@ == spec_pop_segment(old(out)@),
{
    let e = pop_end(out, out.len());
    out.truncate(e);
    proof {
        assert(final(out)@ =~= spec_pop_segment(old(out)@));
    }
}

/// Applies dot-segment removal to `inp`, appending to `out`.
fn remove_dots_into(inp: &Vec<char>, from: usize, out: &mut Vec<char>)
    requires
        from <= inp@.len(),
    ensures
        final(out)@ == spec_remove_dots(inp@.skip(from as int), old(out)@),
    decreases inp@.len() - from,
{
    let n = inp.len();
    let len = n - from;
    if len == 0 {
        proof {
            assert(inp@.skip(from as int).len() == 0);
        }
    } else if len >= 3 && inp[from] == '.' && inp[from + 1] == '.' && inp[from + 2] == '/' {
        proof {
            lemma_skip_shift(inp@, from as int, 3);
        }
        remove_dots_into(inp, from + 3, out);
    } else if len >= 2 && inp[from] == '.' && inp[from + 1] == '/' {
        proof {
            lemma_skip_shift(inp@, from as int, 2);
        }
        remove_dots_into(inp, from + 2, out);
    } else if len >= 3 && inp[from] == '/' && inp[from + 1] == '.' && inp[from + 2] == '/' {
        proof {
            lemma_skip_shift(inp@, from as int, 2);
        }
        remove_dots_into(inp, from + 2, out);
    } else if len == 2 && inp[from] == '/' && inp[from + 1] == '.' {
        out.push('/');
        proof {
            lemma_rds_single_slash(old(out)@);
            assert(final(out)@ =~= old(out)@ + seq!['/']);
        }
    } else if len >= 4 && inp[from] == '/' && inp[from + 1] == '.' && inp[from + 2] == '.'
        && inp[from + 3] == '/' {
        pop_segment(out);
        proof {
            lemma_skip_shift(inp@, from as int, 3);
        }
        remove_dots_into(inp, from + 3, out);
    } else if len == 3 && inp[from] == '/' && inp[from + 1] == '.' && inp[from + 2] == '.' {
        pop_segment(out);
        out.push('/');
        proof {
            let popped = spec_pop_segment(old(out)@);
            lemma_rds_single_slash(popped);
            assert(final(out)@ =~= popped + seq!['/']);
        }
    } else if len == 1 && inp[from] == '.' {
    } else if len == 2 && inp[from] == '.' && inp[from + 1] == '.' {
    } else {
        let e = if inp[from] == '/' {
            proof {
                lemma_seg_end_skip(inp@, from as int, 1);
            }
            seg_end(inp, from + 1)
        } else {
            proof {
                lemma_seg_end_skip(inp@, from as int, 0);
                assert(spec_seg_end(inp@, from as int) == spec_seg_end(inp@, from + 1));
                lemma_seg_end_bounds(inp@, from + 1);
            }
            seg_end(inp, from)
        };
        let ghost mid = out@;
        let mut k: usize = from;
        while k < e
            invariant
                from <= k <= e <= inp@.len(),
                out@ =~= mid + inp@.subrange(from as int, k as int),
            decreases e - k,
        {
            let c = inp[k];
            out.push(c);
            k = k + 1;
        }
        proof {
            assert(out@ =~= mid + inp@.subrange(from as int, e as int));
            lemma_skip_shift(inp@, from as int, (e - from) as int);
            assert(inp@.skip(from as int).subrange(0, (e - from) as int) =~= inp@.subrange(
                from as int,
                e as int,
            ));
        }
        remove_dots_into(inp, e, out);
    }
}

proof fn lemma_skip_shift(s: Seq<char>, from: int, d: int)
    requires
        0 <= from,
        0 <= d,
        from + d <= s.len(),
    ensures
        s.skip(from).skip(d) =~= s.skip(from + d),
{
}

proof fn lemma_seg_end_skip(s: Seq<char>, from: int, k: int)
    requires
        0 <= from,
        0 <= k,
        from + k <= s.len(),
    ensures
        spec_seg_end(s.skip(from), k) == spec_seg_end(s, from + k) - from,
    decreases s.len() - from - k,
{
    assert(s.skip(from).len() == s.len() - from);
    if from + k < s.len() {
        assert(s.skip(from)[k] == s[from + k]);
    }
    if from + k < s.len() && s[from + k] != '/' {
        lemma_seg_end_skip(s, from, k + 1);
    }
}

/// Applies dot-segment removal to a whole path.
pub fn remove_dot_segments(p: &Vec<char>) -> (r: Vec<char>)
    ensures
        r@ == spec_remove_dots(p@, Seq::<char>::empty()),
{
    let mut out: Vec<char> = Vec::new();
    proof {
        assert(p@.skip(0) =~= p@);
    }
    remove_dots_into(p, 0, &mut out);
    out
}

// ---------------------------------------------------------------------------
// Reference resolution
// ---------------------------------------------------------------------------

/// Merges a relative path with a base, as in standard reference resolution.
pub open spec fn spec_merge(base: IriPartsV, rpath: Seq<char>) -> Seq<char> {
    if base.authority is Some && base.path.len() == 0 {
        seq!['/'] + rpath
    } else {
        spec_dirname(base.path) + rpath
    }
}

/// Resolves a reference, given as decomposed components, against a base.
pub open spec fn spec_resolve_parts(base: IriPartsV, r: Seq<char>) -> IriPartsV {
    let rp = spec_parse_iri(r);
    if rp.scheme is Some {
        IriPartsV {
            scheme: rp.scheme,
            authority: rp.authority,
            path: spec_remove_dots(rp.path, Seq::<char>::empty()),
            query: rp.query,
            fragment: rp.fragment,
        }
    } else if rp.authority is Some {
        IriPartsV {
            scheme: base.scheme,
            authority: rp.authority,
            path: spec_remove_dots(rp.path, Seq::<char>::empty()),
            query: rp.query,
            fragment: rp.fragment,
        }
    } else if rp.path.len() == 0 {
        IriPartsV {
            scheme: base.scheme,
            authority: base.authority,
            path: base.path,
            query: if rp.query is Some {
                rp.query
            } else {
                base.query
            },
            fragment: rp.fragment,
        }
    } else if rp.path[0] == '/' {
        IriPartsV {
            scheme: base.scheme,
            authority: base.authority,
            path: spec_remove_dots(rp.path, Seq::<char>::empty()),
            query: rp.query,
            fragment: rp.fragment,
        }
    } else {
        IriPartsV {
            scheme: base.scheme,
            authority: base.authority,
            path: spec_remove_dots(spec_merge(base, rp.path), Seq::<char>::empty()),
            query: rp.query,
            fragment: rp.fragment,
        }
    }
}

/// Writes decomposed components back into one IRI text.
pub open spec fn spec_recompose(p: IriPartsV) -> Seq<char> {
    (match p.scheme {
        Some(sch) => sch + seq![':'],
        None => Seq::<char>::empty(),
    }) + (match p.authority {
        Some(a) => seq!['/', '/'] + a,
        None => Seq::<char>::empty(),
    }) + p.path + (match p.query {
        Some(q) => seq!['?'] + q,
        None => Seq::<char>::empty(),
    }) + (match p.fragment {
        Some(f) => seq!['#'] + f,
        None => Seq::<char>::empty(),
    })
}

/// The text of a reference resolved against a base.
pub open spec fn spec_resolve_iri(base: IriPartsV, r: Seq<char>) -> Seq<char> {
    spec_recompose(spec_resolve_parts(base, r))
}

fn dir_end(p: &Vec<char>, j: usize) -> (r: usize)
    requires
        j <= p@.len(),
    ensures
        r == spec_dir_end(p@, j as int),
        r <= j,
    decreases j,
{
    if j == 0 {
        0
    } else if p[j - 1] == '/' {
        j
    } else {
        dir_end(p, j - 1)
    }
}

fn copy_chars(v: &Vec<char>) -> (r: Vec<char>)
    ensures
        r@ == v@,
{
    let r = crate::text::chars_range(v, 0, v.len());
    proof {
        assert(v@.subrange(0, v@.len() as int) =~= v@);
    }
    r
}

fn copy_opt_chars(v: &Option<Vec<char>>) -> (r: Option<Vec<char>>)
    ensures
        match v {
            Some(inner) => r matches Some(ri) && ri@ == inner@,
            None => r is None,
        },
{
    match v {
        Some(inner) => Some(copy_chars(inner)),
        None => None,
    }
}

fn merge_paths(base: &IriParts, rpath: &Vec<char>) -> (r: Vec<char>)
    ensures
        r@ == spec_merge(base@, rpath@),
{
    if base.authority.is_some() && base.path.len() == 0 {
        let mut r: Vec<char> = Vec::new();
        r.push('/');
        let mut k: usize = 0;
        while k < rpath.len()
            invariant
                k <= rpath@.len(),
                r@ =~= seq!['/'] + rpath@.subrange(0, k as int),
            decreases rpath@.len() - k,
        {
            r.push(rpath[k]);
            k = k + 1;
        }
        proof {
            assert(r@ =~= seq!['/'] + rpath@);
        }
        r
    } else {
        let e = dir_end(&base.path, base.path.len());
        let mut r = crate::text::chars_range(&base.path, 0, e);
        let mut k: usize = 0;
        while k < rpath.len()
            invariant
                k <= rpath@.len(),
                r@ =~= spec_dirname(base@.path) + rpath@.subrange(0, k as int),
            decreases rpath@.len() - k,
        {
            r.push(rpath[k]);
            k = k + 1;
        }
        proof {
            assert(r@ =~= spec_dirname(base@.path) + rpath@);
        }
        r
    }
}

/// Resolves a reference against a base given as decomposed components.
pub fn resolve_parts(base: &IriParts, r: &Vec<char>) -> (res: IriParts)
    ensures
        res@ == spec_resolve_parts(base@, r@),
{
    let rp = parse_iri(r);
    if rp.scheme.is_some() {
        IriParts {
            scheme: rp.scheme,
            authority: rp.authority,
            path: remove_dot_segments(&rp.path),
            query: rp.query,
            fragment: rp.fragment,
        }
    } else if rp.authority.is_some() {
        IriParts {
            scheme: copy_opt_chars(&base.scheme),
            authority: rp.authority,
            path: remove_dot_segments(&rp.path),
            query: rp.query,
            fragment: rp.fragment,
        }
    } else if rp.path.len() == 0 {
        IriParts {
            scheme: copy_opt_chars(&base.scheme),
            authority: copy_opt_chars(&base.authority),
            path: copy_chars(&base.path),
            query: if rp.query.is_some() {
                rp.query
            } else {
                copy_opt_chars(&base.query)
            },
            fragment: rp.fragment,
        }
    } else if rp.path[0] == '/' {
        IriParts {
            scheme: copy_opt_chars(&base.scheme),
            authority: copy_opt_chars(&base.authority),
            path: remove_dot_segments(&rp.path),
            query: rp.query,
            fragment: rp.fragment,
        }
    } else {
        let merged = merge_paths(base, &rp.path);
        IriParts {
            scheme: copy_opt_chars(&base.scheme),
            authority: copy_opt_chars(&base.authority),
            path: remove_dot_segments(&merged),
            query: rp.query,
            fragment: rp.fragment,
        }
    }
}

/// Writes decomposed components back into one IRI text.
pub fn recompose(p: &IriParts) -> (r: Vec<char>)
    ensures
        r@ == spec_recompose(p@),
{
    let mut out: Vec<char> = Vec::new();
    match &p.scheme {
        Some(sch) => {
            append_chars(&mut out, sch);
            out.push(':');
        },
        None => {},
    }
    match &p.authority {
        Some(a) => {
            out.push('/');
            out.push('/');
            append_chars(&mut out, a);
        },
        None => {},
    }
    append_chars(&mut out, &p.path);
    match &p.query {
        Some(q) => {
            out.push('?');
            append_chars(&mut out, q);
        },
        None => {},
    }
    match &p.fragment {
        Some(f) => {
            out.push('#');
            append_chars(&mut out, f);
        },
        None => {},
    }
    proof {
        assert(out@ =~= spec_recompose(p@));
    }
    out
}

/// Appends one character buffer to another.
pub fn append_chars(out: &mut Vec<char>, src: &Vec<char>)
    ensures
        final(out)@ == old(out)@ + src@,
{
    let ghost base = out@;
    let mut k: usize = 0;
    while k < src.len()
        invariant
            k <= src@.len(),
            out@ =~= base + src@.subrange(0, k as int),
        decreases src@.len() - k,
    {
        out.push(src[k]);
        k = k + 1;
    }
    proof {
        assert(out@ =~= base + src@);
    }
}

/// Resolves a reference against a base: the resolved text and its
/// decomposition.
pub fn resolve_iri(base: &IriParts, r: &Vec<char>) -> (res: (Vec<char>, IriParts))
    ensures
        res.0@ == spec_resolve_iri(base@, r@),
        res.1@ == spec_resolve_parts(base@, r@),
{
    let parts = resolve_parts(base, r);
    let text = recompose(&parts);
    (text, parts)
}

} // verus!
