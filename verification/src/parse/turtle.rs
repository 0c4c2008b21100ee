//! The Turtle grammar engine: recursive production functions that consume
//! scanner tokens, call into the parse context, and return a parsed value
//! plus zero or more side-channel triples (enqueued on the context).
//!
//! Every production takes the character buffer, a start position and the
//! mutable context, and returns the position after the consumed input with
//! the parsed value, or a [`ParseErr`].  A soft [`ParseErr::Mismatch`] lets
//! the caller try the next alternative; a hard [`ParseErr::Failure`] aborts
//! the enclosing statement.

use vstd::prelude::*;

use crate::error::Error;
use crate::ns;
use crate::parse::grammar::{
    spec_bnode_res, spec_bnpl_res, spec_coll_elems, spec_collection_close, spec_collection_res,
    spec_literal_res, spec_object_list_res, spec_object_res, spec_ol_rest, spec_pol_res,
    spec_pol_rest, spec_subject_res, spec_triples_first, spec_triples_res,
    spec_triples_statement_res, spec_verb_res, SpecOutcome,
};
use crate::parse::{desugar_collection, spec_spo_triples, Context, ParseErr, PoList, SpoList, MAX_CTX_LEN};
use crate::prolog::spec_resolve_ref;
use crate::scan;
use crate::term::{LiteralKind, Term, TermV, Triple, TripleV};
use crate::text::{chars_range, string_of_range};

verus! {

// ---------------------------------------------------------------------------
// Shared contract shapes
// ---------------------------------------------------------------------------

/// What every production preserves: context well-formedness, the counter
/// never decreasing (blank-node identities are never reused, even across
/// parse failures), and the queue only growing at its back.
pub open spec fn ctx_grows(old_c: &Context, new_c: &Context) -> bool {
    new_c.wf() == old_c.wf() && old_c.cnt() <= new_c.cnt() && old_c.queue().is_prefix_of(
        new_c.queue(),
    )
}

/// Progress of a successful production: input was consumed, within bounds.
pub open spec fn ok_shape(i: int, j: int, len: int) -> bool {
    i < j <= len
}

/// The views of a term list.
pub open spec fn terms_view(v: Seq<Term>) -> Seq<TermV> {
    v.map_values(|t: Term| t@)
}

/// The views of a predicate-object list.
pub open spec fn pols_view(v: Seq<PoList>) -> Seq<(TermV, Seq<TermV>)> {
    v.map_values(|p: PoList| (p.predicate_v(), p.objects_v()))
}

/// The prefix table a context parses under.
pub open spec fn pm_of(c: &Context) -> Map<Seq<char>, Seq<char>> {
    c.prolog.prefix_map()
}

/// The decomposed base IRI a context parses under.
pub open spec fn bp_of(c: &Context) -> Option<crate::iri::IriPartsV> {
    c.prolog.base_parts()
}

/// The context advanced by exactly the given minting and enqueueing.
pub open spec fn state_obeys(m: nat, sd: Seq<TripleV>, oc: &Context, nc: &Context) -> bool {
    nc.cnt() == oc.cnt() + m && nc.queue() =~= oc.queue() + sd
}

/// A term-producing production behaved exactly as its specification.
pub open spec fn term_obeys(
    r: Result<(usize, Term), ParseErr>,
    sp: SpecOutcome<TermV>,
    oc: &Context,
    nc: &Context,
) -> bool {
    match sp {
        SpecOutcome::Hit(j0, v, m, sd) => r matches Ok((j, t)) && j == j0 && t@ == v
            && state_obeys(m, sd, oc, nc),
        SpecOutcome::Soft(m, sd) => r matches Err(e) && e == ParseErr::Mismatch && state_obeys(
            m,
            sd,
            oc,
            nc,
        ),
        SpecOutcome::Hard => r matches Err(e) && e is Failure,
    }
}

/// An object-list production behaved exactly as its specification.
pub open spec fn terms_obeys(
    r: Result<(usize, Vec<Term>), ParseErr>,
    sp: SpecOutcome<Seq<TermV>>,
    oc: &Context,
    nc: &Context,
) -> bool {
    match sp {
        SpecOutcome::Hit(j0, vs, m, sd) => r matches Ok((j, objs)) && j == j0 && objs@.map_values(
            |t: Term| t@,
        ) =~= vs && state_obeys(m, sd, oc, nc),
        SpecOutcome::Soft(m, sd) => r matches Err(e) && e == ParseErr::Mismatch && state_obeys(
            m,
            sd,
            oc,
            nc,
        ),
        SpecOutcome::Hard => r matches Err(e) && e is Failure,
    }
}

/// A pair-list production behaved exactly as its specification.
pub open spec fn pols_obeys(
    r: Result<(usize, Vec<PoList>), ParseErr>,
    sp: SpecOutcome<Seq<(TermV, Seq<TermV>)>>,
    oc: &Context,
    nc: &Context,
) -> bool {
    match sp {
        SpecOutcome::Hit(j0, ps, m, sd) => r matches Ok((j, pols)) && j == j0
            && pols@.map_values(|p: PoList| (p.predicate_v(), p.objects_v())) =~= ps
            && state_obeys(m, sd, oc, nc),
        SpecOutcome::Soft(m, sd) => r matches Err(e) && e == ParseErr::Mismatch && state_obeys(
            m,
            sd,
            oc,
            nc,
        ),
        SpecOutcome::Hard => r matches Err(e) && e is Failure,
    }
}

/// The `triples` production behaved exactly as its specification.
pub open spec fn spo_obeys(
    r: Result<(usize, SpoList), ParseErr>,
    sp: SpecOutcome<(TermV, Seq<(TermV, Seq<TermV>)>)>,
    oc: &Context,
    nc: &Context,
) -> bool {
    match sp {
        SpecOutcome::Hit(j0, v, m, sd) => r matches Ok((j, spo)) && j == j0 && spo.subject_v()
            == v.0 && spo.po_lists_v() =~= v.1 && state_obeys(m, sd, oc, nc),
        SpecOutcome::Soft(m, sd) => r matches Err(e) && e == ParseErr::Mismatch && state_obeys(
            m,
            sd,
            oc,
            nc,
        ),
        SpecOutcome::Hard => r matches Err(e) && e is Failure,
    }
}

/// A statement behaved exactly as its specification: on a match the enqueued
/// triples are the statement's side triples followed by its own expansion.
pub open spec fn unit_obeys(
    r: Result<usize, ParseErr>,
    sp: SpecOutcome<()>,
    oc: &Context,
    nc: &Context,
) -> bool {
    match sp {
        SpecOutcome::Hit(j0, _, m, sd) => r matches Ok(j) && j == j0 && state_obeys(m, sd, oc, nc),
        SpecOutcome::Soft(m, sd) => r matches Err(e) && e == ParseErr::Mismatch && state_obeys(
            m,
            sd,
            oc,
            nc,
        ),
        SpecOutcome::Hard => r matches Err(e) && e is Failure,
    }
}

/// Mints a fresh anonymous blank node, or fails the parse hard in the
/// unreachable event that the session's counter is exhausted.
fn mint_anon(ctx: &mut Context) -> (r: Result<Term, ParseErr>)
    requires
        old(ctx).wf(),
    ensures
        ctx_grows(old(ctx), final(ctx)),
        old(ctx).same_prolog(final(ctx)),
        final(ctx).queue() == old(ctx).queue(),
        match r {
            Ok(t) => old(ctx).cnt() < u64::MAX && t@ == TermV::BNode(
                crate::parse::spec_anon_label(old(ctx).cnt()),
            ) && final(ctx).cnt() == old(ctx).cnt() + 1,
            Err(e) => old(ctx).cnt() == u64::MAX && final(ctx).cnt() == old(ctx).cnt() && (
            e matches ParseErr::Failure(err) && err is Parser),
        },
{
    proof {
        lemma_prefix_refl(old(ctx).queue());
    }
    if ctx.bnode_cnt < u64::MAX {
        Ok(ctx.new_anon_bnode())
    } else {
        Err(ParseErr::Failure(Error::Parser("blank node counter exhausted".to_owned())))
    }
}

// ---------------------------------------------------------------------------
// Small helpers
// ---------------------------------------------------------------------------

/// Get the given range without a left and right margin of characters.
pub fn unwrap_str(v: &Vec<char>, from: usize, to: usize, margin: usize) -> (r: Vec<char>)
    requires
        from <= to <= v@.len(),
        to - from >= 2 * margin,
    ensures
        r@ == v@.subrange(from + margin, to - margin),
{
    chars_range(v, from + margin, to - margin)
}

/// The text with local-name backslash escapes expanded: the backslash is
/// dropped, the escaped character kept.
pub open spec fn spec_escape(s: Seq<char>) -> Seq<char>
    decreases s.len(),
{
    if s.len() == 0 {
        Seq::empty()
    } else if s[0] == '\\' && s.len() >= 2 {
        seq![s[1]] + spec_escape(s.skip(2))
    } else {
        seq![s[0]] + spec_escape(s.skip(1))
    }
}

/// Applies the escape expansion of local-name escapes to a range.
pub fn escape(v: &Vec<char>, from: usize, to: usize) -> (r: Vec<char>)
    requires
        from <= to <= v@.len(),
    ensures
        r@ == spec_escape(v@.subrange(from as int, to as int)),
{
    let part = chars_range(v, from, to);
    escape_whole(&part)
}

fn escape_whole(v: &Vec<char>) -> (r: Vec<char>)
    ensures
        r@ == spec_escape(v@),
{
    let mut out: Vec<char> = Vec::new();
    let n = v.len();
    proof {
        assert(v@.skip(0) =~= v@);
    }
    let mut k: usize = 0;
    while k < n
        invariant
            n == v@.len(),
            k <= n,
            out@ + spec_escape(v@.skip(k as int)) =~= spec_escape(v@),
        decreases n - k,
    {
        proof {
            assert(v@.skip(k as int)[0] == v@[k as int]);
        }
        if v[k] == '\\' && k + 1 < n {
            proof {
                assert(v@.skip(k as int).len() >= 2);
                assert(v@.skip(k as int)[1] == v@[k + 1]);
                assert(v@.skip(k as int).skip(2) =~= v@.skip(k + 2));
            }
            out.push(v[k + 1]);
            k = k + 2;
        } else {
            proof {
                if v@[k as int] == '\\' {
                    assert(v@.skip(k as int).len() < 2);
                }
                assert(v@.skip(k as int).skip(1) =~= v@.skip(k + 1));
            }
            out.push(v[k]);
            k = k + 1;
        }
        proof {
            assert(out@ + spec_escape(v@.skip(k as int)) =~= spec_escape(v@));
        }
    }
    proof {
        assert(v@.skip(n as int) =~= Seq::<char>::empty());
        assert(out@ =~= spec_escape(v@));
    }
    out
}

/// A hard failure carrying the offending input, truncated to the context
/// window.
fn positioned_failure(s: &Vec<char>, i: usize) -> (r: ParseErr)
    requires
        i <= s@.len(),
    ensures
        r matches ParseErr::Failure(e) && e matches Error::Parser(_),
{
    let end = if s.len() - i > MAX_CTX_LEN {
        i + MAX_CTX_LEN
    } else {
        s.len()
    };
    ParseErr::Failure(Error::Parser(string_of_range(s, i, end)))
}

// ---------------------------------------------------------------------------
// Keyword matchers
// ---------------------------------------------------------------------------

/// `@prefix` begins at `i`.
pub open spec fn spec_at_prefix_kw(s: Seq<char>, i: int) -> bool {
    i + 7 <= s.len() && s[i] == '@' && s[i + 1] == 'p' && s[i + 2] == 'r' && s[i + 3] == 'e' && s[i
        + 4] == 'f' && s[i + 5] == 'i' && s[i + 6] == 'x'
}

fn at_prefix_kw(s: &Vec<char>, i: usize) -> (r: bool)
    requires
        i <= s@.len(),
    ensures
        r == spec_at_prefix_kw(s@, i as int),
{
    s.len() - i >= 7 && s[i] == '@' && s[i + 1] == 'p' && s[i + 2] == 'r' && s[i + 3] == 'e' && s[i
        + 4] == 'f' && s[i + 5] == 'i' && s[i + 6] == 'x'
}

/// `@base` begins at `i`.
pub open spec fn spec_at_base_kw(s: Seq<char>, i: int) -> bool {
    i + 5 <= s.len() && s[i] == '@' && s[i + 1] == 'b' && s[i + 2] == 'a' && s[i + 3] == 's' && s[i
        + 4] == 'e'
}

fn at_base_kw(s: &Vec<char>, i: usize) -> (r: bool)
    requires
        i <= s@.len(),
    ensures
        r == spec_at_base_kw(s@, i as int),
{
    s.len() - i >= 5 && s[i] == '@' && s[i + 1] == 'b' && s[i + 2] == 'a' && s[i + 3] == 's' && s[i
        + 4] == 'e'
}

/// The case-insensitive keyword `PREFIX` begins at `i`.
pub open spec fn spec_at_sparql_prefix_kw(s: Seq<char>, i: int) -> bool {
    i + 6 <= s.len() && (s[i] == 'P' || s[i] == 'p') && (s[i + 1] == 'R' || s[i + 1] == 'r') && (s[i
        + 2] == 'E' || s[i + 2] == 'e') && (s[i + 3] == 'F' || s[i + 3] == 'f') && (s[i + 4] == 'I'
        || s[i + 4] == 'i') && (s[i + 5] == 'X' || s[i + 5] == 'x')
}

fn at_sparql_prefix_kw(s: &Vec<char>, i: usize) -> (r: bool)
    requires
        i <= s@.len(),
    ensures
        r == spec_at_sparql_prefix_kw(s@, i as int),
{
    s.len() - i >= 6 && (s[i] == 'P' || s[i] == 'p') && (s[i + 1] == 'R' || s[i + 1] == 'r') && (s[i
        + 2] == 'E' || s[i + 2] == 'e') && (s[i + 3] == 'F' || s[i + 3] == 'f') && (s[i + 4] == 'I'
        || s[i + 4] == 'i') && (s[i + 5] == 'X' || s[i + 5] == 'x')
}

/// The case-insensitive keyword `BASE` begins at `i`.
pub open spec fn spec_at_sparql_base_kw(s: Seq<char>, i: int) -> bool {
    i + 4 <= s.len() && (s[i] == 'B' || s[i] == 'b') && (s[i + 1] == 'A' || s[i + 1] == 'a') && (s[i
        + 2] == 'S' || s[i + 2] == 's') && (s[i + 3] == 'E' || s[i + 3] == 'e')
}

fn at_sparql_base_kw(s: &Vec<char>, i: usize) -> (r: bool)
    requires
        i <= s@.len(),
    ensures
        r == spec_at_sparql_base_kw(s@, i as int),
{
    s.len() - i >= 4 && (s[i] == 'B' || s[i] == 'b') && (s[i + 1] == 'A' || s[i + 1] == 'a') && (s[i
        + 2] == 'S' || s[i + 2] == 's') && (s[i + 3] == 'E' || s[i + 3] == 'e')
}

/// `true` begins at `i`.
pub open spec fn spec_at_true(s: Seq<char>, i: int) -> bool {
    i + 4 <= s.len() && s[i] == 't' && s[i + 1] == 'r' && s[i + 2] == 'u' && s[i + 3] == 'e'
}

/// `false` begins at `i`.
pub open spec fn spec_at_false(s: Seq<char>, i: int) -> bool {
    i + 5 <= s.len() && s[i] == 'f' && s[i + 1] == 'a' && s[i + 2] == 'l' && s[i + 3] == 's' && s[i
        + 4] == 'e'
}

// ---------------------------------------------------------------------------
// Literals
// ---------------------------------------------------------------------------

/// Parses the production `BooleanLiteral ::= 'true' | 'false'`, tagging the
/// lexical form with the boolean datatype.
pub fn boolean_literal(s: &Vec<char>, i: usize) -> (r: Result<(usize, Term), ParseErr>)
    requires
        i <= s@.len(),
    ensures
        match r {
            Ok((j, t)) => (spec_at_true(s@, i as int) && j == i + 4 && t@ == TermV::Literal(
                "true"@,
                crate::term::LiteralKindV::Datatype(ns::xsd_boolean_iri()),
            )) || (!spec_at_true(s@, i as int) && spec_at_false(s@, i as int) && j == i + 5 && t@
                == TermV::Literal(
                "false"@,
                crate::term::LiteralKindV::Datatype(ns::xsd_boolean_iri()),
            )),
            Err(e) => e == ParseErr::Mismatch && !spec_at_true(s@, i as int) && !spec_at_false(
                s@,
                i as int,
            ),
        },
{
    if s.len() - i >= 4 && s[i] == 't' && s[i + 1] == 'r' && s[i + 2] == 'u' && s[i + 3] == 'e' {
        proof {
            reveal_strlit("true");
        }
        let lex = "true".to_owned();
        proof {
            assert(lex@ =~= "true"@);
        }
        Ok((i + 4, Term::Literal(lex, LiteralKind::Datatype(ns::xsd_boolean()))))
    } else if s.len() - i >= 5 && s[i] == 'f' && s[i + 1] == 'a' && s[i + 2] == 'l' && s[i + 3]
        == 's' && s[i + 4] == 'e' {
        proof {
            reveal_strlit("false");
        }
        let lex = "false".to_owned();
        proof {
            assert(lex@ =~= "false"@);
        }
        Ok((i + 5, Term::Literal(lex, LiteralKind::Datatype(ns::xsd_boolean()))))
    } else {
        Err(ParseErr::Mismatch)
    }
}

/// Parses the production `NumericLiteral ::= INTEGER | DECIMAL | DOUBLE`,
/// longest form first, keeping the lexical form verbatim and tagging it with
/// its canonical datatype.
pub fn numeric_literal(s: &Vec<char>, i: usize) -> (r: Result<(usize, Term), ParseErr>)
    requires
        i <= s@.len(),
    ensures
        match r {
            Ok((j, t)) => i < j <= s@.len() && (
                (scan::spec_double_end(s@, i as int) == Some(j as int) && t@ == TermV::Literal(
                    s@.subrange(i as int, j as int),
                    crate::term::LiteralKindV::Datatype(ns::xsd_double_iri()),
                )) || (scan::spec_double_end(s@, i as int) is None && scan::spec_decimal_end(
                    s@,
                    i as int,
                ) == Some(j as int) && t@ == TermV::Literal(
                    s@.subrange(i as int, j as int),
                    crate::term::LiteralKindV::Datatype(ns::xsd_decimal_iri()),
                )) || (scan::spec_double_end(s@, i as int) is None && scan::spec_decimal_end(
                    s@,
                    i as int,
                ) is None && scan::spec_integer_end(s@, i as int) == Some(j as int) && t@
                    == TermV::Literal(
                    s@.subrange(i as int, j as int),
                    crate::term::LiteralKindV::Datatype(ns::xsd_integer_iri()),
                ))),
            Err(e) => e == ParseErr::Mismatch && scan::spec_double_end(s@, i as int) is None
                && scan::spec_decimal_end(s@, i as int) is None && scan::spec_integer_end(
                s@,
                i as int,
            ) is None,
        },
{
    if let Some(j) = scan::scan_double(s, i) {
        let lex = string_of_range(s, i, j);
        Ok((j, Term::Literal(lex, LiteralKind::Datatype(ns::xsd_double()))))
    } else if let Some(j) = scan::scan_decimal(s, i) {
        let lex = string_of_range(s, i, j);
        Ok((j, Term::Literal(lex, LiteralKind::Datatype(ns::xsd_decimal()))))
    } else if let Some(j) = scan::scan_integer(s, i) {
        let lex = string_of_range(s, i, j);
        Ok((j, Term::Literal(lex, LiteralKind::Datatype(ns::xsd_integer()))))
    } else {
        Err(ParseErr::Mismatch)
    }
}

/// Parses the String production over its four quoting forms, returning the
/// end of the token and the lexical value between the delimiters, kept
/// verbatim (escapes recognized, not resolved).
pub fn string(s: &Vec<char>, i: usize) -> (r: Result<(usize, String), ParseErr>)
    requires
        i <= s@.len(),
    ensures
        match r {
            Ok((j, lex)) => scan::spec_string_end(s@, i as int) matches Some((e, f, t)) && j == e
                && i < j <= s@.len() && lex@ == s@.subrange(f, t),
            Err(e) => e == ParseErr::Mismatch && scan::spec_string_end(s@, i as int) is None,
        },
{
    match scan::scan_string(s, i) {
        Some((e, f, t)) => Ok((e, string_of_range(s, f, t))),
        None => Err(ParseErr::Mismatch),
    }
}

// ---------------------------------------------------------------------------
// IRIs and blank nodes
// ---------------------------------------------------------------------------

/// Parses the production `iri ::= IRIREF | PrefixedName`.  An IRI reference
/// is taken without its angle brackets and resolved against the base IRI.
pub fn iri(s: &Vec<char>, i: usize, ctx: &Context) -> (r: Result<(usize, Term), ParseErr>)
    requires
        i <= s@.len(),
        ctx.wf(),
    ensures
        match r {
            Ok((j, t)) => i < j <= s@.len() && iri_ok(s@, i as int, ctx, j as int, t@),
            Err(e) => iri_err(s@, i as int, ctx, e),
        },
        spec_iri_hit(s@, i as int, ctx) ==> (r matches Ok((j, t)) && j == spec_iri_end(
            s@,
            i as int,
        ) && t@ == spec_iri_value(s@, i as int, ctx)),
        spec_iri_soft(s@, i as int) ==> r == Err::<(usize, Term), ParseErr>(ParseErr::Mismatch),
        (!spec_iri_hit(s@, i as int, ctx) && !spec_iri_soft(s@, i as int)) ==> (r matches Err(
            ParseErr::Failure(e),
        ) && e is InvalidPrefix),
{
    match scan::scan_iriref(s, i) {
        Some(e) => {
            let body = unwrap_str(s, i, e, 1);
            Ok((e, ctx.new_iri(&body)))
        },
        None => prefixed_name(s, i, ctx),
    }
}

/// The success condition of `iri`: an IRI reference resolved against the
/// base, or a prefixed name.
pub open spec fn iri_ok(s: Seq<char>, i: int, ctx: &Context, j: int, t: TermV) -> bool {
    match scan::spec_iriref_end(s, i) {
        Some(e) => j == e && t == TermV::Iri(
            spec_resolve_ref(ctx.prolog.base_parts(), s.subrange(i + 1, e - 1)),
        ),
        None => prefixed_name_ok(s, i, ctx, j, t),
    }
}

/// The failure condition of `iri`.
pub open spec fn iri_err(s: Seq<char>, i: int, ctx: &Context, e: ParseErr) -> bool {
    scan::spec_iriref_end(s, i) is None && prefixed_name_err(s, i, ctx, e)
}

/// An IRI production succeeds here: an IRI reference token, or a prefixed
/// name whose prefix is bound.
pub open spec fn spec_iri_hit(s: Seq<char>, i: int, ctx: &Context) -> bool {
    scan::spec_iriref_end(s, i) is Some || (match scan::spec_pname_ln_end(s, i) {
        Some((ne, _)) => ctx.prolog.prefix_map().contains_key(s.subrange(i, ne - 1)),
        None => match scan::spec_pname_ns_end(s, i) {
            Some(ne) => ctx.prolog.prefix_map().contains_key(s.subrange(i, ne - 1)),
            None => false,
        },
    })
}

/// No IRI token begins here at all.
pub open spec fn spec_iri_soft(s: Seq<char>, i: int) -> bool {
    scan::spec_iriref_end(s, i) is None && scan::spec_pname_ln_end(s, i) is None
        && scan::spec_pname_ns_end(s, i) is None
}

/// The end of the IRI token at `i`, where one begins.
pub open spec fn spec_iri_end(s: Seq<char>, i: int) -> int {
    match scan::spec_iriref_end(s, i) {
        Some(e) => e,
        None => match scan::spec_pname_ln_end(s, i) {
            Some((_, le)) => le,
            None => match scan::spec_pname_ns_end(s, i) {
                Some(ne) => ne,
                None => i,
            },
        },
    }
}

/// The term the `iri` production yields at `i`, where it succeeds.
pub open spec fn spec_iri_value(s: Seq<char>, i: int, ctx: &Context) -> TermV {
    match scan::spec_iriref_end(s, i) {
        Some(e) => TermV::Iri(spec_resolve_ref(ctx.prolog.base_parts(), s.subrange(i + 1, e - 1))),
        None => match scan::spec_pname_ln_end(s, i) {
            Some((ne, le)) => TermV::Iri(
                ctx.prolog.prefix_map()[s.subrange(i, ne - 1)] + spec_escape(s.subrange(ne, le)),
            ),
            None => match scan::spec_pname_ns_end(s, i) {
                Some(ne) => TermV::Iri(ctx.prolog.prefix_map()[s.subrange(i, ne - 1)]),
                None => TermV::Iri(Seq::empty()),
            },
        },
    }
}

/// The success condition of `prefixed_name`: a PNAME_LN or PNAME_NS token
/// whose prefix is bound, yielding the namespace concatenated with the
/// escape-expanded suffix.
pub open spec fn prefixed_name_ok(s: Seq<char>, i: int, ctx: &Context, j: int, t: TermV) -> bool {
    match scan::spec_pname_ln_end(s, i) {
        Some((ns_end, le)) => {
            &&& j == le
            &&& ctx.prolog.prefix_map().contains_key(s.subrange(i, ns_end - 1))
            &&& t == TermV::Iri(
                ctx.prolog.prefix_map()[s.subrange(i, ns_end - 1)] + spec_escape(
                    s.subrange(ns_end, le),
                ),
            )
        },
        None => match scan::spec_pname_ns_end(s, i) {
            Some(ne) => {
                &&& j == ne
                &&& ctx.prolog.prefix_map().contains_key(s.subrange(i, ne - 1))
                &&& t == TermV::Iri(ctx.prolog.prefix_map()[s.subrange(i, ne - 1)])
            },
            None => false,
        },
    }
}

/// The failure condition of `prefixed_name`: a soft mismatch when no
/// prefixed-name token begins here, a hard unresolved-prefix failure when one
/// does but its prefix is not bound.
pub open spec fn prefixed_name_err(s: Seq<char>, i: int, ctx: &Context, e: ParseErr) -> bool {
    match e {
        ParseErr::Mismatch => scan::spec_pname_ln_end(s, i) is None && scan::spec_pname_ns_end(
            s,
            i,
        ) is None,
        ParseErr::Failure(err) => match err {
            Error::InvalidPrefix(p) => match scan::spec_pname_ln_end(s, i) {
                Some((ns_end, _)) => p@ == s.subrange(i, ns_end - 1)
                    && !ctx.prolog.prefix_map().contains_key(s.subrange(i, ns_end - 1)),
                None => match scan::spec_pname_ns_end(s, i) {
                    Some(ne) => p@ == s.subrange(i, ne - 1)
                        && !ctx.prolog.prefix_map().contains_key(s.subrange(i, ne - 1)),
                    None => false,
                },
            },
            _ => false,
        },
    }
}

/// Parses the production `PrefixedName ::= PNAME_LN | PNAME_NS`: the prefix
/// is looked up in the table, and on a miss the parse fails hard with an
/// unresolved-prefix error carrying the offending prefix text.
pub fn prefixed_name(s: &Vec<char>, i: usize, ctx: &Context) -> (r: Result<(usize, Term), ParseErr>)
    requires
        i <= s@.len(),
        ctx.wf(),
    ensures
        match r {
            Ok((j, t)) => i < j <= s@.len() && prefixed_name_ok(s@, i as int, ctx, j as int, t@),
            Err(e) => prefixed_name_err(s@, i as int, ctx, e),
        },
{
    match scan::pname_ln(s, i) {
        Some((ns_end, le)) => {
            let pfx = string_of_range(s, i, ns_end - 1);
            match ctx.prolog.lookup_prefix(pfx.as_str()) {
                Some(ns_str) => {
                    let suffix = escape(s, ns_end, le);
                    let suffix_str = crate::text::chars_to_string(suffix.as_slice());
                    let mut text = ns_str;
                    text.append(suffix_str.as_str());
                    Ok((le, Term::Iri(text)))
                },
                None => Err(ParseErr::Failure(Error::InvalidPrefix(pfx))),
            }
        },
        None => match scan::pname_ns(s, i) {
            Some(ne) => {
                let pfx = string_of_range(s, i, ne - 1);
                match ctx.prolog.lookup_prefix(pfx.as_str()) {
                    Some(ns_str) => Ok((ne, Term::Iri(ns_str))),
                    None => Err(ParseErr::Failure(Error::InvalidPrefix(pfx))),
                }
            },
            None => Err(ParseErr::Mismatch),
        },
    }
}

/// Parses the production `BlankNode ::= BLANK_NODE_LABEL | ANON`.  A label
/// keeps its text (after `_:`); an `[ ]` form mints a fresh anonymous node.
pub fn blank_node(s: &Vec<char>, i: usize, ctx: &mut Context) -> (r: Result<
    (usize, Term),
    ParseErr,
>)
    requires
        i <= s@.len(),
        old(ctx).wf(),
    ensures
        ctx_grows(old(ctx), final(ctx)),
        old(ctx).same_prolog(final(ctx)),
        final(ctx).queue() == old(ctx).queue(),
        match r {
            Ok((j, t)) => i < j <= s@.len() && match scan::spec_bnode_label_end(s@, i as int) {
                Some(le) => j == le && t@ == TermV::BNode(s@.subrange(i + 2, le))
                    && final(ctx).cnt() == old(ctx).cnt(),
                None => scan::spec_anon_end(s@, i as int) == Some(j as int) && t@ == TermV::BNode(
                    crate::parse::spec_anon_label(old(ctx).cnt()),
                ) && final(ctx).cnt() == old(ctx).cnt() + 1,
            },
            Err(e) => e is Failure || (scan::spec_bnode_label_end(s@, i as int) is None
                && scan::spec_anon_end(s@, i as int) is None && final(ctx).cnt() == old(
                ctx,
            ).cnt()),
        },
        term_obeys(r, spec_bnode_res(s@, i as int, old(ctx).cnt()), old(ctx), final(ctx)),
        scan::spec_bnode_label_end(s@, i as int) is Some ==> r is Ok,
        (scan::spec_bnode_label_end(s@, i as int) is None && scan::spec_anon_end(s@, i as int)
            is Some && old(ctx).cnt() < u64::MAX) ==> r is Ok,
        (scan::spec_bnode_label_end(s@, i as int) is None && scan::spec_anon_end(s@, i as int)
            is Some && old(ctx).cnt() == u64::MAX) ==> (r matches Err(ParseErr::Failure(e))
            && e is Parser),
        (scan::spec_bnode_label_end(s@, i as int) is None && scan::spec_anon_end(s@, i as int)
            is None) ==> r == Err::<(usize, Term), ParseErr>(ParseErr::Mismatch),
{
    match scan::blank_node_label(s, i) {
        Some(le) => {
            let label = string_of_range(s, i + 2, le);
            Ok((le, ctx.new_labeled_bnode(label)))
        },
        None => match scan::scan_anon(s, i) {
            Some(j) => match mint_anon(ctx) {
                Ok(t) => Ok((j, t)),
                Err(e) => Err(e),
            },
            None => Err(ParseErr::Mismatch),
        },
    }
}

// ---------------------------------------------------------------------------
// RDF literals
// ---------------------------------------------------------------------------

/// A `^^` datatype marker follows the string that ends at `e`.
pub open spec fn spec_committed_datatype(s: Seq<char>, e: int) -> bool {
    e + 2 <= s.len() && s[e] == '^' && s[e + 1] == '^'
}

/// Parses the production `RDFLiteral ::= String (LANGTAG | '^^' iri)?`.  A
/// bare string defaults to the string datatype; a committed `^^` must be
/// followed by a resolvable IRI, else the parse fails hard.
pub fn rdf_literal(s: &Vec<char>, i: usize, ctx: &Context) -> (r: Result<(usize, Term), ParseErr>)
    requires
        i <= s@.len(),
        ctx.wf(),
    ensures
        match r {
            Ok((j, t)) => i < j <= s@.len() && (scan::spec_string_end(s@, i as int) matches Some(
                (e, f, tl),
            ) && {
                let lex = s@.subrange(f, tl);
                if e + 2 <= s@.len() && s@[e] == '^' && s@[e + 1] == '^' {
                    exists|dt: Seq<char>|
                        t@ == TermV::Literal(lex, crate::term::LiteralKindV::Datatype(dt))
                            && #[trigger] iri_ok(s@, e + 2, ctx, j as int, TermV::Iri(dt))
                } else {
                    match scan::spec_langtag_end(s@, e) {
                        Some(lj) => j == lj && t@ == TermV::Literal(
                            lex,
                            crate::term::LiteralKindV::Lang(s@.subrange(e + 1, lj)),
                        ),
                        None => j == e && t@ == TermV::Literal(
                            lex,
                            crate::term::LiteralKindV::Datatype(ns::xsd_string_iri()),
                        ),
                    }
                }
            }),
            Err(e) => e == ParseErr::Mismatch ==> scan::spec_string_end(s@, i as int) is None,
        },
        scan::spec_string_end(s@, i as int) is None ==> r == Err::<(usize, Term), ParseErr>(
            ParseErr::Mismatch,
        ),
        (scan::spec_string_end(s@, i as int) matches Some((e, _, _))
            && !spec_committed_datatype(s@, e)) ==> r is Ok,
        (scan::spec_string_end(s@, i as int) matches Some((e, _, _)) && spec_committed_datatype(
            s@,
            e,
        ) && spec_iri_hit(s@, e + 2, ctx)) ==> r is Ok,
        (scan::spec_string_end(s@, i as int) matches Some((e, _, _)) && spec_committed_datatype(
            s@,
            e,
        ) && spec_iri_soft(s@, e + 2)) ==> (r matches Err(ParseErr::Failure(err))
            && err is Parser),
        (scan::spec_string_end(s@, i as int) matches Some((e, _, _)) && spec_committed_datatype(
            s@,
            e,
        ) && !spec_iri_hit(s@, e + 2, ctx) && !spec_iri_soft(s@, e + 2)) ==> (r matches Err(
            ParseErr::Failure(err),
        ) && err is InvalidPrefix),
{
    let (e, lex) = match string(s, i) {
        Ok(p) => p,
        Err(err) => {
            return Err(err);
        },
    };
    if s.len() - e >= 2 && s[e] == '^' && s[e + 1] == '^' {
        match iri(s, e + 2, ctx) {
            Ok((j, dt_term)) => {
                let dt_text = match dt_term {
                    Term::Iri(x) => x,
                    _ => {
                        proof {
                            assert(false);
                        }
                        String::new()
                    },
                };
                proof {
                    assert(iri_ok(s@, e + 2, ctx, j as int, TermV::Iri(dt_text@)));
                }
                Ok((j, Term::Literal(lex, LiteralKind::Datatype(dt_text))))
            },
            Err(ParseErr::Failure(err)) => Err(ParseErr::Failure(err)),
            Err(ParseErr::Mismatch) => Err(positioned_failure(s, e + 2)),
        }
    } else {
        match scan::scan_langtag(s, e) {
            Some(lj) => {
                let tag = string_of_range(s, e + 1, lj);
                Ok((lj, Term::Literal(lex, LiteralKind::Lang(tag))))
            },
            None => Ok((e, Term::Literal(lex, LiteralKind::Datatype(ns::xsd_string())))),
        }
    }
}

/// No literal token begins here.
pub open spec fn spec_literal_soft(s: Seq<char>, i: int) -> bool {
    scan::spec_string_end(s, i) is None && scan::spec_double_end(s, i) is None
        && scan::spec_decimal_end(s, i) is None && scan::spec_integer_end(s, i) is None
        && !spec_at_true(s, i) && !spec_at_false(s, i)
}

/// Parses the production `literal ::= RDFLiteral | NumericLiteral |
/// BooleanLiteral`.
pub fn literal(s: &Vec<char>, i: usize, ctx: &Context) -> (r: Result<(usize, Term), ParseErr>)
    requires
        i <= s@.len(),
        ctx.wf(),
    ensures
        match r {
            Ok((j, t)) => i < j <= s@.len() && t@ is Literal,
            Err(e) => e is Failure || (scan::spec_string_end(s@, i as int) is None
                && scan::spec_double_end(s@, i as int) is None && scan::spec_decimal_end(
                s@,
                i as int,
            ) is None && scan::spec_integer_end(s@, i as int) is None && !spec_at_true(s@, i as int)
                && !spec_at_false(s@, i as int)),
        },
        term_obeys(r, spec_literal_res(s@, i as int, pm_of(ctx), bp_of(ctx)), ctx, ctx),
        (scan::spec_string_end(s@, i as int) matches Some((e, _, _))
            && !spec_committed_datatype(s@, e)) ==> r is Ok,
        (scan::spec_string_end(s@, i as int) matches Some((e, _, _)) && spec_committed_datatype(
            s@,
            e,
        ) && spec_iri_hit(s@, e + 2, ctx)) ==> r is Ok,
        (scan::spec_string_end(s@, i as int) is None && (scan::spec_double_end(s@, i as int)
            is Some || scan::spec_decimal_end(s@, i as int) is Some || scan::spec_integer_end(
            s@,
            i as int,
        ) is Some || spec_at_true(s@, i as int) || spec_at_false(s@, i as int))) ==> r is Ok,
        spec_literal_soft(s@, i as int) ==> r == Err::<(usize, Term), ParseErr>(
            ParseErr::Mismatch,
        ),
{
    match rdf_literal(s, i, ctx) {
        Ok(p) => Ok(p),
        Err(ParseErr::Failure(e)) => Err(ParseErr::Failure(e)),
        Err(ParseErr::Mismatch) => match numeric_literal(s, i) {
            Ok(p) => Ok(p),
            Err(_) => match boolean_literal(s, i) {
                Ok(p) => Ok(p),
                Err(_) => Err(ParseErr::Mismatch),
            },
        },
    }
}

// ---------------------------------------------------------------------------
// Structural productions
// ---------------------------------------------------------------------------

proof fn lemma_prefix_refl(a: Seq<crate::term::TripleV>)
    ensures
        a.is_prefix_of(a),
{
    assert(a =~= a.subrange(0, a.len() as int));
}

proof fn lemma_prefix_trans(
    a: Seq<crate::term::TripleV>,
    b: Seq<crate::term::TripleV>,
    c: Seq<crate::term::TripleV>,
)
    requires
        a.is_prefix_of(b),
        b.is_prefix_of(c),
    ensures
        a.is_prefix_of(c),
{
    assert(a =~= c.subrange(0, a.len() as int));
}

/// Parses the production `verb ::= predicate | 'a'`, where a predicate is an
/// IRI and the keyword `a` expands to `rdf:type`.
pub fn verb(s: &Vec<char>, i: usize, ctx: &Context) -> (r: Result<(usize, Term), ParseErr>)
    requires
        i <= s@.len(),
        ctx.wf(),
    ensures
        match r {
            Ok((j, t)) => i < j <= s@.len() && (iri_ok(s@, i as int, ctx, j as int, t@) || (
            iri_err(s@, i as int, ctx, ParseErr::Mismatch) && i < s@.len() && s@[i as int] == 'a'
                && j == i + 1 && t@ == TermV::Iri(ns::rdf_type_iri()))),
            Err(e) => e is Failure ==> iri_err(s@, i as int, ctx, e),
        },
        term_obeys(r, spec_verb_res(s@, i as int, pm_of(ctx), bp_of(ctx)), ctx, ctx),
        spec_iri_hit(s@, i as int, ctx) ==> (r matches Ok((j, t)) && j == spec_iri_end(
            s@,
            i as int,
        ) && t@ == spec_iri_value(s@, i as int, ctx)),
        (spec_iri_soft(s@, i as int) && i < s@.len() && s@[i as int] == 'a') ==> (r matches Ok(
            (j, t),
        ) && j == i + 1 && t@ == TermV::Iri(ns::rdf_type_iri())),
        (spec_iri_soft(s@, i as int) && (i >= s@.len() || s@[i as int] != 'a')) ==> r == Err::<
            (usize, Term),
            ParseErr,
        >(ParseErr::Mismatch),
        (!spec_iri_hit(s@, i as int, ctx) && !spec_iri_soft(s@, i as int)) ==> (r matches Err(
            ParseErr::Failure(e),
        ) && e is InvalidPrefix),
{
    match iri(s, i, ctx) {
        Ok(p) => Ok(p),
        Err(ParseErr::Failure(e)) => Err(ParseErr::Failure(e)),
        Err(ParseErr::Mismatch) => {
            if i < s.len() && s[i] == 'a' {
                Ok((i + 1, ns::rdf_type()))
            } else {
                Err(ParseErr::Mismatch)
            }
        },
    }
}

/// Parses the production `predicate ::= iri`.
pub fn predicate(s: &Vec<char>, i: usize, ctx: &Context) -> (r: Result<(usize, Term), ParseErr>)
    requires
        i <= s@.len(),
        ctx.wf(),
    ensures
        match r {
            Ok((j, t)) => i < j <= s@.len() && iri_ok(s@, i as int, ctx, j as int, t@),
            Err(e) => iri_err(s@, i as int, ctx, e),
        },
        spec_iri_hit(s@, i as int, ctx) ==> r is Ok,
        spec_iri_soft(s@, i as int) ==> r == Err::<(usize, Term), ParseErr>(ParseErr::Mismatch),
{
    iri(s, i, ctx)
}

/// Parses the production `subject ::= iri | BlankNode | collection`.
pub fn subject(s: &Vec<char>, i: usize, ctx: &mut Context) -> (r: Result<(usize, Term), ParseErr>)
    requires
        i <= s@.len(),
        old(ctx).wf(),
    ensures
        ctx_grows(old(ctx), final(ctx)),
        old(ctx).same_prolog(final(ctx)),
        match r {
            Ok((j, t)) => ok_shape(i as int, j as int, s@.len() as int) && (
            t@ is Iri || t@ is BNode),
            Err(_) => true,
        },
        spec_iri_hit(s@, i as int, old(ctx)) ==> (r matches Ok((j, t)) && j == spec_iri_end(
            s@,
            i as int,
        ) && t@ == spec_iri_value(s@, i as int, old(ctx)) && final(ctx).queue() == old(
            ctx,
        ).queue() && final(ctx).cnt() == old(ctx).cnt()),
        term_obeys(
            r,
            spec_subject_res(s@, i as int, pm_of(old(ctx)), bp_of(old(ctx)), old(ctx).cnt()),
            old(ctx),
            final(ctx),
        ),
{
    proof {
        lemma_prefix_refl(old(ctx).queue());
    }
    match iri(s, i, &*ctx) {
        Ok(p) => {
            return Ok(p);
        },
        Err(ParseErr::Failure(e)) => {
            return Err(ParseErr::Failure(e));
        },
        Err(ParseErr::Mismatch) => {},
    }
    match blank_node(s, i, ctx) {
        Ok(p) => {
            return Ok(p);
        },
        Err(ParseErr::Failure(e)) => {
            return Err(ParseErr::Failure(e));
        },
        Err(ParseErr::Mismatch) => {},
    }
    collection(s, i, ctx)
}

/// No object alternative's token begins here.
pub open spec fn spec_object_soft(s: Seq<char>, i: int) -> bool {
    spec_iri_soft(s, i) && scan::spec_bnode_label_end(s, i) is None && scan::spec_anon_end(
        s,
        i,
    ) is None && (i >= s.len() || s[i] != '(') && (i >= s.len() || s[i] != '[')
        && spec_literal_soft(s, i)
}

/// Parses the production `object ::= iri | BlankNode | collection |
/// blankNodePropertyList | literal`.  A blank-node property list mints a
/// fresh subject and enqueues its triples at once.
pub fn object(s: &Vec<char>, i: usize, ctx: &mut Context) -> (r: Result<(usize, Term), ParseErr>)
    requires
        i <= s@.len(),
        old(ctx).wf(),
    ensures
        ctx_grows(old(ctx), final(ctx)),
        old(ctx).same_prolog(final(ctx)),
        match r {
            Ok((j, t)) => ok_shape(i as int, j as int, s@.len() as int),
            Err(_) => true,
        },
        spec_object_soft(s@, i as int) ==> (r matches Err(ParseErr::Mismatch)
            && final(ctx).queue() == old(ctx).queue() && final(ctx).cnt() == old(ctx).cnt()),
        spec_iri_hit(s@, i as int, old(ctx)) ==> (r matches Ok((j, t)) && j == spec_iri_end(
            s@,
            i as int,
        ) && t@ == spec_iri_value(s@, i as int, old(ctx)) && final(ctx).queue() == old(
            ctx,
        ).queue() && final(ctx).cnt() == old(ctx).cnt()),
        term_obeys(
            r,
            spec_object_res(s@, i as int, pm_of(old(ctx)), bp_of(old(ctx)), old(ctx).cnt()),
            old(ctx),
            final(ctx),
        ),
    decreases s@.len() - i, 1int,
{
    proof {
        lemma_prefix_refl(old(ctx).queue());
    }
    match iri(s, i, &*ctx) {
        Ok(p) => {
            return Ok(p);
        },
        Err(ParseErr::Failure(e)) => {
            return Err(ParseErr::Failure(e));
        },
        Err(ParseErr::Mismatch) => {},
    }
    match blank_node(s, i, ctx) {
        Ok(p) => {
            return Ok(p);
        },
        Err(ParseErr::Failure(e)) => {
            return Err(ParseErr::Failure(e));
        },
        Err(ParseErr::Mismatch) => {},
    }
    match collection(s, i, ctx) {
        Ok(p) => {
            return Ok(p);
        },
        Err(ParseErr::Failure(e)) => {
            return Err(ParseErr::Failure(e));
        },
        Err(ParseErr::Mismatch) => {},
    }
    if i < s.len() && s[i] == '[' {
        // the fresh subject is minted first, then the embedded list is
        // parsed using it
        let bn = match mint_anon(ctx) {
            Ok(t) => t,
            Err(e) => {
                return Err(e);
            },
        };
        let ghost mid1 = *ctx;
        match blank_node_property_list(s, i, ctx) {
            Ok((j, pols)) => {
                let spo = SpoList::new(bn.duplicate(), pols);
                let ghost mid2 = *ctx;
                ctx.push_triples(spo.triples());
                proof {
                    lemma_prefix_trans(old(ctx).queue(), mid1.queue(), mid2.queue());
                    lemma_prefix_trans(old(ctx).queue(), mid2.queue(), ctx.queue());
                }
                return Ok((j, bn));
            },
            Err(ParseErr::Failure(e)) => {
                proof {
                    lemma_prefix_trans(old(ctx).queue(), mid1.queue(), ctx.queue());
                }
                return Err(ParseErr::Failure(e));
            },
            Err(ParseErr::Mismatch) => {
                proof {
                    lemma_prefix_trans(old(ctx).queue(), mid1.queue(), ctx.queue());
                }
            },
        }
    }
    literal(s, i, &*ctx)
}


/// Gathers the elements of a collection after the first: a required
/// whitespace separator, then a further object, until either fails softly.
fn collection_elements(s: &Vec<char>, pos: usize, ctx: &mut Context, elems: &mut Vec<Term>) -> (r:
    Result<usize, ParseErr>)
    requires
        pos <= s@.len(),
        old(ctx).wf(),
    ensures
        ctx_grows(old(ctx), final(ctx)),
        old(ctx).same_prolog(final(ctx)),
        r matches Ok(pe) ==> pos <= pe <= s@.len(),
        r matches Err(e) ==> e is Failure,
        forall|ma: nat, sa: Seq<TripleV>|
            #![trigger spec_coll_elems(
                s@,
                pos as int,
                pm_of(old(ctx)),
                bp_of(old(ctx)),
                old(ctx).cnt(),
                terms_view(old(elems)@),
                ma,
                sa,
            )]
            spec_coll_elems(
                s@,
                pos as int,
                pm_of(old(ctx)),
                bp_of(old(ctx)),
                old(ctx).cnt(),
                terms_view(old(elems)@),
                ma,
                sa,
            ) == (match r {
                Ok(pe) => SpecOutcome::Hit(
                    pe as int,
                    terms_view(final(elems)@),
                    (ma + final(ctx).cnt() - old(ctx).cnt()) as nat,
                    sa + final(ctx).queue().skip(old(ctx).queue().len() as int),
                ),
                Err(_) => SpecOutcome::<Seq<TermV>>::Hard,
            }),
    decreases s@.len() - pos, 0int,
{
    proof {
        lemma_prefix_refl(old(ctx).queue());
    }
    let w = match scan::multispace1(s, pos) {
        Some(w) => w,
        None => {
            proof {
                assert(old(ctx).queue().skip(old(ctx).queue().len() as int) =~= Seq::<
                    TripleV,
                >::empty());
                assert forall|ma: nat, sa: Seq<TripleV>| #[trigger]
                    spec_coll_elems(
                        s@,
                        pos as int,
                        pm_of(old(ctx)),
                        bp_of(old(ctx)),
                        old(ctx).cnt(),
                        terms_view(old(elems)@),
                        ma,
                        sa,
                    ) == SpecOutcome::<Seq<TermV>>::Hit(
                        pos as int,
                        terms_view(final(elems)@),
                        (ma + final(ctx).cnt() - old(ctx).cnt()) as nat,
                        sa + final(ctx).queue().skip(old(ctx).queue().len() as int),
                    ) by {
                    assert(sa + final(ctx).queue().skip(old(ctx).queue().len() as int) =~= sa);
                }
            }
            return Ok(pos);
        },
    };
    let ghost mid0 = *ctx;
    match object(s, w, ctx) {
        Err(ParseErr::Failure(e)) => Err(ParseErr::Failure(e)),
        Err(ParseErr::Mismatch) => {
            proof {
                let pm = pm_of(old(ctx));
                let bp = bp_of(old(ctx));
                let sp = spec_object_res(s@, w as int, pm, bp, old(ctx).cnt());
                match sp {
                    SpecOutcome::Soft(m2s, sd2s) => {
                        assert(ctx.queue() =~= old(ctx).queue() + sd2s);
                        assert(ctx.queue().skip(old(ctx).queue().len() as int) =~= sd2s);
                        assert forall|ma: nat, sa: Seq<TripleV>| #[trigger]
                            spec_coll_elems(
                                s@,
                                pos as int,
                                pm,
                                bp,
                                old(ctx).cnt(),
                                terms_view(old(elems)@),
                                ma,
                                sa,
                            ) == SpecOutcome::<Seq<TermV>>::Hit(
                                pos as int,
                                terms_view(final(elems)@),
                                (ma + final(ctx).cnt() - old(ctx).cnt()) as nat,
                                sa + final(ctx).queue().skip(old(ctx).queue().len() as int),
                            ) by {
                            assert(sa + sd2s =~= sa + final(ctx).queue().skip(
                                old(ctx).queue().len() as int,
                            ));
                        }
                    },
                    _ => {
                        assert(false);
                    },
                }
            }
            Ok(pos)
        },
        Ok((j2, v2)) => {
            elems.push(v2);
            let ghost mid = *ctx;
            let ghost elems_mid = elems@;
            let r2 = collection_elements(s, j2, ctx, elems);
            proof {
                lemma_prefix_trans(old(ctx).queue(), mid.queue(), ctx.queue());
                let pm = pm_of(old(ctx));
                let bp = bp_of(old(ctx));
                let sp = spec_object_res(s@, w as int, pm, bp, old(ctx).cnt());
                match sp {
                    SpecOutcome::Hit(j2s, v2s, m2s, sd2s) => {
                        assert(mid.queue() =~= old(ctx).queue() + sd2s);
                        assert(terms_view(elems_mid) =~= terms_view(old(elems)@).push(v2@));
                        assert forall|ma: nat, sa: Seq<TripleV>| #[trigger]
                            spec_coll_elems(
                                s@,
                                pos as int,
                                pm,
                                bp,
                                old(ctx).cnt(),
                                terms_view(old(elems)@),
                                ma,
                                sa,
                            ) == (match r2 {
                                Ok(pe) => SpecOutcome::Hit(
                                    pe as int,
                                    terms_view(final(elems)@),
                                    (ma + final(ctx).cnt() - old(ctx).cnt()) as nat,
                                    sa + final(ctx).queue().skip(old(ctx).queue().len() as int),
                                ),
                                Err(_) => SpecOutcome::<Seq<TermV>>::Hard,
                            }) by {
                            assert(spec_coll_elems(
                                s@,
                                pos as int,
                                pm,
                                bp,
                                old(ctx).cnt(),
                                terms_view(old(elems)@),
                                ma,
                                sa,
                            ) == spec_coll_elems(
                                s@,
                                j2 as int,
                                pm,
                                bp,
                                mid.cnt(),
                                terms_view(elems_mid),
                                ma + m2s,
                                sa + sd2s,
                            ));
                            if r2 is Ok {
                                let rest = ctx.queue().skip(mid.queue().len() as int);
                                assert(ctx.queue() =~= mid.queue() + rest);
                                assert(ctx.queue().skip(old(ctx).queue().len() as int) =~= sd2s
                                    + rest);
                                assert((sa + sd2s) + rest =~= sa + (sd2s + rest));
                                assert(sa + ctx.queue().skip(old(ctx).queue().len() as int) =~= (sa
                                    + sd2s) + rest);
                            }
                        }
                    },
                    _ => {
                        assert(false);
                    },
                }
            }
            r2
        },
    }
}

/// The shape of an empty collection at `i`: `(`, whitespace, `)`, and the
/// position after it.
pub open spec fn spec_empty_collection(s: Seq<char>, i: int) -> Option<int> {
    if i < s.len() && s[i] == '(' {
        let w = scan::spec_ws_end(s, i + 1);
        if w < s.len() && s[w] == ')' {
            Some(w + 1)
        } else {
            None
        }
    } else {
        None
    }
}

/// Parses the production `collection ::= '(' object* ')'`.
///
/// An empty collection resolves to the fixed `rdf:nil` term with zero side
/// triples.  A non-empty one is desugared into a chain of fresh cells and
/// resolves to the first cell; the elements' own side triples are enqueued
/// first (as the elements are parsed), then the chain triples, left to right.
#[verifier::rlimit(100)]
#[verifier::spinoff_prover]
pub fn collection(s: &Vec<char>, i: usize, ctx: &mut Context) -> (r: Result<
    (usize, Term),
    ParseErr,
>)
    requires
        i <= s@.len(),
        old(ctx).wf(),
    ensures
        ctx_grows(old(ctx), final(ctx)),
        old(ctx).same_prolog(final(ctx)),
        match r {
            Ok((j, t)) => ok_shape(i as int, j as int, s@.len() as int) && (
            t@ == TermV::Iri(ns::rdf_nil_iri()) || t@ is BNode),
            Err(_) => true,
        },
        (i >= s@.len() || s@[i as int] != '(') ==> (r == Err::<(usize, Term), ParseErr>(
            ParseErr::Mismatch,
        ) && final(ctx).queue() == old(ctx).queue() && final(ctx).cnt() == old(ctx).cnt()),
        spec_empty_collection(s@, i as int) matches Some(j0) ==> (r matches Ok((j, t)) && j == j0
            && t@ == TermV::Iri(ns::rdf_nil_iri()) && final(ctx).queue() == old(ctx).queue()
            && final(ctx).cnt() == old(ctx).cnt()),
        r matches Ok((j, t)) ==> exists|side: Seq<crate::term::TripleV>, evs: Seq<TermV>|
            {
                &&& old(ctx).cnt() + evs.len() <= final(ctx).cnt()
                &&& final(ctx).queue() == old(ctx).queue() + side
                    + crate::parse::spec_collection_triples(
                    (final(ctx).cnt() - evs.len()) as nat,
                    evs,
                )
                &&& t@ == (if evs.len() == 0 {
                    TermV::Iri(ns::rdf_nil_iri())
                } else {
                    TermV::BNode(crate::parse::spec_anon_label(
                        (final(ctx).cnt() - evs.len()) as nat,
                    ))
                })
            },
        term_obeys(
            r,
            spec_collection_res(s@, i as int, pm_of(old(ctx)), bp_of(old(ctx)), old(ctx).cnt()),
            old(ctx),
            final(ctx),
        ),
    decreases s@.len() - i, 0int,
{
    proof {
        lemma_prefix_refl(old(ctx).queue());
    }
    if !(i < s.len() && s[i] == '(') {
        return Err(ParseErr::Mismatch);
    }
    let pos0 = scan::multispace0(s, i + 1);
    proof {
        if spec_empty_collection(s@, i as int) is Some {
            assert(s@[pos0 as int] == ')');
            assert(spec_object_soft(s@, pos0 as int));
        }
    }
    let ghost pm = pm_of(old(ctx));
    let ghost bp = bp_of(old(ctx));
    let ghost c0 = old(ctx).cnt();
    let ghost full = spec_collection_res(s@, i as int, pm, bp, c0);
    let mut elems: Vec<Term> = Vec::new();
    let mut pos = pos0;
    // first element, if any
    match object(s, pos0, ctx) {
        Ok((j, t)) => {
            let ghost tv = t@;
            elems.push(t);
            let ghost mid = *ctx;
            match collection_elements(s, j, ctx, &mut elems) {
                Ok(pe) => {
                    proof {
                        lemma_prefix_trans(old(ctx).queue(), mid.queue(), ctx.queue());
                        let sp0 = spec_object_res(s@, pos0 as int, pm, bp, c0);
                        match sp0 {
                            SpecOutcome::Hit(j0s, v0s, m0s, sd0s) => {
                                assert(mid.queue() =~= old(ctx).queue() + sd0s);
                                assert(terms_view(seq![t]) =~= seq![tv]);
                                assert(spec_coll_elems(
                                    s@,
                                    j as int,
                                    pm,
                                    bp,
                                    mid.cnt(),
                                    terms_view(seq![t]),
                                    m0s,
                                    sd0s,
                                ) == SpecOutcome::<Seq<TermV>>::Hit(
                                    pe as int,
                                    terms_view(elems@),
                                    (m0s + ctx.cnt() - mid.cnt()) as nat,
                                    sd0s + ctx.queue().skip(mid.queue().len() as int),
                                ));
                                let rest = ctx.queue().skip(mid.queue().len() as int);
                                assert(ctx.queue() =~= mid.queue() + rest);
                                assert(ctx.queue().skip(old(ctx).queue().len() as int) =~= sd0s
                                    + rest);
                                assert(full == spec_collection_close(
                                    s@,
                                    pe as int,
                                    terms_view(elems@),
                                    c0,
                                    (ctx.cnt() - c0) as nat,
                                    ctx.queue().skip(old(ctx).queue().len() as int),
                                ));
                            },
                            _ => {
                                assert(false);
                            },
                        }
                    }
                    pos = pe;
                },
                Err(e) => {
                    proof {
                        lemma_prefix_trans(old(ctx).queue(), mid.queue(), ctx.queue());
                        let sp0 = spec_object_res(s@, pos0 as int, pm, bp, c0);
                        match sp0 {
                            SpecOutcome::Hit(j0s, v0s, m0s, sd0s) => {
                                assert(mid.queue() =~= old(ctx).queue() + sd0s);
                                assert(terms_view(seq![t]) =~= seq![tv]);
                                assert(spec_coll_elems(
                                    s@,
                                    j as int,
                                    pm,
                                    bp,
                                    mid.cnt(),
                                    terms_view(seq![t]),
                                    m0s,
                                    sd0s,
                                ) == SpecOutcome::<Seq<TermV>>::Hard);
                                assert(full == SpecOutcome::<TermV>::Hard);
                            },
                            _ => {
                                assert(false);
                            },
                        }
                    }
                    return Err(e);
                },
            }
        },
        Err(ParseErr::Failure(e)) => {
            return Err(ParseErr::Failure(e));
        },
        Err(ParseErr::Mismatch) => {
            proof {
                let sp0 = spec_object_res(s@, pos0 as int, pm, bp, c0);
                match sp0 {
                    SpecOutcome::Soft(m0s, sd0s) => {
                        assert(ctx.queue() =~= old(ctx).queue() + sd0s);
                        assert(ctx.queue().skip(old(ctx).queue().len() as int) =~= sd0s);
                        assert(terms_view(elems@) =~= Seq::<TermV>::empty());
                        assert(full == spec_collection_close(
                            s@,
                            pos0 as int,
                            terms_view(elems@),
                            c0,
                            (ctx.cnt() - c0) as nat,
                            ctx.queue().skip(old(ctx).queue().len() as int),
                        ));
                    },
                    _ => {
                        assert(false);
                    },
                }
            }
        },
    }
    proof {
        assert(full == spec_collection_close(
            s@,
            pos as int,
            terms_view(elems@),
            c0,
            (ctx.cnt() - c0) as nat,
            ctx.queue().skip(old(ctx).queue().len() as int),
        ));
    }
    let close = scan::multispace0(s, pos);
    if close < s.len() && s[close] == ')' {
        if elems.len() as u64 > u64::MAX - ctx.bnode_cnt {
            return Err(ParseErr::Failure(Error::Parser(
                "blank node counter exhausted".to_owned(),
            )));
        }
        let ghost mid = *ctx;
        let ghost evs = terms_view(elems@);
        let first = desugar_collection(elems, ctx);
        proof {
            assert(mid.queue() =~= ctx.queue().subrange(0, mid.queue().len() as int));
            lemma_prefix_trans(old(ctx).queue(), mid.queue(), ctx.queue());
            let side = mid.queue().skip(old(ctx).queue().len() as int);
            assert(mid.queue() =~= old(ctx).queue() + side);
            assert(ctx.queue() =~= old(ctx).queue() + side + crate::parse::spec_collection_triples(
                (ctx.cnt() - evs.len()) as nat,
                evs,
            ));
            assert(old(ctx).cnt() + evs.len() <= ctx.cnt());
            assert(first@ == (if evs.len() == 0 {
                TermV::Iri(ns::rdf_nil_iri())
            } else {
                TermV::BNode(crate::parse::spec_anon_label((ctx.cnt() - evs.len()) as nat))
            }));
            let m_merge = (mid.cnt() - c0) as nat;
            assert(full == spec_collection_close(s@, pos as int, evs, c0, m_merge, side));
            assert(evs.len() + c0 + m_merge <= u64::MAX);
            assert(full == SpecOutcome::<TermV>::Hit(
                close + 1,
                first@,
                (m_merge + evs.len()) as nat,
                side + crate::parse::spec_collection_triples(mid.cnt(), evs),
            ));
            assert(ctx.queue() =~= old(ctx).queue() + (side
                + crate::parse::spec_collection_triples(mid.cnt(), evs)));
        }
        Ok((close + 1, first))
    } else {
        proof {
            assert(full == SpecOutcome::<TermV>::Soft(
                (ctx.cnt() - c0) as nat,
                ctx.queue().skip(old(ctx).queue().len() as int),
            ));
            assert(ctx.queue() =~= old(ctx).queue() + ctx.queue().skip(
                old(ctx).queue().len() as int,
            ));
        }
        Err(ParseErr::Mismatch)
    }
}

/// Parses the production `blankNodePropertyList ::= '[' predicateObjectList
/// ']'` and returns the inner predicate-object lists; the caller mints the
/// subject node.
pub fn blank_node_property_list(s: &Vec<char>, i: usize, ctx: &mut Context) -> (r: Result<
    (usize, Vec<PoList>),
    ParseErr,
>)
    requires
        i <= s@.len(),
        old(ctx).wf(),
    ensures
        ctx_grows(old(ctx), final(ctx)),
        old(ctx).same_prolog(final(ctx)),
        match r {
            Ok((j, pols)) => ok_shape(i as int, j as int, s@.len() as int) && pols@.len() >= 1,
            Err(_) => true,
        },
        (i >= s@.len() || s@[i as int] != '[') ==> (r matches Err(ParseErr::Mismatch)
            && final(ctx).queue() == old(ctx).queue() && final(ctx).cnt() == old(ctx).cnt()),
        pols_obeys(
            r,
            spec_bnpl_res(s@, i as int, pm_of(old(ctx)), bp_of(old(ctx)), old(ctx).cnt()),
            old(ctx),
            final(ctx),
        ),
    decreases s@.len() - i, 0int,
{
    proof {
        lemma_prefix_refl(old(ctx).queue());
    }
    if !(i < s.len() && s[i] == '[') {
        return Err(ParseErr::Mismatch);
    }
    let pos = scan::multispace0(s, i + 1);
    let (j, pols) = match predicate_object_list(s, pos, ctx) {
        Ok(p) => p,
        Err(e) => {
            return Err(e);
        },
    };
    let close = scan::multispace0(s, j);
    if close < s.len() && s[close] == ']' {
        Ok((close + 1, pols))
    } else {
        Err(ParseErr::Mismatch)
    }
}

/// Parses the production `objectList ::= object (',' object)*`.
///
/// Called only after a committed verb: no object at all, or none after a
/// comma, is a hard parse failure, not an empty result.
pub fn object_list(s: &Vec<char>, i: usize, ctx: &mut Context) -> (r: Result<
    (usize, Vec<Term>),
    ParseErr,
>)
    requires
        i <= s@.len(),
        old(ctx).wf(),
    ensures
        ctx_grows(old(ctx), final(ctx)),
        old(ctx).same_prolog(final(ctx)),
        match r {
            Ok((j, objs)) => ok_shape(i as int, j as int, s@.len() as int)
                && objs@.len() >= 1,
            Err(e) => e is Failure,
        },
        terms_obeys(
            r,
            spec_object_list_res(s@, i as int, pm_of(old(ctx)), bp_of(old(ctx)), old(ctx).cnt()),
            old(ctx),
            final(ctx),
        ),
    decreases s@.len() - i, 2int,
{
    proof {
        lemma_prefix_refl(old(ctx).queue());
    }
    let ghost pm = pm_of(old(ctx));
    let ghost bp = bp_of(old(ctx));
    let ghost c0 = old(ctx).cnt();
    let mut objs: Vec<Term> = Vec::new();
    match object(s, i, ctx) {
        Err(ParseErr::Failure(e)) => Err(ParseErr::Failure(e)),
        Err(ParseErr::Mismatch) => Err(positioned_failure(s, i)),
        Ok((j, t)) => {
            let ghost tv = t@;
            objs.push(t);
            let ghost mid = *ctx;
            let r2 = object_list_rest(s, j, ctx, &mut objs);
            proof {
                lemma_prefix_trans(old(ctx).queue(), mid.queue(), ctx.queue());
                let sp0 = spec_object_res(s@, i as int, pm, bp, c0);
                match sp0 {
                    SpecOutcome::Hit(j0s, v0s, m0s, sd0s) => {
                        assert(mid.queue() =~= old(ctx).queue() + sd0s);
                        assert(terms_view(seq![t]) =~= seq![tv]);
                        assert(spec_object_list_res(s@, i as int, pm, bp, c0) == spec_ol_rest(
                            s@,
                            j as int,
                            pm,
                            bp,
                            mid.cnt(),
                            terms_view(seq![t]),
                            m0s,
                            sd0s,
                        ));
                        if r2 is Ok {
                            let rest = ctx.queue().skip(mid.queue().len() as int);
                            assert(ctx.queue() =~= mid.queue() + rest);
                            assert(ctx.queue().skip(old(ctx).queue().len() as int) =~= sd0s
                                + rest);
                            assert((sd0s) + rest =~= ctx.queue().skip(
                                old(ctx).queue().len() as int,
                            ));
                            assert(ctx.queue() =~= old(ctx).queue() + (sd0s + rest));
                        }
                    },
                    _ => {
                        assert(false);
                    },
                }
            }
            match r2 {
                Ok(pe) => Ok((pe, objs)),
                Err(e) => Err(e),
            }
        },
    }
}

/// Gathers the objects after the first: each comma must be followed by a
/// further object.
fn object_list_rest(s: &Vec<char>, pos: usize, ctx: &mut Context, objs: &mut Vec<Term>) -> (r:
    Result<usize, ParseErr>)
    requires
        pos <= s@.len(),
        old(ctx).wf(),
    ensures
        ctx_grows(old(ctx), final(ctx)),
        old(ctx).same_prolog(final(ctx)),
        r matches Ok(pe) ==> pos <= pe <= s@.len(),
        r matches Err(e) ==> e is Failure,
        old(objs)@.len() >= 1 ==> final(objs)@.len() >= 1,
        forall|ma: nat, sa: Seq<TripleV>|
            #![trigger spec_ol_rest(
                s@,
                pos as int,
                pm_of(old(ctx)),
                bp_of(old(ctx)),
                old(ctx).cnt(),
                terms_view(old(objs)@),
                ma,
                sa,
            )]
            spec_ol_rest(
                s@,
                pos as int,
                pm_of(old(ctx)),
                bp_of(old(ctx)),
                old(ctx).cnt(),
                terms_view(old(objs)@),
                ma,
                sa,
            ) == (match r {
                Ok(pe) => SpecOutcome::Hit(
                    pe as int,
                    terms_view(final(objs)@),
                    (ma + final(ctx).cnt() - old(ctx).cnt()) as nat,
                    sa + final(ctx).queue().skip(old(ctx).queue().len() as int),
                ),
                Err(_) => SpecOutcome::<Seq<TermV>>::Hard,
            }),
    decreases s@.len() - pos, 0int,
{
    proof {
        lemma_prefix_refl(old(ctx).queue());
    }
    let w = scan::multispace0(s, pos);
    if !(w < s.len() && s[w] == ',') {
        proof {
            assert forall|ma: nat, sa: Seq<TripleV>| #[trigger]
                spec_ol_rest(
                    s@,
                    pos as int,
                    pm_of(old(ctx)),
                    bp_of(old(ctx)),
                    old(ctx).cnt(),
                    terms_view(old(objs)@),
                    ma,
                    sa,
                ) == SpecOutcome::<Seq<TermV>>::Hit(
                    pos as int,
                    terms_view(final(objs)@),
                    (ma + final(ctx).cnt() - old(ctx).cnt()) as nat,
                    sa + final(ctx).queue().skip(old(ctx).queue().len() as int),
                ) by {
                assert(sa + final(ctx).queue().skip(old(ctx).queue().len() as int) =~= sa);
            }
        }
        return Ok(pos);
    }
    let w2 = scan::multispace0(s, w + 1);
    match object(s, w2, ctx) {
        Err(ParseErr::Failure(e)) => Err(ParseErr::Failure(e)),
        Err(ParseErr::Mismatch) => Err(positioned_failure(s, w2)),
        Ok((j2, v2)) => {
            let ghost tv = v2@;
            objs.push(v2);
            let ghost mid = *ctx;
            let ghost objs_mid = objs@;
            let r2 = object_list_rest(s, j2, ctx, objs);
            proof {
                lemma_prefix_trans(old(ctx).queue(), mid.queue(), ctx.queue());
                let pm = pm_of(old(ctx));
                let bp = bp_of(old(ctx));
                let sp = spec_object_res(s@, w2 as int, pm, bp, old(ctx).cnt());
                match sp {
                    SpecOutcome::Hit(j2s, v2s, m2s, sd2s) => {
                        assert(mid.queue() =~= old(ctx).queue() + sd2s);
                        assert(terms_view(objs_mid) =~= terms_view(old(objs)@).push(tv));
                        assert forall|ma: nat, sa: Seq<TripleV>| #[trigger]
                            spec_ol_rest(
                                s@,
                                pos as int,
                                pm,
                                bp,
                                old(ctx).cnt(),
                                terms_view(old(objs)@),
                                ma,
                                sa,
                            ) == (match r2 {
                                Ok(pe) => SpecOutcome::Hit(
                                    pe as int,
                                    terms_view(final(objs)@),
                                    (ma + final(ctx).cnt() - old(ctx).cnt()) as nat,
                                    sa + final(ctx).queue().skip(old(ctx).queue().len() as int),
                                ),
                                Err(_) => SpecOutcome::<Seq<TermV>>::Hard,
                            }) by {
                            assert(spec_ol_rest(
                                s@,
                                pos as int,
                                pm,
                                bp,
                                old(ctx).cnt(),
                                terms_view(old(objs)@),
                                ma,
                                sa,
                            ) == spec_ol_rest(
                                s@,
                                j2 as int,
                                pm,
                                bp,
                                mid.cnt(),
                                terms_view(objs_mid),
                                ma + m2s,
                                sa + sd2s,
                            ));
                            if r2 is Ok {
                                let rest = ctx.queue().skip(mid.queue().len() as int);
                                assert(ctx.queue() =~= mid.queue() + rest);
                                assert(ctx.queue().skip(old(ctx).queue().len() as int) =~= sd2s
                                    + rest);
                                assert((sa + sd2s) + rest =~= sa + (sd2s + rest));
                                assert(sa + ctx.queue().skip(old(ctx).queue().len() as int) =~= (sa
                                    + sd2s) + rest);
                            }
                        }
                    },
                    _ => {
                        assert(false);
                    },
                }
            }
            r2
        },
    }
}

/// Parses the production `predicateObjectList ::= verb objectList (';' (verb
/// objectList)?)*`.
///
/// A position where no first verb matches is a soft mismatch (the production
/// does not apply); after a matched verb, a missing object list fails hard.
pub fn predicate_object_list(s: &Vec<char>, i: usize, ctx: &mut Context) -> (r: Result<
    (usize, Vec<PoList>),
    ParseErr,
>)
    requires
        i <= s@.len(),
        old(ctx).wf(),
    ensures
        ctx_grows(old(ctx), final(ctx)),
        old(ctx).same_prolog(final(ctx)),
        match r {
            Ok((j, pols)) => ok_shape(i as int, j as int, s@.len() as int)
                && pols@.len() >= 1,
            Err(_) => true,
        },
        pols_obeys(
            r,
            spec_pol_res(s@, i as int, pm_of(old(ctx)), bp_of(old(ctx)), old(ctx).cnt()),
            old(ctx),
            final(ctx),
        ),
    decreases s@.len() - i, 3int,
{
    proof {
        lemma_prefix_refl(old(ctx).queue());
    }
    let ghost pm = pm_of(old(ctx));
    let ghost bp = bp_of(old(ctx));
    let ghost c0 = old(ctx).cnt();
    let (v0, verb0) = match verb(s, i, &*ctx) {
        Ok(p) => p,
        Err(ParseErr::Failure(e)) => {
            return Err(ParseErr::Failure(e));
        },
        Err(ParseErr::Mismatch) => {
            return Err(ParseErr::Mismatch);
        },
    };
    let ghost pv = verb0@;
    let w0 = match scan::multispace1(s, v0) {
        Some(w) => w,
        None => {
            return Err(ParseErr::Mismatch);
        },
    };
    let (j1, objs) = match object_list(s, w0, ctx) {
        Ok(p) => p,
        Err(e) => {
            return Err(e);
        },
    };
    let ghost objsv = terms_view(objs@);
    let mut pols: Vec<PoList> = Vec::new();
    pols.push(PoList::new(verb0, objs));
    let ghost mid = *ctx;
    let ghost pols_mid = pols@;
    let r2 = pol_rest(s, j1, ctx, &mut pols);
    proof {
        lemma_prefix_trans(old(ctx).queue(), mid.queue(), ctx.queue());
        let sp1 = spec_object_list_res(s@, w0 as int, pm, bp, c0);
        match sp1 {
            SpecOutcome::Hit(j1s, vs, m1s, sd1s) => {
                assert(mid.queue() =~= old(ctx).queue() + sd1s);
                assert(pols_view(pols_mid) =~= seq![(pv, objsv)]);
                assert(spec_pol_res(s@, i as int, pm, bp, c0) == spec_pol_rest(
                    s@,
                    j1 as int,
                    pm,
                    bp,
                    mid.cnt(),
                    pols_view(pols_mid),
                    m1s,
                    sd1s,
                ));
                if r2 is Ok {
                    let rest = ctx.queue().skip(mid.queue().len() as int);
                    assert(ctx.queue() =~= mid.queue() + rest);
                    assert(ctx.queue().skip(old(ctx).queue().len() as int) =~= sd1s + rest);
                    assert(ctx.queue() =~= old(ctx).queue() + (sd1s + rest));
                }
            },
            _ => {
                assert(false);
            },
        }
    }
    match r2 {
        Ok(pe) => Ok((pe, pols)),
        Err(e) => Err(e),
    }
}

/// Gathers the pairs after the first: each semicolon must be followed by a
/// verb, whitespace and an object list, else the list ends before it.
#[verifier::rlimit(100)]
#[verifier::spinoff_prover]
fn pol_rest(s: &Vec<char>, pos: usize, ctx: &mut Context, pols: &mut Vec<PoList>) -> (r: Result<
    usize,
    ParseErr,
>)
    requires
        pos <= s@.len(),
        old(ctx).wf(),
    ensures
        ctx_grows(old(ctx), final(ctx)),
        old(ctx).same_prolog(final(ctx)),
        r matches Ok(pe) ==> pos <= pe <= s@.len(),
        r matches Err(e) ==> e is Failure,
        old(pols)@.len() >= 1 ==> final(pols)@.len() >= 1,
        forall|ma: nat, sa: Seq<TripleV>|
            #![trigger spec_pol_rest(
                s@,
                pos as int,
                pm_of(old(ctx)),
                bp_of(old(ctx)),
                old(ctx).cnt(),
                pols_view(old(pols)@),
                ma,
                sa,
            )]
            spec_pol_rest(
                s@,
                pos as int,
                pm_of(old(ctx)),
                bp_of(old(ctx)),
                old(ctx).cnt(),
                pols_view(old(pols)@),
                ma,
                sa,
            ) == (match r {
                Ok(pe) => SpecOutcome::Hit(
                    pe as int,
                    pols_view(final(pols)@),
                    (ma + final(ctx).cnt() - old(ctx).cnt()) as nat,
                    sa + final(ctx).queue().skip(old(ctx).queue().len() as int),
                ),
                Err(_) => SpecOutcome::<Seq<(TermV, Seq<TermV>)>>::Hard,
            }),
    decreases s@.len() - pos, 0int,
{
    proof {
        lemma_prefix_refl(old(ctx).queue());
    }
    let ghost pm = pm_of(old(ctx));
    let ghost bp = bp_of(old(ctx));
    let w = scan::multispace0(s, pos);
    if !(w < s.len() && s[w] == ';') {
        proof {
            assert forall|ma: nat, sa: Seq<TripleV>| #[trigger]
                spec_pol_rest(
                    s@,
                    pos as int,
                    pm,
                    bp,
                    old(ctx).cnt(),
                    pols_view(old(pols)@),
                    ma,
                    sa,
                ) == SpecOutcome::<Seq<(TermV, Seq<TermV>)>>::Hit(
                    pos as int,
                    pols_view(final(pols)@),
                    (ma + final(ctx).cnt() - old(ctx).cnt()) as nat,
                    sa + final(ctx).queue().skip(old(ctx).queue().len() as int),
                ) by {
                assert(sa + final(ctx).queue().skip(old(ctx).queue().len() as int) =~= sa);
            }
        }
        return Ok(pos);
    }
    let w2 = scan::multispace0(s, w + 1);
    let (v1, verb1) = match verb(s, w2, &*ctx) {
        Ok(p) => p,
        Err(ParseErr::Failure(e)) => {
            return Err(ParseErr::Failure(e));
        },
        Err(ParseErr::Mismatch) => {
            proof {
                assert forall|ma: nat, sa: Seq<TripleV>| #[trigger]
                    spec_pol_rest(
                        s@,
                        pos as int,
                        pm,
                        bp,
                        old(ctx).cnt(),
                        pols_view(old(pols)@),
                        ma,
                        sa,
                    ) == SpecOutcome::<Seq<(TermV, Seq<TermV>)>>::Hit(
                        pos as int,
                        pols_view(final(pols)@),
                        (ma + final(ctx).cnt() - old(ctx).cnt()) as nat,
                        sa + final(ctx).queue().skip(old(ctx).queue().len() as int),
                    ) by {
                    assert(sa + final(ctx).queue().skip(old(ctx).queue().len() as int) =~= sa);
                }
            }
            return Ok(pos);
        },
    };
    let ghost pv1 = verb1@;
    let w3 = match scan::multispace1(s, v1) {
        Some(w3) => w3,
        None => {
            proof {
                assert forall|ma: nat, sa: Seq<TripleV>| #[trigger]
                    spec_pol_rest(
                        s@,
                        pos as int,
                        pm,
                        bp,
                        old(ctx).cnt(),
                        pols_view(old(pols)@),
                        ma,
                        sa,
                    ) == SpecOutcome::<Seq<(TermV, Seq<TermV>)>>::Hit(
                        pos as int,
                        pols_view(final(pols)@),
                        (ma + final(ctx).cnt() - old(ctx).cnt()) as nat,
                        sa + final(ctx).queue().skip(old(ctx).queue().len() as int),
                    ) by {
                    assert(sa + final(ctx).queue().skip(old(ctx).queue().len() as int) =~= sa);
                }
            }
            return Ok(pos);
        },
    };
    let ghost mid0 = *ctx;
    match object_list(s, w3, ctx) {
        Err(e) => {
            proof {
                let sp = spec_object_list_res(s@, w3 as int, pm, bp, old(ctx).cnt());
                assert(sp is Hard);
            }
            Err(e)
        },
        Ok((j2, objs2)) => {
            let ghost objs2v = terms_view(objs2@);
            pols.push(PoList::new(verb1, objs2));
            let ghost mid = *ctx;
            let ghost pols_mid = pols@;
            let r2 = pol_rest(s, j2, ctx, pols);
            proof {
                lemma_prefix_trans(old(ctx).queue(), mid.queue(), ctx.queue());
                let sp = spec_object_list_res(s@, w3 as int, pm, bp, old(ctx).cnt());
                match sp {
                    SpecOutcome::Hit(j2s, vs, m2s, sd2s) => {
                        assert(mid.queue() =~= old(ctx).queue() + sd2s);
                        assert(pols_view(pols_mid) =~= pols_view(old(pols)@).push((pv1, objs2v)));
                        assert forall|ma: nat, sa: Seq<TripleV>| #[trigger]
                            spec_pol_rest(
                                s@,
                                pos as int,
                                pm,
                                bp,
                                old(ctx).cnt(),
                                pols_view(old(pols)@),
                                ma,
                                sa,
                            ) == (match r2 {
                                Ok(pe) => SpecOutcome::Hit(
                                    pe as int,
                                    pols_view(final(pols)@),
                                    (ma + final(ctx).cnt() - old(ctx).cnt()) as nat,
                                    sa + final(ctx).queue().skip(old(ctx).queue().len() as int),
                                ),
                                Err(_) => SpecOutcome::<Seq<(TermV, Seq<TermV>)>>::Hard,
                            }) by {
                            assert(spec_pol_rest(
                                s@,
                                pos as int,
                                pm,
                                bp,
                                old(ctx).cnt(),
                                pols_view(old(pols)@),
                                ma,
                                sa,
                            ) == spec_pol_rest(
                                s@,
                                j2 as int,
                                pm,
                                bp,
                                mid.cnt(),
                                pols_view(pols_mid),
                                ma + m2s,
                                sa + sd2s,
                            ));
                            if r2 is Ok {
                                let rest = ctx.queue().skip(mid.queue().len() as int);
                                assert(ctx.queue() =~= mid.queue() + rest);
                                assert(ctx.queue().skip(old(ctx).queue().len() as int) =~= sd2s
                                    + rest);
                                assert((sa + sd2s) + rest =~= sa + (sd2s + rest));
                                assert(sa + ctx.queue().skip(old(ctx).queue().len() as int) =~= (sa
                                    + sd2s) + rest);
                            }
                        }
                    },
                    _ => {
                        assert(false);
                    },
                }
            }
            r2
        },
    }
}

// ---------------------------------------------------------------------------
// Directives
// ---------------------------------------------------------------------------

/// The shape of a base directive at `i`: the position after it and the range
/// of the IRI reference between the angle brackets.  Covers `@base IRIREF .`
/// and the case-insensitive `BASE IRIREF` form without the trailing dot.
pub open spec fn spec_base_directive(s: Seq<char>, i: int) -> Option<(int, int, int)> {
    if spec_at_base_kw(s, i) {
        let w = scan::spec_ws_end(s, i + 5);
        match scan::spec_iriref_end(s, w) {
            Some(e) => {
                let w2 = scan::spec_ws_end(s, e);
                if w2 < s.len() && s[w2] == '.' {
                    Some((w2 + 1, w + 1, e - 1))
                } else {
                    None
                }
            },
            None => None,
        }
    } else if spec_at_sparql_base_kw(s, i) {
        let w = scan::spec_ws_end(s, i + 4);
        match scan::spec_iriref_end(s, w) {
            Some(e) => Some((e, w + 1, e - 1)),
            None => None,
        }
    } else {
        None
    }
}

/// Parses the productions `base ::= '@base' IRIREF '.'` and `sparqlBase ::=
/// "BASE" IRIREF`, updating the context's base IRI cumulatively: the new
/// value is resolved against the current base first.
pub fn base(s: &Vec<char>, i: usize, ctx: &mut Context) -> (r: Result<usize, ParseErr>)
    requires
        i <= s@.len(),
        old(ctx).wf(),
    ensures
        final(ctx).wf(),
        final(ctx).queue() == old(ctx).queue(),
        final(ctx).cnt() == old(ctx).cnt(),
        final(ctx).prolog.prefix_entries() == old(ctx).prolog.prefix_entries(),
        match r {
            Ok(j) => spec_base_directive(s@, i as int) matches Some((j0, f, t)) && j == j0 && i < j
                <= s@.len() && scan::spec_iri_text_ok(s@.subrange(f, t), 0)
                && !crate::iri::spec_has_nonempty_fragment(s@.subrange(f, t))
                && final(ctx).prolog.base_parts() == Some(
                crate::prolog::spec_new_base_parts(
                    old(ctx).prolog.base_parts(),
                    s@.subrange(f, t),
                ),
            ) && final(ctx).prolog.base_text() == Some(
                spec_resolve_ref(old(ctx).prolog.base_parts(), s@.subrange(f, t)),
            ),
            Err(e) => match e {
                ParseErr::Mismatch => spec_base_directive(s@, i as int) is None && *final(ctx)
                    == *old(ctx),
                ParseErr::Failure(err) => spec_base_directive(s@, i as int) matches Some(
                    (j0, f, t),
                ) && *final(ctx) == *old(ctx) && match err {
                    Error::InvalidIri(txt) => txt@ == s@.subrange(f, t) && !scan::spec_iri_text_ok(
                        s@.subrange(f, t),
                        0,
                    ),
                    Error::InvalidBase => scan::spec_iri_text_ok(s@.subrange(f, t), 0)
                        && crate::iri::spec_has_nonempty_fragment(s@.subrange(f, t)),
                    _ => false,
                },
            },
        },
        (spec_base_directive(s@, i as int) matches Some((j0, f, t)) && scan::spec_iri_text_ok(
            s@.subrange(f, t),
            0,
        ) && !crate::iri::spec_has_nonempty_fragment(s@.subrange(f, t))) ==> r is Ok,
        spec_base_directive(s@, i as int) is None ==> r == Err::<usize, ParseErr>(
            ParseErr::Mismatch,
        ),
{
    let n = s.len();
    let shape: Option<(usize, usize, usize)> = if at_base_kw(s, i) {
        let w = scan::multispace0(s, i + 5);
        match scan::scan_iriref(s, w) {
            Some(e) => {
                let w2 = scan::multispace0(s, e);
                if w2 < s.len() && s[w2] == '.' {
                    Some((w2 + 1, w + 1, e - 1))
                } else {
                    None
                }
            },
            None => None,
        }
    } else if at_sparql_base_kw(s, i) {
        let w = scan::multispace0(s, i + 4);
        match scan::scan_iriref(s, w) {
            Some(e) => Some((e, w + 1, e - 1)),
            None => None,
        }
    } else {
        None
    };
    match shape {
        Some((j, f, t)) => {
            let cand = string_of_range(s, f, t);
            match ctx.prolog.set_base(cand.as_str()) {
                Ok(()) => Ok(j),
                Err(e) => Err(ParseErr::Failure(e)),
            }
        },
        None => Err(ParseErr::Mismatch),
    }
}

/// The shape of a prefix directive at `i`: the position after it, the range
/// of the prefix name (without the `:`), and the range of the namespace IRI
/// between the angle brackets.  Covers `@prefix PNAME_NS IRIREF .` and the
/// case-insensitive `PREFIX PNAME_NS IRIREF` form without the trailing dot.
pub open spec fn spec_prefix_directive(s: Seq<char>, i: int) -> Option<(int, int, int, int, int)> {
    if spec_at_prefix_kw(s, i) {
        let w = scan::spec_ws_end(s, i + 7);
        if w == i + 7 {
            None
        } else {
            match scan::spec_pname_ns_end(s, w) {
                Some(ne) => {
                    let w2 = scan::spec_ws_end(s, ne);
                    match scan::spec_iriref_end(s, w2) {
                        Some(e) => {
                            let w3 = scan::spec_ws_end(s, e);
                            if w3 < s.len() && s[w3] == '.' {
                                Some((w3 + 1, w, ne - 1, w2 + 1, e - 1))
                            } else {
                                None
                            }
                        },
                        None => None,
                    }
                },
                None => None,
            }
        }
    } else if spec_at_sparql_prefix_kw(s, i) {
        let w = scan::spec_ws_end(s, i + 6);
        if w == i + 6 {
            None
        } else {
            match scan::spec_pname_ns_end(s, w) {
                Some(ne) => {
                    let w2 = scan::spec_ws_end(s, ne);
                    match scan::spec_iriref_end(s, w2) {
                        Some(e) => Some((e, w, ne - 1, w2 + 1, e - 1)),
                        None => None,
                    }
                },
                None => None,
            }
        }
    } else {
        None
    }
}

/// Parses the productions `prefixID ::= '@prefix' PNAME_NS IRIREF '.'` and
/// `sparqlPrefix ::= "PREFIX" PNAME_NS IRIREF`, adding the parsed prefix,
/// with its namespace resolved against the base, to the context.
pub fn prefix_id(s: &Vec<char>, i: usize, ctx: &mut Context) -> (r: Result<usize, ParseErr>)
    requires
        i <= s@.len(),
        old(ctx).wf(),
    ensures
        final(ctx).wf(),
        final(ctx).queue() == old(ctx).queue(),
        final(ctx).cnt() == old(ctx).cnt(),
        final(ctx).prolog.base_text() == old(ctx).prolog.base_text(),
        final(ctx).prolog.base_parts() == old(ctx).prolog.base_parts(),
        match r {
            Ok(j) => spec_prefix_directive(s@, i as int) matches Some((j0, pf, pt, nf, nt)) && j
                == j0 && i < j <= s@.len() && crate::prolog::spec_valid_prefix(s@.subrange(pf, pt))
                && scan::spec_iri_text_ok(s@.subrange(nf, nt), 0) && final(ctx).prolog.prefix_map()
                =~= old(ctx).prolog.prefix_map().insert(
                s@.subrange(pf, pt),
                spec_resolve_ref(old(ctx).prolog.base_parts(), s@.subrange(nf, nt)),
            ),
            Err(e) => match e {
                ParseErr::Mismatch => spec_prefix_directive(s@, i as int) is None && *final(ctx)
                    == *old(ctx),
                ParseErr::Failure(err) => spec_prefix_directive(s@, i as int) matches Some(
                    (j0, pf, pt, nf, nt),
                ) && *final(ctx) == *old(ctx) && match err {
                    Error::InvalidPrefix(p) => p@ == s@.subrange(pf, pt)
                        && !crate::prolog::spec_valid_prefix(s@.subrange(pf, pt)),
                    Error::InvalidIri(txt) => crate::prolog::spec_valid_prefix(s@.subrange(pf, pt))
                        && txt@ == s@.subrange(nf, nt) && !scan::spec_iri_text_ok(
                        s@.subrange(nf, nt),
                        0,
                    ),
                    _ => false,
                },
            },
        },
        (spec_prefix_directive(s@, i as int) matches Some((j0, pf, pt, nf, nt))
            && crate::prolog::spec_valid_prefix(s@.subrange(pf, pt)) && scan::spec_iri_text_ok(
            s@.subrange(nf, nt),
            0,
        )) ==> r is Ok,
        spec_prefix_directive(s@, i as int) is None ==> r == Err::<usize, ParseErr>(
            ParseErr::Mismatch,
        ),
{
    let n = s.len();
    let shape: Option<(usize, usize, usize, usize, usize)> = if at_prefix_kw(s, i) {
        match scan::multispace1(s, i + 7) {
            Some(w) => match scan::pname_ns(s, w) {
                Some(ne) => {
                    let w2 = scan::multispace0(s, ne);
                    match scan::scan_iriref(s, w2) {
                        Some(e) => {
                            let w3 = scan::multispace0(s, e);
                            if w3 < s.len() && s[w3] == '.' {
                                Some((w3 + 1, w, ne - 1, w2 + 1, e - 1))
                            } else {
                                None
                            }
                        },
                        None => None,
                    }
                },
                None => None,
            },
            None => None,
        }
    } else if at_sparql_prefix_kw(s, i) {
        match scan::multispace1(s, i + 6) {
            Some(w) => match scan::pname_ns(s, w) {
                Some(ne) => {
                    let w2 = scan::multispace0(s, ne);
                    match scan::scan_iriref(s, w2) {
                        Some(e) => Some((e, w, ne - 1, w2 + 1, e - 1)),
                        None => None,
                    }
                },
                None => None,
            },
            None => None,
        }
    } else {
        None
    };
    match shape {
        Some((j, pf, pt, nf, nt)) => {
            let name = string_of_range(s, pf, pt);
            let namespace = string_of_range(s, nf, nt);
            match ctx.prolog.add_prefix(name.as_str(), namespace.as_str()) {
                Ok(()) => Ok(j),
                Err(e) => Err(ParseErr::Failure(e)),
            }
        },
        None => Err(ParseErr::Mismatch),
    }
}

/// Parses the production `directive ::= prefixID | base | sparqlPrefix |
/// sparqlBase`.  Directives mutate the context's prolog and produce no
/// triples; the blank-node counter is untouched.
pub fn directive(s: &Vec<char>, i: usize, ctx: &mut Context) -> (r: Result<usize, ParseErr>)
    requires
        i <= s@.len(),
        old(ctx).wf(),
    ensures
        final(ctx).wf(),
        final(ctx).queue() == old(ctx).queue(),
        final(ctx).cnt() == old(ctx).cnt(),
        match r {
            Ok(j) => i < j <= s@.len(),
            Err(e) => *final(ctx) == *old(ctx),
        },
        match spec_prefix_directive(s@, i as int) {
            Some((j0, pf, pt, nf, nt)) => match r {
                Ok(j) => j == j0 && final(ctx).prolog.base_text() == old(ctx).prolog.base_text()
                    && final(ctx).prolog.base_parts() == old(ctx).prolog.base_parts()
                    && final(ctx).prolog.prefix_map() =~= old(ctx).prolog.prefix_map().insert(
                    s@.subrange(pf, pt),
                    spec_resolve_ref(old(ctx).prolog.base_parts(), s@.subrange(nf, nt)),
                ),
                Err(e) => e is Failure,
            },
            None => match spec_base_directive(s@, i as int) {
                Some((j0, f, t)) => match r {
                    Ok(j) => j == j0 && final(ctx).prolog.prefix_entries() == old(
                        ctx,
                    ).prolog.prefix_entries() && final(ctx).prolog.base_parts() == Some(
                        crate::prolog::spec_new_base_parts(
                            old(ctx).prolog.base_parts(),
                            s@.subrange(f, t),
                        ),
                    ),
                    Err(e) => e is Failure,
                },
                None => r == Err::<usize, ParseErr>(ParseErr::Mismatch),
            },
        },
        (spec_prefix_directive(s@, i as int) matches Some((j0, pf, pt, nf, nt))
            && crate::prolog::spec_valid_prefix(s@.subrange(pf, pt)) && scan::spec_iri_text_ok(
            s@.subrange(nf, nt),
            0,
        )) ==> r is Ok,
        (spec_prefix_directive(s@, i as int) is None && (spec_base_directive(s@, i as int)
            matches Some((j0, f, t)) && scan::spec_iri_text_ok(s@.subrange(f, t), 0)
            && !crate::iri::spec_has_nonempty_fragment(s@.subrange(f, t)))) ==> r is Ok,
{
    match prefix_id(s, i, ctx) {
        Ok(j) => Ok(j),
        Err(ParseErr::Failure(e)) => Err(ParseErr::Failure(e)),
        Err(ParseErr::Mismatch) => base(s, i, ctx),
    }
}

// ---------------------------------------------------------------------------
// Triples and statements
// ---------------------------------------------------------------------------

/// The first alternative of the `triples` production: `subject
/// predicateObjectList`.
fn triples_subject_first(s: &Vec<char>, i: usize, ctx: &mut Context) -> (r: Result<
    (usize, SpoList),
    ParseErr,
>)
    requires
        i <= s@.len(),
        old(ctx).wf(),
    ensures
        ctx_grows(old(ctx), final(ctx)),
        old(ctx).same_prolog(final(ctx)),
        match r {
            Ok((j, _)) => ok_shape(i as int, j as int, s@.len() as int),
            Err(_) => true,
        },
        spo_obeys(
            r,
            spec_triples_first(s@, i as int, pm_of(old(ctx)), bp_of(old(ctx)), old(ctx).cnt()),
            old(ctx),
            final(ctx),
        ),
{
    proof {
        lemma_prefix_refl(old(ctx).queue());
    }
    let (j1, subj) = match subject(s, i, ctx) {
        Ok(p) => p,
        Err(e) => {
            return Err(e);
        },
    };
    let w = match scan::multispace1(s, j1) {
        Some(w) => w,
        None => {
            return Err(ParseErr::Mismatch);
        },
    };
    let ghost mid = *ctx;
    match predicate_object_list(s, w, ctx) {
        Ok((j2, pols)) => {
            proof {
                lemma_prefix_trans(old(ctx).queue(), mid.queue(), ctx.queue());
            }
            Ok((j2, SpoList::new(subj, pols)))
        },
        Err(ParseErr::Failure(e)) => {
            proof {
                lemma_prefix_trans(old(ctx).queue(), mid.queue(), ctx.queue());
            }
            Err(ParseErr::Failure(e))
        },
        Err(ParseErr::Mismatch) => {
            // the subject committed this production; a missing
            // predicate-object list is a hard failure, not a retry
            proof {
                lemma_prefix_trans(old(ctx).queue(), mid.queue(), ctx.queue());
            }
            Err(positioned_failure(s, w))
        },
    }
}

/// Parses the production `triples ::= subject predicateObjectList |
/// blankNodePropertyList predicateObjectList?`.  In the second form a fresh
/// anonymous node becomes the shared subject.
#[verifier::rlimit(100)]
#[verifier::spinoff_prover]
pub fn triples(s: &Vec<char>, i: usize, ctx: &mut Context) -> (r: Result<
    (usize, SpoList),
    ParseErr,
>)
    requires
        i <= s@.len(),
        old(ctx).wf(),
    ensures
        ctx_grows(old(ctx), final(ctx)),
        old(ctx).same_prolog(final(ctx)),
        match r {
            Ok((j, _)) => ok_shape(i as int, j as int, s@.len() as int),
            Err(_) => true,
        },
        spo_obeys(
            r,
            spec_triples_res(s@, i as int, pm_of(old(ctx)), bp_of(old(ctx)), old(ctx).cnt()),
            old(ctx),
            final(ctx),
        ),
{
    proof {
        lemma_prefix_refl(old(ctx).queue());
    }
    let ghost pm = pm_of(old(ctx));
    let ghost bp = bp_of(old(ctx));
    let ghost cc = old(ctx).cnt();
    let ghost c0 = *ctx;
    match triples_subject_first(s, i, ctx) {
        Ok(p) => {
            return Ok(p);
        },
        Err(ParseErr::Failure(e)) => {
            return Err(ParseErr::Failure(e));
        },
        Err(ParseErr::Mismatch) => {},
    }
    let ghost sp_first = spec_triples_first(s@, i as int, pm, bp, cc);
    let ghost mp = (ctx.cnt() - cc) as nat;
    let ghost sdp = ctx.queue().skip(old(ctx).queue().len() as int);
    proof {
        match sp_first {
            SpecOutcome::Soft(mps, sdps) => {
                assert(ctx.queue() =~= old(ctx).queue() + sdps);
                assert(ctx.queue().skip(old(ctx).queue().len() as int) =~= sdps);
            },
            _ => {
                assert(false);
            },
        }
    }
    if !(i < s.len() && s[i] == '[') {
        proof {
            assert(ctx.queue() =~= old(ctx).queue() + sdp);
        }
        return Err(ParseErr::Mismatch);
    }
    // the fresh shared subject is minted first, then the embedded list is
    // parsed using it
    let bn = match mint_anon(ctx) {
        Ok(t) => t,
        Err(e) => {
            return Err(e);
        },
    };
    let ghost c1 = *ctx;
    let (j2, pols) = match blank_node_property_list(s, i, ctx) {
        Ok(p) => p,
        Err(e) => {
            proof {
                lemma_prefix_trans(old(ctx).queue(), c1.queue(), ctx.queue());
                let spb = spec_bnpl_res(s@, i as int, pm, bp, (cc + mp + 1) as nat);
                match spb {
                    SpecOutcome::Soft(m3, sd3) => {
                        assert(ctx.queue() =~= c1.queue() + sd3);
                        assert(ctx.queue() =~= old(ctx).queue() + (sdp + sd3));
                    },
                    SpecOutcome::Hard => {},
                    _ => {
                        assert(false);
                    },
                }
            }
            return Err(e);
        },
    };
    proof {
        lemma_prefix_trans(old(ctx).queue(), c1.queue(), ctx.queue());
    }
    let w = scan::multispace0(s, j2);
    let ghost c2 = *ctx;
    let ghost sp_bnpl = spec_bnpl_res(s@, i as int, pm, bp, (cc + mp + 1) as nat);
    match predicate_object_list(s, w, ctx) {
        Ok((j3, more)) => {
            proof {
                lemma_prefix_trans(old(ctx).queue(), c2.queue(), ctx.queue());
            }
            let ghost c3 = *ctx;
            let ghost morev = pols_view(more@);
            let mut spo = SpoList::new(bn, pols);
            spo.extend(&more);
            proof {
                match sp_bnpl {
                    SpecOutcome::Hit(j2s, polsv, m3, sd3) => {
                        assert(c2.queue() =~= c1.queue() + sd3);
                        let spp = spec_pol_res(s@, w as int, pm, bp, (cc + mp + 1 + m3) as nat);
                        match spp {
                            SpecOutcome::Hit(j3s, mores, m4, sd4) => {
                                assert(ctx.queue() =~= c2.queue() + sd4);
                                assert(ctx.queue() =~= old(ctx).queue() + ((sdp + sd3) + sd4));
                                assert(spo.po_lists_v() =~= polsv + mores);
                            },
                            _ => {
                                assert(false);
                            },
                        }
                    },
                    _ => {
                        assert(false);
                    },
                }
            }
            Ok((j3, spo))
        },
        Err(ParseErr::Failure(e)) => {
            proof {
                lemma_prefix_trans(old(ctx).queue(), c2.queue(), ctx.queue());
            }
            Err(ParseErr::Failure(e))
        },
        Err(ParseErr::Mismatch) => {
            proof {
                lemma_prefix_trans(old(ctx).queue(), c2.queue(), ctx.queue());
            }
            let spo = SpoList::new(bn, pols);
            proof {
                match sp_bnpl {
                    SpecOutcome::Hit(j2s, polsv, m3, sd3) => {
                        assert(c2.queue() =~= c1.queue() + sd3);
                        let spp = spec_pol_res(s@, w as int, pm, bp, (cc + mp + 1 + m3) as nat);
                        match spp {
                            SpecOutcome::Soft(m4, sd4) => {
                                assert(ctx.queue() =~= c2.queue() + sd4);
                                assert(ctx.queue() =~= old(ctx).queue() + ((sdp + sd3) + sd4));
                                assert(spo.po_lists_v() =~= polsv);
                            },
                            _ => {
                                assert(false);
                            },
                        }
                    },
                    _ => {
                        assert(false);
                    },
                }
            }
            Ok((j2, spo))
        },
    }
}

/// Parses the production `statement ::= directive | triples '.'`.  A
/// directive mutates the context and yields no triples; a triples statement
/// enqueues its triples, side triples of nested expressions first, then the
/// statement's own in emission order.
pub fn statement(s: &Vec<char>, i: usize, ctx: &mut Context) -> (r: Result<usize, ParseErr>)
    requires
        i <= s@.len(),
        old(ctx).wf(),
    ensures
        final(ctx).wf() == old(ctx).wf(),
        old(ctx).cnt() <= final(ctx).cnt(),
        old(ctx).queue().is_prefix_of(final(ctx).queue()),
        match r {
            Ok(j) => i < j <= s@.len(),
            Err(_) => true,
        },
        (spec_prefix_directive(s@, i as int) is Some || spec_base_directive(s@, i as int)
            is Some) ==> (final(ctx).queue() == old(ctx).queue() && final(ctx).cnt() == old(
            ctx,
        ).cnt() && match r {
            Ok(j) => match spec_prefix_directive(s@, i as int) {
                Some((j0, pf, pt, nf, nt)) => j == j0 && final(ctx).prolog.base_text() == old(
                    ctx,
                ).prolog.base_text() && final(ctx).prolog.base_parts() == old(
                    ctx,
                ).prolog.base_parts() && final(ctx).prolog.prefix_map() =~= old(
                    ctx,
                ).prolog.prefix_map().insert(
                    s@.subrange(pf, pt),
                    spec_resolve_ref(old(ctx).prolog.base_parts(), s@.subrange(nf, nt)),
                ),
                None => spec_base_directive(s@, i as int) matches Some((j0, f, t)) && j == j0
                    && final(ctx).prolog.prefix_entries() == old(ctx).prolog.prefix_entries()
                    && final(ctx).prolog.base_parts() == Some(
                    crate::prolog::spec_new_base_parts(
                        old(ctx).prolog.base_parts(),
                        s@.subrange(f, t),
                    ),
                ),
            },
            Err(e) => e is Failure && *final(ctx) == *old(ctx),
        }),
        (spec_prefix_directive(s@, i as int) is None && spec_base_directive(s@, i as int)
            is None) ==> old(ctx).same_prolog(final(ctx)),
        (spec_prefix_directive(s@, i as int) matches Some((j0, pf, pt, nf, nt))
            && crate::prolog::spec_valid_prefix(s@.subrange(pf, pt)) && scan::spec_iri_text_ok(
            s@.subrange(nf, nt),
            0,
        )) ==> r is Ok,
        (spec_prefix_directive(s@, i as int) is None && (spec_base_directive(s@, i as int)
            matches Some((j0, f, t)) && scan::spec_iri_text_ok(s@.subrange(f, t), 0)
            && !crate::iri::spec_has_nonempty_fragment(s@.subrange(f, t)))) ==> r is Ok,
        (spec_prefix_directive(s@, i as int) is None && spec_base_directive(s@, i as int)
            is None) ==> unit_obeys(
            r,
            spec_triples_statement_res(
                s@,
                i as int,
                pm_of(old(ctx)),
                bp_of(old(ctx)),
                old(ctx).cnt(),
            ),
            old(ctx),
            final(ctx),
        ),
{
    proof {
        lemma_prefix_refl(old(ctx).queue());
    }
    match directive(s, i, ctx) {
        Ok(j) => {
            return Ok(j);
        },
        Err(ParseErr::Failure(e)) => {
            return Err(ParseErr::Failure(e));
        },
        Err(ParseErr::Mismatch) => {},
    }
    let ghost pm = pm_of(old(ctx));
    let ghost bp = bp_of(old(ctx));
    let ghost cc = old(ctx).cnt();
    let (j, spo) = match triples(s, i, ctx) {
        Ok(p) => p,
        Err(e) => {
            return Err(e);
        },
    };
    let ghost sp_tri = spec_triples_res(s@, i as int, pm, bp, cc);
    let w = scan::multispace0(s, j);
    if w < s.len() && s[w] == '.' {
        let ghost mid = *ctx;
        let ts = spo.triples();
        ctx.push_triples(ts);
        proof {
            lemma_prefix_trans(old(ctx).queue(), mid.queue(), ctx.queue());
            if spec_prefix_directive(s@, i as int) is None && spec_base_directive(s@, i as int)
                is None {
                match sp_tri {
                    SpecOutcome::Hit(js, sv, m, sd) => {
                        assert(mid.queue() =~= old(ctx).queue() + sd);
                        assert(spo.po_lists_v() == sv.1);
                        assert(spo.triples_v() == spec_spo_triples(sv.0, sv.1));
                        assert(ctx.queue() =~= old(ctx).queue() + (sd + spec_spo_triples(
                            sv.0,
                            sv.1,
                        )));
                    },
                    _ => {
                        assert(false);
                    },
                }
            }
        }
        Ok(w + 1)
    } else {
        proof {
            if spec_prefix_directive(s@, i as int) is None && spec_base_directive(s@, i as int)
                is None {
                match sp_tri {
                    SpecOutcome::Hit(js, sv, m, sd) => {
                        assert(ctx.queue() =~= old(ctx).queue() + sd);
                    },
                    _ => {
                        assert(false);
                    },
                }
            }
        }
        Err(ParseErr::Mismatch)
    }
}

// ---------------------------------------------------------------------------
// The statement iterator
// ---------------------------------------------------------------------------

/// The Turtle parser: a pull-based driver that parses a document statement by
/// statement and exposes triples one at a time, draining the pending queue
/// first.
pub struct Parser {
    text: Vec<char>,
    pos: usize,
    ctx: Context,
    end_or_failed: bool,
}

impl Parser {
    /// Whether the parser has finished or failed; once set, every call to
    /// [`Parser::next`] returns end-of-sequence.
    pub closed spec fn done(&self) -> bool {
        self.end_or_failed
    }

    /// The pending triples not yet delivered.
    pub closed spec fn pending(&self) -> Seq<crate::term::TripleV> {
        self.ctx.queue()
    }

    /// The document text not yet consumed.
    pub closed spec fn remaining(&self) -> Seq<char> {
        self.text@.skip(self.pos as int)
    }

    /// The whole document text.
    pub closed spec fn text_v(&self) -> Seq<char> {
        self.text@
    }

    /// The current position within the document.
    pub closed spec fn pos_v(&self) -> int {
        self.pos as int
    }

    /// The parse context.
    pub closed spec fn ctx_v(&self) -> Context {
        self.ctx
    }

    /// A prefix or base directive begins at the current position.
    #[verifier::opaque]
    pub closed spec fn at_directive(&self) -> bool {
        spec_prefix_directive(self.text@, self.pos as int) is Some || spec_base_directive(
            self.text@,
            self.pos as int,
        ) is Some
    }

    /// The outcome of parsing one triples statement at the current position,
    /// under the current prefix table, base and counter.
    #[verifier::opaque]
    pub closed spec fn at_statement(&self) -> SpecOutcome<()> {
        spec_triples_statement_res(
            self.text@,
            self.pos as int,
            pm_of(&self.ctx),
            bp_of(&self.ctx),
            self.ctx.cnt(),
        )
    }

    /// The context's base IRI text, if one is set.
    pub closed spec fn base_text_v(&self) -> Option<Seq<char>> {
        self.ctx.prolog.base_text()
    }

    /// The context's decomposed base IRI, if one is set.
    pub closed spec fn base_parts_v(&self) -> Option<crate::iri::IriPartsV> {
        self.ctx.prolog.base_parts()
    }

    /// The context's prefix table.
    pub closed spec fn prefix_map_v(&self) -> Map<Seq<char>, Seq<char>> {
        self.ctx.prolog.prefix_map()
    }

    /// Well-formedness of the parser.
    pub closed spec fn wf(&self) -> bool {
        self.pos <= self.text@.len() && self.ctx.wf()
    }

    /// Creates a new parser over a document, with leading whitespace and
    /// comments skipped and an empty context.
    pub fn new(doc: &str) -> (p: Parser)
        ensures
            p.wf(),
            !p.done(),
            p.pending() == Seq::<crate::term::TripleV>::empty(),
            p.remaining() == doc@.skip(scan::spec_ws_end(doc@, 0)),
            p.base_parts_v() is None,
            p.prefix_map_v() =~= Map::<Seq<char>, Seq<char>>::empty(),
    {
        let text = crate::text::str_to_chars(doc);
        let pos = scan::multispace0(&text, 0);
        Parser { text, pos, ctx: Context::new(), end_or_failed: false }
    }

    /// A new parser with a pre-set base IRI to resolve `iri` productions.
    ///
    /// If the document contains an own `base` directive the pre-set value is
    /// resolved against cumulatively.  Fails with `InvalidIri` on a base with
    /// disallowed characters, and with `InvalidBase` on one carrying a
    /// non-empty fragment.
    pub fn with_base(doc: &str, base: &str) -> (r: Result<Parser, Error>)
        ensures
            match r {
                Ok(p) => p.wf() && !p.done() && p.pending() == Seq::<
                    crate::term::TripleV,
                >::empty() && p.remaining() == doc@.skip(scan::spec_ws_end(doc@, 0))
                    && p.base_text_v() == Some(base@) && p.base_parts_v() == Some(
                    crate::iri::spec_parse_iri(base@),
                ) && p.prefix_map_v() =~= Map::<Seq<char>, Seq<char>>::empty(),
                Err(Error::InvalidIri(t)) => !scan::spec_iri_text_ok(base@, 0) && t@ == base@,
                Err(Error::InvalidBase) => scan::spec_iri_text_ok(base@, 0)
                    && crate::iri::spec_has_nonempty_fragment(base@),
                Err(_) => false,
            },
            (scan::spec_iri_text_ok(base@, 0) && !crate::iri::spec_has_nonempty_fragment(base@))
                ==> r is Ok,
    {
        let mut ctx = Context::new();
        match ctx.prolog.set_base(base) {
            Ok(()) => {},
            Err(e) => {
                return Err(e);
            },
        }
        let text = crate::text::str_to_chars(doc);
        let pos = scan::multispace0(&text, 0);
        Ok(Parser { text, pos, ctx, end_or_failed: false })
    }

    /// Returns the next parsed triple.
    ///
    /// Parsing is done statement per statement: pending triples from the last
    /// statement are returned first, in emission order; then the next
    /// statement is parsed.  Once end-of-sequence or an error was returned,
    /// every subsequent call returns end-of-sequence, and no triple is ever
    /// produced after a reported failure.
    #[verifier::rlimit(100)]
    pub fn next(&mut self) -> (r: Option<Result<Triple, Error>>)
        requires
            old(self).wf(),
        ensures
            final(self).wf(),
            old(self).done() ==> r is None && *final(self) == *old(self),
            r is None ==> final(self).done(),
            (r matches Some(rr) && rr is Err) ==> final(self).done(),
            (!old(self).done() && old(self).pending().len() > 0) ==> (r matches Some(rr)
                && rr matches Ok(t) && t@ == old(self).pending()[0] && final(self).pending() == old(
                self,
            ).pending().drop_first() && final(self).done() == old(self).done()),
            (!old(self).done() && r is None) ==> (final(self).pending().len() == 0
                && final(self).remaining().len() == 0),
            (!old(self).done() && old(self).pending().len() == 0 && old(self).remaining().len()
                == 0) ==> r is None && final(self).done(),
            (!old(self).done() && old(self).pending().len() == 0 && old(self).remaining().len()
                > 0 && !old(self).at_directive()) ==> match old(self).at_statement() {
                SpecOutcome::Hit(j0, u, m, sd) => sd.len() > 0 ==> (r matches Some(rr)
                    && rr matches Ok(t) && t@ == sd[0] && final(self).pending() =~= sd.drop_first(
                )),
                SpecOutcome::Soft(m, sd) => r matches Some(rr) && rr matches Err(e) && e
                    == Error::NoMatch && final(self).done(),
                SpecOutcome::Hard => r matches Some(rr) && rr is Err && final(self).done(),
            },
    {
        if self.end_or_failed {
            return None;
        }
        let ghost gen = !old(self).done() && old(self).pending().len() == 0 && old(
            self,
        ).remaining().len() > 0 && !old(self).at_directive();
        let ghost sp_stmt = old(self).at_statement();
        let ghost gen2 = gen && match sp_stmt {
            SpecOutcome::Hit(j0, u, m, sd) => sd.len() > 0,
            _ => true,
        };
        loop
            invariant
                self.wf(),
                !self.end_or_failed,
                !old(self).done(),
                self.text@ == old(self).text_v(),
                gen == (!old(self).done() && old(self).pending().len() == 0 && old(
                    self,
                ).remaining().len() > 0 && !old(self).at_directive()),
                sp_stmt == old(self).at_statement(),
                gen2 == (gen && match sp_stmt {
                    SpecOutcome::Hit(j0, u, m, sd) => sd.len() > 0,
                    _ => true,
                }),
                old(self).pending().len() > 0 ==> self.pending() == old(self).pending(),
                (old(self).pending().len() == 0 && old(self).remaining().len() == 0) ==> (
                self.pos == self.text@.len() && self.pending().len() == 0),
                gen2 ==> ((self.pending().len() == 0 && self.pos == old(self).pos_v() && old(
                    self,
                ).ctx_v().same_prolog(&self.ctx) && self.ctx.cnt() == old(self).ctx_v().cnt()) || (
                match sp_stmt {
                    SpecOutcome::Hit(j0, u, m, sd) => self.pending() =~= sd,
                    _ => false,
                })),
            decreases self.text@.len() - self.pos,
        {
            let ghost head = *self;
            match self.ctx.pop_triple() {
                Some(t) => {
                    proof {
                        if gen2 {
                            assert(head.pending().len() > 0);
                            match sp_stmt {
                                SpecOutcome::Hit(j0, u, m, sd) => {
                                    assert(head.pending() =~= sd);
                                    assert(t@ == sd[0]);
                                    assert(self.pending() =~= sd.drop_first());
                                },
                                _ => {
                                    assert(false);
                                },
                            }
                        }
                    }
                    return Some(Ok(t));
                },
                None => {},
            }
            if self.pos == self.text.len() {
                self.end_or_failed = true;
                proof {
                    assert(self.remaining() =~= Seq::<char>::empty());
                    if gen2 {
                        assert(head.pending().len() == 0);
                        assert(self.pos == old(self).pos_v());
                        assert(old(self).remaining().len() == old(self).text_v().len() - old(
                            self,
                        ).pos_v());
                        assert(false);
                    }
                }
                return None;
            }
            let ghost pre = *self;
            proof {
                if gen2 {
                    reveal(Parser::at_directive);
                    reveal(Parser::at_statement);
                    assert(pre.pending().len() == 0);
                    assert(pre.pos == old(self).pos_v());
                    assert(pre.text@ == old(self).text_v());
                    assert(pm_of(&pre.ctx) == pm_of(&old(self).ctx_v()));
                    assert(bp_of(&pre.ctx) == bp_of(&old(self).ctx_v()));
                    assert(spec_triples_statement_res(
                        pre.text@,
                        pre.pos as int,
                        pm_of(&pre.ctx),
                        bp_of(&pre.ctx),
                        pre.ctx.cnt(),
                    ) == sp_stmt);
                    assert(spec_prefix_directive(pre.text@, pre.pos as int) is None);
                    assert(spec_base_directive(pre.text@, pre.pos as int) is None);
                }
            }
            match statement(&self.text, self.pos, &mut self.ctx) {
                Ok(j) => {
                    proof {
                        if gen2 {
                            match sp_stmt {
                                SpecOutcome::Hit(j0, u, m, sd) => {
                                    assert(self.pending() =~= pre.pending() + sd);
                                    assert(self.pending() =~= sd);
                                },
                                _ => {
                                    assert(false);
                                },
                            }
                        }
                    }
                    let w = scan::multispace0(&self.text, j);
                    self.pos = w;
                },
                Err(e) => {
                    proof {
                        if gen2 {
                            match sp_stmt {
                                SpecOutcome::Hit(j0, u, m, sd) => {
                                    assert(false);
                                },
                                _ => {},
                            }
                        }
                    }
                    self.end_or_failed = true;
                    let err = match e {
                        ParseErr::Mismatch => Error::NoMatch,
                        ParseErr::Failure(err) => err,
                    };
                    return Some(Err(err));
                },
            }
        }
    }
}

} // verus!
