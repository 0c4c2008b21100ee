//! The grammar's mathematical definition: one specification function per
//! production, over the input text, the prefix table, the base IRI and the
//! blank-node counter.
//!
//! Each function returns the production's outcome — end position, value,
//! blank nodes minted and triples enqueued — or a soft mismatch (with the
//! minting and enqueueing its backtracked attempts left behind) or a hard
//! failure.  The executable productions' contracts state that they behave
//! exactly as these functions, for every input.
//!
//! Positions handed onward recurse only under explicit range guards; the
//! guards' fallback branches are unreachable for the executable engine, whose
//! scanners establish the ranges.

use vstd::prelude::*;

use crate::iri::IriPartsV;
use crate::ns;
use crate::parse::turtle::{
    spec_at_false, spec_at_true, spec_committed_datatype, spec_iri_end, spec_iri_soft,
};
use crate::parse::{spec_anon_label, spec_collection_triples, spec_spo_triples};
use crate::prolog::spec_resolve_ref;
use crate::scan;
use crate::term::{LiteralKindV, TermV, TripleV};
use crate::text::spec_decimal_digits;

verus! {

/// The outcome of one production: a match with its end position, value,
/// number of blank nodes minted and triples enqueued; a soft mismatch (the
/// backtracked attempts' minting and enqueueing kept); or a hard failure.
pub enum SpecOutcome<T> {
    /// The production matched.
    Hit(int, T, nat, Seq<TripleV>),
    /// This alternative does not apply; the caller tries the next one.
    Soft(nat, Seq<TripleV>),
    /// The shape matched but its content is invalid; the parse aborts.
    Hard,
}

/// An IRI production succeeds here under the given prefix table.
pub open spec fn iri_hit(s: Seq<char>, i: int, pm: Map<Seq<char>, Seq<char>>) -> bool {
    scan::spec_iriref_end(s, i) is Some || (match scan::spec_pname_ln_end(s, i) {
        Some((ne, _)) => pm.contains_key(s.subrange(i, ne - 1)),
        None => match scan::spec_pname_ns_end(s, i) {
            Some(ne) => pm.contains_key(s.subrange(i, ne - 1)),
            None => false,
        },
    })
}

/// The term the `iri` production yields here, where it succeeds.
pub open spec fn iri_value(
    s: Seq<char>,
    i: int,
    pm: Map<Seq<char>, Seq<char>>,
    bp: Option<IriPartsV>,
) -> TermV {
    match scan::spec_iriref_end(s, i) {
        Some(e) => TermV::Iri(spec_resolve_ref(bp, s.subrange(i + 1, e - 1))),
        None => match scan::spec_pname_ln_end(s, i) {
            Some((ne, le)) => TermV::Iri(
                pm[s.subrange(i, ne - 1)] + crate::parse::turtle::spec_escape(s.subrange(ne, le)),
            ),
            None => match scan::spec_pname_ns_end(s, i) {
                Some(ne) => TermV::Iri(pm[s.subrange(i, ne - 1)]),
                None => TermV::Iri(Seq::empty()),
            },
        },
    }
}

/// The text inside an IRI term.
pub open spec fn iri_text_of(v: TermV) -> Seq<char> {
    match v {
        TermV::Iri(t) => t,
        _ => Seq::empty(),
    }
}

/// The `verb` production: an IRI, or the keyword `a` for `rdf:type`.
pub open spec fn spec_verb_res(
    s: Seq<char>,
    i: int,
    pm: Map<Seq<char>, Seq<char>>,
    bp: Option<IriPartsV>,
) -> SpecOutcome<TermV> {
    if iri_hit(s, i, pm) {
        SpecOutcome::Hit(spec_iri_end(s, i), iri_value(s, i, pm, bp), 0, Seq::empty())
    } else if !spec_iri_soft(s, i) {
        SpecOutcome::Hard
    } else if i < s.len() && s[i] == 'a' {
        SpecOutcome::Hit(i + 1, TermV::Iri(ns::rdf_type_iri()), 0, Seq::empty())
    } else {
        SpecOutcome::Soft(0, Seq::empty())
    }
}

/// The `literal` production over its three alternatives.
pub open spec fn spec_literal_res(
    s: Seq<char>,
    i: int,
    pm: Map<Seq<char>, Seq<char>>,
    bp: Option<IriPartsV>,
) -> SpecOutcome<TermV> {
    match scan::spec_string_end(s, i) {
        Some((e, f, tl)) => {
            let lex = s.subrange(f, tl);
            if spec_committed_datatype(s, e) {
                if iri_hit(s, e + 2, pm) {
                    SpecOutcome::Hit(
                        spec_iri_end(s, e + 2),
                        TermV::Literal(
                            lex,
                            LiteralKindV::Datatype(iri_text_of(iri_value(s, e + 2, pm, bp))),
                        ),
                        0,
                        Seq::empty(),
                    )
                } else {
                    SpecOutcome::Hard
                }
            } else {
                match scan::spec_langtag_end(s, e) {
                    Some(lj) => SpecOutcome::Hit(
                        lj,
                        TermV::Literal(lex, LiteralKindV::Lang(s.subrange(e + 1, lj))),
                        0,
                        Seq::empty(),
                    ),
                    None => SpecOutcome::Hit(
                        e,
                        TermV::Literal(lex, LiteralKindV::Datatype(ns::xsd_string_iri())),
                        0,
                        Seq::empty(),
                    ),
                }
            }
        },
        None => {
            if scan::spec_double_end(s, i) is Some {
                let j = scan::spec_double_end(s, i).unwrap();
                SpecOutcome::Hit(
                    j,
                    TermV::Literal(
                        s.subrange(i, j),
                        LiteralKindV::Datatype(ns::xsd_double_iri()),
                    ),
                    0,
                    Seq::empty(),
                )
            } else if scan::spec_decimal_end(s, i) is Some {
                let j = scan::spec_decimal_end(s, i).unwrap();
                SpecOutcome::Hit(
                    j,
                    TermV::Literal(
                        s.subrange(i, j),
                        LiteralKindV::Datatype(ns::xsd_decimal_iri()),
                    ),
                    0,
                    Seq::empty(),
                )
            } else if scan::spec_integer_end(s, i) is Some {
                let j = scan::spec_integer_end(s, i).unwrap();
                SpecOutcome::Hit(
                    j,
                    TermV::Literal(
                        s.subrange(i, j),
                        LiteralKindV::Datatype(ns::xsd_integer_iri()),
                    ),
                    0,
                    Seq::empty(),
                )
            } else if spec_at_true(s, i) {
                SpecOutcome::Hit(
                    i + 4,
                    TermV::Literal("true"@, LiteralKindV::Datatype(ns::xsd_boolean_iri())),
                    0,
                    Seq::empty(),
                )
            } else if spec_at_false(s, i) {
                SpecOutcome::Hit(
                    i + 5,
                    TermV::Literal("false"@, LiteralKindV::Datatype(ns::xsd_boolean_iri())),
                    0,
                    Seq::empty(),
                )
            } else {
                SpecOutcome::Soft(0, Seq::empty())
            }
        },
    }
}

/// The `BlankNode` production: a label kept as given, or a fresh anonymous
/// node minted from the counter.
pub open spec fn spec_bnode_res(s: Seq<char>, i: int, c: nat) -> SpecOutcome<TermV> {
    match scan::spec_bnode_label_end(s, i) {
        Some(le) => SpecOutcome::Hit(le, TermV::BNode(s.subrange(i + 2, le)), 0, Seq::empty()),
        None => match scan::spec_anon_end(s, i) {
            Some(j) => if c < u64::MAX {
                SpecOutcome::Hit(j, TermV::BNode(spec_anon_label(c)), 1, Seq::empty())
            } else {
                SpecOutcome::Hard
            },
            None => SpecOutcome::Soft(0, Seq::empty()),
        },
    }
}

/// The `object` production over its five alternatives; a blank-node property
/// list mints its fresh subject before its inner list is read, and enqueues
/// its triples at once.
pub open spec fn spec_object_res(
    s: Seq<char>,
    i: int,
    pm: Map<Seq<char>, Seq<char>>,
    bp: Option<IriPartsV>,
    c: nat,
) -> SpecOutcome<TermV>
    decreases s.len() - i, 3int,
{
    if iri_hit(s, i, pm) {
        SpecOutcome::Hit(spec_iri_end(s, i), iri_value(s, i, pm, bp), 0, Seq::empty())
    } else if !spec_iri_soft(s, i) {
        SpecOutcome::Hard
    } else {
        match spec_bnode_res(s, i, c) {
            SpecOutcome::Hit(j, v, m, sd) => SpecOutcome::Hit(j, v, m, sd),
            SpecOutcome::Hard => SpecOutcome::Hard,
            SpecOutcome::Soft(_, _) => match spec_collection_res(s, i, pm, bp, c) {
                SpecOutcome::Hit(j, v, m, sd) => SpecOutcome::Hit(j, v, m, sd),
                SpecOutcome::Hard => SpecOutcome::Hard,
                SpecOutcome::Soft(m1, sd1) => {
                    if i < s.len() && s[i] == '[' {
                        if c + m1 < u64::MAX {
                            match spec_bnpl_res(s, i, pm, bp, (c + m1 + 1) as nat) {
                                SpecOutcome::Hit(j2, pols, m2, sd2) => SpecOutcome::Hit(
                                    j2,
                                    TermV::BNode(spec_anon_label((c + m1) as nat)),
                                    m1 + 1 + m2,
                                    sd1 + sd2 + spec_spo_triples(
                                        TermV::BNode(spec_anon_label((c + m1) as nat)),
                                        pols,
                                    ),
                                ),
                                SpecOutcome::Soft(m2, sd2) => match spec_literal_res(
                                    s,
                                    i,
                                    pm,
                                    bp,
                                ) {
                                    SpecOutcome::Hit(jl, tv, _, _) => SpecOutcome::Hit(
                                        jl,
                                        tv,
                                        m1 + 1 + m2,
                                        sd1 + sd2,
                                    ),
                                    SpecOutcome::Soft(_, _) => SpecOutcome::Soft(
                                        m1 + 1 + m2,
                                        sd1 + sd2,
                                    ),
                                    SpecOutcome::Hard => SpecOutcome::Hard,
                                },
                                SpecOutcome::Hard => SpecOutcome::Hard,
                            }
                        } else {
                            SpecOutcome::Hard
                        }
                    } else {
                        match spec_literal_res(s, i, pm, bp) {
                            SpecOutcome::Hit(jl, tv, _, _) => SpecOutcome::Hit(jl, tv, m1, sd1),
                            SpecOutcome::Soft(_, _) => SpecOutcome::Soft(m1, sd1),
                            SpecOutcome::Hard => SpecOutcome::Hard,
                        }
                    }
                },
            },
        }
    }
}

/// The `collection` production: the list of element terms is gathered, then
/// desugared into a chain of fresh cells whose triples follow the elements'
/// own side triples.
pub open spec fn spec_collection_res(
    s: Seq<char>,
    i: int,
    pm: Map<Seq<char>, Seq<char>>,
    bp: Option<IriPartsV>,
    c: nat,
) -> SpecOutcome<TermV>
    decreases s.len() - i, 2int,
{
    if !(i < s.len() && s[i] == '(') {
        SpecOutcome::Soft(0, Seq::empty())
    } else {
        let pos0 = scan::spec_ws_end(s, i + 1);
        if !(i < pos0 <= s.len()) {
            SpecOutcome::Hard
        } else {
            match spec_object_res(s, pos0, pm, bp, c) {
                SpecOutcome::Hard => SpecOutcome::Hard,
                SpecOutcome::Soft(m0, sd0) => spec_collection_close(
                    s,
                    pos0,
                    Seq::empty(),
                    c,
                    m0,
                    sd0,
                ),
                SpecOutcome::Hit(j1, v1, m0, sd0) => {
                    if !(pos0 < j1 <= s.len()) {
                        SpecOutcome::Hard
                    } else {
                        match spec_coll_elems(s, j1, pm, bp, (c + m0) as nat, seq![v1], m0, sd0) {
                            SpecOutcome::Hit(pos_e, elems, m_e, sd_e) => spec_collection_close(
                                s,
                                pos_e,
                                elems,
                                c,
                                m_e,
                                sd_e,
                            ),
                            _ => SpecOutcome::Hard,
                        }
                    }
                },
            }
        }
    }
}

/// The elements of a collection after the first: whitespace-separated
/// objects, gathered until no separator or no further object applies.
pub open spec fn spec_coll_elems(
    s: Seq<char>,
    pos: int,
    pm: Map<Seq<char>, Seq<char>>,
    bp: Option<IriPartsV>,
    c: nat,
    elems: Seq<TermV>,
    m_acc: nat,
    sd_acc: Seq<TripleV>,
) -> SpecOutcome<Seq<TermV>>
    decreases s.len() - pos, 4int,
{
    let w = scan::spec_ws_end(s, pos);
    if !(pos < w <= s.len()) {
        SpecOutcome::Hit(pos, elems, m_acc, sd_acc)
    } else {
        match spec_object_res(s, w, pm, bp, c) {
            SpecOutcome::Soft(m2, sd2) => SpecOutcome::Hit(pos, elems, m_acc + m2, sd_acc + sd2),
            SpecOutcome::Hard => SpecOutcome::Hard,
            SpecOutcome::Hit(j2, v2, m2, sd2) => {
                if !(w < j2 <= s.len()) {
                    SpecOutcome::Hard
                } else {
                    spec_coll_elems(
                        s,
                        j2,
                        pm,
                        bp,
                        (c + m2) as nat,
                        elems.push(v2),
                        m_acc + m2,
                        sd_acc + sd2,
                    )
                }
            },
        }
    }
}

/// Closing a collection: the `)` is expected, the chain is minted, its
/// triples follow the accumulated side triples, and the first cell (or
/// `rdf:nil` when empty) is the value.
pub open spec fn spec_collection_close(
    s: Seq<char>,
    pos_e: int,
    elems: Seq<TermV>,
    c: nat,
    m_e: nat,
    sd_e: Seq<TripleV>,
) -> SpecOutcome<TermV> {
    let close = scan::spec_ws_end(s, pos_e);
    if close < s.len() && s[close] == ')' {
        if elems.len() + c + m_e > u64::MAX {
            SpecOutcome::Hard
        } else {
            SpecOutcome::Hit(
                close + 1,
                if elems.len() == 0 {
                    TermV::Iri(ns::rdf_nil_iri())
                } else {
                    TermV::BNode(spec_anon_label((c + m_e) as nat))
                },
                m_e + elems.len(),
                sd_e + spec_collection_triples((c + m_e) as nat, elems),
            )
        }
    } else {
        SpecOutcome::Soft(m_e, sd_e)
    }
}

/// The `blankNodePropertyList` production: the inner predicate-object lists
/// between the brackets.
pub open spec fn spec_bnpl_res(
    s: Seq<char>,
    i: int,
    pm: Map<Seq<char>, Seq<char>>,
    bp: Option<IriPartsV>,
    c: nat,
) -> SpecOutcome<Seq<(TermV, Seq<TermV>)>>
    decreases s.len() - i, 1int,
{
    if !(i < s.len() && s[i] == '[') {
        SpecOutcome::Soft(0, Seq::empty())
    } else {
        let pos = scan::spec_ws_end(s, i + 1);
        if !(i < pos <= s.len()) {
            SpecOutcome::Hard
        } else {
            match spec_pol_res(s, pos, pm, bp, c) {
                SpecOutcome::Soft(m, sd) => SpecOutcome::Soft(m, sd),
                SpecOutcome::Hard => SpecOutcome::Hard,
                SpecOutcome::Hit(j, pols, m, sd) => {
                    let close = scan::spec_ws_end(s, j);
                    if close < s.len() && s[close] == ']' {
                        SpecOutcome::Hit(close + 1, pols, m, sd)
                    } else {
                        SpecOutcome::Soft(m, sd)
                    }
                },
            }
        }
    }
}

/// The `objectList` production: called after a committed verb, so an absent
/// object — first or after a comma — is a hard failure, never an empty list.
pub open spec fn spec_object_list_res(
    s: Seq<char>,
    i: int,
    pm: Map<Seq<char>, Seq<char>>,
    bp: Option<IriPartsV>,
    c: nat,
) -> SpecOutcome<Seq<TermV>>
    decreases s.len() - i, 5int,
{
    match spec_object_res(s, i, pm, bp, c) {
        SpecOutcome::Soft(_, _) => SpecOutcome::Hard,
        SpecOutcome::Hard => SpecOutcome::Hard,
        SpecOutcome::Hit(j, v, m, sd) => {
            if !(i < j <= s.len()) {
                SpecOutcome::Hard
            } else {
                spec_ol_rest(s, j, pm, bp, (c + m) as nat, seq![v], m, sd)
            }
        },
    }
}

/// The objects after the first: comma-separated, in source order.
pub open spec fn spec_ol_rest(
    s: Seq<char>,
    pos: int,
    pm: Map<Seq<char>, Seq<char>>,
    bp: Option<IriPartsV>,
    c: nat,
    objs: Seq<TermV>,
    m_acc: nat,
    sd_acc: Seq<TripleV>,
) -> SpecOutcome<Seq<TermV>>
    decreases s.len() - pos, 4int,
{
    let w = scan::spec_ws_end(s, pos);
    if !(pos <= w && w < s.len() && s[w] == ',') {
        SpecOutcome::Hit(pos, objs, m_acc, sd_acc)
    } else {
        let w2 = scan::spec_ws_end(s, w + 1);
        if !(pos < w2 <= s.len()) {
            SpecOutcome::Hard
        } else {
            match spec_object_res(s, w2, pm, bp, c) {
                SpecOutcome::Soft(_, _) => SpecOutcome::Hard,
                SpecOutcome::Hard => SpecOutcome::Hard,
                SpecOutcome::Hit(j2, v2, m2, sd2) => {
                    if !(w2 < j2 <= s.len()) {
                        SpecOutcome::Hard
                    } else {
                        spec_ol_rest(
                            s,
                            j2,
                            pm,
                            bp,
                            (c + m2) as nat,
                            objs.push(v2),
                            m_acc + m2,
                            sd_acc + sd2,
                        )
                    }
                },
            }
        }
    }
}

/// The `predicateObjectList` production: a first verb-object-list pair, then
/// semicolon-separated pairs, in source order.
pub open spec fn spec_pol_res(
    s: Seq<char>,
    i: int,
    pm: Map<Seq<char>, Seq<char>>,
    bp: Option<IriPartsV>,
    c: nat,
) -> SpecOutcome<Seq<(TermV, Seq<TermV>)>>
    decreases s.len() - i, 6int,
{
    match spec_verb_res(s, i, pm, bp) {
        SpecOutcome::Soft(_, _) => SpecOutcome::Soft(0, Seq::empty()),
        SpecOutcome::Hard => SpecOutcome::Hard,
        SpecOutcome::Hit(v0, pv, _, _) => {
            if !(i < v0 <= s.len()) {
                SpecOutcome::Hard
            } else {
                let w0 = scan::spec_ws_end(s, v0);
                if !(v0 < w0 <= s.len()) {
                    SpecOutcome::Soft(0, Seq::empty())
                } else {
                    match spec_object_list_res(s, w0, pm, bp, c) {
                        SpecOutcome::Hit(j1, objs, m1, sd1) => {
                            if !(w0 < j1 <= s.len()) {
                                SpecOutcome::Hard
                            } else {
                                spec_pol_rest(
                                    s,
                                    j1,
                                    pm,
                                    bp,
                                    (c + m1) as nat,
                                    seq![(pv, objs)],
                                    m1,
                                    sd1,
                                )
                            }
                        },
                        _ => SpecOutcome::Hard,
                    }
                }
            }
        },
    }
}

/// The pairs after the first: each `;` must be followed by a verb, its
/// whitespace and its object list, else the list ends before the `;`.
pub open spec fn spec_pol_rest(
    s: Seq<char>,
    pos: int,
    pm: Map<Seq<char>, Seq<char>>,
    bp: Option<IriPartsV>,
    c: nat,
    pols: Seq<(TermV, Seq<TermV>)>,
    m_acc: nat,
    sd_acc: Seq<TripleV>,
) -> SpecOutcome<Seq<(TermV, Seq<TermV>)>>
    decreases s.len() - pos, 4int,
{
    let w = scan::spec_ws_end(s, pos);
    if !(pos <= w && w < s.len() && s[w] == ';') {
        SpecOutcome::Hit(pos, pols, m_acc, sd_acc)
    } else {
        let w2 = scan::spec_ws_end(s, w + 1);
        if !(pos < w2 <= s.len()) {
            SpecOutcome::Hard
        } else {
            match spec_verb_res(s, w2, pm, bp) {
                SpecOutcome::Soft(_, _) => SpecOutcome::Hit(pos, pols, m_acc, sd_acc),
                SpecOutcome::Hard => SpecOutcome::Hard,
                SpecOutcome::Hit(v1, pv1, _, _) => {
                    if !(w2 < v1 <= s.len()) {
                        SpecOutcome::Hard
                    } else {
                        let w3 = scan::spec_ws_end(s, v1);
                        if !(v1 < w3 <= s.len()) {
                            SpecOutcome::Hit(pos, pols, m_acc, sd_acc)
                        } else {
                            match spec_object_list_res(s, w3, pm, bp, c) {
                                SpecOutcome::Hit(j2, objs2, m2, sd2) => {
                                    if !(w3 < j2 <= s.len()) {
                                        SpecOutcome::Hard
                                    } else {
                                        spec_pol_rest(
                                            s,
                                            j2,
                                            pm,
                                            bp,
                                            (c + m2) as nat,
                                            pols.push((pv1, objs2)),
                                            m_acc + m2,
                                            sd_acc + sd2,
                                        )
                                    }
                                },
                                _ => SpecOutcome::Hard,
                            }
                        }
                    }
                },
            }
        }
    }
}

/// The `subject` production: an IRI, a blank node, or a collection.
pub open spec fn spec_subject_res(
    s: Seq<char>,
    i: int,
    pm: Map<Seq<char>, Seq<char>>,
    bp: Option<IriPartsV>,
    c: nat,
) -> SpecOutcome<TermV>
    decreases s.len() - i, 3int,
{
    if iri_hit(s, i, pm) {
        SpecOutcome::Hit(spec_iri_end(s, i), iri_value(s, i, pm, bp), 0, Seq::empty())
    } else if !spec_iri_soft(s, i) {
        SpecOutcome::Hard
    } else {
        match spec_bnode_res(s, i, c) {
            SpecOutcome::Hit(j, v, m, sd) => SpecOutcome::Hit(j, v, m, sd),
            SpecOutcome::Hard => SpecOutcome::Hard,
            SpecOutcome::Soft(_, _) => spec_collection_res(s, i, pm, bp, c),
        }
    }
}

/// The first `triples` alternative: a subject, whitespace, and its
/// predicate-object list; once the subject is parsed and its whitespace
/// seen, a missing list is a hard failure.
pub open spec fn spec_triples_first(
    s: Seq<char>,
    i: int,
    pm: Map<Seq<char>, Seq<char>>,
    bp: Option<IriPartsV>,
    c: nat,
) -> SpecOutcome<(TermV, Seq<(TermV, Seq<TermV>)>)>
    decreases s.len() - i, 7int,
{
    match spec_subject_res(s, i, pm, bp, c) {
        SpecOutcome::Hard => SpecOutcome::Hard,
        SpecOutcome::Soft(mp, sdp) => SpecOutcome::Soft(mp, sdp),
        SpecOutcome::Hit(j1, sv, m1, sd1) => {
            if !(i < j1 <= s.len()) {
                SpecOutcome::Hard
            } else {
                let w = scan::spec_ws_end(s, j1);
                if !(j1 < w <= s.len()) {
                    SpecOutcome::Soft(m1, sd1)
                } else {
                    match spec_pol_res(s, w, pm, bp, (c + m1) as nat) {
                        SpecOutcome::Hit(j2, pols, m2, sd2) => SpecOutcome::Hit(
                            j2,
                            (sv, pols),
                            m1 + m2,
                            sd1 + sd2,
                        ),
                        // the subject committed this production
                        SpecOutcome::Soft(_, _) => SpecOutcome::Hard,
                        SpecOutcome::Hard => SpecOutcome::Hard,
                    }
                }
            }
        },
    }
}

/// The `triples` production: a subject with its predicate-object list, or a
/// blank-node property list whose fresh subject, minted before the inner
/// list is read, may take a further predicate-object list.
pub open spec fn spec_triples_res(
    s: Seq<char>,
    i: int,
    pm: Map<Seq<char>, Seq<char>>,
    bp: Option<IriPartsV>,
    c: nat,
) -> SpecOutcome<(TermV, Seq<(TermV, Seq<TermV>)>)>
    decreases s.len() - i, 8int,
{
    match spec_triples_first(s, i, pm, bp, c) {
        SpecOutcome::Soft(mp, sdp) => spec_triples_bnpl(s, i, pm, bp, c, mp, sdp),
        SpecOutcome::Hit(j, v, m, sd) => SpecOutcome::Hit(j, v, m, sd),
        SpecOutcome::Hard => SpecOutcome::Hard,
    }
}

/// The second `triples` alternative: a blank-node property list as the
/// shared subject, with the pollution of the backtracked first alternative
/// carried in.
pub open spec fn spec_triples_bnpl(
    s: Seq<char>,
    i: int,
    pm: Map<Seq<char>, Seq<char>>,
    bp: Option<IriPartsV>,
    c: nat,
    mp: nat,
    sdp: Seq<TripleV>,
) -> SpecOutcome<(TermV, Seq<(TermV, Seq<TermV>)>)>
    decreases s.len() - i, 7int,
{
    if !(i < s.len() && s[i] == '[') {
        SpecOutcome::Soft(mp, sdp)
    } else if c + mp < u64::MAX {
        let b = (c + mp) as nat;
        match spec_bnpl_res(s, i, pm, bp, (c + mp + 1) as nat) {
            SpecOutcome::Soft(m3, sd3) => SpecOutcome::Soft(mp + 1 + m3, sdp + sd3),
            SpecOutcome::Hard => SpecOutcome::Hard,
            SpecOutcome::Hit(j2, pols, m3, sd3) => {
                if !(i < j2 <= s.len()) {
                    SpecOutcome::Hard
                } else {
                    let w = scan::spec_ws_end(s, j2);
                    if !(j2 <= w <= s.len()) {
                        SpecOutcome::Hard
                    } else {
                        match spec_pol_res(s, w, pm, bp, (c + mp + 1 + m3) as nat) {
                            SpecOutcome::Hit(j3, more, m4, sd4) => SpecOutcome::Hit(
                                j3,
                                (TermV::BNode(spec_anon_label(b)), pols + more),
                                mp + 1 + m3 + m4,
                                sdp + sd3 + sd4,
                            ),
                            SpecOutcome::Soft(m4, sd4) => SpecOutcome::Hit(
                                j2,
                                (TermV::BNode(spec_anon_label(b)), pols),
                                mp + 1 + m3 + m4,
                                sdp + sd3 + sd4,
                            ),
                            SpecOutcome::Hard => SpecOutcome::Hard,
                        }
                    }
                }
            },
        }
    } else {
        SpecOutcome::Hard
    }
}

/// A whole non-directive statement: `triples` followed by its terminating
/// dot; the enqueued triples are the side triples in parse order, then the
/// statement's own subject-predicate-object expansion.
pub open spec fn spec_triples_statement_res(
    s: Seq<char>,
    i: int,
    pm: Map<Seq<char>, Seq<char>>,
    bp: Option<IriPartsV>,
    c: nat,
) -> SpecOutcome<()>
    decreases s.len() - i, 9int,
{
    match spec_triples_res(s, i, pm, bp, c) {
        SpecOutcome::Soft(m, sd) => SpecOutcome::Soft(m, sd),
        SpecOutcome::Hard => SpecOutcome::Hard,
        SpecOutcome::Hit(j, sp, m, sd) => {
            if !(i < j <= s.len()) {
                SpecOutcome::Hard
            } else {
                let w = scan::spec_ws_end(s, j);
                if w < s.len() && s[w] == '.' {
                    SpecOutcome::Hit(w + 1, (), m, sd + spec_spo_triples(sp.0, sp.1))
                } else {
                    SpecOutcome::Soft(m, sd)
                }
            }
        },
    }
}

} // verus!
