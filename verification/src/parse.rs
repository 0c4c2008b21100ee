//! Structs and types to parse RDF documents: the mutable parse context and
//! the term-list collections the grammar engine produces.

pub mod grammar;
pub mod turtle;

use std::collections::VecDeque;

use vstd::prelude::*;

use crate::error::Error;
use crate::ns;
use crate::prolog::{spec_resolve_ref, Prolog};
use crate::term::{LiteralKind, Term, TermV, Triple, TripleV};
use crate::text::{chars_to_string, push_decimal, spec_decimal_digits};

verus! {

/// Maximal length of context given for errors.
pub const MAX_CTX_LEN: usize = 48;

/// Failure of one grammar production.
///
/// A soft mismatch means this alternative does not apply here and the caller
/// should try the next one; a hard failure means the input matched this
/// production's shape but content validation failed, and the whole parse
/// aborts.
#[derive(Debug, Clone, PartialEq, Eq)]
pub enum ParseErr {
    /// This alternative does not apply at this position.
    Mismatch,
    /// The shape matched but its content is invalid.
    Failure(Error),
}

/// The label of the anonymous blank node minted at counter value `n`.
pub open spec fn spec_anon_label(n: nat) -> Seq<char> {
    "anon"@ + spec_decimal_digits(n)
}

/// Distinct counter values mint distinct anonymous labels: together with the
/// strictly increasing counter, blank-node identities are unique within one
/// session.
pub proof fn lemma_anon_labels_distinct(m: nat, n: nat)
    requires
        m != n,
    ensures
        spec_anon_label(m) != spec_anon_label(n),
{
    reveal_strlit("anon");
    if spec_anon_label(m) == spec_anon_label(n) {
        let lm = spec_anon_label(m);
        assert(spec_decimal_digits(m) =~= lm.skip(4));
        assert(spec_decimal_digits(n) =~= spec_anon_label(n).skip(4));
        crate::text::lemma_decimal_digits_injective(m, n);
    }
}

/// The current context of the parser: prefixes and base, the blank-node
/// counter, and the queue of triples produced by nested sub-expressions but
/// not yet delivered to the caller.
#[derive(Debug)]
pub struct Context {
    /// Prefixes and base.
    pub prolog: Prolog,
    /// Number of blank nodes minted so far; names the next anonymous node.
    pub bnode_cnt: u64,
    /// Triples produced by nested sub-expressions, awaiting delivery.
    pub triple_stack: VecDeque<Triple>,
}

impl Context {
    /// The blank-node counter.
    pub open spec fn cnt(&self) -> nat {
        self.bnode_cnt as nat
    }

    /// The pending-triple queue, oldest first.
    pub open spec fn queue(&self) -> Seq<TripleV> {
        self.triple_stack@.map_values(|t: Triple| t@)
    }

    /// Well-formedness of the context.
    pub open spec fn wf(&self) -> bool {
        self.prolog.wf()
    }

    /// The prolog is unchanged between two context states.
    pub open spec fn same_prolog(&self, other: &Context) -> bool {
        self.prolog.prefix_entries() == other.prolog.prefix_entries()
        && self.prolog.prefix_map() == other.prolog.prefix_map()
        && self.prolog.base_text() == other.prolog.base_text()
        && self.prolog.base_parts() == other.prolog.base_parts()
    }

    /// An empty context without prefixes or base.
    pub fn new() -> (r: Context)
        ensures
            r.wf(),
            r.cnt() == 0,
            r.queue() == Seq::<TripleV>::empty(),
            r.prolog.base_parts() is None,
            r.prolog.prefix_entries() == Seq::<(Seq<char>, Seq<char>)>::empty(),
    {
        let r = Context { prolog: Prolog::new(), bnode_cnt: 0, triple_stack: VecDeque::new() };
        proof {
            assert(r.queue() =~= Seq::<TripleV>::empty());
        }
        r
    }

    /// A context pre-seeded with the default prefixes.
    pub fn with_default_prefixes() -> (r: Context)
        ensures
            r.wf(),
            r.cnt() == 0,
            r.queue() == Seq::<TripleV>::empty(),
            r.prolog.base_parts() is None,
            r.prolog.prefix_map() =~= Map::<Seq<char>, Seq<char>>::empty().insert(
                "rdf"@,
                ns::rdf_ns(),
            ).insert("rdfs"@, ns::rdfs_ns()).insert("xsd"@, ns::xsd_ns()),
    {
        let r = Context {
            prolog: Prolog::with_default_prefixes(),
            bnode_cnt: 0,
            triple_stack: VecDeque::new(),
        };
        proof {
            assert(r.queue() =~= Seq::<TripleV>::empty());
        }
        r
    }

    /// Wraps a label already validated by the scanner as a blank node.  Does
    /// not consult or increment the counter.
    pub fn new_labeled_bnode(&self, label: String) -> (t: Term)
        ensures
            t@ == TermV::BNode(label@),
    {
        Term::BNode(label)
    }

    /// Mints a fresh anonymous blank node: formats a label from the counter,
    /// then increments it.
    pub fn new_anon_bnode(&mut self) -> (t: Term)
        requires
            old(self).cnt() < u64::MAX,
        ensures
            t@ == TermV::BNode(spec_anon_label(old(self).cnt())),
            final(self).cnt() == old(self).cnt() + 1,
            final(self).queue() == old(self).queue(),
            old(self).same_prolog(final(self)),
            final(self).wf() == old(self).wf(),
    {
        let mut label: Vec<char> = Vec::new();
        label.push('a');
        label.push('n');
        label.push('o');
        label.push('n');
        push_decimal(self.bnode_cnt, &mut label);
        proof {
            reveal_strlit("anon");
            assert(label@ =~= spec_anon_label(self.cnt()));
        }
        self.bnode_cnt = self.bnode_cnt + 1;
        Term::BNode(chars_to_string(label.as_slice()))
    }

    /// Builds an IRI term from a reference, resolved against the base IRI if
    /// one is set.
    pub fn new_iri(&self, reference: &Vec<char>) -> (t: Term)
        ensures
            t@ == TermV::Iri(spec_resolve_ref(self.prolog.base_parts(), reference@)),
    {
        let resolved = self.prolog.resolve(reference);
        Term::Iri(chars_to_string(resolved.as_slice()))
    }

    /// Takes the oldest pending triple, if any.
    pub fn pop_triple(&mut self) -> (r: Option<Triple>)
        ensures
            final(self).cnt() == old(self).cnt(),
            old(self).same_prolog(final(self)),
            final(self).wf() == old(self).wf(),
            match r {
                Some(t) => old(self).queue().len() > 0 && t@ == old(self).queue()[0]
                    && final(self).queue() == old(self).queue().drop_first(),
                None => old(self).queue().len() == 0 && final(self).queue() == old(self).queue(),
            },
    {
        let r = self.triple_stack.pop_front();
        proof {
            if old(self).triple_stack@.len() > 0 {
                assert(self.queue() =~= old(self).queue().drop_first());
            } else {
                assert(self.queue() =~= old(self).queue());
            }
        }
        r
    }

    /// Appends one triple to the pending queue.
    pub fn push_triple(&mut self, t: Triple)
        ensures
            final(self).cnt() == old(self).cnt(),
            old(self).same_prolog(final(self)),
            final(self).wf() == old(self).wf(),
            final(self).queue() == old(self).queue().push(t@),
    {
        self.triple_stack.push_back(t);
        proof {
            assert(self.queue() =~= old(self).queue().push(t@));
        }
    }

    /// Appends a list of triples to the pending queue, in order.
    pub fn push_triples(&mut self, ts: Vec<Triple>)
        ensures
            final(self).cnt() == old(self).cnt(),
            old(self).same_prolog(final(self)),
            final(self).wf() == old(self).wf(),
            final(self).queue() == old(self).queue() + ts@.map_values(|t: Triple| t@),
    {
        let ghost all = ts@.map_values(|t: Triple| t@);
        let mut ts = ts;
        let n = ts.len();
        let mut k: usize = 0;
        while k < n
            invariant
                n == ts@.len(),
                k <= n,
                ts@.map_values(|t: Triple| t@) == all,
                self.queue() =~= old(self).queue() + all.take(k as int),
                self.cnt() == old(self).cnt(),
                old(self).same_prolog(self),
                self.wf() == old(self).wf(),
            decreases n - k,
        {
            let t = ts[k].duplicate();
            self.push_triple(t);
            proof {
                assert(all.take(k + 1) =~= all.take(k as int).push(all[k as int]));
                assert(self.queue() =~= old(self).queue() + all.take(k + 1));
            }
            k = k + 1;
        }
        proof {
            assert(all.take(n as int) =~= all);
            assert(self.queue() =~= old(self).queue() + all);
        }
    }
}

impl Default for Context {
    /// An empty context without prefixes or base.
    fn default() -> (r: Self)
        ensures
            r.wf(),
            r.cnt() == 0,
            r.queue() == Seq::<TripleV>::empty(),
            r.prolog.base_parts() is None,
            r.prolog.prefix_entries() == Seq::<(Seq<char>, Seq<char>)>::empty(),
    {
        Context::new()
    }
}

// ---------------------------------------------------------------------------
// Term lists
// ---------------------------------------------------------------------------

/// The pairs a predicate-with-objects list stands for: the predicate repeated
/// against each object.
pub open spec fn spec_po_pairs(p: TermV, objects: Seq<TermV>) -> Seq<(TermV, TermV)> {
    objects.map_values(|o: TermV| (p, o))
}

/// A predicate with a list of objects.
#[derive(Debug, Clone, PartialEq, Eq)]
pub struct PoList {
    predicate: Term,
    objects: Vec<Term>,
}

impl PoList {
    /// The predicate as a mathematical value.
    pub closed spec fn predicate_v(&self) -> TermV {
        self.predicate@
    }

    /// The objects as mathematical values.
    pub closed spec fn objects_v(&self) -> Seq<TermV> {
        self.objects@.map_values(|t: Term| t@)
    }

    /// Creates a new PO-list from a predicate and a list of objects.
    pub fn new(predicate: Term, objects: Vec<Term>) -> (r: PoList)
        ensures
            r.predicate_v() == predicate@,
            r.objects_v() == objects@.map_values(|t: Term| t@),
    {
        PoList { predicate, objects }
    }

    /// A structurally equal copy.
    pub fn duplicate(&self) -> (r: PoList)
        ensures
            r.predicate_v() == self.predicate_v(),
            r.objects_v() == self.objects_v(),
    {
        let mut objects: Vec<Term> = Vec::new();
        let n = self.objects.len();
        let mut k: usize = 0;
        while k < n
            invariant
                n == self.objects@.len(),
                k <= n,
                objects@.map_values(|t: Term| t@) =~= self.objects_v().take(k as int),
            decreases n - k,
        {
            let ghost o0 = objects@;
            let t = self.objects[k].duplicate();
            objects.push(t);
            proof {
                let f = |x: Term| x@;
                assert(objects@ =~= o0.push(t));
                assert(objects@.map_values(f) =~= o0.map_values(f).push(t@));
                assert(self.objects_v().take(k as int).push(self.objects_v()[k as int])
                    =~= self.objects_v().take(k + 1));
            }
            k = k + 1;
        }
        proof {
            assert(self.objects_v().take(n as int) =~= self.objects_v());
        }
        PoList { predicate: self.predicate.duplicate(), objects }
    }

    /// The number of objects.
    pub fn len(&self) -> (n: usize)
        ensures
            n == self.objects_v().len(),
    {
        self.objects.len()
    }

    /// The list of predicate-object pairs.  The predicate is copied for each
    /// pair.
    pub fn pairs(&self) -> (r: Vec<(Term, Term)>)
        ensures
            r@.map_values(|e: (Term, Term)| (e.0@, e.1@)) == spec_po_pairs(
                self.predicate_v(),
                self.objects_v(),
            ),
    {
        let mut r: Vec<(Term, Term)> = Vec::new();
        let n = self.objects.len();
        let mut k: usize = 0;
        while k < n
            invariant
                n == self.objects@.len(),
                k <= n,
                r@.map_values(|e: (Term, Term)| (e.0@, e.1@)) =~= spec_po_pairs(
                    self.predicate_v(),
                    self.objects_v(),
                ).take(k as int),
            decreases n - k,
        {
            r.push((self.predicate.duplicate(), self.objects[k].duplicate()));
            proof {
                let f = |e: (Term, Term)| (e.0@, e.1@);
                let full = spec_po_pairs(self.predicate_v(), self.objects_v());
                assert(r@.map_values(f) =~= full.take(k as int).push(full[k as int]));
                assert(full.take(k as int).push(full[k as int]) =~= full.take(k + 1));
            }
            k = k + 1;
        }
        proof {
            let full = spec_po_pairs(self.predicate_v(), self.objects_v());
            assert(full.take(n as int) =~= full);
        }
        r
    }
}

/// The triples a subject-with-PO-lists stands for: the subject repeated
/// against every predicate-object pair, in list order.
pub open spec fn spec_spo_triples(s: TermV, pos: Seq<(TermV, Seq<TermV>)>) -> Seq<TripleV>
    decreases pos.len(),
{
    if pos.len() == 0 {
        Seq::empty()
    } else {
        spec_spo_triples(s, pos.drop_last()) + spec_po_triples(s, pos.last().0, pos.last().1)
    }
}

/// The triples of one subject and one predicate against a list of objects.
pub open spec fn spec_po_triples(s: TermV, p: TermV, objects: Seq<TermV>) -> Seq<TripleV> {
    objects.map_values(|o: TermV| TripleV { s, p, o })
}

/// The total number of objects in a list of PO-lists.
pub open spec fn spec_object_count(pos: Seq<(TermV, Seq<TermV>)>) -> nat
    decreases pos.len(),
{
    if pos.len() == 0 {
        0
    } else {
        spec_object_count(pos.drop_last()) + pos.last().1.len()
    }
}

/// The grammar's expansion law: a subject with PO-lists yields exactly one
/// triple per (predicate, object) combination — a predicate with N objects
/// yields exactly N triples sharing subject and predicate.
pub proof fn lemma_spo_expansion(s: TermV, pos: Seq<(TermV, Seq<TermV>)>)
    ensures
        spec_spo_triples(s, pos).len() == spec_object_count(pos),
        forall|i: int|
            0 <= i < spec_spo_triples(s, pos).len() ==> (#[trigger] spec_spo_triples(s, pos)[i]).s
                == s,
    decreases pos.len(),
{
    if pos.len() > 0 {
        lemma_spo_expansion(s, pos.drop_last());
    }
}

/// A subject with a list of predicate-object lists.
#[derive(Debug, Clone, PartialEq, Eq)]
pub struct SpoList {
    subject: Term,
    po_lists: Vec<PoList>,
}

impl SpoList {
    /// The subject as a mathematical value.
    pub closed spec fn subject_v(&self) -> TermV {
        self.subject@
    }

    /// The PO-lists as mathematical values.
    pub closed spec fn po_lists_v(&self) -> Seq<(TermV, Seq<TermV>)> {
        self.po_lists@.map_values(|p: PoList| (p.predicate_v(), p.objects_v()))
    }

    /// The triples this list stands for.
    pub open spec fn triples_v(&self) -> Seq<TripleV> {
        spec_spo_triples(self.subject_v(), self.po_lists_v())
    }

    /// Creates a new SPO-list from a subject and its predicate-object lists.
    pub fn new(subject: Term, po_lists: Vec<PoList>) -> (r: SpoList)
        ensures
            r.subject_v() == subject@,
            r.po_lists_v() == po_lists@.map_values(
                |p: PoList| (p.predicate_v(), p.objects_v()),
            ),
    {
        SpoList { subject, po_lists }
    }

    /// The list of subject-predicate-object triples.  The subject and the
    /// predicates are copied as needed.
    pub fn triples(&self) -> (r: Vec<Triple>)
        ensures
            r@.map_values(|t: Triple| t@) == self.triples_v(),
    {
        let mut r: Vec<Triple> = Vec::new();
        let n = self.po_lists.len();
        let mut k: usize = 0;
        while k < n
            invariant
                n == self.po_lists@.len(),
                k <= n,
                r@.map_values(|t: Triple| t@) =~= spec_spo_triples(
                    self.subject_v(),
                    self.po_lists_v().take(k as int),
                ),
            decreases n - k,
        {
            let pol = &self.po_lists[k];
            let m = pol.objects.len();
            let mut j: usize = 0;
            while j < m
                invariant
                    n == self.po_lists@.len(),
                    k < n,
                    pol == self.po_lists@[k as int],
                    m == pol.objects@.len(),
                    j <= m,
                    r@.map_values(|t: Triple| t@) =~= spec_spo_triples(
                        self.subject_v(),
                        self.po_lists_v().take(k as int),
                    ) + spec_po_triples(
                        self.subject_v(),
                        pol.predicate_v(),
                        pol.objects_v(),
                    ).take(j as int),
                decreases m - j,
            {
                let ghost r0 = r@;
                let trip = Triple {
                    s: self.subject.duplicate(),
                    p: pol.predicate.duplicate(),
                    o: pol.objects[j].duplicate(),
                };
                r.push(trip);
                proof {
                    let f = |t: Triple| t@;
                    let pt = spec_po_triples(self.subject_v(), pol.predicate_v(), pol.objects_v());
                    assert(r@ =~= r0.push(trip));
                    assert(r@.map_values(f) =~= r0.map_values(f).push(trip@));
                    assert(trip@ == pt[j as int]);
                    assert(pt.take(j as int).push(pt[j as int]) =~= pt.take(j + 1));
                    assert(r@.map_values(f) =~= spec_spo_triples(
                        self.subject_v(),
                        self.po_lists_v().take(k as int),
                    ) + pt.take(j + 1));
                }
                j = j + 1;
            }
            proof {
                let pt = spec_po_triples(self.subject_v(), pol.predicate_v(), pol.objects_v());
                assert(pt.take(m as int) =~= pt);
                let taken = self.po_lists_v().take(k + 1);
                assert(taken.drop_last() =~= self.po_lists_v().take(k as int));
                assert(taken.last() == (pol.predicate_v(), pol.objects_v()));
                assert(r@.map_values(|t: Triple| t@) =~= spec_spo_triples(
                    self.subject_v(),
                    taken,
                ));
            }
            k = k + 1;
        }
        proof {
            assert(self.po_lists_v().take(n as int) =~= self.po_lists_v());
        }
        r
    }

    /// Appends the PO-lists of another list (used when an outer
    /// predicate-object list extends a blank-node subject).
    pub fn extend(&mut self, more: &Vec<PoList>)
        ensures
            final(self).subject_v() == old(self).subject_v(),
            final(self).po_lists_v() == old(self).po_lists_v() + more@.map_values(
                |p: PoList| (p.predicate_v(), p.objects_v()),
            ),
    {
        let ghost extra = more@.map_values(|p: PoList| (p.predicate_v(), p.objects_v()));
        let n = more.len();
        let mut k: usize = 0;
        while k < n
            invariant
                n == more@.len(),
                k <= n,
                extra == more@.map_values(|p: PoList| (p.predicate_v(), p.objects_v())),
                self.subject_v() == old(self).subject_v(),
                self.po_lists_v() =~= old(self).po_lists_v() + extra.take(k as int),
            decreases n - k,
        {
            let ghost pls0 = self.po_lists@;
            let p = more[k].duplicate();
            self.po_lists.push(p);
            proof {
                let g = |q: PoList| (q.predicate_v(), q.objects_v());
                assert(self.po_lists@ =~= pls0.push(p));
                assert(self.po_lists_v() =~= pls0.map_values(g).push(g(p)));
                assert(g(p) == extra[k as int]);
                assert(extra.take(k as int).push(extra[k as int]) =~= extra.take(k + 1));
                assert(self.po_lists_v() =~= old(self).po_lists_v() + extra.take(k + 1));
            }
            k = k + 1;
        }
        proof {
            assert(extra.take(n as int) =~= extra);
        }
    }
}


// ---------------------------------------------------------------------------
// Collection desugaring
// ---------------------------------------------------------------------------

/// The chain of triples a non-empty collection desugars to, starting at
/// counter value `c`: for each element a fresh cell, `[cell, rdf:first,
/// element]` and `[cell, rdf:rest, next-cell-or-nil]`, left to right.
pub open spec fn spec_collection_triples(c: nat, elems: Seq<TermV>) -> Seq<TripleV>
    decreases elems.len(),
{
    if elems.len() == 0 {
        Seq::empty()
    } else {
        let cell = TermV::BNode(spec_anon_label(c));
        let next = if elems.len() > 1 {
            TermV::BNode(spec_anon_label((c + 1) as nat))
        } else {
            TermV::Iri(ns::rdf_nil_iri())
        };
        seq![
            TripleV { s: cell, p: TermV::Iri(ns::rdf_first_iri()), o: elems[0] },
            TripleV { s: cell, p: TermV::Iri(ns::rdf_rest_iri()), o: next },
        ] + spec_collection_triples((c + 1) as nat, elems.drop_first())
    }
}

/// The shape of a desugared collection chain: exactly two triples per
/// element, the cell of element `k` named from counter value `c + k`, its
/// `rdf:first` pointing at the element and its `rdf:rest` at the next cell,
/// with the last cell's rest pointing at `rdf:nil`.
pub proof fn lemma_collection_chain(c: nat, elems: Seq<TermV>)
    ensures
        spec_collection_triples(c, elems).len() == 2 * elems.len(),
        forall|k: int|
            #![trigger spec_collection_triples(c, elems)[2 * k]]
            0 <= k < elems.len() ==> spec_collection_triples(c, elems)[2 * k] == (TripleV {
                s: TermV::BNode(spec_anon_label((c + k) as nat)),
                p: TermV::Iri(ns::rdf_first_iri()),
                o: elems[k],
            }) && spec_collection_triples(c, elems)[2 * k + 1] == (TripleV {
                s: TermV::BNode(spec_anon_label((c + k) as nat)),
                p: TermV::Iri(ns::rdf_rest_iri()),
                o: if k + 1 < elems.len() {
                    TermV::BNode(spec_anon_label((c + k + 1) as nat))
                } else {
                    TermV::Iri(ns::rdf_nil_iri())
                },
            }),
    decreases elems.len(),
{
    if elems.len() > 0 {
        lemma_collection_chain((c + 1) as nat, elems.drop_first());
        let ts = spec_collection_triples(c, elems);
        let rest = spec_collection_triples((c + 1) as nat, elems.drop_first());
        assert forall|k: int| 0 <= k < elems.len() implies ts[2 * k] == (TripleV {
            s: TermV::BNode(spec_anon_label((c + k) as nat)),
            p: TermV::Iri(ns::rdf_first_iri()),
            o: elems[k],
        }) && ts[2 * k + 1] == (TripleV {
            s: TermV::BNode(spec_anon_label((c + k) as nat)),
            p: TermV::Iri(ns::rdf_rest_iri()),
            o: if k + 1 < elems.len() {
                TermV::BNode(spec_anon_label((c + k + 1) as nat))
            } else {
                TermV::Iri(ns::rdf_nil_iri())
            },
        }) by {
            if k > 0 {
                assert(ts[2 * k] == rest[2 * (k - 1)]);
                assert(ts[2 * k + 1] == rest[2 * (k - 1) + 1]);
                assert(elems.drop_first()[k - 1] == elems[k]);
            }
        }
    }
}

/// Desugars a parsed collection: empty resolves to the fixed `rdf:nil` term
/// with zero side triples; a non-empty one mints one fresh cell per element,
/// enqueues the chain triples left to right, and returns the first cell.
pub fn desugar_collection(elems: Vec<Term>, ctx: &mut Context) -> (first: Term)
    requires
        old(ctx).wf(),
        old(ctx).cnt() + elems@.len() <= u64::MAX,
    ensures
        final(ctx).wf(),
        old(ctx).same_prolog(final(ctx)),
        final(ctx).cnt() == old(ctx).cnt() + elems@.len(),
        final(ctx).queue() == old(ctx).queue() + spec_collection_triples(
            old(ctx).cnt(),
            elems@.map_values(|t: Term| t@),
        ),
        first@ == if elems@.len() == 0 {
            TermV::Iri(ns::rdf_nil_iri())
        } else {
            TermV::BNode(spec_anon_label(old(ctx).cnt()))
        },
{
    let ghost evs = elems@.map_values(|t: Term| t@);
    let n = elems.len();
    if n == 0 {
        proof {
            assert(spec_collection_triples(old(ctx).cnt(), evs) =~= Seq::<TripleV>::empty());
            assert(final(ctx).queue() =~= old(ctx).queue() + spec_collection_triples(
                old(ctx).cnt(),
                evs,
            ));
        }
        return ns::rdf_nil();
    }
    let mut elems = elems;
    let mut next = ctx.new_anon_bnode();
    let first = next.duplicate();
    proof {
        assert(evs.skip(0) =~= evs);
    }
    let mut k: usize = 0;
    while k < n
        invariant
            old(ctx).wf(),
            ctx.wf(),
            old(ctx).same_prolog(ctx),
            0 < n,
            k <= n,
            elems@.len() == n - k,
            elems@.map_values(|t: Term| t@) =~= evs.skip(k as int),
            evs.len() == n,
            old(ctx).cnt() + n <= u64::MAX,
            ctx.cnt() == old(ctx).cnt() + k + 1 - (if k == n { 1int } else { 0int }),
            k < n ==> next@ == TermV::BNode(spec_anon_label((old(ctx).cnt() + k) as nat)),
            k == n ==> next@ == TermV::Iri(ns::rdf_nil_iri()),
            old(ctx).queue() + spec_collection_triples(old(ctx).cnt(), evs) =~= ctx.queue()
                + spec_collection_triples((old(ctx).cnt() + k) as nat, evs.skip(k as int)),
        decreases n - k,
    {
        let cur = next;
        let ghost elems0 = elems@;
        let o = elems.remove(0);
        proof {
            let f = |t: Term| t@;
            assert(evs.skip(k as int)[0] == o@);
            assert(elems@ =~= elems0.drop_first());
            assert(elems@.map_values(f) =~= elems0.map_values(f).drop_first());
            assert(evs.skip(k as int).drop_first() =~= evs.skip(k + 1));
            assert(elems@.map_values(f) =~= evs.skip(k + 1));
        }
        next = if k + 1 < n {
            ctx.new_anon_bnode()
        } else {
            ns::rdf_nil()
        };
        let ghost q0 = ctx.queue();
        ctx.push_triple(Triple { s: cur.duplicate(), p: ns::rdf_first(), o });
        ctx.push_triple(Triple { s: cur, p: ns::rdf_rest(), o: next.duplicate() });
        proof {
            let c = (old(ctx).cnt() + k) as nat;
            let tail = evs.skip(k as int);
            assert(spec_collection_triples(c, tail) =~= seq![
                TripleV {
                    s: TermV::BNode(spec_anon_label(c)),
                    p: TermV::Iri(ns::rdf_first_iri()),
                    o: tail[0],
                },
                TripleV {
                    s: TermV::BNode(spec_anon_label(c)),
                    p: TermV::Iri(ns::rdf_rest_iri()),
                    o: next@,
                },
            ] + spec_collection_triples((c + 1) as nat, tail.drop_first()));
            assert(tail.drop_first() =~= evs.skip(k + 1));
            let two = seq![
                TripleV {
                    s: TermV::BNode(spec_anon_label(c)),
                    p: TermV::Iri(ns::rdf_first_iri()),
                    o: tail[0],
                },
                TripleV {
                    s: TermV::BNode(spec_anon_label(c)),
                    p: TermV::Iri(ns::rdf_rest_iri()),
                    o: next@,
                },
            ];
            assert(ctx.queue() =~= q0 + two);
            assert(old(ctx).queue() + spec_collection_triples(old(ctx).cnt(), evs) =~= (q0 + two)
                + spec_collection_triples((old(ctx).cnt() + k + 1) as nat, evs.skip(k + 1)));
        }
        k = k + 1;
    }
    proof {
        assert(evs.skip(n as int) =~= Seq::<TermV>::empty());
        assert(spec_collection_triples((old(ctx).cnt() + n) as nat, evs.skip(n as int))
            =~= Seq::<TripleV>::empty());
        assert(ctx.queue() =~= old(ctx).queue() + spec_collection_triples(old(ctx).cnt(), evs));
    }
    first
}

} // verus!
