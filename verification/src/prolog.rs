//! The prolog of prefixes and base IRI shared by the parser and the
//! serializer.

use vstd::prelude::*;

use crate::error::Error;
use crate::iri::{
    parse_iri, resolve_iri, spec_has_nonempty_fragment, spec_parse_iri, spec_resolve_iri,
    spec_resolve_parts, IriParts, IriPartsV,
};
use crate::scan;
use crate::text::{chars_to_string, str_to_chars};

verus! {

// ---------------------------------------------------------------------------
// The prefix-table model
// ---------------------------------------------------------------------------

/// The map denoted by an association list of prefix bindings; later entries
/// override earlier ones.
pub open spec fn spec_prefix_map(entries: Seq<(Seq<char>, Seq<char>)>) -> Map<
    Seq<char>,
    Seq<char>,
>
    decreases entries.len(),
{
    if entries.len() == 0 {
        Map::empty()
    } else {
        spec_prefix_map(entries.drop_last()).insert(entries.last().0, entries.last().1)
    }
}

/// Entry names are pairwise distinct.
pub open spec fn spec_entries_unique(entries: Seq<(Seq<char>, Seq<char>)>) -> bool {
    forall|i: int, j: int|
        0 <= i < j < entries.len() ==> (#[trigger] entries[i]).0 != (#[trigger] entries[j]).0
}

proof fn lemma_pmap_entry(entries: Seq<(Seq<char>, Seq<char>)>, k: int)
    requires
        spec_entries_unique(entries),
        0 <= k < entries.len(),
    ensures
        spec_prefix_map(entries).contains_key(entries[k].0),
        spec_prefix_map(entries)[entries[k].0] == entries[k].1,
    decreases entries.len(),
{
    if k == entries.len() - 1 {
    } else {
        assert(entries.drop_last()[k] == entries[k]);
        lemma_pmap_entry(entries.drop_last(), k);
    }
}

proof fn lemma_pmap_absent(entries: Seq<(Seq<char>, Seq<char>)>, name: Seq<char>)
    requires
        forall|k: int| 0 <= k < entries.len() ==> (#[trigger] entries[k]).0 != name,
    ensures
        !spec_prefix_map(entries).contains_key(name),
    decreases entries.len(),
{
    if entries.len() > 0 {
        lemma_pmap_absent(entries.drop_last(), name);
    }
}

proof fn lemma_pmap_update(entries: Seq<(Seq<char>, Seq<char>)>, k: int, ns: Seq<char>)
    requires
        spec_entries_unique(entries),
        0 <= k < entries.len(),
    ensures
        spec_prefix_map(entries.update(k, (entries[k].0, ns))) =~= spec_prefix_map(
            entries,
        ).insert(entries[k].0, ns),
    decreases entries.len(),
{
    let upd = entries.update(k, (entries[k].0, ns));
    if k == entries.len() - 1 {
        assert(upd.drop_last() =~= entries.drop_last());
    } else {
        assert(upd.drop_last() =~= entries.drop_last().update(k, (entries[k].0, ns)));
        assert(entries.drop_last()[k] == entries[k]);
        lemma_pmap_update(entries.drop_last(), k, ns);
        assert(entries[k].0 != entries.last().0);
    }
}

// ---------------------------------------------------------------------------
// Prefix and namespace validity
// ---------------------------------------------------------------------------

/// Whether a text is a valid prefix name: empty (the default prefix), or a
/// leading letter, interior letters, digits and dots, and no trailing dot.
pub open spec fn spec_valid_prefix(s: Seq<char>) -> bool {
    s.len() == 0 || (scan::is_pn_chars_base(s[0]) && scan::spec_pn_run_end(s, 1) == s.len() && s[
        s.len() - 1
    ] != '.')
}

/// Checks if a given value is a valid prefix name.
pub fn is_valid_prefix(p: &str) -> (r: bool)
    ensures
        r == spec_valid_prefix(p@),
{
    let chars = str_to_chars(p);
    if chars.len() == 0 {
        true
    } else if scan::pn_chars_base(chars[0]) {
        let j = scan::pn_run_end(&chars, 1);
        j == chars.len() && chars[chars.len() - 1] != '.'
    } else {
        false
    }
}

// ---------------------------------------------------------------------------
// Prolog
// ---------------------------------------------------------------------------

/// Resolution of a reference against an optional base.
pub open spec fn spec_resolve_ref(base: Option<IriPartsV>, r: Seq<char>) -> Seq<char> {
    match base {
        Some(b) => spec_resolve_iri(b, r),
        None => r,
    }
}

/// The decomposed base after a cumulative base update.
pub open spec fn spec_new_base_parts(base: Option<IriPartsV>, cand: Seq<char>) -> IriPartsV {
    match base {
        Some(b) => spec_resolve_parts(b, cand),
        None => spec_parse_iri(cand),
    }
}

/// The prefix table after a list of bindings is added in order, each
/// namespace resolved against the (unchanged) base.
pub open spec fn spec_add_all(
    m: Map<Seq<char>, Seq<char>>,
    base: Option<IriPartsV>,
    l: Seq<(Seq<char>, Seq<char>)>,
) -> Map<Seq<char>, Seq<char>>
    decreases l.len(),
{
    if l.len() == 0 {
        m
    } else {
        spec_add_all(m.insert(l[0].0, spec_resolve_ref(base, l[0].1)), base, l.drop_first())
    }
}

proof fn lemma_add_all_snoc(
    m: Map<Seq<char>, Seq<char>>,
    base: Option<IriPartsV>,
    l: Seq<(Seq<char>, Seq<char>)>,
    e: (Seq<char>, Seq<char>),
)
    ensures
        spec_add_all(m, base, l.push(e)) =~= spec_add_all(m, base, l).insert(
            e.0,
            spec_resolve_ref(base, e.1),
        ),
    decreases l.len(),
{
    if l.len() == 0 {
        assert(l.push(e).drop_first() =~= Seq::<(Seq<char>, Seq<char>)>::empty());
        assert(l.push(e)[0] == e);
        assert(spec_add_all(
            m.insert(e.0, spec_resolve_ref(base, e.1)),
            base,
            Seq::<(Seq<char>, Seq<char>)>::empty(),
        ) =~= m.insert(e.0, spec_resolve_ref(base, e.1)));
    } else {
        assert(l.push(e)[0] == l[0]);
        assert(l.push(e).drop_first() =~= l.drop_first().push(e));
        lemma_add_all_snoc(m.insert(l[0].0, spec_resolve_ref(base, l[0].1)), base, l.drop_first(), e);
    }
}

/// Result of matching an IRI against the base and prefixes of a `Prolog`.
#[derive(Debug, Clone, PartialEq, Eq)]
pub enum PrologMatch {
    /// Nothing matched.
    NoMatch,
    /// The base IRI matched.  Contains the rest of the matched IRI.
    Base(String),
    /// A prefix matches.  Contains the prefix name (without `:`) and the rest
    /// of the matched IRI.
    Prefix(String, String),
}

/// The mutable prolog: prefix table and optional base IRI, with the base kept
/// both as text and decomposed for resolution.
#[derive(Debug, Clone)]
pub struct Prolog {
    base: Option<(String, IriParts)>,
    prefixes: Vec<(String, String)>,
}

impl Prolog {
    /// The prefix bindings, in declaration order, as mathematical values.
    pub closed spec fn prefix_entries(&self) -> Seq<(Seq<char>, Seq<char>)> {
        self.prefixes@.map_values(|e: (String, String)| (e.0@, e.1@))
    }

    /// The prefix table as a map; redefinition overwrites.
    pub open spec fn prefix_map(&self) -> Map<Seq<char>, Seq<char>> {
        spec_prefix_map(self.prefix_entries())
    }

    /// The base IRI's text, if one is set.
    pub closed spec fn base_text(&self) -> Option<Seq<char>> {
        match self.base {
            Some((ref t, _)) => Some(t@),
            None => None,
        }
    }

    /// The base IRI's decomposition, if one is set.
    pub closed spec fn base_parts(&self) -> Option<IriPartsV> {
        match self.base {
            Some((_, ref p)) => Some(p@),
            None => None,
        }
    }

    /// Well-formedness: prefix names are unique, and the base text matches
    /// its decomposition.
    pub closed spec fn wf(&self) -> bool {
        spec_entries_unique(self.prefix_entries())
    }

    /// An empty prolog: no base, no prefixes.
    pub fn new() -> (r: Prolog)
        ensures
            r.wf(),
            r.base_parts() is None,
            r.base_text() is None,
            r.prefix_entries() == Seq::<(Seq<char>, Seq<char>)>::empty(),
    {
        Prolog { base: None, prefixes: Vec::new() }
    }

    /// A prolog with the default prefixes `rdf`, `rdfs` and `xsd`.
    pub fn with_default_prefixes() -> (r: Prolog)
        ensures
            r.wf(),
            r.base_parts() is None,
            r.base_text() is None,
            r.prefix_map() =~= Map::<Seq<char>, Seq<char>>::empty().insert(
                "rdf"@,
                crate::ns::rdf_ns(),
            ).insert("rdfs"@, crate::ns::rdfs_ns()).insert("xsd"@, crate::ns::xsd_ns()),
    {
        let mut r = Prolog::new();
        r.add_default_prefixes();
        r
    }

    /// Inserts or overwrites one prefix binding.
    fn upsert(&mut self, key: String, value: String)
        requires
            old(self).wf(),
        ensures
            final(self).wf(),
            final(self).base_text() == old(self).base_text(),
            final(self).base_parts() == old(self).base_parts(),
            final(self).prefix_map() =~= old(self).prefix_map().insert(key@, value@),
    {
        let ghost entries = self.prefix_entries();
        match find_key(&self.prefixes, &key) {
            Some(k) => {
                self.prefixes.set(k, (key, value));
                proof {
                    assert(self.prefix_entries() =~= entries.update(
                        k as int,
                        (entries[k as int].0, value@),
                    ));
                    lemma_pmap_update(entries, k as int, value@);
                    assert(spec_entries_unique(self.prefix_entries())) by {
                        let upd = self.prefix_entries();
                        assert forall|i: int, j: int| 0 <= i < j < upd.len() implies (
                        #[trigger] upd[i]).0 != (#[trigger] upd[j]).0 by {
                            assert(upd[i].0 == entries[i].0);
                            assert(upd[j].0 == entries[j].0);
                        }
                    }
                    assert(self.prefix_map() =~= spec_prefix_map(entries).insert(key@, value@));
                }
            },
            None => {
                self.prefixes.push((key, value));
                proof {
                    assert(self.prefix_entries() =~= entries.push((key@, value@)));
                    assert(self.prefix_entries().drop_last() =~= entries);
                    lemma_pmap_absent(entries, key@);
                    assert(spec_entries_unique(self.prefix_entries())) by {
                        let upd = self.prefix_entries();
                        assert forall|i: int, j: int| 0 <= i < j < upd.len() implies (
                        #[trigger] upd[i]).0 != (#[trigger] upd[j]).0 by {
                            if j < upd.len() - 1 {
                                assert(upd[i] == entries[i]);
                                assert(upd[j] == entries[j]);
                            } else {
                                assert(upd[i] == entries[i]);
                                assert(upd[j].0 == key@);
                            }
                        }
                    }
                }
            },
        }
    }

    /// Adds prefixes for the `rdf`, `rdfs` and `xsd` namespaces.
    pub fn add_default_prefixes(&mut self)
        requires
            old(self).wf(),
        ensures
            final(self).wf(),
            final(self).base_text() == old(self).base_text(),
            final(self).base_parts() == old(self).base_parts(),
            final(self).prefix_map() =~= old(self).prefix_map().insert(
                "rdf"@,
                crate::ns::rdf_ns(),
            ).insert("rdfs"@, crate::ns::rdfs_ns()).insert("xsd"@, crate::ns::xsd_ns()),
    {
        self.upsert("rdf".to_owned(), crate::ns::rdf_namespace());
        self.upsert("rdfs".to_owned(), crate::ns::rdfs_namespace());
        self.upsert("xsd".to_owned(), crate::ns::xsd_namespace());
    }

    /// Deletes all prefixes.
    pub fn clear_prefixes(&mut self)
        ensures
            final(self).wf(),
            final(self).base_text() == old(self).base_text(),
            final(self).base_parts() == old(self).base_parts(),
            final(self).prefix_entries() == Seq::<(Seq<char>, Seq<char>)>::empty(),
    {
        self.prefixes.clear();
    }

    /// Sets the base IRI, resolving the candidate against the current base if
    /// one is set: base updates are cumulative, not absolute overrides.
    ///
    /// Fails with `InvalidIri` on a candidate with disallowed characters, and
    /// with `InvalidBase` on one that carries a non-empty fragment.
    pub fn set_base(&mut self, candidate: &str) -> (r: Result<(), Error>)
        requires
            old(self).wf(),
        ensures
            final(self).wf(),
            final(self).prefix_entries() == old(self).prefix_entries(),
            match r {
                Ok(()) => scan::spec_iri_text_ok(candidate@, 0) && !spec_has_nonempty_fragment(
                    candidate@,
                ) && final(self).base_parts() == Some(
                    spec_new_base_parts(old(self).base_parts(), candidate@),
                ) && final(self).base_text() == Some(
                    spec_resolve_ref(old(self).base_parts(), candidate@),
                ),
                Err(Error::InvalidIri(t)) => !scan::spec_iri_text_ok(candidate@, 0) && t@
                    == candidate@ && *final(self) == *old(self),
                Err(Error::InvalidBase) => scan::spec_iri_text_ok(candidate@, 0)
                    && spec_has_nonempty_fragment(candidate@) && *final(self) == *old(self),
                Err(_) => false,
            },
    {
        let cand = str_to_chars(candidate);
        if !scan::iri_text_ok(&cand, 0) {
            return Err(Error::InvalidIri(candidate.to_owned()));
        }
        let parsed = parse_iri(&cand);
        let frag_bad = match &parsed.fragment {
            Some(f) => f.len() > 0,
            None => false,
        };
        if frag_bad {
            return Err(Error::InvalidBase);
        }
        let new_pair: (String, IriParts) = match &self.base {
            Some((_, bparts)) => {
                let (text, parts) = resolve_iri(bparts, &cand);
                (chars_to_string(text.as_slice()), parts)
            },
            None => (chars_to_string(cand.as_slice()), parsed),
        };
        self.base = Some(new_pair);
        Ok(())
    }

    /// Removes the base IRI if one was set.
    pub fn unset_base(&mut self)
        ensures
            final(self).wf() == old(self).wf(),
            final(self).prefix_entries() == old(self).prefix_entries(),
            final(self).base_text() is None,
            final(self).base_parts() is None,
    {
        self.base = None;
    }

    /// Reads the current base IRI.
    pub fn base(&self) -> (r: Option<&String>)
        ensures
            match r {
                Some(t) => self.base_text() == Some(t@),
                None => self.base_text() is None,
            },
    {
        match &self.base {
            Some((t, _)) => Some(t),
            None => None,
        }
    }

    /// Adds a prefix binding, storing the namespace resolved against the
    /// current base.
    ///
    /// Fails with `InvalidPrefix` if the name does not match the prefix-name
    /// lexical rule (the empty name is valid: it denotes the default prefix),
    /// and with `InvalidIri` on a namespace with disallowed characters.
    pub fn add_prefix(&mut self, p: &str, ns: &str) -> (r: Result<(), Error>)
        requires
            old(self).wf(),
        ensures
            final(self).wf(),
            final(self).base_text() == old(self).base_text(),
            final(self).base_parts() == old(self).base_parts(),
            match r {
                Ok(()) => spec_valid_prefix(p@) && scan::spec_iri_text_ok(ns@, 0)
                    && final(self).prefix_map() =~= old(self).prefix_map().insert(
                    p@,
                    spec_resolve_ref(old(self).base_parts(), ns@),
                ),
                Err(Error::InvalidPrefix(t)) => !spec_valid_prefix(p@) && t@ == p@ && *final(self)
                    == *old(self),
                Err(Error::InvalidIri(t)) => spec_valid_prefix(p@) && !scan::spec_iri_text_ok(
                    ns@,
                    0,
                ) && t@ == ns@ && *final(self) == *old(self),
                Err(_) => false,
            },
    {
        if !is_valid_prefix(p) {
            return Err(Error::InvalidPrefix(p.to_owned()));
        }
        let ns_chars = str_to_chars(ns);
        if !scan::iri_text_ok(&ns_chars, 0) {
            return Err(Error::InvalidIri(ns.to_owned()));
        }
        let resolved: String = match &self.base {
            Some((_, bparts)) => {
                let (text, _) = resolve_iri(bparts, &ns_chars);
                chars_to_string(text.as_slice())
            },
            None => chars_to_string(ns_chars.as_slice()),
        };
        self.upsert(p.to_owned(), resolved);
        Ok(())
    }

    /// Adds a list of prefix bindings in order, each namespace resolved
    /// against the current base, stopping at the first invalid one.
    /// Bindings added before the failing one stay.
    pub fn add_prefixes(&mut self, list: &Vec<(String, String)>) -> (r: Result<(), Error>)
        requires
            old(self).wf(),
        ensures
            final(self).wf(),
            final(self).base_text() == old(self).base_text(),
            final(self).base_parts() == old(self).base_parts(),
            match r {
                Ok(()) => final(self).prefix_map() =~= spec_add_all(
                    old(self).prefix_map(),
                    old(self).base_parts(),
                    list@.map_values(|e: (String, String)| (e.0@, e.1@)),
                ) && forall|k: int|
                    0 <= k < list@.len() ==> spec_valid_prefix((#[trigger] list@[k]).0@)
                        && scan::spec_iri_text_ok(list@[k].1@, 0),
                Err(e) => exists|k: int|
                    {
                        &&& 0 <= k < list@.len()
                        &&& forall|i: int|
                            0 <= i < k ==> spec_valid_prefix((#[trigger] list@[i]).0@)
                                && scan::spec_iri_text_ok(list@[i].1@, 0)
                        &&& final(self).prefix_map() =~= spec_add_all(
                            old(self).prefix_map(),
                            old(self).base_parts(),
                            list@.map_values(|e: (String, String)| (e.0@, e.1@)).take(k),
                        )
                        &&& match e {
                            Error::InvalidPrefix(t) => t@ == (#[trigger] list@[k]).0@
                                && !spec_valid_prefix(list@[k].0@),
                            Error::InvalidIri(t) => spec_valid_prefix(list@[k].0@) && t@
                                == list@[k].1@ && !scan::spec_iri_text_ok(list@[k].1@, 0),
                            _ => false,
                        }
                    },
            },
    {
        let ghost lview = list@.map_values(|e: (String, String)| (e.0@, e.1@));
        let n = list.len();
        let mut k: usize = 0;
        while k < n
            invariant
                n == list@.len(),
                k <= n,
                lview == list@.map_values(|e: (String, String)| (e.0@, e.1@)),
                self.wf(),
                self.base_text() == old(self).base_text(),
                self.base_parts() == old(self).base_parts(),
                self.prefix_map() =~= spec_add_all(
                    old(self).prefix_map(),
                    old(self).base_parts(),
                    lview.take(k as int),
                ),
                forall|i: int|
                    0 <= i < k ==> spec_valid_prefix((#[trigger] list@[i]).0@)
                        && scan::spec_iri_text_ok(list@[i].1@, 0),
            decreases n - k,
        {
            let entry = &list[k];
            match self.add_prefix(entry.0.as_str(), entry.1.as_str()) {
                Ok(()) => {},
                Err(e) => {
                    proof {
                        let kk = k as int;
                        assert(exists|k2: int|
                            {
                                &&& 0 <= k2 < list@.len()
                                &&& forall|i: int|
                                    0 <= i < k2 ==> spec_valid_prefix((#[trigger] list@[i]).0@)
                                        && scan::spec_iri_text_ok(list@[i].1@, 0)
                                &&& self.prefix_map() =~= spec_add_all(
                                    old(self).prefix_map(),
                                    old(self).base_parts(),
                                    list@.map_values(|en: (String, String)| (en.0@, en.1@)).take(
                                        k2,
                                    ),
                                )
                                &&& match e {
                                    Error::InvalidPrefix(t) => t@ == (#[trigger] list@[k2]).0@
                                        && !spec_valid_prefix(list@[k2].0@),
                                    Error::InvalidIri(t) => spec_valid_prefix(list@[k2].0@) && t@
                                        == list@[k2].1@ && !scan::spec_iri_text_ok(
                                        list@[k2].1@,
                                        0,
                                    ),
                                    _ => false,
                                }
                            }) by {
                            assert(0 <= kk < list@.len());
                            assert(self.prefix_map() =~= spec_add_all(
                                old(self).prefix_map(),
                                old(self).base_parts(),
                                list@.map_values(|en: (String, String)| (en.0@, en.1@)).take(kk),
                            ));
                            assert(match e {
                                Error::InvalidPrefix(t) => t@ == list@[kk].0@
                                    && !spec_valid_prefix(list@[kk].0@),
                                Error::InvalidIri(t) => spec_valid_prefix(list@[kk].0@) && t@
                                    == list@[kk].1@ && !scan::spec_iri_text_ok(list@[kk].1@, 0),
                                _ => false,
                            });
                        }
                    }
                    return Err(e);
                },
            }
            proof {
                lemma_add_all_snoc(
                    old(self).prefix_map(),
                    old(self).base_parts(),
                    lview.take(k as int),
                    lview[k as int],
                );
                assert(lview.take(k as int).push(lview[k as int]) =~= lview.take(k + 1));
            }
            k = k + 1;
        }
        proof {
            assert(lview.take(n as int) =~= lview);
        }
        Ok(())
    }

    /// Looks a prefix name up in the table.
    pub fn lookup_prefix(&self, name: &str) -> (r: Option<String>)
        requires
            self.wf(),
        ensures
            match r {
                Some(ns) => self.prefix_map().contains_key(name@) && self.prefix_map()[name@]
                    == ns@,
                None => !self.prefix_map().contains_key(name@),
            },
    {
        let name_s = name.to_owned();
        let n = self.prefixes.len();
        let mut k: usize = 0;
        while k < n
            invariant
                self.wf(),
                n == self.prefixes.len(),
                k <= n,
                name_s@ == name@,
                forall|i: int| 0 <= i < k ==> (#[trigger] self.prefixes@[i]).0@ != name@,
            decreases n - k,
        {
            if compare_strings(&self.prefixes[k].0, &name_s) {
                proof {
                    assert(self.prefix_entries()[k as int].0 == name@);
                    lemma_pmap_entry(self.prefix_entries(), k as int);
                }
                return Some(self.prefixes[k].1.clone());
            }
            k = k + 1;
        }
        proof {
            assert(forall|i: int|
                0 <= i < self.prefix_entries().len() ==> (#[trigger] self.prefix_entries()[i]).0
                    != name@);
            lemma_pmap_absent(self.prefix_entries(), name@);
        }
        None
    }

    /// The number of declared prefixes.
    pub fn prefix_count(&self) -> (n: usize)
        ensures
            n == self.prefix_entries().len(),
    {
        self.prefixes.len()
    }

    /// The prefix binding at an index, in declaration order.
    pub fn prefix_pair(&self, k: usize) -> (r: (&String, &String))
        requires
            k < self.prefix_entries().len(),
        ensures
            (r.0@, r.1@) == self.prefix_entries()[k as int],
    {
        let entry = &self.prefixes[k];
        (&entry.0, &entry.1)
    }

    /// Resolves a reference against the base IRI, or returns it unchanged if
    /// no base is set.
    pub fn resolve(&self, r: &Vec<char>) -> (out: Vec<char>)
        ensures
            out@ == spec_resolve_ref(self.base_parts(), r@),
    {
        match &self.base {
            Some((_, bparts)) => {
                let (text, _) = resolve_iri(bparts, r);
                text
            },
            None => crate::text::chars_range(r, 0, r.len()),
        }
    }

    /// Searches for a matching prefix: the base first, then the declared
    /// prefixes in declaration order.  A match returns the rest of the target
    /// after the matched namespace.
    pub fn matches(&self, target: &str) -> (r: PrologMatch)
        requires
            self.wf(),
        ensures
            match r {
                PrologMatch::Base(rest) => self.base_text() matches Some(b) && b + rest@
                    == target@,
                PrologMatch::Prefix(p, rest) => self.prefix_map().contains_key(p@)
                    && self.prefix_map()[p@] + rest@ == target@ && (match self.base_text() {
                    Some(b) => !b.is_prefix_of(target@),
                    None => true,
                }),
                PrologMatch::NoMatch => (match self.base_text() {
                    Some(b) => !b.is_prefix_of(target@),
                    None => true,
                }) && (forall|k: int|
                    0 <= k < self.prefix_entries().len() ==> !(
                    #[trigger] self.prefix_entries()[k]).1.is_prefix_of(target@)),
            },
    {
        let t = str_to_chars(target);
        match &self.base {
            Some((btext, _)) => {
                let b = str_to_chars(btext.as_str());
                if starts_with_chars(&t, &b) {
                    let rest = crate::text::string_of_range(&t, b.len(), t.len());
                    proof {
                        assert(self.base_text().unwrap() + rest@ =~= target@);
                    }
                    return PrologMatch::Base(rest);
                }
            },
            None => {},
        }
        let n = self.prefixes.len();
        let mut k: usize = 0;
        while k < n
            invariant
                self.wf(),
                n == self.prefixes.len(),
                k <= n,
                t@ == target@,
                match self.base_text() {
                    Some(b) => !b.is_prefix_of(target@),
                    None => true,
                },
                forall|i: int|
                    0 <= i < k ==> !(#[trigger] self.prefix_entries()[i]).1.is_prefix_of(target@),
            decreases n - k,
        {
            let ns = str_to_chars(self.prefixes[k].1.as_str());
            if starts_with_chars(&t, &ns) {
                let rest = crate::text::string_of_range(&t, ns.len(), t.len());
                proof {
                    lemma_pmap_entry(self.prefix_entries(), k as int);
                    assert(self.prefix_entries()[k as int].1 + rest@ =~= target@);
                }
                return PrologMatch::Prefix(self.prefixes[k].0.clone(), rest);
            }
            k = k + 1;
        }
        PrologMatch::NoMatch
    }
}

impl Default for Prolog {
    /// A default prolog is completely empty: neither base nor prefixes.
    fn default() -> (r: Self)
        ensures
            r.wf(),
            r.base_parts() is None,
            r.base_text() is None,
            r.prefix_entries() == Seq::<(Seq<char>, Seq<char>)>::empty(),
    {
        Prolog::new()
    }
}

/// The index of the entry bound to `key`, if any.
fn find_key(entries: &Vec<(String, String)>, key: &String) -> (r: Option<usize>)
    ensures
        match r {
            Some(k) => k < entries@.len() && entries@[k as int].0@ == key@,
            None => forall|i: int|
                0 <= i < entries@.len() ==> (#[trigger] entries@[i]).0@ != key@,
        },
{
    let n = entries.len();
    let mut k: usize = 0;
    while k < n
        invariant
            n == entries@.len(),
            k <= n,
            forall|i: int| 0 <= i < k ==> (#[trigger] entries@[i]).0@ != key@,
        decreases n - k,
    {
        if compare_strings(&entries[k].0, key) {
            return Some(k);
        }
        k = k + 1;
    }
    None
}

/// Whether two strings hold the same text.
fn compare_strings(a: &String, b: &String) -> (r: bool)
    ensures
        r == (a@ == b@),
{
    *a == *b
}

/// Whether `p` is a prefix of `t`.
fn starts_with_chars(t: &Vec<char>, p: &Vec<char>) -> (r: bool)
    ensures
        r == p@.is_prefix_of(t@),
{
    if p.len() > t.len() {
        return false;
    }
    let mut k: usize = 0;
    while k < p.len()
        invariant
            p@.len() <= t@.len(),
            k <= p@.len(),
            forall|i: int| 0 <= i < k ==> p@[i] == t@[i],
        decreases p@.len() - k,
    {
        if p[k] != t[k] {
            return false;
        }
        k = k + 1;
    }
    proof {
        assert(p@.is_prefix_of(t@)) by {
            assert(p@ =~= t@.subrange(0, p@.len() as int));
        }
    }
    true
}

} // verus!
