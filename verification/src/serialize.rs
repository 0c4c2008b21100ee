//! The streaming serializer: configuration of indentation and spacing, the
//! document preamble, and the triple-grouping state machine.

use vstd::prelude::*;
use vstd::string::StringExecFns;

use crate::error::Error;
use crate::prolog::Prolog;
use crate::term::{LiteralKindV, Term, TermV, Triple, TripleV};

verus! {

/// Maximal number of allowed spaces to indent.
pub const MAX_SPACES: usize = 32;

/// Default number of spaces to indent.
pub const DEFAULT_SPACES: u8 = 4;

// ---------------------------------------------------------------------------
// Indentation
// ---------------------------------------------------------------------------

/// Determines how indentation is done.
///
/// It specifies the indentation for one level, i.e. indentation at level 3
/// applies the indentation 3 times.
#[derive(Debug, Clone, Copy, PartialEq, Eq, Structural)]
pub enum Indentation {
    /// Indent by spaces.
    Spaces(u8),
    /// Indent by a tab (`\t`).
    Tab,
    /// No indentation.
    Nothing,
}

/// The text one application of an indentation writes.
pub open spec fn spec_indent_text(ind: Indentation) -> Seq<char> {
    match ind {
        Indentation::Spaces(n) => Seq::new(n as nat, |k: int| ' '),
        Indentation::Tab => seq!['\t'],
        Indentation::Nothing => Seq::empty(),
    }
}

impl Indentation {
    /// Indentation by 1 space.
    pub fn space() -> (r: Self)
        ensures
            r == Indentation::Spaces(1u8),
    {
        Indentation::Spaces(1)
    }

    /// Indentation by 2 spaces.
    pub fn spaces_2() -> (r: Self)
        ensures
            r == Indentation::Spaces(2u8),
    {
        Indentation::Spaces(2)
    }

    /// Indentation by 4 spaces.
    pub fn spaces_4() -> (r: Self)
        ensures
            r == Indentation::Spaces(4u8),
    {
        Indentation::Spaces(4)
    }

    /// Indentation by 8 spaces.
    pub fn spaces_8() -> (r: Self)
        ensures
            r == Indentation::Spaces(8u8),
    {
        Indentation::Spaces(8)
    }

    /// Indentation by 16 spaces.
    pub fn spaces_16() -> (r: Self)
        ensures
            r == Indentation::Spaces(16u8),
    {
        Indentation::Spaces(16)
    }

    /// Indentation by a custom number of spaces, at most
    /// [`MAX_SPACES`](constant.MAX_SPACES.html).
    pub fn spaces_custom(times: u8) -> (r: Result<Self, Error>)
        ensures
            match r {
                Ok(ind) => times <= MAX_SPACES && ind == Indentation::Spaces(times),
                Err(e) => times > MAX_SPACES && e == Error::ToMuchSpaces(times),
            },
    {
        if times as usize <= MAX_SPACES {
            Ok(Indentation::Spaces(times))
        } else {
            Err(Error::ToMuchSpaces(times))
        }
    }

    /// Indentation by tab (`\t`).
    pub fn tab() -> (r: Self)
        ensures
            r == Indentation::Tab,
    {
        Indentation::Tab
    }

    /// No indentation.
    pub fn none() -> (r: Self)
        ensures
            r == Indentation::Nothing,
    {
        Indentation::Nothing
    }

    /// `true` if the serialization results in no change, i.e. nothing is
    /// written.
    pub fn is_empty(self) -> (r: bool)
        ensures
            r == (spec_indent_text(self).len() == 0),
    {
        match self {
            Indentation::Nothing => true,
            Indentation::Spaces(n) => n == 0,
            Indentation::Tab => false,
        }
    }

    /// Applies the indentation to the output.
    pub fn serialize(self, out: &mut String)
        ensures
            final(out)@ == old(out)@ + spec_indent_text(self),
    {
        match self {
            Indentation::Spaces(n) => {
                let mut k: u8 = 0;
                while k < n
                    invariant
                        k <= n,
                        out@ =~= old(out)@ + Seq::new(k as nat, |m: int| ' '),
                    decreases n - k,
                {
                    proof {
                        reveal_strlit(" ");
                    }
                    out.append(" ");
                    proof {
                        assert(out@ =~= old(out)@ + Seq::new((k + 1) as nat, |m: int| ' '));
                    }
                    k = k + 1;
                }
                proof {
                    assert(out@ =~= old(out)@ + spec_indent_text(self));
                }
            },
            Indentation::Tab => {
                proof {
                    reveal_strlit("\t");
                }
                out.append("\t");
                proof {
                    assert(out@ =~= old(out)@ + spec_indent_text(self));
                }
            },
            Indentation::Nothing => {
                proof {
                    assert(out@ =~= old(out)@ + spec_indent_text(self));
                }
            },
        }
    }
}

impl Default for Indentation {
    /// The default is to indent by
    /// [`DEFAULT_SPACES`](constant.DEFAULT_SPACES.html).
    fn default() -> (r: Self)
        ensures
            r == Indentation::Spaces(DEFAULT_SPACES),
    {
        Indentation::Spaces(DEFAULT_SPACES)
    }
}

// ---------------------------------------------------------------------------
// Configuration
// ---------------------------------------------------------------------------

/// Options to serialize with: the prolog written as the preamble, the
/// indentation for new rows, and the spacing between terms.
#[derive(Debug, Clone)]
pub struct Config {
    /// Prefixes and base, written as the document preamble.
    pub prolog: Prolog,
    /// The indentation applied per level at predicate continuation lines.
    pub indent: Indentation,
    /// The spacing between the terms of one triple.
    pub space: Indentation,
}

impl Config {
    /// Well-formedness: the prolog's prefix names are unique.
    pub open spec fn wf(&self) -> bool {
        self.prolog.wf()
    }

    /// A default config: empty prolog, default indentation, single-space
    /// spacing.
    pub fn new() -> (r: Config)
        ensures
            r.wf(),
            r.prolog.base_text() is None,
            r.prolog.prefix_entries() == Seq::<(Seq<char>, Seq<char>)>::empty(),
            r.indent == Indentation::Spaces(DEFAULT_SPACES),
            r.space == Indentation::Spaces(1u8),
    {
        Config { prolog: Prolog::new(), indent: Indentation::default(), space: Indentation::space() }
    }

    /// Create the default configuration with the default prefixes.
    pub fn with_default_prefixes() -> (r: Config)
        ensures
            r.wf(),
            r.prolog.base_text() is None,
            r.indent == Indentation::Spaces(DEFAULT_SPACES),
            r.space == Indentation::Spaces(1u8),
    {
        Config {
            prolog: Prolog::with_default_prefixes(),
            indent: Indentation::default(),
            space: Indentation::space(),
        }
    }

    /// Sets the indentation for new rows.
    pub fn set_indentation(&mut self, indent: Indentation)
        ensures
            final(self).indent == indent,
            final(self).space == old(self).space,
            final(self).prolog == old(self).prolog,
    {
        self.indent = indent;
    }

    /// Writes the configured indentation to the output.
    pub fn write_indent(&self, out: &mut String)
        ensures
            final(out)@ == old(out)@ + spec_indent_text(self.indent),
    {
        self.indent.serialize(out)
    }

    /// Sets the spacing between terms; it must not be empty.
    pub fn set_spacing(&mut self, space: Indentation) -> (r: Result<(), Error>)
        ensures
            match r {
                Ok(()) => spec_indent_text(space).len() > 0 && final(self).space == space
                    && final(self).indent == old(self).indent && final(self).prolog == old(
                    self,
                ).prolog,
                Err(e) => spec_indent_text(space).len() == 0 && e == Error::InvalidSpacing
                    && *final(self) == *old(self),
            },
    {
        if space.is_empty() {
            Err(Error::InvalidSpacing)
        } else {
            self.space = space;
            Ok(())
        }
    }

    /// Writes the configured spacing to the output.
    pub fn write_space(&self, out: &mut String)
        ensures
            final(out)@ == old(out)@ + spec_indent_text(self.space),
    {
        self.space.serialize(out)
    }
}

impl Default for Config {
    /// A default config: empty prolog, default indentation, single-space
    /// spacing.
    fn default() -> (r: Self)
        ensures
            r.wf(),
            r.prolog.base_text() is None,
            r.prolog.prefix_entries() == Seq::<(Seq<char>, Seq<char>)>::empty(),
            r.indent == Indentation::Spaces(DEFAULT_SPACES),
            r.space == Indentation::Spaces(1u8),
    {
        Config::new()
    }
}

// ---------------------------------------------------------------------------
// Term text
// ---------------------------------------------------------------------------

/// The serialized text of one term: IRIs in angle brackets, literals quoted
/// with their datatype or language tag (the plain string datatype is left
/// implicit), blank nodes with `_:`, variables with `?`.
pub open spec fn spec_term_text(t: TermV) -> Seq<char> {
    match t {
        TermV::Iri(iri) => seq!['<'] + iri + seq!['>'],
        TermV::Literal(lex, kind) => match kind {
            LiteralKindV::Datatype(dt) => if dt == crate::ns::xsd_string_iri() {
                seq!['"'] + lex + seq!['"']
            } else {
                seq!['"'] + lex + seq!['"', '^', '^', '<'] + dt + seq!['>']
            },
            LiteralKindV::Lang(tag) => seq!['"'] + lex + seq!['"', '@'] + tag,
        },
        TermV::BNode(label) => seq!['_', ':'] + label,
        TermV::Variable(name) => seq!['?'] + name,
    }
}

/// Writes the serialized text of one term to the output.
pub fn write_term(t: &Term, out: &mut String)
    ensures
        final(out)@ == old(out)@ + spec_term_text(t@),
{
    proof {
        reveal_strlit("<");
        reveal_strlit(">");
        reveal_strlit("\"");
        reveal_strlit("\"^^<");
        reveal_strlit("\"@");
        reveal_strlit("_:");
        reveal_strlit("?");
    }
    match t {
        Term::Iri(iri) => {
            out.append("<");
            out.append(iri.as_str());
            out.append(">");
        },
        Term::Literal(lex, kind) => {
            out.append("\"");
            out.append(lex.as_str());
            match kind {
                crate::term::LiteralKind::Datatype(dt) => {
                    let xsd_str = crate::ns::xsd_string();
                    if *dt == xsd_str {
                        out.append("\"");
                    } else {
                        out.append("\"^^<");
                        out.append(dt.as_str());
                        out.append(">");
                    }
                },
                crate::term::LiteralKind::Lang(tag) => {
                    out.append("\"@");
                    out.append(tag.as_str());
                },
            }
        },
        Term::BNode(label) => {
            out.append("_:");
            out.append(label.as_str());
        },
        Term::Variable(name) => {
            out.append("?");
            out.append(name.as_str());
        },
    }
    proof {
        assert(out@ =~= old(out)@ + spec_term_text(t@));
    }
}

// ---------------------------------------------------------------------------
// Preamble
// ---------------------------------------------------------------------------

/// The `@prefix` lines of a preamble, one per declared prefix, in declaration
/// order.
pub open spec fn spec_prefix_lines(entries: Seq<(Seq<char>, Seq<char>)>) -> Seq<char>
    decreases entries.len(),
{
    if entries.len() == 0 {
        Seq::empty()
    } else {
        spec_prefix_lines(entries.drop_last()) + "@prefix "@ + entries.last().0 + ": <"@
            + entries.last().1 + "> .\n"@
    }
}

/// The full preamble: one line per declared prefix, the base declaration if
/// present, and a blank line if anything was written.
pub open spec fn spec_preamble(
    entries: Seq<(Seq<char>, Seq<char>)>,
    base: Option<Seq<char>>,
) -> Seq<char> {
    let lines = spec_prefix_lines(entries);
    let base_line = match base {
        Some(b) => "@base <"@ + b + "> .\n"@,
        None => Seq::<char>::empty(),
    };
    if lines.len() + base_line.len() > 0 {
        lines + base_line + "\n"@
    } else {
        Seq::<char>::empty()
    }
}

/// Writes the document preamble for a prolog: its prefix declarations and its
/// base declaration, followed by a blank line if anything was written.
pub fn write_preamble(prolog: &Prolog, out: &mut String)
    ensures
        final(out)@ == old(out)@ + spec_preamble(prolog.prefix_entries(), prolog.base_text()),
{
    proof {
        reveal_strlit("@prefix ");
        reveal_strlit(": <");
        reveal_strlit("> .\n");
        reveal_strlit("@base <");
        reveal_strlit("\n");
    }
    let ghost entries = prolog.prefix_entries();
    let mut wrote = false;
    let n = prolog.prefix_count();
    let mut k: usize = 0;
    let ghost base0 = out@;
    while k < n
        invariant
            n == entries.len(),
            k <= n,
            entries == prolog.prefix_entries(),
            out@ =~= base0 + spec_prefix_lines(entries.take(k as int)),
            wrote == (k > 0),
        decreases n - k,
    {
        proof {
            reveal_strlit("@prefix ");
            reveal_strlit(": <");
            reveal_strlit("> .\n");
        }
        let (name, ns) = prolog.prefix_pair(k);
        out.append("@prefix ");
        out.append(name.as_str());
        out.append(": <");
        out.append(ns.as_str());
        out.append("> .\n");
        wrote = true;
        proof {
            assert(entries.take(k + 1).drop_last() =~= entries.take(k as int));
            assert(out@ =~= base0 + spec_prefix_lines(entries.take(k + 1)));
        }
        k = k + 1;
    }
    proof {
        assert(entries.take(n as int) =~= entries);
    }
    match prolog.base() {
        Some(b) => {
            out.append("@base <");
            out.append(b.as_str());
            out.append("> .\n");
            wrote = true;
        },
        None => {},
    }
    if wrote {
        out.append("\n");
    }
    proof {
        if entries.len() == 0 && prolog.base_text() is None {
            assert(spec_prefix_lines(entries).len() == 0);
        } else {
            if entries.len() > 0 {
                lemma_prefix_lines_len(entries);
            }
        }
        assert(out@ =~= old(out)@ + spec_preamble(prolog.prefix_entries(), prolog.base_text()));
    }
}

proof fn lemma_prefix_lines_len(entries: Seq<(Seq<char>, Seq<char>)>)
    requires
        entries.len() > 0,
    ensures
        spec_prefix_lines(entries).len() > 0,
{
    reveal_strlit("@prefix ");
    reveal_strlit(": <");
    reveal_strlit("> .\n");
}

// ---------------------------------------------------------------------------
// The streaming serializer
// ---------------------------------------------------------------------------

/// The text one triple adds to the document, given the last triple seen: a
/// new subject starts (or restarts) a block, a repeated subject continues
/// with a predicate or an object separator.
pub open spec fn spec_delta(
    last: Option<TripleV>,
    t: TripleV,
    space: Seq<char>,
    indent: Seq<char>,
) -> Seq<char> {
    let spo = spec_term_text(t.s) + space + spec_term_text(t.p) + space + spec_term_text(t.o);
    match last {
        Option::None => spo,
        Option::Some(lt) => {
            if lt.s != t.s {
                " .\n\n"@ + spo
            } else if lt.p != t.p {
                " ;\n"@ + indent + spec_term_text(t.p) + space + spec_term_text(t.o)
            } else {
                ","@ + space + spec_term_text(t.o)
            }
        },
    }
}

/// The text a run of triples adds to the document, threading the last triple
/// seen.
pub open spec fn spec_run_text(
    last: Option<TripleV>,
    ts: Seq<TripleV>,
    space: Seq<char>,
    indent: Seq<char>,
) -> Seq<char>
    decreases ts.len(),
{
    if ts.len() == 0 {
        Seq::empty()
    } else {
        spec_delta(last, ts[0], space, indent) + spec_run_text(
            Some(ts[0]),
            ts.drop_first(),
            space,
            indent,
        )
    }
}

/// Serializer for streams of RDF triples, maintaining the last triple seen.
///
/// Input is assumed sorted so that runs of consecutive triples share a
/// subject, and within a subject-run, sub-runs share a predicate; the
/// serializer does not sort, and out-of-order input produces one block per
/// discontinuity, which is legal but not compact.
#[derive(Debug)]
pub struct Serializer {
    target: String,
    config: Config,
    indent_level: u32,
    last: Option<Triple>,
}

impl Serializer {
    /// The text written so far.
    pub closed spec fn out_v(&self) -> Seq<char> {
        self.target@
    }

    /// The last triple serialized, if any.
    pub closed spec fn last_v(&self) -> Option<TripleV> {
        match self.last {
            Option::Some(ref t) => Some(t@),
            Option::None => None,
        }
    }

    /// The configured inter-term spacing text.
    pub closed spec fn space_v(&self) -> Seq<char> {
        spec_indent_text(self.config.space)
    }

    /// The configured indentation text.
    pub closed spec fn indent_v(&self) -> Seq<char> {
        spec_indent_text(self.config.indent)
    }

    /// Well-formedness: the indentation level mirrors whether a block is
    /// open.
    pub closed spec fn wf(&self) -> bool {
        self.indent_level == (if self.last is Some {
            1int
        } else {
            0int
        })
    }

    /// Creates a new serializer with the given configuration.  The preamble
    /// for `config` is written immediately.
    pub fn new(config: Config) -> (r: Serializer)
        ensures
            r.wf(),
            r.last_v() is None,
            r.out_v() == spec_preamble(config.prolog.prefix_entries(), config.prolog.base_text()),
            r.space_v() == spec_indent_text(config.space),
            r.indent_v() == spec_indent_text(config.indent),
    {
        let mut target = String::new();
        write_preamble(&config.prolog, &mut target);
        proof {
            assert(target@ =~= spec_preamble(
                config.prolog.prefix_entries(),
                config.prolog.base_text(),
            ));
        }
        Serializer { target, config, indent_level: 0, last: Option::None }
    }

    /// Serializes one triple, grouped against the last one seen.
    #[verifier::rlimit(30)]
    pub fn serialize_one(&mut self, t: &Triple)
        requires
            old(self).wf(),
        ensures
            final(self).wf(),
            final(self).out_v() == old(self).out_v() + spec_delta(
                old(self).last_v(),
                t@,
                old(self).space_v(),
                old(self).indent_v(),
            ),
            final(self).last_v() == Some(t@),
            final(self).space_v() == old(self).space_v(),
            final(self).indent_v() == old(self).indent_v(),
    {
        proof {
            reveal_strlit(" .\n\n");
            reveal_strlit(" ;\n");
            reveal_strlit(",");
        }
        let same = match &self.last {
            Option::Some(lt) => {
                if lt.s.same_as(&t.s) {
                    if lt.p.same_as(&t.p) {
                        2u8  // same subject, same predicate
                    } else {
                        1u8  // same subject, new predicate
                    }
                } else {
                    0u8  // new subject
                }
            },
            Option::None => 3u8,  // first triple
        };
        if same == 3 {
            self.write_spo(t);
        } else if same == 0 {
            self.finish_block();
            self.write_spo(t);
        } else if same == 1 {
            self.write_po(t);
        } else {
            self.write_o(t);
        }
        self.last = Option::Some(t.duplicate());
        proof {
            assert(self.wf());
            assert(spec_indent_repeat(old(self).config.indent, 0nat) =~= Seq::<char>::empty());
            assert(spec_indent_repeat(old(self).config.indent, 1nat) =~= spec_indent_text(
                old(self).config.indent,
            ));
            assert(self.out_v() =~= old(self).out_v() + spec_delta(
                old(self).last_v(),
                t@,
                old(self).space_v(),
                old(self).indent_v(),
            ));
        }
    }

    /// Serializes a triple sequence in order.
    pub fn serialize(&mut self, ts: &Vec<Triple>)
        requires
            old(self).wf(),
        ensures
            final(self).wf(),
            final(self).out_v() == old(self).out_v() + spec_run_text(
                old(self).last_v(),
                ts@.map_values(|t: Triple| t@),
                old(self).space_v(),
                old(self).indent_v(),
            ),
            final(self).last_v() == (if ts@.len() == 0 {
                old(self).last_v()
            } else {
                Some(ts@.map_values(|t: Triple| t@).last())
            }),
            final(self).space_v() == old(self).space_v(),
            final(self).indent_v() == old(self).indent_v(),
    {
        let ghost tvs = ts@.map_values(|t: Triple| t@);
        let n = ts.len();
        proof {
            assert(tvs.skip(0) =~= tvs);
        }
        let mut k: usize = 0;
        while k < n
            invariant
                n == ts@.len(),
                tvs == ts@.map_values(|t: Triple| t@),
                k <= n,
                self.wf(),
                self.space_v() == old(self).space_v(),
                self.indent_v() == old(self).indent_v(),
                old(self).out_v() + spec_run_text(
                    old(self).last_v(),
                    tvs,
                    old(self).space_v(),
                    old(self).indent_v(),
                ) =~= self.out_v() + spec_run_text(
                    self.last_v(),
                    tvs.skip(k as int),
                    old(self).space_v(),
                    old(self).indent_v(),
                ),
                self.last_v() == (if k == 0 {
                    old(self).last_v()
                } else {
                    Some(tvs[k - 1])
                }),
            decreases n - k,
        {
            proof {
                assert(tvs.skip(k as int)[0] == tvs[k as int]);
            }
            self.serialize_one(&ts[k]);
            proof {
                assert(tvs.skip(k as int).drop_first() =~= tvs.skip(k + 1));
            }
            k = k + 1;
        }
        proof {
            assert(tvs.skip(n as int) =~= Seq::<TripleV>::empty());
            assert(self.out_v() =~= old(self).out_v() + spec_run_text(
                old(self).last_v(),
                tvs,
                old(self).space_v(),
                old(self).indent_v(),
            ));
            if n > 0 {
                assert(tvs.last() == tvs[n - 1]);
            }
        }
    }

    /// Emits the terminator of the still-open block, if one is open, and
    /// hands the produced document back.
    pub fn finish(self) -> (out: String)
        requires
            self.wf(),
        ensures
            out@ == self.out_v() + (if self.last_v() is Some {
                " .\n\n"@
            } else {
                Seq::<char>::empty()
            }),
    {
        let mut ser = self;
        if ser.last.is_some() {
            ser.finish_block();
        }
        ser.target
    }

    /// Writes the whole triple and opens a block.
    fn write_spo(&mut self, t: &Triple)
        requires
            old(self).indent_level == 0,
        ensures
            final(self).target@ == old(self).target@ + spec_term_text(t@.s) + spec_indent_text(
                old(self).config.space,
            ) + spec_term_text(t@.p) + spec_indent_text(old(self).config.space) + spec_term_text(
                t@.o,
            ),
            final(self).config == old(self).config,
            final(self).last == old(self).last,
            final(self).indent_level == 1,
    {
        write_term(&t.s, &mut self.target);
        self.config.space.serialize(&mut self.target);
        write_term(&t.p, &mut self.target);
        self.config.space.serialize(&mut self.target);
        write_term(&t.o, &mut self.target);
        self.indent_level = self.indent_level + 1;
    }

    /// Writes predicate and object into the next line.
    fn write_po(&mut self, t: &Triple)
        ensures
            final(self).target@ == old(self).target@ + " ;\n"@ + spec_indent_repeat(
                old(self).config.indent,
                old(self).indent_level as nat,
            ) + spec_term_text(t@.p) + spec_indent_text(old(self).config.space) + spec_term_text(
                t@.o,
            ),
            final(self).config == old(self).config,
            final(self).last == old(self).last,
            final(self).indent_level == old(self).indent_level,
    {
        proof {
            reveal_strlit(" ;\n");
        }
        self.target.append(" ;\n");
        self.indent();
        write_term(&t.p, &mut self.target);
        self.config.space.serialize(&mut self.target);
        write_term(&t.o, &mut self.target);
    }

    /// Appends the object to the list.
    fn write_o(&mut self, t: &Triple)
        ensures
            final(self).target@ == old(self).target@ + ","@ + spec_indent_text(
                old(self).config.space,
            ) + spec_term_text(t@.o),
            final(self).config == old(self).config,
            final(self).last == old(self).last,
            final(self).indent_level == old(self).indent_level,
    {
        proof {
            reveal_strlit(",");
        }
        self.target.append(",");
        self.config.space.serialize(&mut self.target);
        write_term(&t.o, &mut self.target);
    }

    /// Finishes a block and inserts a blank line.
    fn finish_block(&mut self)
        ensures
            final(self).target@ == old(self).target@ + " .\n\n"@,
            final(self).config == old(self).config,
            final(self).last == old(self).last,
            final(self).indent_level == 0,
    {
        proof {
            reveal_strlit(" .\n\n");
        }
        self.target.append(" .\n\n");
        self.indent_level = 0;
    }

    /// Writes the indentation according to the current level.
    fn indent(&mut self)
        ensures
            final(self).target@ == old(self).target@ + spec_indent_repeat(
                old(self).config.indent,
                old(self).indent_level as nat,
            ),
            final(self).config == old(self).config,
            final(self).last == old(self).last,
            final(self).indent_level == old(self).indent_level,
    {
        let n = self.indent_level;
        let mut k: u32 = 0;
        while k < n
            invariant
                k <= n,
                self.target@ =~= old(self).target@ + spec_indent_repeat(
                    old(self).config.indent,
                    k as nat,
                ),
                self.config == old(self).config,
                self.last == old(self).last,
                self.indent_level == old(self).indent_level,
            decreases n - k,
        {
            let ind = self.config.indent;
            ind.serialize(&mut self.target);
            proof {
                lemma_indent_repeat_step(old(self).config.indent, k as nat);
            }
            k = k + 1;
        }
    }
}

/// The indentation text repeated `n` times.
pub open spec fn spec_indent_repeat(ind: Indentation, n: nat) -> Seq<char>
    decreases n,
{
    if n == 0 {
        Seq::empty()
    } else {
        spec_indent_repeat(ind, (n - 1) as nat) + spec_indent_text(ind)
    }
}

proof fn lemma_indent_repeat_step(ind: Indentation, k: nat)
    ensures
        spec_indent_repeat(ind, k) + spec_indent_text(ind) =~= spec_indent_repeat(ind, k + 1),
{
}

} // verus!
