//! Incremental Turtle text formatter with `@prefix` / `PREFIX` blocks.
use crate::text::{is_http, push_char, starts_with_http};
use vstd::prelude::*;
use vstd::std_specs::iter::IteratorSpec;

verus! {

/// What one character of a literal becomes in Turtle text.
pub open spec fn escape_char(c: char) -> Seq<char> {
    if c == '\n' {
        seq!['\\', 'n']
    } else if c == '\r' {
        seq!['\\', 'r']
    } else if c == '"' {
        seq!['\\', '"']
    } else if c == '\\' {
        seq!['\\', '\\']
    } else {
        seq![c]
    }
}

/// Turtle escaping of a literal: each character in turn through `escape_char`.
pub open spec fn escape_seq(s: Seq<char>) -> Seq<char>
    decreases s.len(),
{
    if s.len() == 0 {
        Seq::empty()
    } else {
        escape_char(s[0]) + escape_seq(s.drop_first())
    }
}

/// The reverse of `escape_seq`: a backslash and the following character
/// stand for one character.
pub open spec fn unescape_seq(s: Seq<char>) -> Seq<char>
    decreases s.len(),
{
    if s.len() == 0 {
        Seq::empty()
    } else if s[0] == '\\' && s.len() >= 2 {
        let c = if s[1] == 'n' {
            '\n'
        } else if s[1] == 'r' {
            '\r'
        } else {
            s[1]
        };
        seq![c] + unescape_seq(s.subrange(2, s.len() as int))
    } else {
        seq![s[0]] + unescape_seq(s.drop_first())
    }
}

proof fn lemma_escape_append(a: Seq<char>, b: Seq<char>)
    ensures
        escape_seq(a + b) == escape_seq(a) + escape_seq(b),
    decreases a.len(),
{
    if a.len() == 0 {
        assert(a + b =~= b);
    } else {
        assert((a + b).drop_first() =~= a.drop_first() + b);
        lemma_escape_append(a.drop_first(), b);
        assert(escape_seq(a + b) =~= escape_seq(a) + escape_seq(b));
    }
}

proof fn lemma_escape_one(c: char)
    ensures
        escape_seq(seq![c]) == escape_char(c),
{
    assert(seq![c].drop_first() =~= Seq::<char>::empty());
    assert(escape_seq(Seq::<char>::empty()) == Seq::<char>::empty());
    assert(escape_seq(seq![c]) == escape_char(seq![c][0]) + escape_seq(seq![c].drop_first()));
    assert(escape_seq(seq![c]) =~= escape_char(c));
}

/// Unescaping an escaped literal gives the literal back.
pub proof fn lemma_unescape_escape(s: Seq<char>)
    ensures
        unescape_seq(escape_seq(s)) == s,
    decreases s.len(),
{
    if s.len() > 0 {
        let c = s[0];
        let rest = s.drop_first();
        lemma_unescape_escape(rest);
        let e = escape_seq(s);
        assert(e == escape_char(c) + escape_seq(rest));
        if escape_char(c).len() == 2 {
            assert(e.subrange(2, e.len() as int) =~= escape_seq(rest));
            assert(unescape_seq(e) =~= seq![c] + rest);
        } else {
            assert(e.drop_first() =~= escape_seq(rest));
            assert(unescape_seq(e) =~= seq![c] + rest);
        }
        assert(s =~= seq![c] + rest);
    }
}

enum EscapeRdfState {
    Done,
    Char(char),
    Backslash(char),
}

/// The escaping of one character, handed out one character at a time.
pub struct EscapeRDF {
    state: EscapeRdfState,
}

impl EscapeRDF {
    /// What is still to come.
    pub closed spec fn remaining(&self) -> Seq<char> {
        match self.state {
            EscapeRdfState::Done => Seq::empty(),
            EscapeRdfState::Char(c) => seq![c],
            EscapeRdfState::Backslash(c) => seq!['\\', c],
        }
    }

    pub fn new(c: char) -> (r: Self)
        ensures
            r.remaining() == escape_char(c),
    {
        let state = if c == '\n' {
            EscapeRdfState::Backslash('n')
        } else if c == '\r' {
            EscapeRdfState::Backslash('r')
        } else if c == '"' {
            EscapeRdfState::Backslash('"')
        } else if c == '\\' {
            EscapeRdfState::Backslash('\\')
        } else {
            EscapeRdfState::Char(c)
        };
        let r = EscapeRDF { state };
        assert(r.remaining() =~= escape_char(c));
        r
    }

    /// The next character, if any is left.
    pub fn next(&mut self) -> (r: Option<char>)
        ensures
            old(self).remaining().len() == 0 ==> r is None && final(self).remaining().len() == 0,
            old(self).remaining().len() > 0 ==> r == Some(old(self).remaining()[0])
                && final(self).remaining() == old(self).remaining().drop_first(),
    {
        match self.state {
            EscapeRdfState::Backslash(c) => {
                self.state = EscapeRdfState::Char(c);
                assert(self.remaining() =~= old(self).remaining().drop_first());
                Some('\\')
            },
            EscapeRdfState::Char(c) => {
                self.state = EscapeRdfState::Done;
                assert(self.remaining() =~= old(self).remaining().drop_first());
                Some(c)
            },
            EscapeRdfState::Done => None,
        }
    }

    /// How many characters are left.
    pub fn len(&self) -> (r: usize)
        ensures
            r == self.remaining().len(),
    {
        match self.state {
            EscapeRdfState::Done => 0,
            EscapeRdfState::Char(_) => 1,
            EscapeRdfState::Backslash(_) => 2,
        }
    }
}

/// Appends the Turtle escaping of `s` to `out`.
fn push_escaped(out: &mut String, s: &str)
    ensures
        final(out)@ == old(out)@ + escape_seq(s@),
{
    broadcast use vstd::string::axiom_spec_iter, vstd::string::next_postcondition;

    let mut chars = s.chars();
    let ghost mut done: Seq<char> = Seq::empty();
    loop
        invariant
            s@ == done + chars.remaining(),
            chars.obeys_prophetic_iter_laws(),
            chars.decrease() is Some,
            out@ == old(out)@ + escape_seq(done),
        ensures
            out@ == old(out)@ + escape_seq(s@),
        decreases chars.decrease()->0,
    {
        let ghost rest = chars.remaining();
        match chars.next() {
            Some(c) => {
                proof {
                    lemma_escape_append(done, seq![c]);
                    lemma_escape_one(c);
                    assert(done.push(c) =~= done + seq![c]);
                }
                let ghost before = out@;
                let mut e = EscapeRDF::new(c);
                while e.len() > 0
                    invariant
                        before + escape_char(c) == out@ + e.remaining(),
                    decreases e.remaining().len(),
                {
                    let ghost rem = e.remaining();
                    match e.next() {
                        Some(x) => {
                            push_char(out, x);
                            assert(out@ + e.remaining() =~= before + escape_char(c)) by {
                                assert(rem =~= seq![x] + e.remaining());
                            }
                        },
                        None => {},
                    }
                }
                proof {
                    assert(out@ =~= old(out)@ + escape_seq(done.push(c)));
                    assert(done + rest =~= done.push(c) + chars.remaining());
                    done = done.push(c);
                }
            },
            None => {
                assert(rest.len() == 0);
                assert(s@ =~= done);
                break;
            },
        }
    }
}

/// Turtle escaping of a literal's text: `\n`, `\r`, `"` and `\` take a
/// backslash, every other character stands as it is.
pub fn escape(s: &str) -> (r: String)
    ensures
        r@ == escape_seq(s@),
{
    let mut out = String::new();
    push_escaped(&mut out, s);
    out
}

/// Whether a subject is a named node or a blank node.
#[derive(Clone, Copy, Debug, PartialEq, Eq, Structural)]
pub enum NamedOrBlankNodeType {
    NamedNode,
    BlankNode,
}

/// The object of a triple.
#[derive(Clone, Debug)]
pub enum Term {
    NamedNode(String),
    BlankNode(String),
    /// A plain literal.
    Simple(String),
    /// A literal and its language.
    LanguageTagged(String, String),
    /// A literal and its datatype token, written as given.
    Typed(String, String),
}

/// A (subject, predicate, object) fact.
#[derive(Clone, Debug)]
pub struct Triple {
    pub subject: String,
    pub subject_type: NamedOrBlankNodeType,
    pub predicate: String,
    pub object: Term,
}

/// Whether the text is an absolute IRI by the RFC 3987 grammar.
pub uninterp spec fn iri_valid(s: Seq<char>) -> bool;

/// Relies on `iri_string::validate::iri::<IriSpec>`: `Ok` exactly for the
/// texts that the RFC 3987 IRI grammar accepts.
#[verifier::external_body]
fn is_valid_iri(s: &str) -> (r: bool)
    ensures
        r == iri_valid(s@),
{
    iri_string::validate::iri::<iri_string::spec::IriSpec>(s).is_ok()
}

pub open spec fn quoted(s: Seq<char>) -> Seq<char> {
    seq!['"'] + escape_seq(s) + seq!['"']
}

/// `<s>` for an `http://` IRI, `s` as it is otherwise.
pub open spec fn bracketed(s: Seq<char>) -> Seq<char> {
    if is_http(s) {
        seq!['<'] + s + seq!['>']
    } else {
        s
    }
}

/// The Turtle text of an object term, given whether a named node's text is a
/// valid IRI: an invalid one is written as a quoted literal.
pub open spec fn object_text(o: Term, iri_ok: bool) -> Seq<char> {
    match o {
        Term::NamedNode(n) => if iri_ok {
            bracketed(n@)
        } else {
            quoted(n@)
        },
        Term::BlankNode(id) => id@,
        Term::Simple(v) => quoted(v@),
        Term::LanguageTagged(v, l) => quoted(v@) + seq!['@'] + l@,
        Term::Typed(v, d) => quoted(v@) + seq!['^', '^'] + d@,
    }
}

/// The Turtle text of an object term, with a named node checked as an IRI.
pub open spec fn object_turtle(o: Term) -> Seq<char> {
    object_text(
        o,
        match o {
            Term::NamedNode(n) => iri_valid(n@),
            _ => true,
        },
    )
}

fn push_str(out: &mut String, s: &str)
    ensures
        final(out)@ == old(out)@ + s@,
{
    out.append(s);
}

fn push_quoted(out: &mut String, s: &str)
    ensures
        final(out)@ == old(out)@ + quoted(s@),
{
    push_char(out, '"');
    push_escaped(out, s);
    push_char(out, '"');
    assert(out@ =~= old(out)@ + quoted(s@));
}

fn push_bracketed(out: &mut String, s: &str)
    ensures
        final(out)@ == old(out)@ + bracketed(s@),
{
    if starts_with_http(s) {
        push_char(out, '<');
        push_str(out, s);
        push_char(out, '>');
        assert(out@ =~= old(out)@ + bracketed(s@));
    } else {
        push_str(out, s);
    }
}

/// Appends the Turtle text of `o` to `out`, given whether a named node's
/// text is a valid IRI.
pub fn write_object(out: &mut String, o: &Term, iri_ok: bool)
    ensures
        final(out)@ == old(out)@ + object_text(*o, iri_ok),
{
    match o {
        Term::NamedNode(n) => {
            if iri_ok {
                push_bracketed(out, n.as_str());
            } else {
                push_quoted(out, n.as_str());
            }
        },
        Term::BlankNode(id) => {
            push_str(out, id.as_str());
        },
        Term::Simple(v) => {
            push_quoted(out, v.as_str());
        },
        Term::LanguageTagged(v, l) => {
            push_quoted(out, v.as_str());
            push_char(out, '@');
            push_str(out, l.as_str());
            assert(out@ =~= old(out)@ + object_text(*o, iri_ok));
        },
        Term::Typed(v, d) => {
            push_quoted(out, v.as_str());
            push_char(out, '^');
            push_char(out, '^');
            push_str(out, d.as_str());
            assert(out@ =~= old(out)@ + object_text(*o, iri_ok));
        },
    }
}

/// Appends the Turtle text of `o` to `out`, checking a named node as an IRI.
pub fn fmt_object(o: &Term, out: &mut String)
    ensures
        final(out)@ == old(out)@ + object_turtle(*o),
{
    let iri_ok = match o {
        Term::NamedNode(n) => is_valid_iri(n.as_str()),
        _ => true,
    };
    write_object(out, o, iri_ok);
}

/// Writes triples as Turtle, grouping consecutive triples of one subject into
/// one statement (`;` before a new predicate, `,` before another object of
/// the same predicate). The text is gathered in `out` until taken.
pub struct TurtleFormatterWithPrefixes {
    pub out: String,
    pub current_subject: String,
    pub current_subject_type: Option<NamedOrBlankNodeType>,
    pub current_predicate: String,
}

/// Lexicographic order of texts, character by character.
pub open spec fn text_lt(a: Seq<char>, b: Seq<char>) -> bool
    decreases a.len(),
{
    if a.len() == 0 {
        b.len() > 0
    } else if b.len() == 0 {
        false
    } else if a[0] != b[0] {
        (a[0] as u32) < (b[0] as u32)
    } else {
        text_lt(a.drop_first(), b.drop_first())
    }
}

proof fn lemma_text_lt_irreflexive(a: Seq<char>)
    ensures
        !text_lt(a, a),
    decreases a.len(),
{
    if a.len() > 0 {
        lemma_text_lt_irreflexive(a.drop_first());
    }
}

proof fn lemma_text_lt_transitive(a: Seq<char>, b: Seq<char>, c: Seq<char>)
    requires
        text_lt(a, b),
        text_lt(b, c),
    ensures
        text_lt(a, c),
    decreases a.len(),
{
    if a.len() > 0 && b.len() > 0 && c.len() > 0 && a[0] == b[0] && b[0] == c[0] {
        lemma_text_lt_transitive(a.drop_first(), b.drop_first(), c.drop_first());
    }
}

/// Prefix entries ordered by name.
pub open spec fn sorted_by_name(ps: Seq<(String, String)>) -> bool {
    forall|i: int, j: int| 0 <= i < j < ps.len() ==> !text_lt(#[trigger] ps[j].0@, #[trigger] ps[i].0@)
}

fn name_lt(a: &str, b: &str) -> (r: bool)
    ensures
        r == text_lt(a@, b@),
{
    let n = a.unicode_len();
    let m = b.unicode_len();
    let mut i: usize = 0;
    assert(a@.subrange(0, n as int) =~= a@);
    assert(b@.subrange(0, m as int) =~= b@);
    while i < n && i < m
        invariant
            n == a@.len(),
            m == b@.len(),
            0 <= i <= n,
            i <= m,
            text_lt(a@, b@) == text_lt(a@.subrange(i as int, n as int), b@.subrange(i as int, m as int)),
        decreases n - i,
    {
        let x = a.get_char(i);
        let y = b.get_char(i);
        let ghost sa = a@.subrange(i as int, n as int);
        let ghost sb = b@.subrange(i as int, m as int);
        assert(sa[0] == x && sb[0] == y);
        if x != y {
            return (x as u32) < (y as u32);
        }
        assert(sa.drop_first() =~= a@.subrange(i + 1, n as int));
        assert(sb.drop_first() =~= b@.subrange(i + 1, m as int));
        i = i + 1;
    }
    n - i < m - i
}

/// The prefix entries sorted by name (a stable insertion sort).
pub fn sort_prefixes(ps: &Vec<(String, String)>) -> (r: Vec<(String, String)>)
    ensures
        sorted_by_name(r@),
        r@.to_multiset() == ps@.to_multiset(),
{
    broadcast use vstd::seq_lib::group_to_multiset_ensures;

    let mut r: Vec<(String, String)> = Vec::new();
    let mut k: usize = 0;
    while k < ps.len()
        invariant
            0 <= k <= ps@.len(),
            sorted_by_name(r@),
            r@.to_multiset() == ps@.subrange(0, k as int).to_multiset(),
        decreases ps@.len() - k,
    {
        let name = ps[k].0.as_str();
        let mut pos: usize = 0;
        while pos < r.len() && !name_lt(name, r[pos].0.as_str())
            invariant
                0 <= pos <= r@.len(),
                forall|q: int| 0 <= q < pos ==> !text_lt(name@, #[trigger] r@[q].0@),
            decreases r@.len() - pos,
        {
            pos = pos + 1;
        }
        let ghost old_r = r@;
        assert(pos < old_r.len() ==> text_lt(name@, old_r[pos as int].0@));
        r.insert(pos, (ps[k].0.clone(), ps[k].1.clone()));
        let ghost item = r@[pos as int];
        proof {
            assert(item.0@ == name@);
            assert(r@.remove(pos as int) =~= old_r);
            assert(ps@.subrange(0, k + 1) =~= ps@.subrange(0, k as int).push(ps@[k as int]));
            assert forall|i: int, j: int| 0 <= i < j < r@.len() implies !text_lt(
                #[trigger] r@[j].0@,
                #[trigger] r@[i].0@,
            ) by {
                if j < pos {
                    assert(r@[i] == old_r[i] && r@[j] == old_r[j]);
                } else if j == pos {
                    assert(r@[i] == old_r[i]);
                } else if i == pos {
                    assert(r@[j] == old_r[j - 1]);
                    assert(text_lt(name@, old_r[pos as int].0@));
                    if text_lt(old_r[j - 1].0@, name@) {
                        lemma_text_lt_transitive(old_r[j - 1].0@, name@, old_r[pos as int].0@);
                        if j - 1 == pos {
                            lemma_text_lt_irreflexive(old_r[pos as int].0@);
                        }
                    }
                } else if i < pos {
                    assert(r@[i] == old_r[i]);
                    assert(r@[j] == old_r[j - 1]);
                } else {
                    assert(r@[i] == old_r[i - 1]);
                    assert(r@[j] == old_r[j - 1]);
                }
            }
            assert(item == ps@[k as int]);
            assert(r@[pos as int] == item);
            assert(r@.contains(item));
            r@.to_multiset_ensures();
            ps@.subrange(0, k as int).to_multiset_ensures();
            assert(r@.to_multiset().count(item) > 0);
            assert(r@.remove(pos as int).to_multiset() =~= r@.to_multiset().remove(item));
            assert(r@.to_multiset() =~= old_r.to_multiset().insert(item));
        }
        k = k + 1;
    }
    assert(ps@.subrange(0, k as int) =~= ps@);
    r
}

/// One `@prefix` line, or one `PREFIX` line for a query.
pub open spec fn prefix_line(name: Seq<char>, iri: Seq<char>, query: bool) -> Seq<char> {
    if query {
        "PREFIX "@ + name + ": <"@ + iri + ">\n"@
    } else {
        "@prefix "@ + name + ": <"@ + iri + "> .\n"@
    }
}

pub open spec fn prefix_lines(ps: Seq<(String, String)>, query: bool) -> Seq<char>
    decreases ps.len(),
{
    if ps.len() == 0 {
        Seq::empty()
    } else {
        prefix_lines(ps.drop_last(), query) + prefix_line(ps.last().0@, ps.last().1@, query)
    }
}

/// The prefix block: one line per prefix in the order given, then a blank
/// line.
pub open spec fn prefix_block(ps: Seq<(String, String)>, query: bool) -> Seq<char> {
    prefix_lines(ps, query) + seq!['\n']
}

/// `text` is the prefix block of the entries sorted by name. The entries
/// stand for a mapping from name to IRI, so names are meant to be distinct;
/// a repeated name gets one line per entry, and with distinct names the
/// sorted order, and so the block, is unique.
pub open spec fn sorted_prefix_block(text: Seq<char>, ps: Seq<(String, String)>, query: bool) -> bool {
    exists|sorted: Seq<(String, String)>|
        sorted_by_name(sorted) && sorted.to_multiset() == ps.to_multiset() && text == #[trigger] prefix_block(
            sorted,
            query,
        )
}

/// The text written before a triple's object, given the formatter's state:
/// `, ` for the same subject and predicate, ` ;` and the predicate for the
/// same subject, and otherwise the end of the open statement (if any) and a
/// new one.
pub open spec fn triple_lead(f: TurtleFormatterWithPrefixes, t: Triple) -> Seq<char> {
    let fresh = bracketed(t.subject@) + " \n  "@ + t.predicate@ + " "@;
    match f.current_subject_type {
        Some(k) => if k == t.subject_type && f.current_subject@ == t.subject@ {
            if f.current_predicate@ == t.predicate@ {
                ", "@
            } else {
                " ;\n  "@ + t.predicate@ + " "@
            }
        } else {
            " .\n\n"@ + fresh
        },
        None => fresh,
    }
}

impl TurtleFormatterWithPrefixes {
    /// A formatter with nothing written, with the `@prefix` block first when
    /// `write_prefixes` is set.
    pub fn new(prefixes: &Vec<(String, String)>, write_prefixes: bool) -> (r: Self)
        ensures
            write_prefixes ==> sorted_prefix_block(r.out@, prefixes@, false),
            !write_prefixes ==> r.out@.len() == 0,
            r.current_subject_type is None,
            r.current_subject@.len() == 0,
            r.current_predicate@.len() == 0,
    {
        let mut f = TurtleFormatterWithPrefixes {
            out: String::new(),
            current_subject: String::new(),
            current_subject_type: None,
            current_predicate: String::new(),
        };
        if write_prefixes {
            f.write_prefixes(prefixes);
        }
        f
    }

    fn push_prefix_block(&mut self, prefixes: &Vec<(String, String)>, query: bool)
        ensures
            final(self).out@ == old(self).out@ + prefix_block(prefixes@, query),
            final(self).current_subject == old(self).current_subject,
            final(self).current_subject_type == old(self).current_subject_type,
            final(self).current_predicate == old(self).current_predicate,
    {
        let mut i: usize = 0;
        while i < prefixes.len()
            invariant
                0 <= i <= prefixes@.len(),
                self.out@ == old(self).out@ + prefix_lines(prefixes@.subrange(0, i as int), query),
                self.current_subject == old(self).current_subject,
                self.current_subject_type == old(self).current_subject_type,
                self.current_predicate == old(self).current_predicate,
            decreases prefixes@.len() - i,
        {
            let name = prefixes[i].0.as_str();
            let iri = prefixes[i].1.as_str();
            if query {
                push_str(&mut self.out, "PREFIX ");
            } else {
                push_str(&mut self.out, "@prefix ");
            }
            push_str(&mut self.out, name);
            push_str(&mut self.out, ": <");
            push_str(&mut self.out, iri);
            if query {
                push_str(&mut self.out, ">\n");
            } else {
                push_str(&mut self.out, "> .\n");
            }
            proof {
                assert(prefixes@.subrange(0, i + 1).drop_last() =~= prefixes@.subrange(0, i as int));
            }
            i = i + 1;
            assert(self.out@ =~= old(self).out@ + prefix_lines(prefixes@.subrange(0, i as int), query));
        }
        assert(prefixes@.subrange(0, i as int) =~= prefixes@);
        push_char(&mut self.out, '\n');
        assert(self.out@ =~= old(self).out@ + prefix_block(prefixes@, query));
    }

    /// Writes one `@prefix name: <iri> .` line per prefix, sorted by name, then a
    /// blank line. Names are meant to be distinct (see
    /// `sorted_prefix_block`).
    pub fn write_prefixes(&mut self, prefixes: &Vec<(String, String)>)
        ensures
            exists|block: Seq<char>|
                sorted_prefix_block(block, prefixes@, false) && final(self).out@ == old(self).out@ + block,
            final(self).current_subject == old(self).current_subject,
            final(self).current_subject_type == old(self).current_subject_type,
            final(self).current_predicate == old(self).current_predicate,
    {
        let sorted = sort_prefixes(prefixes);
        self.push_prefix_block(&sorted, false);
        assert(sorted_prefix_block(prefix_block(sorted@, false), prefixes@, false));
    }

    /// Writes one `PREFIX name: <iri>` line per prefix, sorted by name, then a
    /// blank line. Names are meant to be distinct (see
    /// `sorted_prefix_block`).
    pub fn write_query_prefixes(&mut self, prefixes: &Vec<(String, String)>)
        ensures
            exists|block: Seq<char>|
                sorted_prefix_block(block, prefixes@, true) && final(self).out@ == old(self).out@ + block,
            final(self).current_subject == old(self).current_subject,
            final(self).current_subject_type == old(self).current_subject_type,
            final(self).current_predicate == old(self).current_predicate,
    {
        let sorted = sort_prefixes(prefixes);
        self.push_prefix_block(&sorted, true);
        assert(sorted_prefix_block(prefix_block(sorted@, true), prefixes@, true));
    }

    /// Writes one triple, continuing the open statement where the subject
    /// is the same, and remembers its subject and predicate.
    pub fn format(&mut self, t: &Triple)
        ensures
            final(self).out@ == old(self).out@ + triple_lead(*old(self), *t) + object_turtle(t.object),
            final(self).current_subject@ == t.subject@,
            final(self).current_subject_type == Some(t.subject_type),
            final(self).current_predicate@ == t.predicate@,
    {
        let same_subject = match self.current_subject_type {
            Some(k) => k == t.subject_type && self.current_subject == t.subject,
            None => false,
        };
        if same_subject {
            if self.current_predicate == t.predicate {
                push_str(&mut self.out, ", ");
            } else {
                push_str(&mut self.out, " ;\n  ");
                push_str(&mut self.out, t.predicate.as_str());
                push_str(&mut self.out, " ");
                assert(self.out@ =~= old(self).out@ + (" ;\n  "@ + t.predicate@ + " "@));
            }
        } else {
            let ghost start = self.out@;
            if self.current_subject_type.is_some() {
                push_str(&mut self.out, " .\n\n");
            }
            let ghost mid = self.out@;
            push_bracketed(&mut self.out, t.subject.as_str());
            push_str(&mut self.out, " \n  ");
            push_str(&mut self.out, t.predicate.as_str());
            push_str(&mut self.out, " ");
            assert(self.out@ =~= mid + (bracketed(t.subject@) + " \n  "@ + t.predicate@ + " "@));
        }
        assert(self.out@ =~= old(self).out@ + triple_lead(*old(self), *t));
        fmt_object(&t.object, &mut self.out);
        self.current_subject = t.subject.clone();
        self.current_subject_type = Some(t.subject_type);
        self.current_predicate = t.predicate.clone();
    }

    /// Hands over the text gathered so far and starts gathering afresh.
    pub fn take_output(&mut self) -> (r: String)
        ensures
            r@ == old(self).out@,
            final(self).out@.len() == 0,
            final(self).current_subject == old(self).current_subject,
            final(self).current_subject_type == old(self).current_subject_type,
            final(self).current_predicate == old(self).current_predicate,
    {
        let r = self.out.clone();
        self.out = String::new();
        r
    }

    /// Ends the open statement with ` .` and a line break, if any triple was
    /// written, and returns the text not yet taken.
    pub fn finish(self) -> (r: String)
        ensures
            r@ == self.out@ + (if self.current_subject_type is Some {
                " .\n"@
            } else {
                Seq::empty()
            }),
    {
        let mut out = self.out;
        if self.current_subject_type.is_some() {
            push_str(&mut out, " .\n");
        } else {
            assert(out@ =~= out@ + Seq::<char>::empty());
        }
        out
    }
}

} // verus!
