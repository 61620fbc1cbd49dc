//! A backend that writes Markdown.
use vstd::prelude::*;

use crate::renderer::{Emission, MAX_DEPTH, RenderOptions, Renderer};
use crate::replacer::{
    Replacer, directive_target, lemma_scan_plain, lemma_scan_unknown_directive, opens_at, scan,
};
use crate::resolver::Resolver;
use crate::text::{chars_of, push_char, string_of};

verus! {

/// `n` copies of `#`.
pub open spec fn hashes(n: nat) -> Seq<char> {
    Seq::new(n, |i: int| '#')
}

/// Whether `doc` ends with a blank line: its last two characters are newlines.
pub open spec fn ends_blank(doc: Seq<char>) -> bool {
    doc.len() >= 2 && doc[doc.len() - 1] == '\n' && doc[doc.len() - 2] == '\n'
}

/// The newlines written before a heading so that a blank line separates it
/// from what precedes: none at the very start (an empty document or a lone
/// newline) or after a blank line; one after a line end; two after text.
pub open spec fn heading_lead(doc: Seq<char>) -> Seq<char> {
    if doc.len() == 0 || doc == seq!['\n'] || ends_blank(doc) {
        Seq::empty()
    } else if doc[doc.len() - 1] == '\n' {
        seq!['\n']
    } else {
        seq!['\n', '\n']
    }
}

/// `doc` followed by a heading of `text` at `depth`: the [`heading_lead`],
/// `depth + 1` hashes, a space, the text and a blank line.
pub open spec fn with_heading(doc: Seq<char>, text: Seq<char>, depth: nat) -> Seq<char> {
    doc + heading_lead(doc) + hashes(depth + 1) + seq![' '] + text + "\n\n"@
}

/// The lines of `s[start..]`, scanning from `i`: split at each newline,
/// with a carriage return before a newline dropped, and no empty last line
/// after a final newline.
pub open spec fn lines_from(s: Seq<char>, start: int, i: int) -> Seq<Seq<char>>
    decreases s.len() - i,
{
    if i >= s.len() {
        if start < s.len() {
            seq![s.subrange(start, s.len() as int)]
        } else {
            Seq::empty()
        }
    } else if s[i] == '\n' {
        seq![without_cr(s.subrange(start, i))] + lines_from(s, i + 1, i + 1)
    } else {
        lines_from(s, start, i + 1)
    }
}

/// `line` without one trailing carriage return.
pub open spec fn without_cr(line: Seq<char>) -> Seq<char> {
    if line.len() > 0 && line.last() == '\r' {
        line.drop_last()
    } else {
        line
    }
}

/// The lines of `s`.
pub open spec fn lines_of(s: Seq<char>) -> Seq<Seq<char>> {
    lines_from(s, 0, 0)
}

/// Whether a description line is a nested heading: it starts with `# `.
pub open spec fn is_heading_line(line: Seq<char>) -> bool {
    line.len() >= 2 && line[0] == '#' && line[1] == ' '
}

/// `doc` followed by one description line at `depth`.
pub open spec fn with_line(doc: Seq<char>, line: Seq<char>, depth: nat) -> Seq<char> {
    if is_heading_line(line) {
        with_heading(doc, line.subrange(2, line.len() as int), depth + 1)
    } else {
        doc + line + seq!['\n']
    }
}

/// `doc` followed by the description lines `ls` at `depth`.
pub open spec fn with_lines(doc: Seq<char>, ls: Seq<Seq<char>>, depth: nat) -> Seq<char>
    decreases ls.len(),
{
    if ls.len() == 0 {
        doc
    } else {
        with_line(with_lines(doc, ls.drop_last(), depth), ls.last(), depth)
    }
}

/// `doc` followed by what one emission writes.
pub open spec fn with_emission(doc: Seq<char>, e: Emission) -> Seq<char> {
    match e {
        Emission::Heading(t, d) => with_heading(doc, t, d),
        Emission::Description(t, d) => with_lines(doc, lines_of(t), d),
        Emission::TypeNote(t) => doc + "> Type: `"@ + t + "`\n\n"@,
        Emission::Text(t) => doc + t,
    }
}

/// The document after `es`, starting from `doc`.
pub open spec fn markdown(doc: Seq<char>, es: Seq<Emission>) -> Seq<char>
    decreases es.len(),
{
    if es.len() == 0 {
        doc
    } else {
        with_emission(markdown(doc, es.drop_last()), es.last())
    }
}

/// Writes Markdown into a document it owns.
pub struct MarkdownRenderer {
    document: String,
    options: RenderOptions,
    start: Ghost<Seq<char>>,
    log: Ghost<Seq<Emission>>,
}

/// Relies on `DoubleEndedIterator::nth_back` over `str::chars`: the
/// character `k` places before the last one, if there is one.
#[verifier::external_body]
fn char_from_end(s: &str, k: usize) -> (r: Option<char>)
    ensures
        k < s@.len() ==> r == Some(s@[s@.len() - 1 - k]),
        k >= s@.len() ==> r is None,
{
    s.chars().nth_back(k)
}

fn write_heading(doc: &mut String, text: &str, depth: usize)
    requires
        depth <= MAX_DEPTH,
    ensures
        final(doc)@ == with_heading(old(doc)@, text@, depth as nat),
        heading_spaced(old(doc)@ + heading_lead(old(doc)@)),
{
    let last = char_from_end(doc.as_str(), 0);
    let before_last = char_from_end(doc.as_str(), 1);
    proof {
        lemma_lead_spaced(doc@);
    }
    match (last, before_last) {
        (None, _) => {},
        (Some('\n'), None) => {
            assert(doc@ =~= seq!['\n']);
        },
        (Some('\n'), Some('\n')) => {},
        (Some('\n'), Some(_)) => {
            assert(doc@ != seq!['\n']);
            push_char(doc, '\n');
        },
        (Some(_), _) => {
            assert(doc@ != seq!['\n']);
            push_char(doc, '\n');
            push_char(doc, '\n');
        },
    }
    assert(doc@ =~= old(doc)@ + heading_lead(old(doc)@));
    let ghost lead = doc@;
    let mut i: usize = 0;
    while i <= depth
        invariant
            i <= depth + 1,
            depth <= MAX_DEPTH,
            doc@ == lead + hashes(i as nat),
        decreases depth + 1 - i,
    {
        push_char(doc, '#');
        assert(lead + hashes(i as nat + 1) =~= (lead + hashes(i as nat)).push('#'));
        i = i + 1;
    }
    push_char(doc, ' ');
    doc.append(text);
    doc.append("\n\n");
    assert(doc@ =~= with_heading(old(doc)@, text@, depth as nat));
}

/// What stands before a heading is either nothing, a lone newline at the
/// document's start, or ends with a blank line.
pub open spec fn heading_spaced(before: Seq<char>) -> bool {
    before.len() == 0 || before == seq!['\n'] || ends_blank(before)
}

/// Whatever the document holds, a heading written after it stands at the
/// document's start or after a blank line, never right after other text.
pub proof fn lemma_lead_spaced(doc: Seq<char>)
    ensures
        heading_spaced(doc + heading_lead(doc)),
{
    let pre = doc + heading_lead(doc);
    if doc.len() == 0 {
        assert(pre =~= doc);
    } else if doc == seq!['\n'] || ends_blank(doc) {
        assert(pre =~= doc);
    } else if doc[doc.len() - 1] == '\n' {
        assert(pre[pre.len() - 1] == '\n');
        assert(pre[pre.len() - 2] == doc[doc.len() - 1]);
    } else {
        assert(pre[pre.len() - 1] == '\n');
        assert(pre[pre.len() - 2] == '\n');
    }
}

fn write_description(doc: &mut String, text: &str, depth: usize)
    requires
        depth < MAX_DEPTH,
    ensures
        final(doc)@ == with_lines(old(doc)@, lines_of(text@), depth as nat),
{
    let cs = chars_of(text);
    let n = cs.len();
    let ghost mut done: Seq<Seq<char>> = Seq::empty();
    let mut start: usize = 0;
    let mut i: usize = 0;
    while i < n
        invariant
            cs@ == text@,
            n == cs@.len(),
            depth < MAX_DEPTH,
            start <= i <= n,
            done + lines_from(cs@, start as int, i as int) == lines_of(text@),
            doc@ == with_lines(old(doc)@, done, depth as nat),
        decreases n - i,
    {
        if cs[i] == '\n' {
            let mut end = i;
            if end > start && cs[end - 1] == '\r' {
                end = end - 1;
            }
            assert(cs@.subrange(start as int, end as int) == without_cr(
                cs@.subrange(start as int, i as int),
            )) by {
                if i > start && cs@[i - 1] == '\r' {
                    assert(cs@.subrange(start as int, end as int) =~= cs@.subrange(
                        start as int,
                        i as int,
                    ).drop_last());
                }
            }
            write_line(doc, &cs, start, end, depth);
            proof {
                let line = cs@.subrange(start as int, end as int);
                assert(done.push(line).drop_last() =~= done);
                assert(done.push(line) + lines_from(cs@, i + 1, i + 1) =~= done + lines_from(
                    cs@,
                    start as int,
                    i as int,
                ));
                done = done.push(line);
            }
            i = i + 1;
            start = i;
        } else {
            i = i + 1;
        }
    }
    if start < n {
        write_line(doc, &cs, start, n, depth);
        proof {
            let line = cs@.subrange(start as int, n as int);
            assert(done.push(line).drop_last() =~= done);
            assert(done.push(line) =~= done + lines_from(cs@, start as int, n as int));
        }
    } else {
        assert(done =~= done + lines_from(cs@, start as int, n as int));
    }
}

fn write_line(doc: &mut String, cs: &Vec<char>, from: usize, to: usize, depth: usize)
    requires
        from <= to <= cs@.len(),
        depth < MAX_DEPTH,
    ensures
        final(doc)@ == with_line(old(doc)@, cs@.subrange(from as int, to as int), depth as nat),
{
    let ghost line = cs@.subrange(from as int, to as int);
    if to - from >= 2 && cs[from] == '#' && cs[from + 1] == ' ' {
        let t = string_of(cs, from + 2, to);
        assert(t@ =~= line.subrange(2, line.len() as int));
        write_heading(doc, t.as_str(), depth + 1);
    } else {
        let t = string_of(cs, from, to);
        doc.append(t.as_str());
        push_char(doc, '\n');
    }
}

impl MarkdownRenderer {
    /// The document written so far.
    pub closed spec fn text(&self) -> Seq<char> {
        self.document@
    }

    /// A renderer that writes after `document`.
    pub fn new(document: String, options: RenderOptions) -> (r: MarkdownRenderer)
        ensures
            r.base() == document@,
            r.emitted() == Seq::<Emission>::empty(),
            r.simplifies() == options.simplified_types,
            r.inv(),
    {
        let ghost start = document@;
        MarkdownRenderer { document, options, start: Ghost(start), log: Ghost(Seq::empty()) }
    }

    /// The finished document.
    pub fn finish(self) -> (r: String)
        requires
            self.inv(),
        ensures
            r@ == markdown(self.base(), self.emitted()),
    {
        self.document
    }
}

impl Renderer for MarkdownRenderer {
    /// The document holds what the emissions wrote after the initial document.
    open spec fn inv(&self) -> bool {
        self.text() == markdown(self.base(), self.emitted())
    }

    closed spec fn base(&self) -> Seq<char> {
        self.start@
    }

    closed spec fn emitted(&self) -> Seq<Emission> {
        self.log@
    }

    closed spec fn simplifies(&self) -> bool {
        self.options.simplified_types
    }

    fn options(&self) -> (r: RenderOptions) {
        self.options
    }

    fn render_heading(&mut self, text: &str, depth: usize) {
        let ghost e = Emission::Heading(text@, depth as nat);
        write_heading(&mut self.document, text, depth);
        proof {
            assert(self.log@.push(e).drop_last() =~= self.log@);
            self.log@ = self.log@.push(e);
        }
    }

    fn render_description(&mut self, text: &str, depth: usize) {
        let ghost e = Emission::Description(text@, depth as nat);
        write_description(&mut self.document, text, depth);
        proof {
            assert(self.log@.push(e).drop_last() =~= self.log@);
            self.log@ = self.log@.push(e);
        }
    }

    fn render_type(&mut self, text: &str) {
        let ghost e = Emission::TypeNote(text@);
        self.document.append("> Type: `");
        self.document.append(text);
        self.document.append("`\n\n");
        proof {
            assert(self.log@.push(e).drop_last() =~= self.log@);
            assert(self.document@ =~= with_emission(markdown(self.start@, self.log@), e));
            self.log@ = self.log@.push(e);
        }
    }

    fn render_text(&mut self, text: &str) {
        let ghost e = Emission::Text(text@);
        self.document.append(text);
        proof {
            assert(self.log@.push(e).drop_last() =~= self.log@);
            self.log@ = self.log@.push(e);
        }
    }
}

/// Renders one document to Markdown against a built catalogue: literal
/// text passes through and each directive is replaced; see [`scan`].
pub fn render_document(resolver: &Resolver, input: String, options: RenderOptions) -> (r: String)
    requires
        resolver.wf(),
    ensures
        r@ == markdown(Seq::empty(), scan(*resolver, input@, 0, options.simplified_types)),
{
    let renderer = MarkdownRenderer::new(String::new(), options);
    let mut replacer = Replacer::new(renderer, resolver);
    replacer.replace(input);
    let renderer = replacer.finish();
    assert(renderer.emitted() =~= scan(*resolver, input@, 0, options.simplified_types));
    renderer.finish()
}

/// A heading is never preceded by fewer than one blank line, whatever came
/// before it: the text before its hashes is empty, a lone newline at the
/// start, or ends with two newlines. The heading itself ends with a blank
/// line, so two headings are always separated by at least one.
pub proof fn lemma_heading_blank_lines(doc: Seq<char>, text: Seq<char>, depth: nat)
    ensures
        ({
            let out = with_heading(doc, text, depth);
            let m = out.len() - (depth + 1 + 1 + text.len() + 2);
            &&& 0 <= m
            &&& heading_spaced(out.subrange(0, m))
            &&& out.subrange(0, doc.len() as int) == doc
            &&& out.subrange(m, m + depth + 1) == hashes(depth + 1)
            &&& ends_blank(out)
        }),
{
    reveal_strlit("\n\n");
    let pre = doc + heading_lead(doc);
    let out = with_heading(doc, text, depth);
    let m = out.len() - (depth + 1 + 1 + text.len() + 2);
    lemma_lead_spaced(doc);
    assert(out == pre + hashes(depth + 1) + seq![' '] + text + "\n\n"@);
    assert(m == pre.len());
    assert(out.subrange(0, m) =~= pre);
    assert(out.subrange(0, doc.len() as int) =~= doc);
    assert(out.subrange(m, m + depth + 1) =~= hashes(depth + 1));
    assert(out[out.len() - 1] == '\n');
    assert(out[out.len() - 2] == '\n');
}

/// Rendered to Markdown (what [`render_document`] returns), a document
/// without directives comes out exactly as it went in.
pub proof fn lemma_plain_document_unchanged(r: Resolver, s: Seq<char>, simplify: bool)
    requires
        forall|k: int| 0 <= k < s.len() ==> !opens_at(s, k),
    ensures
        markdown(Seq::empty(), scan(r, s, 0, simplify)) == s,
{
    lemma_scan_plain(r, s, simplify);
    let es = scan(r, s, 0, simplify);
    if s.len() > 0 {
        assert(es.drop_last() =~= Seq::<Emission>::empty());
        assert(markdown(Seq::empty(), es.drop_last()) == Seq::<char>::empty());
        assert(es.last() == Emission::Text(s));
        assert(Seq::<char>::empty() + s =~= s);
    }
}

/// Rendered to Markdown (what [`render_document`] returns), a document that
/// is one directive naming nothing in the catalogue, or a bare name that
/// several modules declare, comes out byte for byte as it was written.
pub proof fn lemma_unknown_directive_unchanged(r: Resolver, raw: Seq<char>, simplify: bool)
    requires
        forall|k: int| 0 <= k < raw.len() - 1 ==> !(#[trigger] raw[k] == '%' && raw[k + 1] == '>'),
        directive_target(r, raw) is None,
    ensures
        markdown(Seq::empty(), scan(r, "<%"@ + raw + "%>"@, 0, simplify)) == "<%"@ + raw + "%>"@,
{
    lemma_scan_unknown_directive(r, raw, simplify);
    let es = scan(r, "<%"@ + raw + "%>"@, 0, simplify);
    let t = "<%"@ + raw + "%>"@;
    assert(es.drop_last() =~= Seq::<Emission>::empty());
    assert(markdown(Seq::empty(), es.drop_last()) == Seq::<char>::empty());
    assert(es.last() == Emission::Text(t));
    assert(Seq::<char>::empty() + t =~= t);
}

} // verus!
