//! The template engine: finds `<% path options %>` directives in a document
//! and replaces each with the rendered declaration it names.
use vstd::prelude::*;

use crate::model::Info;
use crate::modpath::{ModulePath, split_path};
use crate::renderer::{Emission, MAX_DEPTH, Renderer, element_emissions};
use crate::resolver::Resolver;
use crate::text::{chars_of, is_white, same_text, string_of, white};

verus! {

/// Per-directive settings.
#[derive(Debug, Clone, Copy)]
pub struct ReplaceOptions {
    /// Whether to emit the declaration's own heading.
    pub header: bool,
    /// The depth of the declaration's heading; nested headings start one deeper.
    pub depth: usize,
}

/// A top-level value of an options block, as far as options read it.
#[derive(Debug, Clone, Copy, PartialEq, Eq)]
pub enum OptionValue {
    Boolean(bool),
    Integer(i64),
    /// Any other kind of value: a string, a float, a list, an object, null.
    Other,
}

/// The top-level entries, key and value, of the Corn object that a
/// [`corn_safe`] text `s` holds; none where `s` is not a valid Corn document.
pub uninterp spec fn corn_entries(s: Seq<char>) -> Option<Seq<(Seq<char>, OptionValue)>>;

/// The keys and values of `es`.
pub open spec fn entries_view(es: Seq<(String, OptionValue)>) -> Seq<(Seq<char>, OptionValue)> {
    es.map_values(|e: (String, OptionValue)| (e.0@, e.1))
}

/// Whether `c` may stand in an integer literal of Corn: a hex digit, the
/// `x` of `0x`, or `_`.
pub open spec fn literal_char(c: char) -> bool {
    ('0' <= c <= '9') || ('a' <= c <= 'f') || ('A' <= c <= 'F') || c == 'x' || c == 'X' || c == '_'
}

/// The longest run of [`literal_char`]s that an options text may hold.
pub const MAX_LITERAL_RUN: usize = 17;

/// Whether `s[i..]` holds no `$` and no run of [`literal_char`]s longer than
/// [`MAX_LITERAL_RUN`], where `run` such characters come right before `i`.
pub open spec fn safe_from(s: Seq<char>, i: int, run: int) -> bool
    decreases s.len() - i,
{
    if i < 0 || i >= s.len() {
        true
    } else if s[i] == '$' {
        false
    } else if literal_char(s[i]) {
        run + 1 <= MAX_LITERAL_RUN && safe_from(s, i + 1, run + 1)
    } else {
        safe_from(s, i + 1, 0)
    }
}

/// Whether Corn can read `s` as a function of the text alone and without
/// failing hard: it names no `$` input (which Corn may look up in the
/// environment), and every integer literal in it is short enough for `i64`
/// (seventeen characters hold fewer than seventeen decimal digits, or
/// `0x` and at most fifteen hex digits).
pub open spec fn corn_safe(s: Seq<char>) -> bool {
    safe_from(s, 0, 0)
}

fn is_corn_safe(s: &str) -> (r: bool)
    ensures
        r == corn_safe(s@),
{
    let cs = chars_of(s);
    let mut run: usize = 0;
    let mut i: usize = 0;
    while i < cs.len()
        invariant
            cs@ == s@,
            i <= cs@.len(),
            run <= MAX_LITERAL_RUN,
            safe_from(cs@, i as int, run as int) == corn_safe(s@),
        decreases cs.len() - i,
    {
        let c = cs[i];
        if c == '$' {
            return false;
        }
        if ('0' <= c && c <= '9') || ('a' <= c && c <= 'f') || ('A' <= c && c <= 'F') || c == 'x'
            || c == 'X' || c == '_' {
            if run + 1 > MAX_LITERAL_RUN {
                return false;
            }
            run = run + 1;
        } else {
            run = 0;
        }
        i = i + 1;
    }
    true
}

/// Relies on `corn::parse` (the libcorn crate): parses a Corn document,
/// whose top level is always an object, and hands out its entries in order;
/// integer keys are written out as text. On a [`corn_safe`] text it reads
/// no environment variable and meets no integer that overflows `i64`, the
/// two places where it would otherwise look outside the text or panic.
#[verifier::external_body]
fn parse_corn(s: &str) -> (r: Option<Vec<(String, OptionValue)>>)
    requires
        corn_safe(s@),
    ensures
        r is Some <==> corn_entries(s@) is Some,
        r is Some ==> entries_view(r->0@) == corn_entries(s@)->0,
{
    match corn::parse(s) {
        Ok(corn::Value::Object(map)) => Some(map.into_iter().map(|(k, v)| (k.to_string(), match v {
            corn::Value::Boolean(b) => OptionValue::Boolean(b),
            corn::Value::Integer(i) => OptionValue::Integer(i),
            _ => OptionValue::Other,
        })).collect()),
        _ => None,
    }
}

/// The value of the first entry keyed `key`.
pub open spec fn entry_value(es: Seq<(Seq<char>, OptionValue)>, key: Seq<char>) -> Option<
    OptionValue,
>
    decreases es.len(),
{
    if es.len() == 0 {
        None
    } else if es[0].0 == key {
        Some(es[0].1)
    } else {
        entry_value(es.drop_first(), key)
    }
}

/// The options that entries set: `header` a boolean, `depth` an integer
/// from zero up to where headings can still nest; absent keys keep their
/// defaults, other keys are ignored, and a wrong value rejects the whole.
pub open spec fn options_of(es: Seq<(Seq<char>, OptionValue)>) -> Option<ReplaceOptions> {
    let header = match entry_value(es, "header"@) {
        None => Some(true),
        Some(OptionValue::Boolean(b)) => Some(b),
        Some(_) => None,
    };
    let depth = match entry_value(es, "depth"@) {
        None => Some(1int),
        Some(OptionValue::Integer(i)) => if 0 <= i && i + 2 < MAX_DEPTH {
            Some(i as int)
        } else {
            None
        },
        Some(_) => None,
    };
    if header is Some && depth is Some {
        Some(ReplaceOptions { header: header->0, depth: depth->0 as usize })
    } else {
        None
    }
}

/// An options text in braces, as Corn wants it: left as it is where it
/// already opens with `{`.
pub open spec fn framed(s: Seq<char>) -> Seq<char> {
    if s.len() > 0 && s[0] == '{' {
        s
    } else {
        seq!['{'] + s + seq!['}']
    }
}

/// The options an options text gives: the defaults where it is not
/// [`corn_safe`], does not parse or sets a wrong value.
pub open spec fn options_from_text(s: Seq<char>) -> ReplaceOptions {
    if !corn_safe(framed(s)) {
        default_options()
    } else {
        match corn_entries(framed(s)) {
            Some(es) => match options_of(es) {
                Some(o) => o,
                None => default_options(),
            },
            None => default_options(),
        }
    }
}

/// With a heading, at the first nested level.
pub open spec fn default_options() -> ReplaceOptions {
    ReplaceOptions { header: true, depth: 1 }
}

/// The default of `header`.
pub fn default_true() -> (r: bool)
    ensures
        r,
{
    true
}

/// The default of `depth`.
pub fn default_depth() -> (r: usize)
    ensures
        r == 1,
{
    1
}

impl Default for ReplaceOptions {
    fn default() -> (r: ReplaceOptions)
        ensures
            r == default_options(),
    {
        ReplaceOptions { header: default_true(), depth: default_depth() }
    }
}

fn lookup<'a>(es: &'a Vec<(String, OptionValue)>, key: &str) -> (r: Option<OptionValue>)
    ensures
        r == entry_value(entries_view(es@), key@),
{
    let ghost v = entries_view(es@);
    let mut i: usize = 0;
    assert(v.subrange(0, v.len() as int) =~= v);
    while i < es.len()
        invariant
            v == entries_view(es@),
            i <= es@.len(),
            entry_value(v.subrange(i as int, v.len() as int), key@) == entry_value(v, key@),
        decreases es.len() - i,
    {
        let ghost rest = v.subrange(i as int, v.len() as int);
        assert(rest.drop_first() =~= v.subrange(i + 1, v.len() as int));
        if same_text(es[i].0.as_str(), key) {
            return Some(es[i].1);
        }
        i = i + 1;
    }
    None
}

impl ReplaceOptions {
    /// The options that parsed entries set; see [`options_of`].
    pub fn from_entries(es: &Vec<(String, OptionValue)>) -> (r: Option<ReplaceOptions>)
        ensures
            r == options_of(entries_view(es@)),
    {
        let header = match lookup(es, "header") {
            None => true,
            Some(OptionValue::Boolean(b)) => b,
            Some(_) => return None,
        };
        let depth: usize = match lookup(es, "depth") {
            None => 1,
            Some(OptionValue::Integer(i)) => {
                if 0 <= i && (i as u64) < (MAX_DEPTH as u64) - 2 {
                    i as usize
                } else {
                    return None;
                }
            },
            Some(_) => return None,
        };
        Some(ReplaceOptions { header, depth })
    }

    /// Reads an options text such as `header=false depth=2` (braces around
    /// it are optional); the defaults where it is not valid.
    pub fn parse_or_default(text: &str) -> (r: ReplaceOptions)
        ensures
            r == options_from_text(text@),
    {
        let src = frame(text);
        if !is_corn_safe(src.as_str()) {
            return ReplaceOptions::default();
        }
        match parse_corn(src.as_str()) {
            Some(es) => match ReplaceOptions::from_entries(&es) {
                Some(o) => o,
                None => ReplaceOptions::default(),
            },
            None => ReplaceOptions::default(),
        }
    }
}

fn frame(text: &str) -> (r: String)
    ensures
        r@ == framed(text@),
{
    let cs = crate::text::chars_of(text);
    if cs.len() > 0 && cs[0] == '{' {
        text.to_owned()
    } else {
        let mut r = "{".to_owned();
        r.append(text);
        r.append("}");
        proof {
            reveal_strlit("{");
            reveal_strlit("}");
        }
        r
    }
}

/// Whether a directive opens at `i`: `<%`.
pub open spec fn opens_at(s: Seq<char>, i: int) -> bool {
    0 <= i && i + 1 < s.len() && s[i] == '<' && s[i + 1] == '%'
}

/// Whether a directive closes at `i`: `%>`.
pub open spec fn closes_at(s: Seq<char>, i: int) -> bool {
    0 <= i && i + 1 < s.len() && s[i] == '%' && s[i + 1] == '>'
}

/// The first position from `j` where a directive opens, or the end.
pub open spec fn next_open(s: Seq<char>, j: int) -> int
    decreases s.len() - j,
{
    if j >= s.len() {
        s.len() as int
    } else if opens_at(s, j) {
        j
    } else {
        next_open(s, j + 1)
    }
}

/// The first position from `j` where a directive closes, if any.
pub open spec fn next_close(s: Seq<char>, j: int) -> Option<int>
    decreases s.len() - j,
{
    if j + 1 >= s.len() {
        None
    } else if closes_at(s, j) {
        Some(j)
    } else {
        next_close(s, j + 1)
    }
}

/// Skips white space forward from `a` within `[a, e)`.
pub open spec fn skip_white_start(s: Seq<char>, a: int, e: int) -> int
    decreases e - a,
{
    if a < e && 0 <= a < s.len() && white(s[a]) {
        skip_white_start(s, a + 1, e)
    } else {
        a
    }
}

/// Skips white space backward from `e` within `[a, e)`.
pub open spec fn skip_white_end(s: Seq<char>, a: int, e: int) -> int
    decreases e - a,
{
    if a < e && 0 <= e - 1 < s.len() && white(s[e - 1]) {
        skip_white_end(s, a, e - 1)
    } else {
        e
    }
}

/// The first space in `[k, e)`, or `e`.
pub open spec fn first_space(s: Seq<char>, k: int, e: int) -> int
    decreases e - k,
{
    if k >= e || k < 0 || k >= s.len() {
        e
    } else if s[k] == ' ' {
        k
    } else {
        first_space(s, k + 1, e)
    }
}

/// What a directive whose inner text is `raw` stands for: the text trimmed,
/// split at its first space into a path and an options text, the path looked
/// up as an absolute path and then as a bare name.
pub open spec fn directive_target(r: Resolver, raw: Seq<char>) -> Option<Info> {
    let a = skip_white_start(raw, 0, raw.len() as int);
    let e = skip_white_end(raw, a, raw.len() as int);
    let sp = first_space(raw, a, e);
    let path = raw.subrange(a, sp);
    match r.absolute(split_path(path)) {
        Some(info) => Some(info),
        None => r.shorthand(path),
    }
}

/// The options of a directive whose inner text is `raw`: read from what
/// follows the first space of the trimmed text, the defaults if there is none.
pub open spec fn directive_options(raw: Seq<char>) -> ReplaceOptions {
    let a = skip_white_start(raw, 0, raw.len() as int);
    let e = skip_white_end(raw, a, raw.len() as int);
    let sp = first_space(raw, a, e);
    if sp < e {
        options_from_text(raw.subrange(sp + 1, e))
    } else {
        default_options()
    }
}

/// The emissions for a directive whose inner text is `raw`: the rendered
/// declaration, or the directive written back as it stood, `<%raw%>`, where
/// nothing is found.
pub open spec fn directive_emissions(r: Resolver, raw: Seq<char>, simplify: bool) -> Seq<Emission> {
    match directive_target(r, raw) {
        Some(info) => element_emissions(info, directive_options(raw), simplify),
        None => seq![Emission::Text("<%"@ + raw + "%>"@)],
    }
}

/// Where the scan step at `i` ends: past the closing `%>` of a directive;
/// at the end for a directive that never closes; at the next `<%` or the end
/// for literal text.
pub open spec fn step_end(s: Seq<char>, i: int) -> int {
    if opens_at(s, i) {
        match next_close(s, i + 2) {
            Some(c) => c + 2,
            None => s.len() as int,
        }
    } else {
        next_open(s, i + 1)
    }
}

/// The emissions of the scan step at `i`.
pub open spec fn step_emissions(r: Resolver, s: Seq<char>, i: int, simplify: bool) -> Seq<
    Emission,
> {
    if opens_at(s, i) {
        match next_close(s, i + 2) {
            Some(c) => directive_emissions(r, s.subrange(i + 2, c), simplify),
            None => seq![Emission::Text(s.subrange(i, s.len() as int))],
        }
    } else {
        seq![Emission::Text(s.subrange(i, step_end(s, i)))]
    }
}

/// The emissions for the document `s` from position `i` on.
pub open spec fn scan(r: Resolver, s: Seq<char>, i: int, simplify: bool) -> Seq<Emission>
    decreases s.len() - i,
{
    if i < 0 || i >= s.len() {
        Seq::empty()
    } else {
        if i < step_end(s, i) <= s.len() {
            step_emissions(r, s, i, simplify) + scan(r, s, step_end(s, i), simplify)
        } else {
            Seq::empty()
        }
    }
}

proof fn lemma_next_open(s: Seq<char>, j: int)
    requires
        0 <= j,
    ensures
        j <= next_open(s, j) <= s.len() || (j > s.len() && next_open(s, j) == s.len()),
        forall|k: int| j <= k < next_open(s, j) ==> !opens_at(s, k),
        next_open(s, j) < s.len() ==> opens_at(s, next_open(s, j)),
    decreases s.len() - j,
{
    if j < s.len() && !opens_at(s, j) {
        lemma_next_open(s, j + 1);
    }
}

proof fn lemma_next_close(s: Seq<char>, j: int)
    requires
        0 <= j,
    ensures
        next_close(s, j) is Some ==> j <= next_close(s, j)->0 && next_close(s, j)->0 + 2 <= s.len()
            && closes_at(s, next_close(s, j)->0),
    decreases s.len() - j,
{
    if j + 1 < s.len() && !closes_at(s, j) {
        lemma_next_close(s, j + 1);
    }
}

/// Each scan step moves forward by at least one character and stays
/// within the document.
pub proof fn lemma_step_advances(s: Seq<char>, i: int)
    requires
        0 <= i < s.len(),
    ensures
        i < step_end(s, i) <= s.len(),
{
    if opens_at(s, i) {
        lemma_next_close(s, i + 2);
    } else {
        lemma_next_open(s, i + 1);
    }
}

/// Drives a renderer over documents, looking directives up in a catalogue.
pub struct Replacer<'a, R: Renderer> {
    renderer: R,
    resolver: &'a Resolver,
}

impl<'a, R: Renderer> Replacer<'a, R> {
    /// The renderer, as it stands.
    pub closed spec fn renderer(&self) -> R {
        self.renderer
    }

    /// The catalogue that directives are looked up in.
    pub closed spec fn catalogue(&self) -> Resolver {
        *self.resolver
    }

    /// A replacer that renders with `renderer` against `resolver`.
    pub fn new(renderer: R, resolver: &'a Resolver) -> (r: Self)
        ensures
            r.renderer() == renderer,
            r.catalogue() == *resolver,
    {
        Replacer { renderer, resolver }
    }

    /// Scans `input` once, left to right: literal text is passed through,
    /// each directive replaced by what it names; see [`scan`].
    pub fn replace(&mut self, input: String)
        requires
            old(self).renderer().inv(),
            old(self).catalogue().wf(),
        ensures
            final(self).renderer().inv(),
            final(self).catalogue() == old(self).catalogue(),
            final(self).renderer().simplifies() == old(self).renderer().simplifies(),
            final(self).renderer().base() == old(self).renderer().base(),
            final(self).renderer().emitted() == old(self).renderer().emitted() + scan(
                old(self).catalogue(),
                input@,
                0,
                old(self).renderer().simplifies(),
            ),
    {
        let cs = chars_of(input.as_str());
        let n = cs.len();
        let ghost start = self.renderer.emitted();
        let ghost simp = self.renderer.simplifies();
        let ghost r = *self.resolver;
        let mut i: usize = 0;
        while i < n
            invariant
                cs@ == input@,
                n == cs@.len(),
                i <= n,
                self.renderer.inv(),
                self.resolver.wf(),
                *self.resolver == r,
                self.renderer.simplifies() == simp,
                self.renderer.base() == old(self).renderer().base(),
                self.renderer.emitted() + scan(r, cs@, i as int, simp) == start + scan(
                    r,
                    cs@,
                    0,
                    simp,
                ),
            decreases n - i,
        {
            let ghost before = self.renderer.emitted();
            let next = if i + 1 < n && cs[i] == '<' && cs[i + 1] == '%' {
                self.parse_token(&cs, i)
            } else {
                self.parse_static(&cs, i)
            };
            proof {
                lemma_step_advances(cs@, i as int);
                assert(self.renderer.emitted() + scan(r, cs@, next as int, simp) =~= before + scan(
                    r,
                    cs@,
                    i as int,
                    simp,
                ));
            }
            i = next;
        }
        assert(self.renderer.emitted() =~= self.renderer.emitted() + scan(r, cs@, i as int, simp));
    }

    /// Handles the directive that opens at `i`; returns where the scan goes on.
    fn parse_token(&mut self, cs: &Vec<char>, i: usize) -> (next: usize)
        requires
            opens_at(cs@, i as int),
            old(self).renderer().inv(),
            old(self).catalogue().wf(),
        ensures
            next == step_end(cs@, i as int),
            final(self).renderer().inv(),
            final(self).catalogue() == old(self).catalogue(),
            final(self).renderer().simplifies() == old(self).renderer().simplifies(),
            final(self).renderer().base() == old(self).renderer().base(),
            final(self).renderer().emitted() == old(self).renderer().emitted() + step_emissions(
                old(self).catalogue(),
                cs@,
                i as int,
                old(self).renderer().simplifies(),
            ),
    {
        let n = cs.len();
        let mut c: usize = i + 2;
        while n - c >= 2 && !(cs[c] == '%' && cs[c + 1] == '>')
            invariant
                i + 2 <= c <= n,
                n == cs@.len(),
                next_close(cs@, c as int) == next_close(cs@, i + 2),
            decreases n - c,
        {
            c = c + 1;
        }
        if n - c < 2 {
            let rest = string_of(cs, i, n);
            self.renderer.render_text(rest.as_str());
            return n;
        }
        let raw = string_of(cs, i + 2, c);
        let ghost rawv = cs@.subrange(i + 2, c as int);
        let rc = chars_of(raw.as_str());
        let len = rc.len();
        let mut a: usize = 0;
        while a < len && is_white(rc[a])
            invariant
                a <= len,
                len == rc@.len(),
                rc@ == rawv,
                skip_white_start(rawv, a as int, len as int) == skip_white_start(rawv, 0, len as int),
            decreases len - a,
        {
            a = a + 1;
        }
        let mut e: usize = len;
        while e > a && is_white(rc[e - 1])
            invariant
                a <= e <= len,
                len == rc@.len(),
                rc@ == rawv,
                skip_white_end(rawv, a as int, e as int) == skip_white_end(rawv, a as int, len as int),
            decreases e,
        {
            e = e - 1;
        }
        let mut sp: usize = a;
        while sp < e && rc[sp] != ' '
            invariant
                a <= sp <= e <= len,
                len == rc@.len(),
                rc@ == rawv,
                first_space(rawv, sp as int, e as int) == first_space(rawv, a as int, e as int),
            decreases e - sp,
        {
            sp = sp + 1;
        }
        let options = if sp < e {
            let text = string_of(&rc, sp + 1, e);
            ReplaceOptions::parse_or_default(text.as_str())
        } else {
            ReplaceOptions::default()
        };
        let path_text = string_of(&rc, a, sp);
        let path = ModulePath::parse(path_text.as_str());
        let found = match self.resolver.resolve_absolute(&path) {
            Some(info) => Some(info),
            None => self.resolver.resolve_shorthand(path_text.as_str()),
        };
        match found {
            Some(info) => {
                self.renderer.render_element(info, options);
            },
            None => {
                let mut text = "<%".to_owned();
                text.append(raw.as_str());
                text.append("%>");
                self.renderer.render_text(text.as_str());
            },
        }
        c + 2
    }

    /// Passes on the literal text at `i`, up to the next `<%` or the end;
    /// returns where the scan goes on.
    fn parse_static(&mut self, cs: &Vec<char>, i: usize) -> (next: usize)
        requires
            i < cs@.len(),
            !opens_at(cs@, i as int),
            old(self).renderer().inv(),
        ensures
            next == step_end(cs@, i as int),
            final(self).renderer().inv(),
            final(self).catalogue() == old(self).catalogue(),
            final(self).renderer().simplifies() == old(self).renderer().simplifies(),
            final(self).renderer().base() == old(self).renderer().base(),
            final(self).renderer().emitted() == old(self).renderer().emitted() + step_emissions(
                old(self).catalogue(),
                cs@,
                i as int,
                old(self).renderer().simplifies(),
            ),
    {
        let n = cs.len();
        let mut e: usize = i + 1;
        while e < n && !(e + 1 < n && cs[e] == '<' && cs[e + 1] == '%')
            invariant
                i < e <= n,
                n == cs@.len(),
                next_open(cs@, e as int) == next_open(cs@, i + 1),
            decreases n - e,
        {
            e = e + 1;
        }
        let text = string_of(cs, i, e);
        self.renderer.render_text(text.as_str());
        e
    }

    /// Hands back the renderer.
    pub fn finish(self) -> (r: R)
        ensures
            r == self.renderer(),
    {
        self.renderer
    }
}

/// A document without directives is passed through whole: the scan emits it
/// as one piece of text, or nothing when it is empty.
pub proof fn lemma_scan_plain(r: Resolver, s: Seq<char>, simplify: bool)
    requires
        forall|k: int| 0 <= k < s.len() ==> !opens_at(s, k),
    ensures
        s.len() > 0 ==> scan(r, s, 0, simplify) == seq![Emission::Text(s)],
        s.len() == 0 ==> scan(r, s, 0, simplify) == Seq::<Emission>::empty(),
{
    if s.len() > 0 {
        lemma_next_open(s, 1);
        assert(next_open(s, 1) == s.len());
        assert(s.subrange(0, s.len() as int) =~= s);
        assert(scan(r, s, s.len() as int, simplify) =~= Seq::<Emission>::empty());
        assert(scan(r, s, 0, simplify) =~= seq![Emission::Text(s)]);
    }
}

/// A document that is one directive naming nothing in the catalogue comes
/// out unchanged, as one piece of text.
pub proof fn lemma_scan_unknown_directive(r: Resolver, raw: Seq<char>, simplify: bool)
    requires
        forall|k: int| 0 <= k < raw.len() - 1 ==> !(#[trigger] raw[k] == '%' && raw[k + 1] == '>'),
        directive_target(r, raw) is None,
    ensures
        scan(r, "<%"@ + raw + "%>"@, 0, simplify) == seq![Emission::Text("<%"@ + raw + "%>"@)],
{
    reveal_strlit("<%");
    reveal_strlit("%>");
    let s = "<%"@ + raw + "%>"@;
    let c = raw.len() + 2int;
    assert forall|j: int| 2 <= j <= c implies next_close(s, j) == Some(c) by {
        lemma_close_from(s, j, c);
    }
    assert(s.subrange(2, c) =~= raw);
    assert(scan(r, s, c + 2, simplify) =~= Seq::<Emission>::empty());
    assert(scan(r, s, 0, simplify) =~= seq![Emission::Text("<%"@ + raw + "%>"@)]);
}

proof fn lemma_close_from(s: Seq<char>, j: int, c: int)
    requires
        0 <= j <= c,
        closes_at(s, c),
        forall|k: int| j <= k < c ==> !closes_at(s, k),
    ensures
        next_close(s, j) == Some(c),
    decreases c - j,
{
    if j < c {
        lemma_close_from(s, j + 1, c);
    }
}

} // verus!
