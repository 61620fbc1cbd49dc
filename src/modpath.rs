//! Logical locations in the module tree.
use vstd::prelude::*;

use crate::text::{
    append_without_raw_marker, chars_of, joined, same_text, string_of, without_raw_marker,
};

verus! {

/// An ordered sequence of module names; the empty path is the tree root.
#[derive(Debug, Clone, Hash, PartialEq, Eq)]
pub struct ModulePath {
    segments: Vec<String>,
}

/// The segments of `s` as separated by `::`, scanning from `i`, where the
/// current segment started at `start`.
pub open spec fn split_from(s: Seq<char>, start: int, i: int) -> Seq<Seq<char>>
    decreases s.len() - i,
{
    if i >= s.len() {
        seq![s.subrange(start, s.len() as int)]
    } else if i + 1 < s.len() && s[i] == ':' && s[i + 1] == ':' {
        seq![s.subrange(start, i)] + split_from(s, i + 2, i + 2)
    } else {
        split_from(s, start, i + 1)
    }
}

/// The segments of a `::`-separated textual path.
pub open spec fn split_path(s: Seq<char>) -> Seq<Seq<char>> {
    split_from(s, 0, 0)
}

/// The file that holds a module's declarations: the entry file for the
/// root; for any other module, given whether its directory-style index file
/// `<base>/<segments>/mod.rs` exists, that index file or else the file named
/// after its last segment beside its parent.
pub open spec fn module_file(
    segs: Seq<Seq<char>>,
    base: Seq<char>,
    entry_file: Seq<char>,
    index_exists: bool,
) -> Seq<char> {
    if segs.len() == 0 {
        base + seq!['/'] + entry_file
    } else if index_exists {
        index_file(segs, base)
    } else {
        path_under(base, segs.drop_last()) + seq!['/'] + without_raw_marker(segs.last())
            + ".rs"@
    }
}

/// `base` followed by each segment, each after a `/`.
pub open spec fn path_under(base: Seq<char>, segs: Seq<Seq<char>>) -> Seq<char>
    decreases segs.len(),
{
    if segs.len() == 0 {
        base
    } else {
        path_under(base, segs.drop_last()) + seq!['/'] + segs.last()
    }
}

/// The directory-style index file candidate of a module.
pub open spec fn index_file(segs: Seq<Seq<char>>, base: Seq<char>) -> Seq<char> {
    path_under(base, segs) + "/mod.rs"@
}

impl View for ModulePath {
    type V = Seq<Seq<char>>;

    closed spec fn view(&self) -> Seq<Seq<char>> {
        self.segments@.map_values(|s: String| s@)
    }
}

fn push_slash(out: &mut String)
    ensures
        final(out)@ == old(out)@ + seq!['/'],
{
    crate::text::push_char(out, '/');
}

impl ModulePath {
    /// The root path.
    pub fn new() -> (r: ModulePath)
        ensures
            r@ == Seq::<Seq<char>>::empty(),
    {
        let r = ModulePath { segments: Vec::new() };
        assert(r@ =~= Seq::<Seq<char>>::empty());
        r
    }

    /// This path with `segment` appended; `self` is left as it is.
    pub fn join(&self, segment: &str) -> (r: ModulePath)
        ensures
            r@ == self@.push(segment@),
    {
        let mut new = self.clone_path();
        new.push(segment.to_owned());
        new
    }

    /// A copy of this path.
    pub fn clone_path(&self) -> (r: ModulePath)
        ensures
            r@ == self@,
    {
        let mut segments: Vec<String> = Vec::new();
        let mut i: usize = 0;
        while i < self.segments.len()
            invariant
                i <= self.segments@.len(),
                segments@.map_values(|s: String| s@) == self@.subrange(0, i as int),
            decreases self.segments.len() - i,
        {
            let seg = self.segments[i].clone();
            assert(seg@ == self@[i as int]);
            let ghost before = segments@.map_values(|s: String| s@);
            segments.push(seg);
            assert(segments@.map_values(|s: String| s@) =~= before.push(seg@));
            assert(self@.subrange(0, i as int + 1) =~= self@.subrange(0, i as int).push(
                self@[i as int],
            ));
            i = i + 1;
        }
        let r = ModulePath { segments };
        assert(r@ =~= self@);
        r
    }

    /// Appends `segment` in place.
    pub fn push(&mut self, segment: String)
        ensures
            final(self)@ == old(self)@.push(segment@),
    {
        self.segments.push(segment);
        assert(self@ =~= old(self)@.push(segment@));
    }

    /// Drops the last segment; the root stays the root.
    pub fn pop(&mut self)
        ensures
            final(self)@ == if old(self)@.len() > 0 {
                old(self)@.drop_last()
            } else {
                old(self)@
            },
    {
        if self.segments.len() > 0 {
            self.segments.pop();
            assert(self@ =~= old(self)@.drop_last());
        }
    }

    /// The enclosing path; the root is its own parent.
    pub fn parent(&self) -> (r: ModulePath)
        ensures
            r@ == if self@.len() > 0 {
                self@.drop_last()
            } else {
                self@
            },
    {
        let mut parent = self.clone_path();
        parent.pop();
        parent
    }

    /// The last segment, if any.
    pub fn element(&self) -> (r: Option<&str>)
        ensures
            r is Some <==> self@.len() > 0,
            r is Some ==> r->0@ == self@.last(),
    {
        let n = self.segments.len();
        if n > 0 {
            Some(self.segments[n - 1].as_str())
        } else {
            None
        }
    }

    /// The path written out with `::` between segments; [`ModulePath::parse`]
    /// reads it back.
    pub fn to_string(&self) -> (r: String)
        ensures
            r@ == joined(self@, "::"@),
    {
        let mut out = String::new();
        let mut i: usize = 0;
        while i < self.segments.len()
            invariant
                i <= self@.len(),
                out@ == joined(self@.subrange(0, i as int), "::"@),
            decreases self.segments.len() - i,
        {
            if i > 0 {
                out.append("::");
            }
            out.append(self.segments[i].as_str());
            proof {
                let next = self@.subrange(0, i as int + 1);
                assert(next.drop_last() =~= self@.subrange(0, i as int));
                if i == 0 {
                    assert(out@ =~= next[0]);
                }
            }
            i = i + 1;
        }
        assert(self@.subrange(0, i as int) =~= self@);
        out
    }

    /// Whether both paths hold the same segments.
    pub fn same_as(&self, other: &ModulePath) -> (r: bool)
        ensures
            r == (self@ == other@),
    {
        if self.segments.len() != other.segments.len() {
            return false;
        }
        let mut i: usize = 0;
        while i < self.segments.len()
            invariant
                self@.len() == other@.len(),
                i <= self@.len(),
                forall|j: int| 0 <= j < i ==> self@[j] == other@[j],
            decreases self.segments.len() - i,
        {
            if !same_text(self.segments[i].as_str(), other.segments[i].as_str()) {
                assert(self@[i as int] != other@[i as int]);
                return false;
            }
            i = i + 1;
        }
        assert(self@ =~= other@);
        true
    }

    /// The number of segments.
    pub fn len(&self) -> (r: usize)
        ensures
            r == self@.len(),
    {
        self.segments.len()
    }

    /// Reads a `::`-separated path such as `shapes::Circle`.
    pub fn parse(value: &str) -> (r: ModulePath)
        ensures
            r@ == split_path(value@),
    {
        let cs = chars_of(value);
        let n = cs.len();
        let mut segments: Vec<String> = Vec::new();
        let mut start: usize = 0;
        let mut i: usize = 0;
        while i < n
            invariant
                cs@ == value@,
                n == cs@.len(),
                start <= i <= n,
                segments@.map_values(|s: String| s@) + split_from(cs@, start as int, i as int)
                    == split_path(value@),
            decreases n - i,
        {
            if i + 1 < n && cs[i] == ':' && cs[i + 1] == ':' {
                let ghost before = segments@.map_values(|s: String| s@);
                segments.push(string_of(&cs, start, i));
                assert(segments@.map_values(|s: String| s@) =~= before + seq![
                    cs@.subrange(start as int, i as int),
                ]);
                i = i + 2;
                start = i;
            } else {
                i = i + 1;
            }
        }
        let ghost before = segments@.map_values(|s: String| s@);
        segments.push(string_of(&cs, start, n));
        assert(segments@.map_values(|s: String| s@) =~= before + seq![
            cs@.subrange(start as int, n as int),
        ]);
        ModulePath { segments }
    }

    /// The directory-style index file that would hold this module:
    /// `<base>/<segments>/mod.rs`.
    pub fn index_path(&self, base_path: &str) -> (r: String)
        ensures
            r@ == index_file(self@, base_path@),
    {
        let mut out = base_path.to_owned();
        self.append_segments(&mut out, self.segments.len());
        assert(self@.subrange(0, self@.len() as int) =~= self@);
        out.append("/mod.rs");
        out
    }

    /// The file that holds this module's declarations under `base_path`.
    /// The root is `entry_file`. For any other module a directory-style
    /// module (its index file exists) takes precedence; otherwise it is the
    /// file named after its last segment, without `r#`, beside its parent.
    pub fn as_path(&self, base_path: &str, entry_file: &str, index_exists: bool) -> (r: String)
        ensures
            r@ == module_file(self@, base_path@, entry_file@, index_exists),
    {
        let n = self.segments.len();
        if n > 0 && index_exists {
            return self.index_path(base_path);
        }
        let mut out = base_path.to_owned();
        if n == 0 {
            push_slash(&mut out);
            out.append(entry_file);
        } else {
            self.append_segments(&mut out, n - 1);
            assert(self@.subrange(0, n - 1) =~= self@.drop_last());
            push_slash(&mut out);
            append_without_raw_marker(&mut out, self.segments[n - 1].as_str());
            out.append(".rs");
        }
        out
    }

    fn append_segments(&self, out: &mut String, upto: usize)
        requires
            upto <= self@.len(),
        ensures
            final(out)@ == path_under(old(out)@, self@.subrange(0, upto as int)),
    {
        let mut i: usize = 0;
        while i < upto
            invariant
                upto <= self@.len(),
                i <= upto,
                out@ == path_under(old(out)@, self@.subrange(0, i as int)),
            decreases upto - i,
        {
            push_slash(out);
            out.append(self.segments[i].as_str());
            assert(self@.subrange(0, i as int + 1).drop_last() =~= self@.subrange(0, i as int));
            i = i + 1;
        }
    }
}

} // verus!
