//! The catalogue of declarations, keyed by module path, and lookups in it.
use vstd::prelude::*;

use crate::model::{FileInfo, Info};
use crate::modpath::ModulePath;
use crate::text::same_text;

verus! {

/// Holds every module reached from the entry file, each with the
/// declarations found directly in it.
pub struct Resolver {
    /// The entry file's name (`main.rs` or `lib.rs`).
    entry_file: String,
    /// The directory that holds the entry file.
    entry_path: String,
    /// Each visited module with its declarations; no path occurs twice.
    modules: Vec<(ModulePath, FileInfo)>,
}

/// The index of the first declaration in `es[i..]` named `name`.
pub open spec fn first_named_from(es: Seq<Info>, name: Seq<char>, i: int) -> Option<int>
    decreases es.len() - i,
{
    if i < 0 || i >= es.len() {
        None
    } else if es[i].name@ == name {
        Some(i)
    } else {
        first_named_from(es, name, i + 1)
    }
}

/// The index of the first declaration in `es` named `name`.
pub open spec fn first_named(es: Seq<Info>, name: Seq<char>) -> Option<int> {
    first_named_from(es, name, 0)
}

/// Whether some declaration in `es` is named `name`.
pub open spec fn declares(es: Seq<Info>, name: Seq<char>) -> bool {
    exists|i: int| 0 <= i < es.len() && es[i].name@ == name
}

impl Resolver {
    /// No module path is stored twice.
    pub open spec fn wf(&self) -> bool {
        forall|i: int, j: int|
            0 <= i < j < self.entries().len() ==> self.entries()[i].0@ != self.entries()[j].0@
    }

    /// The directory that holds the entry file.
    pub closed spec fn entry_dir(&self) -> Seq<char> {
        self.entry_path@
    }

    /// The entry file's name.
    pub closed spec fn entry_name(&self) -> Seq<char> {
        self.entry_file@
    }

    /// The stored modules, in the order they were added.
    pub closed spec fn entries(&self) -> Seq<(ModulePath, FileInfo)> {
        self.modules@
    }

    /// Whether `p` is a visited module.
    pub open spec fn has_module(&self, p: Seq<Seq<char>>) -> bool {
        exists|k: int| 0 <= k < self.entries().len() && self.entries()[k].0@ == p
    }

    /// The declarations of visited module `p`.
    pub open spec fn module_elements(&self, p: Seq<Seq<char>>) -> Seq<Info> {
        let k = choose|k: int| 0 <= k < self.entries().len() && self.entries()[k].0@ == p;
        self.entries()[k].1.elements@
    }

    /// The declaration that the absolute path `p` names: the first
    /// declaration named after the last segment in the module that the other
    /// segments name, if that module was visited.
    pub open spec fn absolute(&self, p: Seq<Seq<char>>) -> Option<Info> {
        if p.len() == 0 || !self.has_module(p.drop_last()) {
            None
        } else {
            match first_named(self.module_elements(p.drop_last()), p.last()) {
                Some(i) => Some(self.module_elements(p.drop_last())[i]),
                None => None,
            }
        }
    }

    /// The indices, among the first `n` stored modules, of those that declare `name`.
    pub open spec fn holders(&self, name: Seq<char>, n: int) -> Seq<int>
        decreases n,
    {
        if n <= 0 || n > self.entries().len() {
            Seq::empty()
        } else if declares(self.entries()[n - 1].1.elements@, name) {
            self.holders(name, n - 1).push(n - 1)
        } else {
            self.holders(name, n - 1)
        }
    }

    /// The declaration that a bare `name` stands for: found only where
    /// exactly one module declares it.
    pub open spec fn shorthand(&self, name: Seq<char>) -> Option<Info> {
        let hs = self.holders(name, self.entries().len() as int);
        if hs.len() == 1 {
            self.absolute(self.entries()[hs[0]].0@.push(name))
        } else {
            None
        }
    }

    /// An empty catalogue for the project whose entry file is
    /// `<entry_path>/<entry_file>`.
    pub fn new(entry_path: String, entry_file: String) -> (r: Resolver)
        ensures
            r.wf(),
            r.entries().len() == 0,
            r.entry_dir() == entry_path@,
            r.entry_name() == entry_file@,
    {
        Resolver { entry_file, entry_path, modules: Vec::new() }
    }

    /// The directory that holds the entry file.
    pub fn entry_path(&self) -> (r: &String)
        ensures
            r@ == self.entry_dir(),
    {
        &self.entry_path
    }

    /// The entry file's name.
    pub fn entry_file(&self) -> (r: &String)
        ensures
            r@ == self.entry_name(),
    {
        &self.entry_file
    }

    /// The file that holds the declarations of `path`; see [`ModulePath::as_path`].
    pub fn module_file_path(&self, path: &ModulePath, index_exists: bool) -> (r: String)
        ensures
            r@ == crate::modpath::module_file(
                path@,
                self.entry_dir(),
                self.entry_name(),
                index_exists,
            ),
    {
        path.as_path(self.entry_path.as_str(), self.entry_file.as_str(), index_exists)
    }

    fn position(&self, path: &ModulePath) -> (r: Option<usize>)
        ensures
            r is Some <==> self.has_module(path@),
            r is Some ==> r->0 < self.entries().len() && self.entries()[r->0 as int].0@ == path@,
    {
        let mut k: usize = 0;
        while k < self.modules.len()
            invariant
                k <= self.modules@.len(),
                forall|j: int| 0 <= j < k ==> self.modules@[j].0@ != path@,
            decreases self.modules.len() - k,
        {
            if self.modules[k].0.same_as(path) {
                assert(self.entries()[k as int].0@ == path@);
                return Some(k);
            }
            k = k + 1;
        }
        None
    }

    /// Whether `path` was visited.
    pub fn contains(&self, path: &ModulePath) -> (r: bool)
        ensures
            r == self.has_module(path@),
    {
        self.position(path).is_some()
    }

    /// Records the declarations of a module that was not visited yet.
    pub fn insert_module(&mut self, path: ModulePath, info: FileInfo)
        requires
            old(self).wf(),
            !old(self).has_module(path@),
        ensures
            final(self).wf(),
            final(self).entries() == old(self).entries().push((path, info)),
            final(self).entry_dir() == old(self).entry_dir(),
            final(self).entry_name() == old(self).entry_name(),
    {
        self.modules.push((path, info));
        proof {
            let n = old(self).entries().len() as int;
            assert forall|i: int, j: int| 0 <= i < j < self.entries().len() implies self.entries()[i].0@
                != self.entries()[j].0@ by {
                if j == n {
                    assert(old(self).entries()[i].0@ != path@);
                } else {
                    assert(old(self).entries()[i] == self.entries()[i]);
                }
            }
        }
    }

    /// The declaration that the absolute path `path` names, if any; a path
    /// whose module was never visited, or that has no such declaration, is
    /// simply not found.
    pub fn resolve_absolute(&self, path: &ModulePath) -> (r: Option<&Info>)
        requires
            self.wf(),
        ensures
            r is Some <==> self.absolute(path@) is Some,
            r is Some ==> *r->0 == self.absolute(path@)->0,
    {
        let parent = path.parent();
        match path.element() {
            None => None,
            Some(element) => match self.position(&parent) {
                None => None,
                Some(k) => {
                    proof {
                        self.lemma_module_elements(k as int);
                    }
                    find_named(&self.modules[k].1.elements, element)
                },
            },
        }
    }

    /// The declaration named `element` if exactly one visited module declares
    /// a declaration of that name; none when no module or several do.
    pub fn resolve_shorthand(&self, element: &str) -> (r: Option<&Info>)
        requires
            self.wf(),
        ensures
            r is Some <==> self.shorthand(element@) is Some,
            r is Some ==> *r->0 == self.shorthand(element@)->0,
    {
        let mut found: Option<&Info> = None;
        let mut count: usize = 0;
        let ghost mut first: int = 0;
        let mut k: usize = 0;
        while k < self.modules.len()
            invariant
                self.wf(),
                k <= self.modules@.len(),
                count as int == self.holders(element@, k as int).len(),
                count <= k,
                count > 0 ==> first == self.holders(element@, k as int)[0] && 0 <= first < k,
                count > 0 ==> found is Some && *found->0 == self.entries()[first].1.elements@[
                    first_named(self.entries()[first].1.elements@, element@)->0
                ] && first_named(self.entries()[first].1.elements@, element@) is Some,
            decreases self.modules.len() - k,
        {
            let hit = find_named(&self.modules[k].1.elements, element);
            proof {
                lemma_first_named_declares(self.modules@[k as int].1.elements@, element@);
            }
            if hit.is_some() {
                if count == 0 {
                    found = hit;
                    proof {
                        first = k as int;
                    }
                }
                count = count + 1;
            }
            k = k + 1;
        }
        if count == 1 {
            proof {
                let p = self.entries()[first].0@;
                assert(p.push(element@).drop_last() =~= p);
                self.lemma_module_elements(first);
            }
            found
        } else {
            None
        }
    }

    proof fn lemma_module_elements(&self, k: int)
        requires
            self.wf(),
            0 <= k < self.entries().len(),
        ensures
            self.has_module(self.entries()[k].0@),
            self.module_elements(self.entries()[k].0@) == self.entries()[k].1.elements@,
    {
        let p = self.entries()[k].0@;
        let j = choose|j: int| 0 <= j < self.entries().len() && self.entries()[j].0@ == p;
        assert(j == k) by {
            if j < k {
                assert(self.modules@[j].0@ != self.modules@[k].0@);
            } else if k < j {
                assert(self.modules@[k].0@ != self.modules@[j].0@);
            }
        }
    }
}

/// Once the catalogue is built, looking up any declaration by its true path
/// (its module's path followed by its name) gives back that declaration.
/// Where one module holds two declarations of one name, the first of them is
/// the one found, so the law speaks of a declaration that no earlier one in
/// its module shares a name with.
pub proof fn lemma_absolute_round_trip(r: &Resolver, k: int, i: int)
    requires
        r.wf(),
        0 <= k < r.entries().len(),
        0 <= i < r.entries()[k].1.elements@.len(),
        forall|j: int|
            0 <= j < i ==> r.entries()[k].1.elements@[j].name@
                != r.entries()[k].1.elements@[i].name@,
    ensures
        r.absolute(r.entries()[k].0@.push(r.entries()[k].1.elements@[i].name@)) == Some(
            r.entries()[k].1.elements@[i],
        ),
{
    let es = r.entries()[k].1.elements@;
    let p = r.entries()[k].0@;
    r.lemma_module_elements(k);
    assert(p.push(es[i].name@).drop_last() =~= p);
    lemma_first_named_at(es, es[i].name@, i, 0);
}

proof fn lemma_first_named_at(es: Seq<Info>, name: Seq<char>, i: int, j: int)
    requires
        0 <= j <= i < es.len(),
        es[i].name@ == name,
        forall|m: int| 0 <= m < i ==> es[m].name@ != name,
    ensures
        first_named_from(es, name, j) == Some(i),
    decreases i - j,
{
    if j < i {
        lemma_first_named_at(es, name, i, j + 1);
    }
}

/// A bare name is found only when exactly one stored module declares it:
/// when none does, or two distinct modules do, the lookup misses; when one
/// alone does, it gives what the absolute path through that module gives.
pub proof fn lemma_shorthand_unique(r: &Resolver, name: Seq<char>)
    requires
        r.wf(),
    ensures
        (forall|k: int|
            0 <= k < r.entries().len() ==> !declares(r.entries()[k].1.elements@, name))
            ==> r.shorthand(name) is None,
        (exists|k1: int, k2: int|
            0 <= k1 < r.entries().len() && 0 <= k2 < r.entries().len() && k1 != k2 && declares(
                r.entries()[k1].1.elements@,
                name,
            ) && declares(r.entries()[k2].1.elements@, name)) ==> r.shorthand(name) is None,
        forall|k: int|
            0 <= k < r.entries().len() && declares(r.entries()[k].1.elements@, name) && (forall|
                j: int,
            |
                0 <= j < r.entries().len() && j != k ==> !declares(
                    r.entries()[j].1.elements@,
                    name,
                )) ==> r.shorthand(name) == r.absolute(r.entries()[k].0@.push(name)),
{
    let n = r.entries().len() as int;
    if forall|k: int| 0 <= k < n ==> !declares(r.entries()[k].1.elements@, name) {
        lemma_shorthand_absent(r, name);
    }
    if exists|k1: int, k2: int|
        0 <= k1 < n && 0 <= k2 < n && k1 != k2 && declares(r.entries()[k1].1.elements@, name)
            && declares(r.entries()[k2].1.elements@, name) {
        let (k1, k2) = choose|k1: int, k2: int|
            0 <= k1 < n && 0 <= k2 < n && k1 != k2 && declares(r.entries()[k1].1.elements@, name)
                && declares(r.entries()[k2].1.elements@, name);
        lemma_shorthand_ambiguous(r, name, k1, k2);
    }
    assert forall|k: int|
        0 <= k < n && declares(r.entries()[k].1.elements@, name) && (forall|j: int|
            0 <= j < n && j != k ==> !declares(r.entries()[j].1.elements@, name)) implies r.shorthand(
        name,
    ) == r.absolute(r.entries()[k].0@.push(name)) by {
        lemma_shorthand_single(r, name, k);
    }
}

proof fn lemma_shorthand_absent(r: &Resolver, name: Seq<char>)
    requires
        forall|k: int|
            0 <= k < r.entries().len() ==> !declares(r.entries()[k].1.elements@, name),
    ensures
        r.shorthand(name) is None,
{
    let n = r.entries().len() as int;
    r.lemma_holders(name, n);
    let hs = r.holders(name, n);
    if hs.len() > 0 {
        assert(declares(r.entries()[hs[0]].1.elements@, name));
    }
}

proof fn lemma_shorthand_ambiguous(r: &Resolver, name: Seq<char>, k1: int, k2: int)
    requires
        0 <= k1 < r.entries().len(),
        0 <= k2 < r.entries().len(),
        k1 != k2,
        declares(r.entries()[k1].1.elements@, name),
        declares(r.entries()[k2].1.elements@, name),
    ensures
        r.shorthand(name) is None,
{
    let n = r.entries().len() as int;
    r.lemma_holders(name, n);
    let hs = r.holders(name, n);
    assert(hs.contains(k1));
    assert(hs.contains(k2));
}

proof fn lemma_shorthand_single(r: &Resolver, name: Seq<char>, k: int)
    requires
        0 <= k < r.entries().len(),
        declares(r.entries()[k].1.elements@, name),
        forall|j: int|
            0 <= j < r.entries().len() && j != k ==> !declares(r.entries()[j].1.elements@, name),
    ensures
        r.shorthand(name) == r.absolute(r.entries()[k].0@.push(name)),
{
    let n = r.entries().len() as int;
    r.lemma_holders(name, n);
    let hs = r.holders(name, n);
    assert(hs.contains(k));
    if hs.len() >= 2 {
        assert(hs[0] < hs[1]);
        assert(declares(r.entries()[hs[0]].1.elements@, name));
        assert(declares(r.entries()[hs[1]].1.elements@, name));
    }
    assert(hs[0] == k);
}

impl Resolver {
    proof fn lemma_holders(&self, name: Seq<char>, n: int)
        requires
            0 <= n <= self.entries().len(),
        ensures
            forall|m: int|
                0 <= m < self.holders(name, n).len() ==> 0 <= self.holders(name, n)[m] < n
                    && declares(self.entries()[self.holders(name, n)[m]].1.elements@, name),
            forall|m1: int, m2: int|
                0 <= m1 < m2 < self.holders(name, n).len() ==> self.holders(name, n)[m1]
                    < self.holders(name, n)[m2],
            forall|k: int|
                0 <= k < n && declares(self.entries()[k].1.elements@, name) ==> self.holders(
                    name,
                    n,
                ).contains(k),
        decreases n,
    {
        if n > 0 {
            self.lemma_holders(name, n - 1);
            let prev = self.holders(name, n - 1);
            if declares(self.entries()[n - 1].1.elements@, name) {
                assert(self.holders(name, n) == prev.push(n - 1));
                assert forall|k: int|
                    0 <= k < n && declares(self.entries()[k].1.elements@, name) implies self.holders(
                    name,
                    n,
                ).contains(k) by {
                    if k < n - 1 {
                        assert(prev.contains(k));
                        let m = choose|m: int| 0 <= m < prev.len() && prev[m] == k;
                        assert(self.holders(name, n)[m] == k);
                    } else {
                        assert(self.holders(name, n)[prev.len() as int] == k);
                    }
                }
            }
        }
    }
}

proof fn lemma_first_named_declares(es: Seq<Info>, name: Seq<char>)
    ensures
        first_named(es, name) is Some <==> declares(es, name),
        first_named(es, name) is Some ==> 0 <= first_named(es, name)->0 < es.len(),
{
    lemma_first_named_from(es, name, 0);
}

proof fn lemma_first_named_from(es: Seq<Info>, name: Seq<char>, i: int)
    requires
        0 <= i,
    ensures
        first_named_from(es, name, i) is Some <==> exists|j: int|
            i <= j < es.len() && es[j].name@ == name,
        first_named_from(es, name, i) is Some ==> i <= first_named_from(es, name, i)->0 < es.len()
            && es[first_named_from(es, name, i)->0].name@ == name,
    decreases es.len() - i,
{
    if i < es.len() && es[i].name@ != name {
        lemma_first_named_from(es, name, i + 1);
        if exists|j: int| i <= j < es.len() && es[j].name@ == name {
            let j = choose|j: int| i <= j < es.len() && es[j].name@ == name;
            assert(i + 1 <= j);
        }
    }
}

/// The first declaration in `es` named `name`.
fn find_named<'a>(es: &'a Vec<Info>, name: &str) -> (r: Option<&'a Info>)
    ensures
        r is Some <==> first_named(es@, name@) is Some,
        r is Some ==> *r->0 == es@[first_named(es@, name@)->0],
{
    let mut i: usize = 0;
    while i < es.len()
        invariant
            i <= es@.len(),
            first_named_from(es@, name@, i as int) == first_named(es@, name@),
        decreases es.len() - i,
    {
        if same_text(es[i].name.as_str(), name) {
            return Some(&es[i]);
        }
        i = i + 1;
    }
    None
}

} // verus!

verus! {

/// Whether `p` is among the paths in `q`.
pub open spec fn in_queue(q: Seq<ModulePath>, p: Seq<Seq<char>>) -> bool {
    exists|i: int| 0 <= i < q.len() && q[i]@ == p
}

proof fn lemma_in_queue_push(q: Seq<ModulePath>, m: ModulePath)
    ensures
        forall|p: Seq<Seq<char>>|
            #[trigger] in_queue(q.push(m), p) <==> (in_queue(q, p) || p == m@),
{
    assert forall|p: Seq<Seq<char>>| #[trigger] in_queue(q.push(m), p) <==> (in_queue(q, p) || p
        == m@) by {
        if in_queue(q.push(m), p) {
            let i = choose|i: int| 0 <= i < q.push(m).len() && q.push(m)[i]@ == p;
            if i < q.len() {
                assert(q[i]@ == p);
            }
        }
        if in_queue(q, p) {
            let i = choose|i: int| 0 <= i < q.len() && q[i]@ == p;
            assert(q.push(m)[i]@ == p);
        }
        if p == m@ {
            assert(q.push(m)[q.len() as int]@ == p);
        }
    }
}

proof fn lemma_insert_keeps(a: &Resolver, b: &Resolver, x: (ModulePath, FileInfo))
    requires
        b.entries() == a.entries().push(x),
    ensures
        forall|p: Seq<Seq<char>>| #[trigger] b.has_module(p) <==> (a.has_module(p) || p == x.0@),
{
    assert forall|p: Seq<Seq<char>>| #[trigger] b.has_module(p) <==> (a.has_module(p) || p
        == x.0@) by {
        if b.has_module(p) {
            let k = choose|k: int| 0 <= k < b.entries().len() && b.entries()[k].0@ == p;
            if k < a.entries().len() {
                assert(a.entries()[k].0@ == p);
            }
        }
        if a.has_module(p) {
            let k = choose|k: int| 0 <= k < a.entries().len() && a.entries()[k].0@ == p;
            assert(b.entries()[k].0@ == p);
        }
        if p == x.0@ {
            assert(b.entries()[a.entries().len() as int].0@ == p);
        }
    }
}

/// The depth-first walk over the module tree: which module to read next,
/// given what the catalogue already holds. Reading and parsing a module's
/// file is left to the caller, who hands back its declarations and the
/// submodules it declares in other files.
pub struct ResolveWalk {
    /// Modules still to visit, the next one last.
    pending: Vec<ModulePath>,
    /// Every module path met so far: the root and each submodule reference.
    discovered: Ghost<Set<Seq<Seq<char>>>>,
}

impl ResolveWalk {
    /// Every module path met so far.
    pub closed spec fn discovered(&self) -> Set<Seq<Seq<char>>> {
        self.discovered@
    }

    /// Whether `p` waits to be visited.
    pub closed spec fn queued(&self, p: Seq<Seq<char>>) -> bool {
        in_queue(self.pending@, p)
    }

    /// Whether the walk is done.
    pub closed spec fn finished(&self) -> bool {
        self.pending@.len() == 0
    }

    /// Every module waiting to be visited was met.
    pub closed spec fn queue_met(&self) -> bool {
        forall|i: int|
            0 <= i < self.pending@.len() ==> self.discovered@.contains(#[trigger] self.pending@[i]@)
    }

    /// Every module met is in the catalogue or waits to be visited, but for
    /// `except` where given, the module being read; and only modules met wait.
    pub open spec fn covers(&self, r: &Resolver, except: Option<Seq<Seq<char>>>) -> bool {
        &&& self.queue_met()
        &&& forall|p: Seq<Seq<char>>|
            #[trigger] self.discovered().contains(p) ==> r.has_module(p) || self.queued(p)
                || except == Some(p)
    }

    /// A walk that starts at the root module.
    pub fn new() -> (w: ResolveWalk)
        ensures
            w.discovered() == Set::<Seq<Seq<char>>>::empty().insert(Seq::empty()),
            forall|r: &Resolver| w.covers(r, None),
    {
        let root = ModulePath::new();
        let ghost d = Set::<Seq<Seq<char>>>::empty().insert(root@);
        let mut pending: Vec<ModulePath> = Vec::new();
        pending.push(root);
        let w = ResolveWalk { pending, discovered: Ghost(d) };
        assert forall|r: &Resolver| #[trigger] w.covers(r, None) by {
            assert forall|p: Seq<Seq<char>>| #[trigger]
                w.discovered().contains(p) implies r.has_module(p) || w.queued(p) || None::<
                Seq<Seq<char>>,
            > == Some(p) by {
                assert(w.pending@[0]@ == p);
            }
        }
        w
    }

    /// The next module to read: the most recently queued one that the
    /// catalogue does not hold yet. None when the walk is done, and then
    /// every module met is in the catalogue.
    pub fn next(&mut self, r: &Resolver) -> (m: Option<ModulePath>)
        requires
            old(self).covers(r, None),
            r.wf(),
        ensures
            final(self).discovered() == old(self).discovered(),
            m is Some ==> !r.has_module(m->0@) && old(self).discovered().contains(m->0@)
                && final(self).covers(r, Some(m->0@)),
            m is None ==> final(self).finished() && forall|p: Seq<Seq<char>>|
                #[trigger] old(self).discovered().contains(p) ==> r.has_module(p),
    {
        loop
            invariant
                self.covers(r, None),
                self.discovered() == old(self).discovered(),
            decreases self.pending@.len(),
        {
            let ghost before = self.pending@;
            match self.pending.pop() {
                None => {
                    assert forall|p: Seq<Seq<char>>| #[trigger]
                        old(self).discovered().contains(p) implies r.has_module(p) by {
                        assert(!self.queued(p));
                    }
                    return None;
                },
                Some(m) => {
                    proof {
                        assert(before == self.pending@.push(m));
                        assert(before[before.len() - 1] == m);
                        assert(self.discovered@.contains(before[before.len() - 1]@));
                        assert forall|i: int| 0 <= i < self.pending@.len() implies self.discovered@.contains(
                            #[trigger] self.pending@[i]@,
                        ) by {
                            assert(before[i] == self.pending@[i]);
                        }
                        lemma_in_queue_push(self.pending@, m);
                    }
                    if !r.contains(&m) {
                        return Some(m);
                    }
                },
            }
        }
    }

    /// Records a module that [`ResolveWalk::next`] handed out: its
    /// declarations go into the catalogue, and the submodules it declares
    /// are queued so that the first of them is visited next.
    pub fn record(
        &mut self,
        r: &mut Resolver,
        path: ModulePath,
        info: FileInfo,
        submodules: Vec<ModulePath>,
    )
        requires
            old(r).wf(),
            !old(r).has_module(path@),
            old(self).covers(old(r), Some(path@)),
        ensures
            final(r).wf(),
            final(r).entries() == old(r).entries().push((path, info)),
            final(self).discovered() == old(self).discovered() + submodules@.map_values(
                |m: ModulePath| m@,
            ).to_set(),
            final(self).covers(final(r), None),
    {
        let ghost key = path@;
        let ghost r0 = *old(r);
        let ghost entry = (path, info);
        r.insert_module(path, info);
        proof {
            lemma_insert_keeps(&r0, r, entry);
        }
        let ghost subs = submodules@.map_values(|m: ModulePath| m@);
        let mut subs_left = submodules;
        let ghost d0 = self.discovered@;
        assert forall|p: Seq<Seq<char>>| #[trigger] d0.contains(p) implies r.has_module(p)
            || self.queued(p) by {
            assert(old(self).discovered().contains(p));
        }
        while subs_left.len() > 0
            invariant
                r.wf(),
                subs_left@.len() <= subs.len(),
                forall|i: int|
                    0 <= i < subs_left@.len() ==> #[trigger] subs_left@[i]@ == subs[i],
                forall|x: Seq<Seq<char>>|
                    #[trigger] self.discovered@.contains(x) <==> (d0.contains(x) || exists|k: int|
                        subs_left@.len() <= k < subs.len() && subs[k] == x),
                forall|p: Seq<Seq<char>>|
                    #[trigger] d0.contains(p) ==> r.has_module(p) || self.queued(p),
                forall|k: int| subs_left@.len() <= k < subs.len() ==> self.queued(#[trigger] subs[k]),
                forall|i: int|
                    0 <= i < self.pending@.len() ==> self.discovered@.contains(
                        #[trigger] self.pending@[i]@,
                    ),
            decreases subs_left@.len(),
        {
            let m = subs_left.pop().unwrap();
            let ghost k = subs_left@.len() as int;
            let ghost mv = m@;
            let ghost old_pending = self.pending@;
            self.pending.push(m);
            proof {
                lemma_in_queue_push(old_pending, m);
                assert(mv == subs[k]);
                self.discovered@ = self.discovered@.insert(mv);
                assert forall|i: int| 0 <= i < self.pending@.len() implies self.discovered@.contains(
                    #[trigger] self.pending@[i]@,
                ) by {
                    if i < old_pending.len() {
                        assert(old_pending[i] == self.pending@[i]);
                    }
                }
                assert forall|x: Seq<Seq<char>>| #[trigger] self.discovered@.contains(x) <==> (
                d0.contains(x) || exists|j: int| k <= j < subs.len() && subs[j] == x) by {
                    if x == mv {
                        assert(subs[k] == x);
                    }
                    if exists|j: int| k <= j < subs.len() && subs[j] == x {
                        let j = choose|j: int| k <= j < subs.len() && subs[j] == x;
                        if j > k {
                            assert(k + 1 <= j);
                        }
                    }
                }
            }
        }
        proof {
            assert forall|x: Seq<Seq<char>>| #[trigger] self.discovered@.contains(x) <==> (d0
                + subs.to_set()).contains(x) by {
                if subs.contains(x) {
                    let j = choose|j: int| 0 <= j < subs.len() && subs[j] == x;
                }
                if self.discovered@.contains(x) && !d0.contains(x) {
                    let j = choose|j: int| 0 <= j < subs.len() && subs[j] == x;
                    assert(subs.contains(x));
                }
            }
            assert(self.discovered@ =~= d0 + subs.to_set());
            assert forall|p: Seq<Seq<char>>| #[trigger]
                self.discovered().contains(p) implies r.has_module(p) || self.queued(p)
                || None::<Seq<Seq<char>>> == Some(p) by {
                if !d0.contains(p) {
                    let j = choose|j: int| 0 <= j < subs.len() && subs[j] == p;
                }
            }
        }
    }
}

} // verus!
