//! The items of one source file, as the catalogue sorts them.
use vstd::prelude::*;

use crate::model::Info;
use crate::modpath::ModulePath;

verus! {

broadcast use vstd::std_specs::vec::axiom_vec_decreases_to_view, vstd::seq::axiom_seq_index_decreases;

/// A top-level item of a module file.
pub enum SourceItem {
    /// A module whose body is written in place: its items.
    InlineModule(Vec<SourceItem>),
    /// A module declared here whose body is in another file: its name.
    ExternalModule(String),
    /// A documented struct or enum.
    Declaration(Info),
    /// Anything else.
    Other,
}

/// The submodules of a module file, split from its declarations.
pub struct ModuleItems {
    /// The paths of the external submodules, in source order.
    pub modules: Vec<ModulePath>,
    /// The declarations, in source order.
    pub elements: Vec<Info>,
}

/// The paths of the external submodules among `items` in module `path`, in
/// source order; an inline module's items count as its parent's.
pub open spec fn submodules_of(items: Seq<SourceItem>, path: Seq<Seq<char>>) -> Seq<
    Seq<Seq<char>>,
>
    decreases items,
{
    if items.len() == 0 {
        Seq::empty()
    } else {
        let rest = submodules_of(items.drop_last(), path);
        match items.last() {
            SourceItem::InlineModule(v) => rest + submodules_of(v@, path),
            SourceItem::ExternalModule(name) => rest.push(path.push(name@)),
            _ => rest,
        }
    }
}

/// The declarations among `items`, in source order; an inline module's
/// items count as its parent's.
pub open spec fn declarations_of(items: Seq<SourceItem>) -> Seq<Info>
    decreases items,
{
    if items.len() == 0 {
        Seq::empty()
    } else {
        let rest = declarations_of(items.drop_last());
        match items.last() {
            SourceItem::InlineModule(v) => rest + declarations_of(v@),
            SourceItem::Declaration(i) => rest.push(i),
            _ => rest,
        }
    }
}

/// Sorts a module file's items: the external submodules, as paths under
/// `parent`, and the declarations, both in source order; an inline
/// module is looked into in place, under the same path.
#[verifier::loop_isolation(false)]
pub fn module_items(items: Vec<SourceItem>, parent: &ModulePath) -> (r: ModuleItems)
    ensures
        r.modules@.map_values(|m: ModulePath| m@) == submodules_of(items@, parent@),
        r.elements@ == declarations_of(items@),
    decreases items,
{
    let mut modules: Vec<ModulePath> = Vec::new();
    let mut elements: Vec<Info> = Vec::new();
    let ghost all = items@;
    let ghost whole = items;
    let n = items.len();
    let mut rest = items;
    let mut k: usize = 0;
    while rest.len() > 0
        invariant
            k + rest@.len() == all.len(),
            all.len() == n,
            all == whole@,
            rest@ == all.subrange(k as int, all.len() as int),
            modules@.map_values(|m: ModulePath| m@) == submodules_of(
                all.subrange(0, k as int),
                parent@,
            ),
            elements@ == declarations_of(all.subrange(0, k as int)),
        decreases rest@.len(),
    {
        let item = rest.remove(0);
        proof {
            assert(item == all[k as int]);
            assert(all.subrange(0, k as int + 1).drop_last() =~= all.subrange(0, k as int));
            assert(rest@ =~= all.subrange(k + 1, all.len() as int));
        }
        let ghost before_m = modules@.map_values(|m: ModulePath| m@);
        match item {
            SourceItem::InlineModule(v) => {
                proof {
                    assert(decreases_to!(whole => whole@));
                    assert(decreases_to!(whole@ => whole@[k as int]));
                    assert(decreases_to!(whole => v));
                }
                let inner = module_items(v, parent);
                let mut inner_modules = inner.modules;
                let mut inner_elements = inner.elements;
                modules.append(&mut inner_modules);
                elements.append(&mut inner_elements);
                assert(modules@.map_values(|m: ModulePath| m@) =~= before_m + submodules_of(
                    v@,
                    parent@,
                ));
            },
            SourceItem::ExternalModule(name) => {
                modules.push(parent.join(name.as_str()));
                assert(modules@.map_values(|m: ModulePath| m@) =~= before_m.push(
                    parent@.push(name@),
                ));
            },
            SourceItem::Declaration(info) => {
                elements.push(info);
            },
            SourceItem::Other => {},
        }
        k = k + 1;
    }
    assert(all.subrange(0, k as int) =~= all);
    ModuleItems { modules, elements }
}

} // verus!
