//! The declaration shapes that the catalogue holds.
use vstd::prelude::*;

use crate::text::{joined, same_text};

verus! {

broadcast use vstd::std_specs::vec::axiom_vec_index_decreases;

/// A type as written at a field: a name and its generic arguments.
#[derive(Debug, Default)]
pub struct TypeInfo {
    pub name: String,
    pub generics: Vec<TypeInfo>,
}

/// A struct field or a field of an enum variant.
#[derive(Debug)]
pub struct FieldInfo {
    pub name: String,
    pub description: String,
    pub ty: TypeInfo,
}

/// The fields of a struct, in declared order.
#[derive(Debug)]
pub struct StructInfo {
    pub fields: Vec<FieldInfo>,
}

/// One variant of an enum, with its fields (none for a unit variant).
#[derive(Debug)]
pub struct VariantInfo {
    pub name: String,
    pub description: String,
    pub fields: Vec<FieldInfo>,
}

/// The variants of an enum, in declared order.
#[derive(Debug)]
pub struct EnumInfo {
    pub variants: Vec<VariantInfo>,
}

/// The shape of a declaration.
#[derive(Debug)]
pub enum ElementInfo {
    Struct(StructInfo),
    Enum(EnumInfo),
}

/// A documented declaration: its name, description and shape.
#[derive(Debug)]
pub struct Info {
    pub name: String,
    pub description: String,
    pub element: ElementInfo,
}

/// The declarations found directly in one module file.
#[derive(Debug)]
pub struct FileInfo {
    pub name: String,
    pub path: String,
    pub elements: Vec<Info>,
}

/// Whether `name` is a smart pointer or cell that simplified output looks through.
pub open spec fn is_transparent_wrapper(name: Seq<char>) -> bool {
    name == "Box"@ || name == "Arc"@ || name == "Rc"@ || name == "Cell"@ || name == "RefCell"@
        || name == "RwLock"@ || name == "Mutex"@
}

/// The rendered text of a type: in full, `Name<A, B>`; simplified, with
/// wrappers looked through, `Option<T>` as `T?` and `str` as `String`.
pub open spec fn type_doc(t: TypeInfo, simplify: bool) -> Seq<char>
    decreases t, t.generics@.len() + 1,
{
    let args = joined(generic_docs(t, t.generics@.len() as int, simplify), ", "@);
    if simplify {
        if is_transparent_wrapper(t.name@) {
            args
        } else if t.name@ == "Option"@ {
            args + "?"@
        } else if t.name@ == "str"@ {
            "String"@
        } else {
            t.name@
        }
    } else if t.generics@.len() == 0 {
        t.name@
    } else {
        t.name@ + "<"@ + args + ">"@
    }
}

/// The rendered texts of the first `k` generic arguments of `t`.
pub open spec fn generic_docs(t: TypeInfo, k: int, simplify: bool) -> Seq<Seq<char>>
    decreases t, k,
{
    if k <= 0 || k > t.generics@.len() {
        Seq::empty()
    } else {
        generic_docs(t, k - 1, simplify).push(type_doc(t.generics@[k - 1], simplify))
    }
}

fn text_is(s: &String, lit: &str) -> (r: bool)
    ensures
        r == (s@ == lit@),
{
    same_text(s.as_str(), lit)
}

impl TypeInfo {
    /// The text a field's type annotation shows; see [`type_doc`].
    pub fn to_doc_string(&self, simplify: bool) -> (r: String)
        ensures
            r@ == type_doc(*self, simplify),
        decreases self,
    {
        let mut args = String::new();
        let mut i: usize = 0;
        while i < self.generics.len()
            invariant
                i <= self.generics@.len(),
                args@ == joined(generic_docs(*self, i as int, simplify), ", "@),
            decreases self.generics.len() - i,
        {
            if i > 0 {
                args.append(", ");
            }
            let doc = self.generics[i].to_doc_string(simplify);
            args.append(doc.as_str());
            proof {
                let parts = generic_docs(*self, i as int + 1, simplify);
                assert(parts.drop_last() =~= generic_docs(*self, i as int, simplify));
            }
            i = i + 1;
        }
        if simplify {
            if text_is(&self.name, "Box") || text_is(&self.name, "Arc") || text_is(&self.name, "Rc")
                || text_is(&self.name, "Cell") || text_is(&self.name, "RefCell") || text_is(
                &self.name,
                "RwLock",
            ) || text_is(&self.name, "Mutex") {
                args
            } else if text_is(&self.name, "Option") {
                args.append("?");
                args
            } else if text_is(&self.name, "str") {
                "String".to_owned()
            } else {
                self.name.clone()
            }
        } else if self.generics.len() == 0 {
            self.name.clone()
        } else {
            let mut out = self.name.clone();
            out.append("<");
            out.append(args.as_str());
            out.append(">");
            out
        }
    }
}

} // verus!
