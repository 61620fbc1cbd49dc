//! The rendering capability: four primitive emissions and the shared walk
//! that turns a declaration into a sequence of them.
use vstd::prelude::*;

use crate::model::{ElementInfo, EnumInfo, FieldInfo, Info, StructInfo, VariantInfo, type_doc};
use crate::replacer::ReplaceOptions;

verus! {

/// Settings that every backend reads.
#[derive(Debug, Clone, Copy)]
pub struct RenderOptions {
    /// Whether type annotations use the simplified form.
    pub simplified_types: bool,
}

/// One primitive emission, as a backend receives it.
pub enum Emission {
    /// A heading with this text at this depth.
    Heading(Seq<char>, nat),
    /// Free text at this depth; its `# ` lines are nested headings.
    Description(Seq<char>, nat),
    /// A one-line type annotation.
    TypeNote(Seq<char>),
    /// Text passed through as it is.
    Text(Seq<char>),
}

/// The emissions for one field at `depth`: its heading, type and description.
pub open spec fn field_emissions(f: FieldInfo, depth: nat, simplify: bool) -> Seq<Emission> {
    seq![
        Emission::Heading(f.name@, depth),
        Emission::TypeNote(type_doc(f.ty, simplify)),
        Emission::Description(f.description@, depth),
    ]
}

/// The emissions for a list of fields at `depth`, in order.
pub open spec fn fields_emissions(fs: Seq<FieldInfo>, depth: nat, simplify: bool) -> Seq<Emission>
    decreases fs.len(),
{
    if fs.len() == 0 {
        Seq::empty()
    } else {
        fields_emissions(fs.drop_last(), depth, simplify) + field_emissions(
            fs.last(),
            depth,
            simplify,
        )
    }
}

/// The emissions for one variant at `depth`: heading, description, then its
/// fields one level deeper.
pub open spec fn variant_emissions(v: VariantInfo, depth: nat, simplify: bool) -> Seq<Emission> {
    seq![Emission::Heading(v.name@, depth), Emission::Description(v.description@, depth)]
        + fields_emissions(v.fields@, depth + 1, simplify)
}

/// The emissions for a list of variants at `depth`, in order.
pub open spec fn variants_emissions(vs: Seq<VariantInfo>, depth: nat, simplify: bool) -> Seq<
    Emission,
>
    decreases vs.len(),
{
    if vs.len() == 0 {
        Seq::empty()
    } else {
        variants_emissions(vs.drop_last(), depth, simplify) + variant_emissions(
            vs.last(),
            depth,
            simplify,
        )
    }
}

/// The emissions for a declaration rendered with `options`: its heading
/// unless suppressed, its description, then its fields or variants one
/// level deeper.
pub open spec fn element_emissions(info: Info, options: ReplaceOptions, simplify: bool) -> Seq<
    Emission,
> {
    let depth = options.depth as nat;
    let head = if options.header {
        seq![Emission::Heading(info.name@, depth)]
    } else {
        Seq::empty()
    };
    head + seq![Emission::Description(info.description@, depth)] + match info.element {
        ElementInfo::Struct(s) => fields_emissions(s.fields@, depth + 1, simplify),
        ElementInfo::Enum(e) => variants_emissions(e.variants@, depth + 1, simplify),
    }
}

/// The deepest heading depth a backend accepts; a description's nested
/// headings stand one level deeper.
pub const MAX_DEPTH: usize = usize::MAX - 2;

/// An output backend. A backend implements the four primitives; the walk
/// over a declaration is shared by all.
pub trait Renderer {
    /// Every emission this renderer received, in order.
    spec fn emitted(&self) -> Seq<Emission>;

    /// What the backend keeps true between emissions.
    spec fn inv(&self) -> bool;

    /// The document the renderer started from, before any emission.
    spec fn base(&self) -> Seq<char>;

    /// Whether this renderer prints simplified types.
    spec fn simplifies(&self) -> bool;

    /// The renderer's settings.
    fn options(&self) -> (r: RenderOptions)
        ensures
            r.simplified_types == self.simplifies(),
    ;

    /// Emits a heading at `depth`.
    fn render_heading(&mut self, text: &str, depth: usize)
        requires
            old(self).inv(),
            depth <= MAX_DEPTH,
        ensures
            final(self).inv(),
            final(self).emitted() == old(self).emitted().push(
                Emission::Heading(text@, depth as nat),
            ),
            final(self).simplifies() == old(self).simplifies(),
            final(self).base() == old(self).base(),
    ;

    /// Emits free text at `depth`.
    fn render_description(&mut self, text: &str, depth: usize)
        requires
            old(self).inv(),
            depth < MAX_DEPTH,
        ensures
            final(self).inv(),
            final(self).emitted() == old(self).emitted().push(
                Emission::Description(text@, depth as nat),
            ),
            final(self).simplifies() == old(self).simplifies(),
            final(self).base() == old(self).base(),
    ;

    /// Emits a type annotation.
    fn render_type(&mut self, text: &str)
        requires
            old(self).inv(),
        ensures
            final(self).inv(),
            final(self).emitted() == old(self).emitted().push(Emission::TypeNote(text@)),
            final(self).simplifies() == old(self).simplifies(),
            final(self).base() == old(self).base(),
    ;

    /// Emits text unchanged.
    fn render_text(&mut self, text: &str)
        requires
            old(self).inv(),
        ensures
            final(self).inv(),
            final(self).emitted() == old(self).emitted().push(Emission::Text(text@)),
            final(self).simplifies() == old(self).simplifies(),
            final(self).base() == old(self).base(),
    ;

    /// Renders a whole declaration; see [`element_emissions`].
    fn render_element(&mut self, info: &Info, options: ReplaceOptions)
        requires
            old(self).inv(),
            options.depth + 2 < MAX_DEPTH,
        ensures
            final(self).inv(),
            final(self).emitted() == old(self).emitted() + element_emissions(
                *info,
                options,
                old(self).simplifies(),
            ),
            final(self).simplifies() == old(self).simplifies(),
            final(self).base() == old(self).base(),
    {
        let depth = options.depth;
        let ghost start = self.emitted();
        if options.header {
            self.render_heading(info.name.as_str(), depth);
        }
        self.render_description(info.description.as_str(), depth);
        match &info.element {
            ElementInfo::Struct(s) => self.render_struct(s, depth + 1),
            ElementInfo::Enum(e) => self.render_enum(e, depth + 1),
        }
        assert(self.emitted() =~= start + element_emissions(*info, options, self.simplifies()));
    }

    /// Renders each field of a struct at `depth`.
    fn render_struct(&mut self, info: &StructInfo, depth: usize)
        requires
            old(self).inv(),
            depth < MAX_DEPTH,
        ensures
            final(self).inv(),
            final(self).emitted() == old(self).emitted() + fields_emissions(
                info.fields@,
                depth as nat,
                old(self).simplifies(),
            ),
            final(self).simplifies() == old(self).simplifies(),
            final(self).base() == old(self).base(),
    {
        self.render_fields(&info.fields, depth);
    }

    /// Renders each field in `fields` at `depth`.
    fn render_fields(&mut self, fields: &Vec<FieldInfo>, depth: usize)
        requires
            old(self).inv(),
            depth < MAX_DEPTH,
        ensures
            final(self).inv(),
            final(self).emitted() == old(self).emitted() + fields_emissions(
                fields@,
                depth as nat,
                old(self).simplifies(),
            ),
            final(self).simplifies() == old(self).simplifies(),
            final(self).base() == old(self).base(),
    {
        let ghost start = self.emitted();
        let ghost simp = self.simplifies();
        let mut i: usize = 0;
        while i < fields.len()
            invariant
                self.inv(),
                depth < MAX_DEPTH,
                i <= fields@.len(),
                self.simplifies() == simp,
                self.base() == old(self).base(),
                self.emitted() == start + fields_emissions(
                    fields@.subrange(0, i as int),
                    depth as nat,
                    simp,
                ),
            decreases fields.len() - i,
        {
            self.render_field(&fields[i], depth);
            assert(fields@.subrange(0, i as int + 1).drop_last() =~= fields@.subrange(0, i as int));
            assert(self.emitted() =~= start + fields_emissions(
                fields@.subrange(0, i as int + 1),
                depth as nat,
                simp,
            ));
            i = i + 1;
        }
        assert(fields@.subrange(0, i as int) =~= fields@);
    }

    /// Renders each variant of an enum at `depth`, its fields one level deeper.
    fn render_enum(&mut self, info: &EnumInfo, depth: usize)
        requires
            old(self).inv(),
            depth + 1 < MAX_DEPTH,
        ensures
            final(self).inv(),
            final(self).emitted() == old(self).emitted() + variants_emissions(
                info.variants@,
                depth as nat,
                old(self).simplifies(),
            ),
            final(self).simplifies() == old(self).simplifies(),
            final(self).base() == old(self).base(),
    {
        let ghost start = self.emitted();
        let ghost simp = self.simplifies();
        let vs = &info.variants;
        let mut i: usize = 0;
        while i < vs.len()
            invariant
                self.inv(),
                depth + 1 < MAX_DEPTH,
                i <= vs@.len(),
                self.simplifies() == simp,
                self.base() == old(self).base(),
                self.emitted() == start + variants_emissions(
                    vs@.subrange(0, i as int),
                    depth as nat,
                    simp,
                ),
            decreases vs.len() - i,
        {
            let ghost before = self.emitted();
            self.render_heading(vs[i].name.as_str(), depth);
            self.render_description(vs[i].description.as_str(), depth);
            self.render_fields(&vs[i].fields, depth + 1);
            assert(vs@.subrange(0, i as int + 1).drop_last() =~= vs@.subrange(0, i as int));
            assert(self.emitted() =~= before + variant_emissions(vs@[i as int], depth as nat, simp));
            assert(self.emitted() =~= start + variants_emissions(
                vs@.subrange(0, i as int + 1),
                depth as nat,
                simp,
            ));
            i = i + 1;
        }
        assert(vs@.subrange(0, i as int) =~= vs@);
    }

    /// Renders one field at `depth`: heading, type annotation, description.
    fn render_field(&mut self, info: &FieldInfo, depth: usize)
        requires
            old(self).inv(),
            depth < MAX_DEPTH,
        ensures
            final(self).inv(),
            final(self).emitted() == old(self).emitted() + field_emissions(
                *info,
                depth as nat,
                old(self).simplifies(),
            ),
            final(self).simplifies() == old(self).simplifies(),
            final(self).base() == old(self).base(),
    {
        let ghost start = self.emitted();
        self.render_heading(info.name.as_str(), depth);
        let simplify = self.options().simplified_types;
        let ty = info.ty.to_doc_string(simplify);
        self.render_type(ty.as_str());
        self.render_description(info.description.as_str(), depth);
        assert(self.emitted() =~= start + field_emissions(*info, depth as nat, self.simplifies()));
    }
}

} // verus!
