//! Structs: the nodes of the tree that a file holds.

use crate::error::Error;
use crate::files::gff::bin::{resolved_struct, Gff as BinGff, Struct as BinStruct};
use crate::files::gff::field::{Field, FieldView, LabeledField, LabeledFieldView};
use crate::files::tlk::{tlk_view, Tlk};
use vstd::prelude::*;

verus! {

/// Where the value comes from that a struct without fields keeps in place
/// of an offset: the format gives it no meaning, but a file that is read
/// and written back has it unchanged.
#[derive(Debug, PartialEq, Eq, Clone, Copy, Structural)]
pub enum StructOrigin {
    /// The struct was read from a file, which held this value.
    FromFile(u32),
    /// The struct was made by a program.
    Synthesized,
}

impl StructOrigin {
    /// The value that is written for a struct without fields.
    pub open spec fn spec_emitted(&self) -> u32 {
        match self {
            StructOrigin::FromFile(v) => *v,
            StructOrigin::Synthesized => u32::MAX,
        }
    }

    /// The value that is written for a struct without fields.
    #[verifier::when_used_as_spec(spec_emitted)]
    pub fn emitted(&self) -> (r: u32)
        ensures
            r == self.spec_emitted(),
    {
        match self {
            StructOrigin::FromFile(v) => *v,
            StructOrigin::Synthesized => u32::MAX,
        }
    }
}

/// One field of a struct: a value and its name.
#[derive(Debug, PartialEq)]
pub struct StructField(pub LabeledField);

impl View for StructField {
    type V = LabeledFieldView;

    open spec fn view(&self) -> LabeledFieldView
        decreases self,
    {
        self.0@
    }
}

/// A struct: an id and fields in a fixed order. Two fields may have the same name.
#[derive(Debug, PartialEq)]
pub struct Struct {
    pub id: u32,
    pub origin: StructOrigin,
    pub fields: Vec<StructField>,
}

/// What a struct is, as plain values.
pub struct StructView {
    pub id: u32,
    pub origin: StructOrigin,
    pub fields: Seq<LabeledFieldView>,
}

impl View for Struct {
    type V = StructView;

    open spec fn view(&self) -> StructView
        decreases self,
    {
        StructView {
            id: self.id,
            origin: self.origin,
            fields: cell_views(self.fields@),
        }
    }
}

/// A copy of the fields `cells`.
fn duplicate_cells(cells: &Vec<StructField>) -> (r: Vec<StructField>)
    ensures
        cell_views(r@) == cell_views(cells@),
    decreases cells, 0nat,
{
    let mut out: Vec<StructField> = Vec::new();
    let mut i: usize = 0;
    while i < cells.len()
        invariant
            0 <= i <= cells@.len(),
            cell_views(out@) == cell_views(cells@.take(i as int)),
        decreases cells@.len() - i,
    {
        let c = cells[i].duplicate();
        proof {
            lemma_cell_views_push(out@, c);
            lemma_cell_views_push(cells@.take(i as int), cells@[i as int]);
            assert(cells@.take(i as int).push(cells@[i as int]) =~= cells@.take(i + 1));
        }
        out.push(c);
        i = i + 1;
    }
    assert(cells@.take(i as int) =~= cells@);
    out
}

/// A copy of the structs `l`.
pub(crate) fn duplicate_structs(l: &Vec<Struct>) -> (r: Vec<Struct>)
    ensures
        struct_views(r@) == struct_views(l@),
    decreases l, 0nat,
{
    let mut out: Vec<Struct> = Vec::new();
    let mut i: usize = 0;
    while i < l.len()
        invariant
            0 <= i <= l@.len(),
            struct_views(out@) == struct_views(l@.take(i as int)),
        decreases l@.len() - i,
    {
        let s = l[i].duplicate();
        proof {
            lemma_struct_views_push(out@, s);
            lemma_struct_views_push(l@.take(i as int), l@[i as int]);
            assert(l@.take(i as int).push(l@[i as int]) =~= l@.take(i + 1));
        }
        out.push(s);
        i = i + 1;
    }
    assert(l@.take(i as int) =~= l@);
    out
}

impl StructField {
    /// A copy of the field with everything below it.
    pub fn duplicate(&self) -> (r: Self)
        ensures
            r@ == self@,
        decreases self, 0nat,
    {
        let field = self.0.field.duplicate();
        let r = StructField(LabeledField { label: self.0.label.clone(), field });
        proof {
            lemma_views(arbitrary(), r);
            lemma_views(arbitrary(), *self);
        }
        r
    }
}

impl Clone for StructField {
    fn clone(&self) -> (r: Self)
        ensures
            r@ == self@,
    {
        self.duplicate()
    }
}

impl Clone for Struct {
    fn clone(&self) -> (r: Self)
        ensures
            r@ == self@,
    {
        self.duplicate()
    }
}

impl Struct {
    /// A copy of the struct with everything below it.
    pub fn duplicate(&self) -> (r: Self)
        ensures
            r@ == self@,
        decreases self, 0nat,
    {
        let r = Struct { id: self.id, origin: self.origin, fields: duplicate_cells(&self.fields) };
        proof {
            lemma_views(r, arbitrary());
            lemma_views(*self, arbitrary());
        }
        r
    }

    /// The struct `s` of the file `gff` with all its fields, strings looked
    /// up in `tlk` if there is one. Structs may be nested as deep below it
    /// as the file has structs.
    pub fn new(s: &BinStruct, gff: &BinGff, tlk: Option<&Tlk>) -> (r: Result<Self, Error>)
        ensures
            match r {
                Ok(v) => resolved_struct(gff@, tlk_view(tlk), *s, gff@.structs.len()) == Ok::<
                    StructView,
                    Error,
                >(v@),
                Err(e) => resolved_struct(gff@, tlk_view(tlk), *s, gff@.structs.len()) == Err::<
                    StructView,
                    Error,
                >(e),
            },
    {
        crate::files::gff::resolve::resolve_struct(s, gff, tlk, gff.structs.len())
    }
}

/// The views of the fields `l`, in their order.
pub open spec fn cell_views(l: Seq<StructField>) -> Seq<LabeledFieldView>
    decreases l,
{
    if l.len() == 0 {
        Seq::empty()
    } else {
        cell_views(l.drop_last()).push(l.last()@)
    }
}

/// The views of the structs `l`, in their order.
pub open spec fn struct_views(l: Seq<Struct>) -> Seq<StructView>
    decreases l,
{
    if l.len() == 0 {
        Seq::empty()
    } else {
        struct_views(l.drop_last()).push(l.last()@)
    }
}

/// The view of a struct holds the views of its fields, and the view of a
/// field the views of its name and its value.
pub proof fn lemma_views(s: Struct, c: StructField)
    ensures
        s@.id == s.id,
        s@.origin == s.origin,
        s@.fields == cell_views(s.fields@),
        c@.label == c.0.label@,
        c@.field == c.0.field@,
        c.0.field matches Field::Struct(x) ==> c@.field == FieldView::Struct(x@),
        c.0.field matches Field::List(l) ==> c@.field == FieldView::List(struct_views(l@)),
        !(c.0.field is Struct) && !(c.0.field is List) ==> !(c@.field is Struct) && !(c@.field
            is List),
{
    assert(c@ == c.0@);
    assert(c.0@.field == c.0.field@);
}

/// The views of fields are as many as the fields, each the view of its field.
pub proof fn lemma_cell_views(l: Seq<StructField>)
    ensures
        cell_views(l).len() == l.len(),
        forall|i: int| 0 <= i < l.len() ==> cell_views(l)[i] == l[i]@,
    decreases l.len(),
{
    reveal_with_fuel(cell_views, 2);
    if l.len() > 0 {
        lemma_cell_views(l.drop_last());
        assert(cell_views(l) == cell_views(l.drop_last()).push(l.last()@));
    } else {
        assert(cell_views(l) == Seq::<LabeledFieldView>::empty());
    }
}

/// The views of structs are as many as the structs, each the view of its struct.
pub proof fn lemma_struct_views(l: Seq<Struct>)
    ensures
        struct_views(l).len() == l.len(),
        forall|i: int| 0 <= i < l.len() ==> struct_views(l)[i] == l[i]@,
    decreases l.len(),
{
    reveal_with_fuel(struct_views, 2);
    if l.len() > 0 {
        lemma_struct_views(l.drop_last());
        assert(struct_views(l) == struct_views(l.drop_last()).push(l.last()@));
    } else {
        assert(struct_views(l) == Seq::<StructView>::empty());
    }
}

/// The views of fields with one more, are the views with one more.
pub proof fn lemma_cell_views_push(l: Seq<StructField>, c: StructField)
    ensures
        cell_views(l.push(c)) == cell_views(l).push(c@),
{
    assert(l.push(c).drop_last() =~= l);
}

/// The views of structs with one more, are the views with one more.
pub proof fn lemma_struct_views_push(l: Seq<Struct>, s: Struct)
    ensures
        struct_views(l.push(s)) == struct_views(l).push(s@),
{
    assert(l.push(s).drop_last() =~= l);
}

} // verus!
