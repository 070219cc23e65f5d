//! What storing a tree leaves unchanged in the file it is stored to.
//!
//! Storing only appends to the sections of a file, and fills in what it has
//! appended itself. These lemmas say so; the laws on reading back what was
//! written rest on them.

use crate::files::gff::bin::GffView;
use crate::files::gff::field::{FieldView, LabeledFieldView};
use crate::files::gff::label::label_wf;
use crate::files::gff::store::{
    lemma_label_position_bounds, lemma_stored_cells_step, lemma_stored_list_step, registered,
    stored_cells, stored_field, stored_fields_of, stored_list, stored_struct, stored_value, zeros,
};
use crate::files::gff::structs::StructView;
use vstd::prelude::*;

verus! {

/// Whether `b` has everything that `a` has, at the same places, but
/// possibly for the field indices from `fi_lo` up to `fi_hi` and the list
/// indices from `li_lo` up to `li_hi`.
pub open spec fn extends_but(
    a: GffView,
    b: GffView,
    fi_lo: int,
    fi_hi: int,
    li_lo: int,
    li_hi: int,
) -> bool {
    &&& a.header == b.header
    &&& a.structs.len() <= b.structs.len()
    &&& a.fields.len() <= b.fields.len()
    &&& a.labels.len() <= b.labels.len()
    &&& a.field_data.len() <= b.field_data.len()
    &&& a.field_indices.len() <= b.field_indices.len()
    &&& a.list_indices.len() <= b.list_indices.len()
    &&& forall|i: int| 0 <= i < a.structs.len() ==> #[trigger] b.structs[i] == a.structs[i]
    &&& forall|i: int| 0 <= i < a.fields.len() ==> #[trigger] b.fields[i] == a.fields[i]
    &&& forall|i: int| 0 <= i < a.labels.len() ==> #[trigger] b.labels[i] == a.labels[i]
    &&& forall|i: int| 0 <= i < a.field_data.len() ==> #[trigger] b.field_data[i] == a.field_data[i]
    &&& forall|i: int|
        0 <= i < a.field_indices.len() && !(fi_lo <= i < fi_hi) ==> #[trigger] b.field_indices[i]
            == a.field_indices[i]
    &&& forall|i: int|
        0 <= i < a.list_indices.len() && !(li_lo <= i < li_hi) ==> #[trigger] b.list_indices[i]
            == a.list_indices[i]
}

/// Whether `b` has everything that `a` has, at the same places.
pub open spec fn extends(a: GffView, b: GffView) -> bool {
    extends_but(a, b, 0, 0, 0, 0)
}

/// Whether every label of the file can be the content of a label.
pub open spec fn labels_wf(g: GffView) -> bool {
    forall|i: int| 0 <= i < g.labels.len() ==> label_wf(#[trigger] g.labels[i])
}

/// Whether no two labels of the file are equal.
pub open spec fn labels_distinct(g: GffView) -> bool {
    forall|i: int, j: int|
        0 <= i < j < g.labels.len() ==> #[trigger] g.labels[i] != #[trigger] g.labels[j]
}

/// Whether every name in the struct `s` and below it can be the content of a label.
pub open spec fn names_wf(s: StructView) -> bool
    decreases s,
{
    forall|i: int| 0 <= i < s.fields.len() ==> cell_names_wf(#[trigger] s.fields[i])
}

/// Whether the name of the field `c`, and every name below it, can be the
/// content of a label.
pub open spec fn cell_names_wf(c: LabeledFieldView) -> bool
    decreases c,
{
    &&& label_wf(c.label)
    &&& match c.field {
        FieldView::Struct(s) => names_wf(s),
        FieldView::List(l) => forall|i: int| 0 <= i < l.len() ==> names_wf(#[trigger] l[i]),
        _ => true,
    }
}

/// Registering a label appends at most that label, and gives the index of
/// a label that equals it.
pub proof fn lemma_registered(g: GffView, l: Seq<u8>)
    requires
        registered(g, l) is Ok,
    ensures
        extends(g, registered(g, l)->Ok_0.0),
        registered(g, l)->Ok_0.0.structs == g.structs,
        registered(g, l)->Ok_0.0.fields == g.fields,
        registered(g, l)->Ok_0.0.field_data == g.field_data,
        registered(g, l)->Ok_0.0.field_indices == g.field_indices,
        registered(g, l)->Ok_0.0.list_indices == g.list_indices,
        registered(g, l)->Ok_0.1 < registered(g, l)->Ok_0.0.labels.len(),
        registered(g, l)->Ok_0.0.labels[registered(g, l)->Ok_0.1 as int] == l,
        labels_wf(g) && label_wf(l) ==> labels_wf(registered(g, l)->Ok_0.0),
        labels_distinct(g) ==> labels_distinct(registered(g, l)->Ok_0.0),
{
    lemma_label_position_bounds(g.labels, l);
}

/// Storing a value changes nothing that the file held before.
pub proof fn lemma_frame_value(g: GffView, field: FieldView)
    requires
        stored_value(g, field) is Ok,
    ensures
        extends(g, stored_value(g, field)->Ok_0.0),
        field is Struct ==> stored_value(g, field)->Ok_0.1 == g.structs.len()
            && stored_value(g, field)->Ok_0.0.structs.len() > g.structs.len(),
        labels_wf(g) && cell_names_wf(LabeledFieldView { label: Seq::empty(), field })
            ==> labels_wf(stored_value(g, field)->Ok_0.0),
        labels_distinct(g) ==> labels_distinct(stored_value(g, field)->Ok_0.0),
    decreases field, 0nat,
{
    match field {
        FieldView::Struct(s) => {
            lemma_frame_struct(g, s);
        },
        FieldView::List(l) => {
            let g1 = GffView {
                list_indices: g.list_indices.push(l.len() as u32) + zeros(l.len()),
                ..g
            };
            lemma_frame_list(g1, l, g.list_indices.len() as int + 1, l.len());
        },
        _ => {},
    }
}

/// Storing the structs of a list changes nothing that the file held
/// before, but the entries of the list that have been filled in.
pub proof fn lemma_frame_list(g: GffView, l: Seq<StructView>, base: int, n: nat)
    requires
        stored_list(g, l, base, n) is Ok,
        n <= l.len(),
        0 <= base,
        base + l.len() <= g.list_indices.len(),
    ensures
        extends_but(g, stored_list(g, l, base, n)->Ok_0, 0, 0, base, base + n),
        labels_wf(g) && (forall|i: int| 0 <= i < l.len() ==> names_wf(#[trigger] l[i]))
            ==> labels_wf(stored_list(g, l, base, n)->Ok_0),
        labels_distinct(g) ==> labels_distinct(stored_list(g, l, base, n)->Ok_0),
    decreases l, n,
{
    lemma_stored_list_step(g, l, base, 0);
    if n > 0 {
        let m = (n - 1) as nat;
        lemma_stored_list_step(g, l, base, m);
        let g1 = stored_list(g, l, base, m)->Ok_0;
        lemma_frame_list(g, l, base, m);
        lemma_frame_struct(g1, l[m as int]);
    }
}

/// Storing a field changes nothing that the file held before.
pub proof fn lemma_frame_field(g: GffView, cell: LabeledFieldView)
    requires
        stored_field(g, cell) is Ok,
    ensures
        extends(g, stored_field(g, cell)->Ok_0.0),
        stored_field(g, cell)->Ok_0.1 == g.fields.len(),
        stored_field(g, cell)->Ok_0.0.fields.len() > g.fields.len(),
        labels_wf(g) && cell_names_wf(cell) ==> labels_wf(stored_field(g, cell)->Ok_0.0),
        labels_distinct(g) ==> labels_distinct(stored_field(g, cell)->Ok_0.0),
    decreases cell, 1nat,
{
    lemma_registered(g, cell.label);
    let (g1, label_index) = registered(g, cell.label)->Ok_0;
    let g1p = GffView {
        fields: g1.fields.push(
            crate::files::gff::bin::Field {
                id: cell.field.field_type(),
                label_index,
                data_or_data_offset: 0,
            },
        ),
        ..g1
    };
    lemma_frame_value(g1p, cell.field);
    if labels_wf(g) && cell_names_wf(cell) {
        assert(cell_names_wf(LabeledFieldView { label: Seq::empty(), field: cell.field }));
    }
}

/// Storing fields changes nothing that the file held before, but the
/// entries of the fields that have been filled in.
pub proof fn lemma_frame_cells(g: GffView, cells: Seq<LabeledFieldView>, base: int, n: nat)
    requires
        stored_cells(g, cells, base, n) is Ok,
        n <= cells.len(),
        0 <= base,
        base + cells.len() <= g.field_indices.len(),
    ensures
        extends_but(g, stored_cells(g, cells, base, n)->Ok_0, base, base + n, 0, 0),
        labels_wf(g) && (forall|i: int| 0 <= i < cells.len() ==> cell_names_wf(#[trigger] cells[i]))
            ==> labels_wf(stored_cells(g, cells, base, n)->Ok_0),
        labels_distinct(g) ==> labels_distinct(stored_cells(g, cells, base, n)->Ok_0),
    decreases cells, n,
{
    lemma_stored_cells_step(g, cells, base, 0);
    if n > 0 {
        let m = (n - 1) as nat;
        lemma_stored_cells_step(g, cells, base, m);
        let g1 = stored_cells(g, cells, base, m)->Ok_0;
        lemma_frame_cells(g, cells, base, m);
        lemma_frame_field(g1, cells[m as int]);
    }
}

/// Storing a struct changes nothing that the file held before, and the
/// struct gets the next free index.
pub proof fn lemma_frame_struct(g: GffView, s: StructView)
    requires
        stored_struct(g, s) is Ok,
    ensures
        extends(g, stored_struct(g, s)->Ok_0.0),
        stored_struct(g, s)->Ok_0.1 == g.structs.len(),
        stored_struct(g, s)->Ok_0.0.structs.len() > g.structs.len(),
        labels_wf(g) && names_wf(s) ==> labels_wf(stored_struct(g, s)->Ok_0.0),
        labels_distinct(g) ==> labels_distinct(stored_struct(g, s)->Ok_0.0),
    decreases s, 0nat,
{
    let g1 = GffView {
        structs: g.structs.push(
            crate::files::gff::bin::Struct {
                id: s.id,
                data_or_data_offset: 0,
                field_count: s.fields.len() as u32,
            },
        ),
        ..g
    };
    lemma_frame_fields_of(g1, s);
}

/// Storing the fields of a struct changes nothing that the file held before.
pub proof fn lemma_frame_fields_of(g: GffView, s: StructView)
    requires
        stored_fields_of(g, s) is Ok,
    ensures
        extends(g, stored_fields_of(g, s)->Ok_0.0),
        labels_wf(g) && names_wf(s) ==> labels_wf(stored_fields_of(g, s)->Ok_0.0),
        labels_distinct(g) ==> labels_distinct(stored_fields_of(g, s)->Ok_0.0),
    decreases s.fields, s.fields.len() + 1,
{
    if s.fields.len() == 0 {
    } else if s.fields.len() == 1 {
        lemma_frame_field(g, s.fields[0]);
    } else {
        let g1 = GffView { field_indices: g.field_indices + zeros(s.fields.len()), ..g };
        lemma_frame_cells(g1, s.fields, g.field_indices.len() as int, s.fields.len());
    }
}

/// **No two labels of a file that is written are equal**: each name of
/// the tree has one label, however many fields bear it.
pub proof fn lemma_labels_interned(
    file_type: crate::files::gff::FixedSizeString<4>,
    file_version: crate::files::gff::FixedSizeString<4>,
    root: StructView,
)
    requires
        crate::files::gff::store::flat_form(file_type, file_version, root) is Ok,
    ensures
        labels_distinct(crate::files::gff::store::flat_form(file_type, file_version, root)->Ok_0),
{
    let start = crate::files::gff::store::empty_file(crate::files::gff::Header::spec_empty());
    lemma_frame_struct(start, root);
}

} // verus!
