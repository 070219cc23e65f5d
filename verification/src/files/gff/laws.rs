//! What is written can be read back.
//!
//! The law [`lemma_tree_round_trip`] says that a tree that was written to
//! bytes is read back from them as the same tree, and
//! [`lemma_bytes_round_trip`] that the bytes this library writes are
//! written again, unchanged, from the tree that is read from them.

use crate::error::Error;
use crate::files::gff::exo_string::{sub_string_views, ExoLocString};
use crate::files::gff::field::Field;
use crate::files::gff::structs::{lemma_cell_views, lemma_struct_views, lemma_views, struct_views, Struct};
use crate::files::text::is_text;
use crate::files::tlk::{resolve_text, tlk_view, Tlk};
use crate::files::{i32_as_u32, i64_as_u64, u16_as_i16, u32_at, u64_le_bytes, MAX_TEXT_LEN};
use crate::files::gff::{tree_at, tree_bytes, Header, TreeView};
use crate::files::gff::bin::{
    resolved_cell, resolved_cells, resolved_field, resolved_struct, resolved_structs,
    Field as BinField, GffView, INDEX_SIZE, Struct as BinStruct,
};
use crate::files::gff::exo_string::{
    exo_loc_string_at, exo_loc_string_bytes, exo_string_bytes, ExoLocStringView,
};
use crate::files::gff::field::{FieldView, LabeledFieldView};
use crate::files::gff::frame::{
    cell_names_wf, extends_but, labels_wf, lemma_frame_cells, lemma_frame_field,
    lemma_frame_fields_of, lemma_frame_list, lemma_frame_struct, lemma_frame_value,
    lemma_registered, names_wf,
};
use crate::files::gff::label::label_wf;
use crate::files::gff::layout::lemma_gff_bytes_round_trip;
use crate::files::gff::store::{
    empty_file, header_of, heap_appended, laid_out, lemma_stored_cells_step, lemma_stored_list_step,
    registered, stored_cells, stored_field, stored_fields_of, stored_list, stored_struct,
    stored_value, zeros,
};
use crate::files::gff::structs::StructView;
use crate::files::gff::void::void_bytes;
use crate::files::res_ref::{res_ref_bytes, RES_REF_SIZE};
use crate::files::tlk::{resolved_text, NO_STR_REF, TlkView};
use vstd::prelude::*;

verus! {

/// Whether a file that holds the localized string `v` gives `v` back when
/// it is read with `tlk`: no text is too long, and the text that `v` holds
/// for its string reference is the one that `tlk` gives.
pub open spec fn readable_loc(v: ExoLocStringView, tlk: Option<TlkView>) -> bool {
    &&& forall|i: int|
        0 <= i < v.substrings.len() ==> (#[trigger] v.substrings[i]).data.len() <= MAX_TEXT_LEN
    &&& resolved_text(tlk, v.str_ref) == Ok::<Option<Seq<char>>, Error>(v.tlk_string)
}

/// Whether a file that holds the value `f` gives it back when it is read with `tlk`.
pub open spec fn readable_value(f: FieldView, tlk: Option<TlkView>) -> bool
    decreases f, 0nat,
{
    match f {
        FieldView::ExoString(t) => t.len() <= MAX_TEXT_LEN,
        FieldView::ResRef(r) => r.len() <= RES_REF_SIZE,
        FieldView::ExoLocString(v) => readable_loc(v, tlk),
        FieldView::Struct(s) => readable_struct(s, tlk),
        FieldView::List(l) => forall|i: int|
            0 <= i < l.len() ==> readable_struct(#[trigger] l[i], tlk),
        _ => true,
    }
}

/// Whether a file that holds the field `c` gives it back when it is read with `tlk`.
pub open spec fn readable_cell(c: LabeledFieldView, tlk: Option<TlkView>) -> bool
    decreases c, 1nat,
{
    label_wf(c.label) && readable_value(c.field, tlk)
}

/// Whether a file that holds the struct `s` gives it back when it is read
/// with `tlk`: every name is at most sixteen bytes without a zero, every
/// text and name of a resource is within its limit, and every localized
/// string holds the text that `tlk` gives for its string reference.
pub open spec fn readable_struct(s: StructView, tlk: Option<TlkView>) -> bool
    decreases s, 0nat,
{
    forall|i: int| 0 <= i < s.fields.len() ==> readable_cell(#[trigger] s.fields[i], tlk)
}

/// Whether two values are the same but for the origins of the structs in them.
pub open spec fn same_value(a: FieldView, b: FieldView) -> bool
    decreases a, 0nat,
{
    match a {
        FieldView::Struct(x) => b is Struct && same_struct(x, b->Struct_0),
        FieldView::List(x) => b is List && x.len() == b->List_0.len() && forall|i: int|
            0 <= i < x.len() ==> same_struct(#[trigger] x[i], b->List_0[i]),
        _ => a == b,
    }
}

/// Whether two fields are the same but for the origins of the structs in them.
pub open spec fn same_cell(a: LabeledFieldView, b: LabeledFieldView) -> bool
    decreases a, 1nat,
{
    a.label == b.label && same_value(a.field, b.field)
}

/// Whether two structs are the same but for their origins: of the
/// origin of a struct without fields only the value that is written for it
/// counts, of the origin of a struct with fields nothing.
pub open spec fn same_struct(a: StructView, b: StructView) -> bool
    decreases a, 0nat,
{
    &&& a.id == b.id
    &&& a.fields.len() == b.fields.len()
    &&& a.fields.len() == 0 ==> a.origin.spec_emitted() == b.origin.spec_emitted()
    &&& forall|i: int| 0 <= i < a.fields.len() ==> same_cell(#[trigger] a.fields[i], b.fields[i])
}

/// Lengths of the sections of a file, from which on two files are compared.
pub struct Marks {
    pub structs: int,
    pub fields: int,
    pub field_data: int,
    pub field_indices: int,
    pub list_indices: int,
}

/// The lengths of the sections of `g`.
pub open spec fn marks_of(g: GffView) -> Marks {
    Marks {
        structs: g.structs.len() as int,
        fields: g.fields.len() as int,
        field_data: g.field_data.len() as int,
        field_indices: g.field_indices.len() as int,
        list_indices: g.list_indices.len() as int,
    }
}

/// Whether no mark of `a` lies after that of `b`.
pub open spec fn marks_le(a: Marks, b: Marks) -> bool {
    &&& a.structs <= b.structs
    &&& a.fields <= b.fields
    &&& a.field_data <= b.field_data
    &&& a.field_indices <= b.field_indices
    &&& a.list_indices <= b.list_indices
}

/// Whether `b` has what `a` has from the marks `m` on, at the same places,
/// and all the labels of `a`.
pub open spec fn agree(a: GffView, b: GffView, m: Marks) -> bool {
    &&& a.structs.len() <= b.structs.len()
    &&& a.fields.len() <= b.fields.len()
    &&& a.labels.len() <= b.labels.len()
    &&& a.field_data.len() <= b.field_data.len()
    &&& a.field_indices.len() <= b.field_indices.len()
    &&& a.list_indices.len() <= b.list_indices.len()
    &&& forall|i: int| m.structs <= i < a.structs.len() ==> #[trigger] b.structs[i] == a.structs[i]
    &&& forall|i: int| m.fields <= i < a.fields.len() ==> #[trigger] b.fields[i] == a.fields[i]
    &&& forall|i: int| 0 <= i < a.labels.len() ==> #[trigger] b.labels[i] == a.labels[i]
    &&& forall|i: int|
        m.field_data <= i < a.field_data.len() ==> #[trigger] b.field_data[i] == a.field_data[i]
    &&& forall|i: int|
        m.field_indices <= i < a.field_indices.len() ==> #[trigger] b.field_indices[i]
            == a.field_indices[i]
    &&& forall|i: int|
        m.list_indices <= i < a.list_indices.len() ==> #[trigger] b.list_indices[i]
            == a.list_indices[i]
}

/// Agreement carries over from file to file, from the later of the marks on.
pub proof fn lemma_agree_trans(a: GffView, b: GffView, c: GffView, m: Marks, m2: Marks)
    requires
        agree(a, b, m),
        agree(b, c, m2),
        marks_le(m2, m),
    ensures
        agree(a, c, m),
{
    assert forall|i: int| m.structs <= i < a.structs.len() implies #[trigger] c.structs[i]
        == a.structs[i] by {
        assert(b.structs[i] == a.structs[i]);
    }
    assert forall|i: int| m.fields <= i < a.fields.len() implies #[trigger] c.fields[i]
        == a.fields[i] by {
        assert(b.fields[i] == a.fields[i]);
    }
    assert forall|i: int| 0 <= i < a.labels.len() implies #[trigger] c.labels[i]
        == a.labels[i] by {
        assert(b.labels[i] == a.labels[i]);
    }
    assert forall|i: int| m.field_data <= i < a.field_data.len() implies #[trigger] c.field_data[i]
        == a.field_data[i] by {
        assert(b.field_data[i] == a.field_data[i]);
    }
    assert forall|i: int|
        m.field_indices <= i < a.field_indices.len() implies #[trigger] c.field_indices[i]
        == a.field_indices[i] by {
        assert(b.field_indices[i] == a.field_indices[i]);
    }
    assert forall|i: int|
        m.list_indices <= i < a.list_indices.len() implies #[trigger] c.list_indices[i]
        == a.list_indices[i] by {
        assert(b.list_indices[i] == a.list_indices[i]);
    }
}

/// A file that has everything of another, but for index entries before
/// the marks, agrees with it from the marks on.
pub proof fn lemma_extends_agree(
    a: GffView,
    b: GffView,
    m: Marks,
    fi_lo: int,
    fi_hi: int,
    li_lo: int,
    li_hi: int,
)
    requires
        extends_but(a, b, fi_lo, fi_hi, li_lo, li_hi),
        0 <= m.structs,
        0 <= m.fields,
        0 <= m.field_data,
        0 <= m.field_indices,
        0 <= m.list_indices,
        fi_hi <= m.field_indices,
        li_hi <= m.list_indices,
    ensures
        agree(a, b, m),
{
    assert forall|i: int| m.structs <= i < a.structs.len() implies #[trigger] b.structs[i]
        == a.structs[i] by {}
    assert forall|i: int| m.fields <= i < a.fields.len() implies #[trigger] b.fields[i]
        == a.fields[i] by {}
    assert forall|i: int| 0 <= i < a.labels.len() implies #[trigger] b.labels[i]
        == a.labels[i] by {}
    assert forall|i: int| m.field_data <= i < a.field_data.len() implies #[trigger] b.field_data[i]
        == a.field_data[i] by {}
    assert forall|i: int|
        m.field_indices <= i < a.field_indices.len() implies #[trigger] b.field_indices[i]
        == a.field_indices[i] by {}
    assert forall|i: int|
        m.list_indices <= i < a.list_indices.len() implies #[trigger] b.list_indices[i]
        == a.list_indices[i] by {}
}

/// Whether `heap` holds `bytes` at `off`.
pub open spec fn holds_at(heap: Seq<u8>, off: int, bytes: Seq<u8>) -> bool {
    &&& 0 <= off
    &&& off + bytes.len() <= heap.len()
    &&& heap.subrange(off, off + bytes.len()) == bytes
}

/// A heap that holds bytes is what precedes them, the bytes, and what follows.
pub proof fn lemma_holds_split(heap: Seq<u8>, off: int, bytes: Seq<u8>)
    requires
        holds_at(heap, off, bytes),
    ensures
        heap == heap.take(off) + bytes + heap.skip(off + bytes.len()),
        heap.take(off).len() == off,
{
    assert(heap =~= heap.take(off) + heap.subrange(off, off + bytes.len()) + heap.skip(
        off + bytes.len(),
    ));
}

/// A file that agrees with one to whose field data bytes were appended
/// holds those bytes at the offset at which they were appended.
pub proof fn lemma_appended_holds(g: GffView, bytes: Seq<u8>, b: GffView)
    requires
        heap_appended(g, bytes) is Ok,
        agree(heap_appended(g, bytes)->Ok_0.0, b, marks_of(g)),
    ensures
        holds_at(b.field_data, heap_appended(g, bytes)->Ok_0.1 as int, bytes),
        heap_appended(g, bytes)->Ok_0.1 == g.field_data.len(),
{
    let g2 = heap_appended(g, bytes)->Ok_0.0;
    let off = g.field_data.len() as int;
    assert forall|i: int| 0 <= i < bytes.len() implies b.field_data.subrange(
        off,
        off + bytes.len(),
    )[i] == bytes[i] by {
        assert(b.field_data[off + i] == g2.field_data[off + i]);
    }
    assert(b.field_data.subrange(off, off + bytes.len()) =~= bytes);
}

/// Resolving no fields gives none; resolving one field more resolves the
/// fields before it, then the field itself.
pub proof fn lemma_resolved_cells_step(
    g: GffView,
    tlk: Option<TlkView>,
    s: BinStruct,
    n: nat,
    fuel: nat,
)
    ensures
        resolved_cells(g, tlk, s, 0, fuel) == Ok::<Seq<LabeledFieldView>, Error>(Seq::empty()),
        resolved_cells(g, tlk, s, n + 1, fuel) == match resolved_cells(g, tlk, s, n, fuel) {
            Err(e) => Err::<Seq<LabeledFieldView>, Error>(e),
            Ok(cells) => match resolved_cell(g, tlk, s, n as int, fuel) {
                Err(e) => Err(e),
                Ok(c) => Ok(cells.push(c)),
            },
        },
{
    reveal_with_fuel(resolved_cells, 2);
    assert(((n + 1) - 1) as nat == n);
}

/// Resolving no structs gives none; resolving one struct more resolves the
/// structs before it, then the struct itself.
pub proof fn lemma_resolved_structs_step(
    g: GffView,
    tlk: Option<TlkView>,
    start: int,
    n: nat,
    fuel: nat,
)
    ensures
        resolved_structs(g, tlk, start, 0, fuel) == Ok::<Seq<StructView>, Error>(Seq::empty()),
        resolved_structs(g, tlk, start, n + 1, fuel) == match resolved_structs(
            g,
            tlk,
            start,
            n,
            fuel,
        ) {
            Err(e) => Err::<Seq<StructView>, Error>(e),
            Ok(structs) => if g.list_indices[start + n] >= g.structs.len() {
                Err(Error::ParseError(crate::error::ParseFault::OutOfRange))
            } else {
                match resolved_struct(g, tlk, g.structs[g.list_indices[start + n] as int], fuel) {
                    Err(e) => Err(e),
                    Ok(s) => Ok(structs.push(s)),
                }
            },
        },
{
    reveal_with_fuel(resolved_structs, 2);
    assert(((n + 1) - 1) as nat == n);
}

/// The record of a field of the kind of `field` that keeps `offset`.
pub open spec fn record_of(field: FieldView, label_index: u32, offset: u32) -> BinField {
    BinField { id: field.field_type(), label_index, data_or_data_offset: offset }
}

/// A number that was stored in a field itself is resolved as the same number.
pub proof fn lemma_inline_round_trip(
    g: GffView,
    field: FieldView,
    tlk: Option<TlkView>,
    b: GffView,
    fuel: nat,
    label_index: u32,
)
    requires
        stored_value(g, field) is Ok,
        !field.field_type().spec_is_complex(),
    ensures
        resolved_field(
            b,
            tlk,
            record_of(field, label_index, stored_value(g, field)->Ok_0.1),
            fuel,
        ) == Ok::<FieldView, Error>(field),
{
    match field {
        FieldView::Short(v) => {
            let d = i32_as_u32(v as i32);
            assert(u16_as_i16((d % 0x1_0000) as u16) == v);
        },
        _ => {},
    }
}

/// A number of 64 bits that was stored in the field data is resolved as the same number.
pub proof fn lemma_wide_round_trip(
    g: GffView,
    field: FieldView,
    tlk: Option<TlkView>,
    b: GffView,
    fuel: nat,
    label_index: u32,
)
    requires
        stored_value(g, field) is Ok,
        agree(stored_value(g, field)->Ok_0.0, b, marks_of(g)),
        field is DWord64 || field is Int64 || field is Double,
    ensures
        resolved_field(
            b,
            tlk,
            record_of(field, label_index, stored_value(g, field)->Ok_0.1),
            fuel,
        ) == Ok::<FieldView, Error>(field),
{
    match field {
        FieldView::DWord64(v) => {
            lemma_appended_holds(g, u64_le_bytes(v), b);
            crate::files::lemma_u64_le_round_trip(v, Seq::empty());
        },
        FieldView::Int64(v) => {
            lemma_appended_holds(g, u64_le_bytes(i64_as_u64(v)), b);
            crate::files::lemma_u64_le_round_trip(i64_as_u64(v), Seq::empty());
            crate::files::lemma_sign_round_trip(0, 0, 0, 0, 0, v);
        },
        FieldView::Double(v) => {
            lemma_appended_holds(g, u64_le_bytes(v), b);
            crate::files::lemma_u64_le_round_trip(v, Seq::empty());
        },
        _ => {},
    }
}

/// A text, a name of a resource or opaque bytes that were stored in the
/// field data are resolved as the same value.
pub proof fn lemma_text_round_trip(
    g: GffView,
    field: FieldView,
    tlk: Option<TlkView>,
    b: GffView,
    fuel: nat,
    label_index: u32,
)
    requires
        stored_value(g, field) is Ok,
        agree(stored_value(g, field)->Ok_0.0, b, marks_of(g)),
        readable_value(field, tlk),
        field is ExoString || field is ResRef || field is Void,
    ensures
        resolved_field(
            b,
            tlk,
            record_of(field, label_index, stored_value(g, field)->Ok_0.1),
            fuel,
        ) == Ok::<FieldView, Error>(field),
{
    let off = stored_value(g, field)->Ok_0.1;
    match field {
        FieldView::ExoString(v) => {
            let bytes = exo_string_bytes(v);
            lemma_appended_holds(g, bytes, b);
            lemma_holds_split(b.field_data, off as int, bytes);
            crate::files::gff::exo_string::lemma_exo_string_round_trip(
                b.field_data.take(off as int),
                v,
                b.field_data.skip(off + bytes.len()),
            );
        },
        FieldView::ResRef(v) => {
            let bytes = res_ref_bytes(v);
            lemma_appended_holds(g, bytes, b);
            lemma_holds_split(b.field_data, off as int, bytes);
            crate::files::res_ref::lemma_res_ref_round_trip(
                b.field_data.take(off as int),
                v,
                b.field_data.skip(off + bytes.len()),
            );
        },
        FieldView::Void(v) => {
            let bytes = void_bytes(v);
            lemma_appended_holds(g, bytes, b);
            lemma_holds_split(b.field_data, off as int, bytes);
            crate::files::gff::void::lemma_void_round_trip(
                b.field_data.take(off as int),
                v,
                b.field_data.skip(off + bytes.len()),
            );
        },
        _ => {},
    }
}

/// A localized string that was stored in the field data is resolved as the
/// same localized string.
pub proof fn lemma_loc_round_trip(
    g: GffView,
    v: ExoLocStringView,
    tlk: Option<TlkView>,
    b: GffView,
    fuel: nat,
    label_index: u32,
)
    requires
        stored_value(g, FieldView::ExoLocString(v)) is Ok,
        agree(stored_value(g, FieldView::ExoLocString(v))->Ok_0.0, b, marks_of(g)),
        readable_loc(v, tlk),
    ensures
        resolved_field(
            b,
            tlk,
            record_of(
                FieldView::ExoLocString(v),
                label_index,
                stored_value(g, FieldView::ExoLocString(v))->Ok_0.1,
            ),
            fuel,
        ) == Ok::<FieldView, Error>(FieldView::ExoLocString(v)),
{
    let off = stored_value(g, FieldView::ExoLocString(v))->Ok_0.1;
    let bytes = exo_loc_string_bytes(v)->Some_0;
    lemma_appended_holds(g, bytes, b);
    lemma_holds_split(b.field_data, off as int, bytes);
    crate::files::gff::exo_string::lemma_exo_loc_string_round_trip(
        b.field_data.take(off as int),
        v,
        b.field_data.skip(off + bytes.len()),
        tlk,
    );
}

/// A list that was stored is resolved, from any file that agrees with the
/// one it was stored to, as the same list.
pub proof fn lemma_list_value_round_trip(
    g: GffView,
    l: Seq<StructView>,
    tlk: Option<TlkView>,
    b: GffView,
    fuel: nat,
    label_index: u32,
)
    requires
        stored_value(g, FieldView::List(l)) is Ok,
        agree(stored_value(g, FieldView::List(l))->Ok_0.0, b, marks_of(g)),
        forall|i: int| 0 <= i < l.len() ==> readable_struct(#[trigger] l[i], tlk),
        fuel >= 1 + stored_value(g, FieldView::List(l))->Ok_0.0.structs.len() - g.structs.len(),
    ensures
        resolved_field(
            b,
            tlk,
            record_of(
                FieldView::List(l),
                label_index,
                stored_value(g, FieldView::List(l))->Ok_0.1,
            ),
            fuel,
        ) matches Ok(v) && same_value(v, FieldView::List(l)),
    decreases l, l.len() + 1,
{
    let (g2, off) = stored_value(g, FieldView::List(l))->Ok_0;
    let o = g.list_indices.len() as int;
    let g1 = GffView { list_indices: g.list_indices.push(l.len() as u32) + zeros(l.len()), ..g };
    lemma_frame_list(g1, l, o + 1, l.len());
    assert(agree(g2, b, marks_of(g1)));
    assert forall|j: int| o + 1 <= j < o + 1 + l.len() implies #[trigger] b.list_indices[j]
        == g2.list_indices[j] by {}
    lemma_list_round_trip(g1, l, o + 1, l.len(), tlk, b, (fuel - 1) as nat);
    assert(g2.list_indices[o] == g1.list_indices[o]);
    assert(g1.list_indices[o] == l.len() as u32);
    assert(b.list_indices[o] == g2.list_indices[o]);
    assert(off == o * INDEX_SIZE);
    assert(off / INDEX_SIZE == o);
    let r = resolved_structs(b, tlk, o + 1, l.len(), (fuel - 1) as nat)->Ok_0;
    assert(resolved_field(b, tlk, record_of(FieldView::List(l), label_index, off), fuel) == Ok::<
        FieldView,
        Error,
    >(FieldView::List(r)));
}

/// A value that was stored is resolved, from any file that agrees with the
/// one it was stored to, as the same value.
pub proof fn lemma_value_round_trip(
    g: GffView,
    field: FieldView,
    tlk: Option<TlkView>,
    b: GffView,
    fuel: nat,
    label_index: u32,
)
    requires
        stored_value(g, field) is Ok,
        agree(stored_value(g, field)->Ok_0.0, b, marks_of(g)),
        readable_value(field, tlk),
        fuel >= 1 + stored_value(g, field)->Ok_0.0.structs.len() - g.structs.len(),
    ensures
        resolved_field(
            b,
            tlk,
            record_of(field, label_index, stored_value(g, field)->Ok_0.1),
            fuel,
        ) matches Ok(v) && same_value(v, field),
    decreases field, 0nat,
{
    match field {
        FieldView::DWord64(_) | FieldView::Int64(_) | FieldView::Double(_) => {
            lemma_wide_round_trip(g, field, tlk, b, fuel, label_index);
        },
        FieldView::ExoString(_) | FieldView::ResRef(_) | FieldView::Void(_) => {
            lemma_text_round_trip(g, field, tlk, b, fuel, label_index);
        },
        FieldView::ExoLocString(v) => {
            lemma_loc_round_trip(g, v, tlk, b, fuel, label_index);
        },
        FieldView::Struct(s) => {
            lemma_frame_struct(g, s);
            lemma_struct_round_trip(g, s, tlk, b, (fuel - 1) as nat);
        },
        FieldView::List(l) => {
            lemma_list_value_round_trip(g, l, tlk, b, fuel, label_index);
        },
        _ => {
            lemma_inline_round_trip(g, field, tlk, b, fuel, label_index);
        },
    }
}

/// The structs of a list that were stored are resolved, from any file that
/// agrees with the one they were stored to, as the same structs.
pub proof fn lemma_list_round_trip(
    g: GffView,
    l: Seq<StructView>,
    base: int,
    n: nat,
    tlk: Option<TlkView>,
    b: GffView,
    fuel: nat,
)
    requires
        stored_list(g, l, base, n) is Ok,
        n <= l.len(),
        0 <= base,
        base + l.len() <= g.list_indices.len(),
        agree(stored_list(g, l, base, n)->Ok_0, b, marks_of(g)),
        forall|j: int|
            base <= j < base + n ==> #[trigger] b.list_indices[j] == stored_list(
                g,
                l,
                base,
                n,
            )->Ok_0.list_indices[j],
        forall|i: int| 0 <= i < l.len() ==> readable_struct(#[trigger] l[i], tlk),
        fuel >= stored_list(g, l, base, n)->Ok_0.structs.len() - g.structs.len(),
    ensures
        resolved_structs(b, tlk, base, n, fuel) matches Ok(r) && r.len() == n && forall|i: int|
            0 <= i < n ==> same_struct(#[trigger] r[i], l[i]),
    decreases l, n,
{
    lemma_resolved_structs_step(b, tlk, base, 0, fuel);
    lemma_stored_list_step(g, l, base, 0);
    if n > 0 {
        let m = (n - 1) as nat;
        lemma_stored_list_step(g, l, base, m);
        lemma_resolved_structs_step(b, tlk, base, m, fuel);
        let gn = stored_list(g, l, base, n)->Ok_0;
        let gm = stored_list(g, l, base, m)->Ok_0;
        let (gs, index) = stored_struct(gm, l[m as int])->Ok_0;
        lemma_frame_list(g, l, base, m);
        lemma_frame_struct(gm, l[m as int]);
        assert(gn.list_indices == gs.list_indices.update(base + m, index));
        // the structs before the last
        lemma_extends_agree(gm, gs, marks_of(g), 0, 0, 0, 0);
        assert(agree(gs, gn, marks_of(g)));
        lemma_agree_trans(gm, gs, gn, marks_of(g), marks_of(g));
        lemma_agree_trans(gm, gn, b, marks_of(g), marks_of(g));
        assert forall|j: int| base <= j < base + m implies #[trigger] b.list_indices[j]
            == gm.list_indices[j] by {
            assert(gn.list_indices[j] == gs.list_indices[j]);
            assert(gs.list_indices[j] == gm.list_indices[j]);
        }
        lemma_list_round_trip(g, l, base, m, tlk, b, fuel);
        // the last struct
        assert(agree(gs, gn, marks_of(gm)));
        lemma_agree_trans(gs, gn, b, marks_of(gm), marks_of(g));
        lemma_struct_round_trip(gm, l[m as int], tlk, b, fuel);
        assert(b.list_indices[base + m] == index);
        let r0 = resolved_structs(b, tlk, base, m, fuel)->Ok_0;
        let s0 = resolved_struct(b, tlk, b.structs[index as int], fuel)->Ok_0;
        let r = r0.push(s0);
        assert(resolved_structs(b, tlk, base, n, fuel) == Ok::<Seq<StructView>, Error>(r));
        assert forall|i: int| 0 <= i < n implies same_struct(#[trigger] r[i], l[i]) by {
            if i < m {
                assert(r[i] == r0[i]);
            }
        }
    }
}

/// A field that was stored is found, in any file that agrees with the one
/// it was stored to, under its index, with its name, and is resolved as
/// the same value.
pub proof fn lemma_field_round_trip(
    g: GffView,
    cell: LabeledFieldView,
    tlk: Option<TlkView>,
    b: GffView,
    fuel: nat,
)
    requires
        stored_field(g, cell) is Ok,
        agree(stored_field(g, cell)->Ok_0.0, b, marks_of(g)),
        readable_cell(cell, tlk),
        fuel >= 1 + stored_field(g, cell)->Ok_0.0.structs.len() - g.structs.len(),
    ensures
        stored_field(g, cell)->Ok_0.1 == g.fields.len(),
        g.fields.len() < b.fields.len(),
        b.fields[g.fields.len() as int].label_index < b.labels.len(),
        b.labels[b.fields[g.fields.len() as int].label_index as int] == cell.label,
        resolved_field(b, tlk, b.fields[g.fields.len() as int], fuel) matches Ok(v) && same_value(
            v,
            cell.field,
        ),
    decreases cell, 1nat,
{
    lemma_registered(g, cell.label);
    let (g1, label_index) = registered(g, cell.label)->Ok_0;
    let fi = g1.fields.len() as int;
    let g1p = GffView {
        fields: g1.fields.push(
            BinField { id: cell.field.field_type(), label_index, data_or_data_offset: 0 },
        ),
        ..g1
    };
    let (g2, off) = stored_value(g1p, cell.field)->Ok_0;
    let record = record_of(cell.field, label_index, off);
    let g3 = stored_field(g, cell)->Ok_0.0;
    lemma_frame_value(g1p, cell.field);
    assert(g3.fields == g2.fields.update(fi, record));
    assert(g3.fields[fi] == record);
    assert(b.fields[fi] == g3.fields[fi]);
    assert(g2.labels[label_index as int] == g1p.labels[label_index as int]);
    assert(b.labels[label_index as int] == g3.labels[label_index as int]);
    assert(agree(g2, b, marks_of(g1p))) by {
        assert forall|i: int| marks_of(g1p).fields <= i < g2.fields.len() implies #[trigger] b.fields[i]
            == g2.fields[i] by {
            assert(b.fields[i] == g3.fields[i]);
        }
    }
    lemma_value_round_trip(g1p, cell.field, tlk, b, fuel, label_index);
}

/// The fields that were stored are resolved, from any file that agrees
/// with the one they were stored to, as the same fields.
pub proof fn lemma_cells_round_trip(
    g: GffView,
    cells: Seq<LabeledFieldView>,
    base: int,
    n: nat,
    tlk: Option<TlkView>,
    b: GffView,
    fuel: nat,
    record: BinStruct,
)
    requires
        stored_cells(g, cells, base, n) is Ok,
        n <= cells.len(),
        0 <= base,
        base + cells.len() <= g.field_indices.len(),
        agree(stored_cells(g, cells, base, n)->Ok_0, b, marks_of(g)),
        forall|j: int|
            base <= j < base + n ==> #[trigger] b.field_indices[j] == stored_cells(
                g,
                cells,
                base,
                n,
            )->Ok_0.field_indices[j],
        forall|i: int| 0 <= i < cells.len() ==> readable_cell(#[trigger] cells[i], tlk),
        fuel >= 1 + stored_cells(g, cells, base, n)->Ok_0.structs.len() - g.structs.len(),
        record.field_count > 1,
        record.data_or_data_offset == base * INDEX_SIZE,
    ensures
        resolved_cells(b, tlk, record, n, fuel) matches Ok(r) && r.len() == n && forall|i: int|
            0 <= i < n ==> same_cell(#[trigger] r[i], cells[i]),
    decreases cells, n,
{
    lemma_resolved_cells_step(b, tlk, record, 0, fuel);
    lemma_stored_cells_step(g, cells, base, 0);
    if n > 0 {
        let m = (n - 1) as nat;
        lemma_stored_cells_step(g, cells, base, m);
        lemma_resolved_cells_step(b, tlk, record, m, fuel);
        let gn = stored_cells(g, cells, base, n)->Ok_0;
        let gm = stored_cells(g, cells, base, m)->Ok_0;
        let (gs, index) = stored_field(gm, cells[m as int])->Ok_0;
        lemma_frame_cells(g, cells, base, m);
        lemma_frame_field(gm, cells[m as int]);
        assert(gn.field_indices == gs.field_indices.update(base + m, index));
        // the fields before the last
        lemma_extends_agree(gm, gs, marks_of(g), 0, 0, 0, 0);
        assert(agree(gs, gn, marks_of(g)));
        lemma_agree_trans(gm, gs, gn, marks_of(g), marks_of(g));
        lemma_agree_trans(gm, gn, b, marks_of(g), marks_of(g));
        assert forall|j: int| base <= j < base + m implies #[trigger] b.field_indices[j]
            == gm.field_indices[j] by {
            assert(gn.field_indices[j] == gs.field_indices[j]);
            assert(gs.field_indices[j] == gm.field_indices[j]);
        }
        lemma_cells_round_trip(g, cells, base, m, tlk, b, fuel, record);
        // the last field
        assert(agree(gs, gn, marks_of(gm)));
        lemma_agree_trans(gs, gn, b, marks_of(gm), marks_of(g));
        lemma_field_round_trip(gm, cells[m as int], tlk, b, fuel);
        assert(b.field_indices[base + m] == index);
        assert((base * INDEX_SIZE) / (INDEX_SIZE as int) == base);
        let r0 = resolved_cells(b, tlk, record, m, fuel)->Ok_0;
        let c0 = resolved_cell(b, tlk, record, m as int, fuel)->Ok_0;
        assert(resolved_cell(b, tlk, record, m as int, fuel) is Ok);
        let r = r0.push(c0);
        assert(resolved_cells(b, tlk, record, n, fuel) == Ok::<Seq<LabeledFieldView>, Error>(r));
        assert forall|i: int| 0 <= i < n implies same_cell(#[trigger] r[i], cells[i]) by {
            if i < m {
                assert(r[i] == r0[i]);
            }
        }
    }
}

/// The fields of a struct that were stored are resolved, from any file
/// that agrees with the one they were stored to, as the same fields.
pub proof fn lemma_fields_of_round_trip(
    g: GffView,
    s: StructView,
    tlk: Option<TlkView>,
    b: GffView,
    fuel: nat,
    record: BinStruct,
)
    requires
        stored_fields_of(g, s) is Ok,
        s.fields.len() <= u32::MAX,
        agree(stored_fields_of(g, s)->Ok_0.0, b, marks_of(g)),
        readable_struct(s, tlk),
        fuel >= 1 + stored_fields_of(g, s)->Ok_0.0.structs.len() - g.structs.len(),
        record.field_count == s.fields.len(),
        record.data_or_data_offset == stored_fields_of(g, s)->Ok_0.1,
    ensures
        resolved_cells(b, tlk, record, s.fields.len(), fuel) matches Ok(r) && r.len()
            == s.fields.len() && forall|i: int|
            0 <= i < s.fields.len() ==> same_cell(#[trigger] r[i], s.fields[i]),
    decreases s.fields, s.fields.len() + 1,
{
    lemma_resolved_cells_step(b, tlk, record, 0, fuel);
    if s.fields.len() == 0 {
    } else if s.fields.len() == 1 {
        lemma_field_round_trip(g, s.fields[0], tlk, b, fuel);
        assert(resolved_cell(b, tlk, record, 0, fuel) is Ok);
        let c0 = resolved_cell(b, tlk, record, 0, fuel)->Ok_0;
        let r = Seq::<LabeledFieldView>::empty().push(c0);
        assert(resolved_cells(b, tlk, record, 1, fuel) == Ok::<Seq<LabeledFieldView>, Error>(r));
        assert(same_cell(c0, s.fields[0]));
    } else {
        let base = g.field_indices.len() as int;
        let g1 = GffView { field_indices: g.field_indices + zeros(s.fields.len()), ..g };
        let g2 = stored_fields_of(g, s)->Ok_0.0;
        lemma_frame_cells(g1, s.fields, base, s.fields.len());
        assert(agree(g2, b, marks_of(g1)));
        assert forall|j: int|
            base <= j < base + s.fields.len() implies #[trigger] b.field_indices[j]
            == g2.field_indices[j] by {}
        lemma_cells_round_trip(g1, s.fields, base, s.fields.len(), tlk, b, fuel, record);
    }
}

/// A struct that was stored is resolved, from any file that agrees with
/// the one it was stored to, as the same struct.
pub proof fn lemma_struct_round_trip(
    g: GffView,
    s: StructView,
    tlk: Option<TlkView>,
    b: GffView,
    fuel: nat,
)
    requires
        stored_struct(g, s) is Ok,
        agree(stored_struct(g, s)->Ok_0.0, b, marks_of(g)),
        readable_struct(s, tlk),
        fuel >= stored_struct(g, s)->Ok_0.0.structs.len() - g.structs.len(),
    ensures
        g.structs.len() < b.structs.len(),
        stored_struct(g, s)->Ok_0.1 == g.structs.len(),
        resolved_struct(b, tlk, b.structs[g.structs.len() as int], fuel) matches Ok(r)
            && same_struct(r, s),
    decreases s, 0nat,
{
    let index = g.structs.len() as int;
    let g1 = GffView {
        structs: g.structs.push(
            BinStruct { id: s.id, data_or_data_offset: 0, field_count: s.fields.len() as u32 },
        ),
        ..g
    };
    let (g2, offset) = stored_fields_of(g1, s)->Ok_0;
    let record = BinStruct {
        id: s.id,
        data_or_data_offset: offset,
        field_count: s.fields.len() as u32,
    };
    let g3 = stored_struct(g, s)->Ok_0.0;
    lemma_frame_fields_of(g1, s);
    assert(g3.structs == g2.structs.update(index, record));
    assert(g3.structs[index] == record);
    assert(b.structs[index] == g3.structs[index]);
    assert(agree(g2, b, marks_of(g1))) by {
        assert forall|i: int| marks_of(g1).structs <= i < g2.structs.len() implies #[trigger] b.structs[i]
            == g2.structs[i] by {
            assert(b.structs[i] == g3.structs[i]);
        }
    }
    lemma_fields_of_round_trip(g1, s, tlk, b, fuel, record);
}

/// What can be read back has names that can be the content of labels.
pub proof fn lemma_readable_names(s: StructView, tlk: Option<TlkView>)
    requires
        readable_struct(s, tlk),
    ensures
        names_wf(s),
    decreases s, 0nat,
{
    assert forall|i: int| 0 <= i < s.fields.len() implies cell_names_wf(
        #[trigger] s.fields[i],
    ) by {
        lemma_readable_cell_names(s.fields[i], tlk);
    }
}

/// What can be read back has names that can be the content of labels.
pub proof fn lemma_readable_cell_names(c: LabeledFieldView, tlk: Option<TlkView>)
    requires
        readable_cell(c, tlk),
    ensures
        cell_names_wf(c),
    decreases c, 1nat,
{
    match c.field {
        FieldView::Struct(s) => {
            lemma_readable_names(s, tlk);
        },
        FieldView::List(l) => {
            assert forall|i: int| 0 <= i < l.len() implies names_wf(#[trigger] l[i]) by {
                lemma_readable_names(l[i], tlk);
            }
        },
        _ => {},
    }
}

/// **A tree that is written is read back as the same tree.**
///
/// Let `t` be a tree that can be written, with tags of valid UTF-8, names
/// of at most sixteen bytes without a zero, texts and names of resources
/// within their limits, and localized strings that hold what `tlk` gives
/// for their string references. Then the bytes that are written for `t`
/// are read, with `tlk`, as a tree with the same tags, structs, names and
/// values. Only the origins of the structs may differ: a struct that is
/// read has the origin "from the file".
pub proof fn lemma_tree_round_trip(t: TreeView, tlk: Option<TlkView>)
    requires
        tree_bytes(t) is Ok,
        readable_struct(t.root, tlk),
        vstd::utf8::valid_utf8(t.file_type@),
        vstd::utf8::valid_utf8(t.file_version@),
    ensures
        tree_at(tree_bytes(t)->Ok_0, 0, tlk) matches Ok(r) && r.file_type == t.file_type
            && r.file_version == t.file_version && same_struct(r.root, t.root),
{
    let start = empty_file(Header::spec_empty());
    let (g, index) = stored_struct(start, t.root)->Ok_0;
    let flat = laid_out(g, t.file_type, t.file_version)->Ok_0;
    lemma_frame_struct(start, t.root);
    lemma_readable_names(t.root, tlk);
    assert(labels_wf(start));
    assert(header_of(flat, t.file_type, t.file_version) == header_of(
        g,
        t.file_type,
        t.file_version,
    ));
    lemma_gff_bytes_round_trip(flat);
    assert(agree(g, flat, marks_of(start)));
    lemma_struct_round_trip(start, t.root, tlk, flat, flat.structs.len());
}

/// Two values that are the same but for origins are stored in the same way.
pub proof fn lemma_same_value_stored(g: GffView, a: FieldView, b: FieldView)
    requires
        same_value(a, b),
    ensures
        a.field_type() == b.field_type(),
        stored_value(g, a) == stored_value(g, b),
    decreases a, 0nat,
{
    match a {
        FieldView::Struct(x) => {
            lemma_same_struct_stored(g, x, b->Struct_0);
        },
        FieldView::List(x) => {
            let y = b->List_0;
            let g1 = GffView {
                list_indices: g.list_indices.push(x.len() as u32) + zeros(x.len()),
                ..g
            };
            lemma_same_list_stored(g1, x, y, g.list_indices.len() as int + 1, x.len());
        },
        _ => {},
    }
}

/// Two lists that are the same but for origins are stored in the same way.
pub proof fn lemma_same_list_stored(
    g: GffView,
    a: Seq<StructView>,
    b: Seq<StructView>,
    base: int,
    n: nat,
)
    requires
        a.len() == b.len(),
        n <= a.len(),
        forall|i: int| 0 <= i < a.len() ==> same_struct(#[trigger] a[i], b[i]),
    ensures
        stored_list(g, a, base, n) == stored_list(g, b, base, n),
    decreases a, n,
{
    lemma_stored_list_step(g, a, base, 0);
    lemma_stored_list_step(g, b, base, 0);
    if n > 0 {
        let m = (n - 1) as nat;
        lemma_stored_list_step(g, a, base, m);
        lemma_stored_list_step(g, b, base, m);
        lemma_same_list_stored(g, a, b, base, m);
        if stored_list(g, a, base, m) is Ok {
            assert(same_struct(a[m as int], b[m as int]));
            lemma_same_struct_stored(stored_list(g, a, base, m)->Ok_0, a[m as int], b[m as int]);
        }
    }
}

/// Two fields that are the same but for origins are stored in the same way.
pub proof fn lemma_same_field_stored(g: GffView, a: LabeledFieldView, b: LabeledFieldView)
    requires
        same_cell(a, b),
    ensures
        stored_field(g, a) == stored_field(g, b),
    decreases a, 1nat,
{
    if registered(g, a.label) is Ok {
        let (g1, label_index) = registered(g, a.label)->Ok_0;
        let g1p = GffView {
            fields: g1.fields.push(
                BinField { id: a.field.field_type(), label_index, data_or_data_offset: 0 },
            ),
            ..g1
        };
        lemma_same_value_stored(g1p, a.field, b.field);
    } else {
        lemma_same_value_stored(g, a.field, b.field);
    }
}

/// Fields that are the same but for origins are stored in the same way.
pub proof fn lemma_same_cells_stored(
    g: GffView,
    a: Seq<LabeledFieldView>,
    b: Seq<LabeledFieldView>,
    base: int,
    n: nat,
)
    requires
        a.len() == b.len(),
        n <= a.len(),
        forall|i: int| 0 <= i < a.len() ==> same_cell(#[trigger] a[i], b[i]),
    ensures
        stored_cells(g, a, base, n) == stored_cells(g, b, base, n),
    decreases a, n,
{
    lemma_stored_cells_step(g, a, base, 0);
    lemma_stored_cells_step(g, b, base, 0);
    if n > 0 {
        let m = (n - 1) as nat;
        lemma_stored_cells_step(g, a, base, m);
        lemma_stored_cells_step(g, b, base, m);
        lemma_same_cells_stored(g, a, b, base, m);
        if stored_cells(g, a, base, m) is Ok {
            assert(same_cell(a[m as int], b[m as int]));
            lemma_same_field_stored(stored_cells(g, a, base, m)->Ok_0, a[m as int], b[m as int]);
        }
    }
}

/// The fields of two structs that are the same but for origins are stored
/// in the same way.
pub proof fn lemma_same_fields_of_stored(g: GffView, a: StructView, b: StructView)
    requires
        same_struct(a, b),
    ensures
        stored_fields_of(g, a) == stored_fields_of(g, b),
    decreases a.fields, a.fields.len() + 1,
{
    if a.fields.len() == 0 {
    } else if a.fields.len() == 1 {
        assert(same_cell(a.fields[0], b.fields[0]));
        lemma_same_field_stored(g, a.fields[0], b.fields[0]);
    } else {
        let g1 = GffView { field_indices: g.field_indices + zeros(a.fields.len()), ..g };
        lemma_same_cells_stored(
            g1,
            a.fields,
            b.fields,
            g.field_indices.len() as int,
            a.fields.len(),
        );
    }
}

/// Two structs that are the same but for origins are stored in the same way.
pub proof fn lemma_same_struct_stored(g: GffView, a: StructView, b: StructView)
    requires
        same_struct(a, b),
    ensures
        stored_struct(g, a) == stored_struct(g, b),
    decreases a, 0nat,
{
    let g1 = GffView {
        structs: g.structs.push(
            BinStruct { id: a.id, data_or_data_offset: 0, field_count: a.fields.len() as u32 },
        ),
        ..g
    };
    lemma_same_fields_of_stored(g1, a, b);
}

/// **The bytes that are written for a tree are written again for the tree
/// that is read from them.**
///
/// Let `bytes` be what is written for a tree `t` as in
/// [`lemma_tree_round_trip`]. Then the tree that is read from `bytes` is
/// written, unchanged, as `bytes`.
pub proof fn lemma_bytes_round_trip(t: TreeView, tlk: Option<TlkView>)
    requires
        tree_bytes(t) is Ok,
        readable_struct(t.root, tlk),
        vstd::utf8::valid_utf8(t.file_type@),
        vstd::utf8::valid_utf8(t.file_version@),
    ensures
        tree_at(tree_bytes(t)->Ok_0, 0, tlk) matches Ok(r) && tree_bytes(r) == tree_bytes(t),
{
    lemma_tree_round_trip(t, tlk);
    let r = tree_at(tree_bytes(t)->Ok_0, 0, tlk)->Ok_0;
    lemma_same_struct_stored(empty_file(Header::spec_empty()), r.root, t.root);
}

/// **A localized string without a string reference needs no resolver.**
///
/// Where the string reference of a localized string is the one that
/// stands for "no text", reading gives the same with every resolver and
/// without one, and the localized string that is read holds no text for
/// its string reference.
pub proof fn lemma_sentinel_needs_no_resolver(
    bytes: Seq<u8>,
    pos: int,
    tlk1: Option<TlkView>,
    tlk2: Option<TlkView>,
)
    requires
        u32_at(bytes, pos + 4) == Some(NO_STR_REF),
    ensures
        exo_loc_string_at(bytes, pos, tlk1) == exo_loc_string_at(bytes, pos, tlk2),
        exo_loc_string_at(bytes, pos, tlk1) matches Ok(v) ==> v.0.tlk_string is None,
{
}

/// Whether `v` holds the text that `tlk` gives for its string reference,
/// so that it is read back as it is.
fn loc_is_readable(v: &ExoLocString, tlk: Option<&Tlk>) -> (r: bool)
    ensures
        r == readable_loc(v@, tlk_view(tlk)),
{
    let ghost views = sub_string_views(v.substrings@);
    let mut i: usize = 0;
    while i < v.substrings.len()
        invariant
            0 <= i <= v.substrings@.len(),
            views == sub_string_views(v.substrings@),
            forall|k: int| 0 <= k < i ==> (#[trigger] views[k]).data.len() <= MAX_TEXT_LEN,
        decreases v.substrings@.len() - i,
    {
        let bytes = v.substrings[i].data.as_bytes();
        i = i + 1;
    }
    match resolve_text(tlk, v.str_ref) {
        Ok(Some(text)) => match &v.tlk_string {
            Some(held) => is_text(text.as_str(), held.as_str()),
            None => false,
        },
        Ok(None) => v.tlk_string.is_none(),
        Err(_) => false,
    }
}

/// A list can be read back exactly if each of its structs can.
pub proof fn lemma_readable_list(l: Seq<StructView>, tlk: Option<TlkView>)
    ensures
        readable_value(FieldView::List(l), tlk) == (forall|i: int|
            0 <= i < l.len() ==> readable_struct(#[trigger] l[i], tlk)),
{
    let f = FieldView::List(l);
    assert(f->List_0 == l);
    if readable_value(f, tlk) {
        assert forall|i: int| 0 <= i < l.len() implies readable_struct(#[trigger] l[i], tlk) by {
            assert(f->List_0[i] == l[i]);
        }
    }
}

/// Whether a file that holds the structs `l` gives them back when it is
/// read with `tlk`.
fn structs_are_readable(l: &Vec<Struct>, tlk: Option<&Tlk>) -> (r: bool)
    ensures
        r == forall|k: int|
            0 <= k < struct_views(l@).len() ==> readable_struct(
                #[trigger] struct_views(l@)[k],
                tlk_view(tlk),
            ),
    decreases l, 1nat,
{
    proof {
        lemma_struct_views(l@);
    }
    let mut i: usize = 0;
    while i < l.len()
        invariant
            0 <= i <= l@.len(),
            struct_views(l@).len() == l@.len(),
            forall|k: int| 0 <= k < l@.len() ==> struct_views(l@)[k] == l@[k]@,
            forall|k: int|
                0 <= k < i ==> readable_struct(#[trigger] struct_views(l@)[k], tlk_view(tlk)),
        decreases l@.len() - i,
    {
        if !l[i].is_readable(tlk) {
            assert(!readable_struct(struct_views(l@)[i as int], tlk_view(tlk)));
            return false;
        }
        i = i + 1;
    }
    true
}

/// Whether a file that holds the value `f` gives it back when it is read with `tlk`.
fn value_is_readable(f: &Field, tlk: Option<&Tlk>) -> (r: bool)
    ensures
        r == readable_value(f@, tlk_view(tlk)),
    decreases f, 0nat,
{
    proof {
        reveal_with_fuel(readable_value, 2);
    }
    match f {
        Field::ExoString(t) => {
            let bytes = t.as_bytes();
            assert(f@ == FieldView::ExoString(t@));
            assert(t@.len() <= MAX_TEXT_LEN);
            assert(readable_value(FieldView::ExoString(t@), tlk_view(tlk)));
            true
        },
        Field::ResRef(n) => {
            let bytes = n.as_bytes();
            assert(f@ == FieldView::ResRef(n@));
            assert(n@.len() <= RES_REF_SIZE);
            assert(readable_value(FieldView::ResRef(n@), tlk_view(tlk)));
            true
        },
        Field::ExoLocString(v) => {
            assert(f@ == FieldView::ExoLocString(v@));
            loc_is_readable(v, tlk)
        },
        Field::Struct(s) => {
            assert(f@ == FieldView::Struct(s@));
            s.is_readable(tlk)
        },
        Field::List(l) => {
            assert(f@ == FieldView::List(struct_views(l@)));
            let r = structs_are_readable(l, tlk);
            proof {
                let lv = struct_views(l@);
                let t = tlk_view(tlk);
                lemma_readable_list(lv, t);
            }
            r
        },
        _ => {
            assert(!(f@ is ExoString) && !(f@ is ResRef) && !(f@ is ExoLocString) && !(f@
                is Struct) && !(f@ is List));
            true
        },
    }
}

impl Struct {
    /// Whether a file that holds this struct gives it back when it is read
    /// with `tlk`: whether every localized string in it holds the text that
    /// `tlk` gives for its string reference. Such a struct is one of which
    /// [`lemma_tree_round_trip`] speaks.
    pub fn is_readable(&self, tlk: Option<&Tlk>) -> (r: bool)
        ensures
            r == readable_struct(self@, tlk_view(tlk)),
        decreases self, 0nat,
    {
        proof {
            lemma_views(*self, arbitrary());
            lemma_cell_views(self.fields@);
        }
        let mut i: usize = 0;
        while i < self.fields.len()
            invariant
                0 <= i <= self.fields@.len(),
                self@.fields.len() == self.fields@.len(),
                forall|k: int| 0 <= k < self.fields@.len() ==> self@.fields[k] == self.fields@[k]@,
                forall|k: int|
                    0 <= k < i ==> readable_cell(#[trigger] self@.fields[k], tlk_view(tlk)),
            decreases self.fields@.len() - i,
        {
            let cell = &self.fields[i];
            proof {
                lemma_views(arbitrary(), *cell);
            }
            let name = cell.0.label.as_bytes();
            if !value_is_readable(&cell.0.field, tlk) {
                assert(!readable_cell(self@.fields[i as int], tlk_view(tlk)));
                return false;
            }
            i = i + 1;
        }
        true
    }
}

} // verus!
