//! From the tree of structs and fields to the flat form of a file.
//!
//! Structs and fields are numbered in the order in which the tree is
//! walked, parents before children. Labels are numbered at first sight. Every
//! value that does not fit in four bytes is appended to the field data.

use crate::error::{Error, WriteFault};
use crate::files::{
    i32_as_u32, i32_to_u32, i64_as_u64, i64_to_u64, push_u64_le, u64_le_bytes, Offset,
};
use crate::files::gff::{FixedSizeString, Header, HEADER_SIZE};
use crate::files::gff::bin::{
    label_views, Field as BinField, FIELD_SIZE, Gff as BinGff, GffView, INDEX_SIZE,
    Struct as BinStruct, STRUCT_SIZE,
};
use crate::files::gff::exo_string::{exo_loc_string_bytes, exo_string_bytes};
use crate::files::gff::field::{Field, FieldView, LabeledField, LabeledFieldView};
use crate::files::gff::label::{Label, LABEL_SIZE};
use crate::files::gff::structs::{
    cell_views, lemma_cell_views, lemma_struct_views, struct_views, Struct, StructField, StructView,
};
use crate::files::gff::void::void_bytes;
use crate::files::res_ref::res_ref_bytes;
use vstd::prelude::*;

verus! {

/// The position of the first of `labels` that equals `l`; their number if none does.
pub open spec fn label_position(labels: Seq<Seq<u8>>, l: Seq<u8>) -> int
    decreases labels.len(),
{
    if labels.len() == 0 || labels[0] == l {
        0
    } else {
        1 + label_position(labels.drop_first(), l)
    }
}

/// `label_position(labels, l)` is the one position before which no label
/// equals `l` and at which the labels end or one does.
pub proof fn lemma_label_position(labels: Seq<Seq<u8>>, l: Seq<u8>, n: int)
    requires
        0 <= n <= labels.len(),
        forall|i: int| 0 <= i < n ==> labels[i] != l,
        n == labels.len() || labels[n] == l,
    ensures
        label_position(labels, l) == n,
    decreases labels.len(),
{
    if labels.len() == 0 || labels[0] == l {
    } else {
        lemma_label_position(labels.drop_first(), l, n - 1);
    }
}

/// No label before `label_position(labels, l)` equals `l`, and the label there does.
pub proof fn lemma_label_position_bounds(labels: Seq<Seq<u8>>, l: Seq<u8>)
    ensures
        0 <= label_position(labels, l) <= labels.len(),
        forall|i: int| 0 <= i < label_position(labels, l) ==> labels[i] != l,
        label_position(labels, l) < labels.len() ==> labels[label_position(labels, l)] == l,
    decreases labels.len(),
{
    if labels.len() == 0 || labels[0] == l {
    } else {
        let t = labels.drop_first();
        lemma_label_position_bounds(t, l);
        assert forall|i: int| 0 <= i < label_position(labels, l) implies labels[i] != l by {
            if i > 0 {
                assert(labels[i] == t[i - 1]);
            }
        }
    }
}

/// The file after the label `l` has been registered, and the index of `l`:
/// that of its first occurrence among the labels, to which it is added if it
/// does not occur.
pub open spec fn registered(g: GffView, l: Seq<u8>) -> Result<(GffView, u32), Error> {
    let i = label_position(g.labels, l);
    if i > u32::MAX {
        Err(Error::WriteError(WriteFault::TooLarge))
    } else if i < g.labels.len() {
        Ok((g, i as u32))
    } else {
        Ok((GffView { labels: g.labels.push(l), ..g }, i as u32))
    }
}

/// The file after `bytes` have been appended to the field data, and the
/// offset at which they start.
pub open spec fn heap_appended(g: GffView, bytes: Seq<u8>) -> Result<(GffView, u32), Error> {
    if g.field_data.len() > u32::MAX {
        Err(Error::WriteError(WriteFault::TooLarge))
    } else {
        Ok((GffView { field_data: g.field_data + bytes, ..g }, g.field_data.len() as u32))
    }
}

/// `n` zeros.
pub open spec fn zeros(n: nat) -> Seq<u32> {
    Seq::new(n, |i: int| 0u32)
}

/// The file after the value `field` has been stored, and what a field that
/// holds the value keeps: the value itself, the offset of the value in the
/// field data, the index of the struct, or the offset in bytes of the list
/// among the list indices.
pub open spec fn stored_value(g: GffView, field: FieldView) -> Result<(GffView, u32), Error>
    decreases field, 0nat,
{
    match field {
        FieldView::Byte(v) => Ok((g, v as u32)),
        FieldView::Char(v) => Ok((g, v)),
        FieldView::Word(v) => Ok((g, v as u32)),
        FieldView::Short(v) => Ok((g, i32_as_u32(v as i32))),
        FieldView::DWord(v) => Ok((g, v)),
        FieldView::Int(v) => Ok((g, i32_as_u32(v))),
        FieldView::Float(v) => Ok((g, v)),
        FieldView::DWord64(v) => heap_appended(g, u64_le_bytes(v)),
        FieldView::Int64(v) => heap_appended(g, u64_le_bytes(i64_as_u64(v))),
        FieldView::Double(v) => heap_appended(g, u64_le_bytes(v)),
        FieldView::ExoString(v) => heap_appended(g, exo_string_bytes(v)),
        FieldView::ResRef(v) => heap_appended(g, res_ref_bytes(v)),
        FieldView::Void(v) => if v.len() > u32::MAX {
            Err(Error::WriteError(WriteFault::TooLarge))
        } else {
            heap_appended(g, void_bytes(v))
        },
        FieldView::ExoLocString(v) => match exo_loc_string_bytes(v) {
            None => Err(Error::WriteError(WriteFault::TooLarge)),
            Some(b) => heap_appended(g, b),
        },
        FieldView::Struct(s) => stored_struct(g, s),
        FieldView::List(l) => if l.len() > u32::MAX || g.list_indices.len() * INDEX_SIZE
            > u32::MAX {
            Err(Error::WriteError(WriteFault::TooLarge))
        } else {
            match stored_list(
                GffView {
                    list_indices: g.list_indices.push(l.len() as u32) + zeros(l.len()),
                    ..g
                },
                l,
                g.list_indices.len() as int + 1,
                l.len(),
            ) {
                Err(e) => Err(e),
                Ok(g2) => Ok((g2, (g.list_indices.len() * INDEX_SIZE) as u32)),
            }
        },
    }
}

/// The file after the first `n` structs of the list `l` have been stored,
/// and their indices entered at `base` and after it among the list indices.
pub open spec fn stored_list(g: GffView, l: Seq<StructView>, base: int, n: nat) -> Result<
    GffView,
    Error,
>
    decreases l, n,
{
    if n == 0 || n > l.len() {
        Ok(g)
    } else {
        match stored_list(g, l, base, (n - 1) as nat) {
            Err(e) => Err(e),
            Ok(g1) => match stored_struct(g1, l[n - 1]) {
                Err(e) => Err(e),
                Ok((g2, index)) => Ok(
                    GffView { list_indices: g2.list_indices.update(base + n - 1, index), ..g2 },
                ),
            },
        }
    }
}

/// The file after the field `cell` has been stored, and the index of the field.
pub open spec fn stored_field(g: GffView, cell: LabeledFieldView) -> Result<(GffView, u32), Error>
    decreases cell, 1nat,
{
    match registered(g, cell.label) {
        Err(e) => Err(e),
        Ok((g1, label_index)) => if g1.fields.len() > u32::MAX {
            Err(Error::WriteError(WriteFault::TooLarge))
        } else {
            match stored_value(
                GffView {
                    fields: g1.fields.push(
                        BinField {
                            id: cell.field.field_type(),
                            label_index,
                            data_or_data_offset: 0,
                        },
                    ),
                    ..g1
                },
                cell.field,
            ) {
                Err(e) => Err(e),
                Ok((g2, offset)) => Ok(
                    (
                        GffView {
                            fields: g2.fields.update(
                                g1.fields.len() as int,
                                BinField {
                                    id: cell.field.field_type(),
                                    label_index,
                                    data_or_data_offset: offset,
                                },
                            ),
                            ..g2
                        },
                        g1.fields.len() as u32,
                    ),
                ),
            }
        },
    }
}

/// The file after the first `n` of the fields `cells` have been stored, and
/// their indices entered at `base` and after it among the field indices.
pub open spec fn stored_cells(g: GffView, cells: Seq<LabeledFieldView>, base: int, n: nat) -> Result<
    GffView,
    Error,
>
    decreases cells, n,
{
    if n == 0 || n > cells.len() {
        Ok(g)
    } else {
        match stored_cells(g, cells, base, (n - 1) as nat) {
            Err(e) => Err(e),
            Ok(g1) => match stored_field(g1, cells[n - 1]) {
                Err(e) => Err(e),
                Ok((g2, index)) => Ok(
                    GffView { field_indices: g2.field_indices.update(base + n - 1, index), ..g2 },
                ),
            },
        }
    }
}

/// The file after the struct `s` and everything below it has been stored,
/// and the index of the struct.
///
/// A struct without fields keeps the value of its origin, a struct with one
/// field the index of the field, and a struct with more the offset in bytes,
/// among the field indices, of the indices of its fields.
pub open spec fn stored_struct(g: GffView, s: StructView) -> Result<(GffView, u32), Error>
    decreases s, 0nat,
{
    if s.fields.len() > u32::MAX || g.structs.len() > u32::MAX {
        Err(Error::WriteError(WriteFault::TooLarge))
    } else {
        match stored_fields_of(
            GffView {
                structs: g.structs.push(
                    BinStruct {
                        id: s.id,
                        data_or_data_offset: 0,
                        field_count: s.fields.len() as u32,
                    },
                ),
                ..g
            },
            s,
        ) {
            Err(e) => Err(e),
            Ok((g2, offset)) => Ok(
                (
                    GffView {
                        structs: g2.structs.update(
                            g.structs.len() as int,
                            BinStruct {
                                id: s.id,
                                data_or_data_offset: offset,
                                field_count: s.fields.len() as u32,
                            },
                        ),
                        ..g2
                    },
                    g.structs.len() as u32,
                ),
            ),
        }
    }
}

/// The file after the fields of the struct `s` have been stored, and what
/// the struct keeps in place of an offset.
pub open spec fn stored_fields_of(g: GffView, s: StructView) -> Result<(GffView, u32), Error>
    decreases s.fields, s.fields.len() + 1,
{
    if s.fields.len() == 0 {
        Ok((g, s.origin.spec_emitted()))
    } else if s.fields.len() == 1 {
        stored_field(g, s.fields[0])
    } else if g.field_indices.len() * INDEX_SIZE > u32::MAX {
        Err(Error::WriteError(WriteFault::TooLarge))
    } else {
        match stored_cells(
            GffView { field_indices: g.field_indices + zeros(s.fields.len()), ..g },
            s.fields,
            g.field_indices.len() as int,
            s.fields.len(),
        ) {
            Err(e) => Err(e),
            Ok(g2) => Ok((g2, (g.field_indices.len() * INDEX_SIZE) as u32)),
        }
    }
}

/// Storing no fields changes nothing; storing one field more stores the
/// fields before it, then the field itself, and enters its index.
pub proof fn lemma_stored_cells_step(g: GffView, cells: Seq<LabeledFieldView>, base: int, n: nat)
    ensures
        stored_cells(g, cells, base, 0) == Ok::<GffView, Error>(g),
        n < cells.len() ==> stored_cells(g, cells, base, n + 1) == match stored_cells(
            g,
            cells,
            base,
            n,
        ) {
            Err(e) => Err::<GffView, Error>(e),
            Ok(g1) => match stored_field(g1, cells[n as int]) {
                Err(e) => Err(e),
                Ok((g2, index)) => Ok(
                    GffView { field_indices: g2.field_indices.update(base + n, index), ..g2 },
                ),
            },
        },
{
    reveal_with_fuel(stored_cells, 2);
    assert(((n + 1) - 1) as nat == n);
}

/// Fields of which the first `n` cannot be stored cannot be stored as more either.
pub proof fn lemma_stored_cells_fail(
    g: GffView,
    cells: Seq<LabeledFieldView>,
    base: int,
    n: nat,
    m: nat,
)
    requires
        n <= m <= cells.len(),
        stored_cells(g, cells, base, n) is Err,
    ensures
        stored_cells(g, cells, base, m) == stored_cells(g, cells, base, n),
    decreases m,
{
    if n < m {
        lemma_stored_cells_fail(g, cells, base, n, (m - 1) as nat);
        lemma_stored_cells_step(g, cells, base, (m - 1) as nat);
    }
}

/// Storing no structs changes nothing; storing one struct more stores the
/// structs before it, then the struct itself, and enters its index.
pub proof fn lemma_stored_list_step(g: GffView, l: Seq<StructView>, base: int, n: nat)
    ensures
        stored_list(g, l, base, 0) == Ok::<GffView, Error>(g),
        n < l.len() ==> stored_list(g, l, base, n + 1) == match stored_list(g, l, base, n) {
            Err(e) => Err::<GffView, Error>(e),
            Ok(g1) => match stored_struct(g1, l[n as int]) {
                Err(e) => Err(e),
                Ok((g2, index)) => Ok(
                    GffView { list_indices: g2.list_indices.update(base + n, index), ..g2 },
                ),
            },
        },
{
    reveal_with_fuel(stored_list, 2);
    assert(((n + 1) - 1) as nat == n);
}

/// Structs of which the first `n` cannot be stored cannot be stored as more either.
pub proof fn lemma_stored_list_fail(g: GffView, l: Seq<StructView>, base: int, n: nat, m: nat)
    requires
        n <= m <= l.len(),
        stored_list(g, l, base, n) is Err,
    ensures
        stored_list(g, l, base, m) == stored_list(g, l, base, n),
    decreases m,
{
    if n < m {
        lemma_stored_list_fail(g, l, base, n, (m - 1) as nat);
        lemma_stored_list_step(g, l, base, (m - 1) as nat);
    }
}

/// Whether every section of `b` is at least as long as that of `a`.
pub open spec fn grown(a: GffView, b: GffView) -> bool {
    &&& a.header == b.header
    &&& a.structs.len() <= b.structs.len()
    &&& a.fields.len() <= b.fields.len()
    &&& a.labels.len() <= b.labels.len()
    &&& a.field_data.len() <= b.field_data.len()
    &&& a.field_indices.len() <= b.field_indices.len()
    &&& a.list_indices.len() <= b.list_indices.len()
}

/// Appends `n` zeros.
fn push_zeros(v: &mut Vec<u32>, n: usize)
    ensures
        final(v)@ == old(v)@ + zeros(n as nat),
{
    let mut i: usize = 0;
    while i < n
        invariant
            0 <= i <= n,
            v@ == old(v)@ + zeros(i as nat),
        decreases n - i,
    {
        v.push(0);
        i = i + 1;
        assert(v@ =~= old(v)@ + zeros(i as nat));
    }
}

impl BinGff {
    /// Registers `label` and returns its index: that of its first occurrence
    /// among the labels of the file, to which it is added if it does not
    /// occur. `WriteError(TooLarge)`, and no change, if the index does not fit
    /// in 32 bits.
    pub fn register_label(&mut self, label: &Label) -> (r: Result<u32, Error>)
        ensures
            match r {
                Ok(i) => registered(old(self)@, label@) == Ok::<(GffView, u32), Error>(
                    (final(self)@, i),
                ) && grown(old(self)@, final(self)@),
                Err(e) => registered(old(self)@, label@) == Err::<(GffView, u32), Error>(e)
                    && final(self)@ == old(self)@,
            },
    {
        let ghost views = label_views(self.labels@);
        let mut i: usize = 0;
        while i < self.labels.len()
            invariant
                0 <= i <= self.labels@.len(),
                *self == *old(self),
                views == label_views(self.labels@),
                forall|j: int| 0 <= j < i ==> views[j] != label@,
            decreases self.labels@.len() - i,
        {
            if self.labels[i].same(label) {
                proof {
                    lemma_label_position(views, label@, i as int);
                }
                if i > u32::MAX as usize {
                    return Err(Error::WriteError(WriteFault::TooLarge));
                }
                return Ok(i as u32);
            }
            i = i + 1;
        }
        proof {
            lemma_label_position(views, label@, i as int);
        }
        if i > u32::MAX as usize {
            return Err(Error::WriteError(WriteFault::TooLarge));
        }
        self.labels.push(label.clone());
        assert(label_views(self.labels@) =~= views.push(label@));
        Ok(i as u32)
    }

    /// Appends `bytes` to the field data and returns the offset at which they start.
    fn append_data(&mut self, bytes: &[u8]) -> (r: Result<u32, Error>)
        ensures
            match r {
                Ok(i) => heap_appended(old(self)@, bytes@) == Ok::<(GffView, u32), Error>(
                    (final(self)@, i),
                ) && grown(old(self)@, final(self)@),
                Err(e) => heap_appended(old(self)@, bytes@) == Err::<(GffView, u32), Error>(e)
                    && final(self)@ == old(self)@,
            },
    {
        let offset = self.field_data.len();
        if offset > u32::MAX as usize {
            return Err(Error::WriteError(WriteFault::TooLarge));
        }
        let _ = crate::files::write_all(&mut self.field_data, bytes);
        Ok(offset as u32)
    }

    /// Stores the value `field` and returns what a field that holds it keeps.
    pub fn store_value(&mut self, field: &Field) -> (r: Result<u32, Error>)
        ensures
            match r {
                Ok(i) => stored_value(old(self)@, field@) == Ok::<(GffView, u32), Error>(
                    (final(self)@, i),
                ) && grown(old(self)@, final(self)@),
                Err(e) => stored_value(old(self)@, field@) == Err::<(GffView, u32), Error>(e),
            },
        decreases field, 0nat,
    {
        match field {
            Field::Byte(v) => Ok(*v as u32),
            Field::Char(v) => Ok(v.0),
            Field::Word(v) => Ok(*v as u32),
            Field::Short(v) => Ok(i32_to_u32(*v as i32)),
            Field::DWord(v) => Ok(*v),
            Field::Int(v) => Ok(i32_to_u32(*v)),
            Field::Float(v) => Ok(*v),
            Field::DWord64(v) => {
                let mut bytes: Vec<u8> = Vec::new();
                push_u64_le(&mut bytes, *v);
                assert(bytes@ =~= u64_le_bytes(*v));
                self.append_data(bytes.as_slice())
            },
            Field::Int64(v) => {
                let mut bytes: Vec<u8> = Vec::new();
                push_u64_le(&mut bytes, i64_to_u64(*v));
                assert(bytes@ =~= u64_le_bytes(i64_as_u64(*v)));
                self.append_data(bytes.as_slice())
            },
            Field::Double(v) => {
                let mut bytes: Vec<u8> = Vec::new();
                push_u64_le(&mut bytes, *v);
                assert(bytes@ =~= u64_le_bytes(*v));
                self.append_data(bytes.as_slice())
            },
            Field::ExoString(v) => {
                let mut bytes: Vec<u8> = Vec::new();
                let _ = v.write(&mut bytes);
                assert(bytes@ =~= exo_string_bytes(v@));
                self.append_data(bytes.as_slice())
            },
            Field::ResRef(v) => {
                let mut bytes: Vec<u8> = Vec::new();
                let _ = v.write(&mut bytes);
                assert(bytes@ =~= res_ref_bytes(v@));
                self.append_data(bytes.as_slice())
            },
            Field::Void(v) => {
                let mut bytes: Vec<u8> = Vec::new();
                v.write(&mut bytes)?;
                assert(bytes@ =~= void_bytes(v@));
                self.append_data(bytes.as_slice())
            },
            Field::ExoLocString(v) => {
                let mut bytes: Vec<u8> = Vec::new();
                v.write(&mut bytes)?;
                assert(bytes@ =~= exo_loc_string_bytes(v@)->Some_0);
                self.append_data(bytes.as_slice())
            },
            Field::Struct(s) => self.store_struct(s),
            Field::List(l) => {
                let base: usize = self.list_indices.len();
                if l.len() > u32::MAX as usize || base > (u32::MAX / INDEX_SIZE) as usize {
                    proof {
                        lemma_struct_views(l@);
                    }
                    return Err(Error::WriteError(WriteFault::TooLarge));
                }
                let ghost g0 = self@;
                proof {
                    lemma_struct_views(l@);
                }
                self.list_indices.push(l.len() as u32);
                push_zeros(&mut self.list_indices, l.len());
                assert(self@.list_indices =~= g0.list_indices.push(l@.len() as u32) + zeros(
                    l@.len(),
                ));
                self.store_list(l, base + 1)?;
                Ok((base * INDEX_SIZE as usize) as u32)
            },
        }
    }

    /// Stores the structs of the list `l`, and enters their indices at
    /// `base` and after it among the list indices.
    fn store_list(&mut self, l: &Vec<Struct>, base: usize) -> (r: Result<(), Error>)
        requires
            base + l@.len() <= old(self)@.list_indices.len(),
        ensures
            match r {
                Ok(_) => stored_list(old(self)@, struct_views(l@), base as int, l@.len()) == Ok::<
                    GffView,
                    Error,
                >(final(self)@) && grown(old(self)@, final(self)@),
                Err(e) => stored_list(old(self)@, struct_views(l@), base as int, l@.len())
                    == Err::<GffView, Error>(e),
            },
        decreases l, 0nat,
    {
        let ghost g1 = self@;
        let ghost views = struct_views(l@);
        proof {
            lemma_struct_views(l@);
            lemma_stored_list_step(g1, views, base as int, 0);
        }
        let mut k: usize = 0;
        while k < l.len()
            invariant
                0 <= k <= l@.len(),
                g1 == old(self)@,
                views == struct_views(l@),
                views.len() == l@.len(),
                forall|j: int| 0 <= j < l@.len() ==> views[j] == l@[j]@,
                base + l@.len() <= self@.list_indices.len(),
                grown(g1, self@),
                stored_list(g1, views, base as int, k as nat) == Ok::<GffView, Error>(self@),
            decreases l@.len() - k,
        {
            proof {
                lemma_stored_list_step(g1, views, base as int, k as nat);
            }
            match self.store_struct(&l[k]) {
                Ok(index) => {
                    let n = self.list_indices.len();
                    self.list_indices[base + k] = index;
                },
                Err(e) => {
                    proof {
                        lemma_stored_list_fail(g1, views, base as int, (k + 1) as nat, l@.len());
                    }
                    return Err(e);
                },
            }
            k = k + 1;
        }
        Ok(())
    }

    /// Stores the fields `cells`, and enters their indices at `base` and
    /// after it among the field indices.
    fn store_cells(&mut self, cells: &Vec<StructField>, base: usize) -> (r: Result<(), Error>)
        requires
            base + cells@.len() <= old(self)@.field_indices.len(),
        ensures
            match r {
                Ok(_) => stored_cells(old(self)@, cell_views(cells@), base as int, cells@.len())
                    == Ok::<GffView, Error>(final(self)@) && grown(old(self)@, final(self)@),
                Err(e) => stored_cells(old(self)@, cell_views(cells@), base as int, cells@.len())
                    == Err::<GffView, Error>(e),
            },
        decreases cells, 0nat,
    {
        let ghost g1 = self@;
        let ghost views = cell_views(cells@);
        proof {
            lemma_cell_views(cells@);
            lemma_stored_cells_step(g1, views, base as int, 0);
        }
        let mut k: usize = 0;
        while k < cells.len()
            invariant
                0 <= k <= cells@.len(),
                g1 == old(self)@,
                views == cell_views(cells@),
                views.len() == cells@.len(),
                forall|j: int| 0 <= j < cells@.len() ==> views[j] == cells@[j]@,
                base + cells@.len() <= self@.field_indices.len(),
                grown(g1, self@),
                stored_cells(g1, views, base as int, k as nat) == Ok::<GffView, Error>(self@),
            decreases cells@.len() - k,
        {
            proof {
                lemma_stored_cells_step(g1, views, base as int, k as nat);
            }
            match self.store_field(&cells[k].0) {
                Ok(index) => {
                    let n = self.field_indices.len();
                    self.field_indices[base + k] = index;
                },
                Err(e) => {
                    proof {
                        lemma_stored_cells_fail(
                            g1,
                            views,
                            base as int,
                            (k + 1) as nat,
                            cells@.len(),
                        );
                    }
                    return Err(e);
                },
            }
            k = k + 1;
        }
        Ok(())
    }

    /// Stores the field `labeled_field` with everything below it, and
    /// returns its index among the fields of the file.
    pub fn store_field(&mut self, labeled_field: &LabeledField) -> (r: Result<u32, Error>)
        ensures
            match r {
                Ok(i) => stored_field(old(self)@, labeled_field@) == Ok::<(GffView, u32), Error>(
                    (final(self)@, i),
                ) && grown(old(self)@, final(self)@),
                Err(e) => stored_field(old(self)@, labeled_field@) == Err::<
                    (GffView, u32),
                    Error,
                >(e),
            },
        decreases labeled_field, 1nat,
    {
        let label_index = self.register_label(&labeled_field.label)?;
        let field_index = self.fields.len();
        if field_index > u32::MAX as usize {
            return Err(Error::WriteError(WriteFault::TooLarge));
        }
        let id = labeled_field.field.get_field_type();
        self.fields.push(BinField { id, label_index, data_or_data_offset: 0 });
        let offset = self.store_value(&labeled_field.field)?;
        self.fields[field_index] = BinField { id, label_index, data_or_data_offset: offset };
        Ok(field_index as u32)
    }

    /// Stores the struct `s` with everything below it, and returns its index
    /// among the structs of the file.
    pub fn store_struct(&mut self, s: &Struct) -> (r: Result<u32, Error>)
        ensures
            match r {
                Ok(i) => stored_struct(old(self)@, s@) == Ok::<(GffView, u32), Error>(
                    (final(self)@, i),
                ) && grown(old(self)@, final(self)@),
                Err(e) => stored_struct(old(self)@, s@) == Err::<(GffView, u32), Error>(e),
            },
        decreases s, 0nat,
    {
        let struct_index = self.structs.len();
        if s.fields.len() > u32::MAX as usize || struct_index > u32::MAX as usize {
            proof {
                lemma_cell_views(s.fields@);
            }
            return Err(Error::WriteError(WriteFault::TooLarge));
        }
        let field_count = s.fields.len() as u32;
        let ghost views = cell_views(s.fields@);
        proof {
            lemma_cell_views(s.fields@);
        }
        self.structs.push(BinStruct { id: s.id, data_or_data_offset: 0, field_count });
        let ghost g1 = self@;
        let offset: u32 = if field_count == 0 {
            s.origin.emitted()
        } else if field_count == 1 {
            self.store_field(&s.fields[0].0)?
        } else {
            let base: usize = self.field_indices.len();
            if base > (u32::MAX / INDEX_SIZE) as usize {
                return Err(Error::WriteError(WriteFault::TooLarge));
            }
            push_zeros(&mut self.field_indices, s.fields.len());
            self.store_cells(&s.fields, base)?;
            (base * INDEX_SIZE as usize) as u32
        };
        self.structs[struct_index] = BinStruct { id: s.id, data_or_data_offset: offset, field_count };
        Ok(struct_index as u32)
    }
}

/// A file without structs, fields, labels or data, under the header `header`.
pub open spec fn empty_file(header: Header) -> GffView {
    GffView {
        header,
        structs: Seq::empty(),
        fields: Seq::empty(),
        labels: Seq::empty(),
        field_data: Seq::empty(),
        field_indices: Seq::empty(),
        list_indices: Seq::empty(),
    }
}

/// Where the fields start if the sections of `g` follow the header and one another.
pub open spec fn field_offset_of(g: GffView) -> int {
    HEADER_SIZE + STRUCT_SIZE * g.structs.len()
}

/// Where the labels start if the sections of `g` follow the header and one another.
pub open spec fn label_offset_of(g: GffView) -> int {
    field_offset_of(g) + FIELD_SIZE * g.fields.len()
}

/// Where the field data start if the sections of `g` follow the header and one another.
pub open spec fn field_data_offset_of(g: GffView) -> int {
    label_offset_of(g) + LABEL_SIZE * g.labels.len()
}

/// Where the field indices start if the sections of `g` follow the header and one another.
pub open spec fn field_indices_offset_of(g: GffView) -> int {
    field_data_offset_of(g) + g.field_data.len()
}

/// Where the list indices start if the sections of `g` follow the header and one another.
pub open spec fn list_indices_offset_of(g: GffView) -> int {
    field_indices_offset_of(g) + INDEX_SIZE * g.field_indices.len()
}

/// The header that says how long each section of `g` is and where it
/// lies, when the sections follow the header and one another.
pub open spec fn header_of(
    g: GffView,
    file_type: FixedSizeString<4>,
    file_version: FixedSizeString<4>,
) -> Header {
    Header {
        file_type,
        file_version,
        struct_offset: Offset(HEADER_SIZE),
        struct_count: g.structs.len() as u32,
        field_offset: Offset(field_offset_of(g) as u32),
        field_count: g.fields.len() as u32,
        label_offset: Offset(label_offset_of(g) as u32),
        label_count: g.labels.len() as u32,
        field_data_offset: Offset(field_data_offset_of(g) as u32),
        field_data_count: g.field_data.len() as u32,
        field_indices_offset: Offset(field_indices_offset_of(g) as u32),
        field_indices_count: (INDEX_SIZE * g.field_indices.len()) as u32,
        list_indices_offset: Offset(list_indices_offset_of(g) as u32),
        list_indices_count: (INDEX_SIZE * g.list_indices.len()) as u32,
    }
}

/// Whether every count and every offset of the header of `g` fits in 32 bits.
pub open spec fn fits(g: GffView) -> bool {
    &&& list_indices_offset_of(g) <= u32::MAX
    &&& INDEX_SIZE * g.list_indices.len() <= u32::MAX
}

/// The file `g` under the header that describes it, if that header can be written.
pub open spec fn laid_out(
    g: GffView,
    file_type: FixedSizeString<4>,
    file_version: FixedSizeString<4>,
) -> Result<GffView, Error> {
    if fits(g) {
        Ok(GffView { header: header_of(g, file_type, file_version), ..g })
    } else {
        Err(Error::WriteError(WriteFault::TooLarge))
    }
}

/// The flat form of the file with the tags `file_type` and `file_version`
/// and the top-level struct `root`.
pub open spec fn flat_form(
    file_type: FixedSizeString<4>,
    file_version: FixedSizeString<4>,
    root: StructView,
) -> Result<GffView, Error> {
    match stored_struct(empty_file(Header::spec_empty()), root) {
        Err(e) => Err(e),
        Ok((g, _)) => laid_out(g, file_type, file_version),
    }
}

impl BinGff {
    /// Sets the header to the one that describes the sections, laid out
    /// after the header and one another, under the given tags.
    /// `WriteError(TooLarge)` if a count or an offset does not fit in 32 bits.
    pub fn lay_out(self, file_type: FixedSizeString<4>, file_version: FixedSizeString<4>) -> (r:
        Result<BinGff, Error>)
        ensures
            match r {
                Ok(g) => laid_out(self@, file_type, file_version) == Ok::<GffView, Error>(g@),
                Err(e) => laid_out(self@, file_type, file_version) == Err::<GffView, Error>(e),
            },
    {
        let limit: u64 = u32::MAX as u64;
        let structs = self.structs.len();
        let fields = self.fields.len();
        let labels = self.labels.len();
        let data = self.field_data.len();
        let field_indices = self.field_indices.len();
        let list_indices = self.list_indices.len();
        if structs > u32::MAX as usize || fields > u32::MAX as usize || labels > u32::MAX as usize
            || data > u32::MAX as usize || field_indices > u32::MAX as usize || list_indices
            > u32::MAX as usize {
            return Err(Error::WriteError(WriteFault::TooLarge));
        }
        let field_offset: u64 = HEADER_SIZE as u64 + STRUCT_SIZE as u64 * structs as u64;
        let label_offset: u64 = field_offset + FIELD_SIZE as u64 * fields as u64;
        let field_data_offset: u64 = label_offset + LABEL_SIZE as u64 * labels as u64;
        let field_indices_offset: u64 = field_data_offset + data as u64;
        let field_indices_count: u64 = INDEX_SIZE as u64 * field_indices as u64;
        let list_indices_offset: u64 = field_indices_offset + field_indices_count;
        let list_indices_count: u64 = INDEX_SIZE as u64 * list_indices as u64;
        if list_indices_offset > limit || list_indices_count > limit {
            return Err(Error::WriteError(WriteFault::TooLarge));
        }
        let header = Header {
            file_type,
            file_version,
            struct_offset: Offset(HEADER_SIZE),
            struct_count: structs as u32,
            field_offset: Offset(field_offset as u32),
            field_count: fields as u32,
            label_offset: Offset(label_offset as u32),
            label_count: labels as u32,
            field_data_offset: Offset(field_data_offset as u32),
            field_data_count: data as u32,
            field_indices_offset: Offset(field_indices_offset as u32),
            field_indices_count: field_indices_count as u32,
            list_indices_offset: Offset(list_indices_offset as u32),
            list_indices_count: list_indices_count as u32,
        };
        Ok(
            BinGff {
                header,
                structs: self.structs,
                fields: self.fields,
                labels: self.labels,
                field_data: self.field_data,
                field_indices: self.field_indices,
                list_indices: self.list_indices,
            },
        )
    }

    /// The flat form of the tree `data`: its structs and fields stored from
    /// the top-level struct down, under the header that describes them.
    /// `WriteError(TooLarge)` if a count, an index or an offset does not fit
    /// in 32 bits.
    pub fn from_data(data: &crate::files::gff::Gff) -> (r: Result<BinGff, Error>)
        ensures
            match r {
                Ok(g) => flat_form(data.file_type, data.file_version, data.root@) == Ok::<
                    GffView,
                    Error,
                >(g@),
                Err(e) => flat_form(data.file_type, data.file_version, data.root@) == Err::<
                    GffView,
                    Error,
                >(e),
            },
    {
        let mut this = BinGff::empty();
        assert(this@ =~= empty_file(Header::spec_empty())) by {
            assert(this@.structs =~= Seq::empty());
            assert(this@.fields =~= Seq::empty());
            assert(this@.labels =~= Seq::empty());
            assert(this@.field_data =~= Seq::empty());
            assert(this@.field_indices =~= Seq::empty());
            assert(this@.list_indices =~= Seq::empty());
        }
        let _ = this.store_struct(&data.root)?;
        this.lay_out(data.file_type, data.file_version)
    }
}

} // verus!
