//! The bytes of a file in its flat form are read back as the same file.

use crate::error::Error;
use crate::files::{lemma_u32_le_round_trip, u32_le_bytes};
use crate::files::gff::{header_at, header_bytes, lemma_tag_of, Header, HEADER_SIZE};
use crate::files::gff::bin::{
    field_bytes, field_of, fields_at, fields_bytes, gff_at, gff_bytes, indices_at, indices_bytes,
    labels_at, labels_bytes, lemma_fields_step, struct_bytes, struct_of, structs_at, structs_bytes,
    Field, FIELD_SIZE, FieldType, GffView, INDEX_SIZE, Struct, STRUCT_SIZE,
};
use crate::files::gff::frame::labels_wf;
use crate::files::gff::label::{label_wf, lemma_slot_round_trip, slot_of, LABEL_SIZE};
use crate::files::gff::store::{
    field_data_offset_of, field_indices_offset_of, field_offset_of, fits, header_of,
    label_offset_of, list_indices_offset_of,
};
use vstd::prelude::*;

verus! {

/// The twelve bytes of a struct are read back as the struct.
pub proof fn lemma_struct_bytes(s: Struct)
    ensures
        struct_bytes(s).len() == STRUCT_SIZE,
        struct_of(struct_bytes(s)) == s,
{
    let b = struct_bytes(s);
    lemma_u32_le_round_trip(s.id, b);
    lemma_u32_le_round_trip(s.data_or_data_offset, b);
    lemma_u32_le_round_trip(s.field_count, b);
    assert(b.subrange(0, 4) =~= u32_le_bytes(s.id));
    assert(b.subrange(4, 8) =~= u32_le_bytes(s.data_or_data_offset));
    assert(b.subrange(8, 12) =~= u32_le_bytes(s.field_count));
}

/// The twelve bytes of a field are read back as the field.
pub proof fn lemma_field_bytes(f: Field)
    ensures
        field_bytes(f).len() == FIELD_SIZE,
        field_of(field_bytes(f)) == Ok::<Field, Error>(f),
{
    let b = field_bytes(f);
    lemma_u32_le_round_trip(f.id.spec_as_num() as u32, b);
    lemma_u32_le_round_trip(f.label_index, b);
    lemma_u32_le_round_trip(f.data_or_data_offset, b);
    assert(b.subrange(0, 4) =~= u32_le_bytes(f.id.spec_as_num() as u32));
    assert(b.subrange(4, 8) =~= u32_le_bytes(f.label_index));
    assert(b.subrange(8, 12) =~= u32_le_bytes(f.data_or_data_offset));
    assert(FieldType::spec_from_num(f.id.spec_as_num() as u32) == Some(f.id));
}

/// The bytes of structs are twelve for each, and those of each struct
/// stand where its index says.
pub proof fn lemma_structs_bytes(s: Seq<Struct>, k: int)
    ensures
        structs_bytes(s).len() == STRUCT_SIZE * s.len(),
        0 <= k < s.len() ==> structs_bytes(s).subrange(STRUCT_SIZE * k, STRUCT_SIZE * (k + 1))
            == struct_bytes(s[k]),
    decreases s.len(),
{
    if s.len() > 0 {
        lemma_structs_bytes(s.drop_last(), k);
        lemma_struct_bytes(s.last());
        if 0 <= k < s.len() {
            if k == s.len() - 1 {
                assert(structs_bytes(s).subrange(STRUCT_SIZE * k, STRUCT_SIZE * (k + 1))
                    =~= struct_bytes(s[k]));
            } else {
                assert(structs_bytes(s).subrange(STRUCT_SIZE * k, STRUCT_SIZE * (k + 1))
                    =~= structs_bytes(s.drop_last()).subrange(
                    STRUCT_SIZE * k,
                    STRUCT_SIZE * (k + 1),
                ));
            }
        }
    }
}

/// The bytes of fields are twelve for each.
pub proof fn lemma_fields_bytes_len(s: Seq<Field>)
    ensures
        fields_bytes(s).len() == FIELD_SIZE * s.len(),
    decreases s.len(),
{
    if s.len() > 0 {
        lemma_fields_bytes_len(s.drop_last());
        lemma_field_bytes(s.last());
    }
}

/// The slots of labels are sixteen bytes for each, and that of each label
/// stands where its index says.
pub proof fn lemma_labels_bytes(s: Seq<Seq<u8>>, k: int)
    ensures
        labels_bytes(s).len() == LABEL_SIZE * s.len(),
        0 <= k < s.len() ==> labels_bytes(s).subrange(LABEL_SIZE * k, LABEL_SIZE * (k + 1))
            == slot_of(s[k]),
    decreases s.len(),
{
    if s.len() > 0 {
        lemma_labels_bytes(s.drop_last(), k);
        assert(slot_of(s.last()).len() == LABEL_SIZE);
        if 0 <= k < s.len() {
            if k == s.len() - 1 {
                assert(labels_bytes(s).subrange(LABEL_SIZE * k, LABEL_SIZE * (k + 1)) =~= slot_of(
                    s[k],
                ));
            } else {
                assert(labels_bytes(s).subrange(LABEL_SIZE * k, LABEL_SIZE * (k + 1))
                    =~= labels_bytes(s.drop_last()).subrange(
                    LABEL_SIZE * k,
                    LABEL_SIZE * (k + 1),
                ));
            }
        }
    }
}

/// The bytes of index entries are four for each, and those of each entry
/// stand where its index says.
pub proof fn lemma_indices_bytes(s: Seq<u32>, k: int)
    ensures
        indices_bytes(s).len() == INDEX_SIZE * s.len(),
        0 <= k < s.len() ==> indices_bytes(s).subrange(INDEX_SIZE * k, INDEX_SIZE * (k + 1))
            == u32_le_bytes(s[k]),
    decreases s.len(),
{
    if s.len() > 0 {
        lemma_indices_bytes(s.drop_last(), k);
        lemma_u32_le_round_trip(s.last(), Seq::empty());
        if 0 <= k < s.len() {
            if k == s.len() - 1 {
                assert(indices_bytes(s).subrange(INDEX_SIZE * k, INDEX_SIZE * (k + 1))
                    =~= u32_le_bytes(s[k]));
            } else {
                assert(indices_bytes(s).subrange(INDEX_SIZE * k, INDEX_SIZE * (k + 1))
                    =~= indices_bytes(s.drop_last()).subrange(
                    INDEX_SIZE * k,
                    INDEX_SIZE * (k + 1),
                ));
            }
        }
    }
}

/// Structs that were written are read back, whatever precedes and follows them.
pub proof fn lemma_structs_round_trip(before: Seq<u8>, s: Seq<Struct>, after: Seq<u8>)
    ensures
        structs_at(before + structs_bytes(s) + after, before.len() as int, s.len()) == Ok::<
            Seq<Struct>,
            Error,
        >(s),
{
    let all = before + structs_bytes(s) + after;
    let pos = before.len() as int;
    lemma_structs_bytes(s, 0);
    let r = structs_at(all, pos, s.len())->Ok_0;
    assert forall|k: int| 0 <= k < s.len() implies r[k] == s[k] by {
        lemma_structs_bytes(s, k);
        lemma_struct_bytes(s[k]);
        assert(all.subrange(pos + STRUCT_SIZE * k, pos + STRUCT_SIZE * (k + 1))
            =~= structs_bytes(s).subrange(STRUCT_SIZE * k, STRUCT_SIZE * (k + 1)));
    }
    assert(r =~= s);
}

/// Labels that were written are read back, whatever precedes and follows them.
pub proof fn lemma_labels_round_trip(before: Seq<u8>, s: Seq<Seq<u8>>, after: Seq<u8>)
    requires
        forall|i: int| 0 <= i < s.len() ==> label_wf(#[trigger] s[i]),
    ensures
        labels_at(before + labels_bytes(s) + after, before.len() as int, s.len()) == Ok::<
            Seq<Seq<u8>>,
            Error,
        >(s),
{
    let all = before + labels_bytes(s) + after;
    let pos = before.len() as int;
    lemma_labels_bytes(s, 0);
    let r = labels_at(all, pos, s.len())->Ok_0;
    assert forall|k: int| 0 <= k < s.len() implies r[k] == s[k] by {
        lemma_labels_bytes(s, k);
        lemma_slot_round_trip(s[k]);
        assert(all.subrange(pos + LABEL_SIZE * k, pos + LABEL_SIZE * (k + 1)) =~= labels_bytes(
            s,
        ).subrange(LABEL_SIZE * k, LABEL_SIZE * (k + 1)));
    }
    assert(r =~= s);
}

/// Index entries that were written are read back, whatever precedes and follows them.
pub proof fn lemma_indices_round_trip(before: Seq<u8>, s: Seq<u32>, after: Seq<u8>)
    ensures
        indices_at(before + indices_bytes(s) + after, before.len() as int, s.len()) == Ok::<
            Seq<u32>,
            Error,
        >(s),
{
    let all = before + indices_bytes(s) + after;
    let pos = before.len() as int;
    lemma_indices_bytes(s, 0);
    let r = indices_at(all, pos, s.len())->Ok_0;
    assert forall|k: int| 0 <= k < s.len() implies r[k] == s[k] by {
        lemma_indices_bytes(s, k);
        lemma_u32_le_round_trip(s[k], Seq::empty());
        assert(all.subrange(pos + INDEX_SIZE * k, pos + INDEX_SIZE * (k + 1)) =~= indices_bytes(
            s,
        ).subrange(INDEX_SIZE * k, INDEX_SIZE * (k + 1)));
    }
    assert(r =~= s);
}

/// Fields that were written are read back, whatever precedes and follows them.
pub proof fn lemma_fields_round_trip(before: Seq<u8>, s: Seq<Field>, n: nat, after: Seq<u8>)
    requires
        n <= s.len(),
    ensures
        fields_at(before + fields_bytes(s.take(n as int)) + after, before.len() as int, n) == Ok::<
            Seq<Field>,
            Error,
        >(s.take(n as int)),
    decreases n,
{
    let pos = before.len() as int;
    let all = before + fields_bytes(s.take(n as int)) + after;
    lemma_fields_step(all, pos, 0);
    if n == 0 {
        assert(s.take(0) =~= Seq::empty());
    } else {
        let m = (n - 1) as nat;
        let head = s.take(m as int);
        let last = s[m as int];
        let part = field_bytes(last);
        assert(s.take(n as int).drop_last() =~= head);
        assert(s.take(n as int).last() == last);
        assert(all =~= before + fields_bytes(head) + (part + after));
        lemma_fields_round_trip(before, s, m, part + after);
        lemma_fields_bytes_len(head);
        lemma_field_bytes(last);
        lemma_fields_step(all, pos, m);
        assert(all.subrange(pos + FIELD_SIZE * m, pos + FIELD_SIZE * m + FIELD_SIZE) =~= part);
        assert(head.push(last) =~= s.take(n as int));
    }
}

/// The 56 bytes of a header are read back as the header, whatever follows,
/// if its two tags are valid UTF-8.
#[verifier::rlimit(60)]
pub proof fn lemma_header_round_trip(h: Header, after: Seq<u8>)
    requires
        vstd::utf8::valid_utf8(h.file_type@),
        vstd::utf8::valid_utf8(h.file_version@),
    ensures
        header_bytes(h).len() == HEADER_SIZE,
        header_at(header_bytes(h) + after, 0) == Ok::<Header, Error>(h),
{
    let all = header_bytes(h) + after;
    h.file_type.lemma_len();
    h.file_version.lemma_len();
    lemma_tag_of(Seq::empty(), h.file_type);
    lemma_tag_of(Seq::empty(), h.file_version);
    lemma_u32_le_round_trip(h.struct_offset.0, after);
    lemma_u32_le_round_trip(h.struct_count, after);
    lemma_u32_le_round_trip(h.field_offset.0, after);
    lemma_u32_le_round_trip(h.field_count, after);
    lemma_u32_le_round_trip(h.label_offset.0, after);
    lemma_u32_le_round_trip(h.label_count, after);
    lemma_u32_le_round_trip(h.field_data_offset.0, after);
    lemma_u32_le_round_trip(h.field_data_count, after);
    lemma_u32_le_round_trip(h.field_indices_offset.0, after);
    lemma_u32_le_round_trip(h.field_indices_count, after);
    lemma_u32_le_round_trip(h.list_indices_offset.0, after);
    lemma_u32_le_round_trip(h.list_indices_count, after);
    assert(all.subrange(0, 4) =~= h.file_type@);
    assert(all.subrange(4, 8) =~= h.file_version@);
    assert(all.subrange(8, 12) =~= u32_le_bytes(h.struct_offset.0));
    assert(all.subrange(12, 16) =~= u32_le_bytes(h.struct_count));
    assert(all.subrange(16, 20) =~= u32_le_bytes(h.field_offset.0));
    assert(all.subrange(20, 24) =~= u32_le_bytes(h.field_count));
    assert(all.subrange(24, 28) =~= u32_le_bytes(h.label_offset.0));
    assert(all.subrange(28, 32) =~= u32_le_bytes(h.label_count));
    assert(all.subrange(32, 36) =~= u32_le_bytes(h.field_data_offset.0));
    assert(all.subrange(36, 40) =~= u32_le_bytes(h.field_data_count));
    assert(all.subrange(40, 44) =~= u32_le_bytes(h.field_indices_offset.0));
    assert(all.subrange(44, 48) =~= u32_le_bytes(h.field_indices_count));
    assert(all.subrange(48, 52) =~= u32_le_bytes(h.list_indices_offset.0));
    assert(all.subrange(52, 56) =~= u32_le_bytes(h.list_indices_count));
}

/// Seven runs of bytes, one after another, grouped around each of them.
pub proof fn lemma_regroup(
    h: Seq<u8>,
    s: Seq<u8>,
    f: Seq<u8>,
    l: Seq<u8>,
    d: Seq<u8>,
    fi: Seq<u8>,
    li: Seq<u8>,
)
    ensures
        h + s + f + l + d + fi + li == h + (s + f + l + d + fi + li),
        h + s + f + l + d + fi + li == h + s + (f + l + d + fi + li),
        h + s + f + l + d + fi + li == (h + s) + f + (l + d + fi + li),
        h + s + f + l + d + fi + li == (h + s + f) + l + (d + fi + li),
        h + s + f + l + d + fi + li == (h + s + f + l) + d + (fi + li),
        h + s + f + l + d + fi + li == (h + s + f + l + d) + fi + li,
        h + s + f + l + d + fi + li == (h + s + f + l + d + fi) + li + Seq::<u8>::empty(),
{
    let all = h + s + f + l + d + fi + li;
    assert(all =~= h + (s + f + l + d + fi + li));
    assert(all =~= h + s + (f + l + d + fi + li));
    assert(all =~= (h + s) + f + (l + d + fi + li));
    assert(all =~= (h + s + f) + l + (d + fi + li));
    assert(all =~= (h + s + f + l) + d + (fi + li));
    assert(all =~= (h + s + f + l + d) + fi + li);
    assert(all =~= (h + s + f + l + d + fi) + li + Seq::<u8>::empty());
}

/// The number of bytes of each section of a file.
pub proof fn lemma_section_lengths(g: GffView)
    requires
        vstd::utf8::valid_utf8(g.header.file_type@),
        vstd::utf8::valid_utf8(g.header.file_version@),
    ensures
        header_bytes(g.header).len() == HEADER_SIZE,
        structs_bytes(g.structs).len() == STRUCT_SIZE * g.structs.len(),
        fields_bytes(g.fields).len() == FIELD_SIZE * g.fields.len(),
        labels_bytes(g.labels).len() == LABEL_SIZE * g.labels.len(),
        indices_bytes(g.field_indices).len() == INDEX_SIZE * g.field_indices.len(),
        indices_bytes(g.list_indices).len() == INDEX_SIZE * g.list_indices.len(),
{
    lemma_structs_bytes(g.structs, 0);
    lemma_fields_bytes_len(g.fields);
    lemma_labels_bytes(g.labels, 0);
    lemma_indices_bytes(g.field_indices, 0);
    lemma_indices_bytes(g.list_indices, 0);
    lemma_header_round_trip(g.header, Seq::empty());
}

/// The header of a file is read back from its bytes.
pub proof fn lemma_section_header(g: GffView)
    requires
        vstd::utf8::valid_utf8(g.header.file_type@),
        vstd::utf8::valid_utf8(g.header.file_version@),
    ensures
        header_at(gff_bytes(g), 0) == Ok::<Header, Error>(g.header),
{
    let s = structs_bytes(g.structs);
    let f = fields_bytes(g.fields);
    let l = labels_bytes(g.labels);
    let fi = indices_bytes(g.field_indices);
    let li = indices_bytes(g.list_indices);
    lemma_regroup(header_bytes(g.header), s, f, l, g.field_data, fi, li);
    lemma_header_round_trip(g.header, s + f + l + g.field_data + fi + li);
}

/// The structs of a file are read back from its bytes.
pub proof fn lemma_section_structs(g: GffView)
    requires
        vstd::utf8::valid_utf8(g.header.file_type@),
        vstd::utf8::valid_utf8(g.header.file_version@),
    ensures
        structs_at(gff_bytes(g), HEADER_SIZE as int, g.structs.len()) == Ok::<Seq<Struct>, Error>(
            g.structs,
        ),
{
    let h = header_bytes(g.header);
    let s = structs_bytes(g.structs);
    let f = fields_bytes(g.fields);
    let l = labels_bytes(g.labels);
    let fi = indices_bytes(g.field_indices);
    let li = indices_bytes(g.list_indices);
    lemma_section_lengths(g);
    lemma_regroup(h, s, f, l, g.field_data, fi, li);
    lemma_structs_round_trip(h, g.structs, f + l + g.field_data + fi + li);
}

/// The fields of a file are read back from its bytes.
pub proof fn lemma_section_fields(g: GffView)
    requires
        vstd::utf8::valid_utf8(g.header.file_type@),
        vstd::utf8::valid_utf8(g.header.file_version@),
    ensures
        fields_at(gff_bytes(g), field_offset_of(g), g.fields.len()) == Ok::<Seq<Field>, Error>(
            g.fields,
        ),
{
    let h = header_bytes(g.header);
    let s = structs_bytes(g.structs);
    let f = fields_bytes(g.fields);
    let l = labels_bytes(g.labels);
    let fi = indices_bytes(g.field_indices);
    let li = indices_bytes(g.list_indices);
    lemma_section_lengths(g);
    lemma_regroup(h, s, f, l, g.field_data, fi, li);
    assert(g.fields.take(g.fields.len() as int) =~= g.fields);
    lemma_fields_round_trip(h + s, g.fields, g.fields.len(), l + g.field_data + fi + li);
}

/// The labels of a file are read back from its bytes.
pub proof fn lemma_section_labels(g: GffView)
    requires
        vstd::utf8::valid_utf8(g.header.file_type@),
        vstd::utf8::valid_utf8(g.header.file_version@),
        labels_wf(g),
    ensures
        labels_at(gff_bytes(g), label_offset_of(g), g.labels.len()) == Ok::<Seq<Seq<u8>>, Error>(
            g.labels,
        ),
{
    let h = header_bytes(g.header);
    let s = structs_bytes(g.structs);
    let f = fields_bytes(g.fields);
    let l = labels_bytes(g.labels);
    let fi = indices_bytes(g.field_indices);
    let li = indices_bytes(g.list_indices);
    lemma_section_lengths(g);
    lemma_regroup(h, s, f, l, g.field_data, fi, li);
    lemma_labels_round_trip(h + s + f, g.labels, g.field_data + fi + li);
}

/// The field data of a file are found in its bytes.
pub proof fn lemma_section_data(g: GffView)
    requires
        vstd::utf8::valid_utf8(g.header.file_type@),
        vstd::utf8::valid_utf8(g.header.file_version@),
    ensures
        field_data_offset_of(g) + g.field_data.len() <= gff_bytes(g).len(),
        gff_bytes(g).subrange(
            field_data_offset_of(g),
            field_data_offset_of(g) + g.field_data.len(),
        ) == g.field_data,
{
    let h = header_bytes(g.header);
    let s = structs_bytes(g.structs);
    let f = fields_bytes(g.fields);
    let l = labels_bytes(g.labels);
    let fi = indices_bytes(g.field_indices);
    let li = indices_bytes(g.list_indices);
    lemma_section_lengths(g);
    lemma_regroup(h, s, f, l, g.field_data, fi, li);
    let before = h + s + f + l;
    let all = before + g.field_data + (fi + li);
    assert(all.subrange(before.len() as int, before.len() as int + g.field_data.len())
        =~= g.field_data);
}

/// The field indices of a file are read back from its bytes.
pub proof fn lemma_section_field_indices(g: GffView)
    requires
        vstd::utf8::valid_utf8(g.header.file_type@),
        vstd::utf8::valid_utf8(g.header.file_version@),
    ensures
        indices_at(gff_bytes(g), field_indices_offset_of(g), g.field_indices.len()) == Ok::<
            Seq<u32>,
            Error,
        >(g.field_indices),
{
    let h = header_bytes(g.header);
    let s = structs_bytes(g.structs);
    let f = fields_bytes(g.fields);
    let l = labels_bytes(g.labels);
    let fi = indices_bytes(g.field_indices);
    let li = indices_bytes(g.list_indices);
    lemma_section_lengths(g);
    lemma_regroup(h, s, f, l, g.field_data, fi, li);
    lemma_indices_round_trip(h + s + f + l + g.field_data, g.field_indices, li);
}

/// The list indices of a file are read back from its bytes.
pub proof fn lemma_section_list_indices(g: GffView)
    requires
        vstd::utf8::valid_utf8(g.header.file_type@),
        vstd::utf8::valid_utf8(g.header.file_version@),
    ensures
        indices_at(gff_bytes(g), list_indices_offset_of(g), g.list_indices.len()) == Ok::<
            Seq<u32>,
            Error,
        >(g.list_indices),
{
    let h = header_bytes(g.header);
    let s = structs_bytes(g.structs);
    let f = fields_bytes(g.fields);
    let l = labels_bytes(g.labels);
    let fi = indices_bytes(g.field_indices);
    let li = indices_bytes(g.list_indices);
    lemma_section_lengths(g);
    lemma_regroup(h, s, f, l, g.field_data, fi, li);
    lemma_indices_round_trip(h + s + f + l + g.field_data + fi, g.list_indices, Seq::empty());
}

/// A header that describes the sections of a file holds their counts and
/// where they lie after the header and one another.
pub proof fn lemma_header_of(g: GffView)
    requires
        fits(g),
        g.header == header_of(g, g.header.file_type, g.header.file_version),
    ensures
        g.header.struct_offset.0 == HEADER_SIZE,
        g.header.struct_count == g.structs.len(),
        g.header.field_offset.0 == field_offset_of(g),
        g.header.field_count == g.fields.len(),
        g.header.label_offset.0 == label_offset_of(g),
        g.header.label_count == g.labels.len(),
        g.header.field_data_offset.0 == field_data_offset_of(g),
        g.header.field_data_count == g.field_data.len(),
        g.header.field_indices_offset.0 == field_indices_offset_of(g),
        g.header.field_indices_count / INDEX_SIZE == g.field_indices.len(),
        g.header.list_indices_offset.0 == list_indices_offset_of(g),
        g.header.list_indices_count / INDEX_SIZE == g.list_indices.len(),
{
    assert((INDEX_SIZE * g.field_indices.len()) as u32 / INDEX_SIZE == g.field_indices.len());
    assert((INDEX_SIZE * g.list_indices.len()) as u32 / INDEX_SIZE == g.list_indices.len());
}

/// The file that is read where a header says its sections lie.
pub proof fn lemma_gff_at(bytes: Seq<u8>, g: GffView)
    requires
        header_at(bytes, 0) == Ok::<Header, Error>(g.header),
        structs_at(bytes, g.header.struct_offset.0 as int, g.header.struct_count as nat) == Ok::<
            Seq<Struct>,
            Error,
        >(g.structs),
        fields_at(bytes, g.header.field_offset.0 as int, g.header.field_count as nat) == Ok::<
            Seq<Field>,
            Error,
        >(g.fields),
        labels_at(bytes, g.header.label_offset.0 as int, g.header.label_count as nat) == Ok::<
            Seq<Seq<u8>>,
            Error,
        >(g.labels),
        crate::files::gff::bin::data_at(
            bytes,
            g.header.field_data_offset.0 as int,
            g.header.field_data_count as int,
        ) == Some(g.field_data),
        indices_at(
            bytes,
            g.header.field_indices_offset.0 as int,
            (g.header.field_indices_count / INDEX_SIZE) as nat,
        ) == Ok::<Seq<u32>, Error>(g.field_indices),
        indices_at(
            bytes,
            g.header.list_indices_offset.0 as int,
            (g.header.list_indices_count / INDEX_SIZE) as nat,
        ) == Ok::<Seq<u32>, Error>(g.list_indices),
    ensures
        gff_at(bytes, 0) == Ok::<GffView, Error>(g),
{
}

/// The bytes of a file in its flat form are read back as the same file, if
/// its header says where its sections lie after the header and one
/// another, its tags are valid UTF-8, and each of its labels is at most
/// sixteen bytes without a zero.
pub proof fn lemma_gff_bytes_round_trip(g: GffView)
    requires
        fits(g),
        g.header == header_of(g, g.header.file_type, g.header.file_version),
        vstd::utf8::valid_utf8(g.header.file_type@),
        vstd::utf8::valid_utf8(g.header.file_version@),
        labels_wf(g),
    ensures
        gff_at(gff_bytes(g), 0) == Ok::<GffView, Error>(g),
{
    lemma_header_of(g);
    lemma_section_header(g);
    lemma_section_structs(g);
    lemma_section_fields(g);
    lemma_section_labels(g);
    lemma_section_data(g);
    lemma_section_field_indices(g);
    lemma_section_list_indices(g);
    assert(crate::files::gff::bin::data_at(
        gff_bytes(g),
        g.header.field_data_offset.0 as int,
        g.header.field_data_count as int,
    ) == Some(g.field_data)) by {
        if g.field_data.len() == 0 {
            assert(g.field_data =~= Seq::empty());
        }
    }
    lemma_gff_at(gff_bytes(g), g);
}

} // verus!
