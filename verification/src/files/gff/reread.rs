//! What is read can be written and read again.
//!
//! Every tree that is read from bytes holds names, texts and localized
//! strings as a file gives them, so the laws of writing and reading back
//! hold of it: [`lemma_read_write_read`].

use crate::files::gff::bin::{
    field_index_at, gff_at, resolved_cell, resolved_cells, resolved_field, resolved_struct,
    resolved_structs, Field as BinField, FieldType, GffView, Struct as BinStruct, INDEX_SIZE,
};
use crate::files::gff::exo_string::{
    lemma_sub_strings_none, lemma_sub_strings_step, sub_string_at, sub_strings_at,
};
use crate::files::gff::frame::labels_wf;
use crate::files::gff::label::{label_wf, lemma_first_zero_bounds, slot_content};
use crate::files::gff::laws::{
    lemma_bytes_round_trip, lemma_tree_round_trip, readable_cell, readable_struct,
    readable_value, same_struct,
};
use crate::files::gff::{header_at, lemma_tag_of, tree_at, tree_bytes};
use crate::files::tlk::TlkView;
use crate::files::{bytes_at, u32_at, MAX_TEXT_LEN};
use vstd::prelude::*;

verus! {

/// Texts that were read are none of them too long.
pub proof fn lemma_read_sub_strings(bytes: Seq<u8>, pos: int, n: nat)
    requires
        sub_strings_at(bytes, pos, n) is Ok,
    ensures
        forall|i: int|
            0 <= i < sub_strings_at(bytes, pos, n)->Ok_0.0.len() ==> (#[trigger] sub_strings_at(
                bytes,
                pos,
                n,
            )->Ok_0.0[i]).data.len() <= MAX_TEXT_LEN,
    decreases n,
{
    if n == 0 {
        lemma_sub_strings_none(bytes, pos);
    } else {
        let m = (n - 1) as nat;
        lemma_sub_strings_step(bytes, pos, m);
        assert(m + 1 == n);
        let (subs, p) = sub_strings_at(bytes, pos, m)->Ok_0;
        let (s, q) = sub_string_at(bytes, p)->Ok_0;
        lemma_read_sub_strings(bytes, pos, m);
        let all = sub_strings_at(bytes, pos, n)->Ok_0.0;
        assert(all == subs.push(s));
        assert forall|i: int| 0 <= i < all.len() implies (#[trigger] all[i]).data.len()
            <= MAX_TEXT_LEN by {
            if i < subs.len() {
                assert(all[i] == subs[i]);
            }
        }
    }
}

/// A value that was read is given back when it is written and read again.
pub proof fn lemma_read_value(g: GffView, tlk: Option<TlkView>, field: BinField, fuel: nat)
    requires
        labels_wf(g),
        resolved_field(g, tlk, field, fuel) is Ok,
    ensures
        readable_value(resolved_field(g, tlk, field, fuel)->Ok_0, tlk),
    decreases fuel, 0nat, 0nat,
{
    let d = field.data_or_data_offset;
    match field.id {
        FieldType::ExoLocString => {
            let count = u32_at(g.field_data, d as int + 8)->Some_0;
            lemma_read_sub_strings(g.field_data, d as int + 12, count as nat);
        },
        FieldType::Struct => {
            lemma_read_struct(g, tlk, g.structs[d as int], (fuel - 1) as nat);
        },
        FieldType::List => {
            let start = d / INDEX_SIZE;
            lemma_read_structs(
                g,
                tlk,
                start + 1,
                g.list_indices[start as int] as nat,
                (fuel - 1) as nat,
            );
        },
        _ => {},
    }
}

/// Fields that were read are given back when they are written and read again.
pub proof fn lemma_read_cells(g: GffView, tlk: Option<TlkView>, s: BinStruct, n: nat, fuel: nat)
    requires
        labels_wf(g),
        resolved_cells(g, tlk, s, n, fuel) is Ok,
    ensures
        forall|i: int|
            0 <= i < resolved_cells(g, tlk, s, n, fuel)->Ok_0.len() ==> readable_cell(
                #[trigger] resolved_cells(g, tlk, s, n, fuel)->Ok_0[i],
                tlk,
            ),
    decreases fuel, 2nat, n,
{
    if n > 0 {
        let m = (n - 1) as nat;
        let cells = resolved_cells(g, tlk, s, m, fuel)->Ok_0;
        let c = resolved_cell(g, tlk, s, n - 1, fuel)->Ok_0;
        let all = resolved_cells(g, tlk, s, n, fuel)->Ok_0;
        assert(all == cells.push(c));
        lemma_read_cells(g, tlk, s, m, fuel);
        let k = field_index_at(g, s, n - 1)->Ok_0;
        lemma_read_value(g, tlk, g.fields[k as int], fuel);
        assert(readable_cell(c, tlk));
        assert forall|i: int| 0 <= i < all.len() implies readable_cell(#[trigger] all[i], tlk) by {
            if i < cells.len() {
                assert(all[i] == cells[i]);
            }
        }
    }
}

/// A struct that was read is given back when it is written and read again.
pub proof fn lemma_read_struct(g: GffView, tlk: Option<TlkView>, s: BinStruct, fuel: nat)
    requires
        labels_wf(g),
        resolved_struct(g, tlk, s, fuel) is Ok,
    ensures
        readable_struct(resolved_struct(g, tlk, s, fuel)->Ok_0, tlk),
    decreases fuel, 3nat, 0nat,
{
    lemma_read_cells(g, tlk, s, s.field_count as nat, fuel);
}

/// Structs that were read are given back when they are written and read again.
pub proof fn lemma_read_structs(g: GffView, tlk: Option<TlkView>, start: int, n: nat, fuel: nat)
    requires
        labels_wf(g),
        resolved_structs(g, tlk, start, n, fuel) is Ok,
    ensures
        forall|i: int|
            0 <= i < resolved_structs(g, tlk, start, n, fuel)->Ok_0.len() ==> readable_struct(
                #[trigger] resolved_structs(g, tlk, start, n, fuel)->Ok_0[i],
                tlk,
            ),
    decreases fuel, 4nat, n,
{
    if n > 0 {
        let m = (n - 1) as nat;
        let structs = resolved_structs(g, tlk, start, m, fuel)->Ok_0;
        let s = resolved_struct(g, tlk, g.structs[g.list_indices[start + n - 1] as int], fuel)->Ok_0;
        let all = resolved_structs(g, tlk, start, n, fuel)->Ok_0;
        assert(all == structs.push(s));
        lemma_read_structs(g, tlk, start, m, fuel);
        lemma_read_struct(g, tlk, g.structs[g.list_indices[start + n - 1] as int], fuel);
        assert forall|i: int| 0 <= i < all.len() implies readable_struct(#[trigger] all[i], tlk) by {
            if i < structs.len() {
                assert(all[i] == structs[i]);
            }
        }
    }
}

/// The labels of a file that was read are contents of labels.
pub proof fn lemma_read_labels(bytes: Seq<u8>, pos: int)
    requires
        gff_at(bytes, pos) is Ok,
    ensures
        labels_wf(gff_at(bytes, pos)->Ok_0),
{
    let g = gff_at(bytes, pos)->Ok_0;
    let h = header_at(bytes, pos)->Ok_0;
    let start = h.label_offset.0 as int;
    assert forall|i: int| 0 <= i < g.labels.len() implies label_wf(#[trigger] g.labels[i]) by {
        let slot = bytes.subrange(start + 16 * i, start + 16 * (i + 1));
        assert(g.labels[i] == slot_content(slot));
        lemma_first_zero_bounds(slot);
    }
}

/// **A tree that was read can be read again.**
///
/// Let `r` be the tree that is read from `bytes` with `tlk`, and let it be
/// one that can be written. Then the bytes that are written for `r` are
/// read, with `tlk`, as a tree with the same tags, structs, names and
/// values, of which only the origins of the structs may differ from those
/// in `r`; and for that tree the same bytes are written again.
pub proof fn lemma_read_write_read(bytes: Seq<u8>, tlk: Option<TlkView>)
    requires
        tree_at(bytes, 0, tlk) is Ok,
        tree_bytes(tree_at(bytes, 0, tlk)->Ok_0) is Ok,
    ensures
        ({
            let r = tree_at(bytes, 0, tlk)->Ok_0;
            let written = tree_bytes(r)->Ok_0;
            &&& readable_struct(r.root, tlk)
            &&& tree_at(written, 0, tlk) matches Ok(again) && again.file_type == r.file_type
                && again.file_version == r.file_version && same_struct(again.root, r.root)
                && tree_bytes(again) == tree_bytes(r)
        }),
{
    let g = gff_at(bytes, 0)->Ok_0;
    let r = tree_at(bytes, 0, tlk)->Ok_0;
    lemma_read_labels(bytes, 0);
    lemma_read_struct(g, tlk, g.structs[0], g.structs.len());
    let file_type = bytes_at(bytes, 0, 4)->Some_0;
    let file_version = bytes_at(bytes, 4, 4)->Some_0;
    lemma_tag_of(file_type, r.file_type);
    lemma_tag_of(file_version, r.file_version);
    lemma_tree_round_trip(r, tlk);
    lemma_bytes_round_trip(r, tlk);
}

} // verus!
