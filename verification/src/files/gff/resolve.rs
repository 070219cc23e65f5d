//! From the flat form of a file to the tree of structs and fields.

use crate::error::{Error, ParseFault};
use crate::files::{u16_to_i16, u32_to_i32, u64_to_i64, ByteReader};
use crate::files::gff::bin::{
    lemma_cells_fail, lemma_structs_fail, resolved_cell, resolved_cells, resolved_field,
    resolved_struct, resolved_structs, Field as BinField, FieldType, Gff as BinGff, INDEX_SIZE,
    Struct as BinStruct,
};
use crate::files::gff::exo_string::{ExoLocString, ExoString};
use crate::files::gff::field::{Field, FieldView, LabeledField, LabeledFieldView, U32Char};
use crate::files::gff::structs::{
    cell_views, lemma_cell_views_push, lemma_struct_views_push, struct_views, Struct, StructField,
    StructOrigin, StructView,
};
use crate::files::gff::void::Void;
use crate::files::res_ref::ResRef;
use crate::files::tlk::{tlk_view, Tlk};
use vstd::prelude::*;

verus! {

/// The value of `field` in `file`, with structs nested at most `fuel` deep below it.
pub fn resolve_field(field: &BinField, file: &BinGff, tlk: Option<&Tlk>, fuel: usize) -> (r:
    Result<Field, Error>)
    ensures
        match r {
            Ok(v) => resolved_field(file@, tlk_view(tlk), *field, fuel as nat) == Ok::<
                FieldView,
                Error,
            >(v@),
            Err(e) => resolved_field(file@, tlk_view(tlk), *field, fuel as nat) == Err::<
                FieldView,
                Error,
            >(e),
        },
    decreases fuel, 0nat,
{
    let d = field.data_or_data_offset;
    let mut heap = ByteReader::new(file.field_data.as_slice());
    heap.seek_to(d as usize);
    match field.id {
        FieldType::Byte => Ok(Field::Byte((d % 0x100) as u8)),
        FieldType::Char => Ok(Field::Char(U32Char(d))),
        FieldType::Word => Ok(Field::Word((d % 0x1_0000) as u16)),
        FieldType::Short => Ok(Field::Short(u16_to_i16((d % 0x1_0000) as u16))),
        FieldType::DWord => Ok(Field::DWord(d)),
        FieldType::Int => Ok(Field::Int(u32_to_i32(d))),
        FieldType::Float => Ok(Field::Float(d)),
        FieldType::DWord64 => {
            let v = heap.read_u64_le()?;
            Ok(Field::DWord64(v))
        },
        FieldType::Int64 => {
            let v = heap.read_u64_le()?;
            Ok(Field::Int64(u64_to_i64(v)))
        },
        FieldType::Double => {
            let v = heap.read_u64_le()?;
            Ok(Field::Double(v))
        },
        FieldType::ExoString => {
            let v = ExoString::read(&mut heap)?;
            Ok(Field::ExoString(v))
        },
        FieldType::ResRef => {
            let v = ResRef::read(&mut heap)?;
            Ok(Field::ResRef(v))
        },
        FieldType::ExoLocString => {
            let v = ExoLocString::read(&mut heap, tlk)?;
            Ok(Field::ExoLocString(v))
        },
        FieldType::Void => {
            let v = Void::read(&mut heap)?;
            Ok(Field::Void(v))
        },
        FieldType::Struct => {
            if d as usize >= file.structs.len() {
                return Err(Error::ParseError(ParseFault::OutOfRange));
            }
            if fuel == 0 {
                return Err(Error::ParseError(ParseFault::NestingTooDeep));
            }
            let s = resolve_struct(&file.structs[d as usize], file, tlk, fuel - 1)?;
            Ok(Field::Struct(s))
        },
        FieldType::List => {
            let index: usize = (d / INDEX_SIZE) as usize;
            let len: usize = file.list_indices.len();
            if index >= len {
                return Err(Error::ParseError(ParseFault::OutOfRange));
            }
            let count: usize = file.list_indices[index] as usize;
            if count > len - index - 1 {
                return Err(Error::ParseError(ParseFault::OutOfRange));
            }
            if fuel == 0 {
                return Err(Error::ParseError(ParseFault::NestingTooDeep));
            }
            let start: usize = index + 1;
            let ghost g = file@;
            let ghost t = tlk_view(tlk);
            let ghost below = (fuel - 1) as nat;
            let mut structs: Vec<Struct> = Vec::new();
            let mut k: usize = 0;

            while k < count
                invariant
                    0 <= k <= count,
                    start + count <= file.list_indices@.len(),
                    file.list_indices@.len() <= usize::MAX,
                    field.id == FieldType::List,
                    start == field.data_or_data_offset / INDEX_SIZE + 1,
                    count == file.list_indices@[start - 1],
                    g == file@,
                    t == tlk_view(tlk),
                    fuel > 0,
                    below == fuel - 1,
                    resolved_structs(g, t, start as int, k as nat, below) == Ok::<
                        Seq<StructView>,
                        Error,
                    >(struct_views(structs@)),
                decreases count - k,
            {
                let ghost before = struct_views(structs@);
                let entry: usize = file.list_indices[start + k] as usize;
                if entry >= file.structs.len() {
                    proof {
                        assert(resolved_structs(g, t, start as int, (k + 1) as nat, below) is Err);
                        lemma_structs_fail(g, t, start as int, (k + 1) as nat, count as nat, below);
                    }
                    return Err(Error::ParseError(ParseFault::OutOfRange));
                }
                match resolve_struct(&file.structs[entry], file, tlk, fuel - 1) {
                    Ok(s) => {
                        proof {
                            lemma_struct_views_push(structs@, s);
                        }
                        structs.push(s);
                    },
                    Err(e) => {
                        proof {
                            assert(resolved_structs(g, t, start as int, (k + 1) as nat, below)
                                is Err);
                            lemma_structs_fail(
                                g,
                                t,
                                start as int,
                                (k + 1) as nat,
                                count as nat,
                                below,
                            );
                        }
                        return Err(e);
                    },
                }
                k = k + 1;
            }
            Ok(Field::List(structs))
        },
    }
}

/// The struct `s` of `file` with all its fields, with structs nested at
/// most `fuel` deep below it.
pub fn resolve_struct(s: &BinStruct, file: &BinGff, tlk: Option<&Tlk>, fuel: usize) -> (r: Result<
    Struct,
    Error,
>)
    ensures
        match r {
            Ok(v) => resolved_struct(file@, tlk_view(tlk), *s, fuel as nat) == Ok::<
                StructView,
                Error,
            >(v@),
            Err(e) => resolved_struct(file@, tlk_view(tlk), *s, fuel as nat) == Err::<
                StructView,
                Error,
            >(e),
        },
    decreases fuel, 1nat,
{
    let ghost g = file@;
    let ghost t = tlk_view(tlk);
    let mut fields: Vec<StructField> = Vec::new();
    let mut i: u32 = 0;

    while i < s.field_count
        invariant
            0 <= i <= s.field_count,
            g == file@,
            t == tlk_view(tlk),
            resolved_cells(g, t, *s, i as nat, fuel as nat) == Ok::<Seq<LabeledFieldView>, Error>(
                cell_views(fields@),
            ),
        decreases s.field_count - i,
    {
        let ghost before = cell_views(fields@);
        let bin_field = match s.get_field(file, i) {
            Ok(Some(f)) => f,
            Ok(None) => {
                return Err(Error::ParseError(ParseFault::OutOfRange));
            },
            Err(e) => {
                proof {
                    assert(resolved_cell(g, t, *s, i as int, fuel as nat) is Err);
                    assert(resolved_cells(g, t, *s, (i + 1) as nat, fuel as nat) is Err);
                    lemma_cells_fail(g, t, *s, (i + 1) as nat, s.field_count as nat, fuel as nat);
                }
                return Err(e);
            },
        };
        if bin_field.label_index as usize >= file.labels.len() {
            proof {
                assert(resolved_cell(g, t, *s, i as int, fuel as nat) is Err);
                assert(resolved_cells(g, t, *s, (i + 1) as nat, fuel as nat) is Err);
                lemma_cells_fail(g, t, *s, (i + 1) as nat, s.field_count as nat, fuel as nat);
            }
            return Err(Error::ParseError(ParseFault::OutOfRange));
        }
        let label = file.labels[bin_field.label_index as usize].clone();
        match resolve_field(bin_field, file, tlk, fuel) {
            Ok(field) => {
                let cell = StructField(LabeledField { label, field });
                let ghost cv = cell@;
                proof {
                    lemma_cell_views_push(fields@, cell);
                    assert(resolved_cell(g, t, *s, i as int, fuel as nat) == Ok::<
                        LabeledFieldView,
                        Error,
                    >(cv));
                }
                fields.push(cell);
            },
            Err(e) => {
                proof {
                    assert(resolved_cell(g, t, *s, i as int, fuel as nat) is Err);
                    assert(resolved_cells(g, t, *s, (i + 1) as nat, fuel as nat) is Err);
                    lemma_cells_fail(g, t, *s, (i + 1) as nat, s.field_count as nat, fuel as nat);
                }
                return Err(e);
            },
        }
        i = i + 1;
    }
    let r = Struct { id: s.id, origin: StructOrigin::FromFile(s.data_or_data_offset), fields };
    Ok(r)
}

} // verus!
