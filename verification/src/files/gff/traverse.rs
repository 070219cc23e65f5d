//! Walking the tree.
//!
//! A field is named by its path: the index of a field of the top-level
//! struct, then, for a field below a struct, the index of the field in that
//! struct, and for a field below a list, the index of the struct in the list
//! and the index of the field in that struct; and so on.

use crate::files::gff::field::{Field, FieldView, LabeledFieldView};
use crate::files::gff::structs::{
    cell_views, lemma_cell_views, lemma_struct_views, lemma_views, struct_views, Struct,
    StructField, StructView,
};
use crate::files::text::{eq_ignore_ascii_case, text_eq_ignore_ascii_case, windows_1252_decoded};
use vstd::prelude::*;

verus! {

/// The paths `paths`, each behind `prefix`.
pub open spec fn prefixed(prefix: Seq<usize>, paths: Seq<Seq<usize>>) -> Seq<Seq<usize>> {
    Seq::new(paths.len(), |i: int| prefix + paths[i])
}

/// The field of `s`, or below it, that `path` names, if it names one.
pub open spec fn cell_at(s: StructView, path: Seq<usize>) -> Option<LabeledFieldView>
    decreases path.len(),
{
    if path.len() == 0 || path[0] >= s.fields.len() {
        None
    } else if path.len() == 1 {
        Some(s.fields[path[0] as int])
    } else {
        match s.fields[path[0] as int].field {
            FieldView::Struct(c) => cell_at(c, path.skip(1)),
            FieldView::List(l) => if path.len() >= 3 && path[1] < l.len() {
                cell_at(l[path[1] as int], path.skip(2))
            } else {
                None
            },
            _ => None,
        }
    }
}

/// The paths, from the field `c` on, of `c` and of all fields below it,
/// depth first: a field before the fields below it, and the fields below a
/// field from the last to the first.
pub open spec fn visit(c: LabeledFieldView) -> Seq<Seq<usize>>
    decreases c, 0nat,
{
    seq![Seq::<usize>::empty()] + match c.field {
        FieldView::Struct(s) => backward(s.fields, s.fields.len()),
        FieldView::List(l) => backward_list(l, l.len()),
        _ => Seq::empty(),
    }
}

/// The paths of the first `n` of `cells` and of all fields below them,
/// depth first, from the last of them to the first.
pub open spec fn backward(cells: Seq<LabeledFieldView>, n: nat) -> Seq<Seq<usize>>
    decreases cells, n,
{
    if n == 0 || n > cells.len() {
        Seq::empty()
    } else {
        prefixed(seq![(n - 1) as usize], visit(cells[n - 1])) + backward(cells, (n - 1) as nat)
    }
}

/// The paths of the fields of the first `n` structs of `l` and of all
/// fields below them, depth first, from the last field of the last struct
/// to the first field of the first.
pub open spec fn backward_list(l: Seq<StructView>, n: nat) -> Seq<Seq<usize>>
    decreases l, n,
{
    if n == 0 || n > l.len() {
        Seq::empty()
    } else {
        prefixed(seq![(n - 1) as usize], backward(l[n - 1].fields, l[n - 1].fields.len()))
            + backward_list(l, (n - 1) as nat)
    }
}

/// The paths of the first `n` of `cells` and of all fields below them,
/// depth first, from the first of them to the last.
pub open spec fn forward(cells: Seq<LabeledFieldView>, n: nat) -> Seq<Seq<usize>>
    decreases n,
{
    if n == 0 || n > cells.len() {
        Seq::empty()
    } else {
        forward(cells, (n - 1) as nat) + prefixed(seq![(n - 1) as usize], visit(cells[n - 1]))
    }
}

/// The paths of all fields of `s` and below it, depth first: the fields of
/// `s` from the first to the last, each before the fields below it, and the
/// fields below a field from the last to the first.
pub open spec fn dfs_order(s: StructView) -> Seq<Seq<usize>> {
    forward(s.fields, s.fields.len())
}

/// The paths, from the field `c` on, of the fields that lie `d` steps
/// below `c`; for no steps, of `c` itself.
pub open spec fn level_of_cell(c: LabeledFieldView, d: nat) -> Seq<Seq<usize>>
    decreases c, 0nat,
{
    if d == 0 {
        seq![Seq::<usize>::empty()]
    } else {
        match c.field {
            FieldView::Struct(s) => level_of_cells(s.fields, s.fields.len(), (d - 1) as nat),
            FieldView::List(l) => level_of_list(l, l.len(), (d - 1) as nat),
            _ => Seq::empty(),
        }
    }
}

/// The paths of the fields that lie `d` steps below the first `n` of
/// `cells`, those below an earlier field first.
pub open spec fn level_of_cells(cells: Seq<LabeledFieldView>, n: nat, d: nat) -> Seq<Seq<usize>>
    decreases cells, n,
{
    if n == 0 || n > cells.len() {
        Seq::empty()
    } else {
        level_of_cells(cells, (n - 1) as nat, d) + prefixed(
            seq![(n - 1) as usize],
            level_of_cell(cells[n - 1], d),
        )
    }
}

/// The paths of the fields that lie `d` steps below the fields of the
/// first `n` structs of `l`, those of an earlier struct first.
pub open spec fn level_of_list(l: Seq<StructView>, n: nat, d: nat) -> Seq<Seq<usize>>
    decreases l, n,
{
    if n == 0 || n > l.len() {
        Seq::empty()
    } else {
        level_of_list(l, (n - 1) as nat, d) + prefixed(
            seq![(n - 1) as usize],
            level_of_cells(l[n - 1].fields, l[n - 1].fields.len(), d),
        )
    }
}

/// The paths of the fields at depth `d` of `s`: its own fields at depth
/// zero.
pub open spec fn level(s: StructView, d: nat) -> Seq<Seq<usize>> {
    level_of_cells(s.fields, s.fields.len(), d)
}

/// The paths of the fields at the first `n` depths of `s`, depth by depth.
pub open spec fn levels(s: StructView, n: nat) -> Seq<Seq<usize>>
    decreases n,
{
    if n == 0 {
        Seq::empty()
    } else {
        levels(s, (n - 1) as nat) + level(s, (n - 1) as nat)
    }
}

/// The number of depths of `s` that hold fields: the least depth at which
/// `s` has none.
pub open spec fn depth(s: StructView) -> nat
    decreases s, 1nat,
{
    depth_of_cells(s.fields, s.fields.len())
}

/// The number of depths, counted from the first `n` of `cells`, that hold fields.
pub open spec fn depth_of_cells(cells: Seq<LabeledFieldView>, n: nat) -> nat
    decreases cells, n,
{
    if n == 0 || n > cells.len() {
        0
    } else {
        let rest = depth_of_cells(cells, (n - 1) as nat);
        let last = 1 + match cells[n - 1].field {
            FieldView::Struct(s) => depth(s),
            FieldView::List(l) => depth_of_list(l, l.len()),
            _ => 0,
        };
        if rest >= last {
            rest
        } else {
            last
        }
    }
}

/// The number of depths, counted from the fields of the first `n` structs
/// of `l`, that hold fields.
pub open spec fn depth_of_list(l: Seq<StructView>, n: nat) -> nat
    decreases l, n,
{
    if n == 0 || n > l.len() {
        0
    } else {
        let rest = depth_of_list(l, (n - 1) as nat);
        let last = depth(l[n - 1]);
        if rest >= last {
            rest
        } else {
            last
        }
    }
}

/// The paths of all fields of `s` and below it, breadth first: the fields
/// of `s`, then the fields one step below them, and so on; at each depth,
/// those below an earlier field first.
pub open spec fn bfs_order(s: StructView) -> Seq<Seq<usize>> {
    levels(s, depth(s))
}

/// Whether the fields of `s`, and of every struct below it, can be
/// counted by the machine, as those of every struct that the machine holds can.
pub open spec fn countable(s: StructView) -> bool
    decreases s, 0nat,
{
    s.fields.len() <= usize::MAX && forall|i: int|
        0 <= i < s.fields.len() ==> countable_cell(#[trigger] s.fields[i])
}

/// Whether the structs below the field `c`, and their fields, can be
/// counted by the machine.
pub open spec fn countable_cell(c: LabeledFieldView) -> bool
    decreases c, 1nat,
{
    match c.field {
        FieldView::Struct(s) => countable(s),
        FieldView::List(l) => countable_list(l),
        _ => true,
    }
}

/// Whether the structs of the list `l`, and their fields, can be counted
/// by the machine.
pub open spec fn countable_list(l: Seq<StructView>) -> bool
    decreases l, 0nat,
{
    l.len() <= usize::MAX && forall|i: int| 0 <= i < l.len() ==> countable(#[trigger] l[i])
}

/// Whether `path`, counted from the field `c`, names `c` itself or a field below it.
pub open spec fn names_from(c: LabeledFieldView, path: Seq<usize>) -> bool {
    path.len() == 0 || match c.field {
        FieldView::Struct(s) => cell_at(s, path) is Some,
        FieldView::List(l) => names_in_list(l, path),
        _ => false,
    }
}

/// Whether `path` names a field of a struct of the list `l`, or a field below one.
pub open spec fn names_in_list(l: Seq<StructView>, path: Seq<usize>) -> bool {
    path.len() >= 2 && path[0] < l.len() && cell_at(l[path[0] as int], path.skip(1)) is Some
}

/// A path from a field on, behind the index of the field in a struct,
/// names a field of the struct or below it.
pub proof fn lemma_prefixed_names(s: StructView, j: usize, path: Seq<usize>)
    requires
        j < s.fields.len(),
        names_from(s.fields[j as int], path),
    ensures
        cell_at(s, seq![j] + path) is Some,
{
    let full = seq![j] + path;
    assert(full[0] == j);
    if path.len() > 0 {
        assert(full.skip(1) =~= path);
        match s.fields[j as int].field {
            FieldView::List(l) => {
                assert(full[1] == path[0]);
                assert(full.skip(2) =~= path.skip(1));
                assert(path.skip(1).len() >= 1);
            },
            _ => {},
        }
    }
}

/// Every path that a walk from a field lists names the field or a field below it.
pub proof fn lemma_visit_names(c: LabeledFieldView, i: int)
    requires
        countable_cell(c),
        0 <= i < visit(c).len(),
    ensures
        names_from(c, visit(c)[i]),
    decreases c, 0nat,
{
    reveal_with_fuel(visit, 2);
    if i > 0 {
        match c.field {
            FieldView::Struct(s) => {
                lemma_backward_names(s, s.fields.len(), i - 1);
            },
            FieldView::List(l) => {
                lemma_backward_list_names(l, l.len(), i - 1);
            },
            _ => {},
        }
    }
}

/// Every path that a walk through the first `n` fields of a struct lists,
/// from the last to the first, names a field of the struct or below it.
pub proof fn lemma_backward_names(s: StructView, n: nat, i: int)
    requires
        countable(s),
        n <= s.fields.len(),
        0 <= i < backward(s.fields, n).len(),
    ensures
        cell_at(s, backward(s.fields, n)[i]) is Some,
    decreases s.fields, n,
{
    reveal_with_fuel(backward, 2);
    if n > 0 {
        let m = (n - 1) as nat;
        let first = prefixed(seq![m as usize], visit(s.fields[m as int]));
        if i < first.len() {
            lemma_visit_names(s.fields[m as int], i);
            lemma_prefixed_names(s, m as usize, visit(s.fields[m as int])[i]);
        } else {
            lemma_backward_names(s, m, i - first.len());
        }
    }
}

/// Every path that a walk through the first `n` structs of a list lists
/// names a field of a struct of the list or below it.
pub proof fn lemma_backward_list_names(l: Seq<StructView>, n: nat, i: int)
    requires
        countable_list(l),
        n <= l.len(),
        0 <= i < backward_list(l, n).len(),
    ensures
        names_in_list(l, backward_list(l, n)[i]),
    decreases l, n,
{
    reveal_with_fuel(backward_list, 2);
    if n > 0 {
        let m = (n - 1) as nat;
        let inner = backward(l[m as int].fields, l[m as int].fields.len());
        let first = prefixed(seq![m as usize], inner);
        if i < first.len() {
            lemma_backward_names(l[m as int], l[m as int].fields.len(), i);
            let path = seq![m as usize] + inner[i];
            assert(path.skip(1) =~= inner[i]);
        } else {
            lemma_backward_list_names(l, m, i - first.len());
        }
    }
}

/// Every path that a walk through the first `n` fields of a struct lists,
/// from the first to the last, names a field of the struct or below it.
pub proof fn lemma_forward_names(s: StructView, n: nat, i: int)
    requires
        countable(s),
        n <= s.fields.len(),
        0 <= i < forward(s.fields, n).len(),
    ensures
        cell_at(s, forward(s.fields, n)[i]) is Some,
    decreases n,
{
    reveal_with_fuel(forward, 2);
    if n > 0 {
        let m = (n - 1) as nat;
        let before = forward(s.fields, m);
        if i < before.len() {
            lemma_forward_names(s, m, i);
        } else {
            lemma_visit_names(s.fields[m as int], i - before.len());
            lemma_prefixed_names(s, m as usize, visit(s.fields[m as int])[i - before.len()]);
        }
    }
}

/// Every struct that the machine holds has fields that it can count.
pub proof fn lemma_countable(s: Struct)
    ensures
        countable(s@),
    decreases s, 2nat,
{
    lemma_views(s, arbitrary());
    lemma_cell_views(s.fields@);
    assert(s.fields@.len() == s.fields.len());
    assert forall|i: int| 0 <= i < s@.fields.len() implies countable_cell(
        #[trigger] s@.fields[i],
    ) by {
        lemma_countable_field(s.fields@[i]);
    }
}

/// Every field that the machine holds has structs below it that it can count.
pub proof fn lemma_countable_field(c: StructField)
    ensures
        countable_cell(c@),
    decreases c, 1nat,
{
    lemma_views(arbitrary(), c);
    match c.0.field {
        Field::Struct(x) => {
            lemma_countable(x);
        },
        Field::List(l) => {
            lemma_struct_views(l@);
            assert(l@.len() == l.len());
            assert forall|i: int| 0 <= i < struct_views(l@).len() implies countable(
                #[trigger] struct_views(l@)[i],
            ) by {
                lemma_countable(l@[i]);
            }
            assert(countable_list(struct_views(l@)));
        },
        _ => {},
    }
}

/// **Every path that the walk depth first lists names a field of the tree.**
pub proof fn lemma_dfs_paths_name_fields(s: StructView, i: int)
    requires
        countable(s),
        0 <= i < dfs_order(s).len(),
    ensures
        cell_at(s, dfs_order(s)[i]) is Some,
{
    lemma_forward_names(s, s.fields.len(), i);
}

/// Every path that a level below a field lists names the field or a field below it.
pub proof fn lemma_level_of_cell_names(c: LabeledFieldView, d: nat, i: int)
    requires
        countable_cell(c),
        0 <= i < level_of_cell(c, d).len(),
    ensures
        names_from(c, level_of_cell(c, d)[i]),
    decreases c, 0nat,
{
    reveal_with_fuel(level_of_cell, 2);
    if d > 0 {
        match c.field {
            FieldView::Struct(s) => {
                lemma_level_of_cells_names(s, s.fields.len(), (d - 1) as nat, i);
            },
            FieldView::List(l) => {
                lemma_level_of_list_names(l, l.len(), (d - 1) as nat, i);
            },
            _ => {},
        }
    }
}

/// Every path that a level below the first `n` fields of a struct lists
/// names a field of the struct or below it.
pub proof fn lemma_level_of_cells_names(s: StructView, n: nat, d: nat, i: int)
    requires
        countable(s),
        n <= s.fields.len(),
        0 <= i < level_of_cells(s.fields, n, d).len(),
    ensures
        cell_at(s, level_of_cells(s.fields, n, d)[i]) is Some,
    decreases s.fields, n,
{
    reveal_with_fuel(level_of_cells, 2);
    if n > 0 {
        let m = (n - 1) as nat;
        let before = level_of_cells(s.fields, m, d);
        if i < before.len() {
            lemma_level_of_cells_names(s, m, d, i);
        } else {
            lemma_level_of_cell_names(s.fields[m as int], d, i - before.len());
            lemma_prefixed_names(
                s,
                m as usize,
                level_of_cell(s.fields[m as int], d)[i - before.len()],
            );
        }
    }
}

/// Every path that a level below the first `n` structs of a list lists
/// names a field of a struct of the list or below it.
pub proof fn lemma_level_of_list_names(l: Seq<StructView>, n: nat, d: nat, i: int)
    requires
        countable_list(l),
        n <= l.len(),
        0 <= i < level_of_list(l, n, d).len(),
    ensures
        names_in_list(l, level_of_list(l, n, d)[i]),
    decreases l, n,
{
    reveal_with_fuel(level_of_list, 2);
    if n > 0 {
        let m = (n - 1) as nat;
        let before = level_of_list(l, m, d);
        if i < before.len() {
            lemma_level_of_list_names(l, m, d, i);
        } else {
            let inner = level_of_cells(l[m as int].fields, l[m as int].fields.len(), d);
            lemma_level_of_cells_names(l[m as int], l[m as int].fields.len(), d, i - before.len());
            let path = seq![m as usize] + inner[i - before.len()];
            assert(path.skip(1) =~= inner[i - before.len()]);
        }
    }
}

/// Every path that the first `n` levels of a struct list names a field of the tree.
pub proof fn lemma_levels_names(s: StructView, n: nat, i: int)
    requires
        countable(s),
        0 <= i < levels(s, n).len(),
    ensures
        cell_at(s, levels(s, n)[i]) is Some,
    decreases n,
{
    reveal_with_fuel(levels, 2);
    if n > 0 {
        let m = (n - 1) as nat;
        let before = levels(s, m);
        if i < before.len() {
            lemma_levels_names(s, m, i);
        } else {
            lemma_level_of_cells_names(s, s.fields.len(), m, i - before.len());
        }
    }
}

/// **Every path that the walk breadth first lists names a field of the tree.**
pub proof fn lemma_bfs_paths_name_fields(s: StructView, i: int)
    requires
        countable(s),
        0 <= i < bfs_order(s).len(),
    ensures
        cell_at(s, bfs_order(s)[i]) is Some,
{
    lemma_levels_names(s, depth(s), i);
}

/// The paths `v` as sequences of indices.
pub open spec fn paths_view(v: Seq<Vec<usize>>) -> Seq<Seq<usize>> {
    Seq::new(v.len(), |i: int| v[i]@)
}

/// Walking no fields gives no path; walking one field more, at some depth
/// or depth first, adds the paths of that field.
pub proof fn lemma_walk_step(cells: Seq<LabeledFieldView>, n: nat, d: nat)
    requires
        n < cells.len(),
    ensures
        level_of_cells(cells, 0, d) == Seq::<Seq<usize>>::empty(),
        level_of_cells(cells, n + 1, d) == level_of_cells(cells, n, d) + prefixed(
            seq![n as usize],
            level_of_cell(cells[n as int], d),
        ),
        backward(cells, 0) == Seq::<Seq<usize>>::empty(),
        backward(cells, n + 1) == prefixed(seq![n as usize], visit(cells[n as int])) + backward(
            cells,
            n,
        ),
        forward(cells, 0) == Seq::<Seq<usize>>::empty(),
        forward(cells, n + 1) == forward(cells, n) + prefixed(
            seq![n as usize],
            visit(cells[n as int]),
        ),
        depth_of_cells(cells, 0) == 0,
{
    reveal_with_fuel(level_of_cells, 2);
    reveal_with_fuel(backward, 2);
    reveal_with_fuel(forward, 2);
    reveal_with_fuel(depth_of_cells, 2);
    assert(((n + 1) - 1) as nat == n);
}

/// Walking no structs of a list gives no path; walking one struct more
/// adds the paths of the fields of that struct.
pub proof fn lemma_walk_list_step(l: Seq<StructView>, n: nat, d: nat)
    requires
        n < l.len(),
    ensures
        level_of_list(l, 0, d) == Seq::<Seq<usize>>::empty(),
        level_of_list(l, n + 1, d) == level_of_list(l, n, d) + prefixed(
            seq![n as usize],
            level_of_cells(l[n as int].fields, l[n as int].fields.len(), d),
        ),
        backward_list(l, 0) == Seq::<Seq<usize>>::empty(),
        backward_list(l, n + 1) == prefixed(
            seq![n as usize],
            backward(l[n as int].fields, l[n as int].fields.len()),
        ) + backward_list(l, n),
{
    reveal_with_fuel(level_of_list, 2);
    reveal_with_fuel(backward_list, 2);
    assert(((n + 1) - 1) as nat == n);
}

/// A field has fields `d` steps below it exactly if `d` is less than the
/// number of depths that hold fields, counted from it.
pub proof fn lemma_level_of_cell(c: LabeledFieldView, d: nat)
    ensures
        level_of_cell(c, d).len() > 0 <==> d < 1 + match c.field {
            FieldView::Struct(s) => depth(s),
            FieldView::List(l) => depth_of_list(l, l.len()),
            _ => 0,
        },
        forall|i: int| 0 <= i < level_of_cell(c, d).len() ==> (#[trigger] level_of_cell(c, d)[i]).len() >= d,
    decreases c, 0nat,
{
    if d > 0 {
        match c.field {
            FieldView::Struct(s) => {
                lemma_level_of_cells(s.fields, s.fields.len(), (d - 1) as nat);
            },
            FieldView::List(l) => {
                lemma_level_of_list(l, l.len(), (d - 1) as nat);
            },
            _ => {},
        }
    }
}

/// The first `n` of some fields have fields `d` steps below them exactly
/// if `d` is less than the number of depths that hold fields, counted
/// from them; and the path of such a field has more than `d` indices.
pub proof fn lemma_level_of_cells(cells: Seq<LabeledFieldView>, n: nat, d: nat)
    requires
        n <= cells.len(),
    ensures
        level_of_cells(cells, n, d).len() > 0 <==> d < depth_of_cells(cells, n),
        forall|i: int|
            0 <= i < level_of_cells(cells, n, d).len() ==> (#[trigger] level_of_cells(
                cells,
                n,
                d,
            )[i]).len() > d,
    decreases cells, n,
{
    reveal_with_fuel(level_of_cells, 2);
    reveal_with_fuel(depth_of_cells, 2);
    if n > 0 {
        let m = (n - 1) as nat;
        lemma_level_of_cells(cells, m, d);
        lemma_level_of_cell(cells[m as int], d);
        let a = level_of_cells(cells, m, d);
        let b = prefixed(seq![m as usize], level_of_cell(cells[m as int], d));
        assert(level_of_cells(cells, n, d) == a + b);
        assert forall|i: int| 0 <= i < (a + b).len() implies (#[trigger] (a + b)[i]).len() > d by {
            if i >= a.len() {
                assert((a + b)[i] == b[i - a.len()]);
                assert(b[i - a.len()] == seq![m as usize] + level_of_cell(cells[m as int], d)[i
                    - a.len()]);
            }
        }
    }
}

/// The fields of the first `n` structs of a list have fields `d` steps
/// below them exactly if `d` is less than the number of depths that hold
/// fields, counted from them.
pub proof fn lemma_level_of_list(l: Seq<StructView>, n: nat, d: nat)
    requires
        n <= l.len(),
    ensures
        level_of_list(l, n, d).len() > 0 <==> d < depth_of_list(l, n),
        forall|i: int|
            0 <= i < level_of_list(l, n, d).len() ==> (#[trigger] level_of_list(l, n, d)[i]).len()
                > d,
    decreases l, n,
{
    reveal_with_fuel(level_of_list, 2);
    reveal_with_fuel(depth_of_list, 2);
    if n > 0 {
        let m = (n - 1) as nat;
        lemma_level_of_list(l, m, d);
        lemma_level_of_cells(l[m as int].fields, l[m as int].fields.len(), d);
        let a = level_of_list(l, m, d);
        let inner = level_of_cells(l[m as int].fields, l[m as int].fields.len(), d);
        let b = prefixed(seq![m as usize], inner);
        assert(level_of_list(l, n, d) == a + b);
        assert forall|i: int| 0 <= i < (a + b).len() implies (#[trigger] (a + b)[i]).len() > d by {
            if i >= a.len() {
                assert((a + b)[i] == b[i - a.len()]);
                assert(b[i - a.len()] == seq![m as usize] + inner[i - a.len()]);
            }
        }
    }
}

/// Puts `first` before each of `paths`.
fn prefix_all(first: usize, paths: Vec<Vec<usize>>) -> (r: Vec<Vec<usize>>)
    ensures
        paths_view(r@) == prefixed(seq![first], paths_view(paths@)),
{
    let mut out: Vec<Vec<usize>> = Vec::new();
    let mut i: usize = 0;
    while i < paths.len()
        invariant
            0 <= i <= paths@.len(),
            out@.len() == i,
            forall|k: int| 0 <= k < i ==> (#[trigger] out@[k])@ == seq![first] + paths@[k]@,
        decreases paths@.len() - i,
    {
        let mut path: Vec<usize> = Vec::new();
        path.push(first);
        let ghost head = path@;
        path.extend_from_slice(paths[i].as_slice());
        assert(path@ =~= seq![first] + paths@[i as int]@);
        out.push(path);
        i = i + 1;
    }
    assert(paths_view(out@) =~= prefixed(seq![first], paths_view(paths@)));
    out
}

/// Appends the paths `more` to `all`.
fn append_paths(all: &mut Vec<Vec<usize>>, more: Vec<Vec<usize>>)
    ensures
        paths_view(final(all)@) == paths_view(old(all)@) + paths_view(more@),
{
    let mut rest = more;
    let ghost added = rest@;
    all.append(&mut rest);
    assert(paths_view(all@) =~= paths_view(old(all)@) + paths_view(added));
}

/// The paths, from the field `c` on, of the fields `d` steps below `c`.
fn level_of_field(c: &StructField, d: usize) -> (r: Vec<Vec<usize>>)
    ensures
        paths_view(r@) == level_of_cell(c@, d as nat),
    decreases c, 0nat,
{
    if d == 0 {
        let mut out: Vec<Vec<usize>> = Vec::new();
        out.push(Vec::new());
        assert(paths_view(out@) =~= seq![Seq::<usize>::empty()]);
        out
    } else {
        match &c.0.field {
            Field::Struct(s) => {
                proof {
                    lemma_views(*s, *c);
                    lemma_cell_views(s.fields@);
                    reveal_with_fuel(level_of_cell, 2);
                }
                level_of_fields(&s.fields, d - 1)
            },
            Field::List(l) => {
                proof {
                    lemma_views(arbitrary(), *c);
                    lemma_struct_views(l@);
                    reveal_with_fuel(level_of_cell, 2);
                }
                level_of_structs(l, d - 1)
            },
            _ => {
                proof {
                    lemma_views(arbitrary(), *c);
                    reveal_with_fuel(level_of_cell, 2);
                }
                let out: Vec<Vec<usize>> = Vec::new();
                assert(paths_view(out@) =~= Seq::<Seq<usize>>::empty());
                out
            },
        }
    }
}

/// The paths of the fields `d` steps below the fields `cells`.
fn level_of_fields(cells: &Vec<StructField>, d: usize) -> (r: Vec<Vec<usize>>)
    ensures
        paths_view(r@) == level_of_cells(cell_views(cells@), cells@.len(), d as nat),
    decreases cells, 0nat,
{
    let ghost views = cell_views(cells@);
    proof {
        lemma_cell_views(cells@);
    }
    let mut out: Vec<Vec<usize>> = Vec::new();
    assert(paths_view(out@) =~= Seq::<Seq<usize>>::empty());
    let mut j: usize = 0;
    while j < cells.len()
        invariant
            0 <= j <= cells@.len(),
            views == cell_views(cells@),
            views.len() == cells@.len(),
            forall|k: int| 0 <= k < cells@.len() ==> views[k] == cells@[k]@,
            paths_view(out@) == level_of_cells(views, j as nat, d as nat),
            j == 0 ==> level_of_cells(views, 0, d as nat) == Seq::<Seq<usize>>::empty(),
        decreases cells@.len() - j,
    {
        proof {
            lemma_walk_step(views, j as nat, d as nat);
        }
        let below = level_of_field(&cells[j], d);
        append_paths(&mut out, prefix_all(j, below));
        j = j + 1;
    }
    proof {
        if cells@.len() == 0 {
            reveal_with_fuel(level_of_cells, 1);
        }
    }
    out
}

/// The paths of the fields `d` steps below the fields of the structs `l`.
fn level_of_structs(l: &Vec<Struct>, d: usize) -> (r: Vec<Vec<usize>>)
    ensures
        paths_view(r@) == level_of_list(struct_views(l@), l@.len(), d as nat),
    decreases l, 1nat,
{
    let ghost views = struct_views(l@);
    proof {
        lemma_struct_views(l@);
        reveal_with_fuel(level_of_list, 1);
    }
    let mut out: Vec<Vec<usize>> = Vec::new();
    assert(paths_view(out@) =~= Seq::<Seq<usize>>::empty());
    let mut k: usize = 0;
    while k < l.len()
        invariant
            0 <= k <= l@.len(),
            views == struct_views(l@),
            views.len() == l@.len(),
            forall|i: int| 0 <= i < l@.len() ==> views[i] == l@[i]@,
            paths_view(out@) == level_of_list(views, k as nat, d as nat),
        decreases l@.len() - k,
    {
        proof {
            lemma_walk_list_step(views, k as nat, d as nat);
            lemma_views(l@[k as int], arbitrary());
            lemma_cell_views(l@[k as int].fields@);
        }
        let below = level_of_fields(&l[k].fields, d);
        append_paths(&mut out, prefix_all(k, below));
        k = k + 1;
    }
    out
}

/// The paths, from the field `c` on, of `c` and of all fields below it, depth first.
fn visit_field(c: &StructField) -> (r: Vec<Vec<usize>>)
    ensures
        paths_view(r@) == visit(c@),
    decreases c, 0nat,
{
    let mut out: Vec<Vec<usize>> = Vec::new();
    out.push(Vec::new());
    assert(paths_view(out@) =~= seq![Seq::<usize>::empty()]);
    match &c.0.field {
        Field::Struct(s) => {
            proof {
                lemma_views(*s, *c);
                lemma_cell_views(s.fields@);
                reveal_with_fuel(visit, 2);
            }
            append_paths(&mut out, backward_fields(&s.fields));
        },
        Field::List(l) => {
            proof {
                lemma_views(arbitrary(), *c);
                lemma_struct_views(l@);
                reveal_with_fuel(visit, 2);
            }
            append_paths(&mut out, backward_structs(l));
        },
        _ => {
            proof {
                lemma_views(arbitrary(), *c);
                reveal_with_fuel(visit, 2);
            }
            assert(paths_view(out@) + Seq::<Seq<usize>>::empty() =~= paths_view(out@));
        },
    }
    out
}

/// The paths of the fields `cells` and of all fields below them, depth
/// first, from the last of them to the first.
fn backward_fields(cells: &Vec<StructField>) -> (r: Vec<Vec<usize>>)
    ensures
        paths_view(r@) == backward(cell_views(cells@), cells@.len()),
    decreases cells, 1nat,
{
    let ghost views = cell_views(cells@);
    proof {
        lemma_cell_views(cells@);
    }
    let n = cells.len();
    let mut out: Vec<Vec<usize>> = Vec::new();
    assert(paths_view(out@) =~= Seq::<Seq<usize>>::empty());
    let mut j: usize = n;
    while j > 0
        invariant
            0 <= j <= n,
            n == cells@.len(),
            views == cell_views(cells@),
            views.len() == cells@.len(),
            forall|k: int| 0 <= k < cells@.len() ==> views[k] == cells@[k]@,
            paths_view(out@) + backward(views, j as nat) == backward(views, n as nat),
        decreases j,
    {
        proof {
            lemma_walk_step(views, (j - 1) as nat, 0);
        }
        let ghost before = paths_view(out@);
        let below = visit_field(&cells[j - 1]);
        append_paths(&mut out, prefix_all(j - 1, below));
        j = j - 1;
        assert(paths_view(out@) + backward(views, j as nat) =~= before + backward(
            views,
            (j + 1) as nat,
        ));
    }
    proof {
        reveal_with_fuel(backward, 1);
        assert(paths_view(out@) + Seq::<Seq<usize>>::empty() =~= paths_view(out@));
    }
    out
}

/// The paths of the fields of the structs `l` and of all fields below
/// them, depth first, from the last field of the last struct to the first
/// field of the first.
fn backward_structs(l: &Vec<Struct>) -> (r: Vec<Vec<usize>>)
    ensures
        paths_view(r@) == backward_list(struct_views(l@), l@.len()),
    decreases l, 2nat,
{
    let ghost views = struct_views(l@);
    proof {
        lemma_struct_views(l@);
    }
    let n = l.len();
    let mut out: Vec<Vec<usize>> = Vec::new();
    assert(paths_view(out@) =~= Seq::<Seq<usize>>::empty());
    let mut k: usize = n;
    while k > 0
        invariant
            0 <= k <= n,
            n == l@.len(),
            views == struct_views(l@),
            views.len() == l@.len(),
            forall|i: int| 0 <= i < l@.len() ==> views[i] == l@[i]@,
            paths_view(out@) + backward_list(views, k as nat) == backward_list(views, n as nat),
        decreases k,
    {
        proof {
            lemma_walk_list_step(views, (k - 1) as nat, 0);
            lemma_views(l@[k - 1], arbitrary());
            lemma_cell_views(l@[k - 1].fields@);
        }
        let ghost before = paths_view(out@);
        let below = backward_fields(&l[k - 1].fields);
        append_paths(&mut out, prefix_all(k - 1, below));
        k = k - 1;
        assert(paths_view(out@) + backward_list(views, k as nat) =~= before + backward_list(
            views,
            (k + 1) as nat,
        ));
    }
    proof {
        reveal_with_fuel(backward_list, 1);
        assert(paths_view(out@) + Seq::<Seq<usize>>::empty() =~= paths_view(out@));
    }
    out
}

impl StructField {
    /// Whether the text of the name of the field is `x`.
    pub fn has_label(&self, x: &str) -> (r: bool)
        ensures
            r == (windows_1252_decoded(self@.label) == x@),
    {
        let name = self.0.label.as_str();
        let other = x.to_owned();
        name == other
    }

    /// Whether the text of the name of the field is `x`, when ASCII
    /// letters are compared without case.
    pub fn has_label_case_insensitive(&self, x: &str) -> (r: bool)
        ensures
            r == text_eq_ignore_ascii_case(windows_1252_decoded(self@.label), x@),
    {
        let name = self.0.label.as_str();
        eq_ignore_ascii_case(name.as_str(), x)
    }

    /// The field that holds `field`.
    pub fn new(field: crate::files::gff::field::LabeledField) -> (r: Self)
        ensures
            r.0 == field,
    {
        Self(field)
    }
}

/// Whether none of the first `n` of `cells` has a name with the text `name`.
pub open spec fn none_named(cells: Seq<LabeledFieldView>, n: int, name: Seq<char>) -> bool {
    forall|i: int| 0 <= i < n ==> windows_1252_decoded((#[trigger] cells[i]).label) != name
}

impl Struct {
    /// The paths of all fields of the struct and below it, depth first:
    /// the fields of the struct from the first to the last, each before the
    /// fields below it, and the fields below a field from the last to the first.
    pub fn dfs_iter(&self) -> (r: Vec<Vec<usize>>)
        ensures
            paths_view(r@) == dfs_order(self@),
            forall|i: int| 0 <= i < r@.len() ==> cell_at(self@, (#[trigger] r@[i])@) is Some,
    {
        let ghost views = cell_views(self.fields@);
        proof {
            lemma_cell_views(self.fields@);
            lemma_views(*self, arbitrary());
            reveal_with_fuel(forward, 1);
        }
        let mut out: Vec<Vec<usize>> = Vec::new();
        assert(paths_view(out@) =~= Seq::<Seq<usize>>::empty());
        let mut j: usize = 0;
        while j < self.fields.len()
            invariant
                0 <= j <= self.fields@.len(),
                views == cell_views(self.fields@),
                views.len() == self.fields@.len(),
                forall|k: int| 0 <= k < self.fields@.len() ==> views[k] == self.fields@[k]@,
                paths_view(out@) == forward(views, j as nat),
            decreases self.fields@.len() - j,
        {
            proof {
                lemma_walk_step(views, j as nat, 0);
            }
            let below = visit_field(&self.fields[j]);
            append_paths(&mut out, prefix_all(j, below));
            j = j + 1;
        }
        proof {
            lemma_countable(*self);
            assert forall|i: int| 0 <= i < out@.len() implies cell_at(
                self@,
                (#[trigger] out@[i])@,
            ) is Some by {
                assert(paths_view(out@)[i] == out@[i]@);
                lemma_dfs_paths_name_fields(self@, i);
            }
        }
        out
    }

    /// The paths of all fields of the struct and below it, breadth first:
    /// the fields of the struct, then the fields one step below them, and
    /// so on; at each depth, those below an earlier field first.
    pub fn bfs_iter(&self) -> (r: Vec<Vec<usize>>)
        ensures
            paths_view(r@) == bfs_order(self@),
            forall|i: int| 0 <= i < r@.len() ==> cell_at(self@, (#[trigger] r@[i])@) is Some,
    {
        let ghost s = self@;
        let ghost views = cell_views(self.fields@);
        let mut out: Vec<Vec<usize>> = Vec::new();
        assert(paths_view(out@) =~= Seq::<Seq<usize>>::empty());
        proof {
            reveal_with_fuel(levels, 1);
            lemma_views(*self, arbitrary());
            lemma_cell_views(self.fields@);
        }
        let mut d: usize = 0;
        loop
            invariant_except_break
                d <= depth(s),
                paths_view(out@) == levels(s, d as nat),
            invariant
                s == self@,
                s.fields == cell_views(self.fields@),
                s.fields.len() == self.fields@.len(),
            ensures
                paths_view(out@) == levels(s, depth(s)),
            decreases depth(s) - d,
        {
            let found = level_of_fields(&self.fields, d);
            proof {
                lemma_level_of_cells(s.fields, s.fields.len(), d as nat);
                reveal_with_fuel(levels, 2);
            }
            assert(paths_view(found@) == level(s, d as nat));
            if found.len() == 0 {
                assert(paths_view(found@).len() == 0);
                break ;
            }
            let width = found[0].len();
            assert(paths_view(found@).len() > 0);
            assert(paths_view(found@)[0] == found@[0]@);
            assert(level(s, d as nat)[0].len() > d);
            append_paths(&mut out, found);
            d = d + 1;
        }
        proof {
            lemma_countable(*self);
            assert forall|i: int| 0 <= i < out@.len() implies cell_at(
                self@,
                (#[trigger] out@[i])@,
            ) is Some by {
                assert(paths_view(out@)[i] == out@[i]@);
                lemma_bfs_paths_name_fields(self@, i);
            }
        }
        out
    }

    /// The index of the first field of the struct whose name has the text
    /// `name`, if there is one.
    pub fn find_direct(&self, name: &str) -> (r: Option<usize>)
        ensures
            match r {
                Some(i) => i < self@.fields.len() && windows_1252_decoded(
                    self@.fields[i as int].label,
                ) == name@ && none_named(self@.fields, i as int, name@),
                None => none_named(self@.fields, self@.fields.len() as int, name@),
            },
    {
        let ghost views = cell_views(self.fields@);
        proof {
            lemma_cell_views(self.fields@);
            lemma_views(*self, arbitrary());
        }
        let mut i: usize = 0;
        while i < self.fields.len()
            invariant
                0 <= i <= self.fields@.len(),
                views == self@.fields,
                views.len() == self.fields@.len(),
                forall|k: int| 0 <= k < self.fields@.len() ==> views[k] == self.fields@[k]@,
                none_named(views, i as int, name@),
            decreases self.fields@.len() - i,
        {
            if self.fields[i].has_label(name) {
                return Some(i);
            }
            i = i + 1;
        }
        None
    }

    /// The field that `path` names, if it names one.
    pub fn get(&self, path: &[usize]) -> (r: Option<&StructField>)
        ensures
            match r {
                Some(c) => cell_at(self@, path@) == Some(c@),
                None => cell_at(self@, path@) is None,
            },
        decreases path@.len(),
    {
        proof {
            lemma_cell_views(self.fields@);
            lemma_views(*self, arbitrary());
        }
        if path.len() == 0 || path[0] >= self.fields.len() {
            return None;
        }
        let cell = &self.fields[path[0]];
        proof {
            lemma_views(arbitrary(), *cell);
        }
        if path.len() == 1 {
            return Some(cell);
        }
        match &cell.0.field {
            Field::Struct(c) => {
                let rest = vstd::slice::slice_subrange(path, 1, path.len());
                assert(rest@ =~= path@.skip(1));
                c.get(rest)
            },
            Field::List(l) => {
                proof {
                    lemma_struct_views(l@);
                }
                if path.len() >= 3 && path[1] < l.len() {
                    let rest = vstd::slice::slice_subrange(path, 2, path.len());
                    assert(rest@ =~= path@.skip(2));
                    l[path[1]].get(rest)
                } else {
                    None
                }
            },
            _ => None,
        }
    }
}

/// The struct `s` with the value `value` in the field that `path` names;
/// `s` itself if `path` names no field.
pub open spec fn with_value(s: StructView, path: Seq<usize>, value: FieldView) -> StructView
    decreases path.len(),
{
    if path.len() == 0 || path[0] >= s.fields.len() {
        s
    } else {
        let c = s.fields[path[0] as int];
        let changed = if path.len() == 1 {
            LabeledFieldView { label: c.label, field: value }
        } else {
            match c.field {
                FieldView::Struct(x) => LabeledFieldView {
                    label: c.label,
                    field: FieldView::Struct(with_value(x, path.skip(1), value)),
                },
                FieldView::List(l) => if path.len() >= 3 && path[1] < l.len() {
                    LabeledFieldView {
                        label: c.label,
                        field: FieldView::List(
                            l.update(
                                path[1] as int,
                                with_value(l[path[1] as int], path.skip(2), value),
                            ),
                        ),
                    }
                } else {
                    c
                },
                _ => c,
            }
        };
        StructView { id: s.id, origin: s.origin, fields: s.fields.update(path[0] as int, changed) }
    }
}

/// **The value that is put in a field is the value that the field holds
/// afterwards**, under the name it had.
pub proof fn lemma_get_after_set(s: StructView, path: Seq<usize>, value: FieldView)
    requires
        cell_at(s, path) is Some,
    ensures
        cell_at(with_value(s, path, value), path) == Some(
            LabeledFieldView { label: cell_at(s, path)->Some_0.label, field: value },
        ),
    decreases path.len(),
{
    if path.len() > 1 {
        match s.fields[path[0] as int].field {
            FieldView::Struct(x) => {
                lemma_get_after_set(x, path.skip(1), value);
            },
            FieldView::List(l) => {
                lemma_get_after_set(l[path[1] as int], path.skip(2), value);
            },
            _ => {},
        }
    }
}

/// **A path that names no field changes nothing.**
pub proof fn lemma_set_nothing(s: StructView, path: Seq<usize>, value: FieldView)
    requires
        cell_at(s, path) is None,
    ensures
        with_value(s, path, value) == s,
    decreases path.len(),
{
    if path.len() > 0 && path[0] < s.fields.len() {
        let c = s.fields[path[0] as int];
        match c.field {
            FieldView::Struct(x) => {
                lemma_set_nothing(x, path.skip(1), value);
            },
            FieldView::List(l) => {
                if path.len() >= 3 && path[1] < l.len() {
                    lemma_set_nothing(l[path[1] as int], path.skip(2), value);
                    assert(l.update(path[1] as int, l[path[1] as int]) =~= l);
                }
            },
            _ => {},
        }
        assert(s.fields.update(path[0] as int, c) =~= s.fields);
    }
}

impl Struct {
    /// Puts `value` in the field that `path` names, and tells whether
    /// `path` names a field. Nothing else changes, and nothing at all if
    /// `path` names no field.
    pub fn set(&mut self, path: &[usize], value: Field) -> (r: bool)
        ensures
            r == cell_at(old(self)@, path@) is Some,
            r ==> final(self)@ == with_value(old(self)@, path@, value@),
            !r ==> final(self)@ == old(self)@,
        decreases path@.len(), 1nat,
    {
        proof {
            lemma_cell_views(self.fields@);
            lemma_views(*self, arbitrary());
        }
        if path.len() == 0 || path[0] >= self.fields.len() {
            return false;
        }
        let ghost before = self.fields@;
        let ghost index = path@[0] as int;
        let ghost was = self.fields@[index];
        proof {
            lemma_views(arbitrary(), was);
            match was.0.field {
                Field::Struct(x) => {
                    lemma_views(x, arbitrary());
                },
                Field::List(l) => {
                    lemma_struct_views(l@);
                },
                _ => {},
            }
        }
        let found = Self::set_below(&mut self.fields[path[0]], path, value);
        proof {
            let now = self.fields@[index];
            assert(self.fields@ =~= before.update(index, now));
            lemma_views(*self, now);
            lemma_cell_views(self.fields@);
            lemma_cell_views(before);
            assert(cell_views(self.fields@) =~= cell_views(before).update(index, now@));
            if !found {
                match was@.field {
                    FieldView::List(l) => {
                        if path@.len() >= 3 && path@[1] < l.len() {
                            assert(l.update(path@[1] as int, l[path@[1] as int]) =~= l);
                        }
                    },
                    _ => {},
                }
                assert(now@ == was@);
                assert(cell_views(before).update(index, was@) =~= cell_views(before));
            }
        }
        found
    }

    /// Puts `value` in the field `cell` if `path` has one index, and else
    /// in the field below `cell` that the rest of `path` names.
    fn set_below(cell: &mut StructField, path: &[usize], value: Field) -> (r: bool)
        requires
            path@.len() >= 1,
        ensures
            final(cell)@.label == old(cell)@.label,
            path@.len() == 1 ==> r && final(cell)@.field == value@,
            path@.len() > 1 ==> match old(cell)@.field {
                FieldView::Struct(x) => r == cell_at(x, path@.skip(1)) is Some && final(cell)@.field
                    == FieldView::Struct(
                    if r {
                        with_value(x, path@.skip(1), value@)
                    } else {
                        x
                    },
                ),
                FieldView::List(l) => if path@.len() >= 3 && path@[1] < l.len() {
                    r == cell_at(l[path@[1] as int], path@.skip(2)) is Some && final(cell)@.field
                        == FieldView::List(
                        l.update(
                            path@[1] as int,
                            if r {
                                with_value(l[path@[1] as int], path@.skip(2), value@)
                            } else {
                                l[path@[1] as int]
                            },
                        ),
                    )
                } else {
                    !r && final(cell)@ == old(cell)@
                },
                _ => !r && final(cell)@ == old(cell)@,
            },
        decreases path@.len(), 0nat,
    {
        proof {
            lemma_views(arbitrary(), *cell);
        }
        if path.len() == 1 {
            cell.0.field = value;
            proof {
                lemma_views(arbitrary(), *cell);
            }
            return true;
        }
        let found = match &mut cell.0.field {
            Field::Struct(c) => {
                let rest = vstd::slice::slice_subrange(path, 1, path.len());
                assert(rest@ =~= path@.skip(1));
                c.set(rest, value)
            },
            Field::List(l) => {
                proof {
                    lemma_struct_views(l@);
                }
                if path.len() >= 3 && path[1] < l.len() {
                    let rest = vstd::slice::slice_subrange(path, 2, path.len());
                    assert(rest@ =~= path@.skip(2));
                    let ghost before = l@;
                    let found = l[path[1]].set(rest, value);
                    proof {
                        let k = path@[1] as int;
                        assert(l@ =~= before.update(k, l@[k]));
                        lemma_struct_views(l@);
                        lemma_struct_views(before);
                        assert(struct_views(l@) =~= struct_views(before).update(k, l@[k]@));
                    }
                    found
                } else {
                    false
                }
            },
            _ => false,
        };
        proof {
            lemma_views(arbitrary(), *cell);
        }
        found
    }
}

} // verus!
