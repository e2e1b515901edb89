//! Sliding and merging one line of cells toward its first position.
//!
//! A line is a row or a column read in motion order: position 0 is the edge the
//! tiles move toward. The tiles close up in order, and each pair of equal tiles met
//! from the edge outward merges into one tile of twice the value; a merged tile does
//! not merge again in the same move.
use vstd::prelude::*;

use crate::cell::{is_tile_value, Cell};
use crate::errors::BoardError;

verus! {

/// The values of the filled cells of `line`, in order.
pub open spec fn tile_values(line: Seq<Cell>) -> Seq<u128>
    decreases line.len(),
{
    if line.len() == 0 {
        Seq::empty()
    } else {
        let rest = tile_values(line.drop_last());
        match line.last() {
            Cell::Filled(v) => rest.push(v),
            Cell::Empty => rest,
        }
    }
}

/// The values left after merging equal neighbours of `vals` pairwise from the front:
/// a pair merges into twice its value and takes no further part in merging.
pub open spec fn merge_pairs(vals: Seq<u128>) -> Seq<int>
    decreases vals.len(),
{
    if vals.len() >= 2 && vals[0] == vals[1] {
        seq![2 * vals[0]] + merge_pairs(vals.subrange(2, vals.len() as int))
    } else if vals.len() >= 1 {
        seq![vals[0] as int] + merge_pairs(vals.subrange(1, vals.len() as int))
    } else {
        Seq::empty()
    }
}

/// The cells of a line of length `n` that holds `vals` from its first position on.
pub open spec fn packed(vals: Seq<int>, n: nat) -> Seq<Cell> {
    Seq::new(n, |i: int| if i < vals.len() { Cell::Filled(vals[i] as u128) } else { Cell::Empty })
}

/// Whether some merged value of `line` is too large for a tile.
pub open spec fn slide_overflows(line: Seq<Cell>) -> bool {
    exists|i: int|
        0 <= i < merge_pairs(tile_values(line)).len() && #[trigger] merge_pairs(
            tile_values(line),
        )[i] > u128::MAX
}

/// `line` after its tiles have slid toward position 0 and merged.
pub open spec fn slid(line: Seq<Cell>) -> Seq<Cell> {
    packed(merge_pairs(tile_values(line)), line.len())
}

/// A sequence of `u128` read as integers.
pub open spec fn widen(s: Seq<u128>) -> Seq<int> {
    s.map_values(|v: u128| v as int)
}

proof fn lemma_tile_values_len(line: Seq<Cell>)
    ensures
        tile_values(line).len() <= line.len(),
    decreases line.len(),
{
    if line.len() > 0 {
        lemma_tile_values_len(line.drop_last());
    }
}

proof fn lemma_tile_values_step(line: Seq<Cell>, j: int)
    requires
        0 <= j < line.len(),
    ensures
        tile_values(line.subrange(0, j + 1)) == match line[j] {
            Cell::Filled(v) => tile_values(line.subrange(0, j)).push(v),
            Cell::Empty => tile_values(line.subrange(0, j)),
        },
{
    assert(line.subrange(0, j + 1).drop_last() =~= line.subrange(0, j));
}

/// Whether every cell of `line` holds a tile.
pub open spec fn all_filled(line: Seq<Cell>) -> bool {
    forall|i: int| 0 <= i < line.len() ==> (#[trigger] line[i]) is Filled
}

/// Merging never lengthens a line, and leaves it as it is when nothing merges.
pub proof fn lemma_merge_len(vals: Seq<u128>)
    ensures
        merge_pairs(vals).len() <= vals.len(),
        merge_pairs(vals).len() == vals.len() ==> merge_pairs(vals) == widen(vals),
    decreases vals.len(),
{
    if vals.len() >= 2 && vals[0] == vals[1] {
        lemma_merge_len(vals.subrange(2, vals.len() as int));
    } else if vals.len() >= 1 {
        let rest = vals.subrange(1, vals.len() as int);
        lemma_merge_len(rest);
        if merge_pairs(vals).len() == vals.len() {
            assert(merge_pairs(vals) =~= widen(vals));
        }
    } else {
        assert(merge_pairs(vals) =~= widen(vals));
    }
}

/// A line whose tiles all hold their place after the slide, because every position
/// is filled afterwards, was already packed with no equal neighbours: it is unchanged.
pub proof fn lemma_full_slide_unchanged(line: Seq<Cell>)
    requires
        all_filled(slid(line)),
    ensures
        slid(line) == line,
{
    let tv = tile_values(line);
    lemma_tile_values_len(line);
    lemma_merge_len(tv);
    if merge_pairs(tv).len() < line.len() {
        assert(slid(line)[merge_pairs(tv).len() as int] is Empty);
    }
    lemma_all_tiles_packed(line);
}

/// A line with as many tile values as cells is made of those tiles alone.
proof fn lemma_all_tiles_packed(line: Seq<Cell>)
    requires
        tile_values(line).len() == line.len(),
    ensures
        line == packed(widen(tile_values(line)), line.len()),
    decreases line.len(),
{
    if line.len() > 0 {
        let dl = line.drop_last();
        lemma_tile_values_len(dl);
        if line.last() is Empty {
            assert(false);
        }
        lemma_all_tiles_packed(dl);
        let tv = tile_values(line);
        let p = packed(widen(tv), line.len());
        let pd = packed(widen(tile_values(dl)), dl.len());
        assert forall|k: int| 0 <= k < line.len() implies line[k] == p[k] by {
            if k < dl.len() {
                assert(line[k] == dl[k]);
                assert(dl[k] == pd[k]);
                assert(tv[k] == tile_values(dl)[k]);
            } else {
                assert(tv[k] == tv.last());
            }
        }
        assert(line =~= p);
    } else {
        assert(line =~= packed(widen(tile_values(line)), line.len()));
    }
}

/// Whether every cell of `line` is well formed.
pub open spec fn all_wf(line: Seq<Cell>) -> bool {
    forall|i: int| 0 <= i < line.len() ==> (#[trigger] line[i]).wf()
}

proof fn lemma_tile_values_wf(line: Seq<Cell>)
    requires
        all_wf(line),
    ensures
        forall|k: int|
            0 <= k < tile_values(line).len() ==> is_tile_value(#[trigger] tile_values(line)[k] as int),
    decreases line.len(),
{
    if line.len() > 0 {
        let dl = line.drop_last();
        assert forall|i: int| 0 <= i < dl.len() implies (#[trigger] dl[i]).wf() by {
            assert(dl[i] == line[i]);
        }
        lemma_tile_values_wf(dl);
        assert(line.last() == line[line.len() - 1]);
        let tv = tile_values(line);
        let td = tile_values(dl);
        assert forall|k: int| 0 <= k < tv.len() implies is_tile_value(#[trigger] tv[k] as int) by {
            if k < td.len() {
                assert(tv[k] == td[k]);
            }
        }
    }
}

proof fn lemma_merge_wf(vals: Seq<u128>)
    requires
        forall|k: int| 0 <= k < vals.len() ==> is_tile_value(#[trigger] vals[k] as int),
    ensures
        forall|k: int|
            0 <= k < merge_pairs(vals).len() ==> is_tile_value(#[trigger] merge_pairs(vals)[k]),
    decreases vals.len(),
{
    if vals.len() >= 2 && vals[0] == vals[1] {
        let rest = vals.subrange(2, vals.len() as int);
        assert forall|k: int| 0 <= k < rest.len() implies is_tile_value(#[trigger] rest[k] as int) by {
            assert(rest[k] == vals[k + 2]);
        }
        lemma_merge_wf(rest);
        let v = vals[0] as int;
        assert(is_tile_value(v));
        assert((2 * v) / 2 == v);
        assert(is_tile_value(2 * v));
        let m = merge_pairs(vals);
        assert forall|k: int| 0 <= k < m.len() implies is_tile_value(#[trigger] m[k]) by {
            if k > 0 {
                assert(m[k] == merge_pairs(rest)[k - 1]);
            }
        }
    } else if vals.len() >= 1 {
        let rest = vals.subrange(1, vals.len() as int);
        assert forall|k: int| 0 <= k < rest.len() implies is_tile_value(#[trigger] rest[k] as int) by {
            assert(rest[k] == vals[k + 1]);
        }
        lemma_merge_wf(rest);
        assert(is_tile_value(vals[0] as int));
        let m = merge_pairs(vals);
        assert forall|k: int| 0 <= k < m.len() implies is_tile_value(#[trigger] m[k]) by {
            if k > 0 {
                assert(m[k] == merge_pairs(rest)[k - 1]);
            }
        }
    }
}

/// A slide that does not overflow keeps every tile a power of two no smaller than 2.
pub proof fn lemma_slide_wf(line: Seq<Cell>)
    requires
        all_wf(line),
        !slide_overflows(line),
    ensures
        all_wf(slid(line)),
{
    let m = merge_pairs(tile_values(line));
    lemma_tile_values_wf(line);
    lemma_merge_wf(tile_values(line));
    assert forall|i: int| 0 <= i < slid(line).len() implies (#[trigger] slid(line)[i]).wf() by {
        if i < m.len() {
            assert(is_tile_value(m[i]));
            assert(m[i] <= u128::MAX);
        }
    }
}

/// Whether `line` is full and no two neighbours hold equal tiles: nothing can move.
pub open spec fn locked(line: Seq<Cell>) -> bool {
    &&& all_filled(line)
    &&& forall|i: int| 0 <= i < line.len() - 1 ==> #[trigger] line[i] != line[i + 1]
}

proof fn lemma_full_tile_values(line: Seq<Cell>)
    requires
        all_filled(line),
    ensures
        tile_values(line).len() == line.len(),
        forall|k: int|
            0 <= k < line.len() ==> line[k] == Cell::Filled(#[trigger] tile_values(line)[k]),
    decreases line.len(),
{
    if line.len() > 0 {
        let dl = line.drop_last();
        assert forall|i: int| 0 <= i < dl.len() implies (#[trigger] dl[i]) is Filled by {
            assert(dl[i] == line[i]);
        }
        lemma_full_tile_values(dl);
        assert(line.last() == line[line.len() - 1]);
        let tv = tile_values(line);
        assert forall|k: int| 0 <= k < line.len() implies line[k] == Cell::Filled(
            #[trigger] tv[k],
        ) by {
            if k < dl.len() {
                assert(line[k] == dl[k]);
                assert(tv[k] == tile_values(dl)[k]);
            }
        }
    }
}

proof fn lemma_merge_distinct(vals: Seq<u128>)
    requires
        forall|i: int| 0 <= i < vals.len() - 1 ==> #[trigger] vals[i] != vals[i + 1],
    ensures
        merge_pairs(vals) == widen(vals),
    decreases vals.len(),
{
    if vals.len() >= 1 {
        let rest = vals.subrange(1, vals.len() as int);
        assert forall|i: int| 0 <= i < rest.len() - 1 implies #[trigger] rest[i] != rest[i + 1] by {
            assert(rest[i] == vals[i + 1] && rest[i + 1] == vals[i + 2]);
        }
        lemma_merge_distinct(rest);
        assert(merge_pairs(vals) =~= widen(vals));
    } else {
        assert(merge_pairs(vals) =~= widen(vals));
    }
}

/// A full line with no equal neighbours cannot overflow, and a slide leaves it
/// exactly as it is.
pub proof fn lemma_locked_unchanged(line: Seq<Cell>)
    requires
        locked(line),
    ensures
        !slide_overflows(line),
        slid(line) == line,
{
    let tv = tile_values(line);
    lemma_full_tile_values(line);
    assert forall|i: int| 0 <= i < tv.len() - 1 implies #[trigger] tv[i] != tv[i + 1] by {
        assert(line[i] != line[i + 1]);
        assert(line[i] == Cell::Filled(tv[i]));
        assert(line[i + 1] == Cell::Filled(tv[i + 1]));
    }
    lemma_merge_distinct(tv);
    lemma_all_tiles_packed(line);
    assert forall|i: int| 0 <= i < merge_pairs(tv).len() implies #[trigger] merge_pairs(tv)[i]
        <= u128::MAX by {
        assert(merge_pairs(tv)[i] == tv[i] as int);
    }
}

/// Slides and merges `line` toward position 0. Fails with `Overflow`, and returns
/// nothing else, exactly when a merged tile would not fit in a `u128`.
pub fn slide_line(line: [Cell; 4]) -> (r: Result<[Cell; 4], BoardError>)
    ensures
        match r {
            Ok(out) => !slide_overflows(line@) && out@ == slid(line@),
            Err(e) => slide_overflows(line@) && e is Overflow,
        },
{
    let mut vals: Vec<u128> = Vec::new();
    let mut j: usize = 0;
    while j < 4
        invariant
            j <= 4,
            vals@ == tile_values(line@.subrange(0, j as int)),
        decreases 4 - j,
    {
        proof {
            lemma_tile_values_step(line@, j as int);
        }
        match line[j] {
            Cell::Filled(v) => vals.push(v),
            Cell::Empty => {},
        }
        j += 1;
    }
    assert(line@.subrange(0, 4) =~= line@);
    proof {
        lemma_tile_values_len(line@);
    }
    let ghost merged = merge_pairs(vals@);
    let n = vals.len();
    assert(vals@.subrange(0, n as int) =~= vals@);
    assert(widen(Seq::<u128>::empty()) + merged =~= merged);
    let mut out: Vec<u128> = Vec::new();
    let mut i: usize = 0;
    while i < n
        invariant
            n == vals@.len(),
            n <= 4,
            i <= n,
            out@.len() <= i,
            merged == merge_pairs(vals@),
            vals@ == tile_values(line@),
            widen(out@) + merge_pairs(vals@.subrange(i as int, n as int)) == merged,
        decreases n - i,
    {
        let ghost rest = vals@.subrange(i as int, n as int);
        let v = vals[i];
        if i + 1 < n && vals[i + 1] == v {
            assert(rest.subrange(2, rest.len() as int) =~= vals@.subrange(i + 2, n as int));
            if v > u128::MAX / 2 {
                proof {
                    let tail = seq![2 * v] + merge_pairs(vals@.subrange(i + 2, n as int));
                    assert(merge_pairs(rest) == tail);
                    assert(merged[out@.len() as int] == tail[0]);
                    assert(merged[out@.len() as int] > u128::MAX);
                    assert(merge_pairs(tile_values(line@))[out@.len() as int] > u128::MAX);
                }
                return Err(BoardError::Overflow { tile: v });
            }
            let doubled: u128 = 2 * v;
            proof {
                assert(widen(out@.push(doubled)) =~= widen(out@).push(doubled as int));
                assert(widen(out@) + (seq![doubled as int] + merge_pairs(
                    vals@.subrange(i + 2, n as int),
                )) =~= widen(out@).push(doubled as int) + merge_pairs(
                    vals@.subrange(i + 2, n as int),
                ));
            }
            out.push(doubled);
            i += 2;
        } else {
            assert(rest.subrange(1, rest.len() as int) =~= vals@.subrange(i + 1, n as int));
            proof {
                assert(widen(out@.push(v)) =~= widen(out@).push(v as int));
                assert(widen(out@) + (seq![v as int] + merge_pairs(
                    vals@.subrange(i + 1, n as int),
                )) =~= widen(out@).push(v as int) + merge_pairs(vals@.subrange(i + 1, n as int)));
            }
            out.push(v);
            i += 1;
        }
    }
    assert(vals@.subrange(n as int, n as int) =~= Seq::<u128>::empty());
    assert(widen(out@) =~= merged);
    let mut res: [Cell; 4] = [Cell::Empty; 4];
    let m = out.len();
    let mut k: usize = 0;
    while k < m
        invariant
            m == out@.len(),
            m <= 4,
            k <= m,
            widen(out@) == merged,
            forall|p: int| 0 <= p < 4 ==> res@[p] == (if p < k { Cell::Filled(out@[p]) } else { Cell::Empty }),
        decreases m - k,
    {
        res[k] = Cell::Filled(out[k]);
        k += 1;
    }
    assert(res@ =~= slid(line@));
    Ok(res)
}

} // verus!
