//! The slide/merge algorithm for a single line of cells.
//!
//! A move in any direction processes every line parallel to the motion
//! independently: the nonzero tiles slide toward the near edge, and adjacent
//! equal tiles merge pairwise into one doubled tile, each merge result taking
//! no further part in merging during the same move.

use vstd::prelude::*;

verus! {

/// True when `v` is a power of two (1, 2, 4, 8, ...).
pub open spec fn is_pow2(v: nat) -> bool
    decreases v,
{
    if v == 0 {
        false
    } else if v == 1 {
        true
    } else {
        v % 2 == 0 && is_pow2(v / 2)
    }
}

/// A legal cell value: 0 for an empty cell, otherwise a tile, which is a
/// power of two of at least 2.
pub open spec fn cell_ok(v: u32) -> bool {
    v == 0 || (v >= 2 && is_pow2(v as nat))
}

/// Every value of the line is a legal cell value.
pub open spec fn line_ok(s: Seq<u32>) -> bool {
    forall|i: int| 0 <= i < s.len() ==> cell_ok(s[i])
}

/// The total value mass of a line: the sum of all its cell values.
pub open spec fn mass(s: Seq<u32>) -> int
    decreases s.len(),
{
    if s.len() == 0 {
        0
    } else {
        mass(s.drop_last()) + s.last()
    }
}

/// The nonzero values of a line, in order.
pub open spec fn nonzeros(s: Seq<u32>) -> Seq<u32>
    decreases s.len(),
{
    if s.len() == 0 {
        Seq::empty()
    } else if s.last() == 0 {
        nonzeros(s.drop_last())
    } else {
        nonzeros(s.drop_last()).push(s.last())
    }
}

/// Greedy pairwise merging of a compacted line, scanning from the near edge:
/// when the two nearest tiles are equal they combine into one doubled tile,
/// and the result of a merge takes no further part in merging.
pub open spec fn merge_pairs(s: Seq<u32>) -> Seq<u32>
    decreases s.len(),
{
    if s.len() <= 1 {
        s
    } else if s[0] == s[1] {
        seq![(2 * s[0]) as u32] + merge_pairs(s.skip(2))
    } else {
        seq![s[0]] + merge_pairs(s.skip(1))
    }
}

/// The points gained by merging a compacted line: the sum of the doubled
/// values produced by its merges.
pub open spec fn merge_gain(s: Seq<u32>) -> int
    decreases s.len(),
{
    if s.len() <= 1 {
        0
    } else if s[0] == s[1] {
        2 * s[0] + merge_gain(s.skip(2))
    } else {
        merge_gain(s.skip(1))
    }
}

/// A run of `n` empty cells.
pub open spec fn zero_cells(n: nat) -> Seq<u32> {
    Seq::new(n, |i: int| 0u32)
}

/// The result of one slide/merge pass over a line, tiles moving toward
/// index 0: the compacted and merged tiles, padded with empty cells.
pub open spec fn slide_line(s: Seq<u32>) -> Seq<u32> {
    let m = merge_pairs(nonzeros(s));
    m + zero_cells((s.len() - m.len()) as nat)
}

/// The points gained by one slide/merge pass over a line.
pub open spec fn line_gain(s: Seq<u32>) -> int {
    merge_gain(nonzeros(s))
}

pub proof fn lemma_mass_nonneg(s: Seq<u32>)
    ensures
        0 <= mass(s),
    decreases s.len(),
{
    if s.len() > 0 {
        lemma_mass_nonneg(s.drop_last());
    }
}

pub proof fn lemma_mass_additive(a: Seq<u32>, b: Seq<u32>)
    ensures
        mass(a + b) == mass(a) + mass(b),
    decreases b.len(),
{
    if b.len() == 0 {
        assert(a + b =~= a);
    } else {
        assert((a + b).drop_last() =~= a + b.drop_last());
        lemma_mass_additive(a, b.drop_last());
    }
}

pub proof fn lemma_mass_singleton(v: u32)
    ensures
        mass(seq![v]) == v,
{
    assert(seq![v].drop_last() =~= Seq::<u32>::empty());
    assert(mass(Seq::<u32>::empty()) == 0);
}

/// Peeling the head off a line splits its mass.
pub proof fn lemma_mass_head(s: Seq<u32>)
    requires
        s.len() > 0,
    ensures
        mass(s) == s[0] + mass(s.skip(1)),
{
    assert(s =~= seq![s[0]] + s.skip(1));
    lemma_mass_additive(seq![s[0]], s.skip(1));
    lemma_mass_singleton(s[0]);
}

pub proof fn lemma_mass_zero_cells(n: nat)
    ensures
        mass(zero_cells(n)) == 0,
    decreases n,
{
    if n > 0 {
        assert(zero_cells(n).drop_last() =~= zero_cells((n - 1) as nat));
        lemma_mass_zero_cells((n - 1) as nat);
    }
}

/// Dropping the zeroes of a line does not change its mass.
pub proof fn lemma_mass_nonzeros(s: Seq<u32>)
    ensures
        mass(nonzeros(s)) == mass(s),
    decreases s.len(),
{
    if s.len() > 0 {
        lemma_mass_nonzeros(s.drop_last());
        if s.last() != 0 {
            let p = nonzeros(s.drop_last());
            assert(p.push(s.last()).drop_last() =~= p);
        }
    }
}

pub proof fn lemma_nonzeros_len(s: Seq<u32>)
    ensures
        nonzeros(s).len() <= s.len(),
    decreases s.len(),
{
    if s.len() > 0 {
        lemma_nonzeros_len(s.drop_last());
    }
}

/// Every value of a compacted line is nonzero.
pub proof fn lemma_nonzeros_all_nonzero(s: Seq<u32>)
    ensures
        forall|i: int| 0 <= i < nonzeros(s).len() ==> nonzeros(s)[i] != 0,
    decreases s.len(),
{
    if s.len() > 0 {
        lemma_nonzeros_all_nonzero(s.drop_last());
        let p = nonzeros(s.drop_last());
        assert forall|i: int| 0 <= i < nonzeros(s).len() implies nonzeros(s)[i] != 0 by {
            if s.last() == 0 || i < p.len() {
                assert(nonzeros(s)[i] == p[i]);
            } else {
                assert(nonzeros(s)[i] == s.last());
            }
        }
    }
}

/// Compacting keeps every value legal.
pub proof fn lemma_nonzeros_ok(s: Seq<u32>)
    requires
        line_ok(s),
    ensures
        line_ok(nonzeros(s)),
    decreases s.len(),
{
    if s.len() > 0 {
        assert(forall|i: int| 0 <= i < s.len() - 1 ==> cell_ok(s.drop_last()[i]));
        lemma_nonzeros_ok(s.drop_last());
    }
}

/// A line with no zeroes compacts to itself.
pub proof fn lemma_nonzeros_of_all_nonzero(s: Seq<u32>)
    requires
        forall|i: int| 0 <= i < s.len() ==> s[i] != 0,
    ensures
        nonzeros(s) == s,
    decreases s.len(),
{
    if s.len() > 0 {
        assert(forall|i: int| 0 <= i < s.len() - 1 ==> s.drop_last()[i] != 0);
        lemma_nonzeros_of_all_nonzero(s.drop_last());
        assert(nonzeros(s) =~= s);
    }
}

/// Trailing empty cells do not change what a line compacts to.
pub proof fn lemma_nonzeros_pad(a: Seq<u32>, n: nat)
    ensures
        nonzeros(a + zero_cells(n)) == nonzeros(a),
    decreases n,
{
    if n == 0 {
        assert(a + zero_cells(n) =~= a);
    } else {
        let t = a + zero_cells((n - 1) as nat);
        assert(a + zero_cells(n) =~= t.push(0u32));
        assert(t.push(0u32).drop_last() =~= t);
        lemma_nonzeros_pad(a, (n - 1) as nat);
    }
}

pub proof fn lemma_merge_pairs_len(s: Seq<u32>)
    ensures
        merge_pairs(s).len() <= s.len(),
    decreases s.len(),
{
    if s.len() <= 1 {
    } else if s[0] == s[1] {
        lemma_merge_pairs_len(s.skip(2));
    } else {
        lemma_merge_pairs_len(s.skip(1));
    }
}

/// Merging conserves mass: two equal tiles become one tile of their sum.
pub proof fn lemma_merge_pairs_mass(s: Seq<u32>)
    requires
        mass(s) <= u32::MAX,
    ensures
        mass(merge_pairs(s)) == mass(s),
    decreases s.len(),
{
    if s.len() <= 1 {
    } else if s[0] == s[1] {
        lemma_mass_head(s);
        lemma_mass_head(s.skip(1));
        assert(s.skip(1).skip(1) =~= s.skip(2));
        lemma_mass_nonneg(s.skip(2));
        lemma_merge_pairs_mass(s.skip(2));
        lemma_mass_additive(seq![(2 * s[0]) as u32], merge_pairs(s.skip(2)));
        lemma_mass_singleton((2 * s[0]) as u32);
    } else {
        lemma_mass_head(s);
        lemma_mass_nonneg(s.skip(1));
        lemma_merge_pairs_mass(s.skip(1));
        lemma_mass_additive(seq![s[0]], merge_pairs(s.skip(1)));
        lemma_mass_singleton(s[0]);
    }
}

/// The points gained by merging never exceed the mass of the line.
pub proof fn lemma_merge_gain_bounds(s: Seq<u32>)
    ensures
        0 <= merge_gain(s) <= mass(s),
    decreases s.len(),
{
    if s.len() == 0 {
    } else if s.len() == 1 {
        lemma_mass_nonneg(s);
    } else if s[0] == s[1] {
        lemma_mass_head(s);
        lemma_mass_head(s.skip(1));
        assert(s.skip(1).skip(1) =~= s.skip(2));
        lemma_merge_gain_bounds(s.skip(2));
    } else {
        lemma_mass_head(s);
        lemma_merge_gain_bounds(s.skip(1));
    }
}

/// Merging a line of nonzero tiles leaves every value nonzero, and keeps
/// every value a legal tile.
pub proof fn lemma_merge_pairs_values(s: Seq<u32>)
    requires
        mass(s) <= u32::MAX,
        forall|i: int| 0 <= i < s.len() ==> s[i] != 0,
    ensures
        forall|i: int| 0 <= i < merge_pairs(s).len() ==> merge_pairs(s)[i] != 0,
        line_ok(s) ==> line_ok(merge_pairs(s)),
    decreases s.len(),
{
    if s.len() <= 1 {
    } else if s[0] == s[1] {
        lemma_mass_head(s);
        lemma_mass_head(s.skip(1));
        assert(s.skip(1).skip(1) =~= s.skip(2));
        lemma_mass_nonneg(s.skip(2));
        lemma_merge_pairs_values(s.skip(2));
        let d = (2 * s[0]) as u32;
        assert(d != 0);
        if line_ok(s) {
            assert(cell_ok(s[0]));
            assert((2 * s[0] as nat) % 2 == 0);
            assert((2 * s[0] as nat) / 2 == s[0] as nat);
            assert(is_pow2(d as nat));
            assert(line_ok(s.skip(2)));
            assert(forall|i: int|
                0 <= i < merge_pairs(s).len() ==> cell_ok(#[trigger] merge_pairs(s)[i]));
        }
    } else {
        lemma_mass_head(s);
        lemma_mass_nonneg(s.skip(1));
        lemma_merge_pairs_values(s.skip(1));
        if line_ok(s) {
            assert(line_ok(s.skip(1)));
            assert(forall|i: int|
                0 <= i < merge_pairs(s).len() ==> cell_ok(#[trigger] merge_pairs(s)[i]));
        }
    }
}

/// A merge pass that changes no tile count gained no points.
pub proof fn lemma_merge_pairs_same_len_no_gain(s: Seq<u32>)
    requires
        merge_pairs(s).len() == s.len(),
    ensures
        merge_gain(s) == 0,
    decreases s.len(),
{
    if s.len() <= 1 {
    } else if s[0] == s[1] {
        lemma_merge_pairs_len(s.skip(2));
        assert(false);
    } else {
        lemma_merge_pairs_same_len_no_gain(s.skip(1));
    }
}

/// The basic shape of one slide/merge pass: the length is kept, the mass is
/// conserved, the compacted result is exactly the merged tiles, and legal
/// lines stay legal.
pub proof fn lemma_slide_line_basic(s: Seq<u32>)
    requires
        mass(s) <= u32::MAX,
    ensures
        slide_line(s).len() == s.len(),
        mass(slide_line(s)) == mass(s),
        nonzeros(slide_line(s)) == merge_pairs(nonzeros(s)),
        0 <= line_gain(s) <= mass(s),
        line_ok(s) ==> line_ok(slide_line(s)),
{
    let nz = nonzeros(s);
    let m = merge_pairs(nz);
    lemma_nonzeros_len(s);
    lemma_merge_pairs_len(nz);
    lemma_mass_nonzeros(s);
    lemma_merge_pairs_mass(nz);
    lemma_mass_additive(m, zero_cells((s.len() - m.len()) as nat));
    lemma_mass_zero_cells((s.len() - m.len()) as nat);
    lemma_merge_gain_bounds(nz);
    lemma_nonzeros_all_nonzero(s);
    lemma_merge_pairs_values(nz);
    lemma_nonzeros_pad(m, (s.len() - m.len()) as nat);
    lemma_nonzeros_of_all_nonzero(m);
    if line_ok(s) {
        lemma_nonzeros_ok(s);
        assert(forall|i: int| 0 <= i < slide_line(s).len() ==> cell_ok(#[trigger] slide_line(s)[i]));
    }
}

/// Overwriting one cell changes the mass by the difference of the values.
pub proof fn lemma_mass_update(s: Seq<u32>, p: int, v: u32)
    requires
        0 <= p < s.len(),
    ensures
        mass(s.update(p, v)) == mass(s) - s[p] + v,
    decreases s.len(),
{
    if p == s.len() - 1 {
        assert(s.update(p, v).drop_last() =~= s.drop_last());
    } else {
        assert(s.update(p, v).drop_last() =~= s.drop_last().update(p, v));
        lemma_mass_update(s.drop_last(), p, v);
    }
}

/// One slide/merge pass keeps the length of the line.
pub proof fn lemma_slide_line_len(s: Seq<u32>)
    ensures
        slide_line(s).len() == s.len(),
{
    lemma_nonzeros_len(s);
    lemma_merge_pairs_len(nonzeros(s));
}

/// A pass that leaves the line unchanged gained no points.
pub proof fn lemma_unmoved_line_no_gain(s: Seq<u32>)
    requires
        mass(s) <= u32::MAX,
        slide_line(s) == s,
    ensures
        line_gain(s) == 0,
{
    lemma_slide_line_basic(s);
    lemma_merge_pairs_same_len_no_gain(nonzeros(s));
}

/// Three collinear equal tiles resolve to exactly one tile of double value
/// and one unmerged leftover tile of the original value -- never one tile of
/// quadruple value.
pub proof fn lemma_three_equal_tiles(s: Seq<u32>, v: u32)
    requires
        nonzeros(s) == seq![v, v, v],
        mass(s) <= u32::MAX,
    ensures
        nonzeros(slide_line(s)) == seq![(2 * v) as u32, v],
{
    lemma_nonzeros_all_nonzero(s);
    assert(v != 0);
    lemma_mass_nonzeros(s);
    lemma_mass_head(seq![v, v, v]);
    lemma_mass_head(seq![v, v, v].skip(1));
    lemma_mass_head(seq![v, v, v].skip(1).skip(1));
    assert(mass(seq![v, v, v]) == 3 * v) by {
        assert(seq![v, v, v].skip(1).skip(1).skip(1) =~= Seq::<u32>::empty());
    };
    lemma_slide_line_basic(s);
    let t = seq![v, v, v];
    assert(t.skip(2) =~= seq![v]);
    assert(merge_pairs(seq![v]) == seq![v]);
    assert(merge_pairs(t) =~= seq![(2 * v) as u32, v]);
}

/// Collect the nonzero tiles of a line, in order.
fn compact_line(line: &Vec<u32>) -> (nz: Vec<u32>)
    ensures
        nz@ == nonzeros(line@),
{
    let n: usize = line.len();
    let mut nz: Vec<u32> = Vec::new();
    let mut i: usize = 0;
    while i < n
        invariant
            i <= n,
            n == line@.len(),
            nz@ == nonzeros(line@.take(i as int)),
        decreases n - i,
    {
        proof {
            assert(line@.take(i + 1).drop_last() =~= line@.take(i as int));
        }
        if line[i] != 0 {
            nz.push(line[i]);
        }
        i = i + 1;
    }
    proof {
        assert(line@.take(n as int) =~= line@);
    }
    nz
}

/// Merge the compacted tiles pairwise, scanning from the near edge.
///
/// Returns the merged tiles and the points gained.
fn merge_line(nz: &Vec<u32>) -> (r: (Vec<u32>, u32))
    requires
        mass(nz@) <= u32::MAX,
    ensures
        r.0@ == merge_pairs(nz@),
        r.1 as int == merge_gain(nz@),
{
    let ghost nzs = nz@;
    let mut out: Vec<u32> = Vec::new();
    let mut gained: u32 = 0;
    let mut k: usize = 0;
    proof {
        assert(nzs.skip(0) =~= nzs);
        assert(out@ + merge_pairs(nzs) =~= merge_pairs(nzs));
    }
    while k < nz.len()
        invariant
            k <= nz@.len(),
            nz@ == nzs,
            mass(nzs) <= u32::MAX,
            merge_pairs(nzs) == out@ + merge_pairs(nzs.skip(k as int)),
            merge_gain(nzs) == gained + merge_gain(nzs.skip(k as int)),
            0 <= gained,
        decreases nz@.len() - k,
    {
        let ghost rest = nzs.skip(k as int);
        proof {
            lemma_mass_additive(nzs.take(k as int), rest);
            assert(nzs.take(k as int) + rest =~= nzs);
            lemma_mass_nonneg(nzs.take(k as int));
            lemma_merge_gain_bounds(rest);
            lemma_merge_gain_bounds(nzs);
        }
        if k + 1 < nz.len() && nz[k] == nz[k + 1] {
            proof {
                lemma_mass_head(rest);
                lemma_mass_head(rest.skip(1));
                assert(rest.skip(1).skip(1) =~= rest.skip(2));
                lemma_mass_nonneg(rest.skip(2));
                lemma_merge_gain_bounds(rest.skip(2));
                assert(rest.skip(2) =~= nzs.skip(k + 2));
            }
            let doubled: u32 = nz[k] * 2;
            out.push(doubled);
            gained = gained + doubled;
            k = k + 2;
            proof {
                assert(merge_pairs(rest) == seq![doubled] + merge_pairs(nzs.skip(k as int)));
                assert(out@ + merge_pairs(nzs.skip(k as int)) =~=
                    out@.drop_last() + (seq![doubled] + merge_pairs(nzs.skip(k as int))));
            }
        } else {
            let kept: u32 = nz[k];
            out.push(kept);
            k = k + 1;
            proof {
                if rest.len() == 1 {
                    assert(rest.skip(1) =~= nzs.skip(k as int));
                    assert(nzs.skip(k as int) =~= Seq::<u32>::empty());
                    assert(merge_pairs(rest) =~= seq![kept]);
                    assert(merge_pairs(nzs.skip(k as int)) =~= Seq::<u32>::empty());
                } else {
                    assert(rest.skip(1) =~= nzs.skip(k as int));
                    assert(merge_pairs(rest) == seq![kept] + merge_pairs(nzs.skip(k as int)));
                }
                assert(out@ + merge_pairs(nzs.skip(k as int)) =~=
                    out@.drop_last() + (seq![kept] + merge_pairs(nzs.skip(k as int))));
            }
        }
    }
    proof {
        assert(nzs.skip(nzs.len() as int) =~= Seq::<u32>::empty());
        assert(out@ + merge_pairs(nzs.skip(nzs.len() as int)) =~= out@);
        assert(out@ == merge_pairs(nzs));
        assert(merge_gain(nzs.skip(nzs.len() as int)) == 0);
    }
    (out, gained)
}

/// Whether two lines of the same length differ anywhere.
fn lines_differ(a: &Vec<u32>, b: &Vec<u32>) -> (r: bool)
    requires
        a@.len() == b@.len(),
    ensures
        r == (a@ != b@),
{
    let n: usize = a.len();
    let mut changed = false;
    let mut j: usize = 0;
    while j < n
        invariant
            j <= n,
            n == a@.len() == b@.len(),
            changed == exists|t: int| 0 <= t < j && a@[t] != b@[t],
        decreases n - j,
    {
        if a[j] != b[j] {
            changed = true;
            proof {
                assert(a@[j as int] != b@[j as int]);
            }
        }
        j = j + 1;
    }
    proof {
        if !changed {
            assert(a@ =~= b@);
        }
    }
    changed
}

/// One slide/merge pass over a line, tiles moving toward index 0.
///
/// Returns the new line, the points gained by merges, and whether the pass
/// changed the line.
pub fn slide_merge_line(line: &Vec<u32>) -> (r: (Vec<u32>, u32, bool))
    requires
        mass(line@) <= u32::MAX,
    ensures
        r.0@ == slide_line(line@),
        r.1 as int == line_gain(line@),
        r.2 == (r.0@ != line@),
{
    let n: usize = line.len();
    proof {
        lemma_mass_nonzeros(line@);
        lemma_nonzeros_len(line@);
        lemma_merge_pairs_len(nonzeros(line@));
    }
    let nz = compact_line(line);
    let (mut out, gained) = merge_line(&nz);

    let ghost merged = out@;
    proof {
        assert(out@ =~= merged + zero_cells(0));
    }
    while out.len() < n
        invariant
            n == line@.len(),
            merged == merge_pairs(nonzeros(line@)),
            merged.len() <= out@.len() <= n,
            out@ == merged + zero_cells((out@.len() - merged.len()) as nat),
        decreases n - out.len(),
    {
        out.push(0);
        proof {
            assert(out@ =~= merged + zero_cells((out@.len() - merged.len()) as nat));
        }
    }
    proof {
        assert(out@ =~= slide_line(line@));
    }

    let changed = lines_differ(&out, line);
    (out, gained, changed)
}

} // verus!
