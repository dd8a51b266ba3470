//! The point cloud store: positions with optional colors and normals.

use crate::outlier::{inlier_indices, keep_inliers, lemma_inlier_indices, lemma_masked, lemma_masked_all, masked};
use crate::ply::{PlyError, PlyFile, PlyRow};
use crate::selection::{
    all_indices, gather, indices_where, is_selection, lemma_indices_where,
    lemma_indices_where_all, lemma_select_all, lemma_selection_len, positions, select,
};
use crate::voxel::{
    first_in_each_cell, first_indices, has_survivor, lemma_first_indices,
    lemma_first_indices_idempotent, Cell,
};
use vstd::prelude::*;

verus! {

/// Positions, colors and normals of a point cloud.
///
/// `P` is the type of a 3-D vector. In an aligned cloud `colors` and
/// `normals` are each either empty or one per point, entry for entry. The
/// store does not check this when it is filled by hand, and a file with
/// colors on some of its body lines only loads as a cloud that is not
/// aligned. The filters keep an aligned cloud aligned.
#[derive(Clone, Debug)]
pub struct PointCloud<P> {
    pub points: Vec<P>,
    pub colors: Vec<[u8; 3]>,
    pub normals: Vec<P>,
}

/// The three sequences of a point cloud as mathematical sequences.
pub struct CloudView<P> {
    pub points: Seq<P>,
    pub colors: Seq<[u8; 3]>,
    pub normals: Seq<P>,
}

/// What is left of an optional per-point attribute when only the points at
/// `indices` stay: an absent attribute stays absent.
pub open spec fn select_attribute<T>(attribute: Seq<T>, indices: Seq<int>) -> Seq<T> {
    if attribute.len() == 0 {
        attribute
    } else {
        select(attribute, indices)
    }
}

/// Every entry of `indices` is a position of `attribute`, unless `attribute`
/// is absent.
pub open spec fn attribute_has<T>(attribute: Seq<T>, indices: Seq<int>) -> bool {
    attribute.len() == 0 || forall|k: int|
        0 <= k < indices.len() ==> 0 <= #[trigger] indices[k] < attribute.len()
}

impl<P> CloudView<P> {
    /// The alignment invariant: colors and normals are absent or one per point.
    pub open spec fn wf(self) -> bool {
        &&& self.colors.len() == 0 || self.colors.len() == self.points.len()
        &&& self.normals.len() == 0 || self.normals.len() == self.points.len()
    }

    /// Every entry of `indices` names a point and, where colors or normals
    /// are present, a color and a normal.
    pub open spec fn has(self, indices: Seq<int>) -> bool {
        &&& forall|k: int|
            0 <= k < indices.len() ==> 0 <= #[trigger] indices[k] < self.points.len()
        &&& attribute_has(self.colors, indices)
        &&& attribute_has(self.normals, indices)
    }

    /// The cloud made of the points at `indices`, with their colors and normals.
    pub open spec fn retain(self, indices: Seq<int>) -> CloudView<P> {
        CloudView {
            points: select(self.points, indices),
            colors: select_attribute(self.colors, indices),
            normals: select_attribute(self.normals, indices),
        }
    }

    /// The cloud after voxel deduplication, `cells[i]` being the cell of point `i`.
    pub open spec fn voxel_downsample(self, cells: Seq<Cell>) -> CloudView<P> {
        self.retain(first_indices(cells))
    }

    /// Voxel deduplication with `cells` is defined: there is one cell per
    /// point, and every survivor has its color and normal where the cloud
    /// carries any.
    pub open spec fn can_voxel_downsample(self, cells: Seq<Cell>) -> bool {
        cells.len() == self.points.len() && self.has(first_indices(cells))
    }

    /// The cloud after outlier removal with guard `k`, `within[i]` telling
    /// whether point `i` lies within the threshold.
    pub open spec fn remove_outliers(self, k: nat, within: Seq<bool>) -> CloudView<P> {
        if self.points.len() < k {
            self
        } else {
            CloudView {
                points: masked(self.points, within),
                colors: masked(self.colors, within),
                normals: masked(self.normals, within),
            }
        }
    }
}

/// Every body line carries a color.
pub open spec fn all_colored(rows: Seq<PlyRow>) -> bool {
    forall|i: int| 0 <= i < rows.len() ==> (#[trigger] rows[i]).color is Some
}

/// No body line carries a color.
pub open spec fn none_colored(rows: Seq<PlyRow>) -> bool {
    forall|i: int| 0 <= i < rows.len() ==> (#[trigger] rows[i]).color is None
}

/// Every position was read.
pub open spec fn all_read<P>(coords: Seq<Option<P>>) -> bool {
    forall|i: int| 0 <= i < coords.len() ==> (#[trigger] coords[i]) is Some
}

/// The first `n` body lines that carry a color, in file order.
pub open spec fn colored_rows(rows: Seq<PlyRow>, n: nat) -> Seq<int> {
    indices_where(n, |i: int| rows[i].color is Some)
}

/// The colors that the first `n` body lines carry, in file order.
pub open spec fn row_colors_upto(rows: Seq<PlyRow>, n: nat) -> Seq<[u8; 3]> {
    Seq::new(colored_rows(rows, n).len(), |k: int| rows[colored_rows(rows, n)[k]].color.unwrap())
}

/// The colors that the body lines carry, in file order: one for each line
/// that has a color, none for a line that has none.
pub open spec fn row_colors(rows: Seq<PlyRow>) -> Seq<[u8; 3]> {
    row_colors_upto(rows, rows.len())
}

/// The cloud that the body lines `rows` give once their positions are read,
/// `coords[i]` being the position of line `i`, or `None` where one of its
/// coordinates is not a number.
///
/// One unread position fails the whole load. A line without a color adds a
/// point and no color, so that a file with colors on some lines only gives
/// fewer colors than points.
pub open spec fn assemble<P>(rows: Seq<PlyRow>, coords: Seq<Option<P>>) -> Result<
    CloudView<P>,
    PlyError,
> {
    if !all_read(coords) {
        Err(PlyError::BadCoordinate)
    } else {
        Ok(
            CloudView {
                points: Seq::new(coords.len(), |i: int| coords[i].unwrap()),
                colors: row_colors(rows),
                normals: Seq::empty(),
            },
        )
    }
}

/// The cell of each point, where `cell_of` gives the cell of a position.
pub open spec fn cells_of<P>(points: Seq<P>, cell_of: spec_fn(P) -> Cell) -> Seq<Cell> {
    Seq::new(points.len(), |i: int| cell_of(points[i]))
}

/// Some point of `points` lies in the cell `c`.
pub open spec fn occupies<P>(points: Seq<P>, cell_of: spec_fn(P) -> Cell, c: Cell) -> bool {
    exists|k: int| 0 <= k < points.len() && cell_of(#[trigger] points[k]) == c
}

/// `part` is made of some of the points of `whole`, in the order they have in
/// `whole`, each with the color and normal it has there.
pub open spec fn is_subcloud<P>(part: CloudView<P>, whole: CloudView<P>) -> bool {
    exists|indices: Seq<int>|
        is_selection(indices, whole.points.len() as int) && part == #[trigger] whole.retain(
            indices,
        )
}

impl<P> View for PointCloud<P> {
    type V = CloudView<P>;

    open spec fn view(&self) -> CloudView<P> {
        CloudView { points: self.points@, colors: self.colors@, normals: self.normals@ }
    }
}

/// Tells whether every entry of the increasing list `indices` is a position
/// of an attribute of `len` entries, or the attribute is absent.
fn attribute_holds<T>(attribute: &Vec<T>, indices: &Vec<usize>) -> (r: bool)
    requires
        forall|a: int, b: int|
            0 <= a < b < indices@.len() ==> positions(indices@)[a] < positions(indices@)[b],
    ensures
        r == attribute_has(attribute@, positions(indices@)),
{
    let n = indices.len();
    if attribute.len() == 0 || n == 0 {
        return true;
    }
    let last = indices[n - 1];
    proof {
        let idx = positions(indices@);
        assert(idx[n - 1] == last);
        if last < attribute@.len() {
            assert forall|k: int| 0 <= k < idx.len() implies 0 <= #[trigger] idx[k]
                < attribute@.len() by {
                if k < n - 1 {
                    assert(idx[k] < idx[n - 1]);
                }
            }
        }
    }
    last < attribute.len()
}

impl<P: Copy> PointCloud<P> {
    /// An empty cloud.
    pub fn new() -> (cloud: Self)
        ensures
            cloud@.points.len() == 0,
            cloud@.colors.len() == 0,
            cloud@.normals.len() == 0,
            cloud@.wf(),
    {
        PointCloud { points: Vec::new(), colors: Vec::new(), normals: Vec::new() }
    }

    /// The number of points.
    pub fn len(&self) -> (n: usize)
        ensures
            n == self@.points.len(),
    {
        self.points.len()
    }

    /// Whether the cloud carries colors.
    pub fn has_colors(&self) -> (r: bool)
        ensures
            r == (self@.colors.len() > 0),
    {
        self.colors.len() > 0
    }

    /// Whether colors and normals are each absent or one per point.
    pub fn is_aligned(&self) -> (r: bool)
        ensures
            r == self@.wf(),
    {
        let n = self.points.len();
        (self.colors.len() == 0 || self.colors.len() == n) && (self.normals.len() == 0
            || self.normals.len() == n)
    }

    /// Builds the cloud of a file that was read, `coords[i]` being the
    /// position on body line `i`, or `None` where it could not be read.
    ///
    /// The cloud is aligned where every body line carries a color or none does.
    pub fn from_ply(file: &PlyFile, coords: &Vec<Option<P>>) -> (r: Result<Self, PlyError>)
        requires
            coords@.len() == file@.rows.len(),
        ensures
            match assemble(file@.rows, coords@) {
                Ok(cloud) => r matches Ok(c) && c@ == cloud,
                Err(e) => r matches Err(f) && f == e,
            },
            all_colored(file@.rows) || none_colored(file@.rows) ==> (r matches Ok(c) ==> c@.wf()),
    {
        let n = file.rows.len();
        let mut points: Vec<P> = Vec::new();
        let mut colors: Vec<[u8; 3]> = Vec::new();
        let mut i: usize = 0;
        while i < n
            invariant
                i <= n,
                n == file@.rows.len(),
                n == coords@.len(),
                points@.len() == i,
                forall|j: int| 0 <= j < i ==> coords@[j] == Some(#[trigger] points@[j]),
                colors@ == row_colors_upto(file@.rows, i as nat),
            decreases n - i,
        {
            match coords[i] {
                Some(p) => {
                    points.push(p);
                },
                None => {
                    assert(coords@[i as int] is None);
                    return Err(PlyError::BadCoordinate);
                },
            }
            if let Some(c) = file.rows[i].color {
                colors.push(c);
                assert(colored_rows(file@.rows, (i + 1) as nat) == colored_rows(
                    file@.rows,
                    i as nat,
                ).push(i as int));
                assert(colors@ =~= row_colors_upto(file@.rows, (i + 1) as nat));
            }
            i += 1;
        }
        let cloud = PointCloud { points, colors, normals: Vec::new() };
        proof {
            assert(all_read(coords@)) by {
                assert forall|j: int| 0 <= j < coords@.len() implies (#[trigger] coords@[j])
                    is Some by {
                    assert(coords@[j] == Some(points@[j]));
                }
            }
            let want = assemble(file@.rows, coords@)->Ok_0;
            assert(cloud@.points =~= want.points) by {
                assert forall|j: int| 0 <= j < n implies cloud@.points[j] == want.points[j] by {
                    assert(coords@[j] == Some(points@[j]));
                }
            }
            assert(cloud@.normals =~= want.normals);
            lemma_assemble(file@.rows, coords@);
        }
        Ok(cloud)
    }

    /// Keeps the points at `indices`, in that order, and drops the others;
    /// colors and normals, where present, follow their points.
    pub fn retain(&mut self, indices: &Vec<usize>)
        requires
            old(self)@.has(positions(indices@)),
        ensures
            final(self)@ == old(self)@.retain(positions(indices@)),
            old(self)@.wf() ==> final(self)@.wf(),
    {
        proof {
            let idx = positions(indices@);
            assert forall|k: int| 0 <= k < indices@.len() implies (#[trigger] indices@[k] as int)
                < self@.points.len() && (self@.colors.len() > 0 ==> (indices@[k] as int)
                < self@.colors.len()) && (self@.normals.len() > 0 ==> (indices@[k] as int)
                < self@.normals.len()) by {
                assert(idx[k] == indices@[k] as int);
            }
        }
        let points = gather(&self.points, indices);
        if self.colors.len() > 0 {
            let colors = gather(&self.colors, indices);
            self.colors = colors;
        }
        if self.normals.len() > 0 {
            let normals = gather(&self.normals, indices);
            self.normals = normals;
        }
        self.points = points;
    }

    /// Collapses the points that share a voxel cell into the first of them.
    ///
    /// `cells[i]` is the cell of point `i`. Survivors keep their input order
    /// and are moved unchanged. Every aligned cloud with one cell per point
    /// meets the precondition.
    pub fn voxel_downsample(&mut self, cells: &Vec<Cell>)
        requires
            old(self)@.can_voxel_downsample(cells@),
        ensures
            final(self)@ == old(self)@.voxel_downsample(cells@),
            final(self)@.points.len() <= old(self)@.points.len(),
            old(self)@.colors.len() > 0 ==> final(self)@.colors.len() == final(self)@.points.len(),
            old(self)@.normals.len() > 0
                ==> final(self)@.normals.len() == final(self)@.points.len(),
            old(self)@.wf() ==> final(self)@.wf() && is_subcloud(final(self)@, old(self)@),
    {
        let kept = first_in_each_cell(cells);
        proof {
            lemma_first_indices(cells@);
            if self@.wf() {
                lemma_voxel_downsample(self@, cells@);
            }
        }
        self.retain(&kept);
    }

    /// Collapses the points that share a voxel cell into the first of them,
    /// if that is defined, and tells whether it was: the cloud is left as it
    /// is where `cells` does not hold one cell per point, or where a survivor
    /// would lack its color or its normal.
    pub fn try_voxel_downsample(&mut self, cells: &Vec<Cell>) -> (done: bool)
        ensures
            done == old(self)@.can_voxel_downsample(cells@),
            done ==> final(self)@ == old(self)@.voxel_downsample(cells@),
            !done ==> final(self)@ == old(self)@,
            old(self)@.wf() && cells@.len() == old(self)@.points.len() ==> done,
    {
        if cells.len() != self.points.len() {
            return false;
        }
        let kept = first_in_each_cell(cells);
        proof {
            lemma_first_indices(cells@);
        }
        if !attribute_holds(&self.colors, &kept) || !attribute_holds(&self.normals, &kept) {
            return false;
        }
        self.retain(&kept);
        true
    }

    /// Drops the points that are not within the threshold, unless the cloud
    /// has fewer than `k` points, in which case nothing changes.
    ///
    /// `within[i]` tells whether point `i` lies within the threshold.
    /// Survivors keep their input order. Colors and normals are masked as
    /// the points are, each entry by the flag at its own position.
    pub fn remove_outliers(&mut self, k: usize, within: &Vec<bool>)
        ensures
            final(self)@ == old(self)@.remove_outliers(k as nat, within@),
            final(self)@.points.len() <= old(self)@.points.len(),
            old(self)@.points.len() < k ==> final(self)@ == old(self)@,
            old(self)@.wf() && within@.len() == old(self)@.points.len() ==> final(self)@.wf()
                && is_subcloud(final(self)@, old(self)@),
    {
        proof {
            if self@.wf() && within@.len() == self@.points.len() {
                lemma_remove_outliers(self@, k as nat, within@);
            }
        }
        if self.points.len() < k {
            return;
        }
        let points = keep_inliers(&self.points, within);
        let colors = keep_inliers(&self.colors, within);
        let normals = keep_inliers(&self.normals, within);
        self.points = points;
        self.colors = colors;
        self.normals = normals;
    }
}

/// Keeping some positions never adds a point, and keeps the alignment of
/// colors and normals.
pub proof fn lemma_retain<P>(cloud: CloudView<P>, indices: Seq<int>)
    requires
        cloud.wf(),
        is_selection(indices, cloud.points.len() as int),
    ensures
        cloud.has(indices),
        cloud.retain(indices).wf(),
        cloud.retain(indices).points.len() <= cloud.points.len(),
        cloud.colors.len() > 0 ==> cloud.retain(indices).colors.len() == cloud.retain(
            indices,
        ).points.len(),
        is_subcloud(cloud.retain(indices), cloud),
{
    lemma_selection_len(indices, cloud.points.len() as int);
}

/// Voxel deduplication is defined on every aligned cloud. It keeps colors
/// aligned with points, never adds a point, and gives a part of the input in
/// input order.
pub proof fn lemma_voxel_downsample<P>(cloud: CloudView<P>, cells: Seq<Cell>)
    requires
        cloud.wf(),
        cells.len() == cloud.points.len(),
    ensures
        cloud.can_voxel_downsample(cells),
        cloud.voxel_downsample(cells).wf(),
        cloud.colors.len() > 0 ==> cloud.voxel_downsample(cells).colors.len()
            == cloud.voxel_downsample(cells).points.len(),
        cloud.voxel_downsample(cells).points.len() <= cloud.points.len(),
        is_subcloud(cloud.voxel_downsample(cells), cloud),
{
    lemma_first_indices(cells);
    lemma_retain(cloud, first_indices(cells));
}

/// After voxel deduplication no two points share a cell, and every cell that
/// held a point still holds one.
pub proof fn lemma_voxel_downsample_cells<P>(cloud: CloudView<P>, cell_of: spec_fn(P) -> Cell)
    ensures
        ({
            let once = cloud.voxel_downsample(cells_of(cloud.points, cell_of));
            &&& forall|a: int, b: int|
                0 <= a < b < once.points.len() ==> cell_of(#[trigger] once.points[a]) != cell_of(
                    #[trigger] once.points[b],
                )
            &&& forall|i: int|
                0 <= i < cloud.points.len() ==> occupies(
                    once.points,
                    cell_of,
                    cell_of(#[trigger] cloud.points[i]),
                )
        }),
{
    let cells = cells_of(cloud.points, cell_of);
    let kept = first_indices(cells);
    let once = cloud.voxel_downsample(cells);
    lemma_first_indices(cells);
    assert forall|a: int, b: int| 0 <= a < b < once.points.len() implies cell_of(
        #[trigger] once.points[a],
    ) != cell_of(#[trigger] once.points[b]) by {
        assert(cells[kept[a]] != cells[kept[b]]);
    }
    assert forall|i: int| 0 <= i < cloud.points.len() implies occupies(
        once.points,
        cell_of,
        cell_of(#[trigger] cloud.points[i]),
    ) by {
        assert(has_survivor(cells, i));
        let k = choose|k: int|
            0 <= k < kept.len() && #[trigger] kept[k] <= i && cells[kept[k]] == cells[i];
        assert(cell_of(once.points[k]) == cell_of(cloud.points[i]));
    }
}

/// Voxel deduplication is idempotent: for a fixed assignment of cells to
/// positions, deduplicating a deduplicated cloud changes nothing.
pub proof fn lemma_voxel_downsample_idempotent<P>(cloud: CloudView<P>, cell_of: spec_fn(P) -> Cell)
    requires
        cloud.wf(),
    ensures
        ({
            let once = cloud.voxel_downsample(cells_of(cloud.points, cell_of));
            once.voxel_downsample(cells_of(once.points, cell_of)) == once
        }),
{
    let cells = cells_of(cloud.points, cell_of);
    let kept = first_indices(cells);
    let once = cloud.voxel_downsample(cells);
    lemma_first_indices(cells);
    lemma_retain(cloud, kept);
    assert(cells_of(once.points, cell_of) =~= select(cells, kept));
    lemma_first_indices_idempotent(cells);
    let again = first_indices(cells_of(once.points, cell_of));
    assert(again == all_indices(once.points.len()));
    lemma_select_all(once.points);
    lemma_select_all(once.colors);
    lemma_select_all(once.normals);
}

/// On an aligned cloud with one flag per point, outlier removal keeps the
/// points flagged `true` with their colors and normals: it never adds a
/// point and gives a part of the input in input order. On a cloud of fewer
/// than `k` points it changes nothing.
pub proof fn lemma_remove_outliers<P>(cloud: CloudView<P>, k: nat, within: Seq<bool>)
    requires
        cloud.wf(),
        within.len() == cloud.points.len(),
    ensures
        cloud.points.len() >= k ==> cloud.remove_outliers(k, within) == cloud.retain(
            inlier_indices(within),
        ),
        cloud.remove_outliers(k, within).wf(),
        cloud.remove_outliers(k, within).points.len() <= cloud.points.len(),
        is_subcloud(cloud.remove_outliers(k, within), cloud),
        cloud.points.len() < k ==> cloud.remove_outliers(k, within) == cloud,
{
    if cloud.points.len() < k {
        let all = all_indices(cloud.points.len());
        lemma_select_all(cloud.points);
        lemma_select_all(cloud.colors);
        lemma_select_all(cloud.normals);
        assert(is_selection(all, cloud.points.len() as int));
        assert(cloud.retain(all) == cloud);
    } else {
        lemma_masked(cloud.points, within);
        lemma_masked(cloud.colors, within);
        lemma_masked(cloud.normals, within);
        lemma_inlier_indices(within);
        lemma_retain(cloud, inlier_indices(within));
    }
}

/// Where every point lies within the threshold, outlier removal changes nothing.
pub proof fn lemma_remove_outliers_all_within<P>(cloud: CloudView<P>, k: nat, within: Seq<bool>)
    requires
        cloud.wf(),
        within.len() == cloud.points.len(),
        forall|i: int| 0 <= i < within.len() ==> #[trigger] within[i],
    ensures
        cloud.remove_outliers(k, within) == cloud,
{
    lemma_masked_all(cloud.points, within);
    lemma_masked_all(cloud.colors, within);
    lemma_masked_all(cloud.normals, within);
}

/// The colors of a file are at most one per body line. Where every line
/// carries a color they are one per line, and where none does there are none.
pub proof fn lemma_row_colors(rows: Seq<PlyRow>)
    ensures
        row_colors(rows).len() <= rows.len(),
        is_selection(colored_rows(rows, rows.len()), rows.len() as int),
        all_colored(rows) ==> row_colors(rows) == Seq::new(
            rows.len(),
            |i: int| rows[i].color.unwrap(),
        ),
        none_colored(rows) ==> row_colors(rows).len() == 0,
{
    let keep = |i: int| rows[i].color is Some;
    lemma_indices_where(rows.len(), keep);
    if all_colored(rows) {
        assert forall|i: int| 0 <= i < rows.len() implies #[trigger] keep(i) by {
            assert(rows[i].color is Some);
        }
        lemma_indices_where_all(rows.len(), keep);
        assert(row_colors(rows) =~= Seq::new(rows.len(), |i: int| rows[i].color.unwrap()));
    }
    if none_colored(rows) && row_colors(rows).len() > 0 {
        let first = colored_rows(rows, rows.len())[0];
        assert(keep(first));
        assert(rows[first].color is None);
    }
}

/// A cloud built from a file has one point per body line, at most one color
/// per body line, and no normals. It is aligned where every body line
/// carries a color or none does.
pub proof fn lemma_assemble<P>(rows: Seq<PlyRow>, coords: Seq<Option<P>>)
    requires
        coords.len() == rows.len(),
    ensures
        assemble(rows, coords) is Ok <==> all_read(coords),
        assemble(rows, coords) matches Ok(cloud) ==> {
            &&& cloud.points.len() == rows.len()
            &&& cloud.colors.len() <= rows.len()
            &&& cloud.normals.len() == 0
            &&& all_colored(rows) || none_colored(rows) ==> cloud.wf()
        },
{
    lemma_row_colors(rows);
}

} // verus!
