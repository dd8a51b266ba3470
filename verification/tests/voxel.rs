use rscan::point_cloud::PointCloud;
use rscan::voxel::first_in_each_cell;

fn cell_of(p: &[f32; 3], voxel_size: f32) -> (i32, i32, i32) {
    (
        (p[0] / voxel_size).floor() as i32,
        (p[1] / voxel_size).floor() as i32,
        (p[2] / voxel_size).floor() as i32,
    )
}

fn cells_for(cloud: &PointCloud<[f32; 3]>, voxel_size: f32) -> Vec<(i32, i32, i32)> {
    cloud.points.iter().map(|p| cell_of(p, voxel_size)).collect()
}

fn cloud_of(points: Vec<[f32; 3]>) -> PointCloud<[f32; 3]> {
    let mut cloud = PointCloud::new();
    cloud.points = points;
    cloud
}

#[test]
fn two_points_in_one_cell_collapse_into_the_first() {
    let mut cloud = cloud_of(vec![[0.0, 0.0, 0.0], [0.1, 0.0, 0.0], [5.0, 5.0, 5.0]]);
    let cells = cells_for(&cloud, 1.0);
    assert_eq!(cells, vec![(0, 0, 0), (0, 0, 0), (5, 5, 5)]);
    cloud.voxel_downsample(&cells);
    assert_eq!(cloud.points.len(), 2);
    assert!(cloud.points.contains(&[5.0, 5.0, 5.0]));
    assert_eq!(cloud.points, vec![[0.0, 0.0, 0.0], [5.0, 5.0, 5.0]]);
}

#[test]
fn first_in_each_cell_lists_first_occurrences_in_order() {
    let cells = vec![(0, 0, 0), (1, 0, 0), (0, 0, 0), (-1, 2, 3), (1, 0, 0), (-1, 2, 3)];
    assert_eq!(first_in_each_cell(&cells), vec![0, 1, 3]);
}

#[test]
fn first_in_each_cell_of_nothing_is_nothing() {
    assert_eq!(first_in_each_cell(&Vec::new()), Vec::<usize>::new());
}

#[test]
fn cells_that_differ_in_one_axis_only_are_different() {
    let cells = vec![(1, 2, 3), (1, 2, 4), (1, 3, 3), (2, 2, 3), (1, 2, 3)];
    assert_eq!(first_in_each_cell(&cells), vec![0, 1, 2, 3]);
}

#[test]
fn cells_at_the_ends_of_the_integer_range_stay_apart() {
    let cells = vec![
        (i32::MIN, i32::MAX, 0),
        (i32::MAX, i32::MIN, 0),
        (i32::MIN, i32::MIN, i32::MIN),
        (i32::MAX, i32::MAX, i32::MAX),
        (0, i32::MIN, i32::MAX),
        (-1, -1, -1),
        (0, 0, 0),
        (i32::MIN, i32::MAX, 0),
        (-1, -1, -1),
    ];
    assert_eq!(first_in_each_cell(&cells), vec![0, 1, 2, 3, 4, 5, 6]);
}

#[test]
fn downsampling_an_empty_cloud_gives_an_empty_cloud() {
    let mut cloud = cloud_of(vec![]);
    cloud.voxel_downsample(&vec![]);
    assert_eq!(cloud.len(), 0);
    assert!(!cloud.has_colors());
}

#[test]
fn a_voxel_larger_than_the_cloud_leaves_one_point() {
    let mut cloud = cloud_of(vec![[0.5, 0.5, 0.5], [1.0, 2.0, 3.0], [9.0, 9.0, 9.0]]);
    let cells = cells_for(&cloud, 100.0);
    cloud.voxel_downsample(&cells);
    assert_eq!(cloud.points, vec![[0.5, 0.5, 0.5]]);
}

#[test]
fn points_on_both_sides_of_zero_fall_into_different_cells() {
    let mut cloud = cloud_of(vec![[-0.5, 0.0, 0.0], [0.5, 0.0, 0.0], [-0.1, 0.0, 0.0]]);
    let cells = cells_for(&cloud, 1.0);
    assert_eq!(cells, vec![(-1, 0, 0), (0, 0, 0), (-1, 0, 0)]);
    cloud.voxel_downsample(&cells);
    assert_eq!(cloud.points, vec![[-0.5, 0.0, 0.0], [0.5, 0.0, 0.0]]);
}

#[test]
fn colors_stay_aligned_with_points_after_downsampling() {
    let mut cloud = cloud_of(vec![
        [0.0, 0.0, 0.0],
        [0.2, 0.2, 0.2],
        [3.0, 0.0, 0.0],
        [0.4, 0.1, 0.0],
        [3.5, 0.5, 0.5],
        [7.0, 7.0, 7.0],
    ]);
    cloud.colors =
        vec![[1, 1, 1], [2, 2, 2], [3, 3, 3], [4, 4, 4], [5, 5, 5], [6, 6, 6]];
    let cells = cells_for(&cloud, 1.0);
    cloud.voxel_downsample(&cells);
    assert_eq!(cloud.colors.len(), cloud.points.len());
    assert_eq!(cloud.points, vec![[0.0, 0.0, 0.0], [3.0, 0.0, 0.0], [7.0, 7.0, 7.0]]);
    assert_eq!(cloud.colors, vec![[1, 1, 1], [3, 3, 3], [6, 6, 6]]);
    assert!(cloud.is_aligned());
}

#[test]
fn normals_follow_their_points_through_downsampling() {
    let mut cloud = cloud_of(vec![[0.0, 0.0, 0.0], [0.5, 0.5, 0.5], [2.0, 2.0, 2.0]]);
    cloud.normals = vec![[1.0, 0.0, 0.0], [0.0, 1.0, 0.0], [0.0, 0.0, 1.0]];
    let cells = cells_for(&cloud, 1.0);
    cloud.voxel_downsample(&cells);
    assert_eq!(cloud.points, vec![[0.0, 0.0, 0.0], [2.0, 2.0, 2.0]]);
    assert_eq!(cloud.normals, vec![[1.0, 0.0, 0.0], [0.0, 0.0, 1.0]]);
    assert!(cloud.colors.is_empty());
}

#[test]
fn downsampling_twice_with_one_voxel_size_changes_nothing_more() {
    let mut cloud = cloud_of(vec![
        [0.1, 0.1, 0.1],
        [0.9, 0.9, 0.9],
        [1.1, 0.0, 0.0],
        [-0.3, 0.0, 0.0],
        [1.9, 0.9, 0.1],
        [-0.7, 0.2, 0.9],
    ]);
    cloud.colors = vec![[10, 0, 0], [20, 0, 0], [30, 0, 0], [40, 0, 0], [50, 0, 0], [60, 0, 0]];
    let cells = cells_for(&cloud, 1.0);
    cloud.voxel_downsample(&cells);
    let once = cloud.clone();
    let cells = cells_for(&cloud, 1.0);
    cloud.voxel_downsample(&cells);
    assert_eq!(cloud.points, once.points);
    assert_eq!(cloud.colors, once.colors);
    assert_eq!(cloud.points, vec![[0.1, 0.1, 0.1], [1.1, 0.0, 0.0], [-0.3, 0.0, 0.0]]);
}

#[test]
fn downsampling_never_adds_points() {
    for voxel_size in [0.25f32, 0.5, 1.0, 2.0, 8.0] {
        let mut cloud = cloud_of(
            (0..40).map(|i| [i as f32 * 0.3, (i % 7) as f32 * 0.4, (i % 3) as f32]).collect(),
        );
        let before = cloud.len();
        let cells = cells_for(&cloud, voxel_size);
        cloud.voxel_downsample(&cells);
        assert!(cloud.len() <= before);
        let cells = cells_for(&cloud, voxel_size);
        let mut seen = cells.clone();
        seen.sort();
        seen.dedup();
        assert_eq!(seen.len(), cells.len());
    }
}

#[test]
fn retain_keeps_the_named_positions() {
    let mut cloud = cloud_of(vec![[0.0, 0.0, 0.0], [1.0, 1.0, 1.0], [2.0, 2.0, 2.0]]);
    cloud.colors = vec![[0, 0, 0], [1, 1, 1], [2, 2, 2]];
    cloud.retain(&vec![0, 2]);
    assert_eq!(cloud.points, vec![[0.0, 0.0, 0.0], [2.0, 2.0, 2.0]]);
    assert_eq!(cloud.colors, vec![[0, 0, 0], [2, 2, 2]]);
}

#[test]
fn a_new_cloud_is_empty_and_aligned() {
    let cloud: PointCloud<[f32; 3]> = PointCloud::new();
    assert_eq!(cloud.len(), 0);
    assert!(cloud.points.is_empty());
    assert!(cloud.colors.is_empty());
    assert!(cloud.normals.is_empty());
    assert!(!cloud.has_colors());
    assert!(cloud.is_aligned());
}

#[test]
fn a_cloud_with_too_few_colors_is_not_aligned() {
    let mut cloud = cloud_of(vec![[0.0, 0.0, 0.0], [1.0, 1.0, 1.0]]);
    cloud.colors = vec![[1, 2, 3]];
    assert!(!cloud.is_aligned());
    cloud.colors.push([4, 5, 6]);
    assert!(cloud.is_aligned());
    cloud.normals = vec![[0.0, 0.0, 1.0]];
    assert!(!cloud.is_aligned());
}

#[test]
fn try_voxel_downsample_does_what_voxel_downsample_does_on_an_aligned_cloud() {
    let mut cloud = cloud_of(vec![[0.0, 0.0, 0.0], [0.1, 0.0, 0.0], [5.0, 5.0, 5.0]]);
    cloud.colors = vec![[1, 1, 1], [2, 2, 2], [3, 3, 3]];
    let cells = cells_for(&cloud, 1.0);
    assert!(cloud.try_voxel_downsample(&cells));
    assert_eq!(cloud.points, vec![[0.0, 0.0, 0.0], [5.0, 5.0, 5.0]]);
    assert_eq!(cloud.colors, vec![[1, 1, 1], [3, 3, 3]]);
}

#[test]
fn try_voxel_downsample_leaves_the_cloud_where_a_survivor_has_no_color() {
    let mut cloud = cloud_of(vec![[0.0, 0.0, 0.0], [0.1, 0.0, 0.0], [5.0, 5.0, 5.0]]);
    cloud.colors = vec![[1, 1, 1], [2, 2, 2]];
    let cells = cells_for(&cloud, 1.0);
    assert!(!cloud.try_voxel_downsample(&cells));
    assert_eq!(cloud.points, vec![[0.0, 0.0, 0.0], [0.1, 0.0, 0.0], [5.0, 5.0, 5.0]]);
    assert_eq!(cloud.colors, vec![[1, 1, 1], [2, 2, 2]]);
    cloud.colors.clear();
    cloud.normals = vec![[0.0, 0.0, 1.0]];
    assert!(!cloud.try_voxel_downsample(&cells));
    assert_eq!(cloud.len(), 3);
}

#[test]
fn try_voxel_downsample_works_where_every_survivor_has_its_color() {
    let mut cloud = cloud_of(vec![[0.0, 0.0, 0.0], [5.0, 5.0, 5.0], [0.1, 0.0, 0.0]]);
    cloud.colors = vec![[1, 1, 1], [2, 2, 2]];
    let cells = cells_for(&cloud, 1.0);
    assert!(cloud.try_voxel_downsample(&cells));
    assert_eq!(cloud.points, vec![[0.0, 0.0, 0.0], [5.0, 5.0, 5.0]]);
    assert_eq!(cloud.colors, vec![[1, 1, 1], [2, 2, 2]]);
    assert!(cloud.is_aligned());
}

#[test]
fn try_voxel_downsample_needs_one_cell_per_point() {
    let mut cloud = cloud_of(vec![[0.0, 0.0, 0.0], [5.0, 5.0, 5.0]]);
    assert!(!cloud.try_voxel_downsample(&vec![(0, 0, 0)]));
    assert!(!cloud.try_voxel_downsample(&vec![(0, 0, 0), (5, 5, 5), (1, 1, 1)]));
    assert_eq!(cloud.len(), 2);
    assert!(cloud.try_voxel_downsample(&vec![(0, 0, 0), (0, 0, 0)]));
    assert_eq!(cloud.points, vec![[0.0, 0.0, 0.0]]);
}
