use enca::grid::Grid;
use enca::transforms::{
    FlipHorizontal, FlipVertical, Identity, ReflectAntiDiagonal, ReflectMainDiagonal, RemapColors,
    Rotate180, Rotate270CW, Rotate90CW, Transform, TransformPipeline,
};

fn sample() -> Grid {
    Grid::from_vec(vec![vec![1, 2, 3], vec![4, 5, 6]])
}

#[test]
fn rotate90_turns_clockwise() {
    let mut g = sample();
    Rotate90CW {}.apply(&mut g);
    assert_eq!(g.data(), &vec![vec![4, 1], vec![5, 2], vec![6, 3]]);
    assert_eq!(g.shape(), (3, 2));
}

#[test]
fn rotate90_revert_turns_counter_clockwise() {
    let mut g = sample();
    Rotate90CW {}.revert(&mut g);
    assert_eq!(g.data(), &vec![vec![3, 6], vec![2, 5], vec![1, 4]]);
}

#[test]
fn rotate180_is_a_half_turn() {
    let mut g = sample();
    Rotate180 {}.apply(&mut g);
    assert_eq!(g.data(), &vec![vec![6, 5, 4], vec![3, 2, 1]]);
    Rotate180 {}.revert(&mut g);
    assert_eq!(g.data(), sample().data());
}

#[test]
fn rotate270_is_three_quarter_turns() {
    let mut g = sample();
    Rotate270CW {}.apply(&mut g);
    assert_eq!(g.data(), &vec![vec![3, 6], vec![2, 5], vec![1, 4]]);
    let mut h = sample();
    Rotate90CW {}.apply(&mut h);
    Rotate90CW {}.apply(&mut h);
    Rotate90CW {}.apply(&mut h);
    assert_eq!(g.data(), h.data());
    Rotate270CW {}.revert(&mut g);
    assert_eq!(g.data(), sample().data());
}

#[test]
fn flips_mirror_the_grid() {
    let mut g = sample();
    FlipHorizontal {}.apply(&mut g);
    assert_eq!(g.data(), &vec![vec![3, 2, 1], vec![6, 5, 4]]);
    FlipHorizontal {}.revert(&mut g);
    assert_eq!(g.data(), sample().data());
    FlipVertical {}.apply(&mut g);
    assert_eq!(g.data(), &vec![vec![4, 5, 6], vec![1, 2, 3]]);
    FlipVertical {}.revert(&mut g);
    assert_eq!(g.data(), sample().data());
}

#[test]
fn diagonal_reflections() {
    let mut g = sample();
    ReflectMainDiagonal {}.apply(&mut g);
    assert_eq!(g.data(), &vec![vec![1, 4], vec![2, 5], vec![3, 6]]);
    ReflectMainDiagonal {}.revert(&mut g);
    assert_eq!(g.data(), sample().data());
    ReflectAntiDiagonal {}.apply(&mut g);
    assert_eq!(g.data(), &vec![vec![6, 3], vec![5, 2], vec![4, 1]]);
    ReflectAntiDiagonal {}.revert(&mut g);
    assert_eq!(g.data(), sample().data());
}

#[test]
fn transforms_refresh_hash_and_colors() {
    let mut g = sample();
    Rotate180 {}.apply(&mut g);
    let same = Grid::from_vec(vec![vec![6, 5, 4], vec![3, 2, 1]]);
    assert_eq!(g.get_hash(), same.get_hash());
    assert_eq!(g.colors(), same.colors());
}

#[test]
fn remap_colors_maps_and_reverts() {
    let mut remap = RemapColors::new();
    let mut g = Grid::from_vec(vec![vec![1, 2], vec![5, 1]]);
    remap.apply(&mut g);
    assert_eq!(g.data(), &vec![vec![1, 2], vec![5, 1]]);
    remap.map(1, 5);
    remap.apply(&mut g);
    assert_eq!(g.data(), &vec![vec![5, 2], vec![5, 5]]);
    remap.revert(&mut g);
    assert_eq!(g.data(), &vec![vec![1, 2], vec![1, 1]]);
}

#[test]
fn remap_colors_swap_round_trips() {
    let mut remap = RemapColors::default();
    remap.map(1, 2);
    remap.map(2, 1);
    let mut g = Grid::from_vec(vec![vec![1, 2, 0], vec![2, 2, 9]]);
    remap.apply(&mut g);
    assert_eq!(g.data(), &vec![vec![2, 1, 0], vec![1, 1, 9]]);
    remap.revert(&mut g);
    assert_eq!(g.data(), &vec![vec![1, 2, 0], vec![2, 2, 9]]);
}

#[test]
fn transform_dispatches_to_its_variant() {
    let mut g = sample();
    Transform::Identity(Identity {}).apply(&mut g);
    assert_eq!(g.data(), sample().data());
    Transform::Rotate90CW(Rotate90CW {}).apply(&mut g);
    assert_eq!(g.data(), &vec![vec![4, 1], vec![5, 2], vec![6, 3]]);
    Transform::Rotate90CW(Rotate90CW {}).revert(&mut g);
    assert_eq!(g.data(), sample().data());
    Transform::FlipVertical(FlipVertical {}).apply(&mut g);
    assert_eq!(g.data(), &vec![vec![4, 5, 6], vec![1, 2, 3]]);
}

#[test]
fn pipeline_applies_in_order_and_reverts_in_reverse() {
    let mut remap = RemapColors::new();
    remap.map(1, 7);
    remap.map(7, 1);
    let pipeline = TransformPipeline {
        steps: vec![
            Transform::Rotate90CW(Rotate90CW {}),
            Transform::FlipHorizontal(FlipHorizontal {}),
            Transform::RemapColors(remap),
            Transform::ReflectAntiDiagonal(ReflectAntiDiagonal {}),
        ],
    };
    let mut g = sample();
    pipeline.apply(&mut g);
    let mut by_hand = sample();
    Rotate90CW {}.apply(&mut by_hand);
    FlipHorizontal {}.apply(&mut by_hand);
    remap.apply(&mut by_hand);
    ReflectAntiDiagonal {}.apply(&mut by_hand);
    assert_eq!(g.data(), by_hand.data());
    // rotate: [[4,1],[5,2],[6,3]]; flip: [[1,4],[2,5],[3,6]]; recolor: [[7,4],[2,5],[3,6]];
    // anti-diagonal: [[6,5,4],[3,2,7]]
    assert_eq!(g.data(), &vec![vec![6, 5, 4], vec![3, 2, 7]]);
    pipeline.revert(&mut g);
    assert_eq!(g.data(), sample().data());
    assert_eq!(g.get_hash(), sample().get_hash());
}

#[test]
fn default_pipeline_is_empty() {
    let pipeline = TransformPipeline::default();
    assert!(pipeline.steps.is_empty());
    let mut g = sample();
    pipeline.apply(&mut g);
    pipeline.revert(&mut g);
    assert_eq!(g.data(), sample().data());
}

#[test]
fn remap_colors_tables() {
    let mut remap = RemapColors::new();
    assert_eq!(remap.col_map(), [0, 1, 2, 3, 4, 5, 6, 7, 8, 9]);
    assert_eq!(remap.rev_col_map(), [0, 1, 2, 3, 4, 5, 6, 7, 8, 9]);
    remap.map(3, 8);
    assert_eq!(remap.col_map(), [0, 1, 2, 8, 4, 5, 6, 7, 8, 9]);
    assert_eq!(remap.rev_col_map(), [0, 1, 2, 3, 4, 5, 6, 7, 3, 9]);
    let copy = RemapColors::from_tables(remap.col_map(), remap.rev_col_map());
    let mut g = Grid::from_vec(vec![vec![3, 8]]);
    copy.apply(&mut g);
    assert_eq!(g.data(), &vec![vec![8, 8]]);
    copy.revert(&mut g);
    assert_eq!(g.data(), &vec![vec![3, 3]]);
}
