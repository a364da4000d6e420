use enca::grid::Grid;

#[test]
fn from_vec_keeps_rows_and_dimensions() {
    let g = Grid::from_vec(vec![vec![1, 2, 3], vec![4, 5, 6]]);
    assert_eq!(g.shape(), (2, 3));
    assert_eq!(g.height(), 2);
    assert_eq!(g.width(), 3);
    assert_eq!(g.data(), &vec![vec![1, 2, 3], vec![4, 5, 6]]);
    assert_eq!(*g.index((1, 2)), 6);
    assert_eq!(*g.index((0, 0)), 1);
}

#[test]
fn colors_are_those_of_the_cells() {
    let g = Grid::from_vec(vec![vec![0, 2, 2], vec![9, 0, 2]]);
    let colors = g.colors();
    assert_eq!(colors.len(), 3);
    assert!(colors.contains(&0));
    assert!(colors.contains(&2));
    assert!(colors.contains(&9));
    assert!(!colors.contains(&1));
}

#[test]
fn equal_content_gives_equal_hash() {
    let a = Grid::from_vec(vec![vec![1, 2], vec![3, 4]]);
    let b = Grid::from_vec(vec![vec![1, 2], vec![3, 4]]);
    let c = Grid::from_vec(vec![vec![1, 2], vec![3, 5]]);
    let d = Grid::from_vec(vec![vec![1, 2, 3, 4]]);
    assert_eq!(a.get_hash(), b.get_hash());
    assert_ne!(a.get_hash(), c.get_hash());
    assert_ne!(a.get_hash(), d.get_hash());
}

#[test]
fn clone_keeps_everything() {
    let a = Grid::from_vec(vec![vec![1, 2], vec![3, 4]]);
    let b = a.clone();
    assert_eq!(a.data(), b.data());
    assert_eq!(a.get_hash(), b.get_hash());
    assert_eq!(a.colors(), b.colors());
    assert_eq!(a.shape(), b.shape());
}

#[test]
fn valid_data_is_a_palette_matrix() {
    assert!(Grid::is_valid_data(&vec![vec![0, 9], vec![3, 4]]));
    assert!(!Grid::is_valid_data(&vec![]));
    assert!(!Grid::is_valid_data(&vec![vec![]]));
    assert!(!Grid::is_valid_data(&vec![vec![1, 2], vec![3]]));
    assert!(!Grid::is_valid_data(&vec![vec![1, 10]]));
}
