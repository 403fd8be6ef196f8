use game_of_life::vec2d::Vec2D;

#[test]
fn test_new() {
    let actual = Vec2D::new(3, 2, &mut |x, y| (x, y));
    assert_eq!(3u32, actual.width);
    assert_eq!(2u32, actual.height);
    assert_eq!(vec![(0, 0), (1, 0), (2, 0), (0, 1), (1, 1), (2, 1)], actual.data);
}

#[test]
fn test_from_vec() {
    let actual = Vec2D::from_vec(2, 3, vec![0, 1, 2, 3, 4, 5]).unwrap();
    assert_eq!(2u32, actual.width);
    assert_eq!(3u32, actual.height);
    assert_eq!(vec![0, 1, 2, 3, 4, 5], actual.data);
}

#[test]
fn test_from_vec_incompatible_dimensions() {
    assert!(Vec2D::from_vec(3, 3, vec![1]).is_err());
}

#[test]
fn test_get() {
    let vec = Vec2D::new(2, 2, &mut |x, y| (x, y));
    assert_eq!(&(1, 1), vec.get(1, 1).unwrap());
}

#[test]
fn test_get_x_bounds() {
    let vec = Vec2D::new(2, 2, &mut |x, y| (x, y));
    assert_eq!(None, vec.get(-1, 0), "(-1, 0) is outside bounds");
    assert_eq!(None, vec.get(2, 0), "(2, 0) is outside bounds");
}

#[test]
fn test_get_y_bounds() {
    let vec = Vec2D::new(2, 2, &mut |x, y| (x, y));
    assert_eq!(None, vec.get(0, -1), "(0, -1) is outside bounds");
    assert_eq!(None, vec.get(0, 2), "(0, 2) is outside bounds");
}

#[test]
fn test_iter() {
    let vector = Vec2D::new(2, 2, &mut |x, y| (x, y));
    let mut actual: Vec<(u32, u32)> = Vec::new();
    let mut iter = vector.iter();
    while let Some(x) = iter.next() {
        actual.push(*x);
    }
    let expected = vec![(0, 0), (1, 0), (0, 1), (1, 1)];

    assert_eq!(expected, actual);
}

#[test]
fn test_iter_enumerate() {
    let vector = Vec2D::new(2, 2, &mut |x, y| (x, y));
    let mut actual: Vec<((u32, u32), (u32, u32))> = Vec::new();
    let mut pairs = vector.iter().enumerate();
    while let Some((index, value)) = pairs.next() {
        actual.push((index, *value));
    }
    let expected = vec![
        ((0, 0), (0, 0)),
        ((1, 0), (1, 0)),
        ((0, 1), (0, 1)),
        ((1, 1), (1, 1)),
    ];

    assert_eq!(expected, actual);
}

#[test]
fn new_calls_initializer_once_per_cell_in_row_major_order() {
    let mut calls: Vec<(u32, u32)> = Vec::new();
    let grid = Vec2D::new(3, 2, &mut |x, y| {
        calls.push((x, y));
        10 * y + x
    });
    assert_eq!(vec![(0, 0), (1, 0), (2, 0), (0, 1), (1, 1), (2, 1)], calls);
    assert_eq!(vec![0, 1, 2, 10, 11, 12], grid.data);
}

#[test]
fn new_with_zero_dimension_is_empty() {
    let wide = Vec2D::new(4, 0, &mut |x, y| (x, y));
    assert_eq!(4u32, wide.width);
    assert_eq!(0u32, wide.height);
    assert!(wide.data.is_empty());
    assert_eq!(None, wide.get(0, 0));
    let tall = Vec2D::new(0, 4, &mut |x, y| (x, y));
    assert!(tall.data.is_empty());
    assert!(tall.iter().enumerate().next().is_none());
}

#[test]
fn enumerate_covers_every_coordinate_row_by_row() {
    let grid = Vec2D::new(3, 4, &mut |x, y| 100 * y + x);
    let mut coords: Vec<(u32, u32)> = Vec::new();
    let mut pairs = grid.iter().enumerate();
    while let Some(((x, y), value)) = pairs.next() {
        assert_eq!(100 * y + x, *value);
        coords.push((x, y));
    }
    let mut expected: Vec<(u32, u32)> = Vec::new();
    for y in 0..4 {
        for x in 0..3 {
            expected.push((x, y));
        }
    }
    assert_eq!(12, coords.len());
    assert_eq!(expected, coords);
    assert!(pairs.next().is_none());
}

#[test]
fn enumerate_after_partial_iteration_keeps_coordinates() {
    let grid = Vec2D::new(2, 2, &mut |x, y| (x, y));
    let mut iter = grid.iter();
    assert_eq!(Some(&(0, 0)), iter.next());
    let mut pairs = iter.enumerate();
    assert_eq!(Some(((1, 0), &(1, 0))), pairs.next());
}

#[test]
fn get_returns_initializer_value_everywhere_inside() {
    let grid = Vec2D::new(5, 3, &mut |x, y| 7 * y + 3 * x);
    for y in 0..3i64 {
        for x in 0..5i64 {
            assert_eq!(Some(&((7 * y + 3 * x) as u32)), grid.get(x, y));
        }
    }
    assert_eq!(Some(&13), grid.get(2, 1));
    assert_eq!(None, grid.get(5, 1));
    assert_eq!(None, grid.get(1, 3));
    assert_eq!(None, grid.get(-1, -1));
    assert_eq!(None, grid.get(i64::MIN, 0));
    assert_eq!(None, grid.get(0, i64::MAX));
}

#[test]
fn get_does_not_wrap_around() {
    let grid = Vec2D::from_vec(3, 2, vec![0, 1, 2, 3, 4, 5]).unwrap();
    assert_eq!(None, grid.get(3, 0));
    assert_eq!(None, grid.get(-1, 1));
    assert_eq!(Some(&5), grid.get(2, 1));
    assert_eq!(Some(&3), grid.get(0, 1));
}

#[test]
fn from_vec_checks_the_product() {
    assert!(Vec2D::from_vec(2, 2, vec![1, 2, 3]).is_err());
    assert!(Vec2D::from_vec(2, 2, vec![1, 2, 3, 4, 5]).is_err());
    assert!(Vec2D::from_vec(0, 5, Vec::<u8>::new()).is_ok());
    assert!(Vec2D::from_vec(u32::MAX, u32::MAX, vec![1u8]).is_err());
    let grid = Vec2D::from_vec(1, 3, vec![7, 8, 9]).unwrap();
    assert_eq!(Some(&8), grid.get(0, 1));
}

#[test]
fn reshape_relabels_without_moving_data() {
    let mut grid = Vec2D::from_vec(2, 3, vec![0, 1, 2, 3, 4, 5]).unwrap();
    assert!(grid.reshape(3, 2).is_ok());
    assert_eq!(3u32, grid.width);
    assert_eq!(2u32, grid.height);
    assert_eq!(vec![0, 1, 2, 3, 4, 5], grid.data);
    assert_eq!(Some(&4), grid.get(1, 1));
    assert_eq!(None, grid.get(0, 2));
}

#[test]
fn reshape_with_wrong_product_changes_nothing() {
    let mut grid = Vec2D::from_vec(2, 3, vec![0, 1, 2, 3, 4, 5]).unwrap();
    assert!(grid.reshape(4, 2).is_err());
    assert_eq!(2u32, grid.width);
    assert_eq!(3u32, grid.height);
    assert_eq!(vec![0, 1, 2, 3, 4, 5], grid.data);
}
