use photo::array::{Array2, Array3};
use photo::image_rgb::ImageRGB;

fn numbered(width: usize, height: usize) -> ImageRGB {
    let mut image = ImageRGB::empty(width, height);
    for y in 0..height {
        for x in 0..width {
            let base = (10 * (y * width + x)) as u8;
            image.set_pixel([x, y], [base, base + 1, base + 2]);
        }
    }
    image
}

#[test]
fn rgb_new_takes_row_major_data() {
    let data = Array3::from_shape_vec((1, 2, 3), vec![1, 2, 3, 4, 5, 6]).unwrap();
    let image = ImageRGB::new(data);
    assert_eq!(image.width(), 2);
    assert_eq!(image.height(), 1);
    assert_eq!(image.get_pixel([0, 0]), [1, 2, 3]);
    assert_eq!(image.get_pixel([1, 0]), [4, 5, 6]);
    assert_eq!(image.data.to_vec(), vec![1, 2, 3, 4, 5, 6]);
}

#[test]
fn rgb_empty_is_all_zero() {
    let image = ImageRGB::empty(3, 2);
    assert_eq!(image.width(), 3);
    assert_eq!(image.height(), 2);
    assert_eq!(image.data.dim(), (2, 3, 3));
    assert_eq!(image.data.to_vec(), vec![0u8; 18]);
}

#[test]
fn rgb_filled_repeats_the_pixel() {
    let image = ImageRGB::filled(2, 3, [7, 8, 9]);
    assert_eq!(image.width(), 2);
    assert_eq!(image.height(), 3);
    for y in 0..3 {
        for x in 0..2 {
            assert_eq!(image.get_pixel([x, y]), [7, 8, 9]);
        }
    }
    assert_eq!(image.data.to_vec(), [7u8, 8, 9].repeat(6));
}

#[test]
fn rgb_from_layers_interleaves_the_channels() {
    let red = Array2::from_shape_vec((2, 2), vec![1, 2, 3, 4]).unwrap();
    let green = Array2::from_shape_vec((2, 2), vec![11, 12, 13, 14]).unwrap();
    let blue = Array2::from_shape_vec((2, 2), vec![21, 22, 23, 24]).unwrap();
    let image = ImageRGB::from_layers([red, green, blue]);
    assert_eq!(image.width(), 2);
    assert_eq!(image.height(), 2);
    assert_eq!(image.get_pixel([0, 0]), [1, 11, 21]);
    assert_eq!(image.get_pixel([1, 0]), [2, 12, 22]);
    assert_eq!(image.get_pixel([0, 1]), [3, 13, 23]);
    assert_eq!(image.get_pixel([1, 1]), [4, 14, 24]);
}

#[test]
fn rgb_get_layer_gives_one_channel() {
    let image = numbered(3, 2);
    let green = image.get_layer(1);
    assert_eq!(green.dim(), (2, 3));
    for y in 0..2 {
        for x in 0..3 {
            assert_eq!(green.get([y, x]), Some(image.get_component([x, y], 1)));
        }
    }
    assert_eq!(green.get([2, 0]), None);
    let back = ImageRGB::from_layers([image.get_layer(0), image.get_layer(1), image.get_layer(2)]);
    assert_eq!(back, image);
}

#[test]
fn rgb_coordinates_are_column_then_row() {
    let data = Array3::from_shape_vec((2, 3, 3), (0u8..18).collect()).unwrap();
    let image = ImageRGB::new(data);
    assert_eq!(image.width(), 3);
    assert_eq!(image.height(), 2);
    assert_eq!(image.get_component([2, 0], 0), 6);
    assert_eq!(image.get_component([0, 1], 0), 9);
    assert_eq!(image.get_component([2, 1], 2), 17);
    assert_eq!(image.get_pixel([1, 1]), [12, 13, 14]);
}

#[test]
fn rgb_set_component_changes_one_component() {
    let mut image = numbered(3, 2);
    let before = image.clone();
    image.set_component([2, 1], 1, 200);
    for y in 0..2 {
        for x in 0..3 {
            for c in 0..3 {
                let expected = if (x, y, c) == (2, 1, 1) {
                    200
                } else {
                    before.get_component([x, y], c)
                };
                assert_eq!(image.get_component([x, y], c), expected);
            }
        }
    }
}

#[test]
fn rgb_set_pixel_then_get_pixel_gives_it_back() {
    let mut image = numbered(3, 2);
    let before = image.clone();
    for y in 0..2 {
        for x in 0..3 {
            let mut changed = before.clone();
            changed.set_pixel([x, y], [201, 202, 203]);
            assert_eq!(changed.get_pixel([x, y]), [201, 202, 203]);
            for j in 0..2 {
                for i in 0..3 {
                    if (i, j) != (x, y) {
                        assert_eq!(changed.get_pixel([i, j]), before.get_pixel([i, j]));
                    }
                }
            }
        }
    }
    image.set_pixel([0, 0], [1, 2, 3]);
    assert_eq!(image.get_pixel([0, 0]), [1, 2, 3]);
}

#[test]
fn rgb_flip_horizontal_swaps_left_and_right() {
    let data = Array3::from_shape_vec((1, 2, 3), vec![1, 2, 3, 4, 5, 6]).unwrap();
    let mut image = ImageRGB::new(data);
    image.flip_horizontal();
    assert_eq!(image.width(), 2);
    assert_eq!(image.height(), 1);
    assert_eq!(image.get_pixel([0, 0]), [4, 5, 6]);
    assert_eq!(image.get_pixel([1, 0]), [1, 2, 3]);
    assert_eq!(image.data.to_vec(), vec![4, 5, 6, 1, 2, 3]);
}

#[test]
fn rgb_flip_vertical_swaps_top_and_bottom() {
    let mut image = numbered(2, 3);
    let before = image.clone();
    image.flip_vertical();
    assert_eq!((image.width(), image.height()), (2, 3));
    for y in 0..3 {
        for x in 0..2 {
            assert_eq!(image.get_pixel([x, y]), before.get_pixel([x, 2 - y]));
        }
    }
}

#[test]
fn rgb_transpose_exchanges_the_axes() {
    let mut image = numbered(2, 3);
    let before = image.clone();
    image.transpose();
    assert_eq!(image.height(), 2);
    assert_eq!(image.width(), 3);
    for y in 0..2 {
        for x in 0..3 {
            assert_eq!(image.get_pixel([x, y]), before.get_pixel([y, x]));
        }
    }
    assert_eq!(
        image.data.to_vec(),
        vec![0, 1, 2, 20, 21, 22, 40, 41, 42, 10, 11, 12, 30, 31, 32, 50, 51, 52]
    );
}

#[test]
fn rgb_flips_and_transpose_are_their_own_inverse() {
    let before = numbered(3, 2);
    let mut image = before.clone();
    image.flip_vertical();
    assert_ne!(image, before);
    image.flip_vertical();
    assert_eq!(image, before);
    image.flip_horizontal();
    assert_ne!(image, before);
    image.flip_horizontal();
    assert_eq!(image, before);
    image.transpose();
    assert_ne!(image, before);
    image.transpose();
    assert_eq!(image, before);
}

#[test]
fn rgb_rotate_clockwise_moves_the_top_left_to_the_top_right() {
    let mut image = numbered(3, 2);
    let before = image.clone();
    image.rotate_clockwise();
    assert_eq!(image.width(), 2);
    assert_eq!(image.height(), 3);
    assert_eq!(image.get_pixel([1, 0]), before.get_pixel([0, 0]));
    assert_eq!(image.get_pixel([1, 2]), before.get_pixel([2, 0]));
    assert_eq!(image.get_pixel([0, 0]), before.get_pixel([0, 1]));
    for y in 0..3 {
        for x in 0..2 {
            assert_eq!(image.get_pixel([x, y]), before.get_pixel([y, 1 - x]));
        }
    }
}

#[test]
fn rgb_rotate_anticlockwise_moves_the_top_left_to_the_bottom_left() {
    let mut image = numbered(3, 2);
    let before = image.clone();
    image.rotate_anticlockwise();
    assert_eq!(image.width(), 2);
    assert_eq!(image.height(), 3);
    assert_eq!(image.get_pixel([0, 2]), before.get_pixel([0, 0]));
    for y in 0..3 {
        for x in 0..2 {
            assert_eq!(image.get_pixel([x, y]), before.get_pixel([2 - y, x]));
        }
    }
}

#[test]
fn rgb_four_quarter_turns_give_the_image_back() {
    let before = numbered(3, 2);
    let mut image = before.clone();
    image.rotate_clockwise();
    image.rotate_clockwise();
    let mut half = before.clone();
    half.rotate_180();
    assert_eq!(image, half);
    image.rotate_clockwise();
    image.rotate_clockwise();
    assert_eq!(image, before);
    image.rotate_clockwise();
    image.rotate_anticlockwise();
    assert_eq!(image, before);
    image.rotate_anticlockwise();
    image.rotate_clockwise();
    assert_eq!(image, before);
}

#[test]
fn rgb_rotate_180_is_both_flips_in_either_order() {
    let before = numbered(3, 2);
    let mut turned = before.clone();
    turned.rotate_180();
    let mut first = before.clone();
    first.flip_vertical();
    first.flip_horizontal();
    let mut second = before.clone();
    second.flip_horizontal();
    second.flip_vertical();
    assert_eq!(turned, first);
    assert_eq!(turned, second);
    for y in 0..2 {
        for x in 0..3 {
            assert_eq!(turned.get_pixel([x, y]), before.get_pixel([2 - x, 1 - y]));
        }
    }
}

#[test]
fn rgb_pixels_can_be_read_after_every_transform() {
    let mut image = numbered(3, 2);
    image.flip_horizontal();
    image.transpose();
    image.flip_vertical();
    image.rotate_clockwise();
    image.rotate_180();
    image.rotate_anticlockwise();
    let copy = ImageRGB::new(
        Array3::from_shape_vec(image.data.dim(), image.data.to_vec()).unwrap(),
    );
    assert_eq!(copy, image);
    for y in 0..image.height() {
        for x in 0..image.width() {
            assert_eq!(copy.get_pixel([x, y]), image.get_pixel([x, y]));
        }
    }
}

#[test]
fn rgb_extract_copies_a_window() {
    let image = numbered(4, 3);
    let part = image.extract([1, 1], [2, 2]);
    assert_eq!(part.width(), 2);
    assert_eq!(part.height(), 2);
    for j in 0..2 {
        for i in 0..2 {
            assert_eq!(part.get_pixel([i, j]), image.get_pixel([1 + i, 1 + j]));
        }
    }
    let wide = image.extract([1, 2], [3, 1]);
    assert_eq!((wide.width(), wide.height()), (3, 1));
    assert_eq!(wide.get_pixel([2, 0]), image.get_pixel([3, 2]));
    assert_eq!(image.extract([0, 0], [4, 3]), image);
}

#[test]
fn rgb_extract_is_independent_of_the_source() {
    let mut image = numbered(4, 3);
    let part = image.extract([1, 1], [2, 2]);
    let kept = part.clone();
    image.set_pixel([1, 1], [250, 251, 252]);
    assert_eq!(part, kept);
}

#[test]
fn rgb_view_reads_a_window() {
    let image = numbered(4, 3);
    let part = image.view([1, 0], [3, 2]);
    assert_eq!(part.dim(), (2, 3, 3));
    for j in 0..2 {
        for i in 0..3 {
            for c in 0..3 {
                assert_eq!(part.get([j, i, c]), Some(image.get_component([1 + i, j], c)));
            }
        }
    }
    assert_eq!(part.get([2, 0, 0]), None);
    assert_eq!(part.get([0, 3, 0]), None);
    assert_eq!(part.get([0, 0, 3]), None);
}

#[test]
fn rgb_view_mut_writes_into_the_window_only() {
    let mut image = numbered(4, 3);
    let before = image.clone();
    {
        let mut part = image.view_mut([2, 1], [2, 2]);
        assert_eq!(part.dim(), (2, 2, 3));
        assert_eq!(part.get([0, 0, 0]), Some(before.get_component([2, 1], 0)));
        assert!(part.set([1, 0, 2], 99));
        assert_eq!(part.get([1, 0, 2]), Some(99));
        assert!(!part.set([2, 0, 0], 98));
    }
    assert_eq!((image.width(), image.height()), (4, 3));
    for y in 0..3 {
        for x in 0..4 {
            for c in 0..3 {
                let expected = if (x, y, c) == (2, 2, 2) {
                    99
                } else {
                    before.get_component([x, y], c)
                };
                assert_eq!(image.get_component([x, y], c), expected);
            }
        }
    }
}

#[test]
fn rgb_tiles_cover_the_image() {
    let image = numbered(4, 2);
    let grid = image.tiles([2, 1]);
    assert_eq!(grid.dim(), (2, 2));
    for row in 0..2 {
        for column in 0..2 {
            let tile = grid.get([row, column]).unwrap();
            assert_eq!(tile.dim(), (1, 2, 3));
            for i in 0..2 {
                for c in 0..3 {
                    assert_eq!(
                        tile.get([0, i, c]),
                        Some(image.get_component([2 * column + i, row], c))
                    );
                }
            }
            assert_eq!(&image.extract_tile([2, 1], [column, row]).data, tile);
        }
    }
    assert!(grid.get([2, 0]).is_none());
    assert!(grid.get([0, 2]).is_none());
}

#[test]
fn rgb_tile_accessors_agree() {
    let mut image = numbered(4, 4);
    let before = image.clone();
    let tile = image.extract_tile([2, 2], [1, 0]);
    assert_eq!((tile.width(), tile.height()), (2, 2));
    assert_eq!(tile, before.extract([2, 0], [2, 2]));
    {
        let seen = image.view_tile([2, 2], [0, 1]);
        assert_eq!(seen.dim(), (2, 2, 3));
        assert_eq!(seen.get([1, 1, 2]), Some(before.get_component([1, 3], 2)));
    }
    {
        let mut written = image.view_tile_mut([2, 2], [1, 1]);
        assert_eq!(written.get([0, 0, 0]), Some(before.get_component([2, 2], 0)));
        assert!(written.set([0, 0, 0], 77));
    }
    assert_eq!(image.get_component([2, 2], 0), 77);
    image.set_component([2, 2], 0, before.get_component([2, 2], 0));
    assert_eq!(image, before);
}

#[test]
fn rgb_unique_tiles_counts_in_order_of_first_occurrence() {
    let mut image = ImageRGB::empty(6, 2);
    image.set_pixel([0, 0], [1, 1, 1]);
    image.set_pixel([2, 0], [2, 2, 2]);
    image.set_pixel([4, 0], [1, 1, 1]);
    image.set_pixel([2, 1], [2, 2, 2]);
    let groups = image.unique_tiles([2, 1]);
    assert_eq!(groups.len(), 3);
    assert_eq!(groups[0].0, image.extract_tile([2, 1], [0, 0]));
    assert_eq!(groups[0].1, 2);
    assert_eq!(groups[1].0, image.extract_tile([2, 1], [1, 0]));
    assert_eq!(groups[1].1, 2);
    assert_eq!(groups[2].0, image.extract_tile([2, 1], [0, 1]));
    assert_eq!(groups[2].1, 2);
    assert_eq!(groups.iter().map(|g| g.1).sum::<usize>(), 6);
    for a in 0..groups.len() {
        for b in 0..a {
            assert_ne!(groups[a].0, groups[b].0);
        }
    }
}

#[test]
fn rgb_clone_is_independent_of_the_image() {
    let mut image = numbered(2, 2);
    let copy = image.clone();
    assert_eq!(copy, image);
    image.set_component([1, 1], 2, 255);
    assert_ne!(copy, image);
    assert_eq!(copy, numbered(2, 2));
}

#[test]
fn rgb_one_tile_covers_the_whole_image() {
    let image = numbered(3, 2);
    let grid = image.tiles([3, 2]);
    assert_eq!(grid.dim(), (1, 1));
    assert_eq!(grid.get([0, 0]), Some(&image.data));
    assert_eq!(image.extract_tile([3, 2], [0, 0]), image);
    let groups = image.unique_tiles([3, 2]);
    assert_eq!(groups.len(), 1);
    assert_eq!(groups[0].0, image);
    assert_eq!(groups[0].1, 1);
}

#[test]
fn rgb_tiles_of_one_pixel_are_the_pixels() {
    let image = numbered(3, 2);
    let grid = image.tiles([1, 1]);
    assert_eq!(grid.dim(), (2, 3));
    for y in 0..2 {
        for x in 0..3 {
            let tile = grid.get([y, x]).unwrap();
            assert_eq!(tile.to_vec(), image.get_pixel([x, y]).to_vec());
        }
    }
    let groups = image.unique_tiles([1, 1]);
    assert_eq!(groups.len(), 6);
    for (i, group) in groups.iter().enumerate() {
        assert_eq!(group.1, 1);
        assert_eq!(group.0.get_pixel([0, 0]), image.get_pixel([i % 3, i / 3]));
    }
}

#[test]
fn rgb_view_of_the_whole_image_shows_every_component() {
    let image = numbered(3, 2);
    let all = image.view([0, 0], [3, 2]);
    assert_eq!(all.dim(), image.data.dim());
    for y in 0..2 {
        for x in 0..3 {
            for c in 0..3 {
                assert_eq!(all.get([y, x, c]), Some(image.get_component([x, y], c)));
            }
        }
    }
}
