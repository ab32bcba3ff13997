use svg_sprite::geometry::{rects_disjoint, Rect};
use svg_sprite::packer::{check_layout, pack, PackError, PackItem};
use svg_sprite::sizing::{scaled_pixels, Length};
use svg_sprite::transform::{compose_chain, Stage};

fn rect(x: i64, y: i64, width: i64, height: i64) -> Rect {
    Rect { x, y, width, height }
}

fn overlaps(a: &Rect, b: &Rect) -> bool {
    !(a.x + a.width <= b.x || b.x + b.width <= a.x || a.y + a.height <= b.y || b.y + b.height <= a.y)
}

#[test]
fn three_squares_pack_into_128() {
    let items = vec![
        PackItem { width: 64, height: 64 },
        PackItem { width: 32, height: 32 },
        PackItem { width: 16, height: 16 },
    ];
    let layout = pack(128, 128, &items).unwrap();
    assert_eq!(layout.placements.len(), 3);
    for (i, p) in layout.placements.iter().enumerate() {
        assert_eq!(p.width, items[i].width as i64);
        assert_eq!(p.height, items[i].height as i64);
        assert!(p.x >= 0 && p.y >= 0);
        assert!(p.x + p.width <= layout.width && p.y + p.height <= layout.height);
        assert!(layout.width <= 128 && layout.height <= 128);
    }
    for i in 0..3 {
        for j in 0..3 {
            if i != j {
                assert!(!overlaps(&layout.placements[i], &layout.placements[j]));
            }
        }
    }
    let right = layout.placements.iter().map(|p| p.x + p.width).max().unwrap();
    let bottom = layout.placements.iter().map(|p| p.y + p.height).max().unwrap();
    assert_eq!((layout.width, layout.height), (right, bottom));
}

#[test]
fn first_item_lands_at_origin() {
    let items = vec![PackItem { width: 10, height: 20 }];
    let layout = pack(100, 100, &items).unwrap();
    assert_eq!(layout.placements[0], rect(0, 0, 10, 20));
    assert_eq!((layout.width, layout.height), (10, 20));
}

#[test]
fn three_squares_do_not_fit_into_8() {
    let items = vec![
        PackItem { width: 64, height: 64 },
        PackItem { width: 32, height: 32 },
        PackItem { width: 16, height: 16 },
    ];
    assert_eq!(pack(8, 8, &items).unwrap_err(), PackError::DoesNotFit);
}

#[test]
fn one_item_too_many_fails_whole_packing() {
    let items = vec![
        PackItem { width: 10, height: 10 },
        PackItem { width: 10, height: 10 },
        PackItem { width: 10, height: 10 },
    ];
    assert!(pack(20, 10, &items).is_err());
    assert!(pack(30, 10, &items).is_ok());
}

#[test]
fn empty_input_packs_to_empty_canvas() {
    let layout = pack(50, 50, &Vec::new()).unwrap();
    assert!(layout.placements.is_empty());
    assert_eq!((layout.width, layout.height), (0, 0));
}

#[test]
fn check_layout_accepts_valid_placements() {
    let items = vec![PackItem { width: 4, height: 2 }, PackItem { width: 3, height: 3 }];
    let found = vec![Some(rect(0, 0, 4, 2)), Some(rect(0, 2, 3, 3))];
    let l = check_layout(10, 10, &items, &found).unwrap();
    assert_eq!((l.width, l.height), (4, 5));
    assert_eq!(l.placements, vec![rect(0, 0, 4, 2), rect(0, 2, 3, 3)]);
}

#[test]
fn check_layout_rejects_turned_item() {
    let items = vec![PackItem { width: 4, height: 2 }];
    let found = vec![Some(rect(0, 0, 2, 4))];
    assert_eq!(check_layout(10, 10, &items, &found).unwrap_err(), PackError::PackerFault);
}

#[test]
fn equal_inputs_pack_alike() {
    let items = vec![
        PackItem { width: 30, height: 10 },
        PackItem { width: 12, height: 25 },
        PackItem { width: 7, height: 7 },
        PackItem { width: 40, height: 3 },
    ];
    let a = pack(64, 64, &items).unwrap();
    let b = pack(64, 64, &items).unwrap();
    assert_eq!(a.placements, b.placements);
    assert_eq!((a.width, a.height), (b.width, b.height));
}

#[test]
fn item_fitting_in_no_orientation_is_rejected() {
    let items = vec![PackItem { width: 5, height: 5 }, PackItem { width: 11, height: 2 }];
    assert_eq!(pack(10, 10, &items).unwrap_err(), PackError::DoesNotFit);
}

#[test]
fn check_layout_rejects_overlap() {
    let items = vec![PackItem { width: 4, height: 4 }, PackItem { width: 4, height: 4 }];
    let found = vec![Some(rect(0, 0, 4, 4)), Some(rect(3, 3, 4, 4))];
    assert_eq!(check_layout(10, 10, &items, &found).unwrap_err(), PackError::PackerFault);
}

#[test]
fn check_layout_rejects_outside_canvas() {
    let items = vec![PackItem { width: 4, height: 4 }];
    let found = vec![Some(rect(7, 0, 4, 4))];
    assert_eq!(check_layout(10, 10, &items, &found).unwrap_err(), PackError::PackerFault);
}

#[test]
fn check_layout_rejects_wrong_size_and_missing() {
    let items = vec![PackItem { width: 4, height: 4 }];
    assert!(check_layout(10, 10, &items, &vec![Some(rect(0, 0, 4, 5))]).is_err());
    assert!(check_layout(10, 10, &items, &vec![None]).is_err());
    assert!(check_layout(10, 10, &items, &vec![]).is_err());
}

#[test]
fn touching_rectangles_are_disjoint() {
    assert!(rects_disjoint(&rect(0, 0, 4, 4), &rect(4, 0, 4, 4)));
    assert!(!rects_disjoint(&rect(0, 0, 4, 4), &rect(3, 3, 4, 4)));
}

#[test]
fn scaled_pixels_floors() {
    let l = Length { num: 67, den: 4 };
    assert_eq!(scaled_pixels(1, l), Some(16));
    assert_eq!(scaled_pixels(2, l), Some(33));
    assert_eq!(scaled_pixels(2, Length::whole(64)), Some(128));
    assert_eq!(scaled_pixels(1, Length::whole(0x8000_0000)), None);
}

#[test]
fn double_scale_is_twice_or_one_more() {
    for num in 0..50u64 {
        for den in 1..7u64 {
            let l = Length { num, den };
            let one = scaled_pixels(1, l).unwrap();
            let two = scaled_pixels(2, l).unwrap();
            assert!(two == 2 * one || two == 2 * one + 1);
        }
    }
}

#[test]
fn chain_is_viewbox_scale_translate() {
    let chain = compose_chain(2, &rect(5, 7, 10, 10));
    assert_eq!(chain, vec![Stage::FitViewBox, Stage::Scale(2), Stage::Translate(5, 7)]);
}
