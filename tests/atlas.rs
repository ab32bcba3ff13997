use svg_sprite::atlas::{Combined, SpriteError};
use svg_sprite::sizing::Length;
use svg_sprite::transform::Stage;

fn three_images(scale: u32, width: i32, height: i32) -> Combined<()> {
    let mut c = Combined::new(scale, width, height);
    c.push_node("large".to_string(), (), Length::whole(64), Length::whole(64)).unwrap();
    c.push_node("medium".to_string(), (), Length::whole(32), Length::whole(32)).unwrap();
    c.push_node("small".to_string(), (), Length::whole(16), Length::whole(16)).unwrap();
    c
}

#[test]
fn three_images_fit_128_canvas() {
    let packed = three_images(1, 128, 128).into_packed().unwrap();
    let manifest = packed.manifest();
    assert_eq!(manifest.len(), 3);
    let names: Vec<&str> = manifest.iter().map(|r| r.name.as_str()).collect();
    assert_eq!(names, vec!["large", "medium", "small"]);
    for r in &manifest {
        let e = r.entry;
        assert!(e.x >= 0 && e.y >= 0 && e.x + e.width <= 128 && e.y + e.height <= 128);
        assert!(e.x + e.width <= packed.width && e.y + e.height <= packed.height);
        assert_eq!(e.pixel_ratio, 1);
    }
    for a in &manifest {
        for b in &manifest {
            if a.name != b.name {
                let (p, q) = (a.entry, b.entry);
                assert!(p.x + p.width <= q.x || q.x + q.width <= p.x || p.y + p.height <= q.y || q.y + q.height <= p.y);
            }
        }
    }
    assert_eq!(manifest[0].entry.width, 64);
    assert_eq!(manifest[1].entry.width, 32);
    assert_eq!(manifest[2].entry.width, 16);
}

#[test]
fn three_images_do_not_fit_8_canvas() {
    let r = three_images(1, 8, 8).into_packed();
    assert!(matches!(r, Err(SpriteError::DoesNotFit)));
}

#[test]
fn duplicate_name_is_refused() {
    let mut c: Combined<u8> = Combined::new(1, 100, 100);
    c.push_node("icon".to_string(), 1, Length::whole(8), Length::whole(8)).unwrap();
    let r = c.push_node("icon".to_string(), 2, Length::whole(4), Length::whole(4));
    match r {
        Err(SpriteError::DuplicateName(n)) => assert_eq!(n, "icon"),
        other => panic!("expected a duplicate name error, got {:?}", other),
    }
    assert_eq!(c.entities.len(), 1);
    assert_eq!(c.entities[0].content, 1);
    assert!(c.contains_name(&"icon".to_string()));
    assert!(!c.contains_name(&"other".to_string()));
}

#[test]
fn both_scales_succeed_with_doubled_sizes() {
    let single = three_images(1, 128, 128).into_packed().unwrap();
    let double = three_images(2, 256, 256).into_packed().unwrap();
    let m1 = single.manifest();
    let m2 = double.manifest();
    assert_eq!(m1.len(), 3);
    assert_eq!(m2.len(), 3);
    for (a, b) in m1.iter().zip(m2.iter()) {
        assert_eq!(a.name, b.name);
        assert_eq!(b.entry.width, 2 * a.entry.width);
        assert_eq!(b.entry.height, 2 * a.entry.height);
        assert_eq!(b.entry.pixel_ratio, 1);
    }
    assert!(double.width <= 256 && double.height <= 256);
}

#[test]
fn fractional_size_is_floored_per_scale() {
    let mut c = Combined::new(2, 100, 100);
    c.push_node("frac".to_string(), (), Length { num: 21, den: 2 }, Length { num: 7, den: 4 }).unwrap();
    let items = c.pack_items().unwrap();
    assert_eq!((items[0].width, items[0].height), (21, 3));
    let packed = c.into_packed().unwrap();
    let m = packed.manifest();
    assert_eq!((m[0].entry.width, m[0].entry.height), (21, 3));
    assert_eq!((packed.width, packed.height), (21, 3));
}

#[test]
fn oversized_image_does_not_fit() {
    let mut c = Combined::new(2, 100, 100);
    c.push_node("huge".to_string(), (), Length::whole(0x4000_0000), Length::whole(1)).unwrap();
    assert!(c.pack_items().is_none());
    assert!(matches!(c.into_packed(), Err(SpriteError::DoesNotFit)));
}

#[test]
fn chain_uses_scale_and_placement() {
    let packed = three_images(2, 256, 256).into_packed().unwrap();
    for i in 0..3 {
        let p = packed.placements[i];
        assert_eq!(
            packed.chain(i),
            vec![Stage::FitViewBox, Stage::Scale(2), Stage::Translate(p.x, p.y)]
        );
    }
}
