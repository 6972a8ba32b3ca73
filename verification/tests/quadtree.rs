use tilemap::tilegen::Bound;
use tilemap::tilegen::PathMode;
use tilemap::tilegen::ceil_log2;
use tilemap::tilegen::pathgen::Layer;
use tilemap::tilegen::pathgen::PathGenerator;
use tilemap::tilegen::tile::TileId;
use tilemap::tilegen::tile::TileQTreeIterator;
use std::str::FromStr;

#[test]
fn test_tile_qtree() {
    let root = TileId::new(3, 0, 0);
    let mut it = TileQTreeIterator::new(root, 1);
    while let Some(tid) = it.next() {
        println!("{:?}", tid);
    }
}

#[test]
fn test_path_mode_parse() {
    let mut b = Bound::new();
    b.xmin = -32;
    b.xmax = 50;
    b.zmin = -43;
    b.zmax = 50;

    let p = String::new();

    for input in &[
        "layer+",
        "layer+:0",
        "layer+:2",
        "layer+:2,6",
        "layer-",
        "layer-:0",
        "layer-:2",
        "layer-:6,2",
    ] {
        match PathMode::from_str(input) {
            Ok(m) => {
                println!("{:?}", m);
                let layer = m.extract(&b, p.clone());
                println!("{:?}", layer.get_max_scale());
            },
            Err(e) => {
                println!("{:?}", e);
            },
        }
    }
}

#[test]
fn child_parent_round_trip() {
    let t = TileId::new(2, 5, 7);
    assert_eq!(t.topleft().parent(), t);
    assert_eq!(t.topright().parent(), t);
    assert_eq!(t.bottomleft().parent(), t);
    assert_eq!(t.bottomright().parent(), t);
    // truncating division breaks the round trip on the odd children of
    // negative coordinates
    let u = TileId::new(1, -1, 0);
    assert_ne!(u.topright().parent(), u);
}

#[test]
fn qtree_walk_count_and_order() {
    // a walk from scale 2 down to 0 visits (4^3 - 1) / 3 = 21 nodes
    let root = TileId::new(2, 0, 0);
    let mut it = TileQTreeIterator::new(root, 0);
    let mut seen: Vec<TileId> = Vec::new();
    while let Some(tid) = it.next() {
        seen.push(tid);
    }
    assert_eq!(seen.len(), 21);
    // each node exactly once
    for i in 0..seen.len() {
        for j in 0..i {
            assert_ne!(seen[i], seen[j]);
        }
    }
    // every non-terminal node comes strictly after its four children
    for i in 0..seen.len() {
        let t = seen[i];
        if t.scale > 0 {
            for c in [t.topleft(), t.topright(), t.bottomleft(), t.bottomright()] {
                let pos = seen.iter().position(|u| *u == c).expect("child emitted");
                assert!(pos < i);
            }
        }
    }
    // the root is emitted last
    assert_eq!(seen[20], root);
}

#[test]
fn qtree_stops_at_stop_layer() {
    let root = TileId::new(3, 0, 0);
    let mut it = TileQTreeIterator::new(root, 2);
    let mut n = 0;
    while let Some(tid) = it.next() {
        assert!(tid.scale >= 2);
        n += 1;
    }
    assert_eq!(n, 5);
}

#[test]
fn side_picks_the_quadrant() {
    assert_eq!(TileId::new(0, -1, -1).side(), 0);
    assert_eq!(TileId::new(0, 0, -1).side(), 1);
    assert_eq!(TileId::new(0, -1, 0).side(), 2);
    assert_eq!(TileId::new(0, 0, 0).side(), 3);
}

#[test]
fn bound_extend_tracks_extremes() {
    let mut b = Bound::new();
    b.extend(&TileId::new(0, -3, 9));
    b.extend(&TileId::new(0, 4, -2));
    assert_eq!(b.xmin, -3);
    assert_eq!(b.xmax, 4);
    assert_eq!(b.zmin, -2);
    assert_eq!(b.zmax, 9);
}

#[test]
fn ceil_log2_values() {
    assert_eq!(ceil_log2(1), 0);
    assert_eq!(ceil_log2(2), 1);
    assert_eq!(ceil_log2(3), 2);
    assert_eq!(ceil_log2(50), 6);
    assert_eq!(ceil_log2(64), 6);
    assert_eq!(ceil_log2(65), 7);
}

#[test]
fn layer_path_generation() {
    // start=2, step=-1, stop=0: three scales, coarser tiles under smaller
    // zoom labels
    let layer = Layer::new(2, -1, 0, String::from("root"));
    assert_eq!(layer.get_max_scale(), 2);
    let path = layer.generate(3, -4, 1);
    assert!(path.ends_with("1/3,-4.png"));
    assert_eq!(path, "root/1/3,-4.png");
    assert_eq!(layer.generate(0, 0, 0), "root/2/0,0.png");
    assert_eq!(layer.generate(-7, 12, 2), "root/0/-7,12.png");
}

#[test]
fn path_mode_layer_forms() {
    let b = Bound::new();
    match PathMode::from_str("layer+:2,6") {
        Ok(m) => {
            let layer = m.extract(&b, String::from("o"));
            assert_eq!(layer.get_max_scale(), 4);
            assert_eq!(layer.generate(1, 1, 0), "o/2/1,1.png");
        },
        Err(_) => panic!("layer+:2,6 must parse"),
    }
    match PathMode::from_str("layer-:6,2") {
        Ok(m) => {
            let layer = m.extract(&b, String::from("o"));
            assert_eq!(layer.get_max_scale(), 4);
            assert_eq!(layer.generate(1, 1, 0), "o/6/1,1.png");
        },
        Err(_) => panic!("layer-:6,2 must parse"),
    }
    assert!(matches!(
        PathMode::from_str("spiral"),
        Err(tilemap::tilegen::PathModeError::Unsupported)
    ));
    assert!(matches!(
        PathMode::from_str("layer+:x"),
        Err(tilemap::tilegen::PathModeError::MinZoom)
    ));
    assert!(matches!(
        PathMode::from_str("layer+:2,x"),
        Err(tilemap::tilegen::PathModeError::MaxZoom)
    ));
    assert!(matches!(
        PathMode::from_str("layer-:x"),
        Err(tilemap::tilegen::PathModeError::MaxZoom)
    ));
    assert!(matches!(
        PathMode::from_str("layer-:6,x"),
        Err(tilemap::tilegen::PathModeError::MinZoom)
    ));
}
