use amethyst_visibility::camera::select_camera;
use amethyst_visibility::order::{insert_by_distance, Internals};
use amethyst_visibility::system::{Candidate, Visibility, VisibilitySortingSystem};
use amethyst_visibility::Entity;

fn cand(id: u32, transparent: bool, distance: u32) -> Candidate {
    Candidate {
        entity: Entity::new(id, 1),
        hidden: false,
        hidden_propagate: false,
        in_frustum: true,
        transparent,
        camera_distance: distance,
    }
}

fn frame(cs: &Vec<Candidate>) -> Visibility {
    let mut sys = VisibilitySortingSystem::new();
    let mut vis = Visibility::new();
    sys.run(&mut vis, cs);
    vis
}

fn ids(v: &Visibility) -> Vec<u32> {
    v.visible_ordered.iter().map(|e| e.id).collect()
}

#[test]
fn opaque_in_frustum_is_unordered_and_outside_is_dropped() {
    let mut outside = cand(2, false, 25);
    outside.in_frustum = false;
    let cs = vec![cand(1, false, 25), outside];
    let vis = frame(&cs);
    assert!(vis.is_unordered(1));
    assert!(!vis.is_unordered(2));
    assert!(vis.visible_ordered.is_empty());
}

#[test]
fn transparent_sorted_farther_first() {
    let cs = vec![cand(1, true, 4), cand(2, true, 25)];
    let vis = frame(&cs);
    assert_eq!(ids(&vis), vec![2, 1]);
    assert!(!vis.is_unordered(1));
    assert!(!vis.is_unordered(2));
}

#[test]
fn equal_distances_keep_scan_order() {
    let cs = vec![cand(3, true, 9), cand(1, true, 9), cand(2, true, 16), cand(4, true, 9)];
    let vis = frame(&cs);
    assert_eq!(ids(&vis), vec![2, 3, 1, 4]);
}

#[test]
fn ordered_output_is_non_increasing() {
    let ds = [7u32, 0, 13, 13, 2, 99, 5, 40];
    let cs: Vec<Candidate> = ds.iter().enumerate().map(|(i, d)| cand(i as u32, true, *d)).collect();
    let vis = frame(&cs);
    let got: Vec<u32> = vis.visible_ordered.iter().map(|e| ds[e.id as usize]).collect();
    assert_eq!(got, vec![99, 40, 13, 13, 7, 5, 2, 0]);
}

#[test]
fn hidden_entities_never_visible() {
    let mut a = cand(1, false, 1);
    a.hidden = true;
    let mut b = cand(2, true, 1);
    b.hidden_propagate = true;
    let mut c = cand(3, true, 1);
    c.hidden = true;
    c.hidden_propagate = true;
    let vis = frame(&vec![a, b, c, cand(4, false, 1)]);
    assert!(!vis.is_unordered(1));
    assert!(!vis.is_unordered(2));
    assert!(!vis.is_unordered(3));
    assert!(vis.is_unordered(4));
    assert!(vis.visible_ordered.is_empty());
}

#[test]
fn each_kept_entity_in_exactly_one_output() {
    let cs = vec![cand(0, false, 3), cand(1, true, 3), cand(2, false, 8), cand(3, true, 1)];
    let vis = frame(&cs);
    for c in &cs {
        let in_ordered = vis.visible_ordered.contains(&c.entity);
        let in_unordered = vis.is_unordered(c.entity.id);
        assert!(in_ordered != in_unordered);
        assert_eq!(in_ordered, c.transparent);
    }
}

#[test]
fn second_run_gives_same_result_and_clears_stale_state() {
    let cs = vec![cand(5, false, 2), cand(6, true, 4), cand(7, true, 1)];
    let mut sys = VisibilitySortingSystem::new();
    let mut vis = Visibility::new();
    sys.run(&mut vis, &vec![cand(9, false, 1), cand(8, true, 3)]);
    sys.run(&mut vis, &cs);
    let first_ordered = vis.visible_ordered.clone();
    sys.run(&mut vis, &cs);
    assert_eq!(vis.visible_ordered, first_ordered);
    assert_eq!(ids(&vis), vec![6, 7]);
    assert!(vis.is_unordered(5));
    assert!(!vis.is_unordered(9));
    assert!(!vis.visible_ordered.contains(&Entity::new(8, 1)));
}

#[test]
fn empty_scene_gives_empty_outputs() {
    let vis = frame(&vec![]);
    assert!(vis.visible_ordered.is_empty());
    assert!(!vis.is_unordered(0));
}

#[test]
fn largest_index_is_stored() {
    let vis = frame(&vec![cand(amethyst_visibility::MAX_INDEX - 1, false, 0)]);
    assert!(vis.is_unordered(amethyst_visibility::MAX_INDEX - 1));
}

#[test]
fn default_visibility_is_empty() {
    let vis = Visibility::default();
    assert!(vis.visible_ordered.is_empty());
    assert!(!vis.is_unordered(0));
}

#[test]
fn active_camera_preferred() {
    let cams = vec![Entity::new(1, 1), Entity::new(2, 1), Entity::new(3, 1)];
    assert_eq!(select_camera(Some(Entity::new(2, 1)), &cams), Some(1));
}

#[test]
fn active_camera_without_components_falls_back_to_first() {
    let cams = vec![Entity::new(1, 1), Entity::new(2, 1)];
    assert_eq!(select_camera(Some(Entity::new(7, 1)), &cams), Some(0));
    assert_eq!(select_camera(Some(Entity::new(2, 2)), &cams), Some(0));
    assert_eq!(select_camera(None, &cams), Some(0));
}

#[test]
fn no_camera_falls_back_to_default() {
    assert_eq!(select_camera(None, &vec![]), None);
    assert_eq!(select_camera(Some(Entity::new(1, 1)), &vec![]), None);
}

#[test]
fn insert_by_distance_places_after_equal_keys() {
    let r = |id: u32, d: u32| Internals { entity: Entity::new(id, 1), transparent: true, camera_distance: d };
    let mut v = vec![r(1, 9), r(2, 5), r(3, 5), r(4, 1)];
    insert_by_distance(&mut v, r(5, 5));
    let got: Vec<u32> = v.iter().map(|x| x.entity.id).collect();
    assert_eq!(got, vec![1, 2, 3, 5, 4]);
}
