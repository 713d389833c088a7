use webserve::photos_handler::photo_item::{PermissionType, PhotoItem, SourceType};
use webserve::photos_handler::photo_query_engine::{
    perform_query, PhotoQueryEngine, QueryParams, SortOrderType,
};
use webserve::photos_handler::photo_representations::{PhotoRep, PhotoRepresentations};

fn photo(date: &str, source: SourceType, permission: PermissionType) -> PhotoItem {
    let mut p = PhotoItem::new();
    p.set_basic_date(&date.to_string());
    p.source_type = source;
    p.permission_type = permission;
    p
}

#[test]
fn sort_order_applies() {
    let photos = vec![
        photo("2019-06-01", SourceType::SLR, PermissionType::Public),
        photo("2020-01-01", SourceType::SLR, PermissionType::Public),
    ];
    let oldest = perform_query(&photos, &QueryParams::new());
    assert_eq!(oldest.results.len(), 2);
    assert_eq!(oldest.results[0].time_taken.unwrap().year, 2019);
    assert_eq!(oldest.results[1].time_taken.unwrap().year, 2020);

    let mut youngest_first = QueryParams::new();
    youngest_first.sort_order_type = SortOrderType::YoungestFirst;
    let youngest = perform_query(&photos, &youngest_first);
    assert_eq!(youngest.results[0].time_taken.unwrap().year, 2020);
    assert_eq!(youngest.results[1].time_taken.unwrap().year, 2019);
}

#[test]
fn permission_gate() {
    let photos = vec![
        photo("2019-06-01", SourceType::SLR, PermissionType::Public),
        photo("2020-01-01", SourceType::SLR, PermissionType::Private),
    ];
    let public = perform_query(&photos, &QueryParams::new());
    assert_eq!(public.results.len(), 1);
    assert_eq!(public.results[0].permission_type, PermissionType::Public);

    let mut as_private = QueryParams::new();
    as_private.permission_type = PermissionType::Private;
    let all = perform_query(&photos, &as_private);
    assert_eq!(all.results.len(), 2);
}

#[test]
fn source_mask_filters() {
    let photos = vec![
        photo("2019-06-01", SourceType::SLR, PermissionType::Public),
        photo("2020-01-01", SourceType::Drone, PermissionType::Public),
        photo("2021-01-01", SourceType::Unknown, PermissionType::Public),
    ];
    let mut q = QueryParams::new();
    q.source_types = QueryParams::make_source_type(false, true);
    let drones = perform_query(&photos, &q);
    assert_eq!(drones.results.len(), 1);
    assert_eq!(drones.results[0].source_type, SourceType::Drone);

    q.source_types = QueryParams::make_source_type(true, true);
    let both = perform_query(&photos, &q);
    assert_eq!(both.results.len(), 2);
}

#[test]
fn cache_round_robin_overwrite() {
    let photos = vec![photo("2019-06-01", SourceType::SLR, PermissionType::Public)];
    let mut engine = PhotoQueryEngine::new();
    let mut queries: Vec<QueryParams> = Vec::new();
    for i in 0..11u32 {
        let mut q = QueryParams::new();
        q.min_rating = i;
        queries.push(q);
    }
    for q in &queries {
        let r = engine.get_photo_results(&photos, *q, 0);
        assert_eq!(r.results.len(), 1);
    }
    // eleven distinct misses on ten slots: the size tops out at ten and the
    // eleventh entry overwrites the first-inserted, oldest slot
    assert_eq!(engine.cached_items.num_cached_results, 10);
    assert_eq!(engine.cached_items.next_cache_index, 1);
    assert_eq!(engine.cached_items.cached_queries[0], queries[10]);
    assert_eq!(engine.cached_items.cached_queries[1], queries[1]);
}

#[test]
fn cache_hit_leaves_cache_unchanged() {
    let photos = vec![photo("2019-06-01", SourceType::SLR, PermissionType::Public)];
    let mut engine = PhotoQueryEngine::new();
    let q = QueryParams::new();
    let _ = engine.get_photo_results(&photos, q, 0);
    assert_eq!(engine.cached_items.num_cached_results, 1);
    let again = engine.get_photo_results(&photos, q, 0);
    assert_eq!(again.results.len(), 1);
    assert_eq!(engine.cached_items.num_cached_results, 1);
    assert_eq!(engine.cached_items.next_cache_index, 1);
}

#[test]
fn accessor_flags_build_indices() {
    let photos = vec![photo("2019-06-01", SourceType::SLR, PermissionType::Public)];
    let mut engine = PhotoQueryEngine::new();
    let with_dates = engine.get_photo_results(&photos, QueryParams::new(), 1);
    assert!(with_dates.date_accessor_built);
    let mut q2 = QueryParams::new();
    q2.min_rating = 9;
    let with_locations = engine.get_photo_results(&photos, q2, 2);
    assert!(with_locations.location_accessor_built);
}

#[test]
fn representation_searches() {
    let mut reps = PhotoRepresentations::new();
    reps.add_representation(PhotoRep::new("t.jpg", 100, 50));
    reps.add_representation(PhotoRep::new("m.jpg", 600, 400));
    reps.add_representation(PhotoRep::new("l.jpg", 2000, 1000));

    let small = reps.get_smallest_representation_matching_criteria_min_dimension(500).unwrap();
    assert_eq!(small.relative_file_path, "m.jpg");

    let first = reps.get_first_representation_matching_criteria_min_dimension(500, false).unwrap();
    assert_eq!(first.relative_file_path, "l.jpg");

    assert!(reps.get_first_representation_matching_criteria_min_dimension(5000, false).is_none());
    let fallback = reps.get_first_representation_matching_criteria_min_dimension(5000, true).unwrap();
    assert_eq!(fallback.relative_file_path, "l.jpg");
}

#[test]
fn photo_with_only_primary_is_included() {
    let mut p = PhotoItem::new();
    p.set_basic_date(&"2020-01-01".to_string());
    let mut reps = PhotoRepresentations::new();
    reps.add_representation(PhotoRep::new("only.jpg", 10, 10));
    p.representations = reps;
    let photos = vec![p];
    let r = perform_query(&photos, &QueryParams::new());
    assert_eq!(r.results.len(), 1);
    assert_eq!(r.results[0].representations.len(), 1);
}
