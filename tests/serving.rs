use tileyolo::{
    cached_geometry_targets, dashboard_frame, projection_path, Config, Growth, ProjectionPath,
    TileResponse, TileStats, DEFAULT_PORT,
};

#[test]
fn ten_identical_requests_give_one_miss_and_nine_hits() {
    let mut stats = TileStats::new();
    let mut cached = false;
    for _ in 0..10 {
        stats.record_lookup(cached);
        cached = true;
    }
    assert_eq!(stats.cache_hits, 9);
    assert_eq!(stats.cache_misses, 1);
}

#[test]
fn counters_stop_at_their_limit() {
    let mut stats = TileStats::new();
    stats.cache_hits = u64::MAX;
    stats.record_lookup(true);
    assert_eq!(stats.cache_hits, u64::MAX);
    stats.record_served(5);
    stats.record_served(7);
    assert_eq!((stats.served_count, stats.served_nanos_total), (2, 12));
}

#[test]
fn dashboard_reports_growth_and_ram_advice() {
    let f = dashboard_frame(10, 15, 100, 1, 1);
    assert_eq!(f.growth, Growth::Growing(5));
    assert!(!f.ram_recommend);
    assert_eq!(dashboard_frame(15, 10, 100, 0, 0).growth, Growth::Shrinking(5));
    assert_eq!(dashboard_frame(7, 7, 100, 0, 0).growth, Growth::Stable);
    assert!(dashboard_frame(0, 95, 100, 6, 4).ram_recommend);
    assert!(!dashboard_frame(0, 95, 100, 7, 3).ram_recommend);
    assert!(!dashboard_frame(0, 90, 100, 0, 10).ram_recommend);
    assert!(!dashboard_frame(0, 95, 100, 0, 0).ram_recommend);
    assert!(!dashboard_frame(0, 95, 0, 0, 10).ram_recommend);
}

#[test]
fn projections_take_the_closed_forms_when_they_can() {
    assert_eq!(projection_path(4326, 4326), ProjectionPath::Identity);
    assert_eq!(projection_path(4326, 3857), ProjectionPath::ToMercator);
    assert_eq!(projection_path(3857, 4326), ProjectionPath::ToGeographic);
    assert_eq!(projection_path(2193, 3857), ProjectionPath::Generic);
}

#[test]
fn cached_geometries_cover_both_standard_systems() {
    assert_eq!(cached_geometry_targets(4326), vec![3857]);
    assert_eq!(cached_geometry_targets(3857), vec![4326]);
    assert_eq!(cached_geometry_targets(2193), vec![4326, 3857]);
    assert_eq!(cached_geometry_targets(0), vec![4326, 3857]);
}

#[test]
fn defaults() {
    let c = Config::default();
    assert!(c.source.is_none());
    assert_eq!(c.data_folder, "data");
    assert_eq!(c.default_style.as_deref(), Some("default"));
    assert_eq!((c.tile_size_x, c.tile_size_y), (256, 256));
    assert_eq!(c.default_raster_band, 1);
    assert_eq!(c.cache_size_gb, 2);
    assert_eq!(Config::default_port(), 8000);
    assert_eq!(DEFAULT_PORT, 8000);
}

#[test]
fn paths_are_made_absolute_against_the_working_directory() {
    assert_eq!(Config::default_data_folder("/srv/tiles"), "/srv/tiles/data");
    assert_eq!(Config::default_data_folder("/srv/tiles/"), "/srv/tiles/data");
    assert_eq!(Config::parse_path_to_absolute("/abs/path", "/cwd"), "/abs/path");
    assert_eq!(Config::parse_path_to_absolute("rel", "/cwd"), "/cwd/rel");
    assert_eq!(Config::parse_path_to_absolute("rel", ""), "rel");
}

#[test]
fn png_tiles_say_so() {
    let r = TileResponse::png(vec![1, 2, 3]);
    assert_eq!(r.content_type, "image/png");
    assert_eq!(r.bytes, vec![1, 2, 3]);
}
