use tileyolo::{
    is_cog_layout, is_unchanged, key_for, raster_file, resolve_tile, summarise_styles, LayerCatalogue, TileError, TileBounds,
};

fn components(parts: &[&str]) -> Vec<String> {
    parts.iter().map(|s| s.to_string()).collect()
}

fn catalogue(entries: &[(&str, &str)]) -> LayerCatalogue {
    let mut c = LayerCatalogue::new();
    for (layer, style) in entries {
        c.add(layer.to_string(), style.to_string());
    }
    c
}

#[test]
fn cache_key_is_the_file_stem() {
    assert_eq!(key_for("/data/viridis/dem.tif", "/data"), "dem");
    assert_eq!(key_for("/data/viridis/a.b.tiff", "/data"), "a.b");
    assert_eq!(key_for("/data/viridis/.hidden", "/data"), ".hidden");
    assert_eq!(key_for("plain", ""), "plain");
    assert_eq!(key_for("a/b.tif/", ""), "b");
    assert_eq!(key_for("a//b.tif//", ""), "b");
    assert_eq!(key_for("a/b.tif/.", ""), "b");
    assert_eq!(key_for("a/b.tif/./", ""), "b");
    assert_eq!(key_for("a/..", ""), "");
    assert_eq!(key_for(".", ""), "");
    assert_eq!(key_for("/", ""), "");
    assert_eq!(key_for("", ""), "");
    assert_eq!(key_for("a/name.", ""), "name");
    for p in ["/data/x/dem.tif", "a/b.tif/", "a/.", "a/..", "./c.d.e", "x/.hidden/", "/"] {
        let expected = std::path::Path::new(p)
            .file_stem()
            .and_then(|s| s.to_str())
            .unwrap_or_default();
        assert_eq!(key_for(p, ""), expected, "{p}");
    }
}

#[test]
fn raster_files_need_a_style_folder_and_a_raster_extension() {
    let f = raster_file(&components(&["viridis", "dem.tif"])).unwrap();
    assert_eq!((f.layer.as_str(), f.style.as_str()), ("dem", "viridis"));
    let f = raster_file(&components(&["a", "b", "Slope.GeoTIFF"])).unwrap();
    assert_eq!((f.layer.as_str(), f.style.as_str()), ("Slope", "b"));
    assert!(raster_file(&components(&["x.TIF"])).is_some() == false);
    assert!(raster_file(&components(&["s", "x.TIF"])).is_some());
    assert!(raster_file(&components(&["s", "x.geotif"])).is_some());
    assert!(raster_file(&components(&["s", "x.png"])).is_none());
    assert!(raster_file(&components(&["s", ".tif"])).is_none());
    assert!(raster_file(&components(&["s", "tif"])).is_none());
}

#[test]
fn cached_metadata_is_reused_only_when_size_and_time_match() {
    assert!(is_unchanged(10, 20, 10, 20));
    assert!(!is_unchanged(10, 20, 11, 20));
    assert!(!is_unchanged(10, 20, 10, 21));
}

#[test]
fn the_first_style_found_is_the_default() {
    let c = catalogue(&[("dem", "terrain"), ("slope", "viridis"), ("dem", "viridis")]);
    assert_eq!(c.find("dem", None), Some(0));
    assert_eq!(c.find("dem", Some("viridis")), Some(2));
    assert_eq!(c.find("dem", Some("magma")), None);
    assert_eq!(c.find("nothing", None), None);
    assert_eq!(c.len(), 3);
    assert_eq!(c.entry(1).layer, "slope");
}

#[test]
fn listing_is_sorted_by_lower_case_name_then_style() {
    let c = catalogue(&[
        ("b", "viridis"),
        ("A", "terrain"),
        ("a", "Magma"),
        ("B", "alpha"),
        ("a", "magma"),
    ]);
    assert_eq!(c.listing_order(), vec![2, 4, 1, 3, 0]);
    assert!(catalogue(&[]).listing_order().is_empty());
}

#[test]
fn a_missing_layer_is_reported_by_name() {
    let c = catalogue(&[("bar", "viridis")]);
    match resolve_tile(&c, "foo", 0, 0, 0, None) {
        Err(e) => assert_eq!(e.message(), "Layer not found: 'foo'"),
        Ok(_) => panic!("expected an error"),
    }
}

#[test]
fn a_tile_outside_the_grid_is_refused() {
    let c = catalogue(&[("bar", "viridis")]);
    assert!(matches!(resolve_tile(&c, "bar", 2, 4, 0, None), Err(TileError::InvalidTile)));
    assert!(matches!(resolve_tile(&c, "bar", 2, 3, 3, Some("magma")), Err(TileError::LayerNotFound(_))));
    assert_eq!(resolve_tile(&c, "bar", 2, 3, 3, Some("viridis")).unwrap().layer_index, 0);
}

#[test]
fn a_found_layer_gives_the_tile_bounds() {
    let c = catalogue(&[("foo", "terrain"), ("bar", "viridis")]);
    let job = resolve_tile(&c, "bar", 2, 1, 1, None).unwrap();
    assert_eq!(job.layer_index, 1);
    assert_eq!(job.bounds, TileBounds { minx: -2, miny: 0, maxx: 0, maxy: 2, scale: 4 });
}

#[test]
fn cloud_optimised_layout_must_read_exactly_cog() {
    assert!(is_cog_layout("COG"));
    assert!(!is_cog_layout("cog"));
    assert!(!is_cog_layout("CoG"));
    assert!(!is_cog_layout("COGS"));
    assert!(!is_cog_layout(""));
}

#[test]
fn styles_are_summarised_in_the_order_they_first_occur() {
    let styles: Vec<String> = ["terrain", "viridis", "terrain", "terrain", "viridis"]
        .iter()
        .map(|s| s.to_string())
        .collect();
    let cogs = vec![true, true, false, true, true];
    let s = summarise_styles(&styles, &cogs);
    assert_eq!(s.len(), 2);
    assert_eq!((s[0].style.as_str(), s[0].layers, s[0].cogs), ("terrain", 3, 2));
    assert_eq!((s[1].style.as_str(), s[1].layers, s[1].cogs), ("viridis", 2, 2));
    assert!(s[0].needs_cog_warning());
    assert!(!s[1].needs_cog_warning());
    assert!(summarise_styles(&vec![], &vec![]).is_empty());
}
