use vstd::prelude::*;

verus! {

/// Geographic longitude and latitude.
pub const EPSG_WGS84: i32 = 4326;

/// Web Mercator.
pub const EPSG_WEB_MERCATOR: i32 = 3857;

/// How an extent is carried from one coordinate reference system to another.
#[derive(Debug, Clone, Copy, PartialEq, Eq, Structural)]
pub enum ProjectionPath {
    /// The same system: the extent is kept.
    Identity,
    /// Longitude and latitude to Web Mercator, in closed form.
    ToMercator,
    /// Web Mercator to longitude and latitude, in closed form.
    ToGeographic,
    /// Any other pair, through a general transformation library.
    Generic,
}

pub open spec fn spec_projection_path(source: i32, target: i32) -> ProjectionPath {
    if source == target {
        ProjectionPath::Identity
    } else if source == EPSG_WGS84 && target == EPSG_WEB_MERCATOR {
        ProjectionPath::ToMercator
    } else if source == EPSG_WEB_MERCATOR && target == EPSG_WGS84 {
        ProjectionPath::ToGeographic
    } else {
        ProjectionPath::Generic
    }
}

/// Chooses how to project an extent from `source` to `target` (EPSG codes).
pub fn projection_path(source: i32, target: i32) -> (r: ProjectionPath)
    ensures
        r == spec_projection_path(source, target),
{
    if source == target {
        ProjectionPath::Identity
    } else if source == EPSG_WGS84 && target == EPSG_WEB_MERCATOR {
        ProjectionPath::ToMercator
    } else if source == EPSG_WEB_MERCATOR && target == EPSG_WGS84 {
        ProjectionPath::ToGeographic
    } else {
        ProjectionPath::Generic
    }
}

/// The systems into which a layer's extent is projected for its listing, besides
/// its own: those of geographic and Web Mercator coordinates that it is not in,
/// geographic first.
pub fn cached_geometry_targets(source: i32) -> (r: Vec<i32>)
    ensures
        forall|c: i32| #[trigger] r@.contains(c) <==> c != source && (c == EPSG_WGS84 || c == EPSG_WEB_MERCATOR),
        r@.no_duplicates(),
        r@ == (if source != EPSG_WGS84 { seq![EPSG_WGS84] } else { Seq::<i32>::empty() }) + (if source
            != EPSG_WEB_MERCATOR {
            seq![EPSG_WEB_MERCATOR]
        } else {
            Seq::<i32>::empty()
        }),
{
    let mut r: Vec<i32> = Vec::new();
    if source != EPSG_WGS84 {
        r.push(EPSG_WGS84);
    }
    if source != EPSG_WEB_MERCATOR {
        r.push(EPSG_WEB_MERCATOR);
    }
    proof {
        assert(r@ =~= (if source != EPSG_WGS84 { seq![EPSG_WGS84] } else { Seq::<i32>::empty() }) + (
        if source != EPSG_WEB_MERCATOR {
            seq![EPSG_WEB_MERCATOR]
        } else {
            Seq::<i32>::empty()
        }));
        assert forall|c: i32| #[trigger] r@.contains(c) <==> c != source && (c == EPSG_WGS84 || c == EPSG_WEB_MERCATOR) by {
            if c != source && c == EPSG_WEB_MERCATOR {
                assert(r@.last() == c);
            }
            if c != source && c == EPSG_WGS84 {
                assert(r@[0] == c);
            }
        }
    }
    r
}

/// Together with the layer's own system, the cached geometries always hold both
/// geographic and Web Mercator coordinates, each computed once.
pub proof fn lemma_cached_geometry_complete(source: i32, targets: Seq<i32>)
    requires
        forall|c: i32| #[trigger] targets.contains(c) <==> c != source && (c == EPSG_WGS84 || c == EPSG_WEB_MERCATOR),
    ensures
        targets.push(source).contains(EPSG_WGS84),
        targets.push(source).contains(EPSG_WEB_MERCATOR),
        !targets.contains(source),
{
    if source == EPSG_WGS84 {
        assert(targets.push(source).last() == source);
    } else {
        assert(targets.contains(EPSG_WGS84));
        let i = choose|i: int| 0 <= i < targets.len() && targets[i] == EPSG_WGS84;
        assert(targets.push(source)[i] == EPSG_WGS84);
    }
    if source == EPSG_WEB_MERCATOR {
        assert(targets.push(source).last() == source);
    } else {
        assert(targets.contains(EPSG_WEB_MERCATOR));
        let i = choose|i: int| 0 <= i < targets.len() && targets[i] == EPSG_WEB_MERCATOR;
        assert(targets.push(source)[i] == EPSG_WEB_MERCATOR);
    }
}

} // verus!
