//! Which pixels of a depth map become points of a cloud, and the input checks
//! of backprojection and of rigid transforms.
//!
//! Depths and depth bounds are carried as order keys: integers that compare
//! exactly as the depths, in metres, that they stand for. A reading that is
//! not a finite number has no key.
use vstd::prelude::*;

use crate::layout::{ElementKind, Layout};
use crate::sampling::{Pixel, effective_stride, sample_pixels, sampled};

verus! {

/// Why a depth map or a transform was refused.
#[derive(Clone, Copy, Debug, PartialEq, Eq, Structural)]
pub enum BackprojectionError {
    /// The depth map has no pixel.
    EmptyInput,
    /// The depth map is not single-channel 32-bit floating point.
    WrongFormat,
    /// The depth map's row or column count is negative, or its readings do
    /// not fill the grid.
    InvalidDimensions,
    /// The transform is not a 4x4 matrix of 32- or 64-bit floats.
    InvalidInput,
}

/// Which depths are kept, and the sampling step.
#[derive(Clone, Copy, Debug, PartialEq, Eq, Structural)]
pub struct BackprojectionConfig {
    /// Exclusive lower bound (order key).
    pub depth_min: i32,
    /// Inclusive upper bound (order key), if any.
    pub depth_max: Option<i32>,
    /// Sampling step in both axes; a step below one is taken as one.
    pub stride: usize,
}

impl BackprojectionConfig {
    /// Keeps depths above `depth_min`, with no upper bound, every pixel.
    pub fn new(depth_min: i32) -> (r: Self)
        ensures
            r == (BackprojectionConfig { depth_min, depth_max: None, stride: 1 }),
    {
        BackprojectionConfig { depth_min, depth_max: None, stride: 1 }
    }

    /// The same configuration with an upper bound on depth.
    pub fn with_depth_max(self, depth_max: i32) -> (r: Self)
        ensures
            r == (BackprojectionConfig { depth_max: Some(depth_max), ..self }),
    {
        BackprojectionConfig { depth_max: Some(depth_max), ..self }
    }

    /// The same configuration with another sampling step, at least one.
    pub fn with_stride(self, stride: usize) -> (r: Self)
        ensures
            r == (BackprojectionConfig { stride: if stride < 1 { 1 } else { stride }, ..self }),
    {
        let s: usize = if stride < 1 {
            1
        } else {
            stride
        };
        BackprojectionConfig { stride: s, ..self }
    }
}

/// The configuration used when none is given: depths above zero (key 0),
/// no upper bound, every pixel.
pub open spec fn default_config() -> BackprojectionConfig {
    BackprojectionConfig { depth_min: 0, depth_max: None, stride: 1 }
}

/// A depth map: its layout and, row-major, one reading per pixel (the order
/// key of a finite depth, or `None`).
#[derive(Debug)]
pub struct DepthMap {
    pub layout: Layout,
    pub readings: Vec<Option<i32>>,
}

/// Whether a reading becomes a point: it is finite, above the lower bound and,
/// if there is an upper bound, not above it.
pub open spec fn keeps(reading: Option<i32>, config: BackprojectionConfig) -> bool {
    match reading {
        None => false,
        Some(z) => z > config.depth_min && match config.depth_max {
            None => true,
            Some(m) => z <= m,
        },
    }
}

/// The reading of pixel `p` in a row-major grid with `cols` columns.
pub open spec fn reading_at(readings: Seq<Option<i32>>, cols: nat, p: Pixel) -> Option<i32> {
    readings[p.v * cols + p.u]
}

/// The test that a sampled pixel passes to become a point.
pub open spec fn kept_by(
    readings: Seq<Option<i32>>,
    cols: nat,
    config: BackprojectionConfig,
) -> spec_fn(Pixel) -> bool {
    |p: Pixel| keeps(reading_at(readings, cols, p), config)
}

/// The error that a depth map is refused with, checked in this order:
/// no pixel, wrong format, then bad dimensions.
pub open spec fn depth_map_error(map: DepthMap) -> Option<BackprojectionError> {
    let l = map.layout;
    if l.rows == 0 || l.cols == 0 {
        Some(BackprojectionError::EmptyInput)
    } else if !l.is_single(ElementKind::Float32) {
        Some(BackprojectionError::WrongFormat)
    } else if l.rows < 0 || l.cols < 0 || map.readings@.len() != l.rows * l.cols {
        Some(BackprojectionError::InvalidDimensions)
    } else {
        None
    }
}

/// The pixels of an accepted depth map that become points, in row-major
/// sampling order.
pub open spec fn backprojected(map: DepthMap, config: BackprojectionConfig) -> Seq<Pixel> {
    sampled(map.layout.rows as nat, map.layout.cols as nat, config.stride as nat).filter(
        kept_by(map.readings@, map.layout.cols as nat, config),
    )
}

/// The configuration in effect for an optional one.
pub open spec fn config_or_default(config: Option<BackprojectionConfig>) -> BackprojectionConfig {
    match config {
        Some(c) => c,
        None => default_config(),
    }
}

/// Backprojection emits no pixel whose reading is not finite, not above the
/// lower bound, or above the upper bound; it emits every sampled pixel whose
/// reading is kept, and never more pixels than it samples.
pub proof fn lemma_rejected_readings_absent(map: DepthMap, config: BackprojectionConfig)
    requires
        depth_map_error(map) is None,
    ensures
        forall|p: Pixel|
            #![trigger backprojected(map, config).contains(p)]
            backprojected(map, config).contains(p) ==> sampled(
                map.layout.rows as nat,
                map.layout.cols as nat,
                config.stride as nat,
            ).contains(p) && keeps(reading_at(map.readings@, map.layout.cols as nat, p), config),
        forall|p: Pixel|
            #![trigger sampled(map.layout.rows as nat, map.layout.cols as nat, config.stride as nat).contains(p)]
            sampled(map.layout.rows as nat, map.layout.cols as nat, config.stride as nat).contains(p)
                && keeps(reading_at(map.readings@, map.layout.cols as nat, p), config)
                ==> backprojected(map, config).contains(p),
        backprojected(map, config).len() <= sampled(
            map.layout.rows as nat,
            map.layout.cols as nat,
            config.stride as nat,
        ).len(),
{
    broadcast use vstd::seq_lib::group_filter_ensures;

    let all = sampled(map.layout.rows as nat, map.layout.cols as nat, config.stride as nat);
    let pred = kept_by(map.readings@, map.layout.cols as nat, config);
    assert forall|p: Pixel| #[trigger] backprojected(map, config).contains(p) implies all.contains(
        p,
    ) && keeps(reading_at(map.readings@, map.layout.cols as nat, p), config) by {
        all.lemma_filter_contains_rev(pred, p);
        let i = choose|i: int|
            0 <= i < all.filter(pred).len() && all.filter(pred)[i] == p;
        all.lemma_filter_pred(pred, i);
        assert(pred(p));
    }
    assert forall|p: Pixel|
        #[trigger] all.contains(p) && keeps(
            reading_at(map.readings@, map.layout.cols as nat, p),
            config,
        ) implies backprojected(map, config).contains(p) by {
        let i = choose|i: int| 0 <= i < all.len() && all[i] == p;
        assert(pred(all[i]));
    }
}

/// A depth map whose only kept reading is at pixel `(v, u)`, sampled with
/// step one, gives exactly that pixel.
pub proof fn lemma_single_reading_single_point(
    map: DepthMap,
    config: BackprojectionConfig,
    v: usize,
    u: usize,
)
    requires
        depth_map_error(map) is None,
        config.stride <= 1,
        v < map.layout.rows,
        u < map.layout.cols,
        keeps(map.readings@[v * map.layout.cols + u], config),
        forall|i: int|
            0 <= i < map.readings@.len() && i != v * map.layout.cols + u ==> !keeps(
                #[trigger] map.readings@[i],
                config,
            ),
    ensures
        backprojected(map, config) == seq![Pixel { v, u }],
{
    let rows = map.layout.rows as nat;
    let cols = map.layout.cols as nat;
    let all = sampled(rows, cols, config.stride as nat);
    let pred = kept_by(map.readings@, cols, config);
    vstd::arithmetic::div_mod::lemma_div_basics((rows + 1 - 1) as int);
    vstd::arithmetic::div_mod::lemma_div_basics((cols + 1 - 1) as int);
    assert(effective_stride(config.stride as nat) == 1);
    assert(all.len() == rows * cols);
    assert forall|j: int| 0 <= j < all.len() implies reading_at(map.readings@, cols, #[trigger] all[j])
        == map.readings@[j] by {
        crate::sampling::lemma_sampled_inside(rows, cols, config.stride as nat, j);
        vstd::arithmetic::div_mod::lemma_fundamental_div_mod(j, cols as int);
        let q = j / cols as int;
        let r = j % cols as int;
        assert(all[j].v == q && all[j].u == r);
        assert(q * cols + r == j) by (nonlinear_arith)
            requires
                j == cols * q + r,
        ;
    }
    let i0 = v * cols + u;
    assert(0 <= i0 < rows * cols) by (nonlinear_arith)
        requires
            i0 == v * cols + u,
            v < rows,
            u < cols,
    ;
    vstd::arithmetic::div_mod::lemma_fundamental_div_mod_converse(
        i0 as int,
        cols as int,
        v as int,
        u as int,
    );
    crate::sampling::lemma_sampled_inside(rows, cols, config.stride as nat, i0 as int);
    assert(all[i0 as int] == Pixel { v, u });
    assert forall|j: int| 0 <= j < all.len() && j != i0 implies !pred(#[trigger] all[j]) by {
        assert(reading_at(map.readings@, cols, all[j]) == map.readings@[j]);
    }
    lemma_filter_single(all, pred, i0 as int);
}

/// Filtering keeps exactly one element when exactly one passes.
proof fn lemma_filter_single(s: Seq<Pixel>, pred: spec_fn(Pixel) -> bool, i0: int)
    requires
        0 <= i0 < s.len(),
        pred(s[i0]),
        forall|j: int| 0 <= j < s.len() && j != i0 ==> !pred(#[trigger] s[j]),
    ensures
        s.filter(pred) == seq![s[i0]],
    decreases s.len(),
{
    reveal(Seq::filter);
    let rest = s.drop_last();
    if i0 == s.len() - 1 {
        assert(rest.all(|x: Pixel| !pred(x))) by {
            assert forall|j: int| 0 <= j < rest.len() implies !pred(#[trigger] rest[j]) by {
                assert(rest[j] == s[j]);
            }
        }
        rest.lemma_all_neg_filter_empty(pred);
        assert(rest.filter(pred).push(s.last()) == seq![s[i0]]);
    } else {
        assert forall|j: int| 0 <= j < rest.len() && j != i0 implies !pred(#[trigger] rest[j]) by {
            assert(rest[j] == s[j]);
        }
        lemma_filter_single(rest, pred, i0);
        assert(!pred(s[s.len() - 1]));
    }
}

/// How the entries of an accepted transform are stored.
#[derive(Clone, Copy, Debug, PartialEq, Eq, Structural)]
pub enum TransformStorage {
    Float32,
    Float64,
}

/// The storage of a transform that is a 4x4 single-channel matrix of 32- or
/// 64-bit floats; `None` for any other.
pub open spec fn transform_storage(layout: Layout) -> Option<TransformStorage> {
    if layout.rows != 4 || layout.cols != 4 {
        None
    } else if layout.is_single(ElementKind::Float32) {
        Some(TransformStorage::Float32)
    } else if layout.is_single(ElementKind::Float64) {
        Some(TransformStorage::Float64)
    } else {
        None
    }
}

/// Checks that a transform is a 4x4 matrix of 32- or 64-bit floats, and says
/// which; any other is refused as invalid input.
pub fn check_transform(layout: &Layout) -> (r: Result<TransformStorage, BackprojectionError>)
    ensures
        r == match transform_storage(*layout) {
            Some(t) => Ok(t),
            None => Err(BackprojectionError::InvalidInput),
        },
{
    if layout.rows != 4 || layout.cols != 4 {
        Err(BackprojectionError::InvalidInput)
    } else if layout.single_channel_of(ElementKind::Float32) {
        Ok(TransformStorage::Float32)
    } else if layout.single_channel_of(ElementKind::Float64) {
        Ok(TransformStorage::Float64)
    } else {
        Err(BackprojectionError::InvalidInput)
    }
}

fn keeps_exec(reading: Option<i32>, config: &BackprojectionConfig) -> (r: bool)
    ensures
        r == keeps(reading, *config),
{
    match reading {
        None => false,
        Some(z) => z > config.depth_min && match config.depth_max {
            None => true,
            Some(m) => z <= m,
        },
    }
}

/// Checks a depth map, then lists the pixels that become points of its cloud:
/// the sampled pixels, in row-major order, whose reading is kept. With no
/// configuration, depths above zero are kept and every pixel is sampled.
pub fn backprojected_pixels(depth_map: &DepthMap, config: Option<BackprojectionConfig>) -> (r:
    Result<Vec<Pixel>, BackprojectionError>)
    ensures
        match depth_map_error(*depth_map) {
            Some(e) => r == Err::<Vec<Pixel>, BackprojectionError>(e),
            None => r.is_ok() && r.unwrap()@ == backprojected(
                *depth_map,
                config_or_default(config),
            ),
        },
{
    let l = depth_map.layout;
    if l.rows == 0 || l.cols == 0 {
        return Err(BackprojectionError::EmptyInput);
    }
    if !l.single_channel_of(ElementKind::Float32) {
        return Err(BackprojectionError::WrongFormat);
    }
    if l.rows < 0 || l.cols < 0 {
        return Err(BackprojectionError::InvalidDimensions);
    }
    let rows = l.rows as usize;
    let cols = l.cols as usize;
    let len = depth_map.readings.len();
    match rows.checked_mul(cols) {
        None => {
            return Err(BackprojectionError::InvalidDimensions);
        },
        Some(n) => {
            if n != len {
                return Err(BackprojectionError::InvalidDimensions);
            }
        },
    }
    let cfg = match config {
        Some(c) => c,
        None => BackprojectionConfig::new(0),
    };
    let candidates = sample_pixels(rows, cols, cfg.stride);
    let ghost pred = kept_by(depth_map.readings@, cols as nat, cfg);
    let mut out: Vec<Pixel> = Vec::new();
    let mut i: usize = 0;
    while i < candidates.len()
        invariant
            i <= candidates.len(),
            candidates@ == sampled(rows as nat, cols as nat, cfg.stride as nat),
            depth_map.readings@.len() == rows * cols,
            rows * cols <= usize::MAX,
            pred == kept_by(depth_map.readings@, cols as nat, cfg),
            out@ == candidates@.take(i as int).filter(pred),
        decreases candidates.len() - i,
    {
        let p = candidates[i];
        proof {
            crate::sampling::lemma_sampled_inside(
                rows as nat,
                cols as nat,
                cfg.stride as nat,
                i as int,
            );
            assert(p.v * cols + p.u < rows * cols) by (nonlinear_arith)
                requires
                    p.v < rows,
                    p.u < cols,
            ;
        }
        let idx = p.v * cols + p.u;
        let keep = keeps_exec(depth_map.readings[idx], &cfg);
        proof {
            reveal(Seq::filter);
            let t = candidates@.take(i as int + 1);
            assert(t.drop_last() == candidates@.take(i as int));
            assert(t.last() == p);
        }
        if keep {
            out.push(p);
        }
        i = i + 1;
    }
    proof {
        assert(candidates@.take(candidates@.len() as int) == candidates@);
    }
    Ok(out)
}

} // verus!
