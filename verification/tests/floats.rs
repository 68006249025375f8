//! The library with its formulas in floating point: beams, convolution, cubes and
//! whole runs.
use std::f64::consts::{FRAC_PI_2, PI};
use std::sync::Arc;

use num_traits::{cast, Float};
use realfft::{ComplexToReal, RealFftPlanner, RealToComplex};
use rustfft::{Fft, FftNum, FftPlanner};

use convolve_rs::beam::{
    deconvolve_deg, Beam, BeamDifference, BeamError, BeamKernel, Residual, ATOL, CIRCULAR_RTOL,
    EIGENVALUE_FLOOR, MINUS_EPSILON,
};
use convolve_rs::beamlog::{
    beamlog_word, read_beamlog, write_beamlog, BeamColumn, BeamlogError, LogKernel, TINY,
};
use convolve_rs::common_beam::{
    common_beam, common_manybeams_mve, find_commonbeam_between, fits_in_beam, largest_beam,
    CommonBeamError, CommonBeamKernel, PairGeometry, MAX_INFLATIONS, PERPENDICULAR,
};
use convolve_rs::convolve_uv::{
    convolve_uv, convolve_uv_with_plans, fftfreq, gaussft, ConvolutionResult, ConvolveError,
    FilterKernel,
};
use convolve_rs::cube_io::{
    beamlog_path_for, has_beam_table, init_output_cube, read_channel_as, read_cube_meta,
    ref_beam_for, CubeError, CubeHeader, CubeItem, CubeMeta, CubeMode, LogRead, PixelType,
    TableKernel, TableRead, TINY_SINGLE,
};
use convolve_rs::ellipse::{
    convex_hull_2d, Advance, Ellipse, EllipseKernel, FitFailure, Point, MINUS_PI, PI as PI_BITS,
};
use convolve_rs::fft::{irfft2, rfft2, Complex, FftKernel, FftPlans};
use convolve_rs::fits_io::{
    beam_cards, output_path, read_fits, FitsError, FitsItem, ImageHeader,
};
use convolve_rs::ieee::{Double, FftFloat, Single, DOUBLE_NAN, SINGLE_NAN};
use convolve_rs::plane::{plane_to_be_bytes, Plane};
use convolve_rs::run::{
    blank_channel, check_cubes, convolve_channel, image_log, plan_channel, ChannelPlan, CubeFault,
    ImageLogEntry,
};
use convolve_rs::smooth::{check_request, smooth, smooth_or_blank, BrightnessUnit, Refusal};
use convolve_rs::targets::{
    apply_beam_rounding, compute_target_beams, cube_target_beams, image_target_beam,
    parse_target_beam, target_report, FitSettings, RoundingKernel, TargetError, TargetReport,
};

/// A number as the library holds it; every NaN is the same one, so that equal
/// arguments give equal bits.
pub fn double(x: f64) -> Double {
    if x.is_nan() {
        Double::from_bits(DOUBLE_NAN)
    } else {
        Double::from_bits(x.to_bits())
    }
}

pub fn float(x: Double) -> f64 {
    f64::from_bits(x.to_bits())
}

/// See [`double`].
pub fn single(x: f32) -> Single {
    if x.is_nan() {
        Single::from_bits(SINGLE_NAN)
    } else {
        Single::from_bits(x.to_bits())
    }
}

pub fn float32(x: Single) -> f32 {
    f32::from_bits(x.to_bits())
}

/// Covariance `[[xx, xy], [xy, yy]]` of an elliptical Gaussian in (East, North)
/// axes.
#[derive(Clone, Copy)]
struct Cov {
    xx: f64,
    yy: f64,
    xy: f64,
}

impl Cov {
    /// The major axis points along `(sin θ, cos θ)`, the minor along
    /// `(cos θ, −sin θ)`.
    fn from_axes(major: f64, minor: f64, pa_rad: f64) -> Self {
        let (sin, cos) = pa_rad.sin_cos();
        let a2 = major * major;
        let b2 = minor * minor;
        Self {
            xx: a2 * sin * sin + b2 * cos * cos,
            yy: a2 * cos * cos + b2 * sin * sin,
            xy: (a2 - b2) * sin * cos,
        }
    }

    fn of_deg(b: &Beam) -> Self {
        Self::from_axes(float(b.major_deg), float(b.minor_deg), float(b.pa_deg).to_radians())
    }

    fn of_arcsec(b: &Beam) -> Self {
        Self::from_axes(
            float(b.major_deg) * 3600.0,
            float(b.minor_deg) * 3600.0,
            float(b.pa_deg).to_radians(),
        )
    }

    fn add(&self, other: &Cov) -> Cov {
        Cov { xx: self.xx + other.xx, yy: self.yy + other.yy, xy: self.xy + other.xy }
    }

    fn sub(&self, other: &Cov) -> Cov {
        Cov { xx: self.xx - other.xx, yy: self.yy - other.yy, xy: self.xy - other.xy }
    }

    fn det(&self) -> f64 {
        self.xx * self.yy - self.xy * self.xy
    }

    /// Eigenvalues `(larger, smaller)`: the squared axis lengths.
    fn eigenvalues(&self) -> (f64, f64) {
        let mean = 0.5 * (self.xx + self.yy);
        let radius = 0.5 * (self.xx - self.yy).hypot(2.0 * self.xy);
        (mean + radius, mean - radius)
    }

    /// Angle of the major axis, East of North, in `(−π/2, π/2]`; 0 where the
    /// covariance is circular.
    fn position_angle(&self) -> f64 {
        let off_diag = self.xx - self.yy;
        let two_xy = 2.0 * self.xy;
        if off_diag.hypot(two_xy) <= f64::EPSILON * (self.xx + self.yy).abs() {
            return 0.0;
        }
        let mut pa = FRAC_PI_2 - 0.5 * two_xy.atan2(off_diag);
        if pa > FRAC_PI_2 {
            pa -= PI;
        }
        pa
    }
}

/// Convolve two beams: sum the covariances and read off the ellipse.
pub fn convolve(a: &Beam, b: &Beam) -> Beam {
    let combined = Cov::of_deg(a).add(&Cov::of_deg(b));
    let (lam_major, lam_minor) = combined.eigenvalues();
    Beam {
        major_deg: double(lam_major.max(0.0).sqrt()),
        minor_deg: double(lam_minor.max(0.0).sqrt()),
        pa_deg: double(combined.position_angle().to_degrees()),
    }
}

/// Flux-scaling factor for Jy/beam images after convolution to a larger beam.
///
/// Returns `(fac, amp, bmaj_arcsec, bmin_arcsec, bpa_deg)`.
pub fn gauss_factor(
    conv_beam: &Beam,
    orig_beam: &Beam,
    dx_arcsec: f64,
    dy_arcsec: f64,
) -> (f64, f64, f64, f64, f64) {
    let c_orig = Cov::of_arcsec(orig_beam);
    let c_conv = Cov::of_arcsec(conv_beam);
    let combined = c_orig.add(&c_conv);
    let (lam_major, lam_minor) = combined.eigenvalues();
    let amp =
        PI / (4.0 * 2_f64.ln()) * (c_orig.det() * c_conv.det() / combined.det()).sqrt();
    let fac = dx_arcsec.abs() * dy_arcsec.abs() / amp;
    (
        fac,
        amp,
        lam_major.max(0.0).sqrt(),
        lam_minor.max(0.0).sqrt(),
        combined.position_angle().to_degrees(),
    )
}

/// Transform an ellipse (arcsec axes, PA in radians) by scaling factors.
fn transform_ellipse(major: f64, minor: f64, pa: f64, x_scale: f64, y_scale: f64) -> (f64, f64, f64) {
    let cospa = pa.cos();
    let sinpa = pa.sin();
    let cos2pa = cospa * cospa;
    let sin2pa = sinpa * sinpa;
    let major2 = major * major;
    let minor2 = minor * minor;

    let a = cos2pa / major2 + sin2pa / minor2;
    let b = -2.0 * cospa * sinpa * (1.0 / major2 - 1.0 / minor2);
    let c = sin2pa / major2 + cos2pa / minor2;

    let x2 = x_scale * x_scale;
    let y2 = y_scale * y_scale;
    let r = a / x2;
    let s = b * b / (4.0 * x2 * y2);
    let t = c / y2;

    let udiff = r - t;
    let f1 = udiff * udiff + 4.0 * s;
    let f2 = f1.sqrt() * udiff.abs();
    let j1 = (f2 + f1) / (2.0 * f1);
    let j2 = (f1 - f2) / (2.0 * f1);
    let k1 = (j1 * (r + t) - t) / (2.0 * j1 - 1.0);
    let k2 = (j2 * (r + t) - t) / (2.0 * j2 - 1.0);
    let c1 = 1.0 / k1.sqrt();
    let c2 = 1.0 / k2.sqrt();
    let pa_sign = if pa >= 0.0 { 1.0 } else { -1.0 };

    if (c1 - c2).abs() < f64::EPSILON {
        (c1, c1, 0.0)
    } else if c1 > c2 {
        (c1, c2, pa_sign * j1.sqrt().acos())
    } else {
        (c2, c1, pa_sign * j2.sqrt().acos())
    }
}

/// Sum of the weighted outer products of the points.
fn moments<const N: usize>(points: &[[f64; N]], weights: &[f64]) -> [[f64; N]; N] {
    let mut m = [[0.0; N]; N];
    for (p, &w) in points.iter().zip(weights.iter()) {
        for r in 0..N {
            for c in 0..N {
                m[r][c] += p[r] * w * p[c];
            }
        }
    }
    m
}

fn quadratic_form(x: &[f64; 3], m: &[[f64; 3]; 3]) -> f64 {
    let mut acc = 0.0;
    for r in 0..3 {
        for c in 0..3 {
            acc += x[r] * m[r][c] * x[c];
        }
    }
    acc
}

fn mat3_inv(m: [[f64; 3]; 3]) -> Option<[[f64; 3]; 3]> {
    let det = m[0][0] * (m[1][1] * m[2][2] - m[1][2] * m[2][1])
        - m[0][1] * (m[1][0] * m[2][2] - m[1][2] * m[2][0])
        + m[0][2] * (m[1][0] * m[2][1] - m[1][1] * m[2][0]);
    if det.abs() <= f64::EPSILON * (m[0][0] * m[1][1] * m[2][2]).abs() {
        return None;
    }
    let inv_det = 1.0 / det;
    Some([
        [
            inv_det * (m[1][1] * m[2][2] - m[1][2] * m[2][1]),
            inv_det * (m[0][2] * m[2][1] - m[0][1] * m[2][2]),
            inv_det * (m[0][1] * m[1][2] - m[0][2] * m[1][1]),
        ],
        [
            inv_det * (m[1][2] * m[2][0] - m[1][0] * m[2][2]),
            inv_det * (m[0][0] * m[2][2] - m[0][2] * m[2][0]),
            inv_det * (m[0][2] * m[1][0] - m[0][0] * m[1][2]),
        ],
        [
            inv_det * (m[1][0] * m[2][1] - m[1][1] * m[2][0]),
            inv_det * (m[0][1] * m[2][0] - m[0][0] * m[2][1]),
            inv_det * (m[0][0] * m[1][1] - m[0][1] * m[1][0]),
        ],
    ])
}

fn mat2_inv(m: [[f64; 2]; 2]) -> Option<[[f64; 2]; 2]> {
    let det = m[0][0] * m[1][1] - m[0][1] * m[1][0];
    if det.abs() <= f64::EPSILON * (m[0][0] * m[1][1]).abs() {
        return None;
    }
    let inv_det = 1.0 / det;
    Some([
        [inv_det * m[1][1], -inv_det * m[0][1]],
        [-inv_det * m[1][0], inv_det * m[0][0]],
    ])
}

fn unit_vector(v: [f64; 2]) -> [f64; 2] {
    let len = (v[0] * v[0] + v[1] * v[1]).sqrt();
    if len == 0.0 {
        return v;
    }
    [v[0] / len, v[1] / len]
}

/// Eigenvalues of a symmetric matrix, and the matrix whose columns are the
/// eigenvectors.
fn symmetric_eig(m: [[f64; 2]; 2]) -> ([f64; 2], [[f64; 2]; 2]) {
    let a = m[0][0];
    let b = m[0][1];
    let c = m[1][1];
    let trace = a + c;
    let det = a * c - b * b;
    let disc = ((trace / 2.0).powi(2) - det).max(0.0).sqrt();
    let lam1 = trace / 2.0 + disc;
    let lam2 = trace / 2.0 - disc;
    let (v1, v2) = if b.abs() > f64::EPSILON * (a.abs() + c.abs()) {
        (unit_vector([lam1 - c, b]), unit_vector([lam2 - c, b]))
    } else if a >= c {
        ([1.0, 0.0], [0.0, 1.0])
    } else {
        ([0.0, 1.0], [1.0, 0.0])
    };
    ([lam1, lam2], [[v1[0], v2[0]], [v1[1], v2[1]]])
}

fn floats(v: &[Double]) -> Vec<f64> {
    v.iter().map(|&x| float(x)).collect()
}

fn ordered(x: f64) -> f64 {
    if x.is_nan() {
        panic!("numbers that are ordered must not be NaN");
    }
    x
}

/// The formulas of the library in IEEE double precision.
#[derive(Clone, Copy)]
pub struct Formulas;

impl BeamKernel for Formulas {
    fn major_arcsec(&self, beam: &Beam) -> Double {
        double(float(beam.major_deg) * 3600.0)
    }

    fn minor_arcsec(&self, beam: &Beam) -> Double {
        double(float(beam.minor_deg) * 3600.0)
    }

    fn degrees(&self, arcsec: Double) -> Double {
        double(float(arcsec) / 3600.0)
    }

    fn area_sr(&self, beam: &Beam) -> Double {
        let fwhm_to_area = 2.0 * PI / (8.0 * 2_f64.ln());
        double(
            float(beam.major_deg).to_radians() * float(beam.minor_deg).to_radians() * fwhm_to_area,
        )
    }

    fn spread(&self, beam: &Beam) -> Double {
        let major = float(beam.major_deg);
        double((major - float(beam.minor_deg)) / major)
    }

    fn difference(&self, a: &Beam, b: &Beam) -> BeamDifference {
        let pa_a = float(a.pa_deg).rem_euclid(180.0);
        let pa_b = float(b.pa_deg).rem_euclid(180.0);
        let turn = (pa_a - pa_b).abs();
        BeamDifference {
            major_deg: double((float(a.major_deg) - float(b.major_deg)).abs()),
            minor_deg: double((float(a.minor_deg) - float(b.minor_deg)).abs()),
            pa_deg: double(turn.min(180.0 - turn)),
        }
    }

    fn residual(&self, large: &Beam, small: &Beam) -> Residual {
        let left = Cov::of_deg(large).sub(&Cov::of_deg(small));
        let (lam_major, lam_minor) = left.eigenvalues();
        Residual {
            xx: double(left.xx),
            yy: double(left.yy),
            lam_minor: double(lam_minor),
            ellipse: Beam {
                major_deg: double(lam_major.sqrt()),
                minor_deg: double(lam_minor.max(0.0).sqrt()),
                pa_deg: double(left.position_angle().to_degrees()),
            },
        }
    }
}

impl EllipseKernel for Formulas {
    fn boundary_point(&self, beam: &Beam, i: usize, nsamps: usize, epsilon: Double) -> Point {
        let bpa = float(beam.pa_deg) * (PI / 180.0);
        let major = float(beam.major_deg) * (1.0 + float(epsilon));
        let minor = float(beam.minor_deg) * (1.0 + float(epsilon));
        let phi = 2.0 * PI * i as f64 / nsamps as f64;
        let x = major * phi.cos();
        let y = minor * phi.sin();
        Point {
            x: double(ordered(x * bpa.cos() - y * bpa.sin())),
            y: double(ordered(x * bpa.sin() + y * bpa.cos())),
        }
    }

    fn angle(&self, pivot: &Point, p: &Point) -> Double {
        let dy = float(p.y) - float(pivot.y);
        let dx = float(p.x) - float(pivot.x);
        double(ordered(dy.atan2(dx)))
    }

    fn cross(&self, o: &Point, a: &Point, b: &Point) -> Double {
        let (ox, oy) = (float(o.x), float(o.y));
        double((float(a.x) - ox) * (float(b.y) - oy) - (float(a.y) - oy) * (float(b.x) - ox))
    }

    fn equal_weight(&self, n: usize) -> Double {
        double(1.0 / n as f64)
    }

    fn scores(&self, points: &Vec<Point>, weights: &Vec<Double>) -> Result<Vec<Double>, FitFailure> {
        let q: Vec<[f64; 3]> = points.iter().map(|p| [float(p.x), float(p.y), 1.0]).collect();
        let inverse = mat3_inv(moments(&q, &floats(weights))).ok_or(FitFailure::Singular3x3)?;
        Ok(q.iter().map(|x| double(ordered(quadratic_form(x, &inverse)))).collect())
    }

    fn advance(&self, weights: &Vec<Double>, j: usize, maximum: Double) -> Advance {
        let d = 2.0;
        let u = floats(weights);
        let top = float(maximum);
        let step = (top - d - 1.0) / ((d + 1.0) * (top - 1.0));
        let mut next: Vec<f64> = u.iter().map(|&x| (1.0 - step) * x).collect();
        let err = next.iter().zip(u.iter()).map(|(a, b)| (a - b).powi(2)).sum::<f64>().sqrt();
        next[j] += step;
        Advance { weights: next.iter().map(|&x| double(x)).collect(), err: double(err) }
    }

    fn ellipse(
        &self,
        points: &Vec<Point>,
        weights: &Vec<Double>,
        tolerance: Double,
    ) -> Result<Ellipse, FitFailure> {
        let p: Vec<[f64; 2]> = points.iter().map(|p| [float(p.x), float(p.y)]).collect();
        let u = floats(weights);
        let center = [
            p.iter().zip(u.iter()).map(|(p, &w)| p[0] * w).sum::<f64>(),
            p.iter().zip(u.iter()).map(|(p, &w)| p[1] * w).sum::<f64>(),
        ];
        let m = moments(&p, &u);
        let inner = [
            [m[0][0] - center[0] * center[0], m[0][1] - center[0] * center[1]],
            [m[1][0] - center[1] * center[0], m[1][1] - center[1] * center[1]],
        ];
        let inverse = mat2_inv(inner).ok_or(FitFailure::Singular2x2)?;
        let half = 1.0 / 2.0;
        let a = [
            [inverse[0][0] * half, inverse[0][1] * half],
            [inverse[1][0] * half, inverse[1][1] * half],
        ];
        let (eigenvalues, rotation) = symmetric_eig(a);
        let pad = 1.0 + float(tolerance);
        let pa = (-rotation[0][0]).atan2(rotation[1][0]);
        Ok(Ellipse {
            r0: double((1.0 / eigenvalues[0].abs().sqrt()) * pad),
            r1: double((1.0 / eigenvalues[1].abs().sqrt()) * pad),
            pa_rad: double(pa),
            pa_deg: double(pa.to_degrees()),
        })
    }
}

impl CommonBeamKernel for Formulas {
    fn pair(&self, large: &Beam, small: &Beam) -> PairGeometry {
        let large_major = float(large.major_deg) * 3600.0;
        let large_minor = float(large.minor_deg) * 3600.0;
        let small_major = float(small.major_deg) * 3600.0;
        let small_minor = float(small.minor_deg) * 3600.0;

        // Difference of the angles, wrapped to [-π/2, π/2].
        let pa_diff = ((float(small.pa_deg) - float(large.pa_deg)) * (PI / 180.0) + FRAC_PI_2 + PI)
            .rem_euclid(PI)
            - FRAC_PI_2;

        // To the frame where the large beam is circular, and back.
        let major_comb = (large_major * small_major).sqrt();
        let p = major_comb / large_major;
        let q = major_comb / large_minor;
        let (scaled_major, _, scaled_pa) =
            transform_ellipse(small_major, small_minor, pa_diff, p, q);
        let (major, minor, pa) =
            transform_ellipse(scaled_major, major_comb, scaled_pa, 1.0 / p, 1.0 / q);

        let eps = 100.0 * f64::EPSILON;
        PairGeometry {
            large_major: double(large_major),
            small_major: double(small_major),
            large_major_deg: double(large_major / 3600.0),
            small_major_deg: double(small_major / 3600.0),
            from_perpendicular: double((pa_diff.abs() - FRAC_PI_2).abs()),
            enclosing_major_deg: double((major + eps) / 3600.0),
            enclosing_minor_deg: double((minor + eps) / 3600.0),
            enclosing_pa_deg: double(pa.to_degrees() + float(large.pa_deg)),
        }
    }

    fn next_epsilon(&self, epsilon: Double, step: usize) -> Double {
        let eps = float(epsilon);
        double(eps + (step as f64 + 1.0) * (1e-3 - eps) / MAX_INFLATIONS as f64)
    }
}

impl RoundingKernel for Formulas {
    fn ceil_to(&self, x: Double, decimals: i32) -> Double {
        let factor = 10_f64.powi(decimals);
        double((float(x) * factor).ceil() / factor)
    }
}

/// Standard deviations along the axes in radians, and the angle in radians.
fn sigmas(b: &Beam) -> (f64, f64, f64) {
    let deg2rad = PI / 180.0;
    let two_ln2 = 2.0 * 2_f64.ln();
    let fwhm_to_sigma = 2.0 * two_ln2.sqrt();
    (
        float(b.major_deg) * deg2rad / fwhm_to_sigma,
        float(b.minor_deg) * deg2rad / fwhm_to_sigma,
        float(b.pa_deg) * deg2rad,
    )
}

impl FilterKernel for Formulas {
    fn radians(&self, deg: Double) -> Double {
        double(float(deg).to_radians())
    }

    fn frequency(&self, bin: i64, n: usize, d: Double) -> Double {
        let val = 1.0 / (n as f64 * float(d));
        double(bin as f64 * val)
    }

    fn gain_ratio(&self, old: &Beam, new: &Beam) -> Double {
        let (sx, sy, _) = sigmas(new);
        let (sx_in, sy_in, _) = sigmas(old);
        let g_amp = (2.0 * PI * sx * sy).sqrt();
        let dg_amp = (2.0 * PI * sx_in * sy_in).sqrt();
        double(g_amp / dg_amp)
    }

    fn gain(&self, old: &Beam, new: &Beam, u: Double, v: Double) -> Double {
        let (sx, sy, pa) = sigmas(new);
        let (sx_in, sy_in, pa_in) = sigmas(old);
        let (u, v) = (float(u), float(v));
        let ur = u * pa.cos() - v * pa.sin();
        let vr = u * pa.sin() + v * pa.cos();
        let ur_in = u * pa_in.cos() - v * pa_in.sin();
        let vr_in = u * pa_in.sin() + v * pa_in.cos();
        let pi2 = PI * PI;
        let g_arg = -2.0 * pi2 * ((sx * ur).powi(2) + (sy * vr).powi(2));
        let dg_arg = -2.0 * pi2 * ((sx_in * ur_in).powi(2) + (sy_in * vr_in).powi(2));
        double(float(self.gain_ratio(old, new)) * (g_arg - dg_arg).exp())
    }

    fn reciprocal(&self, x: Double) -> Double {
        double(1.0 / float(x))
    }
}

impl LogKernel for Formulas {
    fn parse_number(&self, word: &str) -> Option<Double> {
        word.parse::<f64>().ok().map(double)
    }

    fn print_number(&self, x: Double) -> String {
        format!("{}", float(x))
    }
}

impl TableKernel for Formulas {
    fn widen(&self, x: Single) -> Double {
        double(float32(x) as f64)
    }

    fn single(&self, x: Double) -> Single {
        single(float(x) as f32)
    }
}

/// A native float and the bit pattern that the library holds of it.
pub trait Native: FftNum + Float {
    type Held: FftFloat;

    fn hold(self) -> Self::Held;

    fn free(held: Self::Held) -> Self;
}

impl Native for f32 {
    type Held = Single;

    fn hold(self) -> Single {
        single(self)
    }

    fn free(held: Single) -> f32 {
        float32(held)
    }
}

impl Native for f64 {
    type Held = Double;

    fn hold(self) -> Double {
        double(self)
    }

    fn free(held: Double) -> f64 {
        float(held)
    }
}

/// Planned transforms for images of one size.
pub struct Transforms<R: Native> {
    r2c: Arc<dyn RealToComplex<R>>,
    c2r: Arc<dyn ComplexToReal<R>>,
    col_fwd: Arc<dyn Fft<R>>,
    col_inv: Arc<dyn Fft<R>>,
    count: R,
}

impl<R: Native> Transforms<R> {
    pub fn new(nrows: usize, ncols: usize) -> Self {
        let mut rplanner = RealFftPlanner::<R>::new();
        let mut cplanner = FftPlanner::<R>::new();
        Self {
            r2c: rplanner.plan_fft_forward(ncols),
            c2r: rplanner.plan_fft_inverse(ncols),
            col_fwd: cplanner.plan_fft_forward(nrows),
            col_inv: cplanner.plan_fft_inverse(nrows),
            count: cast::<usize, R>(nrows * ncols).expect("size out of range"),
        }
    }
}

fn native<R: Native>(v: &[Complex<R::Held>]) -> Vec<rustfft::num_complex::Complex<R>> {
    v.iter().map(|c| rustfft::num_complex::Complex::new(R::free(c.re), R::free(c.im))).collect()
}

fn held<R: Native>(v: &[rustfft::num_complex::Complex<R>]) -> Vec<Complex<R::Held>> {
    v.iter().map(|c| Complex { re: c.re.hold(), im: c.im.hold() }).collect()
}

impl<R: Native> FftKernel<R::Held> for Transforms<R> {
    fn forward_row(&self, row: &Vec<R::Held>) -> Vec<Complex<R::Held>> {
        let mut input: Vec<R> = row.iter().map(|&x| R::free(x)).collect();
        let mut output = self.r2c.make_output_vec();
        self.r2c.process(&mut input, &mut output).expect("r2c FFT");
        held(&output)
    }

    fn inverse_row(&self, row: &Vec<Complex<R::Held>>) -> Vec<R::Held> {
        let mut input = native::<R>(row);
        let mut output = self.c2r.make_output_vec();
        self.c2r.process(&mut input, &mut output).expect("c2r FFT");
        output.iter().map(|&x| x.hold()).collect()
    }

    fn forward_column(&self, column: &Vec<Complex<R::Held>>) -> Vec<Complex<R::Held>> {
        let mut buffer = native::<R>(column);
        self.col_fwd.process(&mut buffer);
        held(&buffer)
    }

    fn inverse_column(&self, column: &Vec<Complex<R::Held>>) -> Vec<Complex<R::Held>> {
        let mut buffer = native::<R>(column);
        self.col_inv.process(&mut buffer);
        held(&buffer)
    }

    fn scale(&self, s: Complex<R::Held>, gain: R::Held) -> Complex<R::Held> {
        let g = R::free(gain);
        Complex { re: (R::free(s.re) * g).hold(), im: (R::free(s.im) * g).hold() }
    }

    fn normalise(&self, v: R::Held) -> R::Held {
        (R::free(v) / self.count).hold()
    }

    fn narrow(&self, gain: Double) -> R::Held {
        cast::<f64, R>(float(gain)).expect("filter value out of range").hold()
    }

    fn multiply(&self, a: R::Held, b: R::Held) -> R::Held {
        (R::free(a) * R::free(b)).hold()
    }
}

// ── Helpers ─────────────────────────────────────────────────────────────────

fn deg(major: f64, minor: f64, pa: f64) -> Beam {
    Beam::new(double(major), double(minor), double(pa)).unwrap()
}

fn arcsec(major: f64, minor: f64, pa: f64) -> Beam {
    Beam::from_arcsec(&Formulas, double(major), double(minor), double(pa)).unwrap()
}

fn major_as(b: &Beam) -> f64 {
    float(b.major_deg) * 3600.0
}

fn minor_as(b: &Beam) -> f64 {
    float(b.minor_deg) * 3600.0
}

fn plane32(nrows: usize, ncols: usize, f: impl Fn(usize, usize) -> f32) -> Plane<Single> {
    let mut data = Vec::new();
    for i in 0..nrows {
        for j in 0..ncols {
            data.push(single(f(i, j)));
        }
    }
    Plane::from_shape_vec(nrows, ncols, data).unwrap()
}

fn plane64(nrows: usize, ncols: usize, f: impl Fn(usize, usize) -> f64) -> Plane<Double> {
    let mut data = Vec::new();
    for i in 0..nrows {
        for j in 0..ncols {
            data.push(double(f(i, j)));
        }
    }
    Plane::from_shape_vec(nrows, ncols, data).unwrap()
}

fn at32(p: &Plane<Single>, i: usize, j: usize) -> f32 {
    float32(p.data[i * p.ncols + j])
}

fn values32(p: &Plane<Single>) -> Vec<f32> {
    p.data.iter().map(|&x| float32(x)).collect()
}

fn values64(p: &Plane<Double>) -> Vec<f64> {
    p.data.iter().map(|&x| float(x)).collect()
}

fn convolve32(
    img: &Plane<Single>,
    old: &Beam,
    new: &Beam,
    dx: f64,
    cutoff: Option<f64>,
) -> Result<ConvolutionResult<Single>, ConvolveError> {
    let kernel = Transforms::<f32>::new(img.nrows, img.ncols);
    convolve_uv(&Formulas, img, old, new, double(dx), double(dx), cutoff.map(double), kernel)
}

fn convolve64(
    img: &Plane<Double>,
    old: &Beam,
    new: &Beam,
    dx: f64,
) -> ConvolutionResult<Double> {
    let kernel = Transforms::<f64>::new(img.nrows, img.ncols);
    convolve_uv(&Formulas, img, old, new, double(dx), double(dx), None, kernel).unwrap()
}

fn smooth32(
    img: &Plane<Single>,
    old: &Beam,
    new: &Beam,
    dx: f64,
    unit: BrightnessUnit,
) -> Plane<Single> {
    let kernel = Transforms::<f32>::new(img.nrows, img.ncols);
    smooth(&Formulas, img, old, new, double(dx), double(dx), None, unit, kernel).unwrap()
}

// ── Beams ───────────────────────────────────────────────────────────────────

#[test]
fn test_convolve_deconvolve_roundtrip() {
    let beam_a = deg(10.0 / 3600.0, 8.0 / 3600.0, 30.0);
    let beam_b = deg(6.0 / 3600.0, 5.0 / 3600.0, 15.0);
    let convolved = convolve(&beam_a, &beam_b);
    let recovered = convolved.deconvolve(&Formulas, &beam_a).unwrap();
    assert!(
        (float(recovered.major_deg) - float(beam_b.major_deg)).abs() < 1e-9,
        "major mismatch: {} vs {}",
        float(recovered.major_deg),
        float(beam_b.major_deg)
    );
    assert!(
        (float(recovered.minor_deg) - float(beam_b.minor_deg)).abs() < 1e-9,
        "minor mismatch: {} vs {}",
        float(recovered.minor_deg),
        float(beam_b.minor_deg)
    );
}

#[test]
fn test_deconvolve_fails_when_psf_larger() {
    let small = deg(5.0 / 3600.0, 5.0 / 3600.0, 0.0);
    let large = deg(10.0 / 3600.0, 10.0 / 3600.0, 0.0);
    assert!(small.deconvolve(&Formulas, &large).is_err());
    assert_eq!(small.deconvolve(&Formulas, &large), Err(BeamError::DeconvolveFailed));
}

#[test]
fn test_gauss_factor_circular() {
    let conv = deg(5.0 / 3600.0, 5.0 / 3600.0, 0.0);
    let orig = deg(10.0 / 3600.0, 10.0 / 3600.0, 0.0);
    let dx = 2.5;
    let (fac, ..) = gauss_factor(&conv, &orig, dx, dx);
    assert!(fac.is_finite() && fac > 0.0);
}

#[test]
fn test_beam_conv_deconv_roundtrip() {
    let test_cases = [
        ((20.0, 10.0, 10.0), (5.0, 4.0, 30.0)),
        ((15.0, 15.0, 0.0), (8.0, 6.0, 45.0)),
        ((12.0, 8.0, 90.0), (3.0, 3.0, 0.0)),
    ];
    for ((maj_a, min_a, pa_a), (maj_b, min_b, pa_b)) in test_cases {
        let a = arcsec(maj_a, min_a, pa_a);
        let b = arcsec(maj_b, min_b, pa_b);
        let convolved = convolve(&a, &b);
        let recovered = convolved.deconvolve(&Formulas, &a).unwrap();
        let tol = 1e-9;
        assert!(
            (float(recovered.major_deg) - float(b.major_deg)).abs() < tol,
            "({maj_a}×{min_a}@{pa_a}) + ({maj_b}×{min_b}@{pa_b}): major"
        );
        assert!(
            (float(recovered.minor_deg) - float(b.minor_deg)).abs() < tol,
            "minor mismatch: {:.10e} vs {:.10e}",
            float(recovered.minor_deg),
            float(b.minor_deg),
        );
    }
}

const PIX_ARCSEC: f64 = 2.5;
const OLD_BMAJ: f64 = 20.0;
const OLD_BMIN: f64 = 10.0;
const OLD_BPA: f64 = 10.0;
const TARGET_BMAJ: f64 = 40.0;
const TARGET_BMIN: f64 = 40.0;
const TARGET_BPA: f64 = 0.0;
const NROW: usize = 100;
const NCOL: usize = 100;

#[test]
fn test_beam_deconvolve_test_params() {
    let old = arcsec(OLD_BMAJ, OLD_BMIN, OLD_BPA);
    let target = arcsec(TARGET_BMAJ, TARGET_BMIN, TARGET_BPA);

    let conv_beam = target.deconvolve(&Formulas, &old).unwrap();

    // Verify by re-convolving: conv_beam ⊛ old ≈ target
    let reconv = convolve(&old, &conv_beam);
    let tol = 1e-9;
    assert!(
        (float(reconv.major_deg) - float(target.major_deg)).abs() < tol,
        "reconv.major={:.10e} target.major={:.10e}",
        float(reconv.major_deg),
        float(target.major_deg),
    );
    assert!(
        (float(reconv.minor_deg) - float(target.minor_deg)).abs() < tol,
        "reconv.minor={:.10e} target.minor={:.10e}",
        float(reconv.minor_deg),
        float(target.minor_deg),
    );

    // The convolving beam must fit inside the target beam.
    assert!(
        float(conv_beam.major_deg) <= float(target.major_deg) + 1e-12,
        "conv beam larger than target"
    );
    assert!(float(conv_beam.major_deg) > 0.0, "conv beam is zero");
}

#[test]
fn test_beam_self_deconvolve_fails() {
    let b = arcsec(20.0, 10.0, 0.0);
    assert!(b.deconvolve(&Formulas, &b).is_err(), "self-deconvolve should fail");
}

#[test]
fn test_beam_deconvolve_too_large_fails() {
    let small = arcsec(10.0, 8.0, 0.0);
    let large = arcsec(20.0, 20.0, 0.0);
    assert!(small.deconvolve(&Formulas, &large).is_err());
}

#[test]
fn beam_errors_name_their_cause() {
    assert_eq!(
        Beam::new(double(1.0), double(2.0), double(0.0)),
        Err(BeamError::InvalidAxes { major: double(1.0), minor: double(2.0) })
    );
    assert_eq!(
        Beam::new(double(f64::NAN), double(2.0), double(0.0)),
        Err(BeamError::NotFinite)
    );
    assert_eq!(
        Beam::new(double(1.0), double(0.5), double(f64::INFINITY)),
        Err(BeamError::NotFinite)
    );
    assert_eq!(
        Beam::from_arcsec(&Formulas, double(18.0), double(14.4), double(30.0)).unwrap(),
        deg(0.005, 14.4 / 3600.0, 30.0)
    );
}

#[test]
fn beam_predicates() {
    let zero = Beam::zero();
    assert!(zero.is_zero() && !zero.is_finite());
    assert!(deg(-0.0, -0.0, 0.0).is_zero());
    let b = arcsec(10.0, 8.0, 30.0);
    assert!(b.is_finite() && !b.is_zero());
    assert!(!b.is_circular(&Formulas, double(1e-6)));
    assert!(b.is_circular(&Formulas, double(0.21)));
    assert!(zero.is_circular(&Formulas, double(1e-6)));
    assert!(b.approx_eq(&Formulas, &arcsec(10.0, 8.0, 210.0)));
    assert!(!b.approx_eq(&Formulas, &arcsec(10.0, 8.0, 31.0)));
    // Angles are compared modulo a half turn, at either end of it.
    assert!(arcsec(10.0, 8.0, 0.0).approx_eq(&Formulas, &arcsec(10.0, 8.0, -1e-12)));
    assert!(arcsec(10.0, 8.0, 180.0).approx_eq(&Formulas, &arcsec(10.0, 8.0, 1e-12)));
    assert!(!arcsec(10.0, 8.0, 0.0).approx_eq(&Formulas, &arcsec(10.0, 8.0, 90.0)));
    // The angle of a circular beam does not count.
    assert!(arcsec(9.0, 9.0, 0.0).approx_eq(&Formulas, &arcsec(9.0, 9.0, 45.0)));
    assert_eq!(arcsec(5.0, 5.0, 0.0).deconvolve_or_zero(&Formulas, &b), zero);
    assert_eq!(
        deconvolve_deg(&Formulas, &arcsec(5.0, 5.0, 0.0), &b, true),
        Ok(zero)
    );
}

// ── Common beam ─────────────────────────────────────────────────────────────

fn common(beams: Vec<Beam>, tolerance: f64, nsamps: usize, epsilon: f64) -> Beam {
    common_beam(&Formulas, &beams, double(tolerance), nsamps, double(epsilon)).unwrap()
}

#[test]
fn common_beam_test_common_beam_identical() {
    let b = deg(10.0 / 3600.0, 8.0 / 3600.0, 30.0);
    let result = common(vec![b, b], 1e-4, 200, 5e-4);
    assert!(
        result.approx_eq(&Formulas, &b) || float(result.major_deg) >= float(b.major_deg)
    );
}

#[test]
fn test_common_beam_two_different() {
    let b1 = deg(10.0 / 3600.0, 8.0 / 3600.0, 30.0);
    let b2 = deg(12.0 / 3600.0, 6.0 / 3600.0, 60.0);
    let result = common(vec![b1, b2], 1e-4, 200, 5e-4);
    assert!(
        float(result.major_deg) >= float(b1.major_deg).max(float(b2.major_deg))
            || fits_in_beam(&Formulas, &vec![b1, b2], &result)
    );
}

#[test]
fn miriad_compat_test_common_beam_identical() {
    let b = arcsec(20.0, 10.0, 10.0);
    let result = common(vec![b, b], 0.001, 200, 1e-5);
    let tol = 0.05 / 3600.0; // 0.05 arcsec in degrees
    assert!(
        (float(result.major_deg) - float(b.major_deg)).abs() < tol,
        "major: {:.6} vs {:.6}",
        major_as(&result),
        major_as(&b),
    );
}

#[test]
fn test_common_beam_two_circular() {
    let small = arcsec(10.0, 10.0, 0.0);
    let large = arcsec(20.0, 20.0, 0.0);
    let result = common(vec![small, large], 0.001, 200, 1e-5);
    let tol = 0.1 / 3600.0; // 0.1 arcsec
    assert!(
        (float(result.major_deg) - float(large.major_deg)).abs() < tol,
        "common beam should equal the larger beam; got {:.4}\" expected {:.4}\"",
        major_as(&result),
        major_as(&large),
    );
}

#[test]
fn test_common_beam_three_different() {
    let b1 = arcsec(20.0, 10.0, 30.0);
    let b2 = arcsec(18.0, 12.0, -20.0);
    let b3 = arcsec(15.0, 15.0, 0.0);
    let result = common(vec![b1, b2, b3], 1e-4, 200, 5e-4);

    // Must be at least as large as the largest input beam's major axis.
    assert!(
        major_as(&result) >= 20.0 - 0.1,
        "common major {:.3}\" < largest input 20.0\"",
        major_as(&result),
    );
    // Every input beam must fit inside the result.
    for b in [b1, b2, b3] {
        assert!(
            result.deconvolve(&Formulas, &b).is_ok(),
            "input beam {:?} does not fit inside common beam {:?}",
            b,
            result
        );
    }
    assert!(fits_in_beam(&Formulas, &vec![b1, b2, b3], &result));
}

#[test]
fn common_beam_documented_example() {
    let b1 = arcsec(10.0, 8.0, 30.0);
    let b2 = arcsec(12.0, 6.0, 60.0);
    let cb = common(vec![b1, b2], 1e-4, 200, 5e-4);
    assert!(major_as(&cb) >= 12.0);
    let area = |b: &Beam| float(Formulas.area_sr(b));
    assert!(area(&cb) >= area(&b1).max(area(&b2)));
}

#[test]
fn common_beam_edge_cases() {
    let b = arcsec(10.0, 8.0, 30.0);
    assert_eq!(
        common_beam(&Formulas, &vec![], double(1e-4), 200, double(5e-4)),
        Err(CommonBeamError::NoBeans)
    );
    assert_eq!(common(vec![b], 1e-4, 200, 5e-4), b);
    // A beam that holds all others is the answer.
    let large = arcsec(30.0, 30.0, 0.0);
    assert_eq!(common(vec![b, large, arcsec(12.0, 6.0, 60.0)], 1e-4, 200, 5e-4), large);
    assert_eq!(largest_beam(&Formulas, &vec![b, large]), large);
    // Without boundary points there is no ellipse.
    assert_eq!(
        common_manybeams_mve(
            &Formulas,
            &vec![b, arcsec(12.0, 6.0, 60.0)],
            double(1e-4),
            0,
            double(5e-4)
        ),
        Err(CommonBeamError::DeconvFailed(FitFailure::Singular3x3))
    );
}

#[test]
fn common_beam_of_perpendicular_beams_has_both_major_axes() {
    let b1 = arcsec(12.0, 4.0, 0.0);
    let b2 = arcsec(10.0, 4.0, 90.0);
    let cb = find_commonbeam_between(&Formulas, &b1, &b2).unwrap();
    assert!((major_as(&cb) - 12.0).abs() < 1e-9);
    assert!((minor_as(&cb) - 10.0).abs() < 1e-9);
    assert_eq!(float(cb.pa_deg), 0.0);
    // A round small beam only widens the minor axis.
    let round = arcsec(6.0, 6.0, 0.0);
    let cb = find_commonbeam_between(&Formulas, &b1, &round).unwrap();
    assert!((major_as(&cb) - 12.0).abs() < 1e-9);
    assert!((minor_as(&cb) - 6.0).abs() < 1e-9);
    // Equal beams are their own common beam.
    assert_eq!(find_commonbeam_between(&Formulas, &b1, &b1).unwrap(), b1);
}

#[test]
fn common_beam_does_not_depend_on_the_unit() {
    let fit = |scale: f64| {
        let beams = vec![
            arcsec(20.0 * scale, 10.0 * scale, 30.0),
            arcsec(18.0 * scale, 12.0 * scale, -20.0),
            arcsec(15.0 * scale, 15.0 * scale, 0.0),
        ];
        common(beams, 1e-4, 200, 5e-4)
    };
    let large = fit(1.0);
    for scale in [1e-3, 1e-2, 10.0] {
        let b = fit(scale);
        assert!((major_as(&b) / scale - major_as(&large)).abs() < 1e-3 * major_as(&large));
        assert!((minor_as(&b) / scale - minor_as(&large)).abs() < 1e-3 * minor_as(&large));
    }
}

#[test]
fn beams_fit_one_by_one() {
    let small = arcsec(10.0, 8.0, 30.0);
    let large = arcsec(20.0, 20.0, 0.0);
    let wide = arcsec(25.0, 4.0, 0.0);
    assert!(fits_in_beam(&Formulas, &vec![], &large));
    assert!(fits_in_beam(&Formulas, &vec![small, large], &large));
    assert!(!fits_in_beam(&Formulas, &vec![wide], &large));
    assert!(!fits_in_beam(&Formulas, &vec![small, wide], &large));
    assert!(large.deconvolve(&Formulas, &small).is_ok());
    assert_eq!(large.deconvolve(&Formulas, &wide), Err(BeamError::DeconvolveFailed));
}

#[test]
fn deconvolving_gives_one_ellipse_with_either_flag() {
    let large = arcsec(20.0, 18.0, 10.0);
    let small = arcsec(10.0, 8.0, 30.0);
    let strict = deconvolve_deg(&Formulas, &large, &small, false);
    assert!(strict.is_ok());
    assert_eq!(deconvolve_deg(&Formulas, &large, &small, true), strict);
    assert_eq!(
        deconvolve_deg(&Formulas, &small, &large, false),
        Err(BeamError::DeconvolveFailed)
    );
    assert_eq!(deconvolve_deg(&Formulas, &small, &large, true), Ok(Beam::zero()));
}

#[test]
fn farther_of_two_points_on_a_ray_is_the_vertex() {
    let point = |x: f64, y: f64| Point { x: double(x), y: double(y) };
    let points = vec![point(0.0, 0.0), point(2.0, 0.0), point(1.0, 0.0), point(0.0, 1.0)];
    assert_eq!(
        convex_hull_2d(&Formulas, &points),
        vec![point(0.0, 0.0), point(2.0, 0.0), point(0.0, 1.0)]
    );
    let points = vec![
        point(0.0, 0.0),
        point(3.0, 3.0),
        point(1.0, 1.0),
        point(0.0, 4.0),
        point(0.0, 2.0),
        point(2.0, 2.0),
        point(0.0, 0.0),
    ];
    assert_eq!(
        convex_hull_2d(&Formulas, &points),
        vec![point(0.0, 0.0), point(3.0, 3.0), point(0.0, 4.0)]
    );
    // Points on one line leave its two ends.
    let line = vec![point(3.0, 0.0), point(1.0, 0.0), point(4.0, 0.0), point(2.0, 0.0)];
    assert_eq!(convex_hull_2d(&Formulas, &line), vec![point(1.0, 0.0), point(4.0, 0.0)]);
    // Up to three points are their own hull, whatever they are.
    let odd = vec![point(f64::NAN, 0.0), point(1.0, 0.0)];
    assert_eq!(convex_hull_2d(&Formulas, &odd), odd);
}

#[test]
fn convex_hull_of_a_square() {
    let point = |x: f64, y: f64| Point { x: double(x), y: double(y) };
    let points = vec![
        point(0.5, 0.5),
        point(1.0, 1.0),
        point(0.0, 0.0),
        point(1.0, 0.0),
        point(0.0, 1.0),
        point(0.25, 0.5),
    ];
    let hull = convex_hull_2d(&Formulas, &points);
    assert_eq!(
        hull,
        vec![point(0.0, 0.0), point(1.0, 0.0), point(1.0, 1.0), point(0.0, 1.0)]
    );
}

// ── Transforms and filter ───────────────────────────────────────────────────

#[test]
fn test_fftfreq() {
    // fftfreq(4, 1) = [0, 0.25, -0.5, -0.25]
    let f = fftfreq(&Formulas, 4, double(1.0));
    let expected = [0.0, 0.25, -0.5, -0.25];
    for (a, b) in f.iter().zip(expected.iter()) {
        let a = float(*a);
        assert!((a - b).abs() < 1e-12, "got {a}, want {b}");
    }
    assert_eq!(f.len(), 4);
    let odd: Vec<f64> =
        fftfreq(&Formulas, 5, double(1.0)).iter().map(|&x| float(x)).collect();
    assert_eq!(odd, vec![0.0, 0.2, 0.4, -0.4, -0.2]);
}

#[test]
fn test_rfft2_irfft2_roundtrip() {
    // Even dimensions exercise the Nyquist bins.
    let data: Vec<f64> = vec![
        1.0, 2.0, 3.0, 4.0, 5.0, 6.0, 7.0, 8.0, 9.0, 10.0, 11.0, 12.0, 13.0, 14.0, 15.0, 16.0,
    ];
    let (nrows, ncols) = (4, 4);
    let plans = FftPlans::new(nrows, ncols, Transforms::<f64>::new(nrows, ncols));
    let held: Vec<Double> = data.iter().map(|&x| double(x)).collect();
    let spectrum = rfft2(&plans, &held);
    assert_eq!(float(spectrum[0].re), 136.0);
    let recovered = irfft2(&plans, spectrum);
    for (a, b) in data.iter().zip(recovered.iter()) {
        let b = float(*b);
        assert!((a - b).abs() < 1e-10, "roundtrip failed: {a} vs {b}");
    }
    assert_eq!(recovered.len(), data.len());
}

#[test]
fn test_rfft2_irfft2_roundtrip_f32() {
    let data: Vec<f32> = (1..=16).map(|x| x as f32).collect();
    let (nrows, ncols) = (4, 4);
    let plans = FftPlans::new(nrows, ncols, Transforms::<f32>::new(nrows, ncols));
    let held: Vec<Single> = data.iter().map(|&x| single(x)).collect();
    let spectrum = rfft2(&plans, &held);
    let recovered = irfft2(&plans, spectrum);
    for (a, b) in data.iter().zip(recovered.iter()) {
        let b = float32(*b);
        assert!((a - b).abs() < 1e-3, "f32 roundtrip failed: {a} vs {b}");
    }
    assert_eq!(plans.dim(), (4, 4));
}

#[test]
fn first_bin_is_the_sum_of_the_image() {
    for (rows, cols) in [(4usize, 4usize), (3, 5), (1, 1), (5, 2)] {
        let image = plane64(rows, cols, |i, j| (i * cols + j + 1) as f64);
        let plans = FftPlans::new(rows, cols, Transforms::<f64>::new(rows, cols));
        let n = (rows * cols) as f64;
        let spectrum = rfft2(&plans, &image.data);
        assert_eq!(spectrum.len(), rows * (cols / 2 + 1));
        assert!((float(spectrum[0].re) - n * (n + 1.0) / 2.0).abs() < 1e-9);
        assert_eq!(irfft2(&plans, spectrum).len(), rows * cols);
    }
}

#[test]
fn odd_sized_images_round_trip() {
    let (nrows, ncols) = (3, 5);
    let plans = FftPlans::new(nrows, ncols, Transforms::<f64>::new(nrows, ncols));
    let held: Vec<Double> = (0..15).map(|x| double((x * x % 7) as f64)).collect();
    let back = irfft2(&plans, rfft2(&plans, &held));
    for (a, b) in held.iter().zip(back.iter()) {
        assert!((float(*a) - float(*b)).abs() < 1e-12);
    }
}

#[test]
fn test_gaussft_dc_equals_ratio() {
    let old = arcsec(6.0, 6.0, 0.0);
    let new = arcsec(12.0, 10.0, 30.0);
    let zero = vec![double(0.0)];
    let (g, ratio) = gaussft(&Formulas, &old, &new, &zero, &zero);
    let (dc, ratio) = (float(g[0]), float(ratio));
    assert!((dc - ratio).abs() < 1e-12, "DC {dc} != ratio {ratio}");
    assert!(ratio > 1.0, "larger target beam should have ratio > 1");
}

#[test]
fn test_gaussft_dc_equals_g_ratio() {
    let old = arcsec(OLD_BMAJ, OLD_BMIN, OLD_BPA);
    let target = arcsec(TARGET_BMAJ, TARGET_BMIN, TARGET_BPA);
    let pix_deg = PIX_ARCSEC / 3600.0;

    let u_freqs = fftfreq(&Formulas, NROW, double(pix_deg.to_radians()));
    let v_freqs = fftfreq(&Formulas, NCOL, double(pix_deg.to_radians()));

    let (g_final, g_ratio) = gaussft(&Formulas, &old, &target, &u_freqs, &v_freqs);
    let g_ratio = float(g_ratio);
    assert_eq!(g_final.len(), NROW * NCOL);

    // DC component is at index [0, 0] in row-major layout.
    let dc = float(g_final[0]);
    assert!((dc - g_ratio).abs() < 1e-12, "g_final[DC] = {dc:.10e}, g_ratio = {g_ratio:.10e}");

    assert!(g_ratio > 0.0, "g_ratio must be positive");
    let omega_ratio: f64 = (TARGET_BMAJ * TARGET_BMIN) / (OLD_BMAJ * OLD_BMIN); // = 8.0
    let expected_g_ratio = omega_ratio.sqrt(); // = sqrt(8)
    assert!(
        (g_ratio - expected_g_ratio).abs() < 1e-10,
        "g_ratio = {g_ratio:.10e}, expected {expected_g_ratio:.10e}",
    );
}

#[test]
fn test_gaussft_attenuates_high_freq() {
    let old = arcsec(OLD_BMAJ, OLD_BMIN, OLD_BPA);
    let target = arcsec(TARGET_BMAJ, TARGET_BMIN, TARGET_BPA);
    let pix_deg = PIX_ARCSEC / 3600.0;

    let n = 32usize;
    let u_freqs = fftfreq(&Formulas, n, double(pix_deg.to_radians()));
    let v_freqs = fftfreq(&Formulas, 1, double(pix_deg.to_radians()));

    let (g_final, g_ratio) = gaussft(&Formulas, &old, &target, &u_freqs, &v_freqs);

    let dc = float(g_final[0]);
    assert!((dc - float(g_ratio)).abs() < 1e-12);

    // Positive-frequency bins (indices 1..n/2) should be smaller than DC.
    let m = n.div_ceil(2);
    for (i, bin) in g_final.iter().enumerate().take(m).skip(1) {
        let val = float(*bin);
        assert!(val < dc, "g_final[{i}] = {val:.6e} should be < DC = {dc:.6e}");
    }
}

// ── Convolution ─────────────────────────────────────────────────────────────

#[test]
fn test_convolve_uv_no_change_when_beams_equal() {
    let beam = deg(10.0 / 3600.0, 10.0 / 3600.0, 0.0);
    let img = plane32(16, 16, |_, _| 1.0);
    let result = convolve32(&img, &beam, &beam, 2.5 / 3600.0, None).unwrap();
    assert!((float(result.scaling_factor) - 1.0).abs() < 1e-10);
    assert_eq!(result.image.data, img.data);
}

#[test]
fn test_convolve_uv_point_source_flux_and_peak() {
    let (n, dx) = (64usize, 2.0 / 3600.0);
    let old = arcsec(6.0, 6.0, 0.0);
    let new = arcsec(12.0, 12.0, 0.0);

    let img = plane64(n, n, |i, j| if (i, j) == (n / 2, n / 2) { 1.0 } else { 0.0 });

    let res = convolve64(&img, &old, &new, dx);
    let pixels = values64(&res.image);
    let total: f64 = pixels.iter().sum();

    // A unit point source convolves to a Gaussian whose pixels sum to the gain.
    assert!(
        (total - float(res.scaling_factor)).abs() < 1e-6,
        "integral {total} != DC gain {}",
        float(res.scaling_factor)
    );

    // Peak stays at the source pixel and is the image maximum.
    let peak = pixels[(n / 2) * n + n / 2];
    assert!(peak > 0.0);
    for &v in pixels.iter() {
        assert!(v <= peak + 1e-9, "pixel {v} exceeds peak {peak}");
    }
}

#[test]
fn test_convolve_uv_f32_matches_f64() {
    let (n, dx) = (48usize, 2.5 / 3600.0);
    let old = arcsec(8.0, 6.0, 20.0);
    let new = arcsec(15.0, 12.0, 20.0);

    let value = |i: usize, j: usize| ((i * 7 + j * 3) % 11) as f64 / 11.0;
    let img64 = plane64(n, n, value);
    let img32 = plane32(n, n, |i, j| value(i, j) as f32);

    let r64 = convolve64(&img64, &old, &new, dx);
    let r32 = convolve32(&img32, &old, &new, dx, None).unwrap();

    for (a, b) in values64(&r64.image).iter().zip(values32(&r32.image).iter()) {
        assert!((*a - *b as f64).abs() < 1e-4, "f32/f64 mismatch: {a} vs {b}");
    }
}

#[test]
fn test_convolve_uv_propagates_nans() {
    let (n, dx) = (48usize, 2.5 / 3600.0);
    let old = arcsec(6.0, 6.0, 0.0);
    let new = arcsec(12.0, 12.0, 0.0);

    // Blank a solid block in one corner, several kernel-widths across.
    let img = plane32(n, n, |i, j| if i < 12 && j < 12 { f32::NAN } else { 1.0 });

    let res = convolve32(&img, &old, &new, dx, None).unwrap();
    // The interior of the blanked block stays NaN…
    assert!(at32(&res.image, 3, 3).is_nan(), "block interior should stay NaN");
    // …while a pixel far from the block stays finite.
    assert!(at32(&res.image, n - 1, n - 1).is_finite());
}

#[test]
fn test_with_plans_matches_per_call() {
    let (n, dx) = (32usize, 2.5 / 3600.0);
    let old = arcsec(6.0, 6.0, 0.0);
    let new = arcsec(11.0, 9.0, 15.0);
    let img = plane32(n, n, |i, j| (i + 2 * j) as f32);

    let per_call = convolve32(&img, &old, &new, dx, None).unwrap();

    let plans = FftPlans::new(n, n, Transforms::<f32>::new(n, n));
    let reused = convolve_uv_with_plans(
        &Formulas,
        &img,
        &old,
        &new,
        double(dx),
        double(dx),
        None,
        &plans,
    )
    .unwrap();

    for (a, b) in per_call.image.data.iter().zip(reused.image.data.iter()) {
        assert_eq!(a.to_bits(), b.to_bits(), "plan reuse changed output");
    }
}

#[test]
fn convolution_documented_example() {
    let old = arcsec(10.0, 10.0, 0.0);
    let new = arcsec(20.0, 20.0, 0.0);
    let image = plane32(64, 64, |_, _| 1.0);
    let result = convolve32(&image, &old, &new, 2.5 / 3600.0, None).unwrap();
    // √(Ω_new/Ω_old) = √4 = 2 for a doubling of both axes.
    assert!((float(result.scaling_factor) - 2.0).abs() < 1e-9);
    assert_eq!(result.image.dim(), (64, 64));
}

#[test]
fn beam_above_the_cutoff_is_refused() {
    let old = arcsec(10.0, 8.0, 0.0);
    let new = arcsec(20.0, 20.0, 0.0);
    let image = plane32(8, 8, |_, _| 1.0);
    assert!(matches!(
        convolve32(&image, &old, &new, 2.5 / 3600.0, Some(9.0)),
        Err(ConvolveError::AboveCutoff)
    ));
    assert!(convolve32(&image, &old, &new, 2.5 / 3600.0, Some(10.5)).is_ok());
}

#[test]
fn all_nan_image_comes_back_with_the_ratio_of_the_beams() {
    let old = arcsec(10.0, 10.0, 0.0);
    let new = arcsec(30.0, 20.0, 0.0);
    let image = plane32(8, 8, |_, _| f32::NAN);
    let res = convolve32(&image, &old, &new, 2.5 / 3600.0, None).unwrap();
    assert!(values32(&res.image).iter().all(|v| v.is_nan()));
    // √(Ω_new/Ω_old) = √6, as for any other image.
    assert!((float(res.scaling_factor) - 6.0_f64.sqrt()).abs() < 1e-12);
    let flat = plane32(8, 8, |_, _| 1.0);
    let other = convolve32(&flat, &old, &new, 2.5 / 3600.0, None).unwrap();
    assert!((float(res.scaling_factor) - float(other.scaling_factor)).abs() < 1e-12);
}

#[test]
fn blob_is_round_on_the_sky_where_pixels_are_not_square() {
    let old = arcsec(10.0, 10.0, 0.0);
    let new = arcsec(24.0, 24.0, 0.0);
    let (rows, cols) = (96usize, 128usize);
    let (dx, dy) = (2.0 / 3600.0, 3.0 / 3600.0);
    let image = plane64(rows, cols, |i, j| if (i, j) == (48, 64) { 1.0 } else { 0.0 });
    let kernel = Transforms::<f64>::new(rows, cols);
    let res =
        convolve_uv(&Formulas, &image, &old, &new, double(dx), double(dy), None, kernel).unwrap();
    let v = values64(&res.image);
    let mut sum = 0.0;
    let mut across_rows = 0.0;
    let mut across_cols = 0.0;
    for i in 0..rows {
        for j in 0..cols {
            let w = v[i * cols + j];
            sum += w;
            across_rows += w * (i as f64 - 48.0).powi(2);
            across_cols += w * (j as f64 - 64.0).powi(2);
        }
    }
    let height = (across_rows / sum).sqrt() * dy * 3600.0;
    let width = (across_cols / sum).sqrt() * dx * 3600.0;
    assert!((height - width).abs() < 1e-3 * width, "{height} vs {width}");
    // The width of the kernel that takes 10" to 24".
    let sigma = (24.0_f64.powi(2) - 10.0_f64.powi(2)).sqrt() / (8.0 * 2.0_f64.ln()).sqrt();
    assert!((width - sigma).abs() < 1e-2 * sigma, "{width} vs {sigma}");
}

#[test]
fn filters_compose() {
    let beams = [arcsec(10.0, 8.0, 20.0), arcsec(14.0, 12.0, 50.0), arcsec(22.0, 20.0, 80.0)];
    let u: Vec<Double> = [0.0, 900.0, -1700.0].iter().map(|&x| double(x)).collect();
    let v: Vec<Double> = [0.0, 1100.0].iter().map(|&x| double(x)).collect();
    let filter = |a: usize, b: usize| gaussft(&Formulas, &beams[a], &beams[b], &u, &v);
    let (ab, r_ab) = filter(0, 1);
    let (bc, r_bc) = filter(1, 2);
    let (ac, r_ac) = filter(0, 2);
    let (ba, _) = filter(1, 0);
    let (aa, _) = filter(0, 0);
    assert_eq!(ac.len(), 6);
    assert!((float(r_ac) - float(r_ab) * float(r_bc)).abs() < 1e-12 * float(r_ac));
    let area = |b: &Beam| float(Formulas.area_sr(b));
    assert!((float(r_ab) - (area(&beams[1]) / area(&beams[0])).sqrt()).abs() < 1e-12);
    for q in 0..6 {
        let (x, y, z) = (float(ab[q]), float(bc[q]), float(ac[q]));
        assert!((z - x * y).abs() < 1e-10 * z.abs());
        assert!((x * float(ba[q]) - 1.0).abs() < 1e-10);
        assert!((float(aa[q]) - 1.0).abs() < 1e-10);
    }
}

// ── Smoothing ───────────────────────────────────────────────────────────────

#[test]
fn test_kelvin_skips_flux_scaling() {
    let old = deg(10.0 / 3600.0, 10.0 / 3600.0, 0.0);
    let new = deg(20.0 / 3600.0, 20.0 / 3600.0, 0.0);
    let img = plane32(32, 32, |_, _| 1.0);
    let dx = 2.5 / 3600.0;

    let jy = smooth32(&img, &old, &new, dx, BrightnessUnit::JyPerBeam);
    let k = smooth32(&img, &old, &new, dx, BrightnessUnit::Kelvin);

    // Jy/beam scales flux up (Ω_new/Ω_old = 4); Kelvin leaves it unscaled.
    assert!(at32(&jy, 16, 16) > at32(&k, 16, 16) * 1.5, "Jy/beam should be scaled up");
    // Kelvin output is the pure convolution: a flat image stays ~1.
    assert!(
        (at32(&k, 16, 16) - 1.0).abs() < 1e-3,
        "Kelvin center = {}",
        at32(&k, 16, 16)
    );
    assert!((at32(&jy, 16, 16) - 4.0).abs() < 1e-3);
}

fn gaussian_image(nrow: usize, ncol: usize, bmaj_pix: f64, bmin_pix: f64, pa_deg: f64) -> Plane<Single> {
    let fwhm_to_sigma: f64 = 2.0 * (2.0_f64 * 2.0_f64.ln()).sqrt();
    let sigma_maj = bmaj_pix / fwhm_to_sigma;
    let sigma_min = bmin_pix / fwhm_to_sigma;
    let pa_rad = pa_deg.to_radians();
    let cy = (nrow as f64 - 1.0) / 2.0;
    let cx = (ncol as f64 - 1.0) / 2.0;
    let value = |r: usize, c: usize| {
        let dr = r as f64 - cy;
        let dc = c as f64 - cx;
        let u = dc * pa_rad.sin() + dr * pa_rad.cos();
        let v = dc * pa_rad.cos() - dr * pa_rad.sin();
        (-0.5 * ((u / sigma_maj).powi(2) + (v / sigma_min).powi(2))).exp()
    };
    let mut peak = f64::NEG_INFINITY;
    for r in 0..nrow {
        for c in 0..ncol {
            peak = peak.max(value(r, c));
        }
    }
    plane32(nrow, ncol, |r, c| (value(r, c) / peak) as f32)
}

fn sum(p: &Plane<Single>) -> f64 {
    values32(p).iter().map(|&x| x as f64).sum()
}

#[test]
fn test_smooth_beam_area_ratio() {
    let old = arcsec(OLD_BMAJ, OLD_BMIN, OLD_BPA);
    let target = arcsec(TARGET_BMAJ, TARGET_BMIN, TARGET_BPA);
    let pix_deg = PIX_ARCSEC / 3600.0;

    let image =
        gaussian_image(NROW, NCOL, OLD_BMAJ / PIX_ARCSEC, OLD_BMIN / PIX_ARCSEC, OLD_BPA);
    let smoothed = smooth32(&image, &old, &target, pix_deg, BrightnessUnit::JyPerBeam);

    // Expected: Ω_new / Ω_old = (40*40) / (20*10) = 8
    let expected_ratio = float(Formulas.area_sr(&target)) / float(Formulas.area_sr(&old));
    let actual_ratio = sum(&smoothed) / sum(&image);

    // Allow 1% tolerance (image is truncated, not an infinite Gaussian).
    assert!(
        (actual_ratio - expected_ratio).abs() / expected_ratio < 0.01,
        "sum ratio {actual_ratio:.6} vs expected {expected_ratio:.6}",
    );
}

#[test]
fn test_smooth_nan_propagation() {
    let old = arcsec(OLD_BMAJ, OLD_BMIN, OLD_BPA);
    let target = arcsec(TARGET_BMAJ, TARGET_BMIN, TARGET_BPA);
    let pix_deg = PIX_ARCSEC / 3600.0;

    let whole =
        gaussian_image(NROW, NCOL, OLD_BMAJ / PIX_ARCSEC, OLD_BMIN / PIX_ARCSEC, OLD_BPA);
    // Blank the entire top half of the image.
    let image =
        plane32(NROW, NCOL, |r, c| if r < NROW / 2 { f32::NAN } else { at32(&whole, r, c) });

    let smoothed = smooth32(&image, &old, &target, pix_deg, BrightnessUnit::JyPerBeam);

    // Pixels deep inside the NaN region must be NaN.
    for c in 0..NCOL {
        assert!(
            at32(&smoothed, 10, c).is_nan(),
            "expected NaN at [10,{c}], got {}",
            at32(&smoothed, 10, c),
        );
    }
    // Pixels well into the valid region must be finite.
    for c in 0..NCOL {
        assert!(
            at32(&smoothed, 90, c).is_finite(),
            "expected finite at [90,{c}], got {}",
            at32(&smoothed, 90, c),
        );
    }
}

const CUBE_NCHAN: usize = 5;
const CUBE_NY: usize = 100;
const CUBE_NX: usize = 100;
const CUBE_OLD_BMAJ: f64 = 50.0;
const CUBE_OLD_BMIN: f64 = 10.0;
const CUBE_OLD_BPA: f64 = 0.0;
const CUBE_TARGET_BMAJ: f64 = 60.0;
const CUBE_TARGET_BMIN: f64 = 60.0;
const CUBE_TARGET_BPA: f64 = 0.0;

#[test]
fn test_cube_channel_beam_area_ratio() {
    let old = arcsec(CUBE_OLD_BMAJ, CUBE_OLD_BMIN, CUBE_OLD_BPA);
    let target = arcsec(CUBE_TARGET_BMAJ, CUBE_TARGET_BMIN, CUBE_TARGET_BPA);
    let pix_deg = PIX_ARCSEC / 3600.0;
    let expected_ratio = (float(target.major_deg) * float(target.minor_deg))
        / (float(old.major_deg) * float(old.minor_deg));

    for c in 0..CUBE_NCHAN {
        let image = gaussian_image(
            CUBE_NY,
            CUBE_NX,
            CUBE_OLD_BMAJ / PIX_ARCSEC,
            CUBE_OLD_BMIN / PIX_ARCSEC,
            CUBE_OLD_BPA,
        );
        let smoothed = smooth32(&image, &old, &target, pix_deg, BrightnessUnit::JyPerBeam);
        let ratio = sum(&smoothed) / sum(&image);
        assert!(
            (ratio - expected_ratio).abs() / expected_ratio < 0.02,
            "channel {c}: sum ratio {ratio:.6} vs expected {expected_ratio:.6} (2% tol)",
        );
    }
}

#[test]
fn requests_on_bare_arrays_are_checked() {
    let old = arcsec(10.0, 10.0, 0.0);
    let new = arcsec(20.0, 20.0, 0.0);
    let image = plane32(4, 4, |_, _| 1.0);
    let empty = plane32(4, 4, |_, _| f32::NAN);
    assert_eq!(check_request(&Formulas, &image, &old, &new, None), None);
    assert_eq!(check_request(&Formulas, &image, &old, &old, None), None);
    assert_eq!(check_request(&Formulas, &empty, &old, &new, None), Some(Refusal::AllNaN));
    assert_eq!(check_request(&Formulas, &image, &new, &old, None), Some(Refusal::TargetSmaller));
    assert_eq!(
        check_request(&Formulas, &image, &old, &new, Some(double(17.0))),
        Some(Refusal::KernelAboveCutoff)
    );
    assert_eq!(check_request(&Formulas, &image, &old, &new, Some(double(17.5))), None);
}

// ── Cubes ───────────────────────────────────────────────────────────────────

const NX: usize = 8;
const NY: usize = 8;
const NFREQ: usize = 3;

fn cube_header(nfreq: usize, ny: usize, nx: usize, cdelt: f64, bitpix: i64) -> CubeHeader {
    CubeHeader {
        naxis: Some(3),
        naxis1: Some(nx as i64),
        naxis2: Some(ny as i64),
        naxis3: Some(nfreq as i64),
        naxis4: None,
        cdelt1: Some(double(-cdelt)),
        cdelt2: Some(double(cdelt)),
        crpix3: Some(1),
        bitpix: Some(bitpix),
        bunit: Some(String::from("Jy/beam")),
        casambm: None,
        casambm_text: Some(String::from("T")),
        bmaj: None,
        bmin: None,
        bpa: None,
    }
}

fn columns(bmaj: &[f32], bmin: &[f32], bpa: &[f32]) -> TableRead {
    let held = |v: &[f32]| v.iter().map(|&x| single(x)).collect::<Vec<Single>>();
    TableRead::Columns { bmaj: held(bmaj), bmin: held(bmin), bpa: held(bpa) }
}

fn meta_of(header: &CubeHeader, table: &TableRead) -> CubeMeta {
    read_cube_meta(&Formulas, String::from("in.fits"), header, table, &LogRead::Absent).unwrap()
}

fn plain_cube() -> CubeMeta {
    meta_of(
        &cube_header(NFREQ, NY, NX, 0.001, -32),
        &columns(&[20.0; NFREQ], &[15.0; NFREQ], &[0.0; NFREQ]),
    )
}

fn varied_cube(bitpix: i64) -> CubeMeta {
    let bmaj: Vec<f32> = (0..NFREQ).map(|c| 16.0 + c as f32).collect();
    let bmin: Vec<f32> = (0..NFREQ).map(|c| 12.0 + c as f32).collect();
    let bpa: Vec<f32> = (0..NFREQ).map(|c| c as f32 * 5.0).collect();
    meta_of(&cube_header(NFREQ, NY, NX, 0.0005, bitpix), &columns(&bmaj, &bmin, &bpa))
}

/// The metadata of the output cube that a plan makes of an input cube.
fn written(meta: &CubeMeta, target: &Vec<Option<Beam>>, mode: CubeMode) -> CubeMeta {
    let plan = init_output_cube(&Formulas, target, mode, meta.crpix_freq, meta.nfreq);
    let mut header = cube_header(meta.nfreq, meta.ny, meta.nx, float(meta.dx_deg), meta.bitpix);
    header.casambm = Some(plan.casambm);
    header.casambm_text = None;
    for (key, value) in &plan.cards {
        match *key {
            "BMAJ" => header.bmaj = Some(*value),
            "BMIN" => header.bmin = Some(*value),
            "BPA" => header.bpa = Some(*value),
            other => panic!("unexpected card {other}"),
        }
    }
    let table = match plan.beams {
        Some(t) => TableRead::Columns { bmaj: t.bmaj, bmin: t.bmin, bpa: t.bpa },
        None => TableRead::Missing,
    };
    meta_of(&header, &table)
}

/// A cube's data with `plane` written to each channel's range, last channel first.
fn stored(meta: &CubeMeta, plane: impl Fn(usize) -> Plane<Single>) -> Vec<Single> {
    let mut data = vec![single(0.0); meta.nfreq * meta.ny * meta.nx];
    for c in (0..meta.nfreq).rev() {
        let (start, end) = meta.channel_range(c);
        data[start..end].copy_from_slice(&plane(c).data);
    }
    data
}

fn channel(meta: &CubeMeta, data: &[Single], c: usize) -> Plane<Single> {
    let (start, end) = meta.channel_range(c);
    read_channel_as(meta, data[start..end].to_vec()).unwrap()
}

#[test]
fn total_mode_write_channel_roundtrip() {
    let meta = plain_cube();
    assert_eq!(meta.nfreq, NFREQ);
    assert_eq!((meta.ny, meta.nx), (NY, NX));

    let target = vec![Some(arcsec(25.0, 20.0, 0.0)); NFREQ];
    let out_meta = written(&meta, &target, CubeMode::Total);
    assert_eq!((out_meta.nfreq, out_meta.ny, out_meta.nx), (NFREQ, NY, NX));
    assert!(!out_meta.is_4d);

    // Write each channel a distinct constant, then read it back.
    let data = stored(&meta, |c| plane32(NY, NX, |_, _| c as f32 + 0.5));
    for c in 0..NFREQ {
        let plane = channel(&out_meta, &data, c);
        assert!(values32(&plane).iter().all(|&v| (v - (c as f32 + 0.5)).abs() < 1e-6));
    }
}

#[test]
fn masked_target_beam_round_trips_as_none() {
    let meta = plain_cube();
    // Channel 1 is masked; channels 0 and 2 are valid.
    let target: Vec<Option<Beam>> =
        (0..NFREQ).map(|c| if c != 1 { Some(arcsec(25.0, 20.0, 0.0)) } else { None }).collect();
    let out_meta = written(&meta, &target, CubeMode::Natural);
    assert!(
        out_meta.beams[1].is_none(),
        "masked channel must read back as None, got {:?}",
        out_meta.beams[1]
    );
    assert!(out_meta.beams[0].is_some());
    assert!(out_meta.beams[2].is_some());
}

#[test]
fn natural_mode_write_channel_and_beams() {
    let meta = plain_cube();
    let target: Vec<Option<Beam>> =
        (0..NFREQ).map(|c| Some(arcsec(25.0 + c as f64, 20.0, 0.0))).collect();
    let out_meta = written(&meta, &target, CubeMode::Natural);
    for c in 0..NFREQ {
        let b = out_meta.beams[c].expect("channel beam present");
        assert!((major_as(&b) - (25.0 + c as f64)).abs() < 1e-3);
    }
}

#[test]
fn casambm_is_logical_not_string() {
    let meta = plain_cube();
    let target = vec![Some(arcsec(25.0, 20.0, 0.0)); NFREQ];

    // Total mode → CASAMBM = F, no extension.
    let total = init_output_cube(&Formulas, &target, CubeMode::Total, 1, meta.nfreq);
    let v: bool = total.casambm;
    assert!(!v, "total mode CASAMBM should be F");
    assert!(total.beams.is_none());

    // Natural mode → CASAMBM = T and a BEAMS table with column units.
    let natural = init_output_cube(&Formulas, &target, CubeMode::Natural, 1, meta.nfreq);
    let v: bool = natural.casambm;
    assert!(v, "natural mode CASAMBM should be T");
    let table = natural.beams.unwrap();
    assert_eq!(
        table.units,
        vec![("TUNIT1", "arcsec"), ("TUNIT2", "arcsec"), ("TUNIT3", "deg")]
    );
    assert_eq!(table.counts, vec![("NCHAN", 3), ("NPOL", 1)]);
    assert_eq!(table.chan, vec![0, 1, 2]);
    assert_eq!(table.pol, vec![0, 0, 0]);
    assert_eq!(table.bmaj, vec![single(25.0); 3]);
}

#[test]
fn f64_cube_detects_dtype_and_roundtrips() {
    let meta = varied_cube(-64);
    assert_eq!(meta.dtype, PixelType::F64, "BITPIX -64 should map to F64");

    let target = vec![Some(arcsec(25.0, 20.0, 0.0)); NFREQ];
    let out_meta = written(&meta, &target, CubeMode::Total);
    assert_eq!(out_meta.dtype, PixelType::F64, "output kept BITPIX -64");

    // 1 + 1e-10 is not representable in f32, so an f32 round-trip would lose it.
    let val = 1.0 + 1e-10_f64;
    for c in 0..NFREQ {
        let plane = plane64(NY, NX, |_, _| val);
        let bytes = plane_to_be_bytes(&plane);
        let back: Vec<Double> = bytes
            .chunks(8)
            .map(|b| {
                let mut word = [0u8; 8];
                word.copy_from_slice(b);
                double(f64::from_be_bytes(word))
            })
            .collect();
        let plane = read_channel_as(&out_meta, back).unwrap();
        assert!(
            values64(&plane).iter().all(|&v| v == val),
            "f64 channel {c} did not round-trip exactly"
        );
    }
}

#[test]
fn streaming_writer_matches_init_output_cube() {
    for mode in [CubeMode::Total, CubeMode::Natural] {
        let meta = plain_cube();
        // Distinct per-channel target beams so the BEAMS table is non-trivial.
        let target: Vec<Option<Beam>> =
            (0..NFREQ).map(|c| Some(arcsec(25.0 + c as f64, 20.0, 5.0))).collect();
        let sm = written(&meta, &target, mode);
        let plane = |c: usize| plane32(NY, NX, |_, _| c as f32 + 0.5);
        let streamed = stored(&meta, plane);
        for c in 0..NFREQ {
            // Each channel has its own beam in the table, or all that of the header,
            // which is the reference channel's.
            let expected = match mode {
                CubeMode::Natural => target[c].unwrap(),
                CubeMode::Total => arcsec(25.0, 20.0, 5.0),
            };
            let b = sm.beams[c].expect("channel beam present");
            assert!((major_as(&b) - major_as(&expected)).abs() < 1e-5, "channel {c} beam differs");
            assert!((minor_as(&b) - 20.0).abs() < 1e-5, "channel {c} beam differs");
            assert!((float(b.pa_deg) - 5.0).abs() < 1e-5, "channel {c} beam differs");
            assert_eq!(
                channel(&sm, &streamed, c).data,
                plane(c).data,
                "channel {c} pixels differ"
            );
        }
    }
}

#[test]
fn test_cube_io_roundtrip() {
    let (nchan, ny, nx) = (3usize, 20usize, 20usize);
    let beam = arcsec(CUBE_OLD_BMAJ, CUBE_OLD_BMIN, CUBE_OLD_BPA);
    let mut header = cube_header(nchan, ny, nx, PIX_ARCSEC / 3600.0, -32);
    header.naxis = Some(4);
    header.naxis4 = Some(1);
    let table = columns(
        &vec![major_as(&beam) as f32; nchan],
        &vec![minor_as(&beam) as f32; nchan],
        &vec![0.0; nchan],
    );
    let meta = meta_of(&header, &table);
    assert_eq!(meta.nfreq, nchan);
    assert_eq!(meta.ny, ny);
    assert_eq!(meta.nx, nx);
    assert!(meta.is_4d);

    // Each channel gets a distinct uniform value so we can tell them apart.
    let data = stored(&meta, |c| plane32(ny, nx, |_, _| (c as f32 + 1.0) * 10.0));
    for c in 0..nchan {
        let expected = (c as f32 + 1.0) * 10.0;
        for v in values32(&channel(&meta, &data, c)) {
            assert!((v - expected).abs() < 1e-4, "channel {c}: expected {expected}, got {v}");
        }
    }
}

#[test]
fn test_cube_casambm_beams_roundtrip() {
    let nchan = 4usize;
    let beams_in: Vec<Beam> =
        (0..nchan).map(|c| arcsec(20.0 + c as f64 * 5.0, 10.0, 0.0)).collect();
    let table = columns(
        &beams_in.iter().map(|b| major_as(b) as f32).collect::<Vec<f32>>(),
        &beams_in.iter().map(|b| minor_as(b) as f32).collect::<Vec<f32>>(),
        &beams_in.iter().map(|b| float(b.pa_deg) as f32).collect::<Vec<f32>>(),
    );
    let meta = meta_of(&cube_header(nchan, 10, 10, PIX_ARCSEC / 3600.0, -32), &table);
    assert_eq!(meta.beams.len(), nchan);

    for (c, (expected, actual)) in beams_in.iter().zip(meta.beams.iter()).enumerate() {
        let actual = actual.unwrap_or_else(|| panic!("channel {c} beam is None"));
        let tol_as = 0.1;
        assert!(
            (major_as(&actual) - major_as(expected)).abs() < tol_as,
            "channel {c}: BMAJ {:.3}\" vs {:.3}\"",
            major_as(&actual),
            major_as(expected),
        );
        assert!(
            (minor_as(&actual) - minor_as(expected)).abs() < tol_as,
            "channel {c}: BMIN {:.3}\" vs {:.3}\"",
            minor_as(&actual),
            minor_as(expected),
        );
    }
}

// ── Runs over cubes ─────────────────────────────────────────────────────────

fn settings() -> FitSettings {
    FitSettings {
        tolerance: double(1e-4),
        nsamps: 200,
        epsilon: double(5e-4),
        circularise: false,
    }
}

fn point_source(meta: &CubeMeta) -> Plane<Single> {
    plane32(meta.ny, meta.nx, |i, j| if (i, j) == (NY / 2, NX / 2) { 1.0 } else { 0.0 })
}

/// One channel through the pipeline.
fn run_channel(meta: &CubeMeta, targets: &[Option<Beam>], c: usize) -> Plane<Single> {
    let plans = FftPlans::new(meta.ny, meta.nx, Transforms::<f32>::new(meta.ny, meta.nx));
    match plan_channel(&Formulas, meta.beams[c], targets[c], None) {
        ChannelPlan::Smooth { old, target, .. } => {
            convolve_channel(&Formulas, &point_source(meta), &old, &target, meta, None, &plans)
                .unwrap()
        }
        _ => blank_channel(meta),
    }
}

#[test]
fn cli_total_mode_smooths_cube() {
    let metas = vec![varied_cube(-32)];
    assert_eq!(check_cubes(&metas), None);
    let targets =
        cube_target_beams(&Formulas, &metas, None, CubeMode::Total, None, &settings()).unwrap();
    let meta = &metas[0];
    let out_meta = written(meta, &targets, CubeMode::Total);
    assert_eq!(out_meta.nfreq, NFREQ);
    let common = out_meta.beams[0].expect("common beam");
    assert!(major_as(&common) >= 16.0 + (NFREQ as f64 - 1.0));

    for c in 0..NFREQ {
        let plane = values32(&run_channel(meta, &targets, c));
        assert!(plane.iter().all(|v| v.is_finite()), "channel {c} has non-finite pixels");
        let peak = plane.iter().cloned().fold(f32::MIN, f32::max);
        assert!(peak > 0.0, "channel {c} is empty (peak {peak})");
    }

    // The beamlog stands alongside the output, with one row per channel.
    let out = output_path("dir/in.fits", Some("sm"), None, None);
    assert_eq!(out, "dir/in.sm.fits");
    assert_eq!(beamlog_path_for(&out), "dir/beamlog.in.sm.txt");
    let log = write_beamlog(&Formulas, &targets);
    assert_eq!(read_beamlog(&Formulas, &log).unwrap().len(), NFREQ);
}

#[test]
fn cli_natural_mode_smooths_cube() {
    let metas = vec![varied_cube(-32)];
    let targets =
        cube_target_beams(&Formulas, &metas, None, CubeMode::Natural, None, &settings()).unwrap();
    let out_meta = written(&metas[0], &targets, CubeMode::Natural);
    // Natural mode keeps the BEAMS extension with one beam per channel.
    assert_eq!(out_meta.beams.iter().filter(|b| b.is_some()).count(), NFREQ);
}

#[test]
fn cli_total_mode_smooths_f64_cube() {
    let metas = vec![varied_cube(-64)];
    let targets =
        cube_target_beams(&Formulas, &metas, None, CubeMode::Total, None, &settings()).unwrap();
    let meta = &metas[0];
    let out_meta = written(meta, &targets, CubeMode::Total);
    assert_eq!(out_meta.dtype, PixelType::F64, "f64 output must stay BITPIX -64");
    assert_eq!(out_meta.nfreq, NFREQ);

    let plans = FftPlans::new(NY, NX, Transforms::<f64>::new(NY, NX));
    for c in 0..NFREQ {
        let raw = plane64(NY, NX, |i, j| if (i, j) == (NY / 2, NX / 2) { 1.0 } else { 0.0 });
        let plane = match plan_channel(&Formulas, meta.beams[c], targets[c], None) {
            ChannelPlan::Smooth { old, target, .. } => {
                convolve_channel(&Formulas, &raw, &old, &target, meta, None, &plans).unwrap()
            }
            _ => blank_channel(meta),
        };
        let plane = values64(&plane);
        assert!(plane.iter().all(|v| v.is_finite()), "channel {c} has non-finite pixels");
        let peak = plane.iter().cloned().fold(f64::MIN, f64::max);
        assert!(peak > 0.0, "channel {c} is empty (peak {peak})");
    }
}

#[test]
fn cli_masked_channel_is_blanked_not_infinite() {
    // Channel 1 masked (BMAJ = 0); channels 0 and 2 are valid.
    let metas = vec![meta_of(
        &cube_header(NFREQ, NY, NX, 0.0005, -32),
        &columns(&[16.0, 0.0, 18.0], &[12.0, 0.0, 14.0], &[0.0, 0.0, 10.0]),
    )];
    let targets =
        cube_target_beams(&Formulas, &metas, None, CubeMode::Total, None, &settings()).unwrap();
    let masked = values32(&run_channel(&metas[0], &targets, 1));
    assert!(
        masked.iter().all(|v| v.is_nan()),
        "masked channel should be all-NaN, got finite/zero pixels"
    );
    for c in [0, 2] {
        let plane = values32(&run_channel(&metas[0], &targets, c));
        assert!(plane.iter().all(|v| v.is_finite()), "channel {c} has non-finite pixels");
        assert!(
            plane.iter().cloned().fold(f32::MIN, f32::max) > 0.0,
            "channel {c} is empty"
        );
    }
}

#[test]
fn cli_multi_stokes_cube_is_rejected() {
    let mut header = cube_header(NFREQ, NY, NX, 0.0005, -32);
    header.naxis = Some(4);
    header.naxis4 = Some(2);
    header.casambm_text = None;
    header.bmaj = Some(double(0.005));
    header.bmin = Some(double(0.004));
    header.bpa = Some(double(0.0));
    let meta = meta_of(&header, &TableRead::Missing);
    assert_eq!(meta.beams, vec![Some(deg(0.005, 0.004, 0.0)); NFREQ]);
    assert_eq!(
        check_cubes(&vec![meta]),
        Some(CubeFault::Stokes { cube: 0, nstokes: 2 })
    );
}

#[test]
fn channels_are_planned_by_their_beams() {
    let old = arcsec(10.0, 8.0, 0.0);
    let new = arcsec(20.0, 20.0, 0.0);
    let kernel = new.deconvolve(&Formulas, &old).unwrap();
    let zero = Some(Beam::zero());
    assert_eq!(plan_channel(&Formulas, None, Some(new), None), ChannelPlan::Blank);
    assert_eq!(plan_channel(&Formulas, zero, Some(new), None), ChannelPlan::Blank);
    assert_eq!(plan_channel(&Formulas, Some(old), None, None), ChannelPlan::Blank);
    assert_eq!(plan_channel(&Formulas, Some(old), zero, None), ChannelPlan::Blank);
    assert_eq!(
        plan_channel(&Formulas, Some(old), Some(new), None),
        ChannelPlan::Smooth { old, target: new, kernel }
    );
    assert_eq!(
        plan_channel(&Formulas, Some(old), Some(new), Some(double(9.0))),
        ChannelPlan::AboveCutoff { old, target: new, kernel }
    );
}

#[test]
fn cubes_must_agree_on_their_channels() {
    let other = meta_of(
        &cube_header(2, NY, NX, 0.001, -32),
        &columns(&[20.0; 2], &[15.0; 2], &[0.0; 2]),
    );
    assert_eq!(
        check_cubes(&vec![plain_cube(), plain_cube(), other]),
        Some(CubeFault::Channels { cube: 2, expected: 3, got: 2 })
    );
}

#[test]
fn cube_header_faults_come_in_reading_order() {
    let table = TableRead::Missing;
    let read = |h: &CubeHeader, t: &TableRead, l: &LogRead| {
        read_cube_meta(&Formulas, String::from("c.fits"), h, t, l).map(|m| m.beams)
    };
    let mut h = cube_header(NFREQ, NY, NX, 0.001, -32);
    h.naxis = Some(2);
    assert_eq!(read(&h, &table, &LogRead::Absent), Err(CubeError::UnsupportedNaxis(2)));
    h.naxis = None;
    assert_eq!(
        read(&h, &table, &LogRead::Absent),
        Err(CubeError::Unreadable(CubeItem::Naxis))
    );
    h.naxis = Some(4);
    assert_eq!(
        read(&h, &table, &LogRead::Absent),
        Err(CubeError::Unreadable(CubeItem::Naxis4))
    );
    h.naxis = Some(3);
    h.cdelt2 = None;
    assert_eq!(
        read(&h, &table, &LogRead::Absent),
        Err(CubeError::Unreadable(CubeItem::Cdelt2))
    );
    h.cdelt2 = Some(double(0.001));
    assert_eq!(read(&h, &table, &LogRead::Absent), Err(CubeError::MissingBeamsTable));
    assert_eq!(
        read(&h, &columns(&[1.0], &[1.0], &[1.0]), &LogRead::Absent),
        Err(CubeError::BeamCountMismatch { expected: 3, got: 1 })
    );
    assert_eq!(
        read(&h, &TableRead::Unreadable(BeamColumn::Minor), &LogRead::Absent),
        Err(CubeError::Unreadable(CubeItem::Column(BeamColumn::Minor)))
    );
    // Without the table, the beamlog comes before the header beam.
    h.casambm = Some(false);
    assert_eq!(read(&h, &table, &LogRead::Absent), Err(CubeError::NoBeans));
    assert_eq!(
        read(&h, &table, &LogRead::Unreadable),
        Err(CubeError::Unreadable(CubeItem::Beamlog))
    );
    let log = String::from("0 20 10 10\n1 nan nan nan\n2 21 10.5 10\n");
    assert_eq!(
        read(&h, &table, &LogRead::Text(log)),
        Ok(vec![Some(arcsec(20.0, 10.0, 10.0)), None, Some(arcsec(21.0, 10.5, 10.0))])
    );
    assert_eq!(
        read(&h, &table, &LogRead::Text(String::from("0 20 10 10\n"))),
        Err(CubeError::BeamCountMismatch { expected: 3, got: 1 })
    );
    h.bmaj = Some(double(0.004));
    h.bmin = Some(double(0.005));
    assert_eq!(
        read(&h, &table, &LogRead::Absent),
        Err(CubeError::Beam(BeamError::InvalidAxes { major: double(0.004), minor: double(0.005) }))
    );
    h.bmin = None;
    assert_eq!(read(&h, &table, &LogRead::Absent), Ok(vec![Some(deg(0.004, 0.004, 0.0)); 3]));
}

#[test]
fn casambm_is_read_as_logical_or_text() {
    let mut h = cube_header(1, 1, 1, 0.001, -32);
    assert!(has_beam_table(&h));
    h.casambm_text = Some(String::from(" TRUE "));
    assert!(has_beam_table(&h));
    h.casambm_text = Some(String::from("true"));
    assert!(!has_beam_table(&h));
    h.casambm = Some(true);
    assert!(has_beam_table(&h));
    h.casambm = Some(false);
    h.casambm_text = Some(String::from("T"));
    assert!(!has_beam_table(&h));
}

#[test]
fn reference_beam_is_clamped_to_the_channels() {
    let a = arcsec(10.0, 10.0, 0.0);
    let b = arcsec(20.0, 20.0, 0.0);
    let targets = vec![Some(a), None, Some(b)];
    assert_eq!(ref_beam_for(&targets, 1, 3), a);
    assert_eq!(ref_beam_for(&targets, 3, 3), b);
    assert_eq!(ref_beam_for(&targets, 99, 3), b);
    assert_eq!(ref_beam_for(&targets, 0, 3), a);
    assert_eq!(ref_beam_for(&targets, -5, 3), a);
    // A masked reference channel falls back to the first valid beam.
    assert_eq!(ref_beam_for(&targets, 2, 3), a);
    assert_eq!(ref_beam_for(&vec![None, None], 1, 2), Beam::zero());
}

// ── Target beams ────────────────────────────────────────────────────────────

#[test]
fn target_beam_needs_all_three_numbers() {
    let x = Some(double(20.0));
    let y = Some(double(10.0));
    let z = Some(double(5.0));
    assert_eq!(parse_target_beam(&Formulas, None, None, None), Ok(None));
    assert_eq!(parse_target_beam(&Formulas, x, y, z), Ok(Some(arcsec(20.0, 10.0, 5.0))));
    assert_eq!(parse_target_beam(&Formulas, x, y, None), Err(TargetError::Incomplete));
    assert_eq!(parse_target_beam(&Formulas, None, None, z), Err(TargetError::Incomplete));
    assert!(matches!(
        parse_target_beam(&Formulas, y, x, z),
        Err(TargetError::InvalidTarget(BeamError::InvalidAxes { .. }))
    ));
}

#[test]
fn common_beams_are_rounded_up() {
    let b = apply_beam_rounding(&Formulas, &arcsec(10.01, 8.0, 30.001), false).unwrap();
    assert!((major_as(&b) - 10.1).abs() < 1e-9);
    assert!((minor_as(&b) - 8.0).abs() < 1e-9);
    assert!((float(b.pa_deg) - 30.01).abs() < 1e-12);
    let round = apply_beam_rounding(&Formulas, &arcsec(10.01, 8.0, 30.001), true).unwrap();
    assert!((major_as(&round) - 10.1).abs() < 1e-9);
    assert_eq!(round.major_deg, round.minor_deg);
    assert_eq!(float(round.pa_deg), 0.0);
    let huge = Beam { major_deg: double(f64::MAX), minor_deg: double(1.0), pa_deg: double(0.0) };
    assert_eq!(
        apply_beam_rounding(&Formulas, &huge, false),
        Err(TargetError::Rounding(BeamError::NotFinite))
    );
}

#[test]
fn image_targets() {
    let beams = vec![arcsec(10.0, 8.0, 30.0), arcsec(12.0, 6.0, 60.0)];
    let none = image_target_beam(&Formulas, &beams, None, None, &settings()).unwrap();
    assert!(fits_in_beam(&Formulas, &beams, &none));
    assert_eq!(
        image_target_beam(&Formulas, &beams, Some(arcsec(9.0, 9.0, 0.0)), None, &settings()),
        Err(TargetError::TooSmall)
    );
    let given =
        image_target_beam(&Formulas, &beams, Some(arcsec(20.04, 20.0, 0.0)), None, &settings())
            .unwrap();
    assert!((major_as(&given) - 20.1).abs() < 1e-9);
    assert_eq!(
        image_target_beam(&Formulas, &beams, None, Some(double(5.0)), &settings()),
        Err(TargetError::NoValidBeams)
    );
    // The cutoff leaves the larger beam out.
    let only =
        image_target_beam(&Formulas, &beams, None, Some(double(11.0)), &settings()).unwrap();
    assert!((major_as(&only) - 10.0).abs() < 0.11);
}

#[test]
fn natural_targets_skip_masked_channels() {
    let metas = vec![meta_of(
        &cube_header(NFREQ, NY, NX, 0.0005, -32),
        &columns(&[16.0, 0.0, 18.0], &[12.0, 0.0, 14.0], &[0.0, 0.0, 10.0]),
    )];
    let targets =
        compute_target_beams(&Formulas, &metas, CubeMode::Natural, None, &settings()).unwrap();
    assert_eq!(targets.len(), 3);
    assert!(targets[0].is_some() && targets[1].is_none() && targets[2].is_some());
    assert!(matches!(
        target_report(&Formulas, &targets),
        TargetReport::Varies { valid: 2, .. }
    ));
    let total =
        compute_target_beams(&Formulas, &metas, CubeMode::Total, None, &settings()).unwrap();
    assert!(total.iter().all(|b| *b == total[0] && b.is_some()));
    assert_eq!(target_report(&Formulas, &total), TargetReport::Shared(total[0].unwrap()));
    assert_eq!(
        compute_target_beams(&Formulas, &metas, CubeMode::Total, Some(double(1.0)), &settings()),
        Err(TargetError::NoValidBeams)
    );
    assert_eq!(target_report(&Formulas, &vec![None, None]), TargetReport::Nothing);
    // An explicit target must be reachable from every channel.
    assert_eq!(
        cube_target_beams(
            &Formulas,
            &metas,
            Some(arcsec(17.0, 17.0, 0.0)),
            CubeMode::Total,
            None,
            &settings()
        ),
        Err(TargetError::TooSmall)
    );
    assert_eq!(
        cube_target_beams(
            &Formulas,
            &metas,
            Some(arcsec(30.0, 30.0, 0.0)),
            CubeMode::Natural,
            None,
            &settings()
        ),
        Ok(vec![Some(arcsec(30.0, 30.0, 0.0)); 3])
    );
}

#[test]
fn given_target_of_cubes_is_circular_where_asked_for() {
    let metas = vec![meta_of(
        &cube_header(NFREQ, NY, NX, 0.0005, -32),
        &columns(&[16.0, 0.0, 18.0], &[12.0, 0.0, 14.0], &[0.0, 0.0, 10.0]),
    )];
    let given = Some(arcsec(30.04, 25.0, 40.0));
    let mut fit = settings();
    let plain =
        cube_target_beams(&Formulas, &metas, given, CubeMode::Total, None, &fit).unwrap();
    assert_eq!(plain, vec![given; 3]);
    fit.circularise = true;
    for mode in [CubeMode::Total, CubeMode::Natural] {
        let round = cube_target_beams(&Formulas, &metas, given, mode, None, &fit).unwrap();
        assert_eq!(round.len(), 3);
        for b in round.iter().map(|b| b.unwrap()) {
            assert_eq!(b.minor_deg, b.major_deg);
            assert_eq!(float(b.pa_deg), 0.0);
            assert!((major_as(&b) - 30.04).abs() < 1e-9);
        }
        let own = cube_target_beams(&Formulas, &metas, None, mode, None, &fit).unwrap();
        for b in own.iter().flatten() {
            assert_eq!(b.minor_deg, b.major_deg);
            assert_eq!(float(b.pa_deg), 0.0);
        }
    }
    // What a channel must reach is the target as given.
    assert_eq!(
        cube_target_beams(
            &Formulas,
            &metas,
            Some(arcsec(30.0, 10.0, 0.0)),
            CubeMode::Total,
            None,
            &fit
        ),
        Err(TargetError::TooSmall)
    );
}

#[test]
fn failing_fit_names_its_channel() {
    let metas = vec![
        meta_of(
            &cube_header(1, NY, NX, 0.001, -32),
            &columns(&[10.0], &[8.0], &[30.0]),
        ),
        meta_of(
            &cube_header(1, NY, NX, 0.001, -32),
            &columns(&[12.0], &[6.0], &[60.0]),
        ),
        meta_of(
            &cube_header(1, NY, NX, 0.001, -32),
            &columns(&[12.0], &[6.0], &[-20.0]),
        ),
    ];
    let mut fit = settings();
    fit.nsamps = 0;
    assert_eq!(
        compute_target_beams(&Formulas, &metas, CubeMode::Natural, None, &fit),
        Err(TargetError::NoCommonBeam {
            channel: Some(0),
            error: CommonBeamError::DeconvFailed(FitFailure::Singular3x3)
        })
    );
}

// ── Beamlogs ────────────────────────────────────────────────────────────────

#[test]
fn beamlog_round_trip() {
    let beams = vec![Some(arcsec(20.0, 10.0, 10.0)), None, Some(arcsec(21.0, 10.5, -10.0))];
    let text = write_beamlog(&Formulas, &beams);
    assert_eq!(
        text,
        "# Channel BMAJ[arcsec] BMIN[arcsec] BPA[deg]\n0 20 10 10\n1 nan nan nan\n2 21 10.5 -10\n"
    );
    let back = read_beamlog(&Formulas, &text).unwrap();
    assert_eq!(back, vec![arcsec(20.0, 10.0, 10.0), Beam::zero(), arcsec(21.0, 10.5, -10.0)]);
}

#[test]
fn beamlog_documented_format() {
    let text = "# Channel BMAJ[arcsec] BMIN[arcsec] BPA[deg]\r\n\n0  20.0  10.0  10.0\n  1\t21.0 10.5 10.0 extra\n2 0 0 0";
    assert_eq!(
        read_beamlog(&Formulas, text).unwrap(),
        vec![arcsec(20.0, 10.0, 10.0), arcsec(21.0, 10.5, 10.0), Beam::zero()]
    );
    assert_eq!(read_beamlog(&Formulas, "").unwrap(), vec![]);
}

#[test]
fn beamlog_rows_come_in_channel_order() {
    let text =
        "# Channel BMAJ[arcsec] BMIN[arcsec] BPA[deg]\n1 21.0 10.5 10.0\n0 20.0 10.0 10.0\n";
    assert_eq!(
        read_beamlog(&Formulas, text).unwrap(),
        vec![arcsec(20.0, 10.0, 10.0), arcsec(21.0, 10.5, 10.0)]
    );
    // Numbers count, not digits; rows of one channel stay as they stand.
    let text = "10 30 10 0\n9 29 10 0\n+2 22 10 0\n9 28 10 0\n";
    assert_eq!(
        read_beamlog(&Formulas, text).unwrap(),
        vec![
            arcsec(22.0, 10.0, 0.0),
            arcsec(29.0, 10.0, 0.0),
            arcsec(28.0, 10.0, 0.0),
            arcsec(30.0, 10.0, 0.0)
        ]
    );
    // Without a number for every row, the rows stand in channel order already.
    assert_eq!(
        read_beamlog(&Formulas, "b 21 10 0\n0 20 10 0\n").unwrap(),
        vec![arcsec(21.0, 10.0, 0.0), arcsec(20.0, 10.0, 0.0)]
    );
}

#[test]
fn beamlog_errors_name_their_line() {
    assert_eq!(
        read_beamlog(&Formulas, "# head\n0 20 10\n1 x y z\n"),
        Err(BeamlogError::Fields { line: 2, got: 3 })
    );
    let text = "0 20 10 10\n1 20 ten 10\n";
    assert_eq!(
        read_beamlog(&Formulas, text),
        Err(BeamlogError::Number { line: 2, column: BeamColumn::Minor })
    );
    assert_eq!(beamlog_word(text, 2, BeamColumn::Minor), Some(String::from("ten")));
    assert_eq!(beamlog_word(text, 3, BeamColumn::Minor), None);
    assert_eq!(
        read_beamlog(&Formulas, "0 wide 10 10\n"),
        Err(BeamlogError::Number { line: 1, column: BeamColumn::Major })
    );
    assert_eq!(
        read_beamlog(&Formulas, "0 20 10 north\n"),
        Err(BeamlogError::Number { line: 1, column: BeamColumn::Angle })
    );
    assert!(matches!(
        read_beamlog(&Formulas, "0 10 20 0\n"),
        Err(BeamlogError::Beam(BeamError::InvalidAxes { .. }))
    ));
}

#[test]
fn image_log_lists_three_beams_per_file() {
    let entry = ImageLogEntry {
        filename: String::from("out/a.sm.fits"),
        old_beam: deg(0.5, 0.25, 10.0),
        new_beam: deg(1.0, 1.0, 0.0),
        conv_beam: Beam::zero(),
    };
    assert_eq!(
        image_log(&Formulas, &vec![entry]),
        "# FileName OldBMAJ[deg] OldBMIN[deg] OldBPA[deg] TargetBMAJ[deg] TargetBMIN[deg] TargetBPA[deg] ConvBMAJ[deg] ConvBMIN[deg] ConvBPA[deg]\nout/a.sm.fits 0.5 0.25 10 1 1 0 0 0 0\n"
    );
}

// ── Images ──────────────────────────────────────────────────────────────────

fn image_header() -> ImageHeader {
    ImageHeader {
        naxis: Some(2),
        naxis1: Some(3),
        naxis2: Some(2),
        cdelt1: Some(double(-0.001)),
        cdelt2: Some(double(0.002)),
        bmaj: Some(double(0.01)),
        bmin: None,
        bpa: None,
        bunit: Some(String::from("K")),
    }
}

fn six() -> Option<Vec<Single>> {
    Some((0..6).map(|x| single(x as f32)).collect())
}

#[test]
fn image_header_defaults() {
    let d = read_fits(String::from("a.fits"), image_header(), six()).unwrap();
    assert_eq!(d.path, "a.fits");
    assert_eq!(d.image.dim(), (2, 3));
    assert_eq!(at32(&d.image, 1, 0), 3.0);
    assert!(!d.is_4d);
    assert_eq!(float(d.dx_deg), 0.001);
    assert_eq!(float(d.dy_deg), 0.002);
    assert_eq!(d.beam, deg(0.01, 0.01, 0.0));
    assert_eq!(d.unit, BrightnessUnit::Kelvin);
    assert!(d.header_cards.is_empty());
}

#[test]
fn image_faults_come_in_reading_order() {
    let fault = |h: ImageHeader, p: Option<Vec<Single>>| {
        read_fits(String::from("a.fits"), h, p).err().unwrap()
    };
    let mut h = image_header();
    h.naxis = None;
    assert_eq!(fault(h, six()), FitsError::Fitsio(FitsItem::Naxis));
    let mut h = image_header();
    h.naxis = Some(3);
    assert_eq!(fault(h, six()), FitsError::UnsupportedNaxis(3));
    assert_eq!(fault(image_header(), None), FitsError::Fitsio(FitsItem::Pixels));
    assert_eq!(fault(image_header(), Some(vec![single(0.0); 5])), FitsError::Shape);
    let mut h = image_header();
    h.naxis1 = Some(-1);
    assert_eq!(fault(h, six()), FitsError::Shape);
    let mut h = image_header();
    h.cdelt1 = None;
    assert_eq!(fault(h, six()), FitsError::Fitsio(FitsItem::Cdelt1));
    let mut h = image_header();
    h.bmaj = None;
    assert_eq!(fault(h, six()), FitsError::MissingKeyword);
    let mut h = image_header();
    h.bmin = Some(double(0.02));
    assert!(matches!(fault(h, six()), FitsError::Beam(BeamError::InvalidAxes { .. })));
}

#[test]
fn beam_cards_read_back() {
    let b = arcsec(12.0, 6.0, 60.0);
    let cards = beam_cards(&b);
    assert_eq!(cards.iter().map(|c| c.0).collect::<Vec<_>>(), vec!["BMAJ", "BMIN", "BPA"]);
    let mut h = image_header();
    h.bmaj = Some(cards[0].1);
    h.bmin = Some(cards[1].1);
    h.bpa = Some(cards[2].1);
    assert_eq!(read_fits(String::from("a.fits"), h, six()).unwrap().beam, b);
}

#[test]
fn printed_numbers_are_words_that_read_back() {
    for x in [0.0, -0.0, 1.0, -2.5, 1e-300, 1e300, 5e-324, 1.0 / 3.0, f64::INFINITY] {
        let word = Formulas.print_number(double(x));
        assert_eq!(word.split_whitespace().count(), 1);
        assert_eq!(Formulas.parse_number(&word), Some(double(x)));
    }
    assert!(float(Formulas.parse_number("nan").unwrap()).is_nan());
}

#[test]
fn masked_channel_of_a_beamlog_stays_blank() {
    let log = write_beamlog(&Formulas, &vec![None]);
    let back = read_beamlog(&Formulas, &log).unwrap();
    let target = Some(arcsec(20.0, 20.0, 0.0));
    assert_eq!(plan_channel(&Formulas, Some(back[0]), target, None), ChannelPlan::Blank);
    let mut header = cube_header(2, NY, NX, 0.001, -32);
    header.casambm = Some(false);
    header.casambm_text = None;
    let meta = read_cube_meta(
        &Formulas,
        String::from("cube.fits"),
        &header,
        &TableRead::Missing,
        &LogRead::Text(String::from("0 0 0 0\n1 20 10 10\n")),
    )
    .unwrap();
    assert_eq!(meta.beams, vec![None, Some(arcsec(20.0, 10.0, 10.0))]);
    assert_eq!(plan_channel(&Formulas, meta.beams[0], target, None), ChannelPlan::Blank);
}

#[test]
fn writing_a_channel_leaves_the_others_alone() {
    let meta = plain_cube();
    let mut data = stored(&meta, |c| plane32(NY, NX, |_, _| c as f32));
    let (start, end) = meta.channel_range(1);
    let fresh = plane32(NY, NX, |i, j| (i * NX + j) as f32);
    data[start..end].copy_from_slice(&fresh.data);
    assert_eq!(channel(&meta, &data, 1).data, fresh.data);
    for c in [0, 2] {
        assert!(values32(&channel(&meta, &data, c)).iter().all(|&v| v == c as f32));
    }
    assert_eq!(read_channel_as(&meta, vec![single(0.0)]).err(), Some(CubeError::Shape));
}

#[test]
fn image_above_the_cutoff_is_blanked() {
    let old = arcsec(10.0, 8.0, 0.0);
    let new = arcsec(20.0, 20.0, 0.0);
    let img = plane32(8, 6, |i, j| (i + j) as f32);
    let dx = 2.5 / 3600.0;
    let run = |cutoff: Option<f64>, unit: BrightnessUnit| {
        smooth_or_blank(
            &Formulas,
            &img,
            &old,
            &new,
            double(dx),
            double(dx),
            cutoff.map(double),
            unit,
            Transforms::<f32>::new(8, 6),
        )
    };
    for unit in [BrightnessUnit::JyPerBeam, BrightnessUnit::Kelvin] {
        let blank = run(Some(9.0), unit);
        assert_eq!(blank.dim(), (8, 6));
        assert!(values32(&blank).iter().all(|v| v.is_nan()));
        let kept = smooth32(&img, &old, &new, dx, unit);
        assert_eq!(run(Some(10.5), unit).data, kept.data);
        assert_eq!(run(None, unit).data, kept.data);
    }
}

#[test]
fn kelvin_and_jansky_differ_by_the_area_ratio() {
    let old = arcsec(10.0, 10.0, 0.0);
    let new = arcsec(30.0, 20.0, 40.0);
    let img = plane32(16, 12, |i, j| ((i * 5 + j) % 7) as f32);
    let dx = 2.5 / 3600.0;
    let jy = smooth32(&img, &old, &new, dx, BrightnessUnit::JyPerBeam);
    let k = smooth32(&img, &old, &new, dx, BrightnessUnit::Kelvin);
    for (a, b) in values32(&jy).iter().zip(values32(&k).iter()) {
        assert!((a - 6.0 * b).abs() < 1e-3 * a.abs().max(1.0));
    }
    // Smoothing to the same beam changes nothing.
    let same = smooth32(&img, &old, &old, dx, BrightnessUnit::Kelvin);
    assert_eq!(same.data, img.data);
}

#[test]
fn computed_nans_have_one_pattern() {
    let zero = double(0.0);
    assert_eq!(double(-f64::NAN), double(f64::NAN));
    assert_eq!(single(-f32::NAN), single(f32::NAN));
    assert_eq!(double(float(zero) / float(zero)).to_bits(), DOUBLE_NAN);
    assert_eq!(Formulas.spread(&Beam::zero()).to_bits(), DOUBLE_NAN);
}

#[test]
fn output_cubes_read_their_beams_back() {
    let meta = plain_cube();
    let target = vec![Some(arcsec(25.5, 20.25, 5.0)), None, Some(arcsec(30.0, 30.0, -40.0))];
    let natural = written(&meta, &target, CubeMode::Natural);
    assert_eq!(natural.beams.len(), 3);
    for (b, t) in natural.beams.iter().zip(target.iter()) {
        assert_eq!(b.is_none(), t.is_none());
        if let (Some(b), Some(t)) = (b, t) {
            assert!((major_as(b) - major_as(t)).abs() < 1e-3);
            assert!((minor_as(b) - minor_as(t)).abs() < 1e-3);
            assert!((float(b.pa_deg) - float(t.pa_deg)).abs() < 1e-3);
        }
    }
    assert_eq!(written(&meta, &target, CubeMode::Total).beams, vec![target[0]; 3]);
}

#[test]
fn constants_are_the_documented_numbers() {
    assert_eq!(ATOL, 1e-10_f64.to_bits());
    assert_eq!(CIRCULAR_RTOL, 1e-6_f64.to_bits());
    assert_eq!(MINUS_EPSILON, (-f64::EPSILON).to_bits());
    assert_eq!(EIGENVALUE_FLOOR, (f64::EPSILON / (2.0 * 3600.0_f64.powi(2))).to_bits());
    assert_eq!(PERPENDICULAR, 1e-9_f64.to_bits());
    assert_eq!(PI_BITS, PI.to_bits());
    assert_eq!(MINUS_PI, (-PI).to_bits());
    assert_eq!(TINY, f64::from(f32::MIN_POSITIVE).to_bits());
    assert_eq!(TINY_SINGLE, f32::MIN_POSITIVE.to_bits());
}
