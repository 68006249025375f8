//! Text, paths, numbers and the queue: what needs no floating point.
use convolve_rs::cube_io::{channel_offset, primary_data_offset, PixelType};
use convolve_rs::fits_io::output_path;
use convolve_rs::ieee::{Double, FftFloat, Single};
use convolve_rs::plane::{plane_to_be_bytes, Plane};
use convolve_rs::queue::{
    available_memory_bytes, cap_for_threads, cap_from_budget, channel_cap, mem_budget_bytes,
};
use convolve_rs::run::{collect_files, log_level, InputError, LogLevel};
use convolve_rs::smooth::{resolve_unit, BrightnessUnit};
use convolve_rs::targets::dryrun_lines;
use convolve_rs::text::{
    chars_of, decimal_of, parse_u64, split_lines, split_words, string_of, trimmed, uppercased,
};

const GIB: u64 = 1 << 30;

/// The byte budget back-pressures: a budget smaller than the cube means the cap is
/// well below the channel count, so the queue actually blocks.
#[test]
fn cap_bounded_by_byte_budget_not_plane_count() {
    let plane = 419 * (1 << 20); // ~419 MiB (10240² f32)
    let cap = cap_from_budget(4 * GIB, plane, 192);
    assert_eq!(cap, 9);
    assert!(cap < 64, "must block before buffering the whole cube");
}

#[test]
fn cap_has_floor_of_four() {
    // A plane larger than the whole budget still keeps a small pipeline.
    assert_eq!(cap_from_budget(GIB, 4 * GIB as usize, 192), 4);
}

#[test]
fn cap_capped_by_ceiling_for_tiny_planes() {
    // Tiny planes would allow a huge cap; the thread-derived ceiling holds.
    assert_eq!(cap_from_budget(64 * GIB, 1 << 16, 192), 192);
}

#[test]
fn cap_of_empty_planes_is_the_ceiling() {
    assert_eq!(cap_from_budget(GIB, 0, 10), 10);
    assert_eq!(cap_for_threads(GIB, 0, 1), 4);
    assert_eq!(cap_for_threads(GIB, 0, 3), 6);
}

#[test]
fn channel_cap_follows_the_thread_pool() {
    let threads = rayon::current_num_threads();
    assert_eq!(channel_cap(u64::MAX, 1), cap_for_threads(u64::MAX, 1, threads));
    assert!(channel_cap(u64::MAX, 1) >= 4);
    assert_eq!(channel_cap(0, 1), 4);
    let pool = rayon::ThreadPoolBuilder::new().num_threads(7).build().unwrap();
    assert_eq!(pool.install(|| channel_cap(u64::MAX, 1)), 14);
}

const MEMINFO: &str = "MemTotal:       32768000 kB\nMemFree:         1000 kB\nMemAvailable:   16384000 kB\n";

#[test]
fn available_memory_is_read_from_meminfo() {
    assert_eq!(available_memory_bytes(MEMINFO), Some(16384000 * 1024));
    assert_eq!(available_memory_bytes("MemTotal: 1 kB\n"), None);
    assert_eq!(available_memory_bytes("MemAvailable:\nMemAvailable: 5 kB\n"), None);
    assert_eq!(available_memory_bytes("MemAvailable: many kB"), None);
    assert_eq!(available_memory_bytes("MemAvailable: 18446744073709551615 kB"), Some(u64::MAX));
}

#[test]
fn memory_budget_prefers_the_setting() {
    assert_eq!(mem_budget_bytes(Some(" 512 "), Some(MEMINFO)), 512 << 20);
    assert_eq!(mem_budget_bytes(Some("0"), Some(MEMINFO)), 16384000 * 256);
    assert_eq!(mem_budget_bytes(Some("lots"), Some(MEMINFO)), 16384000 * 256);
    assert_eq!(mem_budget_bytes(None, Some("MemAvailable: 1024 kB")), GIB);
    assert_eq!(mem_budget_bytes(None, None), 4 * GIB);
    assert_eq!(mem_budget_bytes(Some("18446744073709551615"), None), u64::MAX);
}

#[test]
fn output_paths() {
    assert_eq!(output_path("a/b.fits", Some("sm"), None, None), "a/b.sm.fits");
    assert_eq!(output_path("a/b.fits", None, None, None), "a/b.fits");
    assert_eq!(output_path("b.fits", Some("sm"), None, None), "b.sm.fits");
    assert_eq!(output_path("/b.fits", Some("sm"), None, None), "/b.sm.fits");
    assert_eq!(output_path("a/b.fits", Some("sm"), Some("pre_"), Some("out")), "out/pre_b.sm.fits");
    assert_eq!(output_path("a/b.c.fits", Some("sm"), None, Some("out/")), "out/b.c.sm.fits");
    // No extension leaves a trailing dot; a leading dot is part of the stem.
    assert_eq!(output_path("a/b", Some("sm"), None, None), "a/b.sm.");
    assert_eq!(output_path("a/.b", None, None, None), "a/.b.");
    // Nothing to name.
    assert_eq!(output_path("", Some("sm"), None, None), "./.sm.");
}

#[test]
fn unit_is_resolved_or_guessed() {
    let r = resolve_unit(Some("K"));
    assert!(r.unit == BrightnessUnit::Kelvin && !r.guessed);
    let r = resolve_unit(Some("furlong"));
    assert!(r.unit == BrightnessUnit::JyPerBeam && r.guessed);
    let r = resolve_unit(None);
    assert!(r.unit == BrightnessUnit::JyPerBeam && !r.guessed);
    assert_eq!(BrightnessUnit::default(), BrightnessUnit::JyPerBeam);
    // Neither padding nor case matters.
    for s in ["jy/beam", "\tJY/BEAM", "jy/BEAM \n", "'Jy/bm'", " ' JyBeam ' "] {
        assert_eq!(BrightnessUnit::parse(s), Some(BrightnessUnit::JyPerBeam));
    }
}

#[test]
fn text_is_split_like_the_standard_library_does() {
    for s in ["", "a", " a  b\tc ", "x\r\ny\n\nz", "\n", "a\r", "\u{a0}q\u{3000}r\u{2003}", "end\n"] {
        let v = chars_of(s);
        let lines: Vec<String> = split_lines(&v).iter().map(string_of).collect();
        assert_eq!(lines, s.lines().collect::<Vec<_>>());
        let words: Vec<String> = split_words(&v).iter().map(string_of).collect();
        assert_eq!(words, s.split_whitespace().collect::<Vec<_>>());
        assert_eq!(string_of(&trimmed(&v)), s.trim());
        assert_eq!(string_of(&uppercased(&v)), s.to_ascii_uppercase());
    }
}

#[test]
fn numbers_are_read_like_the_standard_library_does() {
    for s in ["0", "7", "+7", "-7", "", "+", "007", "1_0", "18446744073709551615", "18446744073709551616"] {
        assert_eq!(parse_u64(&chars_of(s)), s.parse::<u64>().ok(), "{s}");
    }
    for n in [0u64, 9, 10, 1234567890, u64::MAX] {
        assert_eq!(string_of(&decimal_of(n)), n.to_string());
        assert_eq!(parse_u64(&decimal_of(n)), Some(n));
    }
}

#[test]
fn files_come_from_arguments_or_a_list() {
    let args = vec![String::from("a.fits"), String::from("b.fits")];
    let one = vec![String::from("list.txt")];
    assert_eq!(collect_files(&args, false, None), Ok(args.clone()));
    assert_eq!(
        collect_files(&one, true, Some(" a.fits \nb.fits\n")),
        Ok(vec![String::from("a.fits"), String::from("b.fits")])
    );
    assert_eq!(collect_files(&args, true, Some("a")), Err(InputError::OneListFile));
    assert_eq!(collect_files(&one, true, None), Err(InputError::Unreadable));
    assert_eq!(collect_files(&one, true, Some("")), Err(InputError::NoFiles));
    assert_eq!(collect_files(&vec![], false, None), Err(InputError::NoFiles));
}

#[test]
fn verbosity_sets_the_level() {
    assert_eq!(log_level(0), LogLevel::Info);
    assert_eq!(log_level(1), LogLevel::Debug);
    assert_eq!(log_level(2), LogLevel::Trace);
    assert_eq!(log_level(255), LogLevel::Trace);
}

#[test]
fn dry_run_lists_every_channel() {
    let shown = vec![Some(String::from("BMAJ=20")), None];
    assert_eq!(dryrun_lines(&shown), vec!["0 BMAJ=20", "1 masked"]);
}

#[test]
fn pixel_type_comes_from_bitpix() {
    assert_eq!(PixelType::from_bitpix(-64), PixelType::F64);
    for bitpix in [-32, 8, 16, 32, 64, 0] {
        assert_eq!(PixelType::from_bitpix(bitpix), PixelType::F32);
    }
}

#[test]
fn planes_become_big_endian_bytes() {
    let p = Plane::from_shape_vec(1, 2, vec![Single::from_bits(0x3f800000), Single::from_bits(0x01020304)])
        .unwrap();
    assert_eq!(plane_to_be_bytes(&p), vec![0x3f, 0x80, 0, 0, 1, 2, 3, 4]);
    let q = Plane::from_shape_vec(1, 1, vec![Double::from_bits(0x0102030405060708)]).unwrap();
    assert_eq!(plane_to_be_bytes(&q), vec![1, 2, 3, 4, 5, 6, 7, 8]);
    assert!(Plane::from_shape_vec(2, 2, vec![Double::zero()]).is_err());
    assert_eq!(channel_offset(2880, 256, 3), 2880 + 768);
}

fn card(text: &str) -> Vec<u8> {
    let mut bytes = text.as_bytes().to_vec();
    bytes.resize(80, b' ');
    bytes
}

#[test]
fn data_unit_starts_behind_the_end_card() {
    let mut header = card("SIMPLE  =                    T");
    header.extend(card("ENDING  =                    1"));
    assert_eq!(primary_data_offset(&header), None);
    header.extend(card("END"));
    assert_eq!(primary_data_offset(&header), Some(2880));
    let mut long = Vec::new();
    for _ in 0..35 {
        long.extend(card("HISTORY END"));
    }
    let mut exact = long.clone();
    exact.extend(card("END"));
    assert_eq!(primary_data_offset(&exact), Some(2880));
    long.extend(card("HISTORY"));
    long.extend(card("END"));
    assert_eq!(primary_data_offset(&long), Some(5760));
    assert_eq!(primary_data_offset(&vec![]), None);
}

#[test]
fn numbers_compare_by_value() {
    let d = |x: f64| Double::from_bits(x.to_bits());
    for a in [-1.5, -0.0, 0.0, 5e-324, 1.0, f64::MAX, f64::INFINITY, f64::NEG_INFINITY, f64::NAN] {
        for b in [-2.0, -0.0, 0.0, 1e-320, 1.0, f64::INFINITY, f64::NAN] {
            assert_eq!(d(a).lt(&d(b)), a < b, "{a} < {b}");
            assert_eq!(d(a).le(&d(b)), a <= b, "{a} <= {b}");
            assert_eq!(d(a).at_least(&d(b)), a >= b, "{a} >= {b}");
            if !a.is_nan() || !b.is_nan() {
                let m = f64::from_bits(d(a).max(d(b)).to_bits());
                assert_eq!(m, a.max(b), "max({a}, {b})");
            }
        }
        assert_eq!(d(a).is_finite(), a.is_finite());
        assert_eq!(FftFloat::is_nan(&d(a)), a.is_nan());
        assert_eq!(d(a).abs().to_bits(), a.abs().to_bits());
    }
    let s = |x: f32| Single::from_bits(x.to_bits());
    assert!(s(1.5).at_least(&s(1.0)) && !s(0.5).at_least(&s(1.0)));
    assert!(!s(f32::NAN).at_least(&s(1.0)) && FftFloat::is_nan(&s(f32::NAN)));
    assert_eq!(<Single as FftFloat>::one().to_bits(), 1.0f32.to_bits());
    assert_eq!(<Double as FftFloat>::one().to_bits(), 1.0f64.to_bits());
}
