//! Paths as text behave like `std::path` on Unix.
use std::path::Path;

use convolve_rs::cube_io::beamlog_path_for;
use convolve_rs::fits_io::output_path;
use convolve_rs::path::{extension_of, file_name_of, file_stem_of, joined, parent_of};
use convolve_rs::text::{chars_of, string_of};

/// All texts of up to `len` of the given characters.
fn texts(alphabet: &[char], len: usize) -> Vec<String> {
    let mut all = vec![String::new()];
    let mut last = all.clone();
    for _ in 0..len {
        let mut next = Vec::new();
        for s in &last {
            for &c in alphabet {
                let mut t = s.clone();
                t.push(c);
                next.push(t);
            }
        }
        all.extend(next.clone());
        last = next;
    }
    all
}

fn text(v: Option<Vec<char>>) -> Option<String> {
    v.map(|v| string_of(&v))
}

#[test]
fn components_match_the_standard_library() {
    for s in texts(&['/', '.', 'a'], 6) {
        let p = Path::new(&s);
        let v = chars_of(&s);
        let name = p.file_name().map(|x| x.to_string_lossy().into_owned());
        let stem = p.file_stem().map(|x| x.to_string_lossy().into_owned());
        let ext = p.extension().map(|x| x.to_string_lossy().into_owned());
        assert_eq!(text(file_name_of(&v)), name, "file name of {s:?}");
        assert_eq!(text(file_stem_of(&v)), stem, "stem of {s:?}");
        assert_eq!(text(extension_of(&v)), ext, "extension of {s:?}");
        let parent = p.parent().map(|x| x.to_string_lossy().into_owned());
        assert_eq!(text(parent_of(&v)), parent, "parent of {s:?}");
    }
}

#[test]
fn joining_matches_the_standard_library() {
    for dir in texts(&['/', '.', 'a'], 3) {
        for name in texts(&['/', '.', 'b'], 3) {
            let want = Path::new(&dir).join(&name).to_string_lossy().into_owned();
            let got = string_of(&joined(&chars_of(&dir), &chars_of(&name)));
            assert_eq!(got, want, "{dir:?} joined with {name:?}");
        }
    }
}

#[test]
fn beamlog_stands_next_to_its_cube() {
    assert_eq!(beamlog_path_for("d/cube.fits"), "d/beamlog.cube.txt");
    assert_eq!(beamlog_path_for("cube.fits"), "beamlog.cube.txt");
    assert_eq!(beamlog_path_for("/cube"), "/beamlog.cube.txt");
    assert_eq!(beamlog_path_for(""), "./beamlog..txt");
}

#[test]
fn output_names_compose() {
    for input in texts(&['/', '.', 'a'], 6) {
        let v = chars_of(&input);
        if file_name_of(&v).is_none() {
            continue;
        }
        let once = output_path(&input, Some("sm"), Some("x_"), None);
        assert_eq!(parent_of(&chars_of(&once)), parent_of(&v), "parent of {once:?}");
        let twice = output_path(&once, Some("again"), Some("y_"), None);
        let at_once = output_path(&input, Some("sm.again"), Some("y_x_"), None);
        assert_eq!(twice, at_once, "output of {input:?}");
    }
    assert_eq!(output_path("d/im.fits", Some("a"), None, None), "d/im.a.fits");
    assert_eq!(output_path("d/im.a.fits", Some("b"), None, None), "d/im.a.b.fits");
}
