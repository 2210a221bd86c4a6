use famulus_games::pfad::dateiname_von;
use famulus_games::oberflaeche::endung_von;
use famulus_games::pfad::{eltern_exec, normalform_exec, pfad_verbinden_exec};
use std::path::Path;

const PFADE: [&str; 28] = [
    "", "/", "//", "a", "a/", "/a", "/a/", "a/b", "/a/b", "/a//b/", "a/b/.", "a/./b", "./a", ".", "./", "./.",
    "..", "a/..", "/..", ".x", ".x/.", "x.", "a.b.c", "/Users/x/Games/DREDGE.app", "././a", ".a/b", "a/.b",
    "/a/b/c.tar.gz",
];

#[test]
fn eltern_wie_path_parent() {
    for p in PFADE {
        let erwartet = Path::new(p).parent().map(|x| x.to_str().unwrap().to_string());
        assert_eq!(eltern_exec(p), erwartet, "Pfad {p:?}");
    }
}

#[test]
fn dateiname_wie_path_file_name() {
    for p in PFADE {
        let erwartet = Path::new(p).file_name().map(|x| x.to_str().unwrap().to_string());
        assert_eq!(dateiname_von(p), erwartet, "Pfad {p:?}");
    }
}

#[test]
fn endung_wie_path_extension() {
    for p in PFADE {
        let erwartet = Path::new(p)
            .extension()
            .map(|e| e.to_string_lossy().to_ascii_lowercase())
            .unwrap_or_else(|| "jpg".into());
        assert_eq!(endung_von(p), erwartet, "Pfad {p:?}");
    }
    assert_eq!(endung_von("/c/Cover.PNG"), "png");
}

#[test]
fn verbinden_wie_path_join() {
    for a in PFADE {
        for b in ["", "x", "/y", "steamapps", "a/b/"] {
            let erwartet = Path::new(a).join(b).to_str().unwrap().to_string();
            assert_eq!(pfad_verbinden_exec(a, b), erwartet, "{a:?} + {b:?}");
        }
    }
}

#[test]
fn normalform_gleich_wie_path_gleich() {
    for a in PFADE {
        for b in PFADE {
            let gleich = Path::new(a) == Path::new(b);
            assert_eq!(normalform_exec(a) == normalform_exec(b), gleich, "{a:?} == {b:?}");
        }
    }
}
