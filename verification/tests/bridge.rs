use famulus_games::bridge::{app_version, cover_dateiname, datei_url, endung_aus_url, fehler, steam_start_url};

#[test]
fn datei_url_maskiert_leerzeichen() {
    assert_eq!(datei_url("/Users/x/Games/No Man's Sky.jpg"), "file:///Users/x/Games/No%20Man%27s%20Sky.jpg");
}

/// '#' unmasked would be read as the start of a fragment.
#[test]
fn datei_url_maskiert_raute_und_prozent() {
    assert_eq!(
        datei_url("/Users/x/Games/Cyberpunk #2077 100%.jpg"),
        "file:///Users/x/Games/Cyberpunk%20%232077%20100%25.jpg"
    );
}

#[test]
fn datei_url_kodiert_utf8_byteweise() {
    assert_eq!(datei_url("/ä~-_.x?"), "file:///%C3%A4~-_.x%3F");
    assert_eq!(datei_url(""), "file://");
}

#[test]
fn endung_aus_cover_url() {
    assert_eq!(endung_aus_url("https://cdn.gog.com/a/b.png?x=1.webp"), "png");
    assert_eq!(endung_aus_url("https://cdn.gog.com/a/b.jpeg"), "jpeg");
    assert_eq!(endung_aus_url("https://cdn.gog.com/a/b.gif"), "jpg");
    assert_eq!(endung_aus_url("webp"), "webp");
    assert_eq!(endung_aus_url(""), "jpg");
}

#[test]
fn namen_und_urls() {
    assert_eq!(cover_dateiname("1744110647", "png"), "1744110647.png");
    assert_eq!(steam_start_url("275850"), "steam://rungameid/275850");
    assert_eq!(app_version(), "0.3.0");
    assert_eq!(fehler("x".to_string()).meldung(), "x");
}

use famulus_games::bridge::{
    binary_aus_plist, binary_nach_stamm, bytes_text, cache_kandidaten, einheit, gog_start_pfad, ist_binary_kandidat,
    keine_binary, macos_ordner, StartEintrag, UnterEintrag,
};

#[test]
fn gog_start_pfad_laesst_app_unveraendert() {
    // The path does not exist here, so it is no folder and stays as it is.
    assert_eq!(gog_start_pfad("/Users/x/Games/GOG/DREDGE.app", false, &vec![]), "/Users/x/Games/GOG/DREDGE.app");
}

#[test]
fn gog_start_pfad_findet_eingebettete_app() {
    let dir = "/tmp/famulus-start-test/Cyberpunk 2077";
    let eintraege = vec![StartEintrag {
        pfad: format!("{dir}/Cyberpunk 2077"),
        ist_verzeichnis: true,
        unter: vec![UnterEintrag { pfad: format!("{dir}/Cyberpunk 2077/Cyberpunk2077.app"), ist_verzeichnis: true }],
    }];
    let start = gog_start_pfad(dir, true, &eintraege);
    assert!(start.ends_with("Cyberpunk2077.app"));
}

#[test]
fn gog_start_pfad_reihenfolge() {
    let e = |p: &str, d: bool, u: Vec<UnterEintrag>| StartEintrag { pfad: p.into(), ist_verzeichnis: d, unter: u };
    let u = |p: &str, d: bool| UnterEintrag { pfad: p.into(), ist_verzeichnis: d };
    // a directly contained .app wins over a deeper one
    let es = vec![e("/g/Sub", true, vec![u("/g/Sub/Tief.app", true)]), e("/g/Direkt.app", true, vec![])];
    assert_eq!(gog_start_pfad("/g", true, &es), "/g/Direkt.app");
    // a folder that is an .app stays
    assert_eq!(gog_start_pfad("/g/X.app", true, &es), "/g/X.app");
    // a file named .app does not count
    let es = vec![e("/g/Datei.app", false, vec![]), e("/g/Sub", true, vec![u("/g/Sub/a.app", false)])];
    assert_eq!(gog_start_pfad("/g", true, &es), "/g");
}

#[test]
fn binary_hilfen() {
    assert_eq!(macos_ordner("/G/DREDGE.app"), "/G/DREDGE.app/Contents/MacOS");
    assert_eq!(binary_aus_plist("/G/DREDGE.app", "DREDGE\n"), Some("/G/DREDGE.app/Contents/MacOS/DREDGE".to_string()));
    assert_eq!(binary_aus_plist("/G/DREDGE.app", "  \n"), None);
    assert_eq!(binary_nach_stamm("/tmp/famulus-binary-test2"), Some("/tmp/famulus-binary-test2/Contents/MacOS/famulus-binary-test2".to_string()));
    assert_eq!(binary_nach_stamm("/G/Stardew Valley.app"), Some("/G/Stardew Valley.app/Contents/MacOS/Stardew Valley".to_string()));
    assert!(ist_binary_kandidat("/m/Spiel", true, 5000, 0o755));
    assert!(!ist_binary_kandidat("/m/libdoorstop.dylib", true, 5000, 0o755));
    assert!(!ist_binary_kandidat("/m/run.sh", true, 5000, 0o755));
    assert!(!ist_binary_kandidat("/m/Spiel", true, 1000, 0o755));
    assert!(!ist_binary_kandidat("/m/Spiel", true, 5000, 0o644));
    assert!(!ist_binary_kandidat("/m/Spiel", false, 5000, 0o755));
    assert_eq!(keine_binary("/G/X.app").meldung(), "Keine Binary in /G/X.app gefunden");
}

#[test]
fn groessen_texte() {
    assert_eq!(bytes_text(0), "0 B");
    assert_eq!(bytes_text(999), "999 B");
    assert_eq!(bytes_text(18446744073709551615), "18446744073709551615 B");
    let namen: Vec<String> = (0..6).map(einheit).collect();
    assert_eq!(namen, vec!["B", "KB", "MB", "GB", "TB", "PB"]);
    assert_eq!(cache_kandidaten("7"), vec!["7.jpg", "7.jpeg", "7.png", "7.webp"]);
}

fn prozent_dekodieren(s: &str) -> Vec<u8> {
    let b = s.as_bytes();
    let mut r = Vec::new();
    let mut i = 0;
    while i < b.len() {
        if b[i] == b'%' && i + 2 < b.len() + 0 && i + 2 <= b.len() - 1 {
            r.push(u8::from_str_radix(&s[i + 1..i + 3], 16).unwrap());
            i += 3;
        } else {
            r.push(b[i]);
            i += 1;
        }
    }
    r
}

#[test]
fn datei_url_laesst_sich_dekodieren() {
    for p in ["/Users/x/Games/No Man's Sky.jpg", "/a b/#1/100%/ä€𝄞?&=", ""] {
        let url = datei_url(p);
        let rest = url.strip_prefix("file://").unwrap();
        assert!(rest.chars().all(|c| c.is_ascii_alphanumeric() || "-._~/%".contains(c)));
        assert_eq!(prozent_dekodieren(rest), p.as_bytes());
    }
}

use famulus_games::bridge::{cover_weg, CoverWeg};

#[test]
fn hole_cover_liefert_fehler_bei_leerer_url() {
    let r = cover_weg("unbekannt", "", false, "/cache", &vec![false; 4], "");
    assert_eq!(r.unwrap_err().meldung(), "kein Cover vorhanden");
}

#[test]
fn cover_weg_reihenfolge() {
    let url = "https://images.gog.com/abc.png?namespace=x";
    // The local cover wins when it exists.
    match cover_weg("7", "/lib/7/capsule.jpg", true, "/cache", &vec![true; 4], url).unwrap() {
        CoverWeg::Vorhanden(p) => assert_eq!(p, "/lib/7/capsule.jpg"),
        _ => panic!("local cover expected"),
    }
    // A stale local path falls through to the first cached name.
    match cover_weg("7", "/lib/7/capsule.jpg", false, "/cache", &vec![false, false, true, true], url).unwrap() {
        CoverWeg::Vorhanden(p) => assert_eq!(p, "/cache/7.png"),
        _ => panic!("cached cover expected"),
    }
    // Nothing cached: download under the URL's ending.
    match cover_weg("7", "", false, "/cache/", &vec![false; 4], url).unwrap() {
        CoverWeg::Laden { ziel } => assert_eq!(ziel, "/cache/7.png"),
        _ => panic!("download expected"),
    }
    match cover_weg("7", "", false, "/cache", &vec![], "https://x/bild.gif").unwrap() {
        CoverWeg::Laden { ziel } => assert_eq!(ziel, "/cache/7.jpg"),
        _ => panic!("download expected"),
    }
}

use famulus_games::bridge::{binary_waehlen, MacosDatei};

#[test]
fn gog_binary_pfad_liest_info_plist() {
    let app = "/tmp/famulus-binary-test";
    // `defaults read` printed the name from Info.plist, and that file exists.
    let plist = binary_aus_plist(app, "DREDGE\n");
    let binary = binary_waehlen(app, plist, false, &Vec::new()).unwrap();
    assert!(binary.ends_with("Contents/MacOS/DREDGE"));
}

#[test]
fn gog_binary_pfad_fallback_ordnername() {
    let app = "/tmp/famulus-binary-test2";
    // An empty Info.plist names nothing; the program named like the bundle exists.
    assert_eq!(binary_aus_plist(app, ""), None);
    let binary = binary_waehlen(app, None, true, &Vec::new()).unwrap();
    assert!(binary.ends_with("Contents/MacOS/famulus-binary-test2"));
}

#[test]
fn binary_waehlen_erste_ausfuehrbare_datei() {
    let datei = |pfad: &str, ist_datei: bool, laenge: u64, modus: u32| MacosDatei {
        pfad: pfad.to_string(),
        ist_datei,
        laenge,
        modus,
    };
    let dateien = vec![
        datei("/G/X.app/Contents/MacOS/libdoorstop.dylib", true, 90000, 0o755),
        datei("/G/X.app/Contents/MacOS/klein", true, 10, 0o755),
        datei("/G/X.app/Contents/MacOS/Spiel", true, 90000, 0o755),
        datei("/G/X.app/Contents/MacOS/Zweites", true, 90000, 0o755),
    ];
    assert_eq!(binary_waehlen("/G/X.app", None, false, &dateien).unwrap(), "/G/X.app/Contents/MacOS/Spiel");
    let e = binary_waehlen("/G/X.app", None, false, &dateien[..2].to_vec()).unwrap_err();
    assert_eq!(e.meldung(), "Keine Binary in /G/X.app gefunden");
}

use famulus_games::bridge::bepinex_umgebung;

#[test]
fn bepinex_umgebung_nur_mit_doorstop() {
    assert!(bepinex_umgebung("/G/X.app/Contents/MacOS", false, true, true).is_empty());
    let paare = |v: Vec<(String, String)>| v.into_iter().map(|(a, b)| format!("{a}={b}")).collect::<Vec<_>>();
    assert_eq!(
        paare(bepinex_umgebung("/G/X.app/Contents/MacOS", true, true, true)),
        vec![
            "DOORSTOP_ENABLED=1",
            "DOORSTOP_TARGET_ASSEMBLY=/G/X.app/Contents/MacOS/BepInEx/core/BepInEx.Preloader.dll",
            "DYLD_INSERT_LIBRARIES=/G/X.app/Contents/MacOS/libdoorstop.dylib",
            "DYLD_LIBRARY_PATH=/G/X.app/Contents/MacOS",
            "ARCHPREFERENCE=arm64,x86_64",
        ]
    );
    assert_eq!(
        paare(bepinex_umgebung("/m", true, false, false)),
        vec!["DOORSTOP_ENABLED=1", "DYLD_INSERT_LIBRARIES=/m/libdoorstop.dylib", "DYLD_LIBRARY_PATH=/m"]
    );
}
