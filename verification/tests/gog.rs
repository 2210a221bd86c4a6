use famulus_games::gog::{
    gog_spiel, ist_gog_spiel, metadaten_aus_bibliothek, ordner_hat_app_drin, GogSpiel, Metadaten, OrdnerEintrag,
};

#[test]
fn ordnername_entfernt_app_suffix() {
    let g = GogSpiel {
        app_name: "1453375253".into(),
        title: "Stardew Valley".into(),
        folder_name: "Stardew Valley.app".into(),
        art_square: String::new(),
        art_cover: String::new(),
    };
    assert_eq!(g.ordnername(), "Stardew Valley");
}

#[test]
fn metaschluessel_findet_titel() {
    let mut meta = Metadaten::new();
    meta.insert("Stardew Valley".into(), ("Stardew Valley".into(), "url".into()));
    assert_eq!(meta.get("Stardew Valley"), Some(("Stardew Valley".to_string(), "url".to_string())));
}

#[test]
fn metadaten_spaeterer_eintrag_gewinnt() {
    let mut meta = Metadaten::new();
    meta.insert("a".into(), ("1".into(), "".into()));
    meta.insert("b".into(), ("2".into(), "".into()));
    meta.insert("a".into(), ("3".into(), "u".into()));
    assert_eq!(meta.get("a"), Some(("3".to_string(), "u".to_string())));
    assert_eq!(meta.get("b"), Some(("2".to_string(), "".to_string())));
    assert_eq!(meta.get("c"), None);
}

fn spiel(app: &str, title: &str, folder: &str, square: &str, cover: &str) -> GogSpiel {
    GogSpiel {
        app_name: app.into(),
        title: title.into(),
        folder_name: folder.into(),
        art_square: square.into(),
        art_cover: cover.into(),
    }
}

#[test]
fn metadaten_waehlen_hochformat_vor_banner() {
    let games = vec![
        spiel("1", "DREDGE", "DREDGE.app", "https://sq/1.jpg", "https://cv/1.jpg"),
        spiel("2", "Cyberpunk 2077", "", "", "https://cv/2.jpg"),
        spiel("3", "", "", "kein-link", "auch-nicht"),
    ];
    let m = metadaten_aus_bibliothek(&games);
    assert_eq!(m.get("DREDGE"), Some(("DREDGE".to_string(), "https://sq/1.jpg".to_string())));
    assert_eq!(m.get("Cyberpunk 2077"), Some(("Cyberpunk 2077".to_string(), "https://cv/2.jpg".to_string())));
    assert_eq!(m.get("3"), Some(("".to_string(), "".to_string())));
}

fn eintrag(name: &str, dir: bool, unter: &[&str]) -> OrdnerEintrag {
    OrdnerEintrag { name: name.into(), ist_verzeichnis: dir, unter_namen: unter.iter().map(|s| s.to_string()).collect() }
}

/// The folder `laerm` holds `ohne_app/datei.txt` and no app.
#[test]
fn ordner_ohne_app_ist_kein_spiel() {
    let laerm = vec![eintrag("ohne_app", true, &["datei.txt"])];
    assert!(!ordner_hat_app_drin(&laerm));
}

/// The folder `Cyberpunk 2077` holds `Cyberpunk 2077/Cyberpunk2077.app`.
#[test]
fn ordner_mit_eingebetteter_app_ist_spiel() {
    let cyberpunk = vec![eintrag("Cyberpunk 2077", true, &["Cyberpunk2077.app"])];
    assert!(ordner_hat_app_drin(&cyberpunk));
    assert!(ordner_hat_app_drin(&vec![eintrag("X.app", false, &[])]));
    assert!(!ordner_hat_app_drin(&vec![eintrag("Datei", false, &["versteckt.app"])]));
}

#[test]
fn gog_ordner_wird_spiel() {
    assert!(ist_gog_spiel("DREDGE.app", true, false));
    assert!(ist_gog_spiel("Cyberpunk 2077", true, true));
    assert!(!ist_gog_spiel("Prefixes", true, false));
    assert!(!ist_gog_spiel("x.app", false, true));
    let m = metadaten_aus_bibliothek(&vec![spiel("1", "DREDGE", "DREDGE.app", "https://sq/1.jpg", "")]);
    let s = gog_spiel("DREDGE.app", "/Users/x/Games/GOG/DREDGE.app", &m, 123);
    assert_eq!((s.id.as_str(), s.titel.as_str(), s.quelle.as_str()), ("DREDGE", "DREDGE", "GOG"));
    assert_eq!(s.cover_url, "https://sq/1.jpg");
    assert_eq!(s.groesse_bytes, 123);
    let s = gog_spiel("Unbekannt", "/p/Unbekannt", &m, 0);
    assert_eq!((s.id.as_str(), s.titel.as_str(), s.cover_url.as_str()), ("Unbekannt", "Unbekannt", ""));
}

use famulus_games::gog::{ordner_groesse, Inhalt};

#[test]
fn groesse_zaehlt_dateien() {
    // top.bin (7), a/datei.bin (10), a/b/zwei.bin (20); a link counts nothing.
    let baum = vec![
        Inhalt::Ordner(vec![Inhalt::Datei(10), Inhalt::Ordner(vec![Inhalt::Datei(20)]), Inhalt::Sonstiges]),
        Inhalt::Datei(7),
    ];
    assert_eq!(ordner_groesse(&baum), Some(37));
    assert_eq!(ordner_groesse(&Vec::new()), Some(0));
    assert_eq!(ordner_groesse(&vec![Inhalt::Ordner(Vec::new())]), Some(0));
}

#[test]
fn groesse_ueber_u64_ist_none() {
    let baum = vec![Inhalt::Datei(u64::MAX), Inhalt::Ordner(vec![Inhalt::Datei(1)])];
    assert_eq!(ordner_groesse(&baum), None);
    assert_eq!(ordner_groesse(&vec![Inhalt::Datei(u64::MAX), Inhalt::Datei(0)]), Some(u64::MAX));
}
