use famulus_games::steam::{parse_manifest, wert_von};

#[test]
fn wert_von_findet_wert_mit_tabs() {
    let z = "\t\"name\"\t\t\"No Man's Sky\"";
    assert_eq!(wert_von(z, "\"name\""), Some("No Man's Sky".into()));
}

#[test]
fn wert_von_ignoriert_falschen_schluessel() {
    let z = "\"appid\"\t\t\"275850\"";
    assert_eq!(wert_von(z, "\"name\""), None);
}

#[test]
fn parse_manifest_liefert_spiel() {
    let inhalt = "\"AppState\"\n{\n\t\"appid\"\t\t\"275850\"\n\t\"name\"\t\t\"Testspiel\"\n\t\"StateFlags\"\t\t\"4\"\n\t\"installdir\"\t\t\"Testspiel\"\n\t\"LastPlayed\"\t\t\"1787819314\"\n\t\"SizeOnDisk\"\t\t\"12345\"\n}";
    let s = parse_manifest(inhalt, "/tmp/steamapps").unwrap();
    assert_eq!(s.id, "275850");
    assert_eq!(s.titel, "Testspiel");
    assert_eq!(s.zuletzt_gespielt, 1787819314);
    assert_eq!(s.groesse_bytes, 12345);
    assert!(s.pfad.ends_with("common/Testspiel"));
}

#[test]
fn parse_manifest_verwirft_unfertige() {
    let inhalt = "\"AppState\"\n{\n\t\"appid\"\t\t\"1\"\n\t\"name\"\t\t\"Halbfertig\"\n\t\"StateFlags\"\t\t\"2\"\n\t\"installdir\"\t\t\"x\"\n}";
    assert!(parse_manifest(inhalt, "/tmp").is_none());
}

#[test]
fn parse_manifest_verwirft_leere() {
    assert!(parse_manifest("", "/tmp").is_none());
}

#[test]
fn wert_von_ohne_schliessendes_anfuehrungszeichen() {
    assert_eq!(wert_von("\"name\"\t\t\"offen", "\"name\""), None);
    assert_eq!(wert_von("\"name\"\t\tohne", "\"name\""), None);
    assert_eq!(wert_von("  \"path\" \"/a b\"  rest", "\"path\""), Some("/a b".into()));
}

#[test]
fn parse_manifest_pfad_und_zahlen() {
    let inhalt = "\"appid\" \"7\"\r\n\"name\" \"Spiel\"\r\n\"installdir\" \"Ordner\"\r\n\"LastPlayed\" \"+12\"\r\n\"SizeOnDisk\" \"18446744073709551616\"\r\n";
    let s = parse_manifest(inhalt, "/lib/steamapps/").unwrap();
    assert_eq!(s.pfad, "/lib/steamapps/common/Ordner");
    assert_eq!(s.quelle, "Steam");
    assert_eq!(s.cover, "");
    assert_eq!(s.zuletzt_gespielt, 12);
    assert_eq!(s.groesse_bytes, 0);
    // an absolute install folder replaces the base, as Path::join does
    let inhalt = "\"appid\" \"7\"\n\"name\" \"Spiel\"\n\"installdir\" \"/woanders\"\n";
    assert_eq!(parse_manifest(inhalt, "/lib").unwrap().pfad, "/woanders");
}

#[test]
fn parse_manifest_spaeteres_feld_gewinnt() {
    let inhalt = "\"appid\" \"1\"\n\"name\" \"Alt\"\n\"installdir\" \"d\"\n\"name\" \"Neu\"\n";
    assert_eq!(parse_manifest(inhalt, "").unwrap().titel, "Neu");
    assert_eq!(parse_manifest(inhalt, "").unwrap().pfad, "common/d");
}

use famulus_games::steam::{bibliotheken_aus_vdf, ist_manifest_dateiname};

#[test]
fn bibliotheken_aus_libraryfolders() {
    let vdf = "\"libraryfolders\"\n{\n\t\"0\"\n\t{\n\t\t\"path\"\t\t\"/Users/x/Library/Application Support/Steam\"\n\t}\n\t\"1\"\n\t{\n\t\t\"path\"\t\t\"/Volumes/Ext/SteamLibrary/\"\n\t}\n\t\"2\"\n\t{\n\t\t\"path\"\t\t\"/Volumes/Ext//SteamLibrary\"\n\t}\n}\n";
    assert_eq!(
        bibliotheken_aus_vdf(vdf, "/basis"),
        vec![
            "/Users/x/Library/Application Support/Steam/steamapps".to_string(),
            "/Volumes/Ext/SteamLibrary/steamapps".to_string(),
        ]
    );
    assert_eq!(bibliotheken_aus_vdf("", "/basis"), vec!["/basis/steamapps".to_string()]);
}

#[test]
fn manifest_dateinamen() {
    assert!(ist_manifest_dateiname("appmanifest_480.acf"));
    assert!(!ist_manifest_dateiname("appmanifest_480.acf.bak"));
    assert!(!ist_manifest_dateiname("libraryfolders.vdf"));
}

use famulus_games::steam::{capsule_aus, CacheEintrag};

#[test]
fn capsule_im_ersten_ordner_mit_bild() {
    let e = |p: &str, d: bool, c: bool| CacheEintrag { pfad: p.into(), ist_verzeichnis: d, hat_capsule: c };
    let es = vec![e("/c/275850/x.jpg", false, true), e("/c/275850/a1", true, false), e("/c/275850/b2", true, true)];
    assert_eq!(capsule_aus(&es), "/c/275850/b2/library_capsule.jpg");
    assert_eq!(capsule_aus(&vec![]), "");
}
