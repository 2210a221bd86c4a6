use famulus_games::steamcmd::{
    anmeldung_auswerten, angemeldet_in, last_played_aus_manifest, last_played_setzen, manifest_dateiname,
    wiederhergestellt, zeile_deuten, zu_sichernder_wert, DownloadZustand, Phase, Prozent,
};

fn prozent_zahl(p: &Prozent) -> f64 {
    match p {
        Prozent::Null => 0.0,
        Prozent::Hundert => 100.0,
        Prozent::Zahl(t) => t.parse().unwrap_or(0.0),
    }
}

#[test]
fn zeile_deuten_versteht_fortschritt() {
    let z = " Update state (0x5) downloading, progress: 42.7 (1234 / 5678)";
    let d = zeile_deuten(z).unwrap();
    assert_eq!(d.phase.name(), "laedt");
    assert!((prozent_zahl(&d.prozent) - 42.7).abs() < 0.01);
}

#[test]
fn zeile_deuten_versteht_erfolg() {
    let d = zeile_deuten("Success! App '480' fully installed.").unwrap();
    assert_eq!(d.phase.name(), "fertig");
    assert_eq!(prozent_zahl(&d.prozent), 100.0);
    assert_eq!(d.meldung, "Fertig");

    let d = zeile_deuten("Success! App '480' already up to date.").unwrap();
    assert_eq!(d.meldung, "Bereits aktuell");
}

#[test]
fn zeile_deuten_versteht_fehler() {
    assert_eq!(zeile_deuten("ERROR! Failed to install").unwrap().phase.name(), "fehler");
    assert_eq!(zeile_deuten("ERROR (Invalid Password)").unwrap().phase.name(), "fehler");
}

#[test]
fn zeile_deuten_ignoriert_nebensaechliches() {
    assert!(zeile_deuten("Loading Steam API...OK").is_none());
    assert!(zeile_deuten("Connecting anonymously to Steam Public...OK").is_none());
}

#[test]
fn zeile_deuten_wartet_ohne_downloading() {
    let d = zeile_deuten("Update state (0x3) reconfiguring, progress: 0.00 (0 / 0)").unwrap();
    assert_eq!(d.phase, Phase::Wartet);
    assert!(matches!(d.prozent, Prozent::Zahl(ref t) if t == "0.00"));
    assert_eq!(d.meldung, "Update state (0x3) reconfiguring, progress: 0.00 (0 / 0)");
    let d = zeile_deuten("progress: kaputt").unwrap();
    assert_eq!(prozent_zahl(&d.prozent), 0.0);
}

#[test]
fn last_played_rundlauf() {
    let manifest = "\"AppState\"\n{\n\t\"appid\"\t\t\"480\"\n\t\"LastPlayed\"\t\t\"1787819314\"\n}\n";
    assert_eq!(last_played_aus_manifest(manifest), Some("1787819314".to_string()));
    let geaendert = last_played_setzen(manifest, "1787819314");
    assert!(geaendert.contains("\"LastPlayed\"\t\t\"1787819314\""));
}

#[test]
fn last_played_setzen_erhaelt_format() {
    let manifest = "\"AppState\"\n{\n\t\"LastPlayed\"\t\t\"0\"\n}\n";
    let erg = last_played_setzen(manifest, "123");
    assert_eq!(erg, "\"AppState\"\n{\n\t\"LastPlayed\"\t\t\"123\"\n}\n");
}

#[test]
fn last_played_fehlt_ohne_feld() {
    assert_eq!(last_played_aus_manifest("\"AppState\"\n{\n}\n"), None);
}

#[test]
fn last_played_gesetzt_wird_gelesen() {
    let manifest = "\"AppState\"\r\n{\r\n\t\t\"LastPlayed\"\t\t\"0\"\r\n\t\"x\" \"y\"\r\n}";
    let erg = last_played_setzen(manifest, "999");
    assert_eq!(erg, "\"AppState\"\n{\n\t\t\"LastPlayed\"\t\t\"999\"\n\t\"x\" \"y\"\n}\n");
    assert_eq!(last_played_aus_manifest(&erg), Some("999".to_string()));
    let ohne = last_played_setzen("a\nb", "5");
    assert_eq!(ohne, "a\nb\n");
    assert_eq!(last_played_aus_manifest(&ohne), None);
}

#[test]
fn last_played_sichern_und_wiederherstellen() {
    let null = "\t\"LastPlayed\"\t\t\"0\"\n";
    assert_eq!(zu_sichernder_wert(null), None);
    assert_eq!(zu_sichernder_wert("\"LastPlayed\" \"77\""), Some("77".to_string()));
    assert_eq!(wiederhergestellt(null, Some("77")), Some("\t\"LastPlayed\"\t\t\"77\"\n".to_string()));
    assert_eq!(wiederhergestellt("\"LastPlayed\" \"77\"", Some("77")), None);
    assert_eq!(wiederhergestellt(null, None), None);
}

#[test]
fn manifest_dateiname_fuer_app() {
    assert_eq!(manifest_dateiname("480"), "appmanifest_480.acf");
}

#[test]
fn angemeldet_ignoriert_grossschreibung() {
    let vdf = "\"users\"\n{\n\t\"7656\"\n\t{\n\t\t\"AccountName\"\t\t\"Jens\"\n\t}\n}\n";
    assert!(angemeldet_in(vdf, "jens"));
    assert!(angemeldet_in(vdf, "JENS"));
    assert!(!angemeldet_in(vdf, "anna"));
    assert!(!angemeldet_in("\"jens\"\n", "jens"));
}

#[test]
fn anmeldung_deutet_ausgabe() {
    let m = |r: Result<String, famulus_games::Fehler>| match r {
        Ok(t) => Ok(t),
        Err(f) => Err(f.meldung()),
    };
    assert_eq!(m(anmeldung_auswerten("Logging in...\nInvalid Password\n", true)), Err("Passwort falsch".into()));
    assert_eq!(
        m(anmeldung_auswerten("Two-factor code mismatch\n", true)),
        Err("Steam-Guard-Code falsch oder abgelaufen".into())
    );
    assert_eq!(m(anmeldung_auswerten("ok\n  ERROR (Rate Limit Exceeded)  \n", true)), Err("ERROR (Rate Limit Exceeded)".into()));
    assert_eq!(
        m(anmeldung_auswerten("Logged in OK\n", true)),
        Ok("Angemeldet – SteamCMD kann jetzt herunterladen".into())
    );
    assert_eq!(
        m(anmeldung_auswerten("Logged in OK\n", false)),
        Err("Anmeldung lief durch, aber kein Login gespeichert – bitte erneut versuchen".into())
    );
}

#[test]
fn nur_ein_download_zur_zeit() {
    let mut z = DownloadZustand::neu();
    assert!(z.download_stand().is_none());
    assert!(z.reservieren("480").is_ok());
    let s = z.download_stand().unwrap();
    assert_eq!(s.phase, Phase::Wartet);
    assert_eq!(s.meldung, "SteamCMD startet…");
    let e = z.reservieren("481").unwrap_err();
    assert_eq!(e.meldung(), "Es läuft bereits ein Download");
    assert_eq!(z.download_stand().unwrap().appid, "480");
    z.pid_setzen(42);
    assert!(z.zeile_melden("480", "downloading, progress: 10.5 (1 / 10)"));
    assert_eq!(z.download_stand().unwrap().phase, Phase::Laedt);
    assert!(!z.zeile_melden("480", "Success! App '480' fully installed."));
    assert_eq!(z.download_stand().unwrap().phase, Phase::Fertig);
    assert_eq!(z.pid_nehmen(), Some(42));
    assert!(z.reservieren("482").is_ok());
}

#[test]
fn abbruch_und_abschluss() {
    let mut z = DownloadZustand::neu();
    z.reservieren("1").unwrap();
    z.pid_setzen(7);
    assert_eq!(z.pid_nehmen(), Some(7));
    assert_eq!(z.pid_nehmen(), None);
    z.als_abgebrochen_markieren();
    let s = z.download_stand().unwrap();
    assert_eq!(s.phase, Phase::Fehler);
    assert_eq!(s.meldung, "Abgebrochen");
    let mut z = DownloadZustand::neu();
    z.reservieren("2").unwrap();
    assert!(z.ist_belegt());
    z.abschliessen("2");
    assert!(!z.ist_belegt());
    assert_eq!(z.download_stand().unwrap().meldung, "SteamCMD endete ohne Ergebnis");
    z.freigeben();
    assert!(z.download_stand().is_none());
}

use famulus_games::steamcmd::update_pfade;

#[test]
fn update_pfade_im_steam_layout() {
    let p = update_pfade("/S/steamapps/common/Spacewar", "480").unwrap();
    assert_eq!(p.client_manifest, "/S/steamapps/appmanifest_480.acf");
    assert_eq!(p.ziel_steamapps, "/S/steamapps/common/Spacewar/steamapps");
    assert_eq!(p.ziel_manifest, "/S/steamapps/common/Spacewar/steamapps/appmanifest_480.acf");
    assert!(update_pfade("/", "480").is_err());
    assert!(update_pfade("Spiel", "480").is_err());
}

use famulus_games::steamcmd::steamcmd_wurzel_aus;

#[test]
fn steamcmd_wurzel_im_caskroom() {
    assert_eq!(
        steamcmd_wurzel_aus("/opt/homebrew/Caskroom/steamcmd/latest/steamcmd.sh"),
        Some("/opt/homebrew/Caskroom/steamcmd/MacOS".to_string())
    );
    assert_eq!(steamcmd_wurzel_aus("/"), None);
}

#[test]
fn gesicherter_wert_kommt_nach_update_zurueck() {
    let vorher = "\"AppState\"\n{\n\t\"appid\"\t\t\"480\"\n\t\"LastPlayed\"\t\t\"1787819314\"\n}\n";
    let gesichert = zu_sichernder_wert(vorher);
    assert_eq!(gesichert.as_deref(), Some("1787819314"));
    // SteamCMD reset the value and added a field.
    let nachher = "\"AppState\"\n{\n\t\"appid\"\t\t\"480\"\n\t\"LastPlayed\"\t\t\"0\"\n\t\"BytesToDownload\"\t\t\"0\"\n}\n";
    let danach = wiederhergestellt(nachher, gesichert.as_deref()).unwrap_or_else(|| nachher.to_string());
    assert_eq!(last_played_aus_manifest(&danach), gesichert);
    // An empty value reads as none, so nothing is saved.
    assert_eq!(zu_sichernder_wert("\"LastPlayed\"\t\t\"\"\n"), None);
}

use famulus_games::steamcmd::update_vorbereiten;

#[test]
fn update_pruefungen_in_ihrer_reihenfolge() {
    let e = update_vorbereiten(false, false, "/kein/pfad", "480").unwrap_err();
    assert_eq!(e.meldung(), "SteamCMD nicht gefunden (brew install --cask steamcmd)");
    let e = update_vorbereiten(true, false, "x", "480").unwrap_err();
    assert_eq!(e.meldung(), "SteamCMD: nicht angemeldet – erst unten rechts anmelden");
    let e = update_vorbereiten(true, true, "x", "480").unwrap_err();
    assert_eq!(e.meldung(), "Pfad liegt nicht in steamapps/common/...");
    let p = update_vorbereiten(true, true, "/S/steamapps/common/Spacewar", "480").unwrap();
    assert_eq!(p.client_manifest, "/S/steamapps/appmanifest_480.acf");
    assert_eq!(p.ziel_manifest, "/S/steamapps/common/Spacewar/steamapps/appmanifest_480.acf");
}
